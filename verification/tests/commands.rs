use cucumber::commands::{
    all_commands, command_channel, CommandSender, CucumberCommand, CucumberCommandSender, Key, KeyboardShortcut,
    Modifiers,
};

fn clashes(a: KeyboardShortcut, b: KeyboardShortcut) -> bool {
    if a.logical_key != b.logical_key {
        return false;
    }

    if a.modifiers.alt != b.modifiers.alt {
        return false;
    }

    if a.modifiers.shift != b.modifiers.shift {
        return false;
    }

    // On Non-Mac, command is interpreted as ctrl!
    (a.modifiers.command || a.modifiers.ctrl) == (b.modifiers.command || b.modifiers.ctrl)
}

#[test]
fn check_for_clashing_command_shortcuts() {
    for a_cmd in all_commands() {
        for a_shortcut in a_cmd.kb_shortcuts() {
            for b_cmd in all_commands() {
                if a_cmd == b_cmd {
                    continue;
                }
                for b_shortcut in b_cmd.kb_shortcuts() {
                    assert!(
                        !clashes(a_shortcut, b_shortcut),
                        "Command '{a_cmd:?}' and '{b_cmd:?}' have overlapping keyboard shortcuts: {:?} vs {:?}",
                        a_shortcut,
                        b_shortcut,
                    );
                }
            }
        }
    }
}

fn command_mod() -> Modifiers {
    Modifiers { alt: false, ctrl: false, shift: false, mac_cmd: false, command: true }
}

#[test]
fn command_texts_and_tooltips() {
    assert_eq!(CucumberCommand::Quit.text(), "Quit");
    assert_eq!(CucumberCommand::Quit.tooltip(), "Close the Rerun Viewer");
    assert_eq!(
        CucumberCommand::ZoomReset.text_and_tooltip(),
        ("Reset zoom", "Resets the UI zoom level to the operating system's default value")
    );
    assert_eq!(CucumberCommand::ToggleCommandPalette.text(), "Command palette…");
    assert_eq!(CucumberCommand::SaveJar.tooltip(), "Save the current workspace to a JAR file");
    assert_eq!(all_commands().len(), 8);
}

#[test]
fn zoom_shortcuts_come_from_egui() {
    let zoom_in = CucumberCommand::ZoomIn.kb_shortcuts();
    assert_eq!(zoom_in, vec![KeyboardShortcut { modifiers: command_mod(), logical_key: Key::Plus }]);
    let zoom_out = CucumberCommand::ZoomOut.kb_shortcuts();
    assert_eq!(zoom_out, vec![KeyboardShortcut { modifiers: command_mod(), logical_key: Key::Minus }]);
    let reset = CucumberCommand::ZoomReset.primary_kb_shortcut();
    assert_eq!(reset, Some(KeyboardShortcut { modifiers: command_mod(), logical_key: Key::Num0 }));
}

#[test]
fn plain_and_command_shortcuts() {
    let theme = CucumberCommand::ToggleTheme.primary_kb_shortcut().unwrap();
    assert_eq!(theme.logical_key, Key::F12);
    assert!(!theme.modifiers.command);
    let quit = CucumberCommand::Quit.primary_kb_shortcut().unwrap();
    assert_eq!(quit, KeyboardShortcut { modifiers: command_mod(), logical_key: Key::Q });
}

#[test]
fn command_channel_queues_in_order() {
    let (sender, receiver) = command_channel();
    assert_eq!(receiver.recv(), None);
    sender.send_ui(CucumberCommand::ToggleTheme);
    sender.send_ui(CucumberCommand::SaveJar);
    assert_eq!(receiver.recv(), Some(CucumberCommand::ToggleTheme));
    assert_eq!(receiver.recv(), Some(CucumberCommand::SaveJar));
    assert_eq!(receiver.recv(), None);
    let _unused: Option<CommandSender> = None;
}
