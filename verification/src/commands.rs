//! The commands of the theme editor, their texts and keyboard shortcuts,
//! and the channel that queues them for execution.
use crate::chars::chars_of;
use vstd::prelude::*;

verus! {

/// Interface for sending commands.
pub trait CucumberCommandSender {
    fn send_ui(&self, command: CucumberCommand);
}

/// All the commands the editor supports.
#[derive(PartialEq, Eq, Structural, Clone, Copy, Debug, Hash)]
pub enum CucumberCommand {
    Quit,
    ToggleTheme,
    ToggleFullscreen,
    ToggleCommandPalette,
    ZoomIn,
    ZoomOut,
    ZoomReset,
    SaveJar,
}

/// Keyboard modifiers. `command` is the platform's command key (`Cmd` on
/// Mac, `Ctrl` elsewhere).
#[derive(PartialEq, Eq, Structural, Clone, Copy, Debug, Hash)]
pub struct Modifiers {
    pub alt: bool,
    pub ctrl: bool,
    pub shift: bool,
    pub mac_cmd: bool,
    pub command: bool,
}

/// The keys the editor's shortcuts use.
#[derive(PartialEq, Eq, Structural, Clone, Copy, Debug, Hash)]
pub enum Key {
    F11,
    F12,
    Minus,
    Num0,
    P,
    Plus,
    Q,
    S,
}

/// A key together with the modifiers held down with it.
#[derive(PartialEq, Eq, Structural, Clone, Copy, Debug, Hash)]
pub struct KeyboardShortcut {
    pub modifiers: Modifiers,
    pub logical_key: Key,
}

pub open spec fn no_modifiers() -> Modifiers {
    Modifiers { alt: false, ctrl: false, shift: false, mac_cmd: false, command: false }
}

pub open spec fn command_modifier() -> Modifiers {
    Modifiers { alt: false, ctrl: false, shift: false, mac_cmd: false, command: true }
}

/// The commands, in declaration order.
pub open spec fn spec_all_commands() -> Seq<CucumberCommand> {
    seq![
        CucumberCommand::Quit,
        CucumberCommand::ToggleTheme,
        CucumberCommand::ToggleFullscreen,
        CucumberCommand::ToggleCommandPalette,
        CucumberCommand::ZoomIn,
        CucumberCommand::ZoomOut,
        CucumberCommand::ZoomReset,
        CucumberCommand::SaveJar,
    ]
}

/// Name and tooltip of each command.
pub open spec fn spec_text_and_tooltip(c: CucumberCommand) -> (Seq<char>, Seq<char>) {
    match c {
        CucumberCommand::Quit => ("Quit"@, "Close the Rerun Viewer"@),
        CucumberCommand::ToggleTheme => ("Toggle theme"@, "Switch between light and dark themes"@),
        CucumberCommand::ToggleFullscreen => ("Toggle fullscreen"@, "Toggle between windowed and fullscreen viewer"@),
        CucumberCommand::ZoomIn => ("Zoom in"@, "Increases the UI zoom level"@),
        CucumberCommand::ZoomOut => ("Zoom out"@, "Decreases the UI zoom level"@),
        CucumberCommand::ZoomReset => ("Reset zoom"@, "Resets the UI zoom level to the operating system's default value"@),
        CucumberCommand::ToggleCommandPalette => ("Command palette…"@, "Toggle the Command Palette"@),
        CucumberCommand::SaveJar => ("Save JAR"@, "Save the current workspace to a JAR file"@),
    }
}

/// The keyboard shortcuts of each command, primary first.
pub open spec fn spec_kb_shortcuts(c: CucumberCommand) -> Seq<KeyboardShortcut> {
    match c {
        CucumberCommand::Quit => seq![KeyboardShortcut { modifiers: command_modifier(), logical_key: Key::Q }],
        CucumberCommand::ToggleTheme => seq![KeyboardShortcut { modifiers: no_modifiers(), logical_key: Key::F12 }],
        CucumberCommand::ToggleFullscreen => seq![
            KeyboardShortcut { modifiers: no_modifiers(), logical_key: Key::F11 },
        ],
        CucumberCommand::ToggleCommandPalette => seq![
            KeyboardShortcut { modifiers: command_modifier(), logical_key: Key::P },
        ],
        CucumberCommand::ZoomIn => seq![KeyboardShortcut { modifiers: command_modifier(), logical_key: Key::Plus }],
        CucumberCommand::ZoomOut => seq![KeyboardShortcut { modifiers: command_modifier(), logical_key: Key::Minus }],
        CucumberCommand::ZoomReset => seq![KeyboardShortcut { modifiers: command_modifier(), logical_key: Key::Num0 }],
        CucumberCommand::SaveJar => seq![KeyboardShortcut { modifiers: command_modifier(), logical_key: Key::S }],
    }
}

/// Two shortcuts clash when the same key with the same alt and shift
/// state triggers both, command and ctrl counting as the same modifier.
pub open spec fn clashes(a: KeyboardShortcut, b: KeyboardShortcut) -> bool {
    &&& a.logical_key == b.logical_key
    &&& a.modifiers.alt == b.modifiers.alt
    &&& a.modifiers.shift == b.modifiers.shift
    &&& (a.modifiers.command || a.modifiers.ctrl) == (b.modifiers.command || b.modifiers.ctrl)
}

impl CucumberCommand {
    pub fn text(self) -> (s: &'static str)
        ensures
            s@ == spec_text_and_tooltip(self).0,
    {
        self.text_and_tooltip().0
    }

    pub fn tooltip(self) -> (s: &'static str)
        ensures
            s@ == spec_text_and_tooltip(self).1,
    {
        self.text_and_tooltip().1
    }

    pub fn text_and_tooltip(self) -> (r: (&'static str, &'static str))
        ensures
            r.0@ == spec_text_and_tooltip(self).0,
            r.1@ == spec_text_and_tooltip(self).1,
    {
        match self {
            CucumberCommand::Quit => ("Quit", "Close the Rerun Viewer"),
            CucumberCommand::ToggleTheme => ("Toggle theme", "Switch between light and dark themes"),
            CucumberCommand::ToggleFullscreen => (
                "Toggle fullscreen",
                "Toggle between windowed and fullscreen viewer",
            ),
            CucumberCommand::ZoomIn => ("Zoom in", "Increases the UI zoom level"),
            CucumberCommand::ZoomOut => ("Zoom out", "Decreases the UI zoom level"),
            CucumberCommand::ZoomReset => (
                "Reset zoom",
                "Resets the UI zoom level to the operating system's default value",
            ),
            CucumberCommand::ToggleCommandPalette => ("Command palette…", "Toggle the Command Palette"),
            CucumberCommand::SaveJar => ("Save JAR", "Save the current workspace to a JAR file"),
        }
    }
}

/// The key egui names `name` (see `egui::Key::name`), among the keys the
/// editor's shortcuts use.
pub open spec fn key_named(name: Seq<char>) -> Option<Key> {
    if name == "F11"@ {
        Some(Key::F11)
    } else if name == "F12"@ {
        Some(Key::F12)
    } else if name == "Minus"@ {
        Some(Key::Minus)
    } else if name == "0"@ {
        Some(Key::Num0)
    } else if name == "P"@ {
        Some(Key::P)
    } else if name == "Plus"@ {
        Some(Key::Plus)
    } else if name == "Q"@ {
        Some(Key::Q)
    } else if name == "S"@ {
        Some(Key::S)
    } else {
        None
    }
}

fn same_str(a: &str, b: &str) -> (r: bool)
    ensures
        r == (a@ == b@),
{
    String::from_str(a) == String::from_str(b)
}

/// The key with egui name `name`.
pub fn key_by_name(name: &str) -> (r: Option<Key>)
    ensures
        r == key_named(name@),
{
    if same_str(name, "F11") {
        Some(Key::F11)
    } else if same_str(name, "F12") {
        Some(Key::F12)
    } else if same_str(name, "Minus") {
        Some(Key::Minus)
    } else if same_str(name, "0") {
        Some(Key::Num0)
    } else if same_str(name, "P") {
        Some(Key::P)
    } else if same_str(name, "Plus") {
        Some(Key::Plus)
    } else if same_str(name, "Q") {
        Some(Key::Q)
    } else if same_str(name, "S") {
        Some(Key::S)
    } else {
        None
    }
}

/// Modifiers and key name of `egui::gui_zoom::kb_shortcuts::ZOOM_IN`,
/// which egui defines as the command modifier with `Key::Plus` (named
/// `"Plus"`).
#[verifier::external_body]
fn egui_zoom_in() -> (r: (Modifiers, &'static str))
    ensures
        r.0 == command_modifier(),
        r.1@ == "Plus"@,
{
    let s = egui::gui_zoom::kb_shortcuts::ZOOM_IN;
    let m = s.modifiers;
    (Modifiers { alt: m.alt, ctrl: m.ctrl, shift: m.shift, mac_cmd: m.mac_cmd, command: m.command }, s.logical_key.name())
}

/// Modifiers and key name of `egui::gui_zoom::kb_shortcuts::ZOOM_OUT`,
/// which egui defines as the command modifier with `Key::Minus` (named
/// `"Minus"`).
#[verifier::external_body]
fn egui_zoom_out() -> (r: (Modifiers, &'static str))
    ensures
        r.0 == command_modifier(),
        r.1@ == "Minus"@,
{
    let s = egui::gui_zoom::kb_shortcuts::ZOOM_OUT;
    let m = s.modifiers;
    (Modifiers { alt: m.alt, ctrl: m.ctrl, shift: m.shift, mac_cmd: m.mac_cmd, command: m.command }, s.logical_key.name())
}

/// Modifiers and key name of `egui::gui_zoom::kb_shortcuts::ZOOM_RESET`,
/// which egui defines as the command modifier with `Key::Num0` (named
/// `"0"`).
#[verifier::external_body]
fn egui_zoom_reset() -> (r: (Modifiers, &'static str))
    ensures
        r.0 == command_modifier(),
        r.1@ == "0"@,
{
    let s = egui::gui_zoom::kb_shortcuts::ZOOM_RESET;
    let m = s.modifiers;
    (Modifiers { alt: m.alt, ctrl: m.ctrl, shift: m.shift, mac_cmd: m.mac_cmd, command: m.command }, s.logical_key.name())
}

/// The shortcut made of egui's modifiers and key name.
fn egui_shortcut(r: (Modifiers, &'static str)) -> (v: Vec<KeyboardShortcut>)
    ensures
        match key_named(r.1@) {
            Some(k) => v@ == seq![KeyboardShortcut { modifiers: r.0, logical_key: k }],
            None => v@.len() == 0,
        },
{
    match key_by_name(r.1) {
        Some(k) => one(KeyboardShortcut { modifiers: r.0, logical_key: k }),
        None => Vec::new(),
    }
}

fn one(s: KeyboardShortcut) -> (v: Vec<KeyboardShortcut>)
    ensures
        v@ == seq![s],
{
    let v = vec![s];
    assert(v@ =~= seq![s]);
    v
}

fn cmd(key: Key) -> (s: KeyboardShortcut)
    ensures
        s == (KeyboardShortcut { modifiers: command_modifier(), logical_key: key }),
{
    KeyboardShortcut {
        modifiers: Modifiers { alt: false, ctrl: false, shift: false, mac_cmd: false, command: true },
        logical_key: key,
    }
}

fn plain(key: Key) -> (s: KeyboardShortcut)
    ensures
        s == (KeyboardShortcut { modifiers: no_modifiers(), logical_key: key }),
{
    KeyboardShortcut {
        modifiers: Modifiers { alt: false, ctrl: false, shift: false, mac_cmd: false, command: false },
        logical_key: key,
    }
}

impl CucumberCommand {
    /// All keyboard shortcuts, with the primary first.
    pub fn kb_shortcuts(self) -> (v: Vec<KeyboardShortcut>)
        ensures
            v@ == spec_kb_shortcuts(self),
    {
        proof {
            reveal_strlit("F11");
            reveal_strlit("F12");
            reveal_strlit("Minus");
            reveal_strlit("0");
            reveal_strlit("P");
            reveal_strlit("Plus");
            reveal_strlit("Q");
            reveal_strlit("S");
            assert("Plus"@.len() == 4 && "Minus"@.len() == 5 && "F11"@.len() == 3 && "F12"@.len() == 3);
            assert("0"@.len() == 1 && "P"@.len() == 1 && "Q"@.len() == 1 && "S"@.len() == 1);
        }
        match self {
            CucumberCommand::Quit => one(cmd(Key::Q)),
            CucumberCommand::ToggleTheme => one(plain(Key::F12)),
            CucumberCommand::ToggleFullscreen => one(plain(Key::F11)),
            CucumberCommand::ToggleCommandPalette => one(cmd(Key::P)),
            CucumberCommand::ZoomIn => {
                let z = egui_zoom_in();
                assert(key_named(z.1@) == Some(Key::Plus));
                egui_shortcut(z)
            },
            CucumberCommand::ZoomOut => {
                let z = egui_zoom_out();
                assert(key_named(z.1@) == Some(Key::Minus));
                egui_shortcut(z)
            },
            CucumberCommand::ZoomReset => {
                let z = egui_zoom_reset();
                assert(key_named(z.1@) == Some(Key::Num0));
                egui_shortcut(z)
            },
            CucumberCommand::SaveJar => one(cmd(Key::S)),
        }
    }

    /// The primary keyboard shortcut.
    pub fn primary_kb_shortcut(self) -> (r: Option<KeyboardShortcut>)
        ensures
            r == (if spec_kb_shortcuts(self).len() > 0 {
                Some(spec_kb_shortcuts(self)[0])
            } else {
                None
            }),
    {
        let v = self.kb_shortcuts();
        if v.len() > 0 {
            Some(v[0])
        } else {
            None
        }
    }
}

/// All commands, in declaration order.
pub fn all_commands() -> (v: Vec<CucumberCommand>)
    ensures
        v@ == spec_all_commands(),
{
    let v = vec![
        CucumberCommand::Quit,
        CucumberCommand::ToggleTheme,
        CucumberCommand::ToggleFullscreen,
        CucumberCommand::ToggleCommandPalette,
        CucumberCommand::ZoomIn,
        CucumberCommand::ZoomOut,
        CucumberCommand::ZoomReset,
        CucumberCommand::SaveJar,
    ];
    assert(v@ =~= spec_all_commands());
    v
}

/// No two different commands have clashing keyboard shortcuts.
pub proof fn lemma_no_clashing_shortcuts(a: CucumberCommand, b: CucumberCommand, i: int, j: int)
    requires
        a != b,
        0 <= i < spec_kb_shortcuts(a).len(),
        0 <= j < spec_kb_shortcuts(b).len(),
    ensures
        !clashes(spec_kb_shortcuts(a)[i], spec_kb_shortcuts(b)[j]),
{
}

/// Every command is listed once.
pub proof fn lemma_all_commands_complete(c: CucumberCommand)
    ensures
        spec_all_commands().contains(c),
{
    match c {
        CucumberCommand::Quit => assert(spec_all_commands()[0] == c),
        CucumberCommand::ToggleTheme => assert(spec_all_commands()[1] == c),
        CucumberCommand::ToggleFullscreen => assert(spec_all_commands()[2] == c),
        CucumberCommand::ToggleCommandPalette => assert(spec_all_commands()[3] == c),
        CucumberCommand::ZoomIn => assert(spec_all_commands()[4] == c),
        CucumberCommand::ZoomOut => assert(spec_all_commands()[5] == c),
        CucumberCommand::ZoomReset => assert(spec_all_commands()[6] == c),
        CucumberCommand::SaveJar => assert(spec_all_commands()[7] == c),
    }
}

/// Sender that queues up the execution of a command.
pub struct CommandSender(std::sync::mpsc::Sender<CucumberCommand>);

impl CucumberCommandSender for CommandSender {
    /// Sends a command to be executed; a command sent after the receiver
    /// is gone is dropped.
    fn send_ui(&self, command: CucumberCommand) {
        send_command(&self.0, command);
    }
}

/// Receiver for the `CommandSender`.
pub struct CommandReceiver(std::sync::mpsc::Receiver<CucumberCommand>);

/// Whether `sender` and `receiver` are the two ends of one channel: what
/// the sender sends, the receiver receives.
pub closed spec fn connected(sender: &CommandSender, receiver: &CommandReceiver) -> bool {
    same_channel(sender.0, receiver.0)
}

impl CommandReceiver {
    /// Receives a command to be executed, if any is queued.
    pub fn recv(&self) -> Option<CucumberCommand> {
        try_receive(&self.0)
    }
}

/// Creates a new command channel: a sender and the receiver of what it
/// sends.
pub fn command_channel() -> (r: (CommandSender, CommandReceiver))
    ensures
        connected(&r.0, &r.1),
{
    let (sender, receiver) = new_channel();
    (CommandSender(sender), CommandReceiver(receiver))
}

#[verifier::external_type_specification]
#[verifier::external_body]
#[verifier::reject_recursive_types(T)]
pub struct ExSender<T>(std::sync::mpsc::Sender<T>);

#[verifier::external_type_specification]
#[verifier::external_body]
#[verifier::reject_recursive_types(T)]
pub struct ExReceiver<T>(std::sync::mpsc::Receiver<T>);

/// Whether `sender` and `receiver` belong to the same `std::sync::mpsc`
/// channel (a fact of the two values: each holds its channel for its
/// whole life).
pub uninterp spec fn same_channel(
    sender: std::sync::mpsc::Sender<CucumberCommand>,
    receiver: std::sync::mpsc::Receiver<CucumberCommand>,
) -> bool;

/// Calls `std::sync::mpsc::channel`, which, as its documentation says,
/// returns the sender and the receiver halves of one new channel. What
/// the channel will hold is left unsaid: other threads may send on it.
#[verifier::external_body]
fn new_channel() -> (r: (std::sync::mpsc::Sender<CucumberCommand>, std::sync::mpsc::Receiver<CucumberCommand>))
    ensures
        same_channel(r.0, r.1),
{
    std::sync::mpsc::channel()
}

/// Calls `Sender::send`; the only failure, a receiver that is gone, is
/// ignored.
#[verifier::external_body]
fn send_command(sender: &std::sync::mpsc::Sender<CucumberCommand>, command: CucumberCommand) {
    let _ = sender.send(command);
}

/// Calls `Receiver::try_recv`; an empty queue and a sender that is gone
/// both give `None`.
#[verifier::external_body]
fn try_receive(receiver: &std::sync::mpsc::Receiver<CucumberCommand>) -> Option<CucumberCommand> {
    match receiver.try_recv() {
        Ok(c) => Some(c),
        Err(_) => None,
    }
}

} // verus!
