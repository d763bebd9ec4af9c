use std::collections::BTreeMap;

use cucumber::colors::RawColorConstants;
use cucumber::commands::CucumberCommand;
use cucumber::editor::{
    command_action, handle_command, handle_event, is_dirty, CommandAction, EditorAction, EditorEvent, EditorState,
    LOG_CAPACITY,
};
use cucumber::extractor::RawColorGoodies;
use cucumber::goodies::GeneralGoodies;
use cucumber::methods::{MethodDescription, PaletteColorMethods, RawColorMethods};
use cucumber::types::{
    AbsoluteColor, CompositingMode, CucumberBitwigTheme, NamedColor, Stage, StageProgress, ThemeOperation,
    ThemeProcessingEvent,
};

fn empty_state() -> EditorState {
    EditorState {
        theme: None,
        goodies: None,
        changed_colors: Vec::new(),
        selected_color: None,
        log: Vec::new(),
        progress: None,
    }
}

fn method(name: &str) -> MethodDescription {
    MethodDescription {
        class: "pal".to_string(),
        method: name.to_string(),
        signature: "()V".to_string(),
        signature_kind: None,
    }
}

fn goodies(init: &str) -> GeneralGoodies {
    GeneralGoodies {
        init_class: init.to_string(),
        named_colors: vec![],
        palette_color_methods: PaletteColorMethods {
            grayscale_i: method("gray"),
            rgb_i: method("rgb"),
            rgba_i_absolute: method("rgba"),
            rgba_i_blended_on_background: method("blend"),
            hsv_f_relative_to_background: method("hsv"),
            ref_hsv_f: method("refHsv"),
            name_hsv_f: method("nameHsv"),
        },
        raw_colors: RawColorGoodies {
            methods: RawColorMethods { rgba_f: method("<init>"), rgba_d: method("<init>") },
            constants: RawColorConstants { consts: vec![] },
        },
        timeline_color_ref: None,
        release_metadata: vec![],
        named_color_getter_1: method("get"),
        named_color_getter_invocations: vec![],
    }
}

fn theme(name: &str) -> CucumberBitwigTheme {
    CucumberBitwigTheme { name: name.to_string(), named_colors: BTreeMap::new(), constant_refs: BTreeMap::new() }
}

fn parsed(list: &[&str]) -> EditorEvent {
    EditorEvent::JarParsed { theme: theme("Loaded"), goodies: goodies("init.class"), color_names: names(list) }
}

fn absolute(r: u8) -> NamedColor {
    NamedColor::Absolute(AbsoluteColor { r, g: 0, b: 0, a: 255, compositing_mode: CompositingMode::Absolute })
}

fn names(list: &[&str]) -> Vec<String> {
    list.iter().map(|s| s.to_string()).collect()
}

#[test]
fn loaded_theme_selects_on_first() {
    let mut state = empty_state();
    let a = handle_event(
        &mut state,
        parsed(&["Accent (default)", "On", "Off"]),
    );
    assert!(matches!(a, EditorAction::Nothing));
    assert_eq!(state.selected_color.as_deref(), Some("On"));
    assert_eq!(state.theme.as_ref().unwrap().name, "Loaded");
    assert_eq!(state.goodies.as_ref().unwrap().init_class, "init.class");
}

#[test]
fn loaded_theme_falls_back_to_accent() {
    let mut state = empty_state();
    handle_event(&mut state, parsed(&["Off", "Accent (default)"]));
    assert_eq!(state.selected_color.as_deref(), Some("Accent (default)"));
}

#[test]
fn loaded_theme_without_defaults_selects_nothing() {
    let mut state = empty_state();
    handle_event(&mut state, parsed(&["Off", "Background"]));
    assert_eq!(state.selected_color, None);
}

#[test]
fn loaded_theme_keeps_a_selection() {
    let mut state = empty_state();
    state.selected_color = Some("Background".to_string());
    handle_event(&mut state, parsed(&["On"]));
    assert_eq!(state.selected_color.as_deref(), Some("Background"));
}

#[test]
fn progress_is_shown_until_done() {
    let mut state = empty_state();
    let event = ThemeProcessingEvent { stage: Stage::ScanningClasses, progress: StageProgress::Percentage(3, 10) };
    let a = handle_event(&mut state, EditorEvent::Operation { event, operation: ThemeOperation::LoadingFromJar });
    assert!(matches!(a, EditorAction::Nothing));
    let p = state.progress.unwrap();
    assert_eq!(p.operation, ThemeOperation::LoadingFromJar);
    assert_eq!(p.stage, Stage::ScanningClasses);
    assert_eq!(p.fraction, Some((3, 10)));

    let event = ThemeProcessingEvent { stage: Stage::WritingTheme, progress: StageProgress::Unknown };
    handle_event(&mut state, EditorEvent::Operation { event, operation: ThemeOperation::WritingToJar });
    assert_eq!(state.progress.unwrap().fraction, None);

    let event = ThemeProcessingEvent { stage: Stage::WritingTheme, progress: StageProgress::Done };
    let a = handle_event(&mut state, EditorEvent::Operation { event, operation: ThemeOperation::WritingToJar });
    assert!(state.progress.is_none());
    match a {
        EditorAction::NotifySuccess(t) => assert_eq!(t, "Writing to JAR: Writing Theme"),
        EditorAction::Nothing => panic!("expected a notice"),
    }
}

#[test]
fn log_keeps_the_newest_lines() {
    let mut state = empty_state();
    for i in 0..LOG_CAPACITY + 2 {
        handle_event(&mut state, EditorEvent::Text(format!("line {}", i)));
    }
    assert_eq!(state.log.len(), LOG_CAPACITY);
    assert_eq!(state.log[0], "line 2");
    assert_eq!(state.log[LOG_CAPACITY - 1], format!("line {}", LOG_CAPACITY + 1));
}

#[test]
fn commands_ask_for_their_actions() {
    assert_eq!(command_action(CucumberCommand::Quit, false), CommandAction::Exit);
    assert_eq!(command_action(CucumberCommand::ToggleTheme, false), CommandAction::ToggleTheme);
    assert_eq!(command_action(CucumberCommand::ToggleCommandPalette, true), CommandAction::ToggleCommandPalette);
    assert_eq!(command_action(CucumberCommand::ZoomIn, false), CommandAction::ZoomIn);
    assert_eq!(command_action(CucumberCommand::ZoomOut, false), CommandAction::ZoomOut);
    assert_eq!(command_action(CucumberCommand::ZoomReset, false), CommandAction::ZoomReset);
    assert_eq!(command_action(CucumberCommand::ToggleFullscreen, true), CommandAction::Nothing);
}

#[test]
fn saving_needs_changes() {
    assert!(!is_dirty(0));
    assert!(is_dirty(2));
    assert_eq!(command_action(CucumberCommand::SaveJar, is_dirty(0)), CommandAction::Nothing);
    assert_eq!(command_action(CucumberCommand::SaveJar, is_dirty(1)), CommandAction::Save);
}

#[test]
fn saving_hands_over_the_changed_colors_once() {
    let mut state = empty_state();
    state.changed_colors = vec![("Background".to_string(), absolute(9))];
    let (a, changes) = handle_command(&mut state, CucumberCommand::SaveJar);
    assert_eq!(a, CommandAction::Save);
    let changes = changes.unwrap();
    assert_eq!(changes.len(), 1);
    assert_eq!(changes[0].0, "Background");
    assert!(state.changed_colors.is_empty());
    let (a, changes) = handle_command(&mut state, CucumberCommand::SaveJar);
    assert_eq!(a, CommandAction::Nothing);
    assert!(changes.is_none());
    let (a, changes) = handle_command(&mut state, CucumberCommand::ZoomIn);
    assert_eq!(a, CommandAction::ZoomIn);
    assert!(changes.is_none());
}
