//! The theme editor's decisions: what an event of the background work and
//! a command of the user do to what the editor shows, and what the editor
//! has to do in turn. Carrying the actions out is the user interface's.
use crate::bytes::bytes_eq;
use crate::commands::CucumberCommand;
use crate::text::{bytes_of, str_bytes, string_bytes};
use crate::goodies::GeneralGoodies;
use crate::types::{
    CucumberBitwigTheme, NamedColor as ThemeColor, Stage, StageProgress, ThemeOperation, ThemeProcessingEvent,
};
use vstd::prelude::*;

verus! {

/// Lines the editor's log keeps.
pub const LOG_CAPACITY: usize = 256;

/// The progress shown in the status bar: the operation, its stage and, when
/// known, how far the stage has come (`done` of `total`).
#[derive(Clone, Copy, Debug)]
pub struct Progress {
    pub operation: ThemeOperation,
    pub stage: Stage,
    pub fraction: Option<(usize, usize)>,
}

/// What the editor holds: the loaded theme and goodies, the colors changed
/// since the last save, the selection, the log and the progress shown.
pub struct EditorState {
    pub theme: Option<CucumberBitwigTheme>,
    pub goodies: Option<GeneralGoodies>,
    /// The changed colors by name, each name once.
    pub changed_colors: Vec<(String, ThemeColor)>,
    pub selected_color: Option<String>,
    /// The last lines reported, oldest first.
    pub log: Vec<String>,
    pub progress: Option<Progress>,
}

/// What the background work reports.
pub enum EditorEvent {
    /// A JAR was read: its theme, its goodies, and the names of the
    /// theme's colors (the keys of `theme.named_colors`).
    JarParsed { theme: CucumberBitwigTheme, goodies: GeneralGoodies, color_names: Vec<String> },
    /// An operation on a JAR went on.
    Operation { event: ThemeProcessingEvent, operation: ThemeOperation },
    /// A line for the log.
    Text(String),
}

/// What the editor has to do after an event.
pub enum EditorAction {
    Nothing,
    /// Show a notice that an operation is done.
    NotifySuccess(String),
}

/// What the editor has to do for a command.
#[derive(PartialEq, Eq, Structural, Clone, Copy, Debug)]
pub enum CommandAction {
    Exit,
    ToggleTheme,
    ToggleCommandPalette,
    /// Raise the zoom factor by a tenth.
    ZoomIn,
    /// Lower the zoom factor by a tenth.
    ZoomOut,
    /// Set the zoom factor to 1.
    ZoomReset,
    /// Write the changed colors into the JAR.
    Save,
    Nothing,
}

pub open spec fn opt_string_view(o: Option<String>) -> Option<Seq<char>> {
    match o {
        Some(s) => Some(s@),
        None => None,
    }
}

pub open spec fn strings_view(v: Seq<String>) -> Seq<Seq<char>> {
    v.map_values(|s: String| s@)
}

/// Whether one of `names` has the UTF-8 bytes `b`.
pub open spec fn has_name(names: Seq<String>, b: Seq<u8>) -> bool {
    exists|i: int| 0 <= i < names.len() && string_bytes(#[trigger] names[i]) == b
}

/// The color selected when a theme is loaded with none selected: `On`, or
/// else `Accent (default)`, if the theme has it.
pub open spec fn default_selection(names: Seq<String>) -> Option<Seq<char>> {
    if has_name(names, str_bytes("On")) {
        Some("On"@)
    } else if has_name(names, str_bytes("Accent (default)")) {
        Some("Accent (default)"@)
    } else {
        None
    }
}

/// The log after `line`: the oldest line leaves a full log first.
pub open spec fn logged(log: Seq<Seq<char>>, line: Seq<char>) -> Seq<Seq<char>> {
    if log.len() >= LOG_CAPACITY {
        log.drop_first().push(line)
    } else {
        log.push(line)
    }
}

/// The text of a notice that `operation` finished `stage`.
pub open spec fn done_text(operation: ThemeOperation, stage: Stage) -> Seq<char> {
    operation.text() + ": "@ + stage.text()
}

/// What event `e` does to state `s0`, giving `s1` and action `a`.
pub open spec fn event_handled(s0: EditorState, e: EditorEvent, s1: EditorState, a: EditorAction) -> bool {
    &&& s1.changed_colors == s0.changed_colors
    &&& match e {
        EditorEvent::JarParsed { theme, goodies, color_names } => {
            &&& s1.theme == Some(theme)
            &&& s1.goodies == Some(goodies)
            &&& opt_string_view(s1.selected_color) == (if s0.selected_color is None {
                default_selection(color_names@)
            } else {
                opt_string_view(s0.selected_color)
            })
            &&& strings_view(s1.log@) == strings_view(s0.log@)
            &&& s1.progress == s0.progress
            &&& a is Nothing
        },
        EditorEvent::Operation { event, operation } => {
            &&& s1.theme == s0.theme
            &&& s1.goodies == s0.goodies
            &&& opt_string_view(s1.selected_color) == opt_string_view(s0.selected_color)
            &&& strings_view(s1.log@) == strings_view(s0.log@)
            &&& match event.progress {
                StageProgress::Unknown => s1.progress == Some(
                    Progress { operation, stage: event.stage, fraction: None },
                ) && a is Nothing,
                StageProgress::Percentage(done, total) => s1.progress == Some(
                    Progress { operation, stage: event.stage, fraction: Some((done, total)) },
                ) && a is Nothing,
                StageProgress::Done => {
                    &&& s1.progress is None
                    &&& a matches EditorAction::NotifySuccess(t)
                    &&& t@ == done_text(operation, event.stage)
                },
            }
        },
        EditorEvent::Text(line) => {
            &&& s1.theme == s0.theme
            &&& s1.goodies == s0.goodies
            &&& opt_string_view(s1.selected_color) == opt_string_view(s0.selected_color)
            &&& strings_view(s1.log@) == logged(strings_view(s0.log@), line@)
            &&& s1.progress == s0.progress
            &&& a is Nothing
        },
    }
}

fn named(names: &Vec<String>, lit: &str) -> (r: bool)
    ensures
        r == has_name(names@, str_bytes(lit)),
{
    let mut i: usize = 0;
    while i < names.len()
        invariant
            i <= names@.len(),
            forall|j: int| 0 <= j < i ==> string_bytes(#[trigger] names@[j]) != str_bytes(lit),
        decreases names@.len() - i,
    {
        if bytes_eq(bytes_of(&names[i]), lit.as_bytes()) {
            return true;
        }
        i += 1;
    }
    false
}

/// Applies an event of the background work to the editor's state and says
/// what the editor has to do (see `event_handled`).
pub fn handle_event(state: &mut EditorState, event: EditorEvent) -> (a: EditorAction)
    ensures
        event_handled(*old(state), event, *final(state), a),
{
    match event {
        EditorEvent::JarParsed { theme, goodies, color_names } => {
            state.theme = Some(theme);
            state.goodies = Some(goodies);
            if state.selected_color.is_none() {
                if named(&color_names, "On") {
                    state.selected_color = Some(String::from_str("On"));
                } else if named(&color_names, "Accent (default)") {
                    state.selected_color = Some(String::from_str("Accent (default)"));
                }
            }
            EditorAction::Nothing
        },
        EditorEvent::Operation { event, operation } => match event.progress {
            StageProgress::Unknown => {
                state.progress = Some(Progress { operation, stage: event.stage, fraction: None });
                EditorAction::Nothing
            },
            StageProgress::Percentage(done, total) => {
                state.progress = Some(Progress { operation, stage: event.stage, fraction: Some((done, total)) });
                EditorAction::Nothing
            },
            StageProgress::Done => {
                state.progress = None;
                let mut t = String::from_str(operation.as_str());
                t.append(": ");
                t.append(event.stage.as_str());
                EditorAction::NotifySuccess(t)
            },
        },
        EditorEvent::Text(line) => {
            let ghost before = strings_view(state.log@);
            if state.log.len() >= LOG_CAPACITY {
                state.log.remove(0);
                assert(strings_view(state.log@) =~= before.drop_first());
            }
            let ghost mid = strings_view(state.log@);
            state.log.push(line);
            assert(strings_view(state.log@) =~= mid.push(line@));
            EditorAction::Nothing
        },
    }
}

/// The log never holds more than `LOG_CAPACITY` lines: an event leaves a
/// log within the capacity within it.
pub proof fn lemma_log_bounded(s0: EditorState, e: EditorEvent, s1: EditorState, a: EditorAction)
    requires
        event_handled(s0, e, s1, a),
        s0.log@.len() <= LOG_CAPACITY,
    ensures
        s1.log@.len() <= LOG_CAPACITY,
{
    assert(strings_view(s1.log@).len() == s1.log@.len());
    assert(strings_view(s0.log@).len() == s0.log@.len());
}

/// What a command asks of the editor; saving is asked only with changes
/// not yet written.
pub open spec fn spec_command_action(cmd: CucumberCommand, dirty: bool) -> CommandAction {
    match cmd {
        CucumberCommand::Quit => CommandAction::Exit,
        CucumberCommand::ToggleTheme => CommandAction::ToggleTheme,
        CucumberCommand::ToggleFullscreen => CommandAction::Nothing,
        CucumberCommand::ToggleCommandPalette => CommandAction::ToggleCommandPalette,
        CucumberCommand::ZoomIn => CommandAction::ZoomIn,
        CucumberCommand::ZoomOut => CommandAction::ZoomOut,
        CucumberCommand::ZoomReset => CommandAction::ZoomReset,
        CucumberCommand::SaveJar => if dirty {
            CommandAction::Save
        } else {
            CommandAction::Nothing
        },
    }
}

/// What command `cmd` asks of the editor, which has unsaved changes when
/// `dirty` (see `spec_command_action`).
pub fn command_action(cmd: CucumberCommand, dirty: bool) -> (a: CommandAction)
    ensures
        a == spec_command_action(cmd, dirty),
{
    match cmd {
        CucumberCommand::Quit => CommandAction::Exit,
        CucumberCommand::ToggleTheme => CommandAction::ToggleTheme,
        CucumberCommand::ToggleFullscreen => CommandAction::Nothing,
        CucumberCommand::ToggleCommandPalette => CommandAction::ToggleCommandPalette,
        CucumberCommand::ZoomIn => CommandAction::ZoomIn,
        CucumberCommand::ZoomOut => CommandAction::ZoomOut,
        CucumberCommand::ZoomReset => CommandAction::ZoomReset,
        CucumberCommand::SaveJar => if dirty {
            CommandAction::Save
        } else {
            CommandAction::Nothing
        },
    }
}

/// What command `cmd` does to the editor: the action asked for (see
/// `spec_command_action`, with unsaved changes when `changed_colors` is not
/// empty), and, for a save, the changed colors to write, which the editor
/// then no longer holds as unsaved. Nothing else changes.
pub fn handle_command(state: &mut EditorState, cmd: CucumberCommand) -> (r: (
    CommandAction,
    Option<Vec<(String, ThemeColor)>>,
))
    ensures
        r.0 == spec_command_action(cmd, old(state).changed_colors@.len() > 0),
        r.0 is Save <==> r.1 is Some,
        r.1 matches Some(c) ==> c@ == old(state).changed_colors@ && final(state).changed_colors@.len() == 0,
        r.1 is None ==> final(state).changed_colors == old(state).changed_colors,
        final(state).theme == old(state).theme,
        final(state).goodies == old(state).goodies,
        final(state).selected_color == old(state).selected_color,
        final(state).log == old(state).log,
        final(state).progress == old(state).progress,
{
    let a = command_action(cmd, is_dirty(state.changed_colors.len()));
    match a {
        CommandAction::Save => {
            let mut taken: Vec<(String, ThemeColor)> = Vec::new();
            std::mem::swap(&mut taken, &mut state.changed_colors);
            (a, Some(taken))
        },
        _ => (a, None),
    }
}

/// Whether the editor has changes not yet written.
pub fn is_dirty(changed_colors: usize) -> (r: bool)
    ensures
        r == (changed_colors > 0),
{
    changed_colors > 0
}

} // verus!
