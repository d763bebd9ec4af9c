//! Theme types shared by the analysis, the writer and the user interface.
use std::collections::BTreeMap;
use vstd::prelude::*;

verus! {

/// A color of a theme, by name.
pub enum NamedColor {
    Absolute(AbsoluteColor),
    Relative(Relative),
}

/// A color given by its components.
pub struct AbsoluteColor {
    pub r: u8,
    pub g: u8,
    pub b: u8,
    pub a: u8,
    pub compositing_mode: CompositingMode,
}

/// How a palette color is composed with what lies under it.
#[derive(PartialEq, Eq, Structural, Clone, Copy, Debug)]
pub enum CompositingMode {
    Absolute,
    RelativeToBackground,
    BlendedOnBackground,
}

/// A color defined relative to another one. The deltas are the bit
/// patterns of `f32` values.
pub struct Relative {
    pub base: RelativeColorBase,
    /// -360..360
    pub delta_hue: u32,
    /// -100..100
    pub delta_saturation: u32,
    /// -100..100
    pub delta_value: u32,
    /// -1..1
    pub delta_alpha: u32,
}

pub enum RelativeColorBase {
    /// A color of the main palette.
    Internal(String),
    /// A color defined in an external resource.
    External(String),
}

/// A part of the user interface that uses a raw color constant.
#[derive(PartialEq, Eq, Structural, Clone, Copy, Debug, PartialOrd, Ord, Hash)]
pub enum UiTarget {
    Playhead,
}

/// The raw color constants a theme can choose from.
#[derive(PartialEq, Eq, Structural, Clone, Copy, Debug)]
pub enum ColorConst {
    Black,
    White,
    Gray,
    DarkGray,
    LightGray,
    Red,
    Orange,
    Green,
    Blue,
    Yellow,
    Transparent,
    Violet,
}

/// The constant with exactly these components, if there is one.
pub open spec fn const_of_comps(r: u8, g: u8, b: u8, a: u8) -> Option<ColorConst> {
    if r == 0 && g == 0 && b == 0 && a == 255 {
        Some(ColorConst::Black)
    } else if r == 255 && g == 255 && b == 255 && a == 255 {
        Some(ColorConst::White)
    } else if r == 127 && g == 127 && b == 127 && a == 255 {
        Some(ColorConst::Gray)
    } else if r == 63 && g == 63 && b == 63 && a == 255 {
        Some(ColorConst::DarkGray)
    } else if r == 191 && g == 191 && b == 191 && a == 255 {
        Some(ColorConst::LightGray)
    } else if r == 255 && g == 0 && b == 0 && a == 255 {
        Some(ColorConst::Red)
    } else if r == 255 && g == 140 && b == 0 && a == 255 {
        Some(ColorConst::Orange)
    } else if r == 0 && g == 255 && b == 0 && a == 255 {
        Some(ColorConst::Green)
    } else if r == 0 && g == 0 && b == 255 && a == 255 {
        Some(ColorConst::Blue)
    } else if r == 255 && g == 255 && b == 0 && a == 255 {
        Some(ColorConst::Yellow)
    } else if r == 0 && g == 0 && b == 0 && a == 0 {
        Some(ColorConst::Transparent)
    } else if r == 169 && g == 169 && b == 254 && a == 255 {
        Some(ColorConst::Violet)
    } else {
        None
    }
}

/// The components `(r, g, b, a)` of each constant.
pub open spec fn comps_of(c: ColorConst) -> (u8, u8, u8, u8) {
    match c {
        ColorConst::Black => (0, 0, 0, 255),
        ColorConst::White => (255, 255, 255, 255),
        ColorConst::Gray => (127, 127, 127, 255),
        ColorConst::DarkGray => (63, 63, 63, 255),
        ColorConst::LightGray => (191, 191, 191, 255),
        ColorConst::Red => (255, 0, 0, 255),
        ColorConst::Orange => (255, 140, 0, 255),
        ColorConst::Green => (0, 255, 0, 255),
        ColorConst::Blue => (0, 0, 255, 255),
        ColorConst::Yellow => (255, 255, 0, 255),
        ColorConst::Transparent => (0, 0, 0, 0),
        ColorConst::Violet => (169, 169, 254, 255),
    }
}

/// Every constant is found again from its components, and only from them.
pub proof fn lemma_const_comps(c: ColorConst, r: u8, g: u8, b: u8, a: u8)
    ensures
        const_of_comps(comps_of(c).0, comps_of(c).1, comps_of(c).2, comps_of(c).3) == Some(c),
        const_of_comps(r, g, b, a) == Some(c) ==> (r, g, b, a) == comps_of(c),
{
}

impl ColorConst {
    /// The constant with components `(r, g, b, a)`, if there is one.
    pub fn try_from_comps(r: u8, g: u8, b: u8, a: u8) -> (c: Option<ColorConst>)
        ensures
            c == const_of_comps(r, g, b, a),
    {
        if r == 0 && g == 0 && b == 0 && a == 255 {
            Some(ColorConst::Black)
        } else if r == 255 && g == 255 && b == 255 && a == 255 {
            Some(ColorConst::White)
        } else if r == 127 && g == 127 && b == 127 && a == 255 {
            Some(ColorConst::Gray)
        } else if r == 63 && g == 63 && b == 63 && a == 255 {
            Some(ColorConst::DarkGray)
        } else if r == 191 && g == 191 && b == 191 && a == 255 {
            Some(ColorConst::LightGray)
        } else if r == 255 && g == 0 && b == 0 && a == 255 {
            Some(ColorConst::Red)
        } else if r == 255 && g == 140 && b == 0 && a == 255 {
            Some(ColorConst::Orange)
        } else if r == 0 && g == 255 && b == 0 && a == 255 {
            Some(ColorConst::Green)
        } else if r == 0 && g == 0 && b == 255 && a == 255 {
            Some(ColorConst::Blue)
        } else if r == 255 && g == 255 && b == 0 && a == 255 {
            Some(ColorConst::Yellow)
        } else if r == 0 && g == 0 && b == 0 && a == 0 {
            Some(ColorConst::Transparent)
        } else if r == 169 && g == 169 && b == 254 && a == 255 {
            Some(ColorConst::Violet)
        } else {
            None
        }
    }

    /// The constant with components `(r, g, b, a)`; only the components of
    /// one of the constants are accepted.
    pub fn from_comps(r: u8, g: u8, b: u8, a: u8) -> (c: ColorConst)
        requires
            const_of_comps(r, g, b, a) is Some,
        ensures
            const_of_comps(r, g, b, a) == Some(c),
    {
        match ColorConst::try_from_comps(r, g, b, a) {
            Some(c) => c,
            None => ColorConst::Black,
        }
    }
}

/// Progress report of a long running operation.
pub struct ThemeProcessingEvent {
    pub stage: Stage,
    pub progress: StageProgress,
}

#[derive(PartialEq, Eq, Structural, Clone, Copy, Debug)]
pub enum ThemeOperation {
    LoadingFromJar,
    ExtractingTheme,
    WritingToJar,
}

impl ThemeOperation {
    /// The operation's name as shown to the user.
    pub open spec fn text(self) -> Seq<char> {
        match self {
            ThemeOperation::LoadingFromJar => "Loading from JAR"@,
            ThemeOperation::ExtractingTheme => "Extracting Theme"@,
            ThemeOperation::WritingToJar => "Writing to JAR"@,
        }
    }

    pub fn as_str(&self) -> (s: &'static str)
        ensures
            s@ == self.text(),
    {
        match self {
            ThemeOperation::LoadingFromJar => "Loading from JAR",
            ThemeOperation::ExtractingTheme => "Extracting Theme",
            ThemeOperation::WritingToJar => "Writing to JAR",
        }
    }
}

#[derive(PartialEq, Eq, Structural, Clone, Copy, Debug)]
pub enum Stage {
    LoadingFileNames,
    ScanningClasses,
    SearchingColorDefinitions,
    ExtractingGeneralGoodies,
    ExtractingTheme,
    WritingTheme,
}

impl Stage {
    /// The stage's name as shown to the user.
    pub open spec fn text(self) -> Seq<char> {
        match self {
            Stage::LoadingFileNames => "Loading File Names"@,
            Stage::ScanningClasses => "Scanning Classes"@,
            Stage::SearchingColorDefinitions => "Searching Color Definitions"@,
            Stage::ExtractingGeneralGoodies => "Extracting General Goodies"@,
            Stage::ExtractingTheme => "Extracting Theme"@,
            Stage::WritingTheme => "Writing Theme"@,
        }
    }

    pub fn as_str(&self) -> (s: &'static str)
        ensures
            s@ == self.text(),
    {
        match self {
            Stage::LoadingFileNames => "Loading File Names",
            Stage::ScanningClasses => "Scanning Classes",
            Stage::SearchingColorDefinitions => "Searching Color Definitions",
            Stage::ExtractingGeneralGoodies => "Extracting General Goodies",
            Stage::ExtractingTheme => "Extracting Theme",
            Stage::WritingTheme => "Writing Theme",
        }
    }
}

impl From<Stage> for ThemeProcessingEvent {
    fn from(value: Stage) -> (e: Self) {
        ThemeProcessingEvent { stage: value, progress: StageProgress::Unknown }
    }
}

impl vstd::std_specs::convert::FromSpecImpl<Stage> for ThemeProcessingEvent {
    open spec fn obeys_from_spec() -> bool {
        true
    }

    open spec fn from_spec(v: Stage) -> Self {
        ThemeProcessingEvent { stage: v, progress: StageProgress::Unknown }
    }
}

/// How far a stage has come. `Percentage(done, total)` stands for the
/// fraction `done / total`.
#[derive(PartialEq, Eq, Structural, Clone, Copy, Debug)]
pub enum StageProgress {
    Unknown,
    Percentage(usize, usize),
    Done,
}

/// A theme: named palette colors and the raw constants used for some
/// user interface elements.
pub struct CucumberBitwigTheme {
    pub name: String,
    pub named_colors: BTreeMap<String, NamedColor>,
    pub constant_refs: BTreeMap<UiTarget, ColorConst>,
}

} // verus!
