//! Everything the theming needs to know about a JAR, collected in two
//! passes over its classes.
use crate::classfile::{class_fits, encode_class, ClassFile};
use crate::parse::{decodable, decode_class};
use crate::colors::{named_colors_view, ColorComponents, NamedColor, NamedColorView};
use crate::extractor::{
    extract_palette_color_methods, extract_raw_color_goodies, is_raw_class_readable, lemma_raw_ctor_class,
    class_name_chars, class_name_text, class_named, named_color_defs, palette_layouts_named, palette_of, palette_refs, raw_class_ok, raw_found, raw_goodies_of, scan_for_named_color_defs,
    RawColorGoodies,
};
use crate::introspection::{
    class_name_at, cp_class_name, extract_named_color_getter_1, getter_prefix, spec_named_getter_from,
};
use crate::invocations::{
    class_entries, entry_view, find_named_color_getter_1_invocations, InvocationView, NamedColorGetterInvocation,
};
use crate::legacy::TimelineColorReference;
use crate::methods::{MethodDescription, PaletteColorMethods};
use crate::scanner::{
    extract_release_metadata, is_useful_file, metadata_upto, pairs_view, spec_timeline_const, spec_useful_kind,
    UsefulFileType,
};
use crate::text::utf8_lossy;
use crate::types::{Stage, StageProgress, ThemeProcessingEvent};
use vstd::prelude::*;

verus! {

/// What the theming needs from a JAR.
pub struct GeneralGoodies {
    /// File name of the class holding the initialization marker.
    pub init_class: String,
    pub named_colors: Vec<NamedColor>,
    pub palette_color_methods: PaletteColorMethods,
    pub raw_colors: RawColorGoodies,
    pub timeline_color_ref: Option<TimelineColorReference>,
    pub release_metadata: Vec<(String, String)>,
    pub named_color_getter_1: MethodDescription,
    pub named_color_getter_invocations: Vec<(String, NamedColorGetterInvocation)>,
}

/// Why the goodies could not be collected.
pub enum GoodiesError {
    PaletteNotFound,
    InitClassNotFound,
    RawColorNotFound,
    NamedColorGetterNotFound,
    /// A class the analysis cannot read: a raw color class of which
    /// `raw_class_ok` does not hold (met by the first pass), or, once
    /// everything else is found, a class whose own name does not resolve or
    /// read as text (met by the second pass).
    UnreadableClass(String),
}

impl GoodiesError {
    /// A human readable description.
    pub fn message(&self) -> (s: String)
        ensures
            s@ == match self {
                GoodiesError::PaletteNotFound => "Palette not found"@,
                GoodiesError::InitClassNotFound => "Init class not found"@,
                GoodiesError::RawColorNotFound => "Raw color not found"@,
                GoodiesError::NamedColorGetterNotFound => "Named color getter not found"@,
                GoodiesError::UnreadableClass(n) => "Unreadable class: "@ + n@,
            },
    {
        match self {
            GoodiesError::PaletteNotFound => String::from_str("Palette not found"),
            GoodiesError::InitClassNotFound => String::from_str("Init class not found"),
            GoodiesError::RawColorNotFound => String::from_str("Raw color not found"),
            GoodiesError::NamedColorGetterNotFound => String::from_str("Named color getter not found"),
            GoodiesError::UnreadableClass(n) => {
                let mut s = String::from_str("Unreadable class: ");
                s.append(n.as_str());
                s
            },
        }
    }
}

/// What entry `i` is useful for (see `spec_useful_kind`); entries that are
/// not class files are useful for nothing.
pub open spec fn kind_at(cs: Seq<(String, Option<ClassFile>)>, i: int) -> Option<int> {
    match cs[i].1 {
        Some(c) => spec_useful_kind(c),
        None => None,
    }
}

/// Entry `i` is selected by the first pass for `which`: 0 palette (with
/// readable palette methods), 1 init, 2 crash report (with release
/// entries), 3 named color getter, 4 raw color (with both constructors),
/// 5 timeline color setter.
#[verifier::opaque]
pub open spec fn selected(cs: Seq<(String, Option<ClassFile>)>, i: int, which: int) -> bool {
    &&& kind_at(cs, i) == Some(which)
    &&& which == 0 ==> palette_refs(cs[i].1->0) is Some
    &&& which == 2 ==> metadata_upto(cs[i].1->0.cp@, cs[i].1->0.cp@.len() as int).len() > 0
    &&& which == 4 ==> raw_found(cs[i].1->0)
}

/// The last of the first `n` entries selected for `which`.
pub open spec fn last_selected(cs: Seq<(String, Option<ClassFile>)>, n: int, which: int) -> Option<int>
    decreases n,
{
    if n <= 0 {
        None
    } else if selected(cs, n - 1, which) {
        Some(n - 1)
    } else {
        last_selected(cs, n - 1, which)
    }
}

/// The last selected entry is one of the first `n`, and a class.
proof fn lemma_last_selected(cs: Seq<(String, Option<ClassFile>)>, n: int, which: int)
    requires
        n <= cs.len(),
    ensures
        last_selected(cs, n, which) matches Some(i) ==> 0 <= i < n && kind_at(cs, i) == Some(which) && cs[i].1 is Some,
    decreases n,
{
    reveal(selected);
    if n > 0 {
        lemma_last_selected(cs, n - 1, which);
    }
}

/// The classes the analysis can read: each names itself (see
/// `class_named`), and a raw color class satisfies `raw_class_ok`.
pub open spec fn classes_readable(cs: Seq<(String, Option<ClassFile>)>) -> bool {
    forall|i: int|
        0 <= i < cs.len() ==> ((#[trigger] cs[i]).1 matches Some(c) ==> (class_named(c) && (spec_useful_kind(c) == Some(4int) ==> raw_class_ok(c))))
}

/// The named colors the first `n` classes define with the palette's methods.
pub open spec fn all_named_color_defs(cs: Seq<(String, Option<ClassFile>)>, p: PaletteColorMethods, n: int) -> Seq<
    NamedColorView,
>
    decreases n,
{
    if n <= 0 {
        seq![]
    } else {
        all_named_color_defs(cs, p, n - 1) + match cs[n - 1].1 {
            Some(c) => named_color_defs(c, p),
            None => seq![],
        }
    }
}

/// The named color getter calls in the first `n` classes.
pub open spec fn all_getter_calls(cs: Seq<(String, Option<ClassFile>)>, g: MethodDescription, n: int) -> Seq<
    InvocationView,
>
    decreases n,
{
    if n <= 0 {
        seq![]
    } else {
        all_getter_calls(cs, g, n - 1) + match cs[n - 1].1 {
            Some(c) => class_entries(c, g, c.methods@.len() as int),
            None => seq![],
        }
    }
}

pub open spec fn progress(stage: Stage, p: StageProgress) -> ThemeProcessingEvent {
    ThemeProcessingEvent { stage, progress: p }
}

/// Progress of a pass over the entries after the first `k`: an event at
/// every 300th entry, starting with the first, when that entry is a class.
pub open spec fn pass_events(stage: Stage, cs: Seq<(String, Option<ClassFile>)>, k: int) -> Seq<
    ThemeProcessingEvent,
>
    decreases k,
{
    if k <= 0 {
        seq![]
    } else if (k - 1) % 300 == 0 && cs[k - 1].1 is Some {
        pass_events(stage, cs, k - 1).push(progress(stage, StageProgress::Percentage(k as usize, cs.len() as usize)))
    } else {
        pass_events(stage, cs, k - 1)
    }
}

/// Events of the first pass over the first `k` entries.
pub open spec fn first_pass_events_upto(cs: Seq<(String, Option<ClassFile>)>, k: int) -> Seq<ThemeProcessingEvent> {
    seq![
        progress(Stage::LoadingFileNames, StageProgress::Unknown),
        progress(Stage::ScanningClasses, StageProgress::Percentage(0, cs.len() as usize)),
    ] + pass_events(Stage::ScanningClasses, cs, k)
}

/// Events of the whole first pass.
pub open spec fn first_pass_events(cs: Seq<(String, Option<ClassFile>)>) -> Seq<ThemeProcessingEvent> {
    first_pass_events_upto(cs, cs.len() as int)
}

/// Events of the second pass.
pub open spec fn second_pass_events(cs: Seq<(String, Option<ClassFile>)>) -> Seq<ThemeProcessingEvent> {
    seq![progress(Stage::SearchingColorDefinitions, StageProgress::Percentage(0, cs.len() as usize))] + pass_events(
        Stage::SearchingColorDefinitions,
        cs,
        cs.len() as int,
    ) + seq![progress(Stage::SearchingColorDefinitions, StageProgress::Done)]
}

/// Two progress reports of one stage come in order: where both are
/// fractions, they have the same whole and the later part is not smaller.
pub open spec fn fraction_le(p: StageProgress, q: StageProgress) -> bool {
    match (p, q) {
        (StageProgress::Percentage(d1, t1), StageProgress::Percentage(d2, t2)) => t1 == t2 && d1 <= d2,
        _ => true,
    }
}

/// Progress events in order: the first starts loading the file names; no
/// fraction is above its whole; the fractions of one stage never go down;
/// and no scanning event comes after a searching one.
pub open spec fn progress_ordered(e: Seq<ThemeProcessingEvent>) -> bool {
    &&& e.len() > 0
    &&& e[0] == progress(Stage::LoadingFileNames, StageProgress::Unknown)
    &&& forall|i: int|
        0 <= i < e.len() ==> ((#[trigger] e[i]).progress matches StageProgress::Percentage(d, t) ==> d <= t)
    &&& forall|i: int, j: int|
        0 <= i < j < e.len() && (#[trigger] e[i]).stage == (#[trigger] e[j]).stage ==> fraction_le(
            e[i].progress,
            e[j].progress,
        )
    &&& forall|i: int, j: int|
        0 <= i < j < e.len() ==> !((#[trigger] e[i]).stage is SearchingColorDefinitions && (#[trigger] e[j]).stage is ScanningClasses)
}

proof fn lemma_pass_events(stage: Stage, cs: Seq<(String, Option<ClassFile>)>, k: int)
    requires
        0 <= k <= cs.len(),
        cs.len() <= usize::MAX,
    ensures
        forall|i: int|
            0 <= i < pass_events(stage, cs, k).len() ==> {
                let ev = #[trigger] pass_events(stage, cs, k)[i];
                &&& ev.stage == stage
                &&& ev.progress matches StageProgress::Percentage(d, t) && t == cs.len() && 1 <= d <= k
            },
        forall|i: int, j: int|
            0 <= i < j < pass_events(stage, cs, k).len() ==> (#[trigger] pass_events(stage, cs, k)[i]).progress->Percentage_0
                < (#[trigger] pass_events(stage, cs, k)[j]).progress->Percentage_0,
    decreases k,
{
    if k > 0 {
        lemma_pass_events(stage, cs, k - 1);
    }
}

/// The progress events that the collection of the goodies reports are in
/// order (see `progress_ordered`): those of a first pass stopped after
/// any entry, and those of both passes, which end with the search done.
pub proof fn lemma_progress_ordered(cs: Seq<(String, Option<ClassFile>)>, k: int)
    requires
        0 <= k <= cs.len(),
        cs.len() <= usize::MAX,
    ensures
        progress_ordered(first_pass_events_upto(cs, k)),
        progress_ordered(first_pass_events(cs) + second_pass_events(cs)),
        (first_pass_events(cs) + second_pass_events(cs)).last() == progress(
            Stage::SearchingColorDefinitions,
            StageProgress::Done,
        ),
{
    let n = cs.len() as int;
    lemma_pass_events(Stage::ScanningClasses, cs, k);
    lemma_pass_events(Stage::ScanningClasses, cs, n);
    lemma_pass_events(Stage::SearchingColorDefinitions, cs, n);
    let head = seq![
        progress(Stage::LoadingFileNames, StageProgress::Unknown),
        progress(Stage::ScanningClasses, StageProgress::Percentage(0, cs.len() as usize)),
    ];
    let a = pass_events(Stage::ScanningClasses, cs, k);
    let e1 = first_pass_events_upto(cs, k);
    assert(e1 == head + a);
    assert forall|i: int, j: int| 0 <= i < j < e1.len() && (#[trigger] e1[i]).stage == (#[trigger] e1[j]).stage implies fraction_le(
        e1[i].progress,
        e1[j].progress,
    ) by {
        if i >= 2 {
            assert(e1[i] == a[i - 2] && e1[j] == a[j - 2]);
        } else if j >= 2 {
            assert(e1[j] == a[j - 2]);
        }
    }
    assert forall|i: int| 0 <= i < e1.len() implies ((#[trigger] e1[i]).progress matches StageProgress::Percentage(d, t) ==> d <= t) by {
        if i >= 2 {
            assert(e1[i] == a[i - 2]);
        }
    }
    assert forall|i: int, j: int| 0 <= i < j < e1.len() implies !((#[trigger] e1[i]).stage is SearchingColorDefinitions && (
    #[trigger] e1[j]).stage is ScanningClasses) by {
        if i >= 2 {
            assert(e1[i] == a[i - 2]);
        }
    }
    let f = first_pass_events(cs);
    let b = pass_events(Stage::SearchingColorDefinitions, cs, n);
    let sp = second_pass_events(cs);
    let q0 = progress(Stage::SearchingColorDefinitions, StageProgress::Percentage(0, cs.len() as usize));
    let done = progress(Stage::SearchingColorDefinitions, StageProgress::Done);
    assert(sp == seq![q0] + b + seq![done]);
    let all = f + sp;
    let fl = f.len() as int;
    assert(fl == 2 + pass_events(Stage::ScanningClasses, cs, n).len());
    let a2 = pass_events(Stage::ScanningClasses, cs, n);
    assert(f == head + a2);
    assert forall|i: int| 0 <= i < all.len() implies ((#[trigger] all[i]).stage is ScanningClasses || all[i].stage is LoadingFileNames) == (i < fl) by {
        if i < 2 {
            assert(all[i] == head[i]);
        } else if i < fl {
            assert(all[i] == a2[i - 2]);
        } else if i == fl {
            assert(all[i] == q0);
        } else if i < fl + 1 + b.len() {
            assert(all[i] == b[i - fl - 1]);
        } else {
            assert(all[i] == done);
        }
    }
    assert forall|i: int| 0 <= i < all.len() implies ((#[trigger] all[i]).progress matches StageProgress::Percentage(d, t) ==> d <= t) by {
        if i < 2 {
            assert(all[i] == head[i]);
        } else if i < fl {
            assert(all[i] == a2[i - 2]);
        } else if i == fl {
            assert(all[i] == q0);
        } else if i < fl + 1 + b.len() {
            assert(all[i] == b[i - fl - 1]);
        } else {
            assert(all[i] == done);
        }
    }
    assert forall|i: int, j: int| 0 <= i < j < all.len() && (#[trigger] all[i]).stage == (#[trigger] all[j]).stage implies fraction_le(
        all[i].progress,
        all[j].progress,
    ) by {
        if j < fl {
            if i >= 2 {
                assert(all[i] == a2[i - 2] && all[j] == a2[j - 2]);
            } else if j >= 2 {
                assert(all[i] == head[i] && all[j] == a2[j - 2]);
            } else {
                assert(all[i] == head[i] && all[j] == head[j]);
            }
        } else if i >= fl {
            if j == all.len() - 1 {
                assert(all[j] == done);
            } else if i == fl {
                assert(all[i] == q0 && all[j] == b[j - fl - 1]);
            } else {
                assert(all[i] == b[i - fl - 1] && all[j] == b[j - fl - 1]);
            }
        } else {
            assert((all[i].stage is ScanningClasses || all[i].stage is LoadingFileNames));
            assert(!(all[j].stage is ScanningClasses || all[j].stage is LoadingFileNames));
        }
    }
    assert forall|i: int, j: int| 0 <= i < j < all.len() implies !((#[trigger] all[i]).stage is SearchingColorDefinitions && (
    #[trigger] all[j]).stage is ScanningClasses) by {
        assert(((all[i].stage is ScanningClasses || all[i].stage is LoadingFileNames)) == (i < fl));
        assert(((all[j].stage is ScanningClasses || all[j].stage is LoadingFileNames)) == (j < fl));
    }
    assert(all[0] == head[0]);
    assert(all.last() == done);
}

/// The description of the named color getter, found in the last getter
/// class, of the raw color class `raw_class`.
pub open spec fn getter_ref(cs: Seq<(String, Option<ClassFile>)>, raw_class: Seq<char>) -> Option<
    (Seq<char>, Seq<char>, Seq<char>),
> {
    match last_selected(cs, cs.len() as int, 3) {
        Some(i) => spec_named_getter_from(cs[i].1->0, vstd::utf8::encode_utf8(getter_prefix(raw_class)), 0),
        None => None,
    }
}

/// The class name of the raw color class selected by the first pass.
pub open spec fn raw_class_of(cs: Seq<(String, Option<ClassFile>)>) -> Seq<char> {
    let c = cs[last_selected(cs, cs.len() as int, 4)->0].1->0;
    class_name_chars(c)
}

/// The error the analysis of `cs` ends with, if any: the palette, the init
/// class, the raw color class and the named color getter are looked for
/// in that order.
pub open spec fn goodies_error(cs: Seq<(String, Option<ClassFile>)>) -> Option<int> {
    let n = cs.len() as int;
    if last_selected(cs, n, 0) is None {
        Some(0)
    } else if last_selected(cs, n, 1) is None {
        Some(1)
    } else if last_selected(cs, n, 4) is None {
        Some(2)
    } else if getter_ref(cs, raw_class_of(cs)) is None {
        Some(3)
    } else {
        None
    }
}

/// The number of the error, in the order of `goodies_error`, or 4 for an
/// unreadable class.
pub open spec fn error_number(e: GoodiesError) -> int {
    match e {
        GoodiesError::PaletteNotFound => 0,
        GoodiesError::InitClassNotFound => 1,
        GoodiesError::RawColorNotFound => 2,
        GoodiesError::NamedColorGetterNotFound => 3,
        GoodiesError::UnreadableClass(_) => 4,
    }
}

/// `t` refers to the timeline color setter of class `c` in file `file`.
pub open spec fn timeline_ref_of(file: Seq<char>, c: ClassFile, t: Option<TimelineColorReference>) -> bool {
    match (t, spec_timeline_const(c)) {
        (Some(t), Some((ci, fi, b))) => {
            &&& t.class_filename@ == file
            &&& t.field_type_cp_idx == ci
            &&& t.fmim_idx == fi
            &&& t.const_name@ == utf8_lossy(b)
        },
        _ => false,
    }
}

/// `g` holds what the two passes collect from `cs`: the last selected
/// entry of each kind wins.
#[verifier::opaque]
pub open spec fn goodies_of(cs: Seq<(String, Option<ClassFile>)>, g: GeneralGoodies) -> bool {
    let n = cs.len() as int;
    let pi = last_selected(cs, n, 0)->0;
    let ii = last_selected(cs, n, 1)->0;
    let ri = last_selected(cs, n, 4)->0;
    let gr = getter_ref(cs, raw_class_of(cs))->0;
    &&& g.init_class@ == cs[ii].0@
    &&& palette_of(cs[pi].1->0, g.palette_color_methods)
    &&& raw_goodies_of(cs[ri].1->0, g.raw_colors)
    &&& g.named_color_getter_1.class@ == gr.0
    &&& g.named_color_getter_1.method@ == gr.1
    &&& g.named_color_getter_1.signature@ == gr.2
    &&& g.named_color_getter_1.signature_kind is None
    &&& match last_selected(cs, n, 2) {
        Some(mi) => pairs_view(g.release_metadata@) == metadata_upto(
            cs[mi].1->0.cp@,
            cs[mi].1->0.cp@.len() as int,
        ),
        None => g.release_metadata@.len() == 0,
    }
    &&& match last_selected(cs, n, 5) {
        Some(ti) => timeline_ref_of(cs[ti].0@, cs[ti].1->0, g.timeline_color_ref),
        None => g.timeline_color_ref is None,
    }
    &&& named_colors_view(g.named_colors@) == all_named_color_defs(cs, g.palette_color_methods, n)
    &&& g.named_color_getter_invocations@.map_values(|e: (String, NamedColorGetterInvocation)| entry_view(e))
        == all_getter_calls(cs, g.named_color_getter_1, n)
}

/// What the first pass has found so far.
struct FirstPass {
    palette: Option<PaletteColorMethods>,
    init: Option<String>,
    metadata: Option<Vec<(String, String)>>,
    getter: Option<usize>,
    raw: Option<RawColorGoodies>,
    timeline: Option<TimelineColorReference>,
}

/// `f` is what the first pass finds in the first `n` entries.
#[verifier::opaque]
spec fn first_pass_state(cs: Seq<(String, Option<ClassFile>)>, n: int, f: FirstPass) -> bool {
    &&& (f.palette is Some <==> last_selected(cs, n, 0) is Some)
    &&& (f.palette matches Some(p) ==> palette_of(cs[last_selected(cs, n, 0)->0].1->0, p) && palette_layouts_named(p))
    &&& (f.init is Some <==> last_selected(cs, n, 1) is Some)
    &&& (f.init matches Some(s) ==> s@ == cs[last_selected(cs, n, 1)->0].0@)
    &&& (f.metadata is Some <==> last_selected(cs, n, 2) is Some)
    &&& (f.metadata matches Some(v) ==> pairs_view(v@) == metadata_upto(
        cs[last_selected(cs, n, 2)->0].1->0.cp@,
        cs[last_selected(cs, n, 2)->0].1->0.cp@.len() as int,
    ))
    &&& (f.getter is Some <==> last_selected(cs, n, 3) is Some)
    &&& (f.getter matches Some(i) ==> i == last_selected(cs, n, 3)->0)
    &&& (f.raw is Some <==> last_selected(cs, n, 4) is Some)
    &&& (f.raw matches Some(g) ==> raw_goodies_of(cs[last_selected(cs, n, 4)->0].1->0, g))
    &&& match last_selected(cs, n, 5) {
        Some(ti) => timeline_ref_of(cs[ti].0@, cs[ti].1->0, f.timeline),
        None => f.timeline is None,
    }
}

/// The first pass: which entry is the palette, the init class, the crash
/// report, the named color getter's class, the raw color class and the
/// timeline color setter (the last one of each wins).
/// The pass stops at the first raw color class it cannot read (see
/// `first_raw_unreadable`), with the index of that entry.
fn first_pass(cs: &Vec<(String, Option<ClassFile>)>, events: &mut Vec<ThemeProcessingEvent>) -> (r: Result<
    FirstPass,
    usize,
>)
    ensures
        match first_raw_unreadable(cs@, 0) {
            Some(i) => (r matches Err(j) && j == i) && final(events)@ == old(events)@
                + first_pass_events_upto(cs@, i),
            None => r matches Ok(f) && first_pass_state(cs@, cs@.len() as int, f) && final(events)@ == old(
                events,
            )@ + first_pass_events(cs@),
        },
{
    proof {
        lemma_first_raw_unreadable(cs@, 0);
    }
    let n = cs.len();
    events.push(ThemeProcessingEvent::from(Stage::LoadingFileNames));
    events.push(ThemeProcessingEvent { stage: Stage::ScanningClasses, progress: StageProgress::Percentage(0, n) });
    let ghost start = old(events)@ + seq![
        progress(Stage::LoadingFileNames, StageProgress::Unknown),
        progress(Stage::ScanningClasses, StageProgress::Percentage(0, n)),
    ];
    assert(events@ =~= start + pass_events(Stage::ScanningClasses, cs@, 0));
    let mut f = FirstPass { palette: None, init: None, metadata: None, getter: None, raw: None, timeline: None };
    proof {
        reveal(first_pass_state);
    }
    let mut idx: usize = 0;
    while idx < n
        invariant
            idx <= n,
            n == cs@.len(),
            first_pass_state(cs@, idx as int, f),
            events@ == start + pass_events(Stage::ScanningClasses, cs@, idx as int),
            start == old(events)@ + seq![
                progress(Stage::LoadingFileNames, StageProgress::Unknown),
                progress(Stage::ScanningClasses, StageProgress::Percentage(0, n)),
            ],
            first_raw_unreadable(cs@, 0) == first_raw_unreadable(cs@, idx as int),
        decreases n - idx,
    {
        proof {
            reveal(selected);
            reveal(first_pass_state);
        }
        let (file_name, class) = &cs[idx];
        if let Some(class) = class {
            assert(cs@[idx as int].1 == Some(*class));
            match is_useful_file(class) {
                Some(UsefulFileType::MainPalette) => {
                    if let Some(methods) = extract_palette_color_methods(class) {
                        f.palette = Some(methods);
                    }
                },
                Some(UsefulFileType::Init) => {
                    f.init = Some(file_name.clone());
                },
                Some(UsefulFileType::RawColor) => {
                    if !is_raw_class_readable(class) {
                        assert(raw_unreadable(cs@, idx as int));
                        assert(first_raw_unreadable(cs@, idx as int) == Some(idx as int));
                        return Err(idx);
                    }
                    if let Some(goodies) = extract_raw_color_goodies(class) {
                        f.raw = Some(goodies);
                    }
                },
                Some(UsefulFileType::CrashReport) => {
                    if let Some(metadata) = extract_release_metadata(class) {
                        f.metadata = Some(metadata);
                    }
                },
                Some(UsefulFileType::NamedColorGetter1) => {
                    f.getter = Some(idx);
                },
                Some(UsefulFileType::TimelineColorCnst { field_type_cp_idx, fmim_idx, cnst_name }) => {
                    f.timeline = Some(
                        TimelineColorReference {
                            class_filename: file_name.clone(),
                            const_name: cnst_name,
                            field_type_cp_idx,
                            fmim_idx,
                        },
                    );
                },
                None => {},
            }
            if idx % 300 == 0 {
                events.push(
                    ThemeProcessingEvent {
                        stage: Stage::ScanningClasses,
                        progress: StageProgress::Percentage(idx + 1, n),
                    },
                );
            }
        }
        assert(!raw_unreadable(cs@, idx as int));
        idx += 1;
    }
    Ok(f)
}

/// The second pass: the named colors each class defines and the named
/// color getter's calls in it.
fn second_pass(
    cs: &Vec<(String, Option<ClassFile>)>,
    palette: &PaletteColorMethods,
    getter: &MethodDescription,
    events: &mut Vec<ThemeProcessingEvent>,
) -> (r: (Vec<NamedColor>, Vec<(String, NamedColorGetterInvocation)>))
    requires
        classes_readable(cs@),
        palette_layouts_named(*palette),
    ensures
        named_colors_view(r.0@) == all_named_color_defs(cs@, *palette, cs@.len() as int),
        r.1@.map_values(|e: (String, NamedColorGetterInvocation)| entry_view(e)) == all_getter_calls(
            cs@,
            *getter,
            cs@.len() as int,
        ),
        final(events)@ == old(events)@ + second_pass_events(cs@),
{
    let n = cs.len();
    events.push(
        ThemeProcessingEvent { stage: Stage::SearchingColorDefinitions, progress: StageProgress::Percentage(0, n) },
    );
    let ghost start = old(events)@ + seq![
        progress(Stage::SearchingColorDefinitions, StageProgress::Percentage(0, n)),
    ];
    assert(events@ =~= start + pass_events(Stage::SearchingColorDefinitions, cs@, 0));
    let mut named_colors: Vec<NamedColor> = Vec::new();
    let mut known_colors: Vec<(String, ColorComponents)> = Vec::new();
    let mut invocations: Vec<(String, NamedColorGetterInvocation)> = Vec::new();
    let mut idx: usize = 0;
    while idx < n
        invariant
            idx <= n,
            n == cs@.len(),
            classes_readable(cs@),
            palette_layouts_named(*palette),
            named_colors_view(named_colors@) == all_named_color_defs(cs@, *palette, idx as int),
            invocations@.map_values(|e: (String, NamedColorGetterInvocation)| entry_view(e)) == all_getter_calls(
                cs@,
                *getter,
                idx as int,
            ),
            events@ == start + pass_events(Stage::SearchingColorDefinitions, cs@, idx as int),
        decreases n - idx,
    {
        let (file_name, class) = &cs[idx];
        if let Some(class) = class {
            assert(cs@[idx as int].1 == Some(*class));
            assert(class_named(*class));
            let mut colors_in_file = scan_for_named_color_defs(class, palette, file_name.as_str(), &mut known_colors);
            let ghost a = named_colors@;
            let ghost b = colors_in_file@;
            named_colors.append(&mut colors_in_file);
            assert(named_colors_view(named_colors@) =~= named_colors_view(a) + named_colors_view(b));
            let mut getter_invocations = find_named_color_getter_1_invocations(class, getter);
            let ghost ia = invocations@;
            let ghost ib = getter_invocations@;
            invocations.append(&mut getter_invocations);
            assert(invocations@.map_values(|e: (String, NamedColorGetterInvocation)| entry_view(e)) =~= ia.map_values(
                |e: (String, NamedColorGetterInvocation)| entry_view(e),
            ) + ib.map_values(|e: (String, NamedColorGetterInvocation)| entry_view(e)));
        } else {
            assert(named_colors_view(named_colors@) =~= all_named_color_defs(cs@, *palette, idx + 1));
            assert(invocations@.map_values(|e: (String, NamedColorGetterInvocation)| entry_view(e))
                =~= all_getter_calls(cs@, *getter, idx + 1));
        }
        if class.is_some() && idx % 300 == 0 {
            events.push(
                ThemeProcessingEvent {
                    stage: Stage::SearchingColorDefinitions,
                    progress: StageProgress::Percentage(idx + 1, n),
                },
            );
        }
        idx += 1;
    }
    events.push(ThemeProcessingEvent { stage: Stage::SearchingColorDefinitions, progress: StageProgress::Done });
    (named_colors, invocations)
}

/// Entry `i` is a raw color class that `extract_raw_color_goodies` cannot
/// read (see `raw_class_ok`).
pub open spec fn raw_unreadable(cs: Seq<(String, Option<ClassFile>)>, i: int) -> bool {
    cs[i].1 matches Some(c) && spec_useful_kind(c) == Some(4int) && !raw_class_ok(c)
}

/// Index of the first entry, at or after `k`, that is a raw color class the
/// first pass cannot read.
pub open spec fn first_raw_unreadable(cs: Seq<(String, Option<ClassFile>)>, k: int) -> Option<int>
    decreases cs.len() - k,
{
    if k < 0 || k >= cs.len() {
        None
    } else if raw_unreadable(cs, k) {
        Some(k)
    } else {
        first_raw_unreadable(cs, k + 1)
    }
}

proof fn lemma_first_raw_unreadable(cs: Seq<(String, Option<ClassFile>)>, k: int)
    requires
        0 <= k,
    ensures
        first_raw_unreadable(cs, k) is None ==> forall|j: int| k <= j < cs.len() ==> !raw_unreadable(cs, j),
        first_raw_unreadable(cs, k) matches Some(i) ==> k <= i < cs.len() && raw_unreadable(cs, i),
    decreases cs.len() - k,
{
    if k < cs.len() {
        lemma_first_raw_unreadable(cs, k + 1);
    }
}

/// Entry `i` is a class whose own name does not resolve or does not read
/// as text (see `class_named`), which the second pass cannot read.
pub open spec fn unnamed(cs: Seq<(String, Option<ClassFile>)>, i: int) -> bool {
    cs[i].1 matches Some(c) && !class_named(c)
}

/// Index of the first entry, at or after `k`, that is a class whose own
/// name does not resolve.
pub open spec fn first_unnamed(cs: Seq<(String, Option<ClassFile>)>, k: int) -> Option<int>
    decreases cs.len() - k,
{
    if k < 0 || k >= cs.len() {
        None
    } else if unnamed(cs, k) {
        Some(k)
    } else {
        first_unnamed(cs, k + 1)
    }
}

proof fn lemma_first_unnamed(cs: Seq<(String, Option<ClassFile>)>, k: int)
    requires
        0 <= k,
    ensures
        first_unnamed(cs, k) is None ==> forall|j: int| k <= j < cs.len() ==> !unnamed(cs, j),
        first_unnamed(cs, k) matches Some(i) ==> k <= i < cs.len() && unnamed(cs, i),
    decreases cs.len() - k,
{
    if k < cs.len() {
        lemma_first_unnamed(cs, k + 1);
    }
}

/// Index of the first class whose own name does not resolve.
fn find_unnamed(cs: &Vec<(String, Option<ClassFile>)>) -> (r: Option<usize>)
    ensures
        match first_unnamed(cs@, 0) {
            Some(i) => r matches Some(j) && j == i,
            None => r is None,
        },
{
    let mut i: usize = 0;
    while i < cs.len()
        invariant
            i <= cs@.len(),
            first_unnamed(cs@, 0) == first_unnamed(cs@, i as int),
        decreases cs@.len() - i,
    {
        if let Some(c) = &cs[i].1 {
            if class_name_text(c).is_none() {
                return Some(i);
            }
        }
        i += 1;
    }
    None
}

/// Collects the goodies from the classes of a JAR, given as (file name,
/// class if the file is one), in two passes, appending the progress events
/// to `events`.
///
/// The first pass picks out the palette, the init class, the raw color
/// class, the crash report, the named color getter's class and the
/// timeline color setter; it stops with `UnreadableClass` at the first raw
/// color class it cannot read (see `first_raw_unreadable`). Then the
/// palette, the init class, the raw color class and the named color getter
/// are required in that order (see `goodies_error`). The second pass,
/// which reads each class's own name, then needs every class named: else
/// `UnreadableClass` with the first that is not (see `first_unnamed`).
/// Otherwise the goodies are those of `goodies_of`.
pub fn extract_general_goodies(classes: &Vec<(String, Option<ClassFile>)>, events: &mut Vec<ThemeProcessingEvent>) -> (r:
    Result<GeneralGoodies, GoodiesError>)
    ensures
        match first_raw_unreadable(classes@, 0) {
            Some(i) => (r matches Err(GoodiesError::UnreadableClass(name)) && name@ == classes@[i].0@)
                && final(events)@ == old(events)@ + first_pass_events_upto(classes@, i),
            None => match goodies_error(classes@) {
                Some(e) => r matches Err(err) && error_number(err) == e && final(events)@ == old(events)@
                    + first_pass_events(classes@),
                None => match first_unnamed(classes@, 0) {
                    Some(i) => (r matches Err(GoodiesError::UnreadableClass(name)) && name@ == classes@[i].0@)
                        && final(events)@ == old(events)@ + first_pass_events(classes@),
                    None => r matches Ok(g) && goodies_of(classes@, g) && final(events)@ == old(events)@
                        + first_pass_events(classes@) + second_pass_events(classes@),
                },
            },
        },
{
    proof {
        lemma_first_raw_unreadable(classes@, 0);
    }
    let f = match first_pass(classes, events) {
        Ok(f) => f,
        Err(i) => {
            let name = classes[i].0.clone();
            assert(first_raw_unreadable(classes@, 0) == Some(i as int));
            assert(name@ == classes@[i as int].0@);
            return Err(GoodiesError::UnreadableClass(name));
        },
    };
    let ghost n = classes@.len() as int;
    proof {
        reveal(first_pass_state);
        lemma_last_selected(classes@, n, 3);
    }
    let palette_color_methods = match f.palette {
        Some(p) => p,
        None => return Err(GoodiesError::PaletteNotFound),
    };
    let init_class = match f.init {
        Some(s) => s,
        None => return Err(GoodiesError::InitClassNotFound),
    };
    let raw_colors = match f.raw {
        Some(g) => g,
        None => return Err(GoodiesError::RawColorNotFound),
    };
    proof {
        lemma_raw_ctor_class(classes@[last_selected(classes@, n, 4)->0].1->0, raw_colors);
    }
    let getter = match f.getter {
        Some(i) => match &classes[i].1 {
            Some(c) => extract_named_color_getter_1(c, raw_colors.methods.rgba_f.class.as_str()),
            None => None,
        },
        None => None,
    };
    let named_color_getter_1 = match getter {
        Some(g) => g,
        None => return Err(GoodiesError::NamedColorGetterNotFound),
    };
    if let Some(i) = find_unnamed(classes) {
        proof {
            lemma_first_unnamed(classes@, 0);
        }
        let name = classes[i].0.clone();
        assert(name@ == classes@[i as int].0@);
        return Err(GoodiesError::UnreadableClass(name));
    }
    proof {
        lemma_first_unnamed(classes@, 0);
        lemma_first_raw_unreadable(classes@, 0);
        assert forall|j: int| 0 <= j < classes@.len() implies ((#[trigger] classes@[j]).1 matches Some(c) ==> (
        class_named(c) && (spec_useful_kind(c) == Some(4int) ==> raw_class_ok(
            c,
        )))) by {
            assert(!unnamed(classes@, j));
            assert(!raw_unreadable(classes@, j));
        }
        assert(classes_readable(classes@));
    }
    let (named_colors, named_color_getter_invocations) = second_pass(
        classes,
        &palette_color_methods,
        &named_color_getter_1,
        events,
    );
    let release_metadata = match f.metadata {
        Some(v) => v,
        None => Vec::new(),
    };
    proof {
        reveal(goodies_of);
    }
    Ok(
        GeneralGoodies {
            init_class,
            named_colors,
            palette_color_methods,
            raw_colors,
            timeline_color_ref: f.timeline,
            release_metadata,
            named_color_getter_1,
            named_color_getter_invocations,
        },
    )
}

/// A decoded class writes back to exactly the bytes it was decoded from
/// (see `ClassFile::to_bytes`, which succeeds on a class that fits).
pub proof fn lemma_decoded_writes_back(data: Seq<u8>, c: ClassFile)
    requires
        decodable(data, c),
    ensures
        class_fits(c),
        encode_class(c) == data,
{
}

/// The classes of a JAR's entries: each entry's name with its decoding,
/// or `None` for an entry that encodes no class (see `decode_class`).
pub fn parse_jar_classes(entries: &Vec<(String, Vec<u8>)>) -> (r: Vec<(String, Option<ClassFile>)>)
    ensures
        r@.len() == entries@.len(),
        forall|i: int|
            0 <= i < entries@.len() ==> (#[trigger] r@[i]).0@ == entries@[i].0@ && (r@[i].1 matches Some(c)
                ==> decodable(entries@[i].1@, c)),
        forall|i: int|
            0 <= i < entries@.len() ==> ((#[trigger] r@[i]).1 is Some <==> exists|c: ClassFile|
                decodable(entries@[i].1@, c)),
{
    let mut r: Vec<(String, Option<ClassFile>)> = Vec::new();
    let mut i: usize = 0;
    while i < entries.len()
        invariant
            i <= entries@.len(),
            r@.len() == i,
            forall|j: int|
                0 <= j < i ==> (#[trigger] r@[j]).0@ == entries@[j].0@ && (r@[j].1 matches Some(c) ==> decodable(
                    entries@[j].1@,
                    c,
                )),
            forall|j: int|
                0 <= j < i ==> ((#[trigger] r@[j]).1 is Some <==> exists|c: ClassFile| decodable(entries@[j].1@, c)),
        decreases entries@.len() - i,
    {
        let (name, data) = &entries[i];
        r.push((name.clone(), decode_class(data.as_slice())));
        i += 1;
    }
    r
}

} // verus!
