//! Ableton Live themes (`.ask` files): the color table that the element
//! structure of such a document gives. Reading the XML and turning the
//! component attributes into numbers is left to the caller, which hands
//! over the element boundaries in document order.
use crate::bytes::bytes_eq;
use crate::chars::{chars_eq, chars_of};
use crate::text::{bytes_of, str_bytes, string_bytes};
use vstd::prelude::*;
use vstd::string::StrSliceExecFns;

verus! {

/// The first attribute of an element: its value read as a number and
/// rounded to a byte, or its text where that is no number.
pub enum AskAttr {
    Number(u8),
    Text(String),
}

/// An element boundary of the document.
pub enum AskEvent {
    Start { name: String, first_attr: Option<AskAttr> },
    End,
}

/// Entries of the theme that hold factors and alphas rather than colors.
pub open spec fn non_color(b: Seq<u8>) -> bool {
    ||| b == str_bytes("DefaultBlendFactor")
    ||| b == str_bytes("IconBlendFactor")
    ||| b == str_bytes("ClipBlendFactor")
    ||| b == str_bytes("NoteBorderStandbyBlendFactor")
    ||| b == str_bytes("RetroDisplayBlendFactor")
    ||| b == str_bytes("CheckControlNotCheckedBlendFactor")
    ||| b == str_bytes("MixSurfaceAreaBlendFactor")
    ||| b == str_bytes("TextFrameSegmentBlendFactor")
    ||| b == str_bytes("VelocityEditorForegroundSelectedBlendFactor")
    ||| b == str_bytes("NoteDisabledSelectedBlendFactor")
    ||| b == str_bytes("/WarperTimeBarMarkerBackgroun")
    ||| b == str_bytes("MinVelocityNoteBlendFactor")
    ||| b == str_bytes("StripedBackgroundShadeFactor")
    ||| b == str_bytes("AutomationLaneHeaderAlpha")
    ||| b == str_bytes("AutomationLaneClipBodyAlpha")
    ||| b == str_bytes("NonEditableAutomationAlpha")
    ||| b == str_bytes("DisabledContextMenuIconAlpha")
}

/// The components after a component element named `b` gave `v`: `R`,
/// `G`, `B` and `Alpha` set their component, other names none.
pub open spec fn set_component(c: (u8, u8, u8, u8), b: Seq<u8>, v: u8) -> (u8, u8, u8, u8) {
    if b == str_bytes("R") {
        (v, c.1, c.2, c.3)
    } else if b == str_bytes("G") {
        (c.0, v, c.2, c.3)
    } else if b == str_bytes("B") {
        (c.0, c.1, v, c.3)
    } else if b == str_bytes("Alpha") {
        (c.0, c.1, c.2, v)
    } else {
        c
    }
}

/// Where the reading stands: element depth, name of the current color,
/// its components so far, and the table entries made, in order.
pub type AskState = (int, Seq<char>, (u8, u8, u8, u8), Seq<(Seq<char>, (u8, u8, u8, u8))>);

/// One element boundary. An element at depth 3 that is no factor starts
/// a new color, and the color before it, if any, enters the table with
/// the components read so far (components carry over from one color to
/// the next). An element at depth 4 sets a component from its first
/// attribute.
pub open spec fn ask_step(st: AskState, e: AskEvent) -> AskState {
    let (depth, name, comps, out) = st;
    match e {
        AskEvent::Start { name: n, first_attr } => {
            let d = depth + 1;
            if d == 3 {
                if non_color(string_bytes(n)) {
                    (d, name, comps, out)
                } else if name.len() > 0 {
                    (d, n@, comps, out.push((name, comps)))
                } else {
                    (d, n@, comps, out)
                }
            } else if d == 4 {
                match first_attr {
                    Some(AskAttr::Number(v)) => (d, name, set_component(comps, string_bytes(n), v), out),
                    _ => (d, name, comps, out),
                }
            } else {
                (d, name, comps, out)
            }
        },
        AskEvent::End => (depth - 1, name, comps, out),
    }
}

/// The state after the first `k` boundaries.
pub open spec fn ask_fold(events: Seq<AskEvent>, k: int) -> AskState
    decreases k,
{
    if k <= 0 {
        (0, seq![], (0, 0, 0, 0), seq![])
    } else {
        ask_step(ask_fold(events, k - 1), events[k - 1])
    }
}

/// Boundary `k` opens a component element (depth 4) whose first attribute
/// is missing or no number.
pub open spec fn unreadable_at(events: Seq<AskEvent>, k: int) -> bool {
    &&& events[k] matches AskEvent::Start { first_attr, .. }
    &&& ask_fold(events, k).0 + 1 == 4
    &&& !(first_attr matches Some(AskAttr::Number(_)))
}

/// Every component element carries a number as its first attribute.
pub open spec fn ask_readable(events: Seq<AskEvent>) -> bool {
    forall|k: int| 0 <= k < events.len() ==> !#[trigger] unreadable_at(events, k)
}

/// The entries of the color table, in the order they are made; a later
/// entry for a name replaces an earlier one. The last color of the
/// document makes no entry: only the start of a following color does.
pub open spec fn ask_entries(events: Seq<AskEvent>) -> Seq<(Seq<char>, (u8, u8, u8, u8))> {
    ask_fold(events, events.len() as int).3
}

pub open spec fn entries_view(v: Seq<(String, (u8, u8, u8, u8))>) -> Seq<(Seq<char>, (u8, u8, u8, u8))> {
    v.map_values(|e: (String, (u8, u8, u8, u8))| (e.0@, e.1))
}

fn is_non_color(n: &String) -> (r: bool)
    ensures
        r == non_color(string_bytes(*n)),
{
    let b = bytes_of(n);
    bytes_eq(b, "DefaultBlendFactor".as_bytes()) || bytes_eq(b, "IconBlendFactor".as_bytes()) || bytes_eq(
        b,
        "ClipBlendFactor".as_bytes(),
    ) || bytes_eq(b, "NoteBorderStandbyBlendFactor".as_bytes()) || bytes_eq(b, "RetroDisplayBlendFactor".as_bytes())
        || bytes_eq(b, "CheckControlNotCheckedBlendFactor".as_bytes()) || bytes_eq(
        b,
        "MixSurfaceAreaBlendFactor".as_bytes(),
    ) || bytes_eq(b, "TextFrameSegmentBlendFactor".as_bytes()) || bytes_eq(
        b,
        "VelocityEditorForegroundSelectedBlendFactor".as_bytes(),
    ) || bytes_eq(b, "NoteDisabledSelectedBlendFactor".as_bytes()) || bytes_eq(
        b,
        "/WarperTimeBarMarkerBackgroun".as_bytes(),
    ) || bytes_eq(b, "MinVelocityNoteBlendFactor".as_bytes()) || bytes_eq(
        b,
        "StripedBackgroundShadeFactor".as_bytes(),
    ) || bytes_eq(b, "AutomationLaneHeaderAlpha".as_bytes()) || bytes_eq(
        b,
        "AutomationLaneClipBodyAlpha".as_bytes(),
    ) || bytes_eq(b, "NonEditableAutomationAlpha".as_bytes()) || bytes_eq(
        b,
        "DisabledContextMenuIconAlpha".as_bytes(),
    )
}

fn with_component(c: (u8, u8, u8, u8), n: &String, v: u8) -> (r: (u8, u8, u8, u8))
    ensures
        r == set_component(c, string_bytes(*n), v),
{
    let b = bytes_of(n);
    if bytes_eq(b, "R".as_bytes()) {
        (v, c.1, c.2, c.3)
    } else if bytes_eq(b, "G".as_bytes()) {
        (c.0, v, c.2, c.3)
    } else if bytes_eq(b, "B".as_bytes()) {
        (c.0, c.1, v, c.3)
    } else if bytes_eq(b, "Alpha".as_bytes()) {
        (c.0, c.1, c.2, v)
    } else {
        c
    }
}

/// The index of the first component element whose first attribute is
/// missing or no number, if there is one.
pub fn first_unreadable_component(events: &Vec<AskEvent>) -> (r: Option<usize>)
    requires
        events@.len() < 0x4000_0000_0000_0000,
    ensures
        r is None <==> ask_readable(events@),
        r matches Some(k) ==> k < events@.len() && unreadable_at(events@, k as int) && forall|j: int|
            0 <= j < k ==> !#[trigger] unreadable_at(events@, j),
{
    let mut depth: i64 = 0;
    let mut k: usize = 0;
    while k < events.len()
        invariant
            k <= events@.len() < 0x4000_0000_0000_0000,
            depth == ask_fold(events@, k as int).0,
            -(k as int) <= depth <= k,
            forall|j: int| 0 <= j < k ==> !#[trigger] unreadable_at(events@, j),
        decreases events@.len() - k,
    {
        match &events[k] {
            AskEvent::Start { first_attr, .. } => {
                if depth + 1 == 4 {
                    match first_attr {
                        Some(AskAttr::Number(_)) => {},
                        _ => {
                            assert(unreadable_at(events@, k as int));
                            return Some(k);
                        },
                    }
                }
                depth = depth + 1;
            },
            AskEvent::End => {
                depth = depth - 1;
            },
        }
        k += 1;
    }
    None
}

/// Reads the color table of a theme from its element boundaries (see
/// `ask_step`): the entries in the order they are made. Read as a map (see
/// `ask_map`), a later entry of a name replaces an earlier one.
pub fn ask_color_defs(events: &Vec<AskEvent>) -> (r: Vec<(String, (u8, u8, u8, u8))>)
    requires
        events@.len() < 0x4000_0000_0000_0000,
        ask_readable(events@),
    ensures
        entries_view(r@) == ask_entries(events@),
{
    let mut depth: i64 = 0;
    let mut name = String::new();
    let mut comps: (u8, u8, u8, u8) = (0, 0, 0, 0);
    let mut out: Vec<(String, (u8, u8, u8, u8))> = Vec::new();
    let mut k: usize = 0;
    proof {
        assert(entries_view(out@) =~= seq![]);
    }
    while k < events.len()
        invariant
            k <= events@.len() < 0x4000_0000_0000_0000,
            ask_readable(events@),
            ask_fold(events@, k as int) == (depth as int, name@, comps, entries_view(out@)),
            -(k as int) <= depth <= k,
        decreases events@.len() - k,
    {
        let ghost before = out@;
        match &events[k] {
            AskEvent::Start { name: n, first_attr } => {
                let d = depth + 1;
                if d == 3 {
                    if !is_non_color(n) {
                        if name.as_str().unicode_len() > 0 {
                            out.push((name.clone(), comps));
                            proof {
                                assert(entries_view(out@) =~= entries_view(before).push((name@, comps)));
                            }
                        }
                        name = n.clone();
                    }
                } else if d == 4 {
                    assert(!unreadable_at(events@, k as int));
                    match first_attr {
                        Some(AskAttr::Number(v)) => {
                            comps = with_component(comps, n, *v);
                        },
                        _ => {},
                    }
                }
                depth = d;
            },
            AskEvent::End => {
                depth = depth - 1;
            },
        }
        k += 1;
    }
    out
}


/// The value of `name` in a color table: that of its last entry among the
/// first `k` (a later entry of a name replaces an earlier one).
pub open spec fn last_value(defs: Seq<(Seq<char>, (u8, u8, u8, u8))>, name: Seq<char>, k: int) -> Option<
    (u8, u8, u8, u8),
>
    decreases k,
{
    if k <= 0 || k > defs.len() {
        None
    } else if defs[k - 1].0 == name {
        Some(defs[k - 1].1)
    } else {
        last_value(defs, name, k - 1)
    }
}

/// A color table read as a map from names to colors (see `last_value`).
pub open spec fn ask_map(defs: Seq<(Seq<char>, (u8, u8, u8, u8))>) -> Map<Seq<char>, (u8, u8, u8, u8)> {
    Map::new(
        |n: Seq<char>| last_value(defs, n, defs.len() as int) is Some,
        |n: Seq<char>| last_value(defs, n, defs.len() as int)->0,
    )
}

/// Index of the first pair, at or after `k`, whose Ableton name the table
/// lacks.
pub open spec fn first_missing(defs: Seq<(Seq<char>, (u8, u8, u8, u8))>, raw: Seq<(&str, &str)>, k: int) -> Option<
    int,
>
    decreases raw.len() - k,
{
    if k < 0 || k >= raw.len() {
        None
    } else if !ask_map(defs).contains_key(raw[k].1@) {
        Some(k)
    } else {
        first_missing(defs, raw, k + 1)
    }
}

fn table_value(defs: &Vec<(String, (u8, u8, u8, u8))>, name: &str) -> (r: Option<(u8, u8, u8, u8)>)
    ensures
        r == last_value(entries_view(defs@), name@, defs@.len() as int),
{
    let target = chars_of(name);
    let mut k: usize = defs.len();
    while k > 0
        invariant
            k <= defs@.len(),
            target@ == name@,
            last_value(entries_view(defs@), name@, defs@.len() as int) == last_value(
                entries_view(defs@),
                name@,
                k as int,
            ),
        decreases k,
    {
        if chars_eq(chars_of(defs[k - 1].0.as_str()).as_slice(), target.as_slice()) {
            return Some(defs[k - 1].1);
        }
        k -= 1;
    }
    None
}

/// Pairs each Bitwig color name of `raw` with the color that the Ableton
/// table `defs` gives its Ableton name (see `ask_map`), in the order of
/// `raw`; the Ableton name of the first pair the table lacks otherwise.
pub fn bitwig_mapping(defs: &Vec<(String, (u8, u8, u8, u8))>, raw: &[(&str, &str)]) -> (r: Result<
    Vec<(String, (u8, u8, u8, u8))>,
    String,
>)
    ensures
        match first_missing(entries_view(defs@), raw@, 0) {
            Some(j) => r matches Err(s) && s@ == raw@[j].1@,
            None => r matches Ok(v) && v@.len() == raw@.len() && forall|i: int|
                0 <= i < raw@.len() ==> (#[trigger] v@[i]).0@ == raw@[i].0@ && v@[i].1 == ask_map(
                    entries_view(defs@),
                )[raw@[i].1@],
        },
{
    let ghost dv = entries_view(defs@);
    let mut out: Vec<(String, (u8, u8, u8, u8))> = Vec::new();
    let mut i: usize = 0;
    while i < raw.len()
        invariant
            i <= raw@.len(),
            dv == entries_view(defs@),
            first_missing(dv, raw@, 0) == first_missing(dv, raw@, i as int),
            out@.len() == i,
            forall|j: int|
                0 <= j < i ==> (#[trigger] out@[j]).0@ == raw@[j].0@ && out@[j].1 == ask_map(dv)[raw@[j].1@],
        decreases raw@.len() - i,
    {
        let (bw, abl) = raw[i];
        match table_value(defs, abl) {
            Some(v) => {
                out.push((String::from_str(bw), v));
            },
            None => {
                assert(!ask_map(dv).contains_key(raw@[i as int].1@));
                return Err(String::from_str(abl));
            },
        }
        i += 1;
    }
    Ok(out)
}

/// The names of the entries of an Ableton theme that hold blend factors
/// and alphas rather than colors.
pub open spec fn is_factor_entry(n: Seq<char>) -> bool {
    ||| n == "DefaultBlendFactor"@
    ||| n == "IconBlendFactor"@
    ||| n == "ClipBlendFactor"@
    ||| n == "NoteBorderStandbyBlendFactor"@
    ||| n == "RetroDisplayBlendFactor"@
    ||| n == "CheckControlNotCheckedBlendFactor"@
    ||| n == "MixSurfaceAreaBlendFactor"@
    ||| n == "TextFrameSegmentBlendFactor"@
    ||| n == "VelocityEditorForegroundSelectedBlendFactor"@
    ||| n == "NoteDisabledSelectedBlendFactor"@
    ||| n == "/WarperTimeBarMarkerBackgroun"@
    ||| n == "MinVelocityNoteBlendFactor"@
    ||| n == "StripedBackgroundShadeFactor"@
    ||| n == "AutomationLaneHeaderAlpha"@
    ||| n == "AutomationLaneClipBodyAlpha"@
    ||| n == "NonEditableAutomationAlpha"@
    ||| n == "DisabledContextMenuIconAlpha"@
}

proof fn lemma_no_factor_so_far(events: Seq<AskEvent>, k: int)
    requires
        0 <= k <= events.len(),
    ensures
        forall|i: int|
            0 <= i < ask_fold(events, k).3.len() ==> !is_factor_entry((#[trigger] ask_fold(events, k).3[i]).0),
        ask_fold(events, k).1.len() > 0 ==> !is_factor_entry(ask_fold(events, k).1),
    decreases k,
{
    if k > 0 {
        lemma_no_factor_so_far(events, k - 1);
        let st = ask_fold(events, k - 1);
        if let AskEvent::Start { name: n, .. } = events[k - 1] {
            if st.0 + 1 == 3 && !non_color(string_bytes(n)) {
                assert(!is_factor_entry(n@));
            }
        }
        let out = ask_fold(events, k).3;
        assert forall|i: int| 0 <= i < out.len() implies !is_factor_entry((#[trigger] out[i]).0) by {
            if i < st.3.len() {
                assert(out[i] == st.3[i]);
            }
        }
    }
}

/// No entry of the color table is one of the theme's blend factors or
/// alphas (see `is_factor_entry`): those elements are skipped.
pub proof fn lemma_no_factor_entries(events: Seq<AskEvent>)
    ensures
        forall|i: int| 0 <= i < ask_entries(events).len() ==> !is_factor_entry((#[trigger] ask_entries(events)[i]).0),
{
    lemma_no_factor_so_far(events, events.len() as int);
}

} // verus!
