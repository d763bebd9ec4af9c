//! Writing a theme into the classes of a JAR.
use crate::assembly::{reasm, reassembly, ReasmError};
use crate::bytes::copy_range;
use crate::classfile::ClassFile;
use crate::colors::{named_colors_view, ColorComponents, NamedColor, NamedColorView};
use crate::goodies::{
    extract_general_goodies, first_raw_unreadable, first_unnamed, goodies_error, goodies_of,
    parse_jar_classes, GeneralGoodies, GoodiesError,
};
use crate::parse::{decodable, decode_class};
use crate::methods::PaletteColorMethods;
use crate::recolor::{
    can_replace, first_named, lemma_recolor_keeps_colors, recolored, replace_named_color, replace_ok,
    same_colors_but_components,
};
use crate::types::{AbsoluteColor, CompositingMode, NamedColor as ThemeColor, Stage, StageProgress, ThemeProcessingEvent};
use vstd::prelude::*;

verus! {

/// Why a theme could not be written.
pub enum ThemeWriteError {
    Goodies(GoodiesError),
    /// No entry holds the class of a color to replace.
    MissingClass(String),
    /// The entry holding the class of a color to replace is not a class
    /// file the decoder reads.
    UnparsableClass(String),
    /// The class defines the color in a way `replace_named_color` does not
    /// handle (see `replace_ok`).
    UnsupportedDefinition(String),
    Reasm(String, ReasmError),
}

/// The theme's color for `name`: that of the first entry, at or after
/// `k`, with that name. (A theme names each color once; where a name is
/// given twice, its first entry counts.)
pub open spec fn theme_color_of(changed: Seq<(String, ThemeColor)>, name: Seq<char>, k: int) -> Option<ThemeColor>
    decreases changed.len() - k,
{
    if k < 0 || k >= changed.len() {
        None
    } else if changed[k].0@ == name {
        Some(changed[k].1)
    } else {
        theme_color_of(changed, name, k + 1)
    }
}

/// The theme's changes read as a map from color names to colors: the
/// first entry of each name counts (see `theme_color_of`).
pub open spec fn theme_changes_map(changed: Seq<(String, ThemeColor)>) -> Map<Seq<char>, ThemeColor> {
    Map::new(|n: Seq<char>| theme_color_of(changed, n, 0) is Some, |n: Seq<char>| theme_color_of(changed, n, 0)->0)
}

/// The replacement the theme gives the palette color `name`: an absolute
/// color composed absolutely. Other theme colors are not written.
pub open spec fn absolute_replacement(changed: Seq<(String, ThemeColor)>, name: Seq<char>) -> Option<AbsoluteColor> {
    match theme_color_of(changed, name, 0) {
        Some(ThemeColor::Absolute(a)) => if a.compositing_mode is Absolute {
            Some(a)
        } else {
            None
        },
        _ => None,
    }
}

/// The file name of a class.
pub open spec fn class_file_of(class_name: Seq<char>) -> Seq<char> {
    class_name + ".class"@
}

/// Index of the first entry, at or after `k`, named `f`.
pub open spec fn first_entry_named(entries: Seq<(String, Vec<u8>)>, f: Seq<char>, k: int) -> Option<int>
    decreases entries.len() - k,
{
    if k < 0 || k >= entries.len() {
        None
    } else if entries[k].0@ == f {
        Some(k)
    } else {
        first_entry_named(entries, f, k + 1)
    }
}

fn theme_color_index(changed: &Vec<(String, ThemeColor)>, name: &String) -> (r: Option<usize>)
    ensures
        r matches Some(k) ==> k < changed@.len() && theme_color_of(changed@, name@, 0) == Some(changed@[k as int].1),
        r is None ==> theme_color_of(changed@, name@, 0) is None,
{
    let mut k: usize = 0;
    while k < changed.len()
        invariant
            k <= changed@.len(),
            theme_color_of(changed@, name@, 0) == theme_color_of(changed@, name@, k as int),
        decreases changed@.len() - k,
    {
        if changed[k].0 == *name {
            return Some(k);
        }
        k += 1;
    }
    None
}

fn entry_index(entries: &Vec<(String, Vec<u8>)>, f: &String) -> (r: Option<usize>)
    ensures
        r matches Some(k) ==> first_entry_named(entries@, f@, 0) == Some(k as int) && k < entries@.len(),
        r is None ==> first_entry_named(entries@, f@, 0) is None,
{
    let mut k: usize = 0;
    while k < entries.len()
        invariant
            k <= entries@.len(),
            first_entry_named(entries@, f@, 0) == first_entry_named(entries@, f@, k as int),
        decreases entries@.len() - k,
    {
        if entries[k].0 == *f {
            return Some(k);
        }
        k += 1;
    }
    None
}

proof fn lemma_first_entry(entries: Seq<(String, Vec<u8>)>, f: Seq<char>, k: int)
    requires
        0 <= k,
    ensures
        first_entry_named(entries, f, k) matches Some(i) ==> k <= i < entries.len() && entries[i].0@ == f,
        first_entry_named(entries, f, k) is None ==> forall|i: int| k <= i < entries.len() ==> entries[i].0@ != f,
        first_entry_named(entries, f, k) matches Some(i) ==> forall|j: int| k <= j < i ==> entries[j].0@ != f,
    decreases entries.len() - k,
{
    if k < entries.len() {
        lemma_first_entry(entries, f, k + 1);
    }
}

fn copy_bytes(b: &Vec<u8>) -> (r: Vec<u8>)
    ensures
        r@ == b@,
{
    let r = copy_range(b.as_slice(), 0, b.len());
    assert(r@ =~= b@);
    r
}

/// Some entry of `patched` is named `f`.
pub open spec fn patched_has(patched: Seq<(String, Vec<u8>)>, f: Seq<char>) -> bool {
    exists|q: int| 0 <= q < patched.len() && (#[trigger] patched[q]).0@ == f
}

proof fn lemma_remove_keeps(p: Seq<(String, Vec<u8>)>, q: int, f: Seq<char>)
    requires
        0 <= q < p.len(),
        patched_has(p, f),
        p[q].0@ != f,
    ensures
        patched_has(p.remove(q), f),
{
    let w = choose|w: int| 0 <= w < p.len() && (#[trigger] p[w]).0@ == f;
    if w < q {
        assert(p.remove(q)[w] == p[w]);
    } else {
        assert(p.remove(q)[w - 1] == p[w]);
    }
}

fn patched_index(patched: &Vec<(String, Vec<u8>)>, f: &String) -> (r: Option<usize>)
    ensures
        r matches Some(q) ==> q < patched@.len() && patched@[q as int].0@ == f@,
        r is None ==> !patched_has(patched@, f@),
{
    let mut q: usize = 0;
    while q < patched.len()
        invariant
            q <= patched@.len(),
            forall|j: int| 0 <= j < q ==> (#[trigger] patched@[j]).0@ != f@,
        decreases patched@.len() - q,
    {
        if patched[q].0 == *f {
            return Some(q);
        }
        q += 1;
    }
    None
}

pub(crate) fn clone_colors(v: &Vec<NamedColor>) -> (r: Vec<NamedColor>)
    ensures
        named_colors_view(r@) == named_colors_view(v@),
{
    let mut r: Vec<NamedColor> = Vec::new();
    let mut k: usize = 0;
    while k < v.len()
        invariant
            k <= v@.len(),
            named_colors_view(r@) == named_colors_view(v@.subrange(0, k as int)),
        decreases v@.len() - k,
    {
        let x = v[k].clone();
        assert(x@ == v@[k as int]@);
        let ghost before = r@;
        r.push(x);
        assert(named_colors_view(r@) =~= named_colors_view(before).push(x@));
        assert(named_colors_view(v@.subrange(0, k + 1)) =~= named_colors_view(v@.subrange(0, k as int)).push(
            v@[k as int]@,
        ));
        k += 1;
    }
    assert(v@.subrange(0, v@.len() as int) =~= v@);
    r
}

/// The components an absolute theme color is written with.
pub open spec fn abs_components(a: AbsoluteColor) -> ColorComponents {
    ColorComponents::Rgbai(a.r, a.g, a.b, a.a)
}

/// `c1` and `colors1` are what `replace_named_color` makes of class `c0`
/// and named colors `colors0` when it writes `v`, composed absolutely,
/// into the definition of `name`.
pub open spec fn replaced(
    c0: ClassFile,
    c1: ClassFile,
    colors0: Seq<NamedColor>,
    colors1: Seq<NamedColor>,
    name: Seq<char>,
    v: ColorComponents,
    p: PaletteColorMethods,
    r: Option<()>,
) -> bool {
    if first_named(colors0, name, 0) is None {
        r is None && c1 == c0 && colors1 == colors0
    } else {
        recolored(c0, c1, colors0, colors1, name, v, p, CompositingMode::Absolute, r)
    }
}

/// `after` is the class that `before` decodes to, with the definition of
/// `name` written as the absolute color `a`, reassembled; the named colors
/// go from `colors0` to `colors1`.
pub open spec fn rewritten_to(
    before: Seq<u8>,
    after: Seq<u8>,
    name: Seq<char>,
    a: AbsoluteColor,
    colors0: Seq<NamedColor>,
    colors1: Seq<NamedColor>,
    p: PaletteColorMethods,
) -> bool {
    exists|c0: ClassFile, c1: ClassFile, r: Option<()>|
        #![trigger replaced(c0, c1, colors0, colors1, name, abs_components(a), p, r)]
        decodable(before, c0) && replace_ok(c0, name, abs_components(a), colors0, p, CompositingMode::Absolute)
            && replaced(c0, c1, colors0, colors1, name, abs_components(a), p, r) && reassembly(c1) == Some(after)
}

/// Writing `name` as `a` into the class bytes `before` of file `f` fails
/// with `e`: the bytes encode no class, or the class defines the color in
/// a way that cannot be rewritten (both leaving the named colors as they
/// were), or the rewritten class cannot be reassembled.
pub open spec fn rewrite_fails(
    before: Seq<u8>,
    e: ThemeWriteError,
    f: Seq<char>,
    name: Seq<char>,
    a: AbsoluteColor,
    colors0: Seq<NamedColor>,
    colors1: Seq<NamedColor>,
    p: PaletteColorMethods,
) -> bool {
    match e {
        ThemeWriteError::UnparsableClass(g) => g@ == f && colors1 == colors0 && !(exists|c: ClassFile|
            #[trigger] decodable(before, c)),
        ThemeWriteError::UnsupportedDefinition(g) => g@ == f && colors1 == colors0 && exists|c: ClassFile|
            #[trigger] decodable(before, c) && !replace_ok(
                c,
                name,
                abs_components(a),
                colors0,
                p,
                CompositingMode::Absolute,
            ),
        ThemeWriteError::Reasm(g, _) => g@ == f && exists|c0: ClassFile, c1: ClassFile, r: Option<()>|
            #![trigger replaced(c0, c1, colors0, colors1, name, abs_components(a), p, r)]
            decodable(before, c0) && replace_ok(c0, name, abs_components(a), colors0, p, CompositingMode::Absolute)
                && replaced(c0, c1, colors0, colors1, name, abs_components(a), p, r) && reassembly(c1) is None,
        _ => false,
    }
}

/// One step of writing a theme, for one named color: whether it rewrote
/// the color's class, the class bytes it made, and the named colors after
/// it.
pub struct ThemeStep {
    pub rewrote: bool,
    pub bytes: Seq<u8>,
    pub colors: Seq<NamedColor>,
}

/// The named colors after the first `k` steps.
pub open spec fn colors_after(init: Seq<NamedColor>, tr: Seq<ThemeStep>, k: int) -> Seq<NamedColor> {
    if k <= 0 {
        init
    } else {
        tr[k - 1].colors
    }
}

/// The bytes of file `f` after the first `k` steps: those made by the last
/// of them that rewrote it, else those of the first entry named `f`.
pub open spec fn file_bytes(
    entries: Seq<(String, Vec<u8>)>,
    cv: Seq<NamedColorView>,
    tr: Seq<ThemeStep>,
    f: Seq<char>,
    k: int,
) -> Option<Seq<u8>>
    decreases k,
{
    if k <= 0 {
        match first_entry_named(entries, f, 0) {
            Some(i) => Some(entries[i].1@),
            None => None,
        }
    } else if tr[k - 1].rewrote && class_file_of(cv[k - 1].class_name) == f {
        Some(tr[k - 1].bytes)
    } else {
        file_bytes(entries, cv, tr, f, k - 1)
    }
}

/// Step `k` writes the theme's absolute replacement of named color `k`,
/// if it has one, into the current bytes of that color's class file.
pub open spec fn step_ok(
    entries: Seq<(String, Vec<u8>)>,
    cv: Seq<NamedColorView>,
    changed: Seq<(String, ThemeColor)>,
    p: PaletteColorMethods,
    init: Seq<NamedColor>,
    tr: Seq<ThemeStep>,
    k: int,
) -> bool {
    match absolute_replacement(changed, cv[k].color_name) {
        None => !tr[k].rewrote && tr[k].colors == colors_after(init, tr, k),
        Some(a) => {
            &&& tr[k].rewrote
            &&& file_bytes(entries, cv, tr, class_file_of(cv[k].class_name), k) matches Some(b)
            &&& rewritten_to(b, tr[k].bytes, cv[k].color_name, a, colors_after(init, tr, k), tr[k].colors, p)
        },
    }
}

/// The first `k` steps of `tr` write the theme.
pub open spec fn trace_ok(
    entries: Seq<(String, Vec<u8>)>,
    cv: Seq<NamedColorView>,
    changed: Seq<(String, ThemeColor)>,
    p: PaletteColorMethods,
    init: Seq<NamedColor>,
    tr: Seq<ThemeStep>,
    k: int,
) -> bool {
    &&& 0 <= k <= tr.len()
    &&& forall|j: int| 0 <= j < k ==> #[trigger] step_ok(entries, cv, changed, p, init, tr, j)
}

/// `out` is `entries` after the steps of `tr`: every entry kept, in order,
/// the first entry of each file holding the file's last bytes and every
/// other entry its own.
pub open spec fn theme_written(
    entries: Seq<(String, Vec<u8>)>,
    out: Seq<(String, Vec<u8>)>,
    cv: Seq<NamedColorView>,
    tr: Seq<ThemeStep>,
) -> bool {
    &&& out.len() == entries.len()
    &&& forall|i: int|
        #![trigger out[i]]
        0 <= i < entries.len() ==> {
            &&& out[i].0@ == entries[i].0@
            &&& out[i].1@ == (if first_entry_named(entries, entries[i].0@, 0) == Some(i) {
                file_bytes(entries, cv, tr, entries[i].0@, cv.len() as int)->0
            } else {
                entries[i].1@
            })
        }
}

/// What writing the theme `changed` into `entries` gives, the named colors
/// going from `init` to `colors1`, along the steps of `tr`: on success all
/// steps write the theme; on failure the steps before the last one do,
/// and the last one fails on the color it stands for.
pub open spec fn theme_outcome(
    entries: Seq<(String, Vec<u8>)>,
    init: Seq<NamedColor>,
    changed: Seq<(String, ThemeColor)>,
    p: PaletteColorMethods,
    tr: Seq<ThemeStep>,
    r: Result<Vec<(String, Vec<u8>)>, ThemeWriteError>,
    colors1: Seq<NamedColor>,
) -> bool {
    let cv = named_colors_view(init);
    match r {
        Ok(out) => {
            &&& tr.len() == cv.len()
            &&& trace_ok(entries, cv, changed, p, init, tr, cv.len() as int)
            &&& theme_written(entries, out@, cv, tr)
            &&& colors1 == colors_after(init, tr, cv.len() as int)
        },
        Err(e) => {
            let k = tr.len() - 1;
            &&& 0 <= k < cv.len()
            &&& trace_ok(entries, cv, changed, p, init, tr, k)
            &&& absolute_replacement(changed, cv[k].color_name) matches Some(a)
            &&& match file_bytes(entries, cv, tr, class_file_of(cv[k].class_name), k) {
                None => e matches ThemeWriteError::MissingClass(f) && f@ == class_file_of(cv[k].class_name)
                    && colors1 == colors_after(init, tr, k),
                Some(b) => rewrite_fails(
                    b,
                    e,
                    class_file_of(cv[k].class_name),
                    cv[k].color_name,
                    a,
                    colors_after(init, tr, k),
                    colors1,
                    p,
                ),
            }
        },
    }
}

/// File `g` is rewritten by one of the first `k` steps.
pub open spec fn rewritten_before(cv: Seq<NamedColorView>, tr: Seq<ThemeStep>, g: Seq<char>, k: int) -> bool {
    exists|j: int| 0 <= j < k && (#[trigger] tr[j]).rewrote && class_file_of(cv[j].class_name) == g
}

/// Steps added after the first `k` do not change the bytes after them.
proof fn lemma_file_bytes_extend(
    entries: Seq<(String, Vec<u8>)>,
    cv: Seq<NamedColorView>,
    tr: Seq<ThemeStep>,
    s: ThemeStep,
    f: Seq<char>,
    k: int,
)
    requires
        k <= tr.len(),
    ensures
        file_bytes(entries, cv, tr.push(s), f, k) == file_bytes(entries, cv, tr, f, k),
    decreases k,
{
    if k > 0 {
        assert(tr.push(s)[k - 1] == tr[k - 1]);
        lemma_file_bytes_extend(entries, cv, tr, s, f, k - 1);
    }
}

/// A step added after the first `k` keeps them writing the theme.
proof fn lemma_trace_extend(
    entries: Seq<(String, Vec<u8>)>,
    cv: Seq<NamedColorView>,
    changed: Seq<(String, ThemeColor)>,
    p: PaletteColorMethods,
    init: Seq<NamedColor>,
    tr: Seq<ThemeStep>,
    s: ThemeStep,
)
    requires
        trace_ok(entries, cv, changed, p, init, tr, tr.len() as int),
    ensures
        trace_ok(entries, cv, changed, p, init, tr.push(s), tr.len() as int),
        colors_after(init, tr.push(s), tr.len() as int) == colors_after(init, tr, tr.len() as int),
        forall|g: Seq<char>|
            #[trigger] file_bytes(entries, cv, tr.push(s), g, tr.len() as int) == file_bytes(
                entries,
                cv,
                tr,
                g,
                tr.len() as int,
            ),
{
    let t2 = tr.push(s);
    assert forall|g: Seq<char>|
        #[trigger] file_bytes(entries, cv, t2, g, tr.len() as int) == file_bytes(entries, cv, tr, g, tr.len() as int) by {
        lemma_file_bytes_extend(entries, cv, tr, s, g, tr.len() as int);
    }
    assert forall|j: int| 0 <= j < tr.len() implies #[trigger] step_ok(entries, cv, changed, p, init, t2, j) by {
        assert(step_ok(entries, cv, changed, p, init, tr, j));
        assert(t2[j] == tr[j]);
        if j > 0 {
            assert(t2[j - 1] == tr[j - 1]);
        }
        let g = class_file_of(cv[j].class_name);
        lemma_file_bytes_extend(entries, cv, tr, s, g, j);
    }
}

/// A file no step has rewritten keeps the bytes of its first entry.
proof fn lemma_file_bytes_unrewritten(
    entries: Seq<(String, Vec<u8>)>,
    cv: Seq<NamedColorView>,
    tr: Seq<ThemeStep>,
    f: Seq<char>,
    k: int,
)
    requires
        0 <= k <= tr.len(),
        !rewritten_before(cv, tr, f, k),
    ensures
        file_bytes(entries, cv, tr, f, k) == file_bytes(entries, cv, tr, f, 0),
    decreases k,
{
    if k > 0 {
        assert(!(tr[k - 1].rewrote && class_file_of(cv[k - 1].class_name) == f));
        assert(!rewritten_before(cv, tr, f, k - 1)) by {
            if rewritten_before(cv, tr, f, k - 1) {
                let j = choose|j: int| 0 <= j < k - 1 && (#[trigger] tr[j]).rewrote && class_file_of(cv[j].class_name) == f;
                assert(0 <= j < k && tr[j].rewrote && class_file_of(cv[j].class_name) == f);
            }
        }
        lemma_file_bytes_unrewritten(entries, cv, tr, f, k - 1);
    }
}

/// A file a step has rewritten has an entry.
proof fn lemma_rewritten_has_entry(
    entries: Seq<(String, Vec<u8>)>,
    cv: Seq<NamedColorView>,
    changed: Seq<(String, ThemeColor)>,
    p: PaletteColorMethods,
    init: Seq<NamedColor>,
    tr: Seq<ThemeStep>,
    f: Seq<char>,
    k: int,
)
    requires
        trace_ok(entries, cv, changed, p, init, tr, k),
        file_bytes(entries, cv, tr, f, k) is Some,
    ensures
        first_entry_named(entries, f, 0) is Some,
    decreases k,
{
    if k > 0 {
        if tr[k - 1].rewrote && class_file_of(cv[k - 1].class_name) == f {
            assert(step_ok(entries, cv, changed, p, init, tr, k - 1));
        }
        lemma_rewritten_has_entry(entries, cv, changed, p, init, tr, f, k - 1);
    }
}

/// The bytes of file `f` as they stand after `k` steps, `patched` holding
/// those of every file the steps rewrote, once.
pub open spec fn patched_ok(
    entries: Seq<(String, Vec<u8>)>,
    cv: Seq<NamedColorView>,
    tr: Seq<ThemeStep>,
    patched: Seq<(String, Vec<u8>)>,
    k: int,
) -> bool {
    &&& forall|q: int|
        0 <= q < patched.len() ==> file_bytes(entries, cv, tr, (#[trigger] patched[q]).0@, k) == Some(patched[q].1@)
            && rewritten_before(cv, tr, patched[q].0@, k)
    &&& forall|q1: int, q2: int|
        0 <= q1 < q2 < patched.len() ==> (#[trigger] patched[q1]).0@ != (#[trigger] patched[q2]).0@
    &&& forall|g: Seq<char>| #[trigger] rewritten_before(cv, tr, g, k) ==> patched_has(patched, g)
}

/// `patched` holds the bytes of every file the first `k` steps rewrote but
/// `f`, once each.
pub open spec fn patched_without(
    entries: Seq<(String, Vec<u8>)>,
    cv: Seq<NamedColorView>,
    tr: Seq<ThemeStep>,
    patched: Seq<(String, Vec<u8>)>,
    f: Seq<char>,
    k: int,
) -> bool {
    &&& forall|q: int|
        0 <= q < patched.len() ==> file_bytes(entries, cv, tr, (#[trigger] patched[q]).0@, k) == Some(patched[q].1@)
            && rewritten_before(cv, tr, patched[q].0@, k) && patched[q].0@ != f
    &&& forall|q1: int, q2: int|
        0 <= q1 < q2 < patched.len() ==> (#[trigger] patched[q1]).0@ != (#[trigger] patched[q2]).0@
    &&& forall|g: Seq<char>| #[trigger] rewritten_before(cv, tr, g, k) && g != f ==> patched_has(patched, g)
}

/// Taking out the entry of `f` leaves the other files' bytes.
proof fn lemma_patched_remove(
    entries: Seq<(String, Vec<u8>)>,
    cv: Seq<NamedColorView>,
    tr: Seq<ThemeStep>,
    patched: Seq<(String, Vec<u8>)>,
    q: int,
    f: Seq<char>,
    k: int,
)
    requires
        patched_ok(entries, cv, tr, patched, k),
        0 <= q < patched.len(),
        patched[q].0@ == f,
    ensures
        patched_without(entries, cv, tr, patched.remove(q), f, k),
        file_bytes(entries, cv, tr, f, k) == Some(patched[q].1@),
{
    let m = patched.remove(q);
    assert forall|j: int| 0 <= j < m.len() implies file_bytes(entries, cv, tr, (#[trigger] m[j]).0@, k) == Some(m[j].1@)
        && rewritten_before(cv, tr, m[j].0@, k) && m[j].0@ != f by {
        if j < q {
            assert(m[j] == patched[j]);
        } else {
            assert(m[j] == patched[j + 1]);
        }
    }
    assert forall|q1: int, q2: int| 0 <= q1 < q2 < m.len() implies (#[trigger] m[q1]).0@ != (#[trigger] m[q2]).0@ by {
        let a = if q1 < q { q1 } else { q1 + 1 };
        let b = if q2 < q { q2 } else { q2 + 1 };
        assert(m[q1] == patched[a]);
        assert(m[q2] == patched[b]);
    }
    assert forall|g: Seq<char>| #[trigger] rewritten_before(cv, tr, g, k) && g != f implies patched_has(m, g) by {
        lemma_remove_keeps(patched, q, g);
    }
}

/// Without an entry of `f`, the steps did not rewrite `f`.
proof fn lemma_patched_absent(
    entries: Seq<(String, Vec<u8>)>,
    cv: Seq<NamedColorView>,
    tr: Seq<ThemeStep>,
    patched: Seq<(String, Vec<u8>)>,
    f: Seq<char>,
    k: int,
)
    requires
        patched_ok(entries, cv, tr, patched, k),
        !patched_has(patched, f),
    ensures
        patched_without(entries, cv, tr, patched, f, k),
        !rewritten_before(cv, tr, f, k),
{
    assert forall|q: int| 0 <= q < patched.len() implies (#[trigger] patched[q]).0@ != f by {
        if patched[q].0@ == f {
            assert(patched_has(patched, f));
        }
    }
}

/// A step for a color the theme does not replace keeps everything.
proof fn lemma_skip_step(
    entries: Seq<(String, Vec<u8>)>,
    cv: Seq<NamedColorView>,
    changed: Seq<(String, ThemeColor)>,
    p: PaletteColorMethods,
    init: Seq<NamedColor>,
    tr: Seq<ThemeStep>,
    patched: Seq<(String, Vec<u8>)>,
    s: ThemeStep,
)
    requires
        tr.len() < cv.len(),
        trace_ok(entries, cv, changed, p, init, tr, tr.len() as int),
        patched_ok(entries, cv, tr, patched, tr.len() as int),
        absolute_replacement(changed, cv[tr.len() as int].color_name) is None,
        !s.rewrote,
        s.colors == colors_after(init, tr, tr.len() as int),
    ensures
        trace_ok(entries, cv, changed, p, init, tr.push(s), tr.len() + 1int),
        patched_ok(entries, cv, tr.push(s), patched, tr.len() + 1int),
        colors_after(init, tr.push(s), tr.len() + 1int) == s.colors,
{
    let k = tr.len() as int;
    let t2 = tr.push(s);
    lemma_trace_extend(entries, cv, changed, p, init, tr, s);
    assert(step_ok(entries, cv, changed, p, init, t2, k));
    assert forall|j: int| 0 <= j < k + 1 implies #[trigger] step_ok(entries, cv, changed, p, init, t2, j) by {
        if j < k {
            assert(trace_ok(entries, cv, changed, p, init, t2, k));
        }
    }
    assert forall|g: Seq<char>| rewritten_before(cv, t2, g, k + 1) <==> rewritten_before(cv, tr, g, k) by {
        if rewritten_before(cv, t2, g, k + 1) {
            let j = choose|j: int| 0 <= j < k + 1 && (#[trigger] t2[j]).rewrote && class_file_of(cv[j].class_name) == g;
            assert(j < k);
            assert(t2[j] == tr[j]);
        }
        if rewritten_before(cv, tr, g, k) {
            let j = choose|j: int| 0 <= j < k && (#[trigger] tr[j]).rewrote && class_file_of(cv[j].class_name) == g;
            assert(t2[j] == tr[j]);
        }
    }
    assert forall|g: Seq<char>| #[trigger] file_bytes(entries, cv, t2, g, k + 1) == file_bytes(entries, cv, tr, g, k) by {
        assert(file_bytes(entries, cv, t2, g, k) == file_bytes(entries, cv, tr, g, k));
    }
    assert forall|q: int|
        0 <= q < patched.len() implies file_bytes(entries, cv, t2, (#[trigger] patched[q]).0@, k + 1) == Some(
        patched[q].1@,
    ) && rewritten_before(cv, t2, patched[q].0@, k + 1) by {
        assert(file_bytes(entries, cv, t2, patched[q].0@, k + 1) == file_bytes(entries, cv, tr, patched[q].0@, k));
        assert(rewritten_before(cv, tr, patched[q].0@, k));
    }
    assert forall|g: Seq<char>| #[trigger] rewritten_before(cv, t2, g, k + 1) implies patched_has(patched, g) by {
        assert(rewritten_before(cv, tr, g, k));
    }
}

/// A step that rewrites file `f` leaves `patched` with the new bytes of
/// `f` and the others' bytes.
proof fn lemma_rewrite_step(
    entries: Seq<(String, Vec<u8>)>,
    cv: Seq<NamedColorView>,
    changed: Seq<(String, ThemeColor)>,
    p: PaletteColorMethods,
    init: Seq<NamedColor>,
    tr: Seq<ThemeStep>,
    mid: Seq<(String, Vec<u8>)>,
    s: ThemeStep,
    f: Seq<char>,
    a: AbsoluteColor,
    x: (String, Vec<u8>),
)
    requires
        tr.len() < cv.len(),
        trace_ok(entries, cv, changed, p, init, tr, tr.len() as int),
        patched_without(entries, cv, tr, mid, f, tr.len() as int),
        absolute_replacement(changed, cv[tr.len() as int].color_name) == Some(a),
        f == class_file_of(cv[tr.len() as int].class_name),
        s.rewrote,
        file_bytes(entries, cv, tr, f, tr.len() as int) matches Some(b) && rewritten_to(
            b,
            s.bytes,
            cv[tr.len() as int].color_name,
            a,
            colors_after(init, tr, tr.len() as int),
            s.colors,
            p,
        ),
        x.0@ == f,
        x.1@ == s.bytes,
    ensures
        trace_ok(entries, cv, changed, p, init, tr.push(s), tr.len() + 1int),
        patched_ok(entries, cv, tr.push(s), mid.push(x), tr.len() + 1int),
        colors_after(init, tr.push(s), tr.len() + 1int) == s.colors,
{
    let k = tr.len() as int;
    let t2 = tr.push(s);
    let np = mid.push(x);
    lemma_trace_extend(entries, cv, changed, p, init, tr, s);
    assert(step_ok(entries, cv, changed, p, init, t2, k));
    assert forall|j: int| 0 <= j < k + 1 implies #[trigger] step_ok(entries, cv, changed, p, init, t2, j) by {
        if j < k {
            assert(trace_ok(entries, cv, changed, p, init, t2, k));
        }
    }
    assert forall|q: int|
        0 <= q < np.len() implies file_bytes(entries, cv, t2, (#[trigger] np[q]).0@, k + 1) == Some(np[q].1@)
        && rewritten_before(cv, t2, np[q].0@, k + 1) by {
        if q < mid.len() {
            assert(np[q] == mid[q]);
            let g = mid[q].0@;
            assert(file_bytes(entries, cv, t2, g, k) == file_bytes(entries, cv, tr, g, k));
            let j = choose|j: int| 0 <= j < k && (#[trigger] tr[j]).rewrote && class_file_of(cv[j].class_name) == g;
            assert(t2[j] == tr[j]);
        } else {
            assert(np[q] == x);
            assert(t2[k] == s);
        }
    }
    assert forall|q1: int, q2: int| 0 <= q1 < q2 < np.len() implies (#[trigger] np[q1]).0@ != (#[trigger] np[q2]).0@ by {
        assert(np[q1] == mid[q1]);
        if q2 < mid.len() {
            assert(np[q2] == mid[q2]);
        }
    }
    assert forall|g: Seq<char>| #[trigger] rewritten_before(cv, t2, g, k + 1) implies patched_has(np, g) by {
        let j = choose|j: int| 0 <= j < k + 1 && (#[trigger] t2[j]).rewrote && class_file_of(cv[j].class_name) == g;
        if g == f {
            assert(np[mid.len() as int] == x);
        } else {
            assert(j < k);
            assert(t2[j] == tr[j]);
            assert(rewritten_before(cv, tr, g, k));
            let w = choose|w: int| 0 <= w < mid.len() && (#[trigger] mid[w]).0@ == g;
            assert(np[w] == mid[w]);
        }
    }
}

/// The entry at `j` of the written JAR.
pub open spec fn expected_entry(
    entries: Seq<(String, Vec<u8>)>,
    cv: Seq<NamedColorView>,
    tr: Seq<ThemeStep>,
    j: int,
) -> Seq<u8> {
    if first_entry_named(entries, entries[j].0@, 0) == Some(j) {
        file_bytes(entries, cv, tr, entries[j].0@, cv.len() as int)->0
    } else {
        entries[j].1@
    }
}

/// The first `i` entries are written, and `patched` holds the bytes of
/// every rewritten file whose first entry is not yet written.
pub open spec fn output_ok(
    entries: Seq<(String, Vec<u8>)>,
    cv: Seq<NamedColorView>,
    tr: Seq<ThemeStep>,
    patched: Seq<(String, Vec<u8>)>,
    out: Seq<(String, Vec<u8>)>,
    i: int,
) -> bool {
    let n = cv.len() as int;
    &&& out.len() == i
    &&& forall|j: int|
        0 <= j < i ==> (#[trigger] out[j]).0@ == entries[j].0@ && out[j].1@ == expected_entry(entries, cv, tr, j)
    &&& forall|q: int|
        0 <= q < patched.len() ==> file_bytes(entries, cv, tr, (#[trigger] patched[q]).0@, n) == Some(patched[q].1@)
            && rewritten_before(cv, tr, patched[q].0@, n) && (first_entry_named(entries, patched[q].0@, 0) matches Some(
            i0,
        ) && i0 >= i)
    &&& forall|q1: int, q2: int|
        0 <= q1 < q2 < patched.len() ==> (#[trigger] patched[q1]).0@ != (#[trigger] patched[q2]).0@
    &&& forall|g: Seq<char>|
        #[trigger] rewritten_before(cv, tr, g, n) && (first_entry_named(entries, g, 0) matches Some(i0) && i0 >= i)
            ==> patched_has(patched, g)
}

/// Before any entry is written, `patched` holds the rewritten files.
proof fn lemma_patched_entries(
    entries: Seq<(String, Vec<u8>)>,
    cv: Seq<NamedColorView>,
    changed: Seq<(String, ThemeColor)>,
    p: PaletteColorMethods,
    init: Seq<NamedColor>,
    tr: Seq<ThemeStep>,
    patched: Seq<(String, Vec<u8>)>,
)
    requires
        tr.len() == cv.len(),
        trace_ok(entries, cv, changed, p, init, tr, cv.len() as int),
        patched_ok(entries, cv, tr, patched, cv.len() as int),
    ensures
        output_ok(entries, cv, tr, patched, seq![], 0),
{
    let n = cv.len() as int;
    assert forall|q: int| 0 <= q < patched.len() implies (first_entry_named(
        entries,
        (#[trigger] patched[q]).0@,
        0,
    ) matches Some(i0) && i0 >= 0) by {
        lemma_rewritten_has_entry(entries, cv, changed, p, init, tr, patched[q].0@, n);
        lemma_first_entry(entries, patched[q].0@, 0);
    }
}

/// Writing the first entry of a rewritten file from `patched`.
proof fn lemma_output_patched(
    entries: Seq<(String, Vec<u8>)>,
    cv: Seq<NamedColorView>,
    changed: Seq<(String, ThemeColor)>,
    p: PaletteColorMethods,
    init: Seq<NamedColor>,
    tr: Seq<ThemeStep>,
    patched: Seq<(String, Vec<u8>)>,
    out: Seq<(String, Vec<u8>)>,
    i: int,
    q: int,
    x: (String, Vec<u8>),
)
    requires
        output_ok(entries, cv, tr, patched, out, i),
        0 <= i < entries.len(),
        0 <= q < patched.len(),
        patched[q].0@ == entries[i].0@,
        x.0@ == entries[i].0@,
        x.1@ == patched[q].1@,
    ensures
        output_ok(entries, cv, tr, patched.remove(q), out.push(x), i + 1),
{
    let nm = entries[i].0@;
    let m = patched.remove(q);
    let o = out.push(x);
    lemma_first_entry(entries, nm, 0);
    assert(first_entry_named(entries, nm, 0) == Some(i));
    assert forall|j: int| 0 <= j < i + 1 implies (#[trigger] o[j]).0@ == entries[j].0@ && o[j].1@ == expected_entry(
        entries,
        cv,
        tr,
        j,
    ) by {
        if j < i {
            assert(o[j] == out[j]);
        }
    }
    assert forall|w: int| 0 <= w < m.len() implies file_bytes(entries, cv, tr, (#[trigger] m[w]).0@, cv.len() as int)
        == Some(m[w].1@) && rewritten_before(cv, tr, m[w].0@, cv.len() as int) && (first_entry_named(
        entries,
        m[w].0@,
        0,
    ) matches Some(i0) && i0 >= i + 1) by {
        let a = if w < q { w } else { w + 1 };
        assert(m[w] == patched[a]);
        assert(patched[a].0@ != patched[q].0@);
        lemma_first_entry(entries, patched[a].0@, 0);
    }
    assert forall|q1: int, q2: int| 0 <= q1 < q2 < m.len() implies (#[trigger] m[q1]).0@ != (#[trigger] m[q2]).0@ by {
        let a = if q1 < q { q1 } else { q1 + 1 };
        let b = if q2 < q { q2 } else { q2 + 1 };
        assert(m[q1] == patched[a]);
        assert(m[q2] == patched[b]);
    }
    assert forall|g: Seq<char>|
        #[trigger] rewritten_before(cv, tr, g, cv.len() as int) && (first_entry_named(entries, g, 0) matches Some(i0)
            && i0 >= i + 1) implies patched_has(m, g) by {
        assert(g != nm);
        lemma_remove_keeps(patched, q, g);
    }
}

/// Writing an entry that is not the first of a rewritten file.
proof fn lemma_output_entry(
    entries: Seq<(String, Vec<u8>)>,
    cv: Seq<NamedColorView>,
    changed: Seq<(String, ThemeColor)>,
    p: PaletteColorMethods,
    init: Seq<NamedColor>,
    tr: Seq<ThemeStep>,
    patched: Seq<(String, Vec<u8>)>,
    out: Seq<(String, Vec<u8>)>,
    i: int,
    x: (String, Vec<u8>),
)
    requires
        tr.len() == cv.len(),
        output_ok(entries, cv, tr, patched, out, i),
        0 <= i < entries.len(),
        !patched_has(patched, entries[i].0@),
        x.0@ == entries[i].0@,
        x.1@ == entries[i].1@,
    ensures
        output_ok(entries, cv, tr, patched, out.push(x), i + 1),
{
    let nm = entries[i].0@;
    let o = out.push(x);
    let n = cv.len() as int;
    lemma_first_entry(entries, nm, 0);
    if first_entry_named(entries, nm, 0) == Some(i) {
        assert(!rewritten_before(cv, tr, nm, n));
        lemma_file_bytes_unrewritten(entries, cv, tr, nm, n);
    }
    assert forall|j: int| 0 <= j < i + 1 implies (#[trigger] o[j]).0@ == entries[j].0@ && o[j].1@ == expected_entry(
        entries,
        cv,
        tr,
        j,
    ) by {
        if j < i {
            assert(o[j] == out[j]);
        }
    }
    assert forall|w: int| 0 <= w < patched.len() implies (first_entry_named(
        entries,
        (#[trigger] patched[w]).0@,
        0,
    ) matches Some(i0) && i0 >= i + 1) by {
        if patched[w].0@ == nm {
            assert(patched_has(patched, nm));
        }
        lemma_first_entry(entries, patched[w].0@, 0);
    }
    assert forall|g: Seq<char>|
        #[trigger] rewritten_before(cv, tr, g, n) && (first_entry_named(entries, g, 0) matches Some(i0) && i0 >= i + 1)
            implies patched_has(patched, g) by {
    }
}

/// Decodes `buf`, rewrites the definition of `color_name` to `abs` and
/// reassembles the class.
fn rewrite_class(
    buf: &Vec<u8>,
    f: &String,
    color_name: &String,
    abs: &AbsoluteColor,
    goodies: &mut GeneralGoodies,
) -> (r: Result<Vec<u8>, ThemeWriteError>)
    ensures
        final(goodies).palette_color_methods == old(goodies).palette_color_methods,
        same_colors_but_components(
            named_colors_view(old(goodies).named_colors@),
            named_colors_view(final(goodies).named_colors@),
        ),
        match r {
            Ok(b) => rewritten_to(
                buf@,
                b@,
                color_name@,
                *abs,
                old(goodies).named_colors@,
                final(goodies).named_colors@,
                old(goodies).palette_color_methods,
            ),
            Err(e) => rewrite_fails(
                buf@,
                e,
                f@,
                color_name@,
                *abs,
                old(goodies).named_colors@,
                final(goodies).named_colors@,
                old(goodies).palette_color_methods,
            ),
        },
{
    let mut class = match decode_class(buf.as_slice()) {
        Some(c) => c,
        None => return Err(ThemeWriteError::UnparsableClass(f.clone())),
    };
    let new_value = ColorComponents::Rgbai(abs.r, abs.g, abs.b, abs.a);
    let ghost colors0 = goodies.named_colors@;
    let ghost pal = goodies.palette_color_methods;
    let ghost c0 = class;
    if !can_replace(
        &class,
        color_name.as_str(),
        &new_value,
        &goodies.named_colors,
        &goodies.palette_color_methods,
        CompositingMode::Absolute,
    ) {
        proof {
            assert(decodable(buf@, c0));
        }
        return Err(ThemeWriteError::UnsupportedDefinition(f.clone()));
    }
    let ghost nv = new_value;
    let res = replace_named_color(
        &mut class,
        color_name.as_str(),
        new_value,
        &mut goodies.named_colors,
        &goodies.palette_color_methods,
        CompositingMode::Absolute,
    );
    proof {
        if first_named(colors0, color_name@, 0) is Some {
            lemma_recolor_keeps_colors(
                c0,
                class,
                colors0,
                goodies.named_colors@,
                color_name@,
                nv,
                goodies.palette_color_methods,
                CompositingMode::Absolute,
                res,
            );
        }
        assert(replaced(c0, class, colors0, goodies.named_colors@, color_name@, abs_components(*abs), pal, res));
        assert(decodable(buf@, c0));
    }
    match reasm(&class) {
        Ok(b) => Ok(b),
        Err(e) => Err(ThemeWriteError::Reasm(f.clone(), e)),
    }
}

/// Writes the theme's absolute replacements of the palette colors (see
/// `absolute_replacement`) into the classes that define them, one named
/// color after the other (see `theme_outcome`): every entry is kept, in
/// order; the first entry of each rewritten file holds the file's last
/// rewrite, and every other entry its own bytes.
#[verifier::rlimit(60)]
pub fn apply_theme(
    entries: &Vec<(String, Vec<u8>)>,
    goodies: &mut GeneralGoodies,
    changed_colors: &Vec<(String, ThemeColor)>,
) -> (r: Result<Vec<(String, Vec<u8>)>, ThemeWriteError>)
    ensures
        final(goodies).palette_color_methods == old(goodies).palette_color_methods,
        same_colors_but_components(
            named_colors_view(old(goodies).named_colors@),
            named_colors_view(final(goodies).named_colors@),
        ),
        exists|tr: Seq<ThemeStep>|
            #[trigger] theme_outcome(
                entries@,
                old(goodies).named_colors@,
                changed_colors@,
                old(goodies).palette_color_methods,
                tr,
                r,
                final(goodies).named_colors@,
            ),
{
    let colors = clone_colors(&goodies.named_colors);
    let ghost init = goodies.named_colors@;
    let ghost cv = named_colors_view(colors@);
    let ghost ch = changed_colors@;
    let ghost pal = goodies.palette_color_methods;
    let ghost goodies0 = *goodies;
    let ghost mut tr: Seq<ThemeStep> = seq![];
    let mut patched: Vec<(String, Vec<u8>)> = Vec::new();
    let mut k: usize = 0;
    while k < colors.len()
        invariant
            k <= colors@.len(),
            cv == named_colors_view(colors@),
            cv == named_colors_view(init),
            init == goodies0.named_colors@,
            ch == changed_colors@,
            goodies0 == *old(goodies),
            pal == goodies0.palette_color_methods,
            goodies.palette_color_methods == pal,
            same_colors_but_components(named_colors_view(init), named_colors_view(goodies.named_colors@)),
            tr.len() == k,
            trace_ok(entries@, cv, ch, pal, init, tr, k as int),
            goodies.named_colors@ == colors_after(init, tr, k as int),
            patched_ok(entries@, cv, tr, patched@, k as int),
        decreases colors@.len() - k,
    {
        let c = &colors[k];
        assert(cv[k as int] == c@);
        let ghost skip = ThemeStep { rewrote: false, bytes: seq![], colors: goodies.named_colors@ };
        let ghost skipped = absolute_replacement(ch, cv[k as int].color_name) is None;
        let abs = match theme_color_index(changed_colors, &c.color_name) {
            Some(t) => match &changed_colors[t].1 {
                ThemeColor::Absolute(a) => {
                    if let CompositingMode::Absolute = a.compositing_mode {
                        a
                    } else {
                        proof {
                            lemma_skip_step(entries@, cv, ch, pal, init, tr, patched@, skip);
                            tr = tr.push(skip);
                        }
                        k += 1;
                        continue;
                    }
                },
                ThemeColor::Relative(_) => {
                    proof {
                        lemma_skip_step(entries@, cv, ch, pal, init, tr, patched@, skip);
                        tr = tr.push(skip);
                    }
                    k += 1;
                    continue;
                },
            },
            None => {
                proof {
                    lemma_skip_step(entries@, cv, ch, pal, init, tr, patched@, skip);
                    tr = tr.push(skip);
                }
                k += 1;
                continue;
            },
        };
        assert(absolute_replacement(ch, cv[k as int].color_name) == Some(*abs));
        let mut f = c.class_name.clone();
        f.append(".class");
        assert(f@ == class_file_of(cv[k as int].class_name));
        let ghost fb = file_bytes(entries@, cv, tr, f@, k as int);
        let buf = match patched_index(&patched, &f) {
            Some(q) => {
                proof {
                    lemma_patched_remove(entries@, cv, tr, patched@, q as int, f@, k as int);
                }
                let (_, b) = patched.remove(q);
                b
            },
            None => {
                proof {
                    lemma_patched_absent(entries@, cv, tr, patched@, f@, k as int);
                    lemma_file_bytes_unrewritten(entries@, cv, tr, f@, k as int);
                }
                match entry_index(entries, &f) {
                    Some(i) => copy_bytes(&entries[i].1),
                    None => {
                        proof {
                            lemma_trace_extend(entries@, cv, ch, pal, init, tr, skip);
                            let t2 = tr.push(skip);
                            assert(theme_outcome(
                                entries@,
                                init,
                                ch,
                                pal,
                                t2,
                                Err(ThemeWriteError::MissingClass(f)),
                                goodies.named_colors@,
                            ));
                        }
                        return Err(ThemeWriteError::MissingClass(f));
                    },
                }
            },
        };
        assert(fb == Some(buf@));
        let ghost patched_mid = patched@;
        let ghost colors_before = goodies.named_colors@;
        let bytes = match rewrite_class(&buf, &f, &c.color_name, abs, goodies) {
            Ok(b) => b,
            Err(e) => {
                proof {
                    lemma_trace_extend(entries@, cv, ch, pal, init, tr, skip);
                    let t2 = tr.push(skip);
                    assert(theme_outcome(entries@, init, ch, pal, t2, Err(e), goodies.named_colors@));
                }
                return Err(e);
            },
        };
        let ghost step = ThemeStep { rewrote: true, bytes: bytes@, colors: goodies.named_colors@ };
        let ghost fv = f@;
        patched.push((f, bytes));
        proof {
            lemma_rewrite_step(entries@, cv, ch, pal, init, tr, patched_mid, step, fv, *abs, patched@.last());
            assert(patched@ == patched_mid.push(patched@.last()));
            tr = tr.push(step);
        }
        k += 1;
    }
    let mut out: Vec<(String, Vec<u8>)> = Vec::new();
    let mut i: usize = 0;
    let ghost n = cv.len() as int;
    proof {
        lemma_patched_entries(entries@, cv, ch, pal, init, tr, patched@);
    }
    while i < entries.len()
        invariant
            i <= entries@.len(),
            out@.len() == i,
            n == cv.len(),
            tr.len() == n,
            trace_ok(entries@, cv, ch, pal, init, tr, n),
            output_ok(entries@, cv, tr, patched@, out@, i as int),
        decreases entries@.len() - i,
    {
        let name = &entries[i].0;
        let ghost patched_start = patched@;
        let ghost out_start = out@;
        let ghost mut q_found: Option<int> = None;
        let bytes = match patched_index(&patched, name) {
            Some(q) => {
                proof {
                    q_found = Some(q as int);
                }
                let (_, b) = patched.remove(q);
                b
            },
            None => copy_bytes(&entries[i].1),
        };
        out.push((name.clone(), bytes));
        proof {
            assert(out@ == out_start.push(out@.last()));
            match q_found {
                Some(q) => {
                    lemma_output_patched(entries@, cv, ch, pal, init, tr, patched_start, out_start, i as int, q, out@.last());
                },
                None => {
                    lemma_output_entry(entries@, cv, ch, pal, init, tr, patched_start, out_start, i as int, out@.last());
                },
            }
        }
        i += 1;
    }
    proof {
        assert(theme_outcome(entries@, init, ch, pal, tr, Ok(out), goodies.named_colors@));
    }
    Ok(out)
}

/// With no rewriting step, the named colors are as they were.
proof fn lemma_skips_keep_colors(init: Seq<NamedColor>, tr: Seq<ThemeStep>, k: int)
    requires
        0 <= k <= tr.len(),
        forall|j: int| 0 <= j < k ==> #[trigger] tr[j].colors == colors_after(init, tr, j),
    ensures
        colors_after(init, tr, k) == init,
    decreases k,
{
    if k > 0 {
        assert(tr[k - 1].colors == colors_after(init, tr, k - 1));
        lemma_skips_keep_colors(init, tr, k - 1);
    }
}

/// A theme that replaces none of the palette colors writes every entry
/// back as it was, leaves the named colors as they were, and cannot fail.
pub proof fn lemma_no_replacement_keeps_entries(
    entries: Seq<(String, Vec<u8>)>,
    init: Seq<NamedColor>,
    changed: Seq<(String, ThemeColor)>,
    p: PaletteColorMethods,
    tr: Seq<ThemeStep>,
    r: Result<Vec<(String, Vec<u8>)>, ThemeWriteError>,
    colors1: Seq<NamedColor>,
)
    requires
        theme_outcome(entries, init, changed, p, tr, r, colors1),
        forall|k: int| 0 <= k < init.len() ==> absolute_replacement(changed, (#[trigger] init[k]).color_name@) is None,
    ensures
        r is Ok,
        r matches Ok(out) ==> out@.len() == entries.len() && forall|i: int|
            0 <= i < entries.len() ==> (#[trigger] out@[i]).0@ == entries[i].0@ && out@[i].1@ == entries[i].1@,
        colors1 == init,
{
    let cv = named_colors_view(init);
    let n = cv.len() as int;
    match r {
        Err(e) => {
            let k = tr.len() - 1;
            assert(cv[k].color_name == init[k].color_name@);
        },
        Ok(out) => {
            assert forall|j: int| 0 <= j < n implies !(#[trigger] tr[j]).rewrote && tr[j].colors == colors_after(
                init,
                tr,
                j,
            ) by {
                assert(step_ok(entries, cv, changed, p, init, tr, j));
                assert(cv[j].color_name == init[j].color_name@);
            }
            lemma_skips_keep_colors(init, tr, n);
            assert forall|i: int| 0 <= i < entries.len() implies (#[trigger] out@[i]).0@ == entries[i].0@ && out@[i].1@
                == entries[i].1@ by {
                let nm = entries[i].0@;
                assert(!rewritten_before(cv, tr, nm, n));
                lemma_file_bytes_unrewritten(entries, cv, tr, nm, n);
                lemma_first_entry(entries, nm, 0);
            }
        },
    }
}

/// `g` holds the goodies of readable classes `cs` (see `goodies_of`).
pub open spec fn goodies_of_after(cs: Seq<(String, Option<ClassFile>)>, g: GeneralGoodies) -> bool {
    &&& first_raw_unreadable(cs, 0) is None
    &&& goodies_error(cs) is None
    &&& first_unnamed(cs, 0) is None
    &&& goodies_of(cs, g)
}

/// The entries' classes are decodings of their bytes (see
/// `parse_jar_classes`).
pub open spec fn parsed_from(entries: Seq<(String, Vec<u8>)>, cs: Seq<(String, Option<ClassFile>)>) -> bool {
    &&& cs.len() == entries.len()
    &&& forall|i: int|
        0 <= i < entries.len() ==> (#[trigger] cs[i]).0@ == entries[i].0@ && (cs[i].1 matches Some(c) ==> decodable(
            entries[i].1@,
            c,
        )) && (cs[i].1 is Some <==> exists|c: ClassFile| decodable(entries[i].1@, c))
}

/// Writes the theme into the entries of a JAR: collects the goodies from
/// the entries' classes, then writes the theme's absolute replacements
/// (see `apply_theme`). The writing stage is reported as begun, and as
/// done on success. Only the classes that define replaced colors are
/// rewritten; the init class in particular is written back as it was, with
/// the application's integrity check left in place.
pub fn write_theme_to_jar(
    entries: &Vec<(String, Vec<u8>)>,
    changed_colors: &Vec<(String, ThemeColor)>,
    events: &mut Vec<ThemeProcessingEvent>,
) -> (r: Result<Vec<(String, Vec<u8>)>, ThemeWriteError>)
    ensures
        r is Ok ==> final(events)@ == old(events)@ + seq![
            ThemeProcessingEvent { stage: Stage::WritingTheme, progress: StageProgress::Unknown },
            ThemeProcessingEvent { stage: Stage::WritingTheme, progress: StageProgress::Done },
        ],
        r is Err ==> final(events)@ == old(events)@ + seq![
            ThemeProcessingEvent { stage: Stage::WritingTheme, progress: StageProgress::Unknown },
        ],
        r matches Err(ThemeWriteError::Goodies(_)) ==> exists|cs: Seq<(String, Option<ClassFile>)>|
            #[trigger] parsed_from(entries@, cs) && (first_raw_unreadable(cs, 0) is Some || goodies_error(
                cs,
            ) is Some || first_unnamed(cs, 0) is Some),
        !(r matches Err(ThemeWriteError::Goodies(_))) ==> exists|
            cs: Seq<(String, Option<ClassFile>)>,
            g: GeneralGoodies,
            tr: Seq<ThemeStep>,
            c1: Seq<NamedColor>,
        |
            #![trigger parsed_from(entries@, cs), goodies_of_after(cs, g), theme_outcome(entries@, g.named_colors@, changed_colors@, g.palette_color_methods, tr, r, c1)]
            parsed_from(entries@, cs) && goodies_of_after(cs, g) && theme_outcome(
                entries@,
                g.named_colors@,
                changed_colors@,
                g.palette_color_methods,
                tr,
                r,
                c1,
            ),
{
    events.push(ThemeProcessingEvent { stage: Stage::WritingTheme, progress: StageProgress::Unknown });
    let classes = parse_jar_classes(entries);
    let ghost cs = classes@;
    assert(parsed_from(entries@, cs));
    let mut ignored: Vec<ThemeProcessingEvent> = Vec::new();
    let mut goodies = match extract_general_goodies(&classes, &mut ignored) {
        Ok(g) => g,
        Err(e) => return Err(ThemeWriteError::Goodies(e)),
    };
    let ghost g0 = goodies;
    let written = apply_theme(entries, &mut goodies, changed_colors);
    assert(goodies_of_after(cs, g0));
    let ghost c1 = goodies.named_colors@;
    let ghost tr = choose|tr: Seq<ThemeStep>|
        #[trigger] theme_outcome(entries@, g0.named_colors@, changed_colors@, g0.palette_color_methods, tr, written, c1);
    assert(theme_outcome(entries@, g0.named_colors@, changed_colors@, g0.palette_color_methods, tr, written, c1));
    match written {
        Ok(out) => {
            events.push(ThemeProcessingEvent { stage: Stage::WritingTheme, progress: StageProgress::Done });
            Ok(out)
        },
        Err(e) => Err(e),
    }
}

} // verus!
