//! Giving every named palette color a drawn rgb value and the timeline
//! cursor another raw color constant.
use crate::classfile::{ClassFile, Const};
use crate::colors::{named_colors_view, ColorComponents, ComponentsView, NamedColor, NamedColorView};
use crate::goodies::GeneralGoodies;
use crate::legacy::{switch_timeline_color, switchable, switched, TimelineColorReference};
use crate::methods::PaletteColorMethods;
use crate::recolor::{can_replace, first_named, recolored, replace_named_color, replace_ok};
use crate::writer::{class_file_of, clone_colors};
use crate::types::CompositingMode;
use vstd::prelude::*;

verus! {

/// Why the colors could not be randomized.
pub enum RandomizeError {
    /// No class has this file name.
    MissingClass(String),
    /// The color (or the timeline setter in this file) is defined in a way
    /// the rewriting does not handle (see `replace_ok` and `switchable`).
    Unsupported(String),
}

/// The alpha a randomized color keeps: its own where its components give
/// one as a byte, else 255.
pub open spec fn kept_alpha(c: ComponentsView) -> u8 {
    match c {
        ComponentsView::Rgbai(_, _, _, a) => a,
        _ => 255,
    }
}

/// The new components of color `c` with the drawn rgb value `d`.
pub open spec fn random_value(c: NamedColorView, d: (u8, u8, u8)) -> ColorComponents {
    ColorComponents::Rgbai(d.0, d.1, d.2, kept_alpha(c.components))
}

/// Index of the first class, at or after `k`, named `f`.
pub open spec fn first_class_named(cs: Seq<(String, ClassFile)>, f: Seq<char>, k: int) -> Option<int>
    decreases cs.len() - k,
{
    if k < 0 || k >= cs.len() {
        None
    } else if cs[k].0@ == f {
        Some(k)
    } else {
        first_class_named(cs, f, k + 1)
    }
}

proof fn lemma_first_class_named(cs: Seq<(String, ClassFile)>, f: Seq<char>, k: int)
    requires
        0 <= k,
    ensures
        first_class_named(cs, f, k) matches Some(i) ==> k <= i < cs.len() && cs[i].0@ == f,
    decreases cs.len() - k,
{
    if k < cs.len() {
        lemma_first_class_named(cs, f, k + 1);
    }
}

/// Components given with floats, whose alpha is not a byte.
pub open spec fn float_components(c: ComponentsView) -> bool {
    c is Rgbaf || c is Rgbad
}

/// Randomizing color `c` fails in classes `cs` with named colors `colors`:
/// its class is missing, its alpha is a float, or the rewriting does not
/// handle its definition.
pub open spec fn step_fails(
    cs: Seq<(String, ClassFile)>,
    colors: Seq<NamedColor>,
    c: NamedColorView,
    d: (u8, u8, u8),
    p: PaletteColorMethods,
) -> bool {
    match first_class_named(cs, class_file_of(c.class_name), 0) {
        None => true,
        Some(k) => float_components(c.components) || !replace_ok(
            cs[k].1,
            c.color_name,
            random_value(c, d),
            colors,
            p,
            c.compositing_mode,
        ),
    }
}

/// What `replace_named_color` does (see its contract).
pub open spec fn replaced_by(
    c0: ClassFile,
    c1: ClassFile,
    colors0: Seq<NamedColor>,
    colors1: Seq<NamedColor>,
    name: Seq<char>,
    v: ColorComponents,
    p: PaletteColorMethods,
    mode: CompositingMode,
    r: Option<()>,
) -> bool {
    if mode is RelativeToBackground || first_named(colors0, name, 0) is None {
        r is None && c1 == c0 && colors1 == colors0
    } else {
        recolored(c0, c1, colors0, colors1, name, v, p, mode, r)
    }
}

/// Color `c` is given the drawn value `d`: the class of its file is
/// rewritten (see `replaced_by`) and every other class is kept.
pub open spec fn random_step(
    cs0: Seq<(String, ClassFile)>,
    colors0: Seq<NamedColor>,
    c: NamedColorView,
    d: (u8, u8, u8),
    p: PaletteColorMethods,
    cs1: Seq<(String, ClassFile)>,
    colors1: Seq<NamedColor>,
    r: Option<()>,
) -> bool {
    let k = first_class_named(cs0, class_file_of(c.class_name), 0)->0;
    &&& !step_fails(cs0, colors0, c, d, p)
    &&& cs1.len() == cs0.len()
    &&& forall|j: int| 0 <= j < cs0.len() && j != k ==> cs1[j] == cs0[j]
    &&& cs1[k].0 == cs0[k].0
    &&& replaced_by(cs0[k].1, cs1[k].1, colors0, colors1, c.color_name, random_value(c, d), p, c.compositing_mode, r)
}

/// The colors `init` are randomized one after the other with the values
/// `drawn`: `st[i]` holds the classes and named colors before step `i`, and
/// `rs[i]` what step `i`'s rewriting returned.
pub open spec fn random_trace(
    init: Seq<NamedColorView>,
    drawn: Seq<(u8, u8, u8)>,
    p: PaletteColorMethods,
    st: Seq<(Seq<(String, ClassFile)>, Seq<NamedColor>)>,
    rs: Seq<Option<()>>,
) -> bool {
    &&& st.len() == rs.len() + 1
    &&& rs.len() <= init.len()
    &&& forall|i: int|
        0 <= i < rs.len() ==> #[trigger] random_step(
            st[i].0,
            st[i].1,
            init[i],
            drawn[i],
            p,
            st[i + 1].0,
            st[i + 1].1,
            rs[i],
        )
}

/// The goodies but the named colors and the timeline reference are kept.
pub open spec fn rest_kept(g0: GeneralGoodies, g1: GeneralGoodies) -> bool {
    &&& g1.init_class == g0.init_class
    &&& g1.palette_color_methods == g0.palette_color_methods
    &&& g1.raw_colors == g0.raw_colors
    &&& g1.release_metadata == g0.release_metadata
    &&& g1.named_color_getter_1 == g0.named_color_getter_1
    &&& g1.named_color_getter_invocations == g0.named_color_getter_invocations
}

/// Whether the step results were `Some`.
pub open spec fn replaced_flags(rs: Seq<Option<()>>) -> Seq<bool> {
    rs.map_values(|r: Option<()>| r is Some)
}

/// The outcome of the timeline switch on classes `cs` (after the colors),
/// with reference `t0` and the constant named `name`.
pub open spec fn timeline_outcome(
    cs: Seq<(String, ClassFile)>,
    t0: TimelineColorReference,
    name: Seq<char>,
    cs1: Seq<(String, ClassFile)>,
    t1: Option<TimelineColorReference>,
    ok: bool,
    err: Option<RandomizeError>,
) -> bool {
    match first_class_named(cs, t0.class_filename@, 0) {
        None => !ok && (err matches Some(RandomizeError::MissingClass(f)) && f@ == t0.class_filename@) && cs1 == cs
            && t1 == Some(t0),
        Some(k) => if !switchable(cs[k].1, t0.fmim_idx) {
            !ok && (err matches Some(RandomizeError::Unsupported(f)) && f@ == t0.class_filename@) && cs1 == cs && t1
                == Some(t0)
        } else {
            &&& ok
            &&& cs1.len() == cs.len()
            &&& forall|j: int| 0 <= j < cs.len() && j != k ==> cs1[j] == cs[j]
            &&& cs1[k].0 == cs[k].0
            &&& t1 matches Some(t) && exists|r: Option<()>| switched(cs[k].1, cs1[k].1, t0, t, name, r)
        },
    }
}

/// What `randomize_named_colors` does, from classes `cs0`, goodies `g0`,
/// drawn values and constant `pick`, to classes `cs1` and goodies `g1`.
pub open spec fn randomized(
    cs0: Seq<(String, ClassFile)>,
    g0: GeneralGoodies,
    drawn: Seq<(u8, u8, u8)>,
    pick: usize,
    st: Seq<(Seq<(String, ClassFile)>, Seq<NamedColor>)>,
    rs: Seq<Option<()>>,
    r: Result<Vec<bool>, RandomizeError>,
    cs1: Seq<(String, ClassFile)>,
    g1: GeneralGoodies,
) -> bool {
    let init = named_colors_view(g0.named_colors@);
    let p = g0.palette_color_methods;
    let k = rs.len() as int;
    let last = st[k];
    &&& random_trace(init, drawn, p, st, rs)
    &&& st[0] == (cs0, g0.named_colors@)
    &&& rest_kept(g0, g1)
    &&& g1.named_colors@ == last.1
    &&& if k < init.len() {
        let c = init[k];
        &&& step_fails(last.0, last.1, c, drawn[k], p)
        &&& match r {
            Err(RandomizeError::MissingClass(f)) => first_class_named(last.0, class_file_of(c.class_name), 0) is None
                && f@ == class_file_of(c.class_name),
            Err(RandomizeError::Unsupported(f)) => first_class_named(last.0, class_file_of(c.class_name), 0) is Some
                && f@ == c.color_name,
            Ok(_) => false,
        }
        &&& cs1 == last.0
        &&& g1.timeline_color_ref == g0.timeline_color_ref
    } else {
        match g0.timeline_color_ref {
            None => r matches Ok(v) && v@ == replaced_flags(rs) && cs1 == last.0 && g1.timeline_color_ref is None,
            Some(t0) => {
                let name = g0.raw_colors.constants.consts@[pick as int].const_name@;
                exists|ok: bool, err: Option<RandomizeError>|
                    #[trigger] timeline_outcome(last.0, t0, name, cs1, g1.timeline_color_ref, ok, err) && (if ok {
                        r matches Ok(v) && v@ == replaced_flags(rs)
                    } else {
                        r matches Err(e) && err == Some(e)
                    })
            },
        }
    }
}

fn class_index(cs: &Vec<(String, ClassFile)>, f: &String) -> (r: Option<usize>)
    ensures
        match first_class_named(cs@, f@, 0) {
            Some(k) => r matches Some(i) && i == k,
            None => r is None,
        },
{
    let mut i: usize = 0;
    while i < cs.len()
        invariant
            i <= cs@.len(),
            first_class_named(cs@, f@, 0) == first_class_named(cs@, f@, i as int),
        decreases cs@.len() - i,
    {
        if cs[i].0 == *f {
            return Some(i);
        }
        i += 1;
    }
    None
}

fn empty_class() -> ClassFile {
    ClassFile {
        minor: 0,
        major: 0,
        cp: Vec::new(),
        access: 0,
        this_class: 0,
        super_class: 0,
        interfaces: Vec::new(),
        fields: Vec::new(),
        methods: Vec::new(),
        attrs: Vec::new(),
    }
}

fn can_switch(class: &ClassFile, fmim_idx: u16) -> (r: bool)
    ensures
        r == switchable(*class, fmim_idx),
{
    let n = class.cp.len();
    if n > 65534 {
        return false;
    }
    let f = fmim_idx as usize;
    if f >= n + 2 {
        return true;
    }
    if f >= n {
        return false;
    }
    match &class.cp[f] {
        Const::Field(_, _) => true,
        _ => false,
    }
}

/// Gives every named color, in order, the drawn rgb value `drawn[i]` with
/// its own alpha (see `random_step`), rewriting the class of its file in
/// `classes`; then points the timeline cursor at raw color constant `pick`
/// (see `switch_timeline_color`). Returns, for each color, whether its
/// definition was rewritten; the first color or timeline setter that
/// cannot be handled stops it with an error (see `randomized`).
pub fn randomize_named_colors(
    classes: &mut Vec<(String, ClassFile)>,
    goodies: &mut GeneralGoodies,
    drawn: &Vec<(u8, u8, u8)>,
    pick: usize,
) -> (r: Result<Vec<bool>, RandomizeError>)
    requires
        drawn@.len() == old(goodies).named_colors@.len(),
        old(goodies).timeline_color_ref is Some ==> pick < old(goodies).raw_colors.constants.consts@.len(),
    ensures
        exists|st: Seq<(Seq<(String, ClassFile)>, Seq<NamedColor>)>, rs: Seq<Option<()>>|
            #[trigger] randomized(old(classes)@, *old(goodies), drawn@, pick, st, rs, r, final(classes)@, *final(goodies)),
{
    let colors = clone_colors(&goodies.named_colors);
    let ghost g0 = *goodies;
    let ghost cs0 = classes@;
    let ghost init = named_colors_view(g0.named_colors@);
    let ghost p = g0.palette_color_methods;
    let ghost mut st: Seq<(Seq<(String, ClassFile)>, Seq<NamedColor>)> = seq![(classes@, goodies.named_colors@)];
    let ghost mut rs: Seq<Option<()>> = seq![];
    let mut flags: Vec<bool> = Vec::new();
    let mut i: usize = 0;
    while i < colors.len()
        invariant
            i <= colors@.len(),
            init == named_colors_view(colors@),
            init.len() == drawn@.len(),
            g0 == *old(goodies),
            cs0 == old(classes)@,
            p == g0.palette_color_methods,
            init == named_colors_view(g0.named_colors@),
            rs.len() == i,
            random_trace(init, drawn@, p, st, rs),
            st[0] == (cs0, g0.named_colors@),
            st[i as int] == (classes@, goodies.named_colors@),
            rest_kept(g0, *goodies),
            goodies.timeline_color_ref == g0.timeline_color_ref,
            flags@ == replaced_flags(rs),
        decreases colors@.len() - i,
    {
        let c = &colors[i];
        let ghost cv = init[i as int];
        assert(cv == c@);
        let mut f = c.class_name.clone();
        f.append(".class");
        assert(f@ == class_file_of(cv.class_name));
        let k = match class_index(classes, &f) {
            Some(k) => k,
            None => {
                assert(step_fails(classes@, goodies.named_colors@, cv, drawn@[i as int], p));
                assert(randomized(cs0, g0, drawn@, pick, st, rs, Err(RandomizeError::MissingClass(f)), classes@, *goodies));
                return Err(RandomizeError::MissingClass(f));
            },
        };
        proof {
            lemma_first_class_named(classes@, f@, 0);
        }
        let alpha: u8 = match &c.components {
            ColorComponents::Rgbai(_, _, _, a) => *a,
            ColorComponents::Rgbaf(_, _, _, _) | ColorComponents::Rgbad(_, _, _, _) => {
                let name = c.color_name.clone();
                assert(step_fails(classes@, goodies.named_colors@, cv, drawn@[i as int], p));
                assert(randomized(cs0, g0, drawn@, pick, st, rs, Err(RandomizeError::Unsupported(name)), classes@, *goodies));
                return Err(RandomizeError::Unsupported(name));
            },
            _ => 255,
        };
        let (dr, dg, db) = drawn[i];
        let v = ColorComponents::Rgbai(dr, dg, db, alpha);
        assert(v == random_value(cv, drawn@[i as int]));
        let mode = c.compositing_mode;
        if !can_replace(&classes[k].1, c.color_name.as_str(), &v, &goodies.named_colors, &goodies.palette_color_methods, mode) {
            let name = c.color_name.clone();
            assert(step_fails(classes@, goodies.named_colors@, cv, drawn@[i as int], p));
            assert(randomized(cs0, g0, drawn@, pick, st, rs, Err(RandomizeError::Unsupported(name)), classes@, *goodies));
            return Err(RandomizeError::Unsupported(name));
        }
        let ghost cs_before = classes@;
        let ghost colors_before = goodies.named_colors@;
        let mut entry: (String, ClassFile) = (String::new(), empty_class());
        classes.set_and_swap(k, &mut entry);
        let res = replace_named_color(
            &mut entry.1,
            c.color_name.as_str(),
            v,
            &mut goodies.named_colors,
            &goodies.palette_color_methods,
            mode,
        );
        classes.set_and_swap(k, &mut entry);
        flags.push(res.is_some());
        proof {
            let ghost st0 = st;
            let ghost rs0 = rs;
            st = st.push((classes@, goodies.named_colors@));
            rs = rs.push(res);
            assert(random_step(cs_before, colors_before, cv, drawn@[i as int], p, classes@, goodies.named_colors@, res));
            assert forall|j: int| 0 <= j < rs.len() implies #[trigger] random_step(
                st[j].0,
                st[j].1,
                init[j],
                drawn@[j],
                p,
                st[j + 1].0,
                st[j + 1].1,
                rs[j],
            ) by {
                if j < i {
                    assert(st[j] == st0[j] && st[j + 1] == st0[j + 1] && rs[j] == rs0[j]);
                }
            }
            assert(replaced_flags(rs) =~= replaced_flags(rs0).push(res is Some));
        }
        i += 1;
    }
    let ghost last_cs = classes@;
    let mut tl: Option<TimelineColorReference> = None;
    std::mem::swap(&mut tl, &mut goodies.timeline_color_ref);
    match tl {
        None => {
            assert(randomized(cs0, g0, drawn@, pick, st, rs, Ok(flags), classes@, *goodies));
            Ok(flags)
        },
        Some(mut t) => {
            let ghost t0 = t;
            let ghost name = goodies.raw_colors.constants.consts@[pick as int].const_name@;
            let k = match class_index(classes, &t.class_filename) {
                Some(k) => k,
                None => {
                    let f = t.class_filename.clone();
                    goodies.timeline_color_ref = Some(t);
                    assert(timeline_outcome(last_cs, t0, name, classes@, goodies.timeline_color_ref, false, Some(RandomizeError::MissingClass(f))));
                    assert(randomized(cs0, g0, drawn@, pick, st, rs, Err(RandomizeError::MissingClass(f)), classes@, *goodies));
                    return Err(RandomizeError::MissingClass(f));
                },
            };
            proof {
                lemma_first_class_named(classes@, t.class_filename@, 0);
            }
            if !can_switch(&classes[k].1, t.fmim_idx) {
                let f = t.class_filename.clone();
                goodies.timeline_color_ref = Some(t);
                assert(timeline_outcome(last_cs, t0, name, classes@, goodies.timeline_color_ref, false, Some(RandomizeError::Unsupported(f))));
                assert(randomized(cs0, g0, drawn@, pick, st, rs, Err(RandomizeError::Unsupported(f)), classes@, *goodies));
                return Err(RandomizeError::Unsupported(f));
            }
            let mut entry: (String, ClassFile) = (String::new(), empty_class());
            classes.set_and_swap(k, &mut entry);
            let ghost c_before = entry.1;
            let sw = switch_timeline_color(&mut entry.1, goodies.raw_colors.constants.consts[pick].const_name.as_str(), &mut t);
            classes.set_and_swap(k, &mut entry);
            goodies.timeline_color_ref = Some(t);
            assert(switched(c_before, classes@[k as int].1, t0, t, name, sw));
            assert(c_before == last_cs[k as int].1);
            assert(switched(last_cs[k as int].1, classes@[k as int].1, t0, goodies.timeline_color_ref->0, name, sw));
            assert(first_class_named(last_cs, t0.class_filename@, 0) == Some(k as int));
            assert(switchable(last_cs[k as int].1, t0.fmim_idx));
            assert(classes@[k as int].0 == last_cs[k as int].0);
            assert(classes@.len() == last_cs.len());
            assert(timeline_outcome(last_cs, t0, name, classes@, goodies.timeline_color_ref, true, None));
            assert(randomized(cs0, g0, drawn@, pick, st, rs, Ok(flags), classes@, *goodies));
            Ok(flags)
        },
    }
}

} // verus!
