//! Finding where the named color getter is called, and with which names.
use crate::classfile::{ClassFile, Const, Instr, Method, MethodAttr};
use crate::introspection::{
    class_name_at, cp_class_name, cp_utf8, find_method_description, find_utf_ldc, spec_method_ref,
    spec_utf_ldc, utf8_at,
};
use crate::methods::MethodDescription;
use crate::mutf8::{java_string, java_text};
use crate::text::{lossy_string, utf8_lossy};
use vstd::prelude::*;

verus! {

/// A call of the named color getter with a constant name: the calling
/// class and method and the position of the `ldc` loading the name.
pub struct NamedColorGetterInvocation {
    pub class: String,
    pub method: String,
    pub ldc_pos: u32,
}

/// Whether constant `id` refers to the method `g` (same class, name and
/// descriptor as strings).
pub open spec fn calls_getter(cp: Seq<Const>, g: MethodDescription, id: u16) -> bool {
    match spec_method_ref(cp, id) {
        Some(p) => utf8_lossy(p.0) == g.class@ && utf8_lossy(p.1) == g.method@ && utf8_lossy(p.2)
            == g.signature@,
        None => false,
    }
}

/// Positions of the calls of `g` among the first `k` instructions.
pub open spec fn getter_call_positions(cp: Seq<Const>, g: MethodDescription, bc: Seq<(u32, Instr)>, k: int) -> Seq<u32>
    decreases k,
{
    if k <= 0 || k > bc.len() {
        seq![]
    } else {
        let prev = getter_call_positions(cp, g, bc, k - 1);
        match bc[k - 1].1 {
            Instr::Invokevirtual(id) => if calls_getter(cp, g, id) {
                prev.push(bc[k - 1].0)
            } else {
                prev
            },
            _ => prev,
        }
    }
}

/// The last `ldc` of a string among the first `k` instructions whose
/// position is below `limit`: its position and the string's bytes.
pub open spec fn last_ldc_before(cp: Seq<Const>, bc: Seq<(u32, Instr)>, limit: u32, k: int) -> Option<(u32, Seq<u8>)>
    decreases k,
{
    if k <= 0 || k > bc.len() {
        None
    } else {
        let (pos, ins) = bc[k - 1];
        let here = if pos < limit {
            match ins {
                Instr::Ldc(id) => spec_utf_ldc(cp, id as u16),
                _ => None,
            }
        } else {
            None
        };
        match here {
            Some(t) => Some((pos, t)),
            None => last_ldc_before(cp, bc, limit, k - 1),
        }
    }
}

/// Where a `goto` or `goto_w` at `pos` jumps to.
pub open spec fn goto_target(pos: u32, ins: Instr) -> Option<int> {
    match ins {
        Instr::Goto(d) => Some(pos + d),
        Instr::GotoW(d) => Some(pos + d),
        _ => None,
    }
}

/// The position of the last `goto`/`goto_w` among the first `k`
/// instructions that lies before `target` and jumps to it.
pub open spec fn last_jump_to(bc: Seq<(u32, Instr)>, target: u32, k: int) -> Option<u32>
    decreases k,
{
    if k <= 0 || k > bc.len() {
        None
    } else {
        let (pos, ins) = bc[k - 1];
        if pos < target && goto_target(pos, ins) == Some(target as int) {
            Some(pos)
        } else {
            last_jump_to(bc, target, k - 1)
        }
    }
}

/// The names found for the call at `inv`: the string loaded right before
/// it, then the string loaded before the jump that leads to it.
pub open spec fn names_for_call(cp: Seq<Const>, bc: Seq<(u32, Instr)>, inv: u32) -> Seq<(u32, Seq<u8>)> {
    let n = bc.len() as int;
    let direct = match last_ldc_before(cp, bc, inv, n) {
        Some(x) => seq![x],
        None => seq![],
    };
    match last_jump_to(bc, inv, n) {
        Some(jp) => match last_ldc_before(cp, bc, jp, n) {
            Some(y) => direct.push(y),
            None => direct,
        },
        None => direct,
    }
}

/// The names of the first `k` calls, in order.
pub open spec fn names_for_calls(cp: Seq<Const>, bc: Seq<(u32, Instr)>, ps: Seq<u32>, k: int) -> Seq<(u32, Seq<u8>)>
    decreases k,
{
    if k <= 0 || k > ps.len() {
        seq![]
    } else {
        names_for_calls(cp, bc, ps, k - 1) + names_for_call(cp, bc, ps[k - 1])
    }
}

/// A found name as a result entry: (color name, class, method, position).
pub type InvocationView = (Seq<char>, Seq<char>, Seq<char>, u32);

pub open spec fn entries_of(names: Seq<(u32, Seq<u8>)>, class: Seq<char>, method: Seq<char>) -> Seq<InvocationView> {
    names.map_values(|h: (u32, Seq<u8>)| (utf8_lossy(h.1), class, method, h.0))
}

/// Name of a method, or the empty string where it cannot be read.
pub open spec fn method_name_of(cp: Seq<Const>, m: Method) -> Seq<char> {
    match cp_utf8(cp, m.name as int) {
        Some(b) => match java_text(b) {
            Some(t) => t,
            None => seq![],
        },
        None => seq![],
    }
}

/// Name of the class, or the empty string where it cannot be read.
pub open spec fn class_name_of(c: ClassFile) -> Seq<char> {
    match cp_class_name(c.cp@, c.this_class as int) {
        Some(b) => match java_text(b) {
            Some(t) => t,
            None => seq![],
        },
        None => seq![],
    }
}

/// The entries found in one method.
pub open spec fn method_entries(c: ClassFile, g: MethodDescription, m: Method) -> Seq<InvocationView> {
    if m.attrs@.len() == 0 {
        seq![]
    } else {
        match m.attrs@[0] {
            MethodAttr::Code(_, code) => {
                let bc = code.bytecode@;
                let ps = getter_call_positions(c.cp@, g, bc, bc.len() as int);
                entries_of(names_for_calls(c.cp@, bc, ps, ps.len() as int), class_name_of(c), method_name_of(c.cp@, m))
            },
            _ => seq![],
        }
    }
}

/// The entries found in the first `k` methods.
pub open spec fn class_entries(c: ClassFile, g: MethodDescription, k: int) -> Seq<InvocationView>
    decreases k,
{
    if k <= 0 || k > c.methods@.len() {
        seq![]
    } else {
        class_entries(c, g, k - 1) + method_entries(c, g, c.methods@[k - 1])
    }
}

pub open spec fn entry_view(e: (String, NamedColorGetterInvocation)) -> InvocationView {
    (e.0@, e.1.class@, e.1.method@, e.1.ldc_pos)
}

fn call_positions(cp: &Vec<Const>, g: &MethodDescription, bc: &Vec<(u32, Instr)>) -> (r: Vec<u32>)
    ensures
        r@ == getter_call_positions(cp@, *g, bc@, bc@.len() as int),
{
    let mut r: Vec<u32> = Vec::new();
    let mut k: usize = 0;
    while k < bc.len()
        invariant
            k <= bc@.len(),
            r@ == getter_call_positions(cp@, *g, bc@, k as int),
        decreases bc@.len() - k,
    {
        if let Instr::Invokevirtual(method_id) = &bc[k].1 {
            if let Some(d) = find_method_description(cp, *method_id, None) {
                if d.class == g.class && d.method == g.method && d.signature == g.signature {
                    r.push(bc[k].0);
                }
            }
        }
        k += 1;
    }
    r
}

fn find_last_ldc(cp: &Vec<Const>, bc: &Vec<(u32, Instr)>, limit: u32) -> (r: Option<(u32, String)>)
    ensures
        match last_ldc_before(cp@, bc@, limit, bc@.len() as int) {
            Some((pos, t)) => r matches Some((p, s)) && p == pos && s@ == utf8_lossy(t),
            None => r is None,
        },
{
    let mut k: usize = bc.len();
    while k > 0
        invariant
            k <= bc@.len(),
            last_ldc_before(cp@, bc@, limit, bc@.len() as int) == last_ldc_before(cp@, bc@, limit, k as int),
        decreases k,
    {
        let pos = bc[k - 1].0;
        if pos < limit {
            if let Instr::Ldc(id) = &bc[k - 1].1 {
                if let Some(name) = find_utf_ldc(cp, *id as u16) {
                    return Some((pos, name));
                }
            }
        }
        k -= 1;
    }
    None
}

fn jump_target_of(pos: u32, ins: &Instr) -> (r: Option<i64>)
    ensures
        match goto_target(pos, *ins) {
            Some(t) => r == Some(t as i64) && i64::MIN <= t <= i64::MAX,
            None => r is None,
        },
{
    match ins {
        Instr::Goto(d) => Some(pos as i64 + *d as i64),
        Instr::GotoW(d) => Some(pos as i64 + *d as i64),
        _ => None,
    }
}

fn find_last_jump(bc: &Vec<(u32, Instr)>, target: u32) -> (r: Option<u32>)
    ensures
        r == last_jump_to(bc@, target, bc@.len() as int),
{
    let mut k: usize = bc.len();
    while k > 0
        invariant
            k <= bc@.len(),
            last_jump_to(bc@, target, bc@.len() as int) == last_jump_to(bc@, target, k as int),
        decreases k,
    {
        let pos = bc[k - 1].0;
        if pos < target {
            if let Some(t) = jump_target_of(pos, &bc[k - 1].1) {
                if t == target as i64 {
                    return Some(pos);
                }
            }
        }
        k -= 1;
    }
    None
}

/// All calls of the named color getter `named_color_getter` in the class,
/// method by method: for each call, the string constant loaded last before
/// it, and the one loaded last before a `goto` that jumps to the call.
pub fn find_named_color_getter_1_invocations(class: &ClassFile, named_color_getter: &MethodDescription) -> (r:
    Vec<(String, NamedColorGetterInvocation)>)
    ensures
        r@.map_values(|e: (String, NamedColorGetterInvocation)| entry_view(e)) == class_entries(
            *class,
            *named_color_getter,
            class.methods@.len() as int,
        ),
{
    let cp = &class.cp;
    let class_name = match class_name_at(cp, class.this_class) {
        Some(b) => match java_string(b) {
            Some(t) => t,
            None => String::new(),
        },
        None => String::new(),
    };
    assert(class_name@ == class_name_of(*class));
    let mut results: Vec<(String, NamedColorGetterInvocation)> = Vec::new();
    let mut m: usize = 0;
    while m < class.methods.len()
        invariant
            m <= class.methods@.len(),
            cp == &class.cp,
            class_name@ == class_name_of(*class),
            results@.map_values(|e: (String, NamedColorGetterInvocation)| entry_view(e)) == class_entries(
                *class,
                *named_color_getter,
                m as int,
            ),
        decreases class.methods@.len() - m,
    {
        let method = &class.methods[m];
        let ghost before = results@.map_values(|e: (String, NamedColorGetterInvocation)| entry_view(e));
        let method_name = match utf8_at(cp, method.name) {
            Some(b) => match java_string(b) {
                Some(t) => t,
                None => String::new(),
            },
            None => String::new(),
        };
        assert(method_name@ == method_name_of(cp@, *method));
        if method.attrs.len() > 0 {
            if let MethodAttr::Code(_, code) = &method.attrs[0] {
                let bc = &code.bytecode;
                let positions = call_positions(cp, named_color_getter, bc);
                let mut p: usize = 0;
                while p < positions.len()
                    invariant
                        p <= positions@.len(),
                        cp == &class.cp,
                        results@.map_values(|e: (String, NamedColorGetterInvocation)| entry_view(e)) == before
                            + entries_of(names_for_calls(cp@, bc@, positions@, p as int), class_name@, method_name@),
                    decreases positions@.len() - p,
                {
                    let invocation_pos = positions[p];
                    let ghost mid = results@;
                    let direct = find_last_ldc(cp, bc, invocation_pos);
                    let jump = find_last_jump(bc, invocation_pos);
                    if let Some((ldc_pos, color_name)) = direct {
                        results.push(
                            (
                                color_name,
                                NamedColorGetterInvocation {
                                    class: class_name.clone(),
                                    method: method_name.clone(),
                                    ldc_pos,
                                },
                            ),
                        );
                    }
                    let ghost mid2 = results@;
                    if let Some(jump_pos) = jump {
                        if let Some((ldc_pos, color_name)) = find_last_ldc(cp, bc, jump_pos) {
                            results.push(
                                (
                                    color_name,
                                    NamedColorGetterInvocation {
                                        class: class_name.clone(),
                                        method: method_name.clone(),
                                        ldc_pos,
                                    },
                                ),
                            );
                        }
                    }
                    proof {
                        let f = |e: (String, NamedColorGetterInvocation)| entry_view(e);
                        let names = names_for_call(cp@, bc@, invocation_pos);
                        assert(names_for_calls(cp@, bc@, positions@, p + 1) == names_for_calls(
                            cp@,
                            bc@,
                            positions@,
                            p as int,
                        ) + names);
                        assert(results@.map_values(f) =~= mid.map_values(f) + entries_of(
                            names,
                            class_name@,
                            method_name@,
                        ));
                        assert(entries_of(
                            names_for_calls(cp@, bc@, positions@, p + 1),
                            class_name@,
                            method_name@,
                        ) =~= entries_of(
                            names_for_calls(cp@, bc@, positions@, p as int),
                            class_name@,
                            method_name@,
                        ) + entries_of(names, class_name@, method_name@));
                    }
                    p += 1;
                }
                assert(method_entries(*class, *named_color_getter, *method) == entries_of(
                    names_for_calls(cp@, bc@, positions@, positions@.len() as int),
                    class_name@,
                    method_name@,
                ));
            }
        }
        proof {
            assert(class.methods@[m as int] == *method);
            assert(class_entries(*class, *named_color_getter, m + 1) == class_entries(
                *class,
                *named_color_getter,
                m as int,
            ) + method_entries(*class, *named_color_getter, *method));
        }
        m += 1;
    }
    results
}

} // verus!
