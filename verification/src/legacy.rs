//! The timeline cursor color reference of older releases, which named a
//! static color constant that can be switched to another one.
use crate::bytes::copy_range;
use crate::classfile::{ClassFile, Const};
use crate::introspection::spec_const_name;
use crate::text::str_bytes;
use vstd::prelude::*;

verus! {

/// Where the timeline cursor's color constant is referenced: the class
/// file, the constant's name, the constant pool index of the field's type
/// descriptor and the index of the field reference.
pub struct TimelineColorReference {
    pub class_filename: String,
    pub const_name: String,
    pub field_type_cp_idx: u16,
    pub fmim_idx: u16,
}

/// The inputs on which `switch_timeline_color` completes: the two entries
/// it appends keep their indices within `u16`, and an index of the field
/// reference that exists after the append denotes a field reference.
pub open spec fn switchable(class: ClassFile, fmim_idx: u16) -> bool {
    let n = class.cp@.len();
    &&& n + 2 <= 65536
    &&& (fmim_idx as int) < n + 2 ==> (fmim_idx as int) < n && class.cp@[fmim_idx as int] is Field
}

/// What `switch_timeline_color` does to class `c0` and reference `t0`,
/// giving `c1`, `t1` and `r`, for the constant named `name`.
pub open spec fn switched(
    c0: ClassFile,
    c1: ClassFile,
    t0: TimelineColorReference,
    t1: TimelineColorReference,
    name: Seq<char>,
    r: Option<()>,
) -> bool {
    let n = c0.cp@.len() as int;
    let f = t0.fmim_idx as int;
    &&& c1.cp@.len() == n + 2
    &&& c1.cp@[n] matches Const::Utf8(b) && b@ == vstd::utf8::encode_utf8(name)
    &&& c1.cp@[n + 1] == Const::NameAndType(n as u16, t0.field_type_cp_idx)
    &&& forall|i: int| 0 <= i < n && i != f ==> c1.cp@[i] == c0.cp@[i]
    &&& (r is None <==> f >= n + 2)
    &&& r is Some ==> (c0.cp@[f] matches Const::Field(cls, _) && c1.cp@[f] == Const::Field(cls, (n + 1) as u16))
    &&& r is Some ==> t1.const_name@ == name
    &&& r is None ==> t1.const_name == t0.const_name
    &&& r is Some ==> spec_const_name(c1.cp@, t0.fmim_idx) == Some(vstd::utf8::encode_utf8(name))
    &&& t1.class_filename == t0.class_filename
    &&& t1.field_type_cp_idx == t0.field_type_cp_idx
    &&& t1.fmim_idx == t0.fmim_idx
    &&& c1.methods == c0.methods
    &&& c1.minor == c0.minor
    &&& c1.major == c0.major
    &&& c1.access == c0.access
    &&& c1.this_class == c0.this_class
    &&& c1.super_class == c0.super_class
    &&& c1.interfaces == c0.interfaces
    &&& c1.fields == c0.fields
    &&& c1.attrs == c0.attrs
}

/// Makes the timeline's field reference name the static constant
/// `new_const` instead: appends a UTF-8 entry holding `new_const` and a
/// name-and-type entry pairing it with the field's type, then points the
/// field reference at the new name-and-type entry. `None`, with the two
/// entries appended and nothing else changed, when the field reference
/// index lies beyond the constant pool.
pub fn switch_timeline_color(
    class: &mut ClassFile,
    new_const: &str,
    timeline_color_ref: &mut TimelineColorReference,
) -> (r: Option<()>)
    requires
        switchable(*old(class), old(timeline_color_ref).fmim_idx),
    ensures
        switched(*old(class), *final(class), *old(timeline_color_ref), *final(timeline_color_ref), new_const@, r),
{
    let utf_data_idx = class.cp.len();
    let bytes = new_const.as_bytes();
    let data = copy_range(bytes, 0, bytes.len());
    assert(data@ =~= str_bytes(new_const));
    class.cp.push(Const::Utf8(data));
    let nat_idx = class.cp.len();
    class.cp.push(Const::NameAndType(utf_data_idx as u16, timeline_color_ref.field_type_cp_idx));
    let f = timeline_color_ref.fmim_idx as usize;
    if f >= class.cp.len() {
        return None;
    }
    let cls = match &class.cp[f] {
        Const::Field(c, _) => *c,
        _ => return None,
    };
    class.cp.set(f, Const::Field(cls, nat_idx as u16));
    timeline_color_ref.const_name = String::from_str(new_const);
    Some(())
}

} // verus!
