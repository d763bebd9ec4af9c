//! Reading the text of a constant pool entry: UTF-8 where the bytes are
//! UTF-8, else the JVM's modified UTF-8 read as UTF-16 code units.
use crate::chars::string_of;
use vstd::prelude::*;

verus! {

/// The UTF-16 code units that modified UTF-8 bytes stand for: a byte
/// `0x01..=0x7f` is itself; a lead byte `0xc0..=0xdf` takes one more byte
/// and `0xe0..=0xef` two more (their low six bits each); a sequence cut
/// short by the end of the bytes gives nothing; any other byte makes the
/// bytes unreadable (`None`).
pub open spec fn mutf8_units(b: Seq<u8>) -> Option<Seq<u16>>
    decreases b.len(),
{
    if b.len() == 0 {
        Some(seq![])
    } else {
        let x = b[0];
        if 1 <= x <= 0x7f {
            prepend_unit(x as u16, mutf8_units(b.drop_first()))
        } else if 0xc0 <= x <= 0xdf {
            if b.len() < 2 {
                Some(seq![])
            } else {
                prepend_unit(((x % 32) * 64 + b[1] % 64) as u16, mutf8_units(b.subrange(2, b.len() as int)))
            }
        } else if 0xe0 <= x <= 0xef {
            if b.len() < 3 {
                Some(seq![])
            } else {
                prepend_unit(
                    (((x % 16) * 64 + b[1] % 64) * 64 + b[2] % 64) as u16,
                    mutf8_units(b.subrange(3, b.len() as int)),
                )
            }
        } else {
            None
        }
    }
}

pub open spec fn prepend_unit(u: u16, rest: Option<Seq<u16>>) -> Option<Seq<u16>> {
    match rest {
        Some(r) => Some(seq![u] + r),
        None => None,
    }
}

pub open spec fn prepend_char(c: char, rest: Option<Seq<char>>) -> Option<Seq<char>> {
    match rest {
        Some(r) => Some(seq![c] + r),
        None => None,
    }
}

/// The characters that UTF-16 code units stand for; `None` where a
/// surrogate is not part of a high-low pair.
pub open spec fn utf16_chars(u: Seq<u16>) -> Option<Seq<char>>
    decreases u.len(),
{
    if u.len() == 0 {
        Some(seq![])
    } else if u[0] < 0xd800 || u[0] > 0xdfff {
        prepend_char((u[0] as u32) as char, utf16_chars(u.drop_first()))
    } else if u[0] <= 0xdbff && u.len() >= 2 && 0xdc00 <= u[1] <= 0xdfff {
        prepend_char(
            (((u[0] - 0xd800) * 0x400 + (u[1] - 0xdc00) + 0x10000) as u32) as char,
            utf16_chars(u.subrange(2, u.len() as int)),
        )
    } else {
        None
    }
}

/// The text of constant pool bytes: their UTF-8 decoding where they are
/// UTF-8, else the characters of their modified UTF-8 code units.
pub open spec fn java_text(b: Seq<u8>) -> Option<Seq<char>> {
    if vstd::utf8::valid_utf8(b) {
        Some(vstd::utf8::decode_utf8(b))
    } else {
        match mutf8_units(b) {
            Some(u) => utf16_chars(u),
            None => None,
        }
    }
}

/// Calls `std::str::from_utf8`, which the std documentation says succeeds
/// exactly on UTF-8, and returns the string it reads.
#[verifier::external_body]
fn utf8_string(b: &[u8]) -> (r: Option<String>)
    ensures
        r is Some <==> vstd::utf8::valid_utf8(b@),
        r matches Some(s) ==> s@ == vstd::utf8::decode_utf8(b@),
{
    match std::str::from_utf8(b) {
        Ok(s) => Some(s.to_owned()),
        Err(_) => None,
    }
}

/// Calls `char::from_u32`, which the std documentation says gives the
/// character of a Unicode scalar value and `None` for any other value.
#[verifier::external_body]
fn char_of(v: u32) -> (r: Option<char>)
    ensures
        r is Some <==> vstd::utf8::is_scalar(v),
        r matches Some(c) ==> c == v as char,
{
    char::from_u32(v)
}

/// `acc` followed by the units of `r`, if any.
pub open spec fn units_after(acc: Seq<u16>, r: Option<Seq<u16>>) -> Option<Seq<u16>> {
    match r {
        Some(u) => Some(acc + u),
        None => None,
    }
}

/// `acc` followed by the characters of `r`, if any.
pub open spec fn chars_after(acc: Seq<char>, r: Option<Seq<char>>) -> Option<Seq<char>> {
    match r {
        Some(cs) => Some(acc + cs),
        None => None,
    }
}

proof fn lemma_units_push(acc: Seq<u16>, v: u16, r: Option<Seq<u16>>)
    ensures
        units_after(acc, prepend_unit(v, r)) == units_after(acc.push(v), r),
        units_after(seq![], r) == r,
{
    if let Some(u) = r {
        assert(acc + (seq![v] + u) =~= acc.push(v) + u);
        assert(Seq::<u16>::empty() + u =~= u);
    }
}

proof fn lemma_chars_push(acc: Seq<char>, c: char, r: Option<Seq<char>>)
    ensures
        chars_after(acc, prepend_char(c, r)) == chars_after(acc.push(c), r),
        chars_after(seq![], r) == r,
{
    if let Some(u) = r {
        assert(acc + (seq![c] + u) =~= acc.push(c) + u);
        assert(Seq::<char>::empty() + u =~= u);
    }
}

fn units_of(b: &[u8]) -> (r: Option<Vec<u16>>)
    ensures
        match mutf8_units(b@) {
            Some(u) => r matches Some(v) && v@ == u,
            None => r is None,
        },
{
    let mut acc: Vec<u16> = Vec::new();
    let mut i: usize = 0;
    proof {
        assert(b@.subrange(0, b@.len() as int) =~= b@);
        lemma_units_push(seq![], 0, mutf8_units(b@));
    }
    while i < b.len()
        invariant
            i <= b@.len(),
            mutf8_units(b@) == units_after(acc@, mutf8_units(b@.subrange(i as int, b@.len() as int))),
        decreases b@.len() - i,
    {
        let ghost rest = b@.subrange(i as int, b@.len() as int);
        let x = b[i];
        if 1 <= x && x <= 0x7f {
            assert(rest.drop_first() =~= b@.subrange(i + 1, b@.len() as int));
            proof {
                lemma_units_push(acc@, x as u16, mutf8_units(rest.drop_first()));
            }
            acc.push(x as u16);
            i += 1;
        } else if 0xc0 <= x && x <= 0xdf {
            if b.len() - i < 2 {
                assert(mutf8_units(rest) == Some(Seq::<u16>::empty()));
                assert(acc@ + Seq::<u16>::empty() =~= acc@);
                return Some(acc);
            }
            let u: u16 = ((x % 32) as u16) * 64 + (b[i + 1] % 64) as u16;
            assert(rest.subrange(2, rest.len() as int) =~= b@.subrange(i + 2, b@.len() as int));
            proof {
                lemma_units_push(acc@, u, mutf8_units(rest.subrange(2, rest.len() as int)));
            }
            acc.push(u);
            i += 2;
        } else if 0xe0 <= x && x <= 0xef {
            if b.len() - i < 3 {
                assert(mutf8_units(rest) == Some(Seq::<u16>::empty()));
                assert(acc@ + Seq::<u16>::empty() =~= acc@);
                return Some(acc);
            }
            let u: u16 = (((x % 16) as u16) * 64 + (b[i + 1] % 64) as u16) * 64 + (b[i + 2] % 64) as u16;
            assert(rest.subrange(3, rest.len() as int) =~= b@.subrange(i + 3, b@.len() as int));
            proof {
                lemma_units_push(acc@, u, mutf8_units(rest.subrange(3, rest.len() as int)));
            }
            acc.push(u);
            i += 3;
        } else {
            return None;
        }
    }
    assert(b@.subrange(i as int, b@.len() as int) =~= Seq::<u8>::empty());
    assert(acc@ + Seq::<u16>::empty() =~= acc@);
    Some(acc)
}

fn chars_of_units(u: &Vec<u16>) -> (r: Option<Vec<char>>)
    ensures
        match utf16_chars(u@) {
            Some(cs) => r matches Some(v) && v@ == cs,
            None => r is None,
        },
{
    let mut acc: Vec<char> = Vec::new();
    let mut i: usize = 0;
    proof {
        assert(u@.subrange(0, u@.len() as int) =~= u@);
        lemma_chars_push(seq![], ' ', utf16_chars(u@));
    }
    while i < u.len()
        invariant
            i <= u@.len(),
            utf16_chars(u@) == chars_after(acc@, utf16_chars(u@.subrange(i as int, u@.len() as int))),
        decreases u@.len() - i,
    {
        let ghost rest = u@.subrange(i as int, u@.len() as int);
        let x = u[i];
        if x < 0xd800 || x > 0xdfff {
            let c = match char_of(x as u32) {
                Some(c) => c,
                None => return None,
            };
            assert(rest.drop_first() =~= u@.subrange(i + 1, u@.len() as int));
            proof {
                lemma_chars_push(acc@, c, utf16_chars(rest.drop_first()));
            }
            acc.push(c);
            i += 1;
        } else if x <= 0xdbff && i + 1 < u.len() && 0xdc00 <= u[i + 1] && u[i + 1] <= 0xdfff {
            let v: u32 = ((x - 0xd800) as u32) * 0x400 + ((u[i + 1] - 0xdc00) as u32) + 0x10000;
            let c = match char_of(v) {
                Some(c) => c,
                None => return None,
            };
            assert(rest.subrange(2, rest.len() as int) =~= u@.subrange(i + 2, u@.len() as int));
            proof {
                lemma_chars_push(acc@, c, utf16_chars(rest.subrange(2, rest.len() as int)));
            }
            acc.push(c);
            i += 2;
        } else {
            return None;
        }
    }
    assert(u@.subrange(i as int, u@.len() as int) =~= Seq::<u16>::empty());
    assert(acc@ + Seq::<char>::empty() =~= acc@);
    Some(acc)
}

/// The text of constant pool bytes (see `java_text`), or `None` where the
/// bytes are neither UTF-8 nor readable modified UTF-8.
pub fn java_string(b: &[u8]) -> (r: Option<String>)
    ensures
        match java_text(b@) {
            Some(t) => r matches Some(s) && s@ == t,
            None => r is None,
        },
{
    if let Some(s) = utf8_string(b) {
        return Some(s);
    }
    let units = match units_of(b) {
        Some(u) => u,
        None => return None,
    };
    match chars_of_units(&units) {
        Some(cs) => Some(string_of(cs.as_slice())),
        None => None,
    }
}

} // verus!
