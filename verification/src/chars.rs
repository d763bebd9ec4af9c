//! Character-level string helpers: splitting, trimming and counting.
use vstd::prelude::*;

verus! {

/// Whether `c` has the Unicode `White_Space` property, which is what
/// `char::is_whitespace` tests.
pub open spec fn is_white(c: char) -> bool {
    let u = c as u32;
    ||| 0x09 <= u <= 0x0d
    ||| u == 0x20
    ||| u == 0x85
    ||| u == 0xa0
    ||| u == 0x1680
    ||| 0x2000 <= u <= 0x200a
    ||| u == 0x2028
    ||| u == 0x2029
    ||| u == 0x202f
    ||| u == 0x205f
    ||| u == 0x3000
}

/// Whether `char::is_alphanumeric` holds of `c`.
pub uninterp spec fn is_alnum(c: char) -> bool;

/// Calls `char::is_whitespace`, which the std documentation describes as
/// the Unicode `White_Space` property (see `is_white`).
#[verifier::external_body]
pub(crate) fn char_is_whitespace(c: char) -> (r: bool)
    ensures
        r == is_white(c),
{
    c.is_whitespace()
}

/// Calls `char::is_alphanumeric`; the contract names its result.
#[verifier::external_body]
pub(crate) fn char_is_alphanumeric(c: char) -> (r: bool)
    ensures
        r == is_alnum(c),
{
    c.is_alphanumeric()
}

/// The characters of a string.
pub fn chars_of(s: &str) -> (r: Vec<char>)
    ensures
        r@ == s@,
{
    broadcast use vstd::string::axiom_spec_iter;

    let mut r: Vec<char> = Vec::new();
    for c in it: s.chars()
        invariant
            r@ == it.seq().subrange(0, it.index() as int),
    {
        r.push(c);
        assert(r@ =~= it.seq().subrange(0, it.index() + 1));
    }
    assert(r@ =~= s@);
    r
}

/// A `String` made of `cs`.
pub fn string_of(cs: &[char]) -> (s: String)
    ensures
        s@ == cs@,
{
    let mut s = String::new();
    let mut i: usize = 0;
    while i < cs.len()
        invariant
            i <= cs@.len(),
            s@ == cs@.subrange(0, i as int),
        decreases cs@.len() - i,
    {
        s.append(char_str(cs[i]).as_str());
        i += 1;
        assert(s@ =~= cs@.subrange(0, i as int));
    }
    assert(cs@.subrange(0, i as int) =~= cs@);
    s
}

/// A one-character string.
#[verifier::external_body]
fn char_str(c: char) -> (s: String)
    ensures
        s@ == seq![c],
{
    String::from(c)
}

/// Number of leading whitespace characters.
pub open spec fn lead_white(s: Seq<char>) -> nat
    decreases s.len(),
{
    if s.len() > 0 && is_white(s[0]) {
        1 + lead_white(s.drop_first())
    } else {
        0
    }
}

/// Number of trailing whitespace characters.
pub open spec fn trail_white(s: Seq<char>) -> nat
    decreases s.len(),
{
    if s.len() > 0 && is_white(s.last()) {
        1 + trail_white(s.drop_last())
    } else {
        0
    }
}

proof fn lemma_lead_le(s: Seq<char>)
    ensures
        lead_white(s) <= s.len(),
    decreases s.len(),
{
    if s.len() > 0 && is_white(s[0]) {
        lemma_lead_le(s.drop_first());
    }
}

proof fn lemma_trail_le(s: Seq<char>)
    ensures
        trail_white(s) <= s.len(),
    decreases s.len(),
{
    if s.len() > 0 && is_white(s.last()) {
        lemma_trail_le(s.drop_last());
    }
}

/// `s` without leading and trailing whitespace, as `str::trim` gives it.
pub open spec fn trimmed(s: Seq<char>) -> Seq<char> {
    let t = s.skip(lead_white(s) as int);
    t.take(t.len() - trail_white(t))
}

/// Start and end of `trimmed(s[a..b])` within `s`.
pub fn trim_bounds(s: &Vec<char>, a: usize, b: usize) -> (r: (usize, usize))
    requires
        a <= b <= s@.len(),
    ensures
        a <= r.0 <= r.1 <= b,
        s@.subrange(r.0 as int, r.1 as int) == trimmed(s@.subrange(a as int, b as int)),
{
    let ghost w = s@.subrange(a as int, b as int);
    let mut i = a;
    proof {
        assert(w.skip(0) =~= w);
    }
    while i < b && char_is_whitespace(s[i])
        invariant
            a <= i <= b <= s@.len(),
            w == s@.subrange(a as int, b as int),
            lead_white(w) == (i - a) + lead_white(w.skip(i - a)),
        decreases b - i,
    {
        proof {
            let t = w.skip(i - a);
            assert(t.drop_first() =~= w.skip(i - a + 1));
            assert(t[0] == s@[i as int]);
        }
        i += 1;
    }
    proof {
        let t = w.skip(i - a);
        if i < b {
            assert(t[0] == s@[i as int]);
        }
        assert(lead_white(t) == 0);
    }
    let ghost t = w.skip(i - a);
    let mut j = b;
    proof {
        assert(t.take(t.len() as int) =~= t);
    }
    while j > i && char_is_whitespace(s[j - 1])
        invariant
            a <= i <= j <= b <= s@.len(),
            t == s@.subrange(i as int, b as int),
            trail_white(t) == (b - j) + trail_white(t.take(j - i)),
        decreases j - i,
    {
        proof {
            let u = t.take(j - i);
            assert(u.drop_last() =~= t.take(j - i - 1));
            assert(u.last() == s@[j - 1]);
        }
        j -= 1;
    }
    proof {
        let u = t.take(j - i);
        if j > i {
            assert(u.last() == s@[j - 1]);
        }
        assert(trail_white(u) == 0);
        assert(t =~= s@.subrange(i as int, b as int));
        assert(trimmed(w) =~= s@.subrange(i as int, j as int));
    }
    (i, j)
}

/// Number of alphanumeric characters.
pub open spec fn count_alnum(s: Seq<char>) -> nat
    decreases s.len(),
{
    if s.len() == 0 {
        0
    } else {
        count_alnum(s.drop_last()) + if is_alnum(s.last()) {
            1nat
        } else {
            0nat
        }
    }
}

/// Number of alphanumeric characters in `s[a..b]`.
pub fn count_alphanumeric(s: &Vec<char>, a: usize, b: usize) -> (n: usize)
    requires
        a <= b <= s@.len(),
    ensures
        n == count_alnum(s@.subrange(a as int, b as int)),
{
    let mut n: usize = 0;
    let mut i = a;
    proof {
        assert(s@.subrange(a as int, a as int) =~= Seq::<char>::empty());
    }
    while i < b
        invariant
            a <= i <= b <= s@.len(),
            n == count_alnum(s@.subrange(a as int, i as int)),
            n <= i - a,
        decreases b - i,
    {
        proof {
            assert(s@.subrange(a as int, i + 1).drop_last() =~= s@.subrange(a as int, i as int));
        }
        if char_is_alphanumeric(s[i]) {
            n += 1;
        }
        i += 1;
    }
    n
}

/// Position of the first `": "` at or after `i`.
pub open spec fn first_sep_from(s: Seq<char>, i: int) -> Option<int>
    decreases s.len() - i,
{
    if i < 0 || i + 1 >= s.len() {
        None
    } else if s[i] == ':' && s[i + 1] == ' ' {
        Some(i)
    } else {
        first_sep_from(s, i + 1)
    }
}

/// Position of the first `": "`, where `str::split_once(": ")` splits.
pub fn find_separator(s: &Vec<char>) -> (r: Option<usize>)
    ensures
        r matches Some(i) ==> first_sep_from(s@, 0) == Some(i as int) && i + 2 <= s@.len(),
        r is None ==> first_sep_from(s@, 0) is None,
{
    let mut i: usize = 0;
    while s.len() > 1 && i < s.len() - 1
        invariant
            i <= s@.len(),
            first_sep_from(s@, 0) == first_sep_from(s@, i as int),
        decreases s@.len() - i,
    {
        if s[i] == ':' && s[i + 1] == ' ' {
            return Some(i);
        }
        i += 1;
    }
    None
}

/// Whether two character sequences are equal.
pub fn chars_eq(a: &[char], b: &[char]) -> (r: bool)
    ensures
        r == (a@ == b@),
{
    if a.len() != b.len() {
        return false;
    }
    let mut i: usize = 0;
    while i < a.len()
        invariant
            i <= a@.len(),
            a@.len() == b@.len(),
            forall|j: int| 0 <= j < i ==> a@[j] == b@[j],
        decreases a@.len() - i,
    {
        if a[i] != b[i] {
            return false;
        }
        i += 1;
    }
    assert(a@ =~= b@);
    true
}

} // verus!
