//! Character-level helpers shared by the template engine and the validators.
use vstd::prelude::*;
use vstd::std_specs::iter::IteratorSpec;

verus! {

/// The Unicode `White_Space` characters, the set `char::is_whitespace` uses.
pub open spec fn is_space(c: char) -> bool {
    let u = c as u32;
    (0x09 <= u && u <= 0x0D) || u == 0x20 || u == 0x85 || u == 0xA0 || u == 0x1680 || (0x2000
        <= u && u <= 0x200A) || u == 0x2028 || u == 0x2029 || u == 0x202F || u == 0x205F || u
        == 0x3000
}

/// Executable test for `is_space`.
pub fn char_is_space(c: char) -> (r: bool)
    ensures
        r == is_space(c),
{
    let u = c as u32;
    (0x09 <= u && u <= 0x0D) || u == 0x20 || u == 0x85 || u == 0xA0 || u == 0x1680 || (0x2000
        <= u && u <= 0x200A) || u == 0x2028 || u == 0x2029 || u == 0x202F || u == 0x205F || u
        == 0x3000
}

/// `s` with its leading whitespace removed.
pub open spec fn trim_start(s: Seq<char>) -> Seq<char>
    decreases s.len(),
{
    if s.len() > 0 && is_space(s[0]) {
        trim_start(s.drop_first())
    } else {
        s
    }
}

/// `s` with its trailing whitespace removed.
pub open spec fn trim_end(s: Seq<char>) -> Seq<char>
    decreases s.len(),
{
    if s.len() > 0 && is_space(s.last()) {
        trim_end(s.drop_last())
    } else {
        s
    }
}

/// `s` with whitespace removed at both ends.
pub open spec fn trim(s: Seq<char>) -> Seq<char> {
    trim_end(trim_start(s))
}

/// The characters of `s`, in order.
pub(crate) fn chars_of(s: &str) -> (r: Vec<char>)
    ensures
        r@ == s@,
{
    broadcast use vstd::string::group_string_axioms;

    let mut it = s.chars();
    let mut r: Vec<char> = Vec::new();
    loop
        invariant
            r@ + it.remaining() == s@,
            it.decrease() is Some,
        ensures
            r@ == s@,
        decreases it.decrease()->0,
    {
        match it.next() {
            Some(c) => {
                let ghost before = r@;
                r.push(c);
                assert(r@ =~= before + seq![c]);
            },
            None => {
                assert(r@ + it.remaining() =~= r@);
                break;
            },
        }
    }
    r
}

/// Relies on `String::push`: appends one character.
#[verifier::external_body]
pub(crate) fn push_char(s: &mut String, c: char)
    ensures
        final(s)@ == old(s)@.push(c),
{
    s.push(c)
}

/// Appends `s` to `out`.
pub(crate) fn push_str(out: &mut String, s: &String)
    ensures
        final(out)@ == old(out)@ + s@,
{
    out.append(s.as_str());
}

/// The characters `t[lo..hi]` as a new string.
pub(crate) fn string_of_range(t: &Vec<char>, lo: usize, hi: usize) -> (r: String)
    requires
        lo <= hi <= t@.len(),
    ensures
        r@ == t@.subrange(lo as int, hi as int),
{
    let mut r = String::new();
    let mut i = lo;
    while i < hi
        invariant
            lo <= i <= hi <= t@.len(),
            r@ == t@.subrange(lo as int, i as int),
        decreases hi - i,
    {
        push_char(&mut r, t[i]);
        i += 1;
        assert(r@ =~= t@.subrange(lo as int, i as int));
    }
    r
}

/// Bounds `[a, b)` of `trim(t[lo..hi])` inside `t`.
pub(crate) fn trim_bounds(t: &Vec<char>, lo: usize, hi: usize) -> (r: (usize, usize))
    requires
        lo <= hi <= t@.len(),
    ensures
        lo <= r.0 <= r.1 <= hi,
        t@.subrange(r.0 as int, r.1 as int) == trim(t@.subrange(lo as int, hi as int)),
{
    let mut a = lo;
    while a < hi && char_is_space(t[a])
        invariant
            lo <= a <= hi <= t@.len(),
            trim_start(t@.subrange(lo as int, hi as int)) == trim_start(
                t@.subrange(a as int, hi as int),
            ),
        decreases hi - a,
    {
        assert(t@.subrange(a as int, hi as int).drop_first() =~= t@.subrange(
            a + 1,
            hi as int,
        ));
        a += 1;
    }
    assert(trim_start(t@.subrange(a as int, hi as int)) == t@.subrange(a as int, hi as int));
    let mut b = hi;
    while b > a && char_is_space(t[b - 1])
        invariant
            lo <= a <= b <= hi <= t@.len(),
            trim_end(t@.subrange(a as int, hi as int)) == trim_end(
                t@.subrange(a as int, b as int),
            ),
        decreases b - a,
    {
        assert(t@.subrange(a as int, b as int).drop_last() =~= t@.subrange(
            a as int,
            b - 1,
        ));
        b -= 1;
    }
    (a, b)
}

} // verus!
