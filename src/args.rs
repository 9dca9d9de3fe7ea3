//! Reading `key=value` variable arguments.
use vstd::prelude::*;
use crate::text::{chars_of, string_of_range};

verus! {

/// Splits `s` at its first `=` into a name and a value. `None` when `s` has no
/// `=`, or when the name before it is empty.
pub fn parse_kv(s: &str) -> (r: Option<(String, String)>)
    ensures
        r is None <==> (forall|p: int| 0 <= p < s@.len() ==> s@[p] != '=') || (s@.len() > 0
            && s@[0] == '='),
        r matches Some(kv) ==> exists|p: int|
            0 < p < s@.len() && s@[p] == '=' && (forall|q: int| 0 <= q < p ==> s@[q] != '=')
                && kv.0@ == s@.take(p) && kv.1@ == s@.skip(p + 1),
{
    let t = chars_of(s);
    let mut p: usize = 0;
    while p < t.len() && t[p] != '='
        invariant
            p <= t@.len(),
            t@ == s@,
            forall|q: int| 0 <= q < p ==> t@[q] != '=',
        decreases t@.len() - p,
    {
        p += 1;
    }
    if p == t.len() || p == 0 {
        return None;
    }
    let k = string_of_range(&t, 0, p);
    let v = string_of_range(&t, p + 1, t.len());
    assert(t@.subrange(0, p as int) =~= s@.take(p as int));
    assert(t@.subrange(p + 1, t@.len() as int) =~= s@.skip(p + 1));
    Some((k, v))
}

} // verus!
