//! The substitution engine: a single left-to-right pass over a template that
//! replaces each `{{ name }}` span by the value of `name`.
use vstd::prelude::*;
use crate::text::{chars_of, push_char, push_str, string_of_range, trim, trim_bounds};
use crate::varmap::VarMap;

verus! {

/// Why a template could not be filled. Offsets count characters (Unicode
/// scalar values) from the start of the template.
#[derive(Debug)]
pub enum FillError {
    /// A `{{` at this offset has no `}}` after it.
    UnclosedPlaceholder(usize),
    /// The name that starts at this offset is empty once trimmed.
    EmptyPlaceholder(usize),
    /// No value was given for this name.
    MissingVariable(String),
}

impl PartialEq for FillError {
    fn eq(&self, o: &FillError) -> (r: bool) {
        match (self, o) {
            (FillError::UnclosedPlaceholder(a), FillError::UnclosedPlaceholder(b)) => *a == *b,
            (FillError::EmptyPlaceholder(a), FillError::EmptyPlaceholder(b)) => *a == *b,
            (FillError::MissingVariable(a), FillError::MissingVariable(b)) => *a == *b,
            _ => false,
        }
    }
}

impl vstd::std_specs::cmp::PartialEqSpecImpl for FillError {
    open spec fn obeys_eq_spec() -> bool {
        true
    }

    open spec fn eq_spec(&self, o: &FillError) -> bool {
        match (self, o) {
            (FillError::UnclosedPlaceholder(a), FillError::UnclosedPlaceholder(b)) => a == b,
            (FillError::EmptyPlaceholder(a), FillError::EmptyPlaceholder(b)) => a == b,
            (FillError::MissingVariable(a), FillError::MissingVariable(b)) => a@ == b@,
            _ => false,
        }
    }
}

impl Eq for FillError {

}

/// What filling a template yields, in mathematical terms.
pub enum Outcome {
    Filled(Seq<char>),
    Unclosed(nat),
    Empty(nat),
    Missing(Seq<char>),
}

/// `p` put in front of a filled text; a failure stays as it is.
pub open spec fn prepend(p: Seq<char>, o: Outcome) -> Outcome {
    match o {
        Outcome::Filled(r) => Outcome::Filled(p + r),
        _ => o,
    }
}

/// Whether `t` holds `{{` at `i`.
pub open spec fn opens_at(t: Seq<char>, i: int) -> bool {
    0 <= i && i + 1 < t.len() && t[i] == '{' && t[i + 1] == '{'
}

/// Whether `t` holds `}}` at `j`.
pub open spec fn closes_at(t: Seq<char>, j: int) -> bool {
    0 <= j && j + 1 < t.len() && t[j] == '}' && t[j + 1] == '}'
}

/// The first position at or after `j` where `t` holds `}}`.
pub open spec fn closing_from(t: Seq<char>, j: int) -> Option<int>
    decreases t.len() - j,
{
    if j < 0 || j + 1 >= t.len() {
        None
    } else if closes_at(t, j) {
        Some(j)
    } else {
        closing_from(t, j + 1)
    }
}

proof fn lemma_closing_from(t: Seq<char>, j: int)
    ensures
        closing_from(t, j) matches Some(k) ==> j <= k && closes_at(t, k) && forall|x: int|
            j <= x < k ==> !closes_at(t, x),
        closing_from(t, j) is None ==> forall|x: int| 0 <= j <= x ==> !closes_at(t, x),
    decreases t.len() - j,
{
    if j >= 0 && j + 1 < t.len() && !closes_at(t, j) {
        lemma_closing_from(t, j + 1);
    }
}

/// Filling `t[i..]` with the variables `m`.
pub open spec fn fill_from(t: Seq<char>, m: Map<Seq<char>, Seq<char>>, i: int) -> Outcome
    decreases t.len() - i,
    via fill_from_decreases
{
    if i < 0 || i >= t.len() {
        Outcome::Filled(Seq::empty())
    } else if opens_at(t, i) {
        match closing_from(t, i + 2) {
            None => Outcome::Unclosed(i as nat),
            Some(j) => {
                let name = trim(t.subrange(i + 2, j));
                if name.len() == 0 {
                    Outcome::Empty((i + 2) as nat)
                } else if !m.contains_key(name) {
                    Outcome::Missing(name)
                } else {
                    prepend(m[name], fill_from(t, m, j + 2))
                }
            },
        }
    } else {
        prepend(seq![t[i]], fill_from(t, m, i + 1))
    }
}

#[via_fn]
proof fn fill_from_decreases(t: Seq<char>, m: Map<Seq<char>, Seq<char>>, i: int) {
    lemma_closing_from(t, i + 2);
}

/// Filling the whole template `t` with the variables `m`.
pub open spec fn fill_spec(t: Seq<char>, m: Map<Seq<char>, Seq<char>>) -> Outcome {
    fill_from(t, m, 0)
}

/// The outcome that a result of `fill_template` stands for.
pub open spec fn outcome_of(r: Result<String, FillError>) -> Outcome {
    match r {
        Ok(s) => Outcome::Filled(s@),
        Err(FillError::UnclosedPlaceholder(o)) => Outcome::Unclosed(o as nat),
        Err(FillError::EmptyPlaceholder(o)) => Outcome::Empty(o as nat),
        Err(FillError::MissingVariable(n)) => Outcome::Missing(n@),
    }
}

proof fn lemma_prepend_assoc(a: Seq<char>, b: Seq<char>, o: Outcome)
    ensures
        prepend(a, prepend(b, o)) == prepend(a + b, o),
{
    if let Outcome::Filled(r) = o {
        assert(a + (b + r) =~= (a + b) + r);
    }
}

/// The first `}}` at or after `from`.
fn find_close(t: &Vec<char>, from: usize) -> (r: Option<usize>)
    ensures
        r is None <==> closing_from(t@, from as int) is None,
        r is Some ==> closing_from(t@, from as int) == Some(r->0 as int) && from <= r->0 && r->0
            + 1 < t@.len(),
{
    let mut j = from;
    while j < t.len() && j + 1 < t.len()
        invariant
            from <= j,
            closing_from(t@, from as int) == closing_from(t@, j as int),
        decreases t@.len() - j,
    {
        if t[j] == '}' && t[j + 1] == '}' {
            return Some(j);
        }
        j += 1;
    }
    None
}

/// Fills `template`, replacing each `{{ name }}` by the value of `name` in
/// `vars`; the name is the text between the braces with the whitespace at its
/// ends removed. Every other character is copied unchanged. The first problem
/// met from the left fails the whole call.
pub fn fill_template(template: &str, vars: &VarMap) -> (r: Result<String, FillError>)
    ensures
        outcome_of(r) == fill_spec(template@, vars@),
{
    let t = chars_of(template);
    let ghost m = vars@;
    let mut out = String::new();
    let mut i: usize = 0;
    assert(out@ + Seq::<char>::empty() =~= Seq::<char>::empty());
    while i < t.len()
        invariant
            i <= t@.len(),
            t@ == template@,
            m == vars@,
            fill_spec(t@, m) == prepend(out@, fill_from(t@, m, i as int)),
        decreases t@.len() - i,
    {
        if i + 1 < t.len() && t[i] == '{' && t[i + 1] == '{' {
            match find_close(&t, i + 2) {
                None => {
                    return Err(FillError::UnclosedPlaceholder(i));
                },
                Some(j) => {
                    let (a, b) = trim_bounds(&t, i + 2, j);
                    if a == b {
                        return Err(FillError::EmptyPlaceholder(i + 2));
                    }
                    let name = string_of_range(&t, a, b);
                    match vars.get_value(&name) {
                        Some(v) => {
                            proof {
                                assert(name@ == trim(t@.subrange(i + 2, j as int)));
                                assert(fill_from(t@, m, i as int) == prepend(
                                    v@,
                                    fill_from(t@, m, j + 2),
                                ));
                                lemma_prepend_assoc(out@, v@, fill_from(t@, m, j + 2));
                            }
                            push_str(&mut out, v);
                        },
                        None => {
                            return Err(FillError::MissingVariable(name));
                        },
                    }
                    i = j + 2;
                },
            }
        } else {
            proof {
                assert(!opens_at(t@, i as int));
                assert(fill_from(t@, m, i as int) == prepend(
                    seq![t@[i as int]],
                    fill_from(t@, m, i + 1),
                ));
                lemma_prepend_assoc(out@, seq![t@[i as int]], fill_from(t@, m, i + 1));
            }
            let ghost before = out@;
            push_char(&mut out, t[i]);
            assert(out@ =~= before + seq![t@[i as int]]);
            i += 1;
        }
    }
    assert(out@ + Seq::<char>::empty() =~= out@);
    Ok(out)
}

proof fn lemma_fill_from_literal(t: Seq<char>, m: Map<Seq<char>, Seq<char>>, i: int)
    requires
        0 <= i <= t.len(),
        forall|k: int| 0 <= k < t.len() ==> t[k] != '{' && t[k] != '}',
    ensures
        fill_from(t, m, i) == Outcome::Filled(t.subrange(i, t.len() as int)),
    decreases t.len() - i,
{
    if i < t.len() {
        lemma_fill_from_literal(t, m, i + 1);
        assert(seq![t[i]] + t.subrange(i + 1, t.len() as int) =~= t.subrange(i, t.len() as int));
    } else {
        assert(t.subrange(i, t.len() as int) =~= Seq::<char>::empty());
    }
}

/// A template without `{` or `}` fills to itself, whatever the variables.
pub proof fn lemma_fill_without_braces(t: Seq<char>, m: Map<Seq<char>, Seq<char>>)
    requires
        forall|k: int| 0 <= k < t.len() ==> t[k] != '{' && t[k] != '}',
    ensures
        fill_spec(t, m) == Outcome::Filled(t),
{
    lemma_fill_from_literal(t, m, 0);
    assert(t.subrange(0, t.len() as int) =~= t);
}

/// The non-empty names of the closed placeholders in `t[i..]`, scanning as
/// `fill_from` does; the scan stops at a `{{` that is never closed.
pub open spec fn names_from(t: Seq<char>, i: int) -> Set<Seq<char>>
    decreases t.len() - i,
    via names_from_decreases
{
    if i < 0 || i >= t.len() {
        Set::empty()
    } else if opens_at(t, i) {
        match closing_from(t, i + 2) {
            None => Set::empty(),
            Some(j) => {
                let name = trim(t.subrange(i + 2, j));
                if name.len() == 0 {
                    names_from(t, j + 2)
                } else {
                    names_from(t, j + 2).insert(name)
                }
            },
        }
    } else {
        names_from(t, i + 1)
    }
}

#[via_fn]
proof fn names_from_decreases(t: Seq<char>, i: int) {
    lemma_closing_from(t, i + 2);
}

/// The strings of `r`, as a set of character sequences.
pub open spec fn string_set(r: Seq<String>) -> Set<Seq<char>> {
    Set::new(|x: Seq<char>| exists|k: int| 0 <= k < r.len() && r[k]@ == x)
}

/// No two strings of `r` are equal.
pub open spec fn all_distinct(r: Seq<String>) -> bool {
    forall|a: int, b: int| 0 <= a < b < r.len() ==> r[a]@ != r[b]@
}

/// Appends `s` to `v` unless `v` already holds an equal string.
fn push_new(v: &mut Vec<String>, s: String)
    requires
        all_distinct(old(v)@),
    ensures
        all_distinct(final(v)@),
        string_set(final(v)@) == string_set(old(v)@).insert(s@),
{
    let mut k: usize = 0;
    let mut found = false;
    while k < v.len() && !found
        invariant
            k <= v@.len(),
            v@ == old(v)@,
            found ==> string_set(v@).contains(s@),
            !found ==> forall|x: int| 0 <= x < k ==> v@[x]@ != s@,
        decreases v@.len() - k,
    {
        if v[k] == s {
            found = true;
        }
        k += 1;
    }
    if found {
        assert(string_set(v@).insert(s@) =~= string_set(v@));
    } else {
        let ghost before = v@;
        v.push(s);
        assert(string_set(v@) =~= string_set(before).insert(s@)) by {
            assert forall|x: Seq<char>| string_set(before).insert(s@).contains(x) implies string_set(
                v@,
            ).contains(x) by {
                if x == s@ {
                    assert(v@[before.len() as int]@ == x);
                } else {
                    let w = choose|w: int| 0 <= w < before.len() && before[w]@ == x;
                    assert(v@[w]@ == x);
                }
            }
        }
    }
}

/// The distinct names of the placeholders of `template`, in the order of
/// their first appearance. Placeholders that are empty once trimmed are left
/// out, and the scan stops at a `{{` that is never closed.
pub fn extract_placeholders(template: &str) -> (r: Vec<String>)
    ensures
        all_distinct(r@),
        string_set(r@) == names_from(template@, 0),
{
    let t = chars_of(template);
    let mut r: Vec<String> = Vec::new();
    let mut i: usize = 0;
    assert(string_set(r@) =~= Set::<Seq<char>>::empty());
    while i < t.len()
        invariant
            i <= t@.len(),
            t@ == template@,
            all_distinct(r@),
            names_from(t@, 0) == string_set(r@).union(names_from(t@, i as int)),
        decreases t@.len() - i,
    {
        if i + 1 < t.len() && t[i] == '{' && t[i + 1] == '{' {
            match find_close(&t, i + 2) {
                None => {
                    assert(names_from(t@, i as int) =~= Set::<Seq<char>>::empty());
                    assert(string_set(r@).union(Set::empty()) =~= string_set(r@));
                    return r;
                },
                Some(j) => {
                    let (a, b) = trim_bounds(&t, i + 2, j);
                    if a < b {
                        let name = string_of_range(&t, a, b);
                        let ghost before = r@;
                        push_new(&mut r, name);
                        assert(string_set(before).union(names_from(t@, j + 2).insert(name@))
                            =~= string_set(r@).union(names_from(t@, j + 2)));
                    }
                    i = j + 2;
                },
            }
        } else {
            assert(!opens_at(t@, i as int));
            i += 1;
        }
    }
    assert(names_from(t@, i as int) =~= Set::<Seq<char>>::empty());
    assert(string_set(r@).union(Set::empty()) =~= string_set(r@));
    r
}

} // verus!
