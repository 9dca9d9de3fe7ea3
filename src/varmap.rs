//! A flat map from variable names to values, in which a later insert of a
//! name replaces the earlier value.
use vstd::prelude::*;

verus! {

/// The map that a sequence of `(name, value)` pairs denotes, later pairs
/// overriding earlier ones.
pub open spec fn map_of(s: Seq<(String, String)>) -> Map<Seq<char>, Seq<char>>
    decreases s.len(),
{
    if s.len() == 0 {
        Map::empty()
    } else {
        map_of(s.drop_last()).insert(s.last().0@, s.last().1@)
    }
}

/// Two sequences of pairs with the same names and values denote the same map.
proof fn lemma_map_of_same_views(a: Seq<(String, String)>, b: Seq<(String, String)>)
    requires
        a.len() == b.len(),
        forall|j: int| 0 <= j < a.len() ==> a[j].0@ == b[j].0@ && a[j].1@ == b[j].1@,
    ensures
        map_of(a) == map_of(b),
    decreases a.len(),
{
    if a.len() > 0 {
        lemma_map_of_same_views(a.drop_last(), b.drop_last());
    }
}

/// Variables by name.
pub struct VarMap {
    entries: Vec<(String, String)>,
}

impl View for VarMap {
    type V = Map<Seq<char>, Seq<char>>;

    closed spec fn view(&self) -> Map<Seq<char>, Seq<char>> {
        map_of(self.entries@)
    }
}

/// Where no pair at or after `i` has name `k`, `map_of` agrees on `k` with the
/// prefix before `i`.
proof fn lemma_map_of_prefix(s: Seq<(String, String)>, i: int, k: Seq<char>)
    requires
        0 <= i <= s.len(),
        forall|j: int| i <= j < s.len() ==> s[j].0@ != k,
    ensures
        map_of(s).contains_key(k) == map_of(s.take(i)).contains_key(k),
        map_of(s).contains_key(k) ==> map_of(s)[k] == map_of(s.take(i))[k],
    decreases s.len(),
{
    if s.len() > i {
        assert(s.drop_last().take(i) =~= s.take(i));
        lemma_map_of_prefix(s.drop_last(), i, k);
    } else {
        assert(s.take(i) =~= s);
    }
}

/// Replacing the value of the last pair named `k` updates the map at `k`.
proof fn lemma_map_of_update(s: Seq<(String, String)>, i: int, p: (String, String))
    requires
        0 <= i < s.len(),
        s[i].0@ == p.0@,
        forall|j: int| i < j < s.len() ==> s[j].0@ != p.0@,
    ensures
        map_of(s.update(i, p)) == map_of(s).insert(p.0@, p.1@),
    decreases s.len(),
{
    let u = s.update(i, p);
    if i == s.len() - 1 {
        assert(u.drop_last() =~= s.drop_last());
        assert(map_of(u) =~= map_of(s).insert(p.0@, p.1@));
    } else {
        assert(u.drop_last() =~= s.drop_last().update(i, p));
        lemma_map_of_update(s.drop_last(), i, p);
        assert(map_of(u) =~= map_of(s).insert(p.0@, p.1@));
    }
}

impl VarMap {
    /// The empty map.
    pub fn new() -> (r: VarMap)
        ensures
            r@ == Map::<Seq<char>, Seq<char>>::empty(),
    {
        VarMap { entries: Vec::new() }
    }

    /// Index of the pair named `key`, if any; no later pair has that name.
    fn find(&self, key: &String) -> (r: Option<usize>)
        ensures
            r is None ==> !self@.contains_key(key@),
            r is Some ==> {
                let i = r->0 as int;
                &&& 0 <= i < self.entries@.len()
                &&& self.entries@[i].0@ == key@
                &&& forall|j: int| i < j < self.entries@.len() ==> self.entries@[j].0@ != key@
                &&& self@.contains_key(key@)
                &&& self@[key@] == self.entries@[i].1@
            },
    {
        let mut i = self.entries.len();
        while i > 0
            invariant
                i <= self.entries@.len(),
                forall|j: int| i <= j < self.entries@.len() ==> self.entries@[j].0@ != key@,
            decreases i,
        {
            if self.entries[i - 1].0 == *key {
                proof {
                    let s = self.entries@;
                    lemma_map_of_prefix(s, i as int, key@);
                    assert(s.take(i as int).drop_last() =~= s.take(i - 1));
                }
                return Some(i - 1);
            }
            i -= 1;
        }
        proof {
            lemma_map_of_prefix(self.entries@, 0, key@);
        }
        None
    }

    /// Sets `key` to `value`, replacing any value it had.
    pub fn insert(&mut self, key: String, value: String)
        ensures
            final(self)@ == old(self)@.insert(key@, value@),
    {
        match self.find(&key) {
            Some(i) => {
                proof {
                    lemma_map_of_update(self.entries@, i as int, (key, value));
                }
                self.entries.set(i, (key, value));
            },
            None => {
                let ghost before = self.entries@;
                self.entries.push((key, value));
                proof {
                    assert(self.entries@.drop_last() =~= before);
                }
            },
        }
    }

    /// The value of `key`, if it has one.
    pub fn get_value(&self, key: &String) -> (r: Option<&String>)
        ensures
            r is Some <==> self@.contains_key(key@),
            r is Some ==> r->0@ == self@[key@],
    {
        match self.find(key) {
            Some(i) => Some(&self.entries[i].1),
            None => None,
        }
    }

    /// The value of the variable named `key`, if it has one.
    pub fn get(&self, key: &str) -> (r: Option<&String>)
        ensures
            r is Some <==> self@.contains_key(key@),
            r is Some ==> r->0@ == self@[key@],
    {
        let k = key.to_owned();
        self.get_value(&k)
    }

    /// The `(name, value)` pairs of the map; inserting them in order into an
    /// empty map gives this map back.
    pub fn pairs(&self) -> (r: Vec<(String, String)>)
        ensures
            map_of(r@) == self@,
    {
        let mut r: Vec<(String, String)> = Vec::new();
        let mut i: usize = 0;
        while i < self.entries.len()
            invariant
                i <= self.entries@.len(),
                r@.len() == i,
                forall|j: int| 0 <= j < i ==> r@[j].0@ == self.entries@[j].0@ && r@[j].1@
                    == self.entries@[j].1@,
            decreases self.entries@.len() - i,
        {
            let (k, v) = (self.entries[i].0.clone(), self.entries[i].1.clone());
            r.push((k, v));
            i += 1;
        }
        proof {
            lemma_map_of_same_views(r@, self.entries@);
        }
        r
    }

    /// Inserts every variable of `other`, whose values override those of this
    /// map.
    pub fn merge(&mut self, other: &VarMap)
        ensures
            final(self)@ == old(self)@.union_prefer_right(other@),
    {
        let ps = other.pairs();
        let mut i: usize = 0;
        assert(old(self)@.union_prefer_right(map_of(ps@.take(0))) =~= old(self)@);
        while i < ps.len()
            invariant
                i <= ps@.len(),
                map_of(ps@) == other@,
                self@ == old(self)@.union_prefer_right(map_of(ps@.take(i as int))),
            decreases ps@.len() - i,
        {
            let (k, v) = (ps[i].0.clone(), ps[i].1.clone());
            proof {
                assert(ps@.take(i + 1).drop_last() =~= ps@.take(i as int));
                assert(old(self)@.union_prefer_right(map_of(ps@.take(i + 1))) =~= old(
                    self,
                )@.union_prefer_right(map_of(ps@.take(i as int))).insert(k@, v@));
            }
            self.insert(k, v);
            i += 1;
        }
        assert(ps@.take(i as int) =~= ps@);
    }
}

} // verus!
