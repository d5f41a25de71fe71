//! User preferences: string keys mapped to string values.

use vstd::prelude::*;
use vstd::string::*;

verus! {

/// The value of the first pair whose key is `k`.
pub open spec fn lookup(s: Seq<(String, String)>, k: Seq<char>) -> Option<Seq<char>>
    decreases s.len(),
{
    if s.len() == 0 {
        None
    } else {
        match lookup(s.drop_last(), k) {
            Some(v) => Some(v),
            None => if s.last().0@ == k {
                Some(s.last().1@)
            } else {
                None
            },
        }
    }
}

/// The map that a sequence of pairs stands for, the first pair of a key
/// deciding its value.
pub open spec fn pairs_map(s: Seq<(String, String)>) -> Map<Seq<char>, Seq<char>> {
    Map::new(|k: Seq<char>| lookup(s, k) is Some, |k: Seq<char>| lookup(s, k)->0)
}

/// A lookup in a prefix that finds the key finds what a lookup in the
/// whole sequence finds.
proof fn lemma_lookup_prefix(s: Seq<(String, String)>, n: int, k: Seq<char>)
    requires
        0 <= n <= s.len(),
        lookup(s.subrange(0, n), k) is Some,
    ensures
        lookup(s, k) == lookup(s.subrange(0, n), k),
    decreases s.len(),
{
    if n < s.len() {
        assert(s.drop_last().subrange(0, n) =~= s.subrange(0, n));
        lemma_lookup_prefix(s.drop_last(), n, k);
    } else {
        assert(s.subrange(0, n) =~= s);
    }
}

/// Replacing a pair whose key is not `k` by another such pair does not
/// change what `k` looks up.
proof fn lemma_lookup_update_other(s: Seq<(String, String)>, i: int, p: (String, String), k: Seq<char>)
    requires
        0 <= i < s.len(),
        s[i].0@ != k,
        p.0@ != k,
    ensures
        lookup(s.update(i, p), k) == lookup(s, k),
    decreases s.len(),
{
    if i < s.len() - 1 {
        assert(s.update(i, p).drop_last() =~= s.drop_last().update(i, p));
        lemma_lookup_update_other(s.drop_last(), i, p, k);
    } else {
        assert(s.update(i, p).drop_last() =~= s.drop_last());
    }
}

/// User preferences.
pub struct Config {
    entries: Vec<(String, String)>,
}

impl View for Config {
    type V = Map<Seq<char>, Seq<char>>;

    closed spec fn view(&self) -> Map<Seq<char>, Seq<char>> {
        pairs_map(self.entries@)
    }
}

impl Config {
    /// No preferences set.
    pub fn new() -> (c: Config)
        ensures
            c@ == Map::<Seq<char>, Seq<char>>::empty(),
    {
        let c = Config { entries: Vec::new() };
        assert(pairs_map(c.entries@) =~= Map::<Seq<char>, Seq<char>>::empty());
        c
    }

    /// Position of the first pair with key `key`.
    fn position(&self, key: &String) -> (r: Option<usize>)
        ensures
            match r {
                Some(i) => i < self.entries@.len() && self.entries@[i as int].0@ == key@
                    && lookup(self.entries@.subrange(0, i as int), key@) is None,
                None => lookup(self.entries@, key@) is None,
            },
    {
        let mut i: usize = 0;
        assert(self.entries@.subrange(0, 0) =~= Seq::<(String, String)>::empty());
        while i < self.entries.len()
            invariant
                i <= self.entries@.len(),
                lookup(self.entries@.subrange(0, i as int), key@) is None,
            decreases self.entries@.len() - i,
        {
            if self.entries[i].0 == *key {
                return Some(i);
            }
            assert(self.entries@.subrange(0, i + 1).drop_last() =~= self.entries@.subrange(
                0,
                i as int,
            ));
            i = i + 1;
        }
        assert(self.entries@.subrange(0, i as int) =~= self.entries@);
        None
    }

    /// The value set for `key`, if any.
    pub fn check(&self, key: &str) -> (r: Option<String>)
        ensures
            match r {
                Some(v) => self@.contains_key(key@) && v@ == self@[key@],
                None => !self@.contains_key(key@),
            },
    {
        let k = String::from_str(key);
        match self.position(&k) {
            Some(i) => {
                proof {
                    assert(self.entries@.subrange(0, i + 1).drop_last() =~= self.entries@.subrange(
                        0,
                        i as int,
                    ));
                    lemma_lookup_prefix(self.entries@, i + 1, key@);
                }
                Some(self.entries[i].1.clone())
            },
            None => None,
        }
    }

    /// Sets `key` to `value`, replacing what it was set to.
    pub fn set(&mut self, key: String, value: String)
        ensures
            final(self)@ == old(self)@.insert(key@, value@),
    {
        let ghost o = self.entries@;
        match self.position(&key) {
            Some(i) => {
                let p = (key, value);
                self.entries.set(i, p);
                proof {
                    let n = self.entries@;
                    assert(n.subrange(0, i + 1).drop_last() =~= o.subrange(0, i as int));
                    lemma_lookup_prefix(n, i + 1, p.0@);
                    assert forall|k: Seq<char>| k != p.0@ implies lookup(n, k) == lookup(o, k) by {
                        lemma_lookup_update_other(o, i as int, p, k);
                    }
                    assert(pairs_map(n) =~= pairs_map(o).insert(p.0@, p.1@));
                }
            },
            None => {
                let p = (key, value);
                self.entries.push(p);
                proof {
                    let n = self.entries@;
                    assert(n.drop_last() =~= o);
                    assert(pairs_map(n) =~= pairs_map(o).insert(p.0@, p.1@));
                }
            },
        }
    }

    /// The preferences as pairs in the order they were first set; read
    /// first match first, they give the same map.
    pub fn pairs(&self) -> (r: Vec<(String, String)>)
        ensures
            pairs_map(r@) == self@,
    {
        let mut r: Vec<(String, String)> = Vec::new();
        let mut i: usize = 0;
        while i < self.entries.len()
            invariant
                i <= self.entries@.len(),
                r@.len() == i,
                forall|j: int|
                    0 <= j < i ==> (#[trigger] r@[j]).0@ == self.entries@[j].0@ && r@[j].1@
                        == self.entries@[j].1@,
            decreases self.entries@.len() - i,
        {
            let p = (self.entries[i].0.clone(), self.entries[i].1.clone());
            r.push(p);
            i = i + 1;
        }
        proof {
            assert forall|k: Seq<char>| lookup(r@, k) == lookup(self.entries@, k) by {
                lemma_lookup_same_views(r@, self.entries@, k);
            }
            assert(pairs_map(r@) =~= pairs_map(self.entries@));
        }
        r
    }
}

/// Two sequences of pairs with the same views look up the same.
proof fn lemma_lookup_same_views(a: Seq<(String, String)>, b: Seq<(String, String)>, k: Seq<char>)
    requires
        a.len() == b.len(),
        forall|j: int| 0 <= j < a.len() ==> (#[trigger] a[j]).0@ == b[j].0@ && a[j].1@ == b[j].1@,
    ensures
        lookup(a, k) == lookup(b, k),
    decreases a.len(),
{
    if a.len() > 0 {
        lemma_lookup_same_views(a.drop_last(), b.drop_last(), k);
        assert(a.last() == a[a.len() - 1]);
    }
}

} // verus!
