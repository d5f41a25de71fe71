//! The order in which a list is stored: by group, then by name or by path.

use vstd::prelude::*;
use vstd::string::*;
use crate::config::Config;
use crate::list::{views, List};
use crate::order::{lemma_seq_le_antisym, lemma_seq_le_total, lemma_seq_le_trans, seq_le, str_le};
use crate::waypoint::{Waypoint, WaypointView};

verus! {

broadcast use vstd::seq_lib::group_to_multiset_ensures;

/// The field that orders waypoints within a group.
#[derive(Clone, Copy, Debug, PartialEq, Eq, Structural)]
pub enum SortKey {
    Name,
    Path,
}

/// The sort key that the preference `default-sort` selects, if any.
pub open spec fn sort_pref(m: Map<Seq<char>, Seq<char>>) -> Option<SortKey> {
    if m.contains_key("default-sort"@) && m["default-sort"@] == "name"@ {
        Some(SortKey::Name)
    } else if m.contains_key("default-sort"@) && m["default-sort"@] == "path"@ {
        Some(SortKey::Path)
    } else {
        None
    }
}

/// Order on groups: no group first, then groups by label.
pub open spec fn group_le(a: Option<Seq<char>>, b: Option<Seq<char>>) -> bool {
    match (a, b) {
        (None, _) => true,
        (Some(_), None) => false,
        (Some(x), Some(y)) => seq_le(x, y),
    }
}

/// The field of `w` that `key` names.
pub open spec fn sort_field(w: WaypointView, key: SortKey) -> Seq<char> {
    match key {
        SortKey::Name => w.name,
        SortKey::Path => w.path,
    }
}

/// `a` may stand before `b`: by group, then by the field of `key`.
pub open spec fn wp_le(a: WaypointView, b: WaypointView, key: SortKey) -> bool {
    if a.group == b.group {
        seq_le(sort_field(a, key), sort_field(b, key))
    } else {
        group_le(a.group, b.group)
    }
}

/// Every entry may stand before every later one.
pub open spec fn sorted_by(s: Seq<WaypointView>, key: SortKey) -> bool {
    forall|i: int, j: int| 0 <= i < j < s.len() ==> wp_le(#[trigger] s[i], #[trigger] s[j], key)
}

/// `r` holds the entries of `s`, each once, the one at `q` coming from
/// position `idx[q]` of `s`.
pub open spec fn arranged(s: Seq<WaypointView>, r: Seq<WaypointView>, idx: Seq<int>) -> bool {
    &&& r.len() == s.len()
    &&& idx.len() == s.len()
    &&& forall|q: int| 0 <= q < r.len() ==> 0 <= #[trigger] idx[q] < s.len() && r[q] == s[idx[q]]
    &&& forall|a: int, b: int| 0 <= a < b < r.len() ==> #[trigger] idx[a] != #[trigger] idx[b]
}

/// Entries of `r` that compare equal under `key` stand in the order they
/// had in the sequence that `idx` points into.
pub open spec fn stable(r: Seq<WaypointView>, idx: Seq<int>, key: SortKey) -> bool {
    forall|a: int, b: int|
        0 <= a < b < r.len() && wp_le(#[trigger] r[b], #[trigger] r[a], key) ==> idx[a] < idx[b]
}

proof fn lemma_group_le_total(a: Option<Seq<char>>, b: Option<Seq<char>>)
    ensures
        group_le(a, b) || group_le(b, a),
{
    if let (Some(x), Some(y)) = (a, b) {
        lemma_seq_le_total(x, y);
    }
}

proof fn lemma_group_le_antisym(a: Option<Seq<char>>, b: Option<Seq<char>>)
    requires
        group_le(a, b),
        group_le(b, a),
    ensures
        a == b,
{
    if let (Some(x), Some(y)) = (a, b) {
        lemma_seq_le_antisym(x, y);
    }
}

proof fn lemma_group_le_trans(a: Option<Seq<char>>, b: Option<Seq<char>>, c: Option<Seq<char>>)
    requires
        group_le(a, b),
        group_le(b, c),
    ensures
        group_le(a, c),
{
    if let (Some(x), Some(y), Some(z)) = (a, b, c) {
        lemma_seq_le_trans(x, y, z);
    }
}

/// Any two waypoints are ordered one way or the other.
pub proof fn lemma_wp_le_total(a: WaypointView, b: WaypointView, key: SortKey)
    ensures
        wp_le(a, b, key) || wp_le(b, a, key),
{
    lemma_seq_le_total(sort_field(a, key), sort_field(b, key));
    lemma_group_le_total(a.group, b.group);
}

/// The order on waypoints is transitive.
pub proof fn lemma_wp_le_trans(a: WaypointView, b: WaypointView, c: WaypointView, key: SortKey)
    requires
        wp_le(a, b, key),
        wp_le(b, c, key),
    ensures
        wp_le(a, c, key),
{
    if a.group == b.group && b.group == c.group {
        lemma_seq_le_trans(sort_field(a, key), sort_field(b, key), sort_field(c, key));
    } else if a.group != b.group && b.group != c.group {
        lemma_group_le_trans(a.group, b.group, c.group);
        if a.group == c.group {
            lemma_group_le_antisym(a.group, b.group);
        }
    }
}

/// Compares two optional group labels in the order of `group_le`.
fn group_le_exec(a: &Option<String>, b: &Option<String>) -> (r: bool)
    ensures
        r == group_le(crate::waypoint::opt_view(*a), crate::waypoint::opt_view(*b)),
{
    match (a, b) {
        (None, _) => true,
        (Some(_), None) => false,
        (Some(x), Some(y)) => str_le(x.as_str(), y.as_str()),
    }
}

/// Whether `a` may stand before `b` under `key`.
fn wp_le_exec(a: &Waypoint, b: &Waypoint, key: SortKey) -> (r: bool)
    ensures
        r == wp_le(a@, b@, key),
{
    if crate::list::same_group(&a.group, &b.group) {
        match key {
            SortKey::Name => str_le(a.name.as_str(), b.name.as_str()),
            SortKey::Path => str_le(a.path.as_str(), b.path.as_str()),
        }
    } else {
        group_le_exec(&a.group, &b.group)
    }
}

/// The waypoints of `v` sorted under `key`; entries that compare equal keep
/// their order.
fn sorted_copy(v: &Vec<Waypoint>, key: SortKey) -> (r: Vec<Waypoint>)
    ensures
        views(r@).to_multiset() == views(v@).to_multiset(),
        sorted_by(views(r@), key),
        exists|idx: Seq<int>| arranged(views(v@), views(r@), idx) && stable(views(r@), idx, key),
{
    let mut out: Vec<Waypoint> = Vec::new();
    let mut i: usize = 0;
    let ghost mut idx: Seq<int> = Seq::empty();
    assert(views(v@).subrange(0, 0) =~= views(out@));
    while i < v.len()
        invariant
            i <= v@.len(),
            views(out@).to_multiset() == views(v@).subrange(0, i as int).to_multiset(),
            sorted_by(views(out@), key),
            arranged(views(v@).subrange(0, i as int), views(out@), idx),
            stable(views(out@), idx, key),
        decreases v@.len() - i,
    {
        let w = v[i].duplicate();
        let mut p: usize = 0;
        while p < out.len() && wp_le_exec(&out[p], &w, key)
            invariant
                p <= out@.len(),
                forall|q: int| 0 <= q < p ==> wp_le(#[trigger] views(out@)[q], w@, key),
            decreases out@.len() - p,
        {
            p = p + 1;
        }
        let ghost s = views(out@);
        proof {
            if p < s.len() {
                lemma_wp_le_total(s[p as int], w@, key);
                assert forall|q: int| p <= q < s.len() implies wp_le(w@, #[trigger] s[q], key) by {
                    if q > p {
                        lemma_wp_le_trans(w@, s[p as int], s[q], key);
                    }
                }
                assert forall|q: int| p <= q < s.len() implies !wp_le(#[trigger] s[q], w@, key) by {
                    if q > p && wp_le(s[q], w@, key) {
                        lemma_wp_le_trans(s[p as int], s[q], w@, key);
                    }
                }
            }
        }
        out.insert(p, w);
        proof {
            let t = views(out@);
            assert(t =~= s.insert(p as int, w@));
            assert forall|a: int, b: int| 0 <= a < b < t.len() implies wp_le(
                #[trigger] t[a],
                #[trigger] t[b],
                key,
            ) by {
                if a < p && b > p {
                    lemma_wp_le_trans(s[a], w@, s[b - 1], key);
                }
            }
            assert(views(v@).subrange(0, i + 1) =~= views(v@).subrange(0, i as int).push(w@));
            let old_idx = idx;
            idx = idx.insert(p as int, i as int);
            let sv = views(v@).subrange(0, i + 1);
            assert(sv[i as int] == w@);
            assert forall|q: int| 0 <= q < t.len() implies 0 <= #[trigger] idx[q] < sv.len()
                && t[q] == sv[idx[q]] by {
                if q < p {
                    assert(idx[q] == old_idx[q]);
                } else if q > p {
                    assert(idx[q] == old_idx[q - 1]);
                }
            }
            assert forall|a: int, b: int| 0 <= a < b < t.len() implies #[trigger] idx[a]
                != #[trigger] idx[b] by {
                if a != p && b != p {
                    let a0 = if a < p { a } else { a - 1 };
                    let b0 = if b < p { b } else { b - 1 };
                    assert(old_idx[a0] != old_idx[b0]);
                }
                if a != p {
                    let a0 = if a < p { a } else { a - 1 };
                    assert(old_idx[a0] < i);
                }
                if b != p {
                    let b0 = if b < p { b } else { b - 1 };
                    assert(old_idx[b0] < i);
                }
            }
            assert(arranged(sv, t, idx));
            assert forall|a: int, b: int|
                0 <= a < b < t.len() && wp_le(#[trigger] t[b], #[trigger] t[a], key) implies idx[a]
                < idx[b] by {
                if a != p && b != p {
                    let a0 = if a < p { a } else { a - 1 };
                    let b0 = if b < p { b } else { b - 1 };
                    assert(s[a0] == t[a] && s[b0] == t[b]);
                    assert(old_idx[a0] < old_idx[b0]);
                } else if b == p {
                    assert(old_idx[a] < i);
                } else {
                    assert(t[b] == s[b - 1]);
                }
            }
        }
        i = i + 1;
    }
    assert(views(v@).subrange(0, v@.len() as int) =~= views(v@));
    assert(arranged(views(v@), views(out@), idx) && stable(views(out@), idx, key));
    out
}

impl SortKey {
    /// The sort key that the preference `default-sort` selects: `name` or
    /// `path`; anything else, or nothing, selects none.
    pub fn from_config(config: &Config) -> (r: Option<SortKey>)
        ensures
            r == sort_pref(config@),
    {
        match config.check("default-sort") {
            Some(s) => {
                if s == String::from_str("name") {
                    Some(SortKey::Name)
                } else if s == String::from_str("path") {
                    Some(SortKey::Path)
                } else {
                    None
                }
            },
            None => None,
        }
    }
}

impl List {
    /// The list in the order it is stored in: under the preference
    /// `default-sort`, by group (ungrouped first) and then by name or path,
    /// entries that compare equal keeping their order; without it, as it is.
    pub fn sort(self, config: &Config) -> (r: List)
        ensures
            match sort_pref(config@) {
                Some(key) => r@.to_multiset() == self@.to_multiset() && sorted_by(r@, key) && exists|
                    idx: Seq<int>,
                | arranged(self@, r@, idx) && stable(r@, idx, key),
                None => r == self,
            },
    {
        match SortKey::from_config(config) {
            Some(key) => List(sorted_copy(&self.0, key)),
            None => self,
        }
    }
}

} // verus!
