//! The list of waypoints: queries and edits.

use vstd::prelude::*;
use vstd::string::*;
use crate::waypoint::{copy_opt, opt_str_view, opt_view, Waypoint, WaypointView};

verus! {

/// The views of a vector of waypoints.
pub open spec fn views(v: Seq<Waypoint>) -> Seq<WaypointView> {
    v.map_values(|w: Waypoint| w@)
}

/// Position of the first entry that satisfies `p`.
pub open spec fn find_first(s: Seq<WaypointView>, p: spec_fn(WaypointView) -> bool) -> Option<int>
    decreases s.len(),
{
    if s.len() == 0 {
        None
    } else {
        match find_first(s.drop_last(), p) {
            Some(i) => Some(i),
            None => if p(s.last()) {
                Some(s.len() - 1)
            } else {
                None
            },
        }
    }
}

/// Entries named `n`.
pub open spec fn named(n: Seq<char>) -> spec_fn(WaypointView) -> bool {
    |w: WaypointView| w.name == n
}

/// Entries whose group is `g` (`None`: ungrouped entries).
pub open spec fn grouped(g: Option<Seq<char>>) -> spec_fn(WaypointView) -> bool {
    |w: WaypointView| w.group == g
}

/// `find_first` gives the first position that satisfies `p`, or `None`
/// when there is none.
pub proof fn lemma_find_first(s: Seq<WaypointView>, p: spec_fn(WaypointView) -> bool)
    ensures
        match find_first(s, p) {
            Some(i) => 0 <= i < s.len() && p(s[i]) && forall|j: int| 0 <= j < i ==> !p(#[trigger] s[j]),
            None => forall|j: int| 0 <= j < s.len() ==> !p(#[trigger] s[j]),
        },
    decreases s.len(),
{
    if s.len() > 0 {
        let t = s.drop_last();
        lemma_find_first(t, p);
        assert forall|j: int| 0 <= j < s.len() - 1 implies s[j] == #[trigger] t[j] by {}
        match find_first(t, p) {
            Some(i) => {
                assert(find_first(s, p) == Some(i));
                assert(p(s[i]));
                assert forall|j: int| 0 <= j < i implies !p(#[trigger] s[j]) by {
                    assert(s[j] == t[j]);
                }
            },
            None => {
                assert forall|j: int| 0 <= j < s.len() - 1 implies !p(#[trigger] s[j]) by {
                    assert(s[j] == t[j]);
                }
                if p(s.last()) {
                    assert(find_first(s, p) == Some(s.len() - 1));
                } else {
                    assert(find_first(s, p) is None);
                }
            },
        }
    }
}

/// An `Option<usize>` read as an `Option<int>`.
pub open spec fn opt_int(o: Option<usize>) -> Option<int> {
    match o {
        Some(i) => Some(i as int),
        None => None,
    }
}

/// The views of a vector of strings.
pub open spec fn strings_view(v: Seq<String>) -> Seq<Seq<char>> {
    v.map_values(|s: String| s@)
}

/// The views of a vector of string slices.
pub open spec fn strs_view(v: Seq<&str>) -> Seq<Seq<char>> {
    v.map_values(|s: &str| s@)
}

/// The names of a sequence of waypoints, in order.
pub open spec fn names_of(s: Seq<WaypointView>) -> Seq<Seq<char>> {
    s.map_values(|w: WaypointView| w.name)
}

/// The group `g` is one of `gs` (an absent group never is).
pub open spec fn listed_group(gs: Seq<Seq<char>>, g: Option<Seq<char>>) -> bool {
    match g {
        Some(x) => gs.contains(x),
        None => false,
    }
}

/// Entries whose name is one of `ns`.
pub open spec fn name_listed(ns: Seq<Seq<char>>) -> spec_fn(WaypointView) -> bool {
    |w: WaypointView| ns.contains(w.name)
}

/// Entries whose name is none of `ns`.
pub open spec fn name_unlisted(ns: Seq<Seq<char>>) -> spec_fn(WaypointView) -> bool {
    |w: WaypointView| !ns.contains(w.name)
}

/// Entries whose group is one of `gs`.
pub open spec fn group_listed(gs: Seq<Seq<char>>) -> spec_fn(WaypointView) -> bool {
    |w: WaypointView| listed_group(gs, w.group)
}

/// Entries whose group is none of `gs`.
pub open spec fn group_unlisted(gs: Seq<Seq<char>>) -> spec_fn(WaypointView) -> bool {
    |w: WaypointView| !listed_group(gs, w.group)
}

/// `gs[k]` does not occur before position `k`.
pub open spec fn first_mention(gs: Seq<Seq<char>>, k: int) -> bool {
    !gs.subrange(0, k).contains(gs[k])
}

/// The names of the members of group `gs[k]` that are still there when
/// the groups of `gs` are handled in order: none if `gs[k]` came earlier.
pub open spec fn group_members(s: Seq<WaypointView>, gs: Seq<Seq<char>>, k: int) -> Seq<Seq<char>> {
    if first_mention(gs, k) {
        names_of(s.filter(grouped(Some(gs[k]))))
    } else {
        Seq::empty()
    }
}

/// What removing the group `gs[k]` reports: the names removed, or
/// `UnknownGroup` when it had no member left.
pub open spec fn removal_report(
    r: Result<Vec<String>, ListError>,
    s: Seq<WaypointView>,
    gs: Seq<Seq<char>>,
    k: int,
) -> bool {
    if group_members(s, gs, k).len() == 0 {
        r == Err::<Vec<String>, ListError>(ListError::UnknownGroup)
    } else {
        r is Ok && strings_view(r->Ok_0@) == group_members(s, gs, k)
    }
}

/// `s` with the group label cleared on every entry whose group is one of `gs`.
pub open spec fn dissolved(s: Seq<WaypointView>, gs: Seq<Seq<char>>) -> Seq<WaypointView> {
    s.map_values(
        |w: WaypointView|
            if listed_group(gs, w.group) {
                w.with_group(None)
            } else {
                w
            },
    )
}

/// Owned copies of string slices.
fn to_strings(v: &Vec<&str>) -> (r: Vec<String>)
    ensures
        strings_view(r@) == strs_view(v@),
{
    let mut r: Vec<String> = Vec::new();
    let mut i: usize = 0;
    while i < v.len()
        invariant
            i <= v@.len(),
            strings_view(r@) == strs_view(v@).subrange(0, i as int),
        decreases v@.len() - i,
    {
        let s = String::from_str(v[i]);
        proof {
            assert(s@ == strs_view(v@)[i as int]);
            assert(strings_view(r@.push(s)) =~= strings_view(r@).push(s@));
            assert(strings_view(r@.push(s)) =~= strs_view(v@).subrange(0, i + 1));
        }
        r.push(s);
        i = i + 1;
    }
    assert(strs_view(v@).subrange(0, v@.len() as int) =~= strs_view(v@));
    r
}

/// Whether `s` is one of the first `n` strings of `v`.
fn contains_within(v: &Vec<String>, n: usize, s: &String) -> (r: bool)
    requires
        n <= v@.len(),
    ensures
        r == strings_view(v@).subrange(0, n as int).contains(s@),
{
    let mut i: usize = 0;
    while i < n
        invariant
            n <= v@.len(),
            i <= n,
            forall|j: int| 0 <= j < i ==> (#[trigger] v@[j])@ != s@,
        decreases n - i,
    {
        if v[i] == *s {
            assert(strings_view(v@).subrange(0, n as int)[i as int] == s@);
            return true;
        }
        i = i + 1;
    }
    assert forall|j: int| 0 <= j < n implies strings_view(v@).subrange(0, n as int)[j] != s@ by {
        assert(v@[j]@ != s@);
    }
    false
}

/// Whether the group `g` is one of `gs`.
fn group_in(gs: &Vec<String>, g: &Option<String>) -> (r: bool)
    ensures
        r == listed_group(strings_view(gs@), opt_view(*g)),
{
    match g {
        Some(x) => {
            let r = contains_within(gs, gs.len(), x);
            assert(strings_view(gs@).subrange(0, gs@.len() as int) =~= strings_view(gs@));
            r
        },
        None => false,
    }
}

/// The names of the members of group `gs[k]` in `v`, none if `gs[k]` came
/// earlier in `gs`.
fn members_of(v: &Vec<Waypoint>, gs: &Vec<String>, k: usize) -> (r: Vec<String>)
    requires
        k < gs@.len(),
    ensures
        strings_view(r@) == group_members(views(v@), strings_view(gs@), k as int),
{
    let mut r: Vec<String> = Vec::new();
    let ghost gv = strings_view(gs@);
    if contains_within(gs, k, &gs[k]) {
        assert(strings_view(r@) =~= Seq::<Seq<char>>::empty());
        return r;
    }
    let ghost p = grouped(Some(gv[k as int]));
    let target = Some(gs[k].clone());
    let mut i: usize = 0;
    proof {
        reveal(Seq::filter);
        assert(strings_view(r@) =~= names_of(views(v@).subrange(0, 0).filter(p)));
    }
    while i < v.len()
        invariant
            i <= v@.len(),
            k < gs@.len(),
            gv == strings_view(gs@),
            p == grouped(Some(gv[k as int])),
            opt_view(target) == Some(gv[k as int]),
            strings_view(r@) == names_of(views(v@).subrange(0, i as int).filter(p)),
        decreases v@.len() - i,
    {
        let ghost sub = views(v@).subrange(0, i + 1);
        proof {
            reveal(Seq::filter);
            assert(sub.drop_last() =~= views(v@).subrange(0, i as int));
            assert(sub.last() == v@[i as int]@);
            assert(sub.filter(p) == if p(sub.last()) {
                sub.drop_last().filter(p).push(sub.last())
            } else {
                sub.drop_last().filter(p)
            });
        }
        if same_group(&v[i].group, &target) {
            let n = v[i].name.clone();
            proof {
                assert(names_of(sub.drop_last().filter(p).push(sub.last())) =~= names_of(
                    sub.drop_last().filter(p),
                ).push(n@));
                assert(strings_view(r@.push(n)) =~= names_of(sub.filter(p)));
            }
            r.push(n);
        }
        i = i + 1;
    }
    assert(views(v@).subrange(0, v@.len() as int) =~= views(v@));
    r
}

/// Entries that `split_by` selects: by group, or by name.
pub open spec fn selected(keys: Seq<Seq<char>>, by_group: bool) -> spec_fn(WaypointView) -> bool {
    if by_group {
        group_listed(keys)
    } else {
        name_listed(keys)
    }
}

/// Entries that `split_by` keeps.
pub open spec fn unselected(keys: Seq<Seq<char>>, by_group: bool) -> spec_fn(WaypointView) -> bool {
    if by_group {
        group_unlisted(keys)
    } else {
        name_unlisted(keys)
    }
}

/// Splits `v` into the entries that `keys` does not select and those it
/// does, each in order: by group when `by_group`, else by name.
fn split_by(v: &Vec<Waypoint>, keys: &Vec<String>, by_group: bool) -> (r: (Vec<Waypoint>, Vec<Waypoint>))
    ensures
        views(r.0@) == views(v@).filter(unselected(strings_view(keys@), by_group)),
        views(r.1@) == views(v@).filter(selected(strings_view(keys@), by_group)),
{
    let ghost ks = strings_view(keys@);
    let ghost keep = unselected(ks, by_group);
    let ghost take = selected(ks, by_group);
    let mut kept: Vec<Waypoint> = Vec::new();
    let mut taken: Vec<Waypoint> = Vec::new();
    let mut i: usize = 0;
    proof {
        reveal(Seq::filter);
        assert(views(kept@) =~= views(v@).subrange(0, 0).filter(keep));
        assert(views(taken@) =~= views(v@).subrange(0, 0).filter(take));
    }
    while i < v.len()
        invariant
            i <= v@.len(),
            ks == strings_view(keys@),
            keep == unselected(ks, by_group),
            take == selected(ks, by_group),
            views(kept@) == views(v@).subrange(0, i as int).filter(keep),
            views(taken@) == views(v@).subrange(0, i as int).filter(take),
        decreases v@.len() - i,
    {
        let ghost sub = views(v@).subrange(0, i + 1);
        proof {
            reveal(Seq::filter);
            assert(sub.drop_last() =~= views(v@).subrange(0, i as int));
            assert(sub.last() == v@[i as int]@);
            assert(sub.filter(keep) == if keep(sub.last()) {
                sub.drop_last().filter(keep).push(sub.last())
            } else {
                sub.drop_last().filter(keep)
            });
            assert(sub.filter(take) == if take(sub.last()) {
                sub.drop_last().filter(take).push(sub.last())
            } else {
                sub.drop_last().filter(take)
            });
            assert(strings_view(keys@).subrange(0, keys@.len() as int) =~= ks);
        }
        let hit = if by_group {
            group_in(keys, &v[i].group)
        } else {
            contains_within(keys, keys.len(), &v[i].name)
        };
        assert(hit == take(sub.last()));
        assert(hit != keep(sub.last()));
        let w = v[i].duplicate();
        if hit {
            proof {
                assert(views(taken@.push(w)) =~= views(taken@).push(w@));
            }
            taken.push(w);
        } else {
            proof {
                assert(views(kept@.push(w)) =~= views(kept@).push(w@));
            }
            kept.push(w);
        }
        i = i + 1;
    }
    assert(views(v@).subrange(0, v@.len() as int) =~= views(v@));
    (kept, taken)
}

/// The names of the waypoints of `v`, in order.
fn names(v: &Vec<Waypoint>) -> (r: Vec<String>)
    ensures
        strings_view(r@) == names_of(views(v@)),
{
    let mut r: Vec<String> = Vec::new();
    let mut i: usize = 0;
    while i < v.len()
        invariant
            i <= v@.len(),
            strings_view(r@) == names_of(views(v@)).subrange(0, i as int),
        decreases v@.len() - i,
    {
        let n = v[i].name.clone();
        proof {
            assert(n@ == names_of(views(v@))[i as int]);
            assert(strings_view(r@.push(n)) =~= strings_view(r@).push(n@));
            assert(strings_view(r@.push(n)) =~= names_of(views(v@)).subrange(0, i + 1));
        }
        r.push(n);
        i = i + 1;
    }
    assert(names_of(views(v@)).subrange(0, v@.len() as int) =~= names_of(views(v@)));
    r
}

/// Why an edit of the list was refused.
#[derive(Clone, Debug)]
pub enum ListError {
    /// No waypoint has the given name.
    NotFound,
    /// The name is taken; the existing waypoint's path.
    AlreadyAssigned(String),
    /// No waypoint carries the given group.
    UnknownGroup,
    /// The waypoint has no group to remove.
    NoGroup,
}

/// The ordered collection of waypoints.
#[derive(Clone, Debug)]
pub struct List(pub Vec<Waypoint>);

impl View for List {
    type V = Seq<WaypointView>;

    open spec fn view(&self) -> Seq<WaypointView> {
        views(self.0@)
    }
}

/// Compares two optional strings by content.
pub fn same_group(a: &Option<String>, b: &Option<String>) -> (r: bool)
    ensures
        r == (opt_view(*a) == opt_view(*b)),
{
    match (a, b) {
        (Some(x), Some(y)) => *x == *y,
        (None, None) => true,
        _ => false,
    }
}

impl List {
    /// An empty list.
    pub fn new() -> (l: List)
        ensures
            l@ == Seq::<WaypointView>::empty(),
    {
        let l = List(Vec::new());
        assert(l@ =~= Seq::<WaypointView>::empty());
        l
    }

    /// Position of the first waypoint named `name`.
    pub fn get_index(&self, name: &str) -> (r: Option<usize>)
        ensures
            opt_int(r) == find_first(self@, named(name@)),
            match r {
                Some(i) => i < self@.len() && self@[i as int].name == name@,
                None => forall|j: int| 0 <= j < self@.len() ==> (#[trigger] self@[j]).name != name@,
            },
    {
        let target = String::from_str(name);
        let mut i: usize = 0;
        while i < self.0.len()
            invariant
                i <= self.0@.len(),
                target@ == name@,
                forall|j: int| 0 <= j < i ==> (#[trigger] self@[j]).name != name@,
            decreases self.0@.len() - i,
        {
            if self.0[i].name == target {
                proof {
                    lemma_find_first(self@, named(name@));
                }
                return Some(i);
            }
            i = i + 1;
        }
        proof {
            lemma_find_first(self@, named(name@));
        }
        None
    }

    /// Position of the first waypoint in the group `group`.
    pub fn get_group_index(&self, group: &str) -> (r: Option<usize>)
        ensures
            opt_int(r) == find_first(self@, grouped(Some(group@))),
            match r {
                Some(i) => i < self@.len() && self@[i as int].group == Some(group@),
                None => forall|j: int|
                    0 <= j < self@.len() ==> (#[trigger] self@[j]).group != Some(group@),
            },
    {
        let target = Some(String::from_str(group));
        let mut i: usize = 0;
        while i < self.0.len()
            invariant
                i <= self.0@.len(),
                opt_view(target) == Some(group@),
                forall|j: int| 0 <= j < i ==> (#[trigger] self@[j]).group != Some(group@),
            decreases self.0@.len() - i,
        {
            if same_group(&self.0[i].group, &target) {
                proof {
                    lemma_find_first(self@, grouped(Some(group@)));
                }
                return Some(i);
            }
            i = i + 1;
        }
        proof {
            lemma_find_first(self@, grouped(Some(group@)));
        }
        None
    }

    /// The first waypoint named `name`.
    pub fn get_entry(&self, name: &str) -> (r: Option<&Waypoint>)
        ensures
            match find_first(self@, named(name@)) {
                Some(i) => r is Some && r->0@ == self@[i],
                None => r is None,
            },
    {
        match self.get_index(name) {
            Some(i) => Some(&self.0[i]),
            None => None,
        }
    }

    /// The first waypoint in the group `group`: whether the group has any member.
    pub fn get_group(&self, group: &str) -> (r: Option<&Waypoint>)
        ensures
            match find_first(self@, grouped(Some(group@))) {
                Some(i) => r is Some && r->0@ == self@[i],
                None => r is None,
            },
    {
        match self.get_group_index(group) {
            Some(i) => Some(&self.0[i]),
            None => None,
        }
    }

    /// The path of the first waypoint named `name`.
    pub fn resolve(&self, name: &str) -> (r: Option<String>)
        ensures
            match find_first(self@, named(name@)) {
                Some(i) => r is Some && r->0@ == self@[i].path,
                None => r is None,
            },
    {
        match self.get_entry(name) {
            Some(w) => Some(w.path.clone()),
            None => None,
        }
    }

    /// The waypoints whose group is `group` (`None`: the ungrouped ones), in
    /// list order; `None` when there are none.
    pub fn filter_group(&self, group: Option<&str>) -> (r: Option<List>)
        ensures
            self@.filter(grouped(opt_str_view(group))).len() == 0 ==> r is None,
            self@.filter(grouped(opt_str_view(group))).len() > 0 ==> r is Some && r->0@
                == self@.filter(grouped(opt_str_view(group))),
    {
        let ghost p = grouped(opt_str_view(group));
        let target = match group {
            Some(g) => Some(String::from_str(g)),
            None => None,
        };
        let mut out: Vec<Waypoint> = Vec::new();
        let mut i: usize = 0;
        proof {
            reveal(Seq::filter);
            assert(views(out@) =~= self@.subrange(0, 0).filter(p));
        }
        while i < self.0.len()
            invariant
                i <= self.0@.len(),
                opt_view(target) == opt_str_view(group),
                p == grouped(opt_str_view(group)),
                views(out@) == self@.subrange(0, i as int).filter(p),
            decreases self.0@.len() - i,
        {
            proof {
                reveal(Seq::filter);
                assert(self@.subrange(0, i + 1).drop_last() =~= self@.subrange(0, i as int));
                assert(self@.subrange(0, i + 1).last() == self.0@[i as int]@);
                assert(self@.subrange(0, i + 1).filter(p) == if p(self.0@[i as int]@) {
                    self@.subrange(0, i as int).filter(p).push(self.0@[i as int]@)
                } else {
                    self@.subrange(0, i as int).filter(p)
                });
            }
            let hit = same_group(&self.0[i].group, &target);
            assert(hit == p(self.0@[i as int]@));
            if hit {
                let w = self.0[i].duplicate();
                proof {
                    assert(views(out@.push(w)) =~= views(out@).push(w@));
                }
                out.push(w);
            }
            assert(views(out@) =~= self@.subrange(0, i + 1).filter(p));
            i = i + 1;
        }
        assert(self@.subrange(0, self@.len() as int) =~= self@);
        if out.len() > 0 {
            Some(List(out))
        } else {
            None
        }
    }

    /// The waypoints in the group `group`, if it has any.
    pub fn load_group(&self, group: &str) -> (r: Option<List>)
        ensures
            self@.filter(grouped(Some(group@))).len() == 0 ==> r is None,
            self@.filter(grouped(Some(group@))).len() > 0 ==> r is Some && r->0@ == self@.filter(
                grouped(Some(group@)),
            ),
    {
        self.filter_group(Some(group))
    }

    /// The waypoints without a group, if there are any.
    pub fn load_groupless(&self) -> (r: Option<List>)
        ensures
            self@.filter(grouped(None)).len() == 0 ==> r is None,
            self@.filter(grouped(None)).len() > 0 ==> r is Some && r->0@ == self@.filter(
                grouped(None),
            ),
    {
        self.filter_group(None)
    }

    /// Appends a waypoint named `name` for the directory `path`, unless the
    /// name is taken: then the list is left as it is and the error carries
    /// the existing waypoint's path.
    pub fn add(&mut self, name: &str, group: Option<&str>, path: &str) -> (r: Result<(), ListError>)
        ensures
            match find_first(old(self)@, named(name@)) {
                Some(i) => *final(self) == *old(self) && r is Err && r->Err_0 is AlreadyAssigned
                    && r->Err_0->AlreadyAssigned_0@ == old(self)@[i].path,
                None => r is Ok && final(self)@ == old(self)@.push(
                    WaypointView { name: name@, path: path@, group: opt_str_view(group) },
                ),
            },
    {
        match self.get_index(name) {
            Some(i) => Err(ListError::AlreadyAssigned(self.0[i].path.clone())),
            None => {
                let w = Waypoint::new(name, group, path);
                let ghost before = self.0@;
                self.0.push(w);
                assert(views(self.0@) =~= views(before).push(w@));
                Ok(())
            },
        }
    }

    /// Removes every waypoint whose name is one of `names`, all of them
    /// where a name occurs more than once; returns the removed names in
    /// list order. A name that matches nothing is passed over.
    pub fn remove_entries(&mut self, names: Vec<&str>) -> (removed: Vec<String>)
        ensures
            final(self)@ == old(self)@.filter(name_unlisted(strs_view(names@))),
            strings_view(removed@) == names_of(old(self)@.filter(name_listed(strs_view(names@)))),
    {
        let ns = to_strings(&names);
        let (kept, taken) = split_by(&self.0, &ns, false);
        let removed = crate::list::names(&taken);
        self.0 = kept;
        removed
    }

    /// Removes every member of each group of `groups`. The report holds,
    /// for each group in order, the names removed or `UnknownGroup` when
    /// the group had no member left.
    pub fn remove_group(&mut self, groups: Vec<&str>) -> (r: Vec<Result<Vec<String>, ListError>>)
        ensures
            final(self)@ == old(self)@.filter(group_unlisted(strs_view(groups@))),
            r@.len() == groups@.len(),
            forall|k: int|
                0 <= k < r@.len() ==> removal_report(
                    #[trigger] r@[k],
                    old(self)@,
                    strs_view(groups@),
                    k,
                ),
    {
        let gs = to_strings(&groups);
        assert(gs@.len() == strings_view(gs@).len());
        let mut r: Vec<Result<Vec<String>, ListError>> = Vec::new();
        let mut k: usize = 0;
        while k < gs.len()
            invariant
                k <= gs@.len(),
                strings_view(gs@) == strs_view(groups@),
                r@.len() == k,
                forall|j: int| 0 <= j < k ==> removal_report(#[trigger] r@[j], self@, strs_view(groups@), j),
            decreases gs@.len() - k,
        {
            let m = members_of(&self.0, &gs, k);
            if m.len() == 0 {
                r.push(Err(ListError::UnknownGroup));
            } else {
                r.push(Ok(m));
            }
            k = k + 1;
        }
        let (kept, _) = split_by(&self.0, &gs, true);
        self.0 = kept;
        r
    }

    /// Clears the group label of every member of each group of `groups`;
    /// the entries stay where they are. The report holds, for each group in
    /// order, the names ungrouped. A group without members is no error here,
    /// unlike in `remove_group`: its report is simply empty.
    pub fn dissolve_groups(&mut self, groups: Vec<&str>) -> (r: Vec<Vec<String>>)
        ensures
            final(self)@ == dissolved(old(self)@, strs_view(groups@)),
            r@.len() == groups@.len(),
            forall|k: int|
                0 <= k < r@.len() ==> strings_view((#[trigger] r@[k])@) == group_members(
                    old(self)@,
                    strs_view(groups@),
                    k,
                ),
    {
        let gs = to_strings(&groups);
        assert(gs@.len() == strings_view(gs@).len());
        let ghost o = self@;
        let mut r: Vec<Vec<String>> = Vec::new();
        let mut k: usize = 0;
        while k < gs.len()
            invariant
                k <= gs@.len(),
                strings_view(gs@) == strs_view(groups@),
                o == self@,
                r@.len() == k,
                forall|j: int|
                    0 <= j < k ==> strings_view((#[trigger] r@[j])@) == group_members(
                        o,
                        strs_view(groups@),
                        j,
                    ),
            decreases gs@.len() - k,
        {
            let m = members_of(&self.0, &gs, k);
            r.push(m);
            k = k + 1;
        }
        let mut i: usize = 0;
        assert(self@ =~= dissolved(o, strs_view(groups@)).subrange(0, 0) + o.subrange(0, o.len() as int));
        while i < self.0.len()
            invariant
                i <= self.0@.len(),
                self.0@.len() == o.len(),
                strings_view(gs@) == strs_view(groups@),
                self@ == dissolved(o, strs_view(groups@)).subrange(0, i as int) + o.subrange(
                    i as int,
                    o.len() as int,
                ),
            decreases o.len() - i,
        {
            let ghost d = dissolved(o, strs_view(groups@));
            assert(self@[i as int] == o[i as int]);
            assert(self.0@[i as int]@ == o[i as int]);
            let hit = group_in(&gs, &self.0[i].group);
            assert(d[i as int] == if hit {
                o[i as int].with_group(None)
            } else {
                o[i as int]
            });
            if hit {
                let w = self.0[i].ungroup();
                let ghost before = self.0@;
                self.0.set(i, w);
                assert(views(self.0@) =~= views(before).update(i as int, w@));
            }
            assert(self@ =~= d.subrange(0, i + 1) + o.subrange(i + 1, o.len() as int));
            i = i + 1;
        }
        assert(self@ =~= dissolved(o, strs_view(groups@)));
        r
    }

    /// Gives the first waypoint named `name` the name `new_name`; `NotFound`
    /// leaves the list as it is. The new name may already be taken: lookups
    /// then find whichever of the two comes first.
    pub fn rename_entry(&mut self, name: &str, new_name: &str) -> (r: Result<(), ListError>)
        ensures
            match find_first(old(self)@, named(name@)) {
                Some(i) => r is Ok && final(self)@ == old(self)@.update(
                    i,
                    old(self)@[i].with_name(new_name@),
                ),
                None => r == Err::<(), ListError>(ListError::NotFound) && *final(self) == *old(self),
            },
    {
        let ghost o = self@;
        match self.get_index(name) {
            Some(i) => {
                let w = self.0[i].rename(new_name);
                self.0.set(i, w);
                assert(self@ =~= o.update(i as int, o[i as int].with_name(new_name@)));
                Ok(())
            },
            None => Err(ListError::NotFound),
        }
    }

    /// Points the first waypoint named `name` at `path`, returning its old
    /// path; `NotFound` leaves the list as it is.
    pub fn repath_entry(&mut self, name: &str, path: &str) -> (r: Result<String, ListError>)
        ensures
            match find_first(old(self)@, named(name@)) {
                Some(i) => r is Ok && r->Ok_0@ == old(self)@[i].path && final(self)@ == old(
                    self,
                )@.update(i, old(self)@[i].with_path(path@)),
                None => r == Err::<String, ListError>(ListError::NotFound) && *final(self) == *old(
                    self,
                ),
            },
    {
        let ghost o = self@;
        match self.get_index(name) {
            Some(i) => {
                let old_path = self.0[i].path.clone();
                let w = self.0[i].repath(path);
                self.0.set(i, w);
                assert(self@ =~= o.update(i as int, o[i as int].with_path(path@)));
                Ok(old_path)
            },
            None => Err(ListError::NotFound),
        }
    }

    /// Puts the first waypoint named `name` in the group `group`, returning
    /// the group it had before, if any; `NotFound` leaves the list as it is.
    pub fn regroup_entry(&mut self, name: &str, group: &str) -> (r: Result<Option<String>, ListError>)
        ensures
            match find_first(old(self)@, named(name@)) {
                Some(i) => r is Ok && opt_view(r->Ok_0) == old(self)@[i].group && final(self)@ == old(
                    self,
                )@.update(i, old(self)@[i].with_group(Some(group@))),
                None => r == Err::<Option<String>, ListError>(ListError::NotFound) && *final(self)
                    == *old(self),
            },
    {
        let ghost o = self@;
        match self.get_index(name) {
            Some(i) => {
                let before = copy_opt(&self.0[i].group);
                let w = self.0[i].regroup(group);
                self.0.set(i, w);
                assert(self@ =~= o.update(i as int, o[i as int].with_group(Some(group@))));
                Ok(before)
            },
            None => Err(ListError::NotFound),
        }
    }

    /// Takes the first waypoint named `name` out of its group, returning
    /// that group. `NotFound`, and `NoGroup` for a waypoint without one,
    /// leave the list as it is.
    pub fn ungroup_entry(&mut self, name: &str) -> (r: Result<String, ListError>)
        ensures
            match find_first(old(self)@, named(name@)) {
                Some(i) => match old(self)@[i].group {
                    Some(g) => r is Ok && r->Ok_0@ == g && final(self)@ == old(self)@.update(
                        i,
                        old(self)@[i].with_group(None),
                    ),
                    None => r == Err::<String, ListError>(ListError::NoGroup) && *final(self)
                        == *old(self),
                },
                None => r == Err::<String, ListError>(ListError::NotFound) && *final(self) == *old(
                    self,
                ),
            },
    {
        let ghost o = self@;
        match self.get_index(name) {
            Some(i) => {
                match &self.0[i].group {
                    Some(g) => {
                        let before = g.clone();
                        let w = self.0[i].ungroup();
                        self.0.set(i, w);
                        assert(self@ =~= o.update(i as int, o[i as int].with_group(None)));
                        Ok(before)
                    },
                    None => Err(ListError::NoGroup),
                }
            },
            None => Err(ListError::NotFound),
        }
    }
}

} // verus!
