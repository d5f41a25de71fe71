//! The operations a command line offers, on a list already loaded.

use vstd::prelude::*;
use vstd::string::*;
use crate::config::Config;
use crate::list::{
    dissolved, find_first, group_members, group_unlisted, name_listed, name_unlisted, named,
    names_of, removal_report, strings_view, strs_view, List, ListError,
};
use crate::sort::{arranged, sort_pref, sorted_by, stable};
use crate::waypoint::{opt_view, WaypointView};

verus! {

/// An edit of one waypoint.
#[derive(Clone, Debug)]
pub enum EditMatches {
    /// Give it a new name.
    Name(String),
    /// Point it at a path; `None`: the working directory.
    Path(Option<String>),
    /// Put it in a group.
    Group(String),
    /// Take it out of its group.
    Ungroup,
}

/// What an edit changed.
#[derive(Clone, Debug)]
pub enum Edited {
    Renamed,
    /// The old path.
    Repathed(String),
    /// The old group, if any.
    Regrouped(Option<String>),
    /// The old group.
    Ungrouped(String),
}

/// The waypoint `w` after the edit `kind`, with `cwd` the working directory.
pub open spec fn edited(w: WaypointView, kind: EditMatches, cwd: Seq<char>) -> WaypointView {
    match kind {
        EditMatches::Name(n) => w.with_name(n@),
        EditMatches::Path(Some(p)) => w.with_path(p@),
        EditMatches::Path(None) => w.with_path(cwd),
        EditMatches::Group(g) => w.with_group(Some(g@)),
        EditMatches::Ungroup => w.with_group(None),
    }
}

/// `e` reports the edit `kind` of the waypoint `w`.
pub open spec fn edit_report(e: Edited, w: WaypointView, kind: EditMatches) -> bool {
    match kind {
        EditMatches::Name(_) => e is Renamed,
        EditMatches::Path(_) => e is Repathed && e->Repathed_0@ == w.path,
        EditMatches::Group(_) => e is Regrouped && opt_view(e->Regrouped_0) == w.group,
        EditMatches::Ungroup => e is Ungrouped && Some(e->Ungrouped_0@) == w.group,
    }
}

/// Applies the edit `kind` to the first waypoint named `wp`. `NotFound`,
/// and `NoGroup` when ungrouping a waypoint without a group, leave the list
/// as it is.
pub fn edit(list: &mut List, wp: &str, kind: EditMatches, cwd: &str) -> (r: Result<Edited, ListError>)
    ensures
        match find_first(old(list)@, named(wp@)) {
            None => r == Err::<Edited, ListError>(ListError::NotFound) && *final(list) == *old(list),
            Some(i) => if kind is Ungroup && old(list)@[i].group is None {
                r == Err::<Edited, ListError>(ListError::NoGroup) && *final(list) == *old(list)
            } else {
                r is Ok && edit_report(r->Ok_0, old(list)@[i], kind) && final(list)@ == old(
                    list,
                )@.update(i, edited(old(list)@[i], kind, cwd@))
            },
        },
{
    match kind {
        EditMatches::Name(name) => match list.rename_entry(wp, name.as_str()) {
            Ok(()) => Ok(Edited::Renamed),
            Err(e) => Err(e),
        },
        EditMatches::Path(path) => {
            let r = match path {
                Some(p) => list.repath_entry(wp, p.as_str()),
                None => list.repath_entry(wp, cwd),
            };
            match r {
                Ok(p) => Ok(Edited::Repathed(p)),
                Err(e) => Err(e),
            }
        },
        EditMatches::Group(group) => match list.regroup_entry(wp, group.as_str()) {
            Ok(g) => Ok(Edited::Regrouped(g)),
            Err(e) => Err(e),
        },
        EditMatches::Ungroup => match list.ungroup_entry(wp) {
            Ok(g) => Ok(Edited::Ungrouped(g)),
            Err(e) => Err(e),
        },
    }
}

/// The list after removing the waypoints named in `names`, if given.
pub open spec fn without_names(s: Seq<WaypointView>, names: Option<Vec<&str>>) -> Seq<WaypointView> {
    match names {
        Some(ns) => s.filter(name_unlisted(strs_view(ns@))),
        None => s,
    }
}

/// The list after removing the members of the groups in `groups`, if given.
pub open spec fn without_groups(s: Seq<WaypointView>, groups: Option<Vec<&str>>) -> Seq<WaypointView> {
    match groups {
        Some(gs) => s.filter(group_unlisted(strs_view(gs@))),
        None => s,
    }
}

/// Removes the waypoints named in `names`, then the members of the groups
/// in `groups`. Returns the names removed by name, and for each group the
/// names removed or `UnknownGroup`.
pub fn rm(list: &mut List, names: Option<Vec<&str>>, groups: Option<Vec<&str>>) -> (r: (
    Vec<String>,
    Vec<Result<Vec<String>, ListError>>,
))
    ensures
        final(list)@ == without_groups(without_names(old(list)@, names), groups),
        strings_view(r.0@) == match names {
            Some(ns) => names_of(old(list)@.filter(name_listed(strs_view(ns@)))),
            None => Seq::<Seq<char>>::empty(),
        },
        match groups {
            Some(gs) => r.1@.len() == gs@.len() && forall|k: int|
                0 <= k < r.1@.len() ==> removal_report(
                    #[trigger] r.1@[k],
                    without_names(old(list)@, names),
                    strs_view(gs@),
                    k,
                ),
            None => r.1@.len() == 0,
        },
{
    let removed = match names {
        Some(ns) => list.remove_entries(ns),
        None => {
            let v: Vec<String> = Vec::new();
            assert(strings_view(v@) =~= Seq::<Seq<char>>::empty());
            v
        },
    };
    let reports = match groups {
        Some(gs) => list.remove_group(gs),
        None => Vec::new(),
    };
    (removed, reports)
}

/// Clears the group label of every member of each group of `groups`; for
/// each group the names ungrouped.
pub fn dissolve(list: &mut List, groups: Vec<&str>) -> (r: Vec<Vec<String>>)
    ensures
        final(list)@ == dissolved(old(list)@, strs_view(groups@)),
        r@.len() == groups@.len(),
        forall|k: int|
            0 <= k < r@.len() ==> strings_view((#[trigger] r@[k])@) == group_members(
                old(list)@,
                strs_view(groups@),
                k,
            ),
{
    list.dissolve_groups(groups)
}

/// The list as it is stored again under the current preferences.
pub fn reload_list(list: List, config: &Config) -> (r: List)
    ensures
        match sort_pref(config@) {
            Some(key) => r@.to_multiset() == list@.to_multiset() && sorted_by(r@, key) && exists|
                idx: Seq<int>,
            | arranged(list@, r@, idx) && stable(r@, idx, key),
            None => r == list,
        },
{
    list.sort(config)
}

/// The name given, or else `dir_name`, the working directory's own name.
pub fn parse_name(name: Option<&str>, dir_name: &str) -> (r: String)
    ensures
        r@ == match name {
            Some(n) => n@,
            None => dir_name@,
        },
{
    match name {
        Some(n) => String::from_str(n),
        None => String::from_str(dir_name),
    }
}

} // verus!
