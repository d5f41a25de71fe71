//! A waypoint: a named directory, optionally tagged with a group.

use vstd::prelude::*;
use vstd::string::*;

verus! {

/// What a waypoint holds, as mathematical values.
pub struct WaypointView {
    pub name: Seq<char>,
    pub path: Seq<char>,
    pub group: Option<Seq<char>>,
}

impl WaypointView {
    pub open spec fn with_name(self, name: Seq<char>) -> WaypointView {
        WaypointView { name: name, path: self.path, group: self.group }
    }

    pub open spec fn with_path(self, path: Seq<char>) -> WaypointView {
        WaypointView { name: self.name, path: path, group: self.group }
    }

    pub open spec fn with_group(self, group: Option<Seq<char>>) -> WaypointView {
        WaypointView { name: self.name, path: self.path, group: group }
    }

    /// The waypoint carries the group label `g`.
    pub open spec fn in_group(self, g: Seq<char>) -> bool {
        self.group == Some(g)
    }
}

/// The view of an optional owned string.
pub open spec fn opt_view(o: Option<String>) -> Option<Seq<char>> {
    match o {
        Some(s) => Some(s@),
        None => None,
    }
}

/// The view of an optional borrowed string.
pub open spec fn opt_str_view(o: Option<&str>) -> Option<Seq<char>> {
    match o {
        Some(s) => Some(s@),
        None => None,
    }
}

/// A named bookmark to a directory.
#[derive(Clone, Debug)]
pub struct Waypoint {
    pub name: String,
    pub path: String,
    pub group: Option<String>,
}

impl View for Waypoint {
    type V = WaypointView;

    open spec fn view(&self) -> WaypointView {
        WaypointView { name: self.name@, path: self.path@, group: opt_view(self.group) }
    }
}

/// An owned copy of an optional string.
pub fn copy_opt(o: &Option<String>) -> (r: Option<String>)
    ensures
        opt_view(r) == opt_view(*o),
{
    match o {
        Some(s) => Some(s.clone()),
        None => None,
    }
}

impl Waypoint {
    /// A waypoint named `name` for the directory `path`.
    pub fn new(name: &str, group: Option<&str>, path: &str) -> (w: Waypoint)
        ensures
            w@ == (WaypointView { name: name@, path: path@, group: opt_str_view(group) }),
    {
        let g = match group {
            Some(g) => Some(String::from_str(g)),
            None => None,
        };
        Waypoint { name: String::from_str(name), path: String::from_str(path), group: g }
    }

    /// The same waypoint under the name `name`.
    pub fn rename(&self, name: &str) -> (w: Waypoint)
        ensures
            w@ == self@.with_name(name@),
    {
        Waypoint { name: String::from_str(name), path: self.path.clone(), group: copy_opt(&self.group) }
    }

    /// The same waypoint pointing at `path`.
    pub fn repath(&self, path: &str) -> (w: Waypoint)
        ensures
            w@ == self@.with_path(path@),
    {
        Waypoint { name: self.name.clone(), path: String::from_str(path), group: copy_opt(&self.group) }
    }

    /// The same waypoint in the group `group`.
    pub fn regroup(&self, group: &str) -> (w: Waypoint)
        ensures
            w@ == self@.with_group(Some(group@)),
    {
        Waypoint {
            name: self.name.clone(),
            path: self.path.clone(),
            group: Some(String::from_str(group)),
        }
    }

    /// The same waypoint with no group.
    pub fn ungroup(&self) -> (w: Waypoint)
        ensures
            w@ == self@.with_group(None),
    {
        Waypoint { name: self.name.clone(), path: self.path.clone(), group: None }
    }

    /// An equal copy of this waypoint.
    pub fn duplicate(&self) -> (w: Waypoint)
        ensures
            w@ == self@,
    {
        Waypoint { name: self.name.clone(), path: self.path.clone(), group: copy_opt(&self.group) }
    }
}

} // verus!
