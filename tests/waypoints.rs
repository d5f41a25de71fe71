use tele::{dissolve, edit, parse_name, reload_list, rm, str_le};
use tele::{Config, EditMatches, Edited, List, ListError, SortKey, Waypoint};

fn wp(name: &str, path: &str, group: Option<&str>) -> Waypoint {
    Waypoint::new(name, group, path)
}

fn names(l: &List) -> Vec<String> {
    l.0.iter().map(|w| w.name.clone()).collect()
}

fn triples(l: &List) -> Vec<(String, String, Option<String>)> {
    l.0.iter().map(|w| (w.name.clone(), w.path.clone(), w.group.clone())).collect()
}

fn sample() -> List {
    List(vec![
        wp("a", "/a", Some("g1")),
        wp("b", "/b", Some("g2")),
        wp("c", "/c", None),
        wp("d", "/d", Some("g1")),
    ])
}

fn sorting_by(value: &str) -> Config {
    let mut c = Config::new();
    c.set("default-sort".to_string(), value.to_string());
    c
}

#[test]
fn waypoint_new_keeps_fields() {
    let w = Waypoint::new("proj", Some("work"), "/home/u/proj");
    assert_eq!(w.name, "proj");
    assert_eq!(w.path, "/home/u/proj");
    assert_eq!(w.group.as_deref(), Some("work"));
    let u = Waypoint::new("x", None, "/x");
    assert_eq!(u.group, None);
}

#[test]
fn waypoint_edits_change_one_field() {
    let w = wp("a", "/a", Some("g"));
    let r = w.rename("b");
    assert_eq!((r.name.as_str(), r.path.as_str(), r.group.as_deref()), ("b", "/a", Some("g")));
    let p = w.repath("/z");
    assert_eq!((p.name.as_str(), p.path.as_str(), p.group.as_deref()), ("a", "/z", Some("g")));
    let g = w.regroup("h");
    assert_eq!((g.name.as_str(), g.path.as_str(), g.group.as_deref()), ("a", "/a", Some("h")));
    let u = w.ungroup();
    assert_eq!((u.name.as_str(), u.path.as_str(), u.group.as_deref()), ("a", "/a", None));
    let d = w.duplicate();
    assert_eq!((d.name.as_str(), d.path.as_str(), d.group.as_deref()), ("a", "/a", Some("g")));
}

#[test]
fn lookups_find_the_first_match() {
    let mut l = sample();
    l.0.push(wp("a", "/second", None));
    assert_eq!(l.get_index("a"), Some(0));
    assert_eq!(l.get_index("d"), Some(3));
    assert_eq!(l.get_index("zz"), None);
    assert_eq!(l.get_entry("a").unwrap().path, "/a");
    assert!(l.get_entry("zz").is_none());
    assert_eq!(l.get_group("g1").unwrap().name, "a");
    assert_eq!(l.get_group_index("g2"), Some(1));
    assert!(l.get_group("nope").is_none());
    assert_eq!(l.resolve("c").as_deref(), Some("/c"));
    assert_eq!(l.resolve("zz"), None);
}

#[test]
fn filter_by_group_or_ungrouped() {
    let l = sample();
    let g1 = l.filter_group(Some("g1")).unwrap();
    assert_eq!(names(&g1), vec!["a", "d"]);
    let none = l.filter_group(None).unwrap();
    assert_eq!(names(&none), vec!["c"]);
    assert!(l.filter_group(Some("empty")).is_none());
    assert_eq!(names(&l.load_group("g2").unwrap()), vec!["b"]);
    assert_eq!(names(&l.load_groupless().unwrap()), vec!["c"]);
    let all_grouped = List(vec![wp("a", "/a", Some("g"))]);
    assert!(all_grouped.load_groupless().is_none());
    assert!(List::new().load_group("g").is_none());
}

#[test]
fn add_then_resolve_and_refuse_second_add() {
    let mut l = List::new();
    assert!(l.add("x", None, "/p").is_ok());
    assert_eq!(l.resolve("x").as_deref(), Some("/p"));
    let before = triples(&l);
    match l.add("x", Some("g"), "/other") {
        Err(ListError::AlreadyAssigned(p)) => assert_eq!(p, "/p"),
        other => panic!("unexpected {:?}", other),
    }
    assert_eq!(triples(&l), before);
}

#[test]
fn add_from_empty_store_keeps_captured_directory() {
    let mut l = List::new();
    let cwd = String::from("/home/u/proj");
    l.add("proj", None, &cwd).unwrap();
    let later_cwd = String::from("/somewhere/else");
    assert_ne!(later_cwd, cwd);
    assert_eq!(l.resolve("proj").as_deref(), Some("/home/u/proj"));
    assert_eq!(l.0.len(), 1);
    assert_eq!(l.0[0].group, None);
}

#[test]
fn remove_entries_removes_all_duplicates() {
    let mut l = List(vec![
        wp("x", "/1", Some("g1")),
        wp("y", "/2", None),
        wp("x", "/3", Some("g2")),
    ]);
    let removed = l.remove_entries(vec!["x", "missing"]);
    assert_eq!(removed, vec!["x", "x"]);
    assert_eq!(names(&l), vec!["y"]);
}

#[test]
fn remove_group_reports_each_group() {
    let mut l = sample();
    let r = l.remove_group(vec!["g1", "nope", "g1"]);
    assert_eq!(r.len(), 3);
    assert_eq!(r[0].as_ref().unwrap(), &vec!["a".to_string(), "d".to_string()]);
    assert!(matches!(r[1], Err(ListError::UnknownGroup)));
    assert!(matches!(r[2], Err(ListError::UnknownGroup)));
    assert_eq!(names(&l), vec!["b", "c"]);
}

#[test]
fn dissolve_keeps_entries_and_clears_group() {
    let mut l = sample();
    let r = l.dissolve_groups(vec!["g1", "nope"]);
    assert_eq!(r, vec![vec!["a".to_string(), "d".to_string()], vec![]]);
    assert_eq!(l.0.len(), 4);
    assert_eq!(
        triples(&l),
        vec![
            ("a".to_string(), "/a".to_string(), None),
            ("b".to_string(), "/b".to_string(), Some("g2".to_string())),
            ("c".to_string(), "/c".to_string(), None),
            ("d".to_string(), "/d".to_string(), None),
        ]
    );
}

#[test]
fn rename_missing_leaves_list_unchanged() {
    let mut l = sample();
    let before = triples(&l);
    assert!(matches!(l.rename_entry("missing", "y"), Err(ListError::NotFound)));
    assert_eq!(triples(&l), before);
}

#[test]
fn edits_act_on_first_match_in_place() {
    let mut l = sample();
    l.0.push(wp("a", "/a2", Some("g9")));
    l.rename_entry("a", "z").unwrap();
    assert_eq!(names(&l), vec!["z", "b", "c", "d", "a"]);
    assert_eq!(l.repath_entry("b", "/nb").unwrap(), "/b");
    assert_eq!(l.0[1].path, "/nb");
    assert_eq!(l.regroup_entry("c", "g3").unwrap(), None);
    assert_eq!(l.regroup_entry("c", "g4").unwrap().as_deref(), Some("g3"));
    assert_eq!(l.0[2].group.as_deref(), Some("g4"));
    assert_eq!(l.ungroup_entry("d").unwrap(), "g1");
    assert_eq!(l.0[3].group, None);
    let before = triples(&l);
    assert!(matches!(l.ungroup_entry("d"), Err(ListError::NoGroup)));
    assert!(matches!(l.repath_entry("zz", "/"), Err(ListError::NotFound)));
    assert!(matches!(l.regroup_entry("zz", "g"), Err(ListError::NotFound)));
    assert!(matches!(l.ungroup_entry("zz"), Err(ListError::NotFound)));
    assert_eq!(triples(&l), before);
}

#[test]
fn sort_by_name_groups_first() {
    let l = List(vec![
        wp("b", "/b", Some("g2")),
        wp("a", "/a", Some("g1")),
        wp("c", "/c", None),
    ]);
    let s = l.sort(&sorting_by("name"));
    assert_eq!(names(&s), vec!["c", "a", "b"]);
}

#[test]
fn sort_by_name_within_group() {
    let l = List(vec![
        wp("zeta", "/1", Some("g")),
        wp("beta", "/2", None),
        wp("alpha", "/3", Some("g")),
        wp("alpha", "/0", None),
    ]);
    let s = l.sort(&sorting_by("name"));
    assert_eq!(names(&s), vec!["alpha", "beta", "alpha", "zeta"]);
}

#[test]
fn sort_by_path() {
    let l = List(vec![
        wp("a", "/z", Some("g")),
        wp("b", "/y", Some("g")),
        wp("c", "/x", None),
    ]);
    let s = l.sort(&sorting_by("path"));
    assert_eq!(names(&s), vec!["c", "b", "a"]);
}

#[test]
fn no_sort_preference_keeps_insertion_order() {
    let l = List(vec![wp("b", "/b", Some("g2")), wp("a", "/a", None)]);
    assert_eq!(names(&l.clone().sort(&Config::new())), vec!["b", "a"]);
    assert_eq!(names(&l.sort(&sorting_by("size"))), vec!["b", "a"]);
}

#[test]
fn sort_keeps_the_same_entries() {
    let l = sample();
    let mut before = triples(&l);
    let mut after = triples(&l.sort(&sorting_by("name")));
    before.sort();
    after.sort();
    assert_eq!(before, after);
}

#[test]
fn sort_key_from_config() {
    assert_eq!(SortKey::from_config(&sorting_by("name")), Some(SortKey::Name));
    assert_eq!(SortKey::from_config(&sorting_by("path")), Some(SortKey::Path));
    assert_eq!(SortKey::from_config(&sorting_by("other")), None);
    assert_eq!(SortKey::from_config(&Config::new()), None);
}

#[test]
fn string_order_matches_std() {
    let cases = ["", "a", "b", "ab", "abc", "B", "é", "z", "aa", "ä"];
    for x in cases.iter() {
        for y in cases.iter() {
            assert_eq!(str_le(x, y), x <= y, "{} {}", x, y);
        }
    }
    assert!(str_le("abc", "abd"));
    assert!(!str_le("abd", "abc"));
    assert!(str_le("ab", "abc"));
    assert!(!str_le("abc", "ab"));
}

#[test]
fn config_set_and_check() {
    let mut c = Config::new();
    assert_eq!(c.check("default-view"), None);
    c.set("default-view".to_string(), "all".to_string());
    c.set("default-sort".to_string(), "name".to_string());
    c.set("default-view".to_string(), "ungrouped".to_string());
    assert_eq!(c.check("default-view").as_deref(), Some("ungrouped"));
    assert_eq!(c.check("default-sort").as_deref(), Some("name"));
    assert_eq!(
        c.pairs(),
        vec![
            ("default-view".to_string(), "ungrouped".to_string()),
            ("default-sort".to_string(), "name".to_string()),
        ]
    );
}

#[test]
fn edit_dispatches_each_kind() {
    let mut l = sample();
    assert!(matches!(edit(&mut l, "a", EditMatches::Name("n".to_string()), "/cwd"), Ok(Edited::Renamed)));
    assert_eq!(l.0[0].name, "n");
    match edit(&mut l, "b", EditMatches::Path(None), "/cwd") {
        Ok(Edited::Repathed(p)) => assert_eq!(p, "/b"),
        other => panic!("unexpected {:?}", other),
    }
    assert_eq!(l.0[1].path, "/cwd");
    match edit(&mut l, "b", EditMatches::Path(Some("/given".to_string())), "/cwd") {
        Ok(Edited::Repathed(p)) => assert_eq!(p, "/cwd"),
        other => panic!("unexpected {:?}", other),
    }
    assert_eq!(l.0[1].path, "/given");
    match edit(&mut l, "c", EditMatches::Group("g5".to_string()), "/cwd") {
        Ok(Edited::Regrouped(g)) => assert_eq!(g, None),
        other => panic!("unexpected {:?}", other),
    }
    match edit(&mut l, "c", EditMatches::Ungroup, "/cwd") {
        Ok(Edited::Ungrouped(g)) => assert_eq!(g, "g5"),
        other => panic!("unexpected {:?}", other),
    }
    assert!(matches!(edit(&mut l, "c", EditMatches::Ungroup, "/cwd"), Err(ListError::NoGroup)));
    assert!(matches!(edit(&mut l, "q", EditMatches::Ungroup, "/cwd"), Err(ListError::NotFound)));
}

#[test]
fn rm_names_then_groups() {
    let mut l = sample();
    let (removed, groups) = rm(&mut l, Some(vec!["a", "c"]), Some(vec!["g1", "g7"]));
    assert_eq!(removed, vec!["a", "c"]);
    assert_eq!(groups.len(), 2);
    assert_eq!(groups[0].as_ref().unwrap(), &vec!["d".to_string()]);
    assert!(matches!(groups[1], Err(ListError::UnknownGroup)));
    assert_eq!(names(&l), vec!["b"]);
    let (none, no_groups) = rm(&mut l, None, None);
    assert!(none.is_empty() && no_groups.is_empty());
    assert_eq!(names(&l), vec!["b"]);
}

#[test]
fn dissolve_command() {
    let mut l = sample();
    let r = dissolve(&mut l, vec!["g2"]);
    assert_eq!(r, vec![vec!["b".to_string()]]);
    assert_eq!(l.0[1].group, None);
}

#[test]
fn reload_sorts_under_preference() {
    let l = List(vec![wp("b", "/b", None), wp("a", "/a", None)]);
    assert_eq!(names(&reload_list(l.clone(), &sorting_by("name"))), vec!["a", "b"]);
    assert_eq!(names(&reload_list(l, &Config::new())), vec!["b", "a"]);
}

#[test]
fn parse_name_falls_back_to_directory_name() {
    assert_eq!(parse_name(Some("given"), "dir"), "given");
    assert_eq!(parse_name(None, "dir"), "dir");
}
