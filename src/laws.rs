//! Laws that relate the list operations.

use vstd::prelude::*;
use crate::list::{dissolved, find_first, listed_group, name_unlisted, named};
use crate::sort::{arranged, sorted_by, stable, wp_le, SortKey};
use crate::waypoint::WaypointView;

verus! {

broadcast use vstd::seq_lib::group_filter_ensures;

/// After a waypoint named `name` with path `path` is added to a list that
/// has no such name, looking the name up finds the new entry and its path;
/// the name is then taken, so a second add of it is refused.
pub proof fn lemma_add_then_resolve(s: Seq<WaypointView>, name: Seq<char>, group: Option<Seq<char>>, path: Seq<char>)
    requires
        find_first(s, named(name)) is None,
    ensures
        ({
            let t = s.push(WaypointView { name: name, path: path, group: group });
            find_first(t, named(name)) == Some(s.len() as int) && t[s.len() as int].path == path
        }),
{
    let t = s.push(WaypointView { name: name, path: path, group: group });
    assert(t.drop_last() =~= s);
}

/// Removing by names leaves no entry that bears one of the names, however
/// many entries bore it, and keeps every entry that bears none of them.
pub proof fn lemma_remove_all_named(s: Seq<WaypointView>, names: Seq<Seq<char>>)
    ensures
        forall|i: int|
            0 <= i < s.filter(name_unlisted(names)).len() ==> !names.contains(
                (#[trigger] s.filter(name_unlisted(names))[i]).name,
            ),
        forall|i: int|
            0 <= i < s.len() && !names.contains(s[i].name) ==> s.filter(
                name_unlisted(names),
            ).contains(#[trigger] s[i]),
{
    assert forall|i: int|
        0 <= i < s.filter(name_unlisted(names)).len() implies !names.contains(
        (#[trigger] s.filter(name_unlisted(names))[i]).name,
    ) by {
        s.lemma_filter_pred(name_unlisted(names), i);
    }
    assert forall|i: int| 0 <= i < s.len() && !names.contains(s[i].name) implies s.filter(
        name_unlisted(names),
    ).contains(#[trigger] s[i]) by {
        s.lemma_filter_contains(name_unlisted(names), i);
    }
}

/// Dissolving groups keeps every entry in its place: the members of the
/// groups lose their group and nothing else, the other entries stay as
/// they were.
pub proof fn lemma_dissolve_keeps_entries(s: Seq<WaypointView>, groups: Seq<Seq<char>>)
    ensures
        dissolved(s, groups).len() == s.len(),
        forall|i: int|
            0 <= i < s.len() && listed_group(groups, s[i].group) ==> (#[trigger] dissolved(
                s,
                groups,
            )[i]) == s[i].with_group(None),
        forall|i: int|
            0 <= i < s.len() && !listed_group(groups, s[i].group) ==> (#[trigger] dissolved(
                s,
                groups,
            )[i]) == s[i],
{
}

/// A strictly increasing sequence of `n` positions below `n` is `0, 1, ..`.
proof fn lemma_increasing_positions(idx: Seq<int>, n: int)
    requires
        idx.len() == n,
        forall|q: int| 0 <= q < n ==> 0 <= #[trigger] idx[q] < n,
        forall|a: int, b: int| 0 <= a < b < n ==> #[trigger] idx[a] < #[trigger] idx[b],
    ensures
        forall|q: int| 0 <= q < n ==> #[trigger] idx[q] == q,
{
    assert forall|q: int| 0 <= q < n implies #[trigger] idx[q] == q by {
        lemma_position_at_least(idx, n, q);
        lemma_position_at_most(idx, n, q);
    }
}

proof fn lemma_position_at_least(idx: Seq<int>, n: int, q: int)
    requires
        idx.len() == n,
        0 <= q < n,
        forall|q: int| 0 <= q < n ==> 0 <= #[trigger] idx[q] < n,
        forall|a: int, b: int| 0 <= a < b < n ==> #[trigger] idx[a] < #[trigger] idx[b],
    ensures
        idx[q] >= q,
    decreases q,
{
    if q > 0 {
        lemma_position_at_least(idx, n, q - 1);
        assert(idx[q - 1] < idx[q]);
    }
}

proof fn lemma_position_at_most(idx: Seq<int>, n: int, q: int)
    requires
        idx.len() == n,
        0 <= q < n,
        forall|q: int| 0 <= q < n ==> 0 <= #[trigger] idx[q] < n,
        forall|a: int, b: int| 0 <= a < b < n ==> #[trigger] idx[a] < #[trigger] idx[b],
    ensures
        idx[q] <= q,
    decreases n - q,
{
    if q < n - 1 {
        lemma_position_at_most(idx, n, q + 1);
        assert(idx[q] < idx[q + 1]);
    }
}

/// Storing a list that was stored before changes nothing: sorting a list
/// that is already sorted under `key` gives it back as it is.
pub proof fn lemma_sort_sorted_unchanged(s: Seq<WaypointView>, r: Seq<WaypointView>, key: SortKey)
    requires
        sorted_by(s, key),
        sorted_by(r, key),
        exists|idx: Seq<int>| arranged(s, r, idx) && stable(r, idx, key),
    ensures
        r == s,
{
    let idx = choose|idx: Seq<int>| arranged(s, r, idx) && stable(r, idx, key);
    let n = s.len() as int;
    assert forall|a: int, b: int| 0 <= a < b < n implies #[trigger] idx[a] < #[trigger] idx[b] by {
        assert(idx[a] != idx[b]);
        if idx[b] < idx[a] {
            assert(wp_le(s[idx[b]], s[idx[a]], key));
            assert(wp_le(r[b], r[a], key));
        }
    }
    lemma_increasing_positions(idx, n);
    assert forall|q: int| 0 <= q < n implies r[q] == s[q] by {
        assert(idx[q] == q);
        assert(r[q] == s[idx[q]]);
    }
    assert(r =~= s);
}

} // verus!
