//! Routes grouped by the list group they belong to, as the admin panel
//! shows them: one group per distinct group id (the routes of no group
//! form a group of their own), groups in the order in which they first
//! appear among the rows.

use vstd::prelude::*;
use indexmap::IndexMap;
use crate::models::{Route, RouteView};

verus! {

/// The routes of one group.
#[derive(Debug, Clone, PartialEq, Eq)]
pub struct GroupedRoutes {
    pub group_id: Option<i64>,
    pub group_name: Option<String>,
    pub routes: Vec<Route>,
}

/// One row of the routes joined with their groups: a route with at most one
/// group (a route in several groups gives several rows).
#[derive(Debug, Clone, PartialEq, Eq)]
pub struct GroupedRow {
    pub id: Option<i64>,
    pub value: String,
    pub route_type: String,
    pub group_id: Option<i64>,
    pub group_name: Option<String>,
}

/// An optional string as plain characters.
pub open spec fn opt_chars(o: Option<String>) -> Option<Seq<char>> {
    match o {
        Some(s) => Some(s@),
        None => None,
    }
}

/// The route a row describes; a row without a route id gets id 0.
pub open spec fn row_route(r: GroupedRow) -> RouteView {
    RouteView {
        id: match r.id {
            Some(i) => i,
            None => 0,
        },
        value: r.value@,
        route_type: r.route_type@,
    }
}

/// The routes of the rows of group `id`, in row order.
pub open spec fn routes_of_group(rows: Seq<GroupedRow>, id: Option<i64>) -> Seq<RouteView>
    decreases rows.len(),
{
    if rows.len() == 0 {
        Seq::empty()
    } else if rows.last().group_id == id {
        routes_of_group(rows.drop_last(), id).push(row_route(rows.last()))
    } else {
        routes_of_group(rows.drop_last(), id)
    }
}

/// Row `i` is the first row of group `id`.
pub open spec fn is_first_row(rows: Seq<GroupedRow>, id: Option<i64>, i: int) -> bool {
    &&& 0 <= i < rows.len()
    &&& rows[i].group_id == id
    &&& forall|j: int| 0 <= j < i ==> rows[j].group_id != id
}

/// Group `g` has a first row among `rows`, and bears that row's group name.
pub open spec fn named_after_first_row(rows: Seq<GroupedRow>, g: GroupedRoutes) -> bool {
    exists|i: int|
        #[trigger] is_first_row(rows, g.group_id, i) && opt_chars(g.group_name) == opt_chars(
            rows[i].group_name,
        )
}

/// The routes of a group as plain values.
pub open spec fn group_routes(g: GroupedRoutes) -> Seq<RouteView> {
    g.routes@.map_values(|r: Route| r@)
}

/// No two groups share a group id.
#[verifier::opaque]
pub open spec fn distinct_group_ids(groups: Seq<GroupedRoutes>) -> bool {
    forall|a: int, b: int|
        0 <= a < b < groups.len() ==> #[trigger] groups[a].group_id != #[trigger] groups[b].group_id
}

/// Every row's group id is the id of some group.
#[verifier::opaque]
pub open spec fn covers_rows(groups: Seq<GroupedRoutes>, rows: Seq<GroupedRow>) -> bool {
    forall|i: int|
        0 <= i < rows.len() ==> exists|k: int|
            0 <= k < groups.len() && #[trigger] groups[k].group_id == #[trigger] rows[i].group_id
}

/// Every group has a first row, whose group name it bears.
#[verifier::opaque]
pub open spec fn named_after_first_rows(groups: Seq<GroupedRoutes>, rows: Seq<GroupedRow>) -> bool {
    forall|k: int| 0 <= k < groups.len() ==> named_after_first_row(rows, #[trigger] groups[k])
}

/// Every group holds the routes of its rows, in row order.
#[verifier::opaque]
pub open spec fn holds_group_routes(groups: Seq<GroupedRoutes>, rows: Seq<GroupedRow>) -> bool {
    forall|k: int|
        0 <= k < groups.len() ==> group_routes(#[trigger] groups[k]) == routes_of_group(
            rows,
            groups[k].group_id,
        )
}

/// Groups come in the order of their first rows.
#[verifier::opaque]
pub open spec fn ordered_by_first_row(groups: Seq<GroupedRoutes>, rows: Seq<GroupedRow>) -> bool {
    forall|a: int, b: int, i: int, j: int|
        0 <= a < b < groups.len() && #[trigger] is_first_row(rows, groups[a].group_id, i)
            && #[trigger] is_first_row(rows, groups[b].group_id, j) ==> i < j
}

/// `groups` is the grouping of `rows`: one group per distinct group id of
/// the rows and no other, each named as its first row, holding the routes
/// of its rows in row order, the groups ordered by their first rows.
pub open spec fn is_grouping(groups: Seq<GroupedRoutes>, rows: Seq<GroupedRow>) -> bool {
    &&& distinct_group_ids(groups)
    &&& covers_rows(groups, rows)
    &&& named_after_first_rows(groups, rows)
    &&& holds_group_routes(groups, rows)
    &&& ordered_by_first_row(groups, rows)
}

#[verifier::external_type_specification]
#[verifier::external_body]
#[verifier::reject_recursive_types(K)]
#[verifier::reject_recursive_types(V)]
#[verifier::reject_recursive_types(S)]
pub struct ExIndexMap<K, V, S>(IndexMap<K, V, S>);

/// The entries of an index map of groups, in insertion order.
pub uninterp spec fn group_index_entries(m: IndexMap<Option<i64>, GroupedRoutes>) -> Seq<
    (Option<i64>, GroupedRoutes),
>;

/// `IndexMap::new`: an empty map.
#[verifier::external_body]
fn group_index_new() -> (m: IndexMap<Option<i64>, GroupedRoutes>)
    ensures
        group_index_entries(m) == Seq::<(Option<i64>, GroupedRoutes)>::empty(),
{
    IndexMap::new()
}

/// `IndexMap::get_index_of`: the position of an entry with key `key`, or
/// `None` when no entry has it.
#[verifier::external_body]
fn group_index_position(m: &IndexMap<Option<i64>, GroupedRoutes>, key: &Option<i64>) -> (r: Option<
    usize,
>)
    ensures
        match r {
            Some(i) => i < group_index_entries(*m).len() && group_index_entries(*m)[i as int].0
                == *key,
            None => forall|i: int|
                0 <= i < group_index_entries(*m).len() ==> #[trigger] group_index_entries(
                    *m,
                )[i].0 != *key,
        },
{
    m.get_index_of(key)
}

/// `IndexMap::insert` of a key the map does not hold: the entry is added
/// last, the others stay as they were.
#[verifier::external_body]
fn group_index_insert_new(
    m: &mut IndexMap<Option<i64>, GroupedRoutes>,
    key: Option<i64>,
    value: GroupedRoutes,
)
    requires
        forall|i: int|
            0 <= i < group_index_entries(*old(m)).len() ==> #[trigger] group_index_entries(
                *old(m),
            )[i].0 != key,
    ensures
        group_index_entries(*final(m)) == group_index_entries(*old(m)).push((key, value)),
{
    m.insert(key, value);
}

/// `IndexMap::get_index_mut`: the value of entry `index`, to be changed in
/// place; the key and the other entries stay as they were.
#[verifier::external_body]
fn group_index_value_mut(m: &mut IndexMap<Option<i64>, GroupedRoutes>, index: usize) -> (v:
    &mut GroupedRoutes)
    requires
        index < group_index_entries(*old(m)).len(),
    ensures
        *v == group_index_entries(*old(m))[index as int].1,
        group_index_entries(*final(m)) == group_index_entries(*old(m)).update(
            index as int,
            (group_index_entries(*old(m))[index as int].0, *final(v)),
        ),
{
    m.get_index_mut(index).unwrap().1
}

/// `IndexMap::into_values`: the values in entry order.
#[verifier::external_body]
fn group_index_into_values(m: IndexMap<Option<i64>, GroupedRoutes>) -> (r: Vec<GroupedRoutes>)
    ensures
        r@ == group_index_entries(m).map_values(|e: (Option<i64>, GroupedRoutes)| e.1),
{
    m.into_values().collect()
}


/// The values of index-map entries, in order.
pub open spec fn entry_values(es: Seq<(Option<i64>, GroupedRoutes)>) -> Seq<GroupedRoutes> {
    es.map_values(|e: (Option<i64>, GroupedRoutes)| e.1)
}

proof fn lemma_no_rows_no_routes(rows: Seq<GroupedRow>, id: Option<i64>)
    requires
        forall|j: int| 0 <= j < rows.len() ==> #[trigger] rows[j].group_id != id,
    ensures
        routes_of_group(rows, id) == Seq::<RouteView>::empty(),
    decreases rows.len(),
{
    if rows.len() > 0 {
        assert(rows.last() == rows[rows.len() - 1]);
        lemma_no_rows_no_routes(rows.drop_last(), id);
    }
}

proof fn lemma_first_row_extends(rows: Seq<GroupedRow>, row: GroupedRow, id: Option<i64>, i: int)
    requires
        0 <= i < rows.len(),
    ensures
        is_first_row(rows.push(row), id, i) == is_first_row(rows, id, i),
{
    assert forall|j: int| 0 <= j <= i implies rows.push(row)[j] == rows[j] by {}
}

proof fn lemma_routes_extend(rows: Seq<GroupedRow>, row: GroupedRow, id: Option<i64>)
    ensures
        routes_of_group(rows.push(row), id) == if row.group_id == id {
            routes_of_group(rows, id).push(row_route(row))
        } else {
            routes_of_group(rows, id)
        },
{
    assert(rows.push(row).drop_last() == rows);
}

/// A group that has a first row among `rows` has the same first row once
/// a row is appended.
proof fn lemma_first_row_is_old(rows: Seq<GroupedRow>, row: GroupedRow, g: GroupedRoutes, i: int)
    requires
        named_after_first_row(rows, g),
        is_first_row(rows.push(row), g.group_id, i),
    ensures
        i < rows.len(),
        is_first_row(rows, g.group_id, i),
{
    let w = choose|w: int|
        #[trigger] is_first_row(rows, g.group_id, w) && opt_chars(g.group_name) == opt_chars(
            rows[w].group_name,
        );
    if i >= rows.len() {
        assert(rows.push(row)[w] == rows[w]);
    }
    lemma_first_row_extends(rows, row, g.group_id, i);
}

proof fn lemma_named_extends(rows: Seq<GroupedRow>, row: GroupedRow, g: GroupedRoutes)
    requires
        named_after_first_row(rows, g),
    ensures
        named_after_first_row(rows.push(row), g),
{
    let w = choose|w: int|
        #[trigger] is_first_row(rows, g.group_id, w) && opt_chars(g.group_name) == opt_chars(
            rows[w].group_name,
        );
    lemma_first_row_extends(rows, row, g.group_id, w);
    assert(rows.push(row)[w] == rows[w]);
    assert(is_first_row(rows.push(row), g.group_id, w));
}

/// A row whose group id no group has belongs to no group yet: no row of
/// `rows` has it.
proof fn lemma_new_id_unseen(groups: Seq<GroupedRoutes>, rows: Seq<GroupedRow>, id: Option<i64>)
    requires
        covers_rows(groups, rows),
        forall|m: int| 0 <= m < groups.len() ==> #[trigger] groups[m].group_id != id,
    ensures
        forall|j: int| 0 <= j < rows.len() ==> #[trigger] rows[j].group_id != id,
{
    reveal(covers_rows);
    assert forall|j: int| 0 <= j < rows.len() implies #[trigger] rows[j].group_id != id by {
        let m = choose|m: int|
            0 <= m < groups.len() && #[trigger] groups[m].group_id == #[trigger] rows[j].group_id;
        assert(groups[m].group_id != id);
    }
}

proof fn lemma_grouping_extend_existing(
    groups: Seq<GroupedRoutes>,
    rows: Seq<GroupedRow>,
    row: GroupedRow,
    k: int,
    g: GroupedRoutes,
)
    requires
        is_grouping(groups, rows),
        0 <= k < groups.len(),
        groups[k].group_id == row.group_id,
        g.group_id == groups[k].group_id,
        opt_chars(g.group_name) == opt_chars(groups[k].group_name),
        group_routes(g) == group_routes(groups[k]).push(row_route(row)),
    ensures
        is_grouping(groups.update(k, g), rows.push(row)),
{
    let gs = groups.update(k, g);
    let rs = rows.push(row);
    assert(distinct_group_ids(gs)) by {
        reveal(distinct_group_ids);
        assert forall|a: int, b: int| 0 <= a < b < gs.len() implies #[trigger] gs[a].group_id
            != #[trigger] gs[b].group_id by {
            assert(groups[a].group_id != groups[b].group_id);
        }
    }
    assert(covers_rows(gs, rs)) by {
        reveal(covers_rows);
        assert forall|i: int| 0 <= i < rs.len() implies exists|m: int|
            0 <= m < gs.len() && #[trigger] gs[m].group_id == #[trigger] rs[i].group_id by {
            if i < rows.len() {
                assert(rs[i] == rows[i]);
                let m = choose|m: int|
                    0 <= m < groups.len() && #[trigger] groups[m].group_id
                        == #[trigger] rows[i].group_id;
                assert(gs[m].group_id == rs[i].group_id);
            } else {
                assert(gs[k].group_id == rs[i].group_id);
            }
        }
    }
    assert(named_after_first_rows(gs, rs)) by {
        reveal(named_after_first_rows);
        assert forall|m: int| 0 <= m < gs.len() implies named_after_first_row(rs, #[trigger] gs[m]) by {
            assert(named_after_first_row(rows, groups[m]));
            lemma_named_extends(rows, row, groups[m]);
            if m == k {
                let w = choose|w: int|
                    #[trigger] is_first_row(rs, groups[k].group_id, w) && opt_chars(
                        groups[k].group_name,
                    ) == opt_chars(rs[w].group_name);
                assert(is_first_row(rs, gs[m].group_id, w));
            }
        }
    }
    assert(holds_group_routes(gs, rs)) by {
        reveal(holds_group_routes);
        reveal(distinct_group_ids);
        assert forall|m: int| 0 <= m < gs.len() implies group_routes(#[trigger] gs[m])
            == routes_of_group(rs, gs[m].group_id) by {
            lemma_routes_extend(rows, row, gs[m].group_id);
            assert(group_routes(groups[m]) == routes_of_group(rows, groups[m].group_id));
            if m < k {
                assert(groups[m].group_id != groups[k].group_id);
            } else if m > k {
                assert(groups[k].group_id != groups[m].group_id);
            }
        }
    }
    assert(ordered_by_first_row(gs, rs)) by {
        reveal(ordered_by_first_row);
        reveal(named_after_first_rows);
        assert forall|a: int, b: int, i: int, j: int|
            0 <= a < b < gs.len() && #[trigger] is_first_row(rs, gs[a].group_id, i)
                && #[trigger] is_first_row(rs, gs[b].group_id, j) implies i < j by {
            assert(named_after_first_row(rows, groups[a]));
            assert(named_after_first_row(rows, groups[b]));
            lemma_first_row_is_old(rows, row, groups[a], i);
            lemma_first_row_is_old(rows, row, groups[b], j);
        }
    }
}

proof fn lemma_grouping_add_new(
    groups: Seq<GroupedRoutes>,
    rows: Seq<GroupedRow>,
    row: GroupedRow,
    g: GroupedRoutes,
)
    requires
        is_grouping(groups, rows),
        forall|m: int| 0 <= m < groups.len() ==> #[trigger] groups[m].group_id != row.group_id,
        g.group_id == row.group_id,
        opt_chars(g.group_name) == opt_chars(row.group_name),
        group_routes(g) == seq![row_route(row)],
    ensures
        is_grouping(groups.push(g), rows.push(row)),
{
    let gs = groups.push(g);
    let rs = rows.push(row);
    let n = rows.len() as int;
    lemma_new_id_unseen(groups, rows, row.group_id);
    assert(is_first_row(rs, row.group_id, n)) by {
        assert forall|j: int| 0 <= j < n implies rs[j].group_id != row.group_id by {
            assert(rs[j] == rows[j]);
        }
    }
    assert forall|j: int| #[trigger] is_first_row(rs, row.group_id, j) implies j == n by {
        if j < n {
            assert(rs[j] == rows[j]);
        }
    }
    assert(distinct_group_ids(gs)) by {
        reveal(distinct_group_ids);
        assert forall|a: int, b: int| 0 <= a < b < gs.len() implies #[trigger] gs[a].group_id
            != #[trigger] gs[b].group_id by {
            if b < groups.len() {
                assert(groups[a].group_id != groups[b].group_id);
            }
        }
    }
    assert(covers_rows(gs, rs)) by {
        reveal(covers_rows);
        assert forall|i: int| 0 <= i < rs.len() implies exists|m: int|
            0 <= m < gs.len() && #[trigger] gs[m].group_id == #[trigger] rs[i].group_id by {
            if i < n {
                assert(rs[i] == rows[i]);
                let m = choose|m: int|
                    0 <= m < groups.len() && #[trigger] groups[m].group_id
                        == #[trigger] rows[i].group_id;
                assert(gs[m].group_id == rs[i].group_id);
            } else {
                assert(gs[groups.len() as int].group_id == rs[i].group_id);
            }
        }
    }
    assert(named_after_first_rows(gs, rs)) by {
        reveal(named_after_first_rows);
        assert forall|m: int| 0 <= m < gs.len() implies named_after_first_row(rs, #[trigger] gs[m]) by {
            if m < groups.len() {
                assert(named_after_first_row(rows, groups[m]));
                lemma_named_extends(rows, row, groups[m]);
            } else {
                assert(rs[n] == row);
                assert(is_first_row(rs, gs[m].group_id, n));
            }
        }
    }
    assert(holds_group_routes(gs, rs)) by {
        reveal(holds_group_routes);
        assert forall|m: int| 0 <= m < gs.len() implies group_routes(#[trigger] gs[m])
            == routes_of_group(rs, gs[m].group_id) by {
            lemma_routes_extend(rows, row, gs[m].group_id);
            if m == groups.len() {
                lemma_no_rows_no_routes(rows, row.group_id);
                assert(Seq::<RouteView>::empty().push(row_route(row)) == seq![row_route(row)]);
            } else {
                assert(group_routes(groups[m]) == routes_of_group(rows, groups[m].group_id));
            }
        }
    }
    assert(ordered_by_first_row(gs, rs)) by {
        reveal(ordered_by_first_row);
        reveal(named_after_first_rows);
        assert forall|a: int, b: int, i: int, j: int|
            0 <= a < b < gs.len() && #[trigger] is_first_row(rs, gs[a].group_id, i)
                && #[trigger] is_first_row(rs, gs[b].group_id, j) implies i < j by {
            assert(named_after_first_row(rows, groups[a]));
            lemma_first_row_is_old(rows, row, groups[a], i);
            if b < groups.len() {
                assert(named_after_first_row(rows, groups[b]));
                lemma_first_row_is_old(rows, row, groups[b], j);
            }
        }
    }
}

fn copy_name(name: &Option<String>) -> (r: Option<String>)
    ensures
        opt_chars(r) == opt_chars(*name),
{
    match name {
        Some(s) => Some(s.clone()),
        None => None,
    }
}

/// Groups joined route rows: one group per distinct group id, named as its
/// first row, holding the routes of its rows in row order; groups come in
/// the order of their first rows.
pub fn group_rows(rows: &[GroupedRow]) -> (r: Vec<GroupedRoutes>)
    ensures
        is_grouping(r@, rows@),
{
    let mut map = group_index_new();
    let n = rows.len();
    let mut i: usize = 0;
    assert(rows@.take(0) == Seq::<GroupedRow>::empty());
    assert(entry_values(group_index_entries(map)) == Seq::<GroupedRoutes>::empty());
    proof {
        reveal(distinct_group_ids);
        reveal(covers_rows);
        reveal(named_after_first_rows);
        reveal(holds_group_routes);
        reveal(ordered_by_first_row);
    }
    while i < n
        invariant
            n == rows@.len(),
            i <= n,
            forall|k: int|
                0 <= k < group_index_entries(map).len() ==> #[trigger] group_index_entries(map)[k].0
                    == group_index_entries(map)[k].1.group_id,
            is_grouping(entry_values(group_index_entries(map)), rows@.take(i as int)),
        decreases n - i,
    {
        let row = &rows[i];
        let ghost before = group_index_entries(map);
        let ghost prefix = rows@.take(i as int);
        assert(rows@.take(i + 1) == prefix.push(*row));
        let route_id = match row.id {
            Some(x) => x,
            None => 0,
        };
        let route = Route { id: route_id, value: row.value.clone(), route_type: row.route_type.clone() };
        assert(route@ == row_route(*row));
        let key = row.group_id;
        match group_index_position(&map, &key) {
            Some(k) => {
                let ghost old_group = before[k as int].1;
                let slot = group_index_value_mut(&mut map, k);
                slot.routes.push(route);
                proof {
                    let after = group_index_entries(map);
                    let g = after[k as int].1;
                    assert(group_routes(g) == group_routes(old_group).push(row_route(*row)));
                    assert(entry_values(before)[k as int] == old_group);
                    assert(entry_values(after) == entry_values(before).update(k as int, g));
                    lemma_grouping_extend_existing(entry_values(before), prefix, *row, k as int, g);
                }
            },
            None => {
                let g = GroupedRoutes { group_id: key, group_name: copy_name(&row.group_name), routes: vec![route] };
                proof {
                    assert(group_routes(g) == seq![row_route(*row)]);
                    assert forall|m: int| 0 <= m < entry_values(before).len() implies #[trigger] entry_values(before)[m].group_id != row.group_id by {
                        assert(before[m].0 != key);
                    }
                    lemma_grouping_add_new(entry_values(before), prefix, *row, g);
                }
                group_index_insert_new(&mut map, key, g);
                proof {
                    assert(entry_values(group_index_entries(map)) == entry_values(before).push(g));
                }
            },
        }
        i = i + 1;
    }
    assert(rows@.take(n as int) == rows@);
    group_index_into_values(map)
}


proof fn lemma_row_route_in_group(rows: Seq<GroupedRow>, i: int)
    requires
        0 <= i < rows.len(),
    ensures
        routes_of_group(rows, rows[i].group_id).contains(row_route(rows[i])),
    decreases rows.len(),
{
    let id = rows[i].group_id;
    if i == rows.len() - 1 {
        assert(rows.last() == rows[i]);
        let s = routes_of_group(rows, id);
        assert(s[s.len() - 1] == row_route(rows[i]));
    } else {
        assert(rows.drop_last()[i] == rows[i]);
        lemma_row_route_in_group(rows.drop_last(), i);
        let prev = routes_of_group(rows.drop_last(), id);
        let w = choose|w: int| 0 <= w < prev.len() && prev[w] == row_route(rows[i]);
        if rows.last().group_id == id {
            assert(prev.push(row_route(rows.last()))[w] == prev[w]);
        }
    }
}

/// Every row's route is in exactly one group of the grouping: the group of
/// the row's group id.
pub proof fn law_each_row_in_exactly_one_group(
    groups: Seq<GroupedRoutes>,
    rows: Seq<GroupedRow>,
    i: int,
)
    requires
        is_grouping(groups, rows),
        0 <= i < rows.len(),
    ensures
        exists|k: int|
            0 <= k < groups.len() && groups[k].group_id == rows[i].group_id && group_routes(
                #[trigger] groups[k],
            ).contains(row_route(rows[i])) && forall|m: int|
                0 <= m < groups.len() && m != k ==> groups[m].group_id != rows[i].group_id,
{
    reveal(covers_rows);
    reveal(distinct_group_ids);
    reveal(holds_group_routes);
    let k = choose|k: int|
        0 <= k < groups.len() && #[trigger] groups[k].group_id == #[trigger] rows[i].group_id;
    lemma_row_route_in_group(rows, i);
    assert(group_routes(groups[k]) == routes_of_group(rows, groups[k].group_id));
    assert forall|m: int| 0 <= m < groups.len() && m != k implies groups[m].group_id
        != rows[i].group_id by {
        if m < k {
            assert(groups[m].group_id != groups[k].group_id);
        } else {
            assert(groups[k].group_id != groups[m].group_id);
        }
    }
}

} // verus!
