//! What holds of every baked mesh.

use crate::corners::{before, has_polygon, lemma_adjacency, lemma_tile_id_range};
use crate::grid::{
    lemma_tile_index_in_range, lemma_world_distinct, walkable, walkable_before, GridView,
};
use crate::navmesh::{holds_corner, is_bake_of, NavView, Vertex};
use vstd::prelude::*;
use vstd::relations::injective_on;
use vstd::set_lib::{lemma_int_range, lemma_len_subset, lemma_map_size, set_int_range};

verus! {

/// The place of corner `(i, j)` when the corners are counted row by row.
pub open spec fn corner_number(g: GridView, key: (u32, u32)) -> int {
    key.1 * (g.width + 1) + key.0
}

/// Corners of a grid that stand in the order in which the scan first comes
/// to them are all different, and there are no more of them than the grid has
/// corners. Where every corner of the grid is among them, there are exactly
/// `(width + 1) * (height + 1)`.
#[verifier::rlimit(60)]
pub proof fn lemma_count_corners(g: GridView, keys: Seq<(u32, u32)>)
    requires
        g.valid(),
        forall|a: int|
            0 <= a < keys.len() ==> g.is_corner((#[trigger] keys[a]).0 as int, keys[a].1 as int),
        forall|a: int, b: int|
            0 <= a < b < keys.len() ==> before(
                g.first_seen((#[trigger] keys[a]).0 as int, keys[a].1 as int),
                g.first_seen((#[trigger] keys[b]).0 as int, keys[b].1 as int),
            ),
    ensures
        keys.no_duplicates(),
        keys.len() <= (g.width + 1) * (g.height + 1),
        (forall|i: int, j: int| #[trigger]
            g.is_corner(i, j) ==> keys.contains((i as u32, j as u32))) ==> keys.len() == (g.width
            + 1) * (g.height + 1),
{
    let w = g.width + 1;
    let h = g.height + 1;
    assert forall|a: int, b: int| 0 <= a < keys.len() && 0 <= b < keys.len() && a != b implies keys[a]
        != keys[b] by {
        if a < b {
            assert(before(
                g.first_seen(keys[a].0 as int, keys[a].1 as int),
                g.first_seen(keys[b].0 as int, keys[b].1 as int),
            ));
        } else {
            assert(before(
                g.first_seen(keys[b].0 as int, keys[b].1 as int),
                g.first_seen(keys[a].0 as int, keys[a].1 as int),
            ));
        }
    }
    keys.unique_seq_to_set();
    let held = keys.to_set();
    vstd::seq_lib::seq_to_set_is_finite(keys);
    let number = |key: (u32, u32)| corner_number(g, key);
    let numbers = held.map(number);
    let all = set_int_range(0, w * h);
    assert(0 <= w * h) by (nonlinear_arith)
        requires
            0 <= w,
            0 <= h,
    ;
    lemma_int_range(0, w * h);
    assert forall|k1: (u32, u32), k2: (u32, u32)|
        held.contains(k1) && held.contains(k2) && #[trigger] number(k1) == #[trigger] number(
            k2,
        ) implies k1 == k2 by {
        let a = choose|a: int| 0 <= a < keys.len() && keys[a] == k1;
        let b = choose|b: int| 0 <= b < keys.len() && keys[b] == k2;
        assert(g.is_corner(keys[a].0 as int, keys[a].1 as int));
        assert(g.is_corner(keys[b].0 as int, keys[b].1 as int));
        lemma_number_apart(w, k1.0 as int, k1.1 as int, k2.0 as int, k2.1 as int);
    }
    assert(injective_on(number, held));
    lemma_map_size(held, numbers, number);
    assert forall|n: int| numbers.contains(n) implies all.contains(n) by {
        let key = choose|key: (u32, u32)| held.contains(key) && n == number(key);
        let a = choose|a: int| 0 <= a < keys.len() && keys[a] == key;
        assert(g.is_corner(keys[a].0 as int, keys[a].1 as int));
        lemma_number_in_range(w, h, key.0 as int, key.1 as int);
    }
    assert(numbers.subset_of(all));
    lemma_len_subset(numbers, all);
    if forall|i: int, j: int| #[trigger] g.is_corner(i, j) ==> keys.contains((i as u32, j as u32)) {
        assert forall|n: int| all.contains(n) implies numbers.contains(n) by {
            let i = n % w;
            let j = n / w;
            lemma_number_split(w, h, n);
            assert(g.is_corner(i, j));
            let key = (i as u32, j as u32);
            assert(keys.contains(key));
            assert(held.contains(key));
            assert(number(key) == n);
        }
        assert(numbers =~= all);
    }
}

proof fn lemma_number_apart(w: int, i1: int, j1: int, i2: int, j2: int)
    requires
        0 <= i1 < w,
        0 <= i2 < w,
        j1 * w + i1 == j2 * w + i2,
    ensures
        i1 == i2,
        j1 == j2,
{
    assert(j1 == j2) by (nonlinear_arith)
        requires
            0 <= i1 < w,
            0 <= i2 < w,
            j1 * w + i1 == j2 * w + i2,
    ;
}

proof fn lemma_number_in_range(w: int, h: int, i: int, j: int)
    requires
        0 <= i < w,
        0 <= j < h,
    ensures
        0 <= j * w + i < w * h,
{
    assert(0 <= j * w && j * w + w <= w * h) by (nonlinear_arith)
        requires
            0 <= j < h,
            0 <= w,
    ;
}

proof fn lemma_number_split(w: int, h: int, n: int)
    requires
        0 < w,
        0 <= n < w * h,
    ensures
        0 <= n % w < w,
        0 <= n / w < h,
        (n / w) * w + n % w == n,
{
    vstd::arithmetic::div_mod::lemma_fundamental_div_mod(n, w);
    vstd::arithmetic::div_mod::lemma_mod_bound(n, w);
    let q = n / w;
    assert(w * q == q * w) by (nonlinear_arith);
    assert(0 <= q < h) by (nonlinear_arith)
        requires
            0 < w,
            0 <= n < w * h,
            q * w + n % w == n,
            0 <= n % w < w,
    ;
}

/// The corners of a list of vertices, in order.
pub open spec fn corners_of(vertices: Seq<Vertex>) -> Seq<(u32, u32)> {
    Seq::new(vertices.len(), |a: int| vertices[a].corner)
}

/// Where every cost up to `n` is walkable, all of the first `n` are counted.
proof fn lemma_all_walkable(costs: Seq<i8>, n: int)
    requires
        0 <= n <= costs.len(),
        forall|t: int| 0 <= t < costs.len() ==> walkable(#[trigger] costs[t]),
    ensures
        walkable_before(costs, n) == n,
    decreases n,
{
    if n > 0 {
        lemma_all_walkable(costs, n - 1);
    }
}

/// Finds the walkable cost that is counted as number `q`.
proof fn lemma_find_counted(costs: Seq<i8>, n: int, q: int) -> (t: int)
    requires
        0 <= q < walkable_before(costs, n),
    ensures
        0 <= t < n,
        walkable(costs[t]),
        walkable_before(costs, t) == q,
    decreases n,
{
    if walkable(costs[n - 1]) && walkable_before(costs, n - 1) == q {
        n - 1
    } else {
        lemma_find_counted(costs, n - 1, q)
    }
}

/// Every polygon is a walkable tile: each identifier below the number of
/// polygons belongs to exactly one tile of the grid, and that tile is
/// walkable.
#[verifier::rlimit(60)]
pub proof fn lemma_polygon_tile(g: GridView, q: int) -> (tile: (int, int))
    requires
        g.valid(),
        0 <= q < g.polygon_count(),
    ensures
        g.open_tile(tile.0, tile.1),
        g.tile_id(tile.0, tile.1) == q,
        forall|x: int, y: int|
            g.in_grid(x, y) && #[trigger] g.tile_id(x, y) == q ==> x == tile.0 && y == tile.1,
{
    let n = g.width * g.height;
    let t = lemma_find_counted(g.costs, n, q);
    assert(g.width > 0) by (nonlinear_arith)
        requires
            0 <= t < g.width * g.height,
            0 <= g.width,
    ;
    lemma_number_split(g.width, g.height, t);
    let x = t % g.width;
    let y = t / g.width;
    assert forall|x2: int, y2: int| g.in_grid(x2, y2) && #[trigger] g.tile_id(x2, y2) == q implies x2
        == x && y2 == y by {
        let t2 = y2 * g.width + x2;
        lemma_tile_index_in_range(g, x2, y2);
        if t2 < t {
            crate::grid::lemma_walkable_before_monotonic(g.costs, t2 + 1, t);
        } else if t < t2 {
            crate::grid::lemma_walkable_before_monotonic(g.costs, t + 1, t2);
        }
        assert(t2 == t);
        lemma_number_apart(g.width, x2, y2, x, y);
    }
    (x, y)
}

/// A grid in which every tile is walkable bakes into exactly
/// `(width + 1) * (height + 1)` vertices and `width * height` polygons.
#[verifier::rlimit(60)]
pub proof fn law_open_grid_counts(g: GridView, nav: NavView)
    requires
        g.valid(),
        g.width >= 1,
        g.height >= 1,
        is_bake_of(g, nav),
        forall|x: int, y: int| g.in_grid(x, y) ==> walkable(#[trigger] g.cost_at(x, y)),
    ensures
        nav.vertices.len() == (g.width + 1) * (g.height + 1),
        nav.polygons.len() == g.width * g.height,
{
    assert forall|t: int| 0 <= t < g.costs.len() implies walkable(#[trigger] g.costs[t]) by {
        lemma_number_split(g.width, g.height, t);
        let x = t % g.width;
        let y = t / g.width;
        assert(g.in_grid(x, y));
        assert(walkable(g.cost_at(x, y)));
    }
    lemma_all_walkable(g.costs, g.width * g.height);
    let keys = corners_of(nav.vertices);
    assert forall|a: int| 0 <= a < keys.len() implies g.is_corner(
        (#[trigger] keys[a]).0 as int,
        keys[a].1 as int,
    ) by {
        assert(g.vertex_ok(nav.vertices[a]));
    }
    assert forall|a: int, b: int| 0 <= a < b < keys.len() implies before(
        g.first_seen((#[trigger] keys[a]).0 as int, keys[a].1 as int),
        g.first_seen((#[trigger] keys[b]).0 as int, keys[b].1 as int),
    ) by {
        assert(keys[a] == nav.vertices[a].corner);
        assert(keys[b] == nav.vertices[b].corner);
    }
    assert forall|i: int, j: int| #[trigger] g.is_corner(i, j) implies keys.contains(
        (i as u32, j as u32),
    ) by {
        let x = if i >= 1 { i - 1 } else { i };
        let y = if j >= 1 { j - 1 } else { j };
        assert(g.in_grid(x, y));
        assert(walkable(g.cost_at(x, y)));
        assert(g.open_tile(x, y));
        assert(g.touches_open(i, j));
        assert(holds_corner(nav.vertices, i, j));
        let a = choose|a: int|
            0 <= a < nav.vertices.len() && (#[trigger] nav.vertices[a]).corner == (
                i as u32,
                j as u32,
            );
        assert(keys[a] == (i as u32, j as u32));
    }
    lemma_count_corners(g, keys);
}

/// No vertex of a baked mesh is an orphan: a walkable tile touches the corner
/// of each, and its neighbour list names at least one polygon.
pub proof fn law_no_orphan_vertex(g: GridView, nav: NavView, a: int)
    requires
        g.valid(),
        g.width >= 1,
        g.height >= 1,
        is_bake_of(g, nav),
        0 <= a < nav.vertices.len(),
    ensures
        g.touches_open(nav.vertices[a].corner.0 as int, nav.vertices[a].corner.1 as int),
        has_polygon(nav.vertices[a].polygons@),
{
    let v = nav.vertices[a];
    let i = v.corner.0 as int;
    let j = v.corner.1 as int;
    assert(g.vertex_ok(v));
    lemma_adjacency(g, i, j);
    let ids = g.adjacency(i, j);
    let n = choose|n: int| 0 <= n < ids.len() && #[trigger] ids[n] >= 0;
    assert(v.polygons@[n] == ids[n]);
}

/// Corners are never doubled: two different vertices of a baked mesh stand at
/// different corners and at different places in world space.
pub proof fn law_vertices_distinct(g: GridView, nav: NavView, a: int, b: int)
    requires
        g.valid(),
        is_bake_of(g, nav),
        0 <= a < nav.vertices.len(),
        0 <= b < nav.vertices.len(),
        a != b,
    ensures
        nav.vertices[a].corner != nav.vertices[b].corner,
        (nav.vertices[a].x, nav.vertices[a].y) != (nav.vertices[b].x, nav.vertices[b].y),
{
    let va = nav.vertices[a];
    let vb = nav.vertices[b];
    assert(g.vertex_ok(va));
    assert(g.vertex_ok(vb));
    if a < b {
        assert(before(
            g.first_seen(va.corner.0 as int, va.corner.1 as int),
            g.first_seen(vb.corner.0 as int, vb.corner.1 as int),
        ));
    } else {
        assert(before(
            g.first_seen(vb.corner.0 as int, vb.corner.1 as int),
            g.first_seen(va.corner.0 as int, va.corner.1 as int),
        ));
    }
    if va.corner.0 != vb.corner.0 {
        lemma_world_distinct(g, va.corner.0 as int, vb.corner.0 as int);
    } else {
        lemma_world_distinct(g, va.corner.1 as int, vb.corner.1 as int);
    }
}

/// A corner that a walkable tile touches has exactly one vertex, however many
/// tiles share it.
pub proof fn law_shared_corner_once(g: GridView, nav: NavView, i: int, j: int) -> (a: int)
    requires
        g.valid(),
        is_bake_of(g, nav),
        g.is_corner(i, j),
        g.touches_open(i, j),
    ensures
        0 <= a < nav.vertices.len(),
        nav.vertices[a].corner == (i as u32, j as u32),
        forall|b: int|
            0 <= b < nav.vertices.len() && (#[trigger] nav.vertices[b]).corner == (
                i as u32,
                j as u32,
            ) ==> b == a,
{
    assert(holds_corner(nav.vertices, i, j));
    let a = choose|a: int|
        0 <= a < nav.vertices.len() && (#[trigger] nav.vertices[a]).corner == (i as u32, j as u32);
    assert forall|b: int|
        0 <= b < nav.vertices.len() && (#[trigger] nav.vertices[b]).corner == (
            i as u32,
            j as u32,
        ) implies b == a by {
        if b != a {
            law_vertices_distinct(g, nav, a, b);
        }
    }
    a
}

/// The boundary flag of every polygon says whether at most two distinct
/// identifiers are recorded at the four corners of its tile.
pub proof fn law_boundary_flag(g: GridView, nav: NavView, q: int) -> (tile: (int, int))
    requires
        g.valid(),
        is_bake_of(g, nav),
        0 <= q < nav.polygons.len(),
    ensures
        g.open_tile(tile.0, tile.1),
        g.tile_id(tile.0, tile.1) == q,
        nav.polygons[q].boundary == (g.around(tile.0, tile.1).len() <= 2),
{
    let tile = lemma_polygon_tile(g, q);
    assert(g.polygon_ok(nav.vertices, nav.polygons[g.tile_id(tile.0, tile.1)], tile.0, tile.1));
    tile
}

/// Whether `v` is the identifier of tile `(x, y)` of the grid.
pub open spec fn names_tile(g: GridView, x: int, y: int, v: isize) -> bool {
    g.in_grid(x, y) && v == g.tile_id(x, y)
}

/// The identifiers recorded at the four corners of a tile are those of the
/// tile itself and of the tiles of the grid around it, the eight that share a
/// side or a corner with it: a walkable one with its number, a blocked one
/// with the sentinel.
pub proof fn law_around_is_block(g: GridView, x: int, y: int, v: isize)
    requires
        g.valid(),
        g.in_grid(x, y),
    ensures
        g.around(x, y).contains(v) == (names_tile(g, x - 1, y - 1, v) || names_tile(g, x, y - 1, v)
            || names_tile(g, x + 1, y - 1, v) || names_tile(g, x - 1, y, v) || names_tile(g, x, y, v)
            || names_tile(g, x + 1, y, v) || names_tile(g, x - 1, y + 1, v) || names_tile(
            g,
            x,
            y + 1,
            v,
        ) || names_tile(g, x + 1, y + 1, v)),
{
    lemma_adjacency(g, x, y);
    lemma_adjacency(g, x + 1, y);
    lemma_adjacency(g, x + 1, y + 1);
    lemma_adjacency(g, x, y + 1);
}

/// The neighbours of a vertex are polygons that have the vertex as a corner:
/// an identifier in a vertex's list, unless it is the sentinel, is the index
/// of a polygon, and one of that polygon's four vertex indices is the index
/// of the vertex.
pub proof fn law_neighbours_touch(g: GridView, nav: NavView, a: int, n: int)
    requires
        g.valid(),
        g.width >= 1,
        g.height >= 1,
        is_bake_of(g, nav),
        0 <= a < nav.vertices.len(),
        0 <= n < nav.vertices[a].polygons@.len(),
        nav.vertices[a].polygons@[n] >= 0,
    ensures
        nav.vertices[a].polygons@[n] < nav.polygons.len(),
        exists|s: int|
            0 <= s < 4 && #[trigger] nav.polygons[nav.vertices[a].polygons@[n] as int].vertices@[s]
                == a,
{
    let v = nav.vertices[a];
    let i = v.corner.0 as int;
    let j = v.corner.1 as int;
    let id = v.polygons@[n];
    assert(g.vertex_ok(v));
    lemma_adjacency(g, i, j);
    let ids = g.adjacency(i, j);
    assert(n < ids.len());
    assert(ids[n] == id);
    assert(ids.contains(id));
    let (x, y, s) = if names_tile(g, i - 1, j - 1, id) {
        (i - 1, j - 1, 2int)
    } else if names_tile(g, i, j - 1, id) {
        (i, j - 1, 3int)
    } else if names_tile(g, i - 1, j, id) {
        (i - 1, j, 1int)
    } else {
        (i, j, 0int)
    };
    assert(names_tile(g, x, y, id));
    lemma_tile_id_range(g, x, y);
    assert(g.open_tile(x, y));
    let p = nav.polygons[g.tile_id(x, y)];
    assert(g.polygon_ok(nav.vertices, p, x, y));
    let at = p.vertices@[s];
    assert(nav.vertices[at as int].corner.0 == i && nav.vertices[at as int].corner.1 == j);
    if at != a {
        law_vertices_distinct(g, nav, a, at as int);
    }
    assert(nav.polygons[id as int].vertices@[s] == a);
}

/// Every polygon is a square of positive side: its four vertices stand, in
/// order, at the low-low, high-low, high-high and low-high corner of its
/// tile in world space, `2 * half_cell` apart, and no two of them are the
/// same vertex.
pub proof fn law_polygon_is_square(g: GridView, nav: NavView, q: int) -> (tile: (int, int))
    requires
        g.valid(),
        is_bake_of(g, nav),
        0 <= q < nav.polygons.len(),
    ensures
        g.open_tile(tile.0, tile.1),
        g.tile_id(tile.0, tile.1) == q,
        forall|s: int|
            0 <= s < 4 ==> (#[trigger] nav.polygons[q].vertices@[s]) < nav.vertices.len(),
        ({
            let p = nav.polygons[q].vertices@;
            let low_x = g.world_x(tile.0);
            let low_y = g.world_y(tile.1);
            let side = 2 * g.half_cell;
            &&& side > 0
            &&& nav.vertices[p[0] as int].x == low_x && nav.vertices[p[0] as int].y == low_y
            &&& nav.vertices[p[1] as int].x == low_x + side && nav.vertices[p[1] as int].y == low_y
            &&& nav.vertices[p[2] as int].x == low_x + side && nav.vertices[p[2] as int].y == low_y
                + side
            &&& nav.vertices[p[3] as int].x == low_x && nav.vertices[p[3] as int].y == low_y + side
            &&& p[0] != p[1] && p[0] != p[2] && p[0] != p[3] && p[1] != p[2] && p[1] != p[3]
                && p[2] != p[3]
        }),
{
    let tile = lemma_polygon_tile(g, q);
    let p = nav.polygons[q];
    assert(g.polygon_ok(nav.vertices, p, tile.0, tile.1));
    assert(g.vertex_ok(nav.vertices[p.vertices@[0] as int]));
    assert(g.vertex_ok(nav.vertices[p.vertices@[1] as int]));
    assert(g.vertex_ok(nav.vertices[p.vertices@[2] as int]));
    assert(g.vertex_ok(nav.vertices[p.vertices@[3] as int]));
    assert(g.world_x(tile.0 + 1) == g.world_x(tile.0) + 2 * g.half_cell) by (nonlinear_arith)
        requires
            g.world_x(tile.0 + 1) == g.origin_x + (2 * (tile.0 + 1) - 1) * g.half_cell,
            g.world_x(tile.0) == g.origin_x + (2 * tile.0 - 1) * g.half_cell,
    ;
    assert(g.world_y(tile.1 + 1) == g.world_y(tile.1) + 2 * g.half_cell) by (nonlinear_arith)
        requires
            g.world_y(tile.1 + 1) == g.origin_y + (2 * (tile.1 + 1) - 1) * g.half_cell,
            g.world_y(tile.1) == g.origin_y + (2 * tile.1 - 1) * g.half_cell,
    ;
    tile
}

} // verus!
