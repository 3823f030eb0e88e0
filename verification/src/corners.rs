//! The corners of a grid and what the scan of its tiles records at them.
//!
//! The scan visits the tiles row by row and, at each tile, its four corners in
//! the order of [`tile_corner`]. A [`Stamp`] marks a moment of the scan: the
//! tile it stands at and the corner it is about to visit. Everything the scan
//! builds is described here as a function of the grid and such a moment.

use crate::grid::{
    lemma_tile_index_in_range, lemma_walkable_before_bounds, lemma_walkable_before_monotonic,
    walkable, walkable_before, GridView,
};
use vstd::prelude::*;

verus! {

/// The corner of tile `(x, y)` that the scan visits as number `slot`: low-low,
/// high-low, high-high, low-high.
pub open spec fn tile_corner(x: int, y: int, slot: int) -> (int, int) {
    if slot == 0 {
        (x, y)
    } else if slot == 1 {
        (x + 1, y)
    } else if slot == 2 {
        (x + 1, y + 1)
    } else {
        (x, y + 1)
    }
}

/// A moment of the scan: row, column, and the number of the corner that comes
/// next.
pub struct Stamp {
    pub y: int,
    pub x: int,
    pub slot: int,
}

/// Whether moment `a` comes strictly before moment `b`.
pub open spec fn before(a: Stamp, b: Stamp) -> bool {
    a.y < b.y || (a.y == b.y && (a.x < b.x || (a.x == b.x && a.slot < b.slot)))
}

/// The list with `id` appended where `take` holds, and as it is otherwise.
pub open spec fn noted(so_far: Seq<isize>, take: bool, id: int) -> Seq<isize> {
    if take {
        so_far.push(id as isize)
    } else {
        so_far
    }
}

/// Whether a list of identifiers names at least one polygon.
pub open spec fn has_polygon(ids: Seq<isize>) -> bool {
    exists|n: int| 0 <= n < ids.len() && #[trigger] ids[n] >= 0
}

impl GridView {
    /// The identifier of tile `(x, y)`: walkable tiles are numbered from zero
    /// in row-by-row order, and every blocked tile has the sentinel.
    pub open spec fn tile_id(self, x: int, y: int) -> int {
        if walkable(self.cost_at(x, y)) {
            walkable_before(self.costs, y * self.width + x)
        } else {
            -1
        }
    }

    /// The number of walkable tiles, which is the number of polygons.
    pub open spec fn polygon_count(self) -> int {
        walkable_before(self.costs, self.width * self.height)
    }

    /// The moment at which the scan first comes to corner `(i, j)`.
    pub open spec fn first_seen(self, i: int, j: int) -> Stamp {
        if i >= 1 && j >= 1 {
            Stamp { y: j - 1, x: i - 1, slot: 2 }
        } else if j >= 1 {
            Stamp { y: j - 1, x: 0, slot: 3 }
        } else if i >= 1 {
            Stamp { y: 0, x: i - 1, slot: 1 }
        } else {
            Stamp { y: 0, x: 0, slot: 0 }
        }
    }

    /// Whether the scan, standing at `now`, has already visited corner number
    /// `slot` of tile `(x, y)`.
    pub open spec fn visited(self, x: int, y: int, slot: int, now: Stamp) -> bool {
        self.in_grid(x, y) && before(Stamp { y, x, slot }, now)
    }

    /// The identifiers recorded at corner `(i, j)` by the time the scan stands
    /// at `now`: those of the tiles around the corner that have visited it, in
    /// the order of the scan.
    pub open spec fn recorded(self, i: int, j: int, now: Stamp) -> Seq<isize> {
        let a = noted(Seq::empty(), self.visited(i - 1, j - 1, 2, now), self.tile_id(i - 1, j - 1));
        let b = noted(a, self.visited(i, j - 1, 3, now), self.tile_id(i, j - 1));
        let c = noted(b, self.visited(i - 1, j, 1, now), self.tile_id(i - 1, j));
        noted(c, self.visited(i, j, 0, now), self.tile_id(i, j))
    }

    /// The moment at which the scan is over.
    pub open spec fn end(self) -> Stamp {
        Stamp { y: self.height, x: 0, slot: 0 }
    }

    /// The identifiers recorded at corner `(i, j)` once the scan is over: one
    /// for each tile of the grid around the corner, the sentinel for a
    /// blocked one.
    pub open spec fn adjacency(self, i: int, j: int) -> Seq<isize> {
        self.recorded(i, j, self.end())
    }

    /// Whether a walkable tile touches corner `(i, j)`.
    pub open spec fn touches_open(self, i: int, j: int) -> bool {
        self.open_tile(i - 1, j - 1) || self.open_tile(i, j - 1) || self.open_tile(i - 1, j)
            || self.open_tile(i, j)
    }

    /// The neighbour list of the vertex at corner `(i, j)`: what was recorded
    /// there, and one sentinel more where fewer than four tiles meet.
    pub open spec fn padded(self, i: int, j: int) -> Seq<isize> {
        let ids = self.adjacency(i, j);
        if ids.len() < 4 {
            ids.push(-1isize)
        } else {
            ids
        }
    }

    /// The distinct identifiers recorded at the four corners of tile `(x, y)`.
    pub open spec fn around(self, x: int, y: int) -> Set<isize> {
        self.adjacency(x, y).to_set().union(self.adjacency(x + 1, y).to_set()).union(
            self.adjacency(x + 1, y + 1).to_set(),
        ).union(self.adjacency(x, y + 1).to_set())
    }
}

/// The identifier of a tile of the grid is the sentinel or the number of a
/// polygon, and it is a number exactly for a walkable tile.
pub proof fn lemma_tile_id_range(g: GridView, x: int, y: int)
    requires
        g.valid(),
        g.in_grid(x, y),
    ensures
        -1 <= g.tile_id(x, y) < g.polygon_count() <= g.width * g.height <= isize::MAX,
        (g.tile_id(x, y) >= 0) == g.open_tile(x, y),
        g.tile_id(x, y) as isize == g.tile_id(x, y),
{
    lemma_tile_index_in_range(g, x, y);
    let t = y * g.width + x;
    lemma_walkable_before_bounds(g.costs, t);
    lemma_walkable_before_bounds(g.costs, g.width * g.height);
    lemma_walkable_before_monotonic(g.costs, t + 1, g.width * g.height);
    assert(walkable_before(g.costs, t + 1) == walkable_before(g.costs, t) + if walkable(
        g.costs[t],
    ) {
        1int
    } else {
        0int
    });
}

/// One step of [`GridView::recorded`]: what appending does to the presence of
/// a polygon and to the length.
proof fn lemma_noted(so_far: Seq<isize>, take: bool, id: int)
    requires
        -1 <= id <= isize::MAX,
    ensures
        has_polygon(noted(so_far, take, id)) == (has_polygon(so_far) || (take && id >= 0)),
        noted(so_far, take, id).len() == so_far.len() + if take {
            1int
        } else {
            0int
        },
        forall|v: isize|
            noted(so_far, take, id).contains(v) == (so_far.contains(v) || (take && v == id)),
{
    let r = noted(so_far, take, id);
    if take {
        assert(r[so_far.len() as int] == id as isize);
        if has_polygon(so_far) {
            let n = choose|n: int| 0 <= n < so_far.len() && #[trigger] so_far[n] >= 0;
            assert(r[n] == so_far[n]);
        }
        if has_polygon(r) {
            let n = choose|n: int| 0 <= n < r.len() && #[trigger] r[n] >= 0;
            if n < so_far.len() {
                assert(so_far[n] == r[n]);
            }
        }
        assert forall|v: isize| r.contains(v) == (so_far.contains(v) || v == id) by {
            if r.contains(v) {
                let n = choose|n: int| 0 <= n < r.len() && r[n] == v;
                if n < so_far.len() {
                    assert(so_far[n] == v);
                }
            }
            if so_far.contains(v) {
                let n = choose|n: int| 0 <= n < so_far.len() && so_far[n] == v;
                assert(r[n] == v);
            }
        }
    }
}

/// What is recorded at a corner once the scan is over: between one and four
/// identifiers, each the sentinel or the number of a polygon, with a polygon
/// among them exactly where a walkable tile touches the corner.
#[verifier::rlimit(60)]
pub proof fn lemma_adjacency(g: GridView, i: int, j: int)
    requires
        g.valid(),
        g.width >= 1,
        g.height >= 1,
        g.is_corner(i, j),
    ensures
        1 <= g.adjacency(i, j).len() <= 4,
        has_polygon(g.adjacency(i, j)) == g.touches_open(i, j),
        forall|n: int|
            0 <= n < g.adjacency(i, j).len() ==> -1 <= (#[trigger] g.adjacency(i, j)[n])
                < g.polygon_count(),
        forall|v: isize|
            g.adjacency(i, j).contains(v) == ((g.in_grid(i - 1, j - 1) && v == g.tile_id(
                i - 1,
                j - 1,
            )) || (g.in_grid(i, j - 1) && v == g.tile_id(i, j - 1)) || (g.in_grid(i - 1, j) && v
                == g.tile_id(i - 1, j)) || (g.in_grid(i, j) && v == g.tile_id(i, j))),
{
    let now = g.end();
    let e = Seq::<isize>::empty();
    let ta = g.visited(i - 1, j - 1, 2, now);
    let tb = g.visited(i, j - 1, 3, now);
    let tc = g.visited(i - 1, j, 1, now);
    let td = g.visited(i, j, 0, now);
    let ia = if ta { g.tile_id(i - 1, j - 1) } else { -1 };
    let ib = if tb { g.tile_id(i, j - 1) } else { -1 };
    let ic = if tc { g.tile_id(i - 1, j) } else { -1 };
    let id = if td { g.tile_id(i, j) } else { -1 };
    if ta {
        lemma_tile_id_range(g, i - 1, j - 1);
    }
    if tb {
        lemma_tile_id_range(g, i, j - 1);
    }
    if tc {
        lemma_tile_id_range(g, i - 1, j);
    }
    if td {
        lemma_tile_id_range(g, i, j);
    }
    let a = noted(e, ta, g.tile_id(i - 1, j - 1));
    let b = noted(a, tb, g.tile_id(i, j - 1));
    let c = noted(b, tc, g.tile_id(i - 1, j));
    let d = noted(c, td, g.tile_id(i, j));
    assert(a == noted(e, ta, ia));
    assert(b == noted(a, tb, ib));
    assert(c == noted(b, tc, ic));
    assert(d == noted(c, td, id));
    lemma_noted(e, ta, ia);
    lemma_noted(a, tb, ib);
    lemma_noted(b, tc, ic);
    lemma_noted(c, td, id);
    assert(!has_polygon(e));
    assert(forall|v: isize| !e.contains(v));
    assert(d == g.adjacency(i, j));
    assert forall|v: isize|
        d.contains(v) == ((ta && v == ia) || (tb && v == ib) || (tc && v == ic) || (td && v
            == id)) by {
        assert(!e.contains(v));
        assert(a.contains(v) == (e.contains(v) || (ta && v == ia)));
        assert(b.contains(v) == (a.contains(v) || (tb && v == ib)));
        assert(c.contains(v) == (b.contains(v) || (tc && v == ic)));
        assert(d.contains(v) == (c.contains(v) || (td && v == id)));
    }
    assert forall|n: int| 0 <= n < d.len() implies -1 <= (#[trigger] d[n]) < g.polygon_count() by {
        assert(d.contains(d[n]));
    }
}

} // verus!
