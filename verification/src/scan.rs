//! The scan of the grid: every tile, row by row, leaves its identifier at its
//! four corners, and every walkable tile becomes a polygon.

use crate::corner_set::{corner_seq, corner_set_insert, corner_set_new};
use crate::corners::{before, lemma_tile_id_range, tile_corner, Stamp};
use crate::grid::{walkable, walkable_before, GridView, TileGrid, WALKABLE_THRESHOLD};
use indexmap::IndexSet;
use std::collections::hash_map::RandomState;
use vstd::prelude::*;

verus! {

/// The polygon identifiers recorded at one corner.
pub struct Connections {
    pub connection_indices: Vec<isize>,
}

impl Connections {
    pub fn new() -> (r: Connections)
        ensures
            r.connection_indices@ == Seq::<isize>::empty(),
    {
        Connections { connection_indices: Vec::new() }
    }
}

/// A walkable tile during the scan: where it lies in the grid, and where its
/// four corners stand in the order in which corners were first seen.
pub struct Polys {
    pub position: (u32, u32),
    pub vertex_indices: [usize; 4],
}

impl Polys {
    pub fn new(position: (u32, u32), vertex_indices: [usize; 4]) -> (r: Polys)
        ensures
            r.position == position,
            r.vertex_indices == vertex_indices,
    {
        Polys { position, vertex_indices }
    }
}

/// What holds of the corners seen and of what is recorded at them when the
/// scan stands at `now`: the corners are those first seen before `now`, each
/// once and in the order in which they were first seen, and each has the
/// identifiers of the visits made to it so far.
pub open spec fn corners_ok(
    g: GridView,
    keys: Seq<(u32, u32)>,
    arena: Seq<Connections>,
    now: Stamp,
) -> bool {
    &&& arena.len() == keys.len()
    &&& forall|a: int|
        0 <= a < keys.len() ==> {
            &&& g.is_corner((#[trigger] keys[a]).0 as int, keys[a].1 as int)
            &&& before(g.first_seen(keys[a].0 as int, keys[a].1 as int), now)
            &&& arena[a].connection_indices@ == g.recorded(
                keys[a].0 as int,
                keys[a].1 as int,
                now,
            )
        }
    &&& forall|i: int, j: int|
        g.is_corner(i, j) && before(#[trigger] g.first_seen(i, j), now) ==> keys.contains(
            (i as u32, j as u32),
        )
    &&& forall|a: int, b: int|
        0 <= a < b < keys.len() ==> before(
            g.first_seen((#[trigger] keys[a]).0 as int, keys[a].1 as int),
            g.first_seen((#[trigger] keys[b]).0 as int, keys[b].1 as int),
        )
}

/// Visits one corner of the tile the scan stands at: finds the corner in the
/// set or adds it, and records the tile's identifier there.
#[verifier::rlimit(60)]
pub(crate) fn visit(
    set: &mut IndexSet<(u32, u32), RandomState>,
    arena: &mut Vec<Connections>,
    corner: (u32, u32),
    id: isize,
    Ghost(g): Ghost<GridView>,
    Ghost(now): Ghost<Stamp>,
) -> (index: usize)
    requires
        g.valid(),
        g.in_grid(now.x, now.y),
        0 <= now.slot < 4,
        (corner.0 as int, corner.1 as int) == tile_corner(now.x, now.y, now.slot),
        id == g.tile_id(now.x, now.y),
        corners_ok(g, corner_seq(*old(set)), old(arena)@, now),
    ensures
        corners_ok(
            g,
            corner_seq(*final(set)),
            final(arena)@,
            Stamp { y: now.y, x: now.x, slot: now.slot + 1 },
        ),
        index < corner_seq(*final(set)).len(),
        corner_seq(*final(set))[index as int] == corner,
        corner_seq(*old(set)).len() <= corner_seq(*final(set)).len(),
        forall|a: int|
            0 <= a < corner_seq(*old(set)).len() ==> corner_seq(*final(set))[a] == corner_seq(
                *old(set),
            )[a],
{
    let ghost keys = corner_seq(*set);
    let ghost next = Stamp { y: now.y, x: now.x, slot: now.slot + 1 };
    let ghost ci = corner.0 as int;
    let ghost cj = corner.1 as int;
    proof {
        lemma_tile_id_range(g, now.x, now.y);
        assert(g.is_corner(ci, cj));
        assert(before(g.first_seen(ci, cj), next));
    }
    let r = corner_set_insert(set, corner);
    if r.1 {
        let mut fresh = Connections::new();
        fresh.connection_indices.push(id);
        arena.push(fresh);
        proof {
            let keys2 = corner_seq(*set);
            assert(!before(g.first_seen(ci, cj), now)) by {
                if before(g.first_seen(ci, cj), now) {
                    assert(keys.contains((ci as u32, cj as u32)));
                }
            }
            assert(g.first_seen(ci, cj) == now);
            assert(g.recorded(ci, cj, now) == Seq::<isize>::empty());
            assert(g.recorded(ci, cj, next) =~= seq![id]);
            assert(fresh.connection_indices@ =~= seq![id]);
            assert forall|a: int| 0 <= a < keys2.len() implies {
                &&& g.is_corner((#[trigger] keys2[a]).0 as int, keys2[a].1 as int)
                &&& before(g.first_seen(keys2[a].0 as int, keys2[a].1 as int), next)
                &&& arena@[a].connection_indices@ == g.recorded(
                    keys2[a].0 as int,
                    keys2[a].1 as int,
                    next,
                )
            } by {
                if a < keys.len() {
                    assert(keys2[a] == keys[a]);
                    assert(before(g.first_seen(keys[a].0 as int, keys[a].1 as int), now));
                    assert(arena@[a] == old(arena)@[a]);
                }
            }
            assert forall|i: int, j: int|
                g.is_corner(i, j) && before(#[trigger] g.first_seen(i, j), next) implies keys2.contains(
                (i as u32, j as u32),
            ) by {
                if before(g.first_seen(i, j), now) {
                    let k = (i as u32, j as u32);
                    assert(keys.contains(k));
                    let n = choose|n: int| 0 <= n < keys.len() && keys[n] == k;
                    assert(keys2[n] == k);
                } else {
                    assert(i == ci && j == cj);
                    assert(keys2[keys.len() as int] == corner);
                }
            }
            assert forall|a: int, b: int| 0 <= a < b < keys2.len() implies before(
                g.first_seen((#[trigger] keys2[a]).0 as int, keys2[a].1 as int),
                g.first_seen((#[trigger] keys2[b]).0 as int, keys2[b].1 as int),
            ) by {
                assert(keys2[a] == keys[a]);
                if b < keys.len() {
                    assert(keys2[b] == keys[b]);
                }
            }
        }
    } else {
        arena[r.0].connection_indices.push(id);
        proof {
            let at = r.0 as int;
            assert(keys[at] == corner);
            assert(g.recorded(ci, cj, next) == g.recorded(ci, cj, now).push(id));
            assert forall|a: int| 0 <= a < keys.len() implies {
                &&& g.is_corner((#[trigger] keys[a]).0 as int, keys[a].1 as int)
                &&& before(g.first_seen(keys[a].0 as int, keys[a].1 as int), next)
                &&& arena@[a].connection_indices@ == g.recorded(
                    keys[a].0 as int,
                    keys[a].1 as int,
                    next,
                )
            } by {
                assert(before(g.first_seen(keys[a].0 as int, keys[a].1 as int), now));
                if a != at {
                    assert(arena@[a] == old(arena)@[a]);
                    if a < at {
                        assert(before(
                            g.first_seen(keys[a].0 as int, keys[a].1 as int),
                            g.first_seen(keys[at].0 as int, keys[at].1 as int),
                        ));
                    } else {
                        assert(before(
                            g.first_seen(keys[at].0 as int, keys[at].1 as int),
                            g.first_seen(keys[a].0 as int, keys[a].1 as int),
                        ));
                    }
                    assert(keys[a] != corner);
                }
            }
            assert forall|i: int, j: int|
                g.is_corner(i, j) && before(#[trigger] g.first_seen(i, j), next) implies keys.contains(
                (i as u32, j as u32),
            ) by {
                if !before(g.first_seen(i, j), now) {
                    assert(i == ci && j == cj);
                }
            }
        }
    }
    r.0
}

/// Whether the entry of `keys` at `index` is the corner `(i, j)`.
pub open spec fn key_is(keys: Seq<(u32, u32)>, index: usize, corner: (int, int)) -> bool {
    index < keys.len() && keys[index as int].0 == corner.0 && keys[index as int].1 == corner.1
}

/// What holds of the polygons made when the scan stands at `now`: polygon
/// number `q` is the walkable tile with identifier `q`, it knows where its
/// four corners stand among the corners seen, and every walkable tile that
/// the scan has passed has its polygon.
pub open spec fn polys_ok(g: GridView, keys: Seq<(u32, u32)>, polys: Seq<Polys>, now: Stamp) -> bool {
    &&& forall|q: int|
        0 <= q < polys.len() ==> {
            let p = #[trigger] polys[q];
            let x = p.position.0 as int;
            let y = p.position.1 as int;
            &&& g.open_tile(x, y)
            &&& g.tile_id(x, y) == q
            &&& key_is(keys, p.vertex_indices@[0], tile_corner(x, y, 0))
            &&& key_is(keys, p.vertex_indices@[1], tile_corner(x, y, 1))
            &&& key_is(keys, p.vertex_indices@[2], tile_corner(x, y, 2))
            &&& key_is(keys, p.vertex_indices@[3], tile_corner(x, y, 3))
        }
    &&& forall|x: int, y: int|
        g.open_tile(x, y) && before(Stamp { y, x, slot: 0 }, now) ==> {
            &&& 0 <= #[trigger] g.tile_id(x, y) < polys.len()
            &&& polys[g.tile_id(x, y)].position == (x as u32, y as u32)
        }
}

/// Between two moments that no visit separates, nothing changes.
#[verifier::rlimit(60)]
proof fn lemma_same_moment(
    g: GridView,
    keys: Seq<(u32, u32)>,
    arena: Seq<Connections>,
    polys: Seq<Polys>,
    a: Stamp,
    b: Stamp,
)
    requires
        g.valid(),
        corners_ok(g, keys, arena, a),
        polys_ok(g, keys, polys, a),
        0 <= a.y < g.height,
        1 <= g.width,
        (a.slot == 4 && 0 <= a.x < g.width && b == Stamp { y: a.y, x: a.x + 1, slot: 0 }) || (a.slot
            == 0 && a.x == g.width && b == Stamp { y: a.y + 1, x: 0, slot: 0 }),
    ensures
        corners_ok(g, keys, arena, b),
        polys_ok(g, keys, polys, b),
{
    assert forall|i: int, j: int| g.is_corner(i, j) implies before(g.first_seen(i, j), a) == before(
        #[trigger] g.first_seen(i, j),
        b,
    ) by {}
    assert forall|i: int, j: int| g.is_corner(i, j) implies #[trigger] g.recorded(i, j, a)
        == g.recorded(i, j, b) by {
        assert(g.visited(i - 1, j - 1, 2, a) == g.visited(i - 1, j - 1, 2, b));
        assert(g.visited(i, j - 1, 3, a) == g.visited(i, j - 1, 3, b));
        assert(g.visited(i - 1, j, 1, a) == g.visited(i - 1, j, 1, b));
        assert(g.visited(i, j, 0, a) == g.visited(i, j, 0, b));
    }
    assert forall|k: int| 0 <= k < keys.len() implies {
        &&& g.is_corner((#[trigger] keys[k]).0 as int, keys[k].1 as int)
        &&& before(g.first_seen(keys[k].0 as int, keys[k].1 as int), b)
        &&& arena[k].connection_indices@ == g.recorded(keys[k].0 as int, keys[k].1 as int, b)
    } by {
        let i = keys[k].0 as int;
        let j = keys[k].1 as int;
        assert(before(g.first_seen(i, j), a) == before(g.first_seen(i, j), b));
    }
}

/// Adding corners at the end leaves the polygons' corner indices in place.
proof fn lemma_keys_grow(
    g: GridView,
    keys: Seq<(u32, u32)>,
    longer: Seq<(u32, u32)>,
    polys: Seq<Polys>,
    now: Stamp,
)
    requires
        polys_ok(g, keys, polys, now),
        keys.len() <= longer.len(),
        forall|a: int| 0 <= a < keys.len() ==> longer[a] == keys[a],
    ensures
        polys_ok(g, longer, polys, now),
{
}

/// Visits the four corners of the tile the scan stands at. What comes back is
/// where each of them stands among the corners seen.
#[verifier::rlimit(60)]
fn visit_corners(
    set: &mut IndexSet<(u32, u32), RandomState>,
    arena: &mut Vec<Connections>,
    x: u32,
    y: u32,
    id: isize,
    Ghost(g): Ghost<GridView>,
) -> (r: [usize; 4])
    requires
        g.valid(),
        g.in_grid(x as int, y as int),
        x < 0x7fff_ffff,
        y < 0x7fff_ffff,
        id == g.tile_id(x as int, y as int),
        corners_ok(
            g,
            corner_seq(*old(set)),
            old(arena)@,
            Stamp { y: y as int, x: x as int, slot: 0 },
        ),
    ensures
        corners_ok(
            g,
            corner_seq(*final(set)),
            final(arena)@,
            Stamp { y: y as int, x: x as int, slot: 4 },
        ),
        key_is(corner_seq(*final(set)), r@[0], tile_corner(x as int, y as int, 0)),
        key_is(corner_seq(*final(set)), r@[1], tile_corner(x as int, y as int, 1)),
        key_is(corner_seq(*final(set)), r@[2], tile_corner(x as int, y as int, 2)),
        key_is(corner_seq(*final(set)), r@[3], tile_corner(x as int, y as int, 3)),
        corner_seq(*old(set)).len() <= corner_seq(*final(set)).len(),
        forall|a: int|
            0 <= a < corner_seq(*old(set)).len() ==> corner_seq(*final(set))[a] == corner_seq(
                *old(set),
            )[a],
{
    let v0 = visit(
        set,
        arena,
        (x, y),
        id,
        Ghost(g),
        Ghost(Stamp { y: y as int, x: x as int, slot: 0 }),
    );
    let ghost keys1 = corner_seq(*set);
    let v1 = visit(
        set,
        arena,
        (x + 1, y),
        id,
        Ghost(g),
        Ghost(Stamp { y: y as int, x: x as int, slot: 1 }),
    );
    let ghost keys2 = corner_seq(*set);
    let v2 = visit(
        set,
        arena,
        (x + 1, y + 1),
        id,
        Ghost(g),
        Ghost(Stamp { y: y as int, x: x as int, slot: 2 }),
    );
    let ghost keys3 = corner_seq(*set);
    let v3 = visit(
        set,
        arena,
        (x, y + 1),
        id,
        Ghost(g),
        Ghost(Stamp { y: y as int, x: x as int, slot: 3 }),
    );
    proof {
        let keys4 = corner_seq(*set);
        assert(keys4[v0 as int] == keys1[v0 as int]);
        assert(keys4[v1 as int] == keys2[v1 as int]);
        assert(keys4[v2 as int] == keys3[v2 as int]);
    }
    [v0, v1, v2, v3]
}

/// Scans one tile: its identifier goes to its four corners, and a walkable
/// tile becomes the next polygon. What comes back is the identifier that the
/// next walkable tile gets.
#[verifier::rlimit(60)]
fn scan_tile(
    set: &mut IndexSet<(u32, u32), RandomState>,
    arena: &mut Vec<Connections>,
    polys: &mut Vec<Polys>,
    x: u32,
    y: u32,
    cost: i8,
    highest: isize,
    Ghost(g): Ghost<GridView>,
) -> (next: isize)
    requires
        g.valid(),
        g.in_grid(x as int, y as int),
        x < 0x7fff_ffff,
        y < 0x7fff_ffff,
        cost == g.cost_at(x as int, y as int),
        highest == walkable_before(g.costs, y * g.width + x),
        old(polys)@.len() == highest,
        corners_ok(
            g,
            corner_seq(*old(set)),
            old(arena)@,
            Stamp { y: y as int, x: x as int, slot: 0 },
        ),
        polys_ok(
            g,
            corner_seq(*old(set)),
            old(polys)@,
            Stamp { y: y as int, x: x as int, slot: 0 },
        ),
    ensures
        next == walkable_before(g.costs, y * g.width + x + 1),
        final(polys)@.len() == next,
        corners_ok(
            g,
            corner_seq(*final(set)),
            final(arena)@,
            Stamp { y: y as int, x: x as int + 1, slot: 0 },
        ),
        polys_ok(
            g,
            corner_seq(*final(set)),
            final(polys)@,
            Stamp { y: y as int, x: x as int + 1, slot: 0 },
        ),
{
    proof {
        crate::grid::lemma_tile_index_in_range(g, x as int, y as int);
        crate::grid::lemma_walkable_before_bounds(g.costs, y * g.width + x);
        lemma_tile_id_range(g, x as int, y as int);
    }
    let open: bool = cost >= WALKABLE_THRESHOLD;
    let id: isize = if open {
        highest
    } else {
        -1
    };
    let ghost at = Stamp { y: y as int, x: x as int, slot: 0 };
    let ghost done = Stamp { y: y as int, x: x as int, slot: 4 };
    let ghost after = Stamp { y: y as int, x: x as int + 1, slot: 0 };
    let ghost keys0 = corner_seq(*set);
    let ghost polys0 = polys@;
    let indices = visit_corners(set, arena, x, y, id, Ghost(g));
    let ghost keys4 = corner_seq(*set);
    proof {
        lemma_keys_grow(g, keys0, keys4, polys0, at);
    }
    let next: isize = if open {
        polys.push(Polys::new((x, y), indices));
        highest + 1
    } else {
        highest
    };
    proof {
        assert forall|q: int| 0 <= q < polys@.len() implies {
            let p = #[trigger] polys@[q];
            let x = p.position.0 as int;
            let y = p.position.1 as int;
            &&& g.open_tile(x, y)
            &&& g.tile_id(x, y) == q
            &&& key_is(keys4, p.vertex_indices@[0], tile_corner(x, y, 0))
            &&& key_is(keys4, p.vertex_indices@[1], tile_corner(x, y, 1))
            &&& key_is(keys4, p.vertex_indices@[2], tile_corner(x, y, 2))
            &&& key_is(keys4, p.vertex_indices@[3], tile_corner(x, y, 3))
        } by {
            if q < polys0.len() {
                assert(polys@[q] == polys0[q]);
            }
        }
        assert forall|x2: int, y2: int|
            g.open_tile(x2, y2) && before(Stamp { y: y2, x: x2, slot: 0 }, done) implies {
            &&& 0 <= #[trigger] g.tile_id(x2, y2) < polys@.len()
            &&& polys@[g.tile_id(x2, y2)].position == (x2 as u32, y2 as u32)
        } by {
            if before(Stamp { y: y2, x: x2, slot: 0 }, at) {
                assert(polys@[g.tile_id(x2, y2)] == polys0[g.tile_id(x2, y2)]);
            } else {
                assert(x2 == x && y2 == y);
            }
        }
        assert(polys_ok(g, keys4, polys@, done));
        lemma_same_moment(g, keys4, arena@, polys@, done, after);
    }
    next
}

/// Scans the grid. What comes back is the set of corners in the order in
/// which they were first seen, what was recorded at each, and the polygons.
#[verifier::rlimit(60)]
pub(crate) fn scan(grid: &TileGrid) -> (r: (
    IndexSet<(u32, u32), RandomState>,
    Vec<Connections>,
    Vec<Polys>,
))
    requires
        grid@.width >= 1,
        grid@.height >= 1,
    ensures
        grid@.valid(),
        corners_ok(grid@, corner_seq(r.0), r.1@, grid@.end()),
        polys_ok(grid@, corner_seq(r.0), r.2@, grid@.end()),
        r.2@.len() == grid@.polygon_count(),
{
    let ghost g = grid@;
    let width: u32 = grid.width();
    let height: u32 = grid.height();
    let costs = grid.costs();
    let mut set = corner_set_new();
    let mut arena: Vec<Connections> = Vec::new();
    let mut polys: Vec<Polys> = Vec::new();
    let mut highest: isize = 0;
    let mut t: usize = 0;
    let mut y: u32 = 0;
    proof {
        assert((width + 1) * (height + 1) >= width + 1 && (width + 1) * (height + 1) >= height + 1)
            by (nonlinear_arith)
            requires
                width >= 1,
                height >= 1,
        ;
    }
    while y < height
        invariant
            g == grid@,
            g.valid(),
            width == g.width,
            height == g.height,
            1 <= width < 0x7fff_ffff,
            1 <= height < 0x7fff_ffff,
            costs@ == g.costs,
            y <= height,
            t == y * width,
            highest == walkable_before(g.costs, t as int),
            polys@.len() == highest,
            corners_ok(g, corner_seq(set), arena@, Stamp { y: y as int, x: 0, slot: 0 }),
            polys_ok(g, corner_seq(set), polys@, Stamp { y: y as int, x: 0, slot: 0 }),
        decreases height - y,
    {
        let mut x: u32 = 0;
        while x < width
            invariant
                g == grid@,
                g.valid(),
                width == g.width,
                height == g.height,
                1 <= width < 0x7fff_ffff,
                1 <= height < 0x7fff_ffff,
                costs@ == g.costs,
                y < height,
                x <= width,
                t == y * width + x,
                highest == walkable_before(g.costs, t as int),
                polys@.len() == highest,
                corners_ok(g, corner_seq(set), arena@, Stamp { y: y as int, x: x as int, slot: 0 }),
                polys_ok(g, corner_seq(set), polys@, Stamp { y: y as int, x: x as int, slot: 0 }),
            decreases width - x,
        {
            proof {
                crate::grid::lemma_tile_index_in_range(g, x as int, y as int);
            }
            let cost: i8 = costs[t];
            highest = scan_tile(&mut set, &mut arena, &mut polys, x, y, cost, highest, Ghost(g));
            t = t + 1;
            x = x + 1;
        }
        proof {
            lemma_same_moment(
                g,
                corner_seq(set),
                arena@,
                polys@,
                Stamp { y: y as int, x: x as int, slot: 0 },
                Stamp { y: y as int + 1, x: 0, slot: 0 },
            );
            assert((y + 1) * width == y * width + width) by (nonlinear_arith);
        }
        y = y + 1;
    }
    proof {
        assert(height * width == width * height) by (nonlinear_arith);
    }
    (set, arena, polys)
}

} // verus!
