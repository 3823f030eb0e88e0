//! Generating a map: a grid of the wanted size, centred on the origin of
//! world space, with costs drawn from a seeded generator of the `fastrand`
//! crate.

use crate::grid::{
    lemma_tile_index_apart, lemma_tile_index_split, GridView, MapDimensions, TileGrid,
    COORD_LIMIT, CORNER_LIMIT,
};
use fastrand::Rng;
use vstd::prelude::*;

verus! {

#[verifier::external_type_specification]
#[verifier::external_body]
pub struct ExRng(Rng);

/// The seed of the generator that draws the costs.
pub const MAP_SEED: u64 = 1;

/// Costs are drawn from `COST_LOW` up to, not including, `COST_HIGH`.
pub const COST_LOW: i8 = -2;

pub const COST_HIGH: i8 = 8;

/// Half the width of a tile of a generated map, in world space.
pub const HALF_TILE: i32 = 8;

/// The seed that a generator holds at the moment, as `fastrand::Rng::get_seed`
/// gives it. Every draw moves it on.
pub uninterp spec fn seed_of(rng: Rng) -> u64;

/// What `fastrand::Rng::i8` does on a generator that holds `seed`, asked for
/// a number from `low` up to, not including, `high`: the number it gives, and
/// the seed that the generator holds afterwards.
pub uninterp spec fn drawn(seed: u64, low: i8, high: i8) -> (i8, u64);

/// `fastrand::Rng::with_seed`: a generator that holds the seed.
#[verifier::external_body]
fn seeded(seed: u64) -> (rng: Rng)
    ensures
        seed_of(rng) == seed,
{
    Rng::with_seed(seed)
}

/// `fastrand::Rng::i8` on the range from `low` up to, not including, `high`:
/// a number of that range, fixed by the seed that the generator holds, and
/// the generator holds the next seed afterwards. An empty range makes it
/// panic, which `requires` leaves out.
#[verifier::external_body]
fn draw(rng: &mut Rng, low: i8, high: i8) -> (r: i8)
    requires
        low < high,
    ensures
        r == drawn(seed_of(*old(rng)), low, high).0,
        seed_of(*final(rng)) == drawn(seed_of(*old(rng)), low, high).1,
        low <= r < high,
{
    rng.i8(low..high)
}

/// The seed that the generator of a map holds after `n` costs were drawn.
pub open spec fn seed_after(n: nat) -> u64
    decreases n,
{
    if n == 0 {
        MAP_SEED
    } else {
        drawn(seed_after((n - 1) as nat), COST_LOW, COST_HIGH).1
    }
}

/// The cost that is drawn as number `n`, counting from zero.
pub open spec fn cost_drawn(n: nat) -> i8 {
    drawn(seed_after(n), COST_LOW, COST_HIGH).0
}

/// The number of the draw that gives tile `(x, y)` its cost: costs are drawn
/// column by column, each column from its low end.
pub open spec fn draw_number(height: int, x: int, y: int) -> nat {
    (x * height + y) as nat
}

/// The grid of a generated map but for its costs, which are all set to one
/// here: tiles `2 * HALF_TILE` wide, and the centre of tile `(0, 0)` half the
/// map's width to the left of and half its height below the origin of world
/// space.
pub open spec fn placed(dimensions: MapDimensions) -> GridView {
    GridView {
        width: dimensions.width as int,
        height: dimensions.height as int,
        half_cell: HALF_TILE as int,
        origin_x: -dimensions.width * HALF_TILE,
        origin_y: -dimensions.height * HALF_TILE,
        costs: Seq::new((dimensions.width * dimensions.height) as nat, |t: int| 1i8),
    }
}

/// Whether `g` is the generated map of the given size: it is placed as
/// [`placed`] says, every tile has the cost that was drawn for it, and every
/// cost lies in the range that costs are drawn from.
pub open spec fn is_generated(g: GridView, dimensions: MapDimensions) -> bool {
    &&& g.width == placed(dimensions).width
    &&& g.height == placed(dimensions).height
    &&& g.half_cell == placed(dimensions).half_cell
    &&& g.origin_x == placed(dimensions).origin_x
    &&& g.origin_y == placed(dimensions).origin_y
    &&& g.costs.len() == g.width * g.height
    &&& forall|x: int, y: int|
        g.in_grid(x, y) ==> g.cost_at(x, y) == cost_drawn(#[trigger] draw_number(g.height, x, y))
    &&& forall|t: int| 0 <= t < g.costs.len() ==> COST_LOW <= #[trigger] g.costs[t] < COST_HIGH
}

/// A list of `count` costs, each of them `cost`.
fn filled(count: usize, cost: i8) -> (r: Vec<i8>)
    ensures
        r@.len() == count,
        forall|t: int| 0 <= t < count ==> r@[t] == cost,
{
    let mut out: Vec<i8> = Vec::new();
    let mut n: usize = 0;
    while n < count
        invariant
            n <= count,
            out@.len() == n,
            forall|t: int| 0 <= t < n ==> out@[t] == cost,
        decreases count - n,
    {
        out.push(cost);
        n = n + 1;
    }
    out
}

/// Generates a map of the given size. The costs are drawn column by column,
/// each column from its low end, from a generator seeded with [`MAP_SEED`].
/// The result is `None` exactly when a grid of this size does not fit into
/// world space.
#[verifier::rlimit(60)]
pub fn generate_map(dimensions: &MapDimensions) -> (r: Option<TileGrid>)
    ensures
        r.is_some() == placed(*dimensions).valid(),
        r matches Some(grid) ==> is_generated(grid@, *dimensions) && grid@.valid(),
{
    let width: u32 = dimensions.width;
    let height: u32 = dimensions.height;
    let w: u64 = width as u64;
    let h: u64 = height as u64;
    let ghost p = placed(*dimensions);
    if w > CORNER_LIMIT || h > CORNER_LIMIT {
        assert((w + 1) * (h + 1) > CORNER_LIMIT) by (nonlinear_arith)
            requires
                w > CORNER_LIMIT || h > CORNER_LIMIT,
                0 <= w,
                0 <= h,
        ;
        return None;
    }
    assert((w + 1) * (h + 1) <= 0x8000_0000 * 0x8000_0000 && 0 <= w * h <= (w + 1) * (h + 1))
        by (nonlinear_arith)
        requires
            0 <= w <= 0x7fff_ffff,
            0 <= h <= 0x7fff_ffff,
    ;
    if (w + 1) * (h + 1) > CORNER_LIMIT {
        return None;
    }
    let count: usize = (w * h) as usize;
    let origin_x: i64 = -(w as i64) * (HALF_TILE as i64);
    let origin_y: i64 = -(h as i64) * (HALF_TILE as i64);
    if origin_x < -(COORD_LIMIT as i64) || origin_y < -(COORD_LIMIT as i64) {
        return None;
    }
    let mut costs: Vec<i8> = filled(count, 1);
    let mut rng = seeded(MAP_SEED);
    let mut drawn_so_far: usize = 0;
    let mut x: u32 = 0;
    while x < width
        invariant
            x <= width,
            w == width,
            h == height,
            count == w * h,
            costs@.len() == count,
            drawn_so_far == x * h,
            seed_of(rng) == seed_after(drawn_so_far as nat),
            forall|t: int| 0 <= t < count ==> COST_LOW <= #[trigger] costs@[t] < COST_HIGH,
            forall|x2: int, y2: int|
                0 <= x2 < x && 0 <= y2 < h ==> costs@[y2 * w + x2] == cost_drawn(
                    #[trigger] draw_number(h as int, x2, y2),
                ),
        decreases width - x,
    {
        let mut y: u32 = 0;
        while y < height
            invariant
                x < width,
                y <= height,
                w == width,
                h == height,
                count == w * h,
                costs@.len() == count,
                drawn_so_far == x * h + y,
                seed_of(rng) == seed_after(drawn_so_far as nat),
                forall|t: int| 0 <= t < count ==> COST_LOW <= #[trigger] costs@[t] < COST_HIGH,
                forall|x2: int, y2: int|
                    0 <= y2 < h && (0 <= x2 < x || (x2 == x && y2 < y)) ==> costs@[y2 * w + x2]
                        == cost_drawn(#[trigger] draw_number(h as int, x2, y2)),
            decreases height - y,
        {
            proof {
                lemma_tile_index_apart(w as int, h as int, x as int, y as int, x as int, y as int);
                lemma_tile_index_apart(h as int, w as int, y as int, x as int, y as int, x as int);
            }
            let index: usize = ((y as u64) * w + x as u64) as usize;
            let ghost before = costs@;
            let cost: i8 = draw(&mut rng, COST_LOW, COST_HIGH);
            costs.set(index, cost);
            proof {
                assert(cost == cost_drawn(draw_number(h as int, x as int, y as int)));
                assert forall|x2: int, y2: int|
                    0 <= y2 < h && (0 <= x2 < x || (x2 == x && y2 < y + 1)) implies costs@[y2 * w
                    + x2] == cost_drawn(#[trigger] draw_number(h as int, x2, y2)) by {
                    lemma_tile_index_apart(w as int, h as int, x2, y2, x as int, y as int);
                    if x2 != x || y2 != y {
                        assert(costs@[y2 * w + x2] == before[y2 * w + x2]);
                    }
                }
            }
            drawn_so_far = drawn_so_far + 1;
            y = y + 1;
        }
        proof {
            assert((x + 1) * h == x * h + h) by (nonlinear_arith);
        }
        x = x + 1;
    }
    let ghost made_costs = costs@;
    let grid = TileGrid::new(width, height, HALF_TILE, origin_x as i32, origin_y as i32, costs);
    proof {
        let made = GridView {
            width: width as int,
            height: height as int,
            half_cell: HALF_TILE as int,
            origin_x: origin_x as int,
            origin_y: origin_y as int,
            costs: made_costs,
        };
        assert(made.valid() == p.valid());
    }
    grid
}

/// The generated map of a size is one map: two grids that are both the
/// generated map of the same size have the same costs, tile by tile.
pub proof fn law_generated_once(a: GridView, b: GridView, dimensions: MapDimensions)
    requires
        is_generated(a, dimensions),
        is_generated(b, dimensions),
    ensures
        a.costs == b.costs,
        a == b,
{
    assert forall|t: int| 0 <= t < a.costs.len() implies a.costs[t] == b.costs[t] by {
        assert(a.width > 0) by (nonlinear_arith)
            requires
                0 <= t < a.width * a.height,
                0 <= a.width,
        ;
        lemma_tile_index_split(a.width, a.height, t);
        let x = t % a.width;
        let y = t / a.width;
        assert(a.in_grid(x, y));
        assert(a.cost_at(x, y) == cost_drawn(draw_number(a.height, x, y)));
        assert(b.cost_at(x, y) == cost_drawn(draw_number(b.height, x, y)));
    }
    assert(a.costs =~= b.costs);
}

} // verus!
