use navgrid::generate::{generate_map, COST_HIGH, COST_LOW, HALF_TILE};
use navgrid::grid::{MapDimensions, MapPlugin, TileCost, TileGrid};
use navgrid::modes::{DisplayMode, Modes, MyNavPlugin, TaskMode};
use navgrid::navmesh::bake;
use navgrid::scan::{Connections, Polys};

#[test]
fn default_tile_cost_is_one_and_walkable() {
    let cost = TileCost::default();
    assert_eq!(cost.cost(), 1);
    assert!(cost.is_walkable());
    assert_eq!(cost.texture_index(), 0);
}

#[test]
fn costs_below_one_are_obstacles() {
    for cost in [0i8, -1, -2, i8::MIN] {
        assert!(!TileCost::new(cost).is_walkable());
        assert_eq!(TileCost::new(cost).texture_index(), 1);
    }
    for cost in [1i8, 2, 7, i8::MAX] {
        assert!(TileCost::new(cost).is_walkable());
        assert_eq!(TileCost::new(cost).texture_index(), 0);
    }
}

#[test]
fn map_stage_sets_up_a_204_by_102_map() {
    let dimensions = MapPlugin.dimensions();
    assert_eq!((dimensions.width, dimensions.height), (204, 102));
}

#[test]
fn new_connections_are_empty() {
    assert!(Connections::new().connection_indices.is_empty());
}

#[test]
fn polys_keep_what_they_are_given() {
    let polys = Polys::new((2, 3), [4, 5, 6, 7]);
    assert_eq!(polys.position, (2, 3));
    assert_eq!(polys.vertex_indices, [4, 5, 6, 7]);
}

#[test]
fn grid_gives_costs_by_column_and_row() {
    let grid = TileGrid::new(3, 2, 8, -16, 40, vec![1, 2, 3, 4, 5, 6]).expect("a grid that fits");
    assert_eq!(grid.width(), 3);
    assert_eq!(grid.height(), 2);
    assert_eq!(grid.half_cell(), 8);
    assert_eq!(grid.origin(), (-16, 40));
    assert_eq!(grid.world_size(), (48, 32));
    assert_eq!(grid.cost(0, 0).map(|c| c.cost()), Some(1));
    assert_eq!(grid.cost(2, 0).map(|c| c.cost()), Some(3));
    assert_eq!(grid.cost(0, 1).map(|c| c.cost()), Some(4));
    assert_eq!(grid.cost(2, 1).map(|c| c.cost()), Some(6));
    assert!(grid.cost(3, 0).is_none());
    assert!(grid.cost(0, 2).is_none());
}

#[test]
fn grid_needs_one_cost_per_tile() {
    assert!(TileGrid::new(3, 2, 8, 0, 0, vec![1; 5]).is_none());
    assert!(TileGrid::new(3, 2, 8, 0, 0, vec![1; 7]).is_none());
    assert!(TileGrid::new(3, 2, 8, 0, 0, vec![1; 6]).is_some());
}

#[test]
fn grid_needs_a_positive_cell_size() {
    assert!(TileGrid::new(1, 1, 0, 0, 0, vec![1]).is_none());
    assert!(TileGrid::new(1, 1, -4, 0, 0, vec![1]).is_none());
    assert!(TileGrid::new(1, 1, 1, 0, 0, vec![1]).is_some());
}

#[test]
fn grid_has_to_fit_into_world_space() {
    // The low corner lies at the origin less half a cell.
    assert!(TileGrid::new(1, 1, 8, -16_777_208, 0, vec![1]).is_some());
    assert!(TileGrid::new(1, 1, 8, -16_777_209, 0, vec![1]).is_none());
    // The high corner lies at the origin plus half a cell.
    assert!(TileGrid::new(1, 1, 8, 0, 16_777_208, vec![1]).is_some());
    assert!(TileGrid::new(1, 1, 8, 0, 16_777_209, vec![1]).is_none());
    assert!(TileGrid::new(1, 1, 16_777_217, 0, 0, vec![1]).is_none());
}

#[test]
fn generated_map_has_the_wanted_size_and_drawn_costs() {
    let dimensions = MapPlugin.dimensions();
    let grid = generate_map(&dimensions).expect("a map that fits");
    assert_eq!(grid.width(), 204);
    assert_eq!(grid.height(), 102);
    assert_eq!(grid.half_cell(), HALF_TILE);
    assert_eq!(grid.origin(), (-1632, -816));
    let mut seen = std::collections::BTreeSet::new();
    for y in 0..102 {
        for x in 0..204 {
            let cost = grid.cost(x, y).expect("a tile of the grid").cost();
            assert!(COST_LOW <= cost && cost < COST_HIGH);
            seen.insert(cost);
        }
    }
    // Every cost of the range turns up among twenty thousand draws.
    assert_eq!(seen.len(), 10);
}

#[test]
fn generated_map_is_the_same_every_time() {
    let dimensions = MapDimensions { width: 12, height: 9 };
    let first = generate_map(&dimensions).expect("a map that fits");
    let second = generate_map(&dimensions).expect("a map that fits");
    for y in 0..9 {
        for x in 0..12 {
            assert_eq!(
                first.cost(x, y).map(|c| c.cost()),
                second.cost(x, y).map(|c| c.cost())
            );
        }
    }
}

#[test]
fn generated_map_draws_costs_column_by_column() {
    let rng = fastrand::Rng::with_seed(1);
    let dimensions = MapDimensions { width: 5, height: 4 };
    let grid = generate_map(&dimensions).expect("a map that fits");
    for x in 0..5 {
        for y in 0..4 {
            assert_eq!(grid.cost(x, y).map(|c| c.cost()), Some(rng.i8(-2..8)));
        }
    }
}

#[test]
fn generated_map_can_be_baked() {
    let grid = generate_map(&MapDimensions { width: 40, height: 30 }).expect("a map that fits");
    let nav = match bake(&grid) {
        Ok(nav) => nav,
        Err(_) => panic!("the map has tiles"),
    };
    let mut walkable = 0usize;
    for y in 0..30 {
        for x in 0..40 {
            if grid.cost(x, y).expect("a tile of the grid").is_walkable() {
                walkable += 1;
            }
        }
    }
    assert_eq!(nav.polygons().len(), walkable);
    assert_eq!(nav.dimensions(), (640, 480));
    for polygon in nav.polygons() {
        for index in polygon.vertices {
            assert!((index as usize) < nav.vertices().len());
        }
    }
}

#[test]
fn map_too_large_for_world_space_is_not_generated() {
    assert!(generate_map(&MapDimensions { width: 3_000_000, height: 1 }).is_none());
    assert!(generate_map(&MapDimensions { width: 70_000, height: 70_000 }).is_none());
}

#[test]
fn switches_flip_back_and_forth() {
    assert_eq!(TaskMode::Async.toggled(), TaskMode::Blocking);
    assert_eq!(TaskMode::Blocking.toggled(), TaskMode::Async);
    assert_eq!(DisplayMode::Line.toggled(), DisplayMode::Nothing);
    assert_eq!(DisplayMode::Nothing.toggled(), DisplayMode::Line);
}

#[test]
fn labels_are_those_of_the_display() {
    assert_eq!(TaskMode::Async.label(), "Async");
    assert_eq!(TaskMode::Blocking.label(), "Blocking");
    assert_eq!(DisplayMode::Line.toggle_label(), "hide lines");
    assert_eq!(DisplayMode::Nothing.toggle_label(), "display lines");
}

#[test]
fn simulation_starts_blocking_with_lines() {
    let modes = MyNavPlugin.modes();
    assert_eq!(modes.task_mode, TaskMode::Blocking);
    assert_eq!(modes.display_mode, DisplayMode::Line);
    assert_eq!(MyNavPlugin.min_threads(), 1);
}

#[test]
fn mode_change_flips_what_was_pressed() {
    let mut modes = Modes { task_mode: TaskMode::Blocking, display_mode: DisplayMode::Line };
    modes.mode_change(false, false);
    assert_eq!(modes, Modes { task_mode: TaskMode::Blocking, display_mode: DisplayMode::Line });
    modes.mode_change(true, false);
    assert_eq!(modes, Modes { task_mode: TaskMode::Async, display_mode: DisplayMode::Line });
    modes.mode_change(false, true);
    assert_eq!(modes, Modes { task_mode: TaskMode::Async, display_mode: DisplayMode::Nothing });
    modes.mode_change(true, true);
    assert_eq!(modes, Modes { task_mode: TaskMode::Blocking, display_mode: DisplayMode::Line });
}

#[test]
fn generated_map_has_its_first_tile_half_the_map_from_the_origin() {
    let grid = generate_map(&MapDimensions { width: 6, height: 4 }).expect("a map that fits");
    assert_eq!(grid.origin(), (-48, -32));
    assert_eq!(grid.world_size(), (96, 64));
}
