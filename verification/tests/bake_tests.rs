use glam::Vec2;
use navgrid::grid::TileGrid;
use navgrid::navmesh::{bake, TempNavmesh, NO_POLYGON};

fn grid(width: u32, height: u32, costs: Vec<i8>) -> TileGrid {
    TileGrid::new(width, height, 8, 0, 0, costs).expect("a grid that fits")
}

fn baked(width: u32, height: u32, costs: Vec<i8>) -> TempNavmesh {
    match bake(&grid(width, height, costs)) {
        Ok(nav) => nav,
        Err(_) => panic!("the grid has tiles"),
    }
}

#[test]
fn open_three_by_three_has_sixteen_vertices_and_nine_polygons() {
    let nav = baked(3, 3, vec![5; 9]);
    assert_eq!(nav.vertices().len(), 16);
    assert_eq!(nav.polygons().len(), 9);
    assert!(nav.has_mesh());
    assert_eq!(nav.dimensions(), (48, 48));
}

#[test]
fn open_three_by_three_numbers_corners_as_first_seen() {
    let nav = baked(3, 3, vec![5; 9]);
    let corners: Vec<(u32, u32)> = nav.vertices().iter().map(|v| v.corner).collect();
    assert_eq!(
        corners,
        vec![
            (0, 0),
            (1, 0),
            (1, 1),
            (0, 1),
            (2, 0),
            (2, 1),
            (3, 0),
            (3, 1),
            (1, 2),
            (0, 2),
            (2, 2),
            (3, 2),
            (1, 3),
            (0, 3),
            (2, 3),
            (3, 3),
        ]
    );
    assert_eq!(nav.polygons()[0].vertices, [0, 1, 2, 3]);
    assert_eq!(nav.polygons()[1].vertices, [1, 4, 5, 2]);
    assert_eq!(nav.polygons()[4].vertices, [2, 5, 10, 8]);
    assert_eq!(nav.polygons()[8].vertices, [10, 11, 15, 14]);
}

#[test]
fn open_three_by_three_places_corners_in_world_space() {
    let nav = baked(3, 3, vec![5; 9]);
    let first = &nav.vertices()[0];
    assert_eq!((first.x, first.y), (-8, -8));
    let inner = &nav.vertices()[2];
    assert_eq!(inner.corner, (1, 1));
    assert_eq!((inner.x, inner.y), (8, 8));
    let last = &nav.vertices()[15];
    assert_eq!((last.x, last.y), (40, 40));
}

#[test]
fn open_three_by_three_records_neighbours_in_scan_order() {
    let nav = baked(3, 3, vec![5; 9]);
    let vertices = nav.vertices();
    assert_eq!(vertices[0].polygons, vec![0, NO_POLYGON]);
    assert_eq!(vertices[1].polygons, vec![0, 1, NO_POLYGON]);
    assert_eq!(vertices[2].polygons, vec![0, 1, 3, 4]);
    assert_eq!(vertices[3].polygons, vec![0, 3, NO_POLYGON]);
    assert_eq!(vertices[10].polygons, vec![4, 5, 7, 8]);
    assert_eq!(vertices[15].polygons, vec![8, NO_POLYGON]);
}

#[test]
fn open_three_by_three_interior_polygon_is_not_boundary() {
    let nav = baked(3, 3, vec![5; 9]);
    assert!(!nav.polygons()[4].boundary);
}

#[test]
fn open_three_by_three_flags_follow_the_count_of_identifiers_around() {
    // Every tile of an open 3x3 grid has at least three other tiles at its
    // corners, so more than two identifiers are recorded around each.
    let nav = baked(3, 3, vec![5; 9]);
    for polygon in nav.polygons() {
        assert!(!polygon.boundary);
    }
}

#[test]
fn blocked_centre_leaves_eight_polygons() {
    let mut costs = vec![5i8; 9];
    costs[4] = -1;
    let nav = baked(3, 3, costs);
    assert_eq!(nav.polygons().len(), 8);
    assert_eq!(nav.vertices().len(), 16);
}

#[test]
fn blocked_centre_is_seen_as_sentinel_by_its_four_neighbours() {
    let mut costs = vec![5i8; 9];
    costs[4] = -1;
    let nav = baked(3, 3, costs);
    let vertices = nav.vertices();
    // The four corners of the blocked tile.
    assert_eq!(vertices[2].corner, (1, 1));
    assert_eq!(vertices[2].polygons, vec![0, 1, 3, NO_POLYGON]);
    assert_eq!(vertices[5].corner, (2, 1));
    assert_eq!(vertices[5].polygons, vec![1, 2, NO_POLYGON, 4]);
    assert_eq!(vertices[8].corner, (1, 2));
    assert_eq!(vertices[8].polygons, vec![3, NO_POLYGON, 5, 6]);
    assert_eq!(vertices[10].corner, (2, 2));
    assert_eq!(vertices[10].polygons, vec![NO_POLYGON, 4, 6, 7]);
    // The polygons above, left of, right of and below the blocked tile each
    // have two of these corners.
    for id in [1usize, 3, 4, 6] {
        let polygon = &nav.polygons()[id];
        let touching = polygon
            .vertices
            .iter()
            .filter(|v| vertices[**v as usize].polygons.len() == 4)
            .filter(|v| vertices[**v as usize].polygons.contains(&NO_POLYGON))
            .count();
        assert_eq!(touching, 2);
    }
}

#[test]
fn single_tile_is_a_boundary_polygon() {
    let nav = baked(1, 1, vec![1]);
    assert_eq!(nav.vertices().len(), 4);
    assert_eq!(nav.polygons().len(), 1);
    assert!(nav.polygons()[0].boundary);
    assert_eq!(nav.polygons()[0].vertices, [0, 1, 2, 3]);
    for vertex in nav.vertices() {
        assert_eq!(vertex.polygons, vec![0, NO_POLYGON]);
    }
}

#[test]
fn two_open_tiles_are_boundary_polygons() {
    let nav = baked(2, 1, vec![1, 1]);
    assert_eq!(nav.vertices().len(), 6);
    assert!(nav.polygons()[0].boundary);
    assert!(nav.polygons()[1].boundary);
}

#[test]
fn lone_open_tile_among_blocked_ones_counts_the_sentinel() {
    let mut costs = vec![0i8; 9];
    costs[0] = 1;
    let nav = baked(3, 3, costs);
    assert_eq!(nav.polygons().len(), 1);
    assert_eq!(nav.vertices().len(), 4);
    assert!(nav.polygons()[0].boundary);
    let lists: Vec<Vec<isize>> = nav.vertices().iter().map(|v| v.polygons.clone()).collect();
    assert_eq!(
        lists,
        vec![vec![0, -1], vec![0, -1, -1], vec![0, -1, -1, -1], vec![0, -1, -1]]
    );
}

#[test]
fn one_neighbour_and_a_blocked_tile_make_three_identifiers() {
    // Tiles: open, open, blocked. The middle tile has its own identifier, its
    // neighbour's and the sentinel around it.
    let nav = baked(3, 1, vec![1, 1, 0]);
    assert_eq!(nav.polygons().len(), 2);
    assert!(nav.polygons()[0].boundary);
    assert!(!nav.polygons()[1].boundary);
}

#[test]
fn orphan_corners_are_left_out_and_the_rest_renumbered() {
    // Tile (0, 0) is blocked, tile (1, 0) is walkable: the corners (0, 0) and
    // (0, 1) touch no walkable tile.
    let nav = baked(2, 1, vec![0, 1]);
    let corners: Vec<(u32, u32)> = nav.vertices().iter().map(|v| v.corner).collect();
    assert_eq!(corners, vec![(1, 0), (1, 1), (2, 0), (2, 1)]);
    assert_eq!(nav.polygons().len(), 1);
    assert_eq!(nav.polygons()[0].vertices, [0, 2, 3, 1]);
    assert_eq!(nav.vertices()[0].polygons, vec![NO_POLYGON, 0, NO_POLYGON]);
    assert_eq!(nav.vertices()[2].polygons, vec![0, NO_POLYGON]);
}

#[test]
fn no_vertex_is_surrounded_by_blocked_tiles_only() {
    let costs: Vec<i8> = vec![1, 0, 0, 0, 0, 0, 0, 0, 1, 0, 0, 0, 0, 0, 0, 1];
    let nav = baked(4, 4, costs);
    assert_eq!(nav.polygons().len(), 3);
    assert_eq!(nav.vertices().len(), 12);
    for vertex in nav.vertices() {
        assert!(vertex.polygons.iter().any(|id| *id >= 0));
    }
}

#[test]
fn no_corner_has_two_vertices() {
    let costs: Vec<i8> = vec![3, 1, -2, 7, 0, 1, 1, 1, 4, 0, 0, 2];
    let nav = baked(4, 3, costs);
    let vertices = nav.vertices();
    for a in 0..vertices.len() {
        for b in (a + 1)..vertices.len() {
            assert_ne!(vertices[a].corner, vertices[b].corner);
            assert_ne!((vertices[a].x, vertices[a].y), (vertices[b].x, vertices[b].y));
        }
    }
}

#[test]
fn open_grids_have_every_corner_and_every_tile() {
    for (width, height) in [(1u32, 1u32), (2, 5), (7, 3), (10, 10)] {
        let nav = baked(width, height, vec![1; (width * height) as usize]);
        assert_eq!(nav.vertices().len() as u32, (width + 1) * (height + 1));
        assert_eq!(nav.polygons().len() as u32, width * height);
    }
}

#[test]
fn polygon_indices_lead_to_the_corners_of_the_tile() {
    let costs: Vec<i8> = vec![3, 1, -2, 7, 0, 1, 1, 1, 4, 0, 0, 2];
    let nav = baked(4, 3, costs.clone());
    let mut id = 0usize;
    for y in 0..3u32 {
        for x in 0..4u32 {
            if costs[(y * 4 + x) as usize] < 1 {
                continue;
            }
            let polygon = &nav.polygons()[id];
            let corners: Vec<(u32, u32)> =
                polygon.vertices.iter().map(|v| nav.vertices()[*v as usize].corner).collect();
            assert_eq!(corners, vec![(x, y), (x + 1, y), (x + 1, y + 1), (x, y + 1)]);
            id += 1;
        }
    }
    assert_eq!(id, nav.polygons().len());
}

#[test]
fn grid_without_width_is_refused() {
    let empty = TileGrid::new(0, 3, 8, 0, 0, vec![]).expect("a grid without tiles");
    match bake(&empty) {
        Err(error) => assert_eq!((error.width, error.height), (0, 3)),
        Ok(_) => panic!("a grid without tiles was baked"),
    }
}

#[test]
fn grid_without_height_is_refused() {
    let empty = TileGrid::new(4, 0, 8, 0, 0, vec![]).expect("a grid without tiles");
    assert!(bake(&empty).is_err());
}

#[test]
fn grid_of_blocked_tiles_has_no_mesh() {
    let nav = baked(2, 2, vec![0, -1, 0, -2]);
    assert_eq!(nav.vertices().len(), 0);
    assert_eq!(nav.polygons().len(), 0);
    assert!(!nav.has_mesh());
    assert!(!nav.is_in_mesh(Vec2::new(0.0, 0.0)));
    assert!(nav.path(Vec2::new(0.0, 0.0), Vec2::new(1.0, 1.0)).is_none());
}

#[test]
fn points_on_walkable_tiles_are_in_the_mesh() {
    let mut costs = vec![5i8; 9];
    costs[4] = -1;
    let nav = baked(3, 3, costs);
    assert!(nav.is_in_mesh(Vec2::new(0.0, 0.0)));
    assert!(nav.is_in_mesh(Vec2::new(32.0, 33.0)));
    assert!(!nav.is_in_mesh(Vec2::new(16.0, 16.0)));
    assert!(!nav.is_in_mesh(Vec2::new(100.0, 0.0)));
    assert!(!nav.is_in_mesh(Vec2::new(-20.0, -20.0)));
}

#[test]
fn path_within_one_tile_is_the_destination() {
    let nav = baked(3, 3, vec![5; 9]);
    let to = Vec2::new(3.0, -2.0);
    let path = nav.path(Vec2::new(-4.0, 1.0), to).expect("both points lie on one tile");
    assert_eq!(path, vec![to]);
}

#[test]
fn path_that_is_found_ends_at_the_destination() {
    let nav = baked(3, 3, vec![5; 9]);
    let from = Vec2::new(0.0, 0.0);
    let to = Vec2::new(33.0, 30.0);
    if let Some(path) = nav.path(from, to) {
        assert!(!path.is_empty());
        assert_eq!(*path.last().unwrap(), to);
    }
}

#[test]
fn no_path_leads_to_a_cut_off_tile() {
    let nav = baked(3, 1, vec![1, 0, 1]);
    assert!(nav.is_in_mesh(Vec2::new(0.0, 0.0)));
    assert!(nav.is_in_mesh(Vec2::new(32.0, 0.0)));
    assert!(nav.path(Vec2::new(0.0, 0.0), Vec2::new(32.0, 0.0)).is_none());
}

#[test]
fn no_path_starts_off_the_mesh() {
    let nav = baked(3, 1, vec![1, 0, 1]);
    assert!(nav.path(Vec2::new(16.0, 0.0), Vec2::new(32.0, 0.0)).is_none());
}

#[test]
fn boundary_flag_counts_the_identifiers_in_the_block_around() {
    let width = 9u32;
    let height = 7u32;
    let mut costs: Vec<i8> = (0..width * height)
        .map(|t| if (t * 7 + t / 5) % 3 == 0 || t % 11 == 4 { 0 } else { 2 })
        .collect();
    // The first three rows are blocked but for one tile that stands alone.
    for t in 0..3 * width {
        costs[t as usize] = if t == width + 1 { 1 } else { -1 };
    }
    let nav = baked(width, height, costs.clone());
    let mut ids = vec![NO_POLYGON; costs.len()];
    let mut next = 0isize;
    for (t, cost) in costs.iter().enumerate() {
        if *cost >= 1 {
            ids[t] = next;
            next += 1;
        }
    }
    assert_eq!(nav.polygons().len() as isize, next);
    let mut flagged = 0usize;
    for y in 0..height as i64 {
        for x in 0..width as i64 {
            let own = ids[(y * width as i64 + x) as usize];
            if own < 0 {
                continue;
            }
            let mut around = std::collections::BTreeSet::new();
            for dy in -1..=1i64 {
                for dx in -1..=1i64 {
                    let (nx, ny) = (x + dx, y + dy);
                    if nx >= 0 && ny >= 0 && nx < width as i64 && ny < height as i64 {
                        around.insert(ids[(ny * width as i64 + nx) as usize]);
                    }
                }
            }
            let polygon = &nav.polygons()[own as usize];
            assert_eq!(polygon.boundary, around.len() <= 2);
            if polygon.boundary {
                flagged += 1;
            }
        }
    }
    assert!(flagged > 0);
}

#[test]
fn neighbours_of_a_vertex_have_it_as_a_corner() {
    let costs: Vec<i8> = vec![3, 1, -2, 7, 0, 1, 1, 1, 4, 0, 0, 2];
    let nav = baked(4, 3, costs);
    for (index, vertex) in nav.vertices().iter().enumerate() {
        for id in vertex.polygons.iter() {
            if *id == NO_POLYGON {
                continue;
            }
            let polygon = &nav.polygons()[*id as usize];
            assert!(polygon.vertices.contains(&(index as u32)));
        }
    }
}

#[test]
fn sides_of_a_polygon_go_round_its_corners() {
    let nav = baked(3, 3, vec![5; 9]);
    assert_eq!(nav.polygons()[4].edges(), [(2, 5), (5, 10), (10, 8), (8, 2)]);
}

#[test]
fn long_row_with_scattered_tiles_can_be_searched() {
    // Walkable tiles ever further apart along one long row.
    let width = 100_000u32;
    let mut costs = vec![0i8; width as usize];
    let mut position = 1.0f64;
    let mut open = Vec::new();
    while (position as u32) < width {
        if open.last() != Some(&(position as u32)) {
            open.push(position as u32);
            costs[position as usize] = 1;
        }
        position *= 1.2;
    }
    let grid = TileGrid::new(width, 1, 1, 1, 1, costs).expect("a grid that fits");
    let nav = match bake(&grid) {
        Ok(nav) => nav,
        Err(_) => panic!("the grid has tiles"),
    };
    assert_eq!(nav.polygons().len(), open.len());
    assert!(open.len() > 40);
    for tile in open.iter() {
        let centre = Vec2::new(1.0 + 2.0 * *tile as f32, 1.0);
        assert!(nav.is_in_mesh(centre));
        assert_eq!(nav.path(centre, centre), Some(vec![centre]));
    }
    assert!(!nav.is_in_mesh(Vec2::new(1.0, 1.0)));
    assert!(nav.is_in_mesh(Vec2::new(3.0, 1.0)));
    // Tiles 1 to 8 are walkable and hang together; tile 9 is blocked, so tile
    // 10 stands alone.
    assert!(nav.path(Vec2::new(3.0, 1.0), Vec2::new(11.0, 1.5)).is_some());
    assert!(nav.path(Vec2::new(3.0, 1.0), Vec2::new(21.0, 1.0)).is_none());
}
