//! Baking a tile grid into the vertices and polygons of a navigation mesh.
//!
//! A vertex is a corner of the grid that a walkable tile touches; a polygon is
//! a walkable tile. Vertices are numbered in the order in which a row-by-row
//! scan of the tiles first comes to them, corners that only blocked tiles
//! touch left out. [`is_bake_of`] says what the baked mesh of a grid is, and
//! [`bake`] computes it.

use crate::corner_set::{corner_seq, corner_set_get};
use crate::corners::{before, has_polygon, lemma_adjacency, tile_corner};
use crate::grid::{GridView, MapSizeError, TileGrid};
use crate::laws::lemma_count_corners;
use crate::mesh::{
    bake_islands, build_mesh, built, in_mesh, indices_ok, mesh_contains, mesh_of, mesh_path,
    path_between, raw_mesh_of, Point,
};
use crate::scan::{corners_ok, key_is, polys_ok, scan, Connections, Polys};
use indexmap::IndexSet;
use polyanya::Mesh;
use std::collections::hash_map::RandomState;
use std::collections::HashSet;
use vstd::prelude::*;

verus! {

/// The identifier that stands for "no polygon": a blocked tile, or the open
/// side of a vertex on the rim of the grid.
pub const NO_POLYGON: isize = -1;

/// A corner of the grid that at least one walkable tile touches.
pub struct Vertex {
    /// The corner's column and row in the grid.
    pub corner: (u32, u32),
    /// The corner's place in world space.
    pub x: i32,
    pub y: i32,
    /// The identifiers of the polygons around the corner.
    pub polygons: Vec<isize>,
}

/// A walkable tile, as the indices of the vertices at its four corners.
pub struct Polygon {
    pub vertices: [u32; 4],
    /// Whether at most two distinct identifiers are recorded around the tile.
    pub boundary: bool,
}

impl Polygon {
    /// The four sides of the polygon, each as the indices of the two vertices
    /// it runs between: side `k` runs from corner `k` to the corner after it,
    /// the last side back to the first corner.
    pub fn edges(&self) -> (r: [(u32, u32); 4])
        ensures
            forall|k: int|
                0 <= k < 4 ==> #[trigger] r@[k] == (self.vertices@[k], self.vertices@[(k + 1) % 4]),
    {
        [
            (self.vertices[0], self.vertices[1]),
            (self.vertices[1], self.vertices[2]),
            (self.vertices[2], self.vertices[3]),
            (self.vertices[3], self.vertices[0]),
        ]
    }
}

/// Whether some vertex of the list stands at corner `(i, j)`.
pub open spec fn holds_corner(vertices: Seq<Vertex>, i: int, j: int) -> bool {
    exists|a: int|
        0 <= a < vertices.len() && (#[trigger] vertices[a]).corner == (i as u32, j as u32)
}

/// Whether the vertex at `index` stands at the given corner.
pub open spec fn vertex_at(vertices: Seq<Vertex>, index: u32, corner: (int, int)) -> bool {
    &&& index < vertices.len()
    &&& vertices[index as int].corner.0 == corner.0
    &&& vertices[index as int].corner.1 == corner.1
}

impl GridView {
    /// Whether `v` is the vertex at its corner: the corner is one that a
    /// walkable tile touches, the position is the corner's place in world
    /// space, and the neighbours are the identifiers recorded at the corner,
    /// padded with one sentinel where fewer than four tiles meet.
    pub open spec fn vertex_ok(self, v: Vertex) -> bool {
        let i = v.corner.0 as int;
        let j = v.corner.1 as int;
        &&& self.is_corner(i, j)
        &&& self.touches_open(i, j)
        &&& v.x == self.world_x(i)
        &&& v.y == self.world_y(j)
        &&& v.polygons@ == self.padded(i, j)
    }

    /// Whether `p` is the polygon of tile `(x, y)` over the given vertices:
    /// its four indices lead to the tile's four corners in order, and its flag
    /// says whether at most two distinct identifiers are recorded around it.
    pub open spec fn polygon_ok(self, vertices: Seq<Vertex>, p: Polygon, x: int, y: int) -> bool {
        &&& vertex_at(vertices, p.vertices@[0], tile_corner(x, y, 0))
        &&& vertex_at(vertices, p.vertices@[1], tile_corner(x, y, 1))
        &&& vertex_at(vertices, p.vertices@[2], tile_corner(x, y, 2))
        &&& vertex_at(vertices, p.vertices@[3], tile_corner(x, y, 3))
        &&& p.boundary == (self.around(x, y).len() <= 2)
    }
}

/// Whether `vertices` are the vertices of the grid: each is the vertex at its
/// corner, they stand in the order in which the scan first comes to their
/// corners, and every corner that a walkable tile touches has its vertex.
pub open spec fn vertices_ok(g: GridView, vertices: Seq<Vertex>) -> bool {
    &&& forall|a: int| 0 <= a < vertices.len() ==> g.vertex_ok(#[trigger] vertices[a])
    &&& forall|a: int, b: int|
        0 <= a < b < vertices.len() ==> before(
            g.first_seen((#[trigger] vertices[a]).corner.0 as int, vertices[a].corner.1 as int),
            g.first_seen((#[trigger] vertices[b]).corner.0 as int, vertices[b].corner.1 as int),
        )
    &&& forall|i: int, j: int|
        g.is_corner(i, j) && #[trigger] g.touches_open(i, j) ==> holds_corner(vertices, i, j)
}

/// Whether `polygons` are the polygons of the grid over the given vertices:
/// there is one for each walkable tile, at the place of the tile's identifier.
pub open spec fn polygons_ok(g: GridView, vertices: Seq<Vertex>, polygons: Seq<Polygon>) -> bool {
    &&& polygons.len() == g.polygon_count()
    &&& forall|x: int, y: int|
        g.open_tile(x, y) ==> {
            &&& 0 <= #[trigger] g.tile_id(x, y) < polygons.len()
            &&& g.polygon_ok(vertices, polygons[g.tile_id(x, y)], x, y)
        }
}

/// What a baked mesh is, mathematically.
pub struct NavView {
    pub vertices: Seq<Vertex>,
    pub polygons: Seq<Polygon>,
    pub mesh: Option<Mesh>,
    pub width: int,
    pub height: int,
}

/// Whether `nav` is the baked mesh of grid `g`: its vertices and polygons are
/// those of the grid, its search mesh is made of exactly these (there is none
/// where the grid has no walkable tile), and its size is that of the grid in
/// world space.
pub open spec fn is_bake_of(g: GridView, nav: NavView) -> bool {
    &&& vertices_ok(g, nav.vertices)
    &&& polygons_ok(g, nav.vertices, nav.polygons)
    &&& nav.polygons.len() == 0 ==> nav.mesh.is_none()
    &&& nav.polygons.len() > 0 ==> nav.mesh == Some(mesh_of(nav.vertices, nav.polygons))
    &&& nav.width == 2 * g.half_cell * g.width
    &&& nav.height == 2 * g.half_cell * g.height
}

/// The baked navigation mesh of a grid.
pub struct TempNavmesh {
    vertices: Vec<Vertex>,
    polygons: Vec<Polygon>,
    mesh: Option<Mesh>,
    dimensions: (u32, u32),
}

impl View for TempNavmesh {
    type V = NavView;

    closed spec fn view(&self) -> NavView {
        NavView {
            vertices: self.vertices@,
            polygons: self.polygons@,
            mesh: self.mesh,
            width: self.dimensions.0 as int,
            height: self.dimensions.1 as int,
        }
    }
}

impl TempNavmesh {
    #[verifier::type_invariant]
    spec fn inv(self) -> bool {
        self.mesh matches Some(m) ==> built(m)
    }

    pub fn vertices(&self) -> (r: &Vec<Vertex>)
        ensures
            r@ == self@.vertices,
    {
        &self.vertices
    }

    pub fn polygons(&self) -> (r: &Vec<Polygon>)
        ensures
            r@ == self@.polygons,
    {
        &self.polygons
    }

    /// The width and height of the grid in world space.
    pub fn dimensions(&self) -> (r: (u32, u32))
        ensures
            r.0 == self@.width,
            r.1 == self@.height,
    {
        self.dimensions
    }

    /// The search mesh, for searches that the caller runs itself. There is
    /// none where the grid had no walkable tile.
    pub fn mesh(&self) -> (r: Option<&Mesh>)
        ensures
            r.is_some() == self@.mesh.is_some(),
            r matches Some(m) ==> self@.mesh == Some(*m) && built(*m),
    {
        proof {
            use_type_invariant(self);
        }
        self.mesh.as_ref()
    }

    /// Whether the mesh has anything to search: it has none where the grid
    /// had no walkable tile.
    pub fn has_mesh(&self) -> (r: bool)
        ensures
            r == self@.mesh.is_some(),
    {
        self.mesh.is_some()
    }

    /// Whether a point lies on the mesh. No point lies on a mesh without
    /// polygons.
    pub fn is_in_mesh(&self, point: Point) -> (r: bool)
        ensures
            r == match self@.mesh {
                Some(m) => in_mesh(m, point),
                None => false,
            },
    {
        proof {
            use_type_invariant(self);
        }
        match &self.mesh {
            Some(m) => mesh_contains(m, point),
            None => false,
        }
    }

    /// The waypoints from one point to another, the destination last, or
    /// `None` where the search finds no way. A path that is found has at
    /// least one waypoint.
    pub fn path(&self, from: Point, to: Point) -> (r: Option<Vec<Point>>)
        ensures
            r.is_some() == (self@.mesh matches Some(m) && path_between(m, from, to).is_some()),
            r matches Some(path) ==> {
                &&& self@.mesh matches Some(m) && path_between(m, from, to) == Some(path@)
                &&& path@.len() > 0
                &&& path@.last() == to
            },
    {
        proof {
            use_type_invariant(self);
        }
        match &self.mesh {
            Some(m) => mesh_path(m, from, to),
            None => None,
        }
    }
}

/// Whether a list of identifiers names a polygon.
fn names_polygon(ids: &Vec<isize>) -> (r: bool)
    ensures
        r == has_polygon(ids@),
{
    let mut n: usize = 0;
    while n < ids.len()
        invariant
            n <= ids@.len(),
            forall|m: int| 0 <= m < n ==> ids@[m] < 0,
        decreases ids@.len() - n,
    {
        if ids[n] > NO_POLYGON {
            return true;
        }
        n = n + 1;
    }
    false
}

/// The neighbour list of a vertex: the identifiers recorded at its corner,
/// and one sentinel more where there are fewer than four.
fn padded_ids(ids: &Vec<isize>) -> (r: Vec<isize>)
    ensures
        r@ == if ids@.len() < 4 {
            ids@.push(NO_POLYGON)
        } else {
            ids@
        },
{
    let mut out: Vec<isize> = Vec::new();
    let mut n: usize = 0;
    while n < ids.len()
        invariant
            n <= ids@.len(),
            out@ == ids@.take(n as int),
        decreases ids@.len() - n,
    {
        out.push(ids[n]);
        assert(ids@.take(n as int + 1) == ids@.take(n as int).push(ids@[n as int]));
        n = n + 1;
    }
    assert(ids@.take(n as int) == ids@);
    if out.len() < 4 {
        out.push(NO_POLYGON);
    }
    out
}

/// Turns the corners that the scan has seen into vertices, leaving out those
/// that no walkable tile touches. `renumbered` says, for each corner seen,
/// where its vertex stands.
#[verifier::rlimit(60)]
fn emit_vertices(
    grid: &TileGrid,
    set: &IndexSet<(u32, u32), RandomState>,
    arena: &Vec<Connections>,
) -> (r: (Vec<Vertex>, Vec<u32>))
    requires
        grid@.width >= 1,
        grid@.height >= 1,
        corners_ok(grid@, corner_seq(*set), arena@, grid@.end()),
    ensures
        vertices_ok(grid@, r.0@),
        r.0@.len() <= corner_seq(*set).len(),
        r.1@.len() == corner_seq(*set).len(),
        forall|a: int|
            0 <= a < corner_seq(*set).len() && grid@.touches_open(
                corner_seq(*set)[a].0 as int,
                corner_seq(*set)[a].1 as int,
            ) ==> vertex_at(
                r.0@,
                #[trigger] r.1@[a],
                (corner_seq(*set)[a].0 as int, corner_seq(*set)[a].1 as int),
            ),
{
    let ghost g = grid@;
    let ghost keys = corner_seq(*set);
    let ghost end = g.end();
    let width: u32 = grid.width();
    let height: u32 = grid.height();
    proof {
        use_type_invariant(grid);
        lemma_count_corners(g, keys);
    }
    let mut vertices: Vec<Vertex> = Vec::new();
    let mut renumbered: Vec<u32> = Vec::new();
    let ghost mut source: Seq<int> = Seq::empty();
    let mut k: usize = 0;
    while k < arena.len()
        invariant
            g == grid@,
            g.valid(),
            g.width >= 1,
            g.height >= 1,
            g.width == width,
            g.height == height,
            keys == corner_seq(*set),
            end == g.end(),
            corners_ok(g, keys, arena@, end),
            keys.len() <= 0x7fff_ffff,
            k <= arena@.len(),
            renumbered@.len() == k,
            vertices@.len() <= k,
            source.len() == vertices@.len(),
            forall|v: int| 0 <= v < vertices@.len() ==> g.vertex_ok(#[trigger] vertices@[v]),
            forall|v: int|
                0 <= v < source.len() ==> 0 <= #[trigger] source[v] < k && keys[source[v]]
                    == vertices@[v].corner,
            forall|v: int, w: int|
                0 <= v < w < source.len() ==> #[trigger] source[v] < #[trigger] source[w],
            forall|a: int|
                0 <= a < k && g.touches_open(keys[a].0 as int, keys[a].1 as int) ==> vertex_at(
                    vertices@,
                    #[trigger] renumbered@[a],
                    (keys[a].0 as int, keys[a].1 as int),
                ),
        decreases arena@.len() - k,
    {
        let found = corner_set_get(set, k);
        let corner: (u32, u32) = found.unwrap();
        let ids = &arena[k].connection_indices;
        proof {
            assert(keys[k as int] == corner);
            lemma_adjacency(g, corner.0 as int, corner.1 as int);
        }
        if names_polygon(ids) {
            let position = grid.corner_position(corner.0, corner.1);
            let vertex = Vertex {
                corner,
                x: position.0,
                y: position.1,
                polygons: padded_ids(ids),
            };
            let ghost old_vertices = vertices@;
            let ghost old_renumbered = renumbered@;
            renumbered.push(vertices.len() as u32);
            vertices.push(vertex);
            proof {
                assert forall|a: int|
                    0 <= a < k + 1 && g.touches_open(
                        keys[a].0 as int,
                        keys[a].1 as int,
                    ) implies vertex_at(
                    vertices@,
                    #[trigger] renumbered@[a],
                    (keys[a].0 as int, keys[a].1 as int),
                ) by {
                    if a < k {
                        assert(renumbered@[a] == old_renumbered[a]);
                        assert(vertices@[old_renumbered[a] as int] == old_vertices[old_renumbered[a] as int]);
                    }
                }
                let ghost old_source = source;
                source = source.push(k as int);
                assert forall|v: int| 0 <= v < vertices@.len() implies g.vertex_ok(
                    #[trigger] vertices@[v],
                ) by {
                    if v < old_vertices.len() {
                        assert(vertices@[v] == old_vertices[v]);
                    }
                }
                assert forall|v: int| 0 <= v < source.len() implies 0 <= #[trigger] source[v] < k
                    + 1 && keys[source[v]] == vertices@[v].corner by {
                    if v < old_source.len() {
                        assert(source[v] == old_source[v]);
                        assert(vertices@[v] == old_vertices[v]);
                    }
                }
                assert forall|v: int, w: int| 0 <= v < w < source.len() implies #[trigger] source[v]
                    < #[trigger] source[w] by {
                    assert(source[v] == old_source[v]);
                    if w < old_source.len() {
                        assert(source[w] == old_source[w]);
                    }
                }
            }
        } else {
            let ghost old_renumbered = renumbered@;
            renumbered.push(u32::MAX);
            proof {
                assert forall|a: int|
                    0 <= a < k + 1 && g.touches_open(
                        keys[a].0 as int,
                        keys[a].1 as int,
                    ) implies vertex_at(
                    vertices@,
                    #[trigger] renumbered@[a],
                    (keys[a].0 as int, keys[a].1 as int),
                ) by {
                    assert(a < k);
                    assert(renumbered@[a] == old_renumbered[a]);
                }
            }
        }
        k = k + 1;
    }
    proof {
        assert forall|a: int, b: int| 0 <= a < b < vertices@.len() implies before(
            g.first_seen((#[trigger] vertices@[a]).corner.0 as int, vertices@[a].corner.1 as int),
            g.first_seen((#[trigger] vertices@[b]).corner.0 as int, vertices@[b].corner.1 as int),
        ) by {
            assert(source[a] < source[b]);
            let ka = keys[source[a]];
            let kb = keys[source[b]];
            assert(before(
                g.first_seen(ka.0 as int, ka.1 as int),
                g.first_seen(kb.0 as int, kb.1 as int),
            ));
        }
        assert forall|i: int, j: int|
            g.is_corner(i, j) && #[trigger] g.touches_open(i, j) implies holds_corner(
            vertices@,
            i,
            j,
        ) by {
            assert(before(g.first_seen(i, j), end));
            let key = (i as u32, j as u32);
            assert(keys.contains(key));
            let a = choose|a: int| 0 <= a < keys.len() && keys[a] == key;
            assert(vertex_at(vertices@, renumbered@[a], (i, j)));
            assert(vertices@[renumbered@[a] as int].corner == key);
        }
    }
    (vertices, renumbered)
}

/// Adds the identifiers of a list to a set.
fn note_ids(seen: &mut HashSet<isize>, ids: &Vec<isize>)
    ensures
        final(seen)@ == old(seen)@.union(ids@.to_set()),
{
    broadcast use vstd::std_specs::hash::group_hash_axioms;

    let ghost start = seen@;
    let mut n: usize = 0;
    assert(ids@.take(0).to_set() =~= Set::<isize>::empty());
    assert(start.union(Set::<isize>::empty()) =~= start);
    while n < ids.len()
        invariant
            n <= ids@.len(),
            seen@ == start.union(ids@.take(n as int).to_set()),
        decreases ids@.len() - n,
    {
        let id: isize = ids[n];
        seen.insert(id);
        proof {
            let shorter = ids@.take(n as int);
            assert(ids@.take(n as int + 1) == shorter.push(id));
            shorter.lemma_push_to_set_commute(id);
            assert(start.union(shorter.to_set()).insert(id) =~= start.union(
                shorter.to_set().insert(id),
            ));
        }
        n = n + 1;
    }
    assert(ids@.take(n as int) == ids@);
}

/// Whether corner number `slot` of tile `(x, y)` is ready to be made a corner
/// of the tile's polygon: `key` is where the corner stands among the corners
/// seen, what was recorded there is at hand, and the corner's vertex is known.
pub open spec fn corner_ready(
    g: GridView,
    arena: Seq<Connections>,
    renumbered: Seq<u32>,
    vertices: Seq<Vertex>,
    key: usize,
    corner: (int, int),
) -> bool {
    &&& key < arena.len()
    &&& key < renumbered.len()
    &&& arena[key as int].connection_indices@ == g.adjacency(corner.0, corner.1)
    &&& vertex_at(vertices, renumbered[key as int], corner)
}

/// Makes the polygon of one walkable tile.
#[verifier::rlimit(60)]
fn emit_polygon(
    arena: &Vec<Connections>,
    renumbered: &Vec<u32>,
    tile: &Polys,
    Ghost(g): Ghost<GridView>,
    Ghost(vertices): Ghost<Seq<Vertex>>,
) -> (r: Polygon)
    requires
        corner_ready(
            g,
            arena@,
            renumbered@,
            vertices,
            tile.vertex_indices@[0],
            tile_corner(tile.position.0 as int, tile.position.1 as int, 0),
        ),
        corner_ready(
            g,
            arena@,
            renumbered@,
            vertices,
            tile.vertex_indices@[1],
            tile_corner(tile.position.0 as int, tile.position.1 as int, 1),
        ),
        corner_ready(
            g,
            arena@,
            renumbered@,
            vertices,
            tile.vertex_indices@[2],
            tile_corner(tile.position.0 as int, tile.position.1 as int, 2),
        ),
        corner_ready(
            g,
            arena@,
            renumbered@,
            vertices,
            tile.vertex_indices@[3],
            tile_corner(tile.position.0 as int, tile.position.1 as int, 3),
        ),
    ensures
        g.polygon_ok(vertices, r, tile.position.0 as int, tile.position.1 as int),
{
    broadcast use vstd::std_specs::hash::group_hash_axioms;

    let ghost x = tile.position.0 as int;
    let ghost y = tile.position.1 as int;
    let k0: usize = tile.vertex_indices[0];
    let k1: usize = tile.vertex_indices[1];
    let k2: usize = tile.vertex_indices[2];
    let k3: usize = tile.vertex_indices[3];
    let mut seen: HashSet<isize> = HashSet::new();
    note_ids(&mut seen, &arena[k0].connection_indices);
    note_ids(&mut seen, &arena[k1].connection_indices);
    note_ids(&mut seen, &arena[k2].connection_indices);
    note_ids(&mut seen, &arena[k3].connection_indices);
    proof {
        assert(seen@ =~= g.around(x, y));
    }
    let boundary: bool = seen.len() <= 2;
    Polygon {
        vertices: [renumbered[k0], renumbered[k1], renumbered[k2], renumbered[k3]],
        boundary,
    }
}

/// A walkable tile that the scan has made a polygon of has its four corners
/// ready.
#[verifier::rlimit(60)]
proof fn lemma_corners_ready(
    g: GridView,
    keys: Seq<(u32, u32)>,
    arena: Seq<Connections>,
    renumbered: Seq<u32>,
    vertices: Seq<Vertex>,
    tile: Polys,
    slot: int,
)
    requires
        corners_ok(g, keys, arena, g.end()),
        renumbered.len() == keys.len(),
        forall|a: int|
            0 <= a < keys.len() && g.touches_open(keys[a].0 as int, keys[a].1 as int)
                ==> vertex_at(vertices, #[trigger] renumbered[a], (keys[a].0 as int, keys[a].1 as int)),
        g.open_tile(tile.position.0 as int, tile.position.1 as int),
        0 <= slot < 4,
        key_is(
            keys,
            tile.vertex_indices@[slot],
            tile_corner(tile.position.0 as int, tile.position.1 as int, slot),
        ),
    ensures
        corner_ready(
            g,
            arena,
            renumbered,
            vertices,
            tile.vertex_indices@[slot],
            tile_corner(tile.position.0 as int, tile.position.1 as int, slot),
        ),
{
    let x = tile.position.0 as int;
    let y = tile.position.1 as int;
    let key = tile.vertex_indices@[slot] as int;
    let corner = tile_corner(x, y, slot);
    assert(keys[key].0 == corner.0 && keys[key].1 == corner.1);
    assert(g.touches_open(corner.0, corner.1));
    assert(vertex_at(vertices, renumbered[key], corner));
}

/// Turns the walkable tiles into polygons over the vertices.
#[verifier::rlimit(60)]
fn emit_polygons(
    grid: &TileGrid,
    Ghost(keys): Ghost<Seq<(u32, u32)>>,
    arena: &Vec<Connections>,
    polys: &Vec<Polys>,
    renumbered: &Vec<u32>,
    vertices: &Vec<Vertex>,
) -> (r: Vec<Polygon>)
    requires
        grid@.valid(),
        grid@.width >= 1,
        grid@.height >= 1,
        corners_ok(grid@, keys, arena@, grid@.end()),
        polys_ok(grid@, keys, polys@, grid@.end()),
        polys@.len() == grid@.polygon_count(),
        renumbered@.len() == keys.len(),
        forall|a: int|
            0 <= a < keys.len() && grid@.touches_open(keys[a].0 as int, keys[a].1 as int)
                ==> vertex_at(
                vertices@,
                #[trigger] renumbered@[a],
                (keys[a].0 as int, keys[a].1 as int),
            ),
    ensures
        polygons_ok(grid@, vertices@, r@),
        forall|q: int, s: int|
            0 <= q < r@.len() && 0 <= s < 4 ==> (#[trigger] r@[q].vertices@[s]) < vertices@.len(),
{
    let ghost g = grid@;
    let ghost end = g.end();
    let width: u32 = grid.width();
    let height: u32 = grid.height();
    let mut out: Vec<Polygon> = Vec::new();
    let mut q: usize = 0;
    while q < polys.len()
        invariant
            g == grid@,
            end == g.end(),
            corners_ok(g, keys, arena@, end),
            polys_ok(g, keys, polys@, end),
            renumbered@.len() == keys.len(),
            forall|a: int|
                0 <= a < keys.len() && g.touches_open(keys[a].0 as int, keys[a].1 as int)
                    ==> vertex_at(
                    vertices@,
                    #[trigger] renumbered@[a],
                    (keys[a].0 as int, keys[a].1 as int),
                ),
            q <= polys@.len(),
            out@.len() == q,
            forall|p: int|
                0 <= p < q ==> g.polygon_ok(
                    vertices@,
                    #[trigger] out@[p],
                    polys@[p].position.0 as int,
                    polys@[p].position.1 as int,
                ),
        decreases polys@.len() - q,
    {
        let tile = &polys[q];
        proof {
            lemma_corners_ready(g, keys, arena@, renumbered@, vertices@, *tile, 0);
            lemma_corners_ready(g, keys, arena@, renumbered@, vertices@, *tile, 1);
            lemma_corners_ready(g, keys, arena@, renumbered@, vertices@, *tile, 2);
            lemma_corners_ready(g, keys, arena@, renumbered@, vertices@, *tile, 3);
        }
        let polygon = emit_polygon(arena, renumbered, tile, Ghost(g), Ghost(vertices@));
        let ghost old_out = out@;
        out.push(polygon);
        proof {
            assert forall|p: int| 0 <= p < q + 1 implies g.polygon_ok(
                vertices@,
                #[trigger] out@[p],
                polys@[p].position.0 as int,
                polys@[p].position.1 as int,
            ) by {
                if p < q {
                    assert(out@[p] == old_out[p]);
                }
            }
        }
        q = q + 1;
    }
    proof {
        lemma_polygons_ok(g, keys, polys@, vertices@, out@, width, height);
    }
    out
}

/// Polygons that are each the polygon of the tile at their place are the
/// polygons of the grid.
#[verifier::rlimit(60)]
proof fn lemma_polygons_ok(
    g: GridView,
    keys: Seq<(u32, u32)>,
    polys: Seq<Polys>,
    vertices: Seq<Vertex>,
    out: Seq<Polygon>,
    width: u32,
    height: u32,
)
    requires
        g.width == width,
        g.height == height,
        polys_ok(g, keys, polys, g.end()),
        polys.len() == g.polygon_count(),
        out.len() == polys.len(),
        forall|p: int|
            0 <= p < out.len() ==> g.polygon_ok(
                vertices,
                #[trigger] out[p],
                polys[p].position.0 as int,
                polys[p].position.1 as int,
            ),
    ensures
        polygons_ok(g, vertices, out),
        forall|q: int, s: int|
            0 <= q < out.len() && 0 <= s < 4 ==> (#[trigger] out[q].vertices@[s]) < vertices.len(),
{
    let end = g.end();
    assert forall|x: int, y: int| g.open_tile(x, y) implies {
        &&& 0 <= #[trigger] g.tile_id(x, y) < out.len()
        &&& g.polygon_ok(vertices, out[g.tile_id(x, y)], x, y)
    } by {
        assert(before(crate::corners::Stamp { y, x, slot: 0 }, end));
        let p = g.tile_id(x, y);
        assert(polys[p].position == (x as u32, y as u32));
        assert(g.polygon_ok(
            vertices,
            out[p],
            polys[p].position.0 as int,
            polys[p].position.1 as int,
        ));
    }
    assert forall|p: int, s: int| 0 <= p < out.len() && 0 <= s < 4 implies (
    #[trigger] out[p].vertices@[s]) < vertices.len() by {
        assert(g.polygon_ok(
            vertices,
            out[p],
            polys[p].position.0 as int,
            polys[p].position.1 as int,
        ));
    }
}

/// Bakes a grid into its navigation mesh. A grid without tiles, one whose
/// width or height is zero, is refused; every other grid is baked.
#[verifier::rlimit(60)]
pub fn bake(grid: &TileGrid) -> (r: Result<TempNavmesh, MapSizeError>)
    ensures
        r.is_err() == (grid@.width == 0 || grid@.height == 0),
        r matches Err(e) ==> e.width == grid@.width && e.height == grid@.height,
        r matches Ok(nav) ==> is_bake_of(grid@, nav@),
{
    let width: u32 = grid.width();
    let height: u32 = grid.height();
    if width == 0 || height == 0 {
        return Err(MapSizeError { width, height });
    }
    let (set, arena, polys) = scan(grid);
    let (vertices, renumbered) = emit_vertices(grid, &set, &arena);
    let polygons = emit_polygons(
        grid,
        Ghost(corner_seq(set)),
        &arena,
        &polys,
        &renumbered,
        &vertices,
    );
    let dimensions = grid.world_size();
    let mesh = if polygons.len() == 0 {
        None
    } else {
        proof {
            let g = grid@;
            assert forall|k: int, n: int|
                0 <= k < vertices@.len() && 0 <= n < vertices@[k].polygons@.len() implies -1 <= (
            #[trigger] vertices@[k].polygons@[n]) < polygons@.len() by {
                let v = vertices@[k];
                assert(g.vertex_ok(v));
                lemma_adjacency(g, v.corner.0 as int, v.corner.1 as int);
                let ids = g.adjacency(v.corner.0 as int, v.corner.1 as int);
                if n < ids.len() {
                    assert(v.polygons@[n] == ids[n]);
                }
            }
            assert(indices_ok(vertices@, polygons@));
        }
        let mut made = build_mesh(&vertices, &polygons);
        proof {
            assert(made == raw_mesh_of(vertices@, polygons@));
        }
        bake_islands(&mut made);
        proof {
            let nav = NavView {
                vertices: vertices@,
                polygons: polygons@,
                mesh: Some(made),
                width: dimensions.0 as int,
                height: dimensions.1 as int,
            };
            assert(made == mesh_of(vertices@, polygons@));
            assert(is_bake_of(grid@, nav));
            assert(built(made));
        }
        Some(made)
    };
    Ok(TempNavmesh { vertices, polygons, mesh, dimensions })
}

} // verus!
