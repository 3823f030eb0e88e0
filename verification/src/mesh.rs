//! The search mesh of the `polyanya` crate.
//!
//! The mesh and the points it is asked about are values of outside types that
//! Verus cannot look into. What the crate's functions return is spoken of
//! through the names [`mesh_made`], [`with_islands`], [`in_mesh`] and
//! [`path_between`]; the contracts below are taken on trust from the crate's
//! sources.
//!
//! The crate is built without its default baking, and of its two baking steps
//! only the detection of islands is run. The other, a tree of bounding boxes
//! for finding the polygon of a point, is left out on purpose: the walk of
//! that tree keeps its way in a list of 32 entries and checks no bound, and
//! nothing that can be said of a grid keeps the tree that shallow. Without
//! the tree a point is looked for in the polygons one by one.

use crate::grid::GridView;
use crate::navmesh::{is_bake_of, NavView, Polygon, Vertex};
use glam::{IVec2, Vec2};
use polyanya::Mesh;
use vstd::prelude::*;

verus! {

#[verifier::external_type_specification]
#[verifier::external_body]
pub struct ExMesh(Mesh);

#[verifier::external_type_specification]
#[verifier::external_body]
pub struct ExVec2(Vec2);

/// A position in world space.
pub type Point = Vec2;

/// The mesh that `polyanya::Mesh::new` makes of vertices at the given
/// whole-numbered points with the given neighbour lists, and of polygons with
/// the given vertex indices and one-way flags.
pub uninterp spec fn mesh_made(
    points: Seq<(int, int)>,
    neighbours: Seq<Seq<isize>>,
    corners: Seq<Seq<u32>>,
    one_way: Seq<bool>,
) -> Mesh;

/// The mesh after `polyanya::Mesh::bake_islands_detection` has run on it.
pub uninterp spec fn with_islands(mesh: Mesh) -> Mesh;

/// Whether `polyanya::Mesh::point_in_mesh` finds the point in the mesh.
pub uninterp spec fn in_mesh(mesh: Mesh, point: Vec2) -> bool;

/// The waypoints that `polyanya::Mesh::path` finds between two points of the
/// mesh, or `None` where it finds no path.
pub uninterp spec fn path_between(mesh: Mesh, from: Vec2, to: Vec2) -> Option<Seq<Vec2>>;

pub open spec fn vertex_points(vertices: Seq<Vertex>) -> Seq<(int, int)> {
    Seq::new(vertices.len(), |k: int| (vertices[k].x as int, vertices[k].y as int))
}

pub open spec fn vertex_neighbours(vertices: Seq<Vertex>) -> Seq<Seq<isize>> {
    Seq::new(vertices.len(), |k: int| vertices[k].polygons@)
}

pub open spec fn polygon_corners(polygons: Seq<Polygon>) -> Seq<Seq<u32>> {
    Seq::new(polygons.len(), |q: int| polygons[q].vertices@)
}

pub open spec fn polygon_flags(polygons: Seq<Polygon>) -> Seq<bool> {
    Seq::new(polygons.len(), |q: int| polygons[q].boundary)
}

/// The mesh as the constructor makes it of the given vertices and polygons,
/// before any baking.
pub open spec fn raw_mesh_of(vertices: Seq<Vertex>, polygons: Seq<Polygon>) -> Mesh {
    mesh_made(
        vertex_points(vertices),
        vertex_neighbours(vertices),
        polygon_corners(polygons),
        polygon_flags(polygons),
    )
}

/// The search mesh of the given vertices and polygons: made by the
/// constructor, then baked for islands.
pub open spec fn mesh_of(vertices: Seq<Vertex>, polygons: Seq<Polygon>) -> Mesh {
    with_islands(raw_mesh_of(vertices, polygons))
}

/// Whether the indices of the vertices and polygons lead somewhere: every
/// polygon corner is the index of a vertex, and every neighbour of a vertex
/// is either the sentinel or the index of a polygon.
pub open spec fn indices_ok(vertices: Seq<Vertex>, polygons: Seq<Polygon>) -> bool {
    &&& forall|q: int, s: int|
        0 <= q < polygons.len() && 0 <= s < polygons[q].vertices@.len() ==> (
        #[trigger] polygons[q].vertices@[s]) < vertices.len()
    &&& forall|k: int, n: int|
        0 <= k < vertices.len() && 0 <= n < vertices[k].polygons@.len() ==> -1 <= (
        #[trigger] vertices[k].polygons@[n]) < polygons.len()
}

/// Whether the mesh is the constructor's mesh of some vertices and polygons
/// whose indices lead somewhere.
pub open spec fn raw(mesh: Mesh) -> bool {
    exists|vertices: Seq<Vertex>, polygons: Seq<Polygon>|
        indices_ok(vertices, polygons) && mesh == #[trigger] raw_mesh_of(vertices, polygons)
}

/// Whether the mesh is the search mesh of a baked grid: there is a grid with
/// tiles whose baked vertices and polygons it is made of. This is all that
/// the searches are ever asked on. It gives them what they rely on: polygons
/// that are squares of positive side with four different vertices as corners,
/// in the same turning sense; indices that lead somewhere; and neighbour
/// lists that name only polygons which have the vertex as a corner. The laws
/// `law_polygon_is_square` and `law_neighbours_touch` prove these of every
/// baked grid.
pub open spec fn built(mesh: Mesh) -> bool {
    exists|g: GridView, nav: NavView|
        g.valid() && g.width >= 1 && g.height >= 1 && #[trigger] is_bake_of(g, nav) && nav.mesh
            == Some(mesh)
}

/// `polyanya::Mesh::new` on the vertices and polygons, each turned into the
/// outside crate's record of the same content (`Vertex::new` on the point
/// that `IVec2::as_vec2` gives, `Polygon::new`). Without default baking the
/// constructor only puts the two lists into a mesh.
#[verifier::external_body]
pub(crate) fn build_mesh(vertices: &Vec<Vertex>, polygons: &Vec<Polygon>) -> (mesh: Mesh)
    ensures
        mesh == mesh_made(
            vertex_points(vertices@),
            vertex_neighbours(vertices@),
            polygon_corners(polygons@),
            polygon_flags(polygons@),
        ),
{
    let points = vertices.iter().map(
        |v| polyanya::Vertex::new(IVec2::new(v.x, v.y).as_vec2(), v.polygons.clone()),
    );
    let faces = polygons.iter().map(|p| polyanya::Polygon::new(p.vertices.to_vec(), p.boundary));
    Mesh::new(points.collect(), faces.collect())
}

/// `polyanya::Mesh::bake_islands_detection`: marks which polygons hang
/// together, so that a search between two islands ends at once. It follows
/// every polygon's corners to their vertices and every vertex's neighbours to
/// their polygons, and panics on an index that leads nowhere, which
/// `requires` leaves out.
#[verifier::external_body]
pub(crate) fn bake_islands(mesh: &mut Mesh)
    requires
        raw(*old(mesh)),
    ensures
        *final(mesh) == with_islands(*old(mesh)),
{
    mesh.bake_islands_detection()
}

/// `polyanya::Mesh::point_in_mesh`. On a mesh without the tree of bounding
/// boxes it tries the polygons in turn, and for each goes round its corners;
/// it needs every polygon to have a corner, which a baked grid gives.
#[verifier::external_body]
pub(crate) fn mesh_contains(mesh: &Mesh, point: Vec2) -> (r: bool)
    requires
        built(*mesh),
    ensures
        r == in_mesh(*mesh, point),
{
    mesh.point_in_mesh(point)
}

/// `polyanya::Mesh::path`, of which the waypoints are kept. A path that is
/// found is never empty and ends at the destination. The search crosses from
/// a polygon to the one that the two ends of an edge both name, and there
/// looks for the edge's end among that polygon's corners without a bound: it
/// relies on the neighbour lists to name only polygons that have the vertex
/// as a corner, and on indices that lead somewhere. `requires` admits only
/// the mesh of a baked grid, of which both are proved.
#[verifier::external_body]
pub(crate) fn mesh_path(mesh: &Mesh, from: Vec2, to: Vec2) -> (r: Option<Vec<Vec2>>)
    requires
        built(*mesh),
    ensures
        r.is_some() == path_between(*mesh, from, to).is_some(),
        r matches Some(path) ==> {
            &&& path_between(*mesh, from, to) == Some(path@)
            &&& path@.len() > 0
            &&& path@.last() == to
        },
{
    mesh.path(from, to).map(|found| found.path)
}

} // verus!
