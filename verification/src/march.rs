//! Marching tetrahedra: from a field sampled on a grid to a triangle surface.
//!
//! Every cell of the grid is cut into six tetrahedra that share the cell's
//! main diagonal. A tetrahedron with corners on both sides of the surface
//! contributes one or two triangles, whose vertices sit on the grid edges that
//! the surface crosses. A vertex is named by its grid edge, so two cells that
//! share an edge share the vertex.
use crate::error::{invalid_config, Fault, NetworkError};
use crate::gltf::low;
use crate::mesh::Mesh;
use crate::quadrics::has_normals;
use std::collections::HashMap;
use vstd::prelude::*;
use vstd::std_specs::hash::*;

verus! {

/// A point of the sampling grid.
#[derive(Clone, Copy, Debug, PartialEq, Eq, Structural)]
pub struct GridPoint {
    pub x: usize,
    pub y: usize,
    pub z: usize,
}

/// The coordinates of a grid point.
pub type Point = (int, int, int);

/// A grid edge, from one of its end points to the other.
pub type Crossing = (Point, Point);

impl View for GridPoint {
    type V = Point;

    open spec fn view(&self) -> Point {
        (self.x as int, self.y as int, self.z as int)
    }
}

/// The grid point with the given coordinates.
pub open spec fn grid_point(p: Point) -> GridPoint {
    GridPoint { x: p.0 as usize, y: p.1 as usize, z: p.2 as usize }
}

/// One value of the field, and whether it lies inside the surface.
#[derive(Clone, Copy, Debug)]
pub struct Sample<V> {
    pub value: V,
    pub inside: bool,
}

/// A surface: one position per vertex, and three vertices per face.
#[derive(Debug)]
pub struct Surface<P> {
    pub positions: Vec<P>,
    pub faces: Vec<[u32; 3]>,
}

// -- The cut -----------------------------------------------------------------

/// Corner `c` of the cell whose lowest corner is `p`.
pub open spec fn corner(p: Point, c: int) -> Point {
    (
        p.0 + if c == 1 || c == 2 || c == 5 || c == 6 { 1int } else { 0 },
        p.1 + if c == 2 || c == 3 || c == 6 || c == 7 { 1int } else { 0 },
        p.2 + if c >= 4 { 1int } else { 0 },
    )
}

/// The cell corner that is corner `k` of tetrahedron `t`. All six share the
/// cell's diagonal from corner 0 to corner 6.
pub open spec fn tetrahedron(t: int, k: int) -> int {
    if k == 0 {
        0
    } else if k == 3 {
        6
    } else if t == 0 {
        if k == 1 { 5 } else { 1 }
    } else if t == 1 {
        if k == 1 { 1 } else { 2 }
    } else if t == 2 {
        if k == 1 { 2 } else { 3 }
    } else if t == 3 {
        if k == 1 { 3 } else { 7 }
    } else if t == 4 {
        if k == 1 { 7 } else { 4 }
    } else {
        if k == 1 { 4 } else { 5 }
    }
}

/// The two corners that edge `e` of a tetrahedron joins.
pub open spec fn edge_ends(e: int) -> (int, int) {
    if e == 0 {
        (0, 1)
    } else if e == 1 {
        (0, 2)
    } else if e == 2 {
        (0, 3)
    } else if e == 3 {
        (1, 2)
    } else if e == 4 {
        (1, 3)
    } else {
        (2, 3)
    }
}

/// The edges the triangles of each of the sixteen cases run through, three to
/// a triangle: none when all corners agree, one triangle when a single corner
/// is on its own, two when the corners split two and two.
pub open spec fn case_edges(code: int) -> Seq<int> {
    if code == 1 {
        seq![0, 1, 2]
    } else if code == 2 {
        seq![0, 3, 4]
    } else if code == 3 {
        seq![1, 2, 4, 1, 4, 3]
    } else if code == 4 {
        seq![1, 3, 5]
    } else if code == 5 {
        seq![0, 2, 5, 0, 5, 3]
    } else if code == 6 {
        seq![0, 1, 5, 0, 5, 4]
    } else if code == 7 {
        seq![2, 5, 4]
    } else if code == 8 {
        seq![2, 4, 5]
    } else if code == 9 {
        seq![0, 4, 5, 0, 5, 1]
    } else if code == 10 {
        seq![0, 5, 2, 0, 3, 5]
    } else if code == 11 {
        seq![1, 5, 3]
    } else if code == 12 {
        seq![1, 4, 2, 1, 3, 4]
    } else if code == 13 {
        seq![0, 4, 3]
    } else if code == 14 {
        seq![0, 2, 1]
    } else {
        seq![]
    }
}

/// The number of a case: one bit per corner of the tetrahedron that is inside.
pub open spec fn case_code(a: bool, b: bool, c: bool, d: bool) -> int {
    (if a { 1int } else { 0 }) + (if b { 2int } else { 0 }) + (if c { 4int } else { 0 })
        + (if d { 8int } else { 0 })
}

/// Which grid points are inside the surface.
pub type Inside = spec_fn(Point) -> bool;

/// Corner `k` of tetrahedron `t` of the cell at `p`.
pub open spec fn tetrahedron_corner(p: Point, t: int, k: int) -> Point {
    corner(p, tetrahedron(t, k))
}

/// The case of one tetrahedron of one cell.
pub open spec fn tetrahedron_code(inside: Inside, p: Point, t: int) -> int {
    case_code(
        inside(tetrahedron_corner(p, t, 0)),
        inside(tetrahedron_corner(p, t, 1)),
        inside(tetrahedron_corner(p, t, 2)),
        inside(tetrahedron_corner(p, t, 3)),
    )
}

/// Edge `e` of tetrahedron `t` of the cell at `p`.
pub open spec fn tetrahedron_edge(p: Point, t: int, e: int) -> Crossing {
    (tetrahedron_corner(p, t, edge_ends(e).0), tetrahedron_corner(p, t, edge_ends(e).1))
}

/// The grid edges one tetrahedron's triangles run through.
pub open spec fn tetrahedron_crossings(inside: Inside, p: Point, t: int) -> Seq<
    Crossing,
> {
    case_edges(tetrahedron_code(inside, p, t)).map_values(|e: int| tetrahedron_edge(p, t, e))
}

/// The crossings of the first `t` tetrahedra of a cell.
pub open spec fn cell_crossings(inside: Inside, p: Point, t: int) -> Seq<Crossing>
    decreases t,
{
    if t <= 0 {
        seq![]
    } else {
        cell_crossings(inside, p, t - 1) + tetrahedron_crossings(inside, p, t - 1)
    }
}

/// The crossings of the first `x` cells of a row.
pub open spec fn row_crossings(inside: Inside, z: int, y: int, x: int) -> Seq<Crossing>
    decreases x,
{
    if x <= 0 {
        seq![]
    } else {
        row_crossings(inside, z, y, x - 1) + cell_crossings(inside, (x - 1, y, z), 6)
    }
}

/// The crossings of the first `y` rows of a layer.
pub open spec fn layer_crossings(n: int, inside: Inside, z: int, y: int) -> Seq<Crossing>
    decreases y,
{
    if y <= 0 {
        seq![]
    } else {
        layer_crossings(n, inside, z, y - 1) + row_crossings(inside, z, y - 1, n - 1)
    }
}

/// The crossings of the first `z` layers of cells of a grid of side `n`, in
/// the order the surface is built: three to a triangle.
pub open spec fn grid_crossings(n: int, inside: Inside, z: int) -> Seq<Crossing>
    decreases z,
{
    if z <= 0 {
        seq![]
    } else {
        grid_crossings(n, inside, z - 1) + layer_crossings(n, inside, z - 1, n - 1)
    }
}

// -- Welding -----------------------------------------------------------------

/// Whether two crossings are the same grid edge, whichever way each runs.
pub open spec fn same_edge(a: Crossing, b: Crossing) -> bool {
    a == b || (a.0 == b.1 && a.1 == b.0)
}

/// The number of the first crossing of a list that is the given edge, or the
/// length of the list when there is none.
pub open spec fn edge_position(list: Seq<Crossing>, edge: Crossing) -> nat
    decreases list.len(),
{
    if list.len() == 0 {
        0
    } else {
        let before = edge_position(list.drop_last(), edge);
        if before < list.len() - 1 || same_edge(list.last(), edge) {
            before
        } else {
            list.len()
        }
    }
}

/// The distinct grid edges of a list of crossings, each as it was first seen.
pub open spec fn vertices(crossings: Seq<Crossing>) -> Seq<Crossing>
    decreases crossings.len(),
{
    if crossings.len() == 0 {
        seq![]
    } else {
        let before = vertices(crossings.drop_last());
        if edge_position(before, crossings.last()) < before.len() {
            before
        } else {
            before.push(crossings.last())
        }
    }
}

/// The vertex a crossing became.
pub open spec fn vertex_of(crossings: Seq<Crossing>, i: int) -> nat {
    edge_position(vertices(crossings), crossings[i])
}

/// What a slab of samples says of a grid of side `n`: slab `z` holds the plane
/// of constant `z`, row by row.
pub open spec fn sampled<V>(n: int, slabs: Seq<Seq<Sample<V>>>, p: Point) -> Sample<V> {
    slabs[p.2][p.1 * n + p.0]
}

/// Which points of the sampled part of a grid are inside.
pub open spec fn sampled_inside<V>(n: int, slabs: Seq<Seq<Sample<V>>>) -> Inside {
    |p: Point| sampled(n, slabs, p).inside
}

// -- Facts about welding -----------------------------------------------------

proof fn lemma_edge_position(list: Seq<Crossing>, edge: Crossing)
    ensures
        edge_position(list, edge) <= list.len(),
        edge_position(list, edge) < list.len() ==> same_edge(
            list[edge_position(list, edge) as int],
            edge,
        ),
        forall|j: int| 0 <= j < edge_position(list, edge) ==> !same_edge(#[trigger] list[j], edge),
    decreases list.len(),
{
    if list.len() > 0 {
        lemma_edge_position(list.drop_last(), edge);
        assert forall|j: int| 0 <= j < edge_position(list, edge) implies !same_edge(
            #[trigger] list[j],
            edge,
        ) by {
            if j < list.len() - 1 {
                assert(list.drop_last()[j] == list[j]);
            }
        }
    }
}

/// Whether no two crossings of a list are the same grid edge.
pub open spec fn distinct_edges(list: Seq<Crossing>) -> bool {
    forall|i: int, j: int|
        0 <= i < j < list.len() ==> !same_edge(#[trigger] list[i], #[trigger] list[j])
}

/// In a list of distinct edges, an edge's position is where it stands.
pub proof fn lemma_position_unique(list: Seq<Crossing>, edge: Crossing, i: int)
    requires
        distinct_edges(list),
        0 <= i < list.len(),
        same_edge(list[i], edge),
    ensures
        edge_position(list, edge) == i,
{
    lemma_edge_position(list, edge);
    let k = edge_position(list, edge) as int;
    if k < i {
        assert(!same_edge(list[k], list[i]));
    }
}

/// The vertices of a list of crossings are distinct, and each crossing is the
/// vertex it became.
pub proof fn lemma_vertices(crossings: Seq<Crossing>)
    ensures
        distinct_edges(vertices(crossings)),
        vertices(crossings).len() <= crossings.len(),
        forall|i: int|
            0 <= i < crossings.len() ==> vertex_of(crossings, i) < vertices(crossings).len()
                && same_edge(
                vertices(crossings)[vertex_of(crossings, i) as int],
                #[trigger] crossings[i],
            ),
        forall|j: int|
            0 <= j < vertices(crossings).len() ==> crossings.contains(
                #[trigger] vertices(crossings)[j],
            ),
    decreases crossings.len(),
{
    if crossings.len() > 0 {
        let before = crossings.drop_last();
        lemma_vertices(before);
        let old_vertices = vertices(before);
        let new_vertices = vertices(crossings);
        lemma_edge_position(old_vertices, crossings.last());
        assert forall|i: int| 0 <= i < crossings.len() implies vertex_of(crossings, i)
            < new_vertices.len() && same_edge(
            new_vertices[vertex_of(crossings, i) as int],
            #[trigger] crossings[i],
        ) by {
            if i < crossings.len() - 1 {
                assert(before[i] == crossings[i]);
                let k = vertex_of(before, i) as int;
                assert(new_vertices[k] == old_vertices[k]);
                lemma_position_unique(new_vertices, crossings[i], k);
            } else {
                let k = edge_position(old_vertices, crossings.last()) as int;
                lemma_position_unique(new_vertices, crossings[i], k);
            }
        }
        assert forall|j: int| 0 <= j < new_vertices.len() implies crossings.contains(
            #[trigger] new_vertices[j],
        ) by {
            if j < old_vertices.len() {
                assert(before.contains(old_vertices[j]));
                let w = choose|w: int| 0 <= w < before.len() && before[w] == old_vertices[j];
                assert(crossings[w] == new_vertices[j]);
            } else {
                assert(crossings[crossings.len() - 1] == new_vertices[j]);
            }
        }
    }
}

/// Adding a crossing keeps every earlier vertex number.
proof fn lemma_vertices_push(crossings: Seq<Crossing>, edge: Crossing)
    ensures
        vertices(crossings.push(edge)) == if edge_position(vertices(crossings), edge) < vertices(
            crossings,
        ).len() {
            vertices(crossings)
        } else {
            vertices(crossings).push(edge)
        },
        vertex_of(crossings.push(edge), crossings.len() as int) == edge_position(
            vertices(crossings),
            edge,
        ),
        forall|i: int|
            0 <= i < crossings.len() ==> #[trigger] vertex_of(crossings.push(edge), i) == vertex_of(
                crossings,
                i,
            ),
{
    let pushed = crossings.push(edge);
    assert(pushed.drop_last() =~= crossings);
    lemma_vertices(crossings);
    lemma_vertices(pushed);
    lemma_edge_position(vertices(crossings), edge);
    assert forall|i: int| 0 <= i < crossings.len() implies #[trigger] vertex_of(pushed, i)
        == vertex_of(crossings, i) by {
        let k = vertex_of(crossings, i) as int;
        assert(crossings[i] == pushed[i]);
        assert(vertices(pushed)[k] == vertices(crossings)[k]);
        lemma_position_unique(vertices(pushed), crossings[i], k);
    }
    let k = edge_position(vertices(crossings), edge) as int;
    lemma_position_unique(vertices(pushed), edge, k);
}

// -- Naming grid edges -------------------------------------------------------

/// Whether a point lies on the grid of side `n`.
pub open spec fn in_grid(n: int, p: Point) -> bool {
    0 <= p.0 < n && 0 <= p.1 < n && 0 <= p.2 < n
}

/// The number of a grid point: planes of constant `z`, rows of constant `y`.
pub open spec fn point_number(n: int, p: Point) -> int {
    p.2 * (n * n) + p.1 * n + p.0
}

/// Whether `b` is one step up from `a` along some of the axes.
pub open spec fn steps_up(a: Point, b: Point) -> bool {
    &&& a != b
    &&& a.0 <= b.0 <= a.0 + 1
    &&& a.1 <= b.1 <= a.1 + 1
    &&& a.2 <= b.2 <= a.2 + 1
}

/// Whether a crossing is an edge of some tetrahedron of a grid of side `n`.
pub open spec fn grid_edge(n: int, e: Crossing) -> bool {
    in_grid(n, e.0) && in_grid(n, e.1) && (steps_up(e.0, e.1) || steps_up(e.1, e.0))
}

/// The key an edge is welded under: its two point numbers, the smaller first.
pub open spec fn edge_key(n: int, e: Crossing) -> int {
    let (a, b) = (point_number(n, e.0), point_number(n, e.1));
    if a < b {
        a * 0x1_0000_0000 + b
    } else {
        b * 0x1_0000_0000 + a
    }
}

proof fn lemma_point_number_bound(n: int, p: Point)
    requires
        in_grid(n, p),
    ensures
        0 <= point_number(n, p) < n * n * n,
        0 <= p.1 * n + p.0 < n * n,
{
    let (x, y, z) = p;
    assert(0 <= y * n + x < n * n && 0 <= z * (n * n) && z * (n * n) + n * n <= n * n * n)
        by (nonlinear_arith)
        requires
            0 <= x < n,
            0 <= y < n,
            0 <= z < n,
    ;
}

/// Two points of a grid with one number are one point.
pub proof fn lemma_point_number_injective(n: int, p: Point, q: Point)
    requires
        in_grid(n, p),
        in_grid(n, q),
        point_number(n, p) == point_number(n, q),
    ensures
        p == q,
{
    lemma_point_number_bound(n, p);
    lemma_point_number_bound(n, q);
    let (x, y, z) = p;
    let (u, v, w) = q;
    let plane = n * n;
    let a = y * n + x;
    let b = v * n + u;
    assert(z == w) by (nonlinear_arith)
        requires
            z * plane + a == w * plane + b,
            0 <= a < plane,
            0 <= b < plane,
    ;
    assert(y == v) by (nonlinear_arith)
        requires
            y * n + x == v * n + u,
            0 <= x < n,
            0 <= u < n,
    ;
}

/// Two edges of a grid with one key are one edge.
proof fn lemma_edge_key_injective(n: int, a: Crossing, b: Crossing)
    requires
        n * n * n <= 0x1_0000_0000,
        grid_edge(n, a),
        grid_edge(n, b),
        edge_key(n, a) == edge_key(n, b),
    ensures
        same_edge(a, b),
{
    lemma_point_number_bound(n, a.0);
    lemma_point_number_bound(n, a.1);
    lemma_point_number_bound(n, b.0);
    lemma_point_number_bound(n, b.1);
    let (p, q) = (point_number(n, a.0), point_number(n, a.1));
    let (r, s) = (point_number(n, b.0), point_number(n, b.1));
    if p == r && q == s {
        lemma_point_number_injective(n, a.0, b.0);
        lemma_point_number_injective(n, a.1, b.1);
    } else {
        assert(p == s && q == r);
        lemma_point_number_injective(n, a.0, b.1);
        lemma_point_number_injective(n, a.1, b.0);
    }
}

/// Both ways of running an edge have one key.
proof fn lemma_edge_key_symmetric(n: int, a: Crossing, b: Crossing)
    requires
        same_edge(a, b),
    ensures
        edge_key(n, a) == edge_key(n, b),
{
}

/// The lower end of an edge, and which axes it steps along, as one number.
spec fn edge_number(n: int, e: Crossing) -> int {
    let (a, b) = if steps_up(e.0, e.1) { e } else { (e.1, e.0) };
    7 * point_number(n, a) + (b.0 - a.0) + 2 * (b.1 - a.1) + 4 * (b.2 - a.2) - 1
}

proof fn lemma_edge_number_injective(n: int, e: Crossing, f: Crossing)
    requires
        grid_edge(n, e),
        grid_edge(n, f),
        edge_number(n, e) == edge_number(n, f),
    ensures
        same_edge(e, f),
{
    let (a, b) = if steps_up(e.0, e.1) { e } else { (e.1, e.0) };
    let (c, d) = if steps_up(f.0, f.1) { f } else { (f.1, f.0) };
    assert(point_number(n, a) == point_number(n, c));
    lemma_point_number_injective(n, a, c);
}

proof fn lemma_distinct_in_range(s: Seq<int>, bound: int)
    requires
        s.no_duplicates(),
        forall|i: int| 0 <= i < s.len() ==> 0 <= #[trigger] s[i] < bound,
    ensures
        s.len() <= bound || s.len() == 0,
{
    if s.len() > 0 {
        assert(0 <= s[0] < bound);
        s.unique_seq_to_set();
        vstd::set_lib::lemma_int_range(0, bound);
        assert forall|x: int| s.to_set().contains(x) implies vstd::set_lib::set_int_range(
            0,
            bound,
        ).contains(x) by {
            let i = choose|i: int| 0 <= i < s.len() && s[i] == x;
            assert(0 <= s[i] < bound);
        }
        vstd::set_lib::lemma_len_subset(s.to_set(), vstd::set_lib::set_int_range(0, bound));
    }
}

/// A grid has at most seven edges per point.
pub proof fn lemma_edge_count(n: int, list: Seq<Crossing>)
    requires
        n > 0,
        distinct_edges(list),
        forall|i: int| 0 <= i < list.len() ==> grid_edge(n, #[trigger] list[i]),
    ensures
        list.len() <= 7 * (n * n * n),
{
    let numbers = list.map_values(|e: Crossing| edge_number(n, e));
    assert forall|i: int| 0 <= i < numbers.len() implies 0 <= #[trigger] numbers[i] < 7 * (n * n
        * n) by {
        let e = list[i];
        let (a, b) = if steps_up(e.0, e.1) { e } else { (e.1, e.0) };
        assert(grid_edge(n, list[i]));
        lemma_point_number_bound(n, a);
    }
    assert forall|i: int, j: int|
        0 <= i < numbers.len() && 0 <= j < numbers.len() && i != j implies numbers[i]
        != numbers[j] by {
        assert(grid_edge(n, list[i]) && grid_edge(n, list[j]));
        if numbers[i] == numbers[j] {
            lemma_edge_number_injective(n, list[i], list[j]);
            if i < j {
                assert(!same_edge(list[i], list[j]));
            } else {
                assert(!same_edge(list[j], list[i]));
            }
        }
    }
    lemma_distinct_in_range(numbers, 7 * (n * n * n));
    assert(n * n * n >= 0) by (nonlinear_arith)
        requires
            n > 0,
    ;
}

// -- Faces -------------------------------------------------------------------

/// The vertices of three consecutive crossings, each by its number's low 32
/// bits.
pub open spec fn face_of(crossings: Seq<Crossing>, k: int) -> [u32; 3] {
    [
        low(vertex_of(crossings, 3 * k) as int),
        low(vertex_of(crossings, 3 * k + 1) as int),
        low(vertex_of(crossings, 3 * k + 2) as int),
    ]
}

/// Whether three vertex numbers make a face: no two are the same.
pub open spec fn is_face(face: [u32; 3]) -> bool {
    face[0] != face[1] && face[1] != face[2] && face[0] != face[2]
}

/// The faces of the first `count` triples of crossings.
pub open spec fn faces_of(crossings: Seq<Crossing>, count: int) -> Seq<[u32; 3]>
    decreases count,
{
    if count <= 0 {
        Seq::empty()
    } else {
        let earlier = faces_of(crossings, count - 1);
        let face = face_of(crossings, count - 1);
        if is_face(face) {
            earlier.push(face)
        } else {
            earlier
        }
    }
}

/// The faces of the first crossings do not depend on those that follow.
proof fn lemma_faces_agree(c: Seq<Crossing>, d: Seq<Crossing>, count: int)
    requires
        3 * count <= c.len(),
        forall|i: int| 0 <= i < c.len() ==> #[trigger] vertex_of(d, i) == vertex_of(c, i),
    ensures
        faces_of(d, count) == faces_of(c, count),
    decreases count,
{
    if count > 0 {
        lemma_faces_agree(c, d, count - 1);
        assert(face_of(d, count - 1) =~= face_of(c, count - 1));
    }
}

// -- Building ----------------------------------------------------------------

/// The surface built so far, and the grid edges it was built from.
struct Welder<P> {
    positions: Vec<P>,
    faces: Vec<[u32; 3]>,
    welded: HashMap<u64, u32>,
    seen: Ghost<Seq<Crossing>>,
}

impl<P> Welder<P> {
    spec fn inv(&self, n: int) -> bool {
        let v = vertices(self.seen@);
        &&& self.positions@.len() == v.len()
        &&& forall|i: int| 0 <= i < self.seen@.len() ==> grid_edge(n, #[trigger] self.seen@[i])
        &&& forall|j: int|
            0 <= j < v.len() ==> {
                let k = edge_key(n, #[trigger] v[j]) as u64;
                self.welded@.contains_key(k) && self.welded@[k] == low(j)
            }
        &&& forall|k: u64| #[trigger]
            self.welded@.contains_key(k) ==> exists|j: int|
                0 <= j < v.len() && k == edge_key(n, #[trigger] v[j])
    }

    /// The faces so far are those of the crossings so far.
    spec fn faces_match(&self) -> bool {
        &&& self.seen@.len() % 3 == 0
        &&& self.faces@ == faces_of(self.seen@, self.seen@.len() as int / 3)
    }

    /// The vertex of a grid edge, made the first time the edge is met.
    fn vertex<V: Copy, G: Fn(GridPoint, GridPoint, V, V) -> P>(
        &mut self,
        n: usize,
        from: (GridPoint, Sample<V>),
        to: (GridPoint, Sample<V>),
        place: &G,
    ) -> (index: u32)
        requires
            old(self).inv(n as int),
            n * n * n <= u32::MAX,
            n > 0,
            grid_edge(n as int, (from.0@, to.0@)),
            forall|a: GridPoint, b: GridPoint, v: V, w: V| #[trigger]
                call_requires(place, (a, b, v, w)),
        ensures
            final(self).inv(n as int),
            final(self).faces@ == old(self).faces@,
            final(self).seen@ == old(self).seen@.push((from.0@, to.0@)),
            index == low(vertex_of(final(self).seen@, old(self).seen@.len() as int) as int),
            final(self).positions@ == old(self).positions@ || exists|point: P|
                final(self).positions@ == old(self).positions@.push(point) && #[trigger]
                call_ensures(place, (from.0, to.0, from.1.value, to.1.value), point),
    {
        let ghost side = n as int;
        let ghost edge = (from.0@, to.0@);
        let ghost before = self.seen@;
        let ghost v = vertices(before);
        proof {
            lemma_point_number_bound(side, edge.0);
            lemma_point_number_bound(side, edge.1);
            lemma_vertices_push(before, edge);
            lemma_vertices(before);
            lemma_edge_position(v, edge);
        }
        let first: u64 = point_id(n, from.0);
        let second: u64 = point_id(n, to.0);
        let key: u64 = if first < second {
            first * 0x1_0000_0000 + second
        } else {
            second * 0x1_0000_0000 + first
        };
        self.seen = Ghost(before.push(edge));
        if let Some(index) = self.welded.get(&key) {
            proof {
                let j = choose|j: int| 0 <= j < v.len() && key == edge_key(side, #[trigger] v[j]);
                assert(before.contains(v[j]));
                lemma_edge_key_injective(side, v[j], edge);
                lemma_position_unique(v, edge, j);
            }
            return *index;
        }
        proof {
            let k = edge_position(v, edge) as int;
            if k < v.len() {
                assert(before.contains(v[k]));
                lemma_edge_key_symmetric(side, v[k], edge);
            }
            assert forall|j: int| 0 <= j < v.len() implies grid_edge(side, #[trigger] v[j]) by {
                assert(before.contains(v[j]));
            }
            let now = vertices(before.push(edge));
            lemma_vertices(before.push(edge));
            assert(now.len() == v.len() + 1);
        }
        let point = place(from.0, to.0, from.1.value, to.1.value);
        let index: u32 = (self.positions.len() as u128 % 0x1_0000_0000) as u32;
        self.positions.push(point);
        self.welded.insert(key, index);
        proof {
            let now = vertices(self.seen@);
            assert forall|j: int| 0 <= j < now.len() implies ({
                let k = edge_key(side, #[trigger] now[j]) as u64;
                self.welded@.contains_key(k) && self.welded@[k] == low(j)
            }) by {
                if j < v.len() {
                    assert(now[j] == v[j]);
                    if edge_key(side, v[j]) as u64 == key {
                        assert(before.contains(v[j]));
                        lemma_point_number_bound(side, v[j].0);
                        lemma_point_number_bound(side, v[j].1);
                        lemma_edge_key_injective(side, v[j], edge);
                        lemma_position_unique(v, edge, j);
                    }
                }
            }
            assert forall|k: u64| #[trigger] self.welded@.contains_key(k) implies exists|j: int|
                0 <= j < now.len() && k == edge_key(side, #[trigger] now[j]) by {
                if k == key {
                    assert(now[v.len() as int] == edge);
                } else {
                    let j = choose|j: int| 0 <= j < v.len() && k == edge_key(side, #[trigger] v[j]);
                    assert(now[j] == v[j]);
                }
            }
            assert(self.positions@ == old(self).positions@.push(point));
        }
        index
    }
}

/// The number of a grid point.
fn point_id(n: usize, p: GridPoint) -> (id: u64)
    requires
        in_grid(n as int, p@),
        n * n * n <= u32::MAX,
    ensures
        id == point_number(n as int, p@),
        id < 0x1_0000_0000,
{
    proof {
        let (x, y, z) = p@;
        let side = n as int;
        lemma_point_number_bound(side, p@);
        assert(side * side <= side * side * side && 0 <= z * (side * side) <= side * side * side
            && 0 <= y * side <= side * side && side <= side * side) by (nonlinear_arith)
            requires
                0 <= x < side,
                0 <= y < side,
                0 <= z < side,
        ;
    }
    let side: u64 = n as u64;
    p.z as u64 * (side * side) + p.y as u64 * side + p.x as u64
}

/// The edges of a case, three to a triangle, and how many triangles there are.
fn case_triangles(code: usize) -> (r: (usize, [usize; 6]))
    requires
        code < 16,
    ensures
        case_edges(code as int).len() == 3 * r.0,
        r.0 <= 2,
        forall|k: int|
            0 <= k < 3 * r.0 ==> (#[trigger] r.1[k]) as int == case_edges(code as int)[k] && r.1[k]
                < 6,
{
    match code {
        1 => (1, [0, 1, 2, 0, 0, 0]),
        2 => (1, [0, 3, 4, 0, 0, 0]),
        3 => (2, [1, 2, 4, 1, 4, 3]),
        4 => (1, [1, 3, 5, 0, 0, 0]),
        5 => (2, [0, 2, 5, 0, 5, 3]),
        6 => (2, [0, 1, 5, 0, 5, 4]),
        7 => (1, [2, 5, 4, 0, 0, 0]),
        8 => (1, [2, 4, 5, 0, 0, 0]),
        9 => (2, [0, 4, 5, 0, 5, 1]),
        10 => (2, [0, 5, 2, 0, 3, 5]),
        11 => (1, [1, 5, 3, 0, 0, 0]),
        12 => (2, [1, 4, 2, 1, 3, 4]),
        13 => (1, [0, 4, 3, 0, 0, 0]),
        14 => (1, [0, 2, 1, 0, 0, 0]),
        _ => (0, [0, 0, 0, 0, 0, 0]),
    }
}

/// The two corners an edge of a tetrahedron joins.
fn ends_of_edge(e: usize) -> (r: (usize, usize))
    requires
        e < 6,
    ensures
        r.0 < 4,
        r.1 < 4,
        (r.0 as int, r.1 as int) == edge_ends(e as int),
{
    match e {
        0 => (0, 1),
        1 => (0, 2),
        2 => (0, 3),
        3 => (1, 2),
        4 => (1, 3),
        _ => (2, 3),
    }
}

/// Whether a list of positions holds, for each vertex, the point that `place`
/// puts on its grid edge.
pub open spec fn placed<V, P, G: Fn(GridPoint, GridPoint, V, V) -> P>(
    place: G,
    n: int,
    slabs: Seq<Seq<Sample<V>>>,
    v: Seq<Crossing>,
    positions: Seq<P>,
) -> bool {
    &&& positions.len() == v.len()
    &&& forall|k: int|
        0 <= k < v.len() ==> call_ensures(
            place,
            (
                grid_point(v[k].0),
                grid_point(v[k].1),
                sampled(n, slabs, v[k].0).value,
                sampled(n, slabs, v[k].1).value,
            ),
            #[trigger] positions[k],
        )
}

/// The corners of a tetrahedron, as the builder holds them.
spec fn corners_of<V>(
    n: int,
    slabs: Seq<Seq<Sample<V>>>,
    p: Point,
    t: int,
    corners: [(GridPoint, Sample<V>); 4],
) -> bool {
    forall|k: int|
        0 <= k < 4 ==> (#[trigger] corners[k]).0@ == tetrahedron_corner(p, t, k) && corners[k].1
            == sampled(n, slabs, tetrahedron_corner(p, t, k))
}

/// Every edge of a tetrahedron of a cell inside a grid is an edge of the grid.
pub proof fn lemma_tetrahedron_edge(n: int, p: Point, t: int, e: int)
    requires
        in_grid(n, p),
        in_grid(n, corner(p, 6)),
        0 <= t < 6,
        0 <= e < 6,
    ensures
        grid_edge(n, tetrahedron_edge(p, t, e)),
{
}

/// Whether a sampled grid point is one of the given samples.
spec fn is_sample<V>(n: int, slabs: Seq<Seq<Sample<V>>>, p: (GridPoint, Sample<V>)) -> bool {
    p.1 == sampled(n, slabs, p.0@)
}

/// Adds one triangle, whose vertices sit on three grid edges.
fn emit_triangle<V: Copy, P, G: Fn(GridPoint, GridPoint, V, V) -> P>(
    welder: &mut Welder<P>,
    n: usize,
    ends: [((GridPoint, Sample<V>), (GridPoint, Sample<V>)); 3],
    place: &G,
    Ghost(slabs): Ghost<Seq<Seq<Sample<V>>>>,
)
    requires
        old(welder).inv(n as int),
        old(welder).faces_match(),
        placed(*place, n as int, slabs, vertices(old(welder).seen@), old(welder).positions@),
        n * n * n <= u32::MAX,
        n > 0,
        forall|k: int|
            0 <= k < 3 ==> grid_edge(n as int, ((#[trigger] ends[k]).0.0@, ends[k].1.0@))
                && is_sample(n as int, slabs, ends[k].0) && is_sample(n as int, slabs, ends[k].1),
        forall|a: GridPoint, b: GridPoint, v: V, w: V| #[trigger]
            call_requires(place, (a, b, v, w)),
    ensures
        final(welder).inv(n as int),
        final(welder).faces_match(),
        placed(*place, n as int, slabs, vertices(final(welder).seen@), final(welder).positions@),
        final(welder).seen@ == old(welder).seen@.push((ends[0].0.0@, ends[0].1.0@)).push(
            (ends[1].0.0@, ends[1].1.0@),
        ).push((ends[2].0.0@, ends[2].1.0@)),
{
    let ghost side = n as int;
    let ghost start = *welder;
    let ghost e0 = (ends[0].0.0@, ends[0].1.0@);
    let ghost e1 = (ends[1].0.0@, ends[1].1.0@);
    let ghost e2 = (ends[2].0.0@, ends[2].1.0@);
    let v0: u32 = welder.vertex(n, ends[0].0, ends[0].1, place);
    proof {
        lemma_placed(*place, side, slabs, start.seen@, start.positions@, e0, welder.positions@);
    }
    let ghost first = *welder;
    let v1: u32 = welder.vertex(n, ends[1].0, ends[1].1, place);
    proof {
        lemma_placed(*place, side, slabs, first.seen@, first.positions@, e1, welder.positions@);
    }
    let ghost second = *welder;
    let v2: u32 = welder.vertex(n, ends[2].0, ends[2].1, place);
    proof {
        lemma_placed(*place, side, slabs, second.seen@, second.positions@, e2, welder.positions@);
        lemma_vertices_push(start.seen@, e0);
        lemma_vertices_push(first.seen@, e1);
        lemma_vertices_push(second.seen@, e2);
    }
    let ghost third = *welder;
    if v0 != v1 && v1 != v2 && v0 != v2 {
        welder.faces.push([v0, v1, v2]);
    }
    proof {
        assert(third.inv(side));
        assert(welder.positions == third.positions && welder.welded == third.welded
            && welder.seen == third.seen);
        let i = start.seen@.len() as int;
        assert(vertex_of(second.seen@, i) == vertex_of(first.seen@, i));
        assert(vertex_of(welder.seen@, i) == vertex_of(second.seen@, i));
        assert(vertex_of(welder.seen@, i + 1) == vertex_of(second.seen@, i + 1));
        let count = i / 3;
        assert(i == 3 * count);
        assert(face_of(welder.seen@, count) =~= [v0, v1, v2]);
        assert forall|j: int| 0 <= j < i implies #[trigger] vertex_of(welder.seen@, j) == vertex_of(
            start.seen@,
            j,
        ) by {
            assert(vertex_of(first.seen@, j) == vertex_of(start.seen@, j));
            assert(vertex_of(second.seen@, j) == vertex_of(first.seen@, j));
        }
        lemma_faces_agree(start.seen@, welder.seen@, count);
    }
}

/// Adds whatever of the surface passes through one tetrahedron.
fn emit_tetrahedron<V: Copy, P, G: Fn(GridPoint, GridPoint, V, V) -> P>(
    welder: &mut Welder<P>,
    n: usize,
    corners: [(GridPoint, Sample<V>); 4],
    place: &G,
    Ghost(slabs): Ghost<Seq<Seq<Sample<V>>>>,
    Ghost(p): Ghost<Point>,
    Ghost(t): Ghost<int>,
)
    requires
        old(welder).inv(n as int),
        old(welder).faces_match(),
        placed(*place, n as int, slabs, vertices(old(welder).seen@), old(welder).positions@),
        n * n * n <= u32::MAX,
        n > 0,
        0 <= t < 6,
        in_grid(n as int, p),
        in_grid(n as int, corner(p, 6)),
        corners_of(n as int, slabs, p, t, corners),
        forall|a: GridPoint, b: GridPoint, v: V, w: V| #[trigger]
            call_requires(place, (a, b, v, w)),
    ensures
        final(welder).inv(n as int),
        final(welder).faces_match(),
        placed(*place, n as int, slabs, vertices(final(welder).seen@), final(welder).positions@),
        final(welder).seen@ == old(welder).seen@ + tetrahedron_crossings(
            sampled_inside(n as int, slabs),
            p,
            t,
        ),
{
    let ghost side = n as int;
    let ghost inside = sampled_inside(side, slabs);
    let ghost start = welder.seen@;
    let ghost added = tetrahedron_crossings(inside, p, t);
    let mut code: usize = 0;
    if corners[0].1.inside {
        code = code + 1;
    }
    if corners[1].1.inside {
        code = code + 2;
    }
    if corners[2].1.inside {
        code = code + 4;
    }
    if corners[3].1.inside {
        code = code + 8;
    }
    assert(code == tetrahedron_code(inside, p, t)) by {
        assert(corners[0].1 == sampled(side, slabs, tetrahedron_corner(p, t, 0)));
        assert(corners[1].1 == sampled(side, slabs, tetrahedron_corner(p, t, 1)));
        assert(corners[2].1 == sampled(side, slabs, tetrahedron_corner(p, t, 2)));
        assert(corners[3].1 == sampled(side, slabs, tetrahedron_corner(p, t, 3)));
    }
    let (count, edges) = case_triangles(code);
    let mut f: usize = 0;
    assert(welder.seen@ =~= start + added.take(0));
    while f < count
        invariant
            f <= count <= 2,
            side == n,
            inside == sampled_inside(side, slabs),
            added == tetrahedron_crossings(inside, p, t),
            added.len() == 3 * count,
            code == tetrahedron_code(inside, p, t),
            forall|k: int|
                0 <= k < 3 * count ==> (#[trigger] edges[k]) as int == case_edges(code as int)[k]
                    && edges[k] < 6,
            welder.inv(side),
            welder.faces_match(),
            placed(*place, side, slabs, vertices(welder.seen@), welder.positions@),
            welder.seen@ == start + added.take(3 * f),
            n * n * n <= u32::MAX,
            n > 0,
            0 <= t < 6,
            in_grid(side, p),
            in_grid(side, corner(p, 6)),
            corners_of(side, slabs, p, t, corners),
            forall|a: GridPoint, b: GridPoint, v: V, w: V| #[trigger]
                call_requires(place, (a, b, v, w)),
        decreases count - f,
    {
        let ghost base = welder.seen@;
        let (a0, b0) = ends_of_edge(edges[3 * f]);
        let (a1, b1) = ends_of_edge(edges[3 * f + 1]);
        let (a2, b2) = ends_of_edge(edges[3 * f + 2]);
        proof {
            assert(added[3 * f] == tetrahedron_edge(p, t, edges[3 * f as int] as int));
            assert(added[3 * f + 1] == tetrahedron_edge(p, t, edges[3 * f + 1] as int));
            assert(added[3 * f + 2] == tetrahedron_edge(p, t, edges[3 * f + 2] as int));
            lemma_tetrahedron_edge(side, p, t, edges[3 * f as int] as int);
            lemma_tetrahedron_edge(side, p, t, edges[3 * f + 1] as int);
            lemma_tetrahedron_edge(side, p, t, edges[3 * f + 2] as int);
        }
        emit_triangle(
            welder,
            n,
            [(corners[a0], corners[b0]), (corners[a1], corners[b1]), (corners[a2], corners[b2])],
            place,
            Ghost(slabs),
        );
        proof {
            assert(added.take(3 * f + 3) =~= added.take(3 * f as int).push(added[3 * f]).push(
                added[3 * f + 1],
            ).push(added[3 * f + 2]));
        }
        f = f + 1;
        proof {
            assert(welder.seen@ =~= start + added.take(3 * f as int));
        }
    }
    assert(added.take(3 * count as int) =~= added);
}

/// A vertex added to a placed list is placed too.
proof fn lemma_placed<V, P, G: Fn(GridPoint, GridPoint, V, V) -> P>(
    place: G,
    n: int,
    slabs: Seq<Seq<Sample<V>>>,
    seen: Seq<Crossing>,
    positions: Seq<P>,
    edge: Crossing,
    after: Seq<P>,
)
    requires
        placed(place, n, slabs, vertices(seen), positions),
        after.len() == vertices(seen.push(edge)).len(),
        after == positions || exists|point: P|
            after == positions.push(point) && #[trigger] call_ensures(
                place,
                (
                    grid_point(edge.0),
                    grid_point(edge.1),
                    sampled(n, slabs, edge.0).value,
                    sampled(n, slabs, edge.1).value,
                ),
                point,
            ),
    ensures
        placed(place, n, slabs, vertices(seen.push(edge)), after),
{
    lemma_vertices_push(seen, edge);
}

/// Which cell corner is corner `k` of tetrahedron `t`.
fn corner_of_tetrahedron(t: usize, k: usize) -> (c: usize)
    requires
        t < 6,
        k < 4,
    ensures
        c < 8,
        c as int == tetrahedron(t as int, k as int),
{
    if k == 0 {
        0
    } else if k == 3 {
        6
    } else {
        match t {
            0 => if k == 1 { 5 } else { 1 },
            1 => if k == 1 { 1 } else { 2 },
            2 => if k == 1 { 2 } else { 3 },
            3 => if k == 1 { 3 } else { 7 },
            4 => if k == 1 { 7 } else { 4 },
            _ => if k == 1 { 4 } else { 5 },
        }
    }
}

/// Corner `c` of the cell at `(x, y, z)`, with its sample, read from the slab
/// below the cell or the one above it.
fn cell_corner<V: Copy>(
    n: usize,
    lower: &Vec<Sample<V>>,
    upper: &Vec<Sample<V>>,
    cell: GridPoint,
    c: usize,
    Ghost(slabs): Ghost<Seq<Seq<Sample<V>>>>,
) -> (r: (GridPoint, Sample<V>))
    requires
        c < 8,
        n * n <= usize::MAX,
        in_grid(n as int, cell@),
        in_grid(n as int, corner(cell@, 6)),
        cell.z + 1 < slabs.len(),
        lower@ == slabs[cell.z as int],
        upper@ == slabs[cell.z + 1],
        lower@.len() == n * n,
        upper@.len() == n * n,
    ensures
        r.0@ == corner(cell@, c as int),
        r.1 == sampled(n as int, slabs, corner(cell@, c as int)),
{
    let x: usize = if c == 1 || c == 2 || c == 5 || c == 6 { cell.x + 1 } else { cell.x };
    let y: usize = if c == 2 || c == 3 || c == 6 || c == 7 { cell.y + 1 } else { cell.y };
    proof {
        lemma_point_number_bound(n as int, (x as int, y as int, cell.z as int));
        assert(0 <= y * n) by (nonlinear_arith)
            requires
                0 <= y,
                0 <= n,
        ;
    }
    let index: usize = y * n + x;
    if c < 4 {
        (GridPoint { x, y, z: cell.z }, lower[index])
    } else {
        (GridPoint { x, y, z: cell.z + 1 }, upper[index])
    }
}

/// Adds the surface of one layer of cells, the one between slabs `z` and
/// `z + 1`.
fn march_layer<V: Copy, P, G: Fn(GridPoint, GridPoint, V, V) -> P>(
    welder: &mut Welder<P>,
    n: usize,
    z: usize,
    lower: &Vec<Sample<V>>,
    upper: &Vec<Sample<V>>,
    place: &G,
    Ghost(slabs): Ghost<Seq<Seq<Sample<V>>>>,
)
    requires
        old(welder).inv(n as int),
        old(welder).faces_match(),
        placed(*place, n as int, slabs, vertices(old(welder).seen@), old(welder).positions@),
        n * n * n <= u32::MAX,
        n >= 2,
        z + 1 < n,
        z + 1 < slabs.len(),
        lower@ == slabs[z as int],
        upper@ == slabs[z + 1],
        lower@.len() == n * n,
        upper@.len() == n * n,
        forall|a: GridPoint, b: GridPoint, v: V, w: V| #[trigger]
            call_requires(place, (a, b, v, w)),
    ensures
        final(welder).inv(n as int),
        final(welder).faces_match(),
        placed(*place, n as int, slabs, vertices(final(welder).seen@), final(welder).positions@),
        final(welder).seen@ == old(welder).seen@ + layer_crossings(
            n as int,
            sampled_inside(n as int, slabs),
            z as int,
            n - 1,
        ),
{
    let ghost side = n as int;
    let ghost inside = sampled_inside(side, slabs);
    let ghost start = welder.seen@;
    proof {
        assert(n * n <= n * n * n) by (nonlinear_arith)
            requires
                n >= 2,
        ;
    }
    let mut y: usize = 0;
    assert(welder.seen@ =~= start + layer_crossings(side, inside, z as int, 0));
    while y < n - 1
        invariant
            side == n,
            inside == sampled_inside(side, slabs),
            n * n <= usize::MAX,
            n * n * n <= u32::MAX,
            n >= 2,
            y <= n - 1,
            z + 1 < n,
            z + 1 < slabs.len(),
            lower@ == slabs[z as int],
            upper@ == slabs[z + 1],
            lower@.len() == n * n,
            upper@.len() == n * n,
            welder.inv(side),
            welder.faces_match(),
            placed(*place, side, slabs, vertices(welder.seen@), welder.positions@),
            welder.seen@ == start + layer_crossings(side, inside, z as int, y as int),
            forall|a: GridPoint, b: GridPoint, v: V, w: V| #[trigger]
                call_requires(place, (a, b, v, w)),
        decreases n - y,
    {
        let ghost row = welder.seen@;
        let mut x: usize = 0;
        assert(welder.seen@ =~= row + row_crossings(inside, z as int, y as int, 0));
        while x < n - 1
            invariant
                side == n,
                inside == sampled_inside(side, slabs),
                n * n <= usize::MAX,
                n * n * n <= u32::MAX,
                n >= 2,
                x <= n - 1,
                y < n - 1,
                z + 1 < n,
                z + 1 < slabs.len(),
                lower@ == slabs[z as int],
                upper@ == slabs[z + 1],
                lower@.len() == n * n,
                upper@.len() == n * n,
                welder.inv(side),
                welder.faces_match(),
                placed(*place, side, slabs, vertices(welder.seen@), welder.positions@),
                welder.seen@ == row + row_crossings(inside, z as int, y as int, x as int),
                forall|a: GridPoint, b: GridPoint, v: V, w: V| #[trigger]
                    call_requires(place, (a, b, v, w)),
            decreases n - x,
        {
            let ghost cell_start = welder.seen@;
            let cell = GridPoint { x, y, z };
            let mut t: usize = 0;
            assert(welder.seen@ =~= cell_start + cell_crossings(inside, cell@, 0));
            while t < 6
                invariant
                    side == n,
                    inside == sampled_inside(side, slabs),
                    n * n <= usize::MAX,
                    n * n * n <= u32::MAX,
                    n >= 2,
                    t <= 6,
                    in_grid(side, cell@),
                    in_grid(side, corner(cell@, 6)),
                    cell.z == z,
                    z + 1 < slabs.len(),
                    lower@ == slabs[z as int],
                    upper@ == slabs[z + 1],
                    lower@.len() == n * n,
                    upper@.len() == n * n,
                    welder.inv(side),
                    welder.faces_match(),
                    placed(*place, side, slabs, vertices(welder.seen@), welder.positions@),
                    welder.seen@ == cell_start + cell_crossings(inside, cell@, t as int),
                    forall|a: GridPoint, b: GridPoint, v: V, w: V| #[trigger]
                        call_requires(place, (a, b, v, w)),
                decreases 6 - t,
            {
                let (k0, k1) = (corner_of_tetrahedron(t, 0), corner_of_tetrahedron(t, 1));
                let (k2, k3) = (corner_of_tetrahedron(t, 2), corner_of_tetrahedron(t, 3));
                let corners = [
                    cell_corner(n, lower, upper, cell, k0, Ghost(slabs)),
                    cell_corner(n, lower, upper, cell, k1, Ghost(slabs)),
                    cell_corner(n, lower, upper, cell, k2, Ghost(slabs)),
                    cell_corner(n, lower, upper, cell, k3, Ghost(slabs)),
                ];
                emit_tetrahedron(
                    welder,
                    n,
                    corners,
                    place,
                    Ghost(slabs),
                    Ghost(cell@),
                    Ghost(t as int),
                );
                t = t + 1;
                assert(welder.seen@ =~= cell_start + cell_crossings(inside, cell@, t as int));
            }
            x = x + 1;
            assert(welder.seen@ =~= row + row_crossings(inside, z as int, y as int, x as int));
        }
        y = y + 1;
        assert(welder.seen@ =~= start + layer_crossings(side, inside, z as int, y as int));
    }
}

// -- The slabs a field was asked for -----------------------------------------

/// The samples of each slab.
pub open spec fn contents<V>(slabs: Seq<Vec<Sample<V>>>) -> Seq<Seq<Sample<V>>> {
    slabs.map_values(|slab: Vec<Sample<V>>| slab@)
}

/// Whether the field answered these slabs in turn, each of them full but
/// perhaps the last.
pub open spec fn answered<V, F: Fn(usize) -> Result<Vec<Sample<V>>, NetworkError>>(
    field: F,
    n: int,
    slabs: Seq<Vec<Sample<V>>>,
) -> bool {
    &&& slabs.len() <= n
    &&& forall|z: int|
        0 <= z < slabs.len() ==> call_ensures(field, (z as usize,), Ok(#[trigger] slabs[z]))
    &&& forall|z: int| 0 <= z < slabs.len() - 1 ==> (#[trigger] slabs[z])@.len() == n * n
}

/// Whether positions and faces are those of the surface that the samples of a
/// whole grid describe.
pub open spec fn describes<V, P, G: Fn(GridPoint, GridPoint, V, V) -> P>(
    place: G,
    n: int,
    slabs: Seq<Seq<Sample<V>>>,
    positions: Seq<P>,
    faces: Seq<[u32; 3]>,
) -> bool {
    let crossings = grid_crossings(n, sampled_inside(n, slabs), n - 1);
    &&& placed(place, n, slabs, vertices(crossings), positions)
    &&& faces == faces_of(crossings, crossings.len() as int / 3)
}

/// Whether a field that answered `slabs` stops the march with an error: its
/// own, or that of its last slab's wrong length.
pub open spec fn stopped<V, F: Fn(usize) -> Result<Vec<Sample<V>>, NetworkError>>(
    field: F,
    n: int,
    slabs: Seq<Vec<Sample<V>>>,
    error: NetworkError,
) -> bool {
    ||| slabs.len() < n && (slabs.len() > 0 ==> slabs.last()@.len() == n * n) && call_ensures(
        field,
        (slabs.len() as usize,),
        Err(error),
    )
    ||| slabs.len() > 0 && slabs.last()@.len() != n * n && error == (NetworkError::InvalidTarget {
        expected: (n * n) as usize,
        actual: slabs.last()@.len() as usize,
    })
}

/// Whether marching a field over a grid of side `n` ends in `outcome` when the
/// field answers `slabs`: the surface of a full grid, the field's own error, or
/// the error of the first slab of the wrong length.
pub open spec fn marched<
    V,
    P,
    F: Fn(usize) -> Result<Vec<Sample<V>>, NetworkError>,
    G: Fn(GridPoint, GridPoint, V, V) -> P,
>(
    field: F,
    place: G,
    n: int,
    slabs: Seq<Vec<Sample<V>>>,
    outcome: Result<Surface<P>, NetworkError>,
) -> bool {
    &&& answered(field, n, slabs)
    &&& match outcome {
        Ok(surface) => slabs.len() == n && slabs.last()@.len() == n * n && describes(
            place,
            n,
            contents(slabs),
            surface.positions@,
            surface.faces@,
        ),
        Err(error) => stopped(field, n, slabs, error),
    }
}

/// Whether a mesh is the surface that the samples of a whole grid describe,
/// with the normals of its faces and nothing else.
pub open spec fn is_mesh_of<
    T,
    V,
    G: Fn(GridPoint, GridPoint, V, V) -> [T; 3],
    C: Fn([[T; 3]; 3]) -> [T; 3],
    S: Fn([T; 3], [T; 3]) -> [T; 3],
    U: Fn([T; 3]) -> [T; 3],
>(
    place: G,
    n: int,
    slabs: Seq<Seq<Sample<V>>>,
    zero: [T; 3],
    cross: C,
    sum: S,
    unit: U,
    mesh: Mesh<T>,
) -> bool {
    &&& describes(place, n, slabs, mesh.positions@, mesh.indices@)
    &&& has_normals(mesh, zero, cross, sum, unit)
    &&& mesh.uvs@.len() == 0
    &&& mesh.colors@.len() == 0
}

/// Whether marching a field over a grid of side `n` ends in `outcome` when the
/// field answers `slabs`: the mesh of a full grid, or the error that stopped it.
pub open spec fn meshed<
    T,
    V,
    F: Fn(usize) -> Result<Vec<Sample<V>>, NetworkError>,
    G: Fn(GridPoint, GridPoint, V, V) -> [T; 3],
    C: Fn([[T; 3]; 3]) -> [T; 3],
    S: Fn([T; 3], [T; 3]) -> [T; 3],
    U: Fn([T; 3]) -> [T; 3],
>(
    field: F,
    place: G,
    n: int,
    zero: [T; 3],
    cross: C,
    sum: S,
    unit: U,
    slabs: Seq<Vec<Sample<V>>>,
    outcome: Result<Mesh<T>, NetworkError>,
) -> bool {
    &&& answered(field, n, slabs)
    &&& match outcome {
        Ok(mesh) => slabs.len() == n && slabs.last()@.len() == n * n && is_mesh_of(
            place,
            n,
            contents(slabs),
            zero,
            cross,
            sum,
            unit,
            mesh,
        ),
        Err(error) => stopped(field, n, slabs, error),
    }
}

/// The three corners of a face are three vertices.
pub proof fn lemma_faces_name_vertices(c: Seq<Crossing>, count: int)
    requires
        3 * count <= c.len(),
    ensures
        forall|f: int, k: int|
            0 <= f < faces_of(c, count).len() && 0 <= k < 3 ==> (#[trigger] faces_of(c, count)[f][k])
                < vertices(c).len(),
        forall|f: int| 0 <= f < faces_of(c, count).len() ==> is_face(#[trigger] faces_of(c, count)[f]),
    decreases count,
{
    if count > 0 {
        lemma_faces_name_vertices(c, count - 1);
        lemma_vertices(c);
        let k = count - 1;
        assert(vertex_of(c, 3 * k) < vertices(c).len()) by {
            assert(same_edge(vertices(c)[vertex_of(c, 3 * k) as int], c[3 * k]));
        }
        assert(vertex_of(c, 3 * k + 1) < vertices(c).len()) by {
            assert(same_edge(vertices(c)[vertex_of(c, 3 * k + 1) as int], c[3 * k + 1]));
        }
        assert(vertex_of(c, 3 * k + 2) < vertices(c).len()) by {
            assert(same_edge(vertices(c)[vertex_of(c, 3 * k + 2) as int], c[3 * k + 2]));
        }
        let (earlier, all) = (faces_of(c, count - 1), faces_of(c, count));
        assert forall|f: int, k: int| 0 <= f < all.len() && 0 <= k < 3 implies (
        #[trigger] all[f][k]) < vertices(c).len() by {
            if f < earlier.len() {
                assert(all[f] == earlier[f]);
                assert(earlier[f][k] < vertices(c).len());
            } else {
                assert(all[f] == face_of(c, count - 1));
            }
        }
    }
}

/// The crossings below a layer depend only on the slabs below it.
proof fn lemma_crossings_agree(n: int, a: Inside, b: Inside, z: int)
    requires
        forall|p: Point| 0 <= p.2 <= z ==> #[trigger] a(p) == b(p),
    ensures
        grid_crossings(n, a, z) == grid_crossings(n, b, z),
    decreases z,
{
    if z > 0 {
        lemma_crossings_agree(n, a, b, z - 1);
        lemma_layer_agrees(n, a, b, z - 1, n - 1);
    }
}

proof fn lemma_layer_agrees(n: int, a: Inside, b: Inside, z: int, y: int)
    requires
        0 <= z,
        forall|p: Point| 0 <= p.2 <= z + 1 ==> #[trigger] a(p) == b(p),
    ensures
        layer_crossings(n, a, z, y) == layer_crossings(n, b, z, y),
    decreases y,
{
    if y > 0 {
        lemma_layer_agrees(n, a, b, z, y - 1);
        lemma_row_agrees(a, b, z, y - 1, n - 1);
    }
}

proof fn lemma_row_agrees(a: Inside, b: Inside, z: int, y: int, x: int)
    requires
        0 <= z,
        forall|p: Point| 0 <= p.2 <= z + 1 ==> #[trigger] a(p) == b(p),
    ensures
        row_crossings(a, z, y, x) == row_crossings(b, z, y, x),
    decreases x,
{
    if x > 0 {
        lemma_row_agrees(a, b, z, y, x - 1);
        let p = (x - 1, y, z);
        assert forall|t: int| 0 <= t < 6 implies #[trigger] tetrahedron_crossings(a, p, t)
            == tetrahedron_crossings(b, p, t) by {
            assert(tetrahedron_code(a, p, t) == tetrahedron_code(b, p, t));
        }
        reveal_with_fuel(cell_crossings, 7);
    }
}

/// Whether every point of a list of crossings lies at or below a height.
spec fn below(list: Seq<Crossing>, z: int) -> bool {
    forall|i: int| 0 <= i < list.len() ==> (#[trigger] list[i]).0.2 <= z && list[i].1.2 <= z
}

/// The crossings of the first layers stay within them.
proof fn lemma_crossings_below(n: int, inside: Inside, z: int)
    ensures
        below(grid_crossings(n, inside, z), z),
    decreases z,
{
    if z > 0 {
        lemma_crossings_below(n, inside, z - 1);
        lemma_layer_below(n, inside, z - 1, n - 1);
    }
}

proof fn lemma_layer_below(n: int, inside: Inside, z: int, y: int)
    ensures
        below(layer_crossings(n, inside, z, y), z + 1),
    decreases y,
{
    if y > 0 {
        lemma_layer_below(n, inside, z, y - 1);
        lemma_row_below(inside, z, y - 1, n - 1);
    }
}

proof fn lemma_row_below(inside: Inside, z: int, y: int, x: int)
    ensures
        below(row_crossings(inside, z, y, x), z + 1),
    decreases x,
{
    if x > 0 {
        lemma_row_below(inside, z, y, x - 1);
        lemma_cell_below(inside, (x - 1, y, z), 6);
    }
}

proof fn lemma_cell_below(inside: Inside, p: Point, t: int)
    ensures
        below(cell_crossings(inside, p, t), p.2 + 1),
    decreases t,
{
    if t > 0 {
        lemma_cell_below(inside, p, t - 1);
    }
}

/// The surface that separates the inside of a field from its outside.
///
/// `field` is asked for one plane of samples at a time, in order, so that no
/// more than two planes are held at once; `place` puts a vertex on a grid edge,
/// given its two end points and the values there. A surface is returned unless
/// the grid is too small to hold a cell, a plane has the wrong number of
/// samples, or the field itself fails.
pub fn march_surface<
    V: Copy,
    P,
    F: Fn(usize) -> Result<Vec<Sample<V>>, NetworkError>,
    G: Fn(GridPoint, GridPoint, V, V) -> P,
>(field: F, place: G, resolution: usize) -> (outcome: Result<Surface<P>, NetworkError>)
    requires
        resolution * resolution * resolution <= u32::MAX,
        forall|z: usize| z < resolution ==> #[trigger] call_requires(field, (z,)),
        forall|a: GridPoint, b: GridPoint, v: V, w: V| #[trigger]
            call_requires(place, (a, b, v, w)),
    ensures
        resolution < 2 ==> outcome is Err && outcome->Err_0@ == Fault::InvalidConfig(
            "a grid needs at least two samples along each axis"@,
        ),
        resolution >= 2 ==> exists|slabs: Seq<Vec<Sample<V>>>| #[trigger]
            marched(field, place, resolution as int, slabs, outcome),
{
    if resolution < 2 {
        return Err(invalid_config("a grid needs at least two samples along each axis"));
    }
    let ghost n = resolution as int;
    proof {
        assert(n * n <= n * n * n) by (nonlinear_arith)
            requires
                n >= 2,
        ;
    }
    let plane: usize = resolution * resolution;
    let ghost mut slabs: Seq<Vec<Sample<V>>> = Seq::empty();
    let mut welder: Welder<P> = Welder {
        positions: Vec::new(),
        faces: Vec::new(),
        welded: HashMap::new(),
        seen: Ghost(Seq::empty()),
    };
    let mut previous: Option<Vec<Sample<V>>> = None;
    let mut z: usize = 0;
    while z < resolution
        invariant
            n == resolution,
            n >= 2,
            plane == n * n,
            n * n * n <= u32::MAX,
            z <= resolution,
            answered(field, n, slabs),
            slabs.len() == z,
            z > 0 ==> slabs.last()@.len() == n * n,
            z == 0 ==> previous is None && welder.seen@.len() == 0,
            z > 0 ==> previous == Some(slabs.last()),
            z > 0 ==> welder.seen@ == grid_crossings(n, sampled_inside(n, contents(slabs)), z - 1),
            forall|i: int|
                0 <= i < welder.seen@.len() ==> (#[trigger] welder.seen@[i]).0.2 < z
                    && welder.seen@[i].1.2 < z,
            welder.inv(n),
            welder.faces_match(),
            placed(place, n, contents(slabs), vertices(welder.seen@), welder.positions@),
            forall|z: usize| z < resolution ==> #[trigger] call_requires(field, (z,)),
            forall|a: GridPoint, b: GridPoint, v: V, w: V| #[trigger]
                call_requires(place, (a, b, v, w)),
        decreases resolution - z,
    {
        let values = match field(z) {
            Ok(values) => values,
            Err(error) => {
                assert(marched(field, place, n, slabs, Err::<Surface<P>, _>(error)));
                return Err(error);
            },
        };
        let ghost before = slabs;
        proof {
            slabs = slabs.push(values);
            assert(answered(field, n, slabs)) by {
                assert forall|i: int| 0 <= i < slabs.len() - 1 implies (#[trigger] slabs[i])@.len()
                    == n * n by {
                    assert(slabs[i] == before[i]);
                }
                assert forall|i: int| 0 <= i < slabs.len() implies call_ensures(
                    field,
                    (i as usize,),
                    Ok(#[trigger] slabs[i]),
                ) by {
                    if i < before.len() {
                        assert(slabs[i] == before[i]);
                    }
                }
            }
        }
        if values.len() != plane {
            let error = NetworkError::InvalidTarget { expected: plane, actual: values.len() };
            assert(marched(field, place, n, slabs, Err::<Surface<P>, _>(error)));
            return Err(error);
        }
        proof {
            let (a, b) = (sampled_inside(n, contents(before)), sampled_inside(n, contents(slabs)));
            assert(contents(slabs) =~= contents(before).push(values@));
            assert forall|p: Point| 0 <= p.2 < before.len() implies #[trigger] sampled(
                n,
                contents(slabs),
                p,
            ) == sampled(n, contents(before), p) by {}
            let v = vertices(welder.seen@);
            lemma_vertices(welder.seen@);
            assert forall|k: int| 0 <= k < v.len() implies (#[trigger] v[k]).0.2 < z && v[k].1.2
                < z && 0 <= v[k].0.2 && 0 <= v[k].1.2 by {
                assert(welder.seen@.contains(v[k]));
                let i = choose|i: int| 0 <= i < welder.seen@.len() && welder.seen@[i] == v[k];
                assert(grid_edge(n, welder.seen@[i]));
            }
            assert(placed(place, n, contents(slabs), v, welder.positions@));
        }
        if let Some(lower) = &previous {
            proof {
                let (a, b) = (
                    sampled_inside(n, contents(before)),
                    sampled_inside(n, contents(slabs)),
                );
                assert forall|p: Point| 0 <= p.2 <= z - 1 implies #[trigger] a(p) == b(p) by {
                    assert(sampled(n, contents(slabs), p) == sampled(n, contents(before), p));
                }
                lemma_crossings_agree(n, a, b, z - 1);
                lemma_crossings_below(n, b, z as int);
            }
            march_layer(
                &mut welder,
                resolution,
                z - 1,
                lower,
                &values,
                &place,
                Ghost(contents(slabs)),
            );
        }
        previous = Some(values);
        z = z + 1;
        assert(welder.seen@ =~= grid_crossings(n, sampled_inside(n, contents(slabs)), z - 1));
    }
    let surface = Surface { positions: welder.positions, faces: welder.faces };
    assert(marched(field, place, n, slabs, Ok::<_, NetworkError>(surface)));
    Ok(surface)
}

/// Turns a field into the mesh of the surface that separates its inside from
/// its outside, with the normals of its faces.
///
/// `cross` is a face's area-weighted normal, `sum` adds two of them, starting
/// from `zero`, and `unit` scales a vertex's sum to unit length.
pub fn marching_tetrahedra<
    T: Copy,
    V: Copy,
    F: Fn(usize) -> Result<Vec<Sample<V>>, NetworkError>,
    G: Fn(GridPoint, GridPoint, V, V) -> [T; 3],
    C: Fn([[T; 3]; 3]) -> [T; 3],
    S: Fn([T; 3], [T; 3]) -> [T; 3],
    U: Fn([T; 3]) -> [T; 3],
>(
    field: F,
    place: G,
    resolution: usize,
    zero: [T; 3],
    cross: &C,
    sum: &S,
    unit: &U,
) -> (outcome: Result<Mesh<T>, NetworkError>)
    requires
        resolution * resolution * resolution <= u32::MAX,
        forall|z: usize| z < resolution ==> #[trigger] call_requires(field, (z,)),
        forall|a: GridPoint, b: GridPoint, v: V, w: V| #[trigger]
            call_requires(place, (a, b, v, w)),
        forall|c: [[T; 3]; 3]| #[trigger] call_requires(*cross, (c,)),
        forall|a: [T; 3], b: [T; 3]| #[trigger] call_requires(*sum, (a, b)),
        forall|a: [T; 3]| #[trigger] call_requires(*unit, (a,)),
    ensures
        resolution < 2 ==> outcome is Err && outcome->Err_0@ == Fault::InvalidConfig(
            "a grid needs at least two samples along each axis"@,
        ),
        resolution >= 2 ==> exists|slabs: Seq<Vec<Sample<V>>>| #[trigger]
            meshed(
                field,
                place,
                resolution as int,
                zero,
                *cross,
                *sum,
                *unit,
                slabs,
                outcome,
            ),
{
    let ghost n = resolution as int;
    let ghost (asked, put) = (field, place);
    let marched_surface = march_surface(field, place, resolution);
    let surface = match marched_surface {
        Ok(surface) => surface,
        Err(error) => {
            proof {
                if n >= 2 {
                    let slabs = choose|slabs: Seq<Vec<Sample<V>>>| #[trigger]
                        marched(asked, put, n, slabs, marched_surface);
                    assert(meshed(
                        asked,
                        put,
                        n,
                        zero,
                        *cross,
                        *sum,
                        *unit,
                        slabs,
                        Err::<Mesh<T>, _>(error),
                    ));
                }
            }
            return Err(error);
        },
    };
    let ghost slabs = choose|slabs: Seq<Vec<Sample<V>>>| #[trigger]
        marched(asked, put, n, slabs, marched_surface);
    let mut mesh: Mesh<T> = Mesh::empty();
    mesh.positions = surface.positions;
    mesh.indices = surface.faces;
    proof {
        let c = grid_crossings(n, sampled_inside(n, contents(slabs)), n - 1);
        lemma_faces_name_vertices(c, c.len() as int / 3);
        assert forall|f: int| 0 <= f < mesh.indices@.len() implies (#[trigger] mesh.indices@[f])[0]
            < mesh.positions@.len() && mesh.indices@[f][1] < mesh.positions@.len()
            && mesh.indices@[f][2] < mesh.positions@.len() by {
            let faces = faces_of(c, c.len() as int / 3);
            assert(faces[f][0] < vertices(c).len());
            assert(faces[f][1] < vertices(c).len());
            assert(faces[f][2] < vertices(c).len());
        }
    }
    mesh.recompute_normals(zero, cross, sum, unit);
    assert(meshed(asked, put, n, zero, *cross, *sum, *unit, slabs, Ok::<_, NetworkError>(mesh)));
    Ok(mesh)
}

} // verus!
