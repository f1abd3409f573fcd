//! Marching tetrahedra leaves no holes: every edge of the surface that does
//! not lie on the outside of the grid is shared by exactly two faces.
//!
//! An edge of the surface joins the vertices of two grid edges of one
//! tetrahedron. Either the two grid edges share a point, and then the edge
//! crosses a face of the tetrahedron, which exactly one other tetrahedron of
//! the grid has too; or they do not, and then the edge is the diagonal of the
//! four-sided piece that this tetrahedron alone contributes as two triangles.
use crate::march::{
    case_edges, case_code, cell_crossings, corner, describes, edge_ends, face_of, faces_of,
    grid_crossings, grid_edge, in_grid, is_face, is_mesh_of, layer_crossings, lemma_edge_count,
    lemma_faces_name_vertices, lemma_position_unique, lemma_tetrahedron_edge, lemma_vertices,
    row_crossings, same_edge, sampled, sampled_inside, tetrahedron_code, tetrahedron_corner,
    tetrahedron_crossings, tetrahedron_edge, vertex_of, vertices, Crossing, GridPoint, Inside,
    Point, Sample,
};
use crate::mesh::Mesh;
use crate::quadrics::names_vertices;
use vstd::prelude::*;

verus! {

// -- Counting sides ----------------------------------------------------------

/// One when a condition holds.
pub open spec fn one_if(b: bool) -> nat {
    if b { 1 } else { 0 }
}

/// How many sides of a face join vertices `a` and `b`.
pub open spec fn face_sides(face: [u32; 3], a: nat, b: nat) -> nat {
    one_if(joins(face[0] as nat, face[1] as nat, a, b)) + one_if(
        joins(face[1] as nat, face[2] as nat, a, b),
    ) + one_if(joins(face[2] as nat, face[0] as nat, a, b))
}

/// Whether a pair of vertices is the pair `a`, `b` in either order.
pub open spec fn joins(u: nat, v: nat, a: nat, b: nat) -> bool {
    (u == a && v == b) || (u == b && v == a)
}

/// How many sides of the faces of a surface join vertices `a` and `b`.
pub open spec fn sides(faces: Seq<[u32; 3]>, a: nat, b: nat) -> nat
    decreases faces.len(),
{
    if faces.len() == 0 {
        0
    } else {
        sides(faces.drop_last(), a, b) + face_sides(faces.last(), a, b)
    }
}

/// Whether a pair of crossings is the pair of edges `e`, `f` in either order.
spec fn pairs(u: Crossing, v: Crossing, e: Crossing, f: Crossing) -> bool {
    (same_edge(u, e) && same_edge(v, f)) || (same_edge(u, f) && same_edge(v, e))
}

/// How many sides of the triangle of three crossings join edges `e` and `f`.
spec fn triangle_pairs(u: Crossing, v: Crossing, w: Crossing, e: Crossing, f: Crossing) -> nat {
    one_if(pairs(u, v, e, f)) + one_if(pairs(v, w, e, f)) + one_if(pairs(w, u, e, f))
}

/// Whether a list of crossings is a list of whole triangles.
#[verifier::opaque]
spec fn whole(c: Seq<Crossing>) -> bool {
    c.len() % 3 == 0
}

/// How many triangle sides of a list of crossings join edges `e` and `f`.
#[verifier::opaque]
spec fn list_pairs(c: Seq<Crossing>, e: Crossing, f: Crossing) -> nat
    decreases c.len(),
{
    if c.len() < 3 {
        0
    } else {
        let m = c.len() - 3;
        list_pairs(c.take(m), e, f) + triangle_pairs(c[m], c[m + 1], c[m + 2], e, f)
    }
}

proof fn lemma_list_pairs_add(c: Seq<Crossing>, d: Seq<Crossing>, e: Crossing, f: Crossing)
    requires
        whole(c),
        whole(d),
    ensures
        whole(c + d),
        list_pairs(c + d, e, f) == list_pairs(c, e, f) + list_pairs(d, e, f),
    decreases d.len(),
{
    reveal(whole);
    reveal(list_pairs);
    if d.len() == 0 {
        assert(c + d =~= c);
    } else {
        let m = d.len() - 3;
        lemma_list_pairs_add(c, d.take(m), e, f);
        assert((c + d).take(c.len() + m) =~= c + d.take(m));
        assert((c + d)[c.len() + m] == d[m]);
        assert((c + d)[c.len() + m + 1] == d[m + 1]);
        assert((c + d)[c.len() + m + 2] == d[m + 2]);
    }
}

/// A surface's sides are the pairs of its list of crossings.
proof fn lemma_sides_are_pairs(c: Seq<Crossing>, faces: Seq<[u32; 3]>, m: int, a: nat, b: nat)
    requires
        0 <= m <= faces.len(),
        c.len() == 3 * faces.len(),
        forall|f: int, k: int|
            0 <= f < faces.len() && 0 <= k < 3 ==> (#[trigger] faces[f][k]) as nat == vertex_of(
                c,
                3 * f + k,
            ),
        a < vertices(c).len(),
        b < vertices(c).len(),
    ensures
        sides(faces.take(m), a, b) == list_pairs(
            c.take(3 * m),
            vertices(c)[a as int],
            vertices(c)[b as int],
        ),
    decreases m,
{
    reveal(list_pairs);
    if m > 0 {
        lemma_sides_are_pairs(c, faces, m - 1, a, b);
        let v = vertices(c);
        let (e, f) = (v[a as int], v[b as int]);
        lemma_vertices(c);
        assert forall|i: int| 0 <= i < c.len() implies (#[trigger] vertex_of(c, i) == a)
            == same_edge(c[i], e) && (vertex_of(c, i) == b) == same_edge(c[i], f) by {
            assert(same_edge(v[vertex_of(c, i) as int], c[i]));
            if same_edge(c[i], e) {
                lemma_position_unique(v, c[i], a as int);
            }
            if same_edge(c[i], f) {
                lemma_position_unique(v, c[i], b as int);
            }
        }
        assert(faces.take(m).drop_last() =~= faces.take(m - 1));
        assert(c.take(3 * m).take(3 * m - 3) =~= c.take(3 * (m - 1)));
        let face = faces[m - 1];
        assert(face[0] as nat == vertex_of(c, 3 * (m - 1) + 0));
        assert(face[1] as nat == vertex_of(c, 3 * (m - 1) + 1));
        assert(face[2] as nat == vertex_of(c, 3 * (m - 1) + 2));
    }
}

// -- Summing over the cells --------------------------------------------------

/// Pairs contributed by tetrahedron `t` of the cell at `p`.
spec fn tetrahedron_pairs(inside: Inside, p: Point, t: int, e: Crossing, f: Crossing) -> nat {
    list_pairs(tetrahedron_crossings(inside, p, t), e, f)
}

/// Pairs contributed by a cell.
spec fn cell_pairs(inside: Inside, p: Point, e: Crossing, f: Crossing) -> nat {
    tetrahedron_pairs(inside, p, 0, e, f) + tetrahedron_pairs(inside, p, 1, e, f)
        + tetrahedron_pairs(inside, p, 2, e, f) + tetrahedron_pairs(inside, p, 3, e, f)
        + tetrahedron_pairs(inside, p, 4, e, f) + tetrahedron_pairs(inside, p, 5, e, f)
}

type Weight = spec_fn(Point) -> nat;

/// The pairs each cell contributes.
spec fn pair_weight(inside: Inside, e: Crossing, f: Crossing) -> Weight {
    |p: Point| cell_pairs(inside, p, e, f)
}

spec fn row_sum(g: Weight, z: int, y: int, x: int) -> nat
    decreases x,
{
    if x <= 0 {
        0
    } else {
        row_sum(g, z, y, x - 1) + g((x - 1, y, z))
    }
}

spec fn layer_sum(g: Weight, m: int, z: int, y: int) -> nat
    decreases y,
{
    if y <= 0 {
        0
    } else {
        layer_sum(g, m, z, y - 1) + row_sum(g, z, y - 1, m)
    }
}

/// The sum of a weight over the cells of the first `z` layers of a grid of
/// `m` cells a side.
spec fn grid_sum(g: Weight, m: int, z: int) -> nat
    decreases z,
{
    if z <= 0 {
        0
    } else {
        grid_sum(g, m, z - 1) + layer_sum(g, m, z - 1, m)
    }
}

proof fn lemma_case_lengths(code: int)
    ensures
        case_edges(code).len() % 3 == 0,
{
}

proof fn lemma_cell_pairs(inside: Inside, p: Point, e: Crossing, f: Crossing)
    ensures
        whole(cell_crossings(inside, p, 6)),
        list_pairs(cell_crossings(inside, p, 6), e, f) == cell_pairs(inside, p, e, f),
{
    assert(whole(cell_crossings(inside, p, 0))) by {
        reveal(whole);
    }
    assert(list_pairs(cell_crossings(inside, p, 0), e, f) == 0) by {
        reveal(list_pairs);
    }
    lemma_cell_step(inside, p, 0, e, f);
    lemma_cell_step(inside, p, 1, e, f);
    lemma_cell_step(inside, p, 2, e, f);
    lemma_cell_step(inside, p, 3, e, f);
    lemma_cell_step(inside, p, 4, e, f);
    lemma_cell_step(inside, p, 5, e, f);
}

proof fn lemma_cell_step(inside: Inside, p: Point, t: int, e: Crossing, f: Crossing)
    requires
        0 <= t,
        whole(cell_crossings(inside, p, t)),
    ensures
        whole(cell_crossings(inside, p, t + 1)),
        list_pairs(cell_crossings(inside, p, t + 1), e, f) == list_pairs(
            cell_crossings(inside, p, t),
            e,
            f,
        ) + tetrahedron_pairs(inside, p, t, e, f),
{
    assert(whole(tetrahedron_crossings(inside, p, t))) by {
        reveal(whole);
        lemma_case_lengths(tetrahedron_code(inside, p, t));
    }
    lemma_list_pairs_add(
        cell_crossings(inside, p, t),
        tetrahedron_crossings(inside, p, t),
        e,
        f,
    );
}

proof fn lemma_row_pairs(inside: Inside, z: int, y: int, x: int, e: Crossing, f: Crossing)
    ensures
        whole(row_crossings(inside, z, y, x)),
        list_pairs(row_crossings(inside, z, y, x), e, f) == row_sum(
            pair_weight(inside, e, f),
            z,
            y,
            x,
        ),
    decreases x,
{
    if x <= 0 {
        reveal(whole);
        reveal(list_pairs);
    } else {
        lemma_row_pairs(inside, z, y, x - 1, e, f);
        lemma_cell_pairs(inside, (x - 1, y, z), e, f);
        let (cells, cell) = (
            row_crossings(inside, z, y, x - 1),
            cell_crossings(inside, (x - 1, y, z), 6),
        );
        lemma_list_pairs_add(cells, cell, e, f);
        assert(row_crossings(inside, z, y, x) == cells + cell);
    }
}

proof fn lemma_layer_pairs(
    n: int,
    inside: Inside,
    z: int,
    y: int,
    e: Crossing,
    f: Crossing,
)
    ensures
        whole(layer_crossings(n, inside, z, y)),
        list_pairs(layer_crossings(n, inside, z, y), e, f) == layer_sum(
            pair_weight(inside, e, f),
            n - 1,
            z,
            y,
        ),
    decreases y,
{
    if y <= 0 {
        reveal(whole);
        reveal(list_pairs);
    } else {
        lemma_layer_pairs(n, inside, z, y - 1, e, f);
        lemma_row_pairs(inside, z, y - 1, n - 1, e, f);
        let (rows, row) = (
            layer_crossings(n, inside, z, y - 1),
            row_crossings(inside, z, y - 1, n - 1),
        );
        lemma_list_pairs_add(rows, row, e, f);
        assert(layer_crossings(n, inside, z, y) == rows + row);
        let g = pair_weight(inside, e, f);
        assert(layer_sum(g, n - 1, z, y) == layer_sum(g, n - 1, z, y - 1) + row_sum(
            g,
            z,
            y - 1,
            n - 1,
        ));
    }
}

proof fn lemma_grid_pairs(n: int, inside: Inside, z: int, e: Crossing, f: Crossing)
    ensures
        whole(grid_crossings(n, inside, z)),
        list_pairs(grid_crossings(n, inside, z), e, f) == grid_sum(
            pair_weight(inside, e, f),
            n - 1,
            z,
        ),
    decreases z,
{
    if z <= 0 {
        reveal(whole);
        reveal(list_pairs);
    } else {
        lemma_grid_pairs(n, inside, z - 1, e, f);
        lemma_layer_pairs(n, inside, z - 1, n - 1, e, f);
        let (lower, layer) = (
            grid_crossings(n, inside, z - 1),
            layer_crossings(n, inside, z - 1, n - 1),
        );
        lemma_list_pairs_add(lower, layer, e, f);
        assert(grid_crossings(n, inside, z) == lower + layer);
        let g = pair_weight(inside, e, f);
        assert(grid_sum(g, n - 1, z) == grid_sum(g, n - 1, z - 1) + layer_sum(
            g,
            n - 1,
            z - 1,
            n - 1,
        ));
    }
}

/// Whether a cell is one of the `m` a side of a grid's first `z` layers.
spec fn in_cells(m: int, z: int, p: Point) -> bool {
    0 <= p.0 < m && 0 <= p.1 < m && 0 <= p.2 < z
}

proof fn lemma_row_sum_point(g: Weight, z: int, y: int, x: int, at: Point)
    requires
        forall|p: Point| p != at ==> #[trigger] g(p) == 0,
    ensures
        row_sum(g, z, y, x) == if at.2 == z && at.1 == y && 0 <= at.0 < x { g(at) } else { 0 },
    decreases x,
{
    if x > 0 {
        lemma_row_sum_point(g, z, y, x - 1, at);
    }
}

proof fn lemma_layer_sum_point(g: Weight, m: int, z: int, y: int, at: Point)
    requires
        forall|p: Point| p != at ==> #[trigger] g(p) == 0,
    ensures
        layer_sum(g, m, z, y) == if at.2 == z && 0 <= at.1 < y && 0 <= at.0 < m {
            g(at)
        } else {
            0
        },
    decreases y,
{
    if y > 0 {
        lemma_layer_sum_point(g, m, z, y - 1, at);
        lemma_row_sum_point(g, z, y - 1, m, at);
    }
}

/// A weight that only one cell carries sums to that cell's weight.
proof fn lemma_grid_sum_point(g: Weight, m: int, z: int, at: Point)
    requires
        forall|p: Point| p != at ==> #[trigger] g(p) == 0,
    ensures
        grid_sum(g, m, z) == if in_cells(m, z, at) { g(at) } else { 0 },
    decreases z,
{
    if z > 0 {
        lemma_grid_sum_point(g, m, z - 1, at);
        lemma_layer_sum_point(g, m, z - 1, m, at);
    }
}

proof fn lemma_row_sum_add(g: Weight, h: Weight, k: Weight, z: int, y: int, x: int)
    requires
        forall|p: Point| #[trigger] k(p) == g(p) + h(p),
    ensures
        row_sum(k, z, y, x) == row_sum(g, z, y, x) + row_sum(h, z, y, x),
    decreases x,
{
    if x > 0 {
        lemma_row_sum_add(g, h, k, z, y, x - 1);
    }
}

proof fn lemma_layer_sum_add(g: Weight, h: Weight, k: Weight, m: int, z: int, y: int)
    requires
        forall|p: Point| #[trigger] k(p) == g(p) + h(p),
    ensures
        layer_sum(k, m, z, y) == layer_sum(g, m, z, y) + layer_sum(h, m, z, y),
    decreases y,
{
    if y > 0 {
        lemma_layer_sum_add(g, h, k, m, z, y - 1);
        lemma_row_sum_add(g, h, k, z, y - 1, m);
    }
}

proof fn lemma_grid_sum_add(g: Weight, h: Weight, k: Weight, m: int, z: int)
    requires
        forall|p: Point| #[trigger] k(p) == g(p) + h(p),
    ensures
        grid_sum(k, m, z) == grid_sum(g, m, z) + grid_sum(h, m, z),
    decreases z,
{
    if z > 0 {
        lemma_grid_sum_add(g, h, k, m, z - 1);
        lemma_layer_sum_add(g, h, k, m, z - 1, m);
    }
}

/// A weight that only two cells carry sums to their two weights.
proof fn lemma_grid_sum_two(g: Weight, m: int, at: Point, other: Point)
    requires
        at != other,
        forall|p: Point| p != at && p != other ==> #[trigger] g(p) == 0,
    ensures
        grid_sum(g, m, m) == (if in_cells(m, m, at) { g(at) } else { 0 }) + (if in_cells(
            m,
            m,
            other,
        ) { g(other) } else { 0 }),
{
    let first = |p: Point| if p == at { g(p) } else { 0nat };
    let second = |p: Point| if p == at { 0nat } else { g(p) };
    lemma_grid_sum_add(first, second, g, m, m);
    lemma_grid_sum_point(first, m, m, at);
    lemma_grid_sum_point(second, m, m, other);
}

proof fn lemma_row_sum_positive(g: Weight, z: int, y: int, x: int) -> (at: Point)
    requires
        row_sum(g, z, y, x) > 0,
    ensures
        at.2 == z && at.1 == y && 0 <= at.0 < x && g(at) > 0,
    decreases x,
{
    if g((x - 1, y, z)) > 0 {
        (x - 1, y, z)
    } else {
        lemma_row_sum_positive(g, z, y, x - 1)
    }
}

proof fn lemma_layer_sum_positive(g: Weight, m: int, z: int, y: int) -> (at: Point)
    requires
        layer_sum(g, m, z, y) > 0,
    ensures
        at.2 == z && 0 <= at.1 < y && 0 <= at.0 < m && g(at) > 0,
    decreases y,
{
    if row_sum(g, z, y - 1, m) > 0 {
        lemma_row_sum_positive(g, z, y - 1, m)
    } else {
        lemma_layer_sum_positive(g, m, z, y - 1)
    }
}

/// A positive sum has a cell with a positive weight.
proof fn lemma_grid_sum_positive(g: Weight, m: int, z: int) -> (at: Point)
    requires
        grid_sum(g, m, z) > 0,
    ensures
        in_cells(m, z, at),
        g(at) > 0,
    decreases z,
{
    if layer_sum(g, m, z - 1, m) > 0 {
        lemma_layer_sum_positive(g, m, z - 1, m)
    } else {
        lemma_grid_sum_positive(g, m, z - 1)
    }
}

// -- One tetrahedron ---------------------------------------------------------

spec fn number_pairs(u: int, v: int, i: int, j: int) -> bool {
    (u == i && v == j) || (u == j && v == i)
}

spec fn number_triangle(u: int, v: int, w: int, i: int, j: int) -> nat {
    one_if(number_pairs(u, v, i, j)) + one_if(number_pairs(v, w, i, j)) + one_if(
        number_pairs(w, u, i, j),
    )
}

/// How many triangle sides of a case join its edges `i` and `j`.
spec fn case_pairs(code: int, i: int, j: int) -> nat {
    number_list(case_edges(code), i, j)
}

/// How many sides of up to two triangles of edges join edges `i` and `j`.
spec fn number_list(c: Seq<int>, i: int, j: int) -> nat {
    (if c.len() >= 3 { number_triangle(c[0], c[1], c[2], i, j) } else { 0 }) + (if c.len() >= 6 {
        number_triangle(c[3], c[4], c[5], i, j)
    } else {
        0
    })
}

/// Whether corner `k` of a case is inside.
spec fn corner_inside(code: int, k: int) -> bool {
    if k == 0 {
        code % 2 == 1
    } else if k == 1 {
        (code / 2) % 2 == 1
    } else if k == 2 {
        (code / 4) % 2 == 1
    } else {
        (code / 8) % 2 == 1
    }
}

/// Whether the surface crosses edge `i` of a case.
spec fn edge_crosses(code: int, i: int) -> bool {
    corner_inside(code, edge_ends(i).0) != corner_inside(code, edge_ends(i).1)
}

/// In every case, two crossed edges that share a corner are joined by exactly
/// one triangle side, and two that do not by none or by both triangles.
proof fn lemma_case_pairs(code: int, i: int, j: int)
    requires
        0 <= code < 16,
        0 <= i < 6,
        0 <= j < 6,
        i != j,
    ensures
        i + j != 5 ==> case_pairs(code, i, j) == one_if(
            edge_crosses(code, i) && edge_crosses(code, j),
        ),
        i + j == 5 ==> case_pairs(code, i, j) == 0 || case_pairs(code, i, j) == 2,
{
    let c = case_edges(code);
    lemma_case_corners(code);
    if code == 0 {
        assert(c.len() == 0);
    } else if code == 1 {
        assert(c.len() == 3);
        assert(c[0] == 0 && c[1] == 1 && c[2] == 2);
    } else if code == 2 {
        assert(c.len() == 3);
        assert(c[0] == 0 && c[1] == 3 && c[2] == 4);
    } else if code == 3 {
        assert(c.len() == 6);
        assert(c[0] == 1 && c[1] == 2 && c[2] == 4 && c[3] == 1 && c[4] == 4 && c[5] == 3);
    } else if code == 4 {
        assert(c.len() == 3);
        assert(c[0] == 1 && c[1] == 3 && c[2] == 5);
    } else if code == 5 {
        assert(c.len() == 6);
        assert(c[0] == 0 && c[1] == 2 && c[2] == 5 && c[3] == 0 && c[4] == 5 && c[5] == 3);
    } else if code == 6 {
        assert(c.len() == 6);
        assert(c[0] == 0 && c[1] == 1 && c[2] == 5 && c[3] == 0 && c[4] == 5 && c[5] == 4);
    } else if code == 7 {
        assert(c.len() == 3);
        assert(c[0] == 2 && c[1] == 5 && c[2] == 4);
    } else if code == 8 {
        assert(c.len() == 3);
        assert(c[0] == 2 && c[1] == 4 && c[2] == 5);
    } else if code == 9 {
        assert(c.len() == 6);
        assert(c[0] == 0 && c[1] == 4 && c[2] == 5 && c[3] == 0 && c[4] == 5 && c[5] == 1);
    } else if code == 10 {
        assert(c.len() == 6);
        assert(c[0] == 0 && c[1] == 5 && c[2] == 2 && c[3] == 0 && c[4] == 3 && c[5] == 5);
    } else if code == 11 {
        assert(c.len() == 3);
        assert(c[0] == 1 && c[1] == 5 && c[2] == 3);
    } else if code == 12 {
        assert(c.len() == 6);
        assert(c[0] == 1 && c[1] == 4 && c[2] == 2 && c[3] == 1 && c[4] == 3 && c[5] == 4);
    } else if code == 13 {
        assert(c.len() == 3);
        assert(c[0] == 0 && c[1] == 4 && c[2] == 3);
    } else if code == 14 {
        assert(c.len() == 3);
        assert(c[0] == 0 && c[1] == 2 && c[2] == 1);
    } else if code == 15 {
        assert(c.len() == 0);
    }
}

proof fn lemma_case_corners(code: int)
    requires
        0 <= code < 16,
    ensures
        code == case_code(
            corner_inside(code, 0),
            corner_inside(code, 1),
            corner_inside(code, 2),
            corner_inside(code, 3),
        ),
{
}

/// The number of a tetrahedron's edge, or six when it is not one of its own.
spec fn edge_of(p: Point, t: int, e: Crossing) -> int {
    if same_edge(tetrahedron_edge(p, t, 0), e) {
        0
    } else if same_edge(tetrahedron_edge(p, t, 1), e) {
        1
    } else if same_edge(tetrahedron_edge(p, t, 2), e) {
        2
    } else if same_edge(tetrahedron_edge(p, t, 3), e) {
        3
    } else if same_edge(tetrahedron_edge(p, t, 4), e) {
        4
    } else if same_edge(tetrahedron_edge(p, t, 5), e) {
        5
    } else {
        6
    }
}

proof fn lemma_edge_of(p: Point, t: int, e: Crossing, i: int)
    requires
        0 <= t < 6,
        0 <= i < 6,
    ensures
        same_edge(tetrahedron_edge(p, t, i), e) == (edge_of(p, t, e) == i),
{
    assert forall|j: int|
        0 <= j < 6 && i != j && same_edge(tetrahedron_edge(p, t, i), e) implies !same_edge(
        #[trigger] tetrahedron_edge(p, t, j),
        e,
    ) by {
        lemma_corners_distinct(p, t);
    }
}

proof fn lemma_corners_distinct(p: Point, t: int)
    requires
        0 <= t < 6,
    ensures
        tetrahedron_corner(p, t, 0) != tetrahedron_corner(p, t, 1),
        tetrahedron_corner(p, t, 0) != tetrahedron_corner(p, t, 2),
        tetrahedron_corner(p, t, 0) != tetrahedron_corner(p, t, 3),
        tetrahedron_corner(p, t, 1) != tetrahedron_corner(p, t, 2),
        tetrahedron_corner(p, t, 1) != tetrahedron_corner(p, t, 3),
        tetrahedron_corner(p, t, 2) != tetrahedron_corner(p, t, 3),
{
}

proof fn lemma_mapped_pairs(p: Point, t: int, edges: Seq<int>, e: Crossing, f: Crossing)
    requires
        0 <= t < 6,
        edges.len() == 0 || edges.len() == 3 || edges.len() == 6,
        forall|k: int| 0 <= k < edges.len() ==> 0 <= #[trigger] edges[k] < 6,
    ensures
        list_pairs(edges.map_values(|k: int| tetrahedron_edge(p, t, k)), e, f) == if edge_of(
            p,
            t,
            e,
        ) < 6 && edge_of(p, t, f) < 6 {
            number_list(edges, edge_of(p, t, e), edge_of(p, t, f))
        } else {
            0
        },
{
    let c = edges.map_values(|k: int| tetrahedron_edge(p, t, k));
    let (i, j) = (edge_of(p, t, e), edge_of(p, t, f));
    assert forall|k: int| 0 <= k < c.len() implies same_edge(#[trigger] c[k], e) == (i
        == edges[k]) && same_edge(c[k], f) == (j == edges[k]) by {
        lemma_edge_of(p, t, e, edges[k]);
        lemma_edge_of(p, t, f, edges[k]);
    }
    reveal(list_pairs);
    reveal_with_fuel(list_pairs, 3);
    if c.len() == 3 {
        assert(c.take(0).len() == 0);
    } else if c.len() == 6 {
        assert(c.take(3).take(0).len() == 0);
        assert(c.take(3)[0] == c[0] && c.take(3)[1] == c[1] && c.take(3)[2] == c[2]);
    }
}

proof fn lemma_case_range(code: int)
    ensures
        case_edges(code).len() == 0 || case_edges(code).len() == 3 || case_edges(code).len() == 6,
        forall|k: int| 0 <= k < case_edges(code).len() ==> 0 <= #[trigger] case_edges(code)[k] < 6,
{
}

/// A tetrahedron's sides are its case's sides.
proof fn lemma_tetrahedron_pairs(inside: Inside, p: Point, t: int, e: Crossing, f: Crossing)
    requires
        0 <= t < 6,
    ensures
        tetrahedron_pairs(inside, p, t, e, f) == if edge_of(p, t, e) < 6 && edge_of(p, t, f) < 6 {
            case_pairs(tetrahedron_code(inside, p, t), edge_of(p, t, e), edge_of(p, t, f))
        } else {
            0
        },
{
    let code = tetrahedron_code(inside, p, t);
    lemma_case_range(code);
    lemma_mapped_pairs(p, t, case_edges(code), e, f);
}

/// Whether a point is a corner of tetrahedron `t` of the cell at `p`.
spec fn has_corner(p: Point, t: int, q: Point) -> bool {
    ||| tetrahedron_corner(p, t, 0) == q
    ||| tetrahedron_corner(p, t, 1) == q
    ||| tetrahedron_corner(p, t, 2) == q
    ||| tetrahedron_corner(p, t, 3) == q
}

/// Whether the surface crosses the edge between two points.
spec fn crosses(inside: Inside, u: Point, v: Point) -> bool {
    inside(u) != inside(v)
}

proof fn lemma_edge_of_corners(inside: Inside, p: Point, t: int, u: Point, v: Point, e: Crossing)
    requires
        0 <= t < 6,
        u != v,
        same_edge(e, (u, v)),
    ensures
        (edge_of(p, t, e) < 6) == (has_corner(p, t, u) && has_corner(p, t, v)),
        edge_of(p, t, e) < 6 ==> edge_crosses(
            tetrahedron_code(inside, p, t),
            edge_of(p, t, e),
        ) == crosses(inside, u, v),
{
    lemma_corners_distinct(p, t);
    let code = tetrahedron_code(inside, p, t);
    assert(corner_inside(code, 0) == inside(tetrahedron_corner(p, t, 0)));
    assert(corner_inside(code, 1) == inside(tetrahedron_corner(p, t, 1)));
    assert(corner_inside(code, 2) == inside(tetrahedron_corner(p, t, 2)));
    assert(corner_inside(code, 3) == inside(tetrahedron_corner(p, t, 3)));
}

/// Two grid edges from one point are joined once by every tetrahedron that has
/// all three points, when the surface crosses both, and by no other.
proof fn lemma_pairs_shared(
    inside: Inside,
    p: Point,
    t: int,
    u: Point,
    v: Point,
    w: Point,
    e: Crossing,
    f: Crossing,
)
    requires
        0 <= t < 6,
        u != v,
        u != w,
        v != w,
        same_edge(e, (u, v)),
        same_edge(f, (u, w)),
    ensures
        tetrahedron_pairs(inside, p, t, e, f) == one_if(
            has_corner(p, t, u) && has_corner(p, t, v) && has_corner(p, t, w) && crosses(
                inside,
                u,
                v,
            ) && crosses(inside, u, w),
        ),
{
    lemma_tetrahedron_pairs(inside, p, t, e, f);
    lemma_edge_of_corners(inside, p, t, u, v, e);
    lemma_edge_of_corners(inside, p, t, u, w, f);
    let (i, j) = (edge_of(p, t, e), edge_of(p, t, f));
    if i < 6 && j < 6 {
        lemma_corners_distinct(p, t);
        assert(i != j);
        assert(i + j != 5);
        lemma_case_pairs(tetrahedron_code(inside, p, t), i, j);
    }
}

/// Two grid edges with no point in common are joined by both triangles of a
/// tetrahedron that has all four points, or by none.
proof fn lemma_pairs_apart(inside: Inside, p: Point, t: int, e: Crossing, f: Crossing)
    requires
        0 <= t < 6,
        e.0 != e.1,
        f.0 != f.1,
        e.0 != f.0,
        e.0 != f.1,
        e.1 != f.0,
        e.1 != f.1,
    ensures
        tetrahedron_pairs(inside, p, t, e, f) == 0 || tetrahedron_pairs(inside, p, t, e, f) == 2,
        tetrahedron_pairs(inside, p, t, e, f) > 0 ==> has_corner(p, t, e.0) && has_corner(
            p,
            t,
            e.1,
        ) && has_corner(p, t, f.0) && has_corner(p, t, f.1),
{
    lemma_tetrahedron_pairs(inside, p, t, e, f);
    lemma_edge_of_corners(inside, p, t, e.0, e.1, e);
    lemma_edge_of_corners(inside, p, t, f.0, f.1, f);
    let (i, j) = (edge_of(p, t, e), edge_of(p, t, f));
    if i < 6 && j < 6 {
        lemma_corners_distinct(p, t);
        assert(i + j == 5);
        lemma_case_pairs(tetrahedron_code(inside, p, t), i, j);
    }
}

// -- Neighbours --------------------------------------------------------------

/// The tetrahedron across the face opposite corner `o` of tetrahedron `t`: in
/// the next cell along one axis, in the cell before, or in the same cell.
spec fn neighbour(p: Point, t: int, o: int) -> (Point, int) {
    if o == 0 {
        if t == 0 {
            ((p.0 + 1, p.1, p.2), 4)
        } else if t == 1 {
            ((p.0 + 1, p.1, p.2), 3)
        } else if t == 2 {
            ((p.0, p.1 + 1, p.2), 0)
        } else if t == 3 {
            ((p.0, p.1 + 1, p.2), 5)
        } else if t == 4 {
            ((p.0, p.1, p.2 + 1), 2)
        } else {
            ((p.0, p.1, p.2 + 1), 1)
        }
    } else if o == 3 {
        if t == 0 {
            ((p.0, p.1 - 1, p.2), 2)
        } else if t == 1 {
            ((p.0, p.1, p.2 - 1), 5)
        } else if t == 2 {
            ((p.0, p.1, p.2 - 1), 4)
        } else if t == 3 {
            ((p.0 - 1, p.1, p.2), 1)
        } else if t == 4 {
            ((p.0 - 1, p.1, p.2), 0)
        } else {
            ((p.0, p.1 - 1, p.2), 3)
        }
    } else if (o == 2) == (t % 2 == 0) {
        // The middle corner nearer to the start of the diagonal is left out.
        (p, if t == 0 { 5 } else if t == 5 { 0 } else if t % 2 == 1 { t + 1 } else { t - 1 })
    } else {
        (p, if t % 2 == 0 { t + 1 } else { t - 1 })
    }
}

/// Whether a tetrahedron has the face of another that is opposite corner `o`.
spec fn has_face(q: Point, s: int, p: Point, t: int, o: int) -> bool {
    &&& (o == 0 || has_corner(q, s, tetrahedron_corner(p, t, 0)))
    &&& (o == 1 || has_corner(q, s, tetrahedron_corner(p, t, 1)))
    &&& (o == 2 || has_corner(q, s, tetrahedron_corner(p, t, 2)))
    &&& (o == 3 || has_corner(q, s, tetrahedron_corner(p, t, 3)))
}

/// Exactly two tetrahedra have a given face: its own and the neighbour.
proof fn lemma_face_shared(q: Point, s: int, p: Point, t: int, o: int)
    requires
        0 <= s < 6,
        0 <= t < 6,
        0 <= o < 4,
    ensures
        has_face(q, s, p, t, o) == ((q, s) == (p, t) || (q, s) == neighbour(p, t, o)),
        neighbour(p, t, o) != (p, t),
        0 <= neighbour(p, t, o).1 < 6,
{
}

// -- The law -----------------------------------------------------------------

/// Whether all the points of two grid edges lie in one outer plane of a grid
/// of side `n`.
pub open spec fn on_outside(n: int, e: Crossing, f: Crossing) -> bool {
    ||| e.0.0 == 0 && e.1.0 == 0 && f.0.0 == 0 && f.1.0 == 0
    ||| e.0.1 == 0 && e.1.1 == 0 && f.0.1 == 0 && f.1.1 == 0
    ||| e.0.2 == 0 && e.1.2 == 0 && f.0.2 == 0 && f.1.2 == 0
    ||| e.0.0 == n - 1 && e.1.0 == n - 1 && f.0.0 == n - 1 && f.1.0 == n - 1
    ||| e.0.1 == n - 1 && e.1.1 == n - 1 && f.0.1 == n - 1 && f.1.1 == n - 1
    ||| e.0.2 == n - 1 && e.1.2 == n - 1 && f.0.2 == n - 1 && f.1.2 == n - 1
}

proof fn lemma_shared_total(
    n: int,
    inside: Inside,
    p: Point,
    t: int,
    u: Point,
    v: Point,
    w: Point,
    e: Crossing,
    f: Crossing,
)
    requires
        n >= 2,
        in_cells(n - 1, n - 1, p),
        0 <= t < 6,
        u != v,
        u != w,
        v != w,
        same_edge(e, (u, v)),
        same_edge(f, (u, w)),
        has_corner(p, t, u),
        has_corner(p, t, v),
        has_corner(p, t, w),
        crosses(inside, u, v),
        crosses(inside, u, w),
        !on_outside(n, e, f),
    ensures
        grid_sum(pair_weight(inside, e, f), n - 1, n - 1) == 2,
{
    let g = pair_weight(inside, e, f);
    lemma_corners_distinct(p, t);
    let o = if !(tetrahedron_corner(p, t, 0) == u || tetrahedron_corner(p, t, 0) == v
        || tetrahedron_corner(p, t, 0) == w) {
        0int
    } else if !(tetrahedron_corner(p, t, 1) == u || tetrahedron_corner(p, t, 1) == v
        || tetrahedron_corner(p, t, 1) == w) {
        1
    } else if !(tetrahedron_corner(p, t, 2) == u || tetrahedron_corner(p, t, 2) == v
        || tetrahedron_corner(p, t, 2) == w) {
        2
    } else {
        3
    };
    let (p2, t2) = neighbour(p, t, o);
    assert forall|q: Point, s: int| 0 <= s < 6 implies #[trigger] tetrahedron_pairs(
        inside,
        q,
        s,
        e,
        f,
    ) == one_if((q, s) == (p, t) || (q, s) == (p2, t2)) by {
        lemma_pairs_shared(inside, q, s, u, v, w, e, f);
        assert(has_face(q, s, p, t, o) == (has_corner(q, s, u) && has_corner(q, s, v)
            && has_corner(q, s, w)));
        lemma_face_shared(q, s, p, t, o);
    }
    lemma_face_shared(p, t, p, t, o);
    assert forall|q: Point| #[trigger] g(q) == one_if(q == p) + one_if(q == p2) by {
        assert(tetrahedron_pairs(inside, q, 0, e, f) == one_if(
            (q, 0int) == (p, t) || (q, 0int) == (p2, t2),
        ));
    }
    if p2 == p {
        lemma_grid_sum_point(g, n - 1, n - 1, p);
    } else {
        lemma_grid_sum_two(g, n - 1, p, p2);
        if !in_cells(n - 1, n - 1, p2) {
            assert(on_outside(n, e, f));
        }
    }
}

proof fn lemma_apart_total(n: int, inside: Inside, p: Point, t: int, e: Crossing, f: Crossing)
    requires
        in_cells(n - 1, n - 1, p),
        0 <= t < 6,
        e.0 != e.1,
        f.0 != f.1,
        e.0 != f.0,
        e.0 != f.1,
        e.1 != f.0,
        e.1 != f.1,
        tetrahedron_pairs(inside, p, t, e, f) > 0,
    ensures
        grid_sum(pair_weight(inside, e, f), n - 1, n - 1) == 2,
{
    let g = pair_weight(inside, e, f);
    lemma_pairs_apart(inside, p, t, e, f);
    assert forall|q: Point, s: int| 0 <= s < 6 implies #[trigger] tetrahedron_pairs(
        inside,
        q,
        s,
        e,
        f,
    ) == if (q, s) == (p, t) { 2nat } else { 0 } by {
        lemma_pairs_apart(inside, q, s, e, f);
        if tetrahedron_pairs(inside, q, s, e, f) > 0 {
            lemma_corners_distinct(p, t);
            assert(has_face(q, s, p, t, 0));
            assert(has_face(q, s, p, t, 3));
            lemma_face_shared(q, s, p, t, 0);
            lemma_face_shared(q, s, p, t, 3);
        }
    }
    assert forall|q: Point| #[trigger] g(q) == if q == p { 2nat } else { 0 } by {
        assert(tetrahedron_pairs(inside, q, 0, e, f) == if (q, 0int) == (p, t) {
            2nat
        } else {
            0
        });
    }
    lemma_grid_sum_point(g, n - 1, n - 1, p);
}

/// Two different grid edges that any triangle of the grid joins are joined by
/// exactly two, unless they lie in one outer plane.
proof fn lemma_pairs_total(n: int, inside: Inside, e: Crossing, f: Crossing)
    requires
        n >= 2,
        !same_edge(e, f),
        list_pairs(grid_crossings(n, inside, n - 1), e, f) > 0,
        !on_outside(n, e, f),
    ensures
        list_pairs(grid_crossings(n, inside, n - 1), e, f) == 2,
{
    let g = pair_weight(inside, e, f);
    lemma_grid_pairs(n, inside, n - 1, e, f);
    let p = lemma_grid_sum_positive(g, n - 1, n - 1);
    let t = if tetrahedron_pairs(inside, p, 0, e, f) > 0 {
        0int
    } else if tetrahedron_pairs(inside, p, 1, e, f) > 0 {
        1
    } else if tetrahedron_pairs(inside, p, 2, e, f) > 0 {
        2
    } else if tetrahedron_pairs(inside, p, 3, e, f) > 0 {
        3
    } else if tetrahedron_pairs(inside, p, 4, e, f) > 0 {
        4
    } else {
        5
    };
    assert(tetrahedron_pairs(inside, p, t, e, f) > 0);
    lemma_tetrahedron_pairs(inside, p, t, e, f);
    lemma_corners_distinct(p, t);
    assert(e.0 != e.1 && f.0 != f.1);
    if e.0 == f.0 {
        lemma_pairs_shared(inside, p, t, e.0, e.1, f.1, e, f);
        lemma_shared_total(n, inside, p, t, e.0, e.1, f.1, e, f);
    } else if e.0 == f.1 {
        lemma_pairs_shared(inside, p, t, e.0, e.1, f.0, e, f);
        lemma_shared_total(n, inside, p, t, e.0, e.1, f.0, e, f);
    } else if e.1 == f.0 {
        lemma_pairs_shared(inside, p, t, e.1, e.0, f.1, e, f);
        lemma_shared_total(n, inside, p, t, e.1, e.0, f.1, e, f);
    } else if e.1 == f.1 {
        lemma_pairs_shared(inside, p, t, e.1, e.0, f.0, e, f);
        lemma_shared_total(n, inside, p, t, e.1, e.0, f.0, e, f);
    } else {
        lemma_apart_total(n, inside, p, t, e, f);
    }
}

proof fn lemma_case_repeats(code: int, i: int)
    requires
        0 <= code < 16,
        0 <= i < 6,
    ensures
        case_pairs(code, i, i) == 0,
{
    lemma_case_corners(code);
}

/// No triangle meets one grid edge twice.
proof fn lemma_no_repeated_edge(n: int, inside: Inside, e: Crossing)
    ensures
        list_pairs(grid_crossings(n, inside, n - 1), e, e) == 0,
{
    lemma_grid_pairs(n, inside, n - 1, e, e);
    if list_pairs(grid_crossings(n, inside, n - 1), e, e) > 0 {
        let p = lemma_grid_sum_positive(pair_weight(inside, e, e), n - 1, n - 1);
        assert forall|t: int| 0 <= t < 6 implies #[trigger] tetrahedron_pairs(inside, p, t, e, e)
            == 0 by {
            lemma_tetrahedron_pairs(inside, p, t, e, e);
            if edge_of(p, t, e) < 6 {
                lemma_case_repeats(tetrahedron_code(inside, p, t), edge_of(p, t, e));
            }
        }
    }
}

/// The sides of one triangle are among those of its list.
proof fn lemma_triangle_counts(c: Seq<Crossing>, k: int, e: Crossing, f: Crossing)
    requires
        whole(c),
        0 <= k,
        3 * k + 3 <= c.len(),
    ensures
        list_pairs(c, e, f) >= triangle_pairs(c[3 * k], c[3 * k + 1], c[3 * k + 2], e, f),
    decreases c.len(),
{
    reveal(whole);
    reveal(list_pairs);
    let m = c.len() - 3;
    if 3 * k + 3 <= m {
        lemma_triangle_counts(c.take(m), k, e, f);
    }
}

/// A crossing's vertex lies on its grid edge, which no triangle meets twice.
proof fn lemma_corner(n: int, inside: Inside, k: int, i: int)
    requires
        0 <= k,
        0 <= i < 3,
        3 * k + 3 <= grid_crossings(n, inside, n - 1).len(),
    ensures
        ({
            let c = grid_crossings(n, inside, n - 1);
            let at = vertex_of(c, 3 * k + i) as int;
            let e = vertices(c)[at];
            at < vertices(c).len() && same_edge(e, c[3 * k + i]) && triangle_pairs(
                c[3 * k],
                c[3 * k + 1],
                c[3 * k + 2],
                e,
                e,
            ) == 0
        }),
{
    let c = grid_crossings(n, inside, n - 1);
    lemma_vertices(c);
    let e = vertices(c)[vertex_of(c, 3 * k + i) as int];
    assert(same_edge(e, c[3 * k + i]));
    lemma_grid_pairs(n, inside, n - 1, e, e);
    lemma_no_repeated_edge(n, inside, e);
    lemma_triangle_counts(c, k, e, e);
}

/// The three crossings of a triangle have three vertices.
proof fn lemma_three_vertices(n: int, inside: Inside, k: int)
    requires
        0 <= k,
        3 * k + 3 <= grid_crossings(n, inside, n - 1).len(),
    ensures
        ({
            let c = grid_crossings(n, inside, n - 1);
            let v = vertices(c).len();
            let (a, b, d) = (
                vertex_of(c, 3 * k),
                vertex_of(c, 3 * k + 1),
                vertex_of(c, 3 * k + 2),
            );
            a < v && b < v && d < v && a != b && b != d && a != d
        }),
{
    lemma_corner(n, inside, k, 0);
    lemma_corner(n, inside, k, 1);
    lemma_corner(n, inside, k, 2);
    let c = grid_crossings(n, inside, n - 1);
    assert(c[3 * k + 0] == c[3 * k]);
    assert(vertex_of(c, 3 * k + 0) == vertex_of(c, 3 * k));
}

/// Where 32 bits number every vertex, each triple of crossings is a face whose
/// corners are its three vertices.
proof fn lemma_numbered(n: int, inside: Inside, c: Seq<Crossing>, count: int)
    requires
        c == grid_crossings(n, inside, n - 1),
        vertices(c).len() <= 0x1_0000_0000,
        0 <= count,
        3 * count <= c.len(),
    ensures
        numbered(c, faces_of(c, count), count),
    decreases count,
{
    if count > 0 {
        lemma_numbered(n, inside, c, count - 1);
        let k = count - 1;
        lemma_three_vertices(n, inside, k);
        let face = face_of(c, k);
        assert(face[0] as nat == vertex_of(c, 3 * k));
        assert(face[1] as nat == vertex_of(c, 3 * k + 1));
        assert(face[2] as nat == vertex_of(c, 3 * k + 2));
        assert(is_face(face));
        let (earlier, all) = (faces_of(c, count - 1), faces_of(c, count));
        assert(all == earlier.push(face));
        assert forall|f: int, i: int| 0 <= f < all.len() && 0 <= i < 3 implies (
        #[trigger] all[f][i]) as nat == vertex_of(c, 3 * f + i) by {
            if f < k {
                assert(all[f] == earlier[f]);
                assert(earlier[f][i] as nat == vertex_of(c, 3 * f + i));
            } else {
                assert(i == 0 || i == 1 || i == 2);
                assert(3 * k + 0 == 3 * k);
            }
        }
    }
}

/// Whether a list of faces is the first `count` triples of crossings, each
/// corner the number of its vertex.
pub open spec fn numbered(c: Seq<Crossing>, faces: Seq<[u32; 3]>, count: int) -> bool {
    &&& faces.len() == count
    &&& forall|f: int, k: int|
        0 <= f < faces.len() && 0 <= k < 3 ==> (#[trigger] faces[f][k]) as nat == vertex_of(
            c,
            3 * f + k,
        )
}

/// A surface whose vertices 32 bits can number has one face for each triangle
/// of its tetrahedra, and each corner of a face names the vertex on its grid
/// edge.
pub proof fn law_corners_name_vertices<V, P, G: Fn(GridPoint, GridPoint, V, V) -> P>(
    place: G,
    n: int,
    slabs: Seq<Seq<Sample<V>>>,
    positions: Seq<P>,
    faces: Seq<[u32; 3]>,
)
    requires
        describes(place, n, slabs, positions, faces),
        positions.len() <= 0x1_0000_0000,
    ensures
        3 * faces.len() == grid_crossings(n, sampled_inside(n, slabs), n - 1).len(),
        numbered(
            grid_crossings(n, sampled_inside(n, slabs), n - 1),
            faces,
            faces.len() as int,
        ),
{
    let inside = sampled_inside(n, slabs);
    let c = grid_crossings(n, inside, n - 1);
    lemma_grid_pairs(n, inside, n - 1, ((0, 0, 0), (0, 0, 0)), ((0, 0, 0), (0, 0, 0)));
    reveal(whole);
    lemma_numbered(n, inside, c, c.len() as int / 3);
}

/// Thirty-two bits number every vertex of a grid with at most a seventh as
/// many points.
pub proof fn law_grid_is_numbered(n: int, inside: Inside)
    requires
        n > 0,
        7 * (n * n * n) <= u32::MAX,
    ensures
        vertices(grid_crossings(n, inside, n - 1)).len() <= u32::MAX,
{
    let c = grid_crossings(n, inside, n - 1);
    law_vertices_cross(n, inside, n - 1);
    lemma_vertices(c);
    lemma_edge_count(n, vertices(c));
}

/// A surface has no hole: two different vertices that any side of any face
/// joins are joined by exactly two sides in all, unless both vertices' grid
/// edges lie in one outer plane of the grid, where the surface may end.
pub proof fn law_watertight<V, P, G: Fn(GridPoint, GridPoint, V, V) -> P>(
    place: G,
    n: int,
    slabs: Seq<Seq<Sample<V>>>,
    positions: Seq<P>,
    faces: Seq<[u32; 3]>,
    a: nat,
    b: nat,
)
    requires
        n >= 2,
        describes(place, n, slabs, positions, faces),
        positions.len() <= 0x1_0000_0000,
        a != b,
        sides(faces, a, b) > 0,
        !on_outside(
            n,
            vertices(grid_crossings(n, sampled_inside(n, slabs), n - 1))[a as int],
            vertices(grid_crossings(n, sampled_inside(n, slabs), n - 1))[b as int],
        ),
    ensures
        sides(faces, a, b) == 2,
{
    let c = grid_crossings(n, sampled_inside(n, slabs), n - 1);
    lemma_vertices(c);
    law_corners_name_vertices(place, n, slabs, positions, faces);
    lemma_sides_in_range(c, faces, a, b);
    lemma_sides_are_pairs(c, faces, faces.len() as int, a, b);
    assert(faces.take(faces.len() as int) =~= faces);
    assert(c.take(3 * faces.len() as int) =~= c);
    let v = vertices(c);
    assert(!same_edge(v[a as int], v[b as int])) by {
        if a < b {
            assert(!same_edge(v[a as int], v[b as int]));
        } else {
            assert(!same_edge(v[b as int], v[a as int]));
        }
    }
    lemma_pairs_total(n, sampled_inside(n, slabs), v[a as int], v[b as int]);
}

proof fn lemma_sides_in_range(c: Seq<Crossing>, faces: Seq<[u32; 3]>, a: nat, b: nat)
    requires
        c.len() >= 3 * faces.len(),
        forall|f: int, k: int|
            0 <= f < faces.len() && 0 <= k < 3 ==> (#[trigger] faces[f][k]) as nat == vertex_of(
                c,
                3 * f + k,
            ),
        sides(faces, a, b) > 0,
    ensures
        a < vertices(c).len(),
        b < vertices(c).len(),
    decreases faces.len(),
{
    lemma_vertices(c);
    let last = faces.len() - 1;
    if face_sides(faces.last(), a, b) > 0 {
        assert(faces[last][0] as nat == vertex_of(c, 3 * last + 0));
        assert(faces[last][1] as nat == vertex_of(c, 3 * last + 1));
        assert(faces[last][2] as nat == vertex_of(c, 3 * last + 2));
        assert(c[3 * last] == c[3 * last + 0]);
        assert(same_edge(vertices(c)[vertex_of(c, 3 * last) as int], c[3 * last]));
        assert(same_edge(vertices(c)[vertex_of(c, 3 * last + 1) as int], c[3 * last + 1]));
        assert(same_edge(vertices(c)[vertex_of(c, 3 * last + 2) as int], c[3 * last + 2]));
    } else {
        lemma_sides_in_range(c, faces.drop_last(), a, b);
    }
}

/// Whether a point of a grid of side `n` lies in one of its outer planes.
pub open spec fn is_outer(n: int, p: Point) -> bool {
    p.0 == 0 || p.1 == 0 || p.2 == 0 || p.0 == n - 1 || p.1 == n - 1 || p.2 == n - 1
}

/// Whether every member of a list is an edge of a grid of side `n` that the
/// surface crosses.
pub open spec fn all_cross(n: int, inside: Inside, list: Seq<Crossing>) -> bool {
    forall|i: int|
        0 <= i < list.len() ==> grid_edge(n, #[trigger] list[i]) && inside(list[i].0) != inside(
            list[i].1,
        )
}

proof fn lemma_case_crosses(code: int, k: int)
    requires
        0 <= code < 16,
        0 <= k < case_edges(code).len(),
    ensures
        edge_crosses(code, case_edges(code)[k]),
{
    lemma_case_corners(code);
}

proof fn lemma_cell_crosses(n: int, inside: Inside, p: Point, t: int)
    requires
        t <= 6,
        in_grid(n, p),
        in_grid(n, corner(p, 6)),
    ensures
        all_cross(n, inside, cell_crossings(inside, p, t)),
    decreases t,
{
    if t > 0 {
        lemma_cell_crosses(n, inside, p, t - 1);
        let code = tetrahedron_code(inside, p, t - 1);
        let c = tetrahedron_crossings(inside, p, t - 1);
        assert forall|i: int| 0 <= i < c.len() implies grid_edge(n, #[trigger] c[i]) && inside(
            c[i].0,
        ) != inside(c[i].1) by {
            lemma_case_crosses(code, i);
            lemma_case_range(code);
            let e = tetrahedron_edge(p, t - 1, case_edges(code)[i]);
            lemma_corners_distinct(p, t - 1);
            lemma_tetrahedron_edge(n, p, t - 1, case_edges(code)[i]);
            lemma_edge_of(p, t - 1, e, case_edges(code)[i]);
            lemma_edge_of_corners(inside, p, t - 1, e.0, e.1, e);
        }
    }
}

proof fn lemma_row_crosses(n: int, inside: Inside, z: int, y: int, x: int)
    requires
        x <= n - 1,
        0 <= y < n - 1,
        0 <= z < n - 1,
    ensures
        all_cross(n, inside, row_crossings(inside, z, y, x)),
    decreases x,
{
    if x > 0 {
        lemma_row_crosses(n, inside, z, y, x - 1);
        lemma_cell_crosses(n, inside, (x - 1, y, z), 6);
    }
}

proof fn lemma_layer_crosses(n: int, inside: Inside, z: int, y: int)
    requires
        y <= n - 1,
        0 <= z < n - 1,
    ensures
        all_cross(n, inside, layer_crossings(n, inside, z, y)),
    decreases y,
{
    if y > 0 {
        lemma_layer_crosses(n, inside, z, y - 1);
        lemma_row_crosses(n, inside, z, y - 1, n - 1);
    }
}

/// Every vertex of a surface lies on a grid edge with one end inside and one
/// end outside.
pub proof fn law_vertices_cross(n: int, inside: Inside, z: int)
    requires
        z <= n - 1,
    ensures
        all_cross(n, inside, grid_crossings(n, inside, z)),
        all_cross(n, inside, vertices(grid_crossings(n, inside, z))),
    decreases z,
{
    if z > 0 {
        law_vertices_cross(n, inside, z - 1);
        lemma_layer_crosses(n, inside, z - 1, n - 1);
    }
    let c = grid_crossings(n, inside, z);
    lemma_vertices(c);
    let v = vertices(c);
    assert forall|j: int| 0 <= j < v.len() implies grid_edge(n, #[trigger] v[j]) && inside(v[j].0)
        != inside(v[j].1) by {
        assert(c.contains(v[j]));
    }
}

/// A surface that stays away from the outer planes of its grid, because all of
/// their points lie on one side of it, is closed: every edge of it is shared by
/// exactly two faces.
pub proof fn law_closed<V, P, G: Fn(GridPoint, GridPoint, V, V) -> P>(
    place: G,
    n: int,
    slabs: Seq<Seq<Sample<V>>>,
    positions: Seq<P>,
    faces: Seq<[u32; 3]>,
    side: bool,
    a: nat,
    b: nat,
)
    requires
        n >= 2,
        describes(place, n, slabs, positions, faces),
        positions.len() <= 0x1_0000_0000,
        forall|p: Point|
            in_grid(n, p) && is_outer(n, p) ==> (#[trigger] sampled(n, slabs, p)).inside == side,
        a != b,
        sides(faces, a, b) > 0,
    ensures
        sides(faces, a, b) == 2,
{
    let inside = sampled_inside(n, slabs);
    let c = grid_crossings(n, inside, n - 1);
    let v = vertices(c);
    law_vertices_cross(n, inside, n - 1);
    law_corners_name_vertices(place, n, slabs, positions, faces);
    lemma_sides_in_range(c, faces, a, b);
    let (e, f) = (v[a as int], v[b as int]);
    assert(grid_edge(n, e) && inside(e.0) != inside(e.1));
    assert(inside(e.0) == sampled(n, slabs, e.0).inside);
    assert(inside(e.1) == sampled(n, slabs, e.1).inside);
    if on_outside(n, e, f) {
        assert(is_outer(n, e.0) && is_outer(n, e.1));
    }
    law_watertight(place, n, slabs, positions, faces, a, b);
}

/// Every face of a surface has three different corners, each of them a vertex.
pub proof fn law_faces_have_three_vertices<V, P, G: Fn(GridPoint, GridPoint, V, V) -> P>(
    place: G,
    n: int,
    slabs: Seq<Seq<Sample<V>>>,
    positions: Seq<P>,
    faces: Seq<[u32; 3]>,
)
    requires
        describes(place, n, slabs, positions, faces),
    ensures
        forall|f: int| 0 <= f < faces.len() ==> is_face(#[trigger] faces[f]),
        forall|f: int| #![trigger faces[f]]
            0 <= f < faces.len() ==> faces[f][0] < positions.len() && faces[f][1] < positions.len()
                && faces[f][2] < positions.len(),
{
    let c = grid_crossings(n, sampled_inside(n, slabs), n - 1);
    let count = c.len() as int / 3;
    lemma_faces_name_vertices(c, count);
    assert forall|f: int| #![trigger faces[f]] 0 <= f < faces.len() implies faces[f][0]
        < positions.len() && faces[f][1] < positions.len() && faces[f][2] < positions.len() by {
        assert(faces_of(c, count)[f][0] < vertices(c).len());
        assert(faces_of(c, count)[f][1] < vertices(c).len());
        assert(faces_of(c, count)[f][2] < vertices(c).len());
    }
}

/// The mesh of a field has no hole. Two different vertices that any side of
/// any face joins are joined by exactly two sides in all, unless both vertices'
/// grid edges lie in one outer plane of the grid; and always when all points of
/// the outer planes lie on one side of the surface. Every face has three
/// different vertices, and every vertex has its normal.
pub proof fn law_mesh_is_watertight<
    T,
    V,
    G: Fn(GridPoint, GridPoint, V, V) -> [T; 3],
    C: Fn([[T; 3]; 3]) -> [T; 3],
    S: Fn([T; 3], [T; 3]) -> [T; 3],
    U: Fn([T; 3]) -> [T; 3],
>(
    place: G,
    n: int,
    slabs: Seq<Seq<Sample<V>>>,
    zero: [T; 3],
    cross: C,
    sum: S,
    unit: U,
    mesh: Mesh<T>,
    side: bool,
    a: nat,
    b: nat,
)
    requires
        n >= 2,
        is_mesh_of(place, n, slabs, zero, cross, sum, unit, mesh),
        mesh.positions@.len() <= 0x1_0000_0000,
        a != b,
        sides(mesh.indices@, a, b) > 0,
    ensures
        sides(mesh.indices@, a, b) == 2 || on_outside(
            n,
            vertices(grid_crossings(n, sampled_inside(n, slabs), n - 1))[a as int],
            vertices(grid_crossings(n, sampled_inside(n, slabs), n - 1))[b as int],
        ),
        (forall|p: Point|
            in_grid(n, p) && is_outer(n, p) ==> (#[trigger] sampled(n, slabs, p)).inside == side)
            ==> sides(mesh.indices@, a, b) == 2,
        names_vertices(mesh),
        forall|f: int| 0 <= f < mesh.indices@.len() ==> is_face(#[trigger] mesh.indices@[f]),
        mesh.normals@.len() == mesh.positions@.len(),
{
    law_faces_have_three_vertices(place, n, slabs, mesh.positions@, mesh.indices@);
    let v = vertices(grid_crossings(n, sampled_inside(n, slabs), n - 1));
    if !on_outside(n, v[a as int], v[b as int]) {
        law_watertight(place, n, slabs, mesh.positions@, mesh.indices@, a, b);
    }
    if forall|p: Point|
        in_grid(n, p) && is_outer(n, p) ==> (#[trigger] sampled(n, slabs, p)).inside == side {
        law_closed(place, n, slabs, mesh.positions@, mesh.indices@, side, a, b);
    }
}

} // verus!
