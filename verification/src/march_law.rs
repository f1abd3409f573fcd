//! Which way the triangles of a tetrahedron face.
use crate::march::{
    case_edges, edge_ends, tetrahedron_code, tetrahedron_corner, Inside, Point,
};
use vstd::prelude::*;

verus! {

/// The difference of two points.
pub open spec fn minus(a: Point, b: Point) -> Point {
    (a.0 - b.0, a.1 - b.1, a.2 - b.2)
}

/// A product, spelled out where the first factor is small.
pub open spec fn times(a: int, b: int) -> int {
    if a == 0 {
        0
    } else if a == 1 {
        b
    } else if a == -1 {
        -b
    } else if a == 2 {
        b + b
    } else {
        a * b
    }
}

/// How far a point lies on the side that a triangle faces, times the triangle:
/// positive on that side, negative on the other.
pub open spec fn ahead(a: Point, b: Point, c: Point, of: Point) -> int {
    let (u, v, w) = (minus(b, a), minus(c, a), minus(of, a));
    times(w.0, times(u.1, v.2) - times(u.2, v.1)) + times(
        w.1,
        times(u.2, v.0) - times(u.0, v.2),
    ) + times(w.2, times(u.0, v.1) - times(u.1, v.0))
}

/// A corner of the tetrahedron with one corner at the origin and one along
/// each axis, at twice its size.
pub open spec fn simple_corner(k: int) -> Point {
    (
        if k == 1 { 2int } else { 0 },
        if k == 2 { 2int } else { 0 },
        if k == 3 { 2int } else { 0 },
    )
}

/// The middle of an edge of that tetrahedron.
pub open spec fn middle(e: int) -> Point {
    let (a, b) = (simple_corner(edge_ends(e).0), simple_corner(edge_ends(e).1));
    ((a.0 + b.0) / 2, (a.1 + b.1) / 2, (a.2 + b.2) / 2)
}

/// Whether corner `k` is inside in a case.
pub open spec fn is_inside(code: int, k: int) -> bool {
    if k == 0 {
        code % 2 == 1
    } else if k == 1 {
        code / 2 % 2 == 1
    } else if k == 2 {
        code / 4 % 2 == 1
    } else {
        code / 8 % 2 == 1
    }
}

/// Whether the triangles of a case face the corners outside: where the first
/// corner alone, or the third alone, or the first two are on a side of their
/// own. In the other cases they face those inside.
pub open spec fn faces_outside(code: int) -> bool {
    code == 1 || code == 14 || code == 4 || code == 11 || code == 3 || code == 12
}

/// How far a corner lies on the side that the triangle through the middles of
/// three edges faces.
#[verifier::opaque]
pub open spec fn side(a: int, b: int, c: int, k: int) -> int {
    ahead(middle(a), middle(b), middle(c), simple_corner(k))
}

proof fn lemma_case_1()
    ensures
        side(0, 1, 2, 0) == -1,
        side(0, 1, 2, 1) == 1,
        side(0, 1, 2, 2) == 1,
        side(0, 1, 2, 3) == 1,
{
    reveal(side);
}

proof fn lemma_case_2()
    ensures
        side(0, 3, 4, 0) == -1,
        side(0, 3, 4, 1) == 1,
        side(0, 3, 4, 2) == -1,
        side(0, 3, 4, 3) == -1,
{
    reveal(side);
}

proof fn lemma_case_3()
    ensures
        side(1, 2, 4, 0) == -1,
        side(1, 2, 4, 1) == -1,
        side(1, 2, 4, 2) == 1,
        side(1, 2, 4, 3) == 1,
        side(1, 4, 3, 0) == -1,
        side(1, 4, 3, 1) == -1,
        side(1, 4, 3, 2) == 1,
        side(1, 4, 3, 3) == 1,
{
    reveal(side);
}

proof fn lemma_case_4()
    ensures
        side(1, 3, 5, 0) == 1,
        side(1, 3, 5, 1) == 1,
        side(1, 3, 5, 2) == -1,
        side(1, 3, 5, 3) == 1,
{
    reveal(side);
}

proof fn lemma_case_5()
    ensures
        side(0, 2, 5, 0) == 1,
        side(0, 2, 5, 1) == -1,
        side(0, 2, 5, 2) == 1,
        side(0, 2, 5, 3) == -1,
        side(0, 5, 3, 0) == 1,
        side(0, 5, 3, 1) == -1,
        side(0, 5, 3, 2) == 1,
        side(0, 5, 3, 3) == -1,
{
    reveal(side);
}

proof fn lemma_case_6()
    ensures
        side(0, 1, 5, 0) == -1,
        side(0, 1, 5, 1) == 1,
        side(0, 1, 5, 2) == 1,
        side(0, 1, 5, 3) == -1,
        side(0, 5, 4, 0) == -1,
        side(0, 5, 4, 1) == 1,
        side(0, 5, 4, 2) == 1,
        side(0, 5, 4, 3) == -1,
{
    reveal(side);
}

proof fn lemma_case_7()
    ensures
        side(2, 5, 4, 0) == 1,
        side(2, 5, 4, 1) == 1,
        side(2, 5, 4, 2) == 1,
        side(2, 5, 4, 3) == -1,
{
    reveal(side);
}

proof fn lemma_case_8()
    ensures
        side(2, 4, 5, 0) == -1,
        side(2, 4, 5, 1) == -1,
        side(2, 4, 5, 2) == -1,
        side(2, 4, 5, 3) == 1,
{
    reveal(side);
}

proof fn lemma_case_9()
    ensures
        side(0, 4, 5, 0) == 1,
        side(0, 4, 5, 1) == -1,
        side(0, 4, 5, 2) == -1,
        side(0, 4, 5, 3) == 1,
        side(0, 5, 1, 0) == 1,
        side(0, 5, 1, 1) == -1,
        side(0, 5, 1, 2) == -1,
        side(0, 5, 1, 3) == 1,
{
    reveal(side);
}

proof fn lemma_case_10()
    ensures
        side(0, 5, 2, 0) == -1,
        side(0, 5, 2, 1) == 1,
        side(0, 5, 2, 2) == -1,
        side(0, 5, 2, 3) == 1,
        side(0, 3, 5, 0) == -1,
        side(0, 3, 5, 1) == 1,
        side(0, 3, 5, 2) == -1,
        side(0, 3, 5, 3) == 1,
{
    reveal(side);
}

proof fn lemma_case_11()
    ensures
        side(1, 5, 3, 0) == -1,
        side(1, 5, 3, 1) == -1,
        side(1, 5, 3, 2) == 1,
        side(1, 5, 3, 3) == -1,
{
    reveal(side);
}

proof fn lemma_case_12()
    ensures
        side(1, 4, 2, 0) == 1,
        side(1, 4, 2, 1) == 1,
        side(1, 4, 2, 2) == -1,
        side(1, 4, 2, 3) == -1,
        side(1, 3, 4, 0) == 1,
        side(1, 3, 4, 1) == 1,
        side(1, 3, 4, 2) == -1,
        side(1, 3, 4, 3) == -1,
{
    reveal(side);
}

proof fn lemma_case_13()
    ensures
        side(0, 4, 3, 0) == 1,
        side(0, 4, 3, 1) == -1,
        side(0, 4, 3, 2) == 1,
        side(0, 4, 3, 3) == 1,
{
    reveal(side);
}

proof fn lemma_case_14()
    ensures
        side(0, 2, 1, 0) == 1,
        side(0, 2, 1, 1) == -1,
        side(0, 2, 1, 2) == -1,
        side(0, 2, 1, 3) == -1,
{
    reveal(side);
}

/// Every triangle of a case has all corners inside on one of its sides and all
/// corners outside on the other, and which is which is the same for both
/// triangles of a case, and for a case and the one with inside and outside
/// changed about.
pub proof fn law_triangles_part_the_corners(code: int, t: int, k: int)
    requires
        0 <= code < 16,
        0 <= t,
        3 * t + 3 <= case_edges(code).len(),
        0 <= k < 4,
    ensures
        ({
            let edges = case_edges(code);
            let found = side(edges[3 * t], edges[3 * t + 1], edges[3 * t + 2], k);
            &&& found > 0 <==> (is_inside(code, k) != faces_outside(code))
            &&& found < 0 <==> (is_inside(code, k) == faces_outside(code))
            &&& faces_outside(code) == faces_outside(15 - code)
        }),
{
    assert(t == 0 || t == 1);
    assert(k == 0 || k == 1 || k == 2 || k == 3);
    if code == 1 {
        lemma_case_1();
    } else if code == 2 {
        lemma_case_2();
    } else if code == 3 {
        lemma_case_3();
    } else if code == 4 {
        lemma_case_4();
    } else if code == 5 {
        lemma_case_5();
    } else if code == 6 {
        lemma_case_6();
    } else if code == 7 {
        lemma_case_7();
    } else if code == 8 {
        lemma_case_8();
    } else if code == 9 {
        lemma_case_9();
    } else if code == 10 {
        lemma_case_10();
    } else if code == 11 {
        lemma_case_11();
    } else if code == 12 {
        lemma_case_12();
    } else if code == 13 {
        lemma_case_13();
    } else if code == 14 {
        lemma_case_14();
    }
}

/// The six tetrahedra of a cell are all turned the same way as that simple one,
/// so that their triangles face as its do.
pub proof fn law_tetrahedra_are_turned_alike(p: Point, t: int)
    requires
        0 <= t < 6,
    ensures
        ahead(
            tetrahedron_corner(p, t, 0),
            tetrahedron_corner(p, t, 1),
            tetrahedron_corner(p, t, 2),
            tetrahedron_corner(p, t, 3),
        ) == 1,
        ahead(simple_corner(0), simple_corner(1), simple_corner(2), simple_corner(3)) > 0,
{
    let (a, b, c, e) = (
        tetrahedron_corner(p, t, 0),
        tetrahedron_corner(p, t, 1),
        tetrahedron_corner(p, t, 2),
        tetrahedron_corner(p, t, 3),
    );
    let (u, v, w) = (minus(b, a), minus(c, a), minus(e, a));
    assert(w == (1int, 1int, 1int));
    if t == 0 {
        assert(u == (1int, 0int, 1int) && v == (1int, 0int, 0int));
    } else if t == 1 {
        assert(u == (1int, 0int, 0int) && v == (1int, 1int, 0int));
    } else if t == 2 {
        assert(u == (1int, 1int, 0int) && v == (0int, 1int, 0int));
    } else if t == 3 {
        assert(u == (0int, 1int, 0int) && v == (0int, 1int, 1int));
    } else if t == 4 {
        assert(u == (0int, 1int, 1int) && v == (0int, 0int, 1int));
    } else {
        assert(u == (0int, 0int, 1int) && v == (1int, 0int, 1int));
    }
}

/// The case of a tetrahedron says which of its corners are inside.
pub proof fn law_case_says_what_is_inside(inside: Inside, p: Point, t: int, k: int)
    requires
        0 <= k < 4,
    ensures
        0 <= tetrahedron_code(inside, p, t) < 16,
        is_inside(tetrahedron_code(inside, p, t), k) == inside(tetrahedron_corner(p, t, k)),
{
}

} // verus!
