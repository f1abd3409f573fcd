//! What the vertices of a mesh get from the faces around them: normals, and
//! the quadrics that say what moving a vertex costs.
//!
//! What a face or an open edge contributes, and how two contributions add up,
//! is the caller's. Which vertex gets what, and in which order, is decided
//! here.
use crate::edges::is_boundary;
use crate::mesh::{corners_of, Mesh};
use vstd::prelude::*;

verus! {

/// Whether every face names vertices there are.
pub open spec fn names_vertices<T>(mesh: Mesh<T>) -> bool {
    forall|f: int|
        0 <= f < mesh.indices@.len() ==> (#[trigger] mesh.indices@[f])[0] < mesh.positions@.len()
            && mesh.indices@[f][1] < mesh.positions@.len() && mesh.indices@[f][2]
            < mesh.positions@.len()
}

/// Whether one value was added to that of one vertex.
pub open spec fn is_given<Q, S: Fn(Q, Q) -> Q>(
    before: Seq<Q>,
    after: Seq<Q>,
    vertex: int,
    value: Q,
    sum: S,
) -> bool {
    &&& after.len() == before.len()
    &&& call_ensures(sum, (before[vertex], value), after[vertex])
    &&& forall|v: int|
        0 <= v < before.len() && v != vertex ==> #[trigger] after[v] == before[v]
}

/// Whether the first `k` of a list of gifts were added, one after another:
/// each is a vertex and the number of the value it gets.
pub open spec fn are_given<Q, S: Fn(Q, Q) -> Q>(
    before: Seq<Q>,
    after: Seq<Q>,
    gifts: Seq<(int, int)>,
    values: Seq<Q>,
    sum: S,
    k: int,
) -> bool
    decreases k,
{
    if k <= 0 {
        after == before
    } else {
        exists|middle: Seq<Q>|
            are_given(before, middle, gifts, values, sum, k - 1) && #[trigger] is_given(
                middle,
                after,
                gifts[k - 1].0,
                values[gifts[k - 1].1],
                sum,
            )
    }
}

/// What the faces give: every corner of a face gets the face's value.
pub open spec fn face_gifts(faces: Seq<[u32; 3]>) -> Seq<(int, int)> {
    Seq::new(3 * faces.len(), |s: int| (faces[s / 3][s % 3] as int, s / 3))
}

/// The open sides of the faces, in order.
pub open spec fn open_sides(faces: Seq<[u32; 3]>) -> Seq<int> {
    Seq::new(3 * faces.len(), |s: int| s).filter(|s: int| is_boundary(faces, s))
}

/// What the open sides give: both ends of a side get the side's value.
pub open spec fn side_gifts(faces: Seq<[u32; 3]>) -> Seq<(int, int)> {
    let open = open_sides(faces);
    Seq::new(
        2 * open.len(),
        |g: int|
            {
                let s = open[g / 2];
                (faces[s / 3][(s % 3 + g % 2) % 3] as int, g / 2)
            },
    )
}

fn give<Q: Copy, S: Fn(Q, Q) -> Q>(held: &mut Vec<Q>, vertex: usize, value: Q, sum: &S)
    requires
        vertex < old(held)@.len(),
        forall|a: Q, b: Q| #[trigger] call_requires(*sum, (a, b)),
    ensures
        is_given(old(held)@, final(held)@, vertex as int, value, *sum),
{
    let total = sum(held[vertex], value);
    held.set(vertex, total);
}

/// Whether these are the values of the faces.
pub open spec fn are_face_values<T, Q, P: Fn([[T; 3]; 3]) -> Q>(
    mesh: Mesh<T>,
    plane: P,
    values: Seq<Q>,
) -> bool {
    &&& values.len() == mesh.indices@.len()
    &&& forall|f: int|
        0 <= f < values.len() ==> call_ensures(plane, (corners_of(mesh, f),), #[trigger] values[f])
}

/// Whether these are the values of the open sides: each from its face's
/// corners and its two ends.
pub open spec fn are_side_values<T, Q, W: Fn([[T; 3]; 3], [T; 3], [T; 3]) -> Q>(
    mesh: Mesh<T>,
    wall: W,
    values: Seq<Q>,
) -> bool {
    let open = open_sides(mesh.indices@);
    &&& values.len() == open.len()
    &&& forall|i: int|
        0 <= i < values.len() ==> {
            let (f, c) = (open[i] / 3, open[i] % 3);
            call_ensures(
                wall,
                (corners_of(mesh, f), corners_of(mesh, f)[c], corners_of(mesh, f)[(c + 1) % 3]),
                #[trigger] values[i],
            )
        }
}

/// Whether a list is what the faces give each vertex, starting from `zero`.
pub open spec fn is_face_sum<T, Q, P: Fn([[T; 3]; 3]) -> Q, S: Fn(Q, Q) -> Q>(
    mesh: Mesh<T>,
    zero: Q,
    plane: P,
    sum: S,
    held: Seq<Q>,
) -> bool {
    exists|values: Seq<Q>| #[trigger]
        are_face_values(mesh, plane, values) && are_given(
            Seq::new(mesh.positions@.len(), |v: int| zero),
            held,
            face_gifts(mesh.indices@),
            values,
            sum,
            3 * mesh.indices@.len() as int,
        )
}

/// Whether a list is what the open sides give each vertex on top of another.
pub open spec fn is_side_sum<T, Q, W: Fn([[T; 3]; 3], [T; 3], [T; 3]) -> Q, S: Fn(Q, Q) -> Q>(
    mesh: Mesh<T>,
    before: Seq<Q>,
    wall: W,
    sum: S,
    after: Seq<Q>,
) -> bool {
    exists|values: Seq<Q>| #[trigger]
        are_side_values(mesh, wall, values) && are_given(
            before,
            after,
            side_gifts(mesh.indices@),
            values,
            sum,
            2 * open_sides(mesh.indices@).len() as int,
        )
}

/// Whether each normal is what the faces around its vertex add up to, brought
/// to length one.
pub open spec fn are_normals<
    T,
    P: Fn([[T; 3]; 3]) -> [T; 3],
    S: Fn([T; 3], [T; 3]) -> [T; 3],
    U: Fn([T; 3]) -> [T; 3],
>(mesh: Mesh<T>, zero: [T; 3], cross: P, sum: S, unit: U, normals: Seq<[T; 3]>) -> bool {
    exists|sums: Seq<[T; 3]>| #[trigger]
        is_face_sum(mesh, zero, cross, sum, sums) && normals.len() == sums.len() && forall|v: int|
            0 <= v < sums.len() ==> call_ensures(unit, (sums[v],), #[trigger] normals[v])
}

/// Whether a mesh has the normals that its faces give its vertices.
pub open spec fn has_normals<
    T,
    P: Fn([[T; 3]; 3]) -> [T; 3],
    S: Fn([T; 3], [T; 3]) -> [T; 3],
    U: Fn([T; 3]) -> [T; 3],
>(mesh: Mesh<T>, zero: [T; 3], cross: P, sum: S, unit: U) -> bool {
    &&& mesh.normals@.len() == mesh.positions@.len()
    &&& are_normals(mesh, zero, cross, sum, unit, mesh.normals@)
}

/// What the faces give the vertices depends on positions and faces only.
proof fn lemma_same_faces<T, Q, P: Fn([[T; 3]; 3]) -> Q, S: Fn(Q, Q) -> Q>(
    a: Mesh<T>,
    b: Mesh<T>,
    zero: Q,
    plane: P,
    sum: S,
    held: Seq<Q>,
)
    requires
        a.positions == b.positions,
        a.indices == b.indices,
        is_face_sum(a, zero, plane, sum, held),
    ensures
        is_face_sum(b, zero, plane, sum, held),
{
    let values = choose|values: Seq<Q>| #[trigger]
        are_face_values(a, plane, values) && are_given(
            Seq::new(a.positions@.len(), |v: int| zero),
            held,
            face_gifts(a.indices@),
            values,
            sum,
            3 * a.indices@.len() as int,
        );
    assert forall|f: int| 0 <= f < values.len() implies call_ensures(
        plane,
        (corners_of(b, f),),
        #[trigger] values[f],
    ) by {
        assert(corners_of(a, f) == corners_of(b, f));
    }
    assert(are_face_values(b, plane, values));
}

impl<T: Copy> Mesh<T> {
    /// What the faces give each vertex: `plane` says what a face is worth from
    /// its corners, and every corner gets that, face after face.
    pub fn face_sums<Q: Copy, P: Fn([[T; 3]; 3]) -> Q, S: Fn(Q, Q) -> Q>(
        &self,
        zero: Q,
        plane: &P,
        sum: &S,
    ) -> (held: Vec<Q>)
        requires
            names_vertices(*self),
            forall|c: [[T; 3]; 3]| #[trigger] call_requires(*plane, (c,)),
            forall|a: Q, b: Q| #[trigger] call_requires(*sum, (a, b)),
        ensures
            held@.len() == self.positions@.len(),
            is_face_sum(*self, zero, *plane, *sum, held@),
    {
        let mut held: Vec<Q> = Vec::new();
        let mut v: usize = 0;
        while v < self.positions.len()
            invariant
                v <= self.positions@.len(),
                held@ == Seq::new(v as nat, |v: int| zero),
            decreases self.positions.len() - v,
        {
            held.push(zero);
            v = v + 1;
            assert(held@ =~= Seq::new(v as nat, |v: int| zero));
        }
        let ghost start = held@;
        let ghost gifts = face_gifts(self.indices@);
        let ghost mut values: Seq<Q> = Seq::empty();
        let mut f: usize = 0;
        while f < self.indices.len()
            invariant
                f <= self.indices@.len(),
                names_vertices(*self),
                    forall|c: [[T; 3]; 3]| #[trigger] call_requires(*plane, (c,)),
                forall|a: Q, b: Q| #[trigger] call_requires(*sum, (a, b)),
                gifts == face_gifts(self.indices@),
                held@.len() == self.positions@.len(),
                values.len() == f,
                forall|i: int|
                    0 <= i < f ==> call_ensures(
                        *plane,
                        (corners_of(*self, i),),
                        #[trigger] values[i],
                    ),
                are_given(start, held@, gifts, values, *sum, 3 * f),
            decreases self.indices.len() - f,
        {
            let face = self.indices[f];
            assert(self.indices@[f as int] == face);
            let value = plane(self.triangle(f));
            let ghost before = values;
            proof {
                values = before.push(value);
                lemma_given_agrees(start, held@, gifts, before, values, *sum, 3 * f);
            }
            let mut c: usize = 0;
            while c < 3
                invariant
                    c <= 3,
                    f < self.indices@.len(),
                    names_vertices(*self),
                    face == self.indices@[f as int],
                    forall|a: Q, b: Q| #[trigger] call_requires(*sum, (a, b)),
                    gifts == face_gifts(self.indices@),
                    held@.len() == self.positions@.len(),
                    values.len() == f + 1,
                    values[f as int] == value,
                    are_given(start, held@, gifts, values, *sum, 3 * f + c),
                decreases 3 - c,
            {
                let vertex: usize = face[c] as usize;
                let ghost middle = held@;
                assert(gifts[3 * f + c] == (vertex as int, f as int));
                give(&mut held, vertex, value, sum);
                c = c + 1;
                assert(is_given(
                    middle,
                    held@,
                    gifts[3 * f + c - 1].0,
                    values[gifts[3 * f + c - 1].1],
                    *sum,
                ));
            }
            f = f + 1;
        }
        assert(are_face_values(*self, *plane, values));
        held
    }

    /// What the open sides give each vertex on top of what it holds: `wall`
    /// says what an open side is worth from its face's corners and its own two
    /// ends, and both ends get that, side after side.
    pub fn side_sums<Q: Copy, W: Fn([[T; 3]; 3], [T; 3], [T; 3]) -> Q, S: Fn(Q, Q) -> Q>(
        &self,
        held: &mut Vec<Q>,
        wall: &W,
        sum: &S,
    )
        requires
            names_vertices(*self),
            3 * self.indices@.len() <= usize::MAX,
            old(held)@.len() == self.positions@.len(),
            forall|c: [[T; 3]; 3], a: [T; 3], b: [T; 3]| #[trigger] call_requires(*wall, (c, a, b)),
            forall|a: Q, b: Q| #[trigger] call_requires(*sum, (a, b)),
        ensures
            final(held)@.len() == old(held)@.len(),
            is_side_sum(*self, old(held)@, *wall, *sum, final(held)@),
    {
        let found = self.boundary_sides();
        let ghost open = open_sides(self.indices@);
        let ghost gifts = side_gifts(self.indices@);
        let ghost start = held@;
        let ghost mut values: Seq<Q> = Seq::empty();
        proof {
            lemma_open_sides(self.indices@);
        }
        let mut i: usize = 0;
        while i < found.len()
            invariant
                i <= found@.len(),
                names_vertices(*self),
                open == open_sides(self.indices@),
                gifts == side_gifts(self.indices@),
                found@ == open.map_values(|s: int| ((s / 3) as usize, (s % 3) as usize)),
                forall|j: int|
                    0 <= j < open.len() ==> 0 <= #[trigger] open[j] < 3 * self.indices@.len(),
                3 * self.indices@.len() <= usize::MAX,
                forall|c: [[T; 3]; 3], a: [T; 3], b: [T; 3]| #[trigger]
                    call_requires(*wall, (c, a, b)),
                forall|a: Q, b: Q| #[trigger] call_requires(*sum, (a, b)),
                held@.len() == self.positions@.len(),
                values.len() == i,
                forall|j: int|
                    0 <= j < i ==> {
                        let (f, c) = (open[j] / 3, open[j] % 3);
                        call_ensures(
                            *wall,
                            (
                                corners_of(*self, f),
                                corners_of(*self, f)[c],
                                corners_of(*self, f)[(c + 1) % 3],
                            ),
                            #[trigger] values[j],
                        )
                    },
                are_given(start, held@, gifts, values, *sum, 2 * i),
            decreases found.len() - i,
        {
            let (f, c): (usize, usize) = found[i];
            assert(0 <= open[i as int] < 3 * self.indices@.len());
            assert(f == open[i as int] / 3 && c == open[i as int] % 3);
            let next: usize = (c + 1) % 3;
            let face = self.indices[f];
            assert(self.indices@[f as int] == face);
            let corners = self.triangle(f);
            let value = wall(corners, corners[c], corners[next]);
            let ghost before = values;
            proof {
                values = before.push(value);
                lemma_given_agrees(start, held@, gifts, before, values, *sum, 2 * i);
            }
            let ghost middle = held@;
            assert(gifts[2 * i] == (face[c as int] as int, i as int));
            assert(gifts[2 * i + 1] == (face[next as int] as int, i as int));
            give(held, face[c] as usize, value, sum);
            let ghost second = held@;
            proof {
                let k = 2 * i + 1;
                assert(is_given(middle, second, gifts[k - 1].0, values[gifts[k - 1].1], *sum));
                assert(are_given(start, second, gifts, values, *sum, k));
            }
            give(held, face[next] as usize, value, sum);
            proof {
                let k = 2 * i + 2;
                assert(is_given(second, held@, gifts[k - 1].0, values[gifts[k - 1].1], *sum));
                assert(are_given(start, held@, gifts, values, *sum, k));
            }
            i = i + 1;
        }
        assert(are_side_values(*self, *wall, values));
    }

    /// The normals of the vertices: what the faces around each add up to,
    /// brought to length one. `cross` gives a face's normal, longer the larger
    /// the face is.
    pub fn recompute_normals<
        P: Fn([[T; 3]; 3]) -> [T; 3],
        S: Fn([T; 3], [T; 3]) -> [T; 3],
        U: Fn([T; 3]) -> [T; 3],
    >(&mut self, zero: [T; 3], cross: &P, sum: &S, unit: &U)
        requires
            names_vertices(*old(self)),
            forall|c: [[T; 3]; 3]| #[trigger] call_requires(*cross, (c,)),
            forall|a: [T; 3], b: [T; 3]| #[trigger] call_requires(*sum, (a, b)),
            forall|a: [T; 3]| #[trigger] call_requires(*unit, (a,)),
        ensures
            *final(self) == (Mesh { normals: final(self).normals, ..*old(self) }),
            final(self).normals@.len() == old(self).positions@.len(),
            has_normals(*final(self), zero, *cross, *sum, *unit),
    {
        let ghost bare = *self;
        let sums = self.face_sums(zero, cross, sum);
        let mut normals: Vec<[T; 3]> = Vec::new();
        let mut v: usize = 0;
        while v < sums.len()
            invariant
                v <= sums@.len(),
                normals@.len() == v,
                forall|a: [T; 3]| #[trigger] call_requires(*unit, (a,)),
                forall|i: int|
                    0 <= i < v ==> call_ensures(*unit, (sums@[i],), #[trigger] normals@[i]),
            decreases sums.len() - v,
        {
            normals.push(unit(sums[v]));
            v = v + 1;
        }
        assert(are_normals(bare, zero, *cross, *sum, *unit, normals@));
        self.normals = normals;
        proof {
            lemma_same_faces(bare, *self, zero, *cross, *sum, sums@);
        }
    }

    /// The quadrics of the vertices: what the faces around each add up to, and
    /// what the open sides add to hold the boundary in place.
    pub fn quadrics<
        Q: Copy,
        P: Fn([[T; 3]; 3]) -> Q,
        W: Fn([[T; 3]; 3], [T; 3], [T; 3]) -> Q,
        S: Fn(Q, Q) -> Q,
    >(&self, zero: Q, plane: &P, wall: &W, sum: &S) -> (held: Vec<Q>)
        requires
            names_vertices(*self),
            3 * self.indices@.len() <= usize::MAX,
            forall|c: [[T; 3]; 3]| #[trigger] call_requires(*plane, (c,)),
            forall|c: [[T; 3]; 3], a: [T; 3], b: [T; 3]| #[trigger] call_requires(*wall, (c, a, b)),
            forall|a: Q, b: Q| #[trigger] call_requires(*sum, (a, b)),
        ensures
            held@.len() == self.positions@.len(),
            exists|faces: Seq<Q>| #[trigger]
                is_face_sum(*self, zero, *plane, *sum, faces) && is_side_sum(
                    *self,
                    faces,
                    *wall,
                    *sum,
                    held@,
                ),
    {
        let mut held = self.face_sums(zero, plane, sum);
        let ghost faces = held@;
        self.side_sums(&mut held, wall, sum);
        assert(is_face_sum(*self, zero, *plane, *sum, faces));
        held
    }
}

/// What the first gifts come to depends on the values they name only.
proof fn lemma_given_agrees<Q, S: Fn(Q, Q) -> Q>(
    before: Seq<Q>,
    after: Seq<Q>,
    gifts: Seq<(int, int)>,
    a: Seq<Q>,
    b: Seq<Q>,
    sum: S,
    k: int,
)
    requires
        are_given(before, after, gifts, a, sum, k),
        forall|i: int|
            0 <= i < k ==> 0 <= (#[trigger] gifts[i]).1 < a.len() && a[gifts[i].1] == b[gifts[i].1],
    ensures
        are_given(before, after, gifts, b, sum, k),
    decreases k,
{
    if k > 0 {
        let middle = choose|middle: Seq<Q>|
            are_given(before, middle, gifts, a, sum, k - 1) && #[trigger] is_given(
                middle,
                after,
                gifts[k - 1].0,
                a[gifts[k - 1].1],
                sum,
            );
        lemma_given_agrees(before, middle, gifts, a, b, sum, k - 1);
        assert(is_given(middle, after, gifts[k - 1].0, b[gifts[k - 1].1], sum));
    }
}

proof fn lemma_open_sides(faces: Seq<[u32; 3]>)
    ensures
        forall|j: int|
            0 <= j < open_sides(faces).len() ==> 0 <= #[trigger] open_sides(faces)[j] < 3
                * faces.len(),
{
    let all = Seq::new(3 * faces.len(), |s: int| s);
    let open = open_sides(faces);
    assert forall|j: int| 0 <= j < open.len() implies 0 <= #[trigger] open[j] < 3 * faces.len() by {
        assert(open.contains(open[j]));
        all.lemma_filter_contains_rev(|s: int| is_boundary(faces, s), open[j]);
    }
}

// -- Laws --------------------------------------------------------------------

/// What the first `k` gifts come to for one vertex: those of them that are the
/// vertex's.
pub open spec fn gifts_share<Q>(
    gifts: Seq<(int, int)>,
    values: Seq<Q>,
    measure: spec_fn(Q) -> int,
    v: int,
    k: int,
) -> int
    decreases k,
{
    if k <= 0 {
        0
    } else {
        gifts_share(gifts, values, measure, v, k - 1) + if gifts[k - 1].0 == v {
            measure(values[gifts[k - 1].1])
        } else {
            0
        }
    }
}

/// Whether values are measured so that adding them adds their measures.
pub open spec fn adds_exactly<Q, S: Fn(Q, Q) -> Q>(sum: S, measure: spec_fn(Q) -> int) -> bool {
    forall|a: Q, b: Q, c: Q| #[trigger]
        call_ensures(sum, (a, b), c) ==> measure(c) == measure(a) + measure(b)
}

/// A vertex holds what it was given: in exact numbers, what it had before and
/// the value of every gift that was its own, added up.
pub proof fn law_vertex_holds_its_gifts<Q, S: Fn(Q, Q) -> Q>(
    before: Seq<Q>,
    after: Seq<Q>,
    gifts: Seq<(int, int)>,
    values: Seq<Q>,
    sum: S,
    measure: spec_fn(Q) -> int,
    v: int,
    k: int,
)
    requires
        adds_exactly(sum, measure),
        are_given(before, after, gifts, values, sum, k),
        0 <= v < before.len(),
    ensures
        after.len() == before.len(),
        measure(after[v]) == measure(before[v]) + gifts_share(gifts, values, measure, v, k),
    decreases k,
{
    if k > 0 {
        let middle = choose|middle: Seq<Q>|
            are_given(before, middle, gifts, values, sum, k - 1) && #[trigger] is_given(
                middle,
                after,
                gifts[k - 1].0,
                values[gifts[k - 1].1],
                sum,
            );
        law_vertex_holds_its_gifts(before, middle, gifts, values, sum, measure, v, k - 1);
        if gifts[k - 1].0 == v {
            assert(call_ensures(sum, (middle[v], values[gifts[k - 1].1]), after[v]));
        } else {
            assert(after[v] == middle[v]);
        }
    }
}

/// A vertex carries the sum of the faces around it: in exact numbers, one
/// share for every corner of a face that it is.
pub proof fn law_vertex_carries_its_faces<T, Q, P: Fn([[T; 3]; 3]) -> Q, S: Fn(Q, Q) -> Q>(
    mesh: Mesh<T>,
    zero: Q,
    plane: P,
    sum: S,
    held: Seq<Q>,
    measure: spec_fn(Q) -> int,
    v: int,
) -> (values: Seq<Q>)
    requires
        is_face_sum(mesh, zero, plane, sum, held),
        adds_exactly(sum, measure),
        measure(zero) == 0,
        0 <= v < mesh.positions@.len(),
    ensures
        are_face_values(mesh, plane, values),
        measure(held[v]) == gifts_share(
            face_gifts(mesh.indices@),
            values,
            measure,
            v,
            3 * mesh.indices@.len() as int,
        ),
{
    let values = choose|values: Seq<Q>| #[trigger]
        are_face_values(mesh, plane, values) && are_given(
            Seq::new(mesh.positions@.len(), |v: int| zero),
            held,
            face_gifts(mesh.indices@),
            values,
            sum,
            3 * mesh.indices@.len() as int,
        );
    law_vertex_holds_its_gifts(
        Seq::new(mesh.positions@.len(), |v: int| zero),
        held,
        face_gifts(mesh.indices@),
        values,
        sum,
        measure,
        v,
        3 * mesh.indices@.len() as int,
    );
    values
}

/// A vertex inside the surface gets nothing from open sides: what it holds
/// changes only where it is an end of one.
pub proof fn law_inner_vertex_is_left_alone<
    T,
    Q,
    W: Fn([[T; 3]; 3], [T; 3], [T; 3]) -> Q,
    S: Fn(Q, Q) -> Q,
>(mesh: Mesh<T>, before: Seq<Q>, wall: W, sum: S, after: Seq<Q>, v: int)
    requires
        is_side_sum(mesh, before, wall, sum, after),
        0 <= v < before.len(),
        forall|g: int|
            0 <= g < side_gifts(mesh.indices@).len() ==> (#[trigger] side_gifts(mesh.indices@)[g]).0
                != v,
    ensures
        after[v] == before[v],
{
    let gifts = side_gifts(mesh.indices@);
    let k = 2 * open_sides(mesh.indices@).len() as int;
    let values = choose|values: Seq<Q>| #[trigger]
        are_side_values(mesh, wall, values) && are_given(before, after, gifts, values, sum, k);
    lemma_left_alone(before, after, gifts, values, sum, v, k);
}

proof fn lemma_left_alone<Q, S: Fn(Q, Q) -> Q>(
    before: Seq<Q>,
    after: Seq<Q>,
    gifts: Seq<(int, int)>,
    values: Seq<Q>,
    sum: S,
    v: int,
    k: int,
)
    requires
        are_given(before, after, gifts, values, sum, k),
        0 <= v < before.len(),
        k <= gifts.len(),
        forall|g: int| 0 <= g < gifts.len() ==> (#[trigger] gifts[g]).0 != v,
    ensures
        after.len() == before.len(),
        after[v] == before[v],
    decreases k,
{
    if k > 0 {
        let middle = choose|middle: Seq<Q>|
            are_given(before, middle, gifts, values, sum, k - 1) && #[trigger] is_given(
                middle,
                after,
                gifts[k - 1].0,
                values[gifts[k - 1].1],
                sum,
            );
        lemma_left_alone(before, middle, gifts, values, sum, v, k - 1);
        assert(gifts[k - 1].0 != v);
        assert(after[v] == middle[v]);
    }
}

} // verus!
