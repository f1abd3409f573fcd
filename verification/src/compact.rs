//! Rebuilding a mesh from the faces of it that are left.
use crate::mesh::Mesh;
use crate::quadrics::has_normals;
use vstd::prelude::*;

verus! {

/// Whether a face has three distinct corners.
pub open spec fn is_proper(face: [u32; 3]) -> bool {
    face[0] != face[1] && face[1] != face[2] && face[0] != face[2]
}

/// The faces among the first `k` that are alive and proper.
pub open spec fn survivors(faces: Seq<[u32; 3]>, alive: Seq<bool>, k: int) -> Seq<[u32; 3]>
    decreases k,
{
    if k <= 0 {
        Seq::empty()
    } else {
        let before = survivors(faces, alive, k - 1);
        if alive[k - 1] && is_proper(faces[k - 1]) {
            before.push(faces[k - 1])
        } else {
            before
        }
    }
}

/// The corners of a list of faces, three to a face.
pub open spec fn corners(faces: Seq<[u32; 3]>) -> Seq<u32>
    decreases faces.len(),
{
    if faces.len() == 0 {
        Seq::empty()
    } else {
        let last = faces.last();
        corners(faces.drop_last()).push(last[0]).push(last[1]).push(last[2])
    }
}

/// The distinct members of a list, in the order they first occur.
pub open spec fn distinct(list: Seq<u32>) -> Seq<u32>
    decreases list.len(),
{
    if list.len() == 0 {
        Seq::empty()
    } else {
        let before = distinct(list.drop_last());
        if before.contains(list.last()) {
            before
        } else {
            before.push(list.last())
        }
    }
}

/// The vertices that the surviving faces use, in the order they are first used.
pub open spec fn kept(faces: Seq<[u32; 3]>, alive: Seq<bool>) -> Seq<u32> {
    distinct(corners(survivors(faces, alive, faces.len() as int)))
}

/// What a vertex carries, when it carries anything.
pub open spec fn carried<A>(values: Seq<A>, vertices: Seq<u32>) -> Seq<A>
    decreases vertices.len(),
{
    if vertices.len() == 0 {
        Seq::empty()
    } else {
        let before = carried(values, vertices.drop_last());
        if vertices.last() < values.len() {
            before.push(values[vertices.last() as int])
        } else {
            before
        }
    }
}

/// Whether a mesh is what is left of another: its surviving faces, renumbered,
/// and the vertices they use, each with its position and its colour.
pub open spec fn is_compacted<T>(
    mesh: Mesh<T>,
    colors: Seq<[T; 3]>,
    positions: Seq<[T; 3]>,
    faces: Seq<[u32; 3]>,
    alive: Seq<bool>,
) -> bool {
    let left = survivors(faces, alive, faces.len() as int);
    let vertices = kept(faces, alive);
    &&& mesh.positions@ == vertices.map_values(|v: u32| positions[v as int])
    &&& mesh.colors@ == carried(colors, vertices)
    &&& mesh.uvs@.len() == 0
    &&& mesh.indices@.len() == left.len()
    &&& forall|f: int, c: int|
        0 <= f < left.len() && 0 <= c < 3 ==> (#[trigger] mesh.indices@[f][c]) < vertices.len()
            && vertices[mesh.indices@[f][c] as int] == left[f][c]
}

/// Whether a mesh has normals just where another had them, and those that its
/// own faces give.
pub open spec fn is_renewed<
    T,
    P: Fn([[T; 3]; 3]) -> [T; 3],
    S: Fn([T; 3], [T; 3]) -> [T; 3],
    U: Fn([T; 3]) -> [T; 3],
>(before: Mesh<T>, after: Mesh<T>, zero: [T; 3], cross: P, sum: S, unit: U) -> bool {
    if before.normals@.len() > 0 {
        has_normals(after, zero, cross, sum, unit)
    } else {
        after.normals@.len() == 0
    }
}

/// A surviving vertex keeps its colour, so a mesh that had one colour per
/// vertex still has, and one that had none has none.
pub proof fn law_colours_are_carried<T>(
    mesh: Mesh<T>,
    colors: Seq<[T; 3]>,
    positions: Seq<[T; 3]>,
    faces: Seq<[u32; 3]>,
    alive: Seq<bool>,
)
    requires
        is_compacted(mesh, colors, positions, faces, alive),
        forall|f: int|
            0 <= f < faces.len() ==> (#[trigger] faces[f])[0] < positions.len() && faces[f][1]
                < positions.len() && faces[f][2] < positions.len(),
    ensures
        colors.len() == positions.len() ==> mesh.colors@.len() == mesh.positions@.len(),
        colors.len() == 0 ==> mesh.colors@.len() == 0,
{
    let left = survivors(faces, alive, faces.len() as int);
    let vertices = kept(faces, alive);
    lemma_survivors(faces, alive, faces.len() as int);
    lemma_corners(left);
    lemma_distinct(corners(left));
    assert forall|i: int| 0 <= i < vertices.len() implies (#[trigger] vertices[i])
        < positions.len() by {
        assert(vertices.contains(vertices[i]));
        let k = choose|k: int| 0 <= k < corners(left).len() && corners(left)[k] == vertices[i];
        let f = k / 3;
        assert(faces.contains(left[f]));
        let g = choose|g: int| 0 <= g < faces.len() && faces[g] == left[f];
        assert(faces[g][0] < positions.len());
        assert(corners(left)[3 * f] == left[f][0]);
    }
    lemma_carried(colors, vertices, positions.len());
}

proof fn lemma_carried<A>(values: Seq<A>, vertices: Seq<u32>, count: nat)
    requires
        forall|i: int| 0 <= i < vertices.len() ==> (#[trigger] vertices[i]) < count,
    ensures
        values.len() == count ==> carried(values, vertices).len() == vertices.len(),
        values.len() == 0 ==> carried(values, vertices).len() == 0,
    decreases vertices.len(),
{
    if vertices.len() > 0 {
        let before = vertices.drop_last();
        assert forall|i: int| 0 <= i < before.len() implies (#[trigger] before[i]) < count by {
            assert(before[i] == vertices[i]);
        }
        lemma_carried(values, before, count);
        assert(vertices[vertices.len() - 1] < count);
    }
}

proof fn lemma_distinct(list: Seq<u32>)
    ensures
        distinct(list).no_duplicates(),
        forall|v: u32| #[trigger] distinct(list).contains(v) <==> list.contains(v),
    decreases list.len(),
{
    if list.len() > 0 {
        let before = list.drop_last();
        lemma_distinct(before);
        let d = distinct(before);
        assert forall|v: u32| #[trigger] distinct(list).contains(v) <==> list.contains(v) by {
            if list.contains(v) {
                let i = choose|i: int| 0 <= i < list.len() && list[i] == v;
                if i < before.len() {
                    assert(before[i] == v);
                    assert(before.contains(v));
                    assert(d.contains(v));
                    let j = choose|j: int| 0 <= j < d.len() && d[j] == v;
                    assert(distinct(list)[j] == v);
                } else if !d.contains(v) {
                    assert(distinct(list)[d.len() as int] == v);
                }
            }
            if distinct(list).contains(v) {
                let j = choose|j: int| 0 <= j < distinct(list).len() && distinct(list)[j] == v;
                if j < d.len() {
                    assert(d[j] == v);
                    assert(d.contains(v));
                    assert(before.contains(v));
                    let i = choose|i: int| 0 <= i < before.len() && before[i] == v;
                    assert(list[i] == v);
                } else {
                    assert(list[list.len() - 1] == v);
                }
            }
        }
    }
}

proof fn lemma_corners(faces: Seq<[u32; 3]>)
    ensures
        corners(faces).len() == 3 * faces.len(),
        forall|f: int|
            0 <= f < faces.len() ==> corners(faces)[3 * f] == (#[trigger] faces[f])[0] && corners(
                faces,
            )[3 * f + 1] == faces[f][1] && corners(faces)[3 * f + 2] == faces[f][2],
    decreases faces.len(),
{
    if faces.len() > 0 {
        let before = faces.drop_last();
        lemma_corners(before);
        assert forall|f: int| 0 <= f < faces.len() implies corners(faces)[3 * f] == (
        #[trigger] faces[f])[0] && corners(faces)[3 * f + 1] == faces[f][1] && corners(faces)[3 * f
            + 2] == faces[f][2] by {
            if f < before.len() {
                assert(before[f] == faces[f]);
            }
        }
    }
}

proof fn lemma_survivors(faces: Seq<[u32; 3]>, alive: Seq<bool>, k: int)
    requires
        k <= faces.len(),
    ensures
        forall|f: int|
            0 <= f < survivors(faces, alive, k).len() ==> is_proper(
                #[trigger] survivors(faces, alive, k)[f],
            ) && faces.contains(survivors(faces, alive, k)[f]),
    decreases k,
{
    if k > 0 {
        lemma_survivors(faces, alive, k - 1);
        let before = survivors(faces, alive, k - 1);
        let now = survivors(faces, alive, k);
        assert forall|f: int| 0 <= f < now.len() implies is_proper(#[trigger] now[f])
            && faces.contains(now[f]) by {
            if f < before.len() {
                assert(now[f] == before[f]);
            } else {
                assert(faces[k - 1] == now[f]);
            }
        }
    }
}

/// What is left of a mesh has no degenerate face and no vertex that no face
/// uses: the corners of every face are three different vertices of the mesh,
/// and every vertex is the corner of some face.
pub proof fn law_nothing_dangles<T>(
    mesh: Mesh<T>,
    colors: Seq<[T; 3]>,
    positions: Seq<[T; 3]>,
    faces: Seq<[u32; 3]>,
    alive: Seq<bool>,
)
    requires
        is_compacted(mesh, colors, positions, faces, alive),
    ensures
        forall|f: int|
            0 <= f < mesh.indices@.len() ==> is_proper(#[trigger] mesh.indices@[f])
                && mesh.indices@[f][0] < mesh.positions@.len() && mesh.indices@[f][1]
                < mesh.positions@.len() && mesh.indices@[f][2] < mesh.positions@.len(),
        forall|v: int|
            0 <= v < mesh.positions@.len() ==> #[trigger] is_used(mesh.indices@, v),
{
    let left = survivors(faces, alive, faces.len() as int);
    let vertices = kept(faces, alive);
    lemma_survivors(faces, alive, faces.len() as int);
    lemma_corners(left);
    lemma_distinct(corners(left));
    assert forall|f: int| 0 <= f < mesh.indices@.len() implies is_proper(
        #[trigger] mesh.indices@[f],
    ) && mesh.indices@[f][0] < mesh.positions@.len() && mesh.indices@[f][1]
        < mesh.positions@.len() && mesh.indices@[f][2] < mesh.positions@.len() by {
        assert(is_proper(left[f]));
        let face = mesh.indices@[f];
        assert(vertices[mesh.indices@[f][0] as int] == left[f][0]);
        assert(vertices[mesh.indices@[f][1] as int] == left[f][1]);
        assert(vertices[mesh.indices@[f][2] as int] == left[f][2]);
    }
    assert forall|v: int| 0 <= v < mesh.positions@.len() implies #[trigger] is_used(
        mesh.indices@,
        v,
    ) by {
        let w = vertices[v];
        assert(vertices.contains(w));
        let i = choose|i: int| 0 <= i < corners(left).len() && corners(left)[i] == w;
        let (f, c) = (i / 3, i % 3);
        assert(left[f][c] == w) by {
            assert(corners(left)[3 * f] == left[f][0]);
        }
        assert(vertices[mesh.indices@[f][c] as int] == w);
        assert(mesh.indices@[f][c] == v);
        assert(has_corner(mesh.indices@[f], v));
    }
}

/// Whether a vertex is a corner of some face.
pub open spec fn is_used(faces: Seq<[u32; 3]>, v: int) -> bool {
    exists|f: int| 0 <= f < faces.len() && has_corner(#[trigger] faces[f], v)
}

/// Whether a vertex is a corner of a face.
pub open spec fn has_corner(face: [u32; 3], v: int) -> bool {
    face[0] == v || face[1] == v || face[2] == v
}

impl<T: Copy> Mesh<T> {
    /// Rebuilds the mesh from the surviving faces, dropping vertices that none
    /// of them uses. A surviving vertex keeps its colour. Normals are renewed
    /// if the mesh had any, and texture coordinates are dropped.
    pub fn compact<
        P: Fn([[T; 3]; 3]) -> [T; 3],
        S: Fn([T; 3], [T; 3]) -> [T; 3],
        U: Fn([T; 3]) -> [T; 3],
    >(
        &mut self,
        positions: &Vec<[T; 3]>,
        faces: &Vec<[u32; 3]>,
        alive: &Vec<bool>,
        zero: [T; 3],
        cross: &P,
        sum: &S,
        unit: &U,
    )
        requires
            positions@.len() <= u32::MAX,
            alive@.len() == faces@.len(),
            forall|f: int|
                0 <= f < faces@.len() ==> (#[trigger] faces@[f])[0] < positions@.len()
                    && faces@[f][1] < positions@.len() && faces@[f][2] < positions@.len(),
            forall|c: [[T; 3]; 3]| #[trigger] call_requires(*cross, (c,)),
            forall|a: [T; 3], b: [T; 3]| #[trigger] call_requires(*sum, (a, b)),
            forall|a: [T; 3]| #[trigger] call_requires(*unit, (a,)),
        ensures
            is_compacted(*final(self), old(self).colors@, positions@, faces@, alive@),
            is_renewed(*old(self), *final(self), zero, *cross, *sum, *unit),
    {
        let had_normals: bool = self.normals.len() > 0;
        let ghost colours = self.colors@;
        self.rebuild(positions, faces, alive);
        if had_normals {
            proof {
                law_nothing_dangles(*self, colours, positions@, faces@, alive@);
            }
            self.recompute_normals(zero, cross, sum, unit);
        }
    }

    /// Rebuilds the mesh from the surviving faces, without normals.
    fn rebuild(
        &mut self,
        positions: &Vec<[T; 3]>,
        faces: &Vec<[u32; 3]>,
        alive: &Vec<bool>,
    )
        requires
            positions@.len() <= u32::MAX,
            alive@.len() == faces@.len(),
            forall|f: int|
                0 <= f < faces@.len() ==> (#[trigger] faces@[f])[0] < positions@.len()
                    && faces@[f][1] < positions@.len() && faces@[f][2] < positions@.len(),
        ensures
            is_compacted(*final(self), old(self).colors@, positions@, faces@, alive@),
            final(self).normals@.len() == 0,
    {
        let mut colours: Vec<[T; 3]> = Vec::new();
        std::mem::swap(&mut colours, &mut self.colors);
        self.positions = Vec::new();
        self.indices = Vec::new();
        self.normals = Vec::new();
        self.uvs = Vec::new();
        let ghost list: Seq<u32> = Seq::empty();
        let mut remap: Vec<u32> = Vec::new();
        let mut i: usize = 0;
        while i < positions.len()
            invariant
                i <= positions@.len(),
                remap@.len() == i,
                forall|v: int| 0 <= v < i ==> #[trigger] remap@[v] == u32::MAX,
            decreases positions.len() - i,
        {
            remap.push(u32::MAX);
            i = i + 1;
        }
        let mut k: usize = 0;
        proof {
            assert(survivors(faces@, alive@, 0) =~= Seq::empty());
            assert(corners(Seq::empty()) =~= Seq::empty());
            assert(self.positions@ =~= distinct(Seq::empty()).map_values(
                |v: u32| positions@[v as int],
            ));
            assert(self.colors@ =~= carried(colours@, distinct(Seq::empty())));
        }
        while k < faces.len()
            invariant
                k <= faces@.len(),
                alive@.len() == faces@.len(),
                positions@.len() <= u32::MAX,
                colours@ == old(self).colors@,
                forall|f: int|
                    0 <= f < faces@.len() ==> (#[trigger] faces@[f])[0] < positions@.len()
                        && faces@[f][1] < positions@.len() && faces@[f][2] < positions@.len(),
                self.normals@.len() == 0,
                self.uvs@.len() == 0,
                placed(
                    corners(survivors(faces@, alive@, k as int)),
                    remap@,
                    positions@,
                    colours@,
                    self.positions@,
                    self.colors@,
                ),
                renumbered(
                    survivors(faces@, alive@, k as int),
                    distinct(corners(survivors(faces@, alive@, k as int))),
                    self.indices@,
                ),
            decreases faces.len() - k,
        {
            let face = faces[k];
            if alive[k] && face[0] != face[1] && face[1] != face[2] && face[0] != face[2] {
                let ghost left = survivors(faces@, alive@, k as int);
                let ghost used = corners(left);
                let first: u32 = self.keep(face[0], &mut remap, positions, &colours, Ghost(used));
                let second: u32 = self.keep(
                    face[1],
                    &mut remap,
                    positions,
                    &colours,
                    Ghost(used.push(face[0])),
                );
                let third: u32 = self.keep(
                    face[2],
                    &mut remap,
                    positions,
                    &colours,
                    Ghost(used.push(face[0]).push(face[1])),
                );
                let ghost before = self.indices@;
                self.indices.push([first, second, third]);
                proof {
                    assert(left.push(face).drop_last() =~= left);
                    let all = used.push(face[0]).push(face[1]).push(face[2]);
                    assert(corners(left.push(face)) == all);
                    let vertices = distinct(all);
                    assert forall|f: int, c: int|
                        0 <= f < left.len() + 1 && 0 <= c < 3 implies (
                    #[trigger] self.indices@[f][c]) < vertices.len()
                        && vertices[self.indices@[f][c] as int] == left.push(face)[f][c] by {
                        if f < left.len() {
                            assert(self.indices@[f] == before[f]);
                            assert(before[f][c] < distinct(used).len());
                        }
                    }
                }
            }
            k = k + 1;
        }
        proof {
            assert(self.positions@ == kept(faces@, alive@).map_values(
                |v: u32| positions@[v as int],
            ));
        }
    }

    /// The new number of a vertex, given to it the first time it is met.
    fn keep(
        &mut self,
        vertex: u32,
        remap: &mut Vec<u32>,
        positions: &Vec<[T; 3]>,
        colours: &Vec<[T; 3]>,
        Ghost(used): Ghost<Seq<u32>>,
    ) -> (index: u32)
        requires
            vertex < positions@.len(),
            positions@.len() <= u32::MAX,
            placed(
                used,
                old(remap)@,
                positions@,
                colours@,
                old(self).positions@,
                old(self).colors@,
            ),
        ensures
            placed(
                used.push(vertex),
                final(remap)@,
                positions@,
                colours@,
                final(self).positions@,
                final(self).colors@,
            ),
            index < distinct(used.push(vertex)).len(),
            distinct(used.push(vertex))[index as int] == vertex,
            forall|i: int|
                0 <= i < distinct(used).len() ==> i < distinct(used.push(vertex)).len()
                    && #[trigger] distinct(used.push(vertex))[i] == distinct(used)[i],
            distinct(used).len() <= distinct(used.push(vertex)).len(),
            final(self).indices@ == old(self).indices@,
            final(self).normals@ == old(self).normals@,
            final(self).uvs@ == old(self).uvs@,
    {
        let ghost before = distinct(used);
        let ghost after = distinct(used.push(vertex));
        proof {
            assert(used.push(vertex).drop_last() =~= used);
            lemma_distinct(used);
        }
        if remap[vertex as usize] == u32::MAX {
            proof {
                if before.contains(vertex) {
                    let i = choose|i: int| 0 <= i < before.len() && before[i] == vertex;
                    assert(remap@[before[i] as int] == i);
                }
                lemma_distinct(used.push(vertex));
                assert forall|i: int| 0 <= i < after.len() implies (#[trigger] after[i])
                    < positions@.len() by {
                    if i < before.len() {
                        assert(after[i] == before[i]);
                    }
                }
                lemma_bounded(after, positions@.len());
                assert(after.drop_last() =~= before);
            }
            let ghost old_map = remap@;
            let index: u32 = self.positions.len() as u32;
            remap.set(vertex as usize, index);
            self.positions.push(positions[vertex as usize]);
            if (vertex as usize) < colours.len() {
                self.colors.push(colours[vertex as usize]);
            }
            proof {
                assert(self.positions@ =~= after.map_values(|v: u32| positions@[v as int]));
                assert forall|i: int| 0 <= i < after.len() implies #[trigger] remap@[after[i] as int]
                    == i by {
                    if i < before.len() {
                        assert(after[i] == before[i]);
                        assert(before.contains(before[i]));
                    }
                }
                assert forall|v: int| 0 <= v < remap@.len() implies (#[trigger] remap@[v]
                    == u32::MAX <==> !after.contains(v as u32)) by {
                    if v == vertex {
                        assert(after[before.len() as int] == vertex);
                    } else {
                        assert(old_map[v] == u32::MAX <==> !before.contains(v as u32));
                        if before.contains(v as u32) {
                            let i = choose|i: int| 0 <= i < before.len() && before[i] == v as u32;
                            assert(after[i] == v as u32);
                        }
                        if after.contains(v as u32) {
                            let i = choose|i: int| 0 <= i < after.len() && after[i] == v as u32;
                            assert(before[i] == v as u32);
                        }
                    }
                }
            }
            index
        } else {
            proof {
                assert(before.contains(vertex));
                let i = choose|i: int| 0 <= i < before.len() && before[i] == vertex;
                assert(remap@[before[i] as int] == i);
            }
            remap[vertex as usize]
        }
    }
}

/// Distinct numbers below a bound are no more than the bound.
proof fn lemma_bounded(list: Seq<u32>, bound: nat)
    requires
        list.no_duplicates(),
        forall|i: int| 0 <= i < list.len() ==> (#[trigger] list[i]) < bound,
    ensures
        list.len() <= bound,
{
    list.unique_seq_to_set();
    let ints = list.to_set().map(|v: u32| v as int);
    vstd::set_lib::lemma_int_range(0, bound as int);
    assert forall|x: int| ints.contains(x) implies vstd::set_lib::set_int_range(
        0,
        bound as int,
    ).contains(x) by {}
    vstd::set_lib::lemma_map_size(list.to_set(), ints, |v: u32| v as int);
    vstd::set_lib::lemma_len_subset(ints, vstd::set_lib::set_int_range(0, bound as int));
}

/// Whether the vertices used so far are numbered in the order they were met,
/// and carried over in that order.
spec fn placed<T>(
    used: Seq<u32>,
    remap: Seq<u32>,
    positions: Seq<[T; 3]>,
    colours: Seq<[T; 3]>,
    new_positions: Seq<[T; 3]>,
    new_colors: Seq<[T; 3]>,
) -> bool {
    let vertices = distinct(used);
    &&& remap.len() == positions.len()
    &&& forall|i: int| 0 <= i < vertices.len() ==> (#[trigger] vertices[i]) < positions.len()
    &&& forall|i: int| 0 <= i < vertices.len() ==> #[trigger] remap[vertices[i] as int] == i
    &&& forall|v: int|
        0 <= v < remap.len() ==> (#[trigger] remap[v] == u32::MAX <==> !vertices.contains(v as u32))
    &&& new_positions == vertices.map_values(|v: u32| positions[v as int])
    &&& new_colors == carried(colours, vertices)
}

/// Whether a list of faces is another one, renumbered.
spec fn renumbered(left: Seq<[u32; 3]>, vertices: Seq<u32>, indices: Seq<[u32; 3]>) -> bool {
    &&& indices.len() == left.len()
    &&& forall|f: int, c: int|
        0 <= f < left.len() && 0 <= c < 3 ==> (#[trigger] indices[f][c]) < vertices.len()
            && vertices[indices[f][c] as int] == left[f][c]
}

} // verus!
