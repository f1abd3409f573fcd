//! The edges of a mesh's faces, and how many faces each of them has.
use crate::mesh::Mesh;
use std::collections::HashMap;
use vstd::prelude::*;
use vstd::std_specs::hash::*;

verus! {

/// An edge, the smaller of its vertices first.
pub open spec fn edge(first: u32, second: u32) -> (u32, u32) {
    if first < second {
        (first, second)
    } else {
        (second, first)
    }
}

/// An edge, the smaller of its vertices first.
pub fn ordered(first: u32, second: u32) -> (pair: (u32, u32))
    ensures
        pair == edge(first, second),
{
    if first < second {
        (first, second)
    } else {
        (second, first)
    }
}

/// The edge from corner `c` of a face to the next.
pub open spec fn side(face: [u32; 3], c: int) -> (u32, u32) {
    edge(face[c], face[(c + 1) % 3])
}

/// The edges of the faces' sides, three to a face.
pub open spec fn sides(faces: Seq<[u32; 3]>) -> Seq<(u32, u32)> {
    Seq::new(3 * faces.len(), |s: int| side(faces[s / 3], s % 3))
}

/// How many sides of the faces are the given edge.
pub open spec fn uses(faces: Seq<[u32; 3]>, e: (u32, u32)) -> nat {
    sides(faces).to_multiset().count(e)
}

/// The distinct edges of a list of faces, and how many sides each of them is.
pub(crate) struct Edges {
    pub(crate) list: Vec<(u32, u32)>,
    pub(crate) counts: Vec<usize>,
    pub(crate) places: HashMap<u64, usize>,
}

pub(crate) open spec fn edge_key(e: (u32, u32)) -> u64 {
    (e.0 * 0x1_0000_0000 + e.1) as u64
}

fn key_of(e: (u32, u32)) -> (key: u64)
    ensures
        key == edge_key(e),
{
    e.0 as u64 * 0x1_0000_0000 + e.1 as u64
}

impl Edges {
    /// Whether these are the edges of the given sides.
    pub(crate) open spec fn covers(&self, sides: Seq<(u32, u32)>) -> bool {
        &&& self.list@.no_duplicates()
        &&& self.counts@.len() == self.list@.len()
        &&& forall|i: int|
            0 <= i < self.list@.len() ==> (#[trigger] self.counts@[i]) as nat
                == sides.to_multiset().count(self.list@[i]) && self.counts@[i] > 0
        &&& forall|i: int|
            0 <= i < self.list@.len() ==> #[trigger] self.places@.contains_key(
                edge_key(self.list@[i]),
            ) && self.places@[edge_key(self.list@[i])] == i
        &&& forall|k: u64| #[trigger]
            self.places@.contains_key(k) ==> exists|i: int|
                0 <= i < self.list@.len() && edge_key(#[trigger] self.list@[i]) == k
        &&& forall|e: (u32, u32)|
            sides.to_multiset().count(e) > 0 ==> #[trigger] self.list@.contains(e)
    }

    /// The edges of a list of faces.
    pub(crate) fn of(faces: &Vec<[u32; 3]>) -> (edges: Edges)
        requires
            3 * faces@.len() <= usize::MAX,
        ensures
            edges.covers(sides(faces@)),
            edges.list@.no_duplicates(),
            forall|e: (u32, u32)| #[trigger] edges.list@.contains(e) <==> uses(faces@, e) > 0,
    {
        broadcast use vstd::seq_lib::group_to_multiset_ensures;
        broadcast use vstd::multiset::group_multiset_axioms;

        let ghost all = sides(faces@);
        let mut edges = Edges { list: Vec::new(), counts: Vec::new(), places: HashMap::new() };
        let total: usize = 3 * faces.len();
        let mut s: usize = 0;
        proof {
            assert(all.take(0).to_multiset().len() == 0);
            assert(edges.covers(all.take(0)));
        }
        while s < total
            invariant
                s <= total,
                total == 3 * faces@.len(),
                all == sides(faces@),
                edges.covers(all.take(s as int)),
            decreases total - s,
        {
            let face = faces[s / 3];
            let c: usize = s % 3;
            let e: (u32, u32) = ordered(face[c], face[(c + 1) % 3]);
            assert(all[s as int] == e);
            edges.note(e, Ghost(all.take(s as int)));
            assert(all.take(s as int).push(e) =~= all.take(s + 1));
            s = s + 1;
        }
        assert(all.take(s as int) =~= all);
        proof {
            assert forall|e: (u32, u32)| #[trigger] edges.list@.contains(e) implies uses(faces@, e)
                > 0 by {
                let i = choose|i: int| 0 <= i < edges.list@.len() && edges.list@[i] == e;
                assert(edges.counts@[i] > 0);
            }
        }
        edges
    }

    fn note(&mut self, e: (u32, u32), Ghost(seen): Ghost<Seq<(u32, u32)>>)
        requires
            old(self).covers(seen),
            seen.len() < usize::MAX,
        ensures
            final(self).covers(seen.push(e)),
    {
        broadcast use vstd::seq_lib::group_to_multiset_ensures;
        broadcast use vstd::multiset::group_multiset_axioms;

        let ghost before = *self;
        let ghost after = seen.push(e);
        let key: u64 = key_of(e);
        assert(after.to_multiset() =~= seen.to_multiset().insert(e));
        assert forall|a: (u32, u32), b: (u32, u32)| edge_key(a) == edge_key(b) implies a == b by {}
        let place: Option<usize> = match self.places.get(&key) {
            Some(place) => Some(*place),
            None => None,
        };
        match place {
            Some(i) => {
                proof {
                    let j = choose|j: int|
                        0 <= j < self.list@.len() && edge_key(#[trigger] self.list@[j]) == key;
                    assert(self.places@.contains_key(edge_key(self.list@[j])));
                    assert(i == j && self.list@[j] == e);
                    assert(self.counts@[j] as nat == seen.to_multiset().count(e));
                    assert(seen.to_multiset().count(e) <= seen.to_multiset().len());
                }
                let count: usize = self.counts[i];
                self.counts.set(i, count + 1);
                proof {
                    assert forall|k: int| 0 <= k < self.list@.len() implies (
                    #[trigger] self.counts@[k]) as nat == after.to_multiset().count(self.list@[k])
                        && self.counts@[k] > 0 by {
                        assert(before.counts@[k] as nat == seen.to_multiset().count(self.list@[k]));
                        if k != i {
                            assert(self.list@[k] != e);
                        }
                    }
                    assert forall|a: (u32, u32)| after.to_multiset().count(a) > 0 implies
                        #[trigger] self.list@.contains(a) by {
                        if a == e {
                            assert(self.list@[i as int] == e);
                        } else {
                            assert(seen.to_multiset().count(a) > 0);
                            assert(before.list@.contains(a));
                        }
                    }
                    assert forall|k: int| 0 <= k < self.list@.len() implies
                        #[trigger] self.places@.contains_key(edge_key(self.list@[k]))
                        && self.places@[edge_key(self.list@[k])] == k by {
                        assert(before.places@.contains_key(edge_key(before.list@[k])));
                    }
                }
            },
            None => {
                let i: usize = self.list.len();
                proof {
                    if seen.to_multiset().count(e) > 0 {
                        assert(self.list@.contains(e));
                        let k = choose|k: int| 0 <= k < self.list@.len() && self.list@[k] == e;
                        assert(self.places@.contains_key(edge_key(self.list@[k])));
                    }
                }
                self.list.push(e);
                self.counts.push(1);
                self.places.insert(key, i);
                proof {
                    assert forall|k: int| 0 <= k < before.list@.len() implies before.list@[k]
                        != e by {
                        assert(before.places@.contains_key(edge_key(before.list@[k])));
                    }
                    assert forall|k: int| 0 <= k < self.list@.len() implies (
                    #[trigger] self.counts@[k]) as nat == after.to_multiset().count(self.list@[k])
                        && self.counts@[k] > 0 by {
                        if k < i {
                            assert(before.counts@[k] as nat == seen.to_multiset().count(
                                before.list@[k],
                            ));
                        }
                    }
                    assert forall|k: int| 0 <= k < self.list@.len() implies
                        #[trigger] self.places@.contains_key(edge_key(self.list@[k]))
                        && self.places@[edge_key(self.list@[k])] == k by {
                        if k < i {
                            assert(before.places@.contains_key(edge_key(before.list@[k])));
                        }
                    }
                    assert forall|k: u64| #[trigger]
                        self.places@.contains_key(k) implies exists|j: int|
                        0 <= j < self.list@.len() && edge_key(#[trigger] self.list@[j]) == k by {
                        if k == key {
                            assert(edge_key(self.list@[i as int]) == k);
                        } else {
                            let j = choose|j: int|
                                0 <= j < before.list@.len() && edge_key(
                                    #[trigger] before.list@[j],
                                ) == k;
                            assert(self.list@[j] == before.list@[j]);
                        }
                    }
                    assert forall|a: (u32, u32)| after.to_multiset().count(a) > 0 implies
                        #[trigger] self.list@.contains(a) by {
                        if a == e {
                            assert(self.list@[i as int] == e);
                        } else {
                            assert(seen.to_multiset().count(a) > 0);
                            assert(before.list@.contains(a));
                            let k = choose|k: int|
                                0 <= k < before.list@.len() && before.list@[k] == a;
                            assert(self.list@[k] == a);
                        }
                    }
                }
            },
        }
    }

    /// How many sides an edge is.
    pub(crate) fn count(&self, e: (u32, u32), Ghost(seen): Ghost<Seq<(u32, u32)>>) -> (count: usize)
        requires
            self.covers(seen),
        ensures
            count as nat == seen.to_multiset().count(e),
    {
        let key: u64 = key_of(e);
        assert forall|a: (u32, u32), b: (u32, u32)| edge_key(a) == edge_key(b) implies a == b by {}
        match self.places.get(&key) {
            Some(place) => {
                proof {
                    let j = choose|j: int|
                        0 <= j < self.list@.len() && edge_key(#[trigger] self.list@[j]) == key;
                    assert(self.places@.contains_key(edge_key(self.list@[j])));
                    assert(self.counts@[j] as nat == seen.to_multiset().count(self.list@[j]));
                }
                self.counts[*place]
            },
            None => {
                proof {
                    if seen.to_multiset().count(e) > 0 {
                        assert(self.list@.contains(e));
                        let k = choose|k: int| 0 <= k < self.list@.len() && self.list@[k] == e;
                        assert(self.places@.contains_key(edge_key(self.list@[k])));
                    }
                }
                0
            },
        }
    }
}

/// Whether side `s` of the faces, counted three to a face, is a boundary: it
/// is the only side along its edge.
pub open spec fn is_boundary(faces: Seq<[u32; 3]>, s: int) -> bool {
    uses(faces, sides(faces)[s]) == 1
}

impl<T> Mesh<T> {
    /// The sides of faces that lie on a boundary, in order, as the face and
    /// the corner each starts from.
    pub fn boundary_sides(&self) -> (found: Vec<(usize, usize)>)
        requires
            3 * self.indices@.len() <= usize::MAX,
        ensures
            found@ == Seq::new(3 * self.indices@.len(), |s: int| s).filter(
                |s: int| is_boundary(self.indices@, s),
            ).map_values(|s: int| ((s / 3) as usize, (s % 3) as usize)),
    {
        let edges = Edges::of(&self.indices);
        let ghost all = sides(self.indices@);
        let ghost n = 3 * self.indices@.len();
        let ghost numbers = Seq::new(n, |s: int| s);
        let ghost chosen = |s: int| is_boundary(self.indices@, s);
        let ghost split = |s: int| ((s / 3) as usize, (s % 3) as usize);
        let total: usize = 3 * self.indices.len();
        let mut found: Vec<(usize, usize)> = Vec::new();
        let mut s: usize = 0;
        proof {
            reveal(Seq::filter);
            assert(found@ =~= numbers.take(0).filter(chosen).map_values(split));
        }
        while s < total
            invariant
                s <= total,
                total == n,
                n == 3 * self.indices@.len(),
                all == sides(self.indices@),
                numbers == Seq::new(n, |s: int| s),
                chosen == (|s: int| is_boundary(self.indices@, s)),
                split == (|s: int| ((s / 3) as usize, (s % 3) as usize)),
                edges.covers(all),
                found@ == numbers.take(s as int).filter(chosen).map_values(split),
            decreases total - s,
        {
            let face = self.indices[s / 3];
            let c: usize = s % 3;
            let e: (u32, u32) = ordered(face[c], face[(c + 1) % 3]);
            assert(all[s as int] == e);
            let ghost before = found@;
            if edges.count(e, Ghost(all)) == 1 {
                found.push((s / 3, c));
            }
            proof {
                reveal(Seq::filter);
                assert(numbers.take(s + 1).drop_last() =~= numbers.take(s as int));
                assert(numbers.take(s + 1).last() == s);
                let kept = numbers.take(s as int).filter(chosen);
                if chosen(s as int) {
                    assert(numbers.take(s + 1).filter(chosen) == kept.push(s as int));
                    assert(kept.push(s as int).map_values(split) =~= kept.map_values(split).push(
                        split(s as int),
                    ));
                }
            }
            s = s + 1;
        }
        assert(numbers.take(s as int) =~= numbers);
        found
    }
}

} // verus!
