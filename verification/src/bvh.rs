//! A bounding volume hierarchy over the faces of a mesh: a binary tree whose
//! leaves are runs of faces.
//!
//! The geometry is the caller's: along which axis a node is split, where each
//! face lies along an axis, and how far a face or a node is from a point are
//! all handed in, as numbers that sort the way the coordinates do.
use vstd::multiset::Multiset;
use vstd::prelude::*;

verus! {

/// The most faces a leaf holds.
pub const LEAF_SIZE: usize = 4;

/// One node of a [`Bvh`]. An interior node keeps its left child next to it and
/// the number of its right child; a leaf keeps a run of faces.
#[derive(Clone, Copy, Debug, PartialEq, Eq, Structural)]
pub struct Node {
    /// The first face of the node in the order of the tree.
    pub start: u32,
    /// The faces of the node.
    pub faces: u32,
    /// The faces in a leaf, or zero for an interior node.
    pub count: u32,
    /// The right child of an interior node.
    pub right: u32,
}

/// A bounding volume hierarchy.
#[derive(Debug)]
pub struct Bvh {
    pub nodes: Vec<Node>,
    /// The faces, permuted so that a leaf is a contiguous run.
    pub order: Vec<u32>,
}

/// How many nodes a tree over so many faces has.
pub open spec fn tree_size(faces: nat) -> nat
    decreases faces,
{
    if faces <= LEAF_SIZE {
        1
    } else {
        1 + tree_size(faces / 2) + tree_size((faces - faces / 2) as nat)
    }
}

/// Whether every face of one half of a range lies no further along an axis
/// than any face of the other.
pub open spec fn is_split(
    order: Seq<u32>,
    keys: Seq<[u32; 3]>,
    axis: int,
    start: int,
    middle: int,
    end: int,
) -> bool {
    forall|i: int, j: int|
        start <= i < middle && middle <= j < end ==> keys[(#[trigger] order[i]) as int][axis]
            <= keys[(#[trigger] order[j]) as int][axis]
}

/// Whether a range is split along the axis that was picked for it. `asked` is
/// the order at the time, in which the range held the same faces.
pub open spec fn is_parted<A: Fn(&Vec<u32>, usize, usize) -> usize>(
    axis: A,
    order: Seq<u32>,
    keys: Seq<[u32; 3]>,
    start: int,
    end: int,
    asked: &Vec<u32>,
    chosen: usize,
) -> bool {
    &&& call_ensures(axis, (asked, start as usize, end as usize), chosen)
    &&& chosen < 3
    &&& asked@.len() == order.len()
    &&& faces_in(asked@, start, end) == faces_in(order, start, end)
    &&& is_split(order, keys, chosen as int, start, start + (end - start) / 2, end)
}

/// Whether node `i` and those under it are a tree over a range of the order:
/// a leaf when the range is short, and else two trees over its halves, which
/// the range is split into along the axis that `axis` picked.
pub open spec fn is_tree<A: Fn(&Vec<u32>, usize, usize) -> usize>(
    axis: A,
    nodes: Seq<Node>,
    order: Seq<u32>,
    keys: Seq<[u32; 3]>,
    i: int,
    start: int,
    end: int,
) -> bool
    decreases end - start,
{
    let faces = end - start;
    let middle = start + faces / 2;
    let right = i + 1 + tree_size((faces / 2) as nat);
    &&& 0 <= i < nodes.len()
    &&& nodes[i].start == start
    &&& nodes[i].faces == faces
    &&& if faces <= LEAF_SIZE {
        nodes[i].count == faces
    } else {
        &&& nodes[i].count == 0
        &&& nodes[i].right == right
        &&& exists|asked: &Vec<u32>, chosen: usize| #[trigger]
            is_parted(axis, order, keys, start, end, asked, chosen)
        &&& is_tree(axis, nodes, order, keys, i + 1, start, middle)
        &&& is_tree(axis, nodes, order, keys, right, middle, end)
    }
}

/// The faces of a range, in any order.
pub open spec fn faces_in(order: Seq<u32>, start: int, end: int) -> Multiset<u32> {
    order.subrange(start, end).to_multiset()
}

/// Whether two orders differ only inside a range, where they hold the same
/// faces.
pub open spec fn permutes(a: Seq<u32>, b: Seq<u32>, start: int, end: int) -> bool {
    &&& a.len() == b.len()
    &&& forall|i: int| 0 <= i < a.len() && !(start <= i < end) ==> #[trigger] a[i] == b[i]
    &&& faces_in(a, start, end) == faces_in(b, start, end)
}

/// `slice::select_nth_unstable_by_key` on part of a list: the faces of the
/// part are put in some order in which the one at `nth` is where sorting them
/// by their keys would put it, so that none before it has a larger key and
/// none after it a smaller one.
#[verifier::external_body]
fn select_nth(
    order: &mut Vec<u32>,
    start: usize,
    end: usize,
    nth: usize,
    keys: &Vec<[u32; 3]>,
    axis: usize,
)
    requires
        start <= nth < end <= old(order)@.len(),
        axis < 3,
        forall|i: int| start <= i < end ==> (#[trigger] old(order)@[i]) < keys@.len(),
    ensures
        permutes(old(order)@, final(order)@, start as int, end as int),
        forall|i: int, j: int|
            start <= i <= nth && nth <= j < end ==> keys@[(#[trigger] final(order)@[i]) as int][axis
                as int] <= keys@[(#[trigger] final(order)@[j]) as int][axis as int],
{
    order[start..end].select_nth_unstable_by_key(nth - start, |face| keys[*face as usize][axis]);
}

pub proof fn lemma_tree_size(faces: nat)
    requires
        faces > 0,
    ensures
        1 <= tree_size(faces) <= faces,
        faces >= 2 ==> tree_size(faces) < faces,
    decreases faces,
{
    if faces > LEAF_SIZE {
        lemma_tree_size(faces / 2);
        lemma_tree_size((faces - faces / 2) as nat);
    }
}

/// Faces that differ only in order are the same faces.
proof fn lemma_same_faces(a: Seq<u32>, b: Seq<u32>, start: int, end: int, i: int) -> (j: int)
    requires
        0 <= start <= end <= a.len(),
        a.len() == b.len(),
        faces_in(a, start, end) == faces_in(b, start, end),
        start <= i < end,
    ensures
        start <= j < end,
        a[j] == b[i],
{
    broadcast use vstd::seq_lib::group_to_multiset_ensures;

    let (p, q) = (a.subrange(start, end), b.subrange(start, end));
    assert(q[i - start] == b[i]);
    assert(q.contains(b[i]));
    assert(q.to_multiset().count(b[i]) > 0);
    assert(p.contains(b[i]));
    let k = choose|k: int| 0 <= k < p.len() && p[k] == b[i];
    k + start
}

/// A split stays one when each half is permuted.
proof fn lemma_split_stays(
    a: Seq<u32>,
    b: Seq<u32>,
    keys: Seq<[u32; 3]>,
    axis: int,
    start: int,
    middle: int,
    end: int,
)
    requires
        0 <= start <= middle <= end <= a.len(),
        a.len() == b.len(),
        is_split(a, keys, axis, start, middle, end),
        faces_in(a, start, middle) == faces_in(b, start, middle),
        faces_in(a, middle, end) == faces_in(b, middle, end),
    ensures
        is_split(b, keys, axis, start, middle, end),
{
    assert forall|i: int, j: int| start <= i < middle && middle <= j < end implies keys[(
    #[trigger] b[i]) as int][axis] <= keys[(#[trigger] b[j]) as int][axis] by {
        let p = lemma_same_faces(a, b, start, middle, i);
        let q = lemma_same_faces(a, b, middle, end, j);
        assert(keys[a[p] as int][axis] <= keys[a[q] as int][axis]);
    }
}

/// A tree depends only on the nodes and the faces in it.
proof fn lemma_tree_stays<A: Fn(&Vec<u32>, usize, usize) -> usize>(
    axis: A,
    nodes: Seq<Node>,
    more: Seq<Node>,
    a: Seq<u32>,
    b: Seq<u32>,
    keys: Seq<[u32; 3]>,
    i: int,
    start: int,
    end: int,
)
    requires
        is_tree(axis, nodes, a, keys, i, start, end),
        0 <= start < end <= a.len(),
        a.len() == b.len(),
        nodes.len() <= more.len(),
        i + tree_size((end - start) as nat) <= nodes.len(),
        forall|k: int|
            i <= k < i + tree_size((end - start) as nat) ==> #[trigger] nodes[k] == more[k],
        forall|k: int| start <= k < end ==> #[trigger] a[k] == b[k],
    ensures
        is_tree(axis, more, b, keys, i, start, end),
    decreases end - start,
{
    let faces = end - start;
    if faces > LEAF_SIZE {
        let middle = start + faces / 2;
        let left = tree_size((faces / 2) as nat);
        let right = i + 1 + left;
        assert(nodes[i] == more[i]);
        lemma_tree_stays(axis, nodes, more, a, b, keys, i + 1, start, middle);
        lemma_tree_stays(axis, nodes, more, a, b, keys, right, middle, end);
        let (asked, chosen) = choose|asked: &Vec<u32>, chosen: usize| #[trigger]
            is_parted(axis, a, keys, start, end, asked, chosen);
        let k = chosen as int;
        assert forall|p: int, q: int| start <= p < middle && middle <= q < end implies keys[(
        #[trigger] b[p]) as int][k] <= keys[(#[trigger] b[q]) as int][k] by {
            assert(a[p] == b[p] && a[q] == b[q]);
        }
        assert(a.subrange(start, end) =~= b.subrange(start, end));
        assert(is_parted(axis, b, keys, start, end, asked, chosen));
    } else {
        assert(nodes[i] == more[i]);
    }
}

proof fn lemma_faces_in_parts(order: Seq<u32>, start: int, middle: int, end: int)
    requires
        0 <= start <= middle <= end <= order.len(),
    ensures
        faces_in(order, start, end) == faces_in(order, start, middle).add(
            faces_in(order, middle, end),
        ),
{
    let (p, q) = (order.subrange(start, middle), order.subrange(middle, end));
    vstd::seq_lib::lemma_multiset_commutative(p, q);
    assert(order.subrange(start, end) =~= p + q);
}

impl Bvh {
    /// Builds the tree over a number of faces. `keys` holds, for each face and
    /// axis, a number that sorts as the face's centre does along the axis;
    /// `axis` picks the axis to split a range of the order along.
    pub fn build<A: Fn(&Vec<u32>, usize, usize) -> usize>(keys: &Vec<[u32; 3]>, axis: A) -> (bvh: Bvh)
        requires
            keys@.len() <= u32::MAX,
            forall|order: &Vec<u32>, start: usize, end: usize| #[trigger]
                call_requires(axis, (order, start, end)),
            forall|order: &Vec<u32>, start: usize, end: usize, chosen: usize| #[trigger]
                call_ensures(axis, (order, start, end), chosen) ==> chosen < 3,
        ensures
            bvh.order@.to_multiset() == Seq::new(
                keys@.len(),
                |i: int| i as u32,
            ).to_multiset(),
            bvh.order@.len() == keys@.len(),
            bvh.wf(),
            keys@.len() == 0 ==> bvh.nodes@.len() == 0,
            keys@.len() > 0 ==> bvh.nodes@.len() == tree_size(keys@.len()) && is_tree(
                axis,
                bvh.nodes@,
                bvh.order@,
                keys@,
                0,
                0,
                keys@.len() as int,
            ),
    {
        let count: usize = keys.len();
        let mut order: Vec<u32> = Vec::new();
        let mut i: usize = 0;
        while i < count
            invariant
                i <= count,
                count <= u32::MAX,
                order@ == Seq::new(i as nat, |i: int| i as u32),
            decreases count - i,
        {
            order.push(i as u32);
            i = i + 1;
            assert(order@ =~= Seq::new(i as nat, |i: int| i as u32));
        }
        let ghost first = order@;
        let mut bvh = Bvh { nodes: Vec::new(), order };
        if count > 0 {
            proof {
                lemma_tree_size(count as nat);
            }
            bvh.split(0, count, keys, &axis);
            assert(first.subrange(0, count as int) =~= first);
            assert(bvh.order@.subrange(0, count as int) =~= bvh.order@);
            proof {
                lemma_tree_has_shape(
                    axis,
                    bvh.nodes@,
                    bvh.order@,
                    keys@,
                    0,
                    0,
                    count as int,
                );
            }
        }
        bvh
    }

    /// Builds the node over a range of the order, and returns its number.
    fn split<A: Fn(&Vec<u32>, usize, usize) -> usize>(
        &mut self,
        start: usize,
        end: usize,
        keys: &Vec<[u32; 3]>,
        axis: &A,
    ) -> (index: u32)
        requires
            start < end <= old(self).order@.len(),
            old(self).order@.len() <= u32::MAX,
            old(self).nodes@.len() + tree_size((end - start) as nat) <= u32::MAX,
            forall|i: int| start <= i < end ==> (#[trigger] old(self).order@[i]) < keys@.len(),
            forall|order: &Vec<u32>, start: usize, end: usize| #[trigger]
                call_requires(axis, (order, start, end)),
            forall|order: &Vec<u32>, start: usize, end: usize, chosen: usize| #[trigger]
                call_ensures(axis, (order, start, end), chosen) ==> chosen < 3,
        ensures
            index == old(self).nodes@.len(),
            permutes(old(self).order@, final(self).order@, start as int, end as int),
            final(self).nodes@.len() == old(self).nodes@.len() + tree_size((end - start) as nat),
            forall|k: int|
                0 <= k < old(self).nodes@.len() ==> #[trigger] final(self).nodes@[k] == old(
                    self).nodes@[k],
            is_tree(
                *axis,
                final(self).nodes@,
                final(self).order@,
                keys@,
                index as int,
                start as int,
                end as int,
            ),
        decreases end - start,
    {
        broadcast use vstd::multiset::group_multiset_axioms;

        let ghost (nodes0, order0) = (self.nodes@, self.order@);
        let index: u32 = self.nodes.len() as u32;
        let faces: usize = end - start;
        proof {
            lemma_tree_size(faces as nat);
        }
        let leaf = faces <= LEAF_SIZE;
        self.nodes.push(
            Node {
                start: start as u32,
                faces: faces as u32,
                count: if leaf {
                    faces as u32
                } else {
                    0
                },
                right: 0,
            },
        );
        if leaf {
            assert(self.order@ =~= order0);
            return index;
        }
        let ghost asked = self.order;
        let chosen: usize = axis(&self.order, start, end);
        let middle: usize = start + faces / 2;
        select_nth(&mut self.order, start, end, middle, keys, chosen);
        let ghost order1 = self.order@;
        proof {
            assert forall|i: int| start <= i < end implies (#[trigger] order1[i]) < keys@.len() by {
                let j = lemma_same_faces(order0, order1, start as int, end as int, i);
                assert(order0[j] < keys@.len());
            }
            assert(is_split(order1, keys@, chosen as int, start as int, middle as int, end as int));
            lemma_tree_size((faces / 2) as nat);
            lemma_tree_size((faces - faces / 2) as nat);
        }
        let left: u32 = self.split(start, middle, keys, axis);
        let ghost (nodes2, order2) = (self.nodes@, self.order@);
        proof {
            assert forall|i: int| middle <= i < end implies (#[trigger] order2[i]) < keys@.len() by {
                assert(order1[i] == order2[i]);
            }
        }
        let right: u32 = self.split(middle, end, keys, axis);
        let ghost (nodes3, order3) = (self.nodes@, self.order@);
        let node = self.nodes[index as usize];
        self.nodes.set(index as usize, Node { right, ..node });
        proof {
            let nodes4 = self.nodes@;
            let (s, m, e) = (start as int, middle as int, end as int);
            assert(order1.subrange(m, e) =~= order2.subrange(m, e));
            assert(order2.subrange(s, m) =~= order3.subrange(s, m));
            lemma_faces_in_parts(order1, s, m, e);
            lemma_faces_in_parts(order3, s, m, e);
            assert(faces_in(order1, s, e) == faces_in(order3, s, e));
            lemma_split_stays(order1, order3, keys@, chosen as int, s, m, e);
            assert(nodes3[index as int] == nodes2[index as int]);
            lemma_tree_stays(*axis, nodes2, nodes4, order2, order3, keys@, left as int, s, m);
            lemma_tree_stays(*axis, nodes3, nodes4, order3, order3, keys@, right as int, m, e);
            assert(is_parted(*axis, order3, keys@, s, e, &asked, chosen));
            assert(nodes4[index as int].start == start && nodes4[index as int].faces == faces
                && nodes4[index as int].count == 0 && nodes4[index as int].right == right);
        }
        index
    }
}

// -- Asking ------------------------------------------------------------------

/// Whether node `i` and those under it have the shape of a tree over a range.
pub open spec fn has_shape(nodes: Seq<Node>, i: int, start: int, end: int) -> bool
    decreases end - start,
{
    let faces = end - start;
    let right = i + 1 + tree_size((faces / 2) as nat);
    &&& 0 <= i < nodes.len()
    &&& nodes[i].start == start
    &&& nodes[i].faces == faces
    &&& if faces <= LEAF_SIZE {
        nodes[i].count == faces
    } else {
        &&& nodes[i].count == 0
        &&& nodes[i].right == right
        &&& has_shape(nodes, i + 1, start, start + faces / 2)
        &&& has_shape(nodes, right, start + faces / 2, end)
    }
}

proof fn lemma_tree_has_shape<A: Fn(&Vec<u32>, usize, usize) -> usize>(
    axis: A,
    nodes: Seq<Node>,
    order: Seq<u32>,
    keys: Seq<[u32; 3]>,
    i: int,
    start: int,
    end: int,
)
    requires
        is_tree(axis, nodes, order, keys, i, start, end),
    ensures
        has_shape(nodes, i, start, end),
    decreases end - start,
{
    let faces = end - start;
    if faces > LEAF_SIZE {
        let middle = start + faces / 2;
        lemma_tree_has_shape(axis, nodes, order, keys, i + 1, start, middle);
        lemma_tree_has_shape(
            axis,
            nodes,
            order,
            keys,
            i + 1 + tree_size((faces / 2) as nat),
            middle,
            end,
        );
    }
}

/// Whether a distance is the same however often it is asked for.
pub open spec fn is_steady<D: Fn(u32) -> u32>(distance: D) -> bool {
    forall|face: u32, a: u32, b: u32| #[trigger]
        call_ensures(distance, (face,), a) && #[trigger] call_ensures(distance, (face,), b) ==> a
            == b
}

/// Whether a node is never further than a face in it.
pub open spec fn is_bound<B: Fn(usize) -> u32, D: Fn(u32) -> u32>(
    bound: B,
    distance: D,
    nodes: Seq<Node>,
    order: Seq<u32>,
) -> bool {
    forall|i: usize, p: int, b: u32, d: u32|
        i < nodes.len() && nodes[i as int].start <= p < nodes[i as int].start
            + nodes[i as int].faces && #[trigger] call_ensures(bound, (i,), b)
            && #[trigger] call_ensures(distance, (order[p],), d) ==> b <= d
}

/// Whether no face of a range is nearer than a distance.
pub open spec fn is_nearest<D: Fn(u32) -> u32>(
    distance: D,
    order: Seq<u32>,
    start: int,
    end: int,
    key: u32,
) -> bool {
    forall|p: int, d: u32|
        start <= p < end && #[trigger] call_ensures(distance, (order[p],), d) ==> key <= d
}

/// The nearest face met so far, when there is one, and how near it is; before
/// that, how near a face has to be.
pub type Best = (Option<u32>, u32);

/// Whether an answer improves on another by a face of a range.
pub open spec fn improves<D: Fn(u32) -> u32>(
    distance: D,
    order: Seq<u32>,
    start: int,
    end: int,
    before: Best,
    after: Best,
) -> bool {
    ||| after == before
    ||| {
        &&& after.0 is Some
        &&& after.1 < before.1
        &&& exists|p: int| start <= p < end && #[trigger] order[p] == after.0->Some_0
        &&& call_ensures(distance, (after.0->Some_0,), after.1)
    }
}

/// Whether an answer is no further than another.
pub open spec fn is_no_further(before: Best, after: Best) -> bool {
    after.1 <= before.1
}

/// Whether `after` is what is left of `before` once a face with the given
/// distance was met.
pub open spec fn is_kept<D: Fn(u32) -> u32>(
    distance: D,
    face: u32,
    key: u32,
    before: Best,
    after: Best,
) -> bool {
    &&& call_ensures(distance, (face,), key)
    &&& after == if key < before.1 {
        (Some(face), key)
    } else {
        before
    }
}

/// Whether `after` is what is left of `before` once the faces in a range of
/// the order were met, one after another.
pub open spec fn is_scanned<D: Fn(u32) -> u32>(
    order: Seq<u32>,
    distance: D,
    start: int,
    end: int,
    before: Best,
    after: Best,
) -> bool
    decreases end - start,
{
    if end <= start {
        after == before
    } else {
        exists|middle: Best, key: u32|
            is_scanned(order, distance, start, end - 1, before, middle) && #[trigger] is_kept(
                distance,
                order[end - 1],
                key,
                middle,
                after,
            )
    }
}

/// Whether these are the bounds of two nodes.
pub open spec fn are_bounds<B: Fn(usize) -> u32>(
    bound: B,
    left: int,
    right: int,
    l: u32,
    r: u32,
) -> bool {
    call_ensures(bound, (left as usize,), l) && call_ensures(bound, (right as usize,), r)
}

/// Whether `after` is what is left of `before` once node `i`, which covers a
/// range of the order, was walked. A node that is no nearer than what is
/// already known is passed over, a leaf is met face by face, and of the two
/// children of any other node the one with the smaller bound is walked first,
/// the left one where they tie.
pub open spec fn is_walked<B: Fn(usize) -> u32, D: Fn(u32) -> u32>(
    order: Seq<u32>,
    bound: B,
    distance: D,
    i: int,
    start: int,
    end: int,
    before: Best,
    after: Best,
) -> bool
    decreases end - start,
{
    let faces = end - start;
    let middle = start + faces / 2;
    let (left, right) = (i + 1, i + 1 + tree_size((faces / 2) as nat));
    exists|least: u32| #[trigger]
        call_ensures(bound, (i as usize,), least) && if least >= before.1 {
            after == before
        } else if faces <= LEAF_SIZE {
            is_scanned(order, distance, start, end, before, after)
        } else {
            exists|near: Best, l: u32, r: u32|
                {
                    &&& #[trigger] are_bounds(bound, left, right, l, r)
                    &&& #[trigger] is_no_further(before, near)
                    &&& if l <= r {
                        is_walked(order, bound, distance, left, start, middle, before, near)
                            && is_walked(order, bound, distance, right, middle, end, near, after)
                    } else {
                        is_walked(order, bound, distance, right, middle, end, before, near)
                            && is_walked(order, bound, distance, left, start, middle, near, after)
                    }
                }
        }
}

impl Bvh {
    /// Whether the nodes are a tree over the whole order.
    pub open spec fn wf(&self) -> bool {
        &&& self.order@.len() <= u32::MAX
        &&& self.nodes@.len() == 0 <==> self.order@.len() == 0
        &&& self.order@.len() > 0 ==> has_shape(self.nodes@, 0, 0, self.order@.len() as int)
    }

    /// The face nearest to a point and how near it is, when any is nearer than
    /// `limit`. `distance` says how far a face is, and `bound` how far a node
    /// is at least, both as numbers that sort as the distances do.
    ///
    /// The answer is what a walk of the tree keeps that passes over every node
    /// whose bound is no nearer than what it has found. When the distances are
    /// steady and the bounds hold, no face is nearer than the one found.
    pub fn closest<B: Fn(usize) -> u32, D: Fn(u32) -> u32>(
        &self,
        limit: u32,
        bound: B,
        distance: D,
    ) -> (found: Option<(u32, u32)>)
        requires
            self.wf(),
            forall|i: usize| #[trigger] call_requires(bound, (i,)),
            forall|face: u32| #[trigger] call_requires(distance, (face,)),
        ensures
            self.order@.len() == 0 ==> found is None,
            self.order@.len() > 0 ==> is_walked(
                self.order@,
                bound,
                distance,
                0,
                0,
                self.order@.len() as int,
                (None, limit),
                match found {
                    Some((face, key)) => (Some(face), key),
                    None => (None, limit),
                },
            ),
            match found {
                Some((face, key)) => key < limit && self.order@.contains(face) && call_ensures(
                    distance,
                    (face,),
                    key,
                ),
                None => true,
            },
            is_steady(distance) && is_bound(bound, distance, self.nodes@, self.order@)
                ==> is_nearest(
                distance,
                self.order@,
                0,
                self.order@.len() as int,
                match found {
                    Some((face, key)) => key,
                    None => limit,
                },
            ),
    {
        if self.nodes.len() == 0 {
            return None;
        }
        let end: usize = self.order.len();
        proof {
            lemma_tree_size(end as nat);
        }
        let best = self.descend(0, 0, end, (None, limit), &bound, &distance);
        match best.0 {
            Some(face) => {
                assert(self.order@.contains(face));
                Some((face, best.1))
            },
            None => None,
        }
    }

    fn descend<B: Fn(usize) -> u32, D: Fn(u32) -> u32>(
        &self,
        index: usize,
        start: usize,
        end: usize,
        best: Best,
        bound: &B,
        distance: &D,
    ) -> (found: Best)
        requires
            start < end <= self.order@.len() <= u32::MAX,
            has_shape(self.nodes@, index as int, start as int, end as int),
            index + tree_size((end - start) as nat) <= u32::MAX,
            forall|i: usize| #[trigger] call_requires(bound, (i,)),
            forall|face: u32| #[trigger] call_requires(distance, (face,)),
        ensures
            is_walked(
                self.order@,
                *bound,
                *distance,
                index as int,
                start as int,
                end as int,
                best,
                found,
            ),
            improves(*distance, self.order@, start as int, end as int, best, found),
            found.1 <= best.1,
            is_steady(*distance) && is_bound(*bound, *distance, self.nodes@, self.order@)
                ==> is_nearest(*distance, self.order@, start as int, end as int, found.1),
        decreases end - start,
    {
        let node = self.nodes[index];
        let least: u32 = bound(index);
        assert(call_ensures(*bound, (index as int as usize,), least));
        if least >= best.1 {
            return best;
        }
        if node.count > 0 {
            let mut best = best;
            let ghost first = best;
            let mut p: usize = start;
            while p < end
                invariant
                    start <= p <= end <= self.order@.len(),
                    forall|face: u32| #[trigger] call_requires(distance, (face,)),
                    is_scanned(self.order@, *distance, start as int, p as int, first, best),
                    improves(*distance, self.order@, start as int, end as int, first, best),
                    best.1 <= first.1,
                    is_steady(*distance) ==> is_nearest(
                        *distance,
                        self.order@,
                        start as int,
                        p as int,
                        best.1,
                    ),
                decreases end - p,
            {
                let face: u32 = self.order[p];
                let key: u32 = distance(face);
                let ghost middle = best;
                if key < best.1 {
                    best = (Some(face), key);
                }
                p = p + 1;
                assert(is_kept(*distance, self.order@[p - 1], key, middle, best));
            }
            return best;
        }
        let faces: usize = end - start;
        let middle: usize = start + faces / 2;
        proof {
            lemma_tree_size((faces / 2) as nat);
            lemma_tree_size((faces - faces / 2) as nat);
        }
        let (left, right) = (index + 1, node.right as usize);
        let (l, r): (u32, u32) = (bound(left), bound(right));
        assert(are_bounds(*bound, left as int, right as int, l, r));
        if l <= r {
            let near = self.descend(left, start, middle, best, bound, distance);
            assert(is_no_further(best, near));
            self.descend(right, middle, end, near, bound, distance)
        } else {
            let near = self.descend(right, middle, end, best, bound, distance);
            assert(is_no_further(best, near));
            self.descend(left, start, middle, near, bound, distance)
        }
    }
}

proof fn lemma_scan_is_determined<D: Fn(u32) -> u32>(
    order: Seq<u32>,
    distance: D,
    start: int,
    end: int,
    before: Best,
    a: Best,
    b: Best,
)
    requires
        is_steady(distance),
        is_scanned(order, distance, start, end, before, a),
        is_scanned(order, distance, start, end, before, b),
    ensures
        a == b,
    decreases end - start,
{
    if start < end {
        let face = order[end - 1];
        let (m, j) = choose|m: Best, j: u32|
            is_scanned(order, distance, start, end - 1, before, m) && #[trigger] is_kept(
                distance,
                face,
                j,
                m,
                a,
            );
        let (n, k) = choose|n: Best, k: u32|
            is_scanned(order, distance, start, end - 1, before, n) && #[trigger] is_kept(
                distance,
                face,
                k,
                n,
                b,
            );
        lemma_scan_is_determined(order, distance, start, end - 1, before, m, n);
        assert(call_ensures(distance, (face,), j) && call_ensures(distance, (face,), k));
    }
}

/// Whether a bound is the same however often it is asked for.
pub open spec fn is_steady_bound<B: Fn(usize) -> u32>(bound: B) -> bool {
    forall|i: usize, a: u32, b: u32| #[trigger]
        call_ensures(bound, (i,), a) && #[trigger] call_ensures(bound, (i,), b) ==> a == b
}

/// A walk has one answer: where bounds and distances are the same however
/// often they are asked for, a tree is left with the same nearest face, ties
/// and pruned nodes included.
pub proof fn law_walk_is_determined<B: Fn(usize) -> u32, D: Fn(u32) -> u32>(
    order: Seq<u32>,
    bound: B,
    distance: D,
    i: int,
    start: int,
    end: int,
    before: Best,
    a: Best,
    b: Best,
)
    requires
        is_steady_bound(bound),
        is_steady(distance),
        is_walked(order, bound, distance, i, start, end, before, a),
        is_walked(order, bound, distance, i, start, end, before, b),
    ensures
        a == b,
    decreases end - start,
{
    let faces = end - start;
    let middle = start + faces / 2;
    let (left, right) = (i + 1, i + 1 + tree_size((faces / 2) as nat));
    let least = choose|least: u32| #[trigger] call_ensures(bound, (i as usize,), least);
    if least < before.1 {
        if faces <= LEAF_SIZE {
            lemma_scan_is_determined(order, distance, start, end, before, a, b);
        } else {
            let (m, l, r) = lemma_walked_children(
                order,
                bound,
                distance,
                i,
                start,
                end,
                before,
                a,
                least,
            );
            let (n, s, t) = lemma_walked_children(
                order,
                bound,
                distance,
                i,
                start,
                end,
                before,
                b,
                least,
            );
            assert(call_ensures(bound, (left as usize,), l) && call_ensures(
                bound,
                (left as usize,),
                s,
            ));
            assert(call_ensures(bound, (right as usize,), r) && call_ensures(
                bound,
                (right as usize,),
                t,
            ));
            if l <= r {
                law_walk_is_determined(order, bound, distance, left, start, middle, before, m, n);
                law_walk_is_determined(order, bound, distance, right, middle, end, m, a, b);
            } else {
                law_walk_is_determined(order, bound, distance, right, middle, end, before, m, n);
                law_walk_is_determined(order, bound, distance, left, start, middle, m, a, b);
            }
        }
    }
}

/// What a walk of a node that is not passed over keeps between its children.
proof fn lemma_walked_children<B: Fn(usize) -> u32, D: Fn(u32) -> u32>(
    order: Seq<u32>,
    bound: B,
    distance: D,
    i: int,
    start: int,
    end: int,
    before: Best,
    after: Best,
    least: u32,
) -> (r: (Best, u32, u32))
    requires
        is_steady_bound(bound),
        end - start > LEAF_SIZE,
        call_ensures(bound, (i as usize,), least),
        least < before.1,
        is_walked(order, bound, distance, i, start, end, before, after),
    ensures
        ({
            let middle = start + (end - start) / 2;
            let (left, right) = (i + 1, i + 1 + tree_size(((end - start) / 2) as nat));
            &&& are_bounds(bound, left, right, r.1, r.2)
            &&& r.1 <= r.2 ==> is_walked(order, bound, distance, left, start, middle, before, r.0)
                && is_walked(order, bound, distance, right, middle, end, r.0, after)
            &&& r.1 > r.2 ==> is_walked(order, bound, distance, right, middle, end, before, r.0)
                && is_walked(order, bound, distance, left, start, middle, r.0, after)
        }),
{
    let middle = start + (end - start) / 2;
    let (left, right) = (i + 1, i + 1 + tree_size(((end - start) / 2) as nat));
    let (near, l, r) = choose|near: Best, l: u32, r: u32|
        {
            &&& #[trigger] are_bounds(bound, left, right, l, r)
            &&& #[trigger] is_no_further(before, near)
            &&& if l <= r {
                is_walked(order, bound, distance, left, start, middle, before, near) && is_walked(
                    order,
                    bound,
                    distance,
                    right,
                    middle,
                    end,
                    near,
                    after,
                )
            } else {
                is_walked(order, bound, distance, right, middle, end, before, near) && is_walked(
                    order,
                    bound,
                    distance,
                    left,
                    start,
                    middle,
                    near,
                    after,
                )
            }
        };
    (near, l, r)
}

/// The first of a list of running totals that reaches a target, or the last.
pub open spec fn reaches(totals: Seq<u32>, target: u32, face: int) -> bool {
    &&& 0 <= face < totals.len()
    &&& forall|i: int| 0 <= i < face ==> (#[trigger] totals[i]) < target
    &&& totals[face] >= target || face == totals.len() - 1
}

/// The face that a target falls into, given the running totals of the faces'
/// areas, which do not fall.
pub fn face_at(totals: &Vec<u32>, target: u32) -> (face: usize)
    requires
        totals@.len() > 0,
        forall|i: int, j: int| 0 <= i <= j < totals@.len() ==> totals@[i] <= totals@[j],
    ensures
        reaches(totals@, target, face as int),
{
    let mut low: usize = 0;
    let mut high: usize = totals.len();
    while low < high
        invariant
            0 <= low <= high <= totals@.len(),
            forall|i: int, j: int| 0 <= i <= j < totals@.len() ==> totals@[i] <= totals@[j],
            forall|i: int| 0 <= i < low ==> (#[trigger] totals@[i]) < target,
            forall|i: int| high <= i < totals@.len() ==> (#[trigger] totals@[i]) >= target,
        decreases high - low,
    {
        let middle: usize = low + (high - low) / 2;
        if totals[middle] < target {
            low = middle + 1;
        } else {
            high = middle;
        }
    }
    if low < totals.len() {
        low
    } else {
        totals.len() - 1
    }
}

} // verus!
