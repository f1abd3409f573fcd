//! The winding number of a mesh around a point, added up over the tree.
//!
//! A node that is far away stands for all its faces at once; a near one is
//! asked for its faces. What a node or a face contributes, and how two
//! contributions add up, is the caller's.
use crate::bvh::{has_shape, lemma_tree_size, tree_size, Bvh, Node, LEAF_SIZE};
use vstd::prelude::*;

verus! {

/// Whether `sum` is what the faces in a range of the order add up to, one
/// after another.
pub open spec fn is_run_sum<V, D: Fn(u32) -> V, S: Fn(V, V) -> V>(
    order: Seq<u32>,
    angle: D,
    combine: S,
    zero: V,
    start: int,
    end: int,
    sum: V,
) -> bool
    decreases end - start,
{
    if end <= start {
        sum == zero
    } else {
        exists|before: V, last: V|
            is_run_sum(order, angle, combine, zero, start, end - 1, before) && call_ensures(
                angle,
                (order[end - 1],),
                last,
            ) && #[trigger] call_ensures(combine, (before, last), sum)
    }
}

/// Whether `sum` is what node `i`, which covers a range of the order,
/// contributes: what it stands for when it is far, and else what its faces or
/// its two children add up to.
pub open spec fn is_wound<V, N: Fn(usize) -> Option<V>, D: Fn(u32) -> V, S: Fn(V, V) -> V>(
    order: Seq<u32>,
    far: N,
    angle: D,
    combine: S,
    zero: V,
    i: int,
    start: int,
    end: int,
    sum: V,
) -> bool
    decreases end - start,
{
    let faces = end - start;
    let middle = start + faces / 2;
    ||| call_ensures(far, (i as usize,), Some(sum))
    ||| {
        &&& call_ensures(far, (i as usize,), None)
        &&& if faces <= LEAF_SIZE {
            is_run_sum(order, angle, combine, zero, start, end, sum)
        } else {
            exists|left: V, right: V|
                is_wound(order, far, angle, combine, zero, i + 1, start, middle, left) && is_wound(
                    order,
                    far,
                    angle,
                    combine,
                    zero,
                    i + 1 + tree_size((faces / 2) as nat),
                    middle,
                    end,
                    right,
                ) && #[trigger] call_ensures(combine, (left, right), sum)
        }
    }
}

impl Bvh {
    /// What the faces contribute altogether, or `zero` when there are none.
    /// `far` says what a node stands for when it is far enough away to stand
    /// for its faces, `angle` what a face contributes, and `combine` adds two
    /// contributions.
    pub fn winding_number<
        V: Copy,
        N: Fn(usize) -> Option<V>,
        D: Fn(u32) -> V,
        S: Fn(V, V) -> V,
    >(&self, far: N, angle: D, combine: S, zero: V) -> (sum: V)
        requires
            self.wf(),
            forall|i: usize| #[trigger] call_requires(far, (i,)),
            forall|face: u32| #[trigger] call_requires(angle, (face,)),
            forall|a: V, b: V| #[trigger] call_requires(combine, (a, b)),
        ensures
            self.order@.len() == 0 ==> sum == zero,
            self.order@.len() > 0 ==> is_wound(
                self.order@,
                far,
                angle,
                combine,
                zero,
                0,
                0,
                self.order@.len() as int,
                sum,
            ),
    {
        if self.nodes.len() == 0 {
            return zero;
        }
        let end: usize = self.order.len();
        proof {
            lemma_tree_size(end as nat);
        }
        self.wind(0, 0, end, &far, &angle, &combine, zero)
    }

    fn wind<V: Copy, N: Fn(usize) -> Option<V>, D: Fn(u32) -> V, S: Fn(V, V) -> V>(
        &self,
        index: usize,
        start: usize,
        end: usize,
        far: &N,
        angle: &D,
        combine: &S,
        zero: V,
    ) -> (sum: V)
        requires
            start < end <= self.order@.len() <= u32::MAX,
            has_shape(self.nodes@, index as int, start as int, end as int),
            index + tree_size((end - start) as nat) <= u32::MAX,
            forall|i: usize| #[trigger] call_requires(*far, (i,)),
            forall|face: u32| #[trigger] call_requires(*angle, (face,)),
            forall|a: V, b: V| #[trigger] call_requires(*combine, (a, b)),
        ensures
            is_wound(
                self.order@,
                *far,
                *angle,
                *combine,
                zero,
                index as int,
                start as int,
                end as int,
                sum,
            ),
        decreases end - start,
    {
        let node: Node = self.nodes[index];
        match far(index) {
            Some(sum) => return sum,
            None => {},
        }
        if node.count > 0 {
            let mut sum = zero;
            let mut p: usize = start;
            while p < end
                invariant
                    start <= p <= end <= self.order@.len(),
                    forall|face: u32| #[trigger] call_requires(*angle, (face,)),
                    forall|a: V, b: V| #[trigger] call_requires(*combine, (a, b)),
                    is_run_sum(
                        self.order@,
                        *angle,
                        *combine,
                        zero,
                        start as int,
                        p as int,
                        sum,
                    ),
                decreases end - p,
            {
                let last = angle(self.order[p]);
                sum = combine(sum, last);
                p = p + 1;
            }
            return sum;
        }
        let faces: usize = end - start;
        let middle: usize = start + faces / 2;
        proof {
            lemma_tree_size((faces / 2) as nat);
            lemma_tree_size((faces - faces / 2) as nat);
        }
        let left = self.wind(index + 1, start, middle, far, angle, combine, zero);
        let right = self.wind(node.right as usize, middle, end, far, angle, combine, zero);
        combine(left, right)
    }
}

/// What the faces in a range of the order weigh, together.
pub open spec fn weight_of(order: Seq<u32>, weight: spec_fn(u32) -> int, start: int, end: int) -> int
    decreases end - start,
{
    if end <= start {
        0
    } else {
        weight_of(order, weight, start, end - 1) + weight(order[end - 1])
    }
}

proof fn lemma_weight_splits(
    order: Seq<u32>,
    weight: spec_fn(u32) -> int,
    start: int,
    middle: int,
    end: int,
)
    requires
        start <= middle <= end,
    ensures
        weight_of(order, weight, start, end) == weight_of(order, weight, start, middle) + weight_of(
            order,
            weight,
            middle,
            end,
        ),
    decreases end - middle,
{
    if middle < end {
        lemma_weight_splits(order, weight, start, middle, end - 1);
    }
}

/// Whether contributions are measured so that adding them adds their
/// measures, and a face measures its weight.
pub open spec fn is_measure<V, D: Fn(u32) -> V, S: Fn(V, V) -> V>(
    angle: D,
    combine: S,
    zero: V,
    measure: spec_fn(V) -> int,
    weight: spec_fn(u32) -> int,
) -> bool {
    &&& measure(zero) == 0
    &&& forall|a: V, b: V, c: V| #[trigger]
        call_ensures(combine, (a, b), c) ==> measure(c) == measure(a) + measure(b)
    &&& forall|face: u32, v: V| #[trigger]
        call_ensures(angle, (face,), v) ==> measure(v) == weight(face)
}

/// Whether a node stands for its faces only by what they weigh together.
pub open spec fn is_faithful<V, N: Fn(usize) -> Option<V>>(
    nodes: Seq<Node>,
    order: Seq<u32>,
    far: N,
    measure: spec_fn(V) -> int,
    weight: spec_fn(u32) -> int,
) -> bool {
    forall|i: usize, v: V|
        i < nodes.len() && #[trigger] call_ensures(far, (i,), Some(v)) ==> measure(v) == weight_of(
            order,
            weight,
            nodes[i as int].start as int,
            nodes[i as int].start + nodes[i as int].faces,
        )
}

proof fn lemma_run_sum<V, D: Fn(u32) -> V, S: Fn(V, V) -> V>(
    order: Seq<u32>,
    angle: D,
    combine: S,
    zero: V,
    start: int,
    end: int,
    sum: V,
    measure: spec_fn(V) -> int,
    weight: spec_fn(u32) -> int,
)
    requires
        is_measure(angle, combine, zero, measure, weight),
        is_run_sum(order, angle, combine, zero, start, end, sum),
    ensures
        measure(sum) == weight_of(order, weight, start, end),
    decreases end - start,
{
    if start < end {
        let (before, last) = choose|before: V, last: V|
            is_run_sum(order, angle, combine, zero, start, end - 1, before) && call_ensures(
                angle,
                (order[end - 1],),
                last,
            ) && #[trigger] call_ensures(combine, (before, last), sum);
        lemma_run_sum(order, angle, combine, zero, start, end - 1, before, measure, weight);
    }
}

proof fn lemma_wound<V, N: Fn(usize) -> Option<V>, D: Fn(u32) -> V, S: Fn(V, V) -> V>(
    bvh: Bvh,
    far: N,
    angle: D,
    combine: S,
    zero: V,
    i: int,
    start: int,
    end: int,
    sum: V,
    measure: spec_fn(V) -> int,
    weight: spec_fn(u32) -> int,
)
    requires
        start < end,
        bvh.nodes@.len() <= usize::MAX,
        has_shape(bvh.nodes@, i, start, end),
        is_measure(angle, combine, zero, measure, weight),
        is_faithful(bvh.nodes@, bvh.order@, far, measure, weight),
        is_wound(bvh.order@, far, angle, combine, zero, i, start, end, sum),
    ensures
        measure(sum) == weight_of(bvh.order@, weight, start, end),
    decreases end - start,
{
    let faces = end - start;
    let middle = start + faces / 2;
    let order = bvh.order@;
    if !call_ensures(far, (i as usize,), Some(sum)) {
        if faces <= LEAF_SIZE {
            lemma_run_sum(order, angle, combine, zero, start, end, sum, measure, weight);
        } else {
            let next = i + 1 + tree_size((faces / 2) as nat);
            let (left, right) = choose|left: V, right: V|
                is_wound(order, far, angle, combine, zero, i + 1, start, middle, left) && is_wound(
                    order,
                    far,
                    angle,
                    combine,
                    zero,
                    next,
                    middle,
                    end,
                    right,
                ) && #[trigger] call_ensures(combine, (left, right), sum);
            lemma_wound(
                bvh,
                far,
                angle,
                combine,
                zero,
                i + 1,
                start,
                middle,
                left,
                measure,
                weight,
            );
            lemma_wound(bvh, far, angle, combine, zero, next, middle, end, right, measure, weight);
            lemma_weight_splits(order, weight, start, middle, end);
        }
    }
}

/// Every face counts once, however the tree was walked: where contributions
/// add up exactly and a far node stands for just what its faces weigh, the
/// whole is what all the faces weigh together.
pub proof fn law_every_face_counts_once<
    V,
    N: Fn(usize) -> Option<V>,
    D: Fn(u32) -> V,
    S: Fn(V, V) -> V,
>(
    bvh: Bvh,
    far: N,
    angle: D,
    combine: S,
    zero: V,
    sum: V,
    measure: spec_fn(V) -> int,
    weight: spec_fn(u32) -> int,
)
    requires
        bvh.wf(),
        bvh.order@.len() > 0,
        is_measure(angle, combine, zero, measure, weight),
        is_faithful(bvh.nodes@, bvh.order@, far, measure, weight),
        is_wound(bvh.order@, far, angle, combine, zero, 0, 0, bvh.order@.len() as int, sum),
    ensures
        measure(sum) == weight_of(bvh.order@, weight, 0, bvh.order@.len() as int),
{
    assert(bvh.nodes@.len() == bvh.nodes.len());
    lemma_wound(
        bvh,
        far,
        angle,
        combine,
        zero,
        0,
        0,
        bvh.order@.len() as int,
        sum,
        measure,
        weight,
    );
}

} // verus!
