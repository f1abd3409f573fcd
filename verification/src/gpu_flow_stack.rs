//! The blocks of a flow on the device, forwards and backwards, and where the
//! gradients of their norms and conditioning come back.
use crate::gpu_flow::{
    backward_steps, block_backward, block_forward, forward_steps, FlowPlan, FlowShape,
};
use crate::gpu_stack::{staged, Stage, StageView};
use vstd::prelude::*;

verus! {

/// Whether every buffer of a stack is short enough to be counted.
pub open spec fn fits(shape: FlowShape, blocks: int, kv_features: int) -> bool {
    &&& shape.latents * shape.sequences <= usize::MAX
    &&& shape.latents * shape.sequences * shape.d_model <= usize::MAX
    &&& shape.sequences * 3 <= usize::MAX
    &&& shape.slab_len() <= usize::MAX
    &&& 3 * blocks <= usize::MAX
    &&& 3 * blocks * shape.slab_len() <= usize::MAX
    &&& 3 * blocks * shape.d_model <= usize::MAX
    &&& shape.sequences * shape.cond_tokens <= usize::MAX
    &&& shape.sequences * shape.cond_tokens * kv_features <= usize::MAX
}

/// The plan of a block of a stack.
pub open spec fn plan_of(shape: FlowShape, index: int, blocks: int, kv_features: int) -> FlowPlan {
    let (slab, width) = (shape.slab_len(), shape.d_model as int);
    let (first, norm_first) = (3 * index * slab, 3 * index * width);
    FlowPlan {
        latents: shape.latents,
        cond_tokens: shape.cond_tokens,
        sequences: shape.sequences,
        rows: (shape.latents * shape.sequences) as usize,
        width: shape.d_model,
        slab: slab as usize,
        at0: first as usize,
        at1: (first + slab) as usize,
        at2: (first + slab + slab) as usize,
        norm0: norm_first as usize,
        norm1: (norm_first + width) as usize,
        norm2: (norm_first + width + width) as usize,
        hidden: (shape.latents * shape.sequences * width) as usize,
        tokens: (shape.sequences * shape.cond_tokens * kv_features) as usize,
        triples: (3 * blocks * slab) as usize,
        norms: (3 * blocks * width) as usize,
    }
}

/// The blocks one after another.
pub open spec fn forward_stages(shape: FlowShape, blocks: int, kv_features: int) -> Seq<StageView> {
    Seq::new(
        blocks as nat,
        |i: int|
            StageView {
                block: Some(i),
                steps: forward_steps(plan_of(shape, i, blocks, kv_features)),
            },
    )
}

/// The blocks from the last to the first.
pub open spec fn backward_stages(shape: FlowShape, blocks: int, kv_features: int) -> Seq<StageView> {
    Seq::new(
        blocks as nat,
        |i: int|
            StageView {
                block: Some(blocks - 1 - i),
                steps: backward_steps(plan_of(shape, blocks - 1 - i, blocks, kv_features)),
            },
    )
}

/// The stages of a flow's forward pass.
pub fn forward_train(shape: &FlowShape, blocks: usize, kv_features: usize) -> (stages: Vec<Stage>)
    requires
        fits(*shape, blocks as int, kv_features as int),
    ensures
        staged(stages@) == forward_stages(*shape, blocks as int, kv_features as int),
{
    let mut stages: Vec<Stage> = Vec::new();
    let ghost wanted = forward_stages(*shape, blocks as int, kv_features as int);
    let mut index: usize = 0;
    assert(staged(stages@) =~= wanted.take(0));
    while index < blocks
        invariant
            index <= blocks,
            fits(*shape, blocks as int, kv_features as int),
            wanted == forward_stages(*shape, blocks as int, kv_features as int),
            staged(stages@) == wanted.take(index as int),
        decreases blocks - index,
    {
        let plan = FlowPlan::new(*shape, index, blocks, kv_features);
        assert(plan == plan_of(*shape, index as int, blocks as int, kv_features as int));
        let ghost before = stages@;
        let stage = Stage { block: Some(index), steps: block_forward(&plan) };
        stages.push(stage);
        assert(staged(stages@) =~= staged(before).push(stage@));
        index = index + 1;
        assert(wanted.take(index as int) =~= wanted.take(index - 1).push(wanted[index - 1]));
    }
    assert(wanted.take(blocks as int) =~= wanted);
    stages
}

/// The stages of a flow's backward pass.
pub fn backward(shape: &FlowShape, blocks: usize, kv_features: usize) -> (stages: Vec<Stage>)
    requires
        fits(*shape, blocks as int, kv_features as int),
    ensures
        staged(stages@) == backward_stages(*shape, blocks as int, kv_features as int),
{
    let mut stages: Vec<Stage> = Vec::new();
    let ghost wanted = backward_stages(*shape, blocks as int, kv_features as int);
    let mut done: usize = 0;
    assert(staged(stages@) =~= wanted.take(0));
    while done < blocks
        invariant
            done <= blocks,
            fits(*shape, blocks as int, kv_features as int),
            wanted == backward_stages(*shape, blocks as int, kv_features as int),
            staged(stages@) == wanted.take(done as int),
        decreases blocks - done,
    {
        let index: usize = blocks - 1 - done;
        let plan = FlowPlan::new(*shape, index, blocks, kv_features);
        assert(plan == plan_of(*shape, index as int, blocks as int, kv_features as int));
        let ghost before = stages@;
        let stage = Stage { block: Some(index), steps: block_backward(&plan) };
        stages.push(stage);
        assert(staged(stages@) =~= staged(before).push(stage@));
        done = done + 1;
        assert(wanted.take(done as int) =~= wanted.take(done - 1).push(wanted[done - 1]));
    }
    assert(wanted.take(blocks as int) =~= wanted);
    stages
}

/// Where the gradients of a sub-layer come back: that of its norm's scale, and
/// that of its conditioning.
#[derive(Clone, Copy, Debug, PartialEq, Eq, Structural)]
pub struct Returned {
    pub block: usize,
    /// The self-attention, the cross-attention or the feed-forward.
    pub sub_layer: usize,
    pub scales_at: usize,
    pub slab_at: usize,
}

/// Where the gradients of sub-layer `k` of a stack come back, counted three to
/// a block.
pub open spec fn returned(shape: FlowShape, k: int) -> Returned {
    Returned {
        block: (k / 3) as usize,
        sub_layer: (k % 3) as usize,
        scales_at: (k * shape.d_model) as usize,
        slab_at: (k * shape.slab_len()) as usize,
    }
}

/// Where the gradients of every sub-layer come back, block by block.
pub fn returned_gradients(shape: &FlowShape, blocks: usize) -> (list: Vec<Returned>)
    requires
        shape.sequences * 3 <= usize::MAX,
        shape.slab_len() <= usize::MAX,
        3 * blocks <= usize::MAX,
        3 * blocks * shape.slab_len() <= usize::MAX,
        3 * blocks * shape.d_model <= usize::MAX,
    ensures
        list@ == Seq::new((3 * blocks) as nat, |k: int| returned(*shape, k)),
{
    let slab: usize = shape.slab();
    let total: usize = 3 * blocks;
    let mut list: Vec<Returned> = Vec::new();
    let mut k: usize = 0;
    while k < total
        invariant
            k <= total == 3 * blocks,
            slab == shape.slab_len(),
            total * shape.slab_len() <= usize::MAX,
            total * shape.d_model <= usize::MAX,
            list@ == Seq::new(k as nat, |k: int| returned(*shape, k)),
        decreases total - k,
    {
        proof {
            let (i, n, a, b) = (k as int, total as int, slab as int, shape.d_model as int);
            assert(0 <= i * a <= n * a && 0 <= i * b <= n * b) by (nonlinear_arith)
                requires
                    0 <= i < n,
                    0 <= a,
                    0 <= b,
            ;
        }
        list.push(
            Returned {
                block: k / 3,
                sub_layer: k % 3,
                scales_at: k * shape.d_model,
                slab_at: k * slab,
            },
        );
        k = k + 1;
        assert(list@ =~= Seq::new(k as nat, |k: int| returned(*shape, k)));
    }
    list
}

/// The gradients of a sub-layer come back where its block wrote them: the
/// places that a block's plan writes to are the ones that are read.
pub proof fn law_gradients_come_back(
    shape: FlowShape,
    index: int,
    blocks: int,
    kv_features: int,
    sub_layer: int,
)
    requires
        fits(shape, blocks, kv_features),
        0 <= index < blocks,
        0 <= sub_layer < 3,
    ensures
        ({
            let plan = plan_of(shape, index, blocks, kv_features);
            let back = returned(shape, 3 * index + sub_layer);
            &&& back.block == index
            &&& back.sub_layer == sub_layer
            &&& back.slab_at == if sub_layer == 0 {
                plan.at0
            } else if sub_layer == 1 {
                plan.at1
            } else {
                plan.at2
            }
            &&& back.scales_at == if sub_layer == 0 {
                plan.norm0
            } else if sub_layer == 1 {
                plan.norm1
            } else {
                plan.norm2
            }
        }),
{
    let (s, w, k) = (shape.slab_len(), shape.d_model as int, 3 * index + sub_layer);
    assert(k * s == 3 * index * s + sub_layer * s && k * w == 3 * index * w + sub_layer * w)
        by (nonlinear_arith)
        requires
            k == 3 * index + sub_layer,
    ;
    assert(k / 3 == index && k % 3 == sub_layer);
}

} // verus!
