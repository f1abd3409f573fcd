//! In which order the blocks of a stack run, and with what.
use crate::gpu_attention::AttentionPlan;
use crate::gpu_flow::{self, FlowShape};
use crate::gpu_flow_stack::{backward_stages, forward_stages, plan_of};
use crate::gpu_model::{
    block_gradient_steps, block_steps, embed_steps, embedding_gradient_steps,
    final_gradient_steps, final_norm_steps, BlockPlan, FeedForward, StackPlan,
};
use crate::gpu_model_stack::{gradient_stages, hidden_stages, BlockPass};
use crate::gpu_shape::{self, EncodePlan};
use crate::gpu_stack::{encode_gradient_stages, encode_stages, is_stack};
use vstd::prelude::*;

verus! {

/// A model embeds its batch, sends it through its blocks in order, each with a
/// feed-forward of its own, and normalizes what comes out.
pub proof fn law_model_runs_its_blocks_in_order(
    stack: StackPlan,
    attention: AttentionPlan,
    layers: Seq<FeedForward>,
    i: int,
)
    requires
        0 <= i < layers.len(),
    ensures
        ({
            let stages = hidden_stages(stack, attention, layers);
            &&& stages.len() == layers.len() + 2
            &&& stages[0].block is None
            &&& stages[0].steps == embed_steps(stack)
            &&& stages[i + 1].block == Some(i)
            &&& stages[i + 1].steps == block_steps(attention, layers[i])
            &&& stages.last().block is None
            &&& stages.last().steps == final_norm_steps(stack)
        }),
{
}

/// A model is taken back from its last norm through its blocks, the last one
/// first, to its embedding. Each block goes by what its own forward pass kept:
/// its feed-forward, its slots and its shared expert; and its two scales have
/// the two slots after the final one's and those of the blocks before it.
pub proof fn law_model_is_taken_back_in_reverse(
    stack: StackPlan,
    attention: AttentionPlan,
    passes: Seq<BlockPass>,
    i: int,
)
    requires
        0 <= i < passes.len(),
        (1 + 2 * passes.len()) * attention.d_model <= usize::MAX,
    ensures
        ({
            let stages = gradient_stages(stack, attention, passes);
            let stage = stages[passes.len() - i];
            let (d, n) = (attention.d_model as int, passes.len() as int);
            let plan = BlockPlan {
                attention,
                attention_slot: (d + 2 * (i * d)) as usize,
                feed_forward_slot: (d + 2 * (i * d) + d) as usize,
                norms: (d + 2 * (n * d)) as usize,
            };
            &&& stages.len() == n + 2
            &&& stages[0].block is None
            &&& stages[0].steps == final_gradient_steps(stack)
            &&& stage.block == Some(i)
            &&& stage.steps == block_gradient_steps(
                plan,
                passes[i].feed_forward,
                passes[i].grouping.counts@,
                passes[i].shared,
                passes[i].balance,
            )
            &&& stages.last().block is None
            &&& stages.last().steps == embedding_gradient_steps(stack)
            &&& d + 2 * (i * d) + 2 * d <= d + 2 * (n * d)
        }),
{
    let (d, n) = (attention.d_model as int, passes.len() as int);
    assert((1 + 2 * i) * d == d + 2 * (i * d) && (2 + 2 * i) * d == d + 2 * (i * d) + d && (1 + 2
        * n) * d == d + 2 * (n * d) && i * d + d <= n * d) by (nonlinear_arith)
        requires
            0 <= i < n,
            0 <= d,
    ;
    let stages = gradient_stages(stack, attention, passes);
    assert(stages[n - i].block == Some(i));
}

/// A flow runs its blocks in order and is taken back through them in reverse,
/// each with the conditioning that is its own.
pub proof fn law_flow_runs_and_is_taken_back(
    shape: FlowShape,
    blocks: int,
    kv_features: int,
    i: int,
)
    requires
        0 <= i < blocks,
    ensures
        ({
            let ahead = forward_stages(shape, blocks, kv_features);
            let back = backward_stages(shape, blocks, kv_features);
            let plan = plan_of(shape, i, blocks, kv_features);
            &&& ahead.len() == blocks
            &&& back.len() == blocks
            &&& ahead[i].block == Some(i)
            &&& ahead[i].steps == gpu_flow::forward_steps(plan)
            &&& back[blocks - 1 - i].block == Some(i)
            &&& back[blocks - 1 - i].steps == gpu_flow::backward_steps(plan)
        }),
{
}

/// An encoder reads the surface, runs its blocks in order and takes the
/// moments; backwards it goes the other way round, and the scales of a block
/// have the two slots after the last norm's and those of the blocks before it.
pub proof fn law_encoder_runs_and_is_taken_back(plan: EncodePlan, blocks: int, i: int)
    requires
        is_stack(plan, blocks),
        0 <= i < blocks,
    ensures
        ({
            let ahead = encode_stages(plan, blocks);
            let back = encode_gradient_stages(plan, blocks);
            let w = plan.width as int;
            let block = gpu_shape::BlockPlan {
                length: plan.latents,
                sequences: plan.sequences,
                rows: plan.rows,
                width: plan.width,
                hidden: plan.hidden,
                norm0: (w + 2 * (i * w)) as usize,
                norm1: (w + 2 * (i * w) + w) as usize,
                norms: plan.norms,
            };
            &&& ahead.len() == blocks + 2
            &&& back.len() == blocks + 2
            &&& ahead[0].steps == gpu_shape::read_surface_steps(plan)
            &&& ahead[i + 1].block == Some(i)
            &&& ahead[i + 1].steps == gpu_shape::block_steps(block)
            &&& ahead.last().steps == gpu_shape::moments_steps(plan)
            &&& back[0].steps == gpu_shape::moments_gradient_steps(plan)
            &&& back[blocks - i].block == Some(i)
            &&& back[blocks - i].steps == gpu_shape::block_backward_steps(block)
            &&& back.last().steps == gpu_shape::surface_gradient_steps(plan)
        }),
{
    let w = plan.width as int;
    assert(2 * i * w == 2 * (i * w)) by (nonlinear_arith);
    let back = encode_gradient_stages(plan, blocks);
    assert(back[blocks - i].block == Some(i));
}

} // verus!
