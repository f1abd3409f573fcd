//! A whole language model on the device: its stages forwards and backwards.
use crate::batch::TokenBatch;
use crate::device::Step;
use crate::error::{Fault, NetworkError};
use crate::gpu_attention::AttentionPlan;
use crate::gpu_feed_forward::GatedPlan;
use crate::gpu_grouping::Grouping;
use crate::gpu_model::{
    backward_block, block_gradient_steps, block_steps, embed, embed_steps, embedding_gradient,
    embedding_gradient_steps, final_gradient, final_gradient_steps, final_norm, final_norm_steps,
    forward_block, row_flags, stray_id, BlockPlan, FeedForward, Kept, StackPlan,
};
use crate::gpu_moe;
use crate::gpu_stack::{outside, staged, Stage, StageView};
use vstd::prelude::*;

verus! {

/// Whether some block has a feed-forward the device does not run.
pub open spec fn has_gelu(layers: Seq<FeedForward>) -> bool {
    exists|i: int| 0 <= i < layers.len() && #[trigger] layers[i] is Gelu
}

/// The stages of a model: the embedding, the blocks one after another, and the
/// last norm.
pub open spec fn hidden_stages(
    stack: StackPlan,
    attention: AttentionPlan,
    layers: Seq<FeedForward>,
) -> Seq<StageView> {
    seq![outside(embed_steps(stack))] + Seq::new(
        layers.len(),
        |i: int| StageView { block: Some(i), steps: block_steps(attention, layers[i]) },
    ) + seq![outside(final_norm_steps(stack))]
}

/// Why a model cannot run a batch, when it cannot: an id outside the
/// vocabulary, sequences too long for its blocks, or a feed-forward that the
/// device does not run.
pub open spec fn refusal(
    batch: TokenBatch,
    vocab: usize,
    attention: AttentionPlan,
    max_seq_len: usize,
    layers: Seq<FeedForward>,
) -> Option<Fault> {
    let stray = stray_id(batch.ids@, vocab as int, batch.ids@.len() as int);
    if stray is Some {
        Some(Fault::TokenOutOfRange { id: stray->Some_0, vocab_size: vocab })
    } else if layers.len() > 0 && attention.seq_len > max_seq_len {
        Some(Fault::SequenceTooLong { length: attention.seq_len, max_seq_len })
    } else if has_gelu(layers) {
        Some(
            Fault::UnsupportedCuda(
                "the device training path implements SwiGLU feed-forwards and MoE layers, not "@
                    + "a GELU MLP"@ + ""@,
            ),
        )
    } else {
        None
    }
}

/// The stages of a forward pass up to the last norm. A block of experts is
/// routed by its stage; the experts themselves run once the slots are grouped.
pub fn forward_hidden(
    batch: &TokenBatch,
    vocab: usize,
    stack: &StackPlan,
    attention: &AttentionPlan,
    max_seq_len: usize,
    layers: &Vec<FeedForward>,
) -> (stages: Result<Vec<Stage>, NetworkError>)
    requires
        batch.wf(),
    ensures
        match stages {
            Ok(stages) => {
                &&& refusal(*batch, vocab, *attention, max_seq_len, layers@) is None
                &&& staged(stages@) == hidden_stages(*stack, *attention, layers@)
            },
            Err(error) => refusal(*batch, vocab, *attention, max_seq_len, layers@) == Some(error@),
        },
{
    match row_flags(batch, vocab) {
        Ok(_) => {},
        Err(error) => return Err(error),
    }
    let mut stages: Vec<Stage> = Vec::new();
    stages.push(Stage { block: None, steps: embed(stack) });
    let mut index: usize = 0;
    while index < layers.len()
        invariant
            index <= layers@.len(),
            index > 0 ==> attention.seq_len <= max_seq_len,
            stray_id(batch.ids@, vocab as int, batch.ids@.len() as int) is None,
            forall|i: int| 0 <= i < index ==> !(#[trigger] layers@[i] is Gelu),
            stages@.len() == index + 1,
            stages@[0]@ == outside(embed_steps(*stack)),
            forall|i: int|
                0 <= i < index ==> #[trigger] stages@[i + 1]@ == (StageView {
                    block: Some(i),
                    steps: block_steps(*attention, layers@[i]),
                }),
        decreases layers.len() - index,
    {
        let steps = match forward_block(attention, max_seq_len, &layers[index]) {
            Ok(steps) => steps,
            Err(error) => {
                assert(attention.seq_len <= max_seq_len ==> layers@[index as int] is Gelu);
                assert(attention.seq_len <= max_seq_len ==> has_gelu(layers@));
                return Err(error);
            },
        };
        let ghost before = stages@;
        stages.push(Stage { block: Some(index), steps });
        assert forall|i: int| 0 <= i < index + 1 implies #[trigger] stages@[i + 1]@ == (StageView {
            block: Some(i),
            steps: block_steps(*attention, layers@[i]),
        }) by {
            if i < index {
                assert(stages@[i + 1] == before[i + 1]);
            }
        }
        index = index + 1;
    }
    let ghost before = stages@;
    stages.push(Stage { block: None, steps: final_norm(stack) });
    proof {
        let wanted = hidden_stages(*stack, *attention, layers@);
        assert forall|i: int| 0 <= i < wanted.len() implies staged(stages@)[i] == wanted[i] by {
            if 0 < i <= layers@.len() {
                assert(before[(i - 1) + 1] == stages@[i]);
            }
        }
        assert(staged(stages@) =~= wanted);
    }
    Ok(stages)
}

/// What the backward pass of a block needs to know of its forward pass.
#[derive(Debug)]
pub struct BlockPass {
    pub feed_forward: FeedForward,
    pub kept: Kept,
    pub grouping: Grouping,
    pub shared: Option<GatedPlan>,
    pub balance: bool,
}

impl BlockPass {
    /// Whether the slots of a routed block are grouped as its plan says.
    pub open spec fn wf(&self) -> bool {
        match self.feed_forward {
            FeedForward::Moe(moe) => moe.wf() && gpu_moe::is_grouped(moe, self.grouping),
            _ => true,
        }
    }

    /// Why the block cannot be taken back, when it cannot.
    pub open spec fn refusal(&self) -> Option<Fault> {
        match (self.feed_forward, self.kept) {
            (FeedForward::Gelu, _) => Some(
                Fault::UnsupportedCuda(
                    "the device training path implements SwiGLU feed-forwards and MoE layers, not "@
                        + "a GELU MLP"@ + ""@,
                ),
            ),
            (FeedForward::SwiGlu(_), Kept::Dense) => None,
            (FeedForward::Moe(_), Kept::Routed) => None,
            _ => Some(Fault::Cuda("the device cache does not match the layer that produced it"@)),
        }
    }
}

/// The plan of a block of a model.
pub open spec fn block_of(attention: AttentionPlan, index: int, blocks: int) -> BlockPlan {
    BlockPlan {
        attention,
        attention_slot: ((1 + 2 * index) * attention.d_model) as usize,
        feed_forward_slot: ((2 + 2 * index) * attention.d_model) as usize,
        norms: ((1 + 2 * blocks) * attention.d_model) as usize,
    }
}

/// The steps of a block's backward pass.
pub open spec fn pass_steps(attention: AttentionPlan, passes: Seq<BlockPass>, index: int) -> Seq<
    Step,
> {
    let pass = passes[index];
    block_gradient_steps(
        block_of(attention, index, passes.len() as int),
        pass.feed_forward,
        pass.grouping.counts@,
        pass.shared,
        pass.balance,
    )
}

/// The stages of a model's backward pass: the last norm, the blocks from the
/// last to the first, and the embedding.
pub open spec fn gradient_stages(
    stack: StackPlan,
    attention: AttentionPlan,
    passes: Seq<BlockPass>,
) -> Seq<StageView> {
    seq![outside(final_gradient_steps(stack))] + Seq::new(
        passes.len(),
        |i: int|
            StageView {
                block: Some(passes.len() - 1 - i),
                steps: pass_steps(attention, passes, passes.len() - 1 - i),
            },
    ) + seq![outside(embedding_gradient_steps(stack))]
}

/// The refusal of the last block that has one: blocks are taken back from the
/// last to the first.
pub open spec fn last_refusal(passes: Seq<BlockPass>, from: int) -> Option<Fault>
    decreases passes.len() - from,
{
    if from >= passes.len() {
        None
    } else {
        match last_refusal(passes, from + 1) {
            Some(fault) => Some(fault),
            None => passes[from].refusal(),
        }
    }
}

proof fn lemma_refusal_stays(passes: Seq<BlockPass>, from: int, at: int)
    requires
        0 <= from <= at,
        last_refusal(passes, at) is Some,
    ensures
        last_refusal(passes, from) == last_refusal(passes, at),
    decreases at - from,
{
    if from < at {
        lemma_refusal_stays(passes, from + 1, at);
    }
}

/// The stages of a model's backward pass, from the gradient of the last norm's
/// output on.
pub fn backward_from_final(
    stack: &StackPlan,
    attention: &AttentionPlan,
    passes: &Vec<BlockPass>,
) -> (stages: Result<Vec<Stage>, NetworkError>)
    requires
        attention.wf(),
        1 + 2 * passes@.len() <= usize::MAX,
        (1 + 2 * passes@.len()) * attention.d_model <= usize::MAX,
        forall|i: int| 0 <= i < passes@.len() ==> (#[trigger] passes@[i]).wf(),
    ensures
        match stages {
            Ok(stages) => {
                &&& last_refusal(passes@, 0) is None
                &&& staged(stages@) == gradient_stages(*stack, *attention, passes@)
            },
            Err(error) => last_refusal(passes@, 0) == Some(error@),
        },
{
    let blocks: usize = passes.len();
    let mut stages: Vec<Stage> = Vec::new();
    stages.push(Stage { block: None, steps: final_gradient(stack) });
    let mut done: usize = 0;
    while done < blocks
        invariant
            done <= blocks == passes@.len(),
            attention.wf(),
            1 + 2 * blocks <= usize::MAX,
            (1 + 2 * blocks) * attention.d_model <= usize::MAX,
            forall|i: int| 0 <= i < passes@.len() ==> (#[trigger] passes@[i]).wf(),
            last_refusal(passes@, blocks - done) is None,
            stages@.len() == done + 1,
            stages@[0]@ == outside(final_gradient_steps(*stack)),
            forall|i: int|
                0 <= i < done ==> #[trigger] stages@[i + 1]@ == (StageView {
                    block: Some(blocks - 1 - i),
                    steps: pass_steps(*attention, passes@, blocks - 1 - i),
                }),
        decreases blocks - done,
    {
        let index: usize = blocks - 1 - done;
        let pass = &passes[index];
        assert(passes@[index as int].wf());
        let plan = BlockPlan::new(*attention, index, blocks);
        assert(plan == block_of(*attention, index as int, blocks as int));
        let steps = match backward_block(
            &plan,
            &pass.feed_forward,
            pass.kept,
            &pass.grouping,
            &pass.shared,
            pass.balance,
        ) {
            Ok(steps) => steps,
            Err(error) => {
                proof {
                    assert(last_refusal(passes@, index as int) == passes@[index as int].refusal());
                    lemma_refusal_stays(passes@, 0, index as int);
                }
                return Err(error);
            },
        };
        let ghost before = stages@;
        stages.push(Stage { block: Some(index), steps });
        assert forall|i: int| 0 <= i < done + 1 implies #[trigger] stages@[i + 1]@ == (StageView {
            block: Some(blocks - 1 - i),
            steps: pass_steps(*attention, passes@, blocks - 1 - i),
        }) by {
            if i < done {
                assert(stages@[i + 1] == before[i + 1]);
            }
        }
        done = done + 1;
    }
    let ghost before = stages@;
    stages.push(Stage { block: None, steps: embedding_gradient(stack) });
    proof {
        let wanted = gradient_stages(*stack, *attention, passes@);
        assert forall|i: int| 0 <= i < wanted.len() implies staged(stages@)[i] == wanted[i] by {
            if 0 < i <= blocks {
                assert(before[(i - 1) + 1] == stages@[i]);
            }
        }
        assert(staged(stages@) =~= wanted);
    }
    Ok(stages)
}

} // verus!
