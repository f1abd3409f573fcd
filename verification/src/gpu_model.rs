//! A decoder-only language model on the device: what a batch has to be, the
//! steps of its blocks, and the head run one chunk of rows at a time.
use crate::batch::{lemma_sequence_of_row, TokenBatch};
use crate::counting::trues;
use crate::device::{
    add_span, after, after_all, clear, launch, project, project_back, reads1, reads2, reads3,
    reserve, rmsnorm, rmsnorm_backward, row_per_block, runs, sized, span, start_of, tile,
    weight_gradient, writes1, writes2, Buffer, Grid, Kernel, Memory, Step,
};
use crate::error::{invalid_config, Fault, NetworkError};
use crate::gpu_attention;
use crate::gpu_attention::AttentionPlan;
use crate::gpu_feed_forward;
use crate::gpu_feed_forward::GatedPlan;
use crate::gpu_grouping::Grouping;
use crate::gpu_moe;
use crate::gpu_moe::MoePlan;
use crate::gpu_moe_law;
use crate::text::{decimal, with_number, with_text};
use crate::tiles::{
    lemma_concat, lemma_one_more, lemma_project, lemma_project_back, lemma_weight_gradient,
};
use vstd::prelude::*;

verus! {

// -- What has to be on the device ----------------------------------------------

/// A projection's mirror on the device.
pub fn device_of<T>(device: Option<T>) -> (found: Result<T, NetworkError>)
    ensures
        match found {
            Ok(found) => device == Some(found),
            Err(error) => device is None && error@ == Fault::Cuda(
                "a projection is not resident on the device"@,
            ),
        },
{
    match device {
        Some(found) => Ok(found),
        None => Err(
            NetworkError::Cuda("a projection is not resident on the device".to_string()),
        ),
    }
}

/// The embedding table's mirror on the device.
pub fn embedding_of<T>(device: Option<T>) -> (found: Result<T, NetworkError>)
    ensures
        match found {
            Ok(found) => device == Some(found),
            Err(error) => device is None && error@ == Fault::Cuda(
                "the embedding table is not resident on the device"@,
            ),
        },
{
    match device {
        Some(found) => Ok(found),
        None => Err(
            NetworkError::Cuda("the embedding table is not resident on the device".to_string()),
        ),
    }
}

/// The output projection: an untied head, or the embedding table when the
/// weights are tied.
pub fn head_of<T>(head: Option<Option<T>>, embedding: Option<T>) -> (found: Result<T, NetworkError>)
    ensures
        match (head, found) {
            (Some(head), Ok(found)) => head == Some(found),
            (Some(head), Err(error)) => head is None && error@ == Fault::Cuda(
                "a projection is not resident on the device"@,
            ),
            (None, Ok(found)) => embedding == Some(found),
            (None, Err(error)) => embedding is None && error@ == Fault::Cuda(
                "the embedding table is not resident on the device"@,
            ),
        },
{
    match head {
        Some(head) => device_of(head),
        None => embedding_of(embedding),
    }
}

/// A feed-forward the device path has no steps for.
pub fn unsupported(kind: &str) -> (error: NetworkError)
    ensures
        error@ == Fault::UnsupportedCuda(
            "the device training path implements SwiGLU feed-forwards and MoE layers, not "@
                + kind@ + ""@,
        ),
{
    NetworkError::UnsupportedCuda(
        with_text(
            "the device training path implements SwiGLU feed-forwards and MoE layers, not ",
            kind,
            "",
        ),
    )
}

// -- The batch -----------------------------------------------------------------

/// The first of the first `k` ids that is outside the vocabulary.
pub open spec fn stray_id(ids: Seq<u32>, vocab: int, k: int) -> Option<u32>
    decreases k,
{
    if k <= 0 {
        None
    } else {
        match stray_id(ids, vocab, k - 1) {
            Some(id) => Some(id),
            None => if ids[k - 1] >= vocab {
                Some(ids[k - 1])
            } else {
                None
            },
        }
    }
}

proof fn lemma_stray_stays(ids: Seq<u32>, vocab: int, k: int, m: int)
    requires
        k <= m,
        stray_id(ids, vocab, k) is Some,
    ensures
        stray_id(ids, vocab, m) == stray_id(ids, vocab, k),
    decreases m - k,
{
    if k < m {
        lemma_stray_stays(ids, vocab, k, m - 1);
    }
}

/// Which rows of a batch hold a token.
pub open spec fn valid_rows(batch: TokenBatch) -> Seq<bool> {
    Seq::new(batch.ids@.len(), |row: int| !batch.pads(row))
}

/// Which rows of a batch predict the token after them.
pub open spec fn predicting_rows(batch: TokenBatch) -> Seq<bool> {
    Seq::new(batch.ids@.len(), |row: int| batch.predicting(row))
}

/// One flag per row, set where it holds a token, and how many are set. A batch
/// with an id outside the vocabulary is refused.
pub fn row_flags(batch: &TokenBatch, vocab: usize) -> (flags: Result<
    (Vec<i32>, usize),
    NetworkError,
>)
    requires
        batch.wf(),
    ensures
        match flags {
            Ok(flags) => {
                &&& stray_id(batch.ids@, vocab as int, batch.ids@.len() as int) is None
                &&& flags.0@ == valid_rows(*batch).map_values(
                    |valid: bool|
                        if valid {
                            1i32
                        } else {
                            0
                        },
                )
                &&& flags.1 == trues(valid_rows(*batch))
            },
            Err(error) => stray_id(batch.ids@, vocab as int, batch.ids@.len() as int) is Some
                && error@ == (Fault::TokenOutOfRange {
                id: stray_id(batch.ids@, vocab as int, batch.ids@.len() as int)->Some_0,
                vocab_size: vocab,
            }),
        },
{
    let rows: usize = batch.rows();
    let mut row: usize = 0;
    while row < rows
        invariant
            row <= rows == batch.ids@.len(),
            stray_id(batch.ids@, vocab as int, row as int) is None,
        decreases rows - row,
    {
        let id: u32 = batch.ids[row];
        if id as usize >= vocab {
            proof {
                assert(stray_id(batch.ids@, vocab as int, row + 1) == Some(id));
                lemma_stray_stays(batch.ids@, vocab as int, row + 1, rows as int);
            }
            return Err(NetworkError::TokenOutOfRange { id, vocab_size: vocab });
        }
        row = row + 1;
    }
    let mut flags: Vec<i32> = Vec::new();
    let mut count: usize = 0;
    let ghost valid = valid_rows(*batch);
    let ghost wanted = valid.map_values(
        |valid: bool|
            if valid {
                1i32
            } else {
                0
            },
    );
    let mut row: usize = 0;
    assert(valid.take(0) =~= Seq::<bool>::empty());
    while row < rows
        invariant
            row <= rows == batch.ids@.len(),
            batch.wf(),
            valid == valid_rows(*batch),
            wanted == valid.map_values(
                |valid: bool|
                    if valid {
                        1i32
                    } else {
                        0
                    },
            ),
            flags@ == wanted.take(row as int),
            count <= row,
            count == trues(valid.take(row as int)),
        decreases rows - row,
    {
        assert(valid.take(row + 1).drop_last() =~= valid.take(row as int));
        if batch.is_valid(row) {
            flags.push(1);
            count = count + 1;
        } else {
            flags.push(0);
        }
        row = row + 1;
        assert(flags@ =~= wanted.take(row as int));
    }
    assert(flags@ =~= wanted);
    assert(valid.take(rows as int) =~= valid);
    Ok((flags, count))
}

/// Refuses a sequence longer than the rotation tables.
pub fn check_length(seq_len: usize, max_seq_len: usize) -> (checked: Result<(), NetworkError>)
    ensures
        match checked {
            Ok(()) => seq_len <= max_seq_len,
            Err(error) => seq_len > max_seq_len && error@ == (Fault::SequenceTooLong {
                length: seq_len,
                max_seq_len,
            }),
        },
{
    if seq_len > max_seq_len {
        return Err(NetworkError::SequenceTooLong { length: seq_len, max_seq_len });
    }
    Ok(())
}

/// The first target of the first `k` rows that is outside the vocabulary.
pub open spec fn stray_target(batch: TokenBatch, vocab: int, k: int) -> Option<u32>
    decreases k,
{
    if k <= 0 {
        None
    } else {
        match stray_target(batch, vocab, k - 1) {
            Some(id) => Some(id),
            None => if batch.predicting(k - 1) && batch.ids@[k] >= vocab {
                Some(batch.ids@[k])
            } else {
                None
            },
        }
    }
}

proof fn lemma_target_stays(batch: TokenBatch, vocab: int, k: int, m: int)
    requires
        k <= m,
        stray_target(batch, vocab, k) is Some,
    ensures
        stray_target(batch, vocab, m) == stray_target(batch, vocab, k),
    decreases m - k,
{
    if k < m {
        lemma_target_stays(batch, vocab, k, m - 1);
    }
}

/// A row that predicts is followed by a row of the same sequence.
proof fn lemma_next_row(batch: TokenBatch, row: int)
    requires
        batch.wf(),
        0 <= row < batch.ids@.len(),
        batch.predicting(row),
    ensures
        row + 1 < batch.ids@.len(),
        (row + 1) / (batch.seq_len as int) == row / (batch.seq_len as int),
{
    lemma_sequence_of_row(&batch, row);
    let (n, m) = (batch.seq_len as int, batch.lengths@.len() as int);
    let (q, r) = (row / n, row % n);
    assert(0 < batch.lengths@[q] <= batch.seq_len);
    assert(q * n + n <= m * n) by (nonlinear_arith)
        requires
            0 <= q < m,
            0 <= n,
    ;
    vstd::arithmetic::div_mod::lemma_fundamental_div_mod_converse(row + 1, n, q, r + 1);
}

/// Next-token target per row, or -1 where a row predicts nothing: padding, and
/// the last position of every sequence.
pub fn causal_targets(batch: &TokenBatch, vocab: usize) -> (targets: Result<
    Vec<i32>,
    NetworkError,
>)
    requires
        batch.wf(),
        vocab <= i32::MAX,
    ensures
        match targets {
            Ok(targets) => {
                &&& stray_target(*batch, vocab as int, batch.ids@.len() as int) is None
                &&& targets@.len() == batch.ids@.len()
                &&& forall|row: int|
                    0 <= row < targets@.len() ==> #[trigger] targets@[row] == if batch.predicting(
                        row,
                    ) {
                        batch.ids@[row + 1] as int
                    } else {
                        -1
                    }
            },
            Err(error) => {
                let stray = stray_target(*batch, vocab as int, batch.ids@.len() as int);
                stray is Some && error@ == (Fault::TokenOutOfRange {
                    id: stray->Some_0,
                    vocab_size: vocab,
                })
            },
        },
{
    let rows: usize = batch.rows();
    let mut targets: Vec<i32> = Vec::new();
    let mut row: usize = 0;
    while row < rows
        invariant
            row <= rows == batch.ids@.len(),
            batch.wf(),
            vocab <= i32::MAX,
            targets@.len() == row,
            stray_target(*batch, vocab as int, row as int) is None,
            forall|r: int|
                0 <= r < row ==> #[trigger] targets@[r] == if batch.predicting(r) {
                    batch.ids@[r + 1] as int
                } else {
                    -1
                },
        decreases rows - row,
    {
        if batch.predicts(row) {
            proof {
                lemma_next_row(*batch, row as int);
            }
            let id: u32 = batch.ids[row + 1];
            if id as usize >= vocab {
                proof {
                    assert(stray_target(*batch, vocab as int, row + 1) == Some(id));
                    lemma_target_stays(*batch, vocab as int, row + 1, rows as int);
                }
                return Err(NetworkError::TokenOutOfRange { id, vocab_size: vocab });
            }
            targets.push(id as i32);
        } else {
            targets.push(-1);
        }
        row = row + 1;
    }
    Ok(targets)
}

/// What a training step's loss is against, and how many rows it covers. A
/// batch that predicts nothing is refused, and so is a vocabulary whose ids do
/// not fit the device's targets.
pub fn loss_targets(batch: &TokenBatch, vocab: usize) -> (targets: Result<
    (Vec<i32>, usize),
    NetworkError,
>)
    requires
        batch.wf(),
    ensures
        match targets {
            Ok(targets) => {
                &&& targets.1 == trues(predicting_rows(*batch))
                &&& targets.1 > 0
                &&& vocab <= i32::MAX
                &&& stray_target(*batch, vocab as int, batch.ids@.len() as int) is None
                &&& targets.0@.len() == batch.ids@.len()
                &&& forall|row: int|
                    0 <= row < targets.0@.len() ==> #[trigger] targets.0@[row]
                        == if batch.predicting(row) {
                        batch.ids@[row + 1] as int
                    } else {
                        -1
                    }
            },
            Err(error) => {
                let stray = stray_target(*batch, vocab as int, batch.ids@.len() as int);
                if trues(predicting_rows(*batch)) == 0 {
                    error@ == Fault::InvalidConfig(
                        "a causal language-modelling loss needs at least two tokens"@,
                    )
                } else if vocab > i32::MAX {
                    error@ == Fault::InvalidConfig(
                        "the device loss supports vocabularies up to 2147483647, got "@ + decimal(
                            vocab as nat,
                        ) + ""@,
                    )
                } else {
                    stray is Some && error@ == (Fault::TokenOutOfRange {
                        id: stray->Some_0,
                        vocab_size: vocab,
                    })
                }
            },
        },
{
    let predicted: usize = predicted(batch);
    if predicted == 0 {
        return Err(invalid_config("a causal language-modelling loss needs at least two tokens"));
    }
    if vocab > 2147483647 {
        return Err(
            NetworkError::InvalidConfig(
                with_number(
                    "the device loss supports vocabularies up to 2147483647, got ",
                    vocab as u64,
                    "",
                ),
            ),
        );
    }
    match causal_targets(batch, vocab) {
        Ok(targets) => Ok((targets, predicted)),
        Err(error) => Err(error),
    }
}

/// How many rows of a batch predict the token after them.
pub fn predicted(batch: &TokenBatch) -> (count: usize)
    requires
        batch.wf(),
    ensures
        count == trues(predicting_rows(*batch)),
{
    let rows: usize = batch.rows();
    let ghost flags = predicting_rows(*batch);
    let mut count: usize = 0;
    let mut row: usize = 0;
    assert(flags.take(0) =~= Seq::<bool>::empty());
    while row < rows
        invariant
            row <= rows == batch.ids@.len(),
            batch.wf(),
            flags == predicting_rows(*batch),
            count <= row,
            count == trues(flags.take(row as int)),
        decreases rows - row,
    {
        assert(flags.take(row + 1).drop_last() =~= flags.take(row as int));
        if batch.predicts(row) {
            count = count + 1;
        }
        row = row + 1;
    }
    assert(flags.take(rows as int) =~= flags);
    count
}

// -- Blocks --------------------------------------------------------------------

/// What a block's feed-forward is.
#[derive(Clone, Copy, Debug, PartialEq, Eq, Structural)]
pub enum FeedForward {
    SwiGlu(GatedPlan),
    Gelu,
    Moe(MoePlan),
}

/// The steps of a block's forward pass, up to where a routed feed-forward needs
/// the host: the attention, then the feed-forward or its router.
pub open spec fn block_steps(plan: AttentionPlan, feed_forward: FeedForward) -> Seq<Step> {
    gpu_attention::forward_steps(plan) + match feed_forward {
        FeedForward::SwiGlu(gated) => gpu_feed_forward::forward_steps(gated),
        FeedForward::Gelu => Seq::empty(),
        FeedForward::Moe(moe) => gpu_moe::router_steps(moe),
    }
}

/// One decoder block: pre-norm attention, then a pre-norm feed-forward, both
/// residual.
pub fn forward_block(plan: &AttentionPlan, max_seq_len: usize, feed_forward: &FeedForward) -> (steps:
    Result<Vec<Step>, NetworkError>)
    ensures
        match steps {
            Ok(steps) => {
                &&& plan.seq_len <= max_seq_len
                &&& !(feed_forward is Gelu)
                &&& steps@ == block_steps(*plan, *feed_forward)
            },
            Err(error) => if plan.seq_len > max_seq_len {
                error@ == (Fault::SequenceTooLong { length: plan.seq_len, max_seq_len })
            } else {
                feed_forward is Gelu && error@ == Fault::UnsupportedCuda(
                    "the device training path implements SwiGLU feed-forwards and MoE layers, not "@
                        + "a GELU MLP"@ + ""@,
                )
            },
        },
{
    match check_length(plan.seq_len, max_seq_len) {
        Ok(()) => {},
        Err(error) => return Err(error),
    }
    let mut steps = gpu_attention::forward(plan);
    match feed_forward {
        FeedForward::SwiGlu(gated) => {
            let mut next = gpu_feed_forward::forward_swiglu(gated);
            steps.append(&mut next);
        },
        FeedForward::Gelu => return Err(unsupported("a GELU MLP")),
        FeedForward::Moe(moe) => {
            let mut next = gpu_moe::route(moe);
            steps.append(&mut next);
        },
    }
    Ok(steps)
}

/// Slots in the buffer of the scale gradients: the final norm, then two per
/// block.
pub fn norm_slots(blocks: usize) -> (slots: usize)
    requires
        1 + 2 * blocks <= usize::MAX,
    ensures
        slots == 1 + 2 * blocks,
{
    1 + 2 * blocks
}

/// The slots of a block's two norms, attention and feed-forward.
pub fn norm_slot(index: usize) -> (slots: (usize, usize))
    requires
        2 + 2 * index <= usize::MAX,
    ensures
        slots.0 == 1 + 2 * index,
        slots.1 == 2 + 2 * index,
{
    (1 + 2 * index, 2 + 2 * index)
}

/// No two norms share a slot, none takes the final norm's, and all are among
/// the slots there are.
pub proof fn law_norm_slots_are_apart(blocks: int, i: int, j: int)
    requires
        0 <= i < blocks,
        0 <= j < blocks,
    ensures
        0 < 1 + 2 * i < 2 + 2 * i < 1 + 2 * blocks,
        i != j ==> 1 + 2 * i != 1 + 2 * j && 2 + 2 * i != 2 + 2 * j,
        1 + 2 * i != 2 + 2 * j,
{
}

/// A block's backward pass: its attention, and where the gradients of its two
/// norms go.
#[derive(Clone, Copy, Debug, PartialEq, Eq, Structural)]
pub struct BlockPlan {
    pub attention: AttentionPlan,
    pub attention_slot: usize,
    pub feed_forward_slot: usize,
    /// How long the buffer of the scale gradients is.
    pub norms: usize,
}

impl BlockPlan {
    /// Whether the norms' gradients lie inside their buffer.
    pub open spec fn wf(&self) -> bool {
        &&& self.attention.wf()
        &&& self.attention_slot + self.attention.d_model <= self.norms
        &&& self.feed_forward_slot + self.attention.d_model <= self.norms
    }

    /// The plan of a block of a model.
    pub fn new(attention: AttentionPlan, index: usize, blocks: usize) -> (plan: BlockPlan)
        requires
            attention.wf(),
            index < blocks,
            1 + 2 * blocks <= usize::MAX,
            (1 + 2 * blocks) * attention.d_model <= usize::MAX,
        ensures
            plan.wf(),
            plan.attention == attention,
            plan.attention_slot == (1 + 2 * index) * attention.d_model,
            plan.feed_forward_slot == (2 + 2 * index) * attention.d_model,
            plan.norms == (1 + 2 * blocks) * attention.d_model,
    {
        let slots: usize = norm_slots(blocks);
        let (first, second) = norm_slot(index);
        proof {
            let d = attention.d_model as int;
            assert(first * d + d <= slots * d && second * d + d <= slots * d && 0 <= first * d && 0
                <= second * d) by (nonlinear_arith)
                requires
                    0 <= first < second < slots,
                    0 <= d,
            ;
        }
        BlockPlan {
            attention,
            attention_slot: first * attention.d_model,
            feed_forward_slot: second * attention.d_model,
            norms: slots * attention.d_model,
        }
    }
}

/// The gradient of the residual stream between the two halves of a block.
pub open spec fn residual_gradient_steps(plan: BlockPlan) -> Seq<Step> {
    seq![
        reserve(Buffer::GradResidual, plan.attention.hidden),
        rmsnorm_backward(
            Buffer::Residual,
            Buffer::GradFeedForward,
            Buffer::FeedForwardWeight,
            Buffer::FeedForwardInverse,
            Buffer::GradResidual,
            plan.feed_forward_slot,
            plan.attention.rows,
            plan.attention.d_model,
            plan.attention.hidden,
        ),
        add_span(Buffer::GradResidual, Buffer::GradOutput, 0, plan.attention.hidden),
    ]
}

fn residual_gradient(plan: &BlockPlan) -> (steps: Vec<Step>)
    ensures
        steps@ == residual_gradient_steps(*plan),
{
    let steps: Vec<Step> = vec![
        reserve(Buffer::GradResidual, plan.attention.hidden),
        rmsnorm_backward(
            Buffer::Residual,
            Buffer::GradFeedForward,
            Buffer::FeedForwardWeight,
            Buffer::FeedForwardInverse,
            Buffer::GradResidual,
            plan.feed_forward_slot,
            plan.attention.rows,
            plan.attention.d_model,
            plan.attention.hidden,
        ),
        add_span(Buffer::GradResidual, Buffer::GradOutput, 0, plan.attention.hidden),
    ];
    assert(steps@ =~= residual_gradient_steps(*plan));
    steps
}

/// The gradient of a block's input.
pub open spec fn input_gradient_steps(plan: BlockPlan) -> Seq<Step> {
    seq![
        reserve(Buffer::GradInput, plan.attention.hidden),
        rmsnorm_backward(
            Buffer::Input,
            Buffer::GradNormed,
            Buffer::NormWeight,
            Buffer::InverseNorm,
            Buffer::GradInput,
            plan.attention_slot,
            plan.attention.rows,
            plan.attention.d_model,
            plan.attention.hidden,
        ),
        add_span(Buffer::GradInput, Buffer::GradResidual, 0, plan.attention.hidden),
    ]
}

fn input_gradient(plan: &BlockPlan) -> (steps: Vec<Step>)
    ensures
        steps@ == input_gradient_steps(*plan),
{
    let steps: Vec<Step> = vec![
        reserve(Buffer::GradInput, plan.attention.hidden),
        rmsnorm_backward(
            Buffer::Input,
            Buffer::GradNormed,
            Buffer::NormWeight,
            Buffer::InverseNorm,
            Buffer::GradInput,
            plan.attention_slot,
            plan.attention.rows,
            plan.attention.d_model,
            plan.attention.hidden,
        ),
        add_span(Buffer::GradInput, Buffer::GradResidual, 0, plan.attention.hidden),
    ];
    assert(steps@ =~= input_gradient_steps(*plan));
    steps
}

/// What a feed-forward kept of its forward pass.
#[derive(Clone, Copy, Debug, PartialEq, Eq, Structural)]
pub enum Kept {
    Dense,
    Routed,
}

/// The steps of a feed-forward's backward pass, from the reserve of the buffer
/// it leaves its gradient in. A routed one adds to it, so it starts at zero.
pub open spec fn feed_forward_gradient_steps(
    plan: AttentionPlan,
    feed_forward: FeedForward,
    counts: Seq<usize>,
    shared: Option<GatedPlan>,
    balance: bool,
) -> Seq<Step> {
    match feed_forward {
        FeedForward::SwiGlu(gated) => seq![reserve(Buffer::GradFeedForward, plan.hidden)]
            + gpu_feed_forward::backward_steps(gated),
        FeedForward::Gelu => Seq::empty(),
        FeedForward::Moe(moe) => seq![
            reserve(Buffer::GradFeedForward, plan.hidden),
            clear(Buffer::GradFeedForward, plan.hidden),
        ] + gpu_moe::backward_steps(moe, counts, shared, balance),
    }
}

/// The steps of a block's backward pass.
pub open spec fn block_gradient_steps(
    plan: BlockPlan,
    feed_forward: FeedForward,
    counts: Seq<usize>,
    shared: Option<GatedPlan>,
    balance: bool,
) -> Seq<Step> {
    feed_forward_gradient_steps(plan.attention, feed_forward, counts, shared, balance)
        + residual_gradient_steps(plan) + gpu_attention::backward_steps(plan.attention)
        + input_gradient_steps(plan)
}

/// The backward pass of a block. What the forward pass kept has to be of the
/// kind of the feed-forward.
pub fn backward_block(
    plan: &BlockPlan,
    feed_forward: &FeedForward,
    kept: Kept,
    grouping: &Grouping,
    shared: &Option<GatedPlan>,
    balance: bool,
) -> (steps: Result<Vec<Step>, NetworkError>)
    requires
        match *feed_forward {
            FeedForward::Moe(moe) => moe.wf() && gpu_moe::is_grouped(moe, *grouping),
            _ => true,
        },
    ensures
        match steps {
            Ok(steps) => {
                &&& match *feed_forward {
                    FeedForward::SwiGlu(_) => kept == Kept::Dense,
                    FeedForward::Gelu => false,
                    FeedForward::Moe(_) => kept == Kept::Routed,
                }
                &&& steps@ == block_gradient_steps(
                    *plan,
                    *feed_forward,
                    grouping.counts@,
                    *shared,
                    balance,
                )
            },
            Err(error) => match *feed_forward {
                FeedForward::Gelu => error@ == Fault::UnsupportedCuda(
                    "the device training path implements SwiGLU feed-forwards and MoE layers, not "@
                        + "a GELU MLP"@ + ""@,
                ),
                FeedForward::SwiGlu(_) => kept == Kept::Routed && error@ == Fault::Cuda(
                    "the device cache does not match the layer that produced it"@,
                ),
                FeedForward::Moe(_) => kept == Kept::Dense && error@ == Fault::Cuda(
                    "the device cache does not match the layer that produced it"@,
                ),
            },
        },
{
    let mut steps: Vec<Step> = Vec::new();
    match (feed_forward, kept) {
        (FeedForward::SwiGlu(gated), Kept::Dense) => {
            steps.push(reserve(Buffer::GradFeedForward, plan.attention.hidden));
            assert(steps@ =~= seq![reserve(Buffer::GradFeedForward, plan.attention.hidden)]);
            let mut next = gpu_feed_forward::backward_swiglu(gated);
            steps.append(&mut next);
        },
        (FeedForward::Moe(moe), Kept::Routed) => {
            steps.push(reserve(Buffer::GradFeedForward, plan.attention.hidden));
            steps.push(clear(Buffer::GradFeedForward, plan.attention.hidden));
            assert(steps@ =~= seq![
                reserve(Buffer::GradFeedForward, plan.attention.hidden),
                clear(Buffer::GradFeedForward, plan.attention.hidden),
            ]);
            let mut next = gpu_moe::backward_moe(moe, grouping, shared, balance);
            steps.append(&mut next);
        },
        (FeedForward::Gelu, _) => return Err(unsupported("a GELU MLP")),
        _ => return Err(
            NetworkError::Cuda(
                "the device cache does not match the layer that produced it".to_string(),
            ),
        ),
    }
    let mut next = residual_gradient(plan);
    steps.append(&mut next);
    let mut next = gpu_attention::backward_attention(&plan.attention);
    steps.append(&mut next);
    let mut next = input_gradient(plan);
    steps.append(&mut next);
    Ok(steps)
}

// -- The head ------------------------------------------------------------------

/// How many rows of logits to hold at once: so many that they fit a fixed
/// number of bytes, but at least one and no more than there are.
pub fn head_chunk_rows(rows: usize, vocab: usize, logit_bytes: usize) -> (chunk: usize)
    requires
        0 < vocab * logit_bytes <= usize::MAX,
    ensures
        1 <= chunk,
        chunk <= rows || chunk == 1,
        chunk == {
            let most = 268435456int / (vocab * logit_bytes);
            let least = if rows == 0 {
                1
            } else {
                rows as int
            };
            if most < 1 {
                1
            } else if most > least {
                least
            } else {
                most
            }
        },
{
    let bytes: usize = vocab * logit_bytes;
    let most: usize = 268435456usize / bytes;
    let least: usize = if rows == 0 {
        1
    } else {
        rows
    };
    if most < 1 {
        1
    } else if most > least {
        least
    } else {
        most
    }
}

/// The chunks of so many rows, each its first row and its length.
pub open spec fn chunks_from(start: int, rows: int, chunk: int) -> Seq<(usize, usize)>
    decreases rows - start,
{
    if start >= rows || chunk <= 0 {
        Seq::empty()
    } else {
        let count = if chunk < rows - start {
            chunk
        } else {
            rows - start
        };
        seq![(start as usize, count as usize)] + chunks_from(start + count, rows, chunk)
    }
}

/// The chunks of so many rows.
pub fn head_chunks(rows: usize, chunk: usize) -> (chunks: Vec<(usize, usize)>)
    requires
        chunk > 0,
    ensures
        chunks@ == chunks_from(0, rows as int, chunk as int),
{
    let mut chunks: Vec<(usize, usize)> = Vec::new();
    let mut start: usize = 0;
    while start < rows
        invariant
            start <= rows,
            chunk > 0,
            chunks@ + chunks_from(start as int, rows as int, chunk as int) == chunks_from(
                0,
                rows as int,
                chunk as int,
            ),
        decreases rows - start,
    {
        let count: usize = if chunk < rows - start {
            chunk
        } else {
            rows - start
        };
        let ghost before = chunks@;
        chunks.push((start, count));
        assert(chunks@ + chunks_from(start + count, rows as int, chunk as int) =~= before + (seq![
            (start, count),
        ] + chunks_from(start + count, rows as int, chunk as int)));
        start = start + count;
    }
    assert(chunks@ =~= chunks@ + chunks_from(start as int, rows as int, chunk as int));
    chunks
}

/// Every row is in exactly one chunk: the chunks follow one another from the
/// first row to the last, and none is longer than asked for.
pub proof fn law_chunks_cover_rows(start: int, rows: int, chunk: int, i: int)
    requires
        0 <= start <= rows <= usize::MAX,
        0 < chunk,
        0 <= i < chunks_from(start, rows, chunk).len(),
    ensures
        ({
            let chunks = chunks_from(start, rows, chunk);
            &&& 0 < chunks[i].1 <= chunk
            &&& start <= chunks[i].0
            &&& chunks[i].0 + chunks[i].1 <= rows
            &&& i == 0 ==> chunks[i].0 == start
            &&& i + 1 < chunks.len() ==> chunks[i + 1].0 == chunks[i].0 + chunks[i].1
            &&& i + 1 == chunks.len() ==> chunks[i].0 + chunks[i].1 == rows
        }),
    decreases rows - start,
{
    let count = if chunk < rows - start {
        chunk
    } else {
        rows - start
    };
    let rest = chunks_from(start + count, rows, chunk);
    if i > 0 {
        law_chunks_cover_rows(start + count, rows, chunk, i - 1);
        if i < rest.len() {
            law_chunks_cover_rows(start + count, rows, chunk, i);
        }
    } else if rest.len() > 0 {
        law_chunks_cover_rows(start + count, rows, chunk, 0);
    } else {
        assert(start + count >= rows);
    }
}

/// What a training step runs: the targets of its rows, how many of them
/// predict, and the chunks its head is run in.
#[derive(Debug)]
pub struct TrainPlan {
    pub targets: Vec<i32>,
    pub predicted: usize,
    pub chunk: usize,
    pub chunks: Vec<(usize, usize)>,
}

/// Some row of a list that counts to something is set.
proof fn lemma_some_true(list: Seq<bool>)
    requires
        trues(list) > 0,
    ensures
        exists|i: int| 0 <= i < list.len() && #[trigger] list[i],
    decreases list.len(),
{
    if list.last() {
        assert(list[list.len() - 1]);
    } else {
        lemma_some_true(list.drop_last());
        let i = choose|i: int| 0 <= i < list.drop_last().len() && #[trigger] list.drop_last()[i];
        assert(list[i]);
    }
}

proof fn lemma_no_stray(batch: TokenBatch, vocab: int, k: int, row: int)
    requires
        0 <= row < k,
        stray_target(batch, vocab, k) is None,
        batch.predicting(row),
    ensures
        batch.ids@[row + 1] < vocab,
    decreases k,
{
    if row < k - 1 {
        lemma_no_stray(batch, vocab, k - 1, row);
    }
}

/// The plan of a training step. Its logits never leave the device: the head
/// runs one chunk of rows at a time, and capping the chunk instead of the
/// batch is what lets a large batch run at all. A narrow head takes two bytes
/// for a logit, a wide one four.
pub fn train_step(batch: &TokenBatch, vocab: usize, mixed_precision: bool) -> (plan: Result<
    TrainPlan,
    NetworkError,
>)
    requires
        batch.wf(),
        vocab * 4 <= usize::MAX,
    ensures
        match plan {
            Ok(plan) => {
                let bytes = if mixed_precision {
                    2int
                } else {
                    4
                };
                let most = 268435456int / (vocab * bytes);
                let rows = batch.ids@.len() as int;
                &&& plan.predicted == trues(predicting_rows(*batch))
                &&& plan.predicted > 0
                &&& vocab <= i32::MAX
                &&& stray_target(*batch, vocab as int, rows) is None
                &&& plan.targets@.len() == rows
                &&& forall|row: int|
                    0 <= row < rows ==> #[trigger] plan.targets@[row] == if batch.predicting(row) {
                        batch.ids@[row + 1] as int
                    } else {
                        -1
                    }
                &&& plan.chunk == if most < 1 {
                    1
                } else if most > rows {
                    rows
                } else {
                    most
                }
                &&& plan.chunks@ == chunks_from(0, rows, plan.chunk as int)
            },
            Err(error) => {
                let stray = stray_target(*batch, vocab as int, batch.ids@.len() as int);
                if trues(predicting_rows(*batch)) == 0 {
                    error@ == Fault::InvalidConfig(
                        "a causal language-modelling loss needs at least two tokens"@,
                    )
                } else if vocab > i32::MAX {
                    error@ == Fault::InvalidConfig(
                        "the device loss supports vocabularies up to 2147483647, got "@ + decimal(
                            vocab as nat,
                        ) + ""@,
                    )
                } else {
                    stray is Some && error@ == (Fault::TokenOutOfRange {
                        id: stray->Some_0,
                        vocab_size: vocab,
                    })
                }
            },
        },
{
    let (targets, predicted) = match loss_targets(batch, vocab) {
        Ok(found) => found,
        Err(error) => return Err(error),
    };
    proof {
        let flags = predicting_rows(*batch);
        lemma_some_true(flags);
        let row = choose|i: int| 0 <= i < flags.len() && #[trigger] flags[i];
        lemma_no_stray(*batch, vocab as int, batch.ids@.len() as int, row);
    }
    let rows: usize = batch.rows();
    let bytes: usize = if mixed_precision {
        2
    } else {
        4
    };
    assert(0 < vocab * bytes <= vocab * 4) by (nonlinear_arith)
        requires
            0 < vocab,
            0 < bytes <= 4,
    ;
    let chunk: usize = head_chunk_rows(rows, vocab, bytes);
    let chunks = head_chunks(rows, chunk);
    Ok(TrainPlan { targets, predicted, chunk, chunks })
}

/// The sizes of the head over a chunk of rows.
#[derive(Clone, Copy, Debug, PartialEq, Eq, Structural)]
pub struct HeadPlan {
    pub rows: usize,
    pub vocab: usize,
    pub d_model: usize,
    pub start: usize,
    pub count: usize,
    /// Where the chunk starts in the rows of the model.
    pub at: usize,
    /// How long the buffers are.
    pub logits: usize,
    pub stream: usize,
    pub weight: usize,
}

impl HeadPlan {
    /// Whether the sizes go together.
    pub open spec fn wf(&self) -> bool {
        &&& self.start + self.count <= self.rows
        &&& self.at == self.start * self.d_model
        &&& self.logits == self.count * self.vocab
        &&& self.stream == self.rows * self.d_model
        &&& self.weight == self.vocab * self.d_model
    }

    /// The plan of a chunk.
    pub fn new(rows: usize, vocab: usize, d_model: usize, start: usize, count: usize) -> (plan:
        HeadPlan)
        requires
            start + count <= rows,
            count * vocab <= usize::MAX,
            rows * d_model <= usize::MAX,
            vocab * d_model <= usize::MAX,
        ensures
            plan.wf(),
            plan.rows == rows,
            plan.vocab == vocab,
            plan.d_model == d_model,
            plan.start == start,
            plan.count == count,
    {
        assert(0 <= start * d_model <= rows * d_model) by (nonlinear_arith)
            requires
                0 <= start <= rows,
                0 <= d_model,
        ;
        HeadPlan {
            rows,
            vocab,
            d_model,
            start,
            count,
            at: start * d_model,
            logits: count * vocab,
            stream: rows * d_model,
            weight: vocab * d_model,
        }
    }
}

/// The head over a chunk of rows: its logits, turned into their own gradient, and
/// the gradients of its input and weight.
pub open spec fn chunk_steps(plan: HeadPlan) -> Seq<Step> {
    seq![
        reserve(Buffer::Logits, plan.logits),
        project(
            tile(Buffer::FinalOutput, plan.at, plan.d_model),
            tile(Buffer::HeadWeight, 0, plan.d_model),
            tile(Buffer::Logits, 0, plan.vocab),
            plan.count,
            plan.vocab,
            plan.d_model,
            false,
        ),
        launch(
            Kernel::CrossEntropy,
            row_per_block(plan.count),
            sized(plan.count, plan.vocab),
            reads3(
                start_of(Buffer::Logits, plan.logits),
                span(Buffer::Targets, plan.start, plan.count),
                start_of(Buffer::Loss, 1),
            ),
            writes2(start_of(Buffer::Logits, plan.logits), start_of(Buffer::Loss, 1)),
        ),
        project_back(
            tile(Buffer::Logits, 0, plan.vocab),
            tile(Buffer::HeadWeight, 0, plan.d_model),
            tile(Buffer::GradFinal, plan.at, plan.d_model),
            plan.count,
            plan.d_model,
            plan.vocab,
            false,
        ),
        weight_gradient(
            tile(Buffer::Logits, 0, plan.vocab),
            tile(Buffer::FinalOutput, plan.at, plan.d_model),
            tile(Buffer::HeadGrad, 0, plan.d_model),
            plan.vocab,
            plan.d_model,
            plan.count,
            true,
        ),
    ]
}

/// The head over a chunk of rows.
pub fn chunk(plan: &HeadPlan) -> (steps: Vec<Step>)
    ensures
        steps@ == chunk_steps(*plan),
{
    let steps: Vec<Step> = vec![
        reserve(Buffer::Logits, plan.logits),
        project(
            tile(Buffer::FinalOutput, plan.at, plan.d_model),
            tile(Buffer::HeadWeight, 0, plan.d_model),
            tile(Buffer::Logits, 0, plan.vocab),
            plan.count,
            plan.vocab,
            plan.d_model,
            false,
        ),
        launch(
            Kernel::CrossEntropy,
            row_per_block(plan.count),
            sized(plan.count, plan.vocab),
            reads3(
                start_of(Buffer::Logits, plan.logits),
                span(Buffer::Targets, plan.start, plan.count),
                start_of(Buffer::Loss, 1),
            ),
            writes2(start_of(Buffer::Logits, plan.logits), start_of(Buffer::Loss, 1)),
        ),
        project_back(
            tile(Buffer::Logits, 0, plan.vocab),
            tile(Buffer::HeadWeight, 0, plan.d_model),
            tile(Buffer::GradFinal, plan.at, plan.d_model),
            plan.count,
            plan.d_model,
            plan.vocab,
            false,
        ),
        weight_gradient(
            tile(Buffer::Logits, 0, plan.vocab),
            tile(Buffer::FinalOutput, plan.at, plan.d_model),
            tile(Buffer::HeadGrad, 0, plan.d_model),
            plan.vocab,
            plan.d_model,
            plan.count,
            true,
        ),
    ];
    assert(steps@ =~= chunk_steps(*plan));
    steps
}

/// The sizes of the head at a narrower precision: those of a chunk, and of its
/// buffers, which hold a chunk of the given length.
#[derive(Clone, Copy, Debug, PartialEq, Eq, Structural)]
pub struct NarrowPlan {
    pub head: HeadPlan,
    pub chunk: usize,
    /// How long the buffers are, and how much of them this chunk takes.
    pub input: usize,
    pub logits: usize,
    pub count_input: usize,
}

impl NarrowPlan {
    /// Whether the sizes go together.
    pub open spec fn wf(&self) -> bool {
        &&& self.head.wf()
        &&& self.head.count <= self.chunk
        &&& self.input == self.chunk * self.head.d_model
        &&& self.logits == self.chunk * self.head.vocab
        &&& self.count_input == self.head.count * self.head.d_model
    }

    /// The plan of a chunk.
    pub fn new(head: HeadPlan, chunk: usize) -> (plan: NarrowPlan)
        requires
            head.wf(),
            head.count <= chunk,
            chunk * head.d_model <= usize::MAX,
            chunk * head.vocab <= usize::MAX,
        ensures
            plan.wf(),
            plan.head == head,
            plan.chunk == chunk,
    {
        assert(0 <= head.count * head.d_model <= chunk * head.d_model) by (nonlinear_arith)
            requires
                0 <= head.count <= chunk,
                0 <= head.d_model,
        ;
        NarrowPlan {
            head,
            chunk,
            input: chunk * head.d_model,
            logits: chunk * head.vocab,
            count_input: head.count * head.d_model,
        }
    }
}

/// Room for the head at a narrower precision, and its weight, narrowed once.
pub open spec fn narrow_setup_steps(plan: NarrowPlan) -> Seq<Step> {
    seq![
        reserve(Buffer::NarrowWeight, plan.head.weight),
        launch(
            Kernel::Narrow,
            Grid::Elements(plan.head.weight),
            sized(plan.head.vocab, plan.head.d_model),
            reads1(start_of(Buffer::HeadWeight, plan.head.weight)),
            writes1(start_of(Buffer::NarrowWeight, plan.head.weight)),
        ),
        reserve(Buffer::NarrowWeightGrad, plan.head.weight),
        reserve(Buffer::NarrowInput, plan.input),
        reserve(Buffer::NarrowLogits, plan.logits),
        reserve(Buffer::NarrowGradInput, plan.input),
    ]
}

/// What the narrow head needs once a step.
pub fn narrow_setup(plan: &NarrowPlan) -> (steps: Vec<Step>)
    ensures
        steps@ == narrow_setup_steps(*plan),
{
    let steps: Vec<Step> = vec![
        reserve(Buffer::NarrowWeight, plan.head.weight),
        launch(
            Kernel::Narrow,
            Grid::Elements(plan.head.weight),
            sized(plan.head.vocab, plan.head.d_model),
            reads1(start_of(Buffer::HeadWeight, plan.head.weight)),
            writes1(start_of(Buffer::NarrowWeight, plan.head.weight)),
        ),
        reserve(Buffer::NarrowWeightGrad, plan.head.weight),
        reserve(Buffer::NarrowInput, plan.input),
        reserve(Buffer::NarrowLogits, plan.logits),
        reserve(Buffer::NarrowGradInput, plan.input),
    ];
    assert(steps@ =~= narrow_setup_steps(*plan));
    steps
}

/// The narrow head over a chunk of rows. Its weight gradient is widened into the
/// wide one after every chunk rather than added up at its own precision.
pub open spec fn narrow_chunk_steps(plan: NarrowPlan) -> Seq<Step> {
    seq![
        launch(
            Kernel::Narrow,
            Grid::Elements(plan.count_input),
            sized(plan.head.count, plan.head.d_model),
            reads1(span(Buffer::FinalOutput, plan.head.at, plan.count_input)),
            writes1(start_of(Buffer::NarrowInput, plan.count_input)),
        ),
        project(
            tile(Buffer::NarrowInput, 0, plan.head.d_model),
            tile(Buffer::NarrowWeight, 0, plan.head.d_model),
            tile(Buffer::NarrowLogits, 0, plan.head.vocab),
            plan.head.count,
            plan.head.vocab,
            plan.head.d_model,
            false,
        ),
        launch(
            Kernel::CrossEntropy,
            row_per_block(plan.head.count),
            sized(plan.head.count, plan.head.vocab),
            reads3(
                start_of(Buffer::NarrowLogits, plan.head.logits),
                span(Buffer::Targets, plan.head.start, plan.head.count),
                start_of(Buffer::Loss, 1),
            ),
            writes2(start_of(Buffer::NarrowLogits, plan.head.logits), start_of(Buffer::Loss, 1)),
        ),
        project_back(
            tile(Buffer::NarrowLogits, 0, plan.head.vocab),
            tile(Buffer::NarrowWeight, 0, plan.head.d_model),
            tile(Buffer::NarrowGradInput, 0, plan.head.d_model),
            plan.head.count,
            plan.head.d_model,
            plan.head.vocab,
            false,
        ),
        launch(
            Kernel::Widen,
            Grid::Elements(plan.count_input),
            sized(plan.head.count, plan.head.d_model),
            reads1(start_of(Buffer::NarrowGradInput, plan.count_input)),
            writes1(span(Buffer::GradFinal, plan.head.at, plan.count_input)),
        ),
        weight_gradient(
            tile(Buffer::NarrowLogits, 0, plan.head.vocab),
            tile(Buffer::NarrowInput, 0, plan.head.d_model),
            tile(Buffer::NarrowWeightGrad, 0, plan.head.d_model),
            plan.head.vocab,
            plan.head.d_model,
            plan.head.count,
            false,
        ),
        launch(
            Kernel::AddWidened,
            Grid::Elements(plan.head.weight),
            sized(plan.head.vocab, plan.head.d_model),
            reads2(
                start_of(Buffer::NarrowWeightGrad, plan.head.weight),
                start_of(Buffer::HeadGrad, plan.head.weight),
            ),
            writes1(start_of(Buffer::HeadGrad, plan.head.weight)),
        ),
    ]
}

/// The narrow head over a chunk of rows.
pub fn narrow_chunk(plan: &NarrowPlan) -> (steps: Vec<Step>)
    ensures
        steps@ == narrow_chunk_steps(*plan),
{
    let steps: Vec<Step> = vec![
        launch(
            Kernel::Narrow,
            Grid::Elements(plan.count_input),
            sized(plan.head.count, plan.head.d_model),
            reads1(span(Buffer::FinalOutput, plan.head.at, plan.count_input)),
            writes1(start_of(Buffer::NarrowInput, plan.count_input)),
        ),
        project(
            tile(Buffer::NarrowInput, 0, plan.head.d_model),
            tile(Buffer::NarrowWeight, 0, plan.head.d_model),
            tile(Buffer::NarrowLogits, 0, plan.head.vocab),
            plan.head.count,
            plan.head.vocab,
            plan.head.d_model,
            false,
        ),
        launch(
            Kernel::CrossEntropy,
            row_per_block(plan.head.count),
            sized(plan.head.count, plan.head.vocab),
            reads3(
                start_of(Buffer::NarrowLogits, plan.head.logits),
                span(Buffer::Targets, plan.head.start, plan.head.count),
                start_of(Buffer::Loss, 1),
            ),
            writes2(start_of(Buffer::NarrowLogits, plan.head.logits), start_of(Buffer::Loss, 1)),
        ),
        project_back(
            tile(Buffer::NarrowLogits, 0, plan.head.vocab),
            tile(Buffer::NarrowWeight, 0, plan.head.d_model),
            tile(Buffer::NarrowGradInput, 0, plan.head.d_model),
            plan.head.count,
            plan.head.d_model,
            plan.head.vocab,
            false,
        ),
        launch(
            Kernel::Widen,
            Grid::Elements(plan.count_input),
            sized(plan.head.count, plan.head.d_model),
            reads1(start_of(Buffer::NarrowGradInput, plan.count_input)),
            writes1(span(Buffer::GradFinal, plan.head.at, plan.count_input)),
        ),
        weight_gradient(
            tile(Buffer::NarrowLogits, 0, plan.head.vocab),
            tile(Buffer::NarrowInput, 0, plan.head.d_model),
            tile(Buffer::NarrowWeightGrad, 0, plan.head.d_model),
            plan.head.vocab,
            plan.head.d_model,
            plan.head.count,
            false,
        ),
        launch(
            Kernel::AddWidened,
            Grid::Elements(plan.head.weight),
            sized(plan.head.vocab, plan.head.d_model),
            reads2(
                start_of(Buffer::NarrowWeightGrad, plan.head.weight),
                start_of(Buffer::HeadGrad, plan.head.weight),
            ),
            writes1(start_of(Buffer::HeadGrad, plan.head.weight)),
        ),
    ];
    assert(steps@ =~= narrow_chunk_steps(*plan));
    steps
}

// -- The stack -----------------------------------------------------------------

/// The sizes of a model around its blocks.
#[derive(Clone, Copy, Debug, PartialEq, Eq, Structural)]
pub struct StackPlan {
    pub rows: usize,
    pub d_model: usize,
    /// How long the buffers are.
    pub hidden: usize,
    pub table: usize,
    pub norms: usize,
}

impl StackPlan {
    /// Whether the sizes go together.
    pub open spec fn wf(&self) -> bool {
        self.hidden == self.rows * self.d_model && self.d_model <= self.norms
    }

    /// The plan of a model of so many blocks.
    pub fn new(rows: usize, d_model: usize, vocab: usize, blocks: usize) -> (plan: StackPlan)
        requires
            rows * d_model <= usize::MAX,
            vocab * d_model <= usize::MAX,
            1 + 2 * blocks <= usize::MAX,
            (1 + 2 * blocks) * d_model <= usize::MAX,
        ensures
            plan.wf(),
            plan.rows == rows,
            plan.d_model == d_model,
            plan.table == vocab * d_model,
            plan.norms == (1 + 2 * blocks) * d_model,
    {
        assert(d_model <= (1 + 2 * blocks) * d_model) by (nonlinear_arith)
            requires
                0 <= blocks,
                0 <= d_model,
        ;
        StackPlan {
            rows,
            d_model,
            hidden: rows * d_model,
            table: vocab * d_model,
            norms: norm_slots(blocks) * d_model,
        }
    }
}

/// The rows of the embedding table that a batch names.
pub open spec fn embed_steps(plan: StackPlan) -> Seq<Step> {
    seq![
        reserve(Buffer::Input, plan.hidden),
        launch(
            Kernel::Gather,
            Grid::Elements(plan.hidden),
            sized(plan.rows, plan.d_model),
            reads2(start_of(Buffer::Table, plan.table), start_of(Buffer::Ids, plan.rows)),
            writes1(start_of(Buffer::Input, plan.hidden)),
        ),
    ]
}

/// The embedding of a batch.
pub fn embed(plan: &StackPlan) -> (steps: Vec<Step>)
    ensures
        steps@ == embed_steps(*plan),
{
    let steps: Vec<Step> = vec![
        reserve(Buffer::Input, plan.hidden),
        launch(
            Kernel::Gather,
            Grid::Elements(plan.hidden),
            sized(plan.rows, plan.d_model),
            reads2(start_of(Buffer::Table, plan.table), start_of(Buffer::Ids, plan.rows)),
            writes1(start_of(Buffer::Input, plan.hidden)),
        ),
    ];
    assert(steps@ =~= embed_steps(*plan));
    steps
}

/// The final normalization.
pub open spec fn final_norm_steps(plan: StackPlan) -> Seq<Step> {
    seq![
        reserve(Buffer::FinalOutput, plan.hidden),
        reserve(Buffer::FinalInverse, plan.rows),
        rmsnorm(
            Buffer::FinalInput,
            Buffer::FinalWeight,
            Buffer::FinalOutput,
            Buffer::FinalInverse,
            plan.rows,
            plan.d_model,
            plan.hidden,
        ),
    ]
}

/// The final normalization.
pub fn final_norm(plan: &StackPlan) -> (steps: Vec<Step>)
    ensures
        steps@ == final_norm_steps(*plan),
{
    let steps: Vec<Step> = vec![
        reserve(Buffer::FinalOutput, plan.hidden),
        reserve(Buffer::FinalInverse, plan.rows),
        rmsnorm(
            Buffer::FinalInput,
            Buffer::FinalWeight,
            Buffer::FinalOutput,
            Buffer::FinalInverse,
            plan.rows,
            plan.d_model,
            plan.hidden,
        ),
    ];
    assert(steps@ =~= final_norm_steps(*plan));
    steps
}

/// Room for the gradients of all scales, and the gradient of the final
/// normalization, whose own slot is the first.
pub open spec fn final_gradient_steps(plan: StackPlan) -> Seq<Step> {
    seq![
        reserve(Buffer::GradNorms, plan.norms),
        clear(Buffer::GradNorms, plan.norms),
        reserve(Buffer::GradOutput, plan.hidden),
        rmsnorm_backward(
            Buffer::FinalInput,
            Buffer::GradFinal,
            Buffer::FinalWeight,
            Buffer::FinalInverse,
            Buffer::GradOutput,
            0,
            plan.rows,
            plan.d_model,
            plan.hidden,
        ),
    ]
}

/// The gradient of the final normalization.
pub fn final_gradient(plan: &StackPlan) -> (steps: Vec<Step>)
    ensures
        steps@ == final_gradient_steps(*plan),
{
    let steps: Vec<Step> = vec![
        reserve(Buffer::GradNorms, plan.norms),
        clear(Buffer::GradNorms, plan.norms),
        reserve(Buffer::GradOutput, plan.hidden),
        rmsnorm_backward(
            Buffer::FinalInput,
            Buffer::GradFinal,
            Buffer::FinalWeight,
            Buffer::FinalInverse,
            Buffer::GradOutput,
            0,
            plan.rows,
            plan.d_model,
            plan.hidden,
        ),
    ];
    assert(steps@ =~= final_gradient_steps(*plan));
    steps
}

/// The gradient of the embedding table, which is added to.
pub open spec fn embedding_gradient_steps(plan: StackPlan) -> Seq<Step> {
    seq![
        launch(
            Kernel::ScatterNegated,
            Grid::Elements(plan.hidden),
            sized(plan.rows, plan.d_model),
            reads3(
                start_of(Buffer::GradInput, plan.hidden),
                start_of(Buffer::Ids, plan.rows),
                start_of(Buffer::TableGrad, plan.table),
            ),
            writes1(start_of(Buffer::TableGrad, plan.table)),
        ),
    ]
}

/// The gradient of the embedding table.
pub fn embedding_gradient(plan: &StackPlan) -> (steps: Vec<Step>)
    ensures
        steps@ == embedding_gradient_steps(*plan),
{
    let steps: Vec<Step> = vec![
        launch(
            Kernel::ScatterNegated,
            Grid::Elements(plan.hidden),
            sized(plan.rows, plan.d_model),
            reads3(
                start_of(Buffer::GradInput, plan.hidden),
                start_of(Buffer::Ids, plan.rows),
                start_of(Buffer::TableGrad, plan.table),
            ),
            writes1(start_of(Buffer::TableGrad, plan.table)),
        ),
    ];
    assert(steps@ =~= embedding_gradient_steps(*plan));
    steps
}

/// The gradient that a host loss hands the head, refused where it is not one
/// row per row of the batch.
pub fn check_rows(rows: usize, gradient_rows: usize) -> (checked: Result<(), NetworkError>)
    ensures
        match checked {
            Ok(()) => gradient_rows == rows,
            Err(error) => gradient_rows != rows && error@ == (Fault::InvalidInput {
                expected: rows,
                actual: gradient_rows,
            }),
        },
{
    if gradient_rows != rows {
        return Err(NetworkError::InvalidInput { expected: rows, actual: gradient_rows });
    }
    Ok(())
}

// -- Laws ----------------------------------------------------------------------

/// A chunk of the head never leaves its buffers and reads only what was
/// written.
pub proof fn law_chunk_runs(plan: HeadPlan, memory: Memory)
    requires
        plan.wf(),
        memory.holds(Buffer::FinalOutput, plan.stream as int),
        memory.holds(Buffer::GradFinal, plan.stream as int),
        memory.holds(Buffer::HeadWeight, plan.weight as int),
        memory.holds(Buffer::HeadGrad, plan.weight as int),
        memory.holds(Buffer::Targets, plan.rows as int),
        memory.holds(Buffer::Loss, 1),
    ensures
        runs(memory, chunk_steps(plan)),
{
    let steps = chunk_steps(plan);
    let m0 = memory;
    let (s, c, n, d) = (
        plan.start as int,
        plan.count as int,
        plan.rows as int,
        plan.d_model as int,
    );
    assert(s * d + c * d <= n * d) by (nonlinear_arith)
        requires
            s + c <= n,
            0 <= d,
    ;
    lemma_one_more(m0, steps, 0, m0);
    let m1 = after(m0, steps[0]);
    lemma_project(
        m1,
        tile(Buffer::FinalOutput, plan.at, plan.d_model),
        tile(Buffer::HeadWeight, 0, plan.d_model),
        tile(Buffer::Logits, 0, plan.vocab),
        plan.count,
        plan.vocab,
        plan.d_model,
        false,
    );
    lemma_one_more(m0, steps, 1, m1);
    let m2 = after(m1, steps[1]);
    lemma_one_more(m0, steps, 2, m2);
    let m3 = after(m2, steps[2]);
    lemma_project_back(
        m3,
        tile(Buffer::Logits, 0, plan.vocab),
        tile(Buffer::HeadWeight, 0, plan.d_model),
        tile(Buffer::GradFinal, plan.at, plan.d_model),
        plan.count,
        plan.d_model,
        plan.vocab,
        false,
    );
    lemma_one_more(m0, steps, 3, m3);
    let m4 = after(m3, steps[3]);
    lemma_weight_gradient(
        m4,
        tile(Buffer::Logits, 0, plan.vocab),
        tile(Buffer::FinalOutput, plan.at, plan.d_model),
        tile(Buffer::HeadGrad, 0, plan.d_model),
        plan.vocab,
        plan.d_model,
        plan.count,
        true,
    );
    lemma_one_more(m0, steps, 4, m4);
    let m5 = after(m4, steps[4]);
}

/// Whether what a block's backward pass reads of its forward pass is there.
pub open spec fn block_ready(plan: BlockPlan, memory: Memory) -> bool {
    &&& gpu_attention::is_cached(plan.attention, memory)
    &&& gpu_attention::has_gradients(plan.attention, memory)
    &&& memory.holds(Buffer::Input, plan.attention.hidden as int)
    &&& memory.holds(Buffer::NormWeight, plan.attention.d_model as int)
    &&& memory.holds(Buffer::Residual, plan.attention.hidden as int)
    &&& memory.holds(Buffer::FeedForwardWeight, plan.attention.d_model as int)
    &&& memory.holds(Buffer::FeedForwardInverse, plan.attention.rows as int)
    &&& memory.holds(Buffer::GradOutput, plan.attention.hidden as int)
    &&& memory.holds(Buffer::GradNorms, plan.norms as int)
}

/// Whether what the narrow head reads is there, and its own buffers are either
/// written in full or about to be.
pub open spec fn narrow_ready(plan: NarrowPlan, memory: Memory) -> bool {
    let full = plan.head.count == plan.chunk;
    &&& memory.holds(Buffer::FinalOutput, plan.head.stream as int)
    &&& memory.holds(Buffer::GradFinal, plan.head.stream as int)
    &&& memory.holds(Buffer::HeadGrad, plan.head.weight as int)
    &&& memory.holds(Buffer::Targets, plan.head.rows as int)
    &&& memory.holds(Buffer::Loss, 1)
    &&& memory.holds(Buffer::NarrowWeight, plan.head.weight as int)
    &&& memory.lens.dom().contains(Buffer::NarrowWeightGrad)
    &&& memory.lens[Buffer::NarrowWeightGrad] == plan.head.weight
    &&& memory.lens.dom().contains(Buffer::NarrowInput)
    &&& memory.lens[Buffer::NarrowInput] == plan.input
    &&& memory.lens.dom().contains(Buffer::NarrowLogits)
    &&& memory.lens[Buffer::NarrowLogits] == plan.logits
    &&& memory.lens.dom().contains(Buffer::NarrowGradInput)
    &&& memory.lens[Buffer::NarrowGradInput] == plan.input
    &&& full || memory.full.contains(Buffer::NarrowInput)
    &&& full || memory.full.contains(Buffer::NarrowLogits)
    &&& full || memory.full.contains(Buffer::NarrowGradInput)
}

proof fn lemma_chunk_inside(plan: NarrowPlan)
    requires
        plan.wf(),
    ensures
        plan.head.at + plan.count_input <= plan.head.stream,
        plan.count_input <= plan.input,
        plan.head.logits <= plan.logits,
{
    let (s, c, n, k, d, v) = (
        plan.head.start as int,
        plan.head.count as int,
        plan.head.rows as int,
        plan.chunk as int,
        plan.head.d_model as int,
        plan.head.vocab as int,
    );
    assert(s * d + c * d <= n * d && c * d <= k * d && c * v <= k * v) by (nonlinear_arith)
        requires
            s + c <= n,
            0 <= c <= k,
            0 <= d,
            0 <= v,
    ;
}

/// The embedding stays inside its buffers and leaves what the first block reads.
pub proof fn law_embed_runs(plan: StackPlan, memory: Memory)
    requires
        plan.wf(),
        memory.holds(Buffer::Table, plan.table as int),
        memory.holds(Buffer::Ids, plan.rows as int),
    ensures
        runs(memory, embed_steps(plan)),
        after_all(memory, embed_steps(plan)).holds(Buffer::Input, plan.hidden as int),
{
    let steps = embed_steps(plan);
    let m0 = memory;
    lemma_one_more(m0, steps, 0, m0);
    let m1 = after(m0, steps[0]);
    lemma_one_more(m0, steps, 1, m1);
    let m2 = after(m1, steps[1]);
}

/// The final normalization stays inside its buffers and leaves what the head
/// reads.
pub proof fn law_final_norm_runs(plan: StackPlan, memory: Memory)
    requires
        plan.wf(),
        memory.holds(Buffer::FinalInput, plan.hidden as int),
        memory.holds(Buffer::FinalWeight, plan.d_model as int),
    ensures
        runs(memory, final_norm_steps(plan)),
        after_all(memory, final_norm_steps(plan)).holds(Buffer::FinalOutput, plan.hidden as int),
        after_all(memory, final_norm_steps(plan)).holds(Buffer::FinalInverse, plan.rows as int),
{
    let steps = final_norm_steps(plan);
    let m0 = memory;
    lemma_one_more(m0, steps, 0, m0);
    let m1 = after(m0, steps[0]);
    lemma_one_more(m0, steps, 1, m1);
    let m2 = after(m1, steps[1]);
    lemma_one_more(m0, steps, 2, m2);
    let m3 = after(m2, steps[2]);
}

/// The gradient of the final normalization stays inside its buffers and leaves
/// what the last block's backward pass reads.
pub proof fn law_final_gradient_runs(plan: StackPlan, memory: Memory)
    requires
        plan.wf(),
        memory.holds(Buffer::FinalInput, plan.hidden as int),
        memory.holds(Buffer::GradFinal, plan.hidden as int),
        memory.holds(Buffer::FinalWeight, plan.d_model as int),
        memory.holds(Buffer::FinalInverse, plan.rows as int),
    ensures
        runs(memory, final_gradient_steps(plan)),
        after_all(memory, final_gradient_steps(plan)).holds(Buffer::GradOutput, plan.hidden as int),
        after_all(memory, final_gradient_steps(plan)).holds(Buffer::GradNorms, plan.norms as int),
{
    let steps = final_gradient_steps(plan);
    let m0 = memory;
    lemma_one_more(m0, steps, 0, m0);
    let m1 = after(m0, steps[0]);
    lemma_one_more(m0, steps, 1, m1);
    let m2 = after(m1, steps[1]);
    lemma_one_more(m0, steps, 2, m2);
    let m3 = after(m2, steps[2]);
    lemma_one_more(m0, steps, 3, m3);
    let m4 = after(m3, steps[3]);
}

/// A chunk of the narrow head stays inside its buffers and reads only what was
/// written: a full chunk fills them, and a shorter one comes after a full one.
pub proof fn law_narrow_chunk_runs(plan: NarrowPlan, memory: Memory)
    requires
        plan.wf(),
        narrow_ready(plan, memory),
    ensures
        runs(memory, narrow_chunk_steps(plan)),
        narrow_ready(plan, after_all(memory, narrow_chunk_steps(plan))),
        after_all(memory, narrow_chunk_steps(plan)).holds(Buffer::NarrowInput, plan.input as int),
        after_all(memory, narrow_chunk_steps(plan)).holds(Buffer::NarrowLogits, plan.logits as int),
        after_all(memory, narrow_chunk_steps(plan)).holds(Buffer::NarrowGradInput, plan.input as int),
{
    let steps = narrow_chunk_steps(plan);
    let m0 = memory;
    lemma_chunk_inside(plan);
    lemma_one_more(m0, steps, 0, m0);
    let m1 = after(m0, steps[0]);
    lemma_project(
        m1,
        tile(Buffer::NarrowInput, 0, plan.head.d_model),
        tile(Buffer::NarrowWeight, 0, plan.head.d_model),
        tile(Buffer::NarrowLogits, 0, plan.head.vocab),
        plan.head.count,
        plan.head.vocab,
        plan.head.d_model,
        false,
    );
    lemma_one_more(m0, steps, 1, m1);
    let m2 = after(m1, steps[1]);
    lemma_one_more(m0, steps, 2, m2);
    let m3 = after(m2, steps[2]);
    lemma_project_back(
        m3,
        tile(Buffer::NarrowLogits, 0, plan.head.vocab),
        tile(Buffer::NarrowWeight, 0, plan.head.d_model),
        tile(Buffer::NarrowGradInput, 0, plan.head.d_model),
        plan.head.count,
        plan.head.d_model,
        plan.head.vocab,
        false,
    );
    lemma_one_more(m0, steps, 3, m3);
    let m4 = after(m3, steps[3]);
    lemma_one_more(m0, steps, 4, m4);
    let m5 = after(m4, steps[4]);
    lemma_weight_gradient(
        m5,
        tile(Buffer::NarrowLogits, 0, plan.head.vocab),
        tile(Buffer::NarrowInput, 0, plan.head.d_model),
        tile(Buffer::NarrowWeightGrad, 0, plan.head.d_model),
        plan.head.vocab,
        plan.head.d_model,
        plan.head.count,
        false,
    );
    lemma_one_more(m0, steps, 5, m5);
    let m6 = after(m5, steps[5]);
    lemma_one_more(m0, steps, 6, m6);
    let m7 = after(m6, steps[6]);
}

proof fn lemma_residual_gradient(plan: BlockPlan, memory: Memory)
    requires
        plan.wf(),
        block_ready(plan, memory),
        memory.holds(Buffer::GradFeedForward, plan.attention.hidden as int),
    ensures
        runs(memory, residual_gradient_steps(plan)),
        block_ready(plan, after_all(memory, residual_gradient_steps(plan))),
        gpu_attention::is_cached(plan.attention, after_all(memory, residual_gradient_steps(plan))),
        gpu_attention::has_gradients(plan.attention, after_all(memory, residual_gradient_steps(plan))),
        after_all(memory, residual_gradient_steps(plan)).holds(Buffer::GradResidual, plan.attention.hidden as int),
{
    let steps = residual_gradient_steps(plan);
    let m0 = memory;
    lemma_one_more(m0, steps, 0, m0);
    let m1 = after(m0, steps[0]);
    lemma_one_more(m0, steps, 1, m1);
    let m2 = after(m1, steps[1]);
    lemma_one_more(m0, steps, 2, m2);
    let m3 = after(m2, steps[2]);
}

proof fn lemma_input_gradient(plan: BlockPlan, memory: Memory)
    requires
        plan.wf(),
        block_ready(plan, memory),
        memory.holds(Buffer::GradResidual, plan.attention.hidden as int),
        memory.holds(Buffer::GradNormed, plan.attention.hidden as int),
    ensures
        runs(memory, input_gradient_steps(plan)),
        after_all(memory, input_gradient_steps(plan)).holds(Buffer::GradInput, plan.attention.hidden as int),
        after_all(memory, input_gradient_steps(plan)).holds(Buffer::GradNorms, plan.norms as int),
{
    let steps = input_gradient_steps(plan);
    let m0 = memory;
    lemma_one_more(m0, steps, 0, m0);
    let m1 = after(m0, steps[0]);
    lemma_one_more(m0, steps, 1, m1);
    let m2 = after(m1, steps[1]);
    lemma_one_more(m0, steps, 2, m2);
    let m3 = after(m2, steps[2]);
}

/// What a block's backward pass does once its feed-forward's is done never
/// leaves its buffers and reads only what was written; it leaves the gradient
/// of the block's input.
pub proof fn law_block_gradient_runs(plan: BlockPlan, memory: Memory)
    requires
        plan.wf(),
        block_ready(plan, memory),
        memory.holds(Buffer::GradFeedForward, plan.attention.hidden as int),
    ensures
        ({
            let steps = residual_gradient_steps(plan) + gpu_attention::backward_steps(
                plan.attention,
            ) + input_gradient_steps(plan);
            &&& runs(memory, steps)
            &&& after_all(memory, steps).holds(Buffer::GradInput, plan.attention.hidden as int)
        }),
{
    let s1 = residual_gradient_steps(plan);
    lemma_residual_gradient(plan, memory);
    let m1 = after_all(memory, s1);
    let s2 = gpu_attention::backward_steps(plan.attention);
    gpu_attention::law_backward_runs(plan.attention, m1);
    lemma_concat(memory, s1, s2);
    let m2 = after_all(m1, s2);
    let s3 = input_gradient_steps(plan);
    lemma_input_gradient(plan, m2);
    lemma_concat(memory, s1 + s2, s3);
}

/// A block's forward pass never leaves its buffers and reads only what was
/// written, with either feed-forward.
pub proof fn law_block_runs(plan: AttentionPlan, feed_forward: FeedForward, memory: Memory)
    requires
        plan.wf(),
        gpu_attention::forward_ready(plan, memory),
        match feed_forward {
            FeedForward::SwiGlu(gated) => {
                &&& gated.wf()
                &&& gated.stream == plan.hidden
                &&& gated.input == Buffer::FeedForwardNormed
                &&& gated.output == Buffer::Output
                &&& gpu_feed_forward::has_weights(gated, memory)
            },
            FeedForward::Gelu => true,
            FeedForward::Moe(moe) => {
                &&& moe.wf()
                &&& moe.stream == plan.hidden
                &&& memory.holds(Buffer::RouterWeight, moe.router_weight as int)
                &&& memory.holds(Buffer::Valid, moe.rows as int)
            },
        },
    ensures
        runs(memory, block_steps(plan, feed_forward)),
{
    let first = gpu_attention::forward_steps(plan);
    gpu_attention::law_forward_runs(plan, memory);
    let middle = after_all(memory, first);
    match feed_forward {
        FeedForward::SwiGlu(gated) => {
            gpu_feed_forward::law_forward_runs(gated, middle);
            lemma_concat(memory, first, gpu_feed_forward::forward_steps(gated));
        },
        FeedForward::Gelu => {
            assert(first + Seq::<Step>::empty() =~= first);
        },
        FeedForward::Moe(moe) => {
            gpu_moe_law::law_router_runs(moe, middle);
            lemma_concat(memory, first, gpu_moe::router_steps(moe));
        },
    }
}

} // verus!
