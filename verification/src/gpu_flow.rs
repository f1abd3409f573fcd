//! The blocks of a flow transformer on the device: self-attention over the
//! latent slots, cross-attention to the conditioning tokens and a gated
//! feed-forward, each wrapped in an adaptive normalization.
//!
//! The conditioning of every sub-layer is one buffer, a slab per sub-layer; so
//! are its gradients, and the gradients of the normalizations' scales.
use crate::device::{
    add_span, after, after_all, attention_sizes, clear, launch, reads1, reads2, reads3, reads4,
    reserve, rmsnorm, rmsnorm_backward_residual, runs, sized, span, start_of, writes1, writes2,
    Buffer, Grid, Kernel, Memory, Sizes, Step,
};
use crate::masked_lm::copy_of;
use crate::matrix::{lemma_entry, Matrix};
use crate::mixing::is_added;
use crate::tiles::{lemma_concat, lemma_kept, lemma_one_more};
use vstd::prelude::*;

verus! {

/// How one call's activations are grouped.
#[derive(Clone, Copy, Debug, PartialEq, Eq, Structural)]
pub struct FlowShape {
    /// Latent slots per sequence, which is also the self-attention length.
    pub latents: usize,
    /// Conditioning tokens per sequence.
    pub cond_tokens: usize,
    pub sequences: usize,
    pub d_model: usize,
}

impl FlowShape {
    /// One sub-layer's slice of the conditioning buffer.
    pub open spec fn slab_len(&self) -> int {
        self.sequences * 3 * self.d_model
    }

    pub fn rows(&self) -> (rows: usize)
        requires
            self.latents * self.sequences <= usize::MAX,
        ensures
            rows == self.latents * self.sequences,
    {
        self.latents * self.sequences
    }

    /// One sub-layer's slice of the conditioning buffer.
    pub fn slab(&self) -> (slab: usize)
        requires
            self.sequences * 3 <= usize::MAX,
            self.slab_len() <= usize::MAX,
        ensures
            slab == self.slab_len(),
    {
        self.sequences * 3 * self.d_model
    }

    /// Where a block starts in the conditioning buffer and in that of the
    /// scale gradients. Three sub-layers each, in the order self, cross, MLP.
    pub fn conditioning_at(&self, index: usize) -> (at: (usize, usize))
        requires
            self.sequences * 3 <= usize::MAX,
            self.slab_len() <= usize::MAX,
            3 * index <= usize::MAX,
            3 * index * self.slab_len() <= usize::MAX,
            3 * index * self.d_model <= usize::MAX,
        ensures
            at.0 == 3 * index * self.slab_len(),
            at.1 == 3 * index * self.d_model,
    {
        (3 * index * self.slab(), 3 * index * self.d_model)
    }

    /// How long those two buffers are for a stack of blocks.
    pub fn conditioning_len(&self, blocks: usize) -> (len: (usize, usize))
        requires
            self.sequences * 3 <= usize::MAX,
            self.slab_len() <= usize::MAX,
            3 * blocks <= usize::MAX,
            3 * blocks * self.slab_len() <= usize::MAX,
            3 * blocks * self.d_model <= usize::MAX,
        ensures
            len.0 == 3 * blocks * self.slab_len(),
            len.1 == 3 * blocks * self.d_model,
    {
        (3 * blocks * self.slab(), 3 * blocks * self.d_model)
    }
}

/// The slabs of the blocks lie one after another inside the buffer, and no two
/// share an entry.
pub proof fn law_conditioning_is_apart(size: int, blocks: int, i: int, j: int)
    requires
        0 <= size,
        0 <= i < j < blocks,
    ensures
        0 <= 3 * i * size,
        3 * i * size + 3 * size <= 3 * j * size,
        3 * j * size + 3 * size <= 3 * blocks * size,
{
    assert(0 <= 3 * i * size && 3 * i * size + 3 * size <= 3 * j * size && 3 * j * size + 3 * size
        <= 3 * blocks * size) by (nonlinear_arith)
        requires
            0 <= size,
            0 <= i < j < blocks,
    ;
}

/// The sizes of a block's passes.
#[derive(Clone, Copy, Debug, PartialEq, Eq, Structural)]
pub struct FlowPlan {
    pub latents: usize,
    pub cond_tokens: usize,
    pub sequences: usize,
    pub rows: usize,
    pub width: usize,
    pub slab: usize,
    /// Where each sub-layer's conditioning starts.
    pub at0: usize,
    pub at1: usize,
    pub at2: usize,
    /// Where the gradient of each sub-layer's scale starts.
    pub norm0: usize,
    pub norm1: usize,
    pub norm2: usize,
    /// How long the buffers are.
    pub hidden: usize,
    pub tokens: usize,
    pub triples: usize,
    pub norms: usize,
}

impl FlowPlan {
    /// Whether the sizes go together, and the spans lie inside their buffers.
    pub open spec fn wf(&self) -> bool {
        &&& self.rows == self.latents * self.sequences
        &&& self.hidden == self.rows * self.width
        &&& self.at1 == self.at0 + self.slab
        &&& self.at2 == self.at1 + self.slab
        &&& self.at2 + self.slab <= self.triples
        &&& self.norm1 == self.norm0 + self.width
        &&& self.norm2 == self.norm1 + self.width
        &&& self.norm2 + self.width <= self.norms
    }

    /// The plan of a block of a stack. `kv_features` is the width of a
    /// conditioning token.
    pub fn new(shape: FlowShape, index: usize, blocks: usize, kv_features: usize) -> (plan: FlowPlan)
        requires
            index < blocks,
            shape.latents * shape.sequences <= usize::MAX,
            shape.latents * shape.sequences * shape.d_model <= usize::MAX,
            shape.sequences * 3 <= usize::MAX,
            shape.slab_len() <= usize::MAX,
            3 * blocks <= usize::MAX,
            3 * blocks * shape.slab_len() <= usize::MAX,
            3 * blocks * shape.d_model <= usize::MAX,
            shape.sequences * shape.cond_tokens <= usize::MAX,
            shape.sequences * shape.cond_tokens * kv_features <= usize::MAX,
        ensures
            plan.wf(),
            plan.latents == shape.latents,
            plan.cond_tokens == shape.cond_tokens,
            plan.sequences == shape.sequences,
            plan.width == shape.d_model,
            plan.slab == shape.slab_len(),
            plan.at0 == 3 * index * shape.slab_len(),
            plan.norm0 == 3 * index * shape.d_model,
            plan.triples == 3 * blocks * shape.slab_len(),
            plan.norms == 3 * blocks * shape.d_model,
            plan.tokens == shape.sequences * shape.cond_tokens * kv_features,
    {
        proof {
            lemma_last(shape.slab_len(), blocks as int, index as int);
            lemma_last(shape.d_model as int, blocks as int, index as int);
            assert(0 <= shape.slab_len()) by (nonlinear_arith)
                requires
                    shape.slab_len() == shape.sequences * 3 * shape.d_model,
            ;
        }
        let slab: usize = shape.slab();
        let (first, norm_first) = shape.conditioning_at(index);
        let (triples, norms) = shape.conditioning_len(blocks);
        let rows: usize = shape.rows();
        FlowPlan {
            latents: shape.latents,
            cond_tokens: shape.cond_tokens,
            sequences: shape.sequences,
            rows,
            width: shape.d_model,
            slab,
            at0: first,
            at1: first + slab,
            at2: first + slab + slab,
            norm0: norm_first,
            norm1: norm_first + shape.d_model,
            norm2: norm_first + shape.d_model + shape.d_model,
            hidden: rows * shape.d_model,
            tokens: shape.sequences * shape.cond_tokens * kv_features,
            triples,
            norms,
        }
    }

    /// The sizes the modulation kernels are told.
    #[verifier::allow_in_spec]
    pub fn modulation(&self) -> Sizes
        returns
            (Sizes {
                rows: self.rows,
                cols: self.width,
                heads: 0,
                head_dim: 0,
                length: self.latents,
                width: 0,
                base: 0,
            }),
    {
        Sizes {
            rows: self.rows,
            cols: self.width,
            heads: 0,
            head_dim: 0,
            length: self.latents,
            width: 0,
            base: 0,
        }
    }
}

proof fn lemma_last(size: int, blocks: int, i: int)
    requires
        0 <= i < blocks,
        0 <= size,
    ensures
        0 <= 3 * i * size,
        3 * i * size + 3 * size <= 3 * blocks * size,
{
    assert(0 <= 3 * i * size && 3 * i * size + 3 * size <= 3 * blocks * size) by (nonlinear_arith)
        requires
            0 <= i < blocks,
            0 <= size,
    ;
}

/// Self-attention over the latent slots.
pub open spec fn self_attention_steps(plan: FlowPlan) -> Seq<Step> {
    seq![
        reserve(Buffer::SubNormed(0), plan.hidden),
        reserve(Buffer::SubInverse(0), plan.rows),
        rmsnorm(
            Buffer::Stream(0),
            Buffer::SubWeight(0),
            Buffer::SubNormed(0),
            Buffer::SubInverse(0),
            plan.rows,
            plan.width,
            plan.hidden,
        ),
        reserve(Buffer::SubModulated(0), plan.hidden),
        launch(
            Kernel::Modulate,
            Grid::Elements(plan.hidden),
            plan.modulation(),
            reads2(
                start_of(Buffer::SubNormed(0), plan.hidden),
                span(Buffer::Triples, plan.at0, plan.slab),
            ),
            writes1(start_of(Buffer::SubModulated(0), plan.hidden)),
        ),
        reserve(Buffer::SubBranch(0), plan.hidden),
        launch(
            Kernel::Attention,
            Grid::Elements(plan.hidden),
            attention_sizes(plan.latents, plan.latents, plan.sequences, plan.width),
            reads1(start_of(Buffer::SubModulated(0), plan.hidden)),
            writes1(start_of(Buffer::SubBranch(0), plan.hidden)),
        ),
        reserve(Buffer::Stream(1), plan.hidden),
        launch(
            Kernel::GateResidual,
            Grid::Elements(plan.hidden),
            plan.modulation(),
            reads3(
                start_of(Buffer::Stream(0), plan.hidden),
                start_of(Buffer::SubBranch(0), plan.hidden),
                span(Buffer::Triples, plan.at0, plan.slab),
            ),
            writes1(start_of(Buffer::Stream(1), plan.hidden)),
        ),
    ]
}

fn self_attention(plan: &FlowPlan) -> (steps: Vec<Step>)
    ensures
        steps@ == self_attention_steps(*plan),
{
    let steps: Vec<Step> = vec![
        reserve(Buffer::SubNormed(0), plan.hidden),
        reserve(Buffer::SubInverse(0), plan.rows),
        rmsnorm(
            Buffer::Stream(0),
            Buffer::SubWeight(0),
            Buffer::SubNormed(0),
            Buffer::SubInverse(0),
            plan.rows,
            plan.width,
            plan.hidden,
        ),
        reserve(Buffer::SubModulated(0), plan.hidden),
        launch(
            Kernel::Modulate,
            Grid::Elements(plan.hidden),
            plan.modulation(),
            reads2(
                start_of(Buffer::SubNormed(0), plan.hidden),
                span(Buffer::Triples, plan.at0, plan.slab),
            ),
            writes1(start_of(Buffer::SubModulated(0), plan.hidden)),
        ),
        reserve(Buffer::SubBranch(0), plan.hidden),
        launch(
            Kernel::Attention,
            Grid::Elements(plan.hidden),
            attention_sizes(plan.latents, plan.latents, plan.sequences, plan.width),
            reads1(start_of(Buffer::SubModulated(0), plan.hidden)),
            writes1(start_of(Buffer::SubBranch(0), plan.hidden)),
        ),
        reserve(Buffer::Stream(1), plan.hidden),
        launch(
            Kernel::GateResidual,
            Grid::Elements(plan.hidden),
            plan.modulation(),
            reads3(
                start_of(Buffer::Stream(0), plan.hidden),
                start_of(Buffer::SubBranch(0), plan.hidden),
                span(Buffer::Triples, plan.at0, plan.slab),
            ),
            writes1(start_of(Buffer::Stream(1), plan.hidden)),
        ),
    ];
    assert(steps@ =~= self_attention_steps(*plan));
    steps
}

/// Cross-attention to the conditioning tokens.
pub open spec fn cross_attention_steps(plan: FlowPlan) -> Seq<Step> {
    seq![
        reserve(Buffer::SubNormed(1), plan.hidden),
        reserve(Buffer::SubInverse(1), plan.rows),
        rmsnorm(
            Buffer::Stream(1),
            Buffer::SubWeight(1),
            Buffer::SubNormed(1),
            Buffer::SubInverse(1),
            plan.rows,
            plan.width,
            plan.hidden,
        ),
        reserve(Buffer::SubModulated(1), plan.hidden),
        launch(
            Kernel::Modulate,
            Grid::Elements(plan.hidden),
            plan.modulation(),
            reads2(
                start_of(Buffer::SubNormed(1), plan.hidden),
                span(Buffer::Triples, plan.at1, plan.slab),
            ),
            writes1(start_of(Buffer::SubModulated(1), plan.hidden)),
        ),
        reserve(Buffer::SubBranch(1), plan.hidden),
        launch(
            Kernel::Attention,
            Grid::Elements(plan.hidden),
            attention_sizes(plan.latents, plan.cond_tokens, plan.sequences, plan.width),
            reads2(
                start_of(Buffer::SubModulated(1), plan.hidden),
                start_of(Buffer::Tokens, plan.tokens),
            ),
            writes1(start_of(Buffer::SubBranch(1), plan.hidden)),
        ),
        reserve(Buffer::Stream(2), plan.hidden),
        launch(
            Kernel::GateResidual,
            Grid::Elements(plan.hidden),
            plan.modulation(),
            reads3(
                start_of(Buffer::Stream(1), plan.hidden),
                start_of(Buffer::SubBranch(1), plan.hidden),
                span(Buffer::Triples, plan.at1, plan.slab),
            ),
            writes1(start_of(Buffer::Stream(2), plan.hidden)),
        ),
    ]
}

fn cross_attention(plan: &FlowPlan) -> (steps: Vec<Step>)
    ensures
        steps@ == cross_attention_steps(*plan),
{
    let steps: Vec<Step> = vec![
        reserve(Buffer::SubNormed(1), plan.hidden),
        reserve(Buffer::SubInverse(1), plan.rows),
        rmsnorm(
            Buffer::Stream(1),
            Buffer::SubWeight(1),
            Buffer::SubNormed(1),
            Buffer::SubInverse(1),
            plan.rows,
            plan.width,
            plan.hidden,
        ),
        reserve(Buffer::SubModulated(1), plan.hidden),
        launch(
            Kernel::Modulate,
            Grid::Elements(plan.hidden),
            plan.modulation(),
            reads2(
                start_of(Buffer::SubNormed(1), plan.hidden),
                span(Buffer::Triples, plan.at1, plan.slab),
            ),
            writes1(start_of(Buffer::SubModulated(1), plan.hidden)),
        ),
        reserve(Buffer::SubBranch(1), plan.hidden),
        launch(
            Kernel::Attention,
            Grid::Elements(plan.hidden),
            attention_sizes(plan.latents, plan.cond_tokens, plan.sequences, plan.width),
            reads2(
                start_of(Buffer::SubModulated(1), plan.hidden),
                start_of(Buffer::Tokens, plan.tokens),
            ),
            writes1(start_of(Buffer::SubBranch(1), plan.hidden)),
        ),
        reserve(Buffer::Stream(2), plan.hidden),
        launch(
            Kernel::GateResidual,
            Grid::Elements(plan.hidden),
            plan.modulation(),
            reads3(
                start_of(Buffer::Stream(1), plan.hidden),
                start_of(Buffer::SubBranch(1), plan.hidden),
                span(Buffer::Triples, plan.at1, plan.slab),
            ),
            writes1(start_of(Buffer::Stream(2), plan.hidden)),
        ),
    ];
    assert(steps@ =~= cross_attention_steps(*plan));
    steps
}

/// The gated feed-forward. Its branch starts at zero: its gate adds it back.
pub open spec fn feed_forward_steps(plan: FlowPlan) -> Seq<Step> {
    seq![
        reserve(Buffer::SubNormed(2), plan.hidden),
        reserve(Buffer::SubInverse(2), plan.rows),
        rmsnorm(
            Buffer::Stream(2),
            Buffer::SubWeight(2),
            Buffer::SubNormed(2),
            Buffer::SubInverse(2),
            plan.rows,
            plan.width,
            plan.hidden,
        ),
        reserve(Buffer::SubModulated(2), plan.hidden),
        launch(
            Kernel::Modulate,
            Grid::Elements(plan.hidden),
            plan.modulation(),
            reads2(
                start_of(Buffer::SubNormed(2), plan.hidden),
                span(Buffer::Triples, plan.at2, plan.slab),
            ),
            writes1(start_of(Buffer::SubModulated(2), plan.hidden)),
        ),
        reserve(Buffer::SubBranch(2), plan.hidden),
        clear(Buffer::SubBranch(2), plan.hidden),
        launch(
            Kernel::FeedForward,
            Grid::Elements(plan.hidden),
            sized(plan.rows, plan.width),
            reads2(
                start_of(Buffer::SubModulated(2), plan.hidden),
                start_of(Buffer::SubBranch(2), plan.hidden),
            ),
            writes1(start_of(Buffer::SubBranch(2), plan.hidden)),
        ),
        reserve(Buffer::Stream(3), plan.hidden),
        launch(
            Kernel::GateResidual,
            Grid::Elements(plan.hidden),
            plan.modulation(),
            reads3(
                start_of(Buffer::Stream(2), plan.hidden),
                start_of(Buffer::SubBranch(2), plan.hidden),
                span(Buffer::Triples, plan.at2, plan.slab),
            ),
            writes1(start_of(Buffer::Stream(3), plan.hidden)),
        ),
    ]
}

fn feed_forward(plan: &FlowPlan) -> (steps: Vec<Step>)
    ensures
        steps@ == feed_forward_steps(*plan),
{
    let steps: Vec<Step> = vec![
        reserve(Buffer::SubNormed(2), plan.hidden),
        reserve(Buffer::SubInverse(2), plan.rows),
        rmsnorm(
            Buffer::Stream(2),
            Buffer::SubWeight(2),
            Buffer::SubNormed(2),
            Buffer::SubInverse(2),
            plan.rows,
            plan.width,
            plan.hidden,
        ),
        reserve(Buffer::SubModulated(2), plan.hidden),
        launch(
            Kernel::Modulate,
            Grid::Elements(plan.hidden),
            plan.modulation(),
            reads2(
                start_of(Buffer::SubNormed(2), plan.hidden),
                span(Buffer::Triples, plan.at2, plan.slab),
            ),
            writes1(start_of(Buffer::SubModulated(2), plan.hidden)),
        ),
        reserve(Buffer::SubBranch(2), plan.hidden),
        clear(Buffer::SubBranch(2), plan.hidden),
        launch(
            Kernel::FeedForward,
            Grid::Elements(plan.hidden),
            sized(plan.rows, plan.width),
            reads2(
                start_of(Buffer::SubModulated(2), plan.hidden),
                start_of(Buffer::SubBranch(2), plan.hidden),
            ),
            writes1(start_of(Buffer::SubBranch(2), plan.hidden)),
        ),
        reserve(Buffer::Stream(3), plan.hidden),
        launch(
            Kernel::GateResidual,
            Grid::Elements(plan.hidden),
            plan.modulation(),
            reads3(
                start_of(Buffer::Stream(2), plan.hidden),
                start_of(Buffer::SubBranch(2), plan.hidden),
                span(Buffer::Triples, plan.at2, plan.slab),
            ),
            writes1(start_of(Buffer::Stream(3), plan.hidden)),
        ),
    ];
    assert(steps@ =~= feed_forward_steps(*plan));
    steps
}

/// The feed-forward backwards.
pub open spec fn feed_forward_gradient_steps(plan: FlowPlan) -> Seq<Step> {
    seq![
        reserve(Buffer::GradSubBranch(2), plan.hidden),
        launch(
            Kernel::GateResidualBackward,
            Grid::Elements(plan.hidden),
            plan.modulation(),
            reads4(
                start_of(Buffer::SubBranch(2), plan.hidden),
                span(Buffer::Triples, plan.at2, plan.slab),
                start_of(Buffer::GradStream(3), plan.hidden),
                span(Buffer::GradTriples, plan.at2, plan.slab),
            ),
            writes2(
                start_of(Buffer::GradSubBranch(2), plan.hidden),
                span(Buffer::GradTriples, plan.at2, plan.slab),
            ),
        ),
        reserve(Buffer::GradSubModulated(2), plan.hidden),
        launch(
            Kernel::FeedForwardBackward,
            Grid::Elements(plan.hidden),
            sized(plan.rows, plan.width),
            reads2(
                start_of(Buffer::SubModulated(2), plan.hidden),
                start_of(Buffer::GradSubBranch(2), plan.hidden),
            ),
            writes1(start_of(Buffer::GradSubModulated(2), plan.hidden)),
        ),
        reserve(Buffer::GradSubNormed(2), plan.hidden),
        launch(
            Kernel::ModulateBackward,
            Grid::Elements(plan.hidden),
            plan.modulation(),
            reads4(
                start_of(Buffer::GradSubModulated(2), plan.hidden),
                start_of(Buffer::SubNormed(2), plan.hidden),
                span(Buffer::Triples, plan.at2, plan.slab),
                span(Buffer::GradTriples, plan.at2, plan.slab),
            ),
            writes2(
                start_of(Buffer::GradSubNormed(2), plan.hidden),
                span(Buffer::GradTriples, plan.at2, plan.slab),
            ),
        ),
        reserve(Buffer::GradStream(2), plan.hidden),
        rmsnorm_backward_residual(
            Buffer::Stream(2),
            Buffer::GradSubNormed(2),
            Buffer::SubWeight(2),
            Buffer::SubInverse(2),
            Buffer::GradStream(3),
            Buffer::GradStream(2),
            plan.norm2,
            plan.rows,
            plan.width,
            plan.hidden,
        ),
    ]
}

fn feed_forward_gradient(plan: &FlowPlan) -> (steps: Vec<Step>)
    ensures
        steps@ == feed_forward_gradient_steps(*plan),
{
    let steps: Vec<Step> = vec![
        reserve(Buffer::GradSubBranch(2), plan.hidden),
        launch(
            Kernel::GateResidualBackward,
            Grid::Elements(plan.hidden),
            plan.modulation(),
            reads4(
                start_of(Buffer::SubBranch(2), plan.hidden),
                span(Buffer::Triples, plan.at2, plan.slab),
                start_of(Buffer::GradStream(3), plan.hidden),
                span(Buffer::GradTriples, plan.at2, plan.slab),
            ),
            writes2(
                start_of(Buffer::GradSubBranch(2), plan.hidden),
                span(Buffer::GradTriples, plan.at2, plan.slab),
            ),
        ),
        reserve(Buffer::GradSubModulated(2), plan.hidden),
        launch(
            Kernel::FeedForwardBackward,
            Grid::Elements(plan.hidden),
            sized(plan.rows, plan.width),
            reads2(
                start_of(Buffer::SubModulated(2), plan.hidden),
                start_of(Buffer::GradSubBranch(2), plan.hidden),
            ),
            writes1(start_of(Buffer::GradSubModulated(2), plan.hidden)),
        ),
        reserve(Buffer::GradSubNormed(2), plan.hidden),
        launch(
            Kernel::ModulateBackward,
            Grid::Elements(plan.hidden),
            plan.modulation(),
            reads4(
                start_of(Buffer::GradSubModulated(2), plan.hidden),
                start_of(Buffer::SubNormed(2), plan.hidden),
                span(Buffer::Triples, plan.at2, plan.slab),
                span(Buffer::GradTriples, plan.at2, plan.slab),
            ),
            writes2(
                start_of(Buffer::GradSubNormed(2), plan.hidden),
                span(Buffer::GradTriples, plan.at2, plan.slab),
            ),
        ),
        reserve(Buffer::GradStream(2), plan.hidden),
        rmsnorm_backward_residual(
            Buffer::Stream(2),
            Buffer::GradSubNormed(2),
            Buffer::SubWeight(2),
            Buffer::SubInverse(2),
            Buffer::GradStream(3),
            Buffer::GradStream(2),
            plan.norm2,
            plan.rows,
            plan.width,
            plan.hidden,
        ),
    ];
    assert(steps@ =~= feed_forward_gradient_steps(*plan));
    steps
}

/// The cross-attention backwards. Every block adds to its tokens' gradient.
pub open spec fn cross_attention_gradient_steps(plan: FlowPlan) -> Seq<Step> {
    seq![
        reserve(Buffer::GradSubBranch(1), plan.hidden),
        launch(
            Kernel::GateResidualBackward,
            Grid::Elements(plan.hidden),
            plan.modulation(),
            reads4(
                start_of(Buffer::SubBranch(1), plan.hidden),
                span(Buffer::Triples, plan.at1, plan.slab),
                start_of(Buffer::GradStream(2), plan.hidden),
                span(Buffer::GradTriples, plan.at1, plan.slab),
            ),
            writes2(
                start_of(Buffer::GradSubBranch(1), plan.hidden),
                span(Buffer::GradTriples, plan.at1, plan.slab),
            ),
        ),
        reserve(Buffer::GradSubModulated(1), plan.hidden),
        reserve(Buffer::GradKeys(1), plan.tokens),
        launch(
            Kernel::AttentionBackward,
            Grid::Elements(plan.hidden),
            attention_sizes(plan.latents, plan.cond_tokens, plan.sequences, plan.width),
            reads3(
                start_of(Buffer::GradSubBranch(1), plan.hidden),
                start_of(Buffer::SubModulated(1), plan.hidden),
                start_of(Buffer::Tokens, plan.tokens),
            ),
            writes2(
                start_of(Buffer::GradSubModulated(1), plan.hidden),
                start_of(Buffer::GradKeys(1), plan.tokens),
            ),
        ),
        add_span(Buffer::GradTokens, Buffer::GradKeys(1), 0, plan.tokens),
        reserve(Buffer::GradSubNormed(1), plan.hidden),
        launch(
            Kernel::ModulateBackward,
            Grid::Elements(plan.hidden),
            plan.modulation(),
            reads4(
                start_of(Buffer::GradSubModulated(1), plan.hidden),
                start_of(Buffer::SubNormed(1), plan.hidden),
                span(Buffer::Triples, plan.at1, plan.slab),
                span(Buffer::GradTriples, plan.at1, plan.slab),
            ),
            writes2(
                start_of(Buffer::GradSubNormed(1), plan.hidden),
                span(Buffer::GradTriples, plan.at1, plan.slab),
            ),
        ),
        reserve(Buffer::GradStream(1), plan.hidden),
        rmsnorm_backward_residual(
            Buffer::Stream(1),
            Buffer::GradSubNormed(1),
            Buffer::SubWeight(1),
            Buffer::SubInverse(1),
            Buffer::GradStream(2),
            Buffer::GradStream(1),
            plan.norm1,
            plan.rows,
            plan.width,
            plan.hidden,
        ),
    ]
}

fn cross_attention_gradient(plan: &FlowPlan) -> (steps: Vec<Step>)
    ensures
        steps@ == cross_attention_gradient_steps(*plan),
{
    let steps: Vec<Step> = vec![
        reserve(Buffer::GradSubBranch(1), plan.hidden),
        launch(
            Kernel::GateResidualBackward,
            Grid::Elements(plan.hidden),
            plan.modulation(),
            reads4(
                start_of(Buffer::SubBranch(1), plan.hidden),
                span(Buffer::Triples, plan.at1, plan.slab),
                start_of(Buffer::GradStream(2), plan.hidden),
                span(Buffer::GradTriples, plan.at1, plan.slab),
            ),
            writes2(
                start_of(Buffer::GradSubBranch(1), plan.hidden),
                span(Buffer::GradTriples, plan.at1, plan.slab),
            ),
        ),
        reserve(Buffer::GradSubModulated(1), plan.hidden),
        reserve(Buffer::GradKeys(1), plan.tokens),
        launch(
            Kernel::AttentionBackward,
            Grid::Elements(plan.hidden),
            attention_sizes(plan.latents, plan.cond_tokens, plan.sequences, plan.width),
            reads3(
                start_of(Buffer::GradSubBranch(1), plan.hidden),
                start_of(Buffer::SubModulated(1), plan.hidden),
                start_of(Buffer::Tokens, plan.tokens),
            ),
            writes2(
                start_of(Buffer::GradSubModulated(1), plan.hidden),
                start_of(Buffer::GradKeys(1), plan.tokens),
            ),
        ),
        add_span(Buffer::GradTokens, Buffer::GradKeys(1), 0, plan.tokens),
        reserve(Buffer::GradSubNormed(1), plan.hidden),
        launch(
            Kernel::ModulateBackward,
            Grid::Elements(plan.hidden),
            plan.modulation(),
            reads4(
                start_of(Buffer::GradSubModulated(1), plan.hidden),
                start_of(Buffer::SubNormed(1), plan.hidden),
                span(Buffer::Triples, plan.at1, plan.slab),
                span(Buffer::GradTriples, plan.at1, plan.slab),
            ),
            writes2(
                start_of(Buffer::GradSubNormed(1), plan.hidden),
                span(Buffer::GradTriples, plan.at1, plan.slab),
            ),
        ),
        reserve(Buffer::GradStream(1), plan.hidden),
        rmsnorm_backward_residual(
            Buffer::Stream(1),
            Buffer::GradSubNormed(1),
            Buffer::SubWeight(1),
            Buffer::SubInverse(1),
            Buffer::GradStream(2),
            Buffer::GradStream(1),
            plan.norm1,
            plan.rows,
            plan.width,
            plan.hidden,
        ),
    ];
    assert(steps@ =~= cross_attention_gradient_steps(*plan));
    steps
}

/// The self-attention backwards. Its queries and keys were the same
/// activations, so its two input gradients are two halves of one.
pub open spec fn self_attention_gradient_steps(plan: FlowPlan) -> Seq<Step> {
    seq![
        reserve(Buffer::GradSubBranch(0), plan.hidden),
        launch(
            Kernel::GateResidualBackward,
            Grid::Elements(plan.hidden),
            plan.modulation(),
            reads4(
                start_of(Buffer::SubBranch(0), plan.hidden),
                span(Buffer::Triples, plan.at0, plan.slab),
                start_of(Buffer::GradStream(1), plan.hidden),
                span(Buffer::GradTriples, plan.at0, plan.slab),
            ),
            writes2(
                start_of(Buffer::GradSubBranch(0), plan.hidden),
                span(Buffer::GradTriples, plan.at0, plan.slab),
            ),
        ),
        reserve(Buffer::GradSubModulated(0), plan.hidden),
        reserve(Buffer::GradKeys(0), plan.hidden),
        launch(
            Kernel::AttentionBackward,
            Grid::Elements(plan.hidden),
            attention_sizes(plan.latents, plan.latents, plan.sequences, plan.width),
            reads2(
                start_of(Buffer::GradSubBranch(0), plan.hidden),
                start_of(Buffer::SubModulated(0), plan.hidden),
            ),
            writes2(
                start_of(Buffer::GradSubModulated(0), plan.hidden),
                start_of(Buffer::GradKeys(0), plan.hidden),
            ),
        ),
        add_span(Buffer::GradSubModulated(0), Buffer::GradKeys(0), 0, plan.hidden),
        reserve(Buffer::GradSubNormed(0), plan.hidden),
        launch(
            Kernel::ModulateBackward,
            Grid::Elements(plan.hidden),
            plan.modulation(),
            reads4(
                start_of(Buffer::GradSubModulated(0), plan.hidden),
                start_of(Buffer::SubNormed(0), plan.hidden),
                span(Buffer::Triples, plan.at0, plan.slab),
                span(Buffer::GradTriples, plan.at0, plan.slab),
            ),
            writes2(
                start_of(Buffer::GradSubNormed(0), plan.hidden),
                span(Buffer::GradTriples, plan.at0, plan.slab),
            ),
        ),
        reserve(Buffer::GradStream(0), plan.hidden),
        rmsnorm_backward_residual(
            Buffer::Stream(0),
            Buffer::GradSubNormed(0),
            Buffer::SubWeight(0),
            Buffer::SubInverse(0),
            Buffer::GradStream(1),
            Buffer::GradStream(0),
            plan.norm0,
            plan.rows,
            plan.width,
            plan.hidden,
        ),
    ]
}

fn self_attention_gradient(plan: &FlowPlan) -> (steps: Vec<Step>)
    ensures
        steps@ == self_attention_gradient_steps(*plan),
{
    let steps: Vec<Step> = vec![
        reserve(Buffer::GradSubBranch(0), plan.hidden),
        launch(
            Kernel::GateResidualBackward,
            Grid::Elements(plan.hidden),
            plan.modulation(),
            reads4(
                start_of(Buffer::SubBranch(0), plan.hidden),
                span(Buffer::Triples, plan.at0, plan.slab),
                start_of(Buffer::GradStream(1), plan.hidden),
                span(Buffer::GradTriples, plan.at0, plan.slab),
            ),
            writes2(
                start_of(Buffer::GradSubBranch(0), plan.hidden),
                span(Buffer::GradTriples, plan.at0, plan.slab),
            ),
        ),
        reserve(Buffer::GradSubModulated(0), plan.hidden),
        reserve(Buffer::GradKeys(0), plan.hidden),
        launch(
            Kernel::AttentionBackward,
            Grid::Elements(plan.hidden),
            attention_sizes(plan.latents, plan.latents, plan.sequences, plan.width),
            reads2(
                start_of(Buffer::GradSubBranch(0), plan.hidden),
                start_of(Buffer::SubModulated(0), plan.hidden),
            ),
            writes2(
                start_of(Buffer::GradSubModulated(0), plan.hidden),
                start_of(Buffer::GradKeys(0), plan.hidden),
            ),
        ),
        add_span(Buffer::GradSubModulated(0), Buffer::GradKeys(0), 0, plan.hidden),
        reserve(Buffer::GradSubNormed(0), plan.hidden),
        launch(
            Kernel::ModulateBackward,
            Grid::Elements(plan.hidden),
            plan.modulation(),
            reads4(
                start_of(Buffer::GradSubModulated(0), plan.hidden),
                start_of(Buffer::SubNormed(0), plan.hidden),
                span(Buffer::Triples, plan.at0, plan.slab),
                span(Buffer::GradTriples, plan.at0, plan.slab),
            ),
            writes2(
                start_of(Buffer::GradSubNormed(0), plan.hidden),
                span(Buffer::GradTriples, plan.at0, plan.slab),
            ),
        ),
        reserve(Buffer::GradStream(0), plan.hidden),
        rmsnorm_backward_residual(
            Buffer::Stream(0),
            Buffer::GradSubNormed(0),
            Buffer::SubWeight(0),
            Buffer::SubInverse(0),
            Buffer::GradStream(1),
            Buffer::GradStream(0),
            plan.norm0,
            plan.rows,
            plan.width,
            plan.hidden,
        ),
    ];
    assert(steps@ =~= self_attention_gradient_steps(*plan));
    steps
}

/// A block's forward pass: three sub-layers, each
/// `hidden + gate * branch(modulated(norm(hidden)))`.
pub open spec fn forward_steps(plan: FlowPlan) -> Seq<Step> {
    self_attention_steps(plan) + cross_attention_steps(plan) + feed_forward_steps(plan)
}

/// A block's forward pass.
pub fn block_forward(plan: &FlowPlan) -> (steps: Vec<Step>)
    ensures
        steps@ == forward_steps(*plan),
{
    let mut steps = self_attention(plan);
    let mut next = cross_attention(plan);
    steps.append(&mut next);
    let mut next = feed_forward(plan);
    steps.append(&mut next);
    steps
}

/// A block's backward pass: the sub-layers in the opposite order.
pub open spec fn backward_steps(plan: FlowPlan) -> Seq<Step> {
    feed_forward_gradient_steps(plan) + cross_attention_gradient_steps(plan)
        + self_attention_gradient_steps(plan)
}

/// A block's backward pass.
pub fn block_backward(plan: &FlowPlan) -> (steps: Vec<Step>)
    ensures
        steps@ == backward_steps(*plan),
{
    let mut steps = feed_forward_gradient(plan);
    let mut next = cross_attention_gradient(plan);
    steps.append(&mut next);
    let mut next = self_attention_gradient(plan);
    steps.append(&mut next);
    steps
}

// -- Laws ----------------------------------------------------------------------

/// Whether the conditioning, the tokens and the scales are there.
pub open spec fn has_conditioning(plan: FlowPlan, memory: Memory) -> bool {
    &&& memory.holds(Buffer::Triples, plan.triples as int)
    &&& memory.holds(Buffer::Tokens, plan.tokens as int)
    &&& memory.holds(Buffer::SubWeight(0), plan.width as int)
    &&& memory.holds(Buffer::SubWeight(1), plan.width as int)
    &&& memory.holds(Buffer::SubWeight(2), plan.width as int)
}

/// Whether what a sub-layer reads is there.
pub open spec fn holds_stream(plan: FlowPlan, memory: Memory, k: usize) -> bool {
    memory.holds(Buffer::Stream(k), plan.hidden as int)
}

/// Whether what a sub-layer's backward pass reads of its forward pass is
/// there.
pub open spec fn is_cached(plan: FlowPlan, memory: Memory, k: usize) -> bool {
    &&& memory.holds(Buffer::Stream(k), plan.hidden as int)
    &&& memory.holds(Buffer::SubNormed(k), plan.hidden as int)
    &&& memory.holds(Buffer::SubInverse(k), plan.rows as int)
    &&& memory.holds(Buffer::SubModulated(k), plan.hidden as int)
    &&& memory.holds(Buffer::SubBranch(k), plan.hidden as int)
}

/// Whether the gradients a backward pass adds to are there.
pub open spec fn has_gradients(plan: FlowPlan, memory: Memory) -> bool {
    &&& memory.holds(Buffer::GradTriples, plan.triples as int)
    &&& memory.holds(Buffer::GradNorms, plan.norms as int)
    &&& memory.holds(Buffer::GradTokens, plan.tokens as int)
}

/// Whether a sub-layer's forward pass left what the ones before it kept.
pub open spec fn keeps_others(before: Memory, end: Memory, k: usize) -> bool {
    forall|j: usize, len: int|
        #![trigger end.holds(Buffer::Stream(j), len)]
        #![trigger end.holds(Buffer::SubNormed(j), len)]
        #![trigger end.holds(Buffer::SubInverse(j), len)]
        #![trigger end.holds(Buffer::SubModulated(j), len)]
        #![trigger end.holds(Buffer::SubBranch(j), len)]
        j < k ==> {
            &&& before.holds(Buffer::Stream(j), len) ==> end.holds(Buffer::Stream(j), len)
            &&& before.holds(Buffer::SubNormed(j), len) ==> end.holds(Buffer::SubNormed(j), len)
            &&& before.holds(Buffer::SubInverse(j), len) ==> end.holds(Buffer::SubInverse(j), len)
            &&& before.holds(Buffer::SubModulated(j), len) ==> end.holds(
                Buffer::SubModulated(j),
                len,
            )
            &&& before.holds(Buffer::SubBranch(j), len) ==> end.holds(Buffer::SubBranch(j), len)
        }
}

/// Whether a backward pass left what the forward pass kept.
pub open spec fn keeps_cached(plan: FlowPlan, before: Memory, end: Memory) -> bool {
    forall|k: usize| is_cached(plan, before, k) ==> #[trigger] is_cached(plan, end, k)
}

proof fn lemma_self_attention(plan: FlowPlan, memory: Memory)
    requires
        plan.wf(),
        has_conditioning(plan, memory),
        holds_stream(plan, memory, 0),
    ensures
        runs(memory, self_attention_steps(plan)),
        has_conditioning(plan, after_all(memory, self_attention_steps(plan))),
        holds_stream(plan, after_all(memory, self_attention_steps(plan)), 1),
        is_cached(plan, after_all(memory, self_attention_steps(plan)), 0),
        keeps_others(memory, after_all(memory, self_attention_steps(plan)), 0),
{
    let steps = self_attention_steps(plan);
    let m0 = memory;
    lemma_one_more(m0, steps, 0, m0);
    lemma_kept(m0, steps[0]);
    let m1 = after(m0, steps[0]);
    lemma_one_more(m0, steps, 1, m1);
    lemma_kept(m1, steps[1]);
    let m2 = after(m1, steps[1]);
    lemma_one_more(m0, steps, 2, m2);
    lemma_kept(m2, steps[2]);
    let m3 = after(m2, steps[2]);
    lemma_one_more(m0, steps, 3, m3);
    lemma_kept(m3, steps[3]);
    let m4 = after(m3, steps[3]);
    lemma_one_more(m0, steps, 4, m4);
    lemma_kept(m4, steps[4]);
    let m5 = after(m4, steps[4]);
    lemma_one_more(m0, steps, 5, m5);
    lemma_kept(m5, steps[5]);
    let m6 = after(m5, steps[5]);
    lemma_one_more(m0, steps, 6, m6);
    lemma_kept(m6, steps[6]);
    let m7 = after(m6, steps[6]);
    lemma_one_more(m0, steps, 7, m7);
    lemma_kept(m7, steps[7]);
    let m8 = after(m7, steps[7]);
    lemma_one_more(m0, steps, 8, m8);
    lemma_kept(m8, steps[8]);
    let m9 = after(m8, steps[8]);
}

proof fn lemma_cross_attention(plan: FlowPlan, memory: Memory)
    requires
        plan.wf(),
        has_conditioning(plan, memory),
        holds_stream(plan, memory, 1),
    ensures
        runs(memory, cross_attention_steps(plan)),
        has_conditioning(plan, after_all(memory, cross_attention_steps(plan))),
        holds_stream(plan, after_all(memory, cross_attention_steps(plan)), 2),
        is_cached(plan, after_all(memory, cross_attention_steps(plan)), 1),
        keeps_others(memory, after_all(memory, cross_attention_steps(plan)), 1),
{
    let steps = cross_attention_steps(plan);
    let m0 = memory;
    lemma_one_more(m0, steps, 0, m0);
    lemma_kept(m0, steps[0]);
    let m1 = after(m0, steps[0]);
    lemma_one_more(m0, steps, 1, m1);
    lemma_kept(m1, steps[1]);
    let m2 = after(m1, steps[1]);
    lemma_one_more(m0, steps, 2, m2);
    lemma_kept(m2, steps[2]);
    let m3 = after(m2, steps[2]);
    lemma_one_more(m0, steps, 3, m3);
    lemma_kept(m3, steps[3]);
    let m4 = after(m3, steps[3]);
    lemma_one_more(m0, steps, 4, m4);
    lemma_kept(m4, steps[4]);
    let m5 = after(m4, steps[4]);
    lemma_one_more(m0, steps, 5, m5);
    lemma_kept(m5, steps[5]);
    let m6 = after(m5, steps[5]);
    lemma_one_more(m0, steps, 6, m6);
    lemma_kept(m6, steps[6]);
    let m7 = after(m6, steps[6]);
    lemma_one_more(m0, steps, 7, m7);
    lemma_kept(m7, steps[7]);
    let m8 = after(m7, steps[7]);
    lemma_one_more(m0, steps, 8, m8);
    lemma_kept(m8, steps[8]);
    let m9 = after(m8, steps[8]);
}

proof fn lemma_feed_forward(plan: FlowPlan, memory: Memory)
    requires
        plan.wf(),
        has_conditioning(plan, memory),
        holds_stream(plan, memory, 2),
    ensures
        runs(memory, feed_forward_steps(plan)),
        has_conditioning(plan, after_all(memory, feed_forward_steps(plan))),
        holds_stream(plan, after_all(memory, feed_forward_steps(plan)), 3),
        is_cached(plan, after_all(memory, feed_forward_steps(plan)), 2),
        keeps_others(memory, after_all(memory, feed_forward_steps(plan)), 2),
{
    let steps = feed_forward_steps(plan);
    let m0 = memory;
    lemma_one_more(m0, steps, 0, m0);
    lemma_kept(m0, steps[0]);
    let m1 = after(m0, steps[0]);
    lemma_one_more(m0, steps, 1, m1);
    lemma_kept(m1, steps[1]);
    let m2 = after(m1, steps[1]);
    lemma_one_more(m0, steps, 2, m2);
    lemma_kept(m2, steps[2]);
    let m3 = after(m2, steps[2]);
    lemma_one_more(m0, steps, 3, m3);
    lemma_kept(m3, steps[3]);
    let m4 = after(m3, steps[3]);
    lemma_one_more(m0, steps, 4, m4);
    lemma_kept(m4, steps[4]);
    let m5 = after(m4, steps[4]);
    lemma_one_more(m0, steps, 5, m5);
    lemma_kept(m5, steps[5]);
    let m6 = after(m5, steps[5]);
    lemma_one_more(m0, steps, 6, m6);
    lemma_kept(m6, steps[6]);
    let m7 = after(m6, steps[6]);
    lemma_one_more(m0, steps, 7, m7);
    lemma_kept(m7, steps[7]);
    let m8 = after(m7, steps[7]);
    lemma_one_more(m0, steps, 8, m8);
    lemma_kept(m8, steps[8]);
    let m9 = after(m8, steps[8]);
    lemma_one_more(m0, steps, 9, m9);
    lemma_kept(m9, steps[9]);
    let m10 = after(m9, steps[9]);
}

proof fn lemma_feed_forward_gradient(plan: FlowPlan, memory: Memory)
    requires
        plan.wf(),
        has_conditioning(plan, memory),
        has_gradients(plan, memory),
        is_cached(plan, memory, 2),
        memory.holds(Buffer::GradStream(3), plan.hidden as int),
    ensures
        runs(memory, feed_forward_gradient_steps(plan)),
        has_conditioning(plan, after_all(memory, feed_forward_gradient_steps(plan))),
        has_gradients(plan, after_all(memory, feed_forward_gradient_steps(plan))),
        after_all(memory, feed_forward_gradient_steps(plan)).holds(Buffer::GradStream(2), plan.hidden as int),
        keeps_cached(plan, memory, after_all(memory, feed_forward_gradient_steps(plan))),
{
    let steps = feed_forward_gradient_steps(plan);
    let m0 = memory;
    lemma_one_more(m0, steps, 0, m0);
    lemma_kept(m0, steps[0]);
    let m1 = after(m0, steps[0]);
    lemma_one_more(m0, steps, 1, m1);
    lemma_kept(m1, steps[1]);
    let m2 = after(m1, steps[1]);
    lemma_one_more(m0, steps, 2, m2);
    lemma_kept(m2, steps[2]);
    let m3 = after(m2, steps[2]);
    lemma_one_more(m0, steps, 3, m3);
    lemma_kept(m3, steps[3]);
    let m4 = after(m3, steps[3]);
    lemma_one_more(m0, steps, 4, m4);
    lemma_kept(m4, steps[4]);
    let m5 = after(m4, steps[4]);
    lemma_one_more(m0, steps, 5, m5);
    lemma_kept(m5, steps[5]);
    let m6 = after(m5, steps[5]);
    lemma_one_more(m0, steps, 6, m6);
    lemma_kept(m6, steps[6]);
    let m7 = after(m6, steps[6]);
    lemma_one_more(m0, steps, 7, m7);
    lemma_kept(m7, steps[7]);
    let m8 = after(m7, steps[7]);
}

proof fn lemma_cross_attention_gradient(plan: FlowPlan, memory: Memory)
    requires
        plan.wf(),
        has_conditioning(plan, memory),
        has_gradients(plan, memory),
        is_cached(plan, memory, 1),
        memory.holds(Buffer::GradStream(2), plan.hidden as int),
    ensures
        runs(memory, cross_attention_gradient_steps(plan)),
        has_conditioning(plan, after_all(memory, cross_attention_gradient_steps(plan))),
        has_gradients(plan, after_all(memory, cross_attention_gradient_steps(plan))),
        after_all(memory, cross_attention_gradient_steps(plan)).holds(Buffer::GradStream(1), plan.hidden as int),
        keeps_cached(plan, memory, after_all(memory, cross_attention_gradient_steps(plan))),
{
    let steps = cross_attention_gradient_steps(plan);
    let m0 = memory;
    lemma_one_more(m0, steps, 0, m0);
    lemma_kept(m0, steps[0]);
    let m1 = after(m0, steps[0]);
    lemma_one_more(m0, steps, 1, m1);
    lemma_kept(m1, steps[1]);
    let m2 = after(m1, steps[1]);
    lemma_one_more(m0, steps, 2, m2);
    lemma_kept(m2, steps[2]);
    let m3 = after(m2, steps[2]);
    lemma_one_more(m0, steps, 3, m3);
    lemma_kept(m3, steps[3]);
    let m4 = after(m3, steps[3]);
    lemma_one_more(m0, steps, 4, m4);
    lemma_kept(m4, steps[4]);
    let m5 = after(m4, steps[4]);
    lemma_one_more(m0, steps, 5, m5);
    lemma_kept(m5, steps[5]);
    let m6 = after(m5, steps[5]);
    lemma_one_more(m0, steps, 6, m6);
    lemma_kept(m6, steps[6]);
    let m7 = after(m6, steps[6]);
    lemma_one_more(m0, steps, 7, m7);
    lemma_kept(m7, steps[7]);
    let m8 = after(m7, steps[7]);
    lemma_one_more(m0, steps, 8, m8);
    lemma_kept(m8, steps[8]);
    let m9 = after(m8, steps[8]);
    lemma_one_more(m0, steps, 9, m9);
    lemma_kept(m9, steps[9]);
    let m10 = after(m9, steps[9]);
}

proof fn lemma_self_attention_gradient(plan: FlowPlan, memory: Memory)
    requires
        plan.wf(),
        has_conditioning(plan, memory),
        has_gradients(plan, memory),
        is_cached(plan, memory, 0),
        memory.holds(Buffer::GradStream(1), plan.hidden as int),
    ensures
        runs(memory, self_attention_gradient_steps(plan)),
        has_conditioning(plan, after_all(memory, self_attention_gradient_steps(plan))),
        has_gradients(plan, after_all(memory, self_attention_gradient_steps(plan))),
        after_all(memory, self_attention_gradient_steps(plan)).holds(Buffer::GradStream(0), plan.hidden as int),
        keeps_cached(plan, memory, after_all(memory, self_attention_gradient_steps(plan))),
{
    let steps = self_attention_gradient_steps(plan);
    let m0 = memory;
    lemma_one_more(m0, steps, 0, m0);
    lemma_kept(m0, steps[0]);
    let m1 = after(m0, steps[0]);
    lemma_one_more(m0, steps, 1, m1);
    lemma_kept(m1, steps[1]);
    let m2 = after(m1, steps[1]);
    lemma_one_more(m0, steps, 2, m2);
    lemma_kept(m2, steps[2]);
    let m3 = after(m2, steps[2]);
    lemma_one_more(m0, steps, 3, m3);
    lemma_kept(m3, steps[3]);
    let m4 = after(m3, steps[3]);
    lemma_one_more(m0, steps, 4, m4);
    lemma_kept(m4, steps[4]);
    let m5 = after(m4, steps[4]);
    lemma_one_more(m0, steps, 5, m5);
    lemma_kept(m5, steps[5]);
    let m6 = after(m5, steps[5]);
    lemma_one_more(m0, steps, 6, m6);
    lemma_kept(m6, steps[6]);
    let m7 = after(m6, steps[6]);
    lemma_one_more(m0, steps, 7, m7);
    lemma_kept(m7, steps[7]);
    let m8 = after(m7, steps[7]);
    lemma_one_more(m0, steps, 8, m8);
    lemma_kept(m8, steps[8]);
    let m9 = after(m8, steps[8]);
    lemma_one_more(m0, steps, 9, m9);
    lemma_kept(m9, steps[9]);
    let m10 = after(m9, steps[9]);
}

/// A block's forward pass never leaves its buffers and reads only what was
/// written. It leaves what the backward pass of each sub-layer reads.
pub proof fn law_forward_runs(plan: FlowPlan, memory: Memory)
    requires
        plan.wf(),
        has_conditioning(plan, memory),
        holds_stream(plan, memory, 0),
    ensures
        runs(memory, forward_steps(plan)),
        holds_stream(plan, after_all(memory, forward_steps(plan)), 3),
        is_cached(plan, after_all(memory, forward_steps(plan)), 0),
        is_cached(plan, after_all(memory, forward_steps(plan)), 1),
        is_cached(plan, after_all(memory, forward_steps(plan)), 2),
{
    let s1 = self_attention_steps(plan);
    lemma_self_attention(plan, memory);
    let m1 = after_all(memory, s1);
    let s2 = cross_attention_steps(plan);
    lemma_cross_attention(plan, m1);
    lemma_concat(memory, s1, s2);
    let m2 = after_all(m1, s2);
    let s3 = feed_forward_steps(plan);
    lemma_feed_forward(plan, m2);
    lemma_concat(memory, s1 + s2, s3);
    let m3 = after_all(m2, s3);
    assert(is_cached(plan, m2, 0));
    assert(is_cached(plan, m3, 0));
    assert(is_cached(plan, m3, 1));
}

/// A block's backward pass never leaves its buffers and reads only what was
/// written. It leaves the gradient of what entered the block.
pub proof fn law_backward_runs(plan: FlowPlan, memory: Memory)
    requires
        plan.wf(),
        has_conditioning(plan, memory),
        has_gradients(plan, memory),
        is_cached(plan, memory, 0),
        is_cached(plan, memory, 1),
        is_cached(plan, memory, 2),
        memory.holds(Buffer::GradStream(3), plan.hidden as int),
    ensures
        runs(memory, backward_steps(plan)),
        after_all(memory, backward_steps(plan)).holds(Buffer::GradStream(0), plan.hidden as int),
{
    let s1 = feed_forward_gradient_steps(plan);
    lemma_feed_forward_gradient(plan, memory);
    let m1 = after_all(memory, s1);
    assert(is_cached(plan, m1, 1));
    assert(is_cached(plan, m1, 0));
    let s2 = cross_attention_gradient_steps(plan);
    lemma_cross_attention_gradient(plan, m1);
    lemma_concat(memory, s1, s2);
    let m2 = after_all(m1, s2);
    assert(is_cached(plan, m2, 0));
    let s3 = self_attention_gradient_steps(plan);
    lemma_self_attention_gradient(plan, m2);
    lemma_concat(memory, s1 + s2, s3);
}

// -- The host's share ----------------------------------------------------------

/// Every sub-layer's conditioning, one after another: the shared triple of
/// each sequence, with that sub-layer's offset added.
pub fn combined_triples<T: Copy, F: Fn(T, T) -> T>(
    triple: &Matrix<T>,
    offsets: &Vec<Vec<T>>,
    sum: &F,
) -> (combined: Vec<T>)
    requires
        triple.wf(),
        offsets@.len() * triple.data@.len() <= usize::MAX,
        forall|n: int|
            0 <= n < offsets@.len() ==> (#[trigger] offsets@[n])@.len() == triple.cols,
        forall|a: T, b: T| #[trigger] call_requires(*sum, (a, b)),
    ensures
        combined@.len() == offsets@.len() * triple.data@.len(),
        forall|n: int, i: int|
            0 <= n < offsets@.len() && 0 <= i < triple.data@.len() ==> call_ensures(
                *sum,
                (triple.data@[i], offsets@[n]@[i % (triple.cols as int)]),
                combined@[#[trigger] slab_entry(triple.data@.len() as int, n, i)],
            ),
{
    let size: usize = triple.data.len();
    let mut combined: Vec<T> = Vec::new();
    let mut n: usize = 0;
    assert(0 * size == 0);
    while n < offsets.len()
        invariant
            n <= offsets@.len(),
            size == triple.data@.len(),
            triple.wf(),
            forall|n: int|
                0 <= n < offsets@.len() ==> (#[trigger] offsets@[n])@.len() == triple.cols,
            forall|a: T, b: T| #[trigger] call_requires(*sum, (a, b)),
            combined@.len() == n * size,
            forall|k: int, i: int|
                0 <= k < n && 0 <= i < size ==> call_ensures(
                    *sum,
                    (triple.data@[i], offsets@[k]@[i % (triple.cols as int)]),
                    combined@[#[trigger] slab_entry(size as int, k, i)],
                ),
        decreases offsets.len() - n,
    {
        let mut i: usize = 0;
        while i < size
            invariant
                i <= size == triple.data@.len(),
                n < offsets@.len(),
                triple.wf(),
                size == triple.rows * triple.cols,
                offsets@[n as int]@.len() == triple.cols,
                forall|a: T, b: T| #[trigger] call_requires(*sum, (a, b)),
                combined@.len() == n * size + i,
                forall|k: int, j: int|
                    (0 <= k < n && 0 <= j < size) || (k == n && 0 <= j < i) ==> call_ensures(
                        *sum,
                        (triple.data@[j], offsets@[k]@[j % (triple.cols as int)]),
                        combined@[#[trigger] slab_entry(size as int, k, j)],
                    ),
            decreases size - i,
        {
            proof {
                assert(triple.cols > 0) by (nonlinear_arith)
                    requires
                        0 <= i < triple.rows * triple.cols,
                ;
            }
            let value = sum(triple.data[i], offsets[n][i % triple.cols]);
            let ghost before = combined@;
            combined.push(value);
            proof {
                assert forall|k: int, j: int|
                    (0 <= k < n && 0 <= j < size) || (k == n && 0 <= j < i + 1) implies call_ensures(
                    *sum,
                    (triple.data@[j], offsets@[k]@[j % (triple.cols as int)]),
                    combined@[#[trigger] slab_entry(size as int, k, j)],
                ) by {
                    if k < n {
                        lemma_entry(n as int, size as int, k, j);
                        assert(combined@[slab_entry(size as int, k, j)] == before[slab_entry(
                            size as int,
                            k,
                            j,
                        )]);
                    } else if j < i {
                        assert(combined@[slab_entry(size as int, k, j)] == before[slab_entry(
                            size as int,
                            k,
                            j,
                        )]);
                    } else {
                        assert(combined@[slab_entry(size as int, k, j)] == value);
                    }
                }
            }
            i = i + 1;
        }
        assert((n + 1) * size == n * size + size) by (nonlinear_arith);
        n = n + 1;
    }
    combined
}

/// Where an entry of a sub-layer's slab stands.
pub open spec fn slab_entry(size: int, n: int, i: int) -> int {
    n * size + i
}

/// The parameters of a block that live on the device.
#[derive(Debug)]
pub struct BlockParams<T> {
    pub self_attention: Vec<T>,
    pub cross_attention: Vec<T>,
    pub mlp: Vec<T>,
}

/// The device's parameters of the first `k` blocks: each block's attentions,
/// then its feed-forward.
pub open spec fn params_of<T>(blocks: Seq<BlockParams<T>>, k: int) -> Seq<T>
    decreases k,
{
    if k <= 0 {
        Seq::empty()
    } else {
        params_of(blocks, k - 1) + blocks[k - 1].self_attention@ + blocks[k - 1].cross_attention@
            + blocks[k - 1].mlp@
    }
}

/// The parameters the device path owns, block by block.
pub fn device_params<T: Copy>(blocks: &Vec<BlockParams<T>>) -> (params: Vec<T>)
    ensures
        params@ == params_of(blocks@, blocks@.len() as int),
{
    let mut params: Vec<T> = Vec::new();
    let mut i: usize = 0;
    while i < blocks.len()
        invariant
            i <= blocks@.len(),
            params@ == params_of(blocks@, i as int),
        decreases blocks.len() - i,
    {
        let mut next = copy_of(&blocks[i].self_attention);
        params.append(&mut next);
        let mut next = copy_of(&blocks[i].cross_attention);
        params.append(&mut next);
        let mut next = copy_of(&blocks[i].mlp);
        params.append(&mut next);
        i = i + 1;
    }
    params
}

/// Splits one sub-layer's conditioning gradient between the shared triple,
/// which keeps the sequences apart, and the sub-layer's offset, which sums
/// over them unless it is frozen.
pub fn accumulate_conditioning<T: Copy, F: Fn(T, T) -> T>(
    slab: &Vec<T>,
    grad_triple: &mut Matrix<T>,
    offset_grad: &mut Vec<T>,
    frozen: bool,
    sum: &F,
)
    requires
        old(grad_triple).wf(),
        slab@.len() == old(grad_triple).data@.len(),
        old(offset_grad)@.len() == old(grad_triple).cols,
        forall|a: T, b: T| #[trigger] call_requires(*sum, (a, b)),
    ensures
        final(grad_triple).wf(),
        final(grad_triple).rows == old(grad_triple).rows,
        final(grad_triple).cols == old(grad_triple).cols,
        is_added(old(grad_triple).data@, slab@, final(grad_triple).data@, *sum),
        final(offset_grad)@.len() == old(offset_grad)@.len(),
        frozen ==> final(offset_grad)@ == old(offset_grad)@,
        !frozen ==> is_summed(
            old(offset_grad)@,
            slab@,
            final(offset_grad)@,
            *sum,
            slab@.len() as int,
        ),
{
    let ghost triple = grad_triple.data@;
    let ghost offset = offset_grad@;
    let cols: usize = grad_triple.cols;
    let mut i: usize = 0;
    while i < slab.len()
        invariant
            i <= slab@.len() == triple.len(),
            grad_triple.data@.len() == triple.len(),
            grad_triple.rows == old(grad_triple).rows,
            grad_triple.cols == old(grad_triple).cols == cols,
            old(grad_triple).wf(),
            triple == old(grad_triple).data@,
            offset == old(offset_grad)@,
            offset_grad@.len() == offset.len() == cols,
            forall|a: T, b: T| #[trigger] call_requires(*sum, (a, b)),
            forall|k: int|
                0 <= k < i ==> call_ensures(
                    *sum,
                    (triple[k], slab@[k]),
                    #[trigger] grad_triple.data@[k],
                ),
            forall|k: int| i <= k < triple.len() ==> #[trigger] grad_triple.data@[k] == triple[k],
            frozen ==> offset_grad@ == offset,
            !frozen ==> is_summed(offset, slab@, offset_grad@, *sum, i as int),
        decreases slab.len() - i,
    {
        let ghost before = offset_grad@;
        let value = sum(grad_triple.data[i], slab[i]);
        grad_triple.data.set(i, value);
        if !frozen {
            proof {
                let rows = grad_triple.rows as int;
                assert(cols > 0) by (nonlinear_arith)
                    requires
                        0 <= i < rows * cols,
                ;
            }
            let at: usize = i % cols;
            let added = sum(offset_grad[at], slab[i]);
            offset_grad.set(at, added);
        }
        i = i + 1;
        assert(!frozen ==> is_one_summed(before, slab@, offset_grad@, *sum, i - 1));
    }
}

/// Whether entry `i` of a list was added to the entry of a shorter one that it
/// falls on.
pub open spec fn is_one_summed<T, F: Fn(T, T) -> T>(
    before: Seq<T>,
    added: Seq<T>,
    after: Seq<T>,
    sum: F,
    i: int,
) -> bool {
    let at = i % before.len() as int;
    &&& after.len() == before.len()
    &&& call_ensures(sum, (before[at], added[i]), after[at])
    &&& after == before.update(at, after[at])
}

/// Whether the first `k` entries of a list were added, one after another, to a
/// shorter one, over and over.
pub open spec fn is_summed<T, F: Fn(T, T) -> T>(
    before: Seq<T>,
    added: Seq<T>,
    after: Seq<T>,
    sum: F,
    k: int,
) -> bool
    decreases k,
{
    if k <= 0 {
        after == before
    } else {
        exists|middle: Seq<T>|
            is_summed(before, added, middle, sum, k - 1) && #[trigger] is_one_summed(
                middle,
                added,
                after,
                sum,
                k - 1,
            )
    }
}

} // verus!
