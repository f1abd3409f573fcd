//! A shape autoencoder on the device: the encoder squeezes surface points into
//! latents, the decoder answers query points.
//!
//! Point clouds of one size can be packed: they become independent sequences
//! inside one set of projections and attentions.
use crate::device::{
    add_span, after, after_all, attention_sizes, clear, copy, launch, project, project_back,
    reads1, reads2, reads3, reserve, rmsnorm, rmsnorm_backward, rmsnorm_backward_residual, runs,
    sized, start_of, tile, weight_gradient, writes1, writes2, Buffer, Grid, Kernel, Memory, Step,
};
use crate::error::{Fault, NetworkError};
use crate::text::{decimal, with_number, with_text, with_two_numbers};
use crate::tiles::{
    lemma_concat, lemma_one_more, lemma_project, lemma_project_back, lemma_weight_gradient,
};
use vstd::prelude::*;

verus! {

// -- What a batch has to be ----------------------------------------------------

/// The surface points of each shape of a batch.
pub fn split_surface(rows: usize, sequences: usize) -> (points: Result<usize, NetworkError>)
    ensures
        match points {
            Ok(points) => sequences > 0 && rows > 0 && rows == points * sequences,
            Err(error) => {
                &&& sequences == 0 || rows == 0 || rows % sequences != 0
                &&& error@ == Fault::InvalidConfig(
                    ""@ + decimal(rows as nat) + " surface rows cannot be split across "@ + decimal(
                        sequences as nat,
                    ) + " shapes"@,
                )
            },
        },
{
    if sequences == 0 || rows == 0 || rows % sequences != 0 {
        return Err(
            NetworkError::InvalidConfig(
                with_two_numbers(
                    "",
                    rows as u64,
                    " surface rows cannot be split across ",
                    sequences as u64,
                    " shapes",
                ),
            ),
        );
    }
    proof {
        vstd::arithmetic::div_mod::lemma_fundamental_div_mod(rows as int, sequences as int);
        assert(sequences * (rows as int / sequences as int) == (rows as int / sequences as int)
            * sequences) by (nonlinear_arith);
    }
    Ok(rows / sequences)
}

/// Whether latents and query points make a batch of so many shapes.
pub open spec fn is_batch(
    latent_rows: int,
    latent_cols: int,
    query_rows: int,
    sequences: int,
    latents: int,
    latent_dim: int,
) -> bool {
    sequences > 0 && latent_rows == sequences * latents && latent_cols == latent_dim && query_rows
        > 0 && query_rows % sequences == 0
}

/// The query points of each shape of a batch.
pub fn split_queries(
    latent_rows: usize,
    latent_cols: usize,
    query_rows: usize,
    sequences: usize,
    latents: usize,
    latent_dim: usize,
) -> (points: Result<usize, NetworkError>)
    requires
        sequences * latents <= usize::MAX,
    ensures
        match points {
            Ok(points) => is_batch(
                latent_rows as int,
                latent_cols as int,
                query_rows as int,
                sequences as int,
                latents as int,
                latent_dim as int,
            ) && query_rows == points * sequences,
            Err(error) => !is_batch(
                latent_rows as int,
                latent_cols as int,
                query_rows as int,
                sequences as int,
                latents as int,
                latent_dim as int,
            ) && error@ == Fault::InvalidConfig(
                "the batch has "@ + decimal(latent_rows as nat) + " latent rows and "@ + decimal(
                    query_rows as nat,
                ) + " query rows for "@ + decimal(sequences as nat) + " shapes; expected "@
                    + decimal((sequences * latents) as nat)
                    + " latent rows and equal query counts"@,
            ),
        },
{
    if sequences == 0 || latent_rows != sequences * latents || latent_cols != latent_dim
        || query_rows == 0 || query_rows % sequences != 0 {
        let first = with_two_numbers(
            "the batch has ",
            latent_rows as u64,
            " latent rows and ",
            query_rows as u64,
            " query rows for ",
        );
        let second = with_two_numbers(
            "",
            sequences as u64,
            " shapes; expected ",
            (sequences * latents) as u64,
            " latent rows and equal query counts",
        );
        let message = with_text(first.as_str(), second.as_str(), "");
        proof {
            reveal_strlit("");
            assert(message@ =~= "the batch has "@ + decimal(latent_rows as nat)
                + " latent rows and "@ + decimal(query_rows as nat) + " query rows for "@ + decimal(
                sequences as nat,
            ) + " shapes; expected "@ + decimal((sequences * latents) as nat)
                + " latent rows and equal query counts"@);
        }
        return Err(NetworkError::InvalidConfig(message));
    }
    proof {
        vstd::arithmetic::div_mod::lemma_fundamental_div_mod(query_rows as int, sequences as int);
        let q = query_rows as int / sequences as int;
        assert(sequences * q == q * sequences) by (nonlinear_arith);
    }
    Ok(query_rows / sequences)
}

/// Refuses gradients that do not fit the points that were decoded. The shape
/// of a colour gradient is its rows and columns.
pub fn check_gradients(rows: usize, distances: usize, colors: Option<(usize, usize)>) -> (checked:
    Result<(), NetworkError>)
    ensures
        match checked {
            Ok(()) => distances == rows && (colors is Some ==> colors->Some_0 == (rows, 3usize)),
            Err(error) => if distances != rows {
                error@ == Fault::InvalidConfig(
                    ""@ + decimal(rows as nat) + " query points were decoded and "@ + decimal(
                        distances as nat,
                    ) + " gradients came back"@,
                )
            } else {
                &&& colors is Some
                &&& colors->Some_0 != (rows, 3usize)
                &&& error@ == Fault::InvalidConfig(
                    "the colour gradient is ["@ + decimal(colors->Some_0.0 as nat) + ", "@
                        + decimal(colors->Some_0.1 as nat) + "] and should be ["@ + decimal(
                        rows as nat,
                    ) + ", 3]"@,
                )
            },
        },
{
    if distances != rows {
        return Err(
            NetworkError::InvalidConfig(
                with_two_numbers(
                    "",
                    rows as u64,
                    " query points were decoded and ",
                    distances as u64,
                    " gradients came back",
                ),
            ),
        );
    }
    if let Some((color_rows, color_cols)) = colors {
        if color_rows != rows || color_cols != 3 {
            let first = with_two_numbers(
                "the colour gradient is [",
                color_rows as u64,
                ", ",
                color_cols as u64,
                "] and should be [",
            );
            let second = with_number("", rows as u64, ", 3]");
            let message = with_text(first.as_str(), second.as_str(), "");
            proof {
                reveal_strlit("");
                assert(message@ =~= "the colour gradient is ["@ + decimal(color_rows as nat) + ", "@
                    + decimal(color_cols as nat) + "] and should be ["@ + decimal(rows as nat)
                    + ", 3]"@);
            }
            return Err(NetworkError::InvalidConfig(message));
        }
    }
    Ok(())
}

// -- Blocks --------------------------------------------------------------------

/// The sizes of a block's passes.
#[derive(Clone, Copy, Debug, PartialEq, Eq, Structural)]
pub struct BlockPlan {
    pub length: usize,
    pub sequences: usize,
    pub rows: usize,
    pub width: usize,
    pub hidden: usize,
    /// Where the gradients of the two scales start: the first slot of all is
    /// the encoder's own.
    pub norm0: usize,
    pub norm1: usize,
    pub norms: usize,
}

impl BlockPlan {
    /// Whether the sizes go together, and the slots lie inside their buffer.
    pub open spec fn wf(&self) -> bool {
        &&& self.rows == self.length * self.sequences
        &&& self.hidden == self.rows * self.width
        &&& self.norm1 == self.norm0 + self.width
        &&& self.norm1 + self.width <= self.norms
    }

    /// The plan of a block of a stack.
    pub fn new(length: usize, sequences: usize, width: usize, index: usize, blocks: usize) -> (plan:
        BlockPlan)
        requires
            index < blocks,
            length * sequences <= usize::MAX,
            length * sequences * width <= usize::MAX,
            1 + 2 * blocks <= usize::MAX,
            (1 + 2 * blocks) * width <= usize::MAX,
        ensures
            plan.wf(),
            plan.length == length,
            plan.sequences == sequences,
            plan.width == width,
            plan.norm0 == width + 2 * index * width,
            plan.norms == (1 + 2 * blocks) * width,
    {
        proof {
            let (i, n, w) = (index as int, blocks as int, width as int);
            assert(2 * i * w + 3 * w <= (1 + 2 * n) * w && 0 <= 2 * i * w) by (nonlinear_arith)
                requires
                    0 <= i < n,
                    0 <= w,
            ;
        }
        let rows: usize = length * sequences;
        let first: usize = width + 2 * index * width;
        BlockPlan {
            length,
            sequences,
            rows,
            width,
            hidden: rows * width,
            norm0: first,
            norm1: first + width,
            norms: (1 + 2 * blocks) * width,
        }
    }
}

/// A block forwards: self-attention and a feed-forward, both residual.
pub open spec fn block_steps(plan: BlockPlan) -> Seq<Step> {
    seq![
        reserve(Buffer::SubNormed(0), plan.hidden),
        reserve(Buffer::SubInverse(0), plan.rows),
        rmsnorm(
            Buffer::Stream(0),
            Buffer::SubWeight(0),
            Buffer::SubNormed(0),
            Buffer::SubInverse(0),
            plan.rows,
            plan.width,
            plan.hidden,
        ),
        reserve(Buffer::Stream(1), plan.hidden),
        launch(
            Kernel::Attention,
            Grid::Elements(plan.hidden),
            attention_sizes(plan.length, plan.length, plan.sequences, plan.width),
            reads1(start_of(Buffer::SubNormed(0), plan.hidden)),
            writes1(start_of(Buffer::Stream(1), plan.hidden)),
        ),
        add_span(Buffer::Stream(1), Buffer::Stream(0), 0, plan.hidden),
        reserve(Buffer::SubNormed(1), plan.hidden),
        reserve(Buffer::SubInverse(1), plan.rows),
        rmsnorm(
            Buffer::Stream(1),
            Buffer::SubWeight(1),
            Buffer::SubNormed(1),
            Buffer::SubInverse(1),
            plan.rows,
            plan.width,
            plan.hidden,
        ),
        reserve(Buffer::Stream(2), plan.hidden),
        clear(Buffer::Stream(2), plan.hidden),
        launch(
            Kernel::FeedForward,
            Grid::Elements(plan.hidden),
            sized(plan.rows, plan.width),
            reads2(
                start_of(Buffer::SubNormed(1), plan.hidden),
                start_of(Buffer::Stream(2), plan.hidden),
            ),
            writes1(start_of(Buffer::Stream(2), plan.hidden)),
        ),
        add_span(Buffer::Stream(2), Buffer::Stream(1), 0, plan.hidden),
    ]
}

/// A block forwards.
pub fn block_forward(plan: &BlockPlan) -> (steps: Vec<Step>)
    ensures
        steps@ == block_steps(*plan),
{
    let steps: Vec<Step> = vec![
        reserve(Buffer::SubNormed(0), plan.hidden),
        reserve(Buffer::SubInverse(0), plan.rows),
        rmsnorm(
            Buffer::Stream(0),
            Buffer::SubWeight(0),
            Buffer::SubNormed(0),
            Buffer::SubInverse(0),
            plan.rows,
            plan.width,
            plan.hidden,
        ),
        reserve(Buffer::Stream(1), plan.hidden),
        launch(
            Kernel::Attention,
            Grid::Elements(plan.hidden),
            attention_sizes(plan.length, plan.length, plan.sequences, plan.width),
            reads1(start_of(Buffer::SubNormed(0), plan.hidden)),
            writes1(start_of(Buffer::Stream(1), plan.hidden)),
        ),
        add_span(Buffer::Stream(1), Buffer::Stream(0), 0, plan.hidden),
        reserve(Buffer::SubNormed(1), plan.hidden),
        reserve(Buffer::SubInverse(1), plan.rows),
        rmsnorm(
            Buffer::Stream(1),
            Buffer::SubWeight(1),
            Buffer::SubNormed(1),
            Buffer::SubInverse(1),
            plan.rows,
            plan.width,
            plan.hidden,
        ),
        reserve(Buffer::Stream(2), plan.hidden),
        clear(Buffer::Stream(2), plan.hidden),
        launch(
            Kernel::FeedForward,
            Grid::Elements(plan.hidden),
            sized(plan.rows, plan.width),
            reads2(
                start_of(Buffer::SubNormed(1), plan.hidden),
                start_of(Buffer::Stream(2), plan.hidden),
            ),
            writes1(start_of(Buffer::Stream(2), plan.hidden)),
        ),
        add_span(Buffer::Stream(2), Buffer::Stream(1), 0, plan.hidden),
    ];
    assert(steps@ =~= block_steps(*plan));
    steps
}

/// A block's feed-forward backwards.
pub open spec fn block_mlp_gradient_steps(plan: BlockPlan) -> Seq<Step> {
    seq![
        reserve(Buffer::GradSubBranch(1), plan.hidden),
        copy(Buffer::GradStream(2), Buffer::GradSubBranch(1), plan.hidden),
        reserve(Buffer::GradSubNormed(1), plan.hidden),
        launch(
            Kernel::FeedForwardBackward,
            Grid::Elements(plan.hidden),
            sized(plan.rows, plan.width),
            reads2(
                start_of(Buffer::SubNormed(1), plan.hidden),
                start_of(Buffer::GradSubBranch(1), plan.hidden),
            ),
            writes1(start_of(Buffer::GradSubNormed(1), plan.hidden)),
        ),
        reserve(Buffer::GradStream(1), plan.hidden),
        rmsnorm_backward_residual(
            Buffer::Stream(1),
            Buffer::GradSubNormed(1),
            Buffer::SubWeight(1),
            Buffer::SubInverse(1),
            Buffer::GradStream(2),
            Buffer::GradStream(1),
            plan.norm1,
            plan.rows,
            plan.width,
            plan.hidden,
        ),
    ]
}

fn block_mlp_gradient(plan: &BlockPlan) -> (steps: Vec<Step>)
    ensures
        steps@ == block_mlp_gradient_steps(*plan),
{
    let steps: Vec<Step> = vec![
        reserve(Buffer::GradSubBranch(1), plan.hidden),
        copy(Buffer::GradStream(2), Buffer::GradSubBranch(1), plan.hidden),
        reserve(Buffer::GradSubNormed(1), plan.hidden),
        launch(
            Kernel::FeedForwardBackward,
            Grid::Elements(plan.hidden),
            sized(plan.rows, plan.width),
            reads2(
                start_of(Buffer::SubNormed(1), plan.hidden),
                start_of(Buffer::GradSubBranch(1), plan.hidden),
            ),
            writes1(start_of(Buffer::GradSubNormed(1), plan.hidden)),
        ),
        reserve(Buffer::GradStream(1), plan.hidden),
        rmsnorm_backward_residual(
            Buffer::Stream(1),
            Buffer::GradSubNormed(1),
            Buffer::SubWeight(1),
            Buffer::SubInverse(1),
            Buffer::GradStream(2),
            Buffer::GradStream(1),
            plan.norm1,
            plan.rows,
            plan.width,
            plan.hidden,
        ),
    ];
    assert(steps@ =~= block_mlp_gradient_steps(*plan));
    steps
}

/// A block's self-attention backwards. Its queries and keys were the same
/// activations, so its two input gradients are two halves of one.
pub open spec fn block_attention_gradient_steps(plan: BlockPlan) -> Seq<Step> {
    seq![
        reserve(Buffer::GradSubNormed(0), plan.hidden),
        reserve(Buffer::GradKeys(0), plan.hidden),
        launch(
            Kernel::AttentionBackward,
            Grid::Elements(plan.hidden),
            attention_sizes(plan.length, plan.length, plan.sequences, plan.width),
            reads2(
                start_of(Buffer::GradStream(1), plan.hidden),
                start_of(Buffer::SubNormed(0), plan.hidden),
            ),
            writes2(
                start_of(Buffer::GradSubNormed(0), plan.hidden),
                start_of(Buffer::GradKeys(0), plan.hidden),
            ),
        ),
        add_span(Buffer::GradSubNormed(0), Buffer::GradKeys(0), 0, plan.hidden),
        reserve(Buffer::GradStream(0), plan.hidden),
        rmsnorm_backward_residual(
            Buffer::Stream(0),
            Buffer::GradSubNormed(0),
            Buffer::SubWeight(0),
            Buffer::SubInverse(0),
            Buffer::GradStream(1),
            Buffer::GradStream(0),
            plan.norm0,
            plan.rows,
            plan.width,
            plan.hidden,
        ),
    ]
}

fn block_attention_gradient(plan: &BlockPlan) -> (steps: Vec<Step>)
    ensures
        steps@ == block_attention_gradient_steps(*plan),
{
    let steps: Vec<Step> = vec![
        reserve(Buffer::GradSubNormed(0), plan.hidden),
        reserve(Buffer::GradKeys(0), plan.hidden),
        launch(
            Kernel::AttentionBackward,
            Grid::Elements(plan.hidden),
            attention_sizes(plan.length, plan.length, plan.sequences, plan.width),
            reads2(
                start_of(Buffer::GradStream(1), plan.hidden),
                start_of(Buffer::SubNormed(0), plan.hidden),
            ),
            writes2(
                start_of(Buffer::GradSubNormed(0), plan.hidden),
                start_of(Buffer::GradKeys(0), plan.hidden),
            ),
        ),
        add_span(Buffer::GradSubNormed(0), Buffer::GradKeys(0), 0, plan.hidden),
        reserve(Buffer::GradStream(0), plan.hidden),
        rmsnorm_backward_residual(
            Buffer::Stream(0),
            Buffer::GradSubNormed(0),
            Buffer::SubWeight(0),
            Buffer::SubInverse(0),
            Buffer::GradStream(1),
            Buffer::GradStream(0),
            plan.norm0,
            plan.rows,
            plan.width,
            plan.hidden,
        ),
    ];
    assert(steps@ =~= block_attention_gradient_steps(*plan));
    steps
}

/// A block backwards.
pub open spec fn block_backward_steps(plan: BlockPlan) -> Seq<Step> {
    block_mlp_gradient_steps(plan) + block_attention_gradient_steps(plan)
}

/// A block backwards.
pub fn block_backward(plan: &BlockPlan) -> (steps: Vec<Step>)
    ensures
        steps@ == block_backward_steps(*plan),
{
    let mut steps = block_mlp_gradient(plan);
    let mut next = block_attention_gradient(plan);
    steps.append(&mut next);
    steps
}

// -- The encoder ---------------------------------------------------------------

/// The sizes of the encoder, but for its blocks.
#[derive(Clone, Copy, Debug, PartialEq, Eq, Structural)]
pub struct EncodePlan {
    pub latents: usize,
    pub points: usize,
    pub sequences: usize,
    pub rows: usize,
    pub point_rows: usize,
    pub width: usize,
    pub feature_dim: usize,
    /// Mean and log-variance together.
    pub moments: usize,
    /// How long the buffers are.
    pub hidden: usize,
    pub token_len: usize,
    pub feature_len: usize,
    pub surface_weight: usize,
    pub moment_len: usize,
    pub moment_weight: usize,
    pub norms: usize,
}

impl EncodePlan {
    /// Whether the sizes go together.
    pub open spec fn wf(&self) -> bool {
        &&& self.rows == self.latents * self.sequences
        &&& self.point_rows == self.points * self.sequences
        &&& self.hidden == self.rows * self.width
        &&& self.token_len == self.point_rows * self.width
        &&& self.feature_len == self.point_rows * self.feature_dim
        &&& self.surface_weight == self.width * self.feature_dim
        &&& self.moment_len == self.rows * self.moments
        &&& self.moment_weight == self.moments * self.width
        &&& self.width <= self.norms
    }

    /// The plan of an encoder of so many blocks.
    pub fn new(
        latents: usize,
        points: usize,
        sequences: usize,
        width: usize,
        feature_dim: usize,
        latent_dim: usize,
        blocks: usize,
    ) -> (plan: EncodePlan)
        requires
            latents * sequences <= usize::MAX,
            points * sequences <= usize::MAX,
            latents * sequences * width <= usize::MAX,
            points * sequences * width <= usize::MAX,
            points * sequences * feature_dim <= usize::MAX,
            width * feature_dim <= usize::MAX,
            2 * latent_dim <= usize::MAX,
            latents * sequences * (2 * latent_dim) <= usize::MAX,
            2 * latent_dim * width <= usize::MAX,
            1 + 2 * blocks <= usize::MAX,
            (1 + 2 * blocks) * width <= usize::MAX,
        ensures
            plan.wf(),
            plan.latents == latents,
            plan.points == points,
            plan.sequences == sequences,
            plan.width == width,
            plan.feature_dim == feature_dim,
            plan.moments == 2 * latent_dim,
            plan.norms == (1 + 2 * blocks) * width,
    {
        let rows: usize = latents * sequences;
        let point_rows: usize = points * sequences;
        let moments: usize = 2 * latent_dim;
        assert(width <= (1 + 2 * blocks) * width) by (nonlinear_arith)
            requires
                0 <= blocks,
                0 <= width,
        ;
        EncodePlan {
            latents,
            points,
            sequences,
            rows,
            point_rows,
            width,
            feature_dim,
            moments,
            hidden: rows * width,
            token_len: point_rows * width,
            feature_len: point_rows * feature_dim,
            surface_weight: width * feature_dim,
            moment_len: rows * moments,
            moment_weight: moments * width,
            norms: (1 + 2 * blocks) * width,
        }
    }
}

/// The latent queries, attending to the surface points.
pub open spec fn read_surface_steps(plan: EncodePlan) -> Seq<Step> {
    seq![
        reserve(Buffer::Tokens, plan.token_len),
        project(
            tile(Buffer::Features, 0, plan.feature_dim),
            tile(Buffer::SurfaceWeight, 0, plan.feature_dim),
            tile(Buffer::Tokens, 0, plan.width),
            plan.point_rows,
            plan.width,
            plan.feature_dim,
            false,
        ),
        reserve(Buffer::Stream(0), plan.hidden),
        launch(
            Kernel::Attention,
            Grid::Elements(plan.hidden),
            attention_sizes(plan.latents, plan.points, plan.sequences, plan.width),
            reads2(
                start_of(Buffer::Queries, plan.hidden),
                start_of(Buffer::Tokens, plan.token_len),
            ),
            writes1(start_of(Buffer::Stream(0), plan.hidden)),
        ),
        add_span(Buffer::Stream(0), Buffer::Queries, 0, plan.hidden),
    ]
}

/// The steps before the blocks of the encoder.
pub fn read_surface(plan: &EncodePlan) -> (steps: Vec<Step>)
    ensures
        steps@ == read_surface_steps(*plan),
{
    let steps: Vec<Step> = vec![
        reserve(Buffer::Tokens, plan.token_len),
        project(
            tile(Buffer::Features, 0, plan.feature_dim),
            tile(Buffer::SurfaceWeight, 0, plan.feature_dim),
            tile(Buffer::Tokens, 0, plan.width),
            plan.point_rows,
            plan.width,
            plan.feature_dim,
            false,
        ),
        reserve(Buffer::Stream(0), plan.hidden),
        launch(
            Kernel::Attention,
            Grid::Elements(plan.hidden),
            attention_sizes(plan.latents, plan.points, plan.sequences, plan.width),
            reads2(
                start_of(Buffer::Queries, plan.hidden),
                start_of(Buffer::Tokens, plan.token_len),
            ),
            writes1(start_of(Buffer::Stream(0), plan.hidden)),
        ),
        add_span(Buffer::Stream(0), Buffer::Queries, 0, plan.hidden),
    ];
    assert(steps@ =~= read_surface_steps(*plan));
    steps
}

/// The moments of the latents.
pub open spec fn moments_steps(plan: EncodePlan) -> Seq<Step> {
    seq![
        reserve(Buffer::SubNormed(2), plan.hidden),
        reserve(Buffer::SubInverse(2), plan.rows),
        rmsnorm(
            Buffer::Stream(2),
            Buffer::SubWeight(2),
            Buffer::SubNormed(2),
            Buffer::SubInverse(2),
            plan.rows,
            plan.width,
            plan.hidden,
        ),
        reserve(Buffer::Moments, plan.moment_len),
        project(
            tile(Buffer::SubNormed(2), 0, plan.width),
            tile(Buffer::MomentsWeight, 0, plan.width),
            tile(Buffer::Moments, 0, plan.moments),
            plan.rows,
            plan.moments,
            plan.width,
            false,
        ),
    ]
}

/// The steps after them.
pub fn moments(plan: &EncodePlan) -> (steps: Vec<Step>)
    ensures
        steps@ == moments_steps(*plan),
{
    let steps: Vec<Step> = vec![
        reserve(Buffer::SubNormed(2), plan.hidden),
        reserve(Buffer::SubInverse(2), plan.rows),
        rmsnorm(
            Buffer::Stream(2),
            Buffer::SubWeight(2),
            Buffer::SubNormed(2),
            Buffer::SubInverse(2),
            plan.rows,
            plan.width,
            plan.hidden,
        ),
        reserve(Buffer::Moments, plan.moment_len),
        project(
            tile(Buffer::SubNormed(2), 0, plan.width),
            tile(Buffer::MomentsWeight, 0, plan.width),
            tile(Buffer::Moments, 0, plan.moments),
            plan.rows,
            plan.moments,
            plan.width,
            false,
        ),
    ];
    assert(steps@ =~= moments_steps(*plan));
    steps
}

/// The gradient of the moments.
pub open spec fn moments_gradient_steps(plan: EncodePlan) -> Seq<Step> {
    seq![
        reserve(Buffer::GradNorms, plan.norms),
        clear(Buffer::GradNorms, plan.norms),
        reserve(Buffer::GradSubNormed(2), plan.hidden),
        project_back(
            tile(Buffer::GradMoments, 0, plan.moments),
            tile(Buffer::MomentsWeight, 0, plan.width),
            tile(Buffer::GradSubNormed(2), 0, plan.width),
            plan.rows,
            plan.width,
            plan.moments,
            false,
        ),
        weight_gradient(
            tile(Buffer::GradMoments, 0, plan.moments),
            tile(Buffer::SubNormed(2), 0, plan.width),
            tile(Buffer::MomentsGrad, 0, plan.width),
            plan.moments,
            plan.width,
            plan.rows,
            true,
        ),
        reserve(Buffer::GradStream(2), plan.hidden),
        rmsnorm_backward(
            Buffer::Stream(2),
            Buffer::GradSubNormed(2),
            Buffer::SubWeight(2),
            Buffer::SubInverse(2),
            Buffer::GradStream(2),
            0,
            plan.rows,
            plan.width,
            plan.hidden,
        ),
    ]
}

/// The steps before the blocks, backwards.
pub fn moments_gradient(plan: &EncodePlan) -> (steps: Vec<Step>)
    ensures
        steps@ == moments_gradient_steps(*plan),
{
    let steps: Vec<Step> = vec![
        reserve(Buffer::GradNorms, plan.norms),
        clear(Buffer::GradNorms, plan.norms),
        reserve(Buffer::GradSubNormed(2), plan.hidden),
        project_back(
            tile(Buffer::GradMoments, 0, plan.moments),
            tile(Buffer::MomentsWeight, 0, plan.width),
            tile(Buffer::GradSubNormed(2), 0, plan.width),
            plan.rows,
            plan.width,
            plan.moments,
            false,
        ),
        weight_gradient(
            tile(Buffer::GradMoments, 0, plan.moments),
            tile(Buffer::SubNormed(2), 0, plan.width),
            tile(Buffer::MomentsGrad, 0, plan.width),
            plan.moments,
            plan.width,
            plan.rows,
            true,
        ),
        reserve(Buffer::GradStream(2), plan.hidden),
        rmsnorm_backward(
            Buffer::Stream(2),
            Buffer::GradSubNormed(2),
            Buffer::SubWeight(2),
            Buffer::SubInverse(2),
            Buffer::GradStream(2),
            0,
            plan.rows,
            plan.width,
            plan.hidden,
        ),
    ];
    assert(steps@ =~= moments_gradient_steps(*plan));
    steps
}

/// The attention backwards, and the gradient of the surface projection.
pub open spec fn surface_gradient_steps(plan: EncodePlan) -> Seq<Step> {
    seq![
        reserve(Buffer::GradQueries, plan.hidden),
        reserve(Buffer::GradTokens, plan.token_len),
        launch(
            Kernel::AttentionBackward,
            Grid::Elements(plan.hidden),
            attention_sizes(plan.latents, plan.points, plan.sequences, plan.width),
            reads3(
                start_of(Buffer::GradStream(0), plan.hidden),
                start_of(Buffer::Queries, plan.hidden),
                start_of(Buffer::Tokens, plan.token_len),
            ),
            writes2(
                start_of(Buffer::GradQueries, plan.hidden),
                start_of(Buffer::GradTokens, plan.token_len),
            ),
        ),
        add_span(Buffer::GradQueries, Buffer::GradStream(0), 0, plan.hidden),
        weight_gradient(
            tile(Buffer::GradTokens, 0, plan.width),
            tile(Buffer::Features, 0, plan.feature_dim),
            tile(Buffer::SurfaceGrad, 0, plan.feature_dim),
            plan.width,
            plan.feature_dim,
            plan.point_rows,
            true,
        ),
    ]
}

/// The steps after them, backwards.
pub fn surface_gradient(plan: &EncodePlan) -> (steps: Vec<Step>)
    ensures
        steps@ == surface_gradient_steps(*plan),
{
    let steps: Vec<Step> = vec![
        reserve(Buffer::GradQueries, plan.hidden),
        reserve(Buffer::GradTokens, plan.token_len),
        launch(
            Kernel::AttentionBackward,
            Grid::Elements(plan.hidden),
            attention_sizes(plan.latents, plan.points, plan.sequences, plan.width),
            reads3(
                start_of(Buffer::GradStream(0), plan.hidden),
                start_of(Buffer::Queries, plan.hidden),
                start_of(Buffer::Tokens, plan.token_len),
            ),
            writes2(
                start_of(Buffer::GradQueries, plan.hidden),
                start_of(Buffer::GradTokens, plan.token_len),
            ),
        ),
        add_span(Buffer::GradQueries, Buffer::GradStream(0), 0, plan.hidden),
        weight_gradient(
            tile(Buffer::GradTokens, 0, plan.width),
            tile(Buffer::Features, 0, plan.feature_dim),
            tile(Buffer::SurfaceGrad, 0, plan.feature_dim),
            plan.width,
            plan.feature_dim,
            plan.point_rows,
            true,
        ),
    ];
    assert(steps@ =~= surface_gradient_steps(*plan));
    steps
}

// -- The decoder ---------------------------------------------------------------

/// The sizes of the decoder.
#[derive(Clone, Copy, Debug, PartialEq, Eq, Structural)]
pub struct DecodePlan {
    pub latents: usize,
    pub query_rows: usize,
    pub sequences: usize,
    pub rows: usize,
    pub latent_rows: usize,
    pub width: usize,
    pub feature_dim: usize,
    pub latent_dim: usize,
    /// How long the buffers are.
    pub hidden: usize,
    pub latent_hidden: usize,
    pub latent_len: usize,
    pub feature_len: usize,
    pub latent_weight: usize,
    pub point_weight: usize,
    pub color_len: usize,
    pub color_weight: usize,
    /// Where the gradients of the two scales start.
    pub norm0: usize,
    pub norm1: usize,
    pub norms: usize,
}

impl DecodePlan {
    /// Whether the sizes go together.
    pub open spec fn wf(&self) -> bool {
        &&& self.rows == self.query_rows * self.sequences
        &&& self.latent_rows == self.latents * self.sequences
        &&& self.hidden == self.rows * self.width
        &&& self.latent_hidden == self.latent_rows * self.width
        &&& self.latent_len == self.latent_rows * self.latent_dim
        &&& self.feature_len == self.rows * self.feature_dim
        &&& self.latent_weight == self.width * self.latent_dim
        &&& self.point_weight == self.width * self.feature_dim
        &&& self.color_len == self.rows * 3
        &&& self.color_weight == 3 * self.width
        &&& self.norm0 == 0
        &&& self.norm1 == self.width
        &&& self.norms == 2 * self.width
    }

    /// The plan of a decoder.
    pub fn new(
        latents: usize,
        query_rows: usize,
        sequences: usize,
        width: usize,
        feature_dim: usize,
        latent_dim: usize,
    ) -> (plan: DecodePlan)
        requires
            latents * sequences <= usize::MAX,
            query_rows * sequences <= usize::MAX,
            query_rows * sequences * width <= usize::MAX,
            latents * sequences * width <= usize::MAX,
            latents * sequences * latent_dim <= usize::MAX,
            query_rows * sequences * feature_dim <= usize::MAX,
            width * latent_dim <= usize::MAX,
            width * feature_dim <= usize::MAX,
            query_rows * sequences * 3 <= usize::MAX,
            3 * width <= usize::MAX,
        ensures
            plan.wf(),
            plan.latents == latents,
            plan.query_rows == query_rows,
            plan.sequences == sequences,
            plan.width == width,
            plan.feature_dim == feature_dim,
            plan.latent_dim == latent_dim,
    {
        let rows: usize = query_rows * sequences;
        let latent_rows: usize = latents * sequences;
        DecodePlan {
            latents,
            query_rows,
            sequences,
            rows,
            latent_rows,
            width,
            feature_dim,
            latent_dim,
            hidden: rows * width,
            latent_hidden: latent_rows * width,
            latent_len: latent_rows * latent_dim,
            feature_len: rows * feature_dim,
            latent_weight: width * latent_dim,
            point_weight: width * feature_dim,
            color_len: rows * 3,
            color_weight: 3 * width,
            norm0: 0,
            norm1: width,
            norms: 2 * width,
        }
    }
}

/// The query points, attending to the latents.
pub open spec fn read_latent_steps(plan: DecodePlan) -> Seq<Step> {
    seq![
        reserve(Buffer::LatentRows, plan.latent_hidden),
        project(
            tile(Buffer::Latent, 0, plan.latent_dim),
            tile(Buffer::LatentWeight, 0, plan.latent_dim),
            tile(Buffer::LatentRows, 0, plan.width),
            plan.latent_rows,
            plan.width,
            plan.latent_dim,
            false,
        ),
        reserve(Buffer::Queries, plan.hidden),
        project(
            tile(Buffer::Features, 0, plan.feature_dim),
            tile(Buffer::PointWeight, 0, plan.feature_dim),
            tile(Buffer::Queries, 0, plan.width),
            plan.rows,
            plan.width,
            plan.feature_dim,
            false,
        ),
        reserve(Buffer::Stream(0), plan.hidden),
        launch(
            Kernel::Attention,
            Grid::Elements(plan.hidden),
            attention_sizes(plan.query_rows, plan.latents, plan.sequences, plan.width),
            reads2(
                start_of(Buffer::Queries, plan.hidden),
                start_of(Buffer::LatentRows, plan.latent_hidden),
            ),
            writes1(start_of(Buffer::Stream(0), plan.hidden)),
        ),
        add_span(Buffer::Stream(0), Buffer::Queries, 0, plan.hidden),
    ]
}

fn read_latent(plan: &DecodePlan) -> (steps: Vec<Step>)
    ensures
        steps@ == read_latent_steps(*plan),
{
    let steps: Vec<Step> = vec![
        reserve(Buffer::LatentRows, plan.latent_hidden),
        project(
            tile(Buffer::Latent, 0, plan.latent_dim),
            tile(Buffer::LatentWeight, 0, plan.latent_dim),
            tile(Buffer::LatentRows, 0, plan.width),
            plan.latent_rows,
            plan.width,
            plan.latent_dim,
            false,
        ),
        reserve(Buffer::Queries, plan.hidden),
        project(
            tile(Buffer::Features, 0, plan.feature_dim),
            tile(Buffer::PointWeight, 0, plan.feature_dim),
            tile(Buffer::Queries, 0, plan.width),
            plan.rows,
            plan.width,
            plan.feature_dim,
            false,
        ),
        reserve(Buffer::Stream(0), plan.hidden),
        launch(
            Kernel::Attention,
            Grid::Elements(plan.hidden),
            attention_sizes(plan.query_rows, plan.latents, plan.sequences, plan.width),
            reads2(
                start_of(Buffer::Queries, plan.hidden),
                start_of(Buffer::LatentRows, plan.latent_hidden),
            ),
            writes1(start_of(Buffer::Stream(0), plan.hidden)),
        ),
        add_span(Buffer::Stream(0), Buffer::Queries, 0, plan.hidden),
    ];
    assert(steps@ =~= read_latent_steps(*plan));
    steps
}

/// A feed-forward, and the distances read off it.
pub open spec fn distances_steps(plan: DecodePlan) -> Seq<Step> {
    seq![
        reserve(Buffer::SubNormed(0), plan.hidden),
        reserve(Buffer::SubInverse(0), plan.rows),
        rmsnorm(
            Buffer::Stream(0),
            Buffer::SubWeight(0),
            Buffer::SubNormed(0),
            Buffer::SubInverse(0),
            plan.rows,
            plan.width,
            plan.hidden,
        ),
        reserve(Buffer::Stream(1), plan.hidden),
        clear(Buffer::Stream(1), plan.hidden),
        launch(
            Kernel::FeedForward,
            Grid::Elements(plan.hidden),
            sized(plan.rows, plan.width),
            reads2(
                start_of(Buffer::SubNormed(0), plan.hidden),
                start_of(Buffer::Stream(1), plan.hidden),
            ),
            writes1(start_of(Buffer::Stream(1), plan.hidden)),
        ),
        add_span(Buffer::Stream(1), Buffer::Stream(0), 0, plan.hidden),
        reserve(Buffer::SubNormed(1), plan.hidden),
        reserve(Buffer::SubInverse(1), plan.rows),
        rmsnorm(
            Buffer::Stream(1),
            Buffer::SubWeight(1),
            Buffer::SubNormed(1),
            Buffer::SubInverse(1),
            plan.rows,
            plan.width,
            plan.hidden,
        ),
        reserve(Buffer::Distances, plan.rows),
        project(
            tile(Buffer::SubNormed(1), 0, plan.width),
            tile(Buffer::DistanceWeight, 0, plan.width),
            tile(Buffer::Distances, 0, 1),
            plan.rows,
            1,
            plan.width,
            false,
        ),
    ]
}

fn distances(plan: &DecodePlan) -> (steps: Vec<Step>)
    ensures
        steps@ == distances_steps(*plan),
{
    let steps: Vec<Step> = vec![
        reserve(Buffer::SubNormed(0), plan.hidden),
        reserve(Buffer::SubInverse(0), plan.rows),
        rmsnorm(
            Buffer::Stream(0),
            Buffer::SubWeight(0),
            Buffer::SubNormed(0),
            Buffer::SubInverse(0),
            plan.rows,
            plan.width,
            plan.hidden,
        ),
        reserve(Buffer::Stream(1), plan.hidden),
        clear(Buffer::Stream(1), plan.hidden),
        launch(
            Kernel::FeedForward,
            Grid::Elements(plan.hidden),
            sized(plan.rows, plan.width),
            reads2(
                start_of(Buffer::SubNormed(0), plan.hidden),
                start_of(Buffer::Stream(1), plan.hidden),
            ),
            writes1(start_of(Buffer::Stream(1), plan.hidden)),
        ),
        add_span(Buffer::Stream(1), Buffer::Stream(0), 0, plan.hidden),
        reserve(Buffer::SubNormed(1), plan.hidden),
        reserve(Buffer::SubInverse(1), plan.rows),
        rmsnorm(
            Buffer::Stream(1),
            Buffer::SubWeight(1),
            Buffer::SubNormed(1),
            Buffer::SubInverse(1),
            plan.rows,
            plan.width,
            plan.hidden,
        ),
        reserve(Buffer::Distances, plan.rows),
        project(
            tile(Buffer::SubNormed(1), 0, plan.width),
            tile(Buffer::DistanceWeight, 0, plan.width),
            tile(Buffer::Distances, 0, 1),
            plan.rows,
            1,
            plan.width,
            false,
        ),
    ];
    assert(steps@ =~= distances_steps(*plan));
    steps
}

/// The colours, off what the distances were read from.
pub open spec fn colors_steps(plan: DecodePlan) -> Seq<Step> {
    seq![
        reserve(Buffer::Colors, plan.color_len),
        project(
            tile(Buffer::SubNormed(1), 0, plan.width),
            tile(Buffer::ColorWeight, 0, plan.width),
            tile(Buffer::Colors, 0, 3),
            plan.rows,
            3,
            plan.width,
            false,
        ),
    ]
}

/// The colours of the points that were decoded.
pub fn colors(plan: &DecodePlan) -> (steps: Vec<Step>)
    ensures
        steps@ == colors_steps(*plan),
{
    let steps: Vec<Step> = vec![
        reserve(Buffer::Colors, plan.color_len),
        project(
            tile(Buffer::SubNormed(1), 0, plan.width),
            tile(Buffer::ColorWeight, 0, plan.width),
            tile(Buffer::Colors, 0, 3),
            plan.rows,
            3,
            plan.width,
            false,
        ),
    ];
    assert(steps@ =~= colors_steps(*plan));
    steps
}

/// The gradient of the distances.
pub open spec fn distances_gradient_steps(plan: DecodePlan) -> Seq<Step> {
    seq![
        reserve(Buffer::GradNorms, plan.norms),
        clear(Buffer::GradNorms, plan.norms),
        reserve(Buffer::GradSubNormed(1), plan.hidden),
        project_back(
            tile(Buffer::GradDistances, 0, 1),
            tile(Buffer::DistanceWeight, 0, plan.width),
            tile(Buffer::GradSubNormed(1), 0, plan.width),
            plan.rows,
            plan.width,
            1,
            false,
        ),
        weight_gradient(
            tile(Buffer::GradDistances, 0, 1),
            tile(Buffer::SubNormed(1), 0, plan.width),
            tile(Buffer::DistanceGrad, 0, plan.width),
            1,
            plan.width,
            plan.rows,
            true,
        ),
    ]
}

fn distances_gradient(plan: &DecodePlan) -> (steps: Vec<Step>)
    ensures
        steps@ == distances_gradient_steps(*plan),
{
    let steps: Vec<Step> = vec![
        reserve(Buffer::GradNorms, plan.norms),
        clear(Buffer::GradNorms, plan.norms),
        reserve(Buffer::GradSubNormed(1), plan.hidden),
        project_back(
            tile(Buffer::GradDistances, 0, 1),
            tile(Buffer::DistanceWeight, 0, plan.width),
            tile(Buffer::GradSubNormed(1), 0, plan.width),
            plan.rows,
            plan.width,
            1,
            false,
        ),
        weight_gradient(
            tile(Buffer::GradDistances, 0, 1),
            tile(Buffer::SubNormed(1), 0, plan.width),
            tile(Buffer::DistanceGrad, 0, plan.width),
            1,
            plan.width,
            plan.rows,
            true,
        ),
    ];
    assert(steps@ =~= distances_gradient_steps(*plan));
    steps
}

/// The gradient of the colours, added to it.
pub open spec fn colors_gradient_steps(plan: DecodePlan) -> Seq<Step> {
    seq![
        reserve(Buffer::FromColors, plan.hidden),
        project_back(
            tile(Buffer::GradColors, 0, 3),
            tile(Buffer::ColorWeight, 0, plan.width),
            tile(Buffer::FromColors, 0, plan.width),
            plan.rows,
            plan.width,
            3,
            false,
        ),
        weight_gradient(
            tile(Buffer::GradColors, 0, 3),
            tile(Buffer::SubNormed(1), 0, plan.width),
            tile(Buffer::ColorGrad, 0, plan.width),
            3,
            plan.width,
            plan.rows,
            true,
        ),
        add_span(Buffer::GradSubNormed(1), Buffer::FromColors, 0, plan.hidden),
    ]
}

fn colors_gradient(plan: &DecodePlan) -> (steps: Vec<Step>)
    ensures
        steps@ == colors_gradient_steps(*plan),
{
    let steps: Vec<Step> = vec![
        reserve(Buffer::FromColors, plan.hidden),
        project_back(
            tile(Buffer::GradColors, 0, 3),
            tile(Buffer::ColorWeight, 0, plan.width),
            tile(Buffer::FromColors, 0, plan.width),
            plan.rows,
            plan.width,
            3,
            false,
        ),
        weight_gradient(
            tile(Buffer::GradColors, 0, 3),
            tile(Buffer::SubNormed(1), 0, plan.width),
            tile(Buffer::ColorGrad, 0, plan.width),
            3,
            plan.width,
            plan.rows,
            true,
        ),
        add_span(Buffer::GradSubNormed(1), Buffer::FromColors, 0, plan.hidden),
    ];
    assert(steps@ =~= colors_gradient_steps(*plan));
    steps
}

/// The decoder's feed-forward backwards.
pub open spec fn mlp_gradient_steps(plan: DecodePlan) -> Seq<Step> {
    seq![
        reserve(Buffer::GradStream(1), plan.hidden),
        rmsnorm_backward(
            Buffer::Stream(1),
            Buffer::GradSubNormed(1),
            Buffer::SubWeight(1),
            Buffer::SubInverse(1),
            Buffer::GradStream(1),
            plan.norm1,
            plan.rows,
            plan.width,
            plan.hidden,
        ),
        reserve(Buffer::GradSubBranch(0), plan.hidden),
        copy(Buffer::GradStream(1), Buffer::GradSubBranch(0), plan.hidden),
        reserve(Buffer::GradSubNormed(0), plan.hidden),
        launch(
            Kernel::FeedForwardBackward,
            Grid::Elements(plan.hidden),
            sized(plan.rows, plan.width),
            reads2(
                start_of(Buffer::SubNormed(0), plan.hidden),
                start_of(Buffer::GradSubBranch(0), plan.hidden),
            ),
            writes1(start_of(Buffer::GradSubNormed(0), plan.hidden)),
        ),
        reserve(Buffer::GradStream(0), plan.hidden),
        rmsnorm_backward_residual(
            Buffer::Stream(0),
            Buffer::GradSubNormed(0),
            Buffer::SubWeight(0),
            Buffer::SubInverse(0),
            Buffer::GradStream(1),
            Buffer::GradStream(0),
            plan.norm0,
            plan.rows,
            plan.width,
            plan.hidden,
        ),
    ]
}

fn mlp_gradient(plan: &DecodePlan) -> (steps: Vec<Step>)
    ensures
        steps@ == mlp_gradient_steps(*plan),
{
    let steps: Vec<Step> = vec![
        reserve(Buffer::GradStream(1), plan.hidden),
        rmsnorm_backward(
            Buffer::Stream(1),
            Buffer::GradSubNormed(1),
            Buffer::SubWeight(1),
            Buffer::SubInverse(1),
            Buffer::GradStream(1),
            plan.norm1,
            plan.rows,
            plan.width,
            plan.hidden,
        ),
        reserve(Buffer::GradSubBranch(0), plan.hidden),
        copy(Buffer::GradStream(1), Buffer::GradSubBranch(0), plan.hidden),
        reserve(Buffer::GradSubNormed(0), plan.hidden),
        launch(
            Kernel::FeedForwardBackward,
            Grid::Elements(plan.hidden),
            sized(plan.rows, plan.width),
            reads2(
                start_of(Buffer::SubNormed(0), plan.hidden),
                start_of(Buffer::GradSubBranch(0), plan.hidden),
            ),
            writes1(start_of(Buffer::GradSubNormed(0), plan.hidden)),
        ),
        reserve(Buffer::GradStream(0), plan.hidden),
        rmsnorm_backward_residual(
            Buffer::Stream(0),
            Buffer::GradSubNormed(0),
            Buffer::SubWeight(0),
            Buffer::SubInverse(0),
            Buffer::GradStream(1),
            Buffer::GradStream(0),
            plan.norm0,
            plan.rows,
            plan.width,
            plan.hidden,
        ),
    ];
    assert(steps@ =~= mlp_gradient_steps(*plan));
    steps
}

/// The attention backwards, and the gradient of the latents.
pub open spec fn latent_gradient_steps(plan: DecodePlan) -> Seq<Step> {
    seq![
        reserve(Buffer::GradQueries, plan.hidden),
        reserve(Buffer::GradLatentRows, plan.latent_hidden),
        launch(
            Kernel::AttentionBackward,
            Grid::Elements(plan.hidden),
            attention_sizes(plan.query_rows, plan.latents, plan.sequences, plan.width),
            reads3(
                start_of(Buffer::GradStream(0), plan.hidden),
                start_of(Buffer::Queries, plan.hidden),
                start_of(Buffer::LatentRows, plan.latent_hidden),
            ),
            writes2(
                start_of(Buffer::GradQueries, plan.hidden),
                start_of(Buffer::GradLatentRows, plan.latent_hidden),
            ),
        ),
        add_span(Buffer::GradQueries, Buffer::GradStream(0), 0, plan.hidden),
        weight_gradient(
            tile(Buffer::GradQueries, 0, plan.width),
            tile(Buffer::Features, 0, plan.feature_dim),
            tile(Buffer::PointGrad, 0, plan.feature_dim),
            plan.width,
            plan.feature_dim,
            plan.rows,
            true,
        ),
        reserve(Buffer::GradLatent, plan.latent_len),
        project_back(
            tile(Buffer::GradLatentRows, 0, plan.width),
            tile(Buffer::LatentWeight, 0, plan.latent_dim),
            tile(Buffer::GradLatent, 0, plan.latent_dim),
            plan.latent_rows,
            plan.latent_dim,
            plan.width,
            false,
        ),
        weight_gradient(
            tile(Buffer::GradLatentRows, 0, plan.width),
            tile(Buffer::Latent, 0, plan.latent_dim),
            tile(Buffer::LatentWeightGrad, 0, plan.latent_dim),
            plan.width,
            plan.latent_dim,
            plan.latent_rows,
            true,
        ),
    ]
}

fn latent_gradient(plan: &DecodePlan) -> (steps: Vec<Step>)
    ensures
        steps@ == latent_gradient_steps(*plan),
{
    let steps: Vec<Step> = vec![
        reserve(Buffer::GradQueries, plan.hidden),
        reserve(Buffer::GradLatentRows, plan.latent_hidden),
        launch(
            Kernel::AttentionBackward,
            Grid::Elements(plan.hidden),
            attention_sizes(plan.query_rows, plan.latents, plan.sequences, plan.width),
            reads3(
                start_of(Buffer::GradStream(0), plan.hidden),
                start_of(Buffer::Queries, plan.hidden),
                start_of(Buffer::LatentRows, plan.latent_hidden),
            ),
            writes2(
                start_of(Buffer::GradQueries, plan.hidden),
                start_of(Buffer::GradLatentRows, plan.latent_hidden),
            ),
        ),
        add_span(Buffer::GradQueries, Buffer::GradStream(0), 0, plan.hidden),
        weight_gradient(
            tile(Buffer::GradQueries, 0, plan.width),
            tile(Buffer::Features, 0, plan.feature_dim),
            tile(Buffer::PointGrad, 0, plan.feature_dim),
            plan.width,
            plan.feature_dim,
            plan.rows,
            true,
        ),
        reserve(Buffer::GradLatent, plan.latent_len),
        project_back(
            tile(Buffer::GradLatentRows, 0, plan.width),
            tile(Buffer::LatentWeight, 0, plan.latent_dim),
            tile(Buffer::GradLatent, 0, plan.latent_dim),
            plan.latent_rows,
            plan.latent_dim,
            plan.width,
            false,
        ),
        weight_gradient(
            tile(Buffer::GradLatentRows, 0, plan.width),
            tile(Buffer::Latent, 0, plan.latent_dim),
            tile(Buffer::LatentWeightGrad, 0, plan.latent_dim),
            plan.width,
            plan.latent_dim,
            plan.latent_rows,
            true,
        ),
    ];
    assert(steps@ =~= latent_gradient_steps(*plan));
    steps
}

/// The decoder forwards.
pub open spec fn decode_steps(plan: DecodePlan) -> Seq<Step> {
    read_latent_steps(plan) + distances_steps(plan)
}

/// The decoder forwards.
pub fn decode_train(plan: &DecodePlan) -> (steps: Vec<Step>)
    ensures
        steps@ == decode_steps(*plan),
{
    let mut steps = read_latent(plan);
    let mut next = distances(plan);
    steps.append(&mut next);
    steps
}

/// The decoder backwards.
pub open spec fn decode_gradient_steps(plan: DecodePlan, colored: bool) -> Seq<Step> {
    distances_gradient_steps(plan) + (if colored {
        colors_gradient_steps(plan)
    } else {
        Seq::empty()
    }) + mlp_gradient_steps(plan) + latent_gradient_steps(plan)
}

/// The decoder backwards, from the gradients of its distances and, where there
/// are any, of its colours.
pub fn decode_backward(plan: &DecodePlan, distances: usize, colors: Option<(usize, usize)>) -> (
steps: Result<Vec<Step>, NetworkError>)
    ensures
        match steps {
            Ok(steps) => {
                &&& distances == plan.rows
                &&& colors is Some ==> colors->Some_0 == (plan.rows, 3usize)
                &&& steps@ == decode_gradient_steps(*plan, colors is Some)
            },
            Err(error) => if distances != plan.rows {
                error@ == Fault::InvalidConfig(
                    ""@ + decimal(plan.rows as nat) + " query points were decoded and "@ + decimal(
                        distances as nat,
                    ) + " gradients came back"@,
                )
            } else {
                &&& colors is Some
                &&& colors->Some_0 != (plan.rows, 3usize)
                &&& error@ == Fault::InvalidConfig(
                    "the colour gradient is ["@ + decimal(colors->Some_0.0 as nat) + ", "@
                        + decimal(colors->Some_0.1 as nat) + "] and should be ["@ + decimal(
                        plan.rows as nat,
                    ) + ", 3]"@,
                )
            },
        },
{
    match check_gradients(plan.rows, distances, colors) {
        Ok(()) => {},
        Err(error) => return Err(error),
    }
    let mut steps = distances_gradient(plan);
    let ghost before = steps@;
    if colors.is_some() {
        let mut next = colors_gradient(plan);
        steps.append(&mut next);
    } else {
        assert(steps@ =~= before + Seq::<Step>::empty());
    }
    let mut next = mlp_gradient(plan);
    steps.append(&mut next);
    let mut next = latent_gradient(plan);
    steps.append(&mut next);
    Ok(steps)
}

// -- Laws ----------------------------------------------------------------------

/// Whether what a block reads is there.
pub open spec fn has_block_input(plan: BlockPlan, memory: Memory) -> bool {
    &&& memory.holds(Buffer::Stream(0), plan.hidden as int)
    &&& memory.holds(Buffer::SubWeight(0), plan.width as int)
    &&& memory.holds(Buffer::SubWeight(1), plan.width as int)
}

/// Whether what a block's backward pass reads of its forward pass is there.
pub open spec fn is_block_cached(plan: BlockPlan, memory: Memory) -> bool {
    &&& has_block_input(plan, memory)
    &&& memory.holds(Buffer::Stream(1), plan.hidden as int)
    &&& memory.holds(Buffer::SubNormed(0), plan.hidden as int)
    &&& memory.holds(Buffer::SubInverse(0), plan.rows as int)
    &&& memory.holds(Buffer::SubNormed(1), plan.hidden as int)
    &&& memory.holds(Buffer::SubInverse(1), plan.rows as int)
}

/// Whether what the encoder reads is there.
pub open spec fn has_encoder(plan: EncodePlan, memory: Memory) -> bool {
    &&& memory.holds(Buffer::Features, plan.feature_len as int)
    &&& memory.holds(Buffer::SurfaceWeight, plan.surface_weight as int)
    &&& memory.holds(Buffer::Queries, plan.hidden as int)
}

/// Whether what the decoder reads is there.
pub open spec fn has_decoder(plan: DecodePlan, memory: Memory) -> bool {
    &&& memory.holds(Buffer::Latent, plan.latent_len as int)
    &&& memory.holds(Buffer::LatentWeight, plan.latent_weight as int)
    &&& memory.holds(Buffer::Features, plan.feature_len as int)
    &&& memory.holds(Buffer::PointWeight, plan.point_weight as int)
    &&& memory.holds(Buffer::SubWeight(0), plan.width as int)
    &&& memory.holds(Buffer::SubWeight(1), plan.width as int)
    &&& memory.holds(Buffer::DistanceWeight, plan.width as int)
    &&& memory.holds(Buffer::ColorWeight, plan.color_weight as int)
}

/// Whether the query points have read the latents.
pub open spec fn is_read(plan: DecodePlan, memory: Memory) -> bool {
    &&& memory.holds(Buffer::LatentRows, plan.latent_hidden as int)
    &&& memory.holds(Buffer::Queries, plan.hidden as int)
    &&& memory.holds(Buffer::Stream(0), plan.hidden as int)
}

/// Whether what the decoder's backward pass reads of its forward pass is
/// there.
pub open spec fn is_decoded(plan: DecodePlan, memory: Memory) -> bool {
    &&& has_decoder(plan, memory)
    &&& is_read(plan, memory)
    &&& memory.holds(Buffer::SubNormed(0), plan.hidden as int)
    &&& memory.holds(Buffer::SubInverse(0), plan.rows as int)
    &&& memory.holds(Buffer::Stream(1), plan.hidden as int)
    &&& memory.holds(Buffer::SubNormed(1), plan.hidden as int)
    &&& memory.holds(Buffer::SubInverse(1), plan.rows as int)
}

/// Whether the gradients the decoder's backward pass adds to are there.
pub open spec fn has_decoder_gradients(plan: DecodePlan, memory: Memory) -> bool {
    &&& memory.holds(Buffer::DistanceGrad, plan.width as int)
    &&& memory.holds(Buffer::PointGrad, plan.point_weight as int)
    &&& memory.holds(Buffer::LatentWeightGrad, plan.latent_weight as int)
}

/// Whether the colours' gradients that were there still are.
pub open spec fn keeps_colors(plan: DecodePlan, before: Memory, end: Memory) -> bool {
    &&& before.holds(Buffer::GradColors, plan.color_len as int) ==> end.holds(
        Buffer::GradColors,
        plan.color_len as int,
    )
    &&& before.holds(Buffer::ColorGrad, plan.color_weight as int) ==> end.holds(
        Buffer::ColorGrad,
        plan.color_weight as int,
    )
}

proof fn lemma_ones(rows: int, width: int)
    ensures
        rows * 1 == rows,
        1 * width == width,
        1 * rows == rows,
        3 * rows == rows * 3,
{
}

proof fn lemma_block(plan: BlockPlan, memory: Memory)
    requires
        plan.wf(),
        has_block_input(plan, memory),
    ensures
        runs(memory, block_steps(plan)),
        is_block_cached(plan, after_all(memory, block_steps(plan))),
        after_all(memory, block_steps(plan)).holds(Buffer::Stream(2), plan.hidden as int),
{
    let steps = block_steps(plan);
    let m0 = memory;
    lemma_one_more(m0, steps, 0, m0);
    let m1 = after(m0, steps[0]);
    lemma_one_more(m0, steps, 1, m1);
    let m2 = after(m1, steps[1]);
    lemma_one_more(m0, steps, 2, m2);
    let m3 = after(m2, steps[2]);
    lemma_one_more(m0, steps, 3, m3);
    let m4 = after(m3, steps[3]);
    lemma_one_more(m0, steps, 4, m4);
    let m5 = after(m4, steps[4]);
    lemma_one_more(m0, steps, 5, m5);
    let m6 = after(m5, steps[5]);
    lemma_one_more(m0, steps, 6, m6);
    let m7 = after(m6, steps[6]);
    lemma_one_more(m0, steps, 7, m7);
    let m8 = after(m7, steps[7]);
    lemma_one_more(m0, steps, 8, m8);
    let m9 = after(m8, steps[8]);
    lemma_one_more(m0, steps, 9, m9);
    let m10 = after(m9, steps[9]);
    lemma_one_more(m0, steps, 10, m10);
    let m11 = after(m10, steps[10]);
    lemma_one_more(m0, steps, 11, m11);
    let m12 = after(m11, steps[11]);
    lemma_one_more(m0, steps, 12, m12);
    let m13 = after(m12, steps[12]);
}

proof fn lemma_block_mlp_gradient(plan: BlockPlan, memory: Memory)
    requires
        plan.wf(),
        is_block_cached(plan, memory),
        memory.holds(Buffer::GradNorms, plan.norms as int),
        memory.holds(Buffer::GradStream(2), plan.hidden as int),
    ensures
        runs(memory, block_mlp_gradient_steps(plan)),
        is_block_cached(plan, after_all(memory, block_mlp_gradient_steps(plan))),
        after_all(memory, block_mlp_gradient_steps(plan)).holds(Buffer::GradNorms, plan.norms as int),
        after_all(memory, block_mlp_gradient_steps(plan)).holds(Buffer::GradStream(1), plan.hidden as int),
{
    let steps = block_mlp_gradient_steps(plan);
    let m0 = memory;
    lemma_one_more(m0, steps, 0, m0);
    let m1 = after(m0, steps[0]);
    lemma_one_more(m0, steps, 1, m1);
    let m2 = after(m1, steps[1]);
    lemma_one_more(m0, steps, 2, m2);
    let m3 = after(m2, steps[2]);
    lemma_one_more(m0, steps, 3, m3);
    let m4 = after(m3, steps[3]);
    lemma_one_more(m0, steps, 4, m4);
    let m5 = after(m4, steps[4]);
    lemma_one_more(m0, steps, 5, m5);
    let m6 = after(m5, steps[5]);
}

proof fn lemma_block_attention_gradient(plan: BlockPlan, memory: Memory)
    requires
        plan.wf(),
        is_block_cached(plan, memory),
        memory.holds(Buffer::GradNorms, plan.norms as int),
        memory.holds(Buffer::GradStream(1), plan.hidden as int),
    ensures
        runs(memory, block_attention_gradient_steps(plan)),
        after_all(memory, block_attention_gradient_steps(plan)).holds(Buffer::GradStream(0), plan.hidden as int),
        after_all(memory, block_attention_gradient_steps(plan)).holds(Buffer::GradNorms, plan.norms as int),
{
    let steps = block_attention_gradient_steps(plan);
    let m0 = memory;
    lemma_one_more(m0, steps, 0, m0);
    let m1 = after(m0, steps[0]);
    lemma_one_more(m0, steps, 1, m1);
    let m2 = after(m1, steps[1]);
    lemma_one_more(m0, steps, 2, m2);
    let m3 = after(m2, steps[2]);
    lemma_one_more(m0, steps, 3, m3);
    let m4 = after(m3, steps[3]);
    lemma_one_more(m0, steps, 4, m4);
    let m5 = after(m4, steps[4]);
    lemma_one_more(m0, steps, 5, m5);
    let m6 = after(m5, steps[5]);
}

proof fn lemma_read_latent(plan: DecodePlan, memory: Memory)
    requires
        plan.wf(),
        has_decoder(plan, memory),
    ensures
        runs(memory, read_latent_steps(plan)),
        has_decoder(plan, after_all(memory, read_latent_steps(plan))),
        is_read(plan, after_all(memory, read_latent_steps(plan))),
{
    let steps = read_latent_steps(plan);
    let m0 = memory;
    lemma_one_more(m0, steps, 0, m0);
    let m1 = after(m0, steps[0]);
    lemma_project(
        m1,
        tile(Buffer::Latent, 0, plan.latent_dim),
        tile(Buffer::LatentWeight, 0, plan.latent_dim),
        tile(Buffer::LatentRows, 0, plan.width),
        plan.latent_rows,
        plan.width,
        plan.latent_dim,
        false,
    );
    lemma_one_more(m0, steps, 1, m1);
    let m2 = after(m1, steps[1]);
    lemma_one_more(m0, steps, 2, m2);
    let m3 = after(m2, steps[2]);
    lemma_project(
        m3,
        tile(Buffer::Features, 0, plan.feature_dim),
        tile(Buffer::PointWeight, 0, plan.feature_dim),
        tile(Buffer::Queries, 0, plan.width),
        plan.rows,
        plan.width,
        plan.feature_dim,
        false,
    );
    lemma_one_more(m0, steps, 3, m3);
    let m4 = after(m3, steps[3]);
    lemma_one_more(m0, steps, 4, m4);
    let m5 = after(m4, steps[4]);
    lemma_one_more(m0, steps, 5, m5);
    let m6 = after(m5, steps[5]);
    lemma_one_more(m0, steps, 6, m6);
    let m7 = after(m6, steps[6]);
}

proof fn lemma_distances(plan: DecodePlan, memory: Memory)
    requires
        plan.wf(),
        has_decoder(plan, memory),
        is_read(plan, memory),
    ensures
        runs(memory, distances_steps(plan)),
        is_decoded(plan, after_all(memory, distances_steps(plan))),
        after_all(memory, distances_steps(plan)).holds(Buffer::Distances, plan.rows as int),
{
    let steps = distances_steps(plan);
    let m0 = memory;
    lemma_ones(plan.rows as int, plan.width as int);
    lemma_one_more(m0, steps, 0, m0);
    let m1 = after(m0, steps[0]);
    lemma_one_more(m0, steps, 1, m1);
    let m2 = after(m1, steps[1]);
    lemma_one_more(m0, steps, 2, m2);
    let m3 = after(m2, steps[2]);
    lemma_one_more(m0, steps, 3, m3);
    let m4 = after(m3, steps[3]);
    lemma_one_more(m0, steps, 4, m4);
    let m5 = after(m4, steps[4]);
    lemma_one_more(m0, steps, 5, m5);
    let m6 = after(m5, steps[5]);
    lemma_one_more(m0, steps, 6, m6);
    let m7 = after(m6, steps[6]);
    lemma_one_more(m0, steps, 7, m7);
    let m8 = after(m7, steps[7]);
    lemma_one_more(m0, steps, 8, m8);
    let m9 = after(m8, steps[8]);
    lemma_one_more(m0, steps, 9, m9);
    let m10 = after(m9, steps[9]);
    lemma_one_more(m0, steps, 10, m10);
    let m11 = after(m10, steps[10]);
    lemma_project(
        m11,
        tile(Buffer::SubNormed(1), 0, plan.width),
        tile(Buffer::DistanceWeight, 0, plan.width),
        tile(Buffer::Distances, 0, 1),
        plan.rows,
        1,
        plan.width,
        false,
    );
    lemma_one_more(m0, steps, 11, m11);
    let m12 = after(m11, steps[11]);
}

proof fn lemma_colors(plan: DecodePlan, memory: Memory)
    requires
        plan.wf(),
        is_decoded(plan, memory),
    ensures
        runs(memory, colors_steps(plan)),
        is_decoded(plan, after_all(memory, colors_steps(plan))),
        after_all(memory, colors_steps(plan)).holds(Buffer::Colors, plan.color_len as int),
{
    let steps = colors_steps(plan);
    let m0 = memory;
    lemma_ones(plan.rows as int, plan.width as int);
    lemma_one_more(m0, steps, 0, m0);
    let m1 = after(m0, steps[0]);
    lemma_project(
        m1,
        tile(Buffer::SubNormed(1), 0, plan.width),
        tile(Buffer::ColorWeight, 0, plan.width),
        tile(Buffer::Colors, 0, 3),
        plan.rows,
        3,
        plan.width,
        false,
    );
    lemma_one_more(m0, steps, 1, m1);
    let m2 = after(m1, steps[1]);
}

proof fn lemma_distances_gradient(plan: DecodePlan, memory: Memory)
    requires
        plan.wf(),
        is_decoded(plan, memory),
        has_decoder_gradients(plan, memory),
        memory.holds(Buffer::GradDistances, plan.rows as int),
    ensures
        runs(memory, distances_gradient_steps(plan)),
        is_decoded(plan, after_all(memory, distances_gradient_steps(plan))),
        has_decoder_gradients(plan, after_all(memory, distances_gradient_steps(plan))),
        after_all(memory, distances_gradient_steps(plan)).holds(Buffer::GradNorms, plan.norms as int),
        after_all(memory, distances_gradient_steps(plan)).holds(Buffer::GradSubNormed(1), plan.hidden as int),
        keeps_colors(plan, memory, after_all(memory, distances_gradient_steps(plan))),
{
    let steps = distances_gradient_steps(plan);
    let m0 = memory;
    lemma_ones(plan.rows as int, plan.width as int);
    lemma_one_more(m0, steps, 0, m0);
    let m1 = after(m0, steps[0]);
    lemma_one_more(m0, steps, 1, m1);
    let m2 = after(m1, steps[1]);
    lemma_one_more(m0, steps, 2, m2);
    let m3 = after(m2, steps[2]);
    lemma_project_back(
        m3,
        tile(Buffer::GradDistances, 0, 1),
        tile(Buffer::DistanceWeight, 0, plan.width),
        tile(Buffer::GradSubNormed(1), 0, plan.width),
        plan.rows,
        plan.width,
        1,
        false,
    );
    lemma_one_more(m0, steps, 3, m3);
    let m4 = after(m3, steps[3]);
    lemma_weight_gradient(
        m4,
        tile(Buffer::GradDistances, 0, 1),
        tile(Buffer::SubNormed(1), 0, plan.width),
        tile(Buffer::DistanceGrad, 0, plan.width),
        1,
        plan.width,
        plan.rows,
        true,
    );
    lemma_one_more(m0, steps, 4, m4);
    let m5 = after(m4, steps[4]);
}

proof fn lemma_colors_gradient(plan: DecodePlan, memory: Memory)
    requires
        plan.wf(),
        is_decoded(plan, memory),
        has_decoder_gradients(plan, memory),
        memory.holds(Buffer::GradNorms, plan.norms as int),
        memory.holds(Buffer::GradSubNormed(1), plan.hidden as int),
        memory.holds(Buffer::GradColors, plan.color_len as int),
        memory.holds(Buffer::ColorGrad, plan.color_weight as int),
    ensures
        runs(memory, colors_gradient_steps(plan)),
        is_decoded(plan, after_all(memory, colors_gradient_steps(plan))),
        has_decoder_gradients(plan, after_all(memory, colors_gradient_steps(plan))),
        after_all(memory, colors_gradient_steps(plan)).holds(Buffer::GradNorms, plan.norms as int),
        after_all(memory, colors_gradient_steps(plan)).holds(Buffer::GradSubNormed(1), plan.hidden as int),
{
    let steps = colors_gradient_steps(plan);
    let m0 = memory;
    lemma_ones(plan.rows as int, plan.width as int);
    lemma_one_more(m0, steps, 0, m0);
    let m1 = after(m0, steps[0]);
    lemma_project_back(
        m1,
        tile(Buffer::GradColors, 0, 3),
        tile(Buffer::ColorWeight, 0, plan.width),
        tile(Buffer::FromColors, 0, plan.width),
        plan.rows,
        plan.width,
        3,
        false,
    );
    lemma_one_more(m0, steps, 1, m1);
    let m2 = after(m1, steps[1]);
    lemma_weight_gradient(
        m2,
        tile(Buffer::GradColors, 0, 3),
        tile(Buffer::SubNormed(1), 0, plan.width),
        tile(Buffer::ColorGrad, 0, plan.width),
        3,
        plan.width,
        plan.rows,
        true,
    );
    lemma_one_more(m0, steps, 2, m2);
    let m3 = after(m2, steps[2]);
    lemma_one_more(m0, steps, 3, m3);
    let m4 = after(m3, steps[3]);
}

proof fn lemma_mlp_gradient(plan: DecodePlan, memory: Memory)
    requires
        plan.wf(),
        is_decoded(plan, memory),
        has_decoder_gradients(plan, memory),
        memory.holds(Buffer::GradNorms, plan.norms as int),
        memory.holds(Buffer::GradSubNormed(1), plan.hidden as int),
    ensures
        runs(memory, mlp_gradient_steps(plan)),
        is_decoded(plan, after_all(memory, mlp_gradient_steps(plan))),
        has_decoder_gradients(plan, after_all(memory, mlp_gradient_steps(plan))),
        after_all(memory, mlp_gradient_steps(plan)).holds(Buffer::GradStream(0), plan.hidden as int),
{
    let steps = mlp_gradient_steps(plan);
    let m0 = memory;
    lemma_one_more(m0, steps, 0, m0);
    let m1 = after(m0, steps[0]);
    lemma_one_more(m0, steps, 1, m1);
    let m2 = after(m1, steps[1]);
    lemma_one_more(m0, steps, 2, m2);
    let m3 = after(m2, steps[2]);
    lemma_one_more(m0, steps, 3, m3);
    let m4 = after(m3, steps[3]);
    lemma_one_more(m0, steps, 4, m4);
    let m5 = after(m4, steps[4]);
    lemma_one_more(m0, steps, 5, m5);
    let m6 = after(m5, steps[5]);
    lemma_one_more(m0, steps, 6, m6);
    let m7 = after(m6, steps[6]);
    lemma_one_more(m0, steps, 7, m7);
    let m8 = after(m7, steps[7]);
}

proof fn lemma_latent_gradient(plan: DecodePlan, memory: Memory)
    requires
        plan.wf(),
        is_decoded(plan, memory),
        has_decoder_gradients(plan, memory),
        memory.holds(Buffer::GradStream(0), plan.hidden as int),
    ensures
        runs(memory, latent_gradient_steps(plan)),
        after_all(memory, latent_gradient_steps(plan)).holds(Buffer::GradLatent, plan.latent_len as int),
{
    let steps = latent_gradient_steps(plan);
    let m0 = memory;
    lemma_one_more(m0, steps, 0, m0);
    let m1 = after(m0, steps[0]);
    lemma_one_more(m0, steps, 1, m1);
    let m2 = after(m1, steps[1]);
    lemma_one_more(m0, steps, 2, m2);
    let m3 = after(m2, steps[2]);
    lemma_one_more(m0, steps, 3, m3);
    let m4 = after(m3, steps[3]);
    lemma_weight_gradient(
        m4,
        tile(Buffer::GradQueries, 0, plan.width),
        tile(Buffer::Features, 0, plan.feature_dim),
        tile(Buffer::PointGrad, 0, plan.feature_dim),
        plan.width,
        plan.feature_dim,
        plan.rows,
        true,
    );
    lemma_one_more(m0, steps, 4, m4);
    let m5 = after(m4, steps[4]);
    lemma_one_more(m0, steps, 5, m5);
    let m6 = after(m5, steps[5]);
    lemma_project_back(
        m6,
        tile(Buffer::GradLatentRows, 0, plan.width),
        tile(Buffer::LatentWeight, 0, plan.latent_dim),
        tile(Buffer::GradLatent, 0, plan.latent_dim),
        plan.latent_rows,
        plan.latent_dim,
        plan.width,
        false,
    );
    lemma_one_more(m0, steps, 6, m6);
    let m7 = after(m6, steps[6]);
    lemma_weight_gradient(
        m7,
        tile(Buffer::GradLatentRows, 0, plan.width),
        tile(Buffer::Latent, 0, plan.latent_dim),
        tile(Buffer::LatentWeightGrad, 0, plan.latent_dim),
        plan.width,
        plan.latent_dim,
        plan.latent_rows,
        true,
    );
    lemma_one_more(m0, steps, 7, m7);
    let m8 = after(m7, steps[7]);
}

proof fn lemma_read_surface(plan: EncodePlan, memory: Memory)
    requires
        plan.wf(),
        has_encoder(plan, memory),
    ensures
        runs(memory, read_surface_steps(plan)),
        has_encoder(plan, after_all(memory, read_surface_steps(plan))),
        after_all(memory, read_surface_steps(plan)).holds(Buffer::Tokens, plan.token_len as int),
        after_all(memory, read_surface_steps(plan)).holds(Buffer::Stream(0), plan.hidden as int),
{
    let steps = read_surface_steps(plan);
    let m0 = memory;
    lemma_one_more(m0, steps, 0, m0);
    let m1 = after(m0, steps[0]);
    lemma_project(
        m1,
        tile(Buffer::Features, 0, plan.feature_dim),
        tile(Buffer::SurfaceWeight, 0, plan.feature_dim),
        tile(Buffer::Tokens, 0, plan.width),
        plan.point_rows,
        plan.width,
        plan.feature_dim,
        false,
    );
    lemma_one_more(m0, steps, 1, m1);
    let m2 = after(m1, steps[1]);
    lemma_one_more(m0, steps, 2, m2);
    let m3 = after(m2, steps[2]);
    lemma_one_more(m0, steps, 3, m3);
    let m4 = after(m3, steps[3]);
    lemma_one_more(m0, steps, 4, m4);
    let m5 = after(m4, steps[4]);
}

proof fn lemma_moments(plan: EncodePlan, memory: Memory)
    requires
        plan.wf(),
        memory.holds(Buffer::Stream(2), plan.hidden as int),
        memory.holds(Buffer::SubWeight(2), plan.width as int),
        memory.holds(Buffer::MomentsWeight, plan.moment_weight as int),
    ensures
        runs(memory, moments_steps(plan)),
        after_all(memory, moments_steps(plan)).holds(Buffer::Moments, plan.moment_len as int),
        after_all(memory, moments_steps(plan)).holds(Buffer::SubNormed(2), plan.hidden as int),
        after_all(memory, moments_steps(plan)).holds(Buffer::SubInverse(2), plan.rows as int),
{
    let steps = moments_steps(plan);
    let m0 = memory;
    lemma_one_more(m0, steps, 0, m0);
    let m1 = after(m0, steps[0]);
    lemma_one_more(m0, steps, 1, m1);
    let m2 = after(m1, steps[1]);
    lemma_one_more(m0, steps, 2, m2);
    let m3 = after(m2, steps[2]);
    lemma_one_more(m0, steps, 3, m3);
    let m4 = after(m3, steps[3]);
    lemma_project(
        m4,
        tile(Buffer::SubNormed(2), 0, plan.width),
        tile(Buffer::MomentsWeight, 0, plan.width),
        tile(Buffer::Moments, 0, plan.moments),
        plan.rows,
        plan.moments,
        plan.width,
        false,
    );
    lemma_one_more(m0, steps, 4, m4);
    let m5 = after(m4, steps[4]);
}

proof fn lemma_moments_gradient(plan: EncodePlan, memory: Memory)
    requires
        plan.wf(),
        memory.holds(Buffer::GradMoments, plan.moment_len as int),
        memory.holds(Buffer::MomentsWeight, plan.moment_weight as int),
        memory.holds(Buffer::MomentsGrad, plan.moment_weight as int),
        memory.holds(Buffer::Stream(2), plan.hidden as int),
        memory.holds(Buffer::SubWeight(2), plan.width as int),
        memory.holds(Buffer::SubNormed(2), plan.hidden as int),
        memory.holds(Buffer::SubInverse(2), plan.rows as int),
    ensures
        runs(memory, moments_gradient_steps(plan)),
        after_all(memory, moments_gradient_steps(plan)).holds(Buffer::GradStream(2), plan.hidden as int),
        after_all(memory, moments_gradient_steps(plan)).holds(Buffer::GradNorms, plan.norms as int),
{
    let steps = moments_gradient_steps(plan);
    let m0 = memory;
    lemma_one_more(m0, steps, 0, m0);
    let m1 = after(m0, steps[0]);
    lemma_one_more(m0, steps, 1, m1);
    let m2 = after(m1, steps[1]);
    lemma_one_more(m0, steps, 2, m2);
    let m3 = after(m2, steps[2]);
    lemma_project_back(
        m3,
        tile(Buffer::GradMoments, 0, plan.moments),
        tile(Buffer::MomentsWeight, 0, plan.width),
        tile(Buffer::GradSubNormed(2), 0, plan.width),
        plan.rows,
        plan.width,
        plan.moments,
        false,
    );
    lemma_one_more(m0, steps, 3, m3);
    let m4 = after(m3, steps[3]);
    lemma_weight_gradient(
        m4,
        tile(Buffer::GradMoments, 0, plan.moments),
        tile(Buffer::SubNormed(2), 0, plan.width),
        tile(Buffer::MomentsGrad, 0, plan.width),
        plan.moments,
        plan.width,
        plan.rows,
        true,
    );
    lemma_one_more(m0, steps, 4, m4);
    let m5 = after(m4, steps[4]);
    lemma_one_more(m0, steps, 5, m5);
    let m6 = after(m5, steps[5]);
    lemma_one_more(m0, steps, 6, m6);
    let m7 = after(m6, steps[6]);
}

proof fn lemma_surface_gradient(plan: EncodePlan, memory: Memory)
    requires
        plan.wf(),
        memory.holds(Buffer::GradStream(0), plan.hidden as int),
        memory.holds(Buffer::Queries, plan.hidden as int),
        memory.holds(Buffer::Tokens, plan.token_len as int),
        memory.holds(Buffer::Features, plan.feature_len as int),
        memory.holds(Buffer::SurfaceGrad, plan.surface_weight as int),
    ensures
        runs(memory, surface_gradient_steps(plan)),
        after_all(memory, surface_gradient_steps(plan)).holds(Buffer::GradQueries, plan.hidden as int),
{
    let steps = surface_gradient_steps(plan);
    let m0 = memory;
    lemma_one_more(m0, steps, 0, m0);
    let m1 = after(m0, steps[0]);
    lemma_one_more(m0, steps, 1, m1);
    let m2 = after(m1, steps[1]);
    lemma_one_more(m0, steps, 2, m2);
    let m3 = after(m2, steps[2]);
    lemma_one_more(m0, steps, 3, m3);
    let m4 = after(m3, steps[3]);
    lemma_weight_gradient(
        m4,
        tile(Buffer::GradTokens, 0, plan.width),
        tile(Buffer::Features, 0, plan.feature_dim),
        tile(Buffer::SurfaceGrad, 0, plan.feature_dim),
        plan.width,
        plan.feature_dim,
        plan.point_rows,
        true,
    );
    lemma_one_more(m0, steps, 4, m4);
    let m5 = after(m4, steps[4]);
}

/// A block never leaves its buffers and reads only what was written, and
/// leaves what its backward pass reads.
pub proof fn law_block_runs(plan: BlockPlan, memory: Memory)
    requires
        plan.wf(),
        has_block_input(plan, memory),
    ensures
        runs(memory, block_steps(plan)),
        is_block_cached(plan, after_all(memory, block_steps(plan))),
        after_all(memory, block_steps(plan)).holds(Buffer::Stream(2), plan.hidden as int),
{
    lemma_block(plan, memory);
}

/// A block's backward pass never leaves its buffers and reads only what was
/// written, and leaves the gradient of what entered the block.
pub proof fn law_block_backward_runs(plan: BlockPlan, memory: Memory)
    requires
        plan.wf(),
        is_block_cached(plan, memory),
        memory.holds(Buffer::GradNorms, plan.norms as int),
        memory.holds(Buffer::GradStream(2), plan.hidden as int),
    ensures
        runs(memory, block_backward_steps(plan)),
        after_all(memory, block_backward_steps(plan)).holds(
            Buffer::GradStream(0),
            plan.hidden as int,
        ),
{
    lemma_block_mlp_gradient(plan, memory);
    let middle = after_all(memory, block_mlp_gradient_steps(plan));
    lemma_block_attention_gradient(plan, middle);
    lemma_concat(memory, block_mlp_gradient_steps(plan), block_attention_gradient_steps(plan));
}

/// What the encoder does before its blocks never leaves its buffers and reads
/// only what was written, and leaves what the first block reads.
pub proof fn law_read_surface_runs(plan: EncodePlan, memory: Memory)
    requires
        plan.wf(),
        has_encoder(plan, memory),
    ensures
        runs(memory, read_surface_steps(plan)),
        after_all(memory, read_surface_steps(plan)).holds(Buffer::Stream(0), plan.hidden as int),
{
    lemma_read_surface(plan, memory);
}

/// What the encoder does after its blocks never leaves its buffers and reads
/// only what was written, and leaves the moments.
pub proof fn law_moments_run(plan: EncodePlan, memory: Memory)
    requires
        plan.wf(),
        memory.holds(Buffer::Stream(2), plan.hidden as int),
        memory.holds(Buffer::SubWeight(2), plan.width as int),
        memory.holds(Buffer::MomentsWeight, plan.moment_weight as int),
    ensures
        runs(memory, moments_steps(plan)),
        after_all(memory, moments_steps(plan)).holds(Buffer::Moments, plan.moment_len as int),
{
    lemma_moments(plan, memory);
}

/// What the encoder's backward pass does before its blocks never leaves its
/// buffers and reads only what was written, and leaves what the last block's
/// backward pass reads.
pub proof fn law_moments_gradient_runs(plan: EncodePlan, memory: Memory)
    requires
        plan.wf(),
        memory.holds(Buffer::GradMoments, plan.moment_len as int),
        memory.holds(Buffer::MomentsWeight, plan.moment_weight as int),
        memory.holds(Buffer::MomentsGrad, plan.moment_weight as int),
        memory.holds(Buffer::Stream(2), plan.hidden as int),
        memory.holds(Buffer::SubWeight(2), plan.width as int),
        memory.holds(Buffer::SubNormed(2), plan.hidden as int),
        memory.holds(Buffer::SubInverse(2), plan.rows as int),
    ensures
        runs(memory, moments_gradient_steps(plan)),
        after_all(memory, moments_gradient_steps(plan)).holds(
            Buffer::GradStream(2),
            plan.hidden as int,
        ),
        after_all(memory, moments_gradient_steps(plan)).holds(
            Buffer::GradNorms,
            plan.norms as int,
        ),
{
    lemma_moments_gradient(plan, memory);
}

/// What the encoder's backward pass does after its blocks never leaves its
/// buffers and reads only what was written, and leaves the gradient of the
/// latent queries.
pub proof fn law_surface_gradient_runs(plan: EncodePlan, memory: Memory)
    requires
        plan.wf(),
        memory.holds(Buffer::GradStream(0), plan.hidden as int),
        memory.holds(Buffer::Queries, plan.hidden as int),
        memory.holds(Buffer::Tokens, plan.token_len as int),
        memory.holds(Buffer::Features, plan.feature_len as int),
        memory.holds(Buffer::SurfaceGrad, plan.surface_weight as int),
    ensures
        runs(memory, surface_gradient_steps(plan)),
        after_all(memory, surface_gradient_steps(plan)).holds(
            Buffer::GradQueries,
            plan.hidden as int,
        ),
{
    lemma_surface_gradient(plan, memory);
}

/// The decoder never leaves its buffers and reads only what was written, and
/// leaves what its backward pass and its colours read.
pub proof fn law_decode_runs(plan: DecodePlan, memory: Memory)
    requires
        plan.wf(),
        has_decoder(plan, memory),
    ensures
        runs(memory, decode_steps(plan)),
        is_decoded(plan, after_all(memory, decode_steps(plan))),
        after_all(memory, decode_steps(plan)).holds(Buffer::Distances, plan.rows as int),
        runs(after_all(memory, decode_steps(plan)), colors_steps(plan)),
{
    lemma_read_latent(plan, memory);
    let read = after_all(memory, read_latent_steps(plan));
    lemma_distances(plan, read);
    lemma_concat(memory, read_latent_steps(plan), distances_steps(plan));
    lemma_colors(plan, after_all(memory, decode_steps(plan)));
}

/// The decoder's backward pass never leaves its buffers and reads only what
/// was written, with or without colours, and leaves the gradient of the
/// latents.
pub proof fn law_decode_backward_runs(plan: DecodePlan, colored: bool, memory: Memory)
    requires
        plan.wf(),
        is_decoded(plan, memory),
        has_decoder_gradients(plan, memory),
        memory.holds(Buffer::GradDistances, plan.rows as int),
        colored ==> memory.holds(Buffer::GradColors, plan.color_len as int),
        colored ==> memory.holds(Buffer::ColorGrad, plan.color_weight as int),
    ensures
        runs(memory, decode_gradient_steps(plan, colored)),
        after_all(memory, decode_gradient_steps(plan, colored)).holds(
            Buffer::GradLatent,
            plan.latent_len as int,
        ),
{
    let s1 = distances_gradient_steps(plan);
    lemma_distances_gradient(plan, memory);
    let m1 = after_all(memory, s1);
    let s2 = if colored {
        lemma_colors_gradient(plan, m1);
        colors_gradient_steps(plan)
    } else {
        Seq::<Step>::empty()
    };
    lemma_concat(memory, s1, s2);
    let m2 = after_all(m1, s2);
    let s3 = mlp_gradient_steps(plan);
    lemma_mlp_gradient(plan, m2);
    lemma_concat(memory, s1 + s2, s3);
    let m3 = after_all(m2, s3);
    let s4 = latent_gradient_steps(plan);
    lemma_latent_gradient(plan, m3);
    lemma_concat(memory, s1 + s2 + s3, s4);
}

// -- The distance bias ---------------------------------------------------------

/// Adds the bias of the distance head to every distance it gave.
pub fn add_bias<T: Copy, F: Fn(T, T) -> T>(distances: &Vec<T>, bias: T, sum: &F) -> (shifted: Vec<
    T,
>)
    requires
        forall|a: T, b: T| #[trigger] call_requires(*sum, (a, b)),
    ensures
        shifted@.len() == distances@.len(),
        forall|i: int|
            0 <= i < distances@.len() ==> call_ensures(
                *sum,
                (distances@[i], bias),
                #[trigger] shifted@[i],
            ),
{
    let mut shifted: Vec<T> = Vec::new();
    let mut i: usize = 0;
    while i < distances.len()
        invariant
            i <= distances@.len(),
            shifted@.len() == i,
            forall|a: T, b: T| #[trigger] call_requires(*sum, (a, b)),
            forall|j: int|
                0 <= j < i ==> call_ensures(*sum, (distances@[j], bias), #[trigger] shifted@[j]),
        decreases distances.len() - i,
    {
        shifted.push(sum(distances[i], bias));
        i = i + 1;
    }
    shifted
}

/// Whether `total` is what the first `k` values add up to from `zero`, taken in
/// order.
pub open spec fn is_total<T, F: Fn(T, T) -> T>(
    values: Seq<T>,
    zero: T,
    sum: F,
    k: int,
    total: T,
) -> bool
    decreases k,
{
    if k <= 0 {
        total == zero
    } else {
        exists|part: T|
            is_total(values, zero, sum, k - 1, part) && #[trigger] call_ensures(
                sum,
                (part, values[k - 1]),
                total,
            )
    }
}

/// Adds what the gradients of the distances add up to to the gradient of the
/// bias, unless the bias is frozen.
pub fn accumulate_bias<T: Copy, F: Fn(T, T) -> T>(
    grad: T,
    gradients: &Vec<T>,
    frozen: bool,
    zero: T,
    sum: &F,
) -> (after: T)
    requires
        forall|a: T, b: T| #[trigger] call_requires(*sum, (a, b)),
    ensures
        frozen ==> after == grad,
        !frozen ==> exists|total: T|
            is_total(gradients@, zero, *sum, gradients@.len() as int, total)
                && #[trigger] call_ensures(*sum, (grad, total), after),
{
    if frozen {
        return grad;
    }
    let mut total: T = zero;
    let mut i: usize = 0;
    while i < gradients.len()
        invariant
            i <= gradients@.len(),
            forall|a: T, b: T| #[trigger] call_requires(*sum, (a, b)),
            is_total(gradients@, zero, *sum, i as int, total),
        decreases gradients.len() - i,
    {
        let ghost part = total;
        total = sum(total, gradients[i]);
        i = i + 1;
        assert(call_ensures(*sum, (part, gradients@[i - 1]), total));
    }
    sum(grad, total)
}

} // verus!
