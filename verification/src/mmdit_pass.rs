//! One pass of a denoiser, step by step.
//!
//! Image and text keep separate weights in the blocks of two streams and meet
//! inside the attention, text first; in the blocks of one stream they are one
//! sequence already. Every block is modulated by a vector made from the noise
//! level, the pooled prompt and the guidance scale.
use crate::error::{invalid_config, Fault, NetworkError};
use vstd::prelude::*;

verus! {

/// What a pass works on.
#[derive(Clone, Copy, Debug, PartialEq, Eq, Structural)]
pub enum Tensor {
    Nothing,
    Patches,
    Prompt,
    Vector,
    Image,
    Text,
    ImageModulation,
    TextModulation,
    ImageProjection,
    TextProjection,
    Queries,
    Keys,
    Values,
    Attended,
    Hidden,
    Modulation,
    Fused,
    Activated,
    FinalModulation,
    Output,
}

/// What a step does. Blocks and streams go by what the step's own fields say.
#[derive(Clone, Copy, Debug, PartialEq, Eq, Structural)]
pub enum Op {
    EmbedTime,
    EmbedPooled,
    EmbedGuidance,
    EmbedPatches,
    EmbedPrompt,
    /// The triples of a block's modulation.
    Modulate,
    /// Norm, modulation and the packed projection of query, key and value.
    Project,
    /// One third of the two packed projections, normed, text before image.
    JoinQueries,
    JoinKeys,
    JoinValues,
    /// Turned by its positions.
    Rotate,
    Attend,
    /// The stream's rows of the attention, projected, gated and added.
    AddAttention,
    /// The feed-forward of a stream, gated and added.
    AddFeedForward,
    /// Text and image as one sequence, text first.
    Concatenate,
    /// Norm, modulation and the fused projection.
    FuseIn,
    /// One part of the fused projection.
    SliceQueries,
    SliceKeys,
    SliceValues,
    SliceActivated,
    /// The fused output projection, gated and added.
    AddFused,
    /// The rows of the image.
    SplitImage,
    ModulateFinal,
    ProjectOut,
}

/// A value a step reads or writes, and its shape.
#[derive(Clone, Copy, Debug, PartialEq, Eq, Structural)]
pub struct Operand {
    pub value: Tensor,
    pub rows: usize,
    pub cols: usize,
}

/// A step of a pass: what it does, in which block, and to which values.
#[derive(Clone, Copy, Debug, PartialEq, Eq, Structural)]
pub struct Call {
    pub op: Op,
    pub block: usize,
    pub a: Operand,
    pub b: Operand,
    pub c: Operand,
    pub out: Operand,
}

/// The shape of a pass.
#[derive(Clone, Copy, Debug, PartialEq, Eq, Structural)]
pub struct PassShape {
    pub patches: usize,
    pub text_len: usize,
    pub tokens: usize,
    pub in_channels: usize,
    pub out_channels: usize,
    pub text_dim: usize,
    pub d_model: usize,
    /// Three times the model's width, and that plus the feed-forward's.
    pub packed: usize,
    pub mlp_dim: usize,
    pub fused: usize,
    pub double_blocks: usize,
    pub single_blocks: usize,
    /// Whether the model takes a pooled prompt, and a guidance scale.
    pub pooled: bool,
    pub guidance: bool,
}

impl PassShape {
    /// Whether the sizes go together.
    pub open spec fn wf(&self) -> bool {
        &&& self.tokens == self.text_len + self.patches
        &&& self.packed == 3 * self.d_model
        &&& self.fused == self.packed + self.mlp_dim
    }
}

/// An operand.
#[verifier::allow_in_spec]
pub fn operand(value: Tensor, rows: usize, cols: usize) -> Operand
    returns
        (Operand { value, rows, cols }),
{
    Operand { value, rows, cols }
}

/// No operand.
#[verifier::allow_in_spec]
pub fn none() -> Operand
    returns
        (Operand { value: Tensor::Nothing, rows: 0, cols: 0 }),
{
    Operand { value: Tensor::Nothing, rows: 0, cols: 0 }
}

/// A step.
#[verifier::allow_in_spec]
pub fn call(op: Op, block: usize, a: Operand, b: Operand, c: Operand, out: Operand) -> Call
    returns
        (Call { op, block, a, b, c, out }),
{
    Call { op, block, a, b, c, out }
}

/// The embedding of the noise level.
pub open spec fn time_calls(shape: PassShape, block: usize) -> Seq<Call> {
    seq![
        call(
            Op::EmbedTime,
            block,
            none(),
            none(),
            none(),
            operand(Tensor::Vector, 1, shape.d_model),
        ),
    ]
}

fn time(shape: &PassShape, block: usize) -> (calls: Vec<Call>)
    ensures
        calls@ == time_calls(*shape, block),
{
    let calls: Vec<Call> = vec![
        call(
            Op::EmbedTime,
            block,
            none(),
            none(),
            none(),
            operand(Tensor::Vector, 1, shape.d_model),
        ),
    ];
    assert(calls@ =~= time_calls(*shape, block));
    calls
}

/// The embedding of the pooled prompt, added to it.
pub open spec fn pooled_calls(shape: PassShape, block: usize) -> Seq<Call> {
    seq![
        call(
            Op::EmbedPooled,
            block,
            operand(Tensor::Vector, 1, shape.d_model),
            none(),
            none(),
            operand(Tensor::Vector, 1, shape.d_model),
        ),
    ]
}

fn pooled(shape: &PassShape, block: usize) -> (calls: Vec<Call>)
    ensures
        calls@ == pooled_calls(*shape, block),
{
    let calls: Vec<Call> = vec![
        call(
            Op::EmbedPooled,
            block,
            operand(Tensor::Vector, 1, shape.d_model),
            none(),
            none(),
            operand(Tensor::Vector, 1, shape.d_model),
        ),
    ];
    assert(calls@ =~= pooled_calls(*shape, block));
    calls
}

/// The embedding of the guidance scale, added to it.
pub open spec fn guidance_calls(shape: PassShape, block: usize) -> Seq<Call> {
    seq![
        call(
            Op::EmbedGuidance,
            block,
            operand(Tensor::Vector, 1, shape.d_model),
            none(),
            none(),
            operand(Tensor::Vector, 1, shape.d_model),
        ),
    ]
}

fn guidance(shape: &PassShape, block: usize) -> (calls: Vec<Call>)
    ensures
        calls@ == guidance_calls(*shape, block),
{
    let calls: Vec<Call> = vec![
        call(
            Op::EmbedGuidance,
            block,
            operand(Tensor::Vector, 1, shape.d_model),
            none(),
            none(),
            operand(Tensor::Vector, 1, shape.d_model),
        ),
    ];
    assert(calls@ =~= guidance_calls(*shape, block));
    calls
}

/// The embeddings of the patches and the prompt.
pub open spec fn embed_calls(shape: PassShape, block: usize) -> Seq<Call> {
    seq![
        call(
            Op::EmbedPatches,
            block,
            operand(Tensor::Patches, shape.patches, shape.in_channels),
            none(),
            none(),
            operand(Tensor::Image, shape.patches, shape.d_model),
        ),
        call(
            Op::EmbedPrompt,
            block,
            operand(Tensor::Prompt, shape.text_len, shape.text_dim),
            none(),
            none(),
            operand(Tensor::Text, shape.text_len, shape.d_model),
        ),
    ]
}

fn embed(shape: &PassShape, block: usize) -> (calls: Vec<Call>)
    ensures
        calls@ == embed_calls(*shape, block),
{
    let calls: Vec<Call> = vec![
        call(
            Op::EmbedPatches,
            block,
            operand(Tensor::Patches, shape.patches, shape.in_channels),
            none(),
            none(),
            operand(Tensor::Image, shape.patches, shape.d_model),
        ),
        call(
            Op::EmbedPrompt,
            block,
            operand(Tensor::Prompt, shape.text_len, shape.text_dim),
            none(),
            none(),
            operand(Tensor::Text, shape.text_len, shape.d_model),
        ),
    ];
    assert(calls@ =~= embed_calls(*shape, block));
    calls
}

/// A block of two streams.
pub open spec fn double_block_calls(shape: PassShape, block: usize) -> Seq<Call> {
    seq![
        call(
            Op::Modulate,
            block,
            operand(Tensor::Vector, 1, shape.d_model),
            none(),
            none(),
            operand(Tensor::ImageModulation, 6, shape.d_model),
        ),
        call(
            Op::Modulate,
            block,
            operand(Tensor::Vector, 1, shape.d_model),
            none(),
            none(),
            operand(Tensor::TextModulation, 6, shape.d_model),
        ),
        call(
            Op::Project,
            block,
            operand(Tensor::Image, shape.patches, shape.d_model),
            operand(Tensor::ImageModulation, 6, shape.d_model),
            none(),
            operand(Tensor::ImageProjection, shape.patches, shape.packed),
        ),
        call(
            Op::Project,
            block,
            operand(Tensor::Text, shape.text_len, shape.d_model),
            operand(Tensor::TextModulation, 6, shape.d_model),
            none(),
            operand(Tensor::TextProjection, shape.text_len, shape.packed),
        ),
        call(
            Op::JoinQueries,
            block,
            operand(Tensor::TextProjection, shape.text_len, shape.packed),
            operand(Tensor::ImageProjection, shape.patches, shape.packed),
            none(),
            operand(Tensor::Queries, shape.tokens, shape.d_model),
        ),
        call(
            Op::JoinKeys,
            block,
            operand(Tensor::TextProjection, shape.text_len, shape.packed),
            operand(Tensor::ImageProjection, shape.patches, shape.packed),
            none(),
            operand(Tensor::Keys, shape.tokens, shape.d_model),
        ),
        call(
            Op::JoinValues,
            block,
            operand(Tensor::TextProjection, shape.text_len, shape.packed),
            operand(Tensor::ImageProjection, shape.patches, shape.packed),
            none(),
            operand(Tensor::Values, shape.tokens, shape.d_model),
        ),
        call(
            Op::Rotate,
            block,
            operand(Tensor::Queries, shape.tokens, shape.d_model),
            none(),
            none(),
            operand(Tensor::Queries, shape.tokens, shape.d_model),
        ),
        call(
            Op::Rotate,
            block,
            operand(Tensor::Keys, shape.tokens, shape.d_model),
            none(),
            none(),
            operand(Tensor::Keys, shape.tokens, shape.d_model),
        ),
        call(
            Op::Attend,
            block,
            operand(Tensor::Queries, shape.tokens, shape.d_model),
            operand(Tensor::Keys, shape.tokens, shape.d_model),
            operand(Tensor::Values, shape.tokens, shape.d_model),
            operand(Tensor::Attended, shape.tokens, shape.d_model),
        ),
        call(
            Op::AddAttention,
            block,
            operand(Tensor::Attended, shape.tokens, shape.d_model),
            operand(Tensor::ImageModulation, 6, shape.d_model),
            operand(Tensor::Image, shape.patches, shape.d_model),
            operand(Tensor::Image, shape.patches, shape.d_model),
        ),
        call(
            Op::AddAttention,
            block,
            operand(Tensor::Attended, shape.tokens, shape.d_model),
            operand(Tensor::TextModulation, 6, shape.d_model),
            operand(Tensor::Text, shape.text_len, shape.d_model),
            operand(Tensor::Text, shape.text_len, shape.d_model),
        ),
        call(
            Op::AddFeedForward,
            block,
            operand(Tensor::Image, shape.patches, shape.d_model),
            operand(Tensor::ImageModulation, 6, shape.d_model),
            none(),
            operand(Tensor::Image, shape.patches, shape.d_model),
        ),
        call(
            Op::AddFeedForward,
            block,
            operand(Tensor::Text, shape.text_len, shape.d_model),
            operand(Tensor::TextModulation, 6, shape.d_model),
            none(),
            operand(Tensor::Text, shape.text_len, shape.d_model),
        ),
    ]
}

fn double_block(shape: &PassShape, block: usize) -> (calls: Vec<Call>)
    ensures
        calls@ == double_block_calls(*shape, block),
{
    let calls: Vec<Call> = vec![
        call(
            Op::Modulate,
            block,
            operand(Tensor::Vector, 1, shape.d_model),
            none(),
            none(),
            operand(Tensor::ImageModulation, 6, shape.d_model),
        ),
        call(
            Op::Modulate,
            block,
            operand(Tensor::Vector, 1, shape.d_model),
            none(),
            none(),
            operand(Tensor::TextModulation, 6, shape.d_model),
        ),
        call(
            Op::Project,
            block,
            operand(Tensor::Image, shape.patches, shape.d_model),
            operand(Tensor::ImageModulation, 6, shape.d_model),
            none(),
            operand(Tensor::ImageProjection, shape.patches, shape.packed),
        ),
        call(
            Op::Project,
            block,
            operand(Tensor::Text, shape.text_len, shape.d_model),
            operand(Tensor::TextModulation, 6, shape.d_model),
            none(),
            operand(Tensor::TextProjection, shape.text_len, shape.packed),
        ),
        call(
            Op::JoinQueries,
            block,
            operand(Tensor::TextProjection, shape.text_len, shape.packed),
            operand(Tensor::ImageProjection, shape.patches, shape.packed),
            none(),
            operand(Tensor::Queries, shape.tokens, shape.d_model),
        ),
        call(
            Op::JoinKeys,
            block,
            operand(Tensor::TextProjection, shape.text_len, shape.packed),
            operand(Tensor::ImageProjection, shape.patches, shape.packed),
            none(),
            operand(Tensor::Keys, shape.tokens, shape.d_model),
        ),
        call(
            Op::JoinValues,
            block,
            operand(Tensor::TextProjection, shape.text_len, shape.packed),
            operand(Tensor::ImageProjection, shape.patches, shape.packed),
            none(),
            operand(Tensor::Values, shape.tokens, shape.d_model),
        ),
        call(
            Op::Rotate,
            block,
            operand(Tensor::Queries, shape.tokens, shape.d_model),
            none(),
            none(),
            operand(Tensor::Queries, shape.tokens, shape.d_model),
        ),
        call(
            Op::Rotate,
            block,
            operand(Tensor::Keys, shape.tokens, shape.d_model),
            none(),
            none(),
            operand(Tensor::Keys, shape.tokens, shape.d_model),
        ),
        call(
            Op::Attend,
            block,
            operand(Tensor::Queries, shape.tokens, shape.d_model),
            operand(Tensor::Keys, shape.tokens, shape.d_model),
            operand(Tensor::Values, shape.tokens, shape.d_model),
            operand(Tensor::Attended, shape.tokens, shape.d_model),
        ),
        call(
            Op::AddAttention,
            block,
            operand(Tensor::Attended, shape.tokens, shape.d_model),
            operand(Tensor::ImageModulation, 6, shape.d_model),
            operand(Tensor::Image, shape.patches, shape.d_model),
            operand(Tensor::Image, shape.patches, shape.d_model),
        ),
        call(
            Op::AddAttention,
            block,
            operand(Tensor::Attended, shape.tokens, shape.d_model),
            operand(Tensor::TextModulation, 6, shape.d_model),
            operand(Tensor::Text, shape.text_len, shape.d_model),
            operand(Tensor::Text, shape.text_len, shape.d_model),
        ),
        call(
            Op::AddFeedForward,
            block,
            operand(Tensor::Image, shape.patches, shape.d_model),
            operand(Tensor::ImageModulation, 6, shape.d_model),
            none(),
            operand(Tensor::Image, shape.patches, shape.d_model),
        ),
        call(
            Op::AddFeedForward,
            block,
            operand(Tensor::Text, shape.text_len, shape.d_model),
            operand(Tensor::TextModulation, 6, shape.d_model),
            none(),
            operand(Tensor::Text, shape.text_len, shape.d_model),
        ),
    ];
    assert(calls@ =~= double_block_calls(*shape, block));
    calls
}

/// Text and image as one sequence.
pub open spec fn join_calls(shape: PassShape, block: usize) -> Seq<Call> {
    seq![
        call(
            Op::Concatenate,
            block,
            operand(Tensor::Text, shape.text_len, shape.d_model),
            operand(Tensor::Image, shape.patches, shape.d_model),
            none(),
            operand(Tensor::Hidden, shape.tokens, shape.d_model),
        ),
    ]
}

fn join(shape: &PassShape, block: usize) -> (calls: Vec<Call>)
    ensures
        calls@ == join_calls(*shape, block),
{
    let calls: Vec<Call> = vec![
        call(
            Op::Concatenate,
            block,
            operand(Tensor::Text, shape.text_len, shape.d_model),
            operand(Tensor::Image, shape.patches, shape.d_model),
            none(),
            operand(Tensor::Hidden, shape.tokens, shape.d_model),
        ),
    ];
    assert(calls@ =~= join_calls(*shape, block));
    calls
}

/// A block of one stream.
pub open spec fn single_block_calls(shape: PassShape, block: usize) -> Seq<Call> {
    seq![
        call(
            Op::Modulate,
            block,
            operand(Tensor::Vector, 1, shape.d_model),
            none(),
            none(),
            operand(Tensor::Modulation, 3, shape.d_model),
        ),
        call(
            Op::FuseIn,
            block,
            operand(Tensor::Hidden, shape.tokens, shape.d_model),
            operand(Tensor::Modulation, 3, shape.d_model),
            none(),
            operand(Tensor::Fused, shape.tokens, shape.fused),
        ),
        call(
            Op::SliceQueries,
            block,
            operand(Tensor::Fused, shape.tokens, shape.fused),
            none(),
            none(),
            operand(Tensor::Queries, shape.tokens, shape.d_model),
        ),
        call(
            Op::SliceKeys,
            block,
            operand(Tensor::Fused, shape.tokens, shape.fused),
            none(),
            none(),
            operand(Tensor::Keys, shape.tokens, shape.d_model),
        ),
        call(
            Op::SliceValues,
            block,
            operand(Tensor::Fused, shape.tokens, shape.fused),
            none(),
            none(),
            operand(Tensor::Values, shape.tokens, shape.d_model),
        ),
        call(
            Op::SliceActivated,
            block,
            operand(Tensor::Fused, shape.tokens, shape.fused),
            none(),
            none(),
            operand(Tensor::Activated, shape.tokens, shape.mlp_dim),
        ),
        call(
            Op::Rotate,
            block,
            operand(Tensor::Queries, shape.tokens, shape.d_model),
            none(),
            none(),
            operand(Tensor::Queries, shape.tokens, shape.d_model),
        ),
        call(
            Op::Rotate,
            block,
            operand(Tensor::Keys, shape.tokens, shape.d_model),
            none(),
            none(),
            operand(Tensor::Keys, shape.tokens, shape.d_model),
        ),
        call(
            Op::Attend,
            block,
            operand(Tensor::Queries, shape.tokens, shape.d_model),
            operand(Tensor::Keys, shape.tokens, shape.d_model),
            operand(Tensor::Values, shape.tokens, shape.d_model),
            operand(Tensor::Attended, shape.tokens, shape.d_model),
        ),
        call(
            Op::AddFused,
            block,
            operand(Tensor::Attended, shape.tokens, shape.d_model),
            operand(Tensor::Activated, shape.tokens, shape.mlp_dim),
            operand(Tensor::Modulation, 3, shape.d_model),
            operand(Tensor::Hidden, shape.tokens, shape.d_model),
        ),
    ]
}

fn single_block(shape: &PassShape, block: usize) -> (calls: Vec<Call>)
    ensures
        calls@ == single_block_calls(*shape, block),
{
    let calls: Vec<Call> = vec![
        call(
            Op::Modulate,
            block,
            operand(Tensor::Vector, 1, shape.d_model),
            none(),
            none(),
            operand(Tensor::Modulation, 3, shape.d_model),
        ),
        call(
            Op::FuseIn,
            block,
            operand(Tensor::Hidden, shape.tokens, shape.d_model),
            operand(Tensor::Modulation, 3, shape.d_model),
            none(),
            operand(Tensor::Fused, shape.tokens, shape.fused),
        ),
        call(
            Op::SliceQueries,
            block,
            operand(Tensor::Fused, shape.tokens, shape.fused),
            none(),
            none(),
            operand(Tensor::Queries, shape.tokens, shape.d_model),
        ),
        call(
            Op::SliceKeys,
            block,
            operand(Tensor::Fused, shape.tokens, shape.fused),
            none(),
            none(),
            operand(Tensor::Keys, shape.tokens, shape.d_model),
        ),
        call(
            Op::SliceValues,
            block,
            operand(Tensor::Fused, shape.tokens, shape.fused),
            none(),
            none(),
            operand(Tensor::Values, shape.tokens, shape.d_model),
        ),
        call(
            Op::SliceActivated,
            block,
            operand(Tensor::Fused, shape.tokens, shape.fused),
            none(),
            none(),
            operand(Tensor::Activated, shape.tokens, shape.mlp_dim),
        ),
        call(
            Op::Rotate,
            block,
            operand(Tensor::Queries, shape.tokens, shape.d_model),
            none(),
            none(),
            operand(Tensor::Queries, shape.tokens, shape.d_model),
        ),
        call(
            Op::Rotate,
            block,
            operand(Tensor::Keys, shape.tokens, shape.d_model),
            none(),
            none(),
            operand(Tensor::Keys, shape.tokens, shape.d_model),
        ),
        call(
            Op::Attend,
            block,
            operand(Tensor::Queries, shape.tokens, shape.d_model),
            operand(Tensor::Keys, shape.tokens, shape.d_model),
            operand(Tensor::Values, shape.tokens, shape.d_model),
            operand(Tensor::Attended, shape.tokens, shape.d_model),
        ),
        call(
            Op::AddFused,
            block,
            operand(Tensor::Attended, shape.tokens, shape.d_model),
            operand(Tensor::Activated, shape.tokens, shape.mlp_dim),
            operand(Tensor::Modulation, 3, shape.d_model),
            operand(Tensor::Hidden, shape.tokens, shape.d_model),
        ),
    ];
    assert(calls@ =~= single_block_calls(*shape, block));
    calls
}

/// The rows of the image, modulated and projected.
pub open spec fn final_calls(shape: PassShape, block: usize) -> Seq<Call> {
    seq![
        call(
            Op::SplitImage,
            block,
            operand(Tensor::Hidden, shape.tokens, shape.d_model),
            none(),
            none(),
            operand(Tensor::Image, shape.patches, shape.d_model),
        ),
        call(
            Op::ModulateFinal,
            block,
            operand(Tensor::Vector, 1, shape.d_model),
            none(),
            none(),
            operand(Tensor::FinalModulation, 2, shape.d_model),
        ),
        call(
            Op::ProjectOut,
            block,
            operand(Tensor::Image, shape.patches, shape.d_model),
            operand(Tensor::FinalModulation, 2, shape.d_model),
            none(),
            operand(Tensor::Output, shape.patches, shape.out_channels),
        ),
    ]
}

fn last(shape: &PassShape, block: usize) -> (calls: Vec<Call>)
    ensures
        calls@ == final_calls(*shape, block),
{
    let calls: Vec<Call> = vec![
        call(
            Op::SplitImage,
            block,
            operand(Tensor::Hidden, shape.tokens, shape.d_model),
            none(),
            none(),
            operand(Tensor::Image, shape.patches, shape.d_model),
        ),
        call(
            Op::ModulateFinal,
            block,
            operand(Tensor::Vector, 1, shape.d_model),
            none(),
            none(),
            operand(Tensor::FinalModulation, 2, shape.d_model),
        ),
        call(
            Op::ProjectOut,
            block,
            operand(Tensor::Image, shape.patches, shape.d_model),
            operand(Tensor::FinalModulation, 2, shape.d_model),
            none(),
            operand(Tensor::Output, shape.patches, shape.out_channels),
        ),
    ];
    assert(calls@ =~= final_calls(*shape, block));
    calls
}

/// The steps of the first `k` blocks of two streams.
pub open spec fn double_calls(shape: PassShape, k: int) -> Seq<Call>
    decreases k,
{
    if k <= 0 {
        Seq::empty()
    } else {
        double_calls(shape, k - 1) + double_block_calls(shape, (k - 1) as usize)
    }
}

/// The steps of the first `k` blocks of one stream.
pub open spec fn single_calls(shape: PassShape, k: int) -> Seq<Call>
    decreases k,
{
    if k <= 0 {
        Seq::empty()
    } else {
        single_calls(shape, k - 1) + single_block_calls(shape, (k - 1) as usize)
    }
}

/// The conditioning vector: the noise level first, then the pooled prompt,
/// then the guidance scale, where the model takes them.
pub open spec fn vector_calls(shape: PassShape) -> Seq<Call> {
    time_calls(shape, 0) + (if shape.pooled {
        pooled_calls(shape, 0)
    } else {
        Seq::empty()
    }) + (if shape.guidance {
        guidance_calls(shape, 0)
    } else {
        Seq::empty()
    })
}

/// The steps of a pass.
pub open spec fn pass_calls(shape: PassShape) -> Seq<Call> {
    vector_calls(shape) + embed_calls(shape, 0) + double_calls(shape, shape.double_blocks as int)
        + join_calls(shape, 0) + single_calls(shape, shape.single_blocks as int) + final_calls(
        shape,
        0,
    )
}

fn vector(shape: &PassShape) -> (calls: Vec<Call>)
    ensures
        calls@ == vector_calls(*shape),
{
    let mut calls = time(shape, 0);
    let ghost first = calls@;
    if shape.pooled {
        let mut next = pooled(shape, 0);
        calls.append(&mut next);
    } else {
        assert(calls@ =~= first + Seq::<Call>::empty());
    }
    let ghost second = calls@;
    if shape.guidance {
        let mut next = guidance(shape, 0);
        calls.append(&mut next);
    } else {
        assert(calls@ =~= second + Seq::<Call>::empty());
    }
    calls
}

/// The steps of a pass against a prompt and a patch grid of so many rows and
/// columns. Patches that are not as many as the grid holds are refused.
pub fn forward_with(shape: &PassShape, height: usize, width: usize) -> (calls: Result<
    Vec<Call>,
    NetworkError,
>)
    requires
        height * width <= usize::MAX,
    ensures
        match calls {
            Ok(calls) => shape.patches == height * width && calls@ == pass_calls(*shape),
            Err(error) => shape.patches != height * width && error@ == (Fault::InvalidTarget {
                expected: (height * width) as usize,
                actual: shape.patches,
            }),
        },
{
    if shape.patches != height * width {
        return Err(
            NetworkError::InvalidTarget { expected: height * width, actual: shape.patches },
        );
    }
    let mut calls = vector(shape);
    let mut next = embed(shape, 0);
    calls.append(&mut next);
    let mut blocks: Vec<Call> = Vec::new();
    let mut k: usize = 0;
    while k < shape.double_blocks
        invariant
            k <= shape.double_blocks,
            blocks@ == double_calls(*shape, k as int),
        decreases shape.double_blocks - k,
    {
        let mut next = double_block(shape, k);
        blocks.append(&mut next);
        k = k + 1;
    }
    calls.append(&mut blocks);
    let mut next = join(shape, 0);
    calls.append(&mut next);
    let mut blocks: Vec<Call> = Vec::new();
    let mut k: usize = 0;
    while k < shape.single_blocks
        invariant
            k <= shape.single_blocks,
            blocks@ == single_calls(*shape, k as int),
        decreases shape.single_blocks - k,
    {
        let mut next = single_block(shape, k);
        blocks.append(&mut next);
        k = k + 1;
    }
    calls.append(&mut blocks);
    let mut next = last(shape, 0);
    calls.append(&mut next);
    Ok(calls)
}

/// The prompt a pass runs against: there has to be one.
pub fn conditioned<T>(conditioning: Option<T>) -> (found: Result<T, NetworkError>)
    ensures
        match found {
            Ok(found) => conditioning == Some(found),
            Err(error) => conditioning is None && error@ == Fault::InvalidConfig(
                "this model has no prompt: call `set_conditioning` before sampling"@,
            ),
        },
{
    match conditioning {
        Some(found) => Ok(found),
        None => Err(
            invalid_config("this model has no prompt: call `set_conditioning` before sampling"),
        ),
    }
}

// -- Laws ----------------------------------------------------------------------

/// The shapes of the values there are.
pub ghost struct Shapes {
    pub of: Map<Tensor, (usize, usize)>,
}

impl Shapes {
    /// Whether a value of a shape is there.
    pub open spec fn holds(self, operand: Operand) -> bool {
        operand.value == Tensor::Nothing || (self.of.dom().contains(operand.value)
            && self.of[operand.value] == (operand.rows, operand.cols))
    }
}

/// What a step leaves behind.
pub open spec fn after(shapes: Shapes, call: Call) -> Shapes {
    Shapes { of: shapes.of.insert(call.out.value, (call.out.rows, call.out.cols)) }
}

/// What the first `k` steps leave behind.
pub open spec fn after_calls(shapes: Shapes, calls: Seq<Call>, k: int) -> Shapes
    decreases k,
{
    if k <= 0 {
        shapes
    } else {
        after(after_calls(shapes, calls, k - 1), calls[k - 1])
    }
}

/// Whether each of the first `k` steps reads values of the shapes it expects.
pub open spec fn fits_to(shapes: Shapes, calls: Seq<Call>, k: int) -> bool
    decreases k,
{
    k <= 0 || {
        let before = after_calls(shapes, calls, k - 1);
        let call = calls[k - 1];
        &&& fits_to(shapes, calls, k - 1)
        &&& before.holds(call.a)
        &&& before.holds(call.b)
        &&& before.holds(call.c)
    }
}

/// Whether every step reads values of the shapes it expects.
pub open spec fn fits(shapes: Shapes, calls: Seq<Call>) -> bool {
    fits_to(shapes, calls, calls.len() as int)
}

/// What all steps leave behind.
pub open spec fn after_all(shapes: Shapes, calls: Seq<Call>) -> Shapes {
    after_calls(shapes, calls, calls.len() as int)
}

proof fn lemma_one_more(shapes: Shapes, calls: Seq<Call>, k: int, now: Shapes)
    requires
        0 <= k < calls.len(),
        now == after_calls(shapes, calls, k),
        fits_to(shapes, calls, k),
        now.holds(calls[k].a),
        now.holds(calls[k].b),
        now.holds(calls[k].c),
    ensures
        after_calls(shapes, calls, k + 1) == after(now, calls[k]),
        fits_to(shapes, calls, k + 1),
{
}

proof fn lemma_concat(shapes: Shapes, first: Seq<Call>, second: Seq<Call>)
    requires
        fits(shapes, first),
        fits(after_all(shapes, first), second),
    ensures
        fits(shapes, first + second),
        after_all(shapes, first + second) == after_all(after_all(shapes, first), second),
{
    lemma_prefix(shapes, first, second, first.len() as int);
    lemma_suffix(shapes, first, second, second.len() as int);
}

proof fn lemma_prefix(shapes: Shapes, first: Seq<Call>, second: Seq<Call>, k: int)
    requires
        0 <= k <= first.len(),
        fits_to(shapes, first, k),
    ensures
        fits_to(shapes, first + second, k),
        after_calls(shapes, first + second, k) == after_calls(shapes, first, k),
    decreases k,
{
    if k > 0 {
        lemma_prefix(shapes, first, second, k - 1);
    }
}

proof fn lemma_suffix(shapes: Shapes, first: Seq<Call>, second: Seq<Call>, k: int)
    requires
        0 <= k <= second.len(),
        fits(shapes, first),
        fits_to(after_all(shapes, first), second, k),
        fits_to(shapes, first + second, first.len() as int),
        after_calls(shapes, first + second, first.len() as int) == after_all(shapes, first),
    ensures
        fits_to(shapes, first + second, first.len() + k),
        after_calls(shapes, first + second, first.len() + k) == after_calls(
            after_all(shapes, first),
            second,
            k,
        ),
    decreases k,
{
    if k > 0 {
        lemma_suffix(shapes, first, second, k - 1);
        assert((first + second)[first.len() + k - 1] == second[k - 1]);
    }
}

/// Whether what every block of two streams reads is there.
pub open spec fn has_streams(shape: PassShape, shapes: Shapes) -> bool {
    &&& shapes.holds(operand(Tensor::Vector, 1, shape.d_model))
    &&& shapes.holds(operand(Tensor::Image, shape.patches, shape.d_model))
    &&& shapes.holds(operand(Tensor::Text, shape.text_len, shape.d_model))
}

/// Whether what every block of one stream reads is there.
pub open spec fn has_hidden(shape: PassShape, shapes: Shapes) -> bool {
    &&& shapes.holds(operand(Tensor::Vector, 1, shape.d_model))
    &&& shapes.holds(operand(Tensor::Hidden, shape.tokens, shape.d_model))
}

/// Whether what a pass reads is there.
pub open spec fn has_inputs(shape: PassShape, shapes: Shapes) -> bool {
    &&& shapes.holds(operand(Tensor::Patches, shape.patches, shape.in_channels))
    &&& shapes.holds(operand(Tensor::Prompt, shape.text_len, shape.text_dim))
}

proof fn lemma_time(shape: PassShape, shapes: Shapes, block: usize)
    requires
        has_inputs(shape, shapes),
    ensures
        fits(shapes, time_calls(shape, block)),
        has_inputs(shape, after_all(shapes, time_calls(shape, block))),
        after_all(shapes, time_calls(shape, block)).holds(operand(Tensor::Vector, 1, shape.d_model)),
{
    let calls = time_calls(shape, block);
    let m0 = shapes;
    lemma_one_more(shapes, calls, 0, m0);
    let m1 = after(m0, calls[0]);
}

proof fn lemma_pooled(shape: PassShape, shapes: Shapes, block: usize)
    requires
        has_inputs(shape, shapes),
        shapes.holds(operand(Tensor::Vector, 1, shape.d_model)),
    ensures
        fits(shapes, pooled_calls(shape, block)),
        has_inputs(shape, after_all(shapes, pooled_calls(shape, block))),
        after_all(shapes, pooled_calls(shape, block)).holds(operand(Tensor::Vector, 1, shape.d_model)),
{
    let calls = pooled_calls(shape, block);
    let m0 = shapes;
    lemma_one_more(shapes, calls, 0, m0);
    let m1 = after(m0, calls[0]);
}

proof fn lemma_guidance(shape: PassShape, shapes: Shapes, block: usize)
    requires
        has_inputs(shape, shapes),
        shapes.holds(operand(Tensor::Vector, 1, shape.d_model)),
    ensures
        fits(shapes, guidance_calls(shape, block)),
        has_inputs(shape, after_all(shapes, guidance_calls(shape, block))),
        after_all(shapes, guidance_calls(shape, block)).holds(operand(Tensor::Vector, 1, shape.d_model)),
{
    let calls = guidance_calls(shape, block);
    let m0 = shapes;
    lemma_one_more(shapes, calls, 0, m0);
    let m1 = after(m0, calls[0]);
}

proof fn lemma_embed(shape: PassShape, shapes: Shapes, block: usize)
    requires
        has_inputs(shape, shapes),
        shapes.holds(operand(Tensor::Vector, 1, shape.d_model)),
    ensures
        fits(shapes, embed_calls(shape, block)),
        has_streams(shape, after_all(shapes, embed_calls(shape, block))),
{
    let calls = embed_calls(shape, block);
    let m0 = shapes;
    lemma_one_more(shapes, calls, 0, m0);
    let m1 = after(m0, calls[0]);
    lemma_one_more(shapes, calls, 1, m1);
    let m2 = after(m1, calls[1]);
}

proof fn lemma_double_block(shape: PassShape, shapes: Shapes, block: usize)
    requires
        has_streams(shape, shapes),
    ensures
        fits(shapes, double_block_calls(shape, block)),
        has_streams(shape, after_all(shapes, double_block_calls(shape, block))),
{
    let calls = double_block_calls(shape, block);
    let m0 = shapes;
    lemma_one_more(shapes, calls, 0, m0);
    let m1 = after(m0, calls[0]);
    lemma_one_more(shapes, calls, 1, m1);
    let m2 = after(m1, calls[1]);
    lemma_one_more(shapes, calls, 2, m2);
    let m3 = after(m2, calls[2]);
    lemma_one_more(shapes, calls, 3, m3);
    let m4 = after(m3, calls[3]);
    lemma_one_more(shapes, calls, 4, m4);
    let m5 = after(m4, calls[4]);
    lemma_one_more(shapes, calls, 5, m5);
    let m6 = after(m5, calls[5]);
    lemma_one_more(shapes, calls, 6, m6);
    let m7 = after(m6, calls[6]);
    lemma_one_more(shapes, calls, 7, m7);
    let m8 = after(m7, calls[7]);
    lemma_one_more(shapes, calls, 8, m8);
    let m9 = after(m8, calls[8]);
    lemma_one_more(shapes, calls, 9, m9);
    let m10 = after(m9, calls[9]);
    lemma_one_more(shapes, calls, 10, m10);
    let m11 = after(m10, calls[10]);
    lemma_one_more(shapes, calls, 11, m11);
    let m12 = after(m11, calls[11]);
    lemma_one_more(shapes, calls, 12, m12);
    let m13 = after(m12, calls[12]);
    lemma_one_more(shapes, calls, 13, m13);
    let m14 = after(m13, calls[13]);
}

proof fn lemma_join(shape: PassShape, shapes: Shapes, block: usize)
    requires
        has_streams(shape, shapes),
    ensures
        fits(shapes, join_calls(shape, block)),
        has_hidden(shape, after_all(shapes, join_calls(shape, block))),
{
    let calls = join_calls(shape, block);
    let m0 = shapes;
    lemma_one_more(shapes, calls, 0, m0);
    let m1 = after(m0, calls[0]);
}

proof fn lemma_single_block(shape: PassShape, shapes: Shapes, block: usize)
    requires
        has_hidden(shape, shapes),
    ensures
        fits(shapes, single_block_calls(shape, block)),
        has_hidden(shape, after_all(shapes, single_block_calls(shape, block))),
{
    let calls = single_block_calls(shape, block);
    let m0 = shapes;
    lemma_one_more(shapes, calls, 0, m0);
    let m1 = after(m0, calls[0]);
    lemma_one_more(shapes, calls, 1, m1);
    let m2 = after(m1, calls[1]);
    lemma_one_more(shapes, calls, 2, m2);
    let m3 = after(m2, calls[2]);
    lemma_one_more(shapes, calls, 3, m3);
    let m4 = after(m3, calls[3]);
    lemma_one_more(shapes, calls, 4, m4);
    let m5 = after(m4, calls[4]);
    lemma_one_more(shapes, calls, 5, m5);
    let m6 = after(m5, calls[5]);
    lemma_one_more(shapes, calls, 6, m6);
    let m7 = after(m6, calls[6]);
    lemma_one_more(shapes, calls, 7, m7);
    let m8 = after(m7, calls[7]);
    lemma_one_more(shapes, calls, 8, m8);
    let m9 = after(m8, calls[8]);
    lemma_one_more(shapes, calls, 9, m9);
    let m10 = after(m9, calls[9]);
}

proof fn lemma_last(shape: PassShape, shapes: Shapes, block: usize)
    requires
        has_hidden(shape, shapes),
    ensures
        fits(shapes, final_calls(shape, block)),
        after_all(shapes, final_calls(shape, block)).holds(operand(Tensor::Output, shape.patches, shape.out_channels)),
{
    let calls = final_calls(shape, block);
    let m0 = shapes;
    lemma_one_more(shapes, calls, 0, m0);
    let m1 = after(m0, calls[0]);
    lemma_one_more(shapes, calls, 1, m1);
    let m2 = after(m1, calls[1]);
    lemma_one_more(shapes, calls, 2, m2);
    let m3 = after(m2, calls[2]);
}

proof fn lemma_vector(shape: PassShape, shapes: Shapes)
    requires
        has_inputs(shape, shapes),
    ensures
        fits(shapes, vector_calls(shape)),
        has_inputs(shape, after_all(shapes, vector_calls(shape))),
        after_all(shapes, vector_calls(shape)).holds(operand(Tensor::Vector, 1, shape.d_model)),
{
    let s1 = time_calls(shape, 0);
    lemma_time(shape, shapes, 0);
    let m1 = after_all(shapes, s1);
    let s2 = if shape.pooled {
        lemma_pooled(shape, m1, 0);
        pooled_calls(shape, 0)
    } else {
        Seq::<Call>::empty()
    };
    lemma_concat(shapes, s1, s2);
    let m2 = after_all(m1, s2);
    let s3 = if shape.guidance {
        lemma_guidance(shape, m2, 0);
        guidance_calls(shape, 0)
    } else {
        Seq::<Call>::empty()
    };
    lemma_concat(shapes, s1 + s2, s3);
}

proof fn lemma_doubles(shape: PassShape, shapes: Shapes, k: int)
    requires
        shape.wf(),
        has_streams(shape, shapes),
        0 <= k <= shape.double_blocks,
    ensures
        fits(shapes, double_calls(shape, k)),
        has_streams(shape, after_all(shapes, double_calls(shape, k))),
    decreases k,
{
    if k > 0 {
        lemma_doubles(shape, shapes, k - 1);
        let before = double_calls(shape, k - 1);
        lemma_double_block(shape, after_all(shapes, before), (k - 1) as usize);
        lemma_concat(shapes, before, double_block_calls(shape, (k - 1) as usize));
    }
}

proof fn lemma_singles(shape: PassShape, shapes: Shapes, k: int)
    requires
        shape.wf(),
        has_hidden(shape, shapes),
        0 <= k <= shape.single_blocks,
    ensures
        fits(shapes, single_calls(shape, k)),
        has_hidden(shape, after_all(shapes, single_calls(shape, k))),
    decreases k,
{
    if k > 0 {
        lemma_singles(shape, shapes, k - 1);
        let before = single_calls(shape, k - 1);
        lemma_single_block(shape, after_all(shapes, before), (k - 1) as usize);
        lemma_concat(shapes, before, single_block_calls(shape, (k - 1) as usize));
    }
}

/// Every step of a pass reads values of the shapes it expects, and the pass
/// leaves one prediction per patch.
pub proof fn law_pass_fits(shape: PassShape, shapes: Shapes)
    requires
        shape.wf(),
        has_inputs(shape, shapes),
    ensures
        fits(shapes, pass_calls(shape)),
        after_all(shapes, pass_calls(shape)).holds(
            operand(Tensor::Output, shape.patches, shape.out_channels),
        ),
{
    let s1 = vector_calls(shape);
    lemma_vector(shape, shapes);
    let m1 = after_all(shapes, s1);
    let s2 = embed_calls(shape, 0);
    lemma_embed(shape, m1, 0);
    lemma_concat(shapes, s1, s2);
    let m2 = after_all(m1, s2);
    let s3 = double_calls(shape, shape.double_blocks as int);
    lemma_doubles(shape, m2, shape.double_blocks as int);
    lemma_concat(shapes, s1 + s2, s3);
    let m3 = after_all(m2, s3);
    let s4 = join_calls(shape, 0);
    lemma_join(shape, m3, 0);
    lemma_concat(shapes, s1 + s2 + s3, s4);
    let m4 = after_all(m3, s4);
    let s5 = single_calls(shape, shape.single_blocks as int);
    lemma_singles(shape, m4, shape.single_blocks as int);
    lemma_concat(shapes, s1 + s2 + s3 + s4, s5);
    let m5 = after_all(m4, s5);
    let s6 = final_calls(shape, 0);
    lemma_last(shape, m5, 0);
    lemma_concat(shapes, s1 + s2 + s3 + s4 + s5, s6);
}

} // verus!
