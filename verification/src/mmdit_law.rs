//! What a pass of a denoiser computes, whatever its layers compute.
//!
//! A [`Layers`] says what each layer of a model makes of the values it is
//! handed. Running the steps of a pass with it gives what the formulas of the
//! model give: in a block of two streams each stream is shifted, scaled and
//! gated by a modulation of its own and both meet in one attention, text
//! first; in a block of one stream attention and feed-forward are made from
//! one projection and added together.
use crate::mmdit_pass::{
    double_block_calls, double_calls, embed_calls, final_calls, guidance_calls, join_calls,
    pass_calls, pooled_calls, single_block_calls, single_calls, time_calls, vector_calls, Call, Op,
    PassShape, Tensor,
};
use vstd::prelude::*;

verus! {

/// Whose weights a layer uses: those of one stream, or those of both as one
/// sequence.
pub ghost enum Stream {
    Image,
    Text,
    Both,
}

/// A part of a projection.
pub ghost enum Part {
    Queries,
    Keys,
    Values,
    Activated,
}

/// What the layers of a model make of values.
#[verifier::reject_recursive_types(V)]
pub ghost struct Layers<V> {
    /// The embedded noise level.
    pub time: V,
    /// A vector with the embedded pooled prompt added, and with the embedded
    /// guidance scale added.
    pub with_pooled: spec_fn(V) -> V,
    pub with_guidance: spec_fn(V) -> V,
    /// Patches and prompt as tokens.
    pub patches: spec_fn(V) -> V,
    pub prompt: spec_fn(V) -> V,
    /// The modulation of a stream in a block, from the conditioning vector.
    pub modulation: spec_fn(Stream, int, V) -> V,
    /// A stream's packed projection in a block, from its tokens as its
    /// modulation shifts and scales them.
    pub projected: spec_fn(Stream, int, V, V) -> V,
    /// A part of the projections of two streams in a block, the rows of the
    /// first before those of the second.
    pub joined: spec_fn(Part, int, V, V) -> V,
    /// Rows turned by their positions.
    pub rotated: spec_fn(V) -> V,
    /// What queries find in keys and values.
    pub attended: spec_fn(V, V, V) -> V,
    /// A stream's tokens with its rows of an attention added, as its
    /// modulation gates them.
    pub with_attention: spec_fn(Stream, int, V, V, V) -> V,
    /// A stream's tokens with its feed-forward added, which its modulation
    /// shifts, scales and gates.
    pub with_feed_forward: spec_fn(Stream, int, V, V) -> V,
    /// The rows of one value before those of another.
    pub concatenated: spec_fn(V, V) -> V,
    /// The fused projection of a block, from modulated tokens.
    pub fused: spec_fn(int, V, V) -> V,
    /// A part of a fused projection.
    pub sliced: spec_fn(Part, int, V) -> V,
    /// Tokens with an attention and an activation added, projected as one and
    /// gated by a modulation.
    pub with_fused: spec_fn(int, V, V, V, V) -> V,
    /// The rows of the image.
    pub image_rows: spec_fn(V) -> V,
    /// The last modulation, and the prediction that it shifts and scales.
    pub final_modulation: spec_fn(V) -> V,
    pub predicted: spec_fn(V, V) -> V,
}

// -- What a model computes -------------------------------------------------------

/// The conditioning vector.
pub open spec fn conditioning<V>(l: Layers<V>, pooled: bool, guidance: bool) -> V {
    let first = if pooled {
        (l.with_pooled)(l.time)
    } else {
        l.time
    };
    if guidance {
        (l.with_guidance)(first)
    } else {
        first
    }
}

/// What both streams attend to together in a block.
pub open spec fn joint_attention<V>(
    l: Layers<V>,
    block: int,
    image: V,
    text: V,
    image_modulation: V,
    text_modulation: V,
) -> V {
    let from_image = (l.projected)(Stream::Image, block, image, image_modulation);
    let from_text = (l.projected)(Stream::Text, block, text, text_modulation);
    (l.attended)(
        (l.rotated)((l.joined)(Part::Queries, block, from_text, from_image)),
        (l.rotated)((l.joined)(Part::Keys, block, from_text, from_image)),
        (l.joined)(Part::Values, block, from_text, from_image),
    )
}

/// A stream after a block: its own rows of the attention, then its own
/// feed-forward, both by its own modulation.
pub open spec fn stream_after<V>(
    l: Layers<V>,
    stream: Stream,
    block: int,
    tokens: V,
    attention: V,
    modulation: V,
) -> V {
    (l.with_feed_forward)(
        stream,
        block,
        (l.with_attention)(stream, block, tokens, attention, modulation),
        modulation,
    )
}

/// Image and text after the first `k` blocks of two streams.
pub open spec fn streams<V>(l: Layers<V>, vector: V, image: V, text: V, k: int) -> (V, V)
    decreases k,
{
    if k <= 0 {
        (image, text)
    } else {
        let (image, text) = streams(l, vector, image, text, k - 1);
        let of_image = (l.modulation)(Stream::Image, k - 1, vector);
        let of_text = (l.modulation)(Stream::Text, k - 1, vector);
        let attention = joint_attention(l, k - 1, image, text, of_image, of_text);
        (
            stream_after(l, Stream::Image, k - 1, image, attention, of_image),
            stream_after(l, Stream::Text, k - 1, text, attention, of_text),
        )
    }
}

/// The one sequence after the first `k` blocks of one stream.
pub open spec fn sequence<V>(l: Layers<V>, vector: V, tokens: V, k: int) -> V
    decreases k,
{
    if k <= 0 {
        tokens
    } else {
        let tokens = sequence(l, vector, tokens, k - 1);
        let modulation = (l.modulation)(Stream::Both, k - 1, vector);
        let fused = (l.fused)(k - 1, tokens, modulation);
        let attention = (l.attended)(
            (l.rotated)((l.sliced)(Part::Queries, k - 1, fused)),
            (l.rotated)((l.sliced)(Part::Keys, k - 1, fused)),
            (l.sliced)(Part::Values, k - 1, fused),
        );
        (l.with_fused)(
            k - 1,
            tokens,
            attention,
            (l.sliced)(Part::Activated, k - 1, fused),
            modulation,
        )
    }
}

/// What a model predicts for patches against a prompt.
pub open spec fn prediction<V>(l: Layers<V>, shape: PassShape, patches: V, prompt: V) -> V {
    let vector = conditioning(l, shape.pooled, shape.guidance);
    let (image, text) = streams(
        l,
        vector,
        (l.patches)(patches),
        (l.prompt)(prompt),
        shape.double_blocks as int,
    );
    let tokens = sequence(
        l,
        vector,
        (l.concatenated)(text, image),
        shape.single_blocks as int,
    );
    (l.predicted)((l.image_rows)(tokens), (l.final_modulation)(vector))
}

// -- What the steps compute ------------------------------------------------------

/// Whose a value is.
pub open spec fn stream_of(tensor: Tensor) -> Stream {
    match tensor {
        Tensor::Image | Tensor::ImageModulation | Tensor::ImageProjection => Stream::Image,
        Tensor::Text | Tensor::TextModulation | Tensor::TextProjection => Stream::Text,
        _ => Stream::Both,
    }
}

/// What a step makes of the values there are.
pub open spec fn made<V>(l: Layers<V>, values: Map<Tensor, V>, call: Call) -> V {
    let (a, b, c) = (values[call.a.value], values[call.b.value], values[call.c.value]);
    let block = call.block as int;
    match call.op {
        Op::EmbedTime => l.time,
        Op::EmbedPooled => (l.with_pooled)(a),
        Op::EmbedGuidance => (l.with_guidance)(a),
        Op::EmbedPatches => (l.patches)(a),
        Op::EmbedPrompt => (l.prompt)(a),
        Op::Modulate => (l.modulation)(stream_of(call.out.value), block, a),
        Op::Project => (l.projected)(stream_of(call.a.value), block, a, b),
        Op::JoinQueries => (l.joined)(Part::Queries, block, a, b),
        Op::JoinKeys => (l.joined)(Part::Keys, block, a, b),
        Op::JoinValues => (l.joined)(Part::Values, block, a, b),
        Op::Rotate => (l.rotated)(a),
        Op::Attend => (l.attended)(a, b, c),
        Op::AddAttention => (l.with_attention)(stream_of(call.out.value), block, c, a, b),
        Op::AddFeedForward => (l.with_feed_forward)(stream_of(call.out.value), block, a, b),
        Op::Concatenate => (l.concatenated)(a, b),
        Op::FuseIn => (l.fused)(block, a, b),
        Op::SliceQueries => (l.sliced)(Part::Queries, block, a),
        Op::SliceKeys => (l.sliced)(Part::Keys, block, a),
        Op::SliceValues => (l.sliced)(Part::Values, block, a),
        Op::SliceActivated => (l.sliced)(Part::Activated, block, a),
        Op::AddFused => (l.with_fused)(block, values[Tensor::Hidden], a, b, c),
        Op::SplitImage => (l.image_rows)(a),
        Op::ModulateFinal => (l.final_modulation)(a),
        Op::ProjectOut => (l.predicted)(a, b),
    }
}

/// The values there are after the first `k` steps.
pub open spec fn run_to<V>(
    l: Layers<V>,
    values: Map<Tensor, V>,
    calls: Seq<Call>,
    k: int,
) -> Map<Tensor, V>
    decreases k,
{
    if k <= 0 {
        values
    } else {
        let before = run_to(l, values, calls, k - 1);
        before.insert(calls[k - 1].out.value, made(l, before, calls[k - 1]))
    }
}

/// The values there are after some steps.
pub open spec fn run<V>(l: Layers<V>, values: Map<Tensor, V>, calls: Seq<Call>) -> Map<Tensor, V> {
    run_to(l, values, calls, calls.len() as int)
}

proof fn lemma_prefix<V>(
    l: Layers<V>,
    values: Map<Tensor, V>,
    first: Seq<Call>,
    second: Seq<Call>,
    k: int,
)
    requires
        0 <= k <= first.len(),
    ensures
        run_to(l, values, first + second, k) == run_to(l, values, first, k),
    decreases k,
{
    if k > 0 {
        lemma_prefix(l, values, first, second, k - 1);
    }
}

proof fn lemma_suffix<V>(
    l: Layers<V>,
    values: Map<Tensor, V>,
    first: Seq<Call>,
    second: Seq<Call>,
    k: int,
)
    requires
        0 <= k <= second.len(),
    ensures
        run_to(l, values, first + second, first.len() + k) == run_to(
            l,
            run(l, values, first),
            second,
            k,
        ),
    decreases k,
{
    if k > 0 {
        lemma_suffix(l, values, first, second, k - 1);
        assert((first + second)[first.len() + k - 1] == second[k - 1]);
    } else {
        lemma_prefix(l, values, first, second, first.len() as int);
    }
}

proof fn lemma_both<V>(
    l: Layers<V>,
    values: Map<Tensor, V>,
    first: Seq<Call>,
    second: Seq<Call>,
)
    ensures
        run(l, values, first + second) == run(l, run(l, values, first), second),
{
    lemma_suffix(l, values, first, second, second.len() as int);
}

proof fn lemma_vector<V>(l: Layers<V>, values: Map<Tensor, V>, shape: PassShape)
    ensures
        ({
            let after = run(l, values, vector_calls(shape));
            &&& after[Tensor::Vector] == conditioning(l, shape.pooled, shape.guidance)
            &&& after[Tensor::Patches] == values[Tensor::Patches]
            &&& after[Tensor::Prompt] == values[Tensor::Prompt]
        }),
{
    let s1 = time_calls(shape, 0);
    let s2 = if shape.pooled {
        pooled_calls(shape, 0)
    } else {
        Seq::<Call>::empty()
    };
    let s3 = if shape.guidance {
        guidance_calls(shape, 0)
    } else {
        Seq::<Call>::empty()
    };
    lemma_both(l, values, s1, s2);
    lemma_both(l, values, s1 + s2, s3);
    reveal_with_fuel(run_to, 2);
}

proof fn lemma_embed<V>(l: Layers<V>, values: Map<Tensor, V>, shape: PassShape)
    ensures
        ({
            let after = run(l, values, embed_calls(shape, 0));
            &&& after[Tensor::Vector] == values[Tensor::Vector]
            &&& after[Tensor::Image] == (l.patches)(values[Tensor::Patches])
            &&& after[Tensor::Text] == (l.prompt)(values[Tensor::Prompt])
        }),
{
    reveal_with_fuel(run_to, 3);
}

proof fn lemma_double_block<V>(
    l: Layers<V>,
    values: Map<Tensor, V>,
    shape: PassShape,
    block: usize,
)
    ensures
        ({
            let (vector, image, text) = (
                values[Tensor::Vector],
                values[Tensor::Image],
                values[Tensor::Text],
            );
            let of_image = (l.modulation)(Stream::Image, block as int, vector);
            let of_text = (l.modulation)(Stream::Text, block as int, vector);
            let attention = joint_attention(l, block as int, image, text, of_image, of_text);
            let after = run(l, values, double_block_calls(shape, block));
            &&& after[Tensor::Vector] == vector
            &&& after[Tensor::Image] == stream_after(
                l,
                Stream::Image,
                block as int,
                image,
                attention,
                of_image,
            )
            &&& after[Tensor::Text] == stream_after(
                l,
                Stream::Text,
                block as int,
                text,
                attention,
                of_text,
            )
        }),
{
    reveal_with_fuel(run_to, 15);
}

proof fn lemma_single_block<V>(
    l: Layers<V>,
    values: Map<Tensor, V>,
    shape: PassShape,
    block: usize,
)
    ensures
        ({
            let after = run(l, values, single_block_calls(shape, block));
            &&& after[Tensor::Vector] == values[Tensor::Vector]
            &&& after[Tensor::Hidden] == ({
                let tokens = values[Tensor::Hidden];
                let modulation = (l.modulation)(Stream::Both, block as int, values[Tensor::Vector]);
                let fused = (l.fused)(block as int, tokens, modulation);
                let attention = (l.attended)(
                    (l.rotated)((l.sliced)(Part::Queries, block as int, fused)),
                    (l.rotated)((l.sliced)(Part::Keys, block as int, fused)),
                    (l.sliced)(Part::Values, block as int, fused),
                );
                (l.with_fused)(
                    block as int,
                    tokens,
                    attention,
                    (l.sliced)(Part::Activated, block as int, fused),
                    modulation,
                )
            })
        }),
{
    reveal_with_fuel(run_to, 12);
}

proof fn lemma_doubles<V>(l: Layers<V>, values: Map<Tensor, V>, shape: PassShape, k: int)
    requires
        0 <= k <= shape.double_blocks,
    ensures
        ({
            let after = run(l, values, double_calls(shape, k));
            let both = streams(
                l,
                values[Tensor::Vector],
                values[Tensor::Image],
                values[Tensor::Text],
                k,
            );
            &&& after[Tensor::Vector] == values[Tensor::Vector]
            &&& after[Tensor::Image] == both.0
            &&& after[Tensor::Text] == both.1
        }),
    decreases k,
{
    if k > 0 {
        lemma_doubles(l, values, shape, k - 1);
        let before = double_calls(shape, k - 1);
        lemma_both(l, values, before, double_block_calls(shape, (k - 1) as usize));
        lemma_double_block(l, run(l, values, before), shape, (k - 1) as usize);
    }
}

proof fn lemma_singles<V>(l: Layers<V>, values: Map<Tensor, V>, shape: PassShape, k: int)
    requires
        0 <= k <= shape.single_blocks,
    ensures
        ({
            let after = run(l, values, single_calls(shape, k));
            &&& after[Tensor::Vector] == values[Tensor::Vector]
            &&& after[Tensor::Hidden] == sequence(
                l,
                values[Tensor::Vector],
                values[Tensor::Hidden],
                k,
            )
        }),
    decreases k,
{
    if k > 0 {
        lemma_singles(l, values, shape, k - 1);
        let before = single_calls(shape, k - 1);
        lemma_both(l, values, before, single_block_calls(shape, (k - 1) as usize));
        lemma_single_block(l, run(l, values, before), shape, (k - 1) as usize);
    }
}

/// A pass predicts what the formulas of its model predict: whatever the layers
/// make of values, running the steps of a pass on patches and a prompt leaves
/// the model's prediction.
pub proof fn law_pass_is_the_model<V>(l: Layers<V>, values: Map<Tensor, V>, shape: PassShape)
    ensures
        run(l, values, pass_calls(shape))[Tensor::Output] == prediction(
            l,
            shape,
            values[Tensor::Patches],
            values[Tensor::Prompt],
        ),
{
    let s1 = vector_calls(shape);
    let s2 = embed_calls(shape, 0);
    let s3 = double_calls(shape, shape.double_blocks as int);
    let s4 = join_calls(shape, 0);
    let s5 = single_calls(shape, shape.single_blocks as int);
    let s6 = final_calls(shape, 0);
    lemma_vector(l, values, shape);
    let m1 = run(l, values, s1);
    lemma_both(l, values, s1, s2);
    lemma_embed(l, m1, shape);
    let m2 = run(l, m1, s2);
    lemma_both(l, values, s1 + s2, s3);
    lemma_doubles(l, m2, shape, shape.double_blocks as int);
    let m3 = run(l, m2, s3);
    lemma_both(l, values, s1 + s2 + s3, s4);
    let m4 = run(l, m3, s4);
    assert(m4[Tensor::Hidden] == (l.concatenated)(m3[Tensor::Text], m3[Tensor::Image])
        && m4[Tensor::Vector] == m3[Tensor::Vector]) by {
        reveal_with_fuel(run_to, 2);
    }
    lemma_both(l, values, s1 + s2 + s3 + s4, s5);
    lemma_singles(l, m4, shape, shape.single_blocks as int);
    let m5 = run(l, m4, s5);
    lemma_both(l, values, s1 + s2 + s3 + s4 + s5, s6);
    let m6 = run(l, m5, s6);
    assert(m6[Tensor::Output] == (l.predicted)(
        (l.image_rows)(m5[Tensor::Hidden]),
        (l.final_modulation)(m5[Tensor::Vector]),
    )) by {
        reveal_with_fuel(run_to, 4);
    }
}

} // verus!
