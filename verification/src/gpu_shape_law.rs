//! What an autoencoder of shapes computes on the device, and its gradients.
//!
//! The encoder lets its queries look at a surface's points, sends what they saw
//! through its blocks, and reads moments off. The decoder lets points look at
//! the latents and reads distances, and colours where they are asked for, off
//! what they saw.
use crate::device::{Buffer, Factor, Kernel, Kind, Sizes, Step};
use crate::device_law::{
    also_made, args1, args2, args3, args5, copied, done, input_gradient, inverse_lengths, lemma_both,
    linear, made, matrix, new_part, normalized, plain_form, run, run_to, size, weight_step, whole, with_part, zeros,
    Args, Device, Values,
};
use crate::gpu_model_law::{norm_back, norm_input, norm_scale};
use crate::gpu_shape::{
    block_attention_gradient_steps, block_backward_steps, block_mlp_gradient_steps, block_steps,
    colors_gradient_steps, colors_steps, decode_gradient_steps, decode_steps,
    distances_gradient_steps, distances_steps, latent_gradient_steps, mlp_gradient_steps,
    moments_gradient_steps, moments_steps, read_latent_steps, read_surface_steps,
    surface_gradient_steps, BlockPlan, DecodePlan, EncodePlan,
};
use vstd::prelude::*;

verus! {

/// What an attention of so many queries to so many keys in each of some
/// sequences is told.
pub open spec fn looking(queries: usize, keys: usize, sequences: usize, width: usize) -> Sizes {
    Sizes {
        rows: queries,
        cols: width,
        heads: 0,
        head_dim: 0,
        length: keys,
        width: sequences,
        base: 0,
    }
}

/// What a feed-forward makes of rows, from nothing.
pub open spec fn fed<V>(d: Device<V>, x: V, rows: int, width: int) -> V {
    let none = whole(zeros(d, rows * width), rows * width);
    made(
        d,
        Kernel::FeedForward,
        size(rows, width),
        args2(whole(x, rows * width), none),
        none,
    )
}

/// One value added to another, entry by entry.
pub open spec fn plus<V>(d: Device<V>, to: V, value: V, len: int) -> V {
    with_part(d, to, value, 0, len)
}

/// What a normalization hands back whose input also went past it.
pub open spec fn norm_past<V>(
    x: V,
    upstream: V,
    weight: V,
    inverse: V,
    past: V,
    rows: int,
    cols: int,
) -> Args<V> {
    args5(
        whole(x, rows * cols),
        whole(upstream, rows * cols),
        whole(weight, cols),
        whole(inverse, rows),
        whole(past, rows * cols),
    )
}

// -- Blocks ------------------------------------------------------------------------

/// The rows of a block, and their columns.
pub open spec fn rows_of(plan: BlockPlan) -> int {
    plan.length * plan.sequences
}

/// Rows with what they find among themselves added.
pub open spec fn attended<V>(d: Device<V>, plan: BlockPlan, values: Values<V>) -> V {
    let (rows, width) = (rows_of(plan), plan.width as int);
    let x = values[Buffer::Stream(0)];
    let seen = normalized(d, x, values[Buffer::SubWeight(0)], rows, width);
    plus(
        d,
        made(
            d,
            Kernel::Attention,
            looking(plan.length, plan.length, plan.sequences, plan.width),
            args1(whole(seen, rows * width)),
            new_part(d, rows * width),
        ),
        x,
        rows * width,
    )
}

/// A block adds to its rows what they find among themselves, and then what the
/// feed-forward makes of that; it keeps what its gradients need.
pub proof fn law_block_is_attention_then_feed_forward<V>(
    d: Device<V>,
    values: Values<V>,
    plan: BlockPlan,
)
    requires
        plan.wf(),
    ensures
        ({
            let (rows, width) = (rows_of(plan), plan.width as int);
            let after = run(d, values, block_steps(plan));
            let x = values[Buffer::Stream(0)];
            let y = attended(d, plan, values);
            let seen = normalized(d, y, values[Buffer::SubWeight(1)], rows, width);
            &&& after[Buffer::Stream(1)] == y
            &&& after[Buffer::Stream(2)] == plus(d, fed(d, seen, rows, width), y, rows * width)
            &&& after[Buffer::SubNormed(0)] == normalized(
                d,
                x,
                values[Buffer::SubWeight(0)],
                rows,
                width,
            )
            &&& after[Buffer::SubInverse(0)] == inverse_lengths(
                d,
                x,
                values[Buffer::SubWeight(0)],
                rows,
                width,
            )
            &&& after[Buffer::SubNormed(1)] == seen
            &&& after[Buffer::SubInverse(1)] == inverse_lengths(
                d,
                y,
                values[Buffer::SubWeight(1)],
                rows,
                width,
            )
            &&& after[Buffer::Stream(0)] == x
        }),
{
    let steps = block_steps(plan);
    let m0 = values;
    assert(run_to(d, values, steps, 0) == m0);
    let m1 = done(d, m0, steps[0]);
    assert(run_to(d, values, steps, 1) == m1);
    let m2 = done(d, m1, steps[1]);
    assert(run_to(d, values, steps, 2) == m2);
    let m3 = done(d, m2, steps[2]);
    assert(run_to(d, values, steps, 3) == m3);
    let m4 = done(d, m3, steps[3]);
    assert(run_to(d, values, steps, 4) == m4);
    let m5 = done(d, m4, steps[4]);
    assert(run_to(d, values, steps, 5) == m5);
    let m6 = done(d, m5, steps[5]);
    assert(run_to(d, values, steps, 6) == m6);
    let m7 = done(d, m6, steps[6]);
    assert(run_to(d, values, steps, 7) == m7);
    let m8 = done(d, m7, steps[7]);
    assert(run_to(d, values, steps, 8) == m8);
    let m9 = done(d, m8, steps[8]);
    assert(run_to(d, values, steps, 9) == m9);
    let m10 = done(d, m9, steps[9]);
    assert(run_to(d, values, steps, 10) == m10);
    let m11 = done(d, m10, steps[10]);
    assert(run_to(d, values, steps, 11) == m11);
    let m12 = done(d, m11, steps[11]);
    assert(run_to(d, values, steps, 12) == m12);
    let m13 = done(d, m12, steps[12]);
    assert(run_to(d, values, steps, 13) == m13);
}

/// The gradients of the stream between the halves of a block, and of the
/// scales, from that of the stream above.
pub open spec fn fed_back<V>(d: Device<V>, plan: BlockPlan, values: Values<V>) -> (V, V) {
    let (rows, width) = (rows_of(plan), plan.width as int);
    let len = rows * width;
    let above = values[Buffer::GradStream(2)];
    let of_seen = made(
        d,
        Kernel::FeedForwardBackward,
        size(rows, width),
        args2(whole(values[Buffer::SubNormed(1)], len), whole(copied(d, above, len), len)),
        new_part(d, len),
    );
    let read = norm_past(
        values[Buffer::Stream(1)],
        of_seen,
        values[Buffer::SubWeight(1)],
        values[Buffer::SubInverse(1)],
        above,
        rows,
        width,
    );
    (
        norm_input(d, read, plan.norm0 + width, rows, width),
        norm_scale(d, read, values[Buffer::GradNorms], plan.norm0 + width, rows, width),
    )
}

/// The gradients of the stream below a block, and of the scales, from those
/// between its halves.
pub open spec fn looked_back<V>(
    d: Device<V>,
    plan: BlockPlan,
    values: Values<V>,
    middle: V,
    norms: V,
) -> (V, V) {
    let (rows, width) = (rows_of(plan), plan.width as int);
    let len = rows * width;
    let read = args2(whole(middle, len), whole(values[Buffer::SubNormed(0)], len));
    let sizes = looking(plan.length, plan.length, plan.sequences, plan.width);
    let of_rows = plus(
        d,
        made(d, Kernel::AttentionBackward, sizes, read, new_part(d, len)),
        also_made(d, Kernel::AttentionBackward, sizes, read, new_part(d, len)),
        len,
    );
    let past = norm_past(
        values[Buffer::Stream(0)],
        of_rows,
        values[Buffer::SubWeight(0)],
        values[Buffer::SubInverse(0)],
        middle,
        rows,
        width,
    );
    (
        norm_input(d, past, plan.norm0 as int, rows, width),
        norm_scale(d, past, norms, plan.norm0 as int, rows, width),
    )
}

proof fn lemma_fed_back<V>(d: Device<V>, values: Values<V>, plan: BlockPlan)
    requires
        plan.wf(),
    ensures
        ({
            let after = run(d, values, block_mlp_gradient_steps(plan));
            &&& after[Buffer::GradStream(1)] == fed_back(d, plan, values).0
            &&& after[Buffer::GradNorms] == fed_back(d, plan, values).1
            &&& after[Buffer::SubNormed(0)] == values[Buffer::SubNormed(0)]
            &&& after[Buffer::Stream(0)] == values[Buffer::Stream(0)]
            &&& after[Buffer::SubWeight(0)] == values[Buffer::SubWeight(0)]
            &&& after[Buffer::SubInverse(0)] == values[Buffer::SubInverse(0)]
        }),
{
    reveal_with_fuel(run_to, 7);
}

proof fn lemma_looked_back_over<V>(d: Device<V>, values: Values<V>, plan: BlockPlan)
    requires
        plan.wf(),
    ensures
        ({
            let after = run(d, values, block_attention_gradient_steps(plan));
            let both = looked_back(
                d,
                plan,
                values,
                values[Buffer::GradStream(1)],
                values[Buffer::GradNorms],
            );
            &&& after[Buffer::GradStream(0)] == both.0
            &&& after[Buffer::GradNorms] == both.1
        }),
{
    reveal_with_fuel(run_to, 7);
}

/// A block is taken back through the feed-forward and then the attention. The
/// stream's gradient goes on through each of them and past it, and each scale's
/// goes to its own slot.
pub proof fn law_block_gradient<V>(d: Device<V>, values: Values<V>, plan: BlockPlan)
    requires
        plan.wf(),
    ensures
        ({
            let after = run(d, values, block_backward_steps(plan));
            let (middle, norms) = fed_back(d, plan, values);
            &&& after[Buffer::GradStream(0)] == looked_back(d, plan, values, middle, norms).0
            &&& after[Buffer::GradNorms] == looked_back(d, plan, values, middle, norms).1
        }),
{
    let s1 = block_mlp_gradient_steps(plan);
    let s2 = block_attention_gradient_steps(plan);
    lemma_both(d, values, s1, s2);
    lemma_fed_back(d, values, plan);
    lemma_looked_back_over(d, run(d, values, s1), plan);
}

// -- The encoder ---------------------------------------------------------------------

/// The encoder starts from its queries, with what they find among the points of
/// the surface added, and ends in the moments that its last rows, normalized,
/// give.
pub proof fn law_encoder_reads_a_surface<V>(d: Device<V>, values: Values<V>, plan: EncodePlan)
    requires
        plan.wf(),
    ensures
        ({
            let (rows, points, width) = (
                plan.latents * plan.sequences,
                plan.points * plan.sequences,
                plan.width as int,
            );
            let first = run(d, values, read_surface_steps(plan));
            let last = run(d, values, moments_steps(plan));
            let tokens = linear(
                d,
                values[Buffer::Features],
                values[Buffer::SurfaceWeight],
                points,
                width,
                plan.feature_dim as int,
            );
            let seen = normalized(
                d,
                values[Buffer::Stream(2)],
                values[Buffer::SubWeight(2)],
                rows,
                width,
            );
            &&& first[Buffer::Tokens] == tokens
            &&& first[Buffer::Stream(0)] == plus(
                d,
                made(
                    d,
                    Kernel::Attention,
                    looking(plan.latents, plan.points, plan.sequences, plan.width),
                    args2(
                        whole(values[Buffer::Queries], rows * width),
                        whole(tokens, points * width),
                    ),
                    new_part(d, rows * width),
                ),
                values[Buffer::Queries],
                rows * width,
            )
            &&& last[Buffer::SubNormed(2)] == seen
            &&& last[Buffer::SubInverse(2)] == inverse_lengths(
                d,
                values[Buffer::Stream(2)],
                values[Buffer::SubWeight(2)],
                rows,
                width,
            )
            &&& last[Buffer::Moments] == linear(
                d,
                seen,
                values[Buffer::MomentsWeight],
                rows,
                plan.moments as int,
                width,
            )
        }),
{
    reveal_with_fuel(run_to, 6);
}

/// The encoder is taken back from its moments, whose weight and scale get their
/// gradients, to its queries, which also went past their attention, and to the
/// weight that the points came through.
pub proof fn law_encoder_gradient<V>(d: Device<V>, values: Values<V>, plan: EncodePlan)
    requires
        plan.wf(),
    ensures
        ({
            let (rows, points, width) = (
                plan.latents * plan.sequences,
                plan.points * plan.sequences,
                plan.width as int,
            );
            let len = rows * width;
            let first = run(d, values, moments_gradient_steps(plan));
            let last = run(d, values, surface_gradient_steps(plan));
            let none = zeros(d, plan.norms as int);
            let of_seen = input_gradient(
                d,
                (d.fresh)(len),
                false,
                values[Buffer::GradMoments],
                values[Buffer::MomentsWeight],
                rows,
                width,
                plan.moments as int,
            );
            let norm = norm_back(
                values[Buffer::Stream(2)],
                of_seen,
                values[Buffer::SubWeight(2)],
                values[Buffer::SubInverse(2)],
                none,
                0,
                rows,
                width,
            );
            let read = args3(
                whole(values[Buffer::GradStream(0)], len),
                whole(values[Buffer::Queries], len),
                whole(values[Buffer::Tokens], points * width),
            );
            let sizes = looking(plan.latents, plan.points, plan.sequences, plan.width);
            &&& first[Buffer::GradStream(2)] == norm_input(d, norm, 0, rows, width)
            &&& first[Buffer::GradNorms] == norm_scale(d, norm, none, 0, rows, width)
            &&& first[Buffer::MomentsGrad] == weight_step(
                d,
                values[Buffer::MomentsGrad],
                true,
                values[Buffer::GradMoments],
                values[Buffer::SubNormed(2)],
                plan.moments as int,
                width,
                rows,
            )
            &&& last[Buffer::GradQueries] == plus(
                d,
                made(d, Kernel::AttentionBackward, sizes, read, new_part(d, len)),
                values[Buffer::GradStream(0)],
                len,
            )
            &&& last[Buffer::SurfaceGrad] == weight_step(
                d,
                values[Buffer::SurfaceGrad],
                true,
                also_made(d, Kernel::AttentionBackward, sizes, read, new_part(d, points * width)),
                values[Buffer::Features],
                width,
                plan.feature_dim as int,
                points,
            )
        }),
{
    reveal_with_fuel(run_to, 8);
}

// -- The decoder ---------------------------------------------------------------------

/// The points of a decoder, with what they find among the latents added.
pub open spec fn placed<V>(d: Device<V>, plan: DecodePlan, values: Values<V>) -> V {
    let (rows, latents, width) = (
        plan.query_rows * plan.sequences,
        plan.latents * plan.sequences,
        plan.width as int,
    );
    let points = linear(
        d,
        values[Buffer::Features],
        values[Buffer::PointWeight],
        rows,
        width,
        plan.feature_dim as int,
    );
    let keys = linear(
        d,
        values[Buffer::Latent],
        values[Buffer::LatentWeight],
        latents,
        width,
        plan.latent_dim as int,
    );
    plus(
        d,
        made(
            d,
            Kernel::Attention,
            looking(plan.query_rows, plan.latents, plan.sequences, plan.width),
            args2(whole(points, rows * width), whole(keys, latents * width)),
            new_part(d, rows * width),
        ),
        points,
        rows * width,
    )
}

proof fn lemma_placed<V>(d: Device<V>, values: Values<V>, plan: DecodePlan)
    requires
        plan.wf(),
    ensures
        ({
            let after = run(d, values, read_latent_steps(plan));
            &&& after[Buffer::Stream(0)] == placed(d, plan, values)
            &&& after[Buffer::SubWeight(0)] == values[Buffer::SubWeight(0)]
            &&& after[Buffer::SubWeight(1)] == values[Buffer::SubWeight(1)]
            &&& after[Buffer::DistanceWeight] == values[Buffer::DistanceWeight]
        }),
{
    reveal_with_fuel(run_to, 8);
}

/// What the decoder reads off placed points: the points with what its
/// feed-forward makes of them added, those rows normalized, and one distance
/// for each.
pub open spec fn is_read_off<V>(
    d: Device<V>,
    plan: DecodePlan,
    values: Values<V>,
    after: Values<V>,
    x: V,
) -> bool {
    let (rows, width) = (plan.query_rows * plan.sequences, plan.width as int);
    let seen = normalized(d, x, values[Buffer::SubWeight(0)], rows, width);
    let y = plus(d, fed(d, seen, rows, width), x, rows * width);
    let last = normalized(d, y, values[Buffer::SubWeight(1)], rows, width);
    &&& after[Buffer::Stream(0)] == x
    &&& after[Buffer::Stream(1)] == y
    &&& after[Buffer::SubNormed(0)] == seen
    &&& after[Buffer::SubInverse(0)] == inverse_lengths(
        d,
        x,
        values[Buffer::SubWeight(0)],
        rows,
        width,
    )
    &&& after[Buffer::SubNormed(1)] == last
    &&& after[Buffer::SubInverse(1)] == inverse_lengths(
        d,
        y,
        values[Buffer::SubWeight(1)],
        rows,
        width,
    )
    &&& after[Buffer::Distances] == (d.product)(
        plain_form(Kind::RhsTransposed, Factor::One, false, rows, 1, width),
        matrix(last, width),
        matrix(values[Buffer::DistanceWeight], width),
        matrix((d.fresh)(rows), 1),
    )
}

proof fn lemma_read_off<V>(d: Device<V>, values: Values<V>, plan: DecodePlan)
    requires
        plan.wf(),
    ensures
        is_read_off(
            d,
            plan,
            values,
            run(d, values, distances_steps(plan)),
            values[Buffer::Stream(0)],
        ),
{
    let steps = distances_steps(plan);
    let m0 = values;
    assert(run_to(d, values, steps, 0) == m0);
    let m1 = done(d, m0, steps[0]);
    assert(run_to(d, values, steps, 1) == m1);
    let m2 = done(d, m1, steps[1]);
    assert(run_to(d, values, steps, 2) == m2);
    let m3 = done(d, m2, steps[2]);
    assert(run_to(d, values, steps, 3) == m3);
    let m4 = done(d, m3, steps[3]);
    assert(run_to(d, values, steps, 4) == m4);
    let m5 = done(d, m4, steps[4]);
    assert(run_to(d, values, steps, 5) == m5);
    let m6 = done(d, m5, steps[5]);
    assert(run_to(d, values, steps, 6) == m6);
    let m7 = done(d, m6, steps[6]);
    assert(run_to(d, values, steps, 7) == m7);
    let m8 = done(d, m7, steps[7]);
    assert(run_to(d, values, steps, 8) == m8);
    let m9 = done(d, m8, steps[8]);
    assert(run_to(d, values, steps, 9) == m9);
    let m10 = done(d, m9, steps[9]);
    assert(run_to(d, values, steps, 10) == m10);
    let m11 = done(d, m10, steps[10]);
    assert(run_to(d, values, steps, 11) == m11);
    let m12 = done(d, m11, steps[11]);
    assert(run_to(d, values, steps, 12) == m12);
}

/// The decoder reads one distance per point off the points as the latents
/// placed them, with what its feed-forward makes of them added, normalized; and
/// three colours per point off the same rows.
pub proof fn law_decoder_reads_distances<V>(d: Device<V>, values: Values<V>, plan: DecodePlan)
    requires
        plan.wf(),
    ensures
        ({
            let (rows, width) = (plan.query_rows * plan.sequences, plan.width as int);
            let after = run(d, values, decode_steps(plan));
            let colored = run(d, values, colors_steps(plan));
            &&& is_read_off(d, plan, values, after, placed(d, plan, values))
            &&& colored[Buffer::Colors] == linear(
                d,
                values[Buffer::SubNormed(1)],
                values[Buffer::ColorWeight],
                rows,
                3,
                width,
            )
        }),
{
    let s1 = read_latent_steps(plan);
    let s2 = distances_steps(plan);
    lemma_both(d, values, s1, s2);
    lemma_placed(d, values, plan);
    lemma_read_off(d, run(d, values, s1), plan);
    reveal_with_fuel(run_to, 3);
}

/// The gradient of the last rows: from the distances, and from the colours
/// where there are any.
pub open spec fn last_gradient<V>(
    d: Device<V>,
    plan: DecodePlan,
    values: Values<V>,
    colored: bool,
) -> V {
    let (rows, width) = (plan.query_rows * plan.sequences, plan.width as int);
    let from_distances = input_gradient(
        d,
        (d.fresh)(rows * width),
        false,
        values[Buffer::GradDistances],
        values[Buffer::DistanceWeight],
        rows,
        width,
        1,
    );
    if colored {
        plus(
            d,
            from_distances,
            input_gradient(
                d,
                (d.fresh)(rows * width),
                false,
                values[Buffer::GradColors],
                values[Buffer::ColorWeight],
                rows,
                width,
                3,
            ),
            rows * width,
        )
    } else {
        from_distances
    }
}

/// The steps that take the heads back.
spec fn heads_back_steps(plan: DecodePlan, colored: bool) -> Seq<Step> {
    distances_gradient_steps(plan) + if colored {
        colors_gradient_steps(plan)
    } else {
        Seq::<Step>::empty()
    }
}

proof fn lemma_heads_back<V>(d: Device<V>, values: Values<V>, plan: DecodePlan, colored: bool)
    requires
        plan.wf(),
    ensures
        ({
            let (rows, width) = (plan.query_rows * plan.sequences, plan.width as int);
            let after = run(d, values, heads_back_steps(plan, colored));
            &&& after[Buffer::GradSubNormed(1)] == last_gradient(d, plan, values, colored)
            &&& after[Buffer::GradNorms] == zeros(d, 2 * width)
            &&& after[Buffer::DistanceGrad] == weight_step(
                d,
                values[Buffer::DistanceGrad],
                true,
                values[Buffer::GradDistances],
                values[Buffer::SubNormed(1)],
                1,
                width,
                rows,
            )
            &&& after[Buffer::ColorGrad] == if colored {
                weight_step(
                    d,
                    values[Buffer::ColorGrad],
                    true,
                    values[Buffer::GradColors],
                    values[Buffer::SubNormed(1)],
                    3,
                    width,
                    rows,
                )
            } else {
                values[Buffer::ColorGrad]
            }
            &&& forall|b: Buffer|
                b != Buffer::GradSubNormed(1) && b != Buffer::GradNorms && b
                    != Buffer::DistanceGrad && b != Buffer::ColorGrad && b != Buffer::FromColors
                    ==> #[trigger] after[b] == values[b]
        }),
{
    let s1 = distances_gradient_steps(plan);
    let s2 = if colored {
        colors_gradient_steps(plan)
    } else {
        Seq::<Step>::empty()
    };
    lemma_both(d, values, s1, s2);
    reveal_with_fuel(run_to, 6);
}

/// The gradients of the points' rows and of the scales, from that of the last
/// rows.
pub open spec fn rows_back<V>(
    d: Device<V>,
    plan: DecodePlan,
    values: Values<V>,
    of_last: V,
    none: V,
) -> (V, V) {
    let (rows, width) = (plan.query_rows * plan.sequences, plan.width as int);
    let len = rows * width;
    let last = norm_back(
        values[Buffer::Stream(1)],
        of_last,
        values[Buffer::SubWeight(1)],
        values[Buffer::SubInverse(1)],
        none,
        width,
        rows,
        width,
    );
    let above = norm_input(d, last, width, rows, width);
    let of_seen = made(
        d,
        Kernel::FeedForwardBackward,
        size(rows, width),
        args2(whole(values[Buffer::SubNormed(0)], len), whole(copied(d, above, len), len)),
        new_part(d, len),
    );
    let first = norm_past(
        values[Buffer::Stream(0)],
        of_seen,
        values[Buffer::SubWeight(0)],
        values[Buffer::SubInverse(0)],
        above,
        rows,
        width,
    );
    (
        norm_input(d, first, 0, rows, width),
        norm_scale(
            d,
            first,
            norm_scale(d, last, none, width, rows, width),
            0,
            rows,
            width,
        ),
    )
}

proof fn lemma_rows_back<V>(d: Device<V>, values: Values<V>, plan: DecodePlan)
    requires
        plan.wf(),
    ensures
        ({
            let after = run(d, values, mlp_gradient_steps(plan));
            let both = rows_back(
                d,
                plan,
                values,
                values[Buffer::GradSubNormed(1)],
                values[Buffer::GradNorms],
            );
            &&& after[Buffer::GradStream(0)] == both.0
            &&& after[Buffer::GradNorms] == both.1
            &&& forall|b: Buffer|
                b != Buffer::GradStream(0) && b != Buffer::GradStream(1) && b
                    != Buffer::GradSubNormed(0) && b != Buffer::GradSubBranch(0) && b
                    != Buffer::GradNorms ==> #[trigger] after[b] == values[b]
        }),
{
    reveal_with_fuel(run_to, 9);
}

/// What the points and the latents get back from the gradient of the points'
/// rows.
pub open spec fn is_looked_back<V>(
    d: Device<V>,
    plan: DecodePlan,
    values: Values<V>,
    after: Values<V>,
    stream: V,
) -> bool {
    let (rows, latents, width) = (
        plan.query_rows * plan.sequences,
        plan.latents * plan.sequences,
        plan.width as int,
    );
    let len = rows * width;
    let read = args3(
        whole(stream, len),
        whole(values[Buffer::Queries], len),
        whole(values[Buffer::LatentRows], latents * width),
    );
    let sizes = looking(plan.query_rows, plan.latents, plan.sequences, plan.width);
    let of_points = plus(
        d,
        made(d, Kernel::AttentionBackward, sizes, read, new_part(d, len)),
        stream,
        len,
    );
    let of_latents = also_made(
        d,
        Kernel::AttentionBackward,
        sizes,
        read,
        new_part(d, latents * width),
    );
    &&& after[Buffer::PointGrad] == weight_step(
        d,
        values[Buffer::PointGrad],
        true,
        of_points,
        values[Buffer::Features],
        width,
        plan.feature_dim as int,
        rows,
    )
    &&& after[Buffer::GradLatent] == input_gradient(
        d,
        (d.fresh)(latents * plan.latent_dim),
        false,
        of_latents,
        values[Buffer::LatentWeight],
        latents,
        plan.latent_dim as int,
        width,
    )
    &&& after[Buffer::LatentWeightGrad] == weight_step(
        d,
        values[Buffer::LatentWeightGrad],
        true,
        of_latents,
        values[Buffer::Latent],
        width,
        plan.latent_dim as int,
        latents,
    )
}

proof fn lemma_looked_back<V>(d: Device<V>, values: Values<V>, plan: DecodePlan)
    requires
        plan.wf(),
    ensures
        ({
            let after = run(d, values, latent_gradient_steps(plan));
            &&& is_looked_back(d, plan, values, after, values[Buffer::GradStream(0)])
            &&& after[Buffer::GradNorms] == values[Buffer::GradNorms]
            &&& after[Buffer::DistanceGrad] == values[Buffer::DistanceGrad]
            &&& after[Buffer::ColorGrad] == values[Buffer::ColorGrad]
        }),
{
    reveal_with_fuel(run_to, 9);
}

/// The decoder is taken back from the distances and, where there are any, the
/// colours, through its feed-forward and past it, to the points and the latents:
/// every weight gets its gradient from its own rows, and each scale in its own
/// slot.
pub proof fn law_decoder_gradient<V>(
    d: Device<V>,
    values: Values<V>,
    plan: DecodePlan,
    colored: bool,
)
    requires
        plan.wf(),
    ensures
        ({
            let (rows, width) = (plan.query_rows * plan.sequences, plan.width as int);
            let after = run(d, values, decode_gradient_steps(plan, colored));
            let both = rows_back(
                d,
                plan,
                values,
                last_gradient(d, plan, values, colored),
                zeros(d, 2 * width),
            );
            &&& after[Buffer::GradNorms] == both.1
            &&& is_looked_back(d, plan, values, after, both.0)
            &&& after[Buffer::DistanceGrad] == weight_step(
                d,
                values[Buffer::DistanceGrad],
                true,
                values[Buffer::GradDistances],
                values[Buffer::SubNormed(1)],
                1,
                width,
                rows,
            )
            &&& after[Buffer::ColorGrad] == if colored {
                weight_step(
                    d,
                    values[Buffer::ColorGrad],
                    true,
                    values[Buffer::GradColors],
                    values[Buffer::SubNormed(1)],
                    3,
                    width,
                    rows,
                )
            } else {
                values[Buffer::ColorGrad]
            }
        }),
{
    let s1 = heads_back_steps(plan, colored);
    lemma_heads_back(d, values, plan, colored);
    let m1 = run(d, values, s1);
    let s2 = mlp_gradient_steps(plan);
    lemma_both(d, values, s1, s2);
    lemma_rows_back(d, m1, plan);
    let m2 = run(d, m1, s2);
    let s3 = latent_gradient_steps(plan);
    lemma_both(d, values, s1 + s2, s3);
    lemma_looked_back(d, m2, plan);
    let m3 = run(d, m2, s3);
    assert(m1[Buffer::Stream(0)] == values[Buffer::Stream(0)]);
    assert(m1[Buffer::Stream(1)] == values[Buffer::Stream(1)]);
    assert(m1[Buffer::SubWeight(0)] == values[Buffer::SubWeight(0)]);
    assert(m1[Buffer::SubWeight(1)] == values[Buffer::SubWeight(1)]);
    assert(m1[Buffer::SubInverse(0)] == values[Buffer::SubInverse(0)]);
    assert(m1[Buffer::SubInverse(1)] == values[Buffer::SubInverse(1)]);
    assert(m1[Buffer::SubNormed(0)] == values[Buffer::SubNormed(0)]);
    assert(m2[Buffer::Queries] == values[Buffer::Queries]);
    assert(m2[Buffer::LatentRows] == values[Buffer::LatentRows]);
    assert(m2[Buffer::PointGrad] == values[Buffer::PointGrad]);
    assert(m2[Buffer::Features] == values[Buffer::Features]);
    assert(m2[Buffer::LatentWeight] == values[Buffer::LatentWeight]);
    assert(m2[Buffer::LatentWeightGrad] == values[Buffer::LatentWeightGrad]);
    assert(m2[Buffer::Latent] == values[Buffer::Latent]);
    assert(m2[Buffer::DistanceGrad] == m1[Buffer::DistanceGrad]);
    assert(m2[Buffer::ColorGrad] == m1[Buffer::ColorGrad]);
    assert(decode_gradient_steps(plan, colored) == s1 + s2 + s3);
    assert(run(d, values, s1 + s2 + s3) == m3);
}

} // verus!
