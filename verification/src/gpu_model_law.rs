//! What a language model computes on the device, block by block, and its
//! gradients.
use crate::device::{Buffer, Kernel, Kind, Factor, Sizes};
use crate::device_law::{
    also_made, args1, args2, args3, args5, inverse_lengths, lemma_both, made, matrix,
    matrix_at, new_part, normalized, plain_form, run, run_to, size, whole, with_part, zeros, done,
    Args, Device, Part, Values,
};
use crate::gpu_attention::{self, AttentionPlan};
use crate::gpu_attention_law::{shape_of, with_attention};
use crate::gpu_feed_forward::{self, GatedPlan};
use crate::gpu_feed_forward_law::{gated_in, with_feed_forward};
use crate::gpu_model::{
    block_gradient_steps, block_steps, chunk_steps, embed_steps, embedding_gradient_steps,
    feed_forward_gradient_steps, final_gradient_steps, final_norm_steps, input_gradient_steps,
    narrow_chunk_steps, narrow_setup_steps, residual_gradient_steps, BlockPlan, FeedForward,
    HeadPlan, NarrowPlan, StackPlan,
};
use crate::gpu_moe;
use vstd::prelude::*;

verus! {

// -- Blocks ------------------------------------------------------------------------

/// A dense block leaves in its output the rows with what their heads found
/// added, and with what the feed-forward makes of those rows, normalized, added
/// to that.
pub proof fn law_block_is_attention_then_feed_forward<V>(
    d: Device<V>,
    values: Values<V>,
    plan: AttentionPlan,
    gated: GatedPlan,
)
    requires
        plan.wf(),
        gated.wf(),
        gated.input == Buffer::FeedForwardNormed,
        gated.output == Buffer::Output,
    ensures
        ({
            let s = shape_of(plan);
            let after = run(d, values, block_steps(plan, FeedForward::SwiGlu(gated)));
            let rows = with_attention(d, s, plan.group as int, plan.fused, values);
            let seen = normalized(
                d,
                rows,
                values[Buffer::FeedForwardWeight],
                s.rows(),
                s.features,
            );
            &&& after[Buffer::Residual] == rows
            &&& after[Buffer::FeedForwardNormed] == seen
            &&& after[Buffer::Output] == with_feed_forward(
                d,
                gated_in(gated, values),
                crate::device_law::copied(d, rows, s.rows() * s.features),
                seen,
            )
        }),
{
    let s1 = gpu_attention::forward_steps(plan);
    let s2 = gpu_feed_forward::forward_steps(gated);
    lemma_both(d, values, s1, s2);
    crate::gpu_attention_law::law_forward_is_the_attention(d, values, plan);
    let m1 = run(d, values, s1);
    crate::gpu_feed_forward_law::law_forward_is_the_formula(d, m1, gated);
    assert(gated_in(gated, m1) == gated_in(gated, values));
}

/// A routed block goes through the attention and then asks its router, with
/// the rows normalized, before the host sees the choice.
pub proof fn law_routed_block_asks_its_router<V>(
    d: Device<V>,
    values: Values<V>,
    plan: AttentionPlan,
    moe: gpu_moe::MoePlan,
)
    ensures
        run(d, values, block_steps(plan, FeedForward::Moe(moe))) == run(
            d,
            run(d, values, gpu_attention::forward_steps(plan)),
            gpu_moe::router_steps(moe),
        ),
{
    lemma_both(d, values, gpu_attention::forward_steps(plan), gpu_moe::router_steps(moe));
}

/// What a normalization hands back: from the rows it read, the gradient of what
/// it made, its scale and the inverse lengths.
pub open spec fn norm_back<V>(
    x: V,
    upstream: V,
    weight: V,
    inverse: V,
    norms: V,
    slot: int,
    rows: int,
    cols: int,
) -> Args<V> {
    args5(
        whole(x, rows * cols),
        whole(upstream, rows * cols),
        whole(weight, cols),
        whole(inverse, rows),
        Part { value: norms, offset: slot, len: cols },
    )
}

/// The gradient of normalized rows, in a new buffer.
pub open spec fn norm_input<V>(d: Device<V>, read: Args<V>, slot: int, rows: int, cols: int) -> V {
    made(
        d,
        Kernel::RmsNormBackward,
        Sizes { base: slot as usize, ..size(rows, cols) },
        read,
        new_part(d, rows * cols),
    )
}

/// The gradients of all scales, with that of one normalization added in its
/// slot.
pub open spec fn norm_scale<V>(
    d: Device<V>,
    read: Args<V>,
    norms: V,
    slot: int,
    rows: int,
    cols: int,
) -> V {
    also_made(
        d,
        Kernel::RmsNormBackward,
        Sizes { base: slot as usize, ..size(rows, cols) },
        read,
        Part { value: norms, offset: slot, len: cols },
    )
}

/// Between the halves of a block, the gradient of the residual is what the
/// feed-forward's normalization hands back, and what came past it from above.
pub proof fn law_residual_gradient<V>(d: Device<V>, values: Values<V>, plan: BlockPlan)
    requires
        plan.wf(),
    ensures
        ({
            let s = shape_of(plan.attention);
            let slot = plan.feed_forward_slot as int;
            let after = run(d, values, residual_gradient_steps(plan));
            let read = norm_back(
                values[Buffer::Residual],
                values[Buffer::GradFeedForward],
                values[Buffer::FeedForwardWeight],
                values[Buffer::FeedForwardInverse],
                values[Buffer::GradNorms],
                slot,
                s.rows(),
                s.features,
            );
            &&& after[Buffer::GradResidual] == with_part(
                d,
                norm_input(d, read, slot, s.rows(), s.features),
                values[Buffer::GradOutput],
                0,
                s.rows() * s.features,
            )
            &&& after[Buffer::GradNorms] == norm_scale(
                d,
                read,
                values[Buffer::GradNorms],
                slot,
                s.rows(),
                s.features,
            )
            &&& forall|b: Buffer|
                b != Buffer::GradResidual && b != Buffer::GradNorms ==> #[trigger] after[b]
                    == values[b]
        }),
{
    reveal_with_fuel(run_to, 4);
}

/// The gradient of a block's input is what the attention's normalization hands
/// back, and what came past it from the residual.
pub proof fn law_input_gradient<V>(d: Device<V>, values: Values<V>, plan: BlockPlan)
    requires
        plan.wf(),
    ensures
        ({
            let s = shape_of(plan.attention);
            let slot = plan.attention_slot as int;
            let after = run(d, values, input_gradient_steps(plan));
            let read = norm_back(
                values[Buffer::Input],
                values[Buffer::GradNormed],
                values[Buffer::NormWeight],
                values[Buffer::InverseNorm],
                values[Buffer::GradNorms],
                slot,
                s.rows(),
                s.features,
            );
            &&& after[Buffer::GradInput] == with_part(
                d,
                norm_input(d, read, slot, s.rows(), s.features),
                values[Buffer::GradResidual],
                0,
                s.rows() * s.features,
            )
            &&& after[Buffer::GradNorms] == norm_scale(
                d,
                read,
                values[Buffer::GradNorms],
                slot,
                s.rows(),
                s.features,
            )
        }),
{
    reveal_with_fuel(run_to, 4);
}

/// A block is taken back through the feed-forward, whose gradient starts in a
/// buffer of its own, at zero where it is added to; then the residual; then the
/// attention; then its input.
pub proof fn law_block_gradient_goes_back<V>(
    d: Device<V>,
    values: Values<V>,
    plan: BlockPlan,
    feed_forward: FeedForward,
    counts: Seq<usize>,
    shared: Option<GatedPlan>,
    balance: bool,
)
    requires
        feed_forward != FeedForward::Gelu,
    ensures
        ({
            let len = plan.attention.hidden as int;
            let first = values.insert(Buffer::GradFeedForward, (d.fresh)(len));
            let begun = match feed_forward {
                FeedForward::SwiGlu(gated) => run(
                    d,
                    first,
                    gpu_feed_forward::backward_steps(gated),
                ),
                FeedForward::Gelu => values,
                FeedForward::Moe(moe) => run(
                    d,
                    values.insert(Buffer::GradFeedForward, zeros(d, len)),
                    gpu_moe::backward_steps(moe, counts, shared, balance),
                ),
            };
            run(d, values, block_gradient_steps(plan, feed_forward, counts, shared, balance))
                == run(
                d,
                run(
                    d,
                    run(d, begun, residual_gradient_steps(plan)),
                    gpu_attention::backward_steps(plan.attention),
                ),
                input_gradient_steps(plan),
            )
        }),
{
    let s1 = feed_forward_gradient_steps(plan.attention, feed_forward, counts, shared, balance);
    let s2 = residual_gradient_steps(plan);
    let s3 = gpu_attention::backward_steps(plan.attention);
    let s4 = input_gradient_steps(plan);
    lemma_both(d, values, s1 + s2 + s3, s4);
    lemma_both(d, values, s1 + s2, s3);
    lemma_both(d, values, s1, s2);
    let len = plan.attention.hidden as int;
    match feed_forward {
        FeedForward::SwiGlu(gated) => {
            let room = s1.take(1);
            let rest = gpu_feed_forward::backward_steps(gated);
            assert(s1 =~= room + rest);
            lemma_both(d, values, room, rest);
            assert(run(d, values, room) == values.insert(
                Buffer::GradFeedForward,
                (d.fresh)(len),
            )) by {
                reveal_with_fuel(run_to, 2);
            }
        },
        FeedForward::Gelu => {},
        FeedForward::Moe(moe) => {
            let room = s1.take(2);
            let rest = gpu_moe::backward_steps(moe, counts, shared, balance);
            assert(s1 =~= room + rest);
            lemma_both(d, values, room, rest);
            let a = done(d, values, room[0]);
            let b = done(d, a, room[1]);
            assert(run(d, values, room) == b) by {
                reveal_with_fuel(run_to, 3);
            }
            assert(b =~= values.insert(Buffer::GradFeedForward, zeros(d, len)));
        },
    }
}

// -- The head ----------------------------------------------------------------------

/// A chunk of the head: where its rows start, how many they are, and its sizes.
/// Rows are scored against their own targets.
pub open spec fn scored<V>(
    d: Device<V>,
    plan: HeadPlan,
    logits: V,
    values: Values<V>,
) -> Args<V> {
    args3(
        whole(logits, plan.count * plan.vocab),
        Part {
            value: values[Buffer::Targets],
            offset: plan.start as int,
            len: plan.count as int,
        },
        whole(values[Buffer::Loss], 1),
    )
}

/// The head over a chunk of rows: the logits that the head's weight gives the
/// chunk's own rows are scored against the chunk's own targets, the loss takes
/// their share, and their gradients go back to the chunk's own rows and, from
/// those rows, to the head's weight.
pub proof fn law_chunk_is_the_head<V>(d: Device<V>, values: Values<V>, plan: HeadPlan)
    requires
        plan.wf(),
    ensures
        ({
            let after = run(d, values, chunk_steps(plan));
            let (count, vocab, features) = (
                plan.count as int,
                plan.vocab as int,
                plan.d_model as int,
            );
            let at = plan.start * features;
            let logits = (d.product)(
                plain_form(Kind::RhsTransposed, Factor::One, false, count, vocab, features),
                matrix_at(values[Buffer::FinalOutput], at, features),
                matrix(values[Buffer::HeadWeight], features),
                matrix((d.fresh)(count * vocab), vocab),
            );
            let read = scored(d, plan, logits, values);
            let gradient = made(
                d,
                Kernel::CrossEntropy,
                size(count, vocab),
                read,
                whole(logits, count * vocab),
            );
            &&& after[Buffer::Loss] == also_made(
                d,
                Kernel::CrossEntropy,
                size(count, vocab),
                read,
                whole(values[Buffer::Loss], 1),
            )
            &&& after[Buffer::GradFinal] == (d.product)(
                plain_form(Kind::Plain, Factor::One, false, count, features, vocab),
                matrix(gradient, vocab),
                matrix(values[Buffer::HeadWeight], features),
                matrix_at(values[Buffer::GradFinal], at, features),
            )
            &&& after[Buffer::HeadGrad] == (d.product)(
                plain_form(Kind::LhsTransposed, Factor::MinusOne, true, vocab, features, count),
                matrix(gradient, vocab),
                matrix_at(values[Buffer::FinalOutput], at, features),
                matrix(values[Buffer::HeadGrad], features),
            )
        }),
{
    reveal_with_fuel(run_to, 6);
}

/// The weight of a narrow head is the head's own, narrowed.
pub proof fn law_narrow_head_is_the_heads<V>(d: Device<V>, values: Values<V>, plan: NarrowPlan)
    requires
        plan.wf(),
    ensures
        ({
            let after = run(d, values, narrow_setup_steps(plan));
            let (vocab, features) = (plan.head.vocab as int, plan.head.d_model as int);
            &&& after[Buffer::NarrowWeight] == made(
                d,
                Kernel::Narrow,
                size(vocab, features),
                args1(whole(values[Buffer::HeadWeight], vocab * features)),
                new_part(d, vocab * features),
            )
            &&& after[Buffer::NarrowWeightGrad] == (d.fresh)(vocab * features)
            &&& after[Buffer::NarrowInput] == (d.fresh)(plan.chunk * features)
            &&& after[Buffer::NarrowLogits] == (d.fresh)(plan.chunk * vocab)
            &&& after[Buffer::NarrowGradInput] == (d.fresh)(plan.chunk * features)
        }),
{
    reveal_with_fuel(run_to, 7);
}

/// The narrow head over a chunk of rows does what the head does, on the chunk's
/// own rows, narrowed: scored against the chunk's own targets, their gradient
/// is widened into the chunk's own rows, and that of the weight is widened and
/// added to the head's.
pub proof fn law_narrow_chunk_is_the_head<V>(d: Device<V>, values: Values<V>, plan: NarrowPlan)
    requires
        plan.wf(),
    ensures
        ({
            let after = run(d, values, narrow_chunk_steps(plan));
            let (count, vocab, features) = (
                plan.head.count as int,
                plan.head.vocab as int,
                plan.head.d_model as int,
            );
            let at = plan.head.start * features;
            let rows = made(
                d,
                Kernel::Narrow,
                size(count, features),
                args1(
                    Part {
                        value: values[Buffer::FinalOutput],
                        offset: at,
                        len: count * features,
                    },
                ),
                whole(values[Buffer::NarrowInput], count * features),
            );
            let logits = (d.product)(
                plain_form(Kind::RhsTransposed, Factor::One, false, count, vocab, features),
                matrix(rows, features),
                matrix(values[Buffer::NarrowWeight], features),
                matrix(values[Buffer::NarrowLogits], vocab),
            );
            let read = scored(d, plan.head, logits, values);
            let gradient = made(
                d,
                Kernel::CrossEntropy,
                size(count, vocab),
                read,
                whole(logits, count * vocab),
            );
            let back = (d.product)(
                plain_form(Kind::Plain, Factor::One, false, count, features, vocab),
                matrix(gradient, vocab),
                matrix(values[Buffer::NarrowWeight], features),
                matrix(values[Buffer::NarrowGradInput], features),
            );
            let of_weight = (d.product)(
                plain_form(Kind::LhsTransposed, Factor::MinusOne, false, vocab, features, count),
                matrix(gradient, vocab),
                matrix(rows, features),
                matrix(values[Buffer::NarrowWeightGrad], features),
            );
            &&& after[Buffer::Loss] == also_made(
                d,
                Kernel::CrossEntropy,
                size(count, vocab),
                read,
                whole(values[Buffer::Loss], 1),
            )
            &&& after[Buffer::GradFinal] == made(
                d,
                Kernel::Widen,
                size(count, features),
                args1(whole(back, count * features)),
                Part { value: values[Buffer::GradFinal], offset: at, len: count * features },
            )
            &&& after[Buffer::HeadGrad] == made(
                d,
                Kernel::AddWidened,
                size(vocab, features),
                args2(
                    whole(of_weight, vocab * features),
                    whole(values[Buffer::HeadGrad], vocab * features),
                ),
                whole(values[Buffer::HeadGrad], vocab * features),
            )
        }),
{
    reveal_with_fuel(run_to, 8);
}

// -- Around the blocks ---------------------------------------------------------------

/// A batch becomes the rows of the table that its ids name, and the gradient
/// of those rows goes back to just them; the last rows are normalized by the
/// final scale, whose gradient takes the first slot of all scales', which
/// starts at zero.
pub proof fn law_model_around_its_blocks<V>(d: Device<V>, values: Values<V>, plan: StackPlan)
    requires
        plan.wf(),
    ensures
        ({
            let (rows, features) = (plan.rows as int, plan.d_model as int);
            let embedded = run(d, values, embed_steps(plan));
            let normed = run(d, values, final_norm_steps(plan));
            let back = run(d, values, final_gradient_steps(plan));
            let table = run(d, values, embedding_gradient_steps(plan));
            let none = zeros(d, plan.norms as int);
            let read = norm_back(
                values[Buffer::FinalInput],
                values[Buffer::GradFinal],
                values[Buffer::FinalWeight],
                values[Buffer::FinalInverse],
                none,
                0,
                rows,
                features,
            );
            &&& embedded[Buffer::Input] == made(
                d,
                Kernel::Gather,
                size(rows, features),
                args2(
                    whole(values[Buffer::Table], plan.table as int),
                    whole(values[Buffer::Ids], rows),
                ),
                new_part(d, rows * features),
            )
            &&& normed[Buffer::FinalOutput] == normalized(
                d,
                values[Buffer::FinalInput],
                values[Buffer::FinalWeight],
                rows,
                features,
            )
            &&& normed[Buffer::FinalInverse] == inverse_lengths(
                d,
                values[Buffer::FinalInput],
                values[Buffer::FinalWeight],
                rows,
                features,
            )
            &&& back[Buffer::GradOutput] == norm_input(d, read, 0, rows, features)
            &&& back[Buffer::GradNorms] == norm_scale(d, read, none, 0, rows, features)
            &&& table[Buffer::TableGrad] == made(
                d,
                Kernel::ScatterNegated,
                size(rows, features),
                args3(
                    whole(values[Buffer::GradInput], rows * features),
                    whole(values[Buffer::Ids], rows),
                    whole(values[Buffer::TableGrad], plan.table as int),
                ),
                whole(values[Buffer::TableGrad], plan.table as int),
            )
        }),
{
    reveal_with_fuel(run_to, 5);
}

} // verus!
