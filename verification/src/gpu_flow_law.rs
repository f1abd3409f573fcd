//! What a conditioned block computes on the device, and its gradients.
//!
//! Each of its three sub-layers adds `gate * branch(modulated(norm(x)))` to the
//! stream: self-attention, then cross-attention to the conditioning tokens,
//! then a feed-forward, every one by a triple of its own.
use crate::device::{Buffer, Kernel, Sizes};
use crate::device_law::{
    also_made, args1, args2, args3, args4, args5, inverse_lengths, lemma_both, made, new_part,
    normalized, run, run_to, size, whole, with_part, zeros, Args, Device, Part, Values,
};
use crate::gpu_flow::{
    backward_steps, cross_attention_gradient_steps, cross_attention_steps,
    feed_forward_gradient_steps, feed_forward_steps, forward_steps, self_attention_gradient_steps,
    self_attention_steps, FlowPlan,
};
use vstd::prelude::*;

verus! {

/// The numbers a modulation is told.
pub open spec fn modulation(plan: FlowPlan) -> Sizes {
    Sizes {
        rows: (plan.latents * plan.sequences) as usize,
        cols: plan.width,
        heads: 0,
        head_dim: 0,
        length: plan.latents,
        width: 0,
        base: 0,
    }
}

/// The numbers an attention from the latents to so many others is told.
pub open spec fn looking(plan: FlowPlan, others: usize) -> Sizes {
    Sizes {
        rows: plan.latents,
        cols: plan.width,
        heads: 0,
        head_dim: 0,
        length: others,
        width: plan.sequences,
        base: 0,
    }
}

/// The entries of all latents.
pub open spec fn len(plan: FlowPlan) -> int {
    plan.latents * plan.sequences * plan.width
}

/// The triples of a sub-layer.
pub open spec fn triple<V>(plan: FlowPlan, triples: V, i: int) -> Part<V> {
    Part { value: triples, offset: plan.at0 + i * plan.slab, len: plan.slab as int }
}

/// A stream normalized by a sub-layer's scale, then shifted and scaled by its
/// triple.
#[verifier::opaque]
pub open spec fn modulated<V>(d: Device<V>, plan: FlowPlan, x: V, values: Values<V>, i: usize) -> V {
    let rows = plan.latents * plan.sequences;
    made(
        d,
        Kernel::Modulate,
        modulation(plan),
        args2(
            whole(
                normalized(d, x, values[Buffer::SubWeight(i)], rows, plan.width as int),
                len(plan),
            ),
            triple(plan, values[Buffer::Triples], i as int),
        ),
        new_part(d, len(plan)),
    )
}

/// What the branch of a sub-layer makes of a stream: attention among the
/// latents, attention to the tokens, or the feed-forward.
#[verifier::opaque]
pub open spec fn branch<V>(d: Device<V>, plan: FlowPlan, x: V, values: Values<V>, i: usize) -> V {
    let seen = whole(modulated(d, plan, x, values, i), len(plan));
    if i == 0 {
        made(d, Kernel::Attention, looking(plan, plan.latents), args1(seen), new_part(d, len(plan)))
    } else if i == 1 {
        made(
            d,
            Kernel::Attention,
            looking(plan, plan.cond_tokens),
            args2(seen, whole(values[Buffer::Tokens], plan.tokens as int)),
            new_part(d, len(plan)),
        )
    } else {
        let none = whole(zeros(d, len(plan)), len(plan));
        made(
            d,
            Kernel::FeedForward,
            size(plan.latents * plan.sequences, plan.width as int),
            args2(seen, none),
            none,
        )
    }
}

/// A stream with the branch of a sub-layer added, gated by its triple.
#[verifier::opaque]
pub open spec fn passed<V>(d: Device<V>, plan: FlowPlan, x: V, values: Values<V>, i: usize) -> V {
    made(
        d,
        Kernel::GateResidual,
        modulation(plan),
        args3(
            whole(x, len(plan)),
            whole(branch(d, plan, x, values, i), len(plan)),
            triple(plan, values[Buffer::Triples], i as int),
        ),
        new_part(d, len(plan)),
    )
}

/// Whether the buffers of a sub-layer hold what it made of a stream.
pub open spec fn is_passed<V>(
    d: Device<V>,
    plan: FlowPlan,
    values: Values<V>,
    after: Values<V>,
    x: V,
    i: usize,
) -> bool {
    let rows = plan.latents * plan.sequences;
    let weight = values[Buffer::SubWeight(i)];
    &&& after[Buffer::Stream(i)] == x
    &&& after[Buffer::SubNormed(i)] == normalized(d, x, weight, rows, plan.width as int)
    &&& after[Buffer::SubInverse(i)] == inverse_lengths(d, x, weight, rows, plan.width as int)
    &&& after[Buffer::SubModulated(i)] == modulated(d, plan, x, values, i)
    &&& after[Buffer::SubBranch(i)] == branch(d, plan, x, values, i)
    &&& after[Buffer::Stream((i + 1) as usize)] == passed(d, plan, x, values, i)
}

/// Whether a buffer is none of those a sub-layer writes.
spec fn is_untouched(b: Buffer, i: usize) -> bool {
    &&& b != Buffer::SubNormed(i)
    &&& b != Buffer::SubInverse(i)
    &&& b != Buffer::SubModulated(i)
    &&& b != Buffer::SubBranch(i)
    &&& b != Buffer::Stream((i + 1) as usize)
}

proof fn lemma_self<V>(d: Device<V>, values: Values<V>, plan: FlowPlan)
    requires
        plan.wf(),
    ensures
        is_passed(
            d,
            plan,
            values,
            run(d, values, self_attention_steps(plan)),
            values[Buffer::Stream(0)],
            0,
        ),
        forall|b: Buffer|
            is_untouched(b, 0) ==> #[trigger] run(d, values, self_attention_steps(plan))[b]
                == values[b],
{
    reveal(modulated);
    reveal(branch);
    reveal(passed);
    reveal_with_fuel(run_to, 10);
}

proof fn lemma_cross<V>(d: Device<V>, values: Values<V>, plan: FlowPlan)
    requires
        plan.wf(),
    ensures
        is_passed(
            d,
            plan,
            values,
            run(d, values, cross_attention_steps(plan)),
            values[Buffer::Stream(1)],
            1,
        ),
        forall|b: Buffer|
            is_untouched(b, 1) ==> #[trigger] run(d, values, cross_attention_steps(plan))[b]
                == values[b],
{
    reveal(modulated);
    reveal(branch);
    reveal(passed);
    reveal_with_fuel(run_to, 10);
}

proof fn lemma_feed<V>(d: Device<V>, values: Values<V>, plan: FlowPlan)
    requires
        plan.wf(),
    ensures
        is_passed(
            d,
            plan,
            values,
            run(d, values, feed_forward_steps(plan)),
            values[Buffer::Stream(2)],
            2,
        ),
        forall|b: Buffer|
            is_untouched(b, 2) ==> #[trigger] run(d, values, feed_forward_steps(plan))[b]
                == values[b],
{
    reveal(modulated);
    reveal(branch);
    reveal(passed);
    reveal_with_fuel(run_to, 12);
}

/// What a sub-layer reads besides the stream.
proof fn lemma_same_pass<V>(
    d: Device<V>,
    plan: FlowPlan,
    x: V,
    a: Values<V>,
    b: Values<V>,
    i: usize,
)
    requires
        a[Buffer::SubWeight(i)] == b[Buffer::SubWeight(i)],
        a[Buffer::Triples] == b[Buffer::Triples],
        a[Buffer::Tokens] == b[Buffer::Tokens],
    ensures
        modulated(d, plan, x, a, i) == modulated(d, plan, x, b, i),
        branch(d, plan, x, a, i) == branch(d, plan, x, b, i),
        passed(d, plan, x, a, i) == passed(d, plan, x, b, i),
{
    reveal(modulated);
    reveal(branch);
    reveal(passed);
}

/// The forward pass of a block sends the stream through its three sub-layers
/// in turn, and keeps what each of them made.
pub proof fn law_forward_is_the_block<V>(d: Device<V>, values: Values<V>, plan: FlowPlan)
    requires
        plan.wf(),
    ensures
        ({
            let after = run(d, values, forward_steps(plan));
            let x0 = values[Buffer::Stream(0)];
            let x1 = passed(d, plan, x0, values, 0);
            let x2 = passed(d, plan, x1, values, 1);
            &&& after[Buffer::Stream(3)] == passed(d, plan, x2, values, 2)
            &&& is_passed(d, plan, values, after, x0, 0)
            &&& is_passed(d, plan, values, after, x1, 1)
            &&& is_passed(d, plan, values, after, x2, 2)
        }),
{
    let s1 = self_attention_steps(plan);
    lemma_self(d, values, plan);
    let m1 = run(d, values, s1);
    let s2 = cross_attention_steps(plan);
    lemma_both(d, values, s1, s2);
    lemma_cross(d, m1, plan);
    lemma_same_pass(d, plan, m1[Buffer::Stream(1)], m1, values, 1);
    let m2 = run(d, m1, s2);
    let s3 = feed_forward_steps(plan);
    lemma_both(d, values, s1 + s2, s3);
    lemma_feed(d, m2, plan);
    lemma_same_pass(d, plan, m2[Buffer::Stream(2)], m2, values, 2);
}

// -- Gradients -------------------------------------------------------------------

/// The gradients a block adds to on its way back: of all triples, of all
/// scales, of the tokens, and of the stream.
pub ghost struct Back<V> {
    pub triples: V,
    pub norms: V,
    pub tokens: V,
    pub stream: V,
}

/// The gradient of a branch, and that of its gate, from the gradient of the
/// stream.
pub open spec fn gated_back<V>(plan: FlowPlan, back: Back<V>, values: Values<V>, i: usize) -> Args<V> {
    args4(
        whole(values[Buffer::SubBranch(i)], len(plan)),
        triple(plan, values[Buffer::Triples], i as int),
        whole(back.stream, len(plan)),
        triple(plan, back.triples, i as int),
    )
}

/// The gradient of what a branch read.
#[verifier::opaque]
pub open spec fn seen_back<V>(
    d: Device<V>,
    plan: FlowPlan,
    values: Values<V>,
    of_branch: V,
    i: usize,
) -> V {
    let seen = whole(values[Buffer::SubModulated(i)], len(plan));
    let above = whole(of_branch, len(plan));
    if i == 0 {
        // The latents ask and answer, so they get both gradients.
        let read = args2(above, seen);
        let sizes = looking(plan, plan.latents);
        with_part(
            d,
            made(d, Kernel::AttentionBackward, sizes, read, new_part(d, len(plan))),
            also_made(d, Kernel::AttentionBackward, sizes, read, new_part(d, len(plan))),
            0,
            len(plan),
        )
    } else if i == 1 {
        made(
            d,
            Kernel::AttentionBackward,
            looking(plan, plan.cond_tokens),
            args3(above, seen, whole(values[Buffer::Tokens], plan.tokens as int)),
            new_part(d, len(plan)),
        )
    } else {
        made(
            d,
            Kernel::FeedForwardBackward,
            size(plan.latents * plan.sequences, plan.width as int),
            args2(seen, above),
            new_part(d, len(plan)),
        )
    }
}

/// The gradients once a sub-layer was taken back.
#[verifier::opaque]
pub open spec fn taken_back<V>(
    d: Device<V>,
    plan: FlowPlan,
    back: Back<V>,
    values: Values<V>,
    i: usize,
) -> Back<V> {
    let gate = gated_back(plan, back, values, i);
    let of_branch = made(
        d,
        Kernel::GateResidualBackward,
        modulation(plan),
        gate,
        new_part(d, len(plan)),
    );
    let gated = also_made(
        d,
        Kernel::GateResidualBackward,
        modulation(plan),
        gate,
        triple(plan, back.triples, i as int),
    );
    let of_seen = seen_back(d, plan, values, of_branch, i);
    let shift = args4(
        whole(of_seen, len(plan)),
        whole(values[Buffer::SubNormed(i)], len(plan)),
        triple(plan, values[Buffer::Triples], i as int),
        triple(plan, gated, i as int),
    );
    let of_normed = made(
        d,
        Kernel::ModulateBackward,
        modulation(plan),
        shift,
        new_part(d, len(plan)),
    );
    let rows = plan.latents * plan.sequences;
    let slot = plan.norm0 + i * plan.width;
    let sizes = Sizes { base: slot as usize, ..size(rows, plan.width as int) };
    let norm = args5(
        whole(values[Buffer::Stream(i)], len(plan)),
        whole(of_normed, len(plan)),
        whole(values[Buffer::SubWeight(i)], plan.width as int),
        whole(values[Buffer::SubInverse(i)], rows),
        // The stream went past the sub-layer too.
        whole(back.stream, len(plan)),
    );
    Back {
        triples: also_made(
            d,
            Kernel::ModulateBackward,
            modulation(plan),
            shift,
            triple(plan, gated, i as int),
        ),
        norms: also_made(
            d,
            Kernel::RmsNormBackward,
            sizes,
            norm,
            Part { value: back.norms, offset: slot, len: plan.width as int },
        ),
        tokens: if i == 1 {
            with_part(
                d,
                back.tokens,
                also_made(
                    d,
                    Kernel::AttentionBackward,
                    looking(plan, plan.cond_tokens),
                    args3(
                        whole(of_branch, len(plan)),
                        whole(values[Buffer::SubModulated(i)], len(plan)),
                        whole(values[Buffer::Tokens], plan.tokens as int),
                    ),
                    new_part(d, plan.tokens as int),
                ),
                0,
                plan.tokens as int,
            )
        } else {
            back.tokens
        },
        stream: made(d, Kernel::RmsNormBackward, sizes, norm, new_part(d, len(plan))),
    }
}

/// The gradients there are above sub-layer `i`.
pub open spec fn back_in<V>(values: Values<V>, i: usize) -> Back<V> {
    Back {
        triples: values[Buffer::GradTriples],
        norms: values[Buffer::GradNorms],
        tokens: values[Buffer::GradTokens],
        stream: values[Buffer::GradStream(i)],
    }
}

/// Whether a buffer is one the forward pass left.
spec fn is_forward(b: Buffer) -> bool {
    b is Stream || b is SubWeight || b is SubInverse || b is SubNormed || b is SubModulated
        || b is SubBranch || b == Buffer::Triples || b == Buffer::Tokens
}

proof fn lemma_feed_back<V>(d: Device<V>, values: Values<V>, plan: FlowPlan)
    requires
        plan.wf(),
    ensures
        back_in(run(d, values, feed_forward_gradient_steps(plan)), 2) == taken_back(
            d,
            plan,
            back_in(values, 3),
            values,
            2,
        ),
        forall|b: Buffer|
            is_forward(b) ==> #[trigger] run(d, values, feed_forward_gradient_steps(plan))[b]
                == values[b],
{
    reveal(seen_back);
    reveal(taken_back);
    reveal_with_fuel(run_to, 9);
}

proof fn lemma_cross_back<V>(d: Device<V>, values: Values<V>, plan: FlowPlan)
    requires
        plan.wf(),
    ensures
        back_in(run(d, values, cross_attention_gradient_steps(plan)), 1) == taken_back(
            d,
            plan,
            back_in(values, 2),
            values,
            1,
        ),
        forall|b: Buffer|
            is_forward(b) ==> #[trigger] run(d, values, cross_attention_gradient_steps(plan))[b]
                == values[b],
{
    reveal(seen_back);
    reveal(taken_back);
    reveal_with_fuel(run_to, 11);
}

proof fn lemma_self_back<V>(d: Device<V>, values: Values<V>, plan: FlowPlan)
    requires
        plan.wf(),
    ensures
        back_in(run(d, values, self_attention_gradient_steps(plan)), 0) == taken_back(
            d,
            plan,
            back_in(values, 1),
            values,
            0,
        ),
        forall|b: Buffer|
            is_forward(b) ==> #[trigger] run(d, values, self_attention_gradient_steps(plan))[b]
                == values[b],
{
    reveal(seen_back);
    reveal(taken_back);
    reveal_with_fuel(run_to, 11);
}

/// What taking a sub-layer back depends on.
proof fn lemma_same_back<V>(
    d: Device<V>,
    plan: FlowPlan,
    back: Back<V>,
    a: Values<V>,
    b: Values<V>,
    i: usize,
)
    requires
        forall|c: Buffer| is_forward(c) ==> #[trigger] a[c] == b[c],
    ensures
        taken_back(d, plan, back, a, i) == taken_back(d, plan, back, b, i),
{
    reveal(seen_back);
    reveal(taken_back);
}

/// The backward pass of a block takes the gradient of the stream back through
/// its sub-layers, the last one first. Each hands gradients to its own triple
/// and its own scale, the second one to the tokens too, and the stream's goes
/// on both through the sub-layer and past it.
pub proof fn law_backward_is_the_gradient<V>(d: Device<V>, values: Values<V>, plan: FlowPlan)
    requires
        plan.wf(),
    ensures
        back_in(run(d, values, backward_steps(plan)), 0) == taken_back(
            d,
            plan,
            taken_back(d, plan, taken_back(d, plan, back_in(values, 3), values, 2), values, 1),
            values,
            0,
        ),
{
    let s1 = feed_forward_gradient_steps(plan);
    lemma_feed_back(d, values, plan);
    let m1 = run(d, values, s1);
    let s2 = cross_attention_gradient_steps(plan);
    lemma_both(d, values, s1, s2);
    lemma_cross_back(d, m1, plan);
    lemma_same_back(d, plan, back_in(m1, 2), m1, values, 1);
    let m2 = run(d, m1, s2);
    let s3 = self_attention_gradient_steps(plan);
    lemma_both(d, values, s1 + s2, s3);
    lemma_self_back(d, m2, plan);
    lemma_same_back(d, plan, back_in(m2, 1), m2, values, 0);
}

} // verus!
