//! What an attention with its softmax on the host computes.
use crate::device::{Buffer, Factor, Kernel, Kind, Sizes};
use crate::device_law::{
    args1, done, lemma_both, made, matrix, matrix_at, plain_form, run, run_to, size, whole, zeros,
    Device, Values,
};
use crate::gpu_host_attention::{
    attention_steps, head_steps, heads_steps, lemma_head, room_steps, HostAttention,
};
use vstd::prelude::*;

verus! {

/// The weights of a head over the history, and what the heads up to it merged:
/// its own queries against the keys of its group, masked from its position on,
/// and the values behind those keys in its own columns.
pub open spec fn merged<V>(
    d: Device<V>,
    plan: HostAttention,
    values: Values<V>,
    head: int,
) -> (V, V)
    decreases head,
{
    let (tokens, history, each) = (
        plan.tokens as int,
        plan.history as int,
        plan.head_dim as int,
    );
    if head <= 0 {
        (zeros(d, tokens * history), zeros(d, tokens * (plan.heads * each)))
    } else {
        let before = merged(d, plan, values, head - 1);
        let own = (head - 1) * each;
        let shared = (head - 1) / (plan.group as int) * each;
        let (width, key_width) = (
            plan.heads * each,
            plan.heads as int / plan.group as int * each,
        );
        let scores = (d.product)(
            plain_form(Kind::RhsTransposed, Factor::Scale, false, tokens, history, each),
            matrix_at(values[Buffer::Query], own, width),
            matrix_at(values[Buffer::Key], shared, key_width),
            matrix(before.0, history),
        );
        let weights = made(
            d,
            Kernel::HostSoftmax,
            Sizes { base: plan.position_offset, ..size(tokens, history) },
            args1(whole(scores, tokens * history)),
            whole(scores, tokens * history),
        );
        (
            weights,
            (d.product)(
                plain_form(Kind::Plain, Factor::One, false, tokens, each, history),
                matrix(weights, history),
                matrix_at(values[Buffer::Value], shared, key_width),
                matrix_at(before.1, own, width),
            ),
        )
    }
}

proof fn lemma_heads<V>(d: Device<V>, values: Values<V>, plan: HostAttention, k: int)
    requires
        plan.wf(),
        0 <= k <= plan.heads,
        values[Buffer::Probabilities] == zeros(d, plan.scores as int),
        values[Buffer::Merged] == zeros(d, plan.queries as int),
    ensures
        ({
            let after = run(d, values, heads_steps(plan, k));
            &&& after[Buffer::Probabilities] == merged(d, plan, values, k).0
            &&& after[Buffer::Merged] == merged(d, plan, values, k).1
            &&& forall|b: Buffer|
                b != Buffer::Probabilities && b != Buffer::Merged ==> #[trigger] after[b]
                    == values[b]
        }),
    decreases k,
{
    if k > 0 {
        lemma_heads(d, values, plan, k - 1);
        lemma_head(plan, k - 1);
        let before = heads_steps(plan, k - 1);
        let next = head_steps(plan, k - 1);
        lemma_both(d, values, before, next);
        let now = run(d, values, before);
        let a = done(d, now, next[0]);
        let b = done(d, a, next[1]);
        let c = done(d, b, next[2]);
        assert(run(d, now, next) == c) by {
            reveal_with_fuel(run_to, 4);
        }
    }
}

/// What the heads depend on.
proof fn lemma_same<V>(d: Device<V>, plan: HostAttention, a: Values<V>, b: Values<V>, head: int)
    requires
        a[Buffer::Query] == b[Buffer::Query],
        a[Buffer::Key] == b[Buffer::Key],
        a[Buffer::Value] == b[Buffer::Value],
    ensures
        merged(d, plan, a, head) == merged(d, plan, b, head),
    decreases head,
{
    if head > 0 {
        lemma_same(d, plan, a, b, head - 1);
    }
}

/// The attention leaves what all its heads merge, each from its own queries and
/// the keys and values of its group, in its own columns.
pub proof fn law_attention_is_its_heads<V>(d: Device<V>, values: Values<V>, plan: HostAttention)
    requires
        plan.wf(),
    ensures
        run(d, values, attention_steps(plan))[Buffer::Merged] == merged(
            d,
            plan,
            values,
            plan.heads as int,
        ).1,
{
    let s1 = room_steps(plan);
    let s2 = heads_steps(plan, plan.heads as int);
    lemma_both(d, values, s1, s2);
    let m1 = run(d, values, s1);
    assert(m1[Buffer::Probabilities] == zeros(d, plan.scores as int) && m1[Buffer::Merged] == zeros(
        d,
        plan.queries as int,
    ) && forall|b: Buffer|
        b != Buffer::Probabilities && b != Buffer::Merged ==> #[trigger] m1[b] == values[b]) by {
        reveal_with_fuel(run_to, 5);
    }
    lemma_heads(d, m1, plan, plan.heads as int);
    lemma_same(d, plan, m1, values, plan.heads as int);
}

} // verus!
