//! What every routing of a mixture-of-experts layer keeps.
use crate::counting::trues;
use crate::matrix::{lemma_entry, Matrix};
use crate::moe::{
    is_best, is_choice, is_routing, is_taken, routes_token, slots_of_expert, slots_of_token,
    total_length, Routing, UNROUTED,
};
use vstd::prelude::*;

verus! {

/// The experts a token goes to are its best: they are different ones, they
/// come best first, and none that was left out has a greater key.
pub proof fn law_choice_is_the_top(keys: Seq<u32>, chosen: Seq<usize>)
    requires
        is_choice(keys, chosen),
    ensures
        forall|i: int| 0 <= i < chosen.len() ==> (#[trigger] chosen[i]) < keys.len(),
        forall|i: int, j: int|
            0 <= i < j < chosen.len() ==> #[trigger] chosen[i] != #[trigger] chosen[j]
                && keys[chosen[i] as int] >= keys[chosen[j] as int],
        forall|i: int, other: int|
            0 <= i < chosen.len() && 0 <= other < keys.len() && !is_taken(chosen, other)
                ==> #[trigger] keys[chosen[i] as int] >= #[trigger] keys[other],
{
    assert forall|i: int| 0 <= i < chosen.len() implies (#[trigger] chosen[i]) < keys.len() by {
        assert(is_best(keys, chosen.take(i), chosen[i] as int));
    }
    assert forall|i: int, j: int| 0 <= i < j < chosen.len() implies #[trigger] chosen[i]
        != #[trigger] chosen[j] && keys[chosen[i] as int] >= keys[chosen[j] as int] by {
        assert(is_best(keys, chosen.take(i), chosen[i] as int));
        assert(is_best(keys, chosen.take(j), chosen[j] as int));
        assert(chosen.take(j)[i] == chosen[i]);
        assert(!is_taken(chosen.take(i), chosen[j] as int)) by {
            if is_taken(chosen.take(i), chosen[j] as int) {
                let k = choose|k: int| 0 <= k < i && #[trigger] chosen.take(i)[k] == chosen[j];
                assert(chosen.take(j)[k] == chosen[j]);
            }
        }
    }
    assert forall|i: int, other: int|
        0 <= i < chosen.len() && 0 <= other < keys.len() && !is_taken(
            chosen,
            other,
        ) implies #[trigger] keys[chosen[i] as int] >= #[trigger] keys[other] by {
        assert(is_best(keys, chosen.take(i), chosen[i] as int));
        assert(!is_taken(chosen.take(i), other)) by {
            if is_taken(chosen.take(i), other) {
                let k = choose|k: int| 0 <= k < i && #[trigger] chosen.take(i)[k] == other;
                assert(chosen[k] == other);
            }
        }
    }
}

/// An expert's slots are those that name it, each once and in order.
pub proof fn law_expert_sees_its_slots(assignments: Seq<usize>, expert: int, k: int)
    requires
        0 <= k <= assignments.len() <= usize::MAX,
    ensures
        slots_of_expert(assignments, expert, k).len() <= k,
        forall|i: int|
            #![trigger slots_of_expert(assignments, expert, k)[i]]
            0 <= i < slots_of_expert(assignments, expert, k).len() ==> slots_of_expert(
                assignments,
                expert,
                k,
            )[i] < k && assignments[slots_of_expert(assignments, expert, k)[i] as int] == expert,
        forall|i: int, j: int|
            0 <= i < j < slots_of_expert(assignments, expert, k).len()
                ==> #[trigger] slots_of_expert(assignments, expert, k)[i]
                < #[trigger] slots_of_expert(assignments, expert, k)[j],
        forall|slot: int|
            0 <= slot < k && #[trigger] assignments[slot] == expert ==> slots_of_expert(
                assignments,
                expert,
                k,
            ).contains(slot as usize),
    decreases k,
{
    if k > 0 {
        law_expert_sees_its_slots(assignments, expert, k - 1);
        let before = slots_of_expert(assignments, expert, k - 1);
        let now = slots_of_expert(assignments, expert, k);
        assert forall|slot: int|
            0 <= slot < k && #[trigger] assignments[slot] == expert implies now.contains(
            slot as usize,
        ) by {
            if slot < k - 1 {
                assert(before.contains(slot as usize));
                let i = choose|i: int| 0 <= i < before.len() && before[i] == slot as usize;
                assert(now[i] == slot as usize);
            } else {
                assert(now[before.len() as int] == slot as usize);
            }
        }
    }
}

/// No expert sees a token twice: the slots of a token name different experts.
pub proof fn law_token_reaches_expert_once(
    keys: Matrix<u32>,
    valid: Seq<bool>,
    routing: Routing,
    expert: int,
    i: int,
    j: int,
)
    requires
        keys.wf(),
        routing.wf(),
        routing.tokens == keys.rows,
        is_routing(keys, valid, routing.top_k as int, routing.assignments@),
        0 <= expert < routing.expert_slots@.len() < UNROUTED,
        0 <= i < j < routing.expert_tokens@[expert]@.len(),
    ensures
        routing.expert_tokens@[expert]@[i] < routing.expert_tokens@[expert]@[j],
{
    let slots = routing.expert_slots@[expert]@;
    let top_k = routing.top_k as int;
    let n = routing.assignments@.len() as int;
    lemma_length_fits(routing);
    law_expert_sees_its_slots(routing.assignments@, expert, n);
    let (s, t) = (slots[i] as int, slots[j] as int);
    assert(s < t < n);
    let (a, b) = (s / top_k, t / top_k);
    lemma_slot(s, top_k, keys.rows as int);
    lemma_slot(t, top_k, keys.rows as int);
    assert(a <= b) by (nonlinear_arith)
        requires
            a == s / top_k,
            b == t / top_k,
            s < t,
            top_k > 0,
    ;
    if a == b {
        let chosen = slots_of_token(routing.assignments@, top_k, a);
        assert(routes_token(keys, valid, top_k, routing.assignments@, a));
        lemma_entry(keys.rows as int, top_k, a, 0);
        assert(chosen[s % top_k] == expert);
        assert(chosen[t % top_k] == expert);
        assert(valid[a]);
        law_choice_is_the_top(keys.line(a), chosen);
        assert(s % top_k < t % top_k);
        assert(false);
    }
}

proof fn lemma_length_fits(routing: Routing)
    ensures
        routing.assignments@.len() <= usize::MAX,
{
    let n = routing.assignments.len();
    assert(n == routing.assignments@.len());
}

pub(crate) proof fn lemma_slot(slot: int, top_k: int, tokens: int)
    requires
        0 <= slot < tokens * top_k,
        top_k > 0,
    ensures
        0 <= slot / top_k < tokens,
        0 <= slot % top_k < top_k,
        slot == (slot / top_k) * top_k + slot % top_k,
{
    vstd::arithmetic::div_mod::lemma_fundamental_div_mod(slot, top_k);
    let (a, r) = (slot / top_k, slot % top_k);
    assert(0 <= a < tokens && slot == a * top_k + r && 0 <= r < top_k) by (nonlinear_arith)
        requires
            a == slot / top_k,
            r == slot % top_k,
            slot == top_k * a + r,
            0 <= slot < tokens * top_k,
            top_k > 0,
    ;
}

/// How many of the first `k` slots carry a token.
spec fn routed(assignments: Seq<usize>, k: int) -> nat
    decreases k,
{
    if k <= 0 {
        0
    } else {
        routed(assignments, k - 1) + if assignments[k - 1] == UNROUTED { 0nat } else { 1 }
    }
}

/// The slots of the first `experts` experts among the first `k`, counted.
spec fn seen(assignments: Seq<usize>, experts: int, k: int) -> nat
    decreases experts,
{
    if experts <= 0 {
        0
    } else {
        seen(assignments, experts - 1, k) + slots_of_expert(assignments, experts - 1, k).len()
    }
}

proof fn lemma_seen_step(assignments: Seq<usize>, experts: int, k: int)
    requires
        k > 0,
        experts >= 0,
    ensures
        seen(assignments, experts, k) == seen(assignments, experts, k - 1) + if assignments[k - 1]
            < experts {
            1nat
        } else {
            0
        },
    decreases experts,
{
    if experts > 0 {
        lemma_seen_step(assignments, experts - 1, k);
    }
}

proof fn lemma_seen_none(assignments: Seq<usize>, experts: int)
    ensures
        seen(assignments, experts, 0) == 0,
    decreases experts,
{
    if experts > 0 {
        lemma_seen_none(assignments, experts - 1);
    }
}

proof fn lemma_seen(assignments: Seq<usize>, experts: int, k: int)
    requires
        0 <= k <= assignments.len(),
        0 <= experts < UNROUTED,
        forall|i: int|
            0 <= i < k ==> #[trigger] assignments[i] < experts || assignments[i] == UNROUTED,
    ensures
        seen(assignments, experts, k) == routed(assignments, k),
    decreases k,
{
    if k > 0 {
        lemma_seen(assignments, experts, k - 1);
        lemma_seen_step(assignments, experts, k);
    } else {
        lemma_seen_none(assignments, experts);
    }
}

proof fn lemma_lengths(routing: Routing, k: int)
    requires
        routing.wf(),
        0 <= k <= routing.expert_slots@.len(),
    ensures
        total_length(routing.expert_tokens@, k) == seen(
            routing.assignments@,
            k,
            routing.assignments@.len() as int,
        ),
    decreases k,
{
    if k > 0 {
        lemma_lengths(routing, k - 1);
        assert(routing.expert_tokens@[k - 1]@.len() == routing.expert_slots@[k - 1]@.len());
    }
}

proof fn lemma_routed_step(assignments: Seq<usize>, start: int, count: int, carried: bool)
    requires
        0 <= start,
        0 <= count,
        forall|i: int|
            start <= i < start + count ==> (#[trigger] assignments[i] != UNROUTED) == carried,
    ensures
        routed(assignments, start + count) == routed(assignments, start) + if carried {
            count
        } else {
            0
        },
    decreases count,
{
    if count > 0 {
        lemma_routed_step(assignments, start, count - 1, carried);
        assert((assignments[start + count - 1] != UNROUTED) == carried);
    }
}

proof fn lemma_routed_tokens(
    keys: Matrix<u32>,
    valid: Seq<bool>,
    top_k: int,
    assignments: Seq<usize>,
    token: int,
)
    requires
        keys.wf(),
        keys.cols < UNROUTED,
        top_k > 0,
        valid.len() == keys.rows,
        is_routing(keys, valid, top_k, assignments),
        0 <= token <= keys.rows,
    ensures
        routed(assignments, token * top_k) == trues(valid.take(token)) * top_k,
    decreases token,
{
    if token == 0 {
        assert(valid.take(0) =~= Seq::<bool>::empty());
        assert(0 * top_k == 0);
    } else {
        let t = token - 1;
        lemma_routed_tokens(keys, valid, top_k, assignments, t);
        assert(valid.take(token).drop_last() =~= valid.take(t));
        assert(token * top_k == t * top_k + top_k) by (nonlinear_arith)
            requires
                token == t + 1,
        ;
        lemma_entry(keys.rows as int, top_k, t, 0);
        let chosen = slots_of_token(assignments, top_k, t);
        assert(routes_token(keys, valid, top_k, assignments, t));
        if valid[t] {
            law_choice_is_the_top(keys.line(t), chosen);
            if keys.cols > 0 {
                lemma_entry(keys.rows as int, keys.cols as int, t, 0);
            } else {
                assert(t * keys.cols == 0) by (nonlinear_arith)
                    requires
                        keys.cols == 0,
                ;
            }
            assert(keys.line(t).len() == keys.cols);
        }
        assert forall|i: int| t * top_k <= i < t * top_k + top_k implies (#[trigger] assignments[i]
            != UNROUTED) == valid[t] by {
            assert(chosen[i - t * top_k] == assignments[i]);
        }
        lemma_routed_step(assignments, t * top_k, top_k, valid[t]);
        let before = trues(valid.take(t)) as int;
        assert((before + 1) * top_k == before * top_k + top_k) by (nonlinear_arith);
    }
}

proof fn lemma_routed_bound(assignments: Seq<usize>, k: int)
    requires
        0 <= k,
    ensures
        routed(assignments, k) <= k,
    decreases k,
{
    if k > 0 {
        lemma_routed_bound(assignments, k - 1);
    }
}

/// The experts together see no more tokens than there are slots.
pub(crate) proof fn lemma_no_more_than_slots(routing: Routing)
    requires
        routing.wf(),
        routing.expert_slots@.len() < UNROUTED,
    ensures
        total_length(routing.expert_tokens@, routing.expert_tokens@.len() as int)
            <= routing.assignments@.len(),
{
    let n = routing.assignments@.len() as int;
    lemma_lengths(routing, routing.expert_slots@.len() as int);
    lemma_seen(routing.assignments@, routing.expert_slots@.len() as int, n);
    lemma_routed_bound(routing.assignments@, n);
}

/// Every token reaches exactly `top_k` experts and padding none: the tokens
/// the experts see, counted together, are `top_k` for each valid token.
pub proof fn law_nothing_is_dropped(keys: Matrix<u32>, valid: Seq<bool>, routing: Routing)
    requires
        keys.wf(),
        routing.wf(),
        routing.tokens == keys.rows,
        valid.len() == keys.rows,
        keys.cols == routing.expert_slots@.len() < UNROUTED,
        is_routing(keys, valid, routing.top_k as int, routing.assignments@),
    ensures
        total_length(routing.expert_tokens@, routing.expert_tokens@.len() as int) == trues(valid)
            * routing.top_k,
{
    let n = routing.assignments@.len() as int;
    lemma_lengths(routing, routing.expert_slots@.len() as int);
    lemma_seen(routing.assignments@, routing.expert_slots@.len() as int, n);
    lemma_routed_tokens(
        keys,
        valid,
        routing.top_k as int,
        routing.assignments@,
        routing.tokens as int,
    );
    assert(valid.take(routing.tokens as int) =~= valid);
}

} // verus!
