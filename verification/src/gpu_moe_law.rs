//! What the passes of a routed feed-forward touch.
use crate::device::{after, after_all, is_safe, runs, tile, Buffer, Kind, Memory, Step, Tile};
use crate::gpu_feed_forward;
use crate::gpu_feed_forward::{is_outside, GatedPlan};
use crate::gpu_grouping::lemma_groups_apart;
use crate::gpu_moe::{
    activated_steps, backward_steps, balance_gradient_steps, balance_steps, deactivated_steps,
    down_gradient_step, down_gradient_steps, down_step, down_steps, downstream_steps, expert_rows,
    experts_gradient_steps, forward_steps, gate_gradient_steps, gate_up_gradient_step,
    gate_up_gradient_steps, gate_up_step, gate_up_steps, gather_steps, gathered_steps, lemma_packed,
    lemma_run, packing_steps, probabilities_gradient_steps, room_steps, router_gradient_steps,
    router_steps, scatter_steps, scattered_steps, shared_gradient_steps, shared_steps,
    statistics_steps, upstream_steps, MoePlan,
};
use crate::moe::total;
use crate::tiles::{
    lemma_concat, lemma_dense, lemma_kept, lemma_one_more, lemma_project, lemma_project_back,
    lemma_weight_gradient,
};
use vstd::prelude::*;

verus! {

/// Whether what the router reads is there.
pub open spec fn has_input(plan: MoePlan, memory: Memory) -> bool {
    &&& memory.holds(Buffer::FeedForwardNormed, plan.stream as int)
    &&& memory.holds(Buffer::RouterWeight, plan.router_weight as int)
    &&& memory.holds(Buffer::Valid, plan.rows as int)
}

/// Whether what the router makes is there.
pub open spec fn has_router(plan: MoePlan, memory: Memory) -> bool {
    &&& memory.holds(Buffer::RouterProbabilities, plan.logits as int)
    &&& memory.holds(Buffer::RouterLogSumExp, plan.rows as int)
    &&& memory.holds(Buffer::ExpertOf, plan.slots as int)
    &&& memory.holds(Buffer::GateOf, plan.slots as int)
}

/// Whether the weights of every expert are there.
pub open spec fn has_experts(plan: MoePlan, memory: Memory) -> bool {
    &&& forall|e: usize|
        e < plan.experts ==> #[trigger] memory.holds(
            Buffer::ExpertGateWeight(e),
            plan.weight as int,
        )
    &&& forall|e: usize|
        e < plan.experts ==> #[trigger] memory.holds(Buffer::ExpertUpWeight(e), plan.weight as int)
    &&& forall|e: usize|
        e < plan.experts ==> #[trigger] memory.holds(
            Buffer::ExpertDownWeight(e),
            plan.weight as int,
        )
}

/// Whether what the experts read is there: what the router read and made, the
/// grouped lists, the weights, and the output they add to.
pub open spec fn base(plan: MoePlan, memory: Memory) -> bool {
    &&& has_input(plan, memory)
    &&& has_router(plan, memory)
    &&& has_experts(plan, memory)
    &&& memory.holds(Buffer::TokenOf, plan.token_list as int)
    &&& memory.holds(Buffer::Gates, plan.token_list as int)
    &&& memory.holds(Buffer::Output, plan.stream as int)
}

/// Whether a buffer has been reserved and nothing written to it.
pub open spec fn is_open(memory: Memory, buffer: Buffer, len: int) -> bool {
    &&& memory.lens.dom().contains(buffer)
    &&& memory.lens[buffer] == len
    &&& memory.prefix.dom().contains(buffer)
    &&& memory.prefix[buffer] == 0
}

/// Whether the weights of a shared expert that were there still are.
pub open spec fn keeps_shared(before: Memory, end: Memory) -> bool {
    forall|x: Buffer, len: int|
        (x == Buffer::GateWeight || x == Buffer::UpWeight || x == Buffer::DownWeight)
            && before.holds(x, len) ==> #[trigger] end.holds(x, len)
}

/// Whether every buffer but two that was there still is.
pub open spec fn keeps(before: Memory, end: Memory, b: Buffer, c: Buffer) -> bool {
    forall|x: Buffer, len: int|
        x != b && x != c && #[trigger] before.holds(x, len) ==> end.holds(x, len)
}

/// Whether the rows of the first groups have been written, and nothing else:
/// so far has a buffer been written that is filled group by group.
pub open spec fn is_filled(
    plan: MoePlan,
    counts: Seq<usize>,
    k: int,
    end: Memory,
    buffer: Buffer,
    width: int,
) -> bool {
    &&& end.lens.dom().contains(buffer)
    &&& end.lens[buffer] == plan.routed * width
    &&& end.prefix.dom().contains(buffer)
    &&& end.prefix[buffer] == total(counts, k) * width
    &&& total(counts, k) == plan.routed && plan.routed > 0 ==> end.full.contains(buffer)
}

/// A product over an expert's run of rows is safe where the groups before it
/// have been written, and writes its group.
proof fn lemma_rows(
    plan: MoePlan,
    counts: Seq<usize>,
    e: int,
    memory: Memory,
    kind: Kind,
    n: usize,
    k: usize,
    a: Tile,
    b: Tile,
    out: Tile,
)
    requires
        plan.wf(),
        counts.len() == plan.experts,
        plan.routed == total(counts, plan.experts as int),
        0 <= e < plan.experts,
        counts[e] > 0,
        kind != Kind::LhsTransposed,
        is_filled(plan, counts, e, memory, out.buffer, n as int),
        memory.holds(a.buffer, plan.routed * k),
        a.offset == total(counts, e) * k,
        a.stride == k,
        out.offset == total(counts, e) * n,
        out.stride == n,
        memory.lens.dom().contains(b.buffer),
        memory.full.contains(b.buffer),
        b.offset + n * k <= memory.lens[b.buffer],
        kind == Kind::RhsTransposed ==> b.stride == k,
        kind == Kind::Plain ==> b.stride == n,
        out.buffer != a.buffer,
        out.buffer != b.buffer,
    ensures
        is_safe(memory, expert_rows(kind, counts[e], n, k, a, b, out)),
        is_filled(
            plan,
            counts,
            e + 1,
            after(memory, expert_rows(kind, counts[e], n, k, a, b, out)),
            out.buffer,
            n as int,
        ),
        keeps(
            memory,
            after(memory, expert_rows(kind, counts[e], n, k, a, b, out)),
            out.buffer,
            out.buffer,
        ),
{
    lemma_run(plan, counts, e, k as int);
    lemma_run(plan, counts, e, n as int);
    lemma_dense(a, counts[e] as int, k as int, memory.lens[a.buffer]);
    if kind == Kind::RhsTransposed {
        lemma_dense(b, n as int, k as int, memory.lens[b.buffer]);
    } else {
        assert(n * k == k * n) by (nonlinear_arith);
        lemma_dense(b, k as int, n as int, memory.lens[b.buffer]);
    }
}

proof fn lemma_gate_up(plan: MoePlan, counts: Seq<usize>, memory: Memory, k: int)
    requires
        plan.wf(),
        counts.len() == plan.experts,
        plan.routed == total(counts, plan.experts as int),
        0 <= k <= plan.experts,
        plan.routed > 0 ==> memory.holds(Buffer::Gathered, plan.gathered as int),
        memory.holds(Buffer::ExpertWeights, plan.packed as int),
        is_open(memory, Buffer::ExpertGateUp, plan.expert_gate_up as int),
    ensures
        runs(memory, gate_up_steps(plan, counts, k)),
        is_filled(
            plan,
            counts,
            k,
            after_all(memory, gate_up_steps(plan, counts, k)),
            Buffer::ExpertGateUp,
            plan.double as int,
        ),
        keeps(
            memory,
            after_all(memory, gate_up_steps(plan, counts, k)),
            Buffer::ExpertGateUp,
            Buffer::ExpertGateUp,
        ),
    decreases k,
{
    if k > 0 {
        let e = k - 1;
        let before = gate_up_steps(plan, counts, e);
        let now = after_all(memory, before);
        lemma_gate_up(plan, counts, memory, e);
        if counts[e] > 0 {
            lemma_groups_apart(counts, e, plan.experts as int);
            lemma_run(plan, counts, e, plan.d_model as int);
            lemma_run(plan, counts, e, plan.double as int);
            lemma_packed(plan, e);
            lemma_size(plan, counts, e);
            let step = gate_up_step(plan, counts, e);
            lemma_rows(
                plan,
                counts,
                e,
                now,
                Kind::RhsTransposed,
                plan.double,
                plan.d_model,
                tile(
                    Buffer::Gathered,
                    (total(counts, e) * plan.d_model) as usize,
                    plan.d_model,
                ),
                tile(Buffer::ExpertWeights, (e * plan.packed_stride) as usize, plan.d_model),
                tile(
                    Buffer::ExpertGateUp,
                    (total(counts, e) * plan.double) as usize,
                    plan.double,
                ),
            );
            lemma_single(now, step);
            lemma_concat(memory, before, seq![step]);
        }
    } else {
        assert(total(counts, 0) == 0);
        assert(0 * plan.double == 0);
    }
}

/// Numbers that are counted in a buffer's length fit what counts them.
proof fn lemma_size(plan: MoePlan, counts: Seq<usize>, e: int)
    requires
        plan.wf(),
        counts.len() == plan.experts,
        plan.routed == total(counts, plan.experts as int),
        0 <= e < plan.experts,
    ensures
        ((total(counts, e) * plan.d_model) as usize) == total(counts, e) * plan.d_model,
        ((total(counts, e) * plan.double) as usize) == total(counts, e) * plan.double,
        ((total(counts, e) * plan.width) as usize) == total(counts, e) * plan.width,
        ((e * plan.packed_stride) as usize) == e * plan.packed_stride,
{
    lemma_run(plan, counts, e, plan.d_model as int);
    lemma_run(plan, counts, e, plan.double as int);
    lemma_run(plan, counts, e, plan.width as int);
    lemma_packed(plan, e);
    let c = counts[e] as int;
    assert(0 <= c * plan.d_model && 0 <= c * plan.double && 0 <= c * plan.width)
        by (nonlinear_arith)
        requires
            0 <= c,
    ;
}

/// A list of one step.
proof fn lemma_single(memory: Memory, step: Step)
    requires
        is_safe(memory, step),
    ensures
        runs(memory, seq![step]),
        after_all(memory, seq![step]) == after(memory, step),
{
    let steps = seq![step];
    lemma_one_more(memory, steps, 0, memory);
}

proof fn lemma_down(plan: MoePlan, counts: Seq<usize>, memory: Memory, k: int)
    requires
        plan.wf(),
        counts.len() == plan.experts,
        plan.routed == total(counts, plan.experts as int),
        0 <= k <= plan.experts,
        memory.holds(Buffer::ExpertHidden, plan.expert_hidden as int),
        has_experts(plan, memory),
        is_open(memory, Buffer::ExpertOutput, plan.gathered as int),
    ensures
        runs(memory, down_steps(plan, counts, k)),
        is_filled(
            plan,
            counts,
            k,
            after_all(memory, down_steps(plan, counts, k)),
            Buffer::ExpertOutput,
            plan.d_model as int,
        ),
        keeps(
            memory,
            after_all(memory, down_steps(plan, counts, k)),
            Buffer::ExpertOutput,
            Buffer::ExpertOutput,
        ),
    decreases k,
{
    if k > 0 {
        let e = k - 1;
        let before = down_steps(plan, counts, e);
        let now = after_all(memory, before);
        lemma_down(plan, counts, memory, e);
        if counts[e] > 0 {
            lemma_size(plan, counts, e);
            let step = down_step(plan, counts, e);
            assert(memory.holds(Buffer::ExpertDownWeight(e as usize), plan.weight as int));
            assert(plan.d_model * plan.width == plan.width * plan.d_model) by (nonlinear_arith);
            lemma_rows(
                plan,
                counts,
                e,
                now,
                Kind::RhsTransposed,
                plan.d_model,
                plan.width,
                tile(Buffer::ExpertHidden, (total(counts, e) * plan.width) as usize, plan.width),
                tile(Buffer::ExpertDownWeight(e as usize), 0, plan.width),
                tile(
                    Buffer::ExpertOutput,
                    (total(counts, e) * plan.d_model) as usize,
                    plan.d_model,
                ),
            );
            lemma_single(now, step);
            lemma_concat(memory, before, seq![step]);
        }
    } else {
        assert(total(counts, 0) == 0);
        assert(0 * plan.d_model == 0);
    }
}

/// What the backward pass reads of the forward pass, and the gradients it adds
/// to.
pub open spec fn backward_base(plan: MoePlan, memory: Memory) -> bool {
    &&& has_input(plan, memory)
    &&& has_router(plan, memory)
    &&& has_experts(plan, memory)
    &&& memory.holds(Buffer::RouterGrad, plan.router_weight as int)
    &&& memory.holds(Buffer::TokenOf, plan.token_list as int)
    &&& memory.holds(Buffer::SlotOf, plan.token_list as int)
    &&& memory.holds(Buffer::Gates, plan.token_list as int)
    &&& memory.holds(Buffer::GradOutput, plan.stream as int)
    &&& memory.holds(Buffer::GradFeedForward, plan.stream as int)
    &&& memory.holds(Buffer::ExpertWeights, plan.packed as int)
    &&& memory.holds(Buffer::ExpertHidden, plan.expert_hidden as int)
    &&& plan.routed > 0 ==> memory.holds(Buffer::ExpertGateUp, plan.expert_gate_up as int)
    &&& plan.routed > 0 ==> memory.holds(Buffer::ExpertOutput, plan.gathered as int)
    &&& plan.routed > 0 ==> memory.holds(Buffer::Gathered, plan.gathered as int)
    &&& forall|e: usize|
        e < plan.experts ==> #[trigger] memory.holds(
            Buffer::ExpertGateGrad(e),
            plan.weight as int,
        )
    &&& forall|e: usize|
        e < plan.experts ==> #[trigger] memory.holds(Buffer::ExpertUpGrad(e), plan.weight as int)
    &&& forall|e: usize|
        e < plan.experts ==> #[trigger] memory.holds(
            Buffer::ExpertDownGrad(e),
            plan.weight as int,
        )
}

proof fn lemma_router(plan: MoePlan, memory: Memory)
    requires
        plan.wf(),
        has_input(plan, memory),
    ensures
        runs(memory, router_steps(plan)),
        has_input(plan, after_all(memory, router_steps(plan))),
        has_router(plan, after_all(memory, router_steps(plan))),
{
    let steps = router_steps(plan);
    let m0 = memory;
    lemma_one_more(m0, steps, 0, m0);
    lemma_kept(m0, steps[0]);
    let m1 = after(m0, steps[0]);
    lemma_project(
        m1,
        tile(Buffer::FeedForwardNormed, 0, plan.d_model),
        tile(Buffer::RouterWeight, 0, plan.d_model),
        tile(Buffer::RouterLogits, 0, plan.experts),
        plan.rows,
        plan.experts,
        plan.d_model,
        false,
    );
    lemma_one_more(m0, steps, 1, m1);
    lemma_kept(m1, steps[1]);
    let m2 = after(m1, steps[1]);
    lemma_one_more(m0, steps, 2, m2);
    lemma_kept(m2, steps[2]);
    let m3 = after(m2, steps[2]);
    lemma_one_more(m0, steps, 3, m3);
    lemma_kept(m3, steps[3]);
    let m4 = after(m3, steps[3]);
    lemma_one_more(m0, steps, 4, m4);
    lemma_kept(m4, steps[4]);
    let m5 = after(m4, steps[4]);
    lemma_one_more(m0, steps, 5, m5);
    lemma_kept(m5, steps[5]);
    let m6 = after(m5, steps[5]);
    lemma_one_more(m0, steps, 6, m6);
    lemma_kept(m6, steps[6]);
    let m7 = after(m6, steps[6]);
    lemma_one_more(m0, steps, 7, m7);
    lemma_kept(m7, steps[7]);
    let m8 = after(m7, steps[7]);
    lemma_one_more(m0, steps, 8, m8);
    lemma_kept(m8, steps[8]);
    let m9 = after(m8, steps[8]);
    lemma_one_more(m0, steps, 9, m9);
    lemma_kept(m9, steps[9]);
    let m10 = after(m9, steps[9]);
    lemma_one_more(m0, steps, 10, m10);
    lemma_kept(m10, steps[10]);
    let m11 = after(m10, steps[10]);
    lemma_one_more(m0, steps, 11, m11);
    lemma_kept(m11, steps[11]);
    let m12 = after(m11, steps[11]);
}

proof fn lemma_room(plan: MoePlan, memory: Memory)
    requires
        plan.wf(),
        base(plan, memory),
    ensures
        runs(memory, room_steps(plan)),
        base(plan, after_all(memory, room_steps(plan))),
        after_all(memory, room_steps(plan)).lens.dom().contains(Buffer::Gathered),
        after_all(memory, room_steps(plan)).lens[Buffer::Gathered] == plan.gathered,
        keeps_shared(memory, after_all(memory, room_steps(plan))),
{
    let steps = room_steps(plan);
    let m0 = memory;
    lemma_one_more(m0, steps, 0, m0);
    lemma_kept(m0, steps[0]);
    let m1 = after(m0, steps[0]);
}

proof fn lemma_gathered(plan: MoePlan, memory: Memory)
    requires
        plan.wf(),
        base(plan, memory),
        memory.lens.dom().contains(Buffer::Gathered),
        memory.lens[Buffer::Gathered] == plan.gathered,
        plan.routed > 0,
    ensures
        runs(memory, gathered_steps(plan)),
        base(plan, after_all(memory, gathered_steps(plan))),
        after_all(memory, gathered_steps(plan)).holds(Buffer::Gathered, plan.gathered as int),
        keeps_shared(memory, after_all(memory, gathered_steps(plan))),
{
    let steps = gathered_steps(plan);
    let m0 = memory;
    lemma_one_more(m0, steps, 0, m0);
    lemma_kept(m0, steps[0]);
    let m1 = after(m0, steps[0]);
}

proof fn lemma_packing(plan: MoePlan, memory: Memory)
    requires
        plan.wf(),
        base(plan, memory),
        plan.routed > 0 ==> memory.holds(Buffer::Gathered, plan.gathered as int),
    ensures
        runs(memory, packing_steps(plan)),
        base(plan, after_all(memory, packing_steps(plan))),
        plan.routed > 0 ==> after_all(memory, packing_steps(plan)).holds(Buffer::Gathered, plan.gathered as int),
        after_all(memory, packing_steps(plan)).holds(Buffer::ExpertWeights, plan.packed as int),
        is_open(after_all(memory, packing_steps(plan)), Buffer::ExpertGateUp, plan.expert_gate_up as int),
        keeps_shared(memory, after_all(memory, packing_steps(plan))),
{
    let steps = packing_steps(plan);
    let m0 = memory;
    lemma_one_more(m0, steps, 0, m0);
    lemma_kept(m0, steps[0]);
    let m1 = after(m0, steps[0]);
    lemma_one_more(m0, steps, 1, m1);
    lemma_kept(m1, steps[1]);
    let m2 = after(m1, steps[1]);
    lemma_one_more(m0, steps, 2, m2);
    lemma_kept(m2, steps[2]);
    let m3 = after(m2, steps[2]);
}

proof fn lemma_activated(plan: MoePlan, memory: Memory)
    requires
        plan.wf(),
        base(plan, memory),
        plan.routed > 0 ==> memory.holds(Buffer::Gathered, plan.gathered as int),
        memory.holds(Buffer::ExpertWeights, plan.packed as int),
        plan.routed > 0 ==> memory.holds(Buffer::ExpertGateUp, plan.expert_gate_up as int),
    ensures
        runs(memory, activated_steps(plan)),
        base(plan, after_all(memory, activated_steps(plan))),
        plan.routed > 0 ==> after_all(memory, activated_steps(plan)).holds(Buffer::Gathered, plan.gathered as int),
        after_all(memory, activated_steps(plan)).holds(Buffer::ExpertWeights, plan.packed as int),
        plan.routed > 0 ==> after_all(memory, activated_steps(plan)).holds(Buffer::ExpertGateUp, plan.expert_gate_up as int),
        after_all(memory, activated_steps(plan)).holds(Buffer::ExpertHidden, plan.expert_hidden as int),
        is_open(after_all(memory, activated_steps(plan)), Buffer::ExpertOutput, plan.gathered as int),
        keeps_shared(memory, after_all(memory, activated_steps(plan))),
{
    let steps = activated_steps(plan);
    let m0 = memory;
    assert(plan.routed == 0 ==> plan.routed * plan.double == 0) by (nonlinear_arith);
    lemma_one_more(m0, steps, 0, m0);
    lemma_kept(m0, steps[0]);
    let m1 = after(m0, steps[0]);
    lemma_one_more(m0, steps, 1, m1);
    lemma_kept(m1, steps[1]);
    let m2 = after(m1, steps[1]);
    lemma_one_more(m0, steps, 2, m2);
    lemma_kept(m2, steps[2]);
    let m3 = after(m2, steps[2]);
}

proof fn lemma_scattered(plan: MoePlan, memory: Memory)
    requires
        plan.wf(),
        base(plan, memory),
        plan.routed > 0,
        plan.routed > 0 ==> memory.holds(Buffer::Gathered, plan.gathered as int),
        memory.holds(Buffer::ExpertWeights, plan.packed as int),
        plan.routed > 0 ==> memory.holds(Buffer::ExpertGateUp, plan.expert_gate_up as int),
        memory.holds(Buffer::ExpertHidden, plan.expert_hidden as int),
        plan.routed > 0 ==> memory.holds(Buffer::ExpertOutput, plan.gathered as int),
    ensures
        runs(memory, scattered_steps(plan)),
        base(plan, after_all(memory, scattered_steps(plan))),
        plan.routed > 0 ==> after_all(memory, scattered_steps(plan)).holds(Buffer::Gathered, plan.gathered as int),
        after_all(memory, scattered_steps(plan)).holds(Buffer::ExpertWeights, plan.packed as int),
        plan.routed > 0 ==> after_all(memory, scattered_steps(plan)).holds(Buffer::ExpertGateUp, plan.expert_gate_up as int),
        after_all(memory, scattered_steps(plan)).holds(Buffer::ExpertHidden, plan.expert_hidden as int),
        plan.routed > 0 ==> after_all(memory, scattered_steps(plan)).holds(Buffer::ExpertOutput, plan.gathered as int),
        keeps_shared(memory, after_all(memory, scattered_steps(plan))),
{
    let steps = scattered_steps(plan);
    let m0 = memory;
    lemma_one_more(m0, steps, 0, m0);
    lemma_kept(m0, steps[0]);
    let m1 = after(m0, steps[0]);
}

proof fn lemma_statistics(plan: MoePlan, memory: Memory)
    requires
        plan.wf(),
        has_input(plan, memory),
        has_router(plan, memory),
        plan.routed > 0 ==> memory.holds(Buffer::Gathered, plan.gathered as int),
        memory.holds(Buffer::ExpertWeights, plan.packed as int),
        plan.routed > 0 ==> memory.holds(Buffer::ExpertGateUp, plan.expert_gate_up as int),
        memory.holds(Buffer::ExpertHidden, plan.expert_hidden as int),
        plan.routed > 0 ==> memory.holds(Buffer::ExpertOutput, plan.gathered as int),
    ensures
        runs(memory, statistics_steps(plan)),
        after_all(memory, statistics_steps(plan)).holds(Buffer::Sums, plan.sums as int),
        has_input(plan, after_all(memory, statistics_steps(plan))),
        has_router(plan, after_all(memory, statistics_steps(plan))),
        plan.routed > 0 ==> after_all(memory, statistics_steps(plan)).holds(Buffer::Gathered, plan.gathered as int),
        after_all(memory, statistics_steps(plan)).holds(Buffer::ExpertWeights, plan.packed as int),
        plan.routed > 0 ==> after_all(memory, statistics_steps(plan)).holds(Buffer::ExpertGateUp, plan.expert_gate_up as int),
        after_all(memory, statistics_steps(plan)).holds(Buffer::ExpertHidden, plan.expert_hidden as int),
        plan.routed > 0 ==> after_all(memory, statistics_steps(plan)).holds(Buffer::ExpertOutput, plan.gathered as int),
{
    let steps = statistics_steps(plan);
    let m0 = memory;
    lemma_one_more(m0, steps, 0, m0);
    lemma_kept(m0, steps[0]);
    let m1 = after(m0, steps[0]);
    lemma_one_more(m0, steps, 1, m1);
    lemma_kept(m1, steps[1]);
    let m2 = after(m1, steps[1]);
    lemma_one_more(m0, steps, 2, m2);
    lemma_kept(m2, steps[2]);
    let m3 = after(m2, steps[2]);
}

proof fn lemma_gate_gradient(plan: MoePlan, memory: Memory)
    requires
        plan.wf(),
        backward_base(plan, memory),
    ensures
        runs(memory, gate_gradient_steps(plan)),
        backward_base(plan, after_all(memory, gate_gradient_steps(plan))),
        after_all(memory, gate_gradient_steps(plan)).holds(Buffer::GradGates, plan.slots as int),
        keeps_loads(memory, after_all(memory, gate_gradient_steps(plan))),
{
    let steps = gate_gradient_steps(plan);
    let m0 = memory;
    lemma_one_more(m0, steps, 0, m0);
    lemma_kept(m0, steps[0]);
    let m1 = after(m0, steps[0]);
    lemma_one_more(m0, steps, 1, m1);
    lemma_kept(m1, steps[1]);
    let m2 = after(m1, steps[1]);
}

proof fn lemma_upstream(plan: MoePlan, memory: Memory)
    requires
        plan.wf(),
        backward_base(plan, memory),
        plan.routed > 0,
        memory.holds(Buffer::GradGates, plan.slots as int),
    ensures
        runs(memory, upstream_steps(plan)),
        backward_base(plan, after_all(memory, upstream_steps(plan))),
        after_all(memory, upstream_steps(plan)).holds(Buffer::GradGates, plan.slots as int),
        after_all(memory, upstream_steps(plan)).holds(Buffer::GradExpertOutput, plan.gathered as int),
        is_open(after_all(memory, upstream_steps(plan)), Buffer::GradExpertHidden, plan.expert_hidden as int),
        keeps_loads(memory, after_all(memory, upstream_steps(plan))),
{
    let steps = upstream_steps(plan);
    let m0 = memory;
    lemma_one_more(m0, steps, 0, m0);
    lemma_kept(m0, steps[0]);
    let m1 = after(m0, steps[0]);
    lemma_one_more(m0, steps, 1, m1);
    lemma_kept(m1, steps[1]);
    let m2 = after(m1, steps[1]);
    lemma_one_more(m0, steps, 2, m2);
    lemma_kept(m2, steps[2]);
    let m3 = after(m2, steps[2]);
    lemma_one_more(m0, steps, 3, m3);
    lemma_kept(m3, steps[3]);
    let m4 = after(m3, steps[3]);
}

proof fn lemma_deactivated(plan: MoePlan, memory: Memory)
    requires
        plan.wf(),
        backward_base(plan, memory),
        plan.routed > 0,
        memory.holds(Buffer::GradGates, plan.slots as int),
        plan.routed > 0 ==> memory.holds(Buffer::GradExpertHidden, plan.expert_hidden as int),
    ensures
        runs(memory, deactivated_steps(plan)),
        backward_base(plan, after_all(memory, deactivated_steps(plan))),
        after_all(memory, deactivated_steps(plan)).holds(Buffer::GradGates, plan.slots as int),
        after_all(memory, deactivated_steps(plan)).holds(Buffer::GradExpertGateUp, plan.expert_gate_up as int),
        is_open(after_all(memory, deactivated_steps(plan)), Buffer::GradExpertInput, plan.gathered as int),
        keeps_loads(memory, after_all(memory, deactivated_steps(plan))),
{
    let steps = deactivated_steps(plan);
    let m0 = memory;
    lemma_one_more(m0, steps, 0, m0);
    lemma_kept(m0, steps[0]);
    let m1 = after(m0, steps[0]);
    lemma_one_more(m0, steps, 1, m1);
    lemma_kept(m1, steps[1]);
    let m2 = after(m1, steps[1]);
    lemma_one_more(m0, steps, 2, m2);
    lemma_kept(m2, steps[2]);
    let m3 = after(m2, steps[2]);
}

proof fn lemma_downstream(plan: MoePlan, memory: Memory)
    requires
        plan.wf(),
        backward_base(plan, memory),
        plan.routed > 0,
        memory.holds(Buffer::GradGates, plan.slots as int),
        plan.routed > 0 ==> memory.holds(Buffer::GradExpertInput, plan.gathered as int),
    ensures
        runs(memory, downstream_steps(plan)),
        backward_base(plan, after_all(memory, downstream_steps(plan))),
        after_all(memory, downstream_steps(plan)).holds(Buffer::GradGates, plan.slots as int),
        keeps_loads(memory, after_all(memory, downstream_steps(plan))),
{
    let steps = downstream_steps(plan);
    let m0 = memory;
    lemma_one_more(m0, steps, 0, m0);
    lemma_kept(m0, steps[0]);
    let m1 = after(m0, steps[0]);
}

proof fn lemma_probabilities_gradient(plan: MoePlan, memory: Memory)
    requires
        plan.wf(),
        backward_base(plan, memory),
        memory.holds(Buffer::GradGates, plan.slots as int),
    ensures
        runs(memory, probabilities_gradient_steps(plan)),
        backward_base(plan, after_all(memory, probabilities_gradient_steps(plan))),
        after_all(memory, probabilities_gradient_steps(plan)).holds(Buffer::GradRouterProbabilities, plan.logits as int),
        keeps_loads(memory, after_all(memory, probabilities_gradient_steps(plan))),
{
    let steps = probabilities_gradient_steps(plan);
    let m0 = memory;
    lemma_one_more(m0, steps, 0, m0);
    lemma_kept(m0, steps[0]);
    let m1 = after(m0, steps[0]);
    lemma_one_more(m0, steps, 1, m1);
    lemma_kept(m1, steps[1]);
    let m2 = after(m1, steps[1]);
    lemma_one_more(m0, steps, 2, m2);
    lemma_kept(m2, steps[2]);
    let m3 = after(m2, steps[2]);
}

proof fn lemma_balance_gradient(plan: MoePlan, memory: Memory)
    requires
        plan.wf(),
        backward_base(plan, memory),
        memory.holds(Buffer::GradRouterProbabilities, plan.logits as int),
        memory.holds(Buffer::Loads, plan.experts as int),
    ensures
        runs(memory, balance_gradient_steps(plan)),
        backward_base(plan, after_all(memory, balance_gradient_steps(plan))),
        after_all(memory, balance_gradient_steps(plan)).holds(Buffer::GradRouterProbabilities, plan.logits as int),
{
    let steps = balance_gradient_steps(plan);
    let m0 = memory;
    lemma_one_more(m0, steps, 0, m0);
    lemma_kept(m0, steps[0]);
    let m1 = after(m0, steps[0]);
}

proof fn lemma_router_gradient(plan: MoePlan, memory: Memory)
    requires
        plan.wf(),
        backward_base(plan, memory),
        memory.holds(Buffer::GradRouterProbabilities, plan.logits as int),
    ensures
        runs(memory, router_gradient_steps(plan)),
        after_all(memory, router_gradient_steps(plan)).holds(Buffer::GradFeedForward, plan.stream as int),
{
    let steps = router_gradient_steps(plan);
    let m0 = memory;
    lemma_one_more(m0, steps, 0, m0);
    lemma_kept(m0, steps[0]);
    let m1 = after(m0, steps[0]);
    lemma_one_more(m0, steps, 1, m1);
    lemma_kept(m1, steps[1]);
    let m2 = after(m1, steps[1]);
    lemma_one_more(m0, steps, 2, m2);
    lemma_kept(m2, steps[2]);
    let m3 = after(m2, steps[2]);
    lemma_project_back(
        m3,
        tile(Buffer::GradRouterLogits, 0, plan.experts),
        tile(Buffer::RouterWeight, 0, plan.d_model),
        tile(Buffer::GradFeedForward, 0, plan.d_model),
        plan.rows,
        plan.d_model,
        plan.experts,
        true,
    );
    lemma_one_more(m0, steps, 3, m3);
    lemma_kept(m3, steps[3]);
    let m4 = after(m3, steps[3]);
    lemma_weight_gradient(
        m4,
        tile(Buffer::GradRouterLogits, 0, plan.experts),
        tile(Buffer::FeedForwardNormed, 0, plan.d_model),
        tile(Buffer::RouterGrad, 0, plan.d_model),
        plan.experts,
        plan.d_model,
        plan.rows,
        true,
    );
    lemma_one_more(m0, steps, 4, m4);
    lemma_kept(m4, steps[4]);
    let m5 = after(m4, steps[4]);
}

proof fn lemma_down_gradient(plan: MoePlan, counts: Seq<usize>, memory: Memory, k: int)
    requires
        plan.wf(),
        counts.len() == plan.experts,
        plan.routed == total(counts, plan.experts as int),
        0 <= k <= plan.experts,
        backward_base(plan, memory),
        memory.holds(Buffer::GradExpertOutput, plan.gathered as int),
        is_open(memory, Buffer::GradExpertHidden, plan.expert_hidden as int),
    ensures
        runs(memory, down_gradient_steps(plan, counts, k)),
        is_filled(
            plan,
            counts,
            k,
            after_all(memory, down_gradient_steps(plan, counts, k)),
            Buffer::GradExpertHidden,
            plan.width as int,
        ),
        keeps(
            memory,
            after_all(memory, down_gradient_steps(plan, counts, k)),
            Buffer::GradExpertHidden,
            Buffer::GradExpertHidden,
        ),
    decreases k,
{
    if k > 0 {
        let e = k - 1;
        let before = down_gradient_steps(plan, counts, e);
        let now = after_all(memory, before);
        lemma_down_gradient(plan, counts, memory, e);
        if counts[e] > 0 {
            lemma_size(plan, counts, e);
            lemma_run(plan, counts, e, plan.d_model as int);
            lemma_run(plan, counts, e, plan.width as int);
            let steps = down_gradient_step(plan, counts, e);
            let upstream = tile(
                Buffer::GradExpertOutput,
                (total(counts, e) * plan.d_model) as usize,
                plan.d_model,
            );
            assert(memory.holds(Buffer::ExpertDownWeight(e as usize), plan.weight as int));
            assert(memory.holds(Buffer::ExpertDownGrad(e as usize), plan.weight as int));
            assert(memory.holds(Buffer::ExpertHidden, plan.expert_hidden as int));
            assert(plan.d_model * plan.width == plan.width * plan.d_model) by (nonlinear_arith);
            lemma_rows(
                plan,
                counts,
                e,
                now,
                Kind::Plain,
                plan.width,
                plan.d_model,
                upstream,
                tile(Buffer::ExpertDownWeight(e as usize), 0, plan.width),
                tile(
                    Buffer::GradExpertHidden,
                    (total(counts, e) * plan.width) as usize,
                    plan.width,
                ),
            );
            lemma_single(now, steps[0]);
            let middle = after(now, steps[0]);
            lemma_weight_gradient(
                middle,
                upstream,
                tile(Buffer::ExpertHidden, (total(counts, e) * plan.width) as usize, plan.width),
                tile(Buffer::ExpertDownGrad(e as usize), 0, plan.width),
                plan.d_model,
                plan.width,
                counts[e],
                true,
            );
            lemma_kept(middle, steps[1]);
            lemma_single(middle, steps[1]);
            lemma_concat(now, seq![steps[0]], seq![steps[1]]);
            assert(seq![steps[0]] + seq![steps[1]] =~= steps);
            lemma_concat(memory, before, steps);
        }
    } else {
        assert(total(counts, 0) == 0);
        assert(0 * plan.width == 0);
    }
}

/// The gradients of one expert's rows and packed weights.
proof fn lemma_gate_up_gradient_step(plan: MoePlan, counts: Seq<usize>, now: Memory, e: int)
    requires
        plan.wf(),
        counts.len() == plan.experts,
        plan.routed == total(counts, plan.experts as int),
        0 <= e < plan.experts,
        counts[e] > 0,
        backward_base(plan, now),
        now.holds(Buffer::GradExpertGateUp, plan.expert_gate_up as int),
        is_filled(plan, counts, e, now, Buffer::GradExpertInput, plan.d_model as int),
    ensures
        runs(now, gate_up_gradient_step(plan, counts, e)),
        is_filled(
            plan,
            counts,
            e + 1,
            after_all(now, gate_up_gradient_step(plan, counts, e)),
            Buffer::GradExpertInput,
            plan.d_model as int,
        ),
        keeps(
            now,
            after_all(now, gate_up_gradient_step(plan, counts, e)),
            Buffer::GradExpertInput,
            Buffer::Scratch,
        ),
{
    let steps = gate_up_gradient_step(plan, counts, e);
    let m0 = now;
    lemma_groups_apart(counts, e, plan.experts as int);
    lemma_size(plan, counts, e);
    lemma_run(plan, counts, e, plan.d_model as int);
    lemma_run(plan, counts, e, plan.double as int);
    lemma_packed(plan, e);
    let upstream = tile(
        Buffer::GradExpertGateUp,
        (total(counts, e) * plan.double) as usize,
        plan.double,
    );
    assert(now.holds(Buffer::ExpertGateGrad(e as usize), plan.weight as int));
    assert(now.holds(Buffer::ExpertUpGrad(e as usize), plan.weight as int));
    assert(plan.d_model * plan.double == plan.double * plan.d_model) by (nonlinear_arith);
    lemma_rows(
        plan,
        counts,
        e,
        now,
        Kind::Plain,
        plan.d_model,
        plan.double,
        upstream,
        tile(Buffer::ExpertWeights, (e * plan.packed_stride) as usize, plan.d_model),
        tile(Buffer::GradExpertInput, (total(counts, e) * plan.d_model) as usize, plan.d_model),
    );
    lemma_one_more(m0, steps, 0, m0);
    let m1 = after(m0, steps[0]);
    lemma_one_more(m0, steps, 1, m1);
    lemma_kept(m1, steps[1]);
    let m2 = after(m1, steps[1]);
    lemma_weight_gradient(
        m2,
        upstream,
        tile(Buffer::Gathered, (total(counts, e) * plan.d_model) as usize, plan.d_model),
        tile(Buffer::Scratch, 0, plan.d_model),
        plan.double,
        plan.d_model,
        counts[e],
        false,
    );
    lemma_one_more(m0, steps, 2, m2);
    lemma_kept(m2, steps[2]);
    let m3 = after(m2, steps[2]);
    lemma_one_more(m0, steps, 3, m3);
    lemma_kept(m3, steps[3]);
    let m4 = after(m3, steps[3]);
    lemma_one_more(m0, steps, 4, m4);
    lemma_kept(m4, steps[4]);
}

proof fn lemma_gate_up_gradient(plan: MoePlan, counts: Seq<usize>, memory: Memory, k: int)
    requires
        plan.wf(),
        counts.len() == plan.experts,
        plan.routed == total(counts, plan.experts as int),
        0 <= k <= plan.experts,
        backward_base(plan, memory),
        memory.holds(Buffer::GradExpertGateUp, plan.expert_gate_up as int),
        is_open(memory, Buffer::GradExpertInput, plan.gathered as int),
    ensures
        runs(memory, gate_up_gradient_steps(plan, counts, k)),
        is_filled(
            plan,
            counts,
            k,
            after_all(memory, gate_up_gradient_steps(plan, counts, k)),
            Buffer::GradExpertInput,
            plan.d_model as int,
        ),
        keeps(
            memory,
            after_all(memory, gate_up_gradient_steps(plan, counts, k)),
            Buffer::GradExpertInput,
            Buffer::Scratch,
        ),
    decreases k,
{
    if k > 0 {
        let e = k - 1;
        let before = gate_up_gradient_steps(plan, counts, e);
        let now = after_all(memory, before);
        lemma_gate_up_gradient(plan, counts, memory, e);
        if counts[e] > 0 {
            lemma_backward_kept(plan, memory, now, Buffer::GradExpertInput, Buffer::Scratch);
            lemma_gate_up_gradient_step(plan, counts, now, e);
            lemma_concat(memory, before, gate_up_gradient_step(plan, counts, e));
        }
    } else {
        assert(total(counts, 0) == 0);
        assert(0 * plan.d_model == 0);
    }
}

/// What the backward pass reads is still there where only other buffers
/// changed.
proof fn lemma_backward_kept(plan: MoePlan, before: Memory, end: Memory, b: Buffer, c: Buffer)
    requires
        backward_base(plan, before),
        keeps(before, end, b, c),
        b == Buffer::GradExpertHidden || b == Buffer::GradExpertInput,
        c == Buffer::GradExpertHidden || c == Buffer::Scratch,
    ensures
        backward_base(plan, end),
{
    assert forall|e: usize| e < plan.experts implies #[trigger] end.holds(
        Buffer::ExpertGateGrad(e),
        plan.weight as int,
    ) by {
        assert(before.holds(Buffer::ExpertGateGrad(e), plan.weight as int));
    }
    assert forall|e: usize| e < plan.experts implies #[trigger] end.holds(
        Buffer::ExpertUpGrad(e),
        plan.weight as int,
    ) by {
        assert(before.holds(Buffer::ExpertUpGrad(e), plan.weight as int));
    }
    assert forall|e: usize| e < plan.experts implies #[trigger] end.holds(
        Buffer::ExpertDownGrad(e),
        plan.weight as int,
    ) by {
        assert(before.holds(Buffer::ExpertDownGrad(e), plan.weight as int));
    }
    lemma_experts_kept(plan, before, end, b, c);
}

proof fn lemma_experts_kept(plan: MoePlan, before: Memory, end: Memory, b: Buffer, c: Buffer)
    requires
        has_experts(plan, before),
        keeps(before, end, b, c),
        !(b is ExpertGateWeight || b is ExpertUpWeight || b is ExpertDownWeight),
        !(c is ExpertGateWeight || c is ExpertUpWeight || c is ExpertDownWeight),
    ensures
        has_experts(plan, end),
{
    assert forall|e: usize| e < plan.experts implies #[trigger] end.holds(
        Buffer::ExpertGateWeight(e),
        plan.weight as int,
    ) by {
        assert(before.holds(Buffer::ExpertGateWeight(e), plan.weight as int));
    }
    assert forall|e: usize| e < plan.experts implies #[trigger] end.holds(
        Buffer::ExpertUpWeight(e),
        plan.weight as int,
    ) by {
        assert(before.holds(Buffer::ExpertUpWeight(e), plan.weight as int));
    }
    assert forall|e: usize| e < plan.experts implies #[trigger] end.holds(
        Buffer::ExpertDownWeight(e),
        plan.weight as int,
    ) by {
        assert(before.holds(Buffer::ExpertDownWeight(e), plan.weight as int));
    }
}

/// No steps at all.
proof fn lemma_nothing(memory: Memory)
    ensures
        runs(memory, Seq::<Step>::empty()),
        after_all(memory, Seq::<Step>::empty()) == memory,
{
}

// -- Laws ----------------------------------------------------------------------

/// The router never leaves its buffers and reads only what was written; it
/// leaves the choice of experts and what the losses need.
pub proof fn law_router_runs(plan: MoePlan, memory: Memory)
    requires
        plan.wf(),
        has_input(plan, memory),
    ensures
        runs(memory, router_steps(plan)),
        has_input(plan, after_all(memory, router_steps(plan))),
        has_router(plan, after_all(memory, router_steps(plan))),
{
    lemma_router(plan, memory);
}

/// Whether a shared expert, where there is one, runs over the same rows.
pub open spec fn is_shared(plan: MoePlan, shared: Option<GatedPlan>) -> bool {
    match shared {
        Some(gated) => {
            &&& gated.wf()
            &&& gated.stream == plan.stream
            &&& gated.input == Buffer::FeedForwardNormed
            &&& gated.output == Buffer::Output
            &&& gated.grad_output == Buffer::GradOutput
            &&& gated.grad_input == Buffer::GradFeedForward
        },
        None => true,
    }
}

/// The experts never leave their buffers and read only what was written: the
/// runs of rows that the experts write, one after another, are all routed
/// rows, so that nothing needs to be cleared first.
pub proof fn law_forward_runs(
    plan: MoePlan,
    counts: Seq<usize>,
    shared: Option<GatedPlan>,
    memory: Memory,
)
    requires
        plan.wf(),
        counts.len() == plan.experts,
        plan.routed == total(counts, plan.experts as int),
        is_shared(plan, shared),
        base(plan, memory),
        match shared {
            Some(gated) => gpu_feed_forward::has_weights(gated, memory),
            None => true,
        },
    ensures
        runs(memory, forward_steps(plan, counts, shared)),
{
    let n = plan.experts as int;
    let s5 = room_steps(plan) + gather_steps(plan) + packing_steps(plan) + gate_up_steps(
        plan,
        counts,
        n,
    ) + activated_steps(plan);
    lemma_projected(plan, counts, memory);
    let m5 = after_all(memory, s5);
    let s6 = down_steps(plan, counts, n);
    lemma_down(plan, counts, m5, n);
    lemma_concat(memory, s5, s6);
    let m6 = after_all(m5, s6);
    lemma_experts_kept(plan, m5, m6, Buffer::ExpertOutput, Buffer::ExpertOutput);
    assert(is_activated(plan, m6));
    lemma_shared_kept(memory, m5, m6);
    let s7 = scatter_steps(plan);
    if plan.routed > 0 {
        lemma_scattered(plan, m6);
    } else {
        lemma_nothing(m6);
    }
    lemma_concat(memory, s5 + s6, s7);
    let m7 = after_all(m6, s7);
    let s8 = shared_steps(shared);
    match shared {
        Some(gated) => {
            assert(gpu_feed_forward::has_weights(gated, m7));
            gpu_feed_forward::law_forward_runs(gated, m7);
        },
        None => lemma_nothing(m7),
    }
    lemma_concat(memory, s5 + s6 + s7, s8);
    let m8 = after_all(m7, s8);
    let s9 = statistics_steps(plan);
    lemma_statistics(plan, m8);
    lemma_concat(memory, s5 + s6 + s7 + s8, s9);
}

/// What the experts have made of their rows so far.
spec fn is_activated(plan: MoePlan, memory: Memory) -> bool {
    &&& base(plan, memory)
    &&& memory.holds(Buffer::ExpertWeights, plan.packed as int)
    &&& memory.holds(Buffer::ExpertHidden, plan.expert_hidden as int)
    &&& plan.routed > 0 ==> memory.holds(Buffer::Gathered, plan.gathered as int)
    &&& plan.routed > 0 ==> memory.holds(Buffer::ExpertGateUp, plan.expert_gate_up as int)
}

proof fn lemma_shared_kept(first: Memory, before: Memory, end: Memory)
    requires
        keeps_shared(first, before),
        keeps(before, end, Buffer::ExpertOutput, Buffer::ExpertOutput),
    ensures
        keeps_shared(first, end),
{
    assert forall|x: Buffer, len: int|
        (x == Buffer::GateWeight || x == Buffer::UpWeight || x == Buffer::DownWeight)
            && first.holds(x, len) implies #[trigger] end.holds(x, len) by {
        assert(before.holds(x, len));
    }
}

/// The packed projections of the experts, and their activation.
proof fn lemma_projected(plan: MoePlan, counts: Seq<usize>, memory: Memory)
    requires
        plan.wf(),
        counts.len() == plan.experts,
        plan.routed == total(counts, plan.experts as int),
        base(plan, memory),
    ensures
        ({
            let steps = room_steps(plan) + gather_steps(plan) + packing_steps(plan) + gate_up_steps(
                plan,
                counts,
                plan.experts as int,
            ) + activated_steps(plan);
            &&& runs(memory, steps)
            &&& is_activated(plan, after_all(memory, steps))
            &&& is_open(after_all(memory, steps), Buffer::ExpertOutput, plan.gathered as int)
            &&& keeps_shared(memory, after_all(memory, steps))
        }),
{
    let n = plan.experts as int;
    let s1 = room_steps(plan);
    lemma_room(plan, memory);
    let m1 = after_all(memory, s1);
    let s2 = gather_steps(plan);
    if plan.routed > 0 {
        lemma_gathered(plan, m1);
    } else {
        lemma_nothing(m1);
    }
    lemma_concat(memory, s1, s2);
    let m2 = after_all(m1, s2);
    let s3 = packing_steps(plan);
    lemma_packing(plan, m2);
    lemma_concat(memory, s1 + s2, s3);
    let m3 = after_all(m2, s3);
    let s4 = gate_up_steps(plan, counts, n);
    lemma_gate_up(plan, counts, m3, n);
    lemma_concat(memory, s1 + s2 + s3, s4);
    let m4 = after_all(m3, s4);
    lemma_experts_kept(plan, m3, m4, Buffer::ExpertGateUp, Buffer::ExpertGateUp);
    let s5 = activated_steps(plan);
    lemma_activated(plan, m4);
    lemma_concat(memory, s1 + s2 + s3 + s4, s5);
    let m5 = after_all(m4, s5);
    assert forall|x: Buffer, len: int|
        (x == Buffer::GateWeight || x == Buffer::UpWeight || x == Buffer::DownWeight)
            && memory.holds(x, len) implies #[trigger] m5.holds(x, len) by {
        assert(m1.holds(x, len));
        assert(m2.holds(x, len));
        assert(m3.holds(x, len));
        assert(m4.holds(x, len));
    }
}

/// The backward pass never leaves its buffers and reads only what was written.
/// It leaves the gradient of its input.
pub proof fn law_backward_runs(
    plan: MoePlan,
    counts: Seq<usize>,
    shared: Option<GatedPlan>,
    balance: bool,
    memory: Memory,
)
    requires
        plan.wf(),
        counts.len() == plan.experts,
        plan.routed == total(counts, plan.experts as int),
        is_shared(plan, shared),
        backward_base(plan, memory),
        balance ==> memory.holds(Buffer::Loads, plan.experts as int),
        match shared {
            Some(gated) => gpu_feed_forward::is_cached(gated, memory)
                && gpu_feed_forward::has_gradients(gated, memory),
            None => true,
        },
    ensures
        runs(memory, backward_steps(plan, counts, shared, balance)),
        after_all(memory, backward_steps(plan, counts, shared, balance)).holds(
            Buffer::GradFeedForward,
            plan.stream as int,
        ),
{
    let s1 = shared_gradient_steps(shared);
    match shared {
        Some(gated) => {
            gpu_feed_forward::law_backward_runs(gated, memory);
            lemma_outside_kept(plan, memory, after_all(memory, s1));
        },
        None => lemma_nothing(memory),
    }
    let m1 = after_all(memory, s1);
    let s2 = gate_gradient_steps(plan);
    lemma_gate_gradient(plan, m1);
    lemma_concat(memory, s1, s2);
    let m2 = after_all(m1, s2);
    let s3 = experts_gradient_steps(plan, counts);
    lemma_experts_gradient(plan, counts, m2);
    lemma_concat(memory, s1 + s2, s3);
    let m3 = after_all(m2, s3);
    let s4 = probabilities_gradient_steps(plan);
    lemma_probabilities_gradient(plan, m3);
    lemma_concat(memory, s1 + s2 + s3, s4);
    let m4 = after_all(m3, s4);
    let s5 = balance_steps(plan, balance);
    if balance {
        lemma_balance_gradient(plan, m4);
    } else {
        lemma_nothing(m4);
    }
    lemma_concat(memory, s1 + s2 + s3 + s4, s5);
    let m5 = after_all(m4, s5);
    let s6 = router_gradient_steps(plan);
    lemma_router_gradient(plan, m5);
    lemma_concat(memory, s1 + s2 + s3 + s4 + s5, s6);
}

proof fn lemma_experts_gradient(plan: MoePlan, counts: Seq<usize>, memory: Memory)
    requires
        plan.wf(),
        counts.len() == plan.experts,
        plan.routed == total(counts, plan.experts as int),
        backward_base(plan, memory),
        memory.holds(Buffer::GradGates, plan.slots as int),
    ensures
        runs(memory, experts_gradient_steps(plan, counts)),
        backward_base(plan, after_all(memory, experts_gradient_steps(plan, counts))),
        after_all(memory, experts_gradient_steps(plan, counts)).holds(
            Buffer::GradGates,
            plan.slots as int,
        ),
        keeps_loads(memory, after_all(memory, experts_gradient_steps(plan, counts))),
{
    let n = plan.experts as int;
    if plan.routed > 0 {
        let s1 = upstream_steps(plan);
        lemma_upstream(plan, memory);
        let m1 = after_all(memory, s1);
        let s2 = down_gradient_steps(plan, counts, n);
        lemma_down_gradient(plan, counts, m1, n);
        lemma_concat(memory, s1, s2);
        let m2 = after_all(m1, s2);
        lemma_backward_kept(plan, m1, m2, Buffer::GradExpertHidden, Buffer::GradExpertHidden);
        let s3 = deactivated_steps(plan);
        lemma_deactivated(plan, m2);
        lemma_concat(memory, s1 + s2, s3);
        let m3 = after_all(m2, s3);
        let s4 = gate_up_gradient_steps(plan, counts, n);
        lemma_gate_up_gradient(plan, counts, m3, n);
        lemma_concat(memory, s1 + s2 + s3, s4);
        let m4 = after_all(m3, s4);
        lemma_backward_kept(plan, m3, m4, Buffer::GradExpertInput, Buffer::Scratch);
        let s5 = downstream_steps(plan);
        lemma_downstream(plan, m4);
        lemma_concat(memory, s1 + s2 + s3 + s4, s5);
        assert forall|len: int| memory.holds(
            Buffer::Loads,
            len,
        ) implies #[trigger] after_all(m4, s5).holds(Buffer::Loads, len) by {
            assert(m1.holds(Buffer::Loads, len));
            assert(m2.holds(Buffer::Loads, len));
            assert(m3.holds(Buffer::Loads, len));
            assert(m4.holds(Buffer::Loads, len));
        }
    } else {
        lemma_nothing(memory);
    }
}

/// Whether the loads that were there still are.
pub open spec fn keeps_loads(before: Memory, end: Memory) -> bool {
    forall|len: int|
        before.holds(Buffer::Loads, len) ==> #[trigger] end.holds(Buffer::Loads, len)
}

/// A shared expert's backward pass leaves what the routed one reads.
proof fn lemma_outside_kept(plan: MoePlan, before: Memory, end: Memory)
    requires
        backward_base(plan, before),
        gpu_feed_forward::leaves_others(before, end),
    ensures
        backward_base(plan, end),
        keeps_loads(before, end),
{
    assert forall|e: usize| e < plan.experts implies #[trigger] end.holds(
        Buffer::ExpertGateGrad(e),
        plan.weight as int,
    ) by {
        assert(before.holds(Buffer::ExpertGateGrad(e), plan.weight as int));
        assert(is_outside(Buffer::ExpertGateGrad(e)));
    }
    assert forall|e: usize| e < plan.experts implies #[trigger] end.holds(
        Buffer::ExpertUpGrad(e),
        plan.weight as int,
    ) by {
        assert(before.holds(Buffer::ExpertUpGrad(e), plan.weight as int));
    }
    assert forall|e: usize| e < plan.experts implies #[trigger] end.holds(
        Buffer::ExpertDownGrad(e),
        plan.weight as int,
    ) by {
        assert(before.holds(Buffer::ExpertDownGrad(e), plan.weight as int));
    }
    assert forall|e: usize| e < plan.experts implies #[trigger] end.holds(
        Buffer::ExpertGateWeight(e),
        plan.weight as int,
    ) by {
        assert(before.holds(Buffer::ExpertGateWeight(e), plan.weight as int));
    }
    assert forall|e: usize| e < plan.experts implies #[trigger] end.holds(
        Buffer::ExpertUpWeight(e),
        plan.weight as int,
    ) by {
        assert(before.holds(Buffer::ExpertUpWeight(e), plan.weight as int));
    }
    assert forall|e: usize| e < plan.experts implies #[trigger] end.holds(
        Buffer::ExpertDownWeight(e),
        plan.weight as int,
    ) by {
        assert(before.holds(Buffer::ExpertDownWeight(e), plan.weight as int));
    }
}

} // verus!
