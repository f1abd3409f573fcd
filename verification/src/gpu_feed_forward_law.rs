//! What a gated feed-forward computes: `down(silu(gate(x)) * up(x))`, added to
//! its output, and the gradients that this gives its input and its weights.
use crate::device::{Buffer, Kernel};
use crate::device_law::{
    args1, args2, input_gradient, linear, made, new_part, run, run_to, size, weight_step, whole,
    with_linear, with_part, Device, Values,
};
use crate::gpu_feed_forward::{backward_steps, forward_steps, is_outside, GatedPlan};
use vstd::prelude::*;

verus! {

/// The weights of a gated feed-forward, and its sizes: so many rows of `inner`
/// features, through `width` gates.
pub ghost struct Gated<V> {
    pub gate: V,
    pub up: V,
    pub down: V,
    pub rows: int,
    pub inner: int,
    pub width: int,
}

/// The weights a feed-forward finds in its buffers.
pub open spec fn gated_in<V>(plan: GatedPlan, values: Values<V>) -> Gated<V> {
    Gated {
        gate: values[Buffer::GateWeight],
        up: values[Buffer::UpWeight],
        down: values[Buffer::DownWeight],
        rows: plan.rows as int,
        inner: plan.inner as int,
        width: plan.width as int,
    }
}

/// The two weights of the first projection, one after the other.
pub open spec fn pair<V>(d: Device<V>, g: Gated<V>) -> V {
    made(
        d,
        Kernel::Pack,
        size(1, 2 * g.width * g.inner),
        args2(whole(g.gate, g.width * g.inner), whole(g.up, g.width * g.inner)),
        new_part(d, 2 * g.width * g.inner),
    )
}

/// Gate and up projections of rows.
pub open spec fn gate_up<V>(d: Device<V>, g: Gated<V>, x: V) -> V {
    linear(d, x, pair(d, g), g.rows, 2 * g.width, g.inner)
}

/// The gated activation of rows.
pub open spec fn activation<V>(d: Device<V>, g: Gated<V>, x: V) -> V {
    made(
        d,
        Kernel::SwiGlu,
        size(g.rows, g.width),
        args1(whole(gate_up(d, g, x), g.rows * (2 * g.width))),
        new_part(d, g.rows * g.width),
    )
}

/// What a feed-forward makes of rows, added to what there is.
pub open spec fn with_feed_forward<V>(d: Device<V>, g: Gated<V>, to: V, x: V) -> V {
    with_linear(d, to, activation(d, g, x), g.down, g.rows, g.inner, g.width)
}

/// The forward pass of a feed-forward adds what its three weights make of its
/// input to its output, and keeps the projections and activations that its
/// gradients need; of the buffers that are not its own it changes no other.
pub proof fn law_forward_is_the_formula<V>(d: Device<V>, values: Values<V>, plan: GatedPlan)
    requires
        plan.wf(),
    ensures
        ({
            let after = run(d, values, forward_steps(plan));
            let g = gated_in(plan, values);
            let x = values[plan.input];
            &&& after[plan.output] == with_feed_forward(d, g, values[plan.output], x)
            &&& after[Buffer::GateUpWeights] == pair(d, g)
            &&& after[Buffer::GateUp] == gate_up(d, g, x)
            &&& after[Buffer::Hidden] == activation(d, g, x)
            &&& after[Buffer::DownWeight] == g.down
            &&& forall|b: Buffer|
                is_outside(b) && b != plan.output ==> #[trigger] after[b] == values[b]
        }),
{
    lemma_sizes(plan);
    reveal_with_fuel(run_to, 8);
}

proof fn lemma_sizes(plan: GatedPlan)
    requires
        plan.wf(),
    ensures
        plan.weight == plan.width * plan.inner,
        plan.packed == 2 * plan.width * plan.inner,
        plan.gate_up == plan.rows * (2 * plan.width),
        plan.hidden == plan.rows * plan.width,
        plan.stream == plan.rows * plan.inner,
        plan.inner * plan.width == plan.width * plan.inner,
{
    assert(plan.inner * plan.width == plan.width * plan.inner) by (nonlinear_arith);
}

// -- Gradients -------------------------------------------------------------------

/// What the forward pass kept.
pub ghost struct Kept<V> {
    pub pair: V,
    pub gate_up: V,
    pub activation: V,
}

/// What the forward pass left in the buffers.
pub open spec fn kept_in<V>(values: Values<V>) -> Kept<V> {
    Kept {
        pair: values[Buffer::GateUpWeights],
        gate_up: values[Buffer::GateUp],
        activation: values[Buffer::Hidden],
    }
}

/// The gradient of the gated activations.
pub open spec fn activation_gradient<V>(d: Device<V>, g: Gated<V>, upstream: V) -> V {
    input_gradient(
        d,
        (d.fresh)(g.rows * g.width),
        false,
        upstream,
        g.down,
        g.rows,
        g.width,
        g.inner,
    )
}

/// The gradient of both first projections.
pub open spec fn gate_up_gradient<V>(d: Device<V>, g: Gated<V>, kept: Kept<V>, upstream: V) -> V {
    made(
        d,
        Kernel::SwiGluBackward,
        size(g.rows, g.width),
        args2(
            whole(kept.gate_up, g.rows * (2 * g.width)),
            whole(activation_gradient(d, g, upstream), g.rows * g.width),
        ),
        new_part(d, g.rows * (2 * g.width)),
    )
}

/// The gradient of the two packed weights.
pub open spec fn pair_gradient<V>(
    d: Device<V>,
    g: Gated<V>,
    kept: Kept<V>,
    upstream: V,
    x: V,
) -> V {
    weight_step(
        d,
        (d.fresh)(2 * g.width * g.inner),
        false,
        gate_up_gradient(d, g, kept, upstream),
        x,
        2 * g.width,
        g.inner,
        g.rows,
    )
}

/// The backward pass of a feed-forward takes the gradient of its output back
/// through the down weight, the activation and the two first weights, into the
/// gradient of its input, and adds to the gradient of each weight what that
/// weight's own inputs and outputs give it: the down weight's from the
/// activations, those of the two first weights from
/// the two halves of the packed gradient, in their order.
pub proof fn law_backward_is_the_gradient<V>(d: Device<V>, values: Values<V>, plan: GatedPlan)
    requires
        plan.wf(),
    ensures
        ({
            let after = run(d, values, backward_steps(plan));
            let g = gated_in(plan, values);
            let kept = kept_in(values);
            let (upstream, x) = (values[plan.grad_output], values[plan.input]);
            let weight = g.width * g.inner;
            let packed = pair_gradient(d, g, kept, upstream, x);
            &&& after[plan.grad_input] == input_gradient(
                d,
                values[plan.grad_input],
                false,
                gate_up_gradient(d, g, kept, upstream),
                kept.pair,
                g.rows,
                g.inner,
                2 * g.width,
            )
            &&& after[Buffer::DownGrad] == weight_step(
                d,
                values[Buffer::DownGrad],
                true,
                upstream,
                kept.activation,
                g.inner,
                g.width,
                g.rows,
            )
            &&& after[Buffer::GateGrad] == with_part(
                d,
                values[Buffer::GateGrad],
                packed,
                0,
                weight,
            )
            &&& after[Buffer::UpGrad] == with_part(
                d,
                values[Buffer::UpGrad],
                packed,
                weight,
                weight,
            )
            &&& forall|b: Buffer|
                is_outside(b) && b != plan.grad_input ==> #[trigger] after[b] == values[b]
        }),
{
    lemma_sizes(plan);
    reveal_with_fuel(run_to, 11);
}

} // verus!
