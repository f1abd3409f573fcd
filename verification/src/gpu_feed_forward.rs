//! A gated feed-forward on the device: `down(silu(gate(x)) * up(x))`.
//!
//! Gate and up are one projection at twice the width, against their two
//! weights packed into one buffer.
use crate::device::{
    add_span, after, after_all, pack, project, project_back, reads2, reserve, runs, start_of,
    swiglu, swiglu_backward, tile, weight_gradient, Buffer, Memory, Step,
};
use crate::tiles::{lemma_one_more, lemma_project, lemma_project_back, lemma_weight_gradient};
use vstd::prelude::*;

verus! {

/// The sizes of a pass, and the buffers it reads from and adds to.
#[derive(Clone, Copy, Debug, PartialEq, Eq, Structural)]
pub struct GatedPlan {
    pub rows: usize,
    pub inner: usize,
    pub width: usize,
    /// Gate and up together.
    pub double: usize,
    pub input: Buffer,
    pub output: Buffer,
    pub grad_output: Buffer,
    pub grad_input: Buffer,
    /// How long the buffers are.
    pub stream: usize,
    pub gate_up: usize,
    pub hidden: usize,
    pub weight: usize,
    pub packed: usize,
}

/// Whether a buffer is none of those a feed-forward keeps for itself.
pub open spec fn is_outside(buffer: Buffer) -> bool {
    match buffer {
        Buffer::GateWeight
        | Buffer::UpWeight
        | Buffer::DownWeight
        | Buffer::GateGrad
        | Buffer::UpGrad
        | Buffer::DownGrad
        | Buffer::GateUpWeights
        | Buffer::GateUp
        | Buffer::GradGateUp
        | Buffer::Hidden
        | Buffer::GradHidden
        | Buffer::Scratch
        | Buffer::Nothing => false,
        _ => true,
    }
}

impl GatedPlan {
    /// Whether the sizes go together and the buffers are different ones.
    pub open spec fn wf(&self) -> bool {
        &&& self.double == 2 * self.width
        &&& self.stream == self.rows * self.inner
        &&& self.gate_up == self.rows * self.double
        &&& self.hidden == self.rows * self.width
        &&& self.weight == self.width * self.inner
        &&& self.packed == self.double * self.inner
        &&& is_outside(self.input)
        &&& is_outside(self.output)
        &&& is_outside(self.grad_output)
        &&& is_outside(self.grad_input)
        &&& self.input != self.output
        &&& self.grad_input != self.grad_output
        &&& self.grad_input != self.input
    }

    /// The plan of a feed-forward over some rows.
    pub fn new(
        rows: usize,
        inner: usize,
        width: usize,
        input: Buffer,
        output: Buffer,
        grad_output: Buffer,
        grad_input: Buffer,
    ) -> (plan: GatedPlan)
        requires
            is_outside(input),
            is_outside(output),
            is_outside(grad_output),
            is_outside(grad_input),
            input != output,
            grad_input != grad_output,
            grad_input != input,
            2 * width <= usize::MAX,
            rows * inner <= usize::MAX,
            rows * (2 * width) <= usize::MAX,
            2 * width * inner <= usize::MAX,
        ensures
            plan.wf(),
            plan.rows == rows,
            plan.inner == inner,
            plan.width == width,
            plan.input == input,
            plan.output == output,
            plan.grad_output == grad_output,
            plan.grad_input == grad_input,
    {
        proof {
            lemma_double(width as int, inner as int);
            lemma_double(width as int, rows as int);
            assert(0 <= width * inner && 0 <= width * rows && rows * (2 * width) == 2 * width
                * rows && rows * width == width * rows) by (nonlinear_arith);
        }
        let double: usize = 2 * width;
        GatedPlan {
            rows,
            inner,
            width,
            double,
            input,
            output,
            grad_output,
            grad_input,
            stream: rows * inner,
            gate_up: rows * double,
            hidden: rows * width,
            weight: width * inner,
            packed: double * inner,
        }
    }
}

proof fn lemma_double(width: int, features: int)
    ensures
        2 * width * features == width * features + width * features,
{
    assert(2 * width * features == width * features + width * features) by (nonlinear_arith);
}

proof fn lemma_swap(a: int, b: int)
    ensures
        a * b == b * a,
{
    assert(a * b == b * a) by (nonlinear_arith);
}

/// The forward pass, step by step. What it makes is added to the output.
pub open spec fn forward_steps(plan: GatedPlan) -> Seq<Step> {
    seq![
        reserve(Buffer::GateUpWeights, plan.packed),
        pack(
            reads2(
                start_of(Buffer::GateWeight, plan.weight),
                start_of(Buffer::UpWeight, plan.weight),
            ),
            Buffer::GateUpWeights,
            plan.packed,
        ),
        reserve(Buffer::GateUp, plan.gate_up),
        project(
            tile(plan.input, 0, plan.inner),
            tile(Buffer::GateUpWeights, 0, plan.inner),
            tile(Buffer::GateUp, 0, plan.double),
            plan.rows,
            plan.double,
            plan.inner,
            false,
        ),
        reserve(Buffer::Hidden, plan.hidden),
        swiglu(Buffer::GateUp, Buffer::Hidden, plan.rows, plan.width, plan.gate_up, plan.hidden),
        project(
            tile(Buffer::Hidden, 0, plan.width),
            tile(Buffer::DownWeight, 0, plan.width),
            tile(plan.output, 0, plan.inner),
            plan.rows,
            plan.inner,
            plan.width,
            true,
        ),
    ]
}

/// The forward pass.
pub fn forward_swiglu(plan: &GatedPlan) -> (steps: Vec<Step>)
    ensures
        steps@ == forward_steps(*plan),
{
    let steps: Vec<Step> = vec![
        reserve(Buffer::GateUpWeights, plan.packed),
        pack(
            reads2(
                start_of(Buffer::GateWeight, plan.weight),
                start_of(Buffer::UpWeight, plan.weight),
            ),
            Buffer::GateUpWeights,
            plan.packed,
        ),
        reserve(Buffer::GateUp, plan.gate_up),
        project(
            tile(plan.input, 0, plan.inner),
            tile(Buffer::GateUpWeights, 0, plan.inner),
            tile(Buffer::GateUp, 0, plan.double),
            plan.rows,
            plan.double,
            plan.inner,
            false,
        ),
        reserve(Buffer::Hidden, plan.hidden),
        swiglu(Buffer::GateUp, Buffer::Hidden, plan.rows, plan.width, plan.gate_up, plan.hidden),
        project(
            tile(Buffer::Hidden, 0, plan.width),
            tile(Buffer::DownWeight, 0, plan.width),
            tile(plan.output, 0, plan.inner),
            plan.rows,
            plan.inner,
            plan.width,
            true,
        ),
    ];
    assert(steps@ =~= forward_steps(*plan));
    steps
}

/// The backward pass, step by step. The gradient of the input is written, not
/// added to, which lets a caller leave its buffer as it was reserved.
pub open spec fn backward_steps(plan: GatedPlan) -> Seq<Step> {
    seq![
        reserve(Buffer::GradHidden, plan.hidden),
        project_back(
            tile(plan.grad_output, 0, plan.inner),
            tile(Buffer::DownWeight, 0, plan.width),
            tile(Buffer::GradHidden, 0, plan.width),
            plan.rows,
            plan.width,
            plan.inner,
            false,
        ),
        weight_gradient(
            tile(plan.grad_output, 0, plan.inner),
            tile(Buffer::Hidden, 0, plan.width),
            tile(Buffer::DownGrad, 0, plan.width),
            plan.inner,
            plan.width,
            plan.rows,
            true,
        ),
        reserve(Buffer::GradGateUp, plan.gate_up),
        swiglu_backward(
            Buffer::GateUp,
            Buffer::GradHidden,
            Buffer::GradGateUp,
            plan.rows,
            plan.width,
            plan.gate_up,
            plan.hidden,
        ),
        project_back(
            tile(Buffer::GradGateUp, 0, plan.double),
            tile(Buffer::GateUpWeights, 0, plan.inner),
            tile(plan.grad_input, 0, plan.inner),
            plan.rows,
            plan.inner,
            plan.double,
            false,
        ),
        reserve(Buffer::Scratch, plan.packed),
        weight_gradient(
            tile(Buffer::GradGateUp, 0, plan.double),
            tile(plan.input, 0, plan.inner),
            tile(Buffer::Scratch, 0, plan.inner),
            plan.double,
            plan.inner,
            plan.rows,
            false,
        ),
        add_span(Buffer::GateGrad, Buffer::Scratch, 0, plan.weight),
        add_span(Buffer::UpGrad, Buffer::Scratch, plan.weight, plan.weight),
    ]
}

/// The backward pass.
pub fn backward_swiglu(plan: &GatedPlan) -> (steps: Vec<Step>)
    ensures
        steps@ == backward_steps(*plan),
{
    let steps: Vec<Step> = vec![
        reserve(Buffer::GradHidden, plan.hidden),
        project_back(
            tile(plan.grad_output, 0, plan.inner),
            tile(Buffer::DownWeight, 0, plan.width),
            tile(Buffer::GradHidden, 0, plan.width),
            plan.rows,
            plan.width,
            plan.inner,
            false,
        ),
        weight_gradient(
            tile(plan.grad_output, 0, plan.inner),
            tile(Buffer::Hidden, 0, plan.width),
            tile(Buffer::DownGrad, 0, plan.width),
            plan.inner,
            plan.width,
            plan.rows,
            true,
        ),
        reserve(Buffer::GradGateUp, plan.gate_up),
        swiglu_backward(
            Buffer::GateUp,
            Buffer::GradHidden,
            Buffer::GradGateUp,
            plan.rows,
            plan.width,
            plan.gate_up,
            plan.hidden,
        ),
        project_back(
            tile(Buffer::GradGateUp, 0, plan.double),
            tile(Buffer::GateUpWeights, 0, plan.inner),
            tile(plan.grad_input, 0, plan.inner),
            plan.rows,
            plan.inner,
            plan.double,
            false,
        ),
        reserve(Buffer::Scratch, plan.packed),
        weight_gradient(
            tile(Buffer::GradGateUp, 0, plan.double),
            tile(plan.input, 0, plan.inner),
            tile(Buffer::Scratch, 0, plan.inner),
            plan.double,
            plan.inner,
            plan.rows,
            false,
        ),
        add_span(Buffer::GateGrad, Buffer::Scratch, 0, plan.weight),
        add_span(Buffer::UpGrad, Buffer::Scratch, plan.weight, plan.weight),
    ];
    assert(steps@ =~= backward_steps(*plan));
    steps
}

// -- Laws ----------------------------------------------------------------------

/// Whether the weights are there.
pub open spec fn has_weights(plan: GatedPlan, memory: Memory) -> bool {
    &&& memory.holds(Buffer::GateWeight, plan.weight as int)
    &&& memory.holds(Buffer::UpWeight, plan.weight as int)
    &&& memory.holds(Buffer::DownWeight, plan.weight as int)
}

/// Whether what the backward pass reads of the forward pass is there.
pub open spec fn is_cached(plan: GatedPlan, memory: Memory) -> bool {
    &&& memory.holds(Buffer::GateUpWeights, plan.packed as int)
    &&& memory.holds(Buffer::GateUp, plan.gate_up as int)
    &&& memory.holds(Buffer::Hidden, plan.hidden as int)
    &&& memory.holds(Buffer::DownWeight, plan.weight as int)
}

/// Whether the gradients the backward pass adds to are there.
pub open spec fn has_gradients(plan: GatedPlan, memory: Memory) -> bool {
    &&& memory.holds(Buffer::GateGrad, plan.weight as int)
    &&& memory.holds(Buffer::UpGrad, plan.weight as int)
    &&& memory.holds(Buffer::DownGrad, plan.weight as int)
}

/// Whether a pass left every buffer but a feed-forward's own as it was.
pub open spec fn leaves_others(before: Memory, end: Memory) -> bool {
    forall|buffer: Buffer, len: int|
        is_outside(buffer) && #[trigger] before.holds(buffer, len) ==> end.holds(buffer, len)
}

/// The forward pass never leaves its buffers and reads only what was written.
/// It leaves what the backward pass reads.
pub proof fn law_forward_runs(plan: GatedPlan, memory: Memory)
    requires
        plan.wf(),
        has_weights(plan, memory),
        memory.holds(plan.input, plan.stream as int),
        memory.holds(plan.output, plan.stream as int),
    ensures
        runs(memory, forward_steps(plan)),
        is_cached(plan, after_all(memory, forward_steps(plan))),
        leaves_others(memory, after_all(memory, forward_steps(plan))),
{
    let steps = forward_steps(plan);
    let m0 = memory;
    lemma_swap(plan.width as int, plan.inner as int);
    lemma_double(plan.width as int, plan.inner as int);
    lemma_one_more(m0, steps, 0, m0);
    let m1 = after(m0, steps[0]);
    lemma_one_more(m0, steps, 1, m1);
    let m2 = after(m1, steps[1]);
    lemma_one_more(m0, steps, 2, m2);
    let m3 = after(m2, steps[2]);
    lemma_project(
        m3,
        tile(plan.input, 0, plan.inner),
        tile(Buffer::GateUpWeights, 0, plan.inner),
        tile(Buffer::GateUp, 0, plan.double),
        plan.rows,
        plan.double,
        plan.inner,
        false,
    );
    lemma_one_more(m0, steps, 3, m3);
    let m4 = after(m3, steps[3]);
    lemma_one_more(m0, steps, 4, m4);
    let m5 = after(m4, steps[4]);
    lemma_one_more(m0, steps, 5, m5);
    let m6 = after(m5, steps[5]);
    lemma_project(
        m6,
        tile(Buffer::Hidden, 0, plan.width),
        tile(Buffer::DownWeight, 0, plan.width),
        tile(plan.output, 0, plan.inner),
        plan.rows,
        plan.inner,
        plan.width,
        true,
    );
    lemma_one_more(m0, steps, 6, m6);
    let m7 = after(m6, steps[6]);
}

/// The backward pass never leaves its buffers and reads only what was written.
/// It leaves the gradient of its input, though the buffer held nothing.
pub proof fn law_backward_runs(plan: GatedPlan, memory: Memory)
    requires
        plan.wf(),
        is_cached(plan, memory),
        has_gradients(plan, memory),
        memory.holds(plan.input, plan.stream as int),
        memory.holds(plan.grad_output, plan.stream as int),
        memory.lens.dom().contains(plan.grad_input),
        memory.lens[plan.grad_input] == plan.stream,
    ensures
        runs(memory, backward_steps(plan)),
        after_all(memory, backward_steps(plan)).holds(plan.grad_input, plan.stream as int),
        leaves_others(memory, after_all(memory, backward_steps(plan))),
{
    let steps = backward_steps(plan);
    let m0 = memory;
    lemma_swap(plan.width as int, plan.inner as int);
    lemma_double(plan.width as int, plan.inner as int);
    lemma_one_more(m0, steps, 0, m0);
    let m1 = after(m0, steps[0]);
    lemma_project_back(
        m1,
        tile(plan.grad_output, 0, plan.inner),
        tile(Buffer::DownWeight, 0, plan.width),
        tile(Buffer::GradHidden, 0, plan.width),
        plan.rows,
        plan.width,
        plan.inner,
        false,
    );
    lemma_one_more(m0, steps, 1, m1);
    let m2 = after(m1, steps[1]);
    lemma_weight_gradient(
        m2,
        tile(plan.grad_output, 0, plan.inner),
        tile(Buffer::Hidden, 0, plan.width),
        tile(Buffer::DownGrad, 0, plan.width),
        plan.inner,
        plan.width,
        plan.rows,
        true,
    );
    lemma_one_more(m0, steps, 2, m2);
    let m3 = after(m2, steps[2]);
    lemma_one_more(m0, steps, 3, m3);
    let m4 = after(m3, steps[3]);
    lemma_one_more(m0, steps, 4, m4);
    let m5 = after(m4, steps[4]);
    lemma_project_back(
        m5,
        tile(Buffer::GradGateUp, 0, plan.double),
        tile(Buffer::GateUpWeights, 0, plan.inner),
        tile(plan.grad_input, 0, plan.inner),
        plan.rows,
        plan.inner,
        plan.double,
        false,
    );
    lemma_one_more(m0, steps, 5, m5);
    let m6 = after(m5, steps[5]);
    lemma_one_more(m0, steps, 6, m6);
    let m7 = after(m6, steps[6]);
    lemma_weight_gradient(
        m7,
        tile(Buffer::GradGateUp, 0, plan.double),
        tile(plan.input, 0, plan.inner),
        tile(Buffer::Scratch, 0, plan.inner),
        plan.double,
        plan.inner,
        plan.rows,
        false,
    );
    lemma_one_more(m0, steps, 7, m7);
    let m8 = after(m7, steps[7]);
    lemma_one_more(m0, steps, 8, m8);
    let m9 = after(m8, steps[8]);
    lemma_one_more(m0, steps, 9, m9);
    let m10 = after(m9, steps[9]);
}

} // verus!
