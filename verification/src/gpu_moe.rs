//! A routed feed-forward on the device.
//!
//! The router's softmax and the choice of experts are one kernel each. The
//! choice comes back to the host once, to be grouped by expert; then the rows
//! are gathered into one buffer, and every expert that got any runs its
//! products over its run of rows.
use crate::device::{
    add_span, clear, launch, project, project_back, reads1, reads2, reads3, reads4, reads5, reserve,
    sized, start_of, swiglu, swiglu_backward, tile, warp_per_row_grid, weight_gradient, writes1,
    writes2, Buffer, Factor, Grid, Kernel, Kind, Product, Sizes, Step, Tile,
};
use crate::gpu_feed_forward;
use crate::gpu_feed_forward::GatedPlan;
use crate::gpu_grouping::{lemma_groups_apart, Grouping};
use crate::moe::total;
use vstd::prelude::*;

verus! {

/// The sizes of a pass.
#[derive(Clone, Copy, Debug, PartialEq, Eq, Structural)]
pub struct MoePlan {
    pub rows: usize,
    pub d_model: usize,
    pub width: usize,
    pub experts: usize,
    pub top_k: usize,
    pub routed: usize,
    /// Gate and up together.
    pub double: usize,
    /// How long the buffers are.
    pub stream: usize,
    pub logits: usize,
    pub slots: usize,
    pub sums: usize,
    pub router_weight: usize,
    pub weight: usize,
    pub packed_stride: usize,
    pub packed: usize,
    pub gathered: usize,
    pub expert_gate_up: usize,
    pub expert_hidden: usize,
    pub token_list: usize,
}

impl MoePlan {
    /// Whether the sizes go together.
    pub open spec fn wf(&self) -> bool {
        &&& self.double == 2 * self.width
        &&& self.stream == self.rows * self.d_model
        &&& self.logits == self.rows * self.experts
        &&& self.slots == self.rows * self.top_k
        &&& self.sums == self.experts + 1
        &&& self.router_weight == self.experts * self.d_model
        &&& self.weight == self.width * self.d_model
        &&& self.packed_stride == self.double * self.d_model
        &&& self.packed_stride == 2 * self.weight
        &&& self.packed == self.experts * self.packed_stride
        &&& self.gathered == self.routed * self.d_model
        &&& self.expert_gate_up == self.routed * self.double
        &&& self.expert_hidden == self.routed * self.width
        &&& self.token_list == if self.routed == 0 {
            1
        } else {
            self.routed
        }
    }

    /// Whether every buffer of a pass is short enough to be counted.
    pub open spec fn fits(
        rows: int,
        d_model: int,
        width: int,
        experts: int,
        top_k: int,
        routed: int,
    ) -> bool {
        &&& 2 * width <= usize::MAX
        &&& rows * d_model <= usize::MAX
        &&& rows * experts <= usize::MAX
        &&& rows * top_k <= usize::MAX
        &&& experts + 1 <= usize::MAX
        &&& experts * d_model <= usize::MAX
        &&& 2 * width * d_model <= usize::MAX
        &&& experts * (2 * width * d_model) <= usize::MAX
        &&& routed * d_model <= usize::MAX
        &&& routed * (2 * width) <= usize::MAX
    }

    /// The plan of a layer over some rows, of whose slots so many are routed.
    pub fn new(
        rows: usize,
        d_model: usize,
        width: usize,
        experts: usize,
        top_k: usize,
        routed: usize,
    ) -> (plan: MoePlan)
        requires
            MoePlan::fits(
                rows as int,
                d_model as int,
                width as int,
                experts as int,
                top_k as int,
                routed as int,
            ),
        ensures
            plan.wf(),
            plan.rows == rows,
            plan.d_model == d_model,
            plan.width == width,
            plan.experts == experts,
            plan.top_k == top_k,
            plan.routed == routed,
    {
        proof {
            lemma_double(width as int, d_model as int);
            lemma_double(width as int, routed as int);
            assert(0 <= width * d_model && 0 <= width * routed && routed * (2 * width) == 2 * width
                * routed && routed * width == width * routed) by (nonlinear_arith);
        }
        let double: usize = 2 * width;
        let packed_stride: usize = double * d_model;
        MoePlan {
            rows,
            d_model,
            width,
            experts,
            top_k,
            routed,
            double,
            stream: rows * d_model,
            logits: rows * experts,
            slots: rows * top_k,
            sums: experts + 1,
            router_weight: experts * d_model,
            weight: width * d_model,
            packed_stride,
            packed: experts * packed_stride,
            gathered: routed * d_model,
            expert_gate_up: routed * double,
            expert_hidden: routed * width,
            token_list: if routed == 0 {
                1
            } else {
                routed
            },
        }
    }

    /// The sizes the router's kernels are told.
    #[verifier::allow_in_spec]
    pub fn sizes(&self) -> Sizes
        returns
            (Sizes {
                rows: self.rows,
                cols: self.experts,
                heads: self.top_k,
                head_dim: 0,
                length: 0,
                width: 0,
                base: 0,
            }),
    {
        Sizes {
            rows: self.rows,
            cols: self.experts,
            heads: self.top_k,
            head_dim: 0,
            length: 0,
            width: 0,
            base: 0,
        }
    }
}

proof fn lemma_double(width: int, features: int)
    ensures
        2 * width * features == width * features + width * features,
{
    assert(2 * width * features == width * features + width * features) by (nonlinear_arith);
}

/// A product over an expert's run of rows.
#[verifier::allow_in_spec]
pub fn expert_rows(kind: Kind, m: usize, n: usize, k: usize, a: Tile, b: Tile, out: Tile) -> Step
    returns
        (Step::Append(
            Product { kind, factor: Factor::One, accumulate: false, m, n, k, a, b, out },
        )),
{
    Step::Append(Product { kind, factor: Factor::One, accumulate: false, m, n, k, a, b, out })
}

/// The router: one logit per expert, their softmax, and the best experts.
pub open spec fn router_steps(plan: MoePlan) -> Seq<Step> {
    seq![
        reserve(Buffer::RouterLogits, plan.logits),
        project(
            tile(Buffer::FeedForwardNormed, 0, plan.d_model),
            tile(Buffer::RouterWeight, 0, plan.d_model),
            tile(Buffer::RouterLogits, 0, plan.experts),
            plan.rows,
            plan.experts,
            plan.d_model,
            false,
        ),
        reserve(Buffer::RouterProbabilities, plan.logits),
        clear(Buffer::RouterProbabilities, plan.logits),
        reserve(Buffer::RouterLogSumExp, plan.rows),
        clear(Buffer::RouterLogSumExp, plan.rows),
        launch(
            Kernel::RouterSoftmax,
            Grid::Elements(plan.rows),
            sized(plan.rows, plan.experts),
            reads1(start_of(Buffer::RouterLogits, plan.logits)),
            writes2(
                start_of(Buffer::RouterProbabilities, plan.logits),
                start_of(Buffer::RouterLogSumExp, plan.rows),
            ),
        ),
        reserve(Buffer::ExpertOf, plan.slots),
        clear(Buffer::ExpertOf, plan.slots),
        reserve(Buffer::GateOf, plan.slots),
        clear(Buffer::GateOf, plan.slots),
        launch(
            Kernel::TopKGate,
            Grid::Elements(plan.rows),
            plan.sizes(),
            reads2(
                start_of(Buffer::RouterProbabilities, plan.logits),
                start_of(Buffer::Valid, plan.rows),
            ),
            writes2(start_of(Buffer::ExpertOf, plan.slots), start_of(Buffer::GateOf, plan.slots)),
        ),
    ]
}

fn router(plan: &MoePlan) -> (steps: Vec<Step>)
    ensures
        steps@ == router_steps(*plan),
{
    let steps: Vec<Step> = vec![
        reserve(Buffer::RouterLogits, plan.logits),
        project(
            tile(Buffer::FeedForwardNormed, 0, plan.d_model),
            tile(Buffer::RouterWeight, 0, plan.d_model),
            tile(Buffer::RouterLogits, 0, plan.experts),
            plan.rows,
            plan.experts,
            plan.d_model,
            false,
        ),
        reserve(Buffer::RouterProbabilities, plan.logits),
        clear(Buffer::RouterProbabilities, plan.logits),
        reserve(Buffer::RouterLogSumExp, plan.rows),
        clear(Buffer::RouterLogSumExp, plan.rows),
        launch(
            Kernel::RouterSoftmax,
            Grid::Elements(plan.rows),
            sized(plan.rows, plan.experts),
            reads1(start_of(Buffer::RouterLogits, plan.logits)),
            writes2(
                start_of(Buffer::RouterProbabilities, plan.logits),
                start_of(Buffer::RouterLogSumExp, plan.rows),
            ),
        ),
        reserve(Buffer::ExpertOf, plan.slots),
        clear(Buffer::ExpertOf, plan.slots),
        reserve(Buffer::GateOf, plan.slots),
        clear(Buffer::GateOf, plan.slots),
        launch(
            Kernel::TopKGate,
            Grid::Elements(plan.rows),
            plan.sizes(),
            reads2(
                start_of(Buffer::RouterProbabilities, plan.logits),
                start_of(Buffer::Valid, plan.rows),
            ),
            writes2(start_of(Buffer::ExpertOf, plan.slots), start_of(Buffer::GateOf, plan.slots)),
        ),
    ];
    assert(steps@ =~= router_steps(*plan));
    steps
}

/// Room for the routed rows.
pub open spec fn room_steps(plan: MoePlan) -> Seq<Step> {
    seq![
        reserve(Buffer::Gathered, plan.gathered),
    ]
}

fn room(plan: &MoePlan) -> (steps: Vec<Step>)
    ensures
        steps@ == room_steps(*plan),
{
    let steps: Vec<Step> = vec![
        reserve(Buffer::Gathered, plan.gathered),
    ];
    assert(steps@ =~= room_steps(*plan));
    steps
}

/// The routed rows, gathered by expert.
pub open spec fn gathered_steps(plan: MoePlan) -> Seq<Step> {
    seq![
        launch(
            Kernel::Gather,
            Grid::Elements(plan.gathered),
            sized(plan.routed, plan.d_model),
            reads2(
                start_of(Buffer::FeedForwardNormed, plan.stream),
                start_of(Buffer::TokenOf, plan.routed),
            ),
            writes1(start_of(Buffer::Gathered, plan.gathered)),
        ),
    ]
}

fn gathered(plan: &MoePlan) -> (steps: Vec<Step>)
    ensures
        steps@ == gathered_steps(*plan),
{
    let steps: Vec<Step> = vec![
        launch(
            Kernel::Gather,
            Grid::Elements(plan.gathered),
            sized(plan.routed, plan.d_model),
            reads2(
                start_of(Buffer::FeedForwardNormed, plan.stream),
                start_of(Buffer::TokenOf, plan.routed),
            ),
            writes1(start_of(Buffer::Gathered, plan.gathered)),
        ),
    ];
    assert(steps@ =~= gathered_steps(*plan));
    steps
}

/// The packed weights of the experts.
pub open spec fn packing_steps(plan: MoePlan) -> Seq<Step> {
    seq![
        reserve(Buffer::ExpertWeights, plan.packed),
        Step::PackExperts {
            experts: plan.experts,
            weight: plan.weight,
            to: Buffer::ExpertWeights,
            len: plan.packed,
        },
        reserve(Buffer::ExpertGateUp, plan.expert_gate_up),
    ]
}

fn packing(plan: &MoePlan) -> (steps: Vec<Step>)
    ensures
        steps@ == packing_steps(*plan),
{
    let steps: Vec<Step> = vec![
        reserve(Buffer::ExpertWeights, plan.packed),
        Step::PackExperts {
            experts: plan.experts,
            weight: plan.weight,
            to: Buffer::ExpertWeights,
            len: plan.packed,
        },
        reserve(Buffer::ExpertGateUp, plan.expert_gate_up),
    ];
    assert(steps@ =~= packing_steps(*plan));
    steps
}

/// The gated activation of the routed rows.
pub open spec fn activated_steps(plan: MoePlan) -> Seq<Step> {
    seq![
        reserve(Buffer::ExpertHidden, plan.expert_hidden),
        swiglu(
            Buffer::ExpertGateUp,
            Buffer::ExpertHidden,
            plan.routed,
            plan.width,
            plan.expert_gate_up,
            plan.expert_hidden,
        ),
        reserve(Buffer::ExpertOutput, plan.gathered),
    ]
}

fn activated(plan: &MoePlan) -> (steps: Vec<Step>)
    ensures
        steps@ == activated_steps(*plan),
{
    let steps: Vec<Step> = vec![
        reserve(Buffer::ExpertHidden, plan.expert_hidden),
        swiglu(
            Buffer::ExpertGateUp,
            Buffer::ExpertHidden,
            plan.routed,
            plan.width,
            plan.expert_gate_up,
            plan.expert_hidden,
        ),
        reserve(Buffer::ExpertOutput, plan.gathered),
    ];
    assert(steps@ =~= activated_steps(*plan));
    steps
}

/// What the experts made, scaled by its gates and added to the output.
pub open spec fn scattered_steps(plan: MoePlan) -> Seq<Step> {
    seq![
        launch(
            Kernel::ScatterScaled,
            Grid::Elements(plan.gathered),
            sized(plan.routed, plan.d_model),
            reads4(
                start_of(Buffer::ExpertOutput, plan.gathered),
                start_of(Buffer::TokenOf, plan.routed),
                start_of(Buffer::Gates, plan.routed),
                start_of(Buffer::Output, plan.stream),
            ),
            writes1(start_of(Buffer::Output, plan.stream)),
        ),
    ]
}

fn scattered(plan: &MoePlan) -> (steps: Vec<Step>)
    ensures
        steps@ == scattered_steps(*plan),
{
    let steps: Vec<Step> = vec![
        launch(
            Kernel::ScatterScaled,
            Grid::Elements(plan.gathered),
            sized(plan.routed, plan.d_model),
            reads4(
                start_of(Buffer::ExpertOutput, plan.gathered),
                start_of(Buffer::TokenOf, plan.routed),
                start_of(Buffer::Gates, plan.routed),
                start_of(Buffer::Output, plan.stream),
            ),
            writes1(start_of(Buffer::Output, plan.stream)),
        ),
    ];
    assert(steps@ =~= scattered_steps(*plan));
    steps
}

/// The sums the two auxiliary losses need.
pub open spec fn statistics_steps(plan: MoePlan) -> Seq<Step> {
    seq![
        reserve(Buffer::Sums, plan.sums),
        clear(Buffer::Sums, plan.sums),
        launch(
            Kernel::Stats,
            Grid::Elements(plan.rows),
            sized(plan.rows, plan.experts),
            reads4(
                start_of(Buffer::RouterProbabilities, plan.logits),
                start_of(Buffer::RouterLogSumExp, plan.rows),
                start_of(Buffer::Valid, plan.rows),
                start_of(Buffer::Sums, plan.sums),
            ),
            writes1(start_of(Buffer::Sums, plan.sums)),
        ),
    ]
}

fn statistics(plan: &MoePlan) -> (steps: Vec<Step>)
    ensures
        steps@ == statistics_steps(*plan),
{
    let steps: Vec<Step> = vec![
        reserve(Buffer::Sums, plan.sums),
        clear(Buffer::Sums, plan.sums),
        launch(
            Kernel::Stats,
            Grid::Elements(plan.rows),
            sized(plan.rows, plan.experts),
            reads4(
                start_of(Buffer::RouterProbabilities, plan.logits),
                start_of(Buffer::RouterLogSumExp, plan.rows),
                start_of(Buffer::Valid, plan.rows),
                start_of(Buffer::Sums, plan.sums),
            ),
            writes1(start_of(Buffer::Sums, plan.sums)),
        ),
    ];
    assert(steps@ =~= statistics_steps(*plan));
    steps
}

/// Room for gate gradients.
pub open spec fn gate_gradient_steps(plan: MoePlan) -> Seq<Step> {
    seq![
        reserve(Buffer::GradGates, plan.slots),
        clear(Buffer::GradGates, plan.slots),
    ]
}

fn gate_gradient(plan: &MoePlan) -> (steps: Vec<Step>)
    ensures
        steps@ == gate_gradient_steps(*plan),
{
    let steps: Vec<Step> = vec![
        reserve(Buffer::GradGates, plan.slots),
        clear(Buffer::GradGates, plan.slots),
    ];
    assert(steps@ =~= gate_gradient_steps(*plan));
    steps
}

/// Gate gradients, and of what the experts made.
pub open spec fn upstream_steps(plan: MoePlan) -> Seq<Step> {
    seq![
        launch(
            Kernel::RowDot,
            warp_per_row_grid(plan.routed),
            sized(plan.routed, plan.d_model),
            reads5(
                start_of(Buffer::SlotOf, plan.routed),
                start_of(Buffer::GradOutput, plan.stream),
                start_of(Buffer::TokenOf, plan.routed),
                start_of(Buffer::ExpertOutput, plan.gathered),
                start_of(Buffer::GradGates, plan.slots),
            ),
            writes1(start_of(Buffer::GradGates, plan.slots)),
        ),
        reserve(Buffer::GradExpertOutput, plan.gathered),
        launch(
            Kernel::GatherScaled,
            Grid::Elements(plan.gathered),
            sized(plan.routed, plan.d_model),
            reads3(
                start_of(Buffer::GradOutput, plan.stream),
                start_of(Buffer::TokenOf, plan.routed),
                start_of(Buffer::Gates, plan.routed),
            ),
            writes1(start_of(Buffer::GradExpertOutput, plan.gathered)),
        ),
        reserve(Buffer::GradExpertHidden, plan.expert_hidden),
    ]
}

fn upstream(plan: &MoePlan) -> (steps: Vec<Step>)
    ensures
        steps@ == upstream_steps(*plan),
{
    let steps: Vec<Step> = vec![
        launch(
            Kernel::RowDot,
            warp_per_row_grid(plan.routed),
            sized(plan.routed, plan.d_model),
            reads5(
                start_of(Buffer::SlotOf, plan.routed),
                start_of(Buffer::GradOutput, plan.stream),
                start_of(Buffer::TokenOf, plan.routed),
                start_of(Buffer::ExpertOutput, plan.gathered),
                start_of(Buffer::GradGates, plan.slots),
            ),
            writes1(start_of(Buffer::GradGates, plan.slots)),
        ),
        reserve(Buffer::GradExpertOutput, plan.gathered),
        launch(
            Kernel::GatherScaled,
            Grid::Elements(plan.gathered),
            sized(plan.routed, plan.d_model),
            reads3(
                start_of(Buffer::GradOutput, plan.stream),
                start_of(Buffer::TokenOf, plan.routed),
                start_of(Buffer::Gates, plan.routed),
            ),
            writes1(start_of(Buffer::GradExpertOutput, plan.gathered)),
        ),
        reserve(Buffer::GradExpertHidden, plan.expert_hidden),
    ];
    assert(steps@ =~= upstream_steps(*plan));
    steps
}

/// The gradient of the gated activation.
pub open spec fn deactivated_steps(plan: MoePlan) -> Seq<Step> {
    seq![
        reserve(Buffer::GradExpertGateUp, plan.expert_gate_up),
        swiglu_backward(
            Buffer::ExpertGateUp,
            Buffer::GradExpertHidden,
            Buffer::GradExpertGateUp,
            plan.routed,
            plan.width,
            plan.expert_gate_up,
            plan.expert_hidden,
        ),
        reserve(Buffer::GradExpertInput, plan.gathered),
    ]
}

fn deactivated(plan: &MoePlan) -> (steps: Vec<Step>)
    ensures
        steps@ == deactivated_steps(*plan),
{
    let steps: Vec<Step> = vec![
        reserve(Buffer::GradExpertGateUp, plan.expert_gate_up),
        swiglu_backward(
            Buffer::ExpertGateUp,
            Buffer::GradExpertHidden,
            Buffer::GradExpertGateUp,
            plan.routed,
            plan.width,
            plan.expert_gate_up,
            plan.expert_hidden,
        ),
        reserve(Buffer::GradExpertInput, plan.gathered),
    ];
    assert(steps@ =~= deactivated_steps(*plan));
    steps
}

/// The gradients of the routed rows, added to that of the input.
pub open spec fn downstream_steps(plan: MoePlan) -> Seq<Step> {
    seq![
        launch(
            Kernel::Scatter,
            Grid::Elements(plan.gathered),
            sized(plan.routed, plan.d_model),
            reads3(
                start_of(Buffer::GradExpertInput, plan.gathered),
                start_of(Buffer::TokenOf, plan.routed),
                start_of(Buffer::GradFeedForward, plan.stream),
            ),
            writes1(start_of(Buffer::GradFeedForward, plan.stream)),
        ),
    ]
}

fn downstream(plan: &MoePlan) -> (steps: Vec<Step>)
    ensures
        steps@ == downstream_steps(*plan),
{
    let steps: Vec<Step> = vec![
        launch(
            Kernel::Scatter,
            Grid::Elements(plan.gathered),
            sized(plan.routed, plan.d_model),
            reads3(
                start_of(Buffer::GradExpertInput, plan.gathered),
                start_of(Buffer::TokenOf, plan.routed),
                start_of(Buffer::GradFeedForward, plan.stream),
            ),
            writes1(start_of(Buffer::GradFeedForward, plan.stream)),
        ),
    ];
    assert(steps@ =~= downstream_steps(*plan));
    steps
}

/// The gradient of the router probabilities.
pub open spec fn probabilities_gradient_steps(plan: MoePlan) -> Seq<Step> {
    seq![
        reserve(Buffer::GradRouterProbabilities, plan.logits),
        clear(Buffer::GradRouterProbabilities, plan.logits),
        launch(
            Kernel::GradProbabilities,
            Grid::Elements(plan.rows),
            plan.sizes(),
            reads4(
                start_of(Buffer::GradGates, plan.slots),
                start_of(Buffer::RouterProbabilities, plan.logits),
                start_of(Buffer::ExpertOf, plan.slots),
                start_of(Buffer::GradRouterProbabilities, plan.logits),
            ),
            writes1(start_of(Buffer::GradRouterProbabilities, plan.logits)),
        ),
    ]
}

fn probabilities_gradient(plan: &MoePlan) -> (steps: Vec<Step>)
    ensures
        steps@ == probabilities_gradient_steps(*plan),
{
    let steps: Vec<Step> = vec![
        reserve(Buffer::GradRouterProbabilities, plan.logits),
        clear(Buffer::GradRouterProbabilities, plan.logits),
        launch(
            Kernel::GradProbabilities,
            Grid::Elements(plan.rows),
            plan.sizes(),
            reads4(
                start_of(Buffer::GradGates, plan.slots),
                start_of(Buffer::RouterProbabilities, plan.logits),
                start_of(Buffer::ExpertOf, plan.slots),
                start_of(Buffer::GradRouterProbabilities, plan.logits),
            ),
            writes1(start_of(Buffer::GradRouterProbabilities, plan.logits)),
        ),
    ];
    assert(steps@ =~= probabilities_gradient_steps(*plan));
    steps
}

/// What the load-balancing loss adds to it.
pub open spec fn balance_gradient_steps(plan: MoePlan) -> Seq<Step> {
    seq![
        launch(
            Kernel::AuxGrad,
            Grid::Elements(plan.logits),
            plan.sizes(),
            reads3(
                start_of(Buffer::Loads, plan.experts),
                start_of(Buffer::ExpertOf, plan.slots),
                start_of(Buffer::GradRouterProbabilities, plan.logits),
            ),
            writes1(start_of(Buffer::GradRouterProbabilities, plan.logits)),
        ),
    ]
}

fn balance_gradient(plan: &MoePlan) -> (steps: Vec<Step>)
    ensures
        steps@ == balance_gradient_steps(*plan),
{
    let steps: Vec<Step> = vec![
        launch(
            Kernel::AuxGrad,
            Grid::Elements(plan.logits),
            plan.sizes(),
            reads3(
                start_of(Buffer::Loads, plan.experts),
                start_of(Buffer::ExpertOf, plan.slots),
                start_of(Buffer::GradRouterProbabilities, plan.logits),
            ),
            writes1(start_of(Buffer::GradRouterProbabilities, plan.logits)),
        ),
    ];
    assert(steps@ =~= balance_gradient_steps(*plan));
    steps
}

/// The gradients of the router, its input and its weight.
pub open spec fn router_gradient_steps(plan: MoePlan) -> Seq<Step> {
    seq![
        reserve(Buffer::GradRouterLogits, plan.logits),
        clear(Buffer::GradRouterLogits, plan.logits),
        launch(
            Kernel::GradLogits,
            Grid::Elements(plan.rows),
            plan.sizes(),
            reads5(
                start_of(Buffer::GradRouterProbabilities, plan.logits),
                start_of(Buffer::RouterProbabilities, plan.logits),
                start_of(Buffer::RouterLogSumExp, plan.rows),
                start_of(Buffer::ExpertOf, plan.slots),
                start_of(Buffer::GradRouterLogits, plan.logits),
            ),
            writes1(start_of(Buffer::GradRouterLogits, plan.logits)),
        ),
        project_back(
            tile(Buffer::GradRouterLogits, 0, plan.experts),
            tile(Buffer::RouterWeight, 0, plan.d_model),
            tile(Buffer::GradFeedForward, 0, plan.d_model),
            plan.rows,
            plan.d_model,
            plan.experts,
            true,
        ),
        weight_gradient(
            tile(Buffer::GradRouterLogits, 0, plan.experts),
            tile(Buffer::FeedForwardNormed, 0, plan.d_model),
            tile(Buffer::RouterGrad, 0, plan.d_model),
            plan.experts,
            plan.d_model,
            plan.rows,
            true,
        ),
    ]
}

fn router_gradient(plan: &MoePlan) -> (steps: Vec<Step>)
    ensures
        steps@ == router_gradient_steps(*plan),
{
    let steps: Vec<Step> = vec![
        reserve(Buffer::GradRouterLogits, plan.logits),
        clear(Buffer::GradRouterLogits, plan.logits),
        launch(
            Kernel::GradLogits,
            Grid::Elements(plan.rows),
            plan.sizes(),
            reads5(
                start_of(Buffer::GradRouterProbabilities, plan.logits),
                start_of(Buffer::RouterProbabilities, plan.logits),
                start_of(Buffer::RouterLogSumExp, plan.rows),
                start_of(Buffer::ExpertOf, plan.slots),
                start_of(Buffer::GradRouterLogits, plan.logits),
            ),
            writes1(start_of(Buffer::GradRouterLogits, plan.logits)),
        ),
        project_back(
            tile(Buffer::GradRouterLogits, 0, plan.experts),
            tile(Buffer::RouterWeight, 0, plan.d_model),
            tile(Buffer::GradFeedForward, 0, plan.d_model),
            plan.rows,
            plan.d_model,
            plan.experts,
            true,
        ),
        weight_gradient(
            tile(Buffer::GradRouterLogits, 0, plan.experts),
            tile(Buffer::FeedForwardNormed, 0, plan.d_model),
            tile(Buffer::RouterGrad, 0, plan.d_model),
            plan.experts,
            plan.d_model,
            plan.rows,
            true,
        ),
    ];
    assert(steps@ =~= router_gradient_steps(*plan));
    steps
}

// -- The loops over the experts ------------------------------------------------

/// The packed projection of an expert.
pub open spec fn gate_up_step(plan: MoePlan, counts: Seq<usize>, e: int) -> Step {
    let at = total(counts, e) as int;
    expert_rows(
        Kind::RhsTransposed,
        counts[e],
        plan.double,
        plan.d_model,
        tile(Buffer::Gathered, (at * plan.d_model) as usize, plan.d_model),
        tile(Buffer::ExpertWeights, (e * plan.packed_stride) as usize, plan.d_model),
        tile(Buffer::ExpertGateUp, (at * plan.double) as usize, plan.double),
    )
}

/// The packed projections of the first `k` experts that got any rows.
pub open spec fn gate_up_steps(plan: MoePlan, counts: Seq<usize>, k: int) -> Seq<Step>
    decreases k,
{
    if k <= 0 {
        Seq::empty()
    } else if counts[k - 1] == 0 {
        gate_up_steps(plan, counts, k - 1)
    } else {
        gate_up_steps(plan, counts, k - 1) + seq![gate_up_step(plan, counts, k - 1)]
    }
}

/// The projection of an expert's activations back to the model's width.
pub open spec fn down_step(plan: MoePlan, counts: Seq<usize>, e: int) -> Step {
    let at = total(counts, e) as int;
    expert_rows(
        Kind::RhsTransposed,
        counts[e],
        plan.d_model,
        plan.width,
        tile(Buffer::ExpertHidden, (at * plan.width) as usize, plan.width),
        tile(Buffer::ExpertDownWeight(e as usize), 0, plan.width),
        tile(Buffer::ExpertOutput, (at * plan.d_model) as usize, plan.d_model),
    )
}

/// The projections back of the first `k` experts that got any rows.
pub open spec fn down_steps(plan: MoePlan, counts: Seq<usize>, k: int) -> Seq<Step>
    decreases k,
{
    if k <= 0 {
        Seq::empty()
    } else if counts[k - 1] == 0 {
        down_steps(plan, counts, k - 1)
    } else {
        down_steps(plan, counts, k - 1) + seq![down_step(plan, counts, k - 1)]
    }
}

/// The gradient of an expert's activations, and of its weight.
pub open spec fn down_gradient_step(plan: MoePlan, counts: Seq<usize>, e: int) -> Seq<Step> {
    let at = total(counts, e) as int;
    let upstream = tile(Buffer::GradExpertOutput, (at * plan.d_model) as usize, plan.d_model);
    seq![
        expert_rows(
            Kind::Plain,
            counts[e],
            plan.width,
            plan.d_model,
            upstream,
            tile(Buffer::ExpertDownWeight(e as usize), 0, plan.width),
            tile(Buffer::GradExpertHidden, (at * plan.width) as usize, plan.width),
        ),
        weight_gradient(
            upstream,
            tile(Buffer::ExpertHidden, (at * plan.width) as usize, plan.width),
            tile(Buffer::ExpertDownGrad(e as usize), 0, plan.width),
            plan.d_model,
            plan.width,
            counts[e],
            true,
        ),
    ]
}

/// Those of the first `k` experts that got any rows.
pub open spec fn down_gradient_steps(plan: MoePlan, counts: Seq<usize>, k: int) -> Seq<Step>
    decreases k,
{
    if k <= 0 {
        Seq::empty()
    } else if counts[k - 1] == 0 {
        down_gradient_steps(plan, counts, k - 1)
    } else {
        down_gradient_steps(plan, counts, k - 1) + down_gradient_step(plan, counts, k - 1)
    }
}

/// The gradient of an expert's rows, and of its two packed weights, each of
/// which takes its half.
pub open spec fn gate_up_gradient_step(plan: MoePlan, counts: Seq<usize>, e: int) -> Seq<Step> {
    let at = total(counts, e) as int;
    let upstream = tile(Buffer::GradExpertGateUp, (at * plan.double) as usize, plan.double);
    seq![
        expert_rows(
            Kind::Plain,
            counts[e],
            plan.d_model,
            plan.double,
            upstream,
            tile(Buffer::ExpertWeights, (e * plan.packed_stride) as usize, plan.d_model),
            tile(Buffer::GradExpertInput, (at * plan.d_model) as usize, plan.d_model),
        ),
        reserve(Buffer::Scratch, plan.packed_stride),
        weight_gradient(
            upstream,
            tile(Buffer::Gathered, (at * plan.d_model) as usize, plan.d_model),
            tile(Buffer::Scratch, 0, plan.d_model),
            plan.double,
            plan.d_model,
            counts[e],
            false,
        ),
        add_span(Buffer::ExpertGateGrad(e as usize), Buffer::Scratch, 0, plan.weight),
        add_span(Buffer::ExpertUpGrad(e as usize), Buffer::Scratch, plan.weight, plan.weight),
    ]
}

/// Those of the first `k` experts that got any rows.
pub open spec fn gate_up_gradient_steps(plan: MoePlan, counts: Seq<usize>, k: int) -> Seq<Step>
    decreases k,
{
    if k <= 0 {
        Seq::empty()
    } else if counts[k - 1] == 0 {
        gate_up_gradient_steps(plan, counts, k - 1)
    } else {
        gate_up_gradient_steps(plan, counts, k - 1) + gate_up_gradient_step(plan, counts, k - 1)
    }
}

/// Whether a grouping is one of the plan's slots.
pub open spec fn is_grouped(plan: MoePlan, grouping: Grouping) -> bool {
    grouping.wf() && grouping.counts@.len() == plan.experts && grouping.routed == plan.routed
}

/// An expert's run of rows lies inside the routed rows.
pub(crate) proof fn lemma_run(plan: MoePlan, counts: Seq<usize>, e: int, d: int)
    requires
        plan.wf(),
        counts.len() == plan.experts,
        plan.routed == total(counts, plan.experts as int),
        0 <= e < plan.experts,
        0 <= d,
    ensures
        0 <= total(counts, e) * d,
        total(counts, e) * d + counts[e] * d == total(counts, e + 1) * d,
        total(counts, e) * d + counts[e] * d <= plan.routed * d,
{
    lemma_groups_apart(counts, e, plan.experts as int);
    let (a, c, n) = (total(counts, e) as int, counts[e] as int, plan.routed as int);
    assert(0 <= a * d && a * d + c * d == (a + c) * d && (a + c) * d <= n * d)
        by (nonlinear_arith)
        requires
            0 <= a,
            0 <= c,
            a + c <= n,
            0 <= d,
    ;
}

/// An expert's weights lie inside the packed ones.
pub(crate) proof fn lemma_packed(plan: MoePlan, e: int)
    requires
        plan.wf(),
        0 <= e < plan.experts,
    ensures
        0 <= e * plan.packed_stride,
        e * plan.packed_stride + plan.packed_stride <= plan.packed,
{
    let (n, s) = (plan.experts as int, plan.packed_stride as int);
    assert(0 <= e * s && e * s + s <= n * s) by (nonlinear_arith)
        requires
            0 <= e < n,
            0 <= s,
    ;
}

fn gate_up(plan: &MoePlan, grouping: &Grouping) -> (steps: Vec<Step>)
    requires
        plan.wf(),
        is_grouped(*plan, *grouping),
    ensures
        steps@ == gate_up_steps(*plan, grouping.counts@, plan.experts as int),
{
    let mut steps: Vec<Step> = Vec::new();
    let ghost counts = grouping.counts@;
    let mut e: usize = 0;
    while e < plan.experts
        invariant
            e <= plan.experts,
            plan.wf(),
            is_grouped(*plan, *grouping),
            counts == grouping.counts@,
            steps@ == gate_up_steps(*plan, counts, e as int),
        decreases plan.experts - e,
    {
        let count: usize = grouping.counts[e];
        if count > 0 {
            let at: usize = grouping.offsets[e];
            proof {
                lemma_run(*plan, counts, e as int, plan.d_model as int);
                lemma_run(*plan, counts, e as int, plan.double as int);
                lemma_packed(*plan, e as int);
                assert(0 <= count * plan.d_model && 0 <= count * plan.double) by (nonlinear_arith);
            }
            steps.push(
                expert_rows(
                    Kind::RhsTransposed,
                    count,
                    plan.double,
                    plan.d_model,
                    tile(Buffer::Gathered, at * plan.d_model, plan.d_model),
                    tile(Buffer::ExpertWeights, e * plan.packed_stride, plan.d_model),
                    tile(Buffer::ExpertGateUp, at * plan.double, plan.double),
                ),
            );
            assert(steps@ =~= gate_up_steps(*plan, counts, e as int) + seq![
                gate_up_step(*plan, counts, e as int),
            ]);
        }
        e = e + 1;
    }
    steps
}

fn down(plan: &MoePlan, grouping: &Grouping) -> (steps: Vec<Step>)
    requires
        plan.wf(),
        is_grouped(*plan, *grouping),
    ensures
        steps@ == down_steps(*plan, grouping.counts@, plan.experts as int),
{
    let mut steps: Vec<Step> = Vec::new();
    let ghost counts = grouping.counts@;
    let mut e: usize = 0;
    while e < plan.experts
        invariant
            e <= plan.experts,
            plan.wf(),
            is_grouped(*plan, *grouping),
            counts == grouping.counts@,
            steps@ == down_steps(*plan, counts, e as int),
        decreases plan.experts - e,
    {
        let count: usize = grouping.counts[e];
        if count > 0 {
            let at: usize = grouping.offsets[e];
            proof {
                lemma_run(*plan, counts, e as int, plan.d_model as int);
                lemma_run(*plan, counts, e as int, plan.width as int);
                assert(0 <= count * plan.d_model && 0 <= count * plan.width) by (nonlinear_arith);
            }
            steps.push(
                expert_rows(
                    Kind::RhsTransposed,
                    count,
                    plan.d_model,
                    plan.width,
                    tile(Buffer::ExpertHidden, at * plan.width, plan.width),
                    tile(Buffer::ExpertDownWeight(e), 0, plan.width),
                    tile(Buffer::ExpertOutput, at * plan.d_model, plan.d_model),
                ),
            );
            assert(steps@ =~= down_steps(*plan, counts, e as int) + seq![
                down_step(*plan, counts, e as int),
            ]);
        }
        e = e + 1;
    }
    steps
}

fn down_gradient(plan: &MoePlan, grouping: &Grouping) -> (steps: Vec<Step>)
    requires
        plan.wf(),
        is_grouped(*plan, *grouping),
    ensures
        steps@ == down_gradient_steps(*plan, grouping.counts@, plan.experts as int),
{
    let mut steps: Vec<Step> = Vec::new();
    let ghost counts = grouping.counts@;
    let mut e: usize = 0;
    while e < plan.experts
        invariant
            e <= plan.experts,
            plan.wf(),
            is_grouped(*plan, *grouping),
            counts == grouping.counts@,
            steps@ == down_gradient_steps(*plan, counts, e as int),
        decreases plan.experts - e,
    {
        let count: usize = grouping.counts[e];
        if count > 0 {
            let at: usize = grouping.offsets[e];
            proof {
                lemma_run(*plan, counts, e as int, plan.d_model as int);
                lemma_run(*plan, counts, e as int, plan.width as int);
                assert(0 <= count * plan.d_model && 0 <= count * plan.width) by (nonlinear_arith);
            }
            let upstream = tile(Buffer::GradExpertOutput, at * plan.d_model, plan.d_model);
            steps.push(
                expert_rows(
                    Kind::Plain,
                    count,
                    plan.width,
                    plan.d_model,
                    upstream,
                    tile(Buffer::ExpertDownWeight(e), 0, plan.width),
                    tile(Buffer::GradExpertHidden, at * plan.width, plan.width),
                ),
            );
            steps.push(
                weight_gradient(
                    upstream,
                    tile(Buffer::ExpertHidden, at * plan.width, plan.width),
                    tile(Buffer::ExpertDownGrad(e), 0, plan.width),
                    plan.d_model,
                    plan.width,
                    count,
                    true,
                ),
            );
            assert(steps@ =~= down_gradient_steps(*plan, counts, e as int) + down_gradient_step(
                *plan,
                counts,
                e as int,
            ));
        }
        e = e + 1;
    }
    steps
}

fn gate_up_gradient(plan: &MoePlan, grouping: &Grouping) -> (steps: Vec<Step>)
    requires
        plan.wf(),
        is_grouped(*plan, *grouping),
    ensures
        steps@ == gate_up_gradient_steps(*plan, grouping.counts@, plan.experts as int),
{
    let mut steps: Vec<Step> = Vec::new();
    let ghost counts = grouping.counts@;
    let mut e: usize = 0;
    while e < plan.experts
        invariant
            e <= plan.experts,
            plan.wf(),
            is_grouped(*plan, *grouping),
            counts == grouping.counts@,
            steps@ == gate_up_gradient_steps(*plan, counts, e as int),
        decreases plan.experts - e,
    {
        let count: usize = grouping.counts[e];
        if count > 0 {
            let at: usize = grouping.offsets[e];
            proof {
                lemma_run(*plan, counts, e as int, plan.d_model as int);
                lemma_run(*plan, counts, e as int, plan.double as int);
                lemma_packed(*plan, e as int);
                assert(0 <= count * plan.d_model && 0 <= count * plan.double) by (nonlinear_arith);
            }
            let upstream = tile(Buffer::GradExpertGateUp, at * plan.double, plan.double);
            steps.push(
                expert_rows(
                    Kind::Plain,
                    count,
                    plan.d_model,
                    plan.double,
                    upstream,
                    tile(Buffer::ExpertWeights, e * plan.packed_stride, plan.d_model),
                    tile(Buffer::GradExpertInput, at * plan.d_model, plan.d_model),
                ),
            );
            steps.push(reserve(Buffer::Scratch, plan.packed_stride));
            steps.push(
                weight_gradient(
                    upstream,
                    tile(Buffer::Gathered, at * plan.d_model, plan.d_model),
                    tile(Buffer::Scratch, 0, plan.d_model),
                    plan.double,
                    plan.d_model,
                    count,
                    false,
                ),
            );
            steps.push(add_span(Buffer::ExpertGateGrad(e), Buffer::Scratch, 0, plan.weight));
            steps.push(
                add_span(Buffer::ExpertUpGrad(e), Buffer::Scratch, plan.weight, plan.weight),
            );
            assert(steps@ =~= gate_up_gradient_steps(*plan, counts, e as int)
                + gate_up_gradient_step(*plan, counts, e as int));
        }
        e = e + 1;
    }
    steps
}

// -- The passes ----------------------------------------------------------------

/// The steps before the choice of experts comes back to the host.
pub fn route(plan: &MoePlan) -> (steps: Vec<Step>)
    ensures
        steps@ == router_steps(*plan),
{
    router(plan)
}

/// The gather, where anything was routed.
pub open spec fn gather_steps(plan: MoePlan) -> Seq<Step> {
    if plan.routed > 0 {
        gathered_steps(plan)
    } else {
        Seq::empty()
    }
}

/// The scatter, where anything was routed.
pub open spec fn scatter_steps(plan: MoePlan) -> Seq<Step> {
    if plan.routed > 0 {
        scattered_steps(plan)
    } else {
        Seq::empty()
    }
}

/// The shared expert, which every row goes through, where there is one.
pub open spec fn shared_steps(shared: Option<GatedPlan>) -> Seq<Step> {
    match shared {
        Some(gated) => gpu_feed_forward::forward_steps(gated),
        None => Seq::empty(),
    }
}

/// The steps after the grouping: every routed row through its expert, each
/// scaled by its gate and added to the output, then the shared expert.
pub open spec fn forward_steps(
    plan: MoePlan,
    counts: Seq<usize>,
    shared: Option<GatedPlan>,
) -> Seq<Step> {
    room_steps(plan) + gather_steps(plan) + packing_steps(plan) + gate_up_steps(
        plan,
        counts,
        plan.experts as int,
    ) + activated_steps(plan) + down_steps(plan, counts, plan.experts as int) + scatter_steps(plan)
        + shared_steps(shared) + statistics_steps(plan)
}

/// The steps after the grouping.
pub fn forward_moe(plan: &MoePlan, grouping: &Grouping, shared: &Option<GatedPlan>) -> (steps: Vec<
    Step,
>)
    requires
        plan.wf(),
        is_grouped(*plan, *grouping),
    ensures
        steps@ == forward_steps(*plan, grouping.counts@, *shared),
{
    let mut steps = room(plan);
    if plan.routed > 0 {
        let mut next = gathered(plan);
        steps.append(&mut next);
    } else {
        assert(steps@ =~= room_steps(*plan) + gather_steps(*plan));
    }
    let mut next = packing(plan);
    steps.append(&mut next);
    let mut next = gate_up(plan, grouping);
    steps.append(&mut next);
    let mut next = activated(plan);
    steps.append(&mut next);
    let mut next = down(plan, grouping);
    steps.append(&mut next);
    let ghost before = steps@;
    if plan.routed > 0 {
        let mut next = scattered(plan);
        steps.append(&mut next);
    } else {
        assert(steps@ =~= before + scatter_steps(*plan));
    }
    let ghost before = steps@;
    match shared {
        Some(gated) => {
            let mut next = gpu_feed_forward::forward_swiglu(gated);
            steps.append(&mut next);
        },
        None => {
            assert(steps@ =~= before + shared_steps(*shared));
        },
    }
    let mut next = statistics(plan);
    steps.append(&mut next);
    steps
}

/// The shared expert's backward pass, where there is one. It writes the
/// gradient of the input before anything is added to it.
pub open spec fn shared_gradient_steps(shared: Option<GatedPlan>) -> Seq<Step> {
    match shared {
        Some(gated) => gpu_feed_forward::backward_steps(gated),
        None => Seq::empty(),
    }
}

/// The gradients of the experts, where anything was routed.
pub open spec fn experts_gradient_steps(plan: MoePlan, counts: Seq<usize>) -> Seq<Step> {
    if plan.routed > 0 {
        upstream_steps(plan) + down_gradient_steps(plan, counts, plan.experts as int)
            + deactivated_steps(plan) + gate_up_gradient_steps(plan, counts, plan.experts as int)
            + downstream_steps(plan)
    } else {
        Seq::empty()
    }
}

/// What the load-balancing loss adds, where it has a weight.
pub open spec fn balance_steps(plan: MoePlan, balance: bool) -> Seq<Step> {
    if balance {
        balance_gradient_steps(plan)
    } else {
        Seq::empty()
    }
}

/// The backward pass, step by step.
pub open spec fn backward_steps(
    plan: MoePlan,
    counts: Seq<usize>,
    shared: Option<GatedPlan>,
    balance: bool,
) -> Seq<Step> {
    shared_gradient_steps(shared) + gate_gradient_steps(plan) + experts_gradient_steps(plan, counts)
        + probabilities_gradient_steps(plan) + balance_steps(plan, balance) + router_gradient_steps(
        plan,
    )
}

/// The gradients of the experts.
fn experts_gradient(plan: &MoePlan, grouping: &Grouping) -> (steps: Vec<Step>)
    requires
        plan.wf(),
        is_grouped(*plan, *grouping),
    ensures
        steps@ == experts_gradient_steps(*plan, grouping.counts@),
{
    if plan.routed == 0 {
        let steps: Vec<Step> = Vec::new();
        assert(steps@ =~= Seq::<Step>::empty());
        return steps;
    }
    let mut steps = upstream(plan);
    let mut next = down_gradient(plan, grouping);
    steps.append(&mut next);
    let mut next = deactivated(plan);
    steps.append(&mut next);
    let mut next = gate_up_gradient(plan, grouping);
    steps.append(&mut next);
    let mut next = downstream(plan);
    steps.append(&mut next);
    steps
}

/// The backward pass. `balance` says whether the load-balancing loss has a
/// weight and a token to weigh.
pub fn backward_moe(
    plan: &MoePlan,
    grouping: &Grouping,
    shared: &Option<GatedPlan>,
    balance: bool,
) -> (steps: Vec<Step>)
    requires
        plan.wf(),
        is_grouped(*plan, *grouping),
    ensures
        steps@ == backward_steps(*plan, grouping.counts@, *shared, balance),
{
    let mut steps: Vec<Step> = match shared {
        Some(gated) => gpu_feed_forward::backward_swiglu(gated),
        None => Vec::new(),
    };
    assert(steps@ =~= shared_gradient_steps(*shared));
    let mut next = gate_gradient(plan);
    steps.append(&mut next);
    let mut next = experts_gradient(plan, grouping);
    steps.append(&mut next);
    let mut next = probabilities_gradient(plan);
    steps.append(&mut next);
    let ghost before = steps@;
    if balance {
        let mut next = balance_gradient(plan);
        steps.append(&mut next);
    } else {
        assert(steps@ =~= before + balance_steps(*plan, balance));
    }
    let mut next = router_gradient(plan);
    steps.append(&mut next);
    steps
}

} // verus!
