//! What a batch computes, whatever the arithmetic of the device is.
//!
//! An [`Arithmetic`] says what the device makes of whole buffers. Running the
//! dispatches of a batch with it gives the textbook's answer: every layer is
//! its activation of its weighted and biased input, the error goes back through
//! the weights that made it and through the slope of the very activation that
//! was applied, every gradient is made from a layer's own error and its own
//! input, and every parameter follows its own gradient.
use crate::losses::Activation;
use crate::metal_batch::{
    backward_dispatches, batch_dispatches, forward_dispatches, is_counted, is_network,
    layer_gradient, update_dispatches, Dispatch, Place,
};
use crate::metal_training::DenseLayer;
use vstd::prelude::*;

verus! {

/// What a device makes of buffers. Sizes are rows and columns of the result
/// and what is summed over.
#[verifier::reject_recursive_types(V)]
pub ghost struct Arithmetic<V> {
    /// Rows times the rows of a weight.
    pub weighted: spec_fn(V, V, int, int, int) -> V,
    /// The mean over the rows of a batch of the products of two of their
    /// columns.
    pub mean_product: spec_fn(V, V, int, int, int) -> V,
    /// Rows times the columns of a weight.
    pub taken_back: spec_fn(V, V, int, int, int) -> V,
    /// Rows with biases added, and what an activation makes of them.
    pub biased: spec_fn(V, V, int, int) -> V,
    pub activated: spec_fn(Activation, V) -> V,
    /// The slope of an activation where it made the given values.
    pub slope: spec_fn(Activation, V) -> V,
    /// So many differences of two buffers, and so many products.
    pub difference: spec_fn(V, V, int) -> V,
    pub times: spec_fn(V, V, int) -> V,
    /// The mean of rows.
    pub mean: spec_fn(V, int, int) -> V,
    /// A parameter after the optimizer saw its gradient.
    pub updated: spec_fn(V, V, int) -> V,
    /// A loss with a batch's share added: outputs, targets, how many there
    /// are, and how many batches.
    pub with_share: spec_fn(V, V, V, int, int) -> V,
}

// -- What a network computes ------------------------------------------------------

/// A batch to train on: the network's parameters, the inputs, the targets, and
/// the loss so far.
#[verifier::reject_recursive_types(V)]
pub ghost struct Batch<V> {
    pub weights: spec_fn(int) -> V,
    pub biases: spec_fn(int) -> V,
    pub input: V,
    pub target: V,
    pub loss: V,
    pub rows: int,
}

/// What layer `l` makes of a batch; the batch itself before the first layer.
pub open spec fn output<V>(a: Arithmetic<V>, layers: Seq<DenseLayer>, batch: Batch<V>, l: int) -> V
    decreases l + 1,
{
    if l < 0 {
        batch.input
    } else {
        let (units, inputs) = (layers[l].units as int, layers[l].inputs as int);
        let sums = (a.weighted)(
            output(a, layers, batch, l - 1),
            (batch.weights)(l),
            batch.rows,
            units,
            inputs,
        );
        (a.activated)(
            layers[l].activation,
            (a.biased)(sums, (batch.biases)(l), batch.rows, units),
        )
    }
}

/// The error of layer `l`: how far the last layer is from the targets, taken
/// back through the layers after `l`, by the slope of the layer's own
/// activation.
pub open spec fn error<V>(a: Arithmetic<V>, layers: Seq<DenseLayer>, batch: Batch<V>, l: int) -> V
    decreases layers.len() - l,
{
    let made = output(a, layers, batch, l);
    let count = batch.rows * layers[l].units;
    let reaching = if l >= layers.len() - 1 {
        (a.difference)(batch.target, made, count)
    } else {
        (a.taken_back)(
            error(a, layers, batch, l + 1),
            (batch.weights)(l + 1),
            batch.rows,
            layers[l].units as int,
            layers[l + 1].units as int,
        )
    };
    (a.times)(reaching, (a.slope)(layers[l].activation, made), count)
}

/// The gradient of the weights of layer `l`.
pub open spec fn weight_gradient<V>(
    a: Arithmetic<V>,
    layers: Seq<DenseLayer>,
    batch: Batch<V>,
    l: int,
) -> V {
    (a.mean_product)(
        error(a, layers, batch, l),
        output(a, layers, batch, l - 1),
        layers[l].units as int,
        layers[l].inputs as int,
        batch.rows,
    )
}

/// The gradient of the biases of layer `l`.
pub open spec fn bias_gradient<V>(
    a: Arithmetic<V>,
    layers: Seq<DenseLayer>,
    batch: Batch<V>,
    l: int,
) -> V {
    (a.mean)(error(a, layers, batch, l), batch.rows, layers[l].units as int)
}

// -- What the dispatches compute ---------------------------------------------------

/// What the buffers of a session hold, and the loss so far.
pub ghost struct State<V> {
    pub at: Map<Place, V>,
    pub loss: V,
}

/// The activation a kernel applies for a code.
pub open spec fn decoded(code: i32) -> Activation {
    if code == 0 {
        Activation::Linear
    } else if code == 1 {
        Activation::Relu
    } else if code == 2 {
        Activation::Sigmoid
    } else {
        Activation::Tanh
    }
}

/// What a dispatch leaves behind.
pub open spec fn done<V>(a: Arithmetic<V>, state: State<V>, dispatch: Dispatch) -> State<V> {
    let at = state.at;
    match dispatch {
        Dispatch::ProductNt { out, a: x, b, m, n, k } => State {
            at: at.insert(out, (a.weighted)(at[x], at[b], m as int, n as int, k as int)),
            ..state
        },
        Dispatch::ProductTn { out, a: x, b, m, n, k } => State {
            at: at.insert(out, (a.mean_product)(at[x], at[b], m as int, n as int, k as int)),
            ..state
        },
        Dispatch::ProductNn { out, a: x, b, m, n, k } => State {
            at: at.insert(out, (a.taken_back)(at[x], at[b], m as int, n as int, k as int)),
            ..state
        },
        Dispatch::BiasAct { layer, rows, units, code } => State {
            at: at.insert(
                Place::Outputs(layer),
                (a.activated)(
                    decoded(code),
                    (a.biased)(
                        at[Place::Outputs(layer)],
                        at[Place::Biases(layer)],
                        rows as int,
                        units as int,
                    ),
                ),
            ),
            ..state
        },
        Dispatch::OutputDelta { layer, count, code } => {
            let made = at[Place::Outputs(layer)];
            State {
                at: at.insert(
                    Place::Deltas(layer),
                    (a.times)(
                        (a.difference)(at[Place::Target], made, count as int),
                        (a.slope)(decoded(code), made),
                        count as int,
                    ),
                ),
                ..state
            }
        },
        Dispatch::BiasGradient { layer, rows, units } => State {
            at: at.insert(
                Place::BiasGradient(layer),
                (a.mean)(at[Place::Deltas(layer)], rows as int, units as int),
            ),
            ..state
        },
        Dispatch::ActDerivative { layer, count, code } => State {
            at: at.insert(
                Place::Deltas(layer),
                (a.times)(
                    at[Place::Deltas(layer)],
                    (a.slope)(decoded(code), at[Place::Outputs(layer)]),
                    count as int,
                ),
            ),
            ..state
        },
        Dispatch::Update { layer, weights, biases } => State {
            at: at.insert(
                Place::Weights(layer),
                (a.updated)(
                    at[Place::Weights(layer)],
                    at[Place::WeightGradient(layer)],
                    weights as int,
                ),
            ).insert(
                Place::Biases(layer),
                (a.updated)(
                    at[Place::Biases(layer)],
                    at[Place::BiasGradient(layer)],
                    biases as int,
                ),
            ),
            ..state
        },
        Dispatch::LossSum { layer, count, batches } => State {
            loss: (a.with_share)(
                state.loss,
                at[Place::Outputs(layer)],
                at[Place::Target],
                count as int,
                batches as int,
            ),
            ..state
        },
    }
}

/// What the first `k` dispatches leave behind.
pub open spec fn run_to<V>(
    a: Arithmetic<V>,
    state: State<V>,
    dispatches: Seq<Dispatch>,
    k: int,
) -> State<V>
    decreases k,
{
    if k <= 0 {
        state
    } else {
        done(a, run_to(a, state, dispatches, k - 1), dispatches[k - 1])
    }
}

/// What dispatches leave behind.
pub open spec fn run<V>(a: Arithmetic<V>, state: State<V>, dispatches: Seq<Dispatch>) -> State<V> {
    run_to(a, state, dispatches, dispatches.len() as int)
}

proof fn lemma_prefix<V>(
    a: Arithmetic<V>,
    state: State<V>,
    first: Seq<Dispatch>,
    second: Seq<Dispatch>,
    k: int,
)
    requires
        0 <= k <= first.len(),
    ensures
        run_to(a, state, first + second, k) == run_to(a, state, first, k),
    decreases k,
{
    if k > 0 {
        lemma_prefix(a, state, first, second, k - 1);
    }
}

proof fn lemma_suffix<V>(
    a: Arithmetic<V>,
    state: State<V>,
    first: Seq<Dispatch>,
    second: Seq<Dispatch>,
    k: int,
)
    requires
        0 <= k <= second.len(),
    ensures
        run_to(a, state, first + second, first.len() + k) == run_to(
            a,
            run(a, state, first),
            second,
            k,
        ),
    decreases k,
{
    if k > 0 {
        lemma_suffix(a, state, first, second, k - 1);
        assert((first + second)[first.len() + k - 1] == second[k - 1]);
    } else {
        lemma_prefix(a, state, first, second, first.len() as int);
    }
}

proof fn lemma_both<V>(
    a: Arithmetic<V>,
    state: State<V>,
    first: Seq<Dispatch>,
    second: Seq<Dispatch>,
)
    ensures
        run(a, state, first + second) == run(a, run(a, state, first), second),
{
    lemma_suffix(a, state, first, second, second.len() as int);
}

/// The batch that the buffers of a session hold.
pub open spec fn batch_in<V>(state: State<V>, rows: int) -> Batch<V> {
    Batch {
        weights: |l: int| state.at[Place::Weights(l as usize)],
        biases: |l: int| state.at[Place::Biases(l as usize)],
        input: state.at[Place::Input],
        target: state.at[Place::Target],
        loss: state.loss,
        rows,
    }
}

/// Whether a state still holds a batch, with its network.
spec fn still<V>(batch: Batch<V>, count: int, state: State<V>) -> bool {
    &&& state.at[Place::Input] == batch.input
    &&& state.at[Place::Target] == batch.target
    &&& state.loss == batch.loss
    &&& forall|l: usize|
        l < count ==> #[trigger] state.at[Place::Weights(l)] == (batch.weights)(l as int)
    &&& forall|l: usize|
        l < count ==> #[trigger] state.at[Place::Biases(l)] == (batch.biases)(l as int)
}

/// Whether a state has the outputs of the first `k` layers.
spec fn has_outputs<V>(
    a: Arithmetic<V>,
    layers: Seq<DenseLayer>,
    batch: Batch<V>,
    state: State<V>,
    k: int,
) -> bool {
    forall|l: usize|
        l < k ==> #[trigger] state.at[Place::Outputs(l)] == output(a, layers, batch, l as int)
}

proof fn lemma_forward<V>(
    a: Arithmetic<V>,
    layers: Seq<DenseLayer>,
    batch: Batch<V>,
    state: State<V>,
    rows: usize,
    k: int,
)
    requires
        still(batch, layers.len() as int, state),
        batch.rows == rows,
        0 <= k <= layers.len() <= usize::MAX,
        forall|i: int|
            0 <= i < layers.len() ==> (#[trigger] layers[i]).activation != Activation::Softmax,
    ensures
        still(batch, layers.len() as int, run(a, state, forward_dispatches(layers, rows, k))),
        has_outputs(a, layers, batch, run(a, state, forward_dispatches(layers, rows, k)), k),
    decreases k,
{
    if k > 0 {
        lemma_forward(a, layers, batch, state, rows, k - 1);
        let before = forward_dispatches(layers, rows, k - 1);
        let all = forward_dispatches(layers, rows, k);
        let next = all.skip(before.len() as int);
        assert(all =~= before + next);
        lemma_both(a, state, before, next);
        let now = run(a, state, before);
        assert(layers[k - 1].activation != Activation::Softmax);
        assert(k > 1 ==> now.at[Place::Outputs((k - 2) as usize)] == output(
            a,
            layers,
            batch,
            k - 2,
        ));
        assert(now.at[Place::Weights((k - 1) as usize)] == (batch.weights)(k - 1));
        assert(now.at[Place::Biases((k - 1) as usize)] == (batch.biases)(k - 1));
        let (d0, d1) = (all[all.len() - 2], all[all.len() - 1]);
        assert(next.len() == 2 && next[0] == d0 && next[1] == d1);
        let m1 = done(a, now, d0);
        let m2 = done(a, m1, d1);
        assert(run_to(a, now, next, 0) == now);
        assert(run_to(a, now, next, 1) == m1);
        assert(run_to(a, now, next, 2) == m2);
        assert(decoded(d1->BiasAct_code) == layers[k - 1].activation);
        assert(k == 1 ==> output(a, layers, batch, k - 2) == batch.input);
        assert(m1.at[Place::Outputs((k - 1) as usize)] == (a.weighted)(
            output(a, layers, batch, k - 2),
            (batch.weights)(k - 1),
            batch.rows,
            layers[k - 1].units as int,
            layers[k - 1].inputs as int,
        ));
        assert(run(a, now, next).at[Place::Outputs((k - 1) as usize)] == output(
            a,
            layers,
            batch,
            k - 1,
        ));
    }
}

/// Whether a state has the gradients of the layers from `k` on, and the error
/// of the one before.
spec fn has_gradients<V>(
    a: Arithmetic<V>,
    layers: Seq<DenseLayer>,
    batch: Batch<V>,
    state: State<V>,
    k: int,
) -> bool {
    &&& forall|l: usize|
        k <= l < layers.len() ==> #[trigger] state.at[Place::WeightGradient(l)]
            == weight_gradient(a, layers, batch, l as int)
    &&& forall|l: usize|
        k <= l < layers.len() ==> #[trigger] state.at[Place::BiasGradient(l)] == bias_gradient(
            a,
            layers,
            batch,
            l as int,
        )
    &&& k > 0 ==> state.at[Place::Deltas((k - 1) as usize)] == error(a, layers, batch, k - 1)
}

proof fn lemma_gradient<V>(
    a: Arithmetic<V>,
    layers: Seq<DenseLayer>,
    input_width: int,
    batch: Batch<V>,
    state: State<V>,
    rows: usize,
    k: int,
)
    requires
        is_network(layers, input_width),
        is_counted(layers, rows as int),
        still(batch, layers.len() as int, state),
        has_outputs(a, layers, batch, state, layers.len() as int),
        has_gradients(a, layers, batch, state, k + 1),
        batch.rows == rows,
        0 <= k < layers.len() <= usize::MAX,
    ensures
        ({
            let after = run(a, state, layer_gradient(layers, rows, k));
            &&& still(batch, layers.len() as int, after)
            &&& has_outputs(a, layers, batch, after, layers.len() as int)
            &&& has_gradients(a, layers, batch, after, k)
        }),
{
    let steps = layer_gradient(layers, rows, k);
    let after = run(a, state, steps);
    assert(state.at[Place::Outputs(k as usize)] == output(a, layers, batch, k));
    assert(state.at[Place::Weights(k as usize)] == (batch.weights)(k));
    if k > 0 {
        assert(state.at[Place::Outputs((k - 1) as usize)] == output(a, layers, batch, k - 1));
        assert(crate::metal_batch::is_fed(layers, k));
        assert(layers[k - 1].activation != Activation::Softmax);
        assert(rows * layers[k].inputs <= usize::MAX);
        assert(0 <= rows * layers[k].inputs) by (nonlinear_arith);
        let (s0, s1, s2, s3) = (steps[0], steps[1], steps[2], steps[3]);
        let m1 = done(a, state, s0);
        let m2 = done(a, m1, s1);
        let m3 = done(a, m2, s2);
        let m4 = done(a, m3, s3);
        assert(run_to(a, state, steps, 0) == state);
        assert(run_to(a, state, steps, 1) == m1);
        assert(run_to(a, state, steps, 2) == m2);
        assert(run_to(a, state, steps, 3) == m3);
        assert(run_to(a, state, steps, 4) == m4);
        assert(after == m4);
        assert(after.at[Place::Deltas((k - 1) as usize)] == error(a, layers, batch, k - 1));
    } else {
        let m1 = done(a, state, steps[0]);
        let m2 = done(a, m1, steps[1]);
        assert(run_to(a, state, steps, 0) == state);
        assert(run_to(a, state, steps, 1) == m1);
        assert(run_to(a, state, steps, 2) == m2);
        assert(after == m2);
    }
    assert(after.at[Place::WeightGradient(k as usize)] == weight_gradient(a, layers, batch, k));
    assert(after.at[Place::BiasGradient(k as usize)] == bias_gradient(a, layers, batch, k));
}

proof fn lemma_backward<V>(
    a: Arithmetic<V>,
    layers: Seq<DenseLayer>,
    input_width: int,
    batch: Batch<V>,
    state: State<V>,
    rows: usize,
    k: int,
)
    requires
        is_network(layers, input_width),
        is_counted(layers, rows as int),
        still(batch, layers.len() as int, state),
        has_outputs(a, layers, batch, state, layers.len() as int),
        has_gradients(a, layers, batch, state, layers.len() as int),
        batch.rows == rows,
        0 <= k <= layers.len() <= usize::MAX,
    ensures
        ({
            let after = run(a, state, backward_dispatches(layers, rows, k));
            &&& still(batch, layers.len() as int, after)
            &&& has_outputs(a, layers, batch, after, layers.len() as int)
            &&& has_gradients(a, layers, batch, after, k)
        }),
    decreases layers.len() - k,
{
    if k < layers.len() {
        lemma_backward(a, layers, input_width, batch, state, rows, k + 1);
        let before = backward_dispatches(layers, rows, k + 1);
        lemma_both(a, state, before, layer_gradient(layers, rows, k));
        lemma_gradient(a, layers, input_width, batch, run(a, state, before), rows, k);
    }
}

/// Whether the parameters of the first `k` layers have followed their
/// gradients, and the others are what they were.
spec fn has_updated<V>(
    a: Arithmetic<V>,
    layers: Seq<DenseLayer>,
    before: State<V>,
    after: State<V>,
    k: int,
) -> bool {
    &&& forall|l: usize|
        l < layers.len() ==> #[trigger] after.at[Place::Weights(l)] == if l < k {
            (a.updated)(
                before.at[Place::Weights(l)],
                before.at[Place::WeightGradient(l)],
                layers[l as int].units * layers[l as int].inputs,
            )
        } else {
            before.at[Place::Weights(l)]
        }
    &&& forall|l: usize|
        l < layers.len() ==> #[trigger] after.at[Place::Biases(l)] == if l < k {
            (a.updated)(
                before.at[Place::Biases(l)],
                before.at[Place::BiasGradient(l)],
                layers[l as int].units as int,
            )
        } else {
            before.at[Place::Biases(l)]
        }
    &&& forall|p: Place|
        !(p is Weights) && !(p is Biases) ==> #[trigger] after.at[p] == before.at[p]
    &&& after.loss == before.loss
}

proof fn lemma_update<V>(
    a: Arithmetic<V>,
    layers: Seq<DenseLayer>,
    state: State<V>,
    rows: int,
    k: int,
)
    requires
        is_counted(layers, rows),
        0 <= k <= layers.len() <= usize::MAX,
    ensures
        has_updated(a, layers, state, run(a, state, update_dispatches(layers, k)), k),
    decreases k,
{
    if k > 0 {
        lemma_update(a, layers, state, rows, k - 1);
        let before = update_dispatches(layers, k - 1);
        let all = update_dispatches(layers, k);
        let next = all.skip(before.len() as int);
        assert(all =~= before + next);
        lemma_both(a, state, before, next);
        assert(layers[k - 1].units * layers[k - 1].inputs <= usize::MAX);
        assert(0 <= layers[k - 1].units * layers[k - 1].inputs) by (nonlinear_arith);
        let now = run(a, state, before);
        reveal_with_fuel(run_to, 2);
        assert(run(a, now, next) == done(a, now, next[0]));
    }
}

/// A batch trains the network it is meant to. Whatever the arithmetic of the
/// device is, the dispatches of a batch leave every layer's outputs, the
/// gradients that the error of the batch gives its weights and biases, those
/// parameters as the optimizer has them follow just these gradients, and the
/// loss with the batch's share, which is that of the outputs.
pub proof fn law_batch_descends<V>(
    a: Arithmetic<V>,
    layers: Seq<DenseLayer>,
    input_width: int,
    state: State<V>,
    rows: usize,
    batches: usize,
)
    requires
        is_network(layers, input_width),
        is_counted(layers, rows as int),
        layers.len() <= usize::MAX,
    ensures
        ({
            let batch = batch_in(state, rows as int);
            let after = run(a, state, batch_dispatches(layers, rows, batches));
            let last = layers.len() - 1;
            &&& forall|l: usize|
                l < layers.len() ==> #[trigger] after.at[Place::Outputs(l)] == output(
                    a,
                    layers,
                    batch,
                    l as int,
                )
            &&& forall|l: usize|
                l < layers.len() ==> #[trigger] after.at[Place::WeightGradient(l)]
                    == weight_gradient(a, layers, batch, l as int)
            &&& forall|l: usize|
                l < layers.len() ==> #[trigger] after.at[Place::BiasGradient(l)] == bias_gradient(
                    a,
                    layers,
                    batch,
                    l as int,
                )
            &&& forall|l: usize|
                l < layers.len() ==> #[trigger] after.at[Place::Weights(l)] == (a.updated)(
                    state.at[Place::Weights(l)],
                    weight_gradient(a, layers, batch, l as int),
                    layers[l as int].units * layers[l as int].inputs,
                )
            &&& forall|l: usize|
                l < layers.len() ==> #[trigger] after.at[Place::Biases(l)] == (a.updated)(
                    state.at[Place::Biases(l)],
                    bias_gradient(a, layers, batch, l as int),
                    layers[l as int].units as int,
                )
            &&& after.loss == (a.with_share)(
                state.loss,
                output(a, layers, batch, last),
                state.at[Place::Target],
                rows * layers[last].units,
                batches as int,
            )
        }),
{
    let n = layers.len() as int;
    let batch = batch_in(state, rows as int);
    let all = batch_dispatches(layers, rows, batches);
    let s1 = forward_dispatches(layers, rows, n);
    let s2 = all.subrange(s1.len() as int, s1.len() as int + 1);
    let s3 = backward_dispatches(layers, rows, 0);
    let s4 = update_dispatches(layers, n);
    let s5 = all.skip(all.len() - 1);
    assert(all =~= s1 + s2 + s3 + s4 + s5);
    assert(rows * layers[n - 1].units <= usize::MAX);
    assert(0 <= rows * layers[n - 1].units) by (nonlinear_arith);
    assert(layers[n - 1].activation != Activation::Softmax);
    assert(still(batch, n, state));
    lemma_forward(a, layers, batch, state, rows, n);
    let m1 = run(a, state, s1);
    lemma_both(a, state, s1, s2);
    let m2 = run(a, m1, s2);
    assert(m1.at[Place::Outputs((n - 1) as usize)] == output(a, layers, batch, n - 1));
    assert(m2 == done(a, m1, s2[0])) by {
        reveal_with_fuel(run_to, 2);
    }
    assert(m2.at[Place::Deltas((n - 1) as usize)] == error(a, layers, batch, n - 1));
    lemma_both(a, state, s1 + s2, s3);
    lemma_backward(a, layers, input_width, batch, m2, rows, 0);
    let m3 = run(a, m2, s3);
    lemma_both(a, state, s1 + s2 + s3, s4);
    lemma_update(a, layers, m3, rows as int, n);
    let m4 = run(a, m3, s4);
    lemma_both(a, state, s1 + s2 + s3 + s4, s5);
    let m5 = run(a, m4, s5);
    assert(m5 == done(a, m4, s5[0])) by {
        reveal_with_fuel(run_to, 2);
    }
    assert forall|l: usize| l < layers.len() implies #[trigger] m5.at[Place::Weights(l)]
        == (a.updated)(
        state.at[Place::Weights(l)],
        weight_gradient(a, layers, batch, l as int),
        layers[l as int].units * layers[l as int].inputs,
    ) by {
        assert(m4.at[Place::Weights(l)] == m5.at[Place::Weights(l)]);
        assert(m3.at[Place::WeightGradient(l)] == weight_gradient(a, layers, batch, l as int));
        assert(m3.at[Place::Weights(l)] == (batch.weights)(l as int));
    }
    assert forall|l: usize| l < layers.len() implies #[trigger] m5.at[Place::Biases(l)]
        == (a.updated)(
        state.at[Place::Biases(l)],
        bias_gradient(a, layers, batch, l as int),
        layers[l as int].units as int,
    ) by {
        assert(m4.at[Place::Biases(l)] == m5.at[Place::Biases(l)]);
        assert(m3.at[Place::BiasGradient(l)] == bias_gradient(a, layers, batch, l as int));
        assert(m3.at[Place::Biases(l)] == (batch.biases)(l as int));
    }
    assert(m4.at[Place::Outputs((n - 1) as usize)] == m3.at[Place::Outputs((n - 1) as usize)]);
    assert(m4.at[Place::Target] == m3.at[Place::Target]);
}

} // verus!
