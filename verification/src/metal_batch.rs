//! The dispatches of one batch on a Metal device: forwards through the layers,
//! the loss, backwards, and the optimizer's update.
use crate::losses::Activation;
use crate::metal_training::{act, act_code, DenseLayer};
use vstd::prelude::*;

verus! {

/// A buffer of a session. Those of a layer go by its index.
#[derive(Clone, Copy, Debug, PartialEq, Eq, Structural)]
pub enum Place {
    Input,
    Target,
    Weights(usize),
    Biases(usize),
    WeightGradient(usize),
    BiasGradient(usize),
    Outputs(usize),
    Deltas(usize),
}

/// What the device is asked to do.
#[derive(Clone, Copy, Debug, PartialEq, Eq, Structural)]
pub enum Dispatch {
    /// `out[m, n] = a[m, k] * b[n, k]^T`.
    ProductNt { out: Place, a: Place, b: Place, m: usize, n: usize, k: usize },
    /// `out[m, n] = a[k, m]^T * b[k, n] / k`.
    ProductTn { out: Place, a: Place, b: Place, m: usize, n: usize, k: usize },
    /// `out[m, n] = a[m, k] * b[k, n]`.
    ProductNn { out: Place, a: Place, b: Place, m: usize, n: usize, k: usize },
    /// Adds the biases to each row and applies the activation.
    BiasAct { layer: usize, rows: usize, units: usize, code: i32 },
    /// The gradient of the output layer's sums.
    OutputDelta { layer: usize, count: usize, code: i32 },
    /// The gradient of the biases: the mean of the rows.
    BiasGradient { layer: usize, rows: usize, units: usize },
    /// Multiplies by the derivative of the activation.
    ActDerivative { layer: usize, count: usize, code: i32 },
    /// Updates a layer's weights and biases, as [`crate::metal_update::update`]
    /// plans it.
    Update { layer: usize, weights: usize, biases: usize },
    /// Adds the batch's share to the epoch's loss: the mean over so many
    /// outputs, and over so many batches.
    LossSum { layer: usize, count: usize, batches: usize },
}

/// Whether each layer reads what the one before it makes.
pub open spec fn is_network(layers: Seq<DenseLayer>, input_width: int) -> bool {
    &&& layers.len() > 0
    &&& layers[0].inputs == input_width
    &&& forall|i: int| 0 < i < layers.len() ==> #[trigger] is_fed(layers, i)
    &&& forall|i: int|
        0 <= i < layers.len() ==> (#[trigger] layers[i]).activation != Activation::Softmax
}

/// Whether a layer reads what the one before it makes.
pub open spec fn is_fed(layers: Seq<DenseLayer>, i: int) -> bool {
    layers[i].inputs == layers[i - 1].units
}

/// How long a buffer is in a session of batches of so many rows.
pub open spec fn place_len(
    layers: Seq<DenseLayer>,
    input_width: int,
    batch: int,
    place: Place,
) -> int {
    match place {
        Place::Input => batch * input_width,
        Place::Target => batch * layers[layers.len() - 1].units,
        Place::Weights(i) => layers[i as int].units * layers[i as int].inputs,
        Place::WeightGradient(i) => layers[i as int].units * layers[i as int].inputs,
        Place::Biases(i) => layers[i as int].units as int,
        Place::BiasGradient(i) => layers[i as int].units as int,
        Place::Outputs(i) => batch * layers[i as int].units,
        Place::Deltas(i) => batch * layers[i as int].units,
    }
}

/// What a layer reads.
#[verifier::allow_in_spec]
pub fn source(layer: usize) -> Place
    returns
        (if layer == 0 {
            Place::Input
        } else {
            Place::Outputs((layer - 1) as usize)
        }),
{
    if layer == 0 {
        Place::Input
    } else {
        Place::Outputs(layer - 1)
    }
}

/// The dispatches of the first `k` layers, forwards.
pub open spec fn forward_dispatches(layers: Seq<DenseLayer>, rows: usize, k: int) -> Seq<Dispatch>
    decreases k,
{
    if k <= 0 {
        Seq::empty()
    } else {
        let i = (k - 1) as usize;
        let layer = layers[k - 1];
        forward_dispatches(layers, rows, k - 1) + seq![
            Dispatch::ProductNt {
                out: Place::Outputs(i),
                a: source(i),
                b: Place::Weights(i),
                m: rows,
                n: layer.units,
                k: layer.inputs,
            },
            Dispatch::BiasAct {
                layer: i,
                rows,
                units: layer.units,
                code: act_code(layer.activation) as i32,
            },
        ]
    }
}

/// The dispatches of a layer, backwards: its gradients, and the deltas of the
/// layer before it.
pub open spec fn layer_gradient(layers: Seq<DenseLayer>, rows: usize, i: int) -> Seq<Dispatch> {
    let layer = layers[i];
    seq![
        Dispatch::ProductTn {
            out: Place::WeightGradient(i as usize),
            a: Place::Deltas(i as usize),
            b: source(i as usize),
            m: layer.units,
            n: layer.inputs,
            k: rows,
        },
        Dispatch::BiasGradient { layer: i as usize, rows, units: layer.units },
    ] + if i > 0 {
        seq![
            Dispatch::ProductNn {
                out: Place::Deltas((i - 1) as usize),
                a: Place::Deltas(i as usize),
                b: Place::Weights(i as usize),
                m: rows,
                n: layer.inputs,
                k: layer.units,
            },
            Dispatch::ActDerivative {
                layer: (i - 1) as usize,
                count: (rows * layer.inputs) as usize,
                code: act_code(layers[i - 1].activation) as i32,
            },
        ]
    } else {
        Seq::empty()
    }
}

/// The dispatches of the layers from the last to the `k`-th, backwards.
pub open spec fn backward_dispatches(layers: Seq<DenseLayer>, rows: usize, k: int) -> Seq<Dispatch>
    decreases layers.len() - k,
{
    if k >= layers.len() {
        Seq::empty()
    } else {
        backward_dispatches(layers, rows, k + 1) + layer_gradient(layers, rows, k)
    }
}

/// The updates of the first `k` layers.
pub open spec fn update_dispatches(layers: Seq<DenseLayer>, k: int) -> Seq<Dispatch>
    decreases k,
{
    if k <= 0 {
        Seq::empty()
    } else {
        update_dispatches(layers, k - 1) + seq![
            Dispatch::Update {
                layer: (k - 1) as usize,
                weights: (layers[k - 1].units * layers[k - 1].inputs) as usize,
                biases: layers[k - 1].units,
            },
        ]
    }
}

/// The dispatches of a batch of so many rows, in an epoch of so many batches.
pub open spec fn batch_dispatches(layers: Seq<DenseLayer>, rows: usize, batches: usize) -> Seq<
    Dispatch,
> {
    let last = layers.len() - 1;
    let outputs = (rows * layers[last].units) as usize;
    forward_dispatches(layers, rows, layers.len() as int) + seq![
        Dispatch::OutputDelta {
            layer: last as usize,
            count: outputs,
            code: act_code(layers[last].activation) as i32,
        },
    ] + backward_dispatches(layers, rows, 0) + update_dispatches(layers, layers.len() as int) + seq![
        Dispatch::LossSum { layer: last as usize, count: outputs, batches },
    ]
}

/// Whether every buffer of a session is short enough to be counted.
pub open spec fn is_counted(layers: Seq<DenseLayer>, batch: int) -> bool {
    forall|i: int|
        0 <= i < layers.len() ==> {
            &&& (#[trigger] layers[i]).units * layers[i].inputs <= usize::MAX
            &&& batch * layers[i].units <= usize::MAX
            &&& batch * layers[i].inputs <= usize::MAX
        }
}

fn code_of(activation: Activation) -> (code: i32)
    requires
        activation != Activation::Softmax,
    ensures
        code == act_code(activation),
{
    match act(activation) {
        Ok(code) => code,
        Err(_) => 0,
    }
}

fn forward(layers: &Vec<DenseLayer>, rows: usize) -> (dispatches: Vec<Dispatch>)
    requires
        forall|i: int|
            0 <= i < layers@.len() ==> (#[trigger] layers@[i]).activation != Activation::Softmax,
    ensures
        dispatches@ == forward_dispatches(layers@, rows, layers@.len() as int),
{
    let mut dispatches: Vec<Dispatch> = Vec::new();
    let mut i: usize = 0;
    while i < layers.len()
        invariant
            i <= layers@.len(),
            forall|i: int|
                0 <= i < layers@.len() ==> (#[trigger] layers@[i]).activation
                    != Activation::Softmax,
            dispatches@ == forward_dispatches(layers@, rows, i as int),
        decreases layers.len() - i,
    {
        let layer = layers[i];
        let mut next: Vec<Dispatch> = vec![
            Dispatch::ProductNt {
                out: Place::Outputs(i),
                a: source(i),
                b: Place::Weights(i),
                m: rows,
                n: layer.units,
                k: layer.inputs,
            },
            Dispatch::BiasAct { layer: i, rows, units: layer.units, code: code_of(layer.activation) },
        ];
        dispatches.append(&mut next);
        i = i + 1;
    }
    dispatches
}

fn gradient(layers: &Vec<DenseLayer>, rows: usize, i: usize) -> (dispatches: Vec<Dispatch>)
    requires
        i < layers@.len(),
        is_counted(layers@, rows as int),
        forall|i: int|
            0 <= i < layers@.len() ==> (#[trigger] layers@[i]).activation != Activation::Softmax,
    ensures
        dispatches@ == layer_gradient(layers@, rows, i as int),
{
    let layer = layers[i];
    let mut dispatches: Vec<Dispatch> = vec![
        Dispatch::ProductTn {
            out: Place::WeightGradient(i),
            a: Place::Deltas(i),
            b: source(i),
            m: layer.units,
            n: layer.inputs,
            k: rows,
        },
        Dispatch::BiasGradient { layer: i, rows, units: layer.units },
    ];
    if i > 0 {
        assert(rows * layers@[i as int].inputs <= usize::MAX);
        let mut next: Vec<Dispatch> = vec![
            Dispatch::ProductNn {
                out: Place::Deltas(i - 1),
                a: Place::Deltas(i),
                b: Place::Weights(i),
                m: rows,
                n: layer.inputs,
                k: layer.units,
            },
            Dispatch::ActDerivative {
                layer: i - 1,
                count: rows * layer.inputs,
                code: code_of(layers[i - 1].activation),
            },
        ];
        dispatches.append(&mut next);
    } else {
        assert(dispatches@ =~= layer_gradient(layers@, rows, i as int));
    }
    dispatches
}

fn backward(layers: &Vec<DenseLayer>, rows: usize) -> (dispatches: Vec<Dispatch>)
    requires
        is_counted(layers@, rows as int),
        forall|i: int|
            0 <= i < layers@.len() ==> (#[trigger] layers@[i]).activation != Activation::Softmax,
    ensures
        dispatches@ == backward_dispatches(layers@, rows, 0),
{
    let mut dispatches: Vec<Dispatch> = Vec::new();
    let mut i: usize = layers.len();
    while i > 0
        invariant
            i <= layers@.len(),
            is_counted(layers@, rows as int),
            forall|i: int|
                0 <= i < layers@.len() ==> (#[trigger] layers@[i]).activation
                    != Activation::Softmax,
            dispatches@ == backward_dispatches(layers@, rows, i as int),
        decreases i,
    {
        i = i - 1;
        let mut next = gradient(layers, rows, i);
        dispatches.append(&mut next);
    }
    dispatches
}

fn update(layers: &Vec<DenseLayer>, rows: usize) -> (dispatches: Vec<Dispatch>)
    requires
        is_counted(layers@, rows as int),
    ensures
        dispatches@ == update_dispatches(layers@, layers@.len() as int),
{
    let mut dispatches: Vec<Dispatch> = Vec::new();
    let mut i: usize = 0;
    while i < layers.len()
        invariant
            i <= layers@.len(),
            is_counted(layers@, rows as int),
            dispatches@ == update_dispatches(layers@, i as int),
        decreases layers.len() - i,
    {
        assert(layers@[i as int].units * layers@[i as int].inputs <= usize::MAX);
        let layer = layers[i];
        let mut next: Vec<Dispatch> = vec![
            Dispatch::Update { layer: i, weights: layer.units * layer.inputs, biases: layer.units },
        ];
        dispatches.append(&mut next);
        i = i + 1;
    }
    dispatches
}

/// The dispatches of a batch of so many rows, in an epoch of so many batches.
pub fn train_batch(layers: &Vec<DenseLayer>, input_width: usize, rows: usize, batches: usize) -> (
dispatches: Vec<Dispatch>)
    requires
        is_network(layers@, input_width as int),
        is_counted(layers@, rows as int),
    ensures
        dispatches@ == batch_dispatches(layers@, rows, batches),
{
    let last: usize = layers.len() - 1;
    assert(rows * layers@[last as int].units <= usize::MAX);
    let outputs: usize = rows * layers[last].units;
    let mut dispatches = forward(layers, rows);
    let mut next: Vec<Dispatch> = vec![
        Dispatch::OutputDelta {
            layer: last,
            count: outputs,
            code: code_of(layers[last].activation),
        },
    ];
    dispatches.append(&mut next);
    let mut next = backward(layers, rows);
    dispatches.append(&mut next);
    let mut next = update(layers, rows);
    dispatches.append(&mut next);
    let mut next: Vec<Dispatch> = vec![
        Dispatch::LossSum { layer: last, count: outputs, batches },
    ];
    dispatches.append(&mut next);
    dispatches
}

// -- Laws ----------------------------------------------------------------------

/// Whether a dispatch stays inside its buffers.
#[verifier::opaque]
pub open spec fn is_inside(
    layers: Seq<DenseLayer>,
    input_width: int,
    batch: int,
    dispatch: Dispatch,
) -> bool {
    match dispatch {
        Dispatch::ProductNt { out, a, b, m, n, k } => {
            &&& m * n <= place_len(layers, input_width, batch, out)
            &&& m * k <= place_len(layers, input_width, batch, a)
            &&& n * k <= place_len(layers, input_width, batch, b)
        },
        Dispatch::ProductTn { out, a, b, m, n, k } => {
            &&& m * n <= place_len(layers, input_width, batch, out)
            &&& k * m <= place_len(layers, input_width, batch, a)
            &&& k * n <= place_len(layers, input_width, batch, b)
        },
        Dispatch::ProductNn { out, a, b, m, n, k } => {
            &&& m * n <= place_len(layers, input_width, batch, out)
            &&& m * k <= place_len(layers, input_width, batch, a)
            &&& k * n <= place_len(layers, input_width, batch, b)
        },
        Dispatch::BiasAct { layer, rows, units, .. } => {
            &&& rows * units <= place_len(layers, input_width, batch, Place::Outputs(layer))
            &&& units <= place_len(layers, input_width, batch, Place::Biases(layer))
        },
        Dispatch::OutputDelta { layer, count, .. } => {
            &&& count <= place_len(layers, input_width, batch, Place::Deltas(layer))
            &&& count <= place_len(layers, input_width, batch, Place::Outputs(layer))
            &&& count <= place_len(layers, input_width, batch, Place::Target)
        },
        Dispatch::BiasGradient { layer, rows, units } => {
            &&& rows * units <= place_len(layers, input_width, batch, Place::Deltas(layer))
            &&& units <= place_len(layers, input_width, batch, Place::BiasGradient(layer))
        },
        Dispatch::ActDerivative { layer, count, .. } => {
            &&& count <= place_len(layers, input_width, batch, Place::Deltas(layer))
            &&& count <= place_len(layers, input_width, batch, Place::Outputs(layer))
        },
        Dispatch::Update { layer, weights, biases } => {
            &&& weights == place_len(layers, input_width, batch, Place::Weights(layer))
            &&& biases == place_len(layers, input_width, batch, Place::Biases(layer))
        },
        Dispatch::LossSum { layer, count, .. } => {
            &&& count <= place_len(layers, input_width, batch, Place::Outputs(layer))
            &&& count <= place_len(layers, input_width, batch, Place::Target)
        },
    }
}

/// Whether every dispatch of a list stays inside its buffers.
pub open spec fn all_inside(
    layers: Seq<DenseLayer>,
    input_width: int,
    batch: int,
    dispatches: Seq<Dispatch>,
) -> bool {
    forall|i: int|
        0 <= i < dispatches.len() ==> is_inside(
            layers,
            input_width,
            batch,
            #[trigger] dispatches[i],
        )
}

proof fn lemma_fewer_rows(rows: int, batch: int, width: int)
    requires
        0 <= rows <= batch,
        0 <= width,
    ensures
        rows * width <= batch * width,
        0 <= rows * width,
{
    assert(rows * width <= batch * width && 0 <= rows * width) by (nonlinear_arith)
        requires
            0 <= rows <= batch,
            0 <= width,
    ;
}

proof fn lemma_both_inside(
    layers: Seq<DenseLayer>,
    input_width: int,
    batch: int,
    first: Seq<Dispatch>,
    second: Seq<Dispatch>,
)
    requires
        all_inside(layers, input_width, batch, first),
        all_inside(layers, input_width, batch, second),
    ensures
        all_inside(layers, input_width, batch, first + second),
{
    let both = first + second;
    assert forall|i: int| 0 <= i < both.len() implies is_inside(
        layers,
        input_width,
        batch,
        #[trigger] both[i],
    ) by {
        if i < first.len() {
            assert(both[i] == first[i]);
        } else {
            assert(both[i] == second[i - first.len()]);
        }
    }
}

proof fn lemma_forward_inside(
    layers: Seq<DenseLayer>,
    input_width: int,
    batch: int,
    rows: usize,
    k: int,
)
    requires
        is_network(layers, input_width),
        rows <= batch,
        0 <= k <= layers.len() <= usize::MAX,
    ensures
        all_inside(layers, input_width, batch, forward_dispatches(layers, rows, k)),
    decreases k,
{
    if k > 0 {
        lemma_forward_inside(layers, input_width, batch, rows, k - 1);
        let layer = layers[k - 1];
        let i = (k - 1) as usize;
        assert(k > 1 ==> is_fed(layers, k - 1));
        let next = seq![
            Dispatch::ProductNt {
                out: Place::Outputs(i),
                a: source(i),
                b: Place::Weights(i),
                m: rows,
                n: layer.units,
                k: layer.inputs,
            },
            Dispatch::BiasAct {
                layer: i,
                rows,
                units: layer.units,
                code: act_code(layer.activation) as i32,
            },
        ];
        lemma_fewer_rows(rows as int, batch, layer.units as int);
        lemma_fewer_rows(rows as int, batch, layer.inputs as int);
        assert(is_inside(layers, input_width, batch, next[0])) by {
            reveal(is_inside);
        }
        assert(is_inside(layers, input_width, batch, next[1])) by {
            reveal(is_inside);
        }
        lemma_both_inside(
            layers,
            input_width,
            batch,
            forward_dispatches(layers, rows, k - 1),
            next,
        );
    }
}

proof fn lemma_gradient_inside(
    layers: Seq<DenseLayer>,
    input_width: int,
    batch: int,
    rows: usize,
    k: int,
)
    requires
        is_network(layers, input_width),
        rows <= batch,
        batch <= usize::MAX,
        is_counted(layers, batch),
        0 <= k < layers.len() <= usize::MAX,
    ensures
        all_inside(layers, input_width, batch, layer_gradient(layers, rows, k)),
{
    let layer = layers[k];
    lemma_fewer_rows(rows as int, batch, layer.units as int);
    lemma_fewer_rows(rows as int, batch, layer.inputs as int);
    assert(layer.units * layer.inputs <= usize::MAX);
    let next = layer_gradient(layers, rows, k);
    assert(k > 0 ==> is_fed(layers, k));
    assert(is_inside(layers, input_width, batch, next[0])) by {
        reveal(is_inside);
    }
    assert(is_inside(layers, input_width, batch, next[1])) by {
        reveal(is_inside);
    }
    if k > 0 {
        assert(is_inside(layers, input_width, batch, next[2])) by {
            reveal(is_inside);
        }
        assert(is_inside(layers, input_width, batch, next[3])) by {
            reveal(is_inside);
        }
    }
}

proof fn lemma_backward_inside(
    layers: Seq<DenseLayer>,
    input_width: int,
    batch: int,
    rows: usize,
    k: int,
)
    requires
        is_network(layers, input_width),
        rows <= batch,
        batch <= usize::MAX,
        is_counted(layers, batch),
        0 <= k <= layers.len() <= usize::MAX,
    ensures
        all_inside(layers, input_width, batch, backward_dispatches(layers, rows, k)),
    decreases layers.len() - k,
{
    if k < layers.len() {
        lemma_backward_inside(layers, input_width, batch, rows, k + 1);
        lemma_gradient_inside(layers, input_width, batch, rows, k);
        lemma_both_inside(
            layers,
            input_width,
            batch,
            backward_dispatches(layers, rows, k + 1),
            layer_gradient(layers, rows, k),
        );
    }
}

proof fn lemma_update_inside(layers: Seq<DenseLayer>, input_width: int, batch: int, k: int)
    requires
        is_counted(layers, batch),
        0 <= k <= layers.len() <= usize::MAX,
    ensures
        all_inside(layers, input_width, batch, update_dispatches(layers, k)),
    decreases k,
{
    if k > 0 {
        lemma_update_inside(layers, input_width, batch, k - 1);
        let layer = layers[k - 1];
        assert(layer.units * layer.inputs <= usize::MAX);
        assert(0 <= layer.units * layer.inputs) by (nonlinear_arith);
        let next = seq![
            Dispatch::Update {
                layer: (k - 1) as usize,
                weights: (layer.units * layer.inputs) as usize,
                biases: layer.units,
            },
        ];
        assert(is_inside(layers, input_width, batch, next[0])) by {
            reveal(is_inside);
        }
        lemma_both_inside(layers, input_width, batch, update_dispatches(layers, k - 1), next);
    }
}

/// No dispatch of a batch leaves its buffers, whether the batch is full or the
/// last and shorter one of an epoch.
pub proof fn law_batch_stays_inside(
    layers: Seq<DenseLayer>,
    input_width: int,
    batch: int,
    rows: usize,
    batches: usize,
)
    requires
        is_network(layers, input_width),
        rows <= batch,
        batch <= usize::MAX,
        is_counted(layers, batch),
        layers.len() <= usize::MAX,
    ensures
        all_inside(layers, input_width, batch, batch_dispatches(layers, rows, batches)),
{
    let n = layers.len() as int;
    let last = layers[n - 1];
    let outputs = (rows * last.units) as usize;
    lemma_fewer_rows(rows as int, batch, last.units as int);
    assert(batch * last.units <= usize::MAX);
    let s1 = forward_dispatches(layers, rows, n);
    lemma_forward_inside(layers, input_width, batch, rows, n);
    let s2 = seq![
        Dispatch::OutputDelta {
            layer: (n - 1) as usize,
            count: outputs,
            code: act_code(last.activation) as i32,
        },
    ];
    assert(is_inside(layers, input_width, batch, s2[0])) by {
        reveal(is_inside);
    }
    lemma_both_inside(layers, input_width, batch, s1, s2);
    let s3 = backward_dispatches(layers, rows, 0);
    lemma_backward_inside(layers, input_width, batch, rows, 0);
    lemma_both_inside(layers, input_width, batch, s1 + s2, s3);
    let s4 = update_dispatches(layers, n);
    lemma_update_inside(layers, input_width, batch, n);
    lemma_both_inside(layers, input_width, batch, s1 + s2 + s3, s4);
    let s5 = seq![Dispatch::LossSum { layer: (n - 1) as usize, count: outputs, batches }];
    assert(is_inside(layers, input_width, batch, s5[0])) by {
        reveal(is_inside);
    }
    lemma_both_inside(layers, input_width, batch, s1 + s2 + s3 + s4, s5);
}

} // verus!
