//! The optimizer step of a dense network: which kernel updates each parameter
//! of each layer, and with which numbers.
use crate::metal_training::DenseLayer;
use vstd::prelude::*;

verus! {

/// How the parameters follow their gradients.
#[derive(Clone, Copy, Debug, PartialEq)]
pub enum Optimizer<T> {
    Sgd { learning_rate: T },
    Adam { learning_rate: T, beta1: T, beta2: T, epsilon: T, weight_decay: T },
}

/// A parameter of a layer.
#[derive(Clone, Copy, Debug, PartialEq, Eq, Structural)]
pub enum Part {
    Weights,
    Biases,
}

/// The numbers an update kernel is handed. `first` and `second` correct the
/// two moments of Adam for having started at zero.
#[derive(Clone, Copy, Debug, PartialEq)]
pub enum Rates<T> {
    Sgd { learning_rate: T },
    Adam { learning_rate: T, beta1: T, beta2: T, epsilon: T, first: T, second: T, decay: T },
}

/// One launch of an update kernel, on so many numbers of one parameter.
#[derive(Clone, Copy, Debug, PartialEq)]
pub struct Launch<T> {
    pub layer: usize,
    pub part: Part,
    pub count: usize,
    pub rates: Rates<T>,
}

/// How many Adam steps are counted once an update is made: one more for Adam,
/// none for an optimizer that does not count.
pub open spec fn steps_after<T>(optimizer: Optimizer<T>, steps: int) -> int {
    match optimizer {
        Optimizer::Sgd { .. } => steps,
        Optimizer::Adam { .. } => steps + 1,
    }
}

/// How many numbers a parameter of a layer holds.
pub open spec fn part_len(layer: DenseLayer, part: Part) -> int {
    match part {
        Part::Weights => layer.inputs * layer.units,
        Part::Biases => layer.units as int,
    }
}

/// Whether these are the numbers an optimizer updates a parameter with at the
/// given step. Weight decay leaves the biases alone.
pub open spec fn are_rates<T, C: Fn(T, usize) -> T>(
    optimizer: Optimizer<T>,
    step: int,
    part: Part,
    zero: T,
    correct: C,
    rates: Rates<T>,
) -> bool {
    match optimizer {
        Optimizer::Sgd { learning_rate } => rates == (Rates::Sgd { learning_rate }),
        Optimizer::Adam { learning_rate, beta1, beta2, epsilon, weight_decay } => {
            &&& rates is Adam
            &&& rates->Adam_learning_rate == learning_rate
            &&& rates->Adam_beta1 == beta1
            &&& rates->Adam_beta2 == beta2
            &&& rates->Adam_epsilon == epsilon
            &&& call_ensures(correct, (beta1, step as usize), rates->Adam_first)
            &&& call_ensures(correct, (beta2, step as usize), rates->Adam_second)
            &&& rates->Adam_decay == if part == Part::Weights {
                weight_decay
            } else {
                zero
            }
        },
    }
}

/// Whether a launch updates the given parameter of a layer.
pub open spec fn is_launch<T, C: Fn(T, usize) -> T>(
    optimizer: Optimizer<T>,
    step: int,
    layers: Seq<DenseLayer>,
    l: int,
    part: Part,
    zero: T,
    correct: C,
    launch: Launch<T>,
) -> bool {
    &&& launch.layer == l
    &&& launch.part == part
    &&& launch.count == part_len(layers[l], part)
    &&& are_rates(optimizer, step, part, zero, correct, launch.rates)
}

/// Whether launches update every layer in turn, its weights and then its
/// biases.
pub open spec fn is_update<T, C: Fn(T, usize) -> T>(
    optimizer: Optimizer<T>,
    step: int,
    layers: Seq<DenseLayer>,
    zero: T,
    correct: C,
    launches: Seq<Launch<T>>,
) -> bool {
    &&& launches.len() == 2 * layers.len()
    &&& forall|k: int|
        0 <= k < launches.len() ==> is_launch(
            optimizer,
            step,
            layers,
            k / 2,
            part_of(k),
            zero,
            correct,
            #[trigger] launches[k],
        )
}

/// Which parameter a launch of a list updates.
pub open spec fn part_of(k: int) -> Part {
    if k % 2 == 0 {
        Part::Weights
    } else {
        Part::Biases
    }
}

/// The numbers of one launch.
fn rates<T: Copy, C: Fn(T, usize) -> T>(
    optimizer: Optimizer<T>,
    step: usize,
    part: Part,
    zero: T,
    correct: &C,
) -> (rates: Rates<T>)
    requires
        forall|beta: T, step: usize| #[trigger] call_requires(*correct, (beta, step)),
    ensures
        are_rates(optimizer, step as int, part, zero, *correct, rates),
{
    match optimizer {
        Optimizer::Sgd { learning_rate } => Rates::Sgd { learning_rate },
        Optimizer::Adam { learning_rate, beta1, beta2, epsilon, weight_decay } => {
            let first = correct(beta1, step);
            let second = correct(beta2, step);
            let decay = match part {
                Part::Weights => weight_decay,
                Part::Biases => zero,
            };
            Rates::Adam { learning_rate, beta1, beta2, epsilon, first, second, decay }
        },
    }
}

/// Plans an optimizer step after so many steps: the count of steps with this
/// one, and the launches that make it. `correct` is how far a moment with the
/// given rate has come from zero by the given step.
pub fn update<T: Copy, C: Fn(T, usize) -> T>(
    optimizer: Optimizer<T>,
    steps: usize,
    layers: &Vec<DenseLayer>,
    zero: T,
    correct: &C,
) -> (planned: (usize, Vec<Launch<T>>))
    requires
        optimizer is Adam ==> steps < usize::MAX,
        forall|l: int|
            0 <= l < layers@.len() ==> (#[trigger] layers@[l]).inputs * layers@[l].units
                <= usize::MAX,
        forall|beta: T, step: usize| #[trigger] call_requires(*correct, (beta, step)),
    ensures
        planned.0 == steps_after(optimizer, steps as int),
        is_update(optimizer, planned.0 as int, layers@, zero, *correct, planned.1@),
{
    let step: usize = match optimizer {
        Optimizer::Sgd { .. } => steps,
        Optimizer::Adam { .. } => steps + 1,
    };
    let mut launches: Vec<Launch<T>> = Vec::new();
    let mut l: usize = 0;
    while l < layers.len()
        invariant
            l <= layers@.len(),
            launches@.len() == 2 * l,
            forall|l: int|
                0 <= l < layers@.len() ==> (#[trigger] layers@[l]).inputs * layers@[l].units
                    <= usize::MAX,
            forall|beta: T, step: usize| #[trigger] call_requires(*correct, (beta, step)),
            forall|k: int|
                0 <= k < launches@.len() ==> is_launch(
                    optimizer,
                    step as int,
                    layers@,
                    k / 2,
                    part_of(k),
                    zero,
                    *correct,
                    #[trigger] launches@[k],
                ),
        decreases layers.len() - l,
    {
        let layer = layers[l];
        assert(layers@[l as int].inputs * layers@[l as int].units <= usize::MAX);
        let weights = rates(optimizer, step, Part::Weights, zero, correct);
        let biases = rates(optimizer, step, Part::Biases, zero, correct);
        launches.push(
            Launch { layer: l, part: Part::Weights, count: layer.inputs * layer.units, rates: weights },
        );
        launches.push(Launch { layer: l, part: Part::Biases, count: layer.units, rates: biases });
        l = l + 1;
    }
    (step, launches)
}

} // verus!
