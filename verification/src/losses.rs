//! Loss functions for dense networks, and how they pair with activations.
use vstd::prelude::*;

verus! {

/// What a layer does to its sums.
#[derive(Clone, Copy, Debug, PartialEq, Eq, Structural)]
pub enum Activation {
    Linear,
    Relu,
    Sigmoid,
    Tanh,
    Softmax,
}

/// What a network is trained to make small.
#[derive(Clone, Copy, Debug, PartialEq, Eq, Structural)]
pub enum Loss {
    Mse,
    BinaryCrossEntropy,
    CrossEntropy,
}

impl Loss {
    /// Whether the derivative of an activation cancels in the gradient of this
    /// loss.
    pub open spec fn pairs_with(self, activation: Activation) -> bool {
        (self == Loss::BinaryCrossEntropy && activation == Activation::Sigmoid) || (self
            == Loss::CrossEntropy && activation == Activation::Softmax)
    }

    /// Whether the derivative of an activation cancels in the gradient of this
    /// loss: multiplying by it would bring back the cancellation the pairing
    /// exists to avoid.
    pub fn cancels(self, activation: Activation) -> (cancels: bool)
        ensures
            cancels == self.pairs_with(activation),
    {
        match (self, activation) {
            (Loss::BinaryCrossEntropy, Activation::Sigmoid) => true,
            (Loss::CrossEntropy, Activation::Softmax) => true,
            _ => false,
        }
    }

    /// The gradient of the output layer's sums. `difference` takes a prediction
    /// from a target, and `chain` multiplies by the derivative of the
    /// activation at a prediction; a loss that pairs with the activation needs
    /// only the difference.
    pub fn output_delta<T: Copy, D: Fn(T, T) -> T, C: Fn(T, T) -> T>(
        self,
        prediction: &Vec<T>,
        target: &Vec<T>,
        activation: Activation,
        difference: &D,
        chain: &C,
    ) -> (delta: Vec<T>)
        requires
            prediction@.len() == target@.len(),
            forall|a: T, b: T| #[trigger] call_requires(*difference, (a, b)),
            forall|a: T, b: T| #[trigger] call_requires(*chain, (a, b)),
        ensures
            delta@.len() == prediction@.len(),
            forall|i: int|
                0 <= i < delta@.len() ==> is_delta(
                    self.pairs_with(activation),
                    target@[i],
                    prediction@[i],
                    *difference,
                    *chain,
                    #[trigger] delta@[i],
                ),
    {
        let cancels: bool = self.cancels(activation);
        let mut delta: Vec<T> = Vec::new();
        let mut i: usize = 0;
        while i < prediction.len()
            invariant
                i <= prediction@.len() == target@.len(),
                delta@.len() == i,
                cancels == self.pairs_with(activation),
                forall|a: T, b: T| #[trigger] call_requires(*difference, (a, b)),
                forall|a: T, b: T| #[trigger] call_requires(*chain, (a, b)),
                forall|k: int|
                    0 <= k < i ==> is_delta(
                        cancels,
                        target@[k],
                        prediction@[k],
                        *difference,
                        *chain,
                        #[trigger] delta@[k],
                    ),
            decreases prediction.len() - i,
        {
            let base = difference(target[i], prediction[i]);
            let value = if cancels {
                base
            } else {
                chain(base, prediction[i])
            };
            assert(is_delta(
                cancels,
                target@[i as int],
                prediction@[i as int],
                *difference,
                *chain,
                value,
            ));
            delta.push(value);
            i = i + 1;
        }
        delta
    }
}

/// Whether a number is the gradient at one output.
pub open spec fn is_delta<T, D: Fn(T, T) -> T, C: Fn(T, T) -> T>(
    cancels: bool,
    target: T,
    prediction: T,
    difference: D,
    chain: C,
    delta: T,
) -> bool {
    if cancels {
        call_ensures(difference, (target, prediction), delta)
    } else {
        exists|base: T|
            #![trigger call_ensures(difference, (target, prediction), base)]
            call_ensures(difference, (target, prediction), base) && call_ensures(
                chain,
                (base, prediction),
                delta,
            )
    }
}

} // verus!
