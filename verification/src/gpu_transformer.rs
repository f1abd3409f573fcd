//! The device side of a transformer: how a product is handed to a
//! column-major library, at which precision, when a gradient buffer is
//! overwritten rather than added to, and what becomes of a failure that no
//! caller was there to see.
use crate::device::{Kind, Product};
use crate::error::{Fault, NetworkError};
use vstd::prelude::*;

verus! {

// -- Products for a column-major library ---------------------------------------

/// A product as a column-major library takes it. A row-major `[r, c]` buffer
/// with row stride `ld` is read as a column-major `[c, r]` one with leading
/// dimension `ld`, so the operands change places: the library's first operand
/// is the second of the product.
#[derive(Clone, Copy, Debug, PartialEq, Eq, Structural)]
pub struct BlasConfig {
    pub transa: bool,
    pub transb: bool,
    pub m: usize,
    pub n: usize,
    pub k: usize,
    pub lda: usize,
    pub ldb: usize,
    pub ldc: usize,
    pub batch: usize,
    pub stride_a: usize,
    pub stride_b: usize,
    pub stride_c: usize,
}

impl BlasConfig {
    /// Where the library reads entry `(i, l)` of its first operand, of batch
    /// `s`.
    pub open spec fn a_at(self, s: int, i: int, l: int) -> int {
        s * self.stride_a + if self.transa {
            l + i * self.lda
        } else {
            i + l * self.lda
        }
    }

    /// Where the library reads entry `(l, j)` of its second operand.
    pub open spec fn b_at(self, s: int, l: int, j: int) -> int {
        s * self.stride_b + if self.transb {
            j + l * self.ldb
        } else {
            l + j * self.ldb
        }
    }

    /// Where the library writes entry `(i, j)` of the product.
    pub open spec fn c_at(self, s: int, i: int, j: int) -> int {
        s * self.stride_c + i + j * self.ldc
    }
}

/// A product for one head, for every sequence, as the library takes it.
#[verifier::allow_in_spec]
pub fn blas_config(product: &Product, sequences: usize) -> BlasConfig
    returns
        (BlasConfig {
            transa: product.kind == Kind::RhsTransposed,
            transb: product.kind == Kind::LhsTransposed,
            m: product.n,
            n: product.m,
            k: product.k,
            lda: product.b.stride,
            ldb: product.a.stride,
            ldc: product.out.stride,
            batch: sequences,
            stride_a: product.b.step,
            stride_b: product.a.step,
            stride_c: product.out.step,
        }),
{
    BlasConfig {
        transa: product.kind == Kind::RhsTransposed,
        transb: product.kind == Kind::LhsTransposed,
        m: product.n,
        n: product.m,
        k: product.k,
        lda: product.b.stride,
        ldb: product.a.stride,
        ldc: product.out.stride,
        batch: sequences,
        stride_a: product.b.step,
        stride_b: product.a.step,
        stride_c: product.out.step,
    }
}

/// The first entry of a head's operands and target.
pub fn head_offsets(product: &Product, group: usize, head: usize) -> (offsets: (
    usize,
    usize,
    usize,
))
    requires
        group > 0,
        product.a.at(group as int, head as int, 0, 0, 0) <= usize::MAX,
        product.b.at(group as int, head as int, 0, 0, 0) <= usize::MAX,
        product.out.at(group as int, head as int, 0, 0, 0) <= usize::MAX,
    ensures
        offsets.0 == product.a.at(group as int, head as int, 0, 0, 0),
        offsets.1 == product.b.at(group as int, head as int, 0, 0, 0),
        offsets.2 == product.out.at(group as int, head as int, 0, 0, 0),
{
    (
        head_offset(product.a.offset, product.a.shift, product.a.shared, group, head),
        head_offset(product.b.offset, product.b.shift, product.b.shared, group, head),
        head_offset(product.out.offset, product.out.shift, product.out.shared, group, head),
    )
}

fn head_offset(offset: usize, shift: usize, shared: bool, group: usize, head: usize) -> (at: usize)
    requires
        group > 0,
        offset + (if shared {
            head as int / group as int
        } else {
            head as int
        }) * shift <= usize::MAX,
    ensures
        at == offset + (if shared {
            head as int / group as int
        } else {
            head as int
        }) * shift,
{
    let slot: usize = if shared {
        head / group
    } else {
        head
    };
    assert(0 <= slot * shift) by (nonlinear_arith);
    offset + slot * shift
}

/// The library computes the product: entry `(i, j)` of what it writes is entry
/// `(j, i)` of the row-major target, and the `l`-th pair of factors it
/// multiplies for it is that of the product.
pub proof fn law_config_is_the_product(
    product: Product,
    sequences: usize,
    group: int,
    head: int,
    s: int,
    r: int,
    c: int,
    l: int,
)
    ensures
        ({
            let config = blas_config(&product, sequences);
            let (a0, b0, out0) = (
                product.a.at(group, head, 0, 0, 0),
                product.b.at(group, head, 0, 0, 0),
                product.out.at(group, head, 0, 0, 0),
            );
            &&& config.m == product.n
            &&& config.n == product.m
            &&& config.k == product.k
            &&& out0 + config.c_at(s, c, r) == product.out.at(group, head, s, r, c)
            &&& b0 + config.a_at(s, c, l) == match product.kind {
                Kind::RhsTransposed => product.b.at(group, head, s, c, l),
                _ => product.b.at(group, head, s, l, c),
            }
            &&& a0 + config.b_at(s, l, r) == match product.kind {
                Kind::LhsTransposed => product.a.at(group, head, s, l, r),
                _ => product.a.at(group, head, s, r, l),
            }
        }),
{
    assert(0 * product.a.step == 0 && 0 * product.a.stride == 0);
    assert(0 * product.b.step == 0 && 0 * product.b.stride == 0);
    assert(0 * product.out.step == 0 && 0 * product.out.stride == 0);
}

// -- Precision -----------------------------------------------------------------

/// How wide a number is on the device.
#[derive(Clone, Copy, Debug, PartialEq, Eq, Structural)]
pub enum Width {
    Single,
    Half,
    Brain,
}

/// How a product adds up.
#[derive(Clone, Copy, Debug, PartialEq, Eq, Structural)]
pub enum Compute {
    Single,
    /// Single precision, with the factors rounded inside the tensor cores.
    SingleFast,
    Half,
}

/// The precision of a product: of its operands, of its sum, of its result, and
/// whether the library is asked for a tensor-core kernel.
#[derive(Clone, Copy, Debug, PartialEq, Eq, Structural)]
pub struct Precision {
    pub operand: Width,
    pub compute: Compute,
    pub result: Width,
    pub tensor_hint: bool,
}

/// The precision of a product of narrow or wide operands. Narrow ones are
/// half-precision where the sum is too, and wide ones keep their width.
pub fn act_precision(
    narrow: bool,
    out_narrow: bool,
    half_accumulate: bool,
    mixed_precision: bool,
) -> (precision: Precision)
    ensures
        precision.operand == if !narrow {
            Width::Single
        } else if half_accumulate {
            Width::Half
        } else {
            Width::Brain
        },
        precision.compute == if narrow && half_accumulate {
            Compute::Half
        } else if !narrow && mixed_precision {
            Compute::SingleFast
        } else {
            Compute::Single
        },
        precision.result == if !out_narrow {
            Width::Single
        } else if narrow && half_accumulate {
            Width::Half
        } else {
            Width::Brain
        },
        precision.tensor_hint == !(narrow && half_accumulate),
{
    let half: bool = narrow && half_accumulate;
    Precision {
        operand: if half {
            Width::Half
        } else if narrow {
            Width::Brain
        } else {
            Width::Single
        },
        compute: if half {
            Compute::Half
        } else if narrow {
            Compute::Single
        } else if mixed_precision {
            Compute::SingleFast
        } else {
            Compute::Single
        },
        result: if !out_narrow {
            Width::Single
        } else if half {
            Width::Half
        } else {
            Width::Brain
        },
        tensor_hint: !half,
    }
}

// -- Failures ------------------------------------------------------------------

/// The first failure of an operation that has no way to return one.
#[derive(Debug)]
pub struct Poison {
    slot: Option<String>,
}

impl Poison {
    /// The failure that is kept, if any.
    pub closed spec fn kept(&self) -> Option<Seq<char>> {
        match self.slot {
            Some(message) => Some(message@),
            None => None,
        }
    }

    pub fn new() -> (poison: Poison)
        ensures
            poison.kept() is None,
    {
        Poison { slot: None }
    }

    /// Records a failure, unless one was recorded before.
    pub fn poison(&mut self, message: String)
        ensures
            final(self).kept() == match old(self).kept() {
                Some(first) => Some(first),
                None => Some(message@),
            },
    {
        if self.slot.is_none() {
            self.slot = Some(message);
        }
    }

    /// A result, or the fallback for one that failed.
    pub fn guard<T>(&mut self, result: Result<T, String>, fallback: T) -> (value: T)
        ensures
            match result {
                Ok(found) => value == found && final(self).kept() == old(self).kept(),
                Err(message) => value == fallback && final(self).kept() == match old(self).kept() {
                    Some(first) => Some(first),
                    None => Some(message@),
                },
            },
    {
        match result {
            Ok(value) => value,
            Err(message) => {
                self.poison(message);
                fallback
            },
        }
    }

    /// Reports the failure that was recorded, and clears it.
    pub fn check(&mut self) -> (checked: Result<(), NetworkError>)
        ensures
            final(self).kept() is None,
            match checked {
                Ok(()) => old(self).kept() is None,
                Err(error) => old(self).kept() is Some && error@ == Fault::Cuda(
                    old(self).kept()->Some_0,
                ),
            },
    {
        match self.slot.take() {
            None => Ok(()),
            Some(message) => Err(NetworkError::Cuda(message)),
        }
    }
}

// -- Parameters ----------------------------------------------------------------

/// Which update an optimizer step runs.
#[derive(Clone, Copy, Debug, PartialEq, Eq, Structural)]
pub enum Optimizer {
    Sgd,
    Adam,
    Lion,
}

/// What an optimizer step does to a parameter's buffers, in order.
#[derive(Clone, Copy, Debug, PartialEq, Eq, Structural)]
pub struct Update {
    /// The gradient is set to zero first: nothing was written to it.
    pub clear: bool,
    /// The gradient is multiplied by the step's scale.
    pub rescale: bool,
    /// The update itself.
    pub optimizer: Optimizer,
}

/// A parameter mirrored on the device. Its gradient buffer still holds the
/// last step's gradient until the first writer of the next step overwrites it.
#[derive(Clone, Copy, Debug, PartialEq, Eq, Structural)]
pub struct DeviceParam {
    pub rows: usize,
    pub cols: usize,
    /// Whether the parameter is held for its value alone.
    pub frozen: bool,
    /// Whether anything has written the gradient since the last step.
    pub grad_dirty: bool,
}

impl DeviceParam {
    pub fn new(rows: usize, cols: usize, frozen: bool) -> (param: DeviceParam)
        ensures
            param == (DeviceParam { rows, cols, frozen, grad_dirty: false }),
    {
        DeviceParam { rows, cols, frozen, grad_dirty: false }
    }

    /// How long the gradient and the two moments are: a frozen parameter never
    /// takes a step, so its are placeholders.
    pub fn training_len(&self) -> (len: usize)
        requires
            self.rows * self.cols <= usize::MAX,
        ensures
            len == if self.frozen {
                1int
            } else {
                self.rows * self.cols
            },
    {
        if self.frozen {
            1
        } else {
            self.rows * self.cols
        }
    }

    pub fn is_frozen(&self) -> (frozen: bool)
        ensures
            frozen == self.frozen,
    {
        self.frozen
    }

    pub fn rows(&self) -> (rows: usize)
        ensures
            rows == self.rows,
    {
        self.rows
    }

    pub fn cols(&self) -> (cols: usize)
        ensures
            cols == self.cols,
    {
        self.cols
    }

    /// Whether the next writer of the gradient adds to it, and a claim on
    /// being that writer: the first one since the last step overwrites.
    pub fn grad_beta(&mut self) -> (accumulate: bool)
        ensures
            accumulate == old(self).grad_dirty,
            *final(self) == (DeviceParam { grad_dirty: true, ..*old(self) }),
    {
        let accumulate: bool = self.grad_dirty;
        self.grad_dirty = true;
        accumulate
    }

    /// Whether the gradient has to be set to zero for a caller that can only
    /// add to it, and a claim on being its writer.
    pub fn clear_grad(&mut self) -> (clear: bool)
        ensures
            clear == !old(self).grad_dirty,
            *final(self) == (DeviceParam { grad_dirty: true, ..*old(self) }),
    {
        let clear: bool = !self.grad_dirty;
        self.grad_dirty = true;
        clear
    }

    /// Forgets the gradient.
    pub fn zero_grad(&mut self)
        ensures
            *final(self) == (DeviceParam { grad_dirty: false, ..*old(self) }),
    {
        self.grad_dirty = false;
    }

    /// Whether the gradient buffer holds this step's gradient. Where it does
    /// not, the gradient and its norm are zero.
    pub fn has_grad(&self) -> (holds: bool)
        ensures
            holds == (!self.frozen && self.grad_dirty),
    {
        !self.frozen && self.grad_dirty
    }

    /// One optimizer step: nothing for a frozen parameter. A parameter that
    /// took no gradient still takes a step, on its moments alone, so its stale
    /// gradient is cleared. An optimizer the device has no kernel for is
    /// refused, after the gradient was cleared.
    pub fn step(&mut self, optimizer: Optimizer, rescale: bool) -> (update: Result<
        Option<Update>,
        NetworkError,
    >)
        ensures
            match update {
                Ok(None) => old(self).frozen && *final(self) == *old(self),
                Ok(Some(update)) => {
                    &&& !old(self).frozen
                    &&& optimizer != Optimizer::Lion
                    &&& update == (Update { clear: !old(self).grad_dirty, rescale, optimizer })
                    &&& *final(self) == (DeviceParam { grad_dirty: false, ..*old(self) })
                },
                Err(error) => {
                    &&& !old(self).frozen
                    &&& optimizer == Optimizer::Lion
                    &&& error@ == Fault::UnsupportedCuda(
                        "the Lion optimizer, which has no device kernel"@,
                    )
                    &&& *final(self) == (DeviceParam { grad_dirty: true, ..*old(self) })
                },
            },
    {
        if self.frozen {
            return Ok(None);
        }
        let clear: bool = self.clear_grad();
        match optimizer {
            Optimizer::Lion => Err(
                NetworkError::UnsupportedCuda(
                    "the Lion optimizer, which has no device kernel".to_string(),
                ),
            ),
            _ => {
                self.grad_dirty = false;
                Ok(Some(Update { clear, rescale, optimizer }))
            },
        }
    }
}

/// What a gradient buffer holds once something was written to it: an overwrite
/// forgets what it held, an addition keeps it.
pub open spec fn written(held: Seq<int>, accumulate: bool, part: int) -> Seq<int> {
    if accumulate {
        held.push(part)
    } else {
        seq![part]
    }
}

/// What the buffer of a parameter holds after the parts of a step were written
/// to it, each as [`DeviceParam::grad_beta`] says.
pub open spec fn held_after(param: DeviceParam, held: Seq<int>, parts: Seq<int>) -> Seq<int>
    decreases parts.len(),
{
    if parts.len() == 0 {
        held
    } else {
        let before = held_after(param, held, parts.drop_last());
        written(before, param.grad_dirty || parts.len() > 1, parts.last())
    }
}

/// After a step forgot the gradient, the buffer holds the parts written since,
/// all of them and nothing stale.
pub proof fn law_gradient_is_not_stale(param: DeviceParam, stale: Seq<int>, parts: Seq<int>)
    requires
        !param.grad_dirty,
        parts.len() > 0,
    ensures
        held_after(param, stale, parts) == parts,
    decreases parts.len(),
{
    let rest = parts.drop_last();
    if rest.len() > 0 {
        law_gradient_is_not_stale(param, stale, rest);
        assert(rest.push(parts.last()) =~= parts);
    } else {
        assert(seq![parts.last()] =~= parts);
    }
}

// -- Memory budget -------------------------------------------------------------

/// The mebibytes that so many weights need to be trained: their value, their
/// gradient and two moments, at four bytes each.
pub open spec fn training_mib(weights: int) -> int {
    (weights * 16 + 1048575) / 1048576
}

/// Refuses an upload that would not fit the budget. A budget of zero is none.
pub fn check_budget(weights: usize, budget_mib: usize) -> (checked: Result<(), NetworkError>)
    requires
        weights * 16 <= usize::MAX,
    ensures
        match checked {
            Ok(()) => budget_mib == 0 || training_mib(weights as int) <= budget_mib,
            Err(error) => {
                &&& budget_mib > 0
                &&& training_mib(weights as int) > budget_mib
                &&& error@ == (Fault::CudaMemoryBudget {
                    estimated_mib: training_mib(weights as int) as usize,
                    budget_mib,
                })
            },
        },
{
    let bytes: usize = weights * 4 * 4;
    let whole: usize = bytes / 1048576;
    let estimated_mib: usize = if bytes % 1048576 == 0 {
        whole
    } else {
        whole + 1
    };
    assert(estimated_mib == training_mib(weights as int));
    if budget_mib > 0 && estimated_mib > budget_mib {
        return Err(NetworkError::CudaMemoryBudget { estimated_mib, budget_mib });
    }
    Ok(())
}

} // verus!
