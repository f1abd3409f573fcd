//! Two matrices on the device and their product.
use crate::device::{tile, Buffer, Factor, Kind, Product};
use crate::gpu_transformer::{blas_config, BlasConfig};
use crate::text::{decimal, with_text, with_two_numbers};
use vstd::prelude::*;

verus! {

/// The shape of a matrix on the device.
#[derive(Clone, Copy, Debug, PartialEq, Eq, Structural)]
pub struct GpuMatrix {
    pub rows: usize,
    pub cols: usize,
}

/// `c = a * b`, row-major, as a product of whole matrices.
pub open spec fn dot_product(a: GpuMatrix, b: GpuMatrix, c: GpuMatrix) -> Product {
    Product {
        kind: Kind::Plain,
        factor: Factor::One,
        accumulate: false,
        m: a.rows,
        n: b.cols,
        k: a.cols,
        a: tile(Buffer::Input, 0, a.cols),
        b: tile(Buffer::Query, 0, b.cols),
        out: tile(Buffer::Output, 0, c.cols),
    }
}

/// `c = a * b`, row-major, as a column-major library takes it: a row-major
/// product is the column-major product of the transposes, so the operands
/// change places instead of being transposed.
pub fn gpu_dot(a: GpuMatrix, b: GpuMatrix, c: GpuMatrix) -> (config: BlasConfig)
    requires
        a.cols == b.rows,
        c.rows == a.rows,
        c.cols == b.cols,
    ensures
        config == blas_config(&dot_product(a, b, c), 1),
        config.m == b.cols,
        config.n == a.rows,
        config.k == a.cols,
        config.lda == b.cols,
        config.ldb == a.cols,
        config.ldc == c.cols,
        !config.transa,
        !config.transb,
{
    let product = Product {
        kind: Kind::Plain,
        factor: Factor::One,
        accumulate: false,
        m: a.rows,
        n: b.cols,
        k: a.cols,
        a: tile(Buffer::Input, 0, a.cols),
        b: tile(Buffer::Query, 0, b.cols),
        out: tile(Buffer::Output, 0, c.cols),
    };
    blas_config(&product, 1)
}

impl GpuMatrix {
    /// What is said of an allocation that failed.
    pub fn allocation_failed(&self, reason: &str) -> (message: String)
        ensures
            message@ == "device allocation of "@ + decimal(self.rows as nat) + "x"@ + decimal(
                self.cols as nat,
            ) + " floats failed: "@ + reason@,
    {
        let first = with_two_numbers(
            "device allocation of ",
            self.rows as u64,
            "x",
            self.cols as u64,
            " floats failed: ",
        );
        let message = with_text(first.as_str(), reason, "");
        proof {
            reveal_strlit("");
            assert(message@ =~= first@ + reason@);
        }
        message
    }
}

} // verus!
