//! The one error type every fallible operation of the crate returns.
use vstd::prelude::*;

verus! {

/// What went wrong, with the numbers a caller needs to act on it.
#[derive(Debug)]
pub enum NetworkError {
    /// A configuration that cannot be built, or data that contradicts itself.
    InvalidConfig(String),
    /// An input whose length is not the one the operation reads.
    InvalidInput { expected: usize, actual: usize },
    /// A target whose length is not the one the operation reads.
    InvalidTarget { expected: usize, actual: usize },
    /// A token id outside the vocabulary.
    TokenOutOfRange { id: u32, vocab_size: usize },
    /// A sequence longer than the position table.
    SequenceTooLong { length: usize, max_seq_len: usize },
    /// A dataset with nothing to train on.
    EmptyDataset,
    /// Data that does not hold what its format promises.
    InvalidDataset(String),
    /// Bytes that are not JSON, in the words of the reader.
    Json(String),
    /// A failure reported by the CUDA driver or by a device buffer.
    Cuda(String),
    /// A layer the CUDA path does not implement.
    UnsupportedCuda(String),
    /// A checkpoint that cannot be resumed.
    InvalidCudaCheckpoint(String),
    /// An upload that would not fit the CUDA memory budget.
    CudaMemoryBudget { estimated_mib: usize, budget_mib: usize },
    /// A failure reported by Metal.
    Metal(String),
    /// A layer the Metal path does not implement.
    UnsupportedMetal(String),
    /// A training batch that would not fit the Metal memory budget.
    MetalMemoryBudget { estimated_mib: usize, budget_mib: usize },
}

/// What an error says.
pub ghost enum Fault {
    InvalidConfig(Seq<char>),
    InvalidInput { expected: usize, actual: usize },
    InvalidTarget { expected: usize, actual: usize },
    TokenOutOfRange { id: u32, vocab_size: usize },
    SequenceTooLong { length: usize, max_seq_len: usize },
    EmptyDataset,
    InvalidDataset(Seq<char>),
    Json(Seq<char>),
    Cuda(Seq<char>),
    UnsupportedCuda(Seq<char>),
    InvalidCudaCheckpoint(Seq<char>),
    CudaMemoryBudget { estimated_mib: usize, budget_mib: usize },
    Metal(Seq<char>),
    UnsupportedMetal(Seq<char>),
    MetalMemoryBudget { estimated_mib: usize, budget_mib: usize },
}

impl View for NetworkError {
    type V = Fault;

    open spec fn view(&self) -> Fault {
        match *self {
            NetworkError::InvalidConfig(message) => Fault::InvalidConfig(message@),
            NetworkError::InvalidInput { expected, actual } => Fault::InvalidInput {
                expected,
                actual,
            },
            NetworkError::InvalidTarget { expected, actual } => Fault::InvalidTarget {
                expected,
                actual,
            },
            NetworkError::TokenOutOfRange { id, vocab_size } => Fault::TokenOutOfRange {
                id,
                vocab_size,
            },
            NetworkError::SequenceTooLong { length, max_seq_len } => Fault::SequenceTooLong {
                length,
                max_seq_len,
            },
            NetworkError::EmptyDataset => Fault::EmptyDataset,
            NetworkError::InvalidDataset(message) => Fault::InvalidDataset(message@),
            NetworkError::Json(words) => Fault::Json(words@),
            NetworkError::Cuda(message) => Fault::Cuda(message@),
            NetworkError::UnsupportedCuda(message) => Fault::UnsupportedCuda(message@),
            NetworkError::InvalidCudaCheckpoint(message) => Fault::InvalidCudaCheckpoint(message@),
            NetworkError::CudaMemoryBudget { estimated_mib, budget_mib } => {
                Fault::CudaMemoryBudget { estimated_mib, budget_mib }
            },
            NetworkError::Metal(message) => Fault::Metal(message@),
            NetworkError::UnsupportedMetal(message) => Fault::UnsupportedMetal(message@),
            NetworkError::MetalMemoryBudget { estimated_mib, budget_mib } => {
                Fault::MetalMemoryBudget { estimated_mib, budget_mib }
            },
        }
    }
}

/// An invalid configuration, with a fixed message.
pub fn invalid_config(message: &str) -> (error: NetworkError)
    ensures
        error@ == Fault::InvalidConfig(message@),
{
    NetworkError::InvalidConfig(message.to_string())
}

/// Invalid data, with a fixed message.
pub fn invalid_dataset(message: &str) -> (error: NetworkError)
    ensures
        error@ == Fault::InvalidDataset(message@),
{
    NetworkError::InvalidDataset(message.to_string())
}

} // verus!
