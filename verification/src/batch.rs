//! Token sequences of different lengths, padded into one batch.
use crate::error::{invalid_config, Fault, NetworkError};
use vstd::prelude::*;

verus! {

/// A batch of token sequences: one row per position, every sequence padded to
/// the longest.
#[derive(Debug)]
pub struct TokenBatch {
    pub ids: Vec<u32>,
    pub seq_len: usize,
    pub lengths: Vec<usize>,
}

/// The length of the longest of the first `k` sequences.
pub open spec fn longest(sequences: Seq<Vec<u32>>, k: int) -> nat
    decreases k,
{
    if k <= 0 {
        0
    } else {
        let before = longest(sequences, k - 1);
        let length = sequences[k - 1]@.len();
        if length > before {
            length
        } else {
            before
        }
    }
}

/// A sequence, padded with zeros.
pub open spec fn padded_sequence(sequence: Seq<u32>, length: nat) -> Seq<u32> {
    Seq::new(length, |i: int| if i < sequence.len() { sequence[i] } else { 0u32 })
}

/// The first `k` sequences, each padded, one after another.
pub open spec fn packed(sequences: Seq<Vec<u32>>, length: nat, k: int) -> Seq<u32>
    decreases k,
{
    if k <= 0 {
        Seq::empty()
    } else {
        packed(sequences, length, k - 1) + padded_sequence(sequences[k - 1]@, length)
    }
}

impl TokenBatch {
    /// Whether the rows are as many as the sequences need, and no sequence is
    /// empty or longer than the rows it has.
    pub open spec fn wf(&self) -> bool {
        &&& self.seq_len > 0
        &&& self.ids@.len() == self.lengths@.len() * self.seq_len
        &&& forall|s: int|
            0 <= s < self.lengths@.len() ==> 0 < #[trigger] self.lengths@[s] <= self.seq_len
    }

    /// Whether a row is padding.
    pub open spec fn pads(&self, row: int) -> bool {
        row % (self.seq_len as int) >= self.lengths@[row / (self.seq_len as int)]
    }

    /// Whether a row predicts the token after it: every position of a sequence
    /// but its last does.
    pub open spec fn predicting(&self, row: int) -> bool {
        row % (self.seq_len as int) + 1 < self.lengths@[row / (self.seq_len as int)]
    }

    /// Packs sequences into a batch.
    pub fn new(sequences: &Vec<Vec<u32>>) -> (batch: Result<TokenBatch, NetworkError>)
        requires
            sequences@.len() * longest(sequences@, sequences@.len() as int) <= usize::MAX,
        ensures
            match batch {
                Ok(batch) => {
                    &&& sequences@.len() > 0
                    &&& forall|s: int|
                        0 <= s < sequences@.len() ==> (#[trigger] sequences@[s])@.len() > 0
                    &&& batch.wf()
                    &&& batch.seq_len == longest(sequences@, sequences@.len() as int)
                    &&& batch.lengths@ == sequences@.map_values(|s: Vec<u32>| s@.len() as usize)
                    &&& batch.ids@ == packed(
                        sequences@,
                        batch.seq_len as nat,
                        sequences@.len() as int,
                    )
                },
                Err(error) => {
                    &&& sequences@.len() == 0 || exists|s: int|
                        0 <= s < sequences@.len() && (#[trigger] sequences@[s])@.len() == 0
                    &&& error@ == Fault::InvalidConfig(
                        "a batch needs at least one sequence, and every sequence a token"@,
                    )
                },
            },
    {
        let count: usize = sequences.len();
        let mut seq_len: usize = 0;
        let mut lengths: Vec<usize> = Vec::new();
        let mut s: usize = 0;
        while s < count
            invariant
                s <= count == sequences@.len(),
                seq_len == longest(sequences@, s as int),
                lengths@.len() == s,
                forall|k: int|
                    0 <= k < s ==> (#[trigger] sequences@[k])@.len() > 0 && lengths@[k]
                        == sequences@[k]@.len() && lengths@[k] <= seq_len,
            decreases count - s,
        {
            let length: usize = sequences[s].len();
            if length == 0 {
                return Err(
                    invalid_config(
                        "a batch needs at least one sequence, and every sequence a token",
                    ),
                );
            }
            if length > seq_len {
                seq_len = length;
            }
            lengths.push(length);
            s = s + 1;
        }
        if count == 0 {
            return Err(
                invalid_config("a batch needs at least one sequence, and every sequence a token"),
            );
        }
        assert(sequences@[0]@.len() > 0);
        let mut ids: Vec<u32> = Vec::new();
        let mut s: usize = 0;
        assert(0 * seq_len == 0);
        while s < count
            invariant
                s <= count == sequences@.len(),
                seq_len == longest(sequences@, sequences@.len() as int),
                count * seq_len <= usize::MAX,
                ids@ == packed(sequences@, seq_len as nat, s as int),
                ids@.len() == s * seq_len,
                forall|k: int|
                    0 <= k < count ==> (#[trigger] sequences@[k])@.len() <= seq_len,
            decreases count - s,
        {
            let sequence = &sequences[s];
            let ghost before = ids@;
            let ghost wanted = padded_sequence(sequence@, seq_len as nat);
            let mut i: usize = 0;
            while i < seq_len
                invariant
                    i <= seq_len,
                    sequence@ == sequences@[s as int]@,
                    wanted == padded_sequence(sequence@, seq_len as nat),
                    ids@ == before + wanted.take(i as int),
                decreases seq_len - i,
            {
                ids.push(
                    if i < sequence.len() {
                        sequence[i]
                    } else {
                        0
                    },
                );
                i = i + 1;
                assert(ids@ =~= before + wanted.take(i as int));
            }
            proof {
                assert(wanted.take(i as int) =~= wanted);
                assert((s + 1) * seq_len == s * seq_len + seq_len) by (nonlinear_arith);
            }
            s = s + 1;
        }
        assert(lengths@ =~= sequences@.map_values(|s: Vec<u32>| s@.len() as usize));
        Ok(TokenBatch { ids, seq_len, lengths })
    }

    /// The rows of the batch, padding included.
    pub fn rows(&self) -> (rows: usize)
        ensures
            rows == self.ids@.len(),
    {
        self.ids.len()
    }

    /// The token of each row.
    pub fn ids(&self) -> (ids: &Vec<u32>)
        ensures
            *ids == self.ids,
    {
        &self.ids
    }

    /// The rows of each sequence.
    pub fn seq_len(&self) -> (length: usize)
        ensures
            length == self.seq_len,
    {
        self.seq_len
    }

    /// The sequences of the batch.
    pub fn batch(&self) -> (count: usize)
        ensures
            count == self.lengths@.len(),
    {
        self.lengths.len()
    }

    /// The tokens of each sequence.
    pub fn lengths(&self) -> (lengths: &Vec<usize>)
        ensures
            *lengths == self.lengths,
    {
        &self.lengths
    }

    /// Whether a row holds a token.
    pub fn is_valid(&self, row: usize) -> (valid: bool)
        requires
            self.wf(),
            row < self.ids@.len(),
        ensures
            valid == !self.pads(row as int),
    {
        proof {
            lemma_sequence_of_row(self, row as int);
        }
        row % self.seq_len < self.lengths[row / self.seq_len]
    }

    /// Whether a row predicts the token after it.
    pub fn predicts(&self, row: usize) -> (predicts: bool)
        requires
            self.wf(),
            row < self.ids@.len(),
        ensures
            predicts == self.predicting(row as int),
    {
        proof {
            lemma_sequence_of_row(self, row as int);
        }
        self.lengths[row / self.seq_len] - 1 > row % self.seq_len
    }

    /// The same sequences with other tokens.
    pub fn replacing_ids(self, ids: Vec<u32>) -> (batch: TokenBatch)
        requires
            self.wf(),
            ids@.len() == self.ids@.len(),
        ensures
            batch.wf(),
            batch.ids == ids,
            batch.seq_len == self.seq_len,
            batch.lengths == self.lengths,
    {
        TokenBatch { ids, seq_len: self.seq_len, lengths: self.lengths }
    }
}

/// A row belongs to a sequence there is.
pub proof fn lemma_sequence_of_row(batch: &TokenBatch, row: int)
    requires
        batch.wf(),
        0 <= row < batch.ids@.len(),
    ensures
        0 <= row / (batch.seq_len as int) < batch.lengths@.len(),
        0 <= row % (batch.seq_len as int) < batch.seq_len,
        row == (row / (batch.seq_len as int)) * batch.seq_len + row % (batch.seq_len as int),
{
    let (n, m) = (batch.seq_len as int, batch.lengths@.len() as int);
    vstd::arithmetic::div_mod::lemma_fundamental_div_mod(row, n);
    assert(0 <= row / n < m && row == (row / n) * n + row % n && 0 <= row % n < n)
        by (nonlinear_arith)
        requires
            0 <= row < m * n,
            n > 0,
            row == n * (row / n) + row % n,
    ;
}

} // verus!
