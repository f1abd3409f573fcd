//! Where the tokens of a sequence stand in a batch, and what follows them.
use crate::batch::{longest, packed, padded_sequence, TokenBatch};
use vstd::prelude::*;

verus! {

/// Whether a batch is made of sequences.
pub open spec fn is_batch(sequences: Seq<Vec<u32>>, batch: TokenBatch) -> bool {
    &&& batch.wf()
    &&& batch.seq_len == longest(sequences, sequences.len() as int)
    &&& batch.lengths@ == sequences.map_values(|s: Vec<u32>| s@.len() as usize)
    &&& batch.ids@ == packed(sequences, batch.seq_len as nat, sequences.len() as int)
}

proof fn lemma_packed(sequences: Seq<Vec<u32>>, length: nat, k: int, s: int, i: int)
    requires
        0 <= s < k <= sequences.len(),
        0 <= i < length,
        forall|s: int| 0 <= s < sequences.len() ==> (#[trigger] sequences[s])@.len() <= length,
    ensures
        packed(sequences, length, k).len() == k * length,
        packed(sequences, length, k)[s * length + i] == padded_sequence(sequences[s]@, length)[i],
    decreases k,
{
    lemma_packed_len(sequences, length, k);
    lemma_packed_len(sequences, length, k - 1);
    if s < k - 1 {
        lemma_packed(sequences, length, k - 1, s, i);
        assert(s * length + i < (k - 1) * length) by (nonlinear_arith)
            requires
                0 <= s < k - 1,
                0 <= i < length,
        ;
        assert(0 <= s * length) by (nonlinear_arith)
            requires
                0 <= s,
        ;
    }
}

proof fn lemma_packed_len(sequences: Seq<Vec<u32>>, length: nat, k: int)
    requires
        0 <= k <= sequences.len(),
        forall|s: int| 0 <= s < sequences.len() ==> (#[trigger] sequences[s])@.len() <= length,
    ensures
        packed(sequences, length, k).len() == k * length,
    decreases k,
{
    if k > 0 {
        lemma_packed_len(sequences, length, k - 1);
        assert((k - 1) * length + length == k * length) by (nonlinear_arith);
        assert(padded_sequence(sequences[k - 1]@, length).len() == length);
    }
}

/// Every sequence has a run of rows of its own, in order and all of one length:
/// row `i` of sequence `s` holds that sequence's token `i`, where it has one,
/// and is padding where it has none. A row predicts just where the sequence
/// goes on, and then the row after it holds the token that comes next.
pub proof fn law_rows_are_tokens(
    sequences: Seq<Vec<u32>>,
    batch: TokenBatch,
    s: int,
    i: int,
)
    requires
        is_batch(sequences, batch),
        0 <= s < sequences.len(),
        0 <= i < batch.seq_len,
    ensures
        ({
            let row = s * batch.seq_len + i;
            let tokens = sequences[s]@;
            &&& 0 <= row < batch.ids@.len()
            &&& batch.pads(row) == (i >= tokens.len())
            &&& batch.ids@[row] == if i < tokens.len() {
                tokens[i]
            } else {
                0
            }
            &&& batch.predicting(row) == (i + 1 < tokens.len())
            &&& i + 1 < tokens.len() ==> batch.ids@[row + 1] == tokens[i + 1]
        }),
{
    let n = batch.seq_len as int;
    let m = sequences.len() as int;
    let row = s * n + i;
    assert forall|k: int| 0 <= k < sequences.len() implies (#[trigger] sequences[k])@.len()
        <= batch.seq_len by {
        assert(batch.lengths@[k] <= batch.seq_len);
        assert(batch.lengths@[k] == sequences[k]@.len() as usize);
        assert(sequences[k]@.len() == sequences[k].len());
    }
    lemma_packed(sequences, n as nat, m, s, i);
    assert(0 <= s * n && s * n + n <= m * n) by (nonlinear_arith)
        requires
            0 <= s < m,
            0 <= n,
    ;
    vstd::arithmetic::div_mod::lemma_fundamental_div_mod_converse(row, n, s, i);
    assert(row / n == s && row % n == i);
    assert(batch.lengths@[s] == sequences[s]@.len());
    if i + 1 < sequences[s]@.len() {
        lemma_packed(sequences, n as nat, m, s, i + 1);
    }
}

} // verus!
