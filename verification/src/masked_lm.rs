//! Masked language modelling: a batch whose inputs were corrupted and whose
//! original tokens are the targets.
use crate::batch::TokenBatch;
use crate::counting::trues;
use crate::error::{invalid_config, Fault, NetworkError};
use crate::text::{decimal, with_number, with_text, with_two_numbers};
use vstd::prelude::*;

verus! {

/// A batch whose inputs were corrupted and whose original tokens are the
/// targets.
#[derive(Debug)]
pub struct MaskedBatch {
    inputs: TokenBatch,
    targets: Vec<u32>,
    masked: Vec<bool>,
}

/// What a [`MaskedBatch`] holds.
pub ghost struct MaskedView {
    /// What the model reads.
    pub inputs: TokenBatch,
    /// What it should reconstruct.
    pub targets: Seq<u32>,
    /// Which rows count toward the loss.
    pub masked: Seq<bool>,
}

/// The first row of the first `k` that is both masked and padding.
pub open spec fn masked_padding(inputs: TokenBatch, masked: Seq<bool>, k: int) -> Option<int>
    decreases k,
{
    if k <= 0 {
        None
    } else {
        match masked_padding(inputs, masked, k - 1) {
            Some(row) => Some(row),
            None => if masked[k - 1] && inputs.pads(k - 1) {
                Some(k - 1)
            } else {
                None
            },
        }
    }
}

/// Why rows, targets and flags do not make a masked batch, when they do not.
pub open spec fn objection(inputs: TokenBatch, targets: Seq<u32>, masked: Seq<bool>) -> Option<
    Fault,
> {
    let rows = inputs.ids@.len();
    let padding = masked_padding(inputs, masked, rows as int);
    if targets.len() != rows || masked.len() != rows {
        Some(
            Fault::InvalidConfig(
                "a masked batch of "@ + decimal(rows) + " rows needs "@ + decimal(rows)
                    + " targets and "@ + decimal(rows) + " flags, got "@ + decimal(targets.len())
                    + " and "@ + decimal(masked.len()) + ""@,
            ),
        )
    } else if padding is Some {
        Some(
            Fault::InvalidConfig(
                "row "@ + decimal(padding->Some_0 as nat)
                    + " is padding, so it cannot be a masked target"@,
            ),
        )
    } else if trues(masked) == 0 {
        Some(
            Fault::InvalidConfig(
                "a masked batch with no masked position has nothing to learn from"@,
            ),
        )
    } else {
        None
    }
}

proof fn lemma_padding_stays(inputs: TokenBatch, masked: Seq<bool>, k: int, m: int)
    requires
        k <= m,
        masked_padding(inputs, masked, k) is Some,
    ensures
        masked_padding(inputs, masked, m) == masked_padding(inputs, masked, k),
    decreases m - k,
{
    if k < m {
        lemma_padding_stays(inputs, masked, k, m - 1);
    }
}

impl MaskedBatch {
    /// What the batch holds.
    pub closed spec fn view(&self) -> MaskedView {
        MaskedView { inputs: self.inputs, targets: self.targets@, masked: self.masked@ }
    }

    /// Whether the rows, the targets and the flags go together.
    pub open spec fn wf(&self) -> bool {
        self.view().inputs.wf() && objection(
            self.view().inputs,
            self.view().targets,
            self.view().masked,
        ) is None
    }

    /// A batch from a caller's own corruption: `inputs` holds what the model
    /// reads, `targets` what it should reconstruct, and `masked` one flag per
    /// row saying which positions count toward the loss.
    pub fn new(inputs: TokenBatch, targets: &Vec<u32>, masked: &Vec<bool>) -> (batch: Result<
        MaskedBatch,
        NetworkError,
    >)
        requires
            inputs.wf(),
        ensures
            match batch {
                Ok(batch) => batch.wf() && batch.view() == (MaskedView {
                    inputs,
                    targets: targets@,
                    masked: masked@,
                }),
                Err(error) => objection(inputs, targets@, masked@) == Some(error@),
            },
    {
        let rows: usize = inputs.rows();
        if targets.len() != rows || masked.len() != rows {
            let first = with_two_numbers(
                "a masked batch of ",
                rows as u64,
                " rows needs ",
                rows as u64,
                " targets and ",
            );
            let second = with_two_numbers(
                "",
                rows as u64,
                " flags, got ",
                targets.len() as u64,
                " and ",
            );
            let third = with_number("", masked.len() as u64, "");
            let message = with_text(first.as_str(), second.as_str(), third.as_str());
            proof {
                reveal_strlit("");
                assert(message@ =~= "a masked batch of "@ + decimal(rows as nat) + " rows needs "@
                    + decimal(rows as nat) + " targets and "@ + decimal(rows as nat)
                    + " flags, got "@ + decimal(targets@.len()) + " and "@ + decimal(masked@.len())
                    + ""@);
            }
            return Err(NetworkError::InvalidConfig(message));
        }
        let mut row: usize = 0;
        while row < rows
            invariant
                row <= rows,
                rows == inputs.ids@.len(),
                masked@.len() == rows,
                targets@.len() == rows,
                inputs.wf(),
                masked_padding(inputs, masked@, row as int) is None,
            decreases rows - row,
        {
            if masked[row] && !inputs.is_valid(row) {
                proof {
                    assert(masked_padding(inputs, masked@, row + 1) == Some(row as int));
                    lemma_padding_stays(inputs, masked@, row + 1, rows as int);
                }
                return Err(
                    NetworkError::InvalidConfig(
                        with_number(
                            "row ",
                            row as u64,
                            " is padding, so it cannot be a masked target",
                        ),
                    ),
                );
            }
            row = row + 1;
        }
        if count_true(masked) == 0 {
            return Err(
                invalid_config("a masked batch with no masked position has nothing to learn from"),
            );
        }
        Ok(MaskedBatch::assembled(inputs, copy_of(targets), copy_of(masked)))
    }

    /// A batch of parts that go together.
    pub(crate) fn assembled(inputs: TokenBatch, targets: Vec<u32>, masked: Vec<bool>) -> (batch:
        MaskedBatch)
        requires
            inputs.wf(),
            objection(inputs, targets@, masked@) is None,
        ensures
            batch.wf(),
            batch.view() == (MaskedView { inputs, targets: targets@, masked: masked@ }),
    {
        MaskedBatch { inputs, targets, masked }
    }

    /// What the model reads: the corrupted ids.
    pub fn inputs(&self) -> (inputs: &TokenBatch)
        ensures
            *inputs == self.view().inputs,
    {
        &self.inputs
    }

    /// What it should reconstruct: the ids before corruption.
    pub fn targets(&self) -> (targets: &[u32])
        ensures
            targets@ == self.view().targets,
    {
        self.targets.as_slice()
    }

    /// Whether a row counts toward the loss.
    pub fn is_masked(&self, row: usize) -> (yes: bool)
        requires
            row < self.view().masked.len(),
        ensures
            yes == self.view().masked[row as int],
    {
        self.masked[row]
    }

    /// How many positions the loss covers.
    pub fn masked(&self) -> (count: usize)
        ensures
            count == trues(self.view().masked),
    {
        count_true(&self.masked)
    }
}

/// The token each row of a batch should reconstruct: those of the masked rows.
pub open spec fn targets_of(batch: MaskedView) -> Seq<Option<u32>> {
    Seq::new(
        batch.targets.len(),
        |row: int|
            if batch.masked[row] {
                Some(batch.targets[row])
            } else {
                None
            },
    )
}

/// The token each of `rows` rows of logits is scored against, if any: a masked
/// row against the token that was there. The others are context, and scoring
/// them would be scoring a model on copying its own input.
pub fn masked_targets(rows: usize, batch: &MaskedBatch) -> (targets: Result<
    Vec<Option<u32>>,
    NetworkError,
>)
    requires
        batch.wf(),
    ensures
        match targets {
            Ok(targets) => rows == batch.view().inputs.ids@.len() && targets@ == targets_of(
                batch.view(),
            ),
            Err(error) => rows != batch.view().inputs.ids@.len() && error@
                == (Fault::InvalidTarget {
                expected: rows,
                actual: batch.view().inputs.ids@.len() as usize,
            }),
        },
{
    if rows != batch.inputs.rows() {
        return Err(NetworkError::InvalidTarget { expected: rows, actual: batch.inputs.rows() });
    }
    let mut targets: Vec<Option<u32>> = Vec::new();
    let mut row: usize = 0;
    while row < rows
        invariant
            row <= rows,
            rows == batch.view().targets.len(),
            rows == batch.view().masked.len(),
            targets@ == targets_of(batch.view()).take(row as int),
        decreases rows - row,
    {
        targets.push(
            if batch.masked[row] {
                Some(batch.targets[row])
            } else {
                None
            },
        );
        row = row + 1;
        assert(targets@ =~= targets_of(batch.view()).take(row as int));
    }
    assert(targets@ =~= targets_of(batch.view()));
    Ok(targets)
}

fn count_true(flags: &Vec<bool>) -> (count: usize)
    ensures
        count == trues(flags@),
{
    let mut count: usize = 0;
    let mut i: usize = 0;
    while i < flags.len()
        invariant
            i <= flags@.len(),
            count <= i,
            count == trues(flags@.take(i as int)),
        decreases flags.len() - i,
    {
        assert(flags@.take(i + 1).drop_last() =~= flags@.take(i as int));
        if flags[i] {
            count = count + 1;
        }
        i = i + 1;
    }
    assert(flags@.take(i as int) =~= flags@);
    count
}

pub(crate) fn copy_of<A: Copy>(list: &Vec<A>) -> (copy: Vec<A>)
    ensures
        copy@ == list@,
{
    let mut copy: Vec<A> = Vec::new();
    let mut i: usize = 0;
    while i < list.len()
        invariant
            i <= list@.len(),
            copy@ == list@.take(i as int),
        decreases list.len() - i,
    {
        copy.push(list[i]);
        i = i + 1;
        assert(copy@ =~= list@.take(i as int));
    }
    assert(copy@ =~= list@);
    copy
}

} // verus!
