//! Corrupting a batch, one draw at a time.
//!
//! Each position of a sequence is chosen or not by a coin; a sequence in which
//! none was chosen gets one position chosen for it, so that it cannot have
//! nothing to learn from. Then every chosen position becomes the mask token,
//! or some other token, or stays what it was. The draws are the caller's:
//! [`Corruption::wanted`] says which one comes next.
use crate::batch::{longest, packed, TokenBatch};
use crate::counting::lemma_trues_some;
use crate::error::{Fault, NetworkError};
use crate::masked_lm::{copy_of, masked_padding, MaskedBatch};
use crate::text::with_text;
use vstd::prelude::*;

verus! {

/// The draw that comes next.
#[derive(Clone, Copy, Debug, PartialEq, Eq, Structural)]
pub enum Wanted {
    /// Whether the next position is chosen.
    Coin,
    /// A position below the given length.
    Position(usize),
    /// What becomes of a chosen position.
    Roll,
    /// A token of the vocabulary.
    Token,
    /// None: the corruption is complete.
    Nothing,
}

/// What becomes of a chosen position.
#[derive(Clone, Copy, Debug, PartialEq, Eq, Structural)]
pub enum Fate {
    /// It becomes the mask token.
    Mask,
    /// It becomes a drawn token.
    Replace,
    /// It stays what it was.
    Keep,
}

/// Which draw a corruption waits for.
#[derive(Clone, Copy, Debug, PartialEq, Eq, Structural)]
pub enum Phase {
    Coins,
    Choosing,
    Rolling,
    Replacing,
    Done,
}

/// A batch in the middle of being corrupted.
#[derive(Debug)]
pub struct Corruption {
    inputs: TokenBatch,
    mask_id: u32,
    vocab_size: usize,
    ids: Vec<u32>,
    masked: Vec<bool>,
    sequence: usize,
    position: usize,
    phase: Phase,
}

/// What a [`Corruption`] says.
#[verifier::ext_equal]
pub ghost struct Progress {
    pub inputs: TokenBatch,
    pub mask_id: u32,
    pub vocab_size: usize,
    /// What the model will read.
    pub ids: Seq<u32>,
    pub masked: Seq<bool>,
    /// The sequence and the position of the next draw.
    pub sequence: nat,
    pub position: nat,
    pub phase: Phase,
}

impl Progress {
    /// The first row of the current sequence.
    pub open spec fn base(self) -> int {
        self.sequence * self.inputs.seq_len
    }

    /// The tokens of the current sequence.
    pub open spec fn length(self) -> int {
        self.inputs.lengths@[self.sequence as int] as int
    }

    /// The row of the next draw.
    pub open spec fn row(self) -> int {
        self.base() + self.position
    }
}

/// The first masked row from `from` on, or `end`.
pub open spec fn next_masked(masked: Seq<bool>, from: int, end: int) -> int
    decreases end - from,
{
    if from >= end || masked[from] {
        from
    } else {
        next_masked(masked, from + 1, end)
    }
}

/// Where a corruption goes on once a sequence is complete.
pub open spec fn next_sequence(p: Progress) -> Progress {
    Progress {
        sequence: p.sequence + 1,
        position: 0,
        phase: if p.sequence + 1 < p.inputs.lengths@.len() { Phase::Coins } else { Phase::Done },
        ..p
    }
}

/// Where a corruption goes on: at the first chosen position from `from` on, or
/// in the next sequence.
pub open spec fn roll_from(p: Progress, from: int) -> Progress {
    let row = next_masked(p.masked, p.base() + from, p.base() + p.length());
    if row < p.base() + p.length() {
        Progress { position: (row - p.base()) as nat, phase: Phase::Rolling, ..p }
    } else {
        next_sequence(p)
    }
}

/// A corruption after a coin.
pub open spec fn after_coin(p: Progress, chosen: bool) -> Progress {
    let q = Progress { masked: p.masked.update(p.row(), chosen), position: p.position + 1, ..p };
    let end = p.base() + p.length();
    if q.position < p.length() {
        q
    } else if next_masked(q.masked, p.base(), end) < end {
        roll_from(q, 0)
    } else {
        Progress { phase: Phase::Choosing, ..q }
    }
}

/// A corruption after a position was chosen for a sequence that had none.
pub open spec fn after_choice(p: Progress, position: int) -> Progress {
    roll_from(Progress { masked: p.masked.update(p.base() + position, true), ..p }, 0)
}

/// A corruption after a chosen position's fate was drawn.
pub open spec fn after_roll(p: Progress, fate: Fate) -> Progress {
    match fate {
        Fate::Mask => roll_from(
            Progress { ids: p.ids.update(p.row(), p.mask_id), ..p },
            (p.position + 1) as int,
        ),
        Fate::Replace => Progress { phase: Phase::Replacing, ..p },
        Fate::Keep => roll_from(p, (p.position + 1) as int),
    }
}

/// A corruption after a token was drawn.
pub open spec fn after_token(p: Progress, token: u32) -> Progress {
    roll_from(Progress { ids: p.ids.update(p.row(), token), ..p }, (p.position + 1) as int)
}

/// Whether a sequence has a masked position.
pub open spec fn has_masked(inputs: TokenBatch, masked: Seq<bool>, s: int) -> bool {
    exists|i: int|
        0 <= i < inputs.lengths@[s] && #[trigger] masked[s * inputs.seq_len + i]
}

/// Whether the parts of a corruption go together: only tokens are masked, a
/// row that is not masked reads what it was, one that is reads a token of the
/// vocabulary or what it was, and every sequence that is complete has a masked
/// position.
pub open spec fn is_coherent(p: Progress) -> bool {
    let rows = p.inputs.ids@.len();
    let count = p.inputs.lengths@.len();
    &&& p.inputs.wf()
    &&& count > 0
    &&& p.mask_id < p.vocab_size
    &&& p.ids.len() == rows
    &&& p.masked.len() == rows
    &&& p.phase == Phase::Done <==> p.sequence == count
    &&& p.sequence <= count
    &&& forall|r: int| 0 <= r < rows && #[trigger] p.masked[r] ==> !p.inputs.pads(r)
    &&& forall|r: int|
        0 <= r < rows && !#[trigger] p.masked[r] ==> p.ids[r] == p.inputs.ids@[r]
    &&& forall|r: int|
        0 <= r < rows ==> #[trigger] p.ids[r] == p.inputs.ids@[r] || p.ids[r] < p.vocab_size
    &&& forall|s: int| 0 <= s < p.sequence ==> #[trigger] has_masked(p.inputs, p.masked, s)
    &&& p.phase != Phase::Done ==> match p.phase {
        Phase::Coins => p.position < p.length() && forall|r: int|
            p.row() <= r < p.base() + p.length() ==> !#[trigger] p.masked[r],
        Phase::Choosing => forall|r: int|
            p.base() <= r < p.base() + p.length() ==> !#[trigger] p.masked[r],
        _ => p.position < p.length() && p.masked[p.row()],
    }
    &&& p.phase != Phase::Done ==> forall|r: int|
        p.base() + p.length() <= r < rows ==> !#[trigger] p.masked[r]
}

pub(crate) proof fn lemma_next_masked(masked: Seq<bool>, from: int, end: int)
    requires
        from <= end,
    ensures
        from <= next_masked(masked, from, end) <= end,
        next_masked(masked, from, end) < end ==> masked[next_masked(masked, from, end)],
        forall|r: int| from <= r < next_masked(masked, from, end) ==> !#[trigger] masked[r],
    decreases end - from,
{
    if from < end && !masked[from] {
        lemma_next_masked(masked, from + 1, end);
    }
}

/// The rows of a sequence are those of the batch, and its tokens no padding.
pub(crate) proof fn lemma_rows(inputs: TokenBatch, s: int, i: int)
    requires
        inputs.wf(),
        0 <= s < inputs.lengths@.len(),
        0 <= i < inputs.seq_len,
    ensures
        0 <= s * inputs.seq_len + i < inputs.ids@.len(),
        inputs.pads(s * inputs.seq_len + i) == (i >= inputs.lengths@[s]),
        s * inputs.seq_len + inputs.seq_len <= inputs.ids@.len(),
{
    let (n, m) = (inputs.seq_len as int, inputs.lengths@.len() as int);
    assert(s * n + n <= m * n && 0 <= s * n) by (nonlinear_arith)
        requires
            0 <= s < m,
            n > 0,
    ;
    vstd::arithmetic::div_mod::lemma_fundamental_div_mod_converse(s * n + i, n, s, i);
}

/// What going on with the rolls keeps.
proof fn lemma_roll_from(p: Progress, from: int)
    requires
        p.inputs.wf(),
        p.inputs.lengths@.len() > 0,
        p.mask_id < p.vocab_size,
        p.ids.len() == p.inputs.ids@.len(),
        p.masked.len() == p.inputs.ids@.len(),
        p.sequence < p.inputs.lengths@.len(),
        0 <= from <= p.length(),
        forall|r: int|
            0 <= r < p.masked.len() && #[trigger] p.masked[r] ==> !p.inputs.pads(r),
        forall|r: int|
            0 <= r < p.masked.len() && !#[trigger] p.masked[r] ==> p.ids[r] == p.inputs.ids@[r],
        forall|r: int|
            0 <= r < p.ids.len() ==> #[trigger] p.ids[r] == p.inputs.ids@[r] || p.ids[r]
                < p.vocab_size,
        forall|s: int| 0 <= s <= p.sequence ==> #[trigger] has_masked(p.inputs, p.masked, s),
        forall|r: int|
            p.base() + p.length() <= r < p.masked.len() ==> !#[trigger] p.masked[r],
    ensures
        is_coherent(roll_from(p, from)),
{
    let q = roll_from(p, from);
    let end = p.base() + p.length();
    lemma_next_masked(p.masked, p.base() + from, end);
    assert(0 < p.inputs.lengths@[p.sequence as int] <= p.inputs.seq_len);
    lemma_rows(p.inputs, p.sequence as int, 0);
    if q.sequence != p.sequence && q.sequence < p.inputs.lengths@.len() {
        assert(0 < p.inputs.lengths@[q.sequence as int] <= p.inputs.seq_len);
        lemma_rows(p.inputs, q.sequence as int, 0);
        assert(q.base() == p.base() + p.inputs.seq_len) by (nonlinear_arith)
            requires
                q.base() == (p.sequence + 1) * p.inputs.seq_len,
                p.base() == p.sequence * p.inputs.seq_len,
        ;
    }
}

pub(crate) proof fn lemma_after_coin(p: Progress, chosen: bool)
    requires
        is_coherent(p),
        p.phase == Phase::Coins,
    ensures
        is_coherent(after_coin(p, chosen)),
{
    assert(0 < p.inputs.lengths@[p.sequence as int] <= p.inputs.seq_len);
    lemma_rows(p.inputs, p.sequence as int, p.position as int);
    let q = Progress { masked: p.masked.update(p.row(), chosen), position: p.position + 1, ..p };
    assert forall|s: int| 0 <= s < p.sequence implies #[trigger] has_masked(
        p.inputs,
        q.masked,
        s,
    ) by {
        lemma_stays_masked(p.inputs, p.masked, q.masked, s, p.row());
    }
    assert forall|r: int| 0 <= r < q.masked.len() && !#[trigger] q.masked[r] implies q.ids[r]
        == p.inputs.ids@[r] by {
        assert(!p.masked[r] || r == p.row());
        assert(!p.masked[p.row()]);
    }
    let end = p.base() + p.length();
    if q.position >= p.length() {
        lemma_next_masked(q.masked, p.base(), end);
        let first = next_masked(q.masked, p.base(), end);
        if first < end {
            assert(has_masked(p.inputs, q.masked, p.sequence as int)) by {
                assert(q.masked[p.sequence * p.inputs.seq_len + (first - p.base())]);
            }
            lemma_roll_from(q, 0);
        }
    }
}

pub(crate) proof fn lemma_after_choice(p: Progress, position: int)
    requires
        is_coherent(p),
        p.phase == Phase::Choosing,
        0 <= position < p.length(),
    ensures
        is_coherent(after_choice(p, position)),
{
    assert(0 < p.inputs.lengths@[p.sequence as int] <= p.inputs.seq_len);
    lemma_rows(p.inputs, p.sequence as int, position);
    let q = Progress { masked: p.masked.update(p.base() + position, true), ..p };
    assert forall|s: int| 0 <= s <= p.sequence implies #[trigger] has_masked(
        p.inputs,
        q.masked,
        s,
    ) by {
        if s < p.sequence {
            lemma_stays_masked(p.inputs, p.masked, q.masked, s, p.base() + position);
        } else {
            assert(q.masked[s * p.inputs.seq_len + position]);
        }
    }
    assert forall|r: int| 0 <= r < q.masked.len() && !#[trigger] q.masked[r] implies q.ids[r]
        == p.inputs.ids@[r] by {
        assert(!p.masked[r]);
    }
    lemma_roll_from(q, 0);
}

pub(crate) proof fn lemma_after_token(p: Progress, token: u32)
    requires
        is_coherent(p),
        p.phase == Phase::Rolling || p.phase == Phase::Replacing,
        token < p.vocab_size,
    ensures
        is_coherent(after_token(p, token)),
{
    assert(0 < p.inputs.lengths@[p.sequence as int] <= p.inputs.seq_len);
    lemma_rows(p.inputs, p.sequence as int, p.position as int);
    assert(has_masked(p.inputs, p.masked, p.sequence as int)) by {
        assert(p.masked[p.sequence * p.inputs.seq_len + p.position]);
    }
    lemma_roll_from(
        Progress { ids: p.ids.update(p.row(), token), ..p },
        (p.position + 1) as int,
    );
}

pub(crate) proof fn lemma_after_roll(p: Progress, fate: Fate)
    requires
        is_coherent(p),
        p.phase == Phase::Rolling,
    ensures
        is_coherent(after_roll(p, fate)),
{
    match fate {
        Fate::Mask => lemma_after_token(p, p.mask_id),
        Fate::Replace => {},
        Fate::Keep => {
            assert(has_masked(p.inputs, p.masked, p.sequence as int)) by {
                assert(p.masked[p.sequence * p.inputs.seq_len + p.position]);
            }
            lemma_roll_from(p, (p.position + 1) as int);
        },
    }
}

/// Where corrupting a batch starts.
pub open spec fn fresh(inputs: TokenBatch, vocab_size: usize, mask_id: u32) -> Progress {
    Progress {
        inputs,
        mask_id,
        vocab_size,
        ids: inputs.ids@,
        masked: Seq::new(inputs.ids@.len(), |r: int| false),
        sequence: 0,
        position: 0,
        phase: Phase::Coins,
    }
}

/// Whether a corruption of sequences is at its start.
pub open spec fn is_start(
    sequences: Seq<Vec<u32>>,
    vocab_size: usize,
    mask_id: u32,
    p: Progress,
) -> bool {
    &&& p == fresh(p.inputs, vocab_size, mask_id)
    &&& p.inputs.seq_len == longest(sequences, sequences.len() as int)
    &&& p.inputs.lengths@ == sequences.map_values(|s: Vec<u32>| s@.len() as usize)
    &&& p.inputs.ids@ == packed(sequences, p.inputs.seq_len as nat, sequences.len() as int)
}

/// The draw that a corruption waits for.
pub open spec fn wanted_of(p: Progress) -> Wanted {
    match p.phase {
        Phase::Coins => Wanted::Coin,
        Phase::Choosing => Wanted::Position(p.length() as usize),
        Phase::Rolling => Wanted::Roll,
        Phase::Replacing => Wanted::Token,
        Phase::Done => Wanted::Nothing,
    }
}

/// Whether a batch is what a complete corruption says.
pub open spec fn is_batch_of(p: Progress, batch: MaskedBatch) -> bool {
    &&& batch.view().inputs.ids@ == p.ids
    &&& batch.view().inputs.seq_len == p.inputs.seq_len
    &&& batch.view().inputs.lengths == p.inputs.lengths
    &&& batch.view().targets == p.inputs.ids@
    &&& batch.view().masked == p.masked
}

/// Whether some sequence of a list is empty, or there is none.
pub open spec fn lacks_tokens(sequences: Seq<Vec<u32>>) -> bool {
    sequences.len() == 0 || exists|s: int|
        0 <= s < sequences.len() && (#[trigger] sequences[s])@.len() == 0
}

impl MaskedBatch {
    /// Starts corrupting sequences. `fraction` is an error with the text of
    /// the masking probability when that is not between zero and one.
    pub fn corrupt(
        sequences: &Vec<Vec<u32>>,
        vocab_size: usize,
        mask_id: u32,
        fraction: Result<(), String>,
    ) -> (corruption: Result<Corruption, NetworkError>)
        requires
            sequences@.len() * longest(sequences@, sequences@.len() as int) <= usize::MAX,
        ensures
            match corruption {
                Ok(corruption) => {
                    let p = corruption.progress();
                    &&& mask_id < vocab_size
                    &&& fraction is Ok
                    &&& !lacks_tokens(sequences@)
                    &&& is_coherent(p)
                    &&& is_start(sequences@, vocab_size, mask_id, p)
                },
                Err(error) => error@ == if mask_id >= vocab_size {
                    Fault::TokenOutOfRange { id: mask_id, vocab_size }
                } else if fraction is Err {
                    Fault::InvalidConfig(
                        "a masking probability is a fraction, got "@ + fraction->Err_0@ + ""@,
                    )
                } else {
                    Fault::InvalidConfig(
                        "a batch needs at least one sequence, and every sequence a token"@,
                    )
                } && (mask_id < vocab_size && fraction is Ok ==> lacks_tokens(sequences@)),
            },
    {
        if mask_id as usize >= vocab_size {
            return Err(NetworkError::TokenOutOfRange { id: mask_id, vocab_size });
        }
        if let Err(shown) = &fraction {
            return Err(
                NetworkError::InvalidConfig(
                    with_text("a masking probability is a fraction, got ", shown.as_str(), ""),
                ),
            );
        }
        let inputs = match TokenBatch::new(sequences) {
            Ok(inputs) => inputs,
            Err(error) => return Err(error),
        };
        let ids = copy_of(&inputs.ids);
        let mut masked: Vec<bool> = Vec::new();
        let rows: usize = inputs.rows();
        let mut i: usize = 0;
        while i < rows
            invariant
                i <= rows,
                masked@ == Seq::new(i as nat, |r: int| false),
            decreases rows - i,
        {
            masked.push(false);
            i = i + 1;
            assert(masked@ =~= Seq::new(i as nat, |r: int| false));
        }
        let corruption = Corruption {
            inputs,
            mask_id,
            vocab_size,
            ids,
            masked,
            sequence: 0,
            position: 0,
            phase: Phase::Coins,
        };
        proof {
            let p = corruption.progress();
            assert(sequences@[0]@.len() > 0);
            assert(p.inputs.lengths@[0] > 0);
        }
        Ok(corruption)
    }
}

impl Corruption {
    /// What the corruption says.
    pub closed spec fn progress(&self) -> Progress {
        Progress {
            inputs: self.inputs,
            mask_id: self.mask_id,
            vocab_size: self.vocab_size,
            ids: self.ids@,
            masked: self.masked@,
            sequence: self.sequence as nat,
            position: self.position as nat,
            phase: self.phase,
        }
    }

    /// The draw that comes next.
    pub fn wanted(&self) -> (wanted: Wanted)
        requires
            is_coherent(self.progress()),
        ensures
            wanted == wanted_of(self.progress()),
    {
        match self.phase {
            Phase::Coins => Wanted::Coin,
            Phase::Choosing => Wanted::Position(self.inputs.lengths[self.sequence]),
            Phase::Rolling => Wanted::Roll,
            Phase::Replacing => Wanted::Token,
            Phase::Done => Wanted::Nothing,
        }
    }

    /// The first row of the current sequence.
    fn base(&self) -> (base: usize)
        requires
            self.inputs.wf(),
            self.sequence < self.inputs.lengths@.len(),
        ensures
            base == self.progress().base(),
            base + self.inputs.seq_len <= self.inputs.ids@.len(),
            self.inputs.ids@.len() <= usize::MAX,
    {
        let rows: usize = self.inputs.rows();
        proof {
            lemma_rows(self.inputs, self.sequence as int, 0);
        }
        self.sequence * self.inputs.seq_len
    }

    /// Goes on with the rolls from a position, or with the next sequence.
    fn go_on(&mut self, from: usize)
        requires
            old(self).inputs.wf(),
            old(self).sequence < old(self).inputs.lengths@.len(),
            old(self).masked@.len() == old(self).inputs.ids@.len(),
            from <= old(self).inputs.lengths@[old(self).sequence as int],
        ensures
            final(self).progress() == roll_from(old(self).progress(), from as int),
    {
        let base: usize = self.base();
        let length: usize = self.inputs.lengths[self.sequence];
        let ghost p = self.progress();
        let mut at: usize = from;
        assert(0 < self.inputs.lengths@[self.sequence as int] <= self.inputs.seq_len);
        while at < length && !self.masked[base + at]
            invariant
                from <= at <= length,
                *self == *old(self),
                p == old(self).progress(),
                base == p.base(),
                length == p.length(),
                length <= self.inputs.seq_len,
                base + self.inputs.seq_len <= self.inputs.ids@.len() <= usize::MAX,
                self.masked@.len() == self.inputs.ids@.len(),
                next_masked(p.masked, base + from, base + length) == next_masked(
                    p.masked,
                    base + at,
                    base + length,
                ),
            decreases length - at,
        {
            at = at + 1;
        }
        if at < length {
            self.position = at;
            self.phase = Phase::Rolling;
        } else {
            let count: usize = self.inputs.lengths.len();
            self.sequence = self.sequence + 1;
            self.position = 0;
            self.phase = if self.sequence < count {
                Phase::Coins
            } else {
                Phase::Done
            };
        }
    }

    /// Whether the next position is chosen.
    pub fn coin(&mut self, chosen: bool)
        requires
            is_coherent(old(self).progress()),
            old(self).progress().phase == Phase::Coins,
        ensures
            is_coherent(final(self).progress()),
            final(self).progress() == after_coin(old(self).progress(), chosen),
    {
        let ghost p = self.progress();
        let base: usize = self.base();
        let length: usize = self.inputs.lengths[self.sequence];
        proof {
            assert(0 < self.inputs.lengths@[self.sequence as int] <= self.inputs.seq_len);
            lemma_after_coin(p, chosen);
        }
        self.masked.set(base + self.position, chosen);
        self.position = self.position + 1;
        let ghost q = self.progress();
        if self.position < length {
            return;
        }
        let mut at: usize = 0;
        while at < length && !self.masked[base + at]
            invariant
                at <= length,
                self.progress() == q,
                base == q.base(),
                length == q.length(),
                length <= self.inputs.seq_len,
                base + self.inputs.seq_len <= self.inputs.ids@.len() <= usize::MAX,
                self.masked@.len() == self.inputs.ids@.len(),
                next_masked(q.masked, base as int, base + length) == next_masked(
                    q.masked,
                    base + at,
                    base + length,
                ),
            decreases length - at,
        {
            at = at + 1;
        }
        if at < length {
            self.go_on(0);
        } else {
            self.phase = Phase::Choosing;
        }
    }

    /// The position chosen for a sequence in which no coin chose one.
    pub fn place(&mut self, position: usize)
        requires
            is_coherent(old(self).progress()),
            old(self).progress().phase == Phase::Choosing,
            position < old(self).progress().length(),
        ensures
            is_coherent(final(self).progress()),
            final(self).progress() == after_choice(old(self).progress(), position as int),
    {
        let base: usize = self.base();
        proof {
            assert(0 < self.inputs.lengths@[self.sequence as int] <= self.inputs.seq_len);
            lemma_after_choice(self.progress(), position as int);
        }
        self.masked.set(base + position, true);
        self.go_on(0);
    }

    /// What becomes of a chosen position.
    pub fn roll(&mut self, fate: Fate)
        requires
            is_coherent(old(self).progress()),
            old(self).progress().phase == Phase::Rolling,
        ensures
            is_coherent(final(self).progress()),
            final(self).progress() == after_roll(old(self).progress(), fate),
    {
        let base: usize = self.base();
        proof {
            assert(0 < self.inputs.lengths@[self.sequence as int] <= self.inputs.seq_len);
            lemma_after_roll(self.progress(), fate);
        }
        match fate {
            Fate::Mask => {
                self.ids.set(base + self.position, self.mask_id);
                let next: usize = self.position + 1;
                self.go_on(next);
            },
            Fate::Replace => {
                self.phase = Phase::Replacing;
            },
            Fate::Keep => {
                let next: usize = self.position + 1;
                self.go_on(next);
            },
        }
    }

    /// The token a chosen position becomes.
    pub fn token(&mut self, token: u32)
        requires
            is_coherent(old(self).progress()),
            old(self).progress().phase == Phase::Replacing,
            token < old(self).progress().vocab_size,
        ensures
            is_coherent(final(self).progress()),
            final(self).progress() == after_token(old(self).progress(), token),
    {
        let base: usize = self.base();
        proof {
            assert(0 < self.inputs.lengths@[self.sequence as int] <= self.inputs.seq_len);
            lemma_after_token(self.progress(), token);
        }
        self.ids.set(base + self.position, token);
        let next: usize = self.position + 1;
        self.go_on(next);
    }

    /// The corrupted batch. Its targets are the tokens before corruption;
    /// every sequence has a masked position, no padding is masked, and a row
    /// that is not masked reads exactly what it was.
    pub fn finish(self) -> (batch: MaskedBatch)
        requires
            is_coherent(self.progress()),
            self.progress().phase == Phase::Done,
        ensures
            batch.wf(),
            is_batch_of(self.progress(), batch),
            forall|s: int|
                0 <= s < batch.view().inputs.lengths@.len() ==> #[trigger] has_masked(
                    batch.view().inputs,
                    batch.view().masked,
                    s,
                ),
            forall|r: int|
                0 <= r < batch.view().masked.len() ==> (#[trigger] batch.view().masked[r]
                    ==> !batch.view().inputs.pads(r)) && (!batch.view().masked[r]
                    ==> batch.view().inputs.ids@[r] == batch.view().targets[r]),
            forall|r: int|
                0 <= r < batch.view().targets.len() ==> #[trigger] batch.view().inputs.ids@[r]
                    == batch.view().targets[r] || batch.view().inputs.ids@[r]
                    < self.progress().vocab_size,
    {
        let ghost p = self.progress();
        let targets = copy_of(&self.inputs.ids);
        let masked = copy_of(&self.masked);
        let inputs = self.inputs.replacing_ids(self.ids);
        proof {
            lemma_no_masked_padding(inputs, masked@, masked@.len() as int);
            assert(has_masked(p.inputs, p.masked, 0));
            let i = choose|i: int|
                0 <= i < p.inputs.lengths@[0] && #[trigger] p.masked[0 * p.inputs.seq_len + i];
            assert(0 < p.inputs.lengths@[0] <= p.inputs.seq_len);
            lemma_rows(p.inputs, 0, i);
            lemma_trues_some(masked@, 0 * p.inputs.seq_len + i);
            assert forall|s: int| 0 <= s < inputs.lengths@.len() implies #[trigger] has_masked(
                inputs,
                masked@,
                s,
            ) by {
                assert(has_masked(p.inputs, p.masked, s));
                let i = choose|i: int|
                    0 <= i < p.inputs.lengths@[s] && #[trigger] p.masked[s * p.inputs.seq_len + i];
                assert(masked@[s * inputs.seq_len + i]);
            }
        }
        MaskedBatch::assembled(inputs, targets, masked)
    }
}

/// A masked sequence stays masked where another row changes.
proof fn lemma_stays_masked(
    inputs: TokenBatch,
    before: Seq<bool>,
    after: Seq<bool>,
    s: int,
    changed: int,
)
    requires
        inputs.wf(),
        0 <= s < inputs.lengths@.len(),
        before.len() == inputs.ids@.len(),
        has_masked(inputs, before, s),
        forall|r: int|
            0 <= r < before.len() && r != changed ==> #[trigger] after[r] == before[r],
        before[changed] ==> after[changed],
    ensures
        has_masked(inputs, after, s),
{
    let i = choose|i: int|
        0 <= i < inputs.lengths@[s] && #[trigger] before[s * inputs.seq_len + i];
    assert(0 < inputs.lengths@[s] <= inputs.seq_len);
    lemma_rows(inputs, s, i);
    assert(after[s * inputs.seq_len + i]);
}

proof fn lemma_no_masked_padding(inputs: TokenBatch, masked: Seq<bool>, k: int)
    requires
        0 <= k <= masked.len(),
        forall|r: int| 0 <= r < masked.len() && #[trigger] masked[r] ==> !inputs.pads(r),
    ensures
        masked_padding(inputs, masked, k) is None,
    decreases k,
{
    if k > 0 {
        lemma_no_masked_padding(inputs, masked, k - 1);
    }
}

} // verus!
