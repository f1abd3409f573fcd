//! What a whole corruption comes to.
use crate::corruption::{
    after_choice, after_coin, after_roll, after_token, fresh, is_batch_of, is_coherent, is_start,
    lemma_after_choice, lemma_after_coin, lemma_after_roll, lemma_after_token, lemma_next_masked,
    lemma_rows, next_masked, wanted_of, Fate, Phase, Progress, Wanted,
};
use crate::masked_lm::MaskedBatch;
use vstd::prelude::*;

verus! {

/// A draw handed to a corruption.
pub ghost enum Draw {
    Coin(bool),
    Position(int),
    Roll(Fate),
    Token(u32),
}

/// Whether a draw is the one a corruption waits for.
pub open spec fn answers(p: Progress, draw: Draw) -> bool {
    match draw {
        Draw::Coin(_) => p.phase == Phase::Coins,
        Draw::Position(position) => p.phase == Phase::Choosing && 0 <= position < p.length(),
        Draw::Roll(_) => p.phase == Phase::Rolling,
        Draw::Token(token) => p.phase == Phase::Replacing && token < p.vocab_size,
    }
}

/// A corruption after a draw.
pub open spec fn after_draw(p: Progress, draw: Draw) -> Progress {
    match draw {
        Draw::Coin(chosen) => after_coin(p, chosen),
        Draw::Position(position) => after_choice(p, position),
        Draw::Roll(fate) => after_roll(p, fate),
        Draw::Token(token) => after_token(p, token),
    }
}

/// A corruption of a batch after some draws.
pub open spec fn after_draws(p: Progress, draws: Seq<Draw>) -> Progress
    decreases draws.len(),
{
    if draws.len() == 0 {
        p
    } else {
        after_draw(after_draws(p, draws.drop_last()), draws.last())
    }
}

/// Whether each draw is the one the corruption waited for.
pub open spec fn answers_all(p: Progress, draws: Seq<Draw>) -> bool
    decreases draws.len(),
{
    draws.len() == 0 || answers_all(p, draws.drop_last()) && answers(
        after_draws(p, draws.drop_last()),
        draws.last(),
    )
}

/// Whether every coin among some draws fell the same way.
pub open spec fn coins_fell(draws: Seq<Draw>, chosen: bool) -> bool {
    forall|i: int| 0 <= i < draws.len() && #[trigger] draws[i] is Coin ==> draws[i]
        == Draw::Coin(chosen)
}

/// Whether position `i` of sequence `s` is masked.
pub open spec fn masked_at(p: Progress, s: int, i: int) -> bool {
    p.masked[s * p.inputs.seq_len + i]
}

/// Whether exactly one position of a sequence is masked.
pub open spec fn one_masked(p: Progress, s: int) -> bool {
    exists|i: int|
        {
            &&& 0 <= i < p.inputs.lengths@[s]
            &&& #[trigger] masked_at(p, s, i)
            &&& forall|j: int|
                0 <= j < p.inputs.lengths@[s] && j != i ==> !#[trigger] masked_at(p, s, j)
        }
}

/// Whether every token of a sequence is masked.
pub open spec fn all_masked(p: Progress, s: int) -> bool {
    forall|i: int| 0 <= i < p.inputs.lengths@[s] ==> #[trigger] masked_at(p, s, i)
}

/// A draw leaves a corruption coherent, of the same batch, and the flags of
/// the other sequences alone.
pub proof fn law_draw_is_sound(p: Progress, draw: Draw)
    requires
        is_coherent(p),
        answers(p, draw),
    ensures
        is_coherent(after_draw(p, draw)),
        after_draw(p, draw).inputs == p.inputs,
        after_draw(p, draw).vocab_size == p.vocab_size,
        after_draw(p, draw).mask_id == p.mask_id,
        forall|s: int, i: int|
            0 <= s < p.inputs.lengths@.len() && s != p.sequence && 0 <= i < p.inputs.lengths@[s]
                ==> #[trigger] masked_at(after_draw(p, draw), s, i) == masked_at(p, s, i),
{
    let q = after_draw(p, draw);
    match draw {
        Draw::Coin(chosen) => lemma_after_coin(p, chosen),
        Draw::Position(position) => lemma_after_choice(p, position),
        Draw::Roll(fate) => lemma_after_roll(p, fate),
        Draw::Token(token) => lemma_after_token(p, token),
    }
    assert forall|s: int, i: int|
        0 <= s < p.inputs.lengths@.len() && s != p.sequence && 0 <= i
            < p.inputs.lengths@[s] implies #[trigger] masked_at(q, s, i) == masked_at(p, s, i) by {
        let at = match draw {
            Draw::Coin(_) => p.position as int,
            Draw::Position(position) => position,
            _ => 0,
        };
        assert(0 < p.inputs.lengths@[p.sequence as int] <= p.inputs.seq_len);
        assert(0 < p.inputs.lengths@[s] <= p.inputs.seq_len);
        lemma_rows(p.inputs, s, i);
        lemma_rows(p.inputs, p.sequence as int, at);
        lemma_apart(s, i, p.sequence as int, at, p.inputs.seq_len as int);
    }
}

proof fn lemma_apart(s: int, i: int, t: int, j: int, n: int)
    requires
        s != t,
        0 <= i < n,
        0 <= j < n,
    ensures
        s * n + i != t * n + j,
{
    assert(s * n + i != t * n + j) by (nonlinear_arith)
        requires
            s != t,
            0 <= i < n,
            0 <= j < n,
    {
        if s < t {
            assert((s + 1) * n <= t * n) by (nonlinear_arith)
                requires
                    s + 1 <= t,
                    n > 0,
            ;
        } else {
            assert((t + 1) * n <= s * n) by (nonlinear_arith)
                requires
                    t + 1 <= s,
                    n > 0,
            ;
        }
    }
}

/// What a corruption has come to when every coin chose its position.
spec fn chose_all(p: Progress) -> bool {
    &&& forall|s: int| 0 <= s < p.sequence ==> #[trigger] all_masked(p, s)
    &&& p.phase == Phase::Coins ==> forall|i: int|
        0 <= i < p.position ==> #[trigger] masked_at(p, p.sequence as int, i)
    &&& p.phase != Phase::Coins && p.phase != Phase::Done ==> all_masked(p, p.sequence as int)
}

/// What a corruption has come to when no coin chose its position.
spec fn chose_none(p: Progress) -> bool {
    let s = p.sequence as int;
    &&& forall|t: int| 0 <= t < p.sequence ==> #[trigger] one_masked(p, t)
    &&& p.phase == Phase::Coins ==> forall|i: int|
        0 <= i < p.length() ==> !#[trigger] masked_at(p, s, i)
    &&& p.phase == Phase::Rolling || p.phase == Phase::Replacing ==> one_masked(p, s)
}

proof fn lemma_chose_all(p: Progress, draw: Draw)
    requires
        is_coherent(p),
        answers(p, draw),
        chose_all(p),
        draw is Coin ==> draw == Draw::Coin(true),
    ensures
        chose_all(after_draw(p, draw)),
{
    law_draw_is_sound(p, draw);
    let q = after_draw(p, draw);
    let s = p.sequence as int;
    assert forall|t: int| 0 <= t < p.sequence implies #[trigger] all_masked(q, t) by {
        assert(all_masked(p, t));
    }
    assert(0 < p.inputs.lengths@[s] <= p.inputs.seq_len);
    assert forall|i: int|
        0 <= i < p.length() && (draw is Coin ==> i <= p.position) implies #[trigger] masked_at(
        q,
        s,
        i,
    ) by {
        lemma_rows(p.inputs, s, i);
        if !(draw is Coin && i == p.position) {
            assert(masked_at(p, s, i));
        }
    }
    if q.sequence > s {
        assert(all_masked(q, s));
    }
}

proof fn lemma_chose_none(p: Progress, draw: Draw)
    requires
        is_coherent(p),
        answers(p, draw),
        chose_none(p),
        draw is Coin ==> draw == Draw::Coin(false),
    ensures
        chose_none(after_draw(p, draw)),
{
    law_draw_is_sound(p, draw);
    let q = after_draw(p, draw);
    let s = p.sequence as int;
    assert(0 < p.inputs.lengths@[s] <= p.inputs.seq_len);
    assert forall|t: int| 0 <= t < p.sequence implies #[trigger] one_masked(q, t) by {
        lemma_one_kept(p, q, t);
    }
    match draw {
        Draw::Coin(_) => {
            assert forall|i: int| 0 <= i < p.length() implies !#[trigger] masked_at(q, s, i) by {
                assert(!masked_at(p, s, i));
                lemma_rows(p.inputs, s, i);
            }
            let end = p.base() + p.length();
            let masked = p.masked.update(p.row(), false);
            lemma_next_masked(masked, p.base(), end);
            if p.position + 1 >= p.length() {
                let first = next_masked(masked, p.base(), end);
                assert(first < end ==> masked_at(q, s, first - p.base()));
            }
        },
        Draw::Position(position) => {
            lemma_rows(p.inputs, s, position);
            assert(masked_at(q, s, position));
            assert forall|j: int| 0 <= j < p.length() && j != position implies !#[trigger] masked_at(
                q,
                s,
                j,
            ) by {
                lemma_rows(p.inputs, s, j);
                assert(!p.masked[p.base() + j]);
            }
            assert(one_masked(q, s));
        },
        _ => {
            assert forall|i: int| 0 <= i < p.length() implies #[trigger] masked_at(q, s, i)
                == masked_at(p, s, i) by {}
            lemma_one_kept(p, q, s);
        },
    }
    if q.sequence > s && q.phase == Phase::Coins {
        let t = q.sequence as int;
        assert forall|i: int| 0 <= i < q.length() implies !#[trigger] masked_at(q, t, i) by {
            assert(!q.masked[q.base() + i]);
        }
    }
}

proof fn lemma_one_kept(p: Progress, q: Progress, s: int)
    requires
        one_masked(p, s),
        p.inputs == q.inputs,
        forall|i: int|
            0 <= i < p.inputs.lengths@[s] ==> #[trigger] masked_at(q, s, i) == masked_at(p, s, i),
    ensures
        one_masked(q, s),
{
    let i = choose|i: int|
        {
            &&& 0 <= i < p.inputs.lengths@[s]
            &&& #[trigger] masked_at(p, s, i)
            &&& forall|j: int|
                0 <= j < p.inputs.lengths@[s] && j != i ==> !#[trigger] masked_at(p, s, j)
        };
    assert(masked_at(q, s, i));
}

proof fn lemma_run(p: Progress, draws: Seq<Draw>, chosen: bool)
    requires
        is_coherent(p),
        p.sequence == 0 && p.position == 0 && p.phase == Phase::Coins,
        p.masked == Seq::new(p.inputs.ids@.len(), |r: int| false),
        answers_all(p, draws),
        coins_fell(draws, chosen),
    ensures
        is_coherent(after_draws(p, draws)),
        after_draws(p, draws).inputs == p.inputs,
        chosen ==> chose_all(after_draws(p, draws)),
        !chosen ==> chose_none(after_draws(p, draws)),
    decreases draws.len(),
{
    if draws.len() == 0 {
        assert(0 < p.inputs.lengths@[0] <= p.inputs.seq_len);
        assert forall|i: int| 0 <= i < p.length() implies !#[trigger] masked_at(p, 0, i) by {
            lemma_rows(p.inputs, 0, i);
        }
    } else {
        let before = draws.drop_last();
        assert(coins_fell(before, chosen)) by {
            assert forall|i: int| 0 <= i < before.len() && #[trigger] before[i] is Coin implies
                before[i] == Draw::Coin(chosen) by {
                assert(draws[i] is Coin);
            }
        }
        lemma_run(p, before, chosen);
        let q = after_draws(p, before);
        let draw = draws.last();
        assert(draws[draws.len() - 1] == draw);
        law_draw_is_sound(q, draw);
        if chosen {
            lemma_chose_all(q, draw);
        } else {
            lemma_chose_none(q, draw);
        }
    }
}

/// When every coin chooses, as at a masking probability of one, a corruption
/// that is complete has every token masked.
pub proof fn law_certain_masks_all(p: Progress, draws: Seq<Draw>)
    requires
        is_coherent(p),
        p == fresh(p.inputs, p.vocab_size, p.mask_id),
        answers_all(p, draws),
        coins_fell(draws, true),
        after_draws(p, draws).phase == Phase::Done,
    ensures
        forall|s: int|
            0 <= s < p.inputs.lengths@.len() ==> #[trigger] all_masked(after_draws(p, draws), s),
{
    lemma_run(p, draws, true);
}

/// When no coin chooses, as at a masking probability of zero, a corruption
/// that is complete has exactly one masked position in every sequence.
pub proof fn law_impossible_masks_one(p: Progress, draws: Seq<Draw>)
    requires
        is_coherent(p),
        p == fresh(p.inputs, p.vocab_size, p.mask_id),
        answers_all(p, draws),
        coins_fell(draws, false),
        after_draws(p, draws).phase == Phase::Done,
    ensures
        forall|s: int|
            0 <= s < p.inputs.lengths@.len() ==> #[trigger] one_masked(after_draws(p, draws), s),
{
    lemma_run(p, draws, false);
}

/// Whether two corruptions say the same.
pub open spec fn says_same(p: Progress, q: Progress) -> bool {
    &&& p.inputs.ids@ == q.inputs.ids@
    &&& p.inputs.seq_len == q.inputs.seq_len
    &&& p.inputs.lengths@ == q.inputs.lengths@
    &&& p.mask_id == q.mask_id
    &&& p.vocab_size == q.vocab_size
    &&& p.ids == q.ids
    &&& p.masked == q.masked
    &&& p.sequence == q.sequence
    &&& p.position == q.position
    &&& p.phase == q.phase
}

/// Two corruptions that say the same ask for the same draws in the same order,
/// and say the same after the same answers.
proof fn lemma_same_draws(p: Progress, q: Progress, draws: Seq<Draw>)
    requires
        says_same(p, q),
    ensures
        answers_all(p, draws) <==> answers_all(q, draws),
        says_same(after_draws(p, draws), after_draws(q, draws)),
    decreases draws.len(),
{
    if draws.len() > 0 {
        lemma_same_draws(p, q, draws.drop_last());
    }
}

/// Equal draws give equal batches: two corruptions of the same sequences take
/// the same draws, and when the draws complete them the batches read the same
/// tokens, have the same targets and the same rows masked.
pub proof fn law_equal_draws_give_equal_batches(
    sequences: Seq<Vec<u32>>,
    vocab_size: usize,
    mask_id: u32,
    p: Progress,
    q: Progress,
    draws: Seq<Draw>,
    a: MaskedBatch,
    b: MaskedBatch,
)
    requires
        is_start(sequences, vocab_size, mask_id, p),
        is_start(sequences, vocab_size, mask_id, q),
        is_batch_of(after_draws(p, draws), a),
        is_batch_of(after_draws(q, draws), b),
    ensures
        answers_all(p, draws) <==> answers_all(q, draws),
        wanted_of(after_draws(p, draws)) == wanted_of(after_draws(q, draws)),
        a.view().inputs.ids@ == b.view().inputs.ids@,
        a.view().inputs.seq_len == b.view().inputs.seq_len,
        a.view().inputs.lengths@ == b.view().inputs.lengths@,
        a.view().targets == b.view().targets,
        a.view().masked == b.view().masked,
{
    lemma_same_draws(p, q, draws);
}

/// What a source of draws answers, given the draws so far and the one that is
/// wanted: a generator with a seed is one.
pub type Source = spec_fn(Seq<Draw>, Wanted) -> Draw;

/// The first draws that a corruption takes from a source, at most `k`.
pub open spec fn drawn(p: Progress, source: Source, k: nat) -> Seq<Draw>
    decreases k,
{
    if k == 0 {
        Seq::empty()
    } else {
        let before = drawn(p, source, (k - 1) as nat);
        let wanted = wanted_of(after_draws(p, before));
        if wanted is Nothing {
            before
        } else {
            before.push(source(before, wanted))
        }
    }
}

/// Equal seeds give equal draws: two corruptions of the same sequences that
/// take their draws from the same source take the same ones, and are complete
/// after the same number of them.
pub proof fn law_equal_sources_give_equal_draws(
    sequences: Seq<Vec<u32>>,
    vocab_size: usize,
    mask_id: u32,
    p: Progress,
    q: Progress,
    source: Source,
    k: nat,
)
    requires
        is_start(sequences, vocab_size, mask_id, p),
        is_start(sequences, vocab_size, mask_id, q),
    ensures
        drawn(p, source, k) == drawn(q, source, k),
        says_same(
            after_draws(p, drawn(p, source, k)),
            after_draws(q, drawn(q, source, k)),
        ),
    decreases k,
{
    if k > 0 {
        law_equal_sources_give_equal_draws(
            sequences,
            vocab_size,
            mask_id,
            p,
            q,
            source,
            (k - 1) as nat,
        );
    }
    lemma_same_draws(p, q, drawn(p, source, k));
}

} // verus!
