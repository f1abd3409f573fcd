//! Rotary positions of a prompt's tokens and an image's patches.
//!
//! How far a pair of dimensions is turned is a position times a frequency; the
//! frequency depends on the pair's place within its axis. A [`Turn`] holds
//! both as whole numbers; the angle is up to whoever turns.
use crate::matrix::{entry, lemma_entry, lemma_entry_injective, Matrix};
use crate::mmdit::{has_odd, DitConfig};
use crate::moe::total;
use vstd::prelude::*;

verus! {

/// How a pair of dimensions is turned: the position along its axis, the pair's
/// place within the axis, and the axis's dimensions.
#[derive(Clone, Copy, Debug, PartialEq, Eq, Structural)]
pub struct Turn {
    pub position: usize,
    pub index: usize,
    pub dim: usize,
}

/// The turns of every token of a sequence: text first, then one token per
/// patch, row by row.
#[derive(Debug)]
pub struct Positions {
    pub pairs: usize,
    pub turns: Vec<Turn>,
}

/// The axis and the place within it of each pair of the first `k` axes.
pub open spec fn pair_list(axes: Seq<usize>, k: int) -> Seq<(int, int)>
    decreases k,
{
    if k <= 0 {
        Seq::empty()
    } else {
        pair_list(axes, k - 1) + Seq::new((axes[k - 1] / 2) as nat, |i: int| (k - 1, i))
    }
}

/// The row and the column of a token: text sits at the origin.
pub open spec fn place(text_len: int, width: int, token: int) -> (int, int) {
    if token < text_len {
        (0, 0)
    } else {
        ((token - text_len) / width, (token - text_len) % width)
    }
}

/// The position of a token along an axis: the last axis counts columns, the
/// one before it rows, and any other stays at zero.
pub open spec fn position(axes: int, axis: int, place: (int, int)) -> int {
    if axes - axis == 2 {
        place.0
    } else if axes - axis == 1 {
        place.1
    } else {
        0
    }
}

/// The turn of a pair of a token.
pub open spec fn turn_of(axes: Seq<usize>, text_len: int, width: int, token: int, pair: int) -> Turn {
    let (axis, index) = pair_list(axes, axes.len() as int)[pair];
    Turn {
        position: position(axes.len() as int, axis, place(text_len, width, token)) as usize,
        index: index as usize,
        dim: axes[axis],
    }
}

/// The pairs of even axes are half of their dimensions.
proof fn lemma_pairs(axes: Seq<usize>, k: int)
    requires
        0 <= k <= axes.len(),
        !has_odd(axes),
    ensures
        2 * pair_list(axes, k).len() == total(axes, k),
    decreases k,
{
    if k > 0 {
        lemma_pairs(axes, k - 1);
        assert(axes[k - 1] % 2 == 0);
    }
}

pub proof fn lemma_pair_of(axes: Seq<usize>, k: int, a: int, i: int)
    requires
        0 <= a < k <= axes.len(),
        0 <= i < axes[a] / 2,
    ensures
        pair_list(axes, a).len() + i < pair_list(axes, k).len(),
        pair_list(axes, k)[pair_list(axes, a).len() + i] == (a, i),
    decreases k,
{
    if a < k - 1 {
        lemma_pair_of(axes, k - 1, a, i);
    }
}

impl Positions {
    /// The turns of a prompt of so many tokens and an image of so many patches.
    pub fn new(config: &DitConfig, text_len: usize, height: usize, width: usize) -> (positions:
        Positions)
        requires
            config.objection() is None,
            text_len + height * width <= usize::MAX,
            (text_len + height * width) * (config.d_model as int / config.num_heads as int)
                <= usize::MAX,
        ensures
            positions.pairs == (config.d_model as int / config.num_heads as int) / 2,
            positions.turns@.len() == (text_len + height * width) * positions.pairs,
            forall|token: int, pair: int|
                0 <= token < text_len + height * width && 0 <= pair < positions.pairs
                    ==> positions.turns@[#[trigger] entry(positions.pairs as int, token, pair)]
                    == turn_of(
                    config.axes_dim@,
                    text_len as int,
                    width as int,
                    token,
                    pair,
                ),
    {
        let head_dim: usize = config.head_dim();
        let pairs: usize = head_dim / 2;
        assert(0 <= height * width) by (nonlinear_arith);
        let patches: usize = height * width;
        let tokens: usize = text_len + patches;
        let axes: usize = config.axes_dim.len();
        let ghost dims = config.axes_dim@;
        proof {
            lemma_pairs(dims, axes as int);
        }
        let mut turns: Vec<Turn> = Vec::new();
        let mut token: usize = 0;
        assert(0 * pairs == 0);
        while token < tokens
            invariant
                token <= tokens == text_len + patches,
                patches == height * width,
                pairs == pair_list(dims, axes as int).len(),
                axes == dims.len() == config.axes_dim@.len(),
                dims == config.axes_dim@,
                turns@.len() == token * pairs,
                forall|t: int, p: int|
                    0 <= t < token && 0 <= p < pairs ==> turns@[#[trigger] entry(
                        pairs as int,
                        t,
                        p,
                    )] == turn_of(dims, text_len as int, width as int, t, p),
            decreases tokens - token,
        {
            let (row, column): (usize, usize) = if token < text_len {
                (0, 0)
            } else {
                assert(width > 0) by (nonlinear_arith)
                    requires
                        0 <= token - text_len < height * width,
                ;
                ((token - text_len) / width, (token - text_len) % width)
            };
            let mut axis: usize = 0;
            assert(pair_list(dims, 0).len() == 0);
            while axis < axes
                invariant
                    axis <= axes == dims.len() == config.axes_dim@.len(),
                    dims == config.axes_dim@,
                    pairs == pair_list(dims, axes as int).len(),
                    (row as int, column as int) == place(
                        text_len as int,
                        width as int,
                        token as int,
                    ),
                    turns@.len() == token * pairs + pair_list(dims, axis as int).len(),
                    forall|t: int, p: int|
                        (0 <= t < token && 0 <= p < pairs) || (t == token && 0 <= p < pair_list(
                            dims,
                            axis as int,
                        ).len()) ==> turns@[#[trigger] entry(pairs as int, t, p)] == turn_of(
                            dims,
                            text_len as int,
                            width as int,
                            t,
                            p,
                        ),
                decreases axes - axis,
            {
                let dim: usize = config.axes_dim[axis];
                let at: usize = if axes - axis == 2 {
                    row
                } else if axes - axis == 1 {
                    column
                } else {
                    0
                };
                let ghost done = pair_list(dims, axis as int).len() as int;
                let mut index: usize = 0;
                while index < dim / 2
                    invariant
                        axis < axes == dims.len(),
                        dim == dims[axis as int],
                        index <= dim / 2,
                        done == pair_list(dims, axis as int).len(),
                        pairs == pair_list(dims, axes as int).len(),
                        at == position(
                            axes as int,
                            axis as int,
                            place(text_len as int, width as int, token as int),
                        ),
                        turns@.len() == token * pairs + done + index,
                        forall|t: int, p: int|
                            (0 <= t < token && 0 <= p < pairs) || (t == token && 0 <= p < done
                                + index) ==> turns@[#[trigger] entry(pairs as int, t, p)]
                                == turn_of(dims, text_len as int, width as int, t, p),
                    decreases dim / 2 - index,
                {
                    let turn = Turn { position: at, index, dim };
                    let ghost before = turns@;
                    turns.push(turn);
                    proof {
                        lemma_pair_of(dims, axes as int, axis as int, index as int);
                        assert forall|t: int, p: int|
                            (0 <= t < token && 0 <= p < pairs) || (t == token && 0 <= p < done
                                + index + 1) implies turns@[#[trigger] entry(pairs as int, t, p)]
                            == turn_of(dims, text_len as int, width as int, t, p) by {
                            if t < token {
                                lemma_entry(token as int, pairs as int, t, p);
                                assert(turns@[entry(pairs as int, t, p)] == before[entry(
                                    pairs as int,
                                    t,
                                    p,
                                )]);
                            } else if p < done + index {
                                assert(turns@[entry(pairs as int, t, p)] == before[entry(
                                    pairs as int,
                                    t,
                                    p,
                                )]);
                            } else {
                                assert(turns@[entry(pairs as int, t, p)] == turn);
                            }
                        }
                    }
                    index = index + 1;
                }
                axis = axis + 1;
            }
            assert((token + 1) * pairs == token * pairs + pairs) by (nonlinear_arith);
            token = token + 1;
        }
        Positions { pairs, turns }
    }
}

/// Text is left alone, and so is the first patch: their positions are zero.
pub proof fn law_origin_is_not_turned(
    axes: Seq<usize>,
    text_len: int,
    width: int,
    token: int,
    pair: int,
)
    requires
        0 <= token <= text_len,
        token == text_len ==> width > 0,
    ensures
        turn_of(axes, text_len, width, token, pair).position == 0,
{
    if token == text_len {
        assert(0int / width == 0 && 0int % width == 0) by (nonlinear_arith)
            requires
                width > 0,
        ;
    }
}

/// Different patches are turned differently: the pairs of the last two axes
/// give a patch its row and its column.
pub proof fn law_patches_are_told_apart(
    axes: Seq<usize>,
    text_len: int,
    height: int,
    width: int,
    a: int,
    b: int,
)
    requires
        0 <= text_len <= a < b < text_len + height * width,
        text_len + height * width <= usize::MAX,
        axes.len() >= 2,
        axes[axes.len() - 2] >= 2,
        axes[axes.len() - 1] >= 2,
        width > 0,
    ensures
        ({
            let n = axes.len() as int;
            let row_pair = pair_list(axes, n - 2).len() as int;
            let column_pair = pair_list(axes, n - 1).len() as int;
            turn_of(axes, text_len, width, a, row_pair) != turn_of(
                axes,
                text_len,
                width,
                b,
                row_pair,
            ) || turn_of(axes, text_len, width, a, column_pair) != turn_of(
                axes,
                text_len,
                width,
                b,
                column_pair,
            )
        }),
{
    let n = axes.len() as int;
    lemma_pair_of(axes, n, n - 2, 0);
    lemma_pair_of(axes, n, n - 1, 0);
    let (p, q) = (a - text_len, b - text_len);
    vstd::arithmetic::div_mod::lemma_fundamental_div_mod(p, width);
    vstd::arithmetic::div_mod::lemma_fundamental_div_mod(q, width);
    if p / width == q / width && p % width == q % width {
        assert(p == q);
    }
    assert(0 <= p / width <= p && 0 <= q / width <= q && 0 <= p % width <= p && 0 <= q % width
        <= q) by (nonlinear_arith)
        requires
            0 <= p,
            0 <= q,
            width > 0,
    ;
}

impl Positions {
    /// Turns every head of a matrix of `num_heads` heads, in place. `turn`
    /// turns two numbers as one of the turns says.
    pub fn apply<T: Copy, F: Fn(Turn, T, T) -> (T, T)>(
        &self,
        values: &mut Matrix<T>,
        num_heads: usize,
        turn: &F,
    )
        requires
            old(values).wf(),
            old(values).cols == num_heads * (self.pairs * 2),
            self.turns@.len() == old(values).rows * self.pairs,
            forall|t: Turn, a: T, b: T| #[trigger] call_requires(*turn, (t, a, b)),
        ensures
            final(values).wf(),
            final(values).rows == old(values).rows,
            final(values).cols == old(values).cols,
            forall|token: int, head: int, pair: int|
                0 <= token < old(values).rows && 0 <= head < num_heads && 0 <= pair < self.pairs
                    ==> #[trigger] is_turned(*self, *old(values), *final(values), *turn, token, head, pair),
    {
        let ghost start = *values;
        let width: usize = values.cols;
        let slots: usize = self.turns.len();
        let mut token: usize = 0;
        while token < values.rows
            invariant
                token <= values.rows == start.rows,
                values.wf(),
                start.wf(),
                values.cols == start.cols == width,
                width == num_heads * (self.pairs * 2),
                self.turns@.len() == start.rows * self.pairs == slots,
                forall|t: Turn, a: T, b: T| #[trigger] call_requires(*turn, (t, a, b)),
                forall|t: int, h: int, p: int|
                    0 <= t < token && 0 <= h < num_heads && 0 <= p < self.pairs
                        ==> #[trigger] is_turned(*self, start, *values, *turn, t, h, p),
                forall|i: int|
                    token * width <= i < start.data@.len() ==> #[trigger] values.data@[i]
                        == start.data@[i],
            decreases values.rows - token,
        {
            let mut head: usize = 0;
            while head < num_heads
                invariant
                    head <= num_heads,
                    token < values.rows == start.rows,
                    values.wf(),
                    start.wf(),
                    values.cols == start.cols == width,
                    width == num_heads * (self.pairs * 2),
                    self.turns@.len() == start.rows * self.pairs == slots,
                    forall|t: Turn, a: T, b: T| #[trigger] call_requires(*turn, (t, a, b)),
                    forall|t: int, h: int, p: int|
                        0 <= t && 0 <= h < num_heads && 0 <= p < self.pairs && (t < token || (t
                            == token && h < head)) ==> #[trigger] is_turned(
                            *self,
                            start,
                            *values,
                            *turn,
                            t,
                            h,
                            p,
                        ),
                    forall|i: int|
                        token * width + head * (self.pairs * 2) <= i < start.data@.len()
                            ==> #[trigger] values.data@[i] == start.data@[i],
                decreases num_heads - head,
            {
                let mut pair: usize = 0;
                while pair < self.pairs
                    invariant
                        pair <= self.pairs,
                        head < num_heads,
                        token < values.rows == start.rows,
                        values.wf(),
                        start.wf(),
                        values.cols == start.cols == width,
                        width == num_heads * (self.pairs * 2),
                        self.turns@.len() == start.rows * self.pairs == slots,
                        forall|t: Turn, a: T, b: T| #[trigger] call_requires(*turn, (t, a, b)),
                        forall|t: int, h: int, p: int|
                            0 <= t && 0 <= h < num_heads && 0 <= p < self.pairs && (t < token || (t
                                == token && (h < head || (h == head && p < pair))))
                                ==> #[trigger] is_turned(*self, start, *values, *turn, t, h, p),
                        forall|i: int|
                            token * width + head * (self.pairs * 2) + pair * 2 <= i
                                < start.data@.len() ==> #[trigger] values.data@[i]
                                == start.data@[i],
                    decreases self.pairs - pair,
                {
                    proof {
                        lemma_column(num_heads as int, self.pairs as int, head as int, pair as int);
                        lemma_entry(
                            start.rows as int,
                            width as int,
                            token as int,
                            pair_column(self.pairs as int, head as int, pair as int) + 1,
                        );
                        lemma_entry(start.rows as int, self.pairs as int, token as int, pair as int);
                    }
                    let first: usize = head * (self.pairs * 2) + pair * 2;
                    let turned = turn(
                        self.turns[token * self.pairs + pair],
                        values.get(token, first),
                        values.get(token, first + 1),
                    );
                    let ghost before = *values;
                    values.set(token, first, turned.0);
                    values.set(token, first + 1, turned.1);
                    proof {
                        assert forall|t: int, h: int, p: int|
                            0 <= t && 0 <= h < num_heads && 0 <= p < self.pairs && (t < token || (t
                                == token && (h < head || (h == head && p < pair
                                + 1)))) implies #[trigger] is_turned(
                            *self,
                            start,
                            *values,
                            *turn,
                            t,
                            h,
                            p,
                        ) by {
                            lemma_column(num_heads as int, self.pairs as int, h, p);
                            let c = pair_column(self.pairs as int, h, p);
                            lemma_entry(start.rows as int, width as int, t, c + 1);
                            if t != token || h != head || p != pair {
                                assert(is_turned(*self, start, before, *turn, t, h, p));
                                lemma_other_pair(
                                    width as int,
                                    num_heads as int,
                                    self.pairs as int,
                                    (t, h, p),
                                    (token as int, head as int, pair as int),
                                );
                            }
                        }
                    }
                    pair = pair + 1;
                }
                assert((head + 1) * (self.pairs * 2) == head * (self.pairs * 2) + self.pairs * 2)
                    by (nonlinear_arith);
                head = head + 1;
            }
            assert((token + 1) * width == token * width + width) by (nonlinear_arith);
            token = token + 1;
        }
    }
}

/// The first column of a pair of a head.
pub open spec fn pair_column(pairs: int, head: int, pair: int) -> int {
    head * (pairs * 2) + pair * 2
}

/// Whether a pair of a token's head was turned as its turn says.
pub open spec fn is_turned<T, F: Fn(Turn, T, T) -> (T, T)>(
    positions: Positions,
    before: Matrix<T>,
    after: Matrix<T>,
    turn: F,
    token: int,
    head: int,
    pair: int,
) -> bool {
    let c = pair_column(positions.pairs as int, head, pair);
    call_ensures(
        turn,
        (
            positions.turns@[entry(positions.pairs as int, token, pair)],
            before.at(token, c),
            before.at(token, c + 1),
        ),
        (after.at(token, c), after.at(token, c + 1)),
    )
}

proof fn lemma_column(heads: int, pairs: int, head: int, pair: int)
    requires
        0 <= head < heads,
        0 <= pair < pairs,
    ensures
        0 <= head * (pairs * 2),
        pairs * 2 <= heads * (pairs * 2),
        0 <= pair_column(pairs, head, pair),
        pair_column(pairs, head, pair) + 1 < heads * (pairs * 2),
{
    let d = pairs * 2;
    assert(0 <= head * d && head * d + d <= heads * d) by (nonlinear_arith)
        requires
            0 <= head < heads,
            0 <= d,
    ;
}

/// Different pairs stand at different places.
proof fn lemma_other_pair(
    width: int,
    heads: int,
    pairs: int,
    a: (int, int, int),
    b: (int, int, int),
)
    requires
        a != b,
        width == heads * (pairs * 2),
        0 <= a.1 < heads,
        0 <= a.2 < pairs,
        0 <= b.1 < heads,
        0 <= b.2 < pairs,
    ensures
        ({
            let x = entry(width, a.0, pair_column(pairs, a.1, a.2));
            let y = entry(width, b.0, pair_column(pairs, b.1, b.2));
            x != y && x + 1 != y && x != y + 1
        }),
{
    lemma_column(heads, pairs, a.1, a.2);
    lemma_column(heads, pairs, b.1, b.2);
    let (ca, cb) = (pair_column(pairs, a.1, a.2), pair_column(pairs, b.1, b.2));
    let x = entry(width, a.0, ca);
    let y = entry(width, b.0, cb);
    let d = pairs * 2;
    if x == y {
        lemma_entry_injective(width, a.0, ca, b.0, cb);
        lemma_entry_injective(d, a.1, a.2 * 2, b.1, b.2 * 2);
    }
    if x + 1 == y {
        lemma_entry_injective(width, a.0, ca + 1, b.0, cb);
        lemma_entry_injective(d, a.1, a.2 * 2 + 1, b.1, b.2 * 2);
    }
    if x == y + 1 {
        lemma_entry_injective(width, a.0, ca, b.0, cb + 1);
        lemma_entry_injective(d, a.1, a.2 * 2, b.1, b.2 * 2 + 1);
    }
}

} // verus!
