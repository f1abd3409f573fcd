//! Mixing what the experts of a layer computed, and taking the gradient apart
//! again.
//!
//! What is multiplied and added is the caller's: `scale` weighs a number by a
//! gate, `sum` adds a number to another, and `dot` multiplies two rows.
use crate::matrix::{entry, lemma_entry, Matrix};
use crate::moe::{slots_of_expert, Routing, UNROUTED};
use crate::moe_law::{law_expert_sees_its_slots, lemma_slot};
use vstd::prelude::*;

verus! {

/// Whether each row of one matrix is that row of another, weighed by its
/// slot's gate.
pub open spec fn is_weighed<T, F: Fn(T, T) -> T>(
    rows: Matrix<T>,
    slots: Seq<usize>,
    gates: Seq<T>,
    scale: F,
    weighed: Matrix<T>,
) -> bool {
    &&& weighed.wf()
    &&& weighed.rows == rows.rows
    &&& weighed.cols == rows.cols
    &&& forall|r: int, c: int|
        0 <= r < rows.rows && 0 <= c < rows.cols ==> call_ensures(
            scale,
            (gates[slots[r] as int], rows.at(r, c)),
            #[trigger] weighed.at(r, c),
        )
}

/// Whether one row was added to row `row` of a matrix.
pub open spec fn is_row_added<T, F: Fn(T, T) -> T>(
    before: Seq<T>,
    after: Seq<T>,
    cols: int,
    row: int,
    added: Seq<T>,
    sum: F,
) -> bool {
    &&& after.len() == before.len()
    &&& forall|c: int|
        0 <= c < cols ==> call_ensures(
            sum,
            (before[entry(cols, row, c)], added[c]),
            #[trigger] after[entry(cols, row, c)],
        )
    &&& forall|i: int|
        0 <= i < before.len() && !(row * cols <= i < row * cols + cols) ==> #[trigger] after[i]
            == before[i]
}

/// Whether the first `k` rows of `source` were added, one after another, to the
/// rows that `targets` names.
pub open spec fn is_scattered<T, F: Fn(T, T) -> T>(
    before: Seq<T>,
    after: Seq<T>,
    targets: Seq<usize>,
    source: Matrix<T>,
    sum: F,
    k: int,
) -> bool
    decreases k,
{
    if k <= 0 {
        after == before
    } else {
        exists|middle: Seq<T>|
            is_scattered(before, middle, targets, source, sum, k - 1) && #[trigger] is_row_added(
                middle,
                after,
                source.cols as int,
                targets[k - 1] as int,
                source.line(k - 1),
                sum,
            )
    }
}

/// Whether what an expert made, if anything, was added to the rows of its
/// tokens.
pub open spec fn is_part_added<T, F: Fn(T, T) -> T>(
    before: Seq<T>,
    after: Seq<T>,
    tokens: Seq<usize>,
    part: Option<Matrix<T>>,
    sum: F,
) -> bool {
    match part {
        Some(part) => is_scattered(before, after, tokens, part, sum, part.rows as int),
        None => after == before,
    }
}

/// Whether what the first `k` experts made was added, expert by expert, to the
/// rows of their tokens.
pub open spec fn is_gathered<T, F: Fn(T, T) -> T>(
    before: Seq<T>,
    after: Seq<T>,
    tokens: Seq<Vec<usize>>,
    parts: Seq<Option<Matrix<T>>>,
    sum: F,
    k: int,
) -> bool
    decreases k,
{
    if k <= 0 {
        after == before
    } else {
        exists|middle: Seq<T>|
            is_gathered(before, middle, tokens, parts, sum, k - 1) && #[trigger] is_part_added(
                middle,
                after,
                tokens[k - 1]@,
                parts[k - 1],
                sum,
            )
    }
}

/// Whether every entry of one list was added to that of another.
pub open spec fn is_added<T, F: Fn(T, T) -> T>(
    before: Seq<T>,
    added: Seq<T>,
    after: Seq<T>,
    sum: F,
) -> bool {
    &&& after.len() == before.len()
    &&& forall|i: int|
        0 <= i < before.len() ==> call_ensures(sum, (before[i], added[i]), #[trigger] after[i])
}

/// Adds every entry of a matrix to that of another of the same shape.
pub fn accumulate<T: Copy, F: Fn(T, T) -> T>(target: &mut Matrix<T>, added: &Matrix<T>, sum: &F)
    requires
        old(target).wf(),
        added.data@.len() == old(target).data@.len(),
        forall|a: T, b: T| #[trigger] call_requires(*sum, (a, b)),
    ensures
        final(target).wf(),
        final(target).rows == old(target).rows,
        final(target).cols == old(target).cols,
        is_added(old(target).data@, added.data@, final(target).data@, *sum),
{
    let mut i: usize = 0;
    let ghost start = target.data@;
    while i < added.data.len()
        invariant
            i <= added.data@.len() == start.len(),
            target.data@.len() == start.len(),
            target.rows == old(target).rows,
            target.cols == old(target).cols,
            forall|a: T, b: T| #[trigger] call_requires(*sum, (a, b)),
            forall|k: int|
                0 <= k < i ==> call_ensures(
                    *sum,
                    (start[k], added.data@[k]),
                    #[trigger] target.data@[k],
                ),
            forall|k: int| i <= k < start.len() ==> #[trigger] target.data@[k] == start[k],
        decreases added.data.len() - i,
    {
        let value = sum(target.data[i], added.data[i]);
        target.data.set(i, value);
        i = i + 1;
    }
}

/// Adds the rows of `source` to the rows of `target` that `targets` names.
pub fn scatter<T: Copy, F: Fn(T, T) -> T>(
    target: &mut Matrix<T>,
    targets: &Vec<usize>,
    source: &Matrix<T>,
    sum: &F,
)
    requires
        old(target).wf(),
        source.wf(),
        source.cols == old(target).cols,
        source.rows == targets@.len(),
        forall|r: int| 0 <= r < targets@.len() ==> (#[trigger] targets@[r]) < old(target).rows,
        forall|a: T, b: T| #[trigger] call_requires(*sum, (a, b)),
    ensures
        final(target).wf(),
        final(target).rows == old(target).rows,
        final(target).cols == old(target).cols,
        is_scattered(
            old(target).data@,
            final(target).data@,
            targets@,
            *source,
            *sum,
            source.rows as int,
        ),
{
    let ghost start = target.data@;
    let ghost cols = source.cols as int;
    let mut r: usize = 0;
    while r < source.rows
        invariant
            r <= source.rows,
            target.wf(),
            source.wf(),
            cols == source.cols,
            source.cols == target.cols,
            source.rows == targets@.len(),
            target.rows == old(target).rows,
            target.cols == old(target).cols,
            forall|r: int| 0 <= r < targets@.len() ==> (#[trigger] targets@[r]) < target.rows,
            forall|a: T, b: T| #[trigger] call_requires(*sum, (a, b)),
            is_scattered(start, target.data@, targets@, *source, *sum, r as int),
        decreases source.rows - r,
    {
        let ghost middle = target.data@;
        let row: usize = targets[r];
        let added = source.row(r);
        let mut c: usize = 0;
        while c < source.cols
            invariant
                c <= source.cols,
                r < source.rows,
                row == targets@[r as int],
                row < target.rows,
                added@ == source.line(r as int),
                added@.len() == source.cols,
                target.wf(),
                cols == source.cols,
                source.cols == target.cols,
                target.rows == old(target).rows,
                target.cols == old(target).cols,
                middle.len() == target.data@.len(),
                forall|a: T, b: T| #[trigger] call_requires(*sum, (a, b)),
                forall|k: int|
                    0 <= k < c ==> call_ensures(
                        *sum,
                        (middle[entry(cols, row as int, k)], added@[k]),
                        #[trigger] target.data@[entry(cols, row as int, k)],
                    ),
                forall|i: int|
                    0 <= i < middle.len() && !(row * cols <= i < row * cols + c)
                        ==> #[trigger] target.data@[i] == middle[i],
            decreases source.cols - c,
        {
            proof {
                lemma_entry(target.rows as int, cols, row as int, c as int);
            }
            let value = sum(target.get(row, c), added[c]);
            target.set(row, c, value);
            c = c + 1;
        }
        r = r + 1;
        assert(is_row_added(
            middle,
            target.data@,
            source.cols as int,
            targets@[r - 1] as int,
            source.line(r - 1),
            *sum,
        ));
    }
}

/// Whether what each expert made fits the tokens it sees: a row for each, and
/// nothing from an expert that saw none.
pub open spec fn fits<T>(routing: Routing, parts: Seq<Option<Matrix<T>>>, cols: int) -> bool {
    &&& parts.len() == routing.expert_tokens@.len()
    &&& forall|e: int|
        0 <= e < parts.len() ==> match #[trigger] parts[e] {
            Some(part) => part.wf() && part.cols == cols && part.rows
                == routing.expert_tokens@[e]@.len(),
            None => routing.expert_tokens@[e]@.len() == 0,
        }
}

/// The tokens of a routing are tokens there are, and its slots slots.
pub(crate) proof fn lemma_tokens_in_range(routing: Routing, e: int)
    requires
        routing.wf(),
        0 <= e < routing.expert_slots@.len(),
    ensures
        routing.expert_tokens@[e]@.len() == routing.expert_slots@[e]@.len(),
        forall|r: int|
            0 <= r < routing.expert_slots@[e]@.len() ==> (#[trigger] routing.expert_slots@[e]@[r])
                < routing.assignments@.len(),
        forall|r: int|
            0 <= r < routing.expert_tokens@[e]@.len() ==> (#[trigger] routing.expert_tokens@[e]@[r])
                < routing.tokens,
{
    let n = routing.assignments@.len() as int;
    assert(routing.assignments.len() == n);
    law_expert_sees_its_slots(routing.assignments@, e, n);
    let slots = routing.expert_slots@[e]@;
    assert(slots == slots_of_expert(routing.assignments@, e, n));
    assert forall|r: int| 0 <= r < routing.expert_tokens@[e]@.len() implies (
    #[trigger] routing.expert_tokens@[e]@[r]) < routing.tokens by {
        assert(slots[r] < n);
        lemma_slot(slots[r] as int, routing.top_k as int, routing.tokens as int);
    }
}

impl Routing {
    /// The rows an expert made, each weighed by its slot's gate.
    pub fn weighed<T: Copy, F: Fn(T, T) -> T>(
        &self,
        expert: usize,
        rows: &Matrix<T>,
        gates: &Vec<T>,
        scale: &F,
    ) -> (weighed: Matrix<T>)
        requires
            self.wf(),
            expert < self.expert_slots@.len(),
            rows.wf(),
            rows.rows == self.expert_slots@[expert as int]@.len(),
            gates@.len() == self.assignments@.len(),
            forall|a: T, b: T| #[trigger] call_requires(*scale, (a, b)),
        ensures
            is_weighed(*rows, self.expert_slots@[expert as int]@, gates@, *scale, weighed),
    {
        proof {
            lemma_tokens_in_range(*self, expert as int);
        }
        let ghost slots = self.expert_slots@[expert as int]@;
        let total: usize = rows.data.len();
        let cols: usize = rows.cols;
        let mut data: Vec<T> = Vec::new();
        let mut r: usize = 0;
        assert(0 * cols == 0);
        while r < rows.rows
            invariant
                r <= rows.rows,
                cols == rows.cols,
                rows.wf(),
                rows.rows == slots.len(),
                expert < self.expert_slots@.len(),
                slots == self.expert_slots@[expert as int]@,
                gates@.len() == self.assignments@.len(),
                forall|r: int| 0 <= r < slots.len() ==> (#[trigger] slots[r]) < gates@.len(),
                forall|a: T, b: T| #[trigger] call_requires(*scale, (a, b)),
                data@.len() == r * cols,
                forall|k: int, c: int|
                    0 <= k < r && 0 <= c < cols ==> call_ensures(
                        *scale,
                        (gates@[slots[k] as int], rows.at(k, c)),
                        #[trigger] data@[entry(cols as int, k, c)],
                    ),
            decreases rows.rows - r,
        {
            let gate = gates[self.expert_slots[expert][r]];
            let mut c: usize = 0;
            while c < cols
                invariant
                    r < rows.rows,
                    c <= cols == rows.cols,
                    rows.wf(),
                    rows.rows == slots.len(),
                    gate == gates@[slots[r as int] as int],
                    forall|a: T, b: T| #[trigger] call_requires(*scale, (a, b)),
                    data@.len() == r * cols + c,
                    forall|k: int, d: int|
                        (0 <= k < r && 0 <= d < cols) || (k == r && 0 <= d < c) ==> call_ensures(
                            *scale,
                            (gates@[slots[k] as int], rows.at(k, d)),
                            #[trigger] data@[entry(cols as int, k, d)],
                        ),
                decreases cols - c,
            {
                let value = scale(gate, rows.get(r, c));
                let ghost before = data@;
                data.push(value);
                proof {
                    assert forall|k: int, d: int|
                        (0 <= k < r && 0 <= d < cols) || (k == r && 0 <= d < c + 1) implies call_ensures(
                        *scale,
                        (gates@[slots[k] as int], rows.at(k, d)),
                        #[trigger] data@[entry(cols as int, k, d)],
                    ) by {
                        if k < r {
                            lemma_entry(r as int, cols as int, k, d);
                            assert(data@[entry(cols as int, k, d)] == before[entry(
                                cols as int,
                                k,
                                d,
                            )]);
                        } else if d < c {
                            assert(data@[entry(cols as int, k, d)] == before[entry(
                                cols as int,
                                k,
                                d,
                            )]);
                        } else {
                            assert(data@[entry(cols as int, k, d)] == value);
                        }
                    }
                }
                c = c + 1;
            }
            assert((r + 1) * cols == r * cols + cols) by (nonlinear_arith);
            r = r + 1;
        }
        let weighed = Matrix { rows: rows.rows, cols, data };
        assert forall|r: int, c: int|
            0 <= r < rows.rows && 0 <= c < rows.cols implies call_ensures(
            *scale,
            (gates@[slots[r] as int], rows.at(r, c)),
            #[trigger] weighed.at(r, c),
        ) by {
            assert(weighed.at(r, c) == data@[entry(cols as int, r, c)]);
        }
        weighed
    }

    /// Adds what the experts made to the rows of their tokens, expert by
    /// expert. An expert that saw no token adds nothing.
    pub fn gathered<T: Copy, F: Fn(T, T) -> T>(
        &self,
        target: &mut Matrix<T>,
        parts: &Vec<Option<Matrix<T>>>,
        sum: &F,
    )
        requires
            self.wf(),
            old(target).wf(),
            old(target).rows == self.tokens,
            fits(*self, parts@, old(target).cols as int),
            forall|a: T, b: T| #[trigger] call_requires(*sum, (a, b)),
        ensures
            final(target).wf(),
            final(target).rows == old(target).rows,
            final(target).cols == old(target).cols,
            is_gathered(
                old(target).data@,
                final(target).data@,
                self.expert_tokens@,
                parts@,
                *sum,
                parts@.len() as int,
            ),
    {
        let ghost start = target.data@;
        let mut e: usize = 0;
        while e < parts.len()
            invariant
                e <= parts@.len(),
                self.wf(),
                target.wf(),
                target.rows == old(target).rows == self.tokens,
                target.cols == old(target).cols,
                fits(*self, parts@, target.cols as int),
                forall|a: T, b: T| #[trigger] call_requires(*sum, (a, b)),
                is_gathered(start, target.data@, self.expert_tokens@, parts@, *sum, e as int),
            decreases parts.len() - e,
        {
            let ghost middle = target.data@;
            proof {
                lemma_tokens_in_range(*self, e as int);
                assert(parts@[e as int] is Some || parts@[e as int] is None);
            }
            if let Some(part) = &parts[e] {
                scatter(target, &self.expert_tokens[e], part, sum);
            }
            e = e + 1;
            assert(is_part_added(
                middle,
                target.data@,
                self.expert_tokens@[e - 1]@,
                parts@[e - 1],
                *sum,
            ));
        }
    }

    /// The rows of the upstream gradient that reach an expert, each weighed by
    /// its slot's gate; nothing for an expert that saw no token, so that
    /// no gradient reaches its weights.
    pub fn upstream<T: Copy, F: Fn(T, T) -> T>(
        &self,
        expert: usize,
        gates: &Vec<T>,
        grad_output: &Matrix<T>,
        scale: &F,
    ) -> (rows: Option<Matrix<T>>)
        requires
            self.wf(),
            expert < self.expert_slots@.len(),
            grad_output.wf(),
            grad_output.rows == self.tokens,
            self.assignments@.len() * grad_output.cols <= usize::MAX,
            gates@.len() == self.assignments@.len(),
            forall|a: T, b: T| #[trigger] call_requires(*scale, (a, b)),
        ensures
            match rows {
                Some(rows) => {
                    &&& self.expert_tokens@[expert as int]@.len() > 0
                    &&& rows.wf()
                    &&& rows.rows == self.expert_tokens@[expert as int]@.len()
                    &&& rows.cols == grad_output.cols
                    &&& forall|r: int, c: int|
                        0 <= r < rows.rows && 0 <= c < rows.cols ==> call_ensures(
                            *scale,
                            (
                                gates@[self.expert_slots@[expert as int]@[r] as int],
                                grad_output.at(
                                    self.expert_tokens@[expert as int]@[r] as int,
                                    c,
                                ),
                            ),
                            #[trigger] rows.at(r, c),
                        )
                },
                None => self.expert_tokens@[expert as int]@.len() == 0,
            },
    {
        proof {
            lemma_tokens_in_range(*self, expert as int);
            lemma_expert_fits(*self, expert as int, grad_output.cols as int);
        }
        if self.expert_tokens[expert].len() == 0 {
            return None;
        }
        let rows = grad_output.gather_rows(&self.expert_tokens[expert]);
        let weighed = self.weighed(expert, &rows, gates, scale);
        proof {
            assert forall|r: int, c: int|
                0 <= r < weighed.rows && 0 <= c < weighed.cols implies call_ensures(
                *scale,
                (
                    gates@[self.expert_slots@[expert as int]@[r] as int],
                    grad_output.at(self.expert_tokens@[expert as int]@[r] as int, c),
                ),
                #[trigger] weighed.at(r, c),
            ) by {
                assert(rows.at(r, c) == grad_output.at(
                    self.expert_tokens@[expert as int]@[r] as int,
                    c,
                ));
            }
        }
        Some(weighed)
    }

    /// The output of the layer: what the experts made, weighed by their gates
    /// and added to the rows of their tokens, and what the shared expert made
    /// added to every row.
    pub fn combine<T: Copy, F: Fn(T, T) -> T, G: Fn(T, T) -> T>(
        &self,
        parts: &Vec<Option<Matrix<T>>>,
        gates: &Vec<T>,
        shared: &Option<Matrix<T>>,
        cols: usize,
        zero: T,
        scale: &F,
        sum: &G,
    ) -> (output: Matrix<T>)
        requires
            self.wf(),
            self.tokens * cols <= usize::MAX,
            fits(*self, parts@, cols as int),
            gates@.len() == self.assignments@.len(),
            match *shared {
                Some(rows) => rows.wf() && rows.rows == self.tokens && rows.cols == cols,
                None => true,
            },
            forall|a: T, b: T| #[trigger] call_requires(*scale, (a, b)),
            forall|a: T, b: T| #[trigger] call_requires(*sum, (a, b)),
        ensures
            output.wf(),
            output.rows == self.tokens,
            output.cols == cols,
            is_mixture(*self, parts@, gates@, *shared, zero, output, *scale, *sum),
    {
        let mut weighed: Vec<Option<Matrix<T>>> = Vec::new();
        let mut e: usize = 0;
        while e < parts.len()
            invariant
                e <= parts@.len(),
                self.wf(),
                fits(*self, parts@, cols as int),
                gates@.len() == self.assignments@.len(),
                forall|a: T, b: T| #[trigger] call_requires(*scale, (a, b)),
                weighed@.len() == e,
                forall|k: int|
                    0 <= k < e ==> is_part_weighed(
                        *self,
                        k,
                        parts@[k],
                        gates@,
                        #[trigger] weighed@[k],
                        *scale,
                    ),
            decreases parts.len() - e,
        {
            proof {
                lemma_tokens_in_range(*self, e as int);
                assert(parts@[e as int] is Some || parts@[e as int] is None);
            }
            weighed.push(
                match &parts[e] {
                    Some(rows) => Some(self.weighed(e, rows, gates, scale)),
                    None => None,
                },
            );
            e = e + 1;
        }
        proof {
            assert forall|k: int| 0 <= k < weighed@.len() implies match #[trigger] weighed@[k] {
                Some(part) => part.wf() && part.cols == cols && part.rows
                    == self.expert_tokens@[k]@.len(),
                None => self.expert_tokens@[k]@.len() == 0,
            } by {
                assert(is_part_weighed(*self, k, parts@[k], gates@, weighed@[k], *scale));
            }
        }
        let mut output = Matrix::new(self.tokens, cols, zero);
        let ghost start = blank(output.rows * output.cols, zero);
        assert(output.data@ =~= start);
        self.gathered(&mut output, &weighed, sum);
        let ghost routed = output.data@;
        if let Some(rows) = shared {
            accumulate(&mut output, rows, sum);
        }
        assert(is_gathered(
            start,
            routed,
            self.expert_tokens@,
            weighed@,
            *sum,
            weighed@.len() as int,
        ));
        output
    }

    /// The gradient of every gate: `dot` multiplies the upstream gradient of a
    /// token with the row that an expert made for it. A slot that carries no
    /// token keeps zero.
    pub fn gate_gradients<T: Copy, F: Fn(usize, usize, usize) -> T>(&self, zero: T, dot: &F) -> (
    grads: Vec<T>)
        requires
            self.wf(),
            self.expert_slots@.len() < UNROUTED,
            forall|t: usize, e: usize, r: usize|
                t < self.tokens && e < self.expert_tokens@.len() && r
                    < self.expert_tokens@[e as int]@.len() ==> #[trigger] call_requires(
                    *dot,
                    (t, e, r),
                ),
        ensures
            grads@.len() == self.assignments@.len(),
            forall|s: int|
                0 <= s < grads@.len() && self.assignments@[s] == UNROUTED ==> #[trigger] grads@[s]
                    == zero,
            forall|e: int, r: int|
                #![trigger self.expert_slots@[e]@[r]]
                0 <= e < self.expert_slots@.len() && 0 <= r < self.expert_slots@[e]@.len()
                    ==> call_ensures(
                    *dot,
                    (self.expert_tokens@[e]@[r], e as usize, r as usize),
                    grads@[self.expert_slots@[e]@[r] as int],
                ),
    {
        let mut grads: Vec<T> = Vec::new();
        let slots: usize = self.assignments.len();
        let mut i: usize = 0;
        while i < slots
            invariant
                i <= slots,
                grads@.len() == i,
                forall|s: int| 0 <= s < i ==> #[trigger] grads@[s] == zero,
            decreases slots - i,
        {
            grads.push(zero);
            i = i + 1;
        }
        let mut e: usize = 0;
        while e < self.expert_tokens.len()
            invariant
                e <= self.expert_tokens@.len() == self.expert_slots@.len(),
                self.wf(),
                self.expert_slots@.len() < UNROUTED,
                grads@.len() == self.assignments@.len(),
                forall|t: usize, e: usize, r: usize|
                    t < self.tokens && e < self.expert_tokens@.len() && r
                        < self.expert_tokens@[e as int]@.len() ==> #[trigger] call_requires(
                        *dot,
                        (t, e, r),
                    ),
                forall|s: int|
                    0 <= s < grads@.len() && self.assignments@[s] == UNROUTED
                        ==> #[trigger] grads@[s] == zero,
                forall|d: int, r: int|
                    #![trigger self.expert_slots@[d]@[r]]
                    0 <= d < e && 0 <= r < self.expert_slots@[d]@.len() ==> call_ensures(
                        *dot,
                        (self.expert_tokens@[d]@[r], d as usize, r as usize),
                        grads@[self.expert_slots@[d]@[r] as int],
                    ),
            decreases self.expert_tokens.len() - e,
        {
            proof {
                lemma_tokens_in_range(*self, e as int);
            }
            let mut r: usize = 0;
            while r < self.expert_tokens[e].len()
                invariant
                    e < self.expert_tokens@.len() == self.expert_slots@.len(),
                    r <= self.expert_tokens@[e as int]@.len(),
                    self.expert_tokens@[e as int]@.len() == self.expert_slots@[e as int]@.len(),
                    self.wf(),
                    self.expert_slots@.len() < UNROUTED,
                    grads@.len() == self.assignments@.len(),
                    forall|r: int|
                        0 <= r < self.expert_slots@[e as int]@.len() ==> (
                        #[trigger] self.expert_slots@[e as int]@[r]) < self.assignments@.len(),
                    forall|r: int|
                        0 <= r < self.expert_tokens@[e as int]@.len() ==> (
                        #[trigger] self.expert_tokens@[e as int]@[r]) < self.tokens,
                    forall|t: usize, e: usize, r: usize|
                        t < self.tokens && e < self.expert_tokens@.len() && r
                            < self.expert_tokens@[e as int]@.len() ==> #[trigger] call_requires(
                            *dot,
                            (t, e, r),
                        ),
                    forall|s: int|
                        0 <= s < grads@.len() && self.assignments@[s] == UNROUTED
                            ==> #[trigger] grads@[s] == zero,
                    forall|d: int, q: int|
                        #![trigger self.expert_slots@[d]@[q]]
                        (0 <= d < e && 0 <= q < self.expert_slots@[d]@.len()) || (d == e && 0 <= q
                            < r) ==> call_ensures(
                            *dot,
                            (self.expert_tokens@[d]@[q], d as usize, q as usize),
                            grads@[self.expert_slots@[d]@[q] as int],
                        ),
                decreases self.expert_tokens@[e as int]@.len() - r,
            {
                let token: usize = self.expert_tokens[e][r];
                let slot: usize = self.expert_slots[e][r];
                let ghost before = grads@;
                let value = dot(token, e, r);
                grads.set(slot, value);
                proof {
                    lemma_slot_names_expert(*self, e as int, r as int);
                    assert forall|d: int, q: int|
                        #![trigger self.expert_slots@[d]@[q]]
                        (0 <= d < e && 0 <= q < self.expert_slots@[d]@.len()) || (d == e && 0 <= q
                            < r + 1) implies call_ensures(
                        *dot,
                        (self.expert_tokens@[d]@[q], d as usize, q as usize),
                        grads@[self.expert_slots@[d]@[q] as int],
                    ) by {
                        lemma_slots_differ(*self, d, q, e as int, r as int);
                        lemma_tokens_in_range(*self, d);
                        if d != e || q != r {
                            assert(grads@[self.expert_slots@[d]@[q] as int]
                                == before[self.expert_slots@[d]@[q] as int]);
                        }
                    }
                }
                r = r + 1;
            }
            e = e + 1;
        }
        grads
    }

    /// The gradient of the input: the shared expert's first, then the experts'
    /// by the rows of their tokens, then the router's.
    pub fn input_gradient<T: Copy, F: Fn(T, T) -> T>(
        &self,
        parts: &Vec<Option<Matrix<T>>>,
        shared: &Option<Matrix<T>>,
        router: &Matrix<T>,
        zero: T,
        sum: &F,
    ) -> (grad: Matrix<T>)
        requires
            self.wf(),
            router.wf(),
            router.rows == self.tokens,
            fits(*self, parts@, router.cols as int),
            match *shared {
                Some(rows) => rows.wf() && rows.rows == self.tokens && rows.cols == router.cols,
                None => true,
            },
            forall|a: T, b: T| #[trigger] call_requires(*sum, (a, b)),
        ensures
            grad.wf(),
            grad.rows == self.tokens,
            grad.cols == router.cols,
            is_input_gradient(*self, parts@, *shared, *router, zero, grad, *sum),
    {
        let total: usize = router.data.len();
        let mut grad = Matrix::new(self.tokens, router.cols, zero);
        assert(grad.data@ =~= blank(grad.rows * grad.cols, zero));
        if let Some(rows) = shared {
            accumulate(&mut grad, rows, sum);
        }
        let ghost first = grad.data@;
        self.gathered(&mut grad, parts, sum);
        let ghost second = grad.data@;
        accumulate(&mut grad, router, sum);
        assert(is_gathered(
            first,
            second,
            self.expert_tokens@,
            parts@,
            *sum,
            parts@.len() as int,
        ));
        grad
    }

    /// The gradient of the router's logits: `row` gives a token's, and a row
    /// that was routed nowhere keeps zeros.
    pub fn logit_gradients<T: Copy, F: Fn(usize) -> Vec<T>>(&self, zero: T, row: &F) -> (grads:
        Matrix<T>)
        requires
            self.wf(),
            self.tokens * self.expert_slots@.len() <= usize::MAX,
            forall|t: usize| t < self.tokens ==> #[trigger] call_requires(*row, (t,)),
            forall|t: usize, line: Vec<T>| #[trigger]
                call_ensures(*row, (t,), line) ==> line@.len() == self.expert_slots@.len(),
        ensures
            grads.wf(),
            grads.rows == self.tokens,
            grads.cols == self.expert_slots@.len(),
            forall|t: int|
                0 <= t < self.tokens ==> is_token_row(*self, t, zero, *row, #[trigger] grads.line(t)),
    {
        let experts: usize = self.expert_slots.len();
        let slots: usize = self.assignments.len();
        let mut data: Vec<T> = Vec::new();
        let mut t: usize = 0;
        assert(0 * experts == 0);
        while t < self.tokens
            invariant
                t <= self.tokens,
                self.wf(),
                experts == self.expert_slots@.len(),
                self.assignments@.len() <= usize::MAX,
                forall|t: usize| t < self.tokens ==> #[trigger] call_requires(*row, (t,)),
                forall|t: usize, line: Vec<T>| #[trigger]
                    call_ensures(*row, (t,), line) ==> line@.len() == self.expert_slots@.len(),
                data@.len() == t * experts,
                forall|s: int|
                    0 <= s < t ==> is_token_row(
                        *self,
                        s,
                        zero,
                        *row,
                        #[trigger] data@.subrange(s * experts, s * experts + experts),
                    ),
            decreases self.tokens - t,
        {
            let ghost before = data@;
            proof {
                lemma_entry(self.tokens as int, self.top_k as int, t as int, 0);
            }
            let ghost mut line: Seq<T> = Seq::empty();
            if self.assignments[t * self.top_k] == UNROUTED {
                let mut c: usize = 0;
                while c < experts
                    invariant
                        c <= experts,
                        data@ == before + blank(c as int, zero),
                    decreases experts - c,
                {
                    data.push(zero);
                    c = c + 1;
                    assert(data@ =~= before + blank(c as int, zero));
                }
                proof {
                    line = blank(experts as int, zero);
                }
            } else {
                let made = row(t);
                assert(call_ensures(*row, ((t as int) as usize,), made));
                assert(is_token_row(*self, t as int, zero, *row, made@));
                let mut c: usize = 0;
                while c < experts
                    invariant
                        c <= experts == made@.len(),
                        data@ == before + made@.take(c as int),
                    decreases experts - c,
                {
                    data.push(made[c]);
                    c = c + 1;
                    assert(data@ =~= before + made@.take(c as int));
                }
                proof {
                    assert(made@.take(experts as int) =~= made@);
                    line = made@;
                }
            }
            proof {
                assert((t + 1) * experts == t * experts + experts) by (nonlinear_arith);
                assert forall|s: int| 0 <= s < t + 1 implies is_token_row(
                    *self,
                    s,
                    zero,
                    *row,
                    #[trigger] data@.subrange(s * experts, s * experts + experts),
                ) by {
                    let now = data@.subrange(s * experts, s * experts + experts);
                    if s < t {
                        assert(is_token_row(
                            *self,
                            s,
                            zero,
                            *row,
                            before.subrange(s * experts, s * experts + experts),
                        ));
                        assert(s * experts + experts <= t * experts && 0 <= s * experts)
                            by (nonlinear_arith)
                            requires
                                0 <= s < t,
                                experts >= 0,
                        ;
                        assert(now =~= before.subrange(s * experts, s * experts + experts));
                    } else {
                        assert(now =~= line);
                    }
                }
            }
            t = t + 1;
        }
        let grads = Matrix { rows: self.tokens, cols: experts, data };
        assert forall|t: int| 0 <= t < self.tokens implies is_token_row(
            *self,
            t,
            zero,
            *row,
            #[trigger] grads.line(t),
        ) by {
            assert(grads.line(t) == data@.subrange(t * experts, t * experts + experts));
        }
        grads
    }
}

/// Whether a row is that of a token: zeros where the token was routed nowhere.
pub open spec fn is_token_row<T, F: Fn(usize) -> Vec<T>>(
    routing: Routing,
    t: int,
    zero: T,
    row: F,
    made: Seq<T>,
) -> bool {
    if routing.assignments@[t * routing.top_k] == UNROUTED {
        made == blank(routing.expert_slots@.len() as int, zero)
    } else {
        exists|line: Vec<T>| #[trigger] call_ensures(row, (t as usize,), line) && made == line@
    }
}

/// Whether what an expert made, if anything, was weighed by its gates.
pub open spec fn is_part_weighed<T, F: Fn(T, T) -> T>(
    routing: Routing,
    e: int,
    part: Option<Matrix<T>>,
    gates: Seq<T>,
    weighed: Option<Matrix<T>>,
    scale: F,
) -> bool {
    match part {
        Some(rows) => weighed is Some && is_weighed(
            rows,
            routing.expert_slots@[e]@,
            gates,
            scale,
            weighed->Some_0,
        ),
        None => weighed is None,
    }
}

/// So many entries of one value.
pub open spec fn blank<T>(count: int, zero: T) -> Seq<T> {
    Seq::new(count as nat, |i: int| zero)
}

/// Whether a matrix is the output of a layer: what the experts made, weighed
/// and added to the rows of their tokens, and the shared expert's rows on top.
pub open spec fn is_mixture<T, F: Fn(T, T) -> T, G: Fn(T, T) -> T>(
    routing: Routing,
    parts: Seq<Option<Matrix<T>>>,
    gates: Seq<T>,
    shared: Option<Matrix<T>>,
    zero: T,
    output: Matrix<T>,
    scale: F,
    sum: G,
) -> bool {
    exists|weighed: Seq<Option<Matrix<T>>>, routed: Seq<T>|
        {
            &&& weighed.len() == parts.len()
            &&& forall|e: int|
                0 <= e < parts.len() ==> is_part_weighed(
                    routing,
                    e,
                    parts[e],
                    gates,
                    #[trigger] weighed[e],
                    scale,
                )
            &&& #[trigger] is_gathered(
                blank(output.rows * output.cols, zero),
                routed,
                routing.expert_tokens@,
                weighed,
                sum,
                weighed.len() as int,
            )
            &&& match shared {
                Some(rows) => is_added(routed, rows.data@, output.data@, sum),
                None => output.data@ == routed,
            }
        }
}

/// Whether a matrix is the gradient of a layer's input.
pub open spec fn is_input_gradient<T, F: Fn(T, T) -> T>(
    routing: Routing,
    parts: Seq<Option<Matrix<T>>>,
    shared: Option<Matrix<T>>,
    router: Matrix<T>,
    zero: T,
    grad: Matrix<T>,
    sum: F,
) -> bool {
    exists|first: Seq<T>, second: Seq<T>|
        {
            &&& match shared {
                Some(rows) => is_added(
                    blank(grad.rows * grad.cols, zero),
                    rows.data@,
                    first,
                    sum,
                ),
                None => first == blank(grad.rows * grad.cols, zero),
            }
            &&& #[trigger] is_gathered(
                first,
                second,
                routing.expert_tokens@,
                parts,
                sum,
                parts.len() as int,
            )
            &&& is_added(second, router.data@, grad.data@, sum)
        }
}

proof fn lemma_expert_fits(routing: Routing, e: int, cols: int)
    requires
        routing.wf(),
        0 <= e < routing.expert_slots@.len(),
        0 <= cols,
        routing.assignments@.len() * cols <= usize::MAX,
    ensures
        routing.expert_tokens@[e]@.len() * cols <= usize::MAX,
{
    let n = routing.assignments@.len() as int;
    assert(routing.assignments.len() == n);
    law_expert_sees_its_slots(routing.assignments@, e, n);
    assert(routing.expert_slots@[e]@ == slots_of_expert(routing.assignments@, e, n));
    let k = routing.expert_tokens@[e]@.len() as int;
    assert(k == routing.expert_slots@[e]@.len());
    assert(k * cols <= n * cols) by (nonlinear_arith)
        requires
            k <= n,
            0 <= cols,
    ;
}

proof fn lemma_slot_names_expert(routing: Routing, e: int, r: int)
    requires
        routing.wf(),
        0 <= e < routing.expert_slots@.len(),
        0 <= r < routing.expert_slots@[e]@.len(),
    ensures
        routing.assignments@[routing.expert_slots@[e]@[r] as int] == e,
        routing.expert_slots@[e]@[r] < routing.assignments@.len(),
{
    let n = routing.assignments@.len() as int;
    assert(routing.assignments.len() == n);
    law_expert_sees_its_slots(routing.assignments@, e, n);
    assert(routing.expert_slots@[e]@ == slots_of_expert(routing.assignments@, e, n));
}

/// Different rows come from different slots.
proof fn lemma_slots_differ(routing: Routing, d: int, q: int, e: int, r: int)
    requires
        routing.wf(),
        0 <= d < routing.expert_slots@.len(),
        0 <= e < routing.expert_slots@.len(),
        0 <= q < routing.expert_slots@[d]@.len(),
        0 <= r < routing.expert_slots@[e]@.len(),
    ensures
        routing.expert_slots@[d]@[q] == routing.expert_slots@[e]@[r] <==> d == e && q == r,
{
    lemma_slot_names_expert(routing, d, q);
    lemma_slot_names_expert(routing, e, r);
    if d == e {
        let n = routing.assignments@.len() as int;
        assert(routing.assignments.len() == n);
        law_expert_sees_its_slots(routing.assignments@, e, n);
        assert(routing.expert_slots@[e]@ == slots_of_expert(routing.assignments@, e, n));
        if q < r {
            assert(routing.expert_slots@[d]@[q] < routing.expert_slots@[e]@[r]);
        } else if r < q {
            assert(routing.expert_slots@[e]@[r] < routing.expert_slots@[d]@[q]);
        }
    }
}

} // verus!
