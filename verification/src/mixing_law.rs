//! What a mixture of experts adds up to, in exact numbers.
use crate::matrix::{entry, lemma_entry, lemma_entry_injective, Matrix};
use crate::mixing::{
    blank, fits, is_added, is_gathered, is_input_gradient, is_mixture, is_part_added,
    is_part_weighed, is_row_added, is_scattered,
};
use crate::moe::Routing;
use vstd::prelude::*;

verus! {

/// Whether numbers are measured so that adding them adds their measures.
pub open spec fn adds_exactly<T, F: Fn(T, T) -> T>(
    sum: F,
    zero: T,
    measure: spec_fn(T) -> int,
) -> bool {
    &&& measure(zero) == 0
    &&& forall|a: T, b: T, c: T| #[trigger]
        call_ensures(sum, (a, b), c) ==> measure(c) == measure(a) + measure(b)
}

/// Whether weighing a number by a gate multiplies their measures.
pub open spec fn scales_exactly<T, F: Fn(T, T) -> T>(scale: F, measure: spec_fn(T) -> int) -> bool {
    forall|gate: T, value: T, made: T| #[trigger]
        call_ensures(scale, (gate, value), made) ==> measure(made) == measure(gate) * measure(
            value,
        )
}

/// What the first `k` rows of an expert come to for one token and column:
/// those of them that are the token's.
pub open spec fn rows_share<T>(
    tokens: Seq<usize>,
    part: Matrix<T>,
    measure: spec_fn(T) -> int,
    t: int,
    c: int,
    k: int,
) -> int
    decreases k,
{
    if k <= 0 {
        0
    } else {
        rows_share(tokens, part, measure, t, c, k - 1) + if tokens[k - 1] == t {
            measure(part.at(k - 1, c))
        } else {
            0
        }
    }
}

/// What the first `k` experts come to for one token and column.
pub open spec fn experts_share<T>(
    tokens: Seq<Vec<usize>>,
    parts: Seq<Option<Matrix<T>>>,
    measure: spec_fn(T) -> int,
    t: int,
    c: int,
    k: int,
) -> int
    decreases k,
{
    if k <= 0 {
        0
    } else {
        experts_share(tokens, parts, measure, t, c, k - 1) + match parts[k - 1] {
            Some(part) => rows_share(tokens[k - 1]@, part, measure, t, c, part.rows as int),
            None => 0,
        }
    }
}

/// What the first `k` rows of an expert come to for one token and column, each
/// weighed by its slot's gate.
pub open spec fn gated_rows_share<T>(
    routing: Routing,
    e: int,
    part: Matrix<T>,
    gates: Seq<T>,
    measure: spec_fn(T) -> int,
    t: int,
    c: int,
    k: int,
) -> int
    decreases k,
{
    if k <= 0 {
        0
    } else {
        gated_rows_share(routing, e, part, gates, measure, t, c, k - 1)
            + if routing.expert_tokens@[e]@[k - 1] == t {
            measure(gates[routing.expert_slots@[e]@[k - 1] as int]) * measure(part.at(k - 1, c))
        } else {
            0
        }
    }
}

/// What the first `k` experts come to for one token and column, each row
/// weighed by its slot's gate.
pub open spec fn gated_share<T>(
    routing: Routing,
    parts: Seq<Option<Matrix<T>>>,
    gates: Seq<T>,
    measure: spec_fn(T) -> int,
    t: int,
    c: int,
    k: int,
) -> int
    decreases k,
{
    if k <= 0 {
        0
    } else {
        gated_share(routing, parts, gates, measure, t, c, k - 1) + match parts[k - 1] {
            Some(part) => gated_rows_share(
                routing,
                k - 1,
                part,
                gates,
                measure,
                t,
                c,
                part.rows as int,
            ),
            None => 0,
        }
    }
}

proof fn lemma_row_added<T, F: Fn(T, T) -> T>(
    before: Seq<T>,
    after: Seq<T>,
    source: Matrix<T>,
    targets: Seq<usize>,
    sum: F,
    zero: T,
    measure: spec_fn(T) -> int,
    rows: int,
    r: int,
    t: int,
    c: int,
)
    requires
        adds_exactly(sum, zero, measure),
        source.wf(),
        0 <= r < source.rows,
        0 <= t < rows,
        0 <= c < source.cols,
        before.len() == rows * source.cols,
        is_row_added(
            before,
            after,
            source.cols as int,
            targets[r] as int,
            source.line(r),
            sum,
        ),
    ensures
        measure(after[entry(source.cols as int, t, c)]) == measure(
            before[entry(source.cols as int, t, c)],
        ) + if targets[r] == t {
            measure(source.at(r, c))
        } else {
            0
        },
{
    let n = source.cols as int;
    lemma_entry(rows, n, t, c);
    lemma_entry(source.rows as int, n, r, c);
    let at = entry(n, t, c);
    if targets[r] == t {
        assert(source.line(r)[c] == source.at(r, c));
        assert(call_ensures(sum, (before[at], source.line(r)[c]), after[at]));
    } else {
        let row = targets[r] as int;
        assert(!(row * n <= at < row * n + n)) by {
            if row * n <= at < row * n + n {
                lemma_entry_injective(n, row, at - row * n, t, c);
            }
        }
        assert(after[at] == before[at]);
    }
}

proof fn lemma_scattered<T, F: Fn(T, T) -> T>(
    before: Seq<T>,
    after: Seq<T>,
    source: Matrix<T>,
    targets: Seq<usize>,
    sum: F,
    zero: T,
    measure: spec_fn(T) -> int,
    rows: int,
    t: int,
    c: int,
    k: int,
)
    requires
        adds_exactly(sum, zero, measure),
        source.wf(),
        0 <= k <= source.rows,
        0 <= t < rows,
        0 <= c < source.cols,
        before.len() == rows * source.cols,
        is_scattered(before, after, targets, source, sum, k),
    ensures
        after.len() == before.len(),
        measure(after[entry(source.cols as int, t, c)]) == measure(
            before[entry(source.cols as int, t, c)],
        ) + rows_share(targets, source, measure, t, c, k),
    decreases k,
{
    if k > 0 {
        let middle = choose|middle: Seq<T>|
            is_scattered(before, middle, targets, source, sum, k - 1) && #[trigger] is_row_added(
                middle,
                after,
                source.cols as int,
                targets[k - 1] as int,
                source.line(k - 1),
                sum,
            );
        lemma_scattered(
            before,
            middle,
            source,
            targets,
            sum,
            zero,
            measure,
            rows,
            t,
            c,
            k - 1,
        );
        lemma_row_added(
            middle,
            after,
            source,
            targets,
            sum,
            zero,
            measure,
            rows,
            k - 1,
            t,
            c,
        );
    }
}

/// Whether every part is a whole matrix of so many columns.
pub open spec fn are_whole<T>(parts: Seq<Option<Matrix<T>>>, cols: int) -> bool {
    forall|e: int|
        0 <= e < parts.len() ==> match #[trigger] parts[e] {
            Some(part) => part.wf() && part.cols == cols,
            None => true,
        }
}

proof fn lemma_gathered<T, F: Fn(T, T) -> T>(
    before: Seq<T>,
    after: Seq<T>,
    tokens: Seq<Vec<usize>>,
    parts: Seq<Option<Matrix<T>>>,
    sum: F,
    zero: T,
    measure: spec_fn(T) -> int,
    rows: int,
    cols: int,
    t: int,
    c: int,
    k: int,
)
    requires
        adds_exactly(sum, zero, measure),
        are_whole(parts, cols),
        0 <= k <= parts.len(),
        0 <= t < rows,
        0 <= c < cols,
        before.len() == rows * cols,
        is_gathered(before, after, tokens, parts, sum, k),
    ensures
        after.len() == before.len(),
        measure(after[entry(cols, t, c)]) == measure(before[entry(cols, t, c)]) + experts_share(
            tokens,
            parts,
            measure,
            t,
            c,
            k,
        ),
    decreases k,
{
    if k > 0 {
        let middle = choose|middle: Seq<T>|
            is_gathered(before, middle, tokens, parts, sum, k - 1) && #[trigger] is_part_added(
                middle,
                after,
                tokens[k - 1]@,
                parts[k - 1],
                sum,
            );
        lemma_gathered(
            before,
            middle,
            tokens,
            parts,
            sum,
            zero,
            measure,
            rows,
            cols,
            t,
            c,
            k - 1,
        );
        match parts[k - 1] {
            Some(part) => {
                lemma_scattered(
                    middle,
                    after,
                    part,
                    tokens[k - 1]@,
                    sum,
                    zero,
                    measure,
                    rows,
                    t,
                    c,
                    part.rows as int,
                );
            },
            None => {},
        }
    }
}

proof fn lemma_gated_rows<T, F: Fn(T, T) -> T>(
    routing: Routing,
    e: int,
    part: Matrix<T>,
    weighed: Matrix<T>,
    gates: Seq<T>,
    scale: F,
    measure: spec_fn(T) -> int,
    t: int,
    c: int,
    k: int,
)
    requires
        scales_exactly(scale, measure),
        is_part_weighed(routing, e, Some(part), gates, Some(weighed), scale),
        0 <= k <= part.rows,
        0 <= c < part.cols,
    ensures
        rows_share(routing.expert_tokens@[e]@, weighed, measure, t, c, k) == gated_rows_share(
            routing,
            e,
            part,
            gates,
            measure,
            t,
            c,
            k,
        ),
    decreases k,
{
    if k > 0 {
        lemma_gated_rows(routing, e, part, weighed, gates, scale, measure, t, c, k - 1);
        assert(call_ensures(
            scale,
            (gates[routing.expert_slots@[e]@[k - 1] as int], part.at(k - 1, c)),
            weighed.at(k - 1, c),
        ));
    }
}

proof fn lemma_gated<T, F: Fn(T, T) -> T>(
    routing: Routing,
    parts: Seq<Option<Matrix<T>>>,
    weighed: Seq<Option<Matrix<T>>>,
    gates: Seq<T>,
    scale: F,
    measure: spec_fn(T) -> int,
    cols: int,
    t: int,
    c: int,
    k: int,
)
    requires
        scales_exactly(scale, measure),
        fits(routing, parts, cols),
        weighed.len() == parts.len(),
        forall|e: int|
            0 <= e < parts.len() ==> is_part_weighed(
                routing,
                e,
                parts[e],
                gates,
                #[trigger] weighed[e],
                scale,
            ),
        0 <= k <= parts.len(),
        0 <= c < cols,
    ensures
        experts_share(routing.expert_tokens@, weighed, measure, t, c, k) == gated_share(
            routing,
            parts,
            gates,
            measure,
            t,
            c,
            k,
        ),
    decreases k,
{
    if k > 0 {
        lemma_gated(routing, parts, weighed, gates, scale, measure, cols, t, c, k - 1);
        assert(is_part_weighed(routing, k - 1, parts[k - 1], gates, weighed[k - 1], scale));
        match parts[k - 1] {
            Some(part) => {
                let made = weighed[k - 1]->Some_0;
                lemma_gated_rows(
                    routing,
                    k - 1,
                    part,
                    made,
                    gates,
                    scale,
                    measure,
                    t,
                    c,
                    part.rows as int,
                );
            },
            None => {},
        }
    }
}

/// The output of a layer is its experts' mixture: in exact numbers, an entry
/// is what the experts that saw the token made of it, each weighed by its
/// gate, and what the shared expert made, added up.
pub proof fn law_output_is_the_mixture<T, F: Fn(T, T) -> T, G: Fn(T, T) -> T>(
    routing: Routing,
    parts: Seq<Option<Matrix<T>>>,
    gates: Seq<T>,
    shared: Option<Matrix<T>>,
    zero: T,
    output: Matrix<T>,
    scale: F,
    sum: G,
    measure: spec_fn(T) -> int,
    t: int,
    c: int,
)
    requires
        output.wf(),
        output.rows == routing.tokens,
        fits(routing, parts, output.cols as int),
        match shared {
            Some(rows) => rows.wf() && rows.rows == output.rows && rows.cols == output.cols,
            None => true,
        },
        is_mixture(routing, parts, gates, shared, zero, output, scale, sum),
        adds_exactly(sum, zero, measure),
        scales_exactly(scale, measure),
        0 <= t < routing.tokens,
        0 <= c < output.cols,
    ensures
        measure(output.at(t, c)) == gated_share(
            routing,
            parts,
            gates,
            measure,
            t,
            c,
            parts.len() as int,
        ) + match shared {
            Some(rows) => measure(rows.at(t, c)),
            None => 0,
        },
{
    let (rows, cols) = (output.rows as int, output.cols as int);
    let (weighed, routed) = choose|weighed: Seq<Option<Matrix<T>>>, routed: Seq<T>|
        {
            &&& weighed.len() == parts.len()
            &&& forall|e: int|
                0 <= e < parts.len() ==> is_part_weighed(
                    routing,
                    e,
                    parts[e],
                    gates,
                    #[trigger] weighed[e],
                    scale,
                )
            &&& #[trigger] is_gathered(
                blank(output.rows * output.cols, zero),
                routed,
                routing.expert_tokens@,
                weighed,
                sum,
                weighed.len() as int,
            )
            &&& match shared {
                Some(rows) => is_added(routed, rows.data@, output.data@, sum),
                None => output.data@ == routed,
            }
        };
    let start = blank(output.rows * output.cols, zero);
    lemma_entry(rows, cols, t, c);
    assert forall|e: int| 0 <= e < weighed.len() implies match #[trigger] weighed[e] {
        Some(part) => part.wf() && part.cols == cols,
        None => true,
    } by {
        assert(is_part_weighed(routing, e, parts[e], gates, weighed[e], scale));
    }
    lemma_gathered(
        start,
        routed,
        routing.expert_tokens@,
        weighed,
        sum,
        zero,
        measure,
        rows,
        cols,
        t,
        c,
        weighed.len() as int,
    );
    lemma_gated(
        routing,
        parts,
        weighed,
        gates,
        scale,
        measure,
        cols,
        t,
        c,
        parts.len() as int,
    );
    assert(start[entry(cols, t, c)] == zero);
    match shared {
        Some(rows) => {
            assert(call_ensures(
                sum,
                (routed[entry(cols, t, c)], rows.data@[entry(cols, t, c)]),
                output.data@[entry(cols, t, c)],
            ));
        },
        None => {},
    }
}

/// The gradient of a layer's input is what comes back from everything that
/// read it: in exact numbers, an entry is what the shared expert, the experts
/// that saw the token and the router give back, added up.
pub proof fn law_input_gradient_is_the_sum<T, F: Fn(T, T) -> T>(
    routing: Routing,
    parts: Seq<Option<Matrix<T>>>,
    shared: Option<Matrix<T>>,
    router: Matrix<T>,
    zero: T,
    grad: Matrix<T>,
    sum: F,
    measure: spec_fn(T) -> int,
    t: int,
    c: int,
)
    requires
        grad.wf(),
        router.wf(),
        grad.rows == routing.tokens == router.rows,
        grad.cols == router.cols,
        fits(routing, parts, grad.cols as int),
        match shared {
            Some(rows) => rows.wf() && rows.rows == grad.rows && rows.cols == grad.cols,
            None => true,
        },
        is_input_gradient(routing, parts, shared, router, zero, grad, sum),
        adds_exactly(sum, zero, measure),
        0 <= t < routing.tokens,
        0 <= c < grad.cols,
    ensures
        measure(grad.at(t, c)) == (match shared {
            Some(rows) => measure(rows.at(t, c)),
            None => 0,
        }) + experts_share(
            routing.expert_tokens@,
            parts,
            measure,
            t,
            c,
            parts.len() as int,
        ) + measure(router.at(t, c)),
{
    let (rows, cols) = (grad.rows as int, grad.cols as int);
    let start = blank(grad.rows * grad.cols, zero);
    let (first, second) = choose|first: Seq<T>, second: Seq<T>|
        {
            &&& match shared {
                Some(rows) => is_added(
                    blank(grad.rows * grad.cols, zero),
                    rows.data@,
                    first,
                    sum,
                ),
                None => first == blank(grad.rows * grad.cols, zero),
            }
            &&& #[trigger] is_gathered(
                first,
                second,
                routing.expert_tokens@,
                parts,
                sum,
                parts.len() as int,
            )
            &&& is_added(second, router.data@, grad.data@, sum)
        };
    lemma_entry(rows, cols, t, c);
    let at = entry(cols, t, c);
    assert(start[at] == zero);
    match shared {
        Some(rows) => {
            assert(call_ensures(sum, (start[at], rows.data@[at]), first[at]));
        },
        None => {},
    }
    lemma_gathered(
        first,
        second,
        routing.expert_tokens@,
        parts,
        sum,
        zero,
        measure,
        rows,
        cols,
        t,
        c,
        parts.len() as int,
    );
    assert(call_ensures(sum, (second[at], router.data@[at]), grad.data@[at]));
}

} // verus!
