//! Row by row through a matrix: norms over parts of a row, modulation by a
//! shift and a scale, and gated addition. What is done to the numbers is the
//! caller's.
use crate::matrix::{entry, lemma_entry, lemma_entry_injective, Matrix};
use vstd::prelude::*;

verus! {

/// `f` of every entry and its column's shift and scale: the modulation of an
/// adaptive norm.
pub fn modulate<T: Copy, F: Fn(T, T, T) -> T>(
    tokens: &Matrix<T>,
    shift: &Vec<T>,
    scale: &Vec<T>,
    f: &F,
) -> (modulated: Matrix<T>)
    requires
        tokens.wf(),
        shift@.len() == tokens.cols,
        scale@.len() == tokens.cols,
        forall|a: T, b: T, c: T| #[trigger] call_requires(*f, (a, b, c)),
    ensures
        modulated.wf(),
        modulated.rows == tokens.rows,
        modulated.cols == tokens.cols,
        forall|r: int, c: int|
            0 <= r < tokens.rows && 0 <= c < tokens.cols ==> call_ensures(
                *f,
                (tokens.at(r, c), shift@[c], scale@[c]),
                #[trigger] modulated.at(r, c),
            ),
{
    let (rows, cols): (usize, usize) = (tokens.rows, tokens.cols);
    let total: usize = tokens.data.len();
    let mut data: Vec<T> = Vec::new();
    let mut r: usize = 0;
    assert(0 * cols == 0);
    while r < rows
        invariant
            r <= rows,
            tokens.wf(),
            rows == tokens.rows,
            cols == tokens.cols,
            total == tokens.data@.len() == rows * cols,
            shift@.len() == cols,
            scale@.len() == cols,
            forall|a: T, b: T, c: T| #[trigger] call_requires(*f, (a, b, c)),
            data@.len() == r * cols,
            forall|q: int, d: int|
                0 <= q < r && 0 <= d < cols ==> call_ensures(
                    *f,
                    (tokens.at(q, d), shift@[d], scale@[d]),
                    data@[#[trigger] entry(cols as int, q, d)],
                ),
        decreases rows - r,
    {
        let mut c: usize = 0;
        while c < cols
            invariant
                r < rows,
                c <= cols,
                tokens.wf(),
                rows == tokens.rows,
                cols == tokens.cols,
                total == tokens.data@.len() == rows * cols,
                shift@.len() == cols,
                scale@.len() == cols,
                forall|a: T, b: T, c: T| #[trigger] call_requires(*f, (a, b, c)),
                data@.len() == r * cols + c,
                forall|q: int, d: int|
                    (0 <= q < r && 0 <= d < cols) || (q == r && 0 <= d < c) ==> call_ensures(
                        *f,
                        (tokens.at(q, d), shift@[d], scale@[d]),
                        data@[#[trigger] entry(cols as int, q, d)],
                    ),
            decreases cols - c,
        {
            let value = f(tokens.get(r, c), shift[c], scale[c]);
            let ghost before = data@;
            data.push(value);
            proof {
                let n = cols as int;
                assert forall|q: int, d: int|
                    (0 <= q < r && 0 <= d < cols) || (q == r && 0 <= d < c + 1) implies call_ensures(
                    *f,
                    (tokens.at(q, d), shift@[d], scale@[d]),
                    data@[#[trigger] entry(n, q, d)],
                ) by {
                    if q < r {
                        lemma_entry(r as int, n, q, d);
                    }
                    if q < r || d < c {
                        assert(data@[entry(n, q, d)] == before[entry(n, q, d)]);
                    }
                }
            }
            c = c + 1;
        }
        proof {
            let (i, n) = (r as int, cols as int);
            assert((i + 1) * n == i * n + n) by (nonlinear_arith);
        }
        r = r + 1;
    }
    let modulated = Matrix { rows, cols, data };
    assert forall|q: int, d: int| 0 <= q < rows && 0 <= d < cols implies call_ensures(
        *f,
        (tokens.at(q, d), shift@[d], scale@[d]),
        #[trigger] modulated.at(q, d),
    ) by {
        assert(modulated.at(q, d) == data@[entry(cols as int, q, d)]);
    }
    modulated
}

/// `f` of every entry, its counterpart in another matrix and its column's
/// gate: the gated addition that every block ends with.
pub fn gated_add<T: Copy, F: Fn(T, T, T) -> T>(
    target: &mut Matrix<T>,
    source: &Matrix<T>,
    gate: &Vec<T>,
    f: &F,
)
    requires
        old(target).wf(),
        source.wf(),
        source.rows == old(target).rows,
        source.cols == old(target).cols,
        gate@.len() == old(target).cols,
        forall|a: T, b: T, c: T| #[trigger] call_requires(*f, (a, b, c)),
    ensures
        final(target).wf(),
        final(target).rows == old(target).rows,
        final(target).cols == old(target).cols,
        forall|r: int, c: int|
            0 <= r < old(target).rows && 0 <= c < old(target).cols ==> call_ensures(
                *f,
                (old(target).at(r, c), source.at(r, c), gate@[c]),
                #[trigger] final(target).at(r, c),
            ),
{
    let ghost start = *target;
    let (rows, cols): (usize, usize) = (target.rows, target.cols);
    let mut r: usize = 0;
    while r < rows
        invariant
            r <= rows,
            start.wf(),
            target.wf(),
            source.wf(),
            source.rows == rows,
            source.cols == cols,
            gate@.len() == cols,
            rows == start.rows == target.rows,
            cols == start.cols == target.cols,
            forall|a: T, b: T, c: T| #[trigger] call_requires(*f, (a, b, c)),
            forall|q: int, d: int|
                0 <= q < r && 0 <= d < cols ==> call_ensures(
                    *f,
                    (start.at(q, d), source.at(q, d), gate@[d]),
                    #[trigger] target.at(q, d),
                ),
            forall|q: int, d: int|
                r <= q < rows && 0 <= d < cols ==> #[trigger] target.at(q, d) == start.at(q, d),
        decreases rows - r,
    {
        let mut c: usize = 0;
        while c < cols
            invariant
                c <= cols,
                r < rows,
                start.wf(),
                target.wf(),
                source.wf(),
                source.rows == rows,
                source.cols == cols,
                gate@.len() == cols,
                rows == start.rows == target.rows,
                cols == start.cols == target.cols,
                forall|a: T, b: T, c: T| #[trigger] call_requires(*f, (a, b, c)),
                forall|q: int, d: int|
                    (0 <= q < r && 0 <= d < cols) || (q == r && 0 <= d < c) ==> call_ensures(
                        *f,
                        (start.at(q, d), source.at(q, d), gate@[d]),
                        #[trigger] target.at(q, d),
                    ),
                forall|q: int, d: int|
                    (q == r && c <= d < cols) || (r < q < rows && 0 <= d < cols)
                        ==> #[trigger] target.at(q, d) == start.at(q, d),
            decreases cols - c,
        {
            let value = f(target.get(r, c), source.get(r, c), gate[c]);
            let ghost before = *target;
            target.set(r, c, value);
            proof {
                let n = cols as int;
                lemma_entry(rows as int, n, r as int, c as int);
                assert forall|q: int, d: int|
                    0 <= q < rows && 0 <= d < cols && !(q == r && d == c) implies
                    #[trigger] target.at(q, d) == before.at(q, d) by {
                    lemma_entry(rows as int, n, q, d);
                    if entry(n, q, d) == entry(n, r as int, c as int) {
                        lemma_entry_injective(n, q, d, r as int, c as int);
                    }
                }
                assert forall|q: int, d: int|
                    (0 <= q < r && 0 <= d < cols) || (q == r && 0 <= d < c + 1) implies call_ensures(
                    *f,
                    (start.at(q, d), source.at(q, d), gate@[d]),
                    #[trigger] target.at(q, d),
                ) by {
                    if q != r || d != c {
                        assert(target.at(q, d) == before.at(q, d));
                    }
                }
            }
            c = c + 1;
        }
        r = r + 1;
    }
}

/// Part `k` of a list cut into parts of one width.
pub open spec fn part_of<T>(list: Seq<T>, width: int, k: int) -> Seq<T> {
    list.subrange(k * width, k * width + width)
}

/// Whether a part became what a norm makes of it.
pub open spec fn is_normed<T, F: Fn(Vec<T>) -> Vec<T>>(norm: F, part: Seq<T>, normed: Seq<T>) -> bool {
    exists|held: Vec<T>, made: Vec<T>|
        held@ == part && made@ == normed && #[trigger] call_ensures(norm, (held,), made)
}

/// Norms every part of so many numbers on its own: the heads of every row, or
/// whole rows where a part is as wide as the matrix.
pub fn norm_parts<T: Copy, F: Fn(Vec<T>) -> Vec<T>>(
    values: &Matrix<T>,
    width: usize,
    parts: usize,
    norm: &F,
) -> (normed: Matrix<T>)
    requires
        values.wf(),
        values.data@.len() == parts * width,
        forall|part: Vec<T>| #[trigger] call_requires(*norm, (part,)),
        forall|part: Vec<T>, made: Vec<T>| #[trigger]
            call_ensures(*norm, (part,), made) ==> made@.len() == part@.len(),
    ensures
        normed.wf(),
        normed.rows == values.rows,
        normed.cols == values.cols,
        forall|k: int|
            0 <= k < parts ==> is_normed(
                *norm,
                part_of(values.data@, width as int, k),
                #[trigger] part_of(normed.data@, width as int, k),
            ),
{
    let total: usize = values.data.len();
    let mut data: Vec<T> = Vec::new();
    let mut k: usize = 0;
    assert(0 * width == 0);
    while k < parts
        invariant
            k <= parts,
            total == values.data@.len() == parts * width,
            forall|part: Vec<T>| #[trigger] call_requires(*norm, (part,)),
            forall|part: Vec<T>, made: Vec<T>| #[trigger]
                call_ensures(*norm, (part,), made) ==> made@.len() == part@.len(),
            data@.len() == k * width,
            forall|j: int|
                0 <= j < k ==> is_normed(
                    *norm,
                    part_of(values.data@, width as int, j),
                    #[trigger] part_of(data@, width as int, j),
                ),
        decreases parts - k,
    {
        proof {
            let (i, n, m) = (k as int, width as int, parts as int);
            assert(0 <= i * n && i * n + n <= m * n && (i + 1) * n == i * n + n)
                by (nonlinear_arith)
                requires
                    0 <= i < m,
                    0 <= n,
            ;
        }
        let start: usize = k * width;
        let mut part: Vec<T> = Vec::new();
        let ghost wanted = part_of(values.data@, width as int, k as int);
        let mut i: usize = 0;
        while i < width
            invariant
                i <= width,
                start == k * width,
                start + width <= values.data@.len() == total,
                wanted == values.data@.subrange(start as int, start + width),
                part@ == wanted.take(i as int),
            decreases width - i,
        {
            part.push(values.data[start + i]);
            i = i + 1;
            assert(part@ =~= wanted.take(i as int));
        }
        assert(part@ =~= wanted);
        let ghost held = part;
        let mut made = norm(part);
        let ghost (before, next) = (data@, made@);
        let ghost kept = made;
        data.append(&mut made);
        proof {
            let n = width as int;
            assert(part_of(data@, n, k as int) =~= next);
            assert(call_ensures(*norm, (held,), kept));
            assert forall|j: int| 0 <= j < k + 1 implies is_normed(
                *norm,
                part_of(values.data@, n, j),
                #[trigger] part_of(data@, n, j),
            ) by {
                if j < k {
                    assert(0 <= j * n && j * n + n <= k * n) by (nonlinear_arith)
                        requires
                            0 <= j < k,
                            0 <= n,
                    ;
                    assert(part_of(data@, n, j) =~= part_of(before, n, j));
                }
            }
        }
        k = k + 1;
    }
    Matrix { rows: values.rows, cols: values.cols, data }
}

} // verus!
