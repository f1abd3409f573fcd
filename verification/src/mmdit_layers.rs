//! How a denoiser takes its sequences and its projections apart and puts them
//! together again.
use crate::error::{Fault, NetworkError};
use crate::masked_lm::copy_of;
use crate::matrix::{entry, lemma_entry, Matrix};
use crate::text::with_text;
use vstd::prelude::*;

verus! {

// -- Sequences -----------------------------------------------------------------

/// Two sequences, one after the other.
pub fn concatenate<T: Copy>(first: &Matrix<T>, second: &Matrix<T>) -> (both: Matrix<T>)
    requires
        first.wf(),
        second.wf(),
        first.cols == second.cols,
        first.rows + second.rows <= usize::MAX,
    ensures
        both.wf(),
        both.rows == first.rows + second.rows,
        both.cols == first.cols,
        both.data@ == first.data@ + second.data@,
{
    let mut data = copy_of(&first.data);
    let mut rest = copy_of(&second.data);
    data.append(&mut rest);
    assert((first.rows + second.rows) * first.cols == first.rows * first.cols + second.rows
        * first.cols) by (nonlinear_arith);
    Matrix { rows: first.rows + second.rows, cols: first.cols, data }
}

fn copy_range<T: Copy>(list: &Vec<T>, from: usize, to: usize) -> (copy: Vec<T>)
    requires
        from <= to <= list@.len(),
    ensures
        copy@ == list@.subrange(from as int, to as int),
{
    let mut copy: Vec<T> = Vec::new();
    let mut i: usize = from;
    while i < to
        invariant
            from <= i <= to <= list@.len(),
            copy@ == list@.subrange(from as int, i as int),
        decreases to - i,
    {
        copy.push(list[i]);
        i = i + 1;
        assert(copy@ =~= list@.subrange(from as int, i as int));
    }
    copy
}

/// A sequence cut in two: so many rows, and the rest.
pub fn split<T: Copy>(tokens: &Matrix<T>, first: usize) -> (parts: (Matrix<T>, Matrix<T>))
    requires
        tokens.wf(),
        first <= tokens.rows,
    ensures
        parts.0.wf(),
        parts.1.wf(),
        parts.0.rows == first,
        parts.1.rows == tokens.rows - first,
        parts.0.cols == tokens.cols,
        parts.1.cols == tokens.cols,
        parts.0.data@ + parts.1.data@ == tokens.data@,
{
    let total: usize = tokens.data.len();
    proof {
        let (f, n, c) = (first as int, tokens.rows as int, tokens.cols as int);
        assert(0 <= f * c <= n * c && (n - f) * c == n * c - f * c) by (nonlinear_arith)
            requires
                0 <= f <= n,
                0 <= c,
        ;
    }
    let cut: usize = first * tokens.cols;
    let head = copy_range(&tokens.data, 0, cut);
    let tail = copy_range(&tokens.data, cut, total);
    assert(head@ + tail@ =~= tokens.data@);
    (
        Matrix { rows: first, cols: tokens.cols, data: head },
        Matrix { rows: tokens.rows - first, cols: tokens.cols, data: tail },
    )
}

/// Splitting undoes concatenating: two sequences that were put together come
/// back as they were.
pub proof fn law_split_undoes_concatenate<T>(
    first: Matrix<T>,
    second: Matrix<T>,
    parts: (Matrix<T>, Matrix<T>),
)
    requires
        first.wf(),
        second.wf(),
        first.cols == second.cols,
        parts.0.wf(),
        parts.0.rows == first.rows,
        parts.0.cols == first.cols,
        parts.0.data@ + parts.1.data@ == first.data@ + second.data@,
    ensures
        parts.0.data@ == first.data@,
        parts.1.data@ == second.data@,
{
    let both = first.data@ + second.data@;
    assert(parts.0.data@ =~= both.take(first.data@.len() as int));
    assert(first.data@ =~= both.take(first.data@.len() as int));
    assert(parts.1.data@ =~= both.skip(first.data@.len() as int));
    assert(second.data@ =~= both.skip(first.data@.len() as int));
}

/// So many columns of a matrix, from a column on.
pub fn columns<T: Copy>(matrix: &Matrix<T>, from: usize, width: usize) -> (part: Matrix<T>)
    requires
        matrix.wf(),
        from + width <= matrix.cols,
    ensures
        part.wf(),
        part.rows == matrix.rows,
        part.cols == width,
        forall|r: int, c: int|
            0 <= r < part.rows && 0 <= c < width ==> #[trigger] part.at(r, c) == matrix.at(
                r,
                from + c,
            ),
{
    let total: usize = matrix.data.len();
    let mut data: Vec<T> = Vec::new();
    let mut r: usize = 0;
    assert(0 * width == 0);
    while r < matrix.rows
        invariant
            r <= matrix.rows,
            matrix.wf(),
            from + width <= matrix.cols,
            data@.len() == r * width,
            forall|k: int, c: int|
                0 <= k < r && 0 <= c < width ==> data@[#[trigger] entry(width as int, k, c)]
                    == matrix.at(k, from + c),
        decreases matrix.rows - r,
    {
        let mut c: usize = 0;
        while c < width
            invariant
                c <= width,
                r < matrix.rows,
                matrix.wf(),
                from + width <= matrix.cols,
                data@.len() == r * width + c,
                forall|k: int, d: int|
                    (0 <= k < r && 0 <= d < width) || (k == r && 0 <= d < c) ==> data@[
                    #[trigger] entry(width as int, k, d)] == matrix.at(k, from + d),
            decreases width - c,
        {
            let value = matrix.get(r, from + c);
            let ghost before = data@;
            data.push(value);
            proof {
                assert forall|k: int, d: int|
                    (0 <= k < r && 0 <= d < width) || (k == r && 0 <= d < c + 1) implies data@[
                #[trigger] entry(width as int, k, d)] == matrix.at(k, from + d) by {
                    if k < r {
                        lemma_entry(r as int, width as int, k, d);
                        assert(data@[entry(width as int, k, d)] == before[entry(
                            width as int,
                            k,
                            d,
                        )]);
                    } else if d < c {
                        assert(data@[entry(width as int, k, d)] == before[entry(
                            width as int,
                            k,
                            d,
                        )]);
                    } else {
                        assert(data@[entry(width as int, k, d)] == value);
                    }
                }
            }
            c = c + 1;
        }
        assert((r + 1) * width == r * width + width) by (nonlinear_arith);
        r = r + 1;
    }
    let part = Matrix { rows: matrix.rows, cols: width, data };
    assert forall|r: int, c: int|
        0 <= r < part.rows && 0 <= c < width implies #[trigger] part.at(r, c) == matrix.at(
        r,
        from + c,
    ) by {
        assert(part.at(r, c) == data@[entry(width as int, r, c)]);
    }
    part
}

/// Two matrices of the same height, side by side.
pub fn concatenate_columns<T: Copy>(left: &Matrix<T>, right: &Matrix<T>) -> (both: Matrix<T>)
    requires
        left.wf(),
        right.wf(),
        left.rows == right.rows,
        left.cols + right.cols <= usize::MAX,
    ensures
        both.wf(),
        both.rows == left.rows,
        both.cols == left.cols + right.cols,
        forall|r: int, c: int|
            0 <= r < both.rows && 0 <= c < both.cols ==> #[trigger] both.at(r, c) == if c
                < left.cols {
                left.at(r, c)
            } else {
                right.at(r, c - left.cols)
            },
{
    let width: usize = left.cols + right.cols;
    let mut data: Vec<T> = Vec::new();
    let mut r: usize = 0;
    assert(0 * width == 0);
    while r < left.rows
        invariant
            r <= left.rows == right.rows,
            left.wf(),
            right.wf(),
            width == left.cols + right.cols,
            data@.len() == r * width,
            forall|k: int, c: int|
                0 <= k < r && 0 <= c < width ==> data@[#[trigger] entry(width as int, k, c)] == if c
                    < left.cols {
                    left.at(k, c)
                } else {
                    right.at(k, c - left.cols)
                },
        decreases left.rows - r,
    {
        let mut c: usize = 0;
        while c < width
            invariant
                c <= width,
                r < left.rows == right.rows,
                left.wf(),
                right.wf(),
                width == left.cols + right.cols,
                data@.len() == r * width + c,
                forall|k: int, d: int|
                    (0 <= k < r && 0 <= d < width) || (k == r && 0 <= d < c) ==> data@[
                    #[trigger] entry(width as int, k, d)] == if d < left.cols {
                        left.at(k, d)
                    } else {
                        right.at(k, d - left.cols)
                    },
            decreases width - c,
        {
            let value = if c < left.cols {
                left.get(r, c)
            } else {
                right.get(r, c - left.cols)
            };
            let ghost before = data@;
            data.push(value);
            proof {
                assert forall|k: int, d: int|
                    (0 <= k < r && 0 <= d < width) || (k == r && 0 <= d < c + 1) implies data@[
                #[trigger] entry(width as int, k, d)] == if d < left.cols {
                    left.at(k, d)
                } else {
                    right.at(k, d - left.cols)
                } by {
                    if k < r {
                        lemma_entry(r as int, width as int, k, d);
                        assert(data@[entry(width as int, k, d)] == before[entry(
                            width as int,
                            k,
                            d,
                        )]);
                    } else if d < c {
                        assert(data@[entry(width as int, k, d)] == before[entry(
                            width as int,
                            k,
                            d,
                        )]);
                    } else {
                        assert(data@[entry(width as int, k, d)] == value);
                    }
                }
            }
            c = c + 1;
        }
        assert((r + 1) * width == r * width + width) by (nonlinear_arith);
        r = r + 1;
    }
    let both = Matrix { rows: left.rows, cols: width, data };
    assert forall|r: int, c: int| 0 <= r < both.rows && 0 <= c < both.cols implies #[trigger] both.at(
        r,
        c,
    ) == if c < left.cols {
        left.at(r, c)
    } else {
        right.at(r, c - left.cols)
    } by {
        assert(both.at(r, c) == data@[entry(width as int, r, c)]);
    }
    both
}

// -- Modulation ----------------------------------------------------------------

/// A shift, a scale and a gate.
#[derive(Debug)]
pub struct Triple<T> {
    pub shift: Vec<T>,
    pub scale: Vec<T>,
    pub gate: Vec<T>,
}

/// The triples of a modulation, in the checkpoint's order: each a shift, a
/// scale and a gate of one width.
pub fn triples<T: Copy>(values: &Vec<T>, chunks: usize) -> (list: Vec<Triple<T>>)
    requires
        chunks > 0,
        chunks * 3 <= usize::MAX,
    ensures
        list@.len() == chunks,
        forall|k: int|
            #![trigger list@[k]]
            0 <= k < chunks ==> {
                let width = values@.len() / (chunks * 3) as nat;
                let base = k * 3 * width;
                &&& list@[k].shift@ == values@.subrange(base, base + width)
                &&& list@[k].scale@ == values@.subrange(base + width, base + 2 * width)
                &&& list@[k].gate@ == values@.subrange(base + 2 * width, base + 3 * width)
            },
{
    let total: usize = values.len();
    let parts: usize = chunks * 3;
    let width: usize = total / parts;
    proof {
        vstd::arithmetic::div_mod::lemma_fundamental_div_mod(total as int, parts as int);
        assert(width * parts <= total) by (nonlinear_arith)
            requires
                total == parts * width + total as int % parts as int,
                0 <= total as int % parts as int,
        ;
    }
    let mut list: Vec<Triple<T>> = Vec::new();
    let mut k: usize = 0;
    while k < chunks
        invariant
            k <= chunks,
            parts == chunks * 3,
            width == values@.len() / parts as nat,
            width * parts <= values@.len() == total,
            list@.len() == k,
            forall|j: int|
                #![trigger list@[j]]
                0 <= j < k ==> {
                    let base = j * 3 * width;
                    &&& list@[j].shift@ == values@.subrange(base, base + width)
                    &&& list@[j].scale@ == values@.subrange(base + width, base + 2 * width)
                    &&& list@[j].gate@ == values@.subrange(base + 2 * width, base + 3 * width)
                },
        decreases chunks - k,
    {
        proof {
            let (j, n, w) = (k as int, chunks as int, width as int);
            assert(0 <= j * 3 * w && j * 3 * w + 3 * w <= w * (n * 3)) by (nonlinear_arith)
                requires
                    0 <= j < n,
                    0 <= w,
            ;
            assert(j * 3 <= n * 3);
        }
        let base: usize = k * 3 * width;
        list.push(
            Triple {
                shift: copy_range(values, base, base + width),
                scale: copy_range(values, base + width, base + 2 * width),
                gate: copy_range(values, base + 2 * width, base + 3 * width),
            },
        );
        k = k + 1;
    }
    list
}

// -- Projections ---------------------------------------------------------------

/// A linear layer: one row of weights per output, and perhaps a bias.
#[derive(Debug)]
pub struct Dense<T> {
    pub weight: Matrix<T>,
    pub bias: Option<Vec<T>>,
}

impl<T> Dense<T> {
    /// Whether the weights are as many as their shape says, and the bias as
    /// long as there are outputs.
    pub open spec fn wf(&self) -> bool {
        self.weight.wf() && match self.bias {
            Some(bias) => bias@.len() == self.weight.rows,
            None => true,
        }
    }
}

/// A list whose first `k` entries were put behind the others.
pub open spec fn rotated<T>(list: Seq<T>, k: int) -> Seq<T> {
    list.skip(k) + list.take(k)
}

fn rotate<T: Copy>(list: &Vec<T>, k: usize) -> (turned: Vec<T>)
    requires
        k <= list@.len(),
    ensures
        turned@ == rotated(list@, k as int),
{
    let mut turned = copy_range(list, k, list.len());
    let mut head = copy_range(list, 0, k);
    turned.append(&mut head);
    assert(turned@ =~= rotated(list@, k as int));
    turned
}

/// Puts the second half of a projection's outputs first, which is how one
/// spelling's scale and shift becomes the other's shift and scale.
pub fn swap_halves<T: Copy>(layer: &Dense<T>) -> (swapped: Dense<T>)
    requires
        layer.wf(),
    ensures
        swapped.wf(),
        swapped.weight.rows == layer.weight.rows,
        swapped.weight.cols == layer.weight.cols,
        swapped.weight.data@ == rotated(
            layer.weight.data@,
            (layer.weight.rows / 2) * layer.weight.cols,
        ),
        swapped.bias is Some <==> layer.bias is Some,
        layer.bias is Some ==> swapped.bias->Some_0@ == rotated(
            layer.bias->Some_0@,
            (layer.weight.rows / 2) as int,
        ),
{
    let half: usize = layer.weight.rows / 2;
    let total: usize = layer.weight.data.len();
    proof {
        let (h, n, c) = (half as int, layer.weight.rows as int, layer.weight.cols as int);
        assert(0 <= h * c <= n * c) by (nonlinear_arith)
            requires
                0 <= h <= n,
                0 <= c,
        ;
    }
    let data = rotate(&layer.weight.data, half * layer.weight.cols);
    let bias = match &layer.bias {
        Some(bias) => Some(rotate(bias, half)),
        None => None,
    };
    Dense { weight: Matrix { rows: layer.weight.rows, cols: layer.weight.cols, data }, bias }
}

/// Swapping the halves of an even number of outputs twice changes nothing.
pub proof fn law_swap_twice<T>(list: Seq<T>, half: int)
    requires
        list.len() == 2 * half,
    ensures
        rotated(rotated(list, half), half) == list,
{
    assert(rotated(rotated(list, half), half) =~= list);
}

/// The outputs of the first `k` layers.
pub open spec fn stacked_rows<T>(parts: Seq<Dense<T>>, k: int) -> int
    decreases k,
{
    if k <= 0 {
        0
    } else {
        stacked_rows(parts, k - 1) + parts[k - 1].weight.rows
    }
}

/// The weights of the first `k` layers, one after another.
pub open spec fn stacked_data<T>(parts: Seq<Dense<T>>, k: int) -> Seq<T>
    decreases k,
{
    if k <= 0 {
        Seq::empty()
    } else {
        stacked_data(parts, k - 1) + parts[k - 1].weight.data@
    }
}

/// The biases of the first `k` layers, one after another, zeros for a layer
/// without one.
pub open spec fn stacked_bias<T>(parts: Seq<Dense<T>>, zero: T, k: int) -> Seq<T>
    decreases k,
{
    if k <= 0 {
        Seq::empty()
    } else {
        stacked_bias(parts, zero, k - 1) + match parts[k - 1].bias {
            Some(bias) => bias@,
            None => Seq::new(parts[k - 1].weight.rows as nat, |i: int| zero),
        }
    }
}

/// Whether some layer reads another width than the first.
pub open spec fn disagrees<T>(parts: Seq<Dense<T>>) -> bool {
    exists|i: int|
        0 <= i < parts.len() && (#[trigger] parts[i]).weight.cols != parts[0].weight.cols
}

/// Whether some layer has a bias.
pub open spec fn has_bias<T>(parts: Seq<Dense<T>>) -> bool {
    exists|i: int| 0 <= i < parts.len() && (#[trigger] parts[i]).bias is Some
}

/// Several projections of the same input, as the one wider projection they add
/// up to. `base` and `names` say which ones they are, should they disagree.
pub fn stacked<T: Copy>(parts: &Vec<Dense<T>>, base: &str, names: &str, zero: T) -> (layer: Result<
    Dense<T>,
    NetworkError,
>)
    requires
        parts@.len() > 0,
        forall|i: int| 0 <= i < parts@.len() ==> (#[trigger] parts@[i]).wf(),
        stacked_rows(parts@, parts@.len() as int) <= usize::MAX,
    ensures
        match layer {
            Ok(layer) => {
                &&& !disagrees(parts@)
                &&& layer.wf()
                &&& layer.weight.cols == parts@[0].weight.cols
                &&& layer.weight.rows == stacked_rows(parts@, parts@.len() as int)
                &&& layer.weight.data@ == stacked_data(parts@, parts@.len() as int)
                &&& layer.bias is Some <==> has_bias(parts@)
                &&& layer.bias is Some ==> layer.bias->Some_0@ == stacked_bias(
                    parts@,
                    zero,
                    parts@.len() as int,
                )
            },
            Err(error) => disagrees(parts@) && error@ == Fault::InvalidConfig(
                base@ + ": the projections "@ + names@
                    + " read the same input but disagree about its width"@,
            ),
        },
{
    let width: usize = parts[0].weight.cols;
    let count: usize = parts.len();
    let mut any: bool = false;
    let mut i: usize = 0;
    while i < count
        invariant
            i <= count == parts@.len(),
            width == parts@[0].weight.cols,
            forall|k: int| 0 <= k < i ==> (#[trigger] parts@[k]).weight.cols == width,
            any <==> exists|k: int| 0 <= k < i && (#[trigger] parts@[k]).bias is Some,
        decreases count - i,
    {
        if parts[i].weight.cols != width {
            assert(parts@[i as int].weight.cols != parts@[0].weight.cols);
            let first = with_text(base, ": the projections ", names);
            let message = with_text(
                first.as_str(),
                " read the same input but disagree about its width",
                "",
            );
            proof {
                reveal_strlit("");
                assert(message@ =~= base@ + ": the projections "@ + names@
                    + " read the same input but disagree about its width"@);
            }
            return Err(NetworkError::InvalidConfig(message));
        }
        if parts[i].bias.is_some() {
            any = true;
        }
        i = i + 1;
    }
    let mut data: Vec<T> = Vec::new();
    let mut bias: Vec<T> = Vec::new();
    let mut rows: usize = 0;
    let mut i: usize = 0;
    assert(0 * width == 0);
    while i < count
        invariant
            i <= count == parts@.len(),
            forall|k: int| 0 <= k < parts@.len() ==> (#[trigger] parts@[k]).wf(),
            forall|k: int| 0 <= k < count ==> (#[trigger] parts@[k]).weight.cols == width,
            stacked_rows(parts@, count as int) <= usize::MAX,
            rows == stacked_rows(parts@, i as int),
            data@ == stacked_data(parts@, i as int),
            data@.len() == rows * width,
            bias@ == stacked_bias(parts@, zero, i as int),
            bias@.len() == rows,
        decreases count - i,
    {
        let part = &parts[i];
        proof {
            lemma_rows_grow(parts@, i + 1, count as int);
            assert((rows + part.weight.rows) * width == rows * width + part.weight.rows * width)
                by (nonlinear_arith);
        }
        let mut weights = copy_of(&part.weight.data);
        data.append(&mut weights);
        match &part.bias {
            Some(values) => {
                let mut values = copy_of(values);
                bias.append(&mut values);
            },
            None => {
                let ghost before = bias@;
                let mut k: usize = 0;
                assert(before =~= before + Seq::new(0, |i: int| zero));
                while k < part.weight.rows
                    invariant
                        k <= part.weight.rows,
                        bias@ == before + Seq::new(k as nat, |i: int| zero),
                    decreases part.weight.rows - k,
                {
                    bias.push(zero);
                    k = k + 1;
                    assert(bias@ =~= before + Seq::new(k as nat, |i: int| zero));
                }
            },
        }
        rows = rows + part.weight.rows;
        i = i + 1;
    }
    Ok(
        Dense {
            weight: Matrix { rows, cols: width, data },
            bias: if any {
                Some(bias)
            } else {
                None
            },
        },
    )
}

proof fn lemma_rows_grow<T>(parts: Seq<Dense<T>>, k: int, m: int)
    requires
        0 <= k <= m,
    ensures
        stacked_rows(parts, k) <= stacked_rows(parts, m),
    decreases m - k,
{
    if k < m {
        lemma_rows_grow(parts, k, m - 1);
    }
}

/// A projection that was cut into runs of its rows is the stack of the pieces:
/// the two published spellings of a checkpoint are the same model.
pub proof fn law_pieces_stack_to_the_whole<T>(
    whole: Seq<T>,
    parts: Seq<Dense<T>>,
    width: int,
    k: int,
)
    requires
        0 <= k <= parts.len(),
        forall|i: int|
            0 <= i < parts.len() ==> is_piece(
                whole,
                width,
                stacked_rows(parts, i),
                #[trigger] parts[i],
            ),
    ensures
        0 <= stacked_rows(parts, k),
        k > 0 ==> stacked_rows(parts, k) * width <= whole.len(),
        stacked_rows(parts, k) * width <= whole.len() ==> stacked_data(parts, k) == whole.take(
            stacked_rows(parts, k) * width,
        ),
    decreases k,
{
    if k > 0 {
        law_pieces_stack_to_the_whole(whole, parts, width, k - 1);
        let part = parts[k - 1];
        let rows = stacked_rows(parts, k - 1);
        assert(is_piece(whole, width, rows, part));
        assert((rows + part.weight.rows) * width == rows * width + part.weight.rows * width)
            by (nonlinear_arith);
        assert(0 <= part.weight.rows * width && 0 <= rows * width) by (nonlinear_arith)
            requires
                0 <= width,
                0 <= rows,
        ;
        assert(stacked_data(parts, k) =~= whole.take(stacked_rows(parts, k) * width));
    } else {
        assert(0 * width == 0);
        assert(stacked_data(parts, 0) =~= whole.take(0));
    }
}

/// Whether a layer's weights are the rows of a larger one, from a row on.
pub open spec fn is_piece<T>(whole: Seq<T>, width: int, from: int, part: Dense<T>) -> bool {
    &&& 0 <= width
    &&& 0 <= from
    &&& (from + part.weight.rows) * width <= whole.len()
    &&& part.weight.data@ == whole.subrange(from * width, (from + part.weight.rows) * width)
}

// -- Attention -----------------------------------------------------------------

/// What one head reads and writes for one query: where its query starts, where
/// its first key and value start, how many of those it sees, and where its
/// result goes.
#[derive(Clone, Copy, Debug, PartialEq, Eq, Structural)]
pub struct Look {
    pub query: usize,
    pub keys: usize,
    pub visible: usize,
    pub target: usize,
}

/// The look of a head for a query. Query heads of a group share a key head; a
/// causal query sees the keys up to its own.
pub open spec fn look(
    context: int,
    query_width: int,
    head_dim: int,
    group: int,
    causal: bool,
    head: int,
    token: int,
) -> Look {
    Look {
        query: (token * query_width + head * head_dim) as usize,
        keys: (head / group * head_dim) as usize,
        visible: if causal {
            (token + 1) as usize
        } else {
            context as usize
        },
        target: (token * query_width + head * head_dim) as usize,
    }
}

/// Whether an attention over one sequence, or from one to another, has a shape
/// it can have.
pub open spec fn is_attention(
    tokens: int,
    context: int,
    query_width: int,
    kv_width: int,
    heads: int,
    kv_heads: int,
    causal: bool,
) -> bool {
    let kv = if kv_heads == 0 {
        1
    } else {
        kv_heads
    };
    &&& heads > 0
    &&& heads % kv == 0
    &&& kv * (query_width / heads) <= kv_width
    &&& tokens * query_width <= usize::MAX
    &&& context * kv_width <= usize::MAX
    &&& causal ==> tokens <= context
}

/// The looks of every head, query by query.
pub fn attention(
    tokens: usize,
    context: usize,
    query_width: usize,
    kv_width: usize,
    heads: usize,
    kv_heads: usize,
    causal: bool,
) -> (looks: Vec<Look>)
    requires
        is_attention(
            tokens as int,
            context as int,
            query_width as int,
            kv_width as int,
            heads as int,
            kv_heads as int,
            causal,
        ),
        heads * tokens <= usize::MAX,
    ensures
        looks@.len() == heads * tokens,
        forall|head: int, token: int|
            0 <= head < heads && 0 <= token < tokens ==> looks@[#[trigger] entry(
                tokens as int,
                head,
                token,
            )] == look(
                context as int,
                query_width as int,
                (query_width as int / heads as int),
                (heads as int / (if kv_heads == 0 {
                    1
                } else {
                    kv_heads as int
                })),
                causal,
                head,
                token,
            ),
{
    let kv: usize = if kv_heads == 0 {
        1
    } else {
        kv_heads
    };
    let head_dim: usize = query_width / heads;
    let group: usize = heads / kv;
    proof {
        lemma_attention(query_width as int, heads as int, kv as int);
    }
    let mut looks: Vec<Look> = Vec::new();
    let mut head: usize = 0;
    assert(0 * tokens == 0);
    while head < heads
        invariant
            head <= heads,
            group > 0,
            head_dim == query_width as int / heads as int,
            group == heads as int / kv as int,
            heads * head_dim <= query_width,
            is_attention(
                tokens as int,
                context as int,
                query_width as int,
                kv_width as int,
                heads as int,
                kv_heads as int,
                causal,
            ),
            looks@.len() == head * tokens,
            forall|h: int, t: int|
                0 <= h < head && 0 <= t < tokens ==> looks@[#[trigger] entry(tokens as int, h, t)]
                    == look(
                    context as int,
                    query_width as int,
                    head_dim as int,
                    group as int,
                    causal,
                    h,
                    t,
                ),
        decreases heads - head,
    {
        let mut token: usize = 0;
        while token < tokens
            invariant
                token <= tokens,
                head < heads,
                group > 0,
                heads * head_dim <= query_width,
                is_attention(
                    tokens as int,
                    context as int,
                    query_width as int,
                    kv_width as int,
                    heads as int,
                    kv_heads as int,
                    causal,
                ),
                looks@.len() == head * tokens + token,
                forall|h: int, t: int|
                    (0 <= h < head && 0 <= t < tokens) || (h == head && 0 <= t < token) ==> looks@[
                    #[trigger] entry(tokens as int, h, t)] == look(
                        context as int,
                        query_width as int,
                        head_dim as int,
                        group as int,
                        causal,
                        h,
                        t,
                    ),
            decreases tokens - token,
        {
            proof {
                let (h, t, n, w, d, g) = (
                    head as int,
                    token as int,
                    tokens as int,
                    query_width as int,
                    head_dim as int,
                    group as int,
                );
                assert(0 <= h * d && h * d + d <= heads * d) by (nonlinear_arith)
                    requires
                        0 <= h < heads,
                        0 <= d,
                ;
                assert(0 <= t * w && t * w + w <= n * w) by (nonlinear_arith)
                    requires
                        0 <= t < n,
                        0 <= w,
                ;
                assert(0 <= h / g <= h) by (nonlinear_arith)
                    requires
                        0 <= h,
                        g > 0,
                ;
                assert(0 <= h / g * d <= h * d) by (nonlinear_arith)
                    requires
                        0 <= h / g <= h,
                        0 <= d,
                ;
            }
            let query: usize = token * query_width + head * head_dim;
            let found = Look {
                query,
                keys: head / group * head_dim,
                visible: if causal {
                    token + 1
                } else {
                    context
                },
                target: query,
            };
            let ghost before = looks@;
            looks.push(found);
            proof {
                assert forall|h: int, t: int|
                    (0 <= h < head && 0 <= t < tokens) || (h == head && 0 <= t < token + 1) implies looks@[
                #[trigger] entry(tokens as int, h, t)] == look(
                    context as int,
                    query_width as int,
                    head_dim as int,
                    group as int,
                    causal,
                    h,
                    t,
                ) by {
                    if h < head {
                        lemma_entry(head as int, tokens as int, h, t);
                        assert(looks@[entry(tokens as int, h, t)] == before[entry(
                            tokens as int,
                            h,
                            t,
                        )]);
                    } else if t < token {
                        assert(looks@[entry(tokens as int, h, t)] == before[entry(
                            tokens as int,
                            h,
                            t,
                        )]);
                    } else {
                        assert(looks@[entry(tokens as int, h, t)] == found);
                    }
                }
            }
            token = token + 1;
        }
        assert((head + 1) * tokens == head * tokens + tokens) by (nonlinear_arith);
        head = head + 1;
    }
    looks
}

proof fn lemma_attention(width: int, heads: int, kv: int)
    requires
        0 <= width,
        0 < heads,
        0 < kv,
        heads % kv == 0,
    ensures
        heads * (width / heads) <= width,
        heads / kv > 0,
        heads == kv * (heads / kv),
{
    vstd::arithmetic::div_mod::lemma_fundamental_div_mod(width, heads);
    vstd::arithmetic::div_mod::lemma_fundamental_div_mod(heads, kv);
    let g = heads / kv;
    assert(g > 0) by (nonlinear_arith)
        requires
            heads == kv * g + 0,
            heads > 0,
            kv > 0,
    ;
}

/// A look stays inside its matrices: the query and the target lie within a row
/// of the queries, and every key it sees within a row of the keys.
pub proof fn law_looks_stay_inside(
    tokens: int,
    context: int,
    query_width: int,
    kv_width: int,
    heads: int,
    kv_heads: int,
    causal: bool,
    head: int,
    token: int,
    key: int,
)
    requires
        0 < kv_heads,
        0 <= query_width,
        0 <= kv_width,
        is_attention(tokens, context, query_width, kv_width, heads, kv_heads, causal),
        0 <= head < heads,
        0 <= token < tokens <= usize::MAX,
        0 <= context <= usize::MAX,
        0 <= key < look(
            context,
            query_width,
            query_width / heads,
            heads / kv_heads,
            causal,
            head,
            token,
        ).visible,
    ensures
        ({
            let d = query_width / heads;
            let found = look(context, query_width, d, heads / kv_heads, causal, head, token);
            &&& found.query + d <= tokens * query_width
            &&& found.target == found.query
            &&& key < context
            &&& found.keys + key * kv_width + d <= context * kv_width
        }),
{
    lemma_attention(query_width, heads, kv_heads);
    let d = query_width / heads;
    let g = heads / kv_heads;
    assert(0 <= d) by (nonlinear_arith)
        requires
            d == query_width / heads,
            0 <= query_width,
            heads > 0,
    ;
    assert(0 <= head * d && head * d + d <= heads * d) by (nonlinear_arith)
        requires
            0 <= head < heads,
            0 <= d,
    ;
    assert(0 <= token * query_width && token * query_width + query_width <= tokens * query_width)
        by (nonlinear_arith)
        requires
            0 <= token < tokens,
            0 <= query_width,
    ;
    vstd::arithmetic::div_mod::lemma_fundamental_div_mod(head, g);
    let q = head / g;
    assert(0 <= q < kv_heads) by (nonlinear_arith)
        requires
            head == g * q + head % g,
            0 <= head % g < g,
            heads == kv_heads * g,
            0 <= head < heads,
    ;
    assert(0 <= q * d && q * d + d <= kv_heads * d) by (nonlinear_arith)
        requires
            0 <= q < kv_heads,
            0 <= d,
    ;
    assert(0 <= key * kv_width && key * kv_width + kv_width <= context * kv_width)
        by (nonlinear_arith)
        requires
            0 <= key < context,
            0 <= kv_width,
    ;
}

} // verus!
