//! What a list of steps computes, whatever the device makes of buffers.
//!
//! A [`Device`] says what kernels and products make of the values they are
//! handed. Running a list with it traces what each buffer holds back to what
//! the buffers held before, so that a pass can be compared with its formula.
use crate::device::{Buffer, Factor, Kernel, Kind, Product, Reads, Sizes, Span, Step, Tile};
use vstd::prelude::*;

verus! {

/// A part of a value, as a launch sees it.
pub ghost struct Part<V> {
    pub value: V,
    pub offset: int,
    pub len: int,
}

/// What a kernel reads.
pub ghost struct Args<V> {
    pub a: Option<Part<V>>,
    pub b: Option<Part<V>>,
    pub c: Option<Part<V>>,
    pub d: Option<Part<V>>,
    pub e: Option<Part<V>>,
}

/// A value in rows, as a product sees it, once per head and sequence.
pub ghost struct Rows<V> {
    pub value: V,
    pub offset: int,
    pub shift: int,
    pub shared: bool,
    pub stride: int,
    pub step: int,
}

/// What a product is: which operand is turned, by what it is multiplied,
/// whether it is added, its sizes, and for how many heads and sequences.
pub ghost struct Form {
    pub kind: Kind,
    pub factor: Factor,
    pub accumulate: bool,
    pub m: int,
    pub n: int,
    pub k: int,
    pub heads: int,
    pub group: int,
    pub sequences: int,
}

/// What a device makes of values.
#[verifier::reject_recursive_types(V)]
pub ghost struct Device<V> {
    /// A new buffer of a length.
    pub fresh: spec_fn(int) -> V,
    /// What the given one of the targets of a kernel holds after it: the
    /// kernel, the sizes it is told, what it reads, and the target before.
    pub kernel: spec_fn(Kernel, Sizes, Args<V>, int, Part<V>) -> V,
    /// What the target of a product holds after it, given its two operands
    /// and the target before.
    pub product: spec_fn(Form, Rows<V>, Rows<V>, Rows<V>) -> V,
    /// Gate and up weights of experts, one after another, in a buffer.
    pub experts: spec_fn(Seq<V>, Seq<V>, int, V) -> V,
}

/// What the buffers hold.
pub type Values<V> = Map<Buffer, V>;

/// A span of what a buffer holds.
pub open spec fn part<V>(values: Values<V>, span: Span) -> Part<V> {
    Part { value: values[span.buffer], offset: span.offset as int, len: span.len as int }
}

/// A span of what a buffer holds, where there is one.
pub open spec fn part_of<V>(values: Values<V>, span: Span) -> Option<Part<V>> {
    if span.buffer == Buffer::Nothing {
        None
    } else {
        Some(part(values, span))
    }
}

/// What a launch reads of what the buffers hold.
pub open spec fn args<V>(values: Values<V>, reads: Reads) -> Args<V> {
    Args {
        a: part_of(values, reads.a),
        b: part_of(values, reads.b),
        c: part_of(values, reads.c),
        d: part_of(values, reads.d),
        e: part_of(values, reads.e),
    }
}

/// A tile of what a buffer holds.
pub open spec fn rows<V>(values: Values<V>, tile: Tile) -> Rows<V> {
    Rows {
        value: values[tile.buffer],
        offset: tile.offset as int,
        shift: tile.shift as int,
        shared: tile.shared,
        stride: tile.stride as int,
        step: tile.step as int,
    }
}

/// What the buffers hold after a product.
pub open spec fn multiplied<V>(
    d: Device<V>,
    values: Values<V>,
    p: Product,
    heads: int,
    group: int,
    sequences: int,
) -> Values<V> {
    let form = Form {
        kind: p.kind,
        factor: p.factor,
        accumulate: p.accumulate,
        m: p.m as int,
        n: p.n as int,
        k: p.k as int,
        heads,
        group,
        sequences,
    };
    values.insert(
        p.out.buffer,
        (d.product)(form, rows(values, p.a), rows(values, p.b), rows(values, p.out)),
    )
}

/// What the buffers hold after two products, one after the other.
#[verifier::opaque]
pub open spec fn paired<V>(
    d: Device<V>,
    values: Values<V>,
    first: Product,
    second: Product,
    heads: int,
    group: int,
    sequences: int,
) -> Values<V> {
    multiplied(
        d,
        multiplied(d, values, first, heads, group, sequences),
        second,
        heads,
        group,
        sequences,
    )
}

/// What the buffers hold after the weights of experts were packed.
#[verifier::opaque]
pub open spec fn with_weights<V>(
    d: Device<V>,
    values: Values<V>,
    experts: int,
    weight: int,
    to: Buffer,
) -> Values<V> {
    values.insert(
        to,
        (d.experts)(
            Seq::new(experts as nat, |e: int| values[Buffer::ExpertGateWeight(e as usize)]),
            Seq::new(experts as nat, |e: int| values[Buffer::ExpertUpWeight(e as usize)]),
            weight,
            values[to],
        ),
    )
}

/// What the buffers hold after a step.
pub open spec fn done<V>(d: Device<V>, values: Values<V>, step: Step) -> Values<V> {
    match step {
        Step::Reserve(buffer, len) => values.insert(buffer, (d.fresh)(len as int)),
        Step::Launch(l) => {
            let read = args(values, l.reads);
            let first = values.insert(
                l.writes.a.buffer,
                (d.kernel)(l.kernel, l.sizes, read, 0, part(values, l.writes.a)),
            );
            if l.writes.b.buffer == Buffer::Nothing {
                first
            } else {
                first.insert(
                    l.writes.b.buffer,
                    (d.kernel)(l.kernel, l.sizes, read, 1, part(values, l.writes.b)),
                )
            }
        },
        Step::Heads { heads, group, sequences, product } => multiplied(
            d,
            values,
            product,
            heads as int,
            group as int,
            sequences as int,
        ),
        Step::HeadPairs { heads, group, sequences, first, second } => paired(
            d,
            values,
            first,
            second,
            heads as int,
            group as int,
            sequences as int,
        ),
        Step::Append(product) => multiplied(d, values, product, 1, 1, 1),
        Step::PackExperts { experts, weight, to, len } => with_weights(
            d,
            values,
            experts as int,
            weight as int,
            to,
        ),
    }
}

/// What the buffers hold after the first `k` steps.
pub open spec fn run_to<V>(d: Device<V>, values: Values<V>, steps: Seq<Step>, k: int) -> Values<V>
    decreases k,
{
    if k <= 0 {
        values
    } else {
        done(d, run_to(d, values, steps, k - 1), steps[k - 1])
    }
}

/// What the buffers hold after some steps.
pub open spec fn run<V>(d: Device<V>, values: Values<V>, steps: Seq<Step>) -> Values<V> {
    run_to(d, values, steps, steps.len() as int)
}

proof fn lemma_prefix<V>(
    d: Device<V>,
    values: Values<V>,
    first: Seq<Step>,
    second: Seq<Step>,
    k: int,
)
    requires
        0 <= k <= first.len(),
    ensures
        run_to(d, values, first + second, k) == run_to(d, values, first, k),
    decreases k,
{
    if k > 0 {
        lemma_prefix(d, values, first, second, k - 1);
    }
}

proof fn lemma_suffix<V>(
    d: Device<V>,
    values: Values<V>,
    first: Seq<Step>,
    second: Seq<Step>,
    k: int,
)
    requires
        0 <= k <= second.len(),
    ensures
        run_to(d, values, first + second, first.len() + k) == run_to(
            d,
            run(d, values, first),
            second,
            k,
        ),
    decreases k,
{
    if k > 0 {
        lemma_suffix(d, values, first, second, k - 1);
        assert((first + second)[first.len() + k - 1] == second[k - 1]);
    } else {
        lemma_prefix(d, values, first, second, first.len() as int);
    }
}

/// Two lists run one after the other.
pub proof fn lemma_both<V>(d: Device<V>, values: Values<V>, first: Seq<Step>, second: Seq<Step>)
    ensures
        run(d, values, first + second) == run(d, run(d, values, first), second),
{
    lemma_suffix(d, values, first, second, second.len() as int);
}

// -- The vocabulary of the formulas ----------------------------------------------

/// What a kernel makes of what it reads, in its first target.
pub open spec fn made<V>(d: Device<V>, kernel: Kernel, sizes: Sizes, read: Args<V>, to: Part<V>) -> V {
    (d.kernel)(kernel, sizes, read, 0, to)
}

/// What a kernel makes of what it reads, in its second target.
pub open spec fn also_made<V>(
    d: Device<V>,
    kernel: Kernel,
    sizes: Sizes,
    read: Args<V>,
    to: Part<V>,
) -> V {
    (d.kernel)(kernel, sizes, read, 1, to)
}

/// Nothing read.
pub open spec fn args0<V>() -> Args<V> {
    Args { a: None, b: None, c: None, d: None, e: None }
}

/// One part read.
pub open spec fn args1<V>(a: Part<V>) -> Args<V> {
    Args { a: Some(a), b: None, c: None, d: None, e: None }
}

/// Two parts read.
pub open spec fn args2<V>(a: Part<V>, b: Part<V>) -> Args<V> {
    Args { a: Some(a), b: Some(b), c: None, d: None, e: None }
}

/// Three parts read.
pub open spec fn args3<V>(a: Part<V>, b: Part<V>, c: Part<V>) -> Args<V> {
    Args { a: Some(a), b: Some(b), c: Some(c), d: None, e: None }
}

/// Four parts read.
pub open spec fn args4<V>(a: Part<V>, b: Part<V>, c: Part<V>, d: Part<V>) -> Args<V> {
    Args { a: Some(a), b: Some(b), c: Some(c), d: Some(d), e: None }
}

/// Five parts read.
pub open spec fn args5<V>(a: Part<V>, b: Part<V>, c: Part<V>, d: Part<V>, e: Part<V>) -> Args<V> {
    Args { a: Some(a), b: Some(b), c: Some(c), d: Some(d), e: Some(e) }
}

/// The first entries of a value.
pub open spec fn whole<V>(value: V, len: int) -> Part<V> {
    Part { value, offset: 0, len }
}

/// A whole new buffer.
pub open spec fn new_part<V>(d: Device<V>, len: int) -> Part<V> {
    whole((d.fresh)(len), len)
}

/// Rows and columns, and no other size.
pub open spec fn size(rows: int, cols: int) -> Sizes {
    Sizes {
        rows: rows as usize,
        cols: cols as usize,
        heads: 0,
        head_dim: 0,
        length: 0,
        width: 0,
        base: 0,
    }
}

/// A value as rows that start at an offset.
pub open spec fn matrix_at<V>(value: V, offset: int, stride: int) -> Rows<V> {
    Rows { value, offset, shift: 0, shared: false, stride, step: 0 }
}

/// A value as rows.
pub open spec fn matrix<V>(value: V, stride: int) -> Rows<V> {
    matrix_at(value, 0, stride)
}

/// The form of a product of three whole values.
pub open spec fn plain_form(kind: Kind, factor: Factor, add: bool, m: int, n: int, k: int) -> Form {
    Form { kind, factor, accumulate: add, m, n, k, heads: 1, group: 1, sequences: 1 }
}

/// A linear layer: `m` rows of `k` features through a weight of `n` rows of
/// `k`, in a new buffer.
pub open spec fn linear<V>(d: Device<V>, x: V, weight: V, m: int, n: int, k: int) -> V {
    (d.product)(
        plain_form(Kind::RhsTransposed, Factor::One, false, m, n, k),
        matrix(x, k),
        matrix(weight, k),
        matrix((d.fresh)(m * n), n),
    )
}

/// A linear layer added to what there is.
pub open spec fn with_linear<V>(
    d: Device<V>,
    to: V,
    x: V,
    weight: V,
    m: int,
    n: int,
    k: int,
) -> V {
    (d.product)(
        plain_form(Kind::RhsTransposed, Factor::One, true, m, n, k),
        matrix(x, k),
        matrix(weight, k),
        matrix(to, n),
    )
}

/// The gradient of a linear layer's input, in a given buffer: `m` rows of `k`
/// features back through a weight of `k` rows of `n`.
pub open spec fn input_gradient<V>(
    d: Device<V>,
    to: V,
    add: bool,
    upstream: V,
    weight: V,
    m: int,
    n: int,
    k: int,
) -> V {
    (d.product)(
        plain_form(Kind::Plain, Factor::One, add, m, n, k),
        matrix(upstream, k),
        matrix(weight, n),
        matrix(to, n),
    )
}

/// The gradient of a linear layer's weight, as the optimizer expects it, in a
/// given buffer: what `k` rows of `m` outputs and `n` inputs give a weight.
pub open spec fn weight_step<V>(
    d: Device<V>,
    to: V,
    add: bool,
    upstream: V,
    x: V,
    m: int,
    n: int,
    k: int,
) -> V {
    (d.product)(
        plain_form(Kind::LhsTransposed, Factor::MinusOne, add, m, n, k),
        matrix(upstream, m),
        matrix(x, n),
        matrix(to, n),
    )
}

/// A cleared value.
pub open spec fn zeros<V>(d: Device<V>, len: int) -> V {
    made(d, Kernel::Clear, size(1, len), args0(), new_part(d, len))
}

/// Part of one value added to another.
pub open spec fn with_part<V>(d: Device<V>, to: V, value: V, offset: int, len: int) -> V {
    made(
        d,
        Kernel::Add,
        Sizes { base: offset as usize, ..size(1, len) },
        args2(Part { value, offset, len }, whole(to, len)),
        whole(to, len),
    )
}

/// Rows brought to unit length and scaled by a weight.
pub open spec fn normalized<V>(d: Device<V>, x: V, weight: V, rows: int, cols: int) -> V {
    made(
        d,
        Kernel::RmsNorm,
        size(rows, cols),
        args2(whole(x, rows * cols), whole(weight, cols)),
        new_part(d, rows * cols),
    )
}

/// The inverse lengths of rows.
pub open spec fn inverse_lengths<V>(d: Device<V>, x: V, weight: V, rows: int, cols: int) -> V {
    also_made(
        d,
        Kernel::RmsNorm,
        size(rows, cols),
        args2(whole(x, rows * cols), whole(weight, cols)),
        new_part(d, rows),
    )
}

/// A copy of a value.
pub open spec fn copied<V>(d: Device<V>, x: V, len: int) -> V {
    made(d, Kernel::Copy, size(1, len), args1(whole(x, len)), new_part(d, len))
}

/// Three weights one after another.
pub open spec fn packed3<V>(d: Device<V>, a: V, b: V, c: V, first: int, second: int, third: int) -> V {
    made(
        d,
        Kernel::Pack,
        size(1, first + second + third),
        args3(whole(a, first), whole(b, second), whole(c, third)),
        new_part(d, first + second + third),
    )
}

/// Two weights one after another.
pub open spec fn packed2<V>(d: Device<V>, a: V, b: V, first: int, second: int) -> V {
    made(
        d,
        Kernel::Pack,
        size(1, first + second),
        args2(whole(a, first), whole(b, second)),
        new_part(d, first + second),
    )
}

} // verus!
