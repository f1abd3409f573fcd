//! What a device is asked to do, as data: reserve a buffer, launch a kernel,
//! run the products of the heads of an attention.
//!
//! A pass over a layer is a list of steps. Lists are built before anything
//! runs, so what a list reads and writes can be reasoned about: [`runs`] says
//! that every step stays inside its buffers and reads nothing that was not
//! written before.
use vstd::prelude::*;

verus! {

/// A buffer on the device. Those of a pass are told apart by what they hold.
#[derive(Clone, Copy, Debug, PartialEq, Eq, Structural)]
pub enum Buffer {
    /// None: the span or tile is not used.
    Nothing,
    /// What a pass reads, and where its result goes.
    Input,
    Output,
    GradInput,
    GradOutput,
    /// Normalization: the scale, one inverse norm per row, the normalized
    /// rows, and the gradients of all scales together.
    NormWeight,
    InverseNorm,
    Normed,
    GradNorms,
    GradNormed,
    /// The residual stream after the attention, and its gradient.
    Residual,
    GradResidual,
    /// The second normalization of a block.
    FeedForwardWeight,
    FeedForwardInverse,
    FeedForwardNormed,
    GradFeedForward,
    /// Attention: packed projections, their weights, their gradients.
    Query,
    Key,
    Value,
    QueryWeight,
    KeyWeight,
    ValueWeight,
    QueryGrad,
    KeyGrad,
    ValueGrad,
    OutputWeight,
    OutputGrad,
    PackedWeights,
    PackedOutput,
    InputCopy,
    KeysCopy,
    GradOutputCopy,
    Projections,
    GradProjections,
    Probabilities,
    GradScores,
    LogSumExp,
    Merged,
    GradMerged,
    Delta,
    Scratch,
    /// Cross-attention: the keys' input, and the packed keys and values.
    KeysInput,
    GradKeysInput,
    PackedKeyWeights,
    KeysValues,
    GradKeysValues,
    GradQueries,
    /// A gated feed-forward: the packed gate and up projections, what they
    /// make, and the product that goes down.
    GateWeight,
    UpWeight,
    DownWeight,
    GateGrad,
    UpGrad,
    DownGrad,
    GateUpWeights,
    GateUp,
    GradGateUp,
    Hidden,
    GradHidden,
    /// A routed feed-forward.
    RouterWeight,
    RouterGrad,
    RouterLogits,
    RouterProbabilities,
    RouterLogSumExp,
    ExpertOf,
    GateOf,
    Valid,
    TokenOf,
    SlotOf,
    Gates,
    Gathered,
    ExpertOutput,
    GradExpertOutput,
    GradExpertInput,
    GradGates,
    GradRouterProbabilities,
    GradRouterLogits,
    Loads,
    Sums,
    ExpertWeights,
    ExpertGateUp,
    ExpertHidden,
    GradExpertGateUp,
    GradExpertHidden,
    ExpertGateWeight(usize),
    ExpertUpWeight(usize),
    ExpertDownWeight(usize),
    ExpertGateGrad(usize),
    ExpertUpGrad(usize),
    ExpertDownGrad(usize),
    /// The head of a language model.
    HeadWeight,
    HeadGrad,
    Logits,
    Targets,
    Loss,
    GradFinal,
    FinalOutput,
    /// The head at a narrower precision.
    NarrowWeight,
    NarrowWeightGrad,
    NarrowInput,
    NarrowLogits,
    NarrowGradInput,
    /// Adaptive normalization: the conditioning of every sub-layer, and its
    /// gradient.
    Triples,
    GradTriples,
    Tokens,
    GradTokens,
    /// The sub-layers of a block: what entered, its normalization, what that
    /// was modulated to, and what the branch made of it.
    Stream(usize),
    SubWeight(usize),
    SubInverse(usize),
    SubNormed(usize),
    SubModulated(usize),
    SubBranch(usize),
    GradStream(usize),
    GradSubNormed(usize),
    GradSubModulated(usize),
    GradSubBranch(usize),
    GradKeys(usize),
    /// An autoencoder of shapes: point features, queries, latents, its
    /// projections, and what its decoder reads distances and colours off.
    Features,
    Queries,
    Latent,
    GradLatent,
    LatentRows,
    GradLatentRows,
    SurfaceWeight,
    SurfaceGrad,
    MomentsWeight,
    MomentsGrad,
    Moments,
    GradMoments,
    LatentWeight,
    LatentWeightGrad,
    PointWeight,
    PointGrad,
    DistanceWeight,
    DistanceGrad,
    Distances,
    GradDistances,
    ColorWeight,
    ColorGrad,
    Colors,
    GradColors,
    FromColors,
    /// The embedding table and what a model gathers from it.
    Ids,
    Table,
    TableGrad,
    FinalInput,
    FinalWeight,
    FinalInverse,
}

/// What a launch runs.
#[derive(Clone, Copy, Debug, PartialEq, Eq, Structural)]
pub enum Kernel {
    Clear,
    Copy,
    Pack,
    RmsNorm,
    RmsNormBackward,
    Rope,
    RopeBackward,
    CausalSoftmaxLse,
    CausalProbsFromLse,
    CausalSoftmaxBackward,
    SoftmaxLse,
    ProbsFromLse,
    SoftmaxBackward,
    FusedAttention,
    FusedDelta,
    FusedGradients,
    SwiGlu,
    SwiGluBackward,
    RouterSoftmax,
    TopKGate,
    Gather,
    GatherScaled,
    ScatterScaled,
    Scatter,
    ScatterNegated,
    RowDot,
    Stats,
    GradProbabilities,
    AuxGrad,
    GradLogits,
    Add,
    CrossEntropy,
    /// Between single precision and a narrower one.
    Narrow,
    Widen,
    AddWidened,
    Modulate,
    ModulateBackward,
    GateResidual,
    GateResidualBackward,
    /// A masked softmax on the host, between a download and an upload.
    HostSoftmax,
    /// A whole cross-attention, and its backward pass.
    Attention,
    AttentionBackward,
    /// A whole gated feed-forward, and its backward pass.
    FeedForward,
    FeedForwardBackward,
}

/// A run of entries of a buffer.
#[derive(Clone, Copy, Debug, PartialEq, Eq, Structural)]
pub struct Span {
    pub buffer: Buffer,
    pub offset: usize,
    pub len: usize,
}

/// A kernel launch: what it runs over how many threads, the sizes it is told,
/// and the spans it reads and writes. A span it updates is in both lists.
#[derive(Clone, Copy, Debug, PartialEq, Eq, Structural)]
pub struct Launch {
    pub kernel: Kernel,
    pub grid: Grid,
    pub sizes: Sizes,
    pub reads: Reads,
    pub writes: Writes,
}

/// What a launch reads.
#[derive(Clone, Copy, Debug, PartialEq, Eq, Structural)]
pub struct Reads {
    pub a: Span,
    pub b: Span,
    pub c: Span,
    pub d: Span,
    pub e: Span,
}

/// What a launch writes.
#[derive(Clone, Copy, Debug, PartialEq, Eq, Structural)]
pub struct Writes {
    pub a: Span,
    pub b: Span,
}

/// The sizes a kernel is told.
#[derive(Clone, Copy, Debug, PartialEq, Eq, Structural)]
pub struct Sizes {
    pub rows: usize,
    pub cols: usize,
    pub heads: usize,
    pub head_dim: usize,
    pub length: usize,
    pub width: usize,
    pub base: usize,
}

/// How many threads a launch asks for.
#[derive(Clone, Copy, Debug, PartialEq, Eq, Structural)]
pub enum Grid {
    /// One thread for each of so many elements.
    Elements(usize),
    /// So many blocks of 256 threads, with so many bytes of shared memory.
    Blocks(u32, u32),
    /// A grid of tiles, heads and sequences.
    Tiles(usize, usize, usize),
}

/// What a product multiplies: which of its operands is transposed.
#[derive(Clone, Copy, Debug, PartialEq, Eq, Structural)]
pub enum Kind {
    /// `out[m, n] = a[m, k] * b[n, k]^T`.
    RhsTransposed,
    /// `out[m, n] = a[m, k] * b[k, n]`.
    Plain,
    /// `out[m, n] = a[k, m]^T * b[k, n]`.
    LhsTransposed,
}

/// What a product is multiplied by.
#[derive(Clone, Copy, Debug, PartialEq, Eq, Structural)]
pub enum Factor {
    One,
    /// The scale of the attention scores.
    Scale,
    MinusOne,
}

/// A rectangle of a buffer, once per sequence and per head: the rectangle of
/// head `h` starts `h` times `shift` further on, or `h / group` times where
/// the heads of a group share it.
#[derive(Clone, Copy, Debug, PartialEq, Eq, Structural)]
pub struct Tile {
    pub buffer: Buffer,
    pub offset: usize,
    pub shift: usize,
    pub shared: bool,
    /// From one row to the next.
    pub stride: usize,
    /// From one sequence to the next.
    pub step: usize,
}

/// A product of two tiles, written to a third, or added to it.
#[derive(Clone, Copy, Debug, PartialEq, Eq, Structural)]
pub struct Product {
    pub kind: Kind,
    pub factor: Factor,
    pub accumulate: bool,
    pub m: usize,
    pub n: usize,
    pub k: usize,
    pub a: Tile,
    pub b: Tile,
    pub out: Tile,
}

/// What a device is asked to do.
#[derive(Clone, Copy, Debug, PartialEq, Eq, Structural)]
pub enum Step {
    /// A new buffer, with nothing in it yet.
    Reserve(Buffer, usize),
    Launch(Launch),
    /// For each head in turn: a product for every sequence.
    Heads { heads: usize, group: usize, sequences: usize, product: Product },
    /// For each head in turn: two products, each for every sequence.
    HeadPairs { heads: usize, group: usize, sequences: usize, first: Product, second: Product },
    /// A product whose rows follow those that were written before.
    Append(Product),
    /// Gate and up weights of every expert, one after another: so many
    /// experts, and so many entries for each of their two weights.
    PackExperts { experts: usize, weight: usize, to: Buffer, len: usize },
}

// -- What a step reads and writes ----------------------------------------------

/// The buffers there are, how long each is, which have been written in full,
/// and how far the others have been written from their start on.
pub ghost struct Memory {
    pub lens: Map<Buffer, int>,
    pub full: Set<Buffer>,
    pub prefix: Map<Buffer, int>,
}

impl Memory {
    /// Whether a buffer of the given length has been written in full.
    pub open spec fn holds(self, buffer: Buffer, len: int) -> bool {
        self.lens.dom().contains(buffer) && self.lens[buffer] == len && self.full.contains(buffer)
    }
}

impl Tile {
    /// Where entry `(r, c)` of sequence `s` and head `h` stands.
    pub open spec fn at(self, group: int, h: int, s: int, r: int, c: int) -> int {
        self.offset + (if self.shared {
            h / group
        } else {
            h
        }) * self.shift + s * self.step + r * self.stride + c
    }

    /// Whether the rectangles of all heads and sequences stay inside a buffer
    /// of the given length.
    pub open spec fn stays_within(
        self,
        heads: int,
        group: int,
        sequences: int,
        rows: int,
        cols: int,
        len: int,
    ) -> bool {
        forall|h: int, s: int, r: int, c: int|
            0 <= h < heads && 0 <= s < sequences && 0 <= r < rows && 0 <= c < cols ==> 0
                <= #[trigger] self.at(group, h, s, r, c) < len
    }

    /// Whether the rectangles of all heads and sequences together are a whole
    /// buffer of the given length.
    pub open spec fn fills(
        self,
        heads: int,
        group: int,
        sequences: int,
        rows: int,
        cols: int,
        len: int,
    ) -> bool {
        forall|i: int|
            0 <= i < len ==> #[trigger] self.reaches(heads, group, sequences, rows, cols, i)
    }

    /// Whether some rectangle has the given place.
    pub open spec fn reaches(
        self,
        heads: int,
        group: int,
        sequences: int,
        rows: int,
        cols: int,
        i: int,
    ) -> bool {
        exists|h: int, s: int, r: int, c: int|
            0 <= h < heads && 0 <= s < sequences && 0 <= r < rows && 0 <= c < cols
                && #[trigger] self.at(group, h, s, r, c) == i
    }
}

impl Product {
    pub open spec fn a_rows(self) -> int {
        match self.kind {
            Kind::LhsTransposed => self.k as int,
            _ => self.m as int,
        }
    }

    pub open spec fn a_cols(self) -> int {
        match self.kind {
            Kind::LhsTransposed => self.m as int,
            _ => self.k as int,
        }
    }

    pub open spec fn b_rows(self) -> int {
        match self.kind {
            Kind::RhsTransposed => self.n as int,
            _ => self.k as int,
        }
    }

    pub open spec fn b_cols(self) -> int {
        match self.kind {
            Kind::RhsTransposed => self.k as int,
            _ => self.n as int,
        }
    }

    /// Whether the product reads what is there, and leaves its target written
    /// in full.
    pub open spec fn is_safe(
        self,
        memory: Memory,
        heads: int,
        group: int,
        sequences: int,
    ) -> bool {
        let (a, b, out) = (self.a.buffer, self.b.buffer, self.out.buffer);
        &&& memory.lens.dom().contains(a) && memory.full.contains(a)
        &&& memory.lens.dom().contains(b) && memory.full.contains(b)
        &&& memory.lens.dom().contains(out)
        &&& out != a && out != b
        &&& self.a.stays_within(
            heads,
            group,
            sequences,
            self.a_rows(),
            self.a_cols(),
            memory.lens[a],
        )
        &&& self.b.stays_within(
            heads,
            group,
            sequences,
            self.b_rows(),
            self.b_cols(),
            memory.lens[b],
        )
        &&& self.out.stays_within(
            heads,
            group,
            sequences,
            self.m as int,
            self.n as int,
            memory.lens[out],
        )
        &&& memory.full.contains(out) || (!self.accumulate && self.out.fills(
            heads,
            group,
            sequences,
            self.m as int,
            self.n as int,
            memory.lens[out],
        ))
    }
}

impl Span {
    /// Whether the span is inside a buffer that has been written in full, or
    /// empty.
    pub open spec fn is_there(self, memory: Memory) -> bool {
        self.len == 0 || (memory.lens.dom().contains(
            self.buffer,
        ) && memory.full.contains(self.buffer) && self.offset + self.len <= memory.lens[self.buffer])
    }

    /// Whether writing the span leaves its buffer written in full.
    pub open spec fn is_complete(self, memory: Memory) -> bool {
        (self.buffer == Buffer::Nothing && self.len == 0) || (memory.lens.dom().contains(
            self.buffer,
        ) && self.offset + self.len <= memory.lens[self.buffer] && (memory.full.contains(self.buffer) || (self.offset == 0
            && self.len == memory.lens[self.buffer])))
    }
}

/// Whether a step reads only what is there and stays inside its buffers.
pub open spec fn is_safe(memory: Memory, step: Step) -> bool {
    match step {
        Step::Reserve(buffer, len) => buffer != Buffer::Nothing,
        Step::Launch(launch) => {
            &&& launch.reads.a.is_there(memory)
            &&& launch.reads.b.is_there(memory)
            &&& launch.reads.c.is_there(memory)
            &&& launch.reads.d.is_there(memory)
            &&& launch.reads.e.is_there(memory)
            &&& launch.writes.a.is_complete(memory)
            &&& launch.writes.b.is_complete(memory)
        },
        Step::Heads { heads, group, sequences, product } => product.is_safe(
            memory,
            heads as int,
            group as int,
            sequences as int,
        ),
        Step::HeadPairs { heads, group, sequences, first, second } => {
            &&& first.is_safe(memory, heads as int, group as int, sequences as int)
            &&& second.is_safe(memory, heads as int, group as int, sequences as int)
            &&& second.a.buffer != first.out.buffer
            &&& second.b.buffer != first.out.buffer
            &&& first.a.buffer != second.out.buffer
            &&& first.b.buffer != second.out.buffer
        },
        Step::Append(product) => {
            let (a, b, out) = (product.a.buffer, product.b.buffer, product.out.buffer);
            &&& memory.lens.dom().contains(a) && memory.full.contains(a)
            &&& memory.lens.dom().contains(b) && memory.full.contains(b)
            &&& memory.lens.dom().contains(out) && memory.prefix.dom().contains(out)
            &&& out != a && out != b
            &&& !product.accumulate
            &&& product.a.stays_within(
                1,
                1,
                1,
                product.a_rows(),
                product.a_cols(),
                memory.lens[a],
            )
            &&& product.b.stays_within(
                1,
                1,
                1,
                product.b_rows(),
                product.b_cols(),
                memory.lens[b],
            )
            &&& product.out.stride == product.n
            &&& product.out.offset == memory.prefix[out]
            &&& product.out.offset + product.m * product.n <= memory.lens[out]
        },
        Step::PackExperts { experts, weight, to, len } => {
            &&& memory.lens.dom().contains(to)
            &&& memory.lens[to] == len
            &&& len == experts * (2 * weight)
            &&& forall|e: usize|
                e < experts ==> #[trigger] memory.holds(
                    Buffer::ExpertGateWeight(e),
                    weight as int,
                )
            &&& forall|e: usize|
                e < experts ==> #[trigger] memory.holds(Buffer::ExpertUpWeight(e), weight as int)
        },
    }
}

/// What a step leaves behind.
pub open spec fn after(memory: Memory, step: Step) -> Memory {
    match step {
        Step::Reserve(buffer, len) => Memory {
            lens: memory.lens.insert(buffer, len as int),
            full: memory.full.remove(buffer),
            prefix: memory.prefix.insert(buffer, 0),
        },
        Step::Launch(launch) => Memory {
            full: memory.full.insert(launch.writes.a.buffer).insert(launch.writes.b.buffer),
            ..memory
        },
        Step::Heads { heads, group, sequences, product } => Memory {
            full: memory.full.insert(product.out.buffer),
            ..memory
        },
        Step::HeadPairs { heads, group, sequences, first, second } => Memory {
            full: memory.full.insert(first.out.buffer).insert(second.out.buffer),
            ..memory
        },
        Step::Append(product) => {
            let end = product.out.offset + product.m * product.n;
            Memory {
                full: if end == memory.lens[product.out.buffer] {
                    memory.full.insert(product.out.buffer)
                } else {
                    memory.full
                },
                prefix: memory.prefix.insert(product.out.buffer, end),
                ..memory
            }
        },
        Step::PackExperts { experts, weight, to, len } => Memory {
            full: memory.full.insert(to),
            ..memory
        },
    }
}

/// What the first `k` steps leave behind.
pub open spec fn after_steps(memory: Memory, steps: Seq<Step>, k: int) -> Memory
    decreases k,
{
    if k <= 0 {
        memory
    } else {
        after(after_steps(memory, steps, k - 1), steps[k - 1])
    }
}

/// What all steps leave behind.
pub open spec fn after_all(memory: Memory, steps: Seq<Step>) -> Memory {
    after_steps(memory, steps, steps.len() as int)
}

/// Whether each of the first `k` steps reads only what is there, and stays
/// inside its buffers.
pub open spec fn runs_to(memory: Memory, steps: Seq<Step>, k: int) -> bool
    decreases k,
{
    k <= 0 || (runs_to(memory, steps, k - 1) && is_safe(
        after_steps(memory, steps, k - 1),
        steps[k - 1],
    ))
}

/// Whether every step reads only what is there, and stays inside its buffers.
pub open spec fn runs(memory: Memory, steps: Seq<Step>) -> bool {
    runs_to(memory, steps, steps.len() as int)
}

/// A span of a buffer.
#[verifier::allow_in_spec]
pub fn span(buffer: Buffer, offset: usize, len: usize) -> Span
    returns
        (Span { buffer, offset, len }),
{
    Span { buffer, offset, len }
}

/// The first entries of a buffer.
#[verifier::allow_in_spec]
pub fn start_of(buffer: Buffer, len: usize) -> Span
    returns
        (Span { buffer, offset: 0, len }),
{
    Span { buffer, offset: 0, len }
}

/// No span.
#[verifier::allow_in_spec]
pub fn nowhere() -> Span
    returns
        (Span { buffer: Buffer::Nothing, offset: 0, len: 0 }),
{
    Span { buffer: Buffer::Nothing, offset: 0, len: 0 }
}

/// Nothing read.
#[verifier::allow_in_spec]
pub fn reads0() -> Reads
    returns
        (Reads { a: nowhere(), b: nowhere(), c: nowhere(), d: nowhere(), e: nowhere() }),
{
    Reads { a: nowhere(), b: nowhere(), c: nowhere(), d: nowhere(), e: nowhere() }
}

/// One span read.
#[verifier::allow_in_spec]
pub fn reads1(a: Span) -> Reads
    returns
        (Reads { a, b: nowhere(), c: nowhere(), d: nowhere(), e: nowhere() }),
{
    Reads { a, b: nowhere(), c: nowhere(), d: nowhere(), e: nowhere() }
}

/// Two spans read.
#[verifier::allow_in_spec]
pub fn reads2(a: Span, b: Span) -> Reads
    returns
        (Reads { a, b, c: nowhere(), d: nowhere(), e: nowhere() }),
{
    Reads { a, b, c: nowhere(), d: nowhere(), e: nowhere() }
}

/// Three spans read.
#[verifier::allow_in_spec]
pub fn reads3(a: Span, b: Span, c: Span) -> Reads
    returns
        (Reads { a, b, c, d: nowhere(), e: nowhere() }),
{
    Reads { a, b, c, d: nowhere(), e: nowhere() }
}

/// Four spans read.
#[verifier::allow_in_spec]
pub fn reads4(a: Span, b: Span, c: Span, d: Span) -> Reads
    returns
        (Reads { a, b, c, d, e: nowhere() }),
{
    Reads { a, b, c, d, e: nowhere() }
}

/// Five spans read.
#[verifier::allow_in_spec]
pub fn reads5(a: Span, b: Span, c: Span, d: Span, e: Span) -> Reads
    returns
        (Reads { a, b, c, d, e }),
{
    Reads { a, b, c, d, e }
}

/// One span written.
#[verifier::allow_in_spec]
pub fn writes1(a: Span) -> Writes
    returns
        (Writes { a, b: nowhere() }),
{
    Writes { a, b: nowhere() }
}

/// Two spans written.
#[verifier::allow_in_spec]
pub fn writes2(a: Span, b: Span) -> Writes
    returns
        (Writes { a, b }),
{
    Writes { a, b }
}

/// The rows and columns a kernel is told, and no other size.
#[verifier::allow_in_spec]
pub fn sized(rows: usize, cols: usize) -> Sizes
    returns
        (Sizes { rows, cols, heads: 0, head_dim: 0, length: 0, width: 0, base: 0 }),
{
    Sizes { rows, cols, heads: 0, head_dim: 0, length: 0, width: 0, base: 0 }
}

/// A launch.
#[verifier::allow_in_spec]
pub fn launch(kernel: Kernel, grid: Grid, sizes: Sizes, reads: Reads, writes: Writes) -> Step
    returns
        (Step::Launch(Launch { kernel, grid, sizes, reads, writes })),
{
    Step::Launch(Launch { kernel, grid, sizes, reads, writes })
}

/// A buffer set to zero.
#[verifier::allow_in_spec]
pub fn clear(buffer: Buffer, len: usize) -> Step
    returns
        (launch(
            Kernel::Clear,
            Grid::Elements(len),
            sized(1, len),
            reads0(),
            writes1(start_of(buffer, len)),
        )),
{
    launch(
        Kernel::Clear,
        Grid::Elements(len),
        sized(1, len),
        reads0(),
        writes1(start_of(buffer, len)),
    )
}

/// A rectangle that starts somewhere in a buffer, for one head and sequence.
#[verifier::allow_in_spec]
pub fn tile(buffer: Buffer, offset: usize, stride: usize) -> Tile
    returns
        (Tile { buffer, offset, shift: 0, shared: false, stride, step: 0 }),
{
    Tile { buffer, offset, shift: 0, shared: false, stride, step: 0 }
}

/// `out[m, n] = a[m, k] * b[n, k]^T` of three whole buffers: a projection of
/// `m` rows by a weight of `n` rows, added to the target when `accumulate`
/// says so.
#[verifier::allow_in_spec]
pub fn project(
    a: Tile,
    b: Tile,
    out: Tile,
    m: usize,
    n: usize,
    k: usize,
    accumulate: bool,
) -> Step
    returns
        (Step::Heads {
            heads: 1,
            group: 1,
            sequences: 1,
            product: Product {
                kind: Kind::RhsTransposed,
                factor: Factor::One,
                accumulate,
                m,
                n,
                k,
                a,
                b,
                out,
            },
        }),
{
    Step::Heads {
        heads: 1,
        group: 1,
        sequences: 1,
        product: Product {
            kind: Kind::RhsTransposed,
            factor: Factor::One,
            accumulate,
            m,
            n,
            k,
            a,
            b,
            out,
        },
    }
}

/// `out[m, n] = a[m, k] * b[k, n]`: the input gradient of a projection, whose
/// weight has `k` rows.
#[verifier::allow_in_spec]
pub fn project_back(
    a: Tile,
    b: Tile,
    out: Tile,
    m: usize,
    n: usize,
    k: usize,
    accumulate: bool,
) -> Step
    returns
        (Step::Heads {
            heads: 1,
            group: 1,
            sequences: 1,
            product: Product {
                kind: Kind::Plain,
                factor: Factor::One,
                accumulate,
                m,
                n,
                k,
                a,
                b,
                out,
            },
        }),
{
    Step::Heads {
        heads: 1,
        group: 1,
        sequences: 1,
        product: Product {
            kind: Kind::Plain,
            factor: Factor::One,
            accumulate,
            m,
            n,
            k,
            a,
            b,
            out,
        },
    }
}

/// `out[m, n] -= a[k, m]^T * b[k, n]`, or that product negated where nothing
/// is accumulated: the weight gradient of a projection, as the optimizer
/// expects it.
#[verifier::allow_in_spec]
pub fn weight_gradient(
    a: Tile,
    b: Tile,
    out: Tile,
    m: usize,
    n: usize,
    k: usize,
    accumulate: bool,
) -> Step
    returns
        (Step::Heads {
            heads: 1,
            group: 1,
            sequences: 1,
            product: Product {
                kind: Kind::LhsTransposed,
                factor: Factor::MinusOne,
                accumulate,
                m,
                n,
                k,
                a,
                b,
                out,
            },
        }),
{
    Step::Heads {
        heads: 1,
        group: 1,
        sequences: 1,
        product: Product {
            kind: Kind::LhsTransposed,
            factor: Factor::MinusOne,
            accumulate,
            m,
            n,
            k,
            a,
            b,
            out,
        },
    }
}

/// A new buffer.
#[verifier::allow_in_spec]
pub fn reserve(buffer: Buffer, len: usize) -> Step
    returns
        (Step::Reserve(buffer, len)),
{
    Step::Reserve(buffer, len)
}

/// A copy of the first entries of a buffer.
#[verifier::allow_in_spec]
pub fn copy(from: Buffer, to: Buffer, len: usize) -> Step
    returns
        (launch(
            Kernel::Copy,
            Grid::Elements(len),
            sized(1, len),
            reads1(start_of(from, len)),
            writes1(start_of(to, len)),
        )),
{
    launch(
        Kernel::Copy,
        Grid::Elements(len),
        sized(1, len),
        reads1(start_of(from, len)),
        writes1(start_of(to, len)),
    )
}

/// Several weights, one after another in one buffer: the weight of the one
/// wide projection that replaces theirs.
#[verifier::allow_in_spec]
pub fn pack(parts: Reads, to: Buffer, len: usize) -> Step
    returns
        (launch(
            Kernel::Pack,
            Grid::Elements(len),
            sized(1, len),
            parts,
            writes1(start_of(to, len)),
        )),
{
    launch(Kernel::Pack, Grid::Elements(len), sized(1, len), parts, writes1(start_of(to, len)))
}

/// The threads of an addition: four entries each where both the length and the
/// offset allow it.
#[verifier::allow_in_spec]
pub fn add_grid(offset: usize, len: usize) -> Grid
    returns
        (if len % 4 == 0 && offset % 4 == 0 {
            Grid::Elements(len / 4)
        } else {
            Grid::Elements(len)
        }),
{
    if len % 4 == 0 && offset % 4 == 0 {
        Grid::Elements(len / 4)
    } else {
        Grid::Elements(len)
    }
}

/// `target += source[offset..offset + len]`.
#[verifier::allow_in_spec]
pub fn add_span(target: Buffer, source: Buffer, offset: usize, len: usize) -> Step
    returns
        (launch(
            Kernel::Add,
            add_grid(offset, len),
            Sizes { base: offset, ..sized(1, len) },
            reads2(span(source, offset, len), start_of(target, len)),
            writes1(start_of(target, len)),
        )),
{
    launch(
        Kernel::Add,
        add_grid(offset, len),
        Sizes { base: offset, ..sized(1, len) },
        reads2(span(source, offset, len), start_of(target, len)),
        writes1(start_of(target, len)),
    )
}

/// Blocks per launch for the kernels that stride over rows.
pub const ROW_GRID_BLOCKS: usize = 2048;

/// A number of rows, at least one and at most [`ROW_GRID_BLOCKS`].
#[verifier::allow_in_spec]
pub fn capped(rows: usize) -> u32
    returns
        (if rows == 0 {
            1u32
        } else if rows > ROW_GRID_BLOCKS {
            2048u32
        } else {
            rows as u32
        }),
{
    if rows == 0 {
        1u32
    } else if rows > ROW_GRID_BLOCKS {
        2048u32
    } else {
        rows as u32
    }
}

/// One warp per row, eight rows per block.
#[verifier::allow_in_spec]
pub fn warp_per_row_grid(rows: usize) -> Grid
    returns
        (Grid::Blocks(capped(if rows % 8 == 0 { rows / 8 } else { (rows / 8 + 1) as usize }), 0)),
{
    Grid::Blocks(
        capped(
            if rows % 8 == 0 {
                rows / 8
            } else {
                rows / 8 + 1
            },
        ),
        0,
    )
}

/// A block per row.
#[verifier::allow_in_spec]
pub fn row_grid(rows: usize) -> Grid
    returns
        (Grid::Blocks(capped(rows), 0)),
{
    Grid::Blocks(capped(rows), 0)
}

/// The normalization of rows: the normalized rows and one inverse norm each.
#[verifier::allow_in_spec]
pub fn rmsnorm(
    input: Buffer,
    weight: Buffer,
    out: Buffer,
    inverse: Buffer,
    rows: usize,
    cols: usize,
    len: usize,
) -> Step
    returns
        (launch(
            Kernel::RmsNorm,
            row_grid(rows),
            sized(rows, cols),
            reads2(start_of(input, len), start_of(weight, cols)),
            writes2(start_of(out, len), start_of(inverse, rows)),
        )),
{
    launch(
        Kernel::RmsNorm,
        row_grid(rows),
        sized(rows, cols),
        reads2(start_of(input, len), start_of(weight, cols)),
        writes2(start_of(out, len), start_of(inverse, rows)),
    )
}

/// The threads of the gated activation: four entries each where the width
/// allows it.
#[verifier::allow_in_spec]
pub fn swiglu_grid(width: usize, hidden: usize) -> Grid
    returns
        (if width % 4 == 0 {
            Grid::Elements(hidden / 4)
        } else {
            Grid::Elements(hidden)
        }),
{
    if width % 4 == 0 {
        Grid::Elements(hidden / 4)
    } else {
        Grid::Elements(hidden)
    }
}

/// The gated activation of rows that hold a gate and an up half.
#[verifier::allow_in_spec]
pub fn swiglu(
    gate_up: Buffer,
    hidden: Buffer,
    rows: usize,
    width: usize,
    gate_up_len: usize,
    hidden_len: usize,
) -> Step
    returns
        (launch(
            Kernel::SwiGlu,
            swiglu_grid(width, hidden_len),
            sized(rows, width),
            reads1(start_of(gate_up, gate_up_len)),
            writes1(start_of(hidden, hidden_len)),
        )),
{
    launch(
        Kernel::SwiGlu,
        swiglu_grid(width, hidden_len),
        sized(rows, width),
        reads1(start_of(gate_up, gate_up_len)),
        writes1(start_of(hidden, hidden_len)),
    )
}

/// The gradients of gate and up, in the layout of the halves.
#[verifier::allow_in_spec]
pub fn swiglu_backward(
    gate_up: Buffer,
    grad_hidden: Buffer,
    grad_gate_up: Buffer,
    rows: usize,
    width: usize,
    gate_up_len: usize,
    hidden_len: usize,
) -> Step
    returns
        (launch(
            Kernel::SwiGluBackward,
            swiglu_grid(width, hidden_len),
            sized(rows, width),
            reads2(start_of(gate_up, gate_up_len), start_of(grad_hidden, hidden_len)),
            writes1(start_of(grad_gate_up, gate_up_len)),
        )),
{
    launch(
        Kernel::SwiGluBackward,
        swiglu_grid(width, hidden_len),
        sized(rows, width),
        reads2(start_of(gate_up, gate_up_len), start_of(grad_hidden, hidden_len)),
        writes1(start_of(grad_gate_up, gate_up_len)),
    )
}

/// Shared memory for the scale gradients of a normalization, or none for a
/// width that does not fit what a block gets.
pub fn rmsnorm_smem(cols: usize) -> (bytes: Option<u32>)
    ensures
        bytes == if 4 * cols <= 49152 {
            Some((4 * cols) as u32)
        } else {
            None::<u32>
        },
{
    if cols <= 12288 {
        Some(4 * (cols as u32))
    } else {
        None
    }
}

/// The threads of the backward pass of a normalization.
#[verifier::allow_in_spec]
pub fn norm_grid(rows: usize, cols: usize) -> Grid
    returns
        (Grid::Blocks(
            capped(rows),
            if cols <= 12288 {
                (4 * cols) as u32
            } else {
                0
            },
        )),
{
    Grid::Blocks(
        capped(rows),
        match rmsnorm_smem(cols) {
            Some(bytes) => bytes,
            None => 0,
        },
    )
}

/// The gradient of normalized rows: that of the rows, and that of the scale,
/// which is added to a slot of the buffer of all scale gradients.
#[verifier::allow_in_spec]
pub fn rmsnorm_backward(
    input: Buffer,
    grad: Buffer,
    weight: Buffer,
    inverse: Buffer,
    out: Buffer,
    slot: usize,
    rows: usize,
    cols: usize,
    len: usize,
) -> Step
    returns
        (launch(
            Kernel::RmsNormBackward,
            norm_grid(rows, cols),
            Sizes { base: slot, ..sized(rows, cols) },
            reads5(
                start_of(input, len),
                start_of(grad, len),
                start_of(weight, cols),
                start_of(inverse, rows),
                span(Buffer::GradNorms, slot, cols),
            ),
            writes2(start_of(out, len), span(Buffer::GradNorms, slot, cols)),
        )),
{
    launch(
        Kernel::RmsNormBackward,
        norm_grid(rows, cols),
        Sizes { base: slot, ..sized(rows, cols) },
        reads5(
            start_of(input, len),
            start_of(grad, len),
            start_of(weight, cols),
            start_of(inverse, rows),
            span(Buffer::GradNorms, slot, cols),
        ),
        writes2(start_of(out, len), span(Buffer::GradNorms, slot, cols)),
    )
}

/// One block per row.
#[verifier::allow_in_spec]
pub fn row_per_block(rows: usize) -> Grid
    returns
        (Grid::Blocks(
            if rows == 0 {
                1u32
            } else {
                rows as u32
            },
            0,
        )),
{
    Grid::Blocks(
        if rows == 0 {
            1u32
        } else {
            rows as u32
        },
        0,
    )
}

/// The gradient of normalized rows that also reach the output by a residual:
/// the residual's gradient is folded in.
#[verifier::allow_in_spec]
pub fn rmsnorm_backward_residual(
    input: Buffer,
    grad: Buffer,
    weight: Buffer,
    inverse: Buffer,
    residual: Buffer,
    out: Buffer,
    slot: usize,
    rows: usize,
    cols: usize,
    len: usize,
) -> Step
    returns
        (launch(
            Kernel::RmsNormBackward,
            norm_grid(rows, cols),
            Sizes { base: slot, ..sized(rows, cols) },
            reads5(
                start_of(input, len),
                start_of(grad, len),
                start_of(weight, cols),
                start_of(inverse, rows),
                start_of(residual, len),
            ),
            writes2(start_of(out, len), span(Buffer::GradNorms, slot, cols)),
        )),
{
    launch(
        Kernel::RmsNormBackward,
        norm_grid(rows, cols),
        Sizes { base: slot, ..sized(rows, cols) },
        reads5(
            start_of(input, len),
            start_of(grad, len),
            start_of(weight, cols),
            start_of(inverse, rows),
            start_of(residual, len),
        ),
        writes2(start_of(out, len), span(Buffer::GradNorms, slot, cols)),
    )
}

/// A whole cross-attention of `q_len` queries to `kv_len` keys in each of some
/// sequences.
#[verifier::allow_in_spec]
pub fn attention_sizes(q_len: usize, kv_len: usize, sequences: usize, cols: usize) -> Sizes
    returns
        (Sizes {
            rows: q_len,
            cols,
            heads: 0,
            head_dim: 0,
            length: kv_len,
            width: sequences,
            base: 0,
        }),
{
    Sizes { rows: q_len, cols, heads: 0, head_dim: 0, length: kv_len, width: sequences, base: 0 }
}

} // verus!
