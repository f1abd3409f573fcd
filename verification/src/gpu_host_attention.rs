//! Attention whose products run on the device and whose softmax runs on the
//! host, head by head.
use crate::device::{
    after, after_all, clear, launch, reads1, reserve, runs, sized, start_of, tile, writes1, Buffer,
    Factor, Grid, Kernel, Kind, Memory, Product, Sizes, Step, Tile,
};
use crate::matrix::Matrix;
use crate::tiles::{lemma_concat, lemma_one_more};
use vstd::prelude::*;

verus! {

/// The sizes of an attention of some tokens to a history of keys.
#[derive(Clone, Copy, Debug, PartialEq, Eq, Structural)]
pub struct HostAttention {
    pub tokens: usize,
    pub history: usize,
    pub heads: usize,
    pub group: usize,
    pub head_dim: usize,
    pub query_width: usize,
    pub kv_width: usize,
    pub position_offset: usize,
    /// How long the buffers are.
    pub queries: usize,
    pub keys: usize,
    pub scores: usize,
}

impl HostAttention {
    /// Whether the sizes go together: the query heads come in groups of one
    /// size, and every query's own position is in the history.
    pub open spec fn wf(&self) -> bool {
        &&& self.group > 0
        &&& self.heads % self.group == 0
        &&& self.query_width == self.heads * self.head_dim
        &&& self.kv_width == (self.heads as int / self.group as int) * self.head_dim
        &&& self.queries == self.tokens * self.query_width
        &&& self.keys == self.history * self.kv_width
        &&& self.scores == self.tokens * self.history
        &&& self.position_offset + self.tokens <= self.history
    }
}

/// The scores of a head, scaled.
pub open spec fn score_step(plan: HostAttention, head: int) -> Step {
    Step::Heads {
        heads: 1,
        group: 1,
        sequences: 1,
        product: Product {
            kind: Kind::RhsTransposed,
            factor: Factor::Scale,
            accumulate: false,
            m: plan.tokens,
            n: plan.history,
            k: plan.head_dim,
            a: tile(Buffer::Query, (head * plan.head_dim) as usize, plan.query_width),
            b: tile(
                Buffer::Key,
                (head / (plan.group as int) * plan.head_dim) as usize,
                plan.kv_width,
            ),
            out: tile(Buffer::Probabilities, 0, plan.history),
        },
    }
}

/// The masked softmax of a head's scores.
pub open spec fn softmax_step(plan: HostAttention) -> Step {
    launch(
        Kernel::HostSoftmax,
        Grid::Elements(plan.scores),
        Sizes { base: plan.position_offset, ..sized(plan.tokens, plan.history) },
        reads1(start_of(Buffer::Probabilities, plan.scores)),
        writes1(start_of(Buffer::Probabilities, plan.scores)),
    )
}

/// What a head merges, in its own columns.
pub open spec fn merge_step(plan: HostAttention, head: int) -> Step {
    Step::Heads {
        heads: 1,
        group: 1,
        sequences: 1,
        product: Product {
            kind: Kind::Plain,
            factor: Factor::One,
            accumulate: false,
            m: plan.tokens,
            n: plan.head_dim,
            k: plan.history,
            a: tile(Buffer::Probabilities, 0, plan.history),
            b: tile(
                Buffer::Value,
                (head / (plan.group as int) * plan.head_dim) as usize,
                plan.kv_width,
            ),
            out: tile(Buffer::Merged, (head * plan.head_dim) as usize, plan.query_width),
        },
    }
}

/// The steps of a head.
pub open spec fn head_steps(plan: HostAttention, head: int) -> Seq<Step> {
    seq![score_step(plan, head), softmax_step(plan), merge_step(plan, head)]
}

/// The steps of the first `k` heads.
pub open spec fn heads_steps(plan: HostAttention, k: int) -> Seq<Step>
    decreases k,
{
    if k <= 0 {
        Seq::empty()
    } else {
        heads_steps(plan, k - 1) + head_steps(plan, k - 1)
    }
}

/// Room for the scores of a head and for what all heads merge.
pub open spec fn room_steps(plan: HostAttention) -> Seq<Step> {
    seq![
        reserve(Buffer::Probabilities, plan.scores),
        clear(Buffer::Probabilities, plan.scores),
        reserve(Buffer::Merged, plan.queries),
        clear(Buffer::Merged, plan.queries),
    ]
}

/// The steps of the attention.
pub open spec fn attention_steps(plan: HostAttention) -> Seq<Step> {
    room_steps(plan) + heads_steps(plan, plan.heads as int)
}

pub(crate) proof fn lemma_head(plan: HostAttention, head: int)
    requires
        plan.wf(),
        0 <= head < plan.heads,
    ensures
        0 <= head * plan.head_dim,
        head * plan.head_dim + plan.head_dim <= plan.query_width,
        0 <= head / (plan.group as int) * plan.head_dim,
        head / (plan.group as int) * plan.head_dim + plan.head_dim <= plan.kv_width,
{
    let (n, g, d) = (plan.heads as int, plan.group as int, plan.head_dim as int);
    vstd::arithmetic::div_mod::lemma_fundamental_div_mod(n, g);
    vstd::arithmetic::div_mod::lemma_fundamental_div_mod(head, g);
    let (q, r, k) = (head / g, head % g, n / g);
    assert(0 <= q < k) by (nonlinear_arith)
        requires
            head == g * q + r,
            0 <= r < g,
            n == g * k + 0,
            0 <= head < n,
    ;
    assert(0 <= q * d && q * d + d <= k * d) by (nonlinear_arith)
        requires
            0 <= q < k,
            0 <= d,
    ;
    assert(0 <= head * d && head * d + d <= n * d) by (nonlinear_arith)
        requires
            0 <= head < n,
            0 <= d,
    ;
}

/// The steps of the attention.
pub fn attention_heads(plan: &HostAttention) -> (steps: Vec<Step>)
    requires
        plan.wf(),
    ensures
        steps@ == attention_steps(*plan),
{
    let mut steps: Vec<Step> = vec![
        reserve(Buffer::Probabilities, plan.scores),
        clear(Buffer::Probabilities, plan.scores),
        reserve(Buffer::Merged, plan.queries),
        clear(Buffer::Merged, plan.queries),
    ];
    assert(steps@ =~= room_steps(*plan) + heads_steps(*plan, 0));
    let mut head: usize = 0;
    while head < plan.heads
        invariant
            head <= plan.heads,
            plan.wf(),
            steps@ == room_steps(*plan) + heads_steps(*plan, head as int),
        decreases plan.heads - head,
    {
        proof {
            lemma_head(*plan, head as int);
        }
        let query_base: usize = head * plan.head_dim;
        let kv_base: usize = head / plan.group * plan.head_dim;
        let ghost before = steps@;
        steps.push(
            Step::Heads {
                heads: 1,
                group: 1,
                sequences: 1,
                product: Product {
                    kind: Kind::RhsTransposed,
                    factor: Factor::Scale,
                    accumulate: false,
                    m: plan.tokens,
                    n: plan.history,
                    k: plan.head_dim,
                    a: tile(Buffer::Query, query_base, plan.query_width),
                    b: tile(Buffer::Key, kv_base, plan.kv_width),
                    out: tile(Buffer::Probabilities, 0, plan.history),
                },
            },
        );
        steps.push(
            launch(
                Kernel::HostSoftmax,
                Grid::Elements(plan.scores),
                Sizes { base: plan.position_offset, ..sized(plan.tokens, plan.history) },
                reads1(start_of(Buffer::Probabilities, plan.scores)),
                writes1(start_of(Buffer::Probabilities, plan.scores)),
            ),
        );
        steps.push(
            Step::Heads {
                heads: 1,
                group: 1,
                sequences: 1,
                product: Product {
                    kind: Kind::Plain,
                    factor: Factor::One,
                    accumulate: false,
                    m: plan.tokens,
                    n: plan.head_dim,
                    k: plan.history,
                    a: tile(Buffer::Probabilities, 0, plan.history),
                    b: tile(Buffer::Value, kv_base, plan.kv_width),
                    out: tile(Buffer::Merged, query_base, plan.query_width),
                },
            },
        );
        assert(steps@ =~= before + head_steps(*plan, head as int));
        head = head + 1;
        assert(steps@ =~= room_steps(*plan) + heads_steps(*plan, head as int));
    }
    steps
}

/// A masked softmax over each row of a head's scores: row `i` sees the keys up
/// to its own position, and the others are left at zero. `softmax` works on
/// the part a row sees.
pub fn mask_rows<T: Copy, F: Fn(Vec<T>) -> Vec<T>>(
    scores: &Matrix<T>,
    position_offset: usize,
    zero: T,
    softmax: &F,
) -> (masked: Matrix<T>)
    requires
        scores.wf(),
        position_offset + scores.rows <= scores.cols,
        forall|seen: Vec<T>| #[trigger] call_requires(*softmax, (seen,)),
        forall|seen: Vec<T>, made: Vec<T>| #[trigger]
            call_ensures(*softmax, (seen,), made) ==> made@.len() == seen@.len(),
    ensures
        masked.wf(),
        masked.rows == scores.rows,
        masked.cols == scores.cols,
        forall|r: int|
            0 <= r < scores.rows ==> is_masked_row(
                scores.line(r),
                position_offset + r + 1,
                zero,
                *softmax,
                #[trigger] masked.line(r),
            ),
{
    let cols: usize = scores.cols;
    let mut data: Vec<T> = Vec::new();
    let mut r: usize = 0;
    assert(0 * cols == 0);
    while r < scores.rows
        invariant
            r <= scores.rows,
            scores.wf(),
            cols == scores.cols,
            position_offset + scores.rows <= scores.cols,
            forall|seen: Vec<T>| #[trigger] call_requires(*softmax, (seen,)),
            forall|seen: Vec<T>, made: Vec<T>| #[trigger]
                call_ensures(*softmax, (seen,), made) ==> made@.len() == seen@.len(),
            data@.len() == r * cols,
            forall|k: int|
                0 <= k < r ==> is_masked_row(
                    scores.line(k),
                    position_offset + k + 1,
                    zero,
                    *softmax,
                    #[trigger] data@.subrange(k * cols, k * cols + cols),
                ),
        decreases scores.rows - r,
    {
        let ghost before = data@;
        let row = scores.row(r);
        let visible: usize = position_offset + r + 1;
        let mut seen: Vec<T> = Vec::new();
        let mut c: usize = 0;
        while c < visible
            invariant
                c <= visible <= row@.len(),
                seen@ == row@.take(c as int),
            decreases visible - c,
        {
            seen.push(row[c]);
            c = c + 1;
            assert(seen@ =~= row@.take(c as int));
        }
        let ghost part = seen;
        let made = softmax(seen);
        let mut c: usize = 0;
        let ghost wanted = made@ + Seq::new((cols - visible) as nat, |i: int| zero);
        while c < cols
            invariant
                c <= cols,
                made@.len() == visible <= cols,
                wanted == made@ + Seq::new((cols - visible) as nat, |i: int| zero),
                data@ == before + wanted.take(c as int),
            decreases cols - c,
        {
            data.push(
                if c < visible {
                    made[c]
                } else {
                    zero
                },
            );
            c = c + 1;
            assert(data@ =~= before + wanted.take(c as int));
        }
        proof {
            assert(wanted.take(c as int) =~= wanted);
            assert((r + 1) * cols == r * cols + cols) by (nonlinear_arith);
            assert(call_ensures(*softmax, (part,), made));
            assert(wanted.take(visible as int) =~= made@);
            assert(is_masked_row(scores.line(r as int), visible as int, zero, *softmax, wanted));
            assert forall|k: int| 0 <= k < r + 1 implies is_masked_row(
                scores.line(k),
                position_offset + k + 1,
                zero,
                *softmax,
                #[trigger] data@.subrange(k * cols, k * cols + cols),
            ) by {
                if k < r {
                    assert(0 <= k * cols && k * cols + cols <= r * cols) by (nonlinear_arith)
                        requires
                            0 <= k < r,
                            cols >= 0,
                    ;
                    assert(data@.subrange(k * cols, k * cols + cols) =~= before.subrange(
                        k * cols,
                        k * cols + cols,
                    ));
                } else {
                    assert(data@.subrange(k * cols, k * cols + cols) =~= wanted);
                }
            }
        }
        r = r + 1;
    }
    let masked = Matrix { rows: scores.rows, cols, data };
    assert forall|r: int| 0 <= r < scores.rows implies is_masked_row(
        scores.line(r),
        position_offset + r + 1,
        zero,
        *softmax,
        #[trigger] masked.line(r),
    ) by {
        assert(masked.line(r) == data@.subrange(r * cols, r * cols + cols));
    }
    masked
}

/// Whether a row is what softmax makes of the part it sees, and zero elsewhere.
pub open spec fn is_masked_row<T, F: Fn(Vec<T>) -> Vec<T>>(
    scores: Seq<T>,
    visible: int,
    zero: T,
    softmax: F,
    row: Seq<T>,
) -> bool {
    &&& row.len() == scores.len()
    &&& forall|c: int| visible <= c < row.len() ==> #[trigger] row[c] == zero
    &&& exists|seen: Vec<T>, made: Vec<T>|
        #[trigger] call_ensures(softmax, (seen,), made) && seen@ == scores.take(visible) && row.take(
            visible,
        ) == made@
}

// -- Laws ----------------------------------------------------------------------

/// Whether what the attention reads, and what it keeps, is there.
spec fn is_ready(plan: HostAttention, memory: Memory) -> bool {
    &&& memory.holds(Buffer::Query, plan.queries as int)
    &&& memory.holds(Buffer::Key, plan.keys as int)
    &&& memory.holds(Buffer::Value, plan.keys as int)
    &&& memory.holds(Buffer::Probabilities, plan.scores as int)
    &&& memory.holds(Buffer::Merged, plan.queries as int)
}

/// A rectangle of columns lies inside its rows.
proof fn lemma_within(offset: int, rows: int, cols: int, stride: int)
    requires
        0 <= offset,
        offset + cols <= stride,
    ensures
        forall|r: int, c: int|
            0 <= r < rows && 0 <= c < cols ==> 0 <= #[trigger] place(offset, stride, r, c) < rows
                * stride,
{
    assert forall|r: int, c: int| 0 <= r < rows && 0 <= c < cols implies 0 <= #[trigger] place(
        offset,
        stride,
        r,
        c,
    ) < rows * stride by {
        assert(0 <= r * stride && r * stride + stride <= rows * stride) by (nonlinear_arith)
            requires
                0 <= r < rows,
                0 <= stride,
        ;
    }
}

spec fn place(offset: int, stride: int, r: int, c: int) -> int {
    offset + r * stride + c
}

proof fn lemma_tile_within(
    t: Tile,
    rows: int,
    cols: int,
    len: int,
)
    requires
        t.shift == 0,
        t.step == 0,
        !t.shared,
        t.offset + cols <= t.stride,
        len == rows * t.stride,
    ensures
        t.stays_within(1, 1, 1, rows, cols, len),
{
    lemma_within(t.offset as int, rows, cols, t.stride as int);
    assert forall|h: int, s: int, r: int, c: int|
        0 <= h < 1 && 0 <= s < 1 && 0 <= r < rows && 0 <= c < cols implies 0 <= #[trigger] t.at(
        1,
        h,
        s,
        r,
        c,
    ) < len by {
        assert(t.at(1, h, s, r, c) == place(t.offset as int, t.stride as int, r, c));
    }
}

proof fn lemma_head_runs(plan: HostAttention, memory: Memory, head: int)
    requires
        plan.wf(),
        0 <= head < plan.heads,
        is_ready(plan, memory),
    ensures
        runs(memory, head_steps(plan, head)),
        is_ready(plan, after_all(memory, head_steps(plan, head))),
{
    let steps = head_steps(plan, head);
    lemma_head(plan, head);
    let m0 = memory;
    let product = steps[0]->product;
    lemma_tile_within(
        product.a,
        plan.tokens as int,
        plan.head_dim as int,
        plan.queries as int,
    );
    lemma_tile_within(product.b, plan.history as int, plan.head_dim as int, plan.keys as int);
    lemma_tile_within(product.out, plan.tokens as int, plan.history as int, plan.scores as int);
    lemma_one_more(m0, steps, 0, m0);
    let m1 = after(m0, steps[0]);
    lemma_one_more(m0, steps, 1, m1);
    let m2 = after(m1, steps[1]);
    let product = steps[2]->product;
    lemma_tile_within(product.a, plan.tokens as int, plan.history as int, plan.scores as int);
    lemma_tile_within(product.b, plan.history as int, plan.head_dim as int, plan.keys as int);
    lemma_tile_within(
        product.out,
        plan.tokens as int,
        plan.head_dim as int,
        plan.queries as int,
    );
    lemma_one_more(m0, steps, 2, m2);
}

proof fn lemma_heads_run(plan: HostAttention, memory: Memory, k: int)
    requires
        plan.wf(),
        0 <= k <= plan.heads,
        is_ready(plan, memory),
    ensures
        runs(memory, heads_steps(plan, k)),
        is_ready(plan, after_all(memory, heads_steps(plan, k))),
    decreases k,
{
    if k > 0 {
        lemma_heads_run(plan, memory, k - 1);
        let before = heads_steps(plan, k - 1);
        lemma_head_runs(plan, after_all(memory, before), k - 1);
        lemma_concat(memory, before, head_steps(plan, k - 1));
    }
}

/// The attention never leaves its buffers and reads only what was written.
pub proof fn law_attention_runs(plan: HostAttention, memory: Memory)
    requires
        plan.wf(),
        memory.holds(Buffer::Query, plan.queries as int),
        memory.holds(Buffer::Key, plan.keys as int),
        memory.holds(Buffer::Value, plan.keys as int),
    ensures
        runs(memory, attention_steps(plan)),
        after_all(memory, attention_steps(plan)).holds(Buffer::Merged, plan.queries as int),
{
    let room = room_steps(plan);
    let m0 = memory;
    lemma_one_more(m0, room, 0, m0);
    let m1 = after(m0, room[0]);
    lemma_one_more(m0, room, 1, m1);
    let m2 = after(m1, room[1]);
    lemma_one_more(m0, room, 2, m2);
    let m3 = after(m2, room[2]);
    lemma_one_more(m0, room, 3, m3);
    let m4 = after(m3, room[3]);
    lemma_heads_run(plan, m4, plan.heads as int);
    lemma_concat(memory, room, heads_steps(plan, plan.heads as int));
}

} // verus!
