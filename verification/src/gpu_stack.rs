//! What stands around the blocks of a stack: the order in which its parts run,
//! what all sequences of a batch share, and where the gradients of the shared
//! parts go.
use crate::device::Step;
use crate::gpu_shape::{
    block_backward, block_backward_steps, block_forward, block_steps, moments, moments_gradient,
    moments_gradient_steps, moments_steps, read_surface, read_surface_steps, surface_gradient,
    surface_gradient_steps, BlockPlan, EncodePlan,
};
use crate::masked_lm::copy_of;
use crate::matrix::{entry, lemma_entry, lemma_entry_injective, Matrix};
use vstd::prelude::*;

verus! {

// -- The order of a pass ---------------------------------------------------------

/// A part of a pass: one of the blocks, or what stands before or behind them.
/// Every block works on buffers of its own.
#[derive(Debug)]
pub struct Stage {
    pub block: Option<usize>,
    pub steps: Vec<Step>,
}

/// What a [`Stage`] is.
pub ghost struct StageView {
    pub block: Option<int>,
    pub steps: Seq<Step>,
}

impl View for Stage {
    type V = StageView;

    open spec fn view(&self) -> StageView {
        StageView {
            block: match self.block {
                Some(block) => Some(block as int),
                None => None,
            },
            steps: self.steps@,
        }
    }
}

/// What a list of stages is.
pub open spec fn staged(stages: Seq<Stage>) -> Seq<StageView> {
    stages.map_values(|stage: Stage| stage@)
}

/// A stage outside the blocks.
pub open spec fn outside(steps: Seq<Step>) -> StageView {
    StageView { block: None, steps }
}

/// The plan of a block of an encoder. The gradients of its two norms follow
/// that of the last norm and those of the blocks before.
pub open spec fn block_of(plan: EncodePlan, index: int) -> BlockPlan {
    let first = plan.width + 2 * index * plan.width;
    BlockPlan {
        length: plan.latents,
        sequences: plan.sequences,
        rows: plan.rows,
        width: plan.width,
        hidden: plan.hidden,
        norm0: first as usize,
        norm1: (first + plan.width) as usize,
        norms: plan.norms,
    }
}

/// Whether an encoder's plan is one of so many blocks.
pub open spec fn is_stack(plan: EncodePlan, blocks: int) -> bool {
    &&& plan.wf()
    &&& 1 + 2 * blocks <= usize::MAX
    &&& plan.norms == (1 + 2 * blocks) * plan.width
}

/// The stages of an encoder: the surface is read, the blocks run one after
/// another, and the moments are taken.
pub open spec fn encode_stages(plan: EncodePlan, blocks: int) -> Seq<StageView> {
    seq![outside(read_surface_steps(plan))] + Seq::new(
        blocks as nat,
        |i: int| StageView { block: Some(i), steps: block_steps(block_of(plan, i)) },
    ) + seq![outside(moments_steps(plan))]
}

/// The stages of an encoder's backward pass: the same in reverse.
pub open spec fn encode_gradient_stages(plan: EncodePlan, blocks: int) -> Seq<StageView> {
    seq![outside(moments_gradient_steps(plan))] + Seq::new(
        blocks as nat,
        |i: int|
            StageView {
                block: Some(blocks - 1 - i),
                steps: block_backward_steps(block_of(plan, blocks - 1 - i)),
            },
    ) + seq![outside(surface_gradient_steps(plan))]
}

fn block_plan(plan: &EncodePlan, index: usize, blocks: usize) -> (block: BlockPlan)
    requires
        is_stack(*plan, blocks as int),
        index < blocks,
    ensures
        block == block_of(*plan, index as int),
{
    BlockPlan::new(plan.latents, plan.sequences, plan.width, index, blocks)
}

/// The stages of an encoder.
pub fn encode_train_batch(plan: &EncodePlan, blocks: usize) -> (stages: Vec<Stage>)
    requires
        is_stack(*plan, blocks as int),
    ensures
        staged(stages@) == encode_stages(*plan, blocks as int),
{
    let mut stages: Vec<Stage> = Vec::new();
    stages.push(Stage { block: None, steps: read_surface(plan) });
    let mut index: usize = 0;
    while index < blocks
        invariant
            index <= blocks,
            is_stack(*plan, blocks as int),
            stages@.len() == index + 1,
            stages@[0]@ == outside(read_surface_steps(*plan)),
            forall|i: int|
                0 <= i < index ==> #[trigger] stages@[i + 1]@ == (StageView {
                    block: Some(i),
                    steps: block_steps(block_of(*plan, i)),
                }),
        decreases blocks - index,
    {
        let block = block_plan(plan, index, blocks);
        let ghost before = stages@;
        stages.push(Stage { block: Some(index), steps: block_forward(&block) });
        assert forall|i: int| 0 <= i < index + 1 implies #[trigger] stages@[i + 1]@ == (StageView {
            block: Some(i),
            steps: block_steps(block_of(*plan, i)),
        }) by {
            if i < index {
                assert(stages@[i + 1] == before[i + 1]);
            }
        }
        index = index + 1;
    }
    let ghost before = stages@;
    stages.push(Stage { block: None, steps: moments(plan) });
    proof {
        let wanted = encode_stages(*plan, blocks as int);
        assert forall|i: int| 0 <= i < wanted.len() implies staged(stages@)[i] == wanted[i] by {
            if 0 < i <= blocks {
                assert(before[(i - 1) + 1] == stages@[i]);
            }
        }
        assert(staged(stages@) =~= wanted);
    }
    stages
}

/// The stages of an encoder's backward pass.
pub fn encode_backward(plan: &EncodePlan, blocks: usize) -> (stages: Vec<Stage>)
    requires
        is_stack(*plan, blocks as int),
    ensures
        staged(stages@) == encode_gradient_stages(*plan, blocks as int),
{
    let mut stages: Vec<Stage> = Vec::new();
    stages.push(Stage { block: None, steps: moments_gradient(plan) });
    let mut done: usize = 0;
    while done < blocks
        invariant
            done <= blocks,
            is_stack(*plan, blocks as int),
            stages@.len() == done + 1,
            stages@[0]@ == outside(moments_gradient_steps(*plan)),
            forall|i: int|
                0 <= i < done ==> #[trigger] stages@[i + 1]@ == (StageView {
                    block: Some(blocks - 1 - i),
                    steps: block_backward_steps(block_of(*plan, blocks - 1 - i)),
                }),
        decreases blocks - done,
    {
        let index: usize = blocks - 1 - done;
        let block = block_plan(plan, index, blocks);
        let ghost before = stages@;
        stages.push(Stage { block: Some(index), steps: block_backward(&block) });
        assert forall|i: int| 0 <= i < done + 1 implies #[trigger] stages@[i + 1]@ == (StageView {
            block: Some(blocks - 1 - i),
            steps: block_backward_steps(block_of(*plan, blocks - 1 - i)),
        }) by {
            if i < done {
                assert(stages@[i + 1] == before[i + 1]);
            }
        }
        done = done + 1;
    }
    let ghost before = stages@;
    stages.push(Stage { block: None, steps: surface_gradient(plan) });
    proof {
        let wanted = encode_gradient_stages(*plan, blocks as int);
        assert forall|i: int| 0 <= i < wanted.len() implies staged(stages@)[i] == wanted[i] by {
            if 0 < i <= blocks {
                assert(before[(i - 1) + 1] == stages@[i]);
            }
        }
        assert(staged(stages@) =~= wanted);
    }
    stages
}

/// The backward pass takes the blocks apart in the order opposite to that in
/// which the forward pass went through them.
pub proof fn law_backward_is_reversed(plan: EncodePlan, blocks: int, i: int)
    requires
        0 <= i < blocks,
    ensures
        encode_stages(plan, blocks)[1 + i].block == Some(i),
        encode_gradient_stages(plan, blocks)[blocks - i].block == Some(i),
        encode_stages(plan, blocks).len() == encode_gradient_stages(plan, blocks).len(),
{
}

// -- What sequences share ----------------------------------------------------------

/// One list for each of so many sequences: every sequence starts from the same
/// numbers.
pub fn repeated<T: Copy>(values: &Vec<T>, sequences: usize) -> (all: Vec<T>)
    requires
        sequences * values@.len() <= usize::MAX,
    ensures
        all@.len() == sequences * values@.len(),
        forall|s: int, i: int|
            0 <= s < sequences && 0 <= i < values@.len() ==> all@[#[trigger] entry(
                values@.len() as int,
                s,
                i,
            )] == values@[i],
{
    let count: usize = values.len();
    let mut all: Vec<T> = Vec::new();
    let mut s: usize = 0;
    assert(0 * count == 0);
    while s < sequences
        invariant
            s <= sequences,
            count == values@.len(),
            sequences * count <= usize::MAX,
            all@.len() == s * count,
            forall|q: int, i: int|
                0 <= q < s && 0 <= i < count ==> all@[#[trigger] entry(count as int, q, i)]
                    == values@[i],
        decreases sequences - s,
    {
        let ghost before = all@;
        let mut i: usize = 0;
        while i < count
            invariant
                i <= count == values@.len(),
                all@ == before + values@.take(i as int),
            decreases count - i,
        {
            all.push(values[i]);
            i = i + 1;
            assert(all@ =~= before + values@.take(i as int));
        }
        proof {
            let n = count as int;
            assert((s + 1) * n == s * n + n) by (nonlinear_arith);
            assert forall|q: int, i: int| 0 <= q < s + 1 && 0 <= i < n implies all@[
            #[trigger] entry(n, q, i)] == values@[i] by {
                if q < s {
                    lemma_entry(s as int, n, q, i);
                    assert(before[entry(n, q, i)] == values@[i]);
                }
            }
        }
        s = s + 1;
    }
    all
}

/// Whether each number of a list had its counterpart among `part` added.
pub open spec fn is_added<T, F: Fn(T, T) -> T>(
    before: Seq<T>,
    part: Seq<T>,
    after: Seq<T>,
    sum: F,
) -> bool {
    &&& after.len() == before.len()
    &&& forall|i: int|
        0 <= i < before.len() ==> call_ensures(sum, (before[i], part[i]), #[trigger] after[i])
}

/// The numbers of one sequence.
pub open spec fn share<T>(all: Seq<T>, count: int, s: int) -> Seq<T> {
    all.subrange(s * count, s * count + count)
}

/// Whether the numbers of the first `k` sequences were added to a list, one
/// sequence after another.
pub open spec fn is_summed<T, F: Fn(T, T) -> T>(
    before: Seq<T>,
    all: Seq<T>,
    after: Seq<T>,
    sum: F,
    k: int,
) -> bool
    decreases k,
{
    if k <= 0 {
        after == before
    } else {
        exists|middle: Seq<T>|
            is_summed(before, all, middle, sum, k - 1) && #[trigger] is_added(
                middle,
                share(all, before.len() as int, k - 1),
                after,
                sum,
            )
    }
}

/// Adds one list of numbers to another.
pub fn accumulate_host_grad<T: Copy, F: Fn(T, T) -> T>(
    target: &mut Vec<T>,
    values: &Vec<T>,
    at: usize,
    sum: &F,
)
    requires
        at + old(target)@.len() <= values@.len(),
        forall|a: T, b: T| #[trigger] call_requires(*sum, (a, b)),
    ensures
        is_added(
            old(target)@,
            values@.subrange(at as int, at + old(target)@.len()),
            final(target)@,
            *sum,
        ),
{
    let ghost start = target@;
    let count: usize = target.len();
    let total: usize = values.len();
    let ghost part = values@.subrange(at as int, at + count);
    let mut i: usize = 0;
    while i < count
        invariant
            i <= count,
            count == start.len(),
            target@.len() == count,
            at + count <= values@.len() == total,
            part == values@.subrange(at as int, at + count),
            forall|a: T, b: T| #[trigger] call_requires(*sum, (a, b)),
            forall|j: int|
                0 <= j < i ==> call_ensures(*sum, (start[j], part[j]), #[trigger] target@[j]),
            forall|j: int| i <= j < count ==> #[trigger] target@[j] == start[j],
        decreases count - i,
    {
        let value = sum(target[i], values[at + i]);
        assert(part[i as int] == values@[at + i]);
        let ghost before = target@;
        target.set(i, value);
        assert forall|j: int| 0 <= j < i + 1 implies call_ensures(
            *sum,
            (start[j], part[j]),
            #[trigger] target@[j],
        ) by {
            if j < i {
                assert(target@[j] == before[j]);
            }
        }
        i = i + 1;
    }
}

/// Adds the gradients of every sequence to that of what the sequences share,
/// unless it is frozen.
pub fn sum_sequences<T: Copy, F: Fn(T, T) -> T>(
    target: &mut Vec<T>,
    all: &Vec<T>,
    sequences: usize,
    frozen: bool,
    sum: &F,
)
    requires
        all@.len() == sequences * old(target)@.len(),
        forall|a: T, b: T| #[trigger] call_requires(*sum, (a, b)),
    ensures
        frozen ==> final(target)@ == old(target)@,
        !frozen ==> is_summed(old(target)@, all@, final(target)@, *sum, sequences as int),
{
    if frozen {
        return;
    }
    let ghost start = target@;
    let count: usize = target.len();
    let total: usize = all.len();
    let mut s: usize = 0;
    while s < sequences
        invariant
            s <= sequences,
            count == start.len(),
            target@.len() == count,
            total == all@.len() == sequences * count,
            forall|a: T, b: T| #[trigger] call_requires(*sum, (a, b)),
            is_summed(start, all@, target@, *sum, s as int),
        decreases sequences - s,
    {
        proof {
            let (i, n, m) = (s as int, count as int, sequences as int);
            assert(0 <= i * n && i * n + n <= m * n) by (nonlinear_arith)
                requires
                    0 <= i < m,
                    0 <= n,
            ;
        }
        let ghost middle = target@;
        accumulate_host_grad(target, all, s * count, sum);
        s = s + 1;
        assert(is_added(middle, share(all@, start.len() as int, s - 1), target@, *sum));
    }
}

/// Adds to every row the identity of its slot: row by row through the slots,
/// and again for the next sequence.
pub fn add_slots<T: Copy, F: Fn(T, T) -> T>(rows: &mut Matrix<T>, slots: &Matrix<T>, sum: &F)
    requires
        old(rows).wf(),
        slots.wf(),
        slots.rows > 0,
        slots.cols == old(rows).cols,
        forall|a: T, b: T| #[trigger] call_requires(*sum, (a, b)),
    ensures
        final(rows).wf(),
        final(rows).rows == old(rows).rows,
        final(rows).cols == old(rows).cols,
        forall|r: int, c: int|
            0 <= r < old(rows).rows && 0 <= c < old(rows).cols ==> call_ensures(
                *sum,
                (old(rows).at(r, c), slots.at(r % slots.rows as int, c)),
                #[trigger] final(rows).at(r, c),
            ),
{
    let ghost start = *rows;
    let (count, cols): (usize, usize) = (rows.rows, rows.cols);
    let mut r: usize = 0;
    while r < count
        invariant
            r <= count,
            start.wf(),
            rows.wf(),
            slots.wf(),
            slots.rows > 0,
            slots.cols == cols,
            count == start.rows == rows.rows,
            cols == start.cols == rows.cols,
            forall|a: T, b: T| #[trigger] call_requires(*sum, (a, b)),
            forall|q: int, c: int|
                0 <= q < r && 0 <= c < cols ==> call_ensures(
                    *sum,
                    (start.at(q, c), slots.at(q % slots.rows as int, c)),
                    #[trigger] rows.at(q, c),
                ),
            forall|q: int, c: int|
                r <= q < count && 0 <= c < cols ==> #[trigger] rows.at(q, c) == start.at(q, c),
        decreases count - r,
    {
        let slot: usize = r % slots.rows;
        let mut c: usize = 0;
        while c < cols
            invariant
                c <= cols,
                r < count,
                slot == r % slots.rows,
                slot < slots.rows,
                start.wf(),
                rows.wf(),
                slots.wf(),
                slots.cols == cols,
                count == start.rows == rows.rows,
                cols == start.cols == rows.cols,
                forall|a: T, b: T| #[trigger] call_requires(*sum, (a, b)),
                forall|q: int, d: int|
                    (0 <= q < r && 0 <= d < cols) || (q == r && 0 <= d < c) ==> call_ensures(
                        *sum,
                        (start.at(q, d), slots.at(q % slots.rows as int, d)),
                        #[trigger] rows.at(q, d),
                    ),
                forall|q: int, d: int|
                    (q == r && c <= d < cols) || (r < q < count && 0 <= d < cols)
                        ==> #[trigger] rows.at(q, d) == start.at(q, d),
            decreases cols - c,
        {
            let value = sum(rows.get(r, c), slots.get(slot, c));
            let ghost before = *rows;
            rows.set(r, c, value);
            proof {
                let n = cols as int;
                lemma_entry(count as int, n, r as int, c as int);
                assert forall|q: int, d: int|
                    0 <= q < count && 0 <= d < cols && !(q == r && d == c) implies
                    #[trigger] rows.at(q, d) == before.at(q, d) by {
                    lemma_entry(count as int, n, q, d);
                    if entry(n, q, d) == entry(n, r as int, c as int) {
                        lemma_entry_injective(n, q, d, r as int, c as int);
                    }
                }
                assert forall|q: int, d: int|
                    (0 <= q < r && 0 <= d < cols) || (q == r && 0 <= d < c + 1) implies call_ensures(
                    *sum,
                    (start.at(q, d), slots.at(q % slots.rows as int, d)),
                    #[trigger] rows.at(q, d),
                ) by {
                    if q != r || d != c {
                        assert(rows.at(q, d) == before.at(q, d));
                    }
                }
                assert forall|q: int, d: int|
                    (q == r && c + 1 <= d < cols) || (r < q < count && 0 <= d
                        < cols) implies #[trigger] rows.at(q, d) == start.at(q, d) by {
                    assert(rows.at(q, d) == before.at(q, d));
                }
            }
            c = c + 1;
        }
        r = r + 1;
    }
}

// -- What lives on the device --------------------------------------------------------

/// The parameters of a block of a shape's autoencoder.
#[derive(Debug)]
pub struct ShapeBlock<T> {
    pub attention: Vec<T>,
    pub mlp: Vec<T>,
}

/// The parameters of a shape's autoencoder that live on the device.
#[derive(Debug)]
pub struct ShapeParams<T> {
    pub surface_in: Vec<T>,
    pub read_surface: Vec<T>,
    pub blocks: Vec<ShapeBlock<T>>,
    pub to_moments: Vec<T>,
    pub from_latent: Vec<T>,
    pub query_in: Vec<T>,
    pub read_latent: Vec<T>,
    pub decoder_mlp: Vec<T>,
    pub head: Vec<T>,
    pub color_head: Vec<T>,
}

/// The parameters of the first `k` blocks: each block's attention, then its
/// feed-forward.
pub open spec fn block_params<T>(blocks: Seq<ShapeBlock<T>>, k: int) -> Seq<T>
    decreases k,
{
    if k <= 0 {
        Seq::empty()
    } else {
        block_params(blocks, k - 1) + blocks[k - 1].attention@ + blocks[k - 1].mlp@
    }
}

fn append_copy<T: Copy>(params: &mut Vec<T>, more: &Vec<T>)
    ensures
        final(params)@ == old(params)@ + more@,
{
    let mut next = copy_of(more);
    params.append(&mut next);
}

/// The parameters the device path owns: the encoder from its input to its
/// moments, then the decoder from its latent to its two heads.
pub fn device_params<T: Copy>(model: &ShapeParams<T>) -> (params: Vec<T>)
    ensures
        params@ == model.surface_in@ + model.read_surface@ + block_params(
            model.blocks@,
            model.blocks@.len() as int,
        ) + model.to_moments@ + model.from_latent@ + model.query_in@ + model.read_latent@
            + model.decoder_mlp@ + model.head@ + model.color_head@,
{
    let mut params: Vec<T> = copy_of(&model.surface_in);
    append_copy(&mut params, &model.read_surface);
    let ghost start = params@;
    let mut i: usize = 0;
    assert(start =~= start + block_params(model.blocks@, 0));
    while i < model.blocks.len()
        invariant
            i <= model.blocks@.len(),
            params@ == start + block_params(model.blocks@, i as int),
        decreases model.blocks.len() - i,
    {
        append_copy(&mut params, &model.blocks[i].attention);
        append_copy(&mut params, &model.blocks[i].mlp);
        i = i + 1;
        assert(params@ =~= start + block_params(model.blocks@, i as int));
    }
    append_copy(&mut params, &model.to_moments);
    append_copy(&mut params, &model.from_latent);
    append_copy(&mut params, &model.query_in);
    append_copy(&mut params, &model.read_latent);
    append_copy(&mut params, &model.decoder_mlp);
    append_copy(&mut params, &model.head);
    append_copy(&mut params, &model.color_head);
    params
}

} // verus!
