//! Which position turns which pair of a token, and which head reads which
//! columns.
use crate::mmdit_layers::look;
use crate::mmdit_positions::{lemma_pair_of, pair_list, turn_of};
use vstd::prelude::*;

verus! {

/// How many pairs the axes before one have together.
pub open spec fn pairs_before(axes: Seq<usize>, axis: int) -> int
    decreases axis,
{
    if axis <= 0 {
        0
    } else {
        pairs_before(axes, axis - 1) + axes[axis - 1] as int / 2
    }
}

proof fn lemma_pairs_before(axes: Seq<usize>, axis: int)
    ensures
        axis <= axes.len() ==> pairs_before(axes, axis) == pair_list(axes, axis).len(),
    decreases axis,
{
    if axis > 0 {
        lemma_pairs_before(axes, axis - 1);
    }
}

/// A patch is turned by its row along the last axis but one, by its column
/// along the last, and by nothing along any other; each pair of an axis turns
/// at the speed of its own place among the axis's dimensions.
pub proof fn law_patch_is_turned_by_row_and_column(
    axes: Seq<usize>,
    text_len: int,
    height: int,
    width: int,
    row: int,
    column: int,
    axis: int,
    index: int,
)
    requires
        0 <= text_len,
        0 <= row < height,
        0 <= column < width,
        text_len + height * width <= usize::MAX,
        0 <= axis < axes.len(),
        0 <= index < axes[axis] as int / 2,
    ensures
        ({
            let turn = turn_of(
                axes,
                text_len,
                width,
                text_len + row * width + column,
                pairs_before(axes, axis) + index,
            );
            &&& turn.position == if axis == axes.len() - 2 {
                row
            } else if axis == axes.len() - 1 {
                column
            } else {
                0
            }
            &&& turn.index == index
            &&& turn.dim == axes[axis]
        }),
{
    lemma_pairs_before(axes, axis);
    lemma_pair_of(axes, axes.len() as int, axis, index);
    let patch = row * width + column;
    assert(0 <= row * width && row * width + column < height * width) by (nonlinear_arith)
        requires
            0 <= row < height,
            0 <= column < width,
    ;
    vstd::arithmetic::div_mod::lemma_fundamental_div_mod_converse(patch, width, row, column);
    assert(patch / width == row && patch % width == column);
    assert(row <= row * width) by (nonlinear_arith)
        requires
            0 <= row,
            1 <= width,
    ;
}

/// A head reads its own columns of a query and leaves what it finds there, and
/// reads the columns of its group among the keys; a causal query sees the keys
/// up to its own, any other all of them.
pub proof fn law_head_reads_its_groups_keys(
    context: int,
    heads: int,
    head_dim: int,
    group: int,
    causal: bool,
    key_head: int,
    member: int,
    token: int,
)
    requires
        0 <= key_head,
        0 <= member < group,
        0 <= head_dim,
        0 <= token < usize::MAX,
        0 <= context <= usize::MAX,
        key_head * group + member < heads,
        0 <= token * (heads * head_dim) + heads * head_dim <= usize::MAX,
    ensures
        ({
            let head = key_head * group + member;
            let found = look(context, heads * head_dim, head_dim, group, causal, head, token);
            &&& found.query == token * (heads * head_dim) + head * head_dim
            &&& found.target == found.query
            &&& found.keys == key_head * head_dim
            &&& found.visible == if causal {
                token + 1
            } else {
                context
            }
        }),
{
    let head = key_head * group + member;
    vstd::arithmetic::div_mod::lemma_fundamental_div_mod_converse(head, group, key_head, member);
    assert(0 <= head * head_dim <= heads * head_dim && 0 <= key_head * head_dim <= head * head_dim)
        by (nonlinear_arith)
        requires
            0 <= key_head,
            0 <= member,
            1 <= group,
            head == key_head * group + member,
            head < heads,
            0 <= head_dim,
    ;
    assert(0 <= token * (heads * head_dim)) by (nonlinear_arith)
        requires
            0 <= token,
            0 <= heads * head_dim,
    ;
}

} // verus!
