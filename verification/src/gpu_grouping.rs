//! The tokens a device's router sent to its experts, brought into one list
//! that is grouped by expert, so that an expert's products run over a
//! contiguous run of rows.
use crate::moe::total;
use vstd::prelude::*;

verus! {

/// The slots among the first `k` that went to an expert, in order.
pub open spec fn slots_sent(assigned: Seq<i32>, expert: int, k: int) -> Seq<int>
    decreases k,
{
    if k <= 0 {
        Seq::empty()
    } else if assigned[k - 1] == expert {
        slots_sent(assigned, expert, k - 1).push(k - 1)
    } else {
        slots_sent(assigned, expert, k - 1)
    }
}

/// Slots grouped by expert. The two lists are never empty: where nothing was
/// routed they hold one zero.
#[derive(Debug)]
pub struct Grouping {
    /// How many slots each expert got.
    pub counts: Vec<usize>,
    /// Where each expert's group starts.
    pub offsets: Vec<usize>,
    /// How many slots were routed at all.
    pub routed: usize,
    /// The token and the slot of each entry.
    pub token_of: Vec<u32>,
    pub slot_of: Vec<u32>,
}

impl Grouping {
    /// Whether the groups follow one another.
    pub open spec fn wf(&self) -> bool {
        let experts = self.counts@.len() as int;
        &&& self.offsets@.len() == experts
        &&& self.routed == total(self.counts@, experts)
        &&& forall|e: int|
            0 <= e < experts ==> #[trigger] self.offsets@[e] == total(self.counts@, e)
        &&& self.token_of@.len() == if self.routed == 0 {
            1
        } else {
            self.routed as nat
        }
        &&& self.slot_of@.len() == self.token_of@.len()
    }

    /// Whether an expert's group is the slots that went to it.
    pub open spec fn groups(&self, assigned: Seq<i32>, top_k: int, e: int) -> bool {
        let slots = slots_sent(assigned, e, assigned.len() as int);
        &&& self.counts@[e] == slots.len()
        &&& forall|r: int|
            0 <= r < slots.len() ==> self.slot_of@[self.offsets@[e] + r]
                == #[trigger] slots[r]
        &&& forall|r: int|
            0 <= r < slots.len() ==> self.token_of@[self.offsets@[e] + r] == (#[trigger] slots[r])
                / top_k
    }
}

proof fn lemma_slots_sent(assigned: Seq<i32>, expert: int, k: int)
    requires
        0 <= k <= assigned.len(),
    ensures
        slots_sent(assigned, expert, k).len() <= k,
        forall|r: int|
            0 <= r < slots_sent(assigned, expert, k).len() ==> 0 <= #[trigger] slots_sent(
                assigned,
                expert,
                k,
            )[r] < k,
    decreases k,
{
    if k > 0 {
        lemma_slots_sent(assigned, expert, k - 1);
    }
}

proof fn lemma_slots_grow(assigned: Seq<i32>, expert: int, k: int, m: int)
    requires
        0 <= k <= m <= assigned.len(),
    ensures
        slots_sent(assigned, expert, k).len() <= slots_sent(assigned, expert, m).len(),
        forall|r: int|
            0 <= r < slots_sent(assigned, expert, k).len() ==> #[trigger] slots_sent(
                assigned,
                expert,
                m,
            )[r] == slots_sent(assigned, expert, k)[r],
    decreases m - k,
{
    if k < m {
        lemma_slots_grow(assigned, expert, k, m - 1);
    }
}

/// The slots of the first `e` experts among the first `k`, counted.
spec fn sent_before(assigned: Seq<i32>, e: int, k: int) -> nat
    decreases e,
{
    if e <= 0 {
        0
    } else {
        sent_before(assigned, e - 1, k) + slots_sent(assigned, e - 1, k).len()
    }
}

proof fn lemma_sent_step(assigned: Seq<i32>, e: int, k: int)
    requires
        0 < k,
        0 <= e,
    ensures
        sent_before(assigned, e, k) == sent_before(assigned, e, k - 1) + if 0 <= assigned[k - 1]
            < e {
            1nat
        } else {
            0
        },
    decreases e,
{
    if e > 0 {
        lemma_sent_step(assigned, e - 1, k);
    }
}

proof fn lemma_sent_none(assigned: Seq<i32>, e: int)
    ensures
        sent_before(assigned, e, 0) == 0,
    decreases e,
{
    if e > 0 {
        lemma_sent_none(assigned, e - 1);
    }
}

proof fn lemma_sent_bound(assigned: Seq<i32>, e: int, k: int)
    requires
        0 <= k,
        0 <= e,
    ensures
        sent_before(assigned, e, k) <= k,
    decreases k,
{
    if k > 0 {
        lemma_sent_bound(assigned, e, k - 1);
        lemma_sent_step(assigned, e, k);
    } else {
        lemma_sent_none(assigned, e);
    }
}

proof fn lemma_total_is_sent(assigned: Seq<i32>, counts: Seq<usize>, e: int)
    requires
        0 <= e <= counts.len(),
        forall|i: int|
            0 <= i < counts.len() ==> #[trigger] counts[i] == slots_sent(
                assigned,
                i,
                assigned.len() as int,
            ).len(),
    ensures
        total(counts, e) == sent_before(assigned, e, assigned.len() as int),
    decreases e,
{
    if e > 0 {
        lemma_total_is_sent(assigned, counts, e - 1);
    }
}

/// A group ends where or before a later one starts.
pub proof fn lemma_groups_apart(counts: Seq<usize>, e: int, f: int)
    requires
        0 <= e < f <= counts.len(),
    ensures
        total(counts, e) + counts[e] <= total(counts, f),
    decreases f - e,
{
    if e + 1 < f {
        lemma_groups_apart(counts, e, f - 1);
    }
}

/// Groups the slots of a batch by expert. A negative entry was routed nowhere.
pub fn group_slots(assigned: &Vec<i32>, experts: usize, top_k: usize) -> (grouping: Grouping)
    requires
        top_k > 0,
        assigned@.len() <= u32::MAX,
        forall|i: int| 0 <= i < assigned@.len() ==> (#[trigger] assigned@[i]) < experts,
    ensures
        grouping.wf(),
        grouping.counts@.len() == experts,
        forall|e: int|
            0 <= e < experts ==> #[trigger] grouping.groups(assigned@, top_k as int, e),
{
    let n: usize = assigned.len();
    let counts = count_slots(assigned, experts);
    proof {
        lemma_total_is_sent(assigned@, counts@, experts as int);
        lemma_sent_bound(assigned@, experts as int, n as int);
    }
    let mut offsets: Vec<usize> = Vec::new();
    let mut cursor: Vec<usize> = Vec::new();
    let mut routed: usize = 0;
    let mut e: usize = 0;
    while e < experts
        invariant
            e <= experts == counts@.len(),
            offsets@.len() == e,
            cursor@.len() == e,
            routed == total(counts@, e as int),
            total(counts@, experts as int) <= n,
            forall|i: int| 0 <= i < e ==> #[trigger] offsets@[i] == total(counts@, i),
            forall|i: int| 0 <= i < e ==> #[trigger] cursor@[i] == offsets@[i],
        decreases experts - e,
    {
        proof {
            lemma_groups_apart(counts@, e as int, experts as int);
        }
        offsets.push(routed);
        cursor.push(routed);
        routed = routed + counts[e];
        e = e + 1;
    }
    let mut token_of: Vec<u32> = Vec::new();
    let mut slot_of: Vec<u32> = Vec::new();
    token_of.push(0);
    slot_of.push(0);
    while token_of.len() < routed
        invariant
            token_of@.len() == slot_of@.len(),
            token_of@.len() == if routed == 0 {
                1
            } else {
                token_of@.len()
            },
            1 <= token_of@.len(),
            routed > 0 ==> token_of@.len() <= routed,
        decreases routed - token_of.len(),
    {
        token_of.push(0);
        slot_of.push(0);
    }
    let mut slot: usize = 0;
    while slot < n
        invariant
            slot <= n == assigned@.len(),
            n <= u32::MAX,
            top_k > 0,
            experts == counts@.len() == offsets@.len() == cursor@.len(),
            token_of@.len() == slot_of@.len(),
            token_of@.len() == if routed == 0 {
                1
            } else {
                routed as nat
            },
            routed == total(counts@, experts as int),
            forall|i: int| 0 <= i < n ==> (#[trigger] assigned@[i]) < experts,
            forall|i: int|
                0 <= i < experts ==> #[trigger] counts@[i] == slots_sent(
                    assigned@,
                    i,
                    n as int,
                ).len(),
            forall|i: int| 0 <= i < experts ==> #[trigger] offsets@[i] == total(counts@, i),
            forall|i: int|
                0 <= i < experts ==> #[trigger] cursor@[i] == offsets@[i] + slots_sent(
                    assigned@,
                    i,
                    slot as int,
                ).len(),
            forall|i: int, r: int|
                0 <= i < experts && 0 <= r < slots_sent(assigned@, i, slot as int).len()
                    ==> #[trigger] placed(
                    slot_of@,
                    token_of@,
                    offsets@,
                    assigned@,
                    i,
                    r,
                    slot as int,
                    top_k as int,
                ),
        decreases n - slot,
    {
        let expert: i32 = assigned[slot];
        let ghost old_slots = slot_of@;
        let ghost old_tokens = token_of@;
        if expert >= 0 {
            let x: usize = expert as usize;
            let position: usize = cursor[x];
            proof {
                lemma_slots_grow(assigned@, x as int, slot + 1, n as int);
                lemma_groups_apart(counts@, x as int, experts as int);
                assert(counts@[x as int] == slots_sent(assigned@, x as int, n as int).len());
            }
            token_of.set(position, (slot / top_k) as u32);
            slot_of.set(position, slot as u32);
            cursor.set(x, position + 1);
        }
        proof {
            assert forall|i: int, r: int|
                0 <= i < experts && 0 <= r < slots_sent(
                    assigned@,
                    i,
                    slot + 1,
                ).len() implies #[trigger] placed(
                slot_of@,
                token_of@,
                offsets@,
                assigned@,
                i,
                r,
                slot + 1,
                top_k as int,
            ) by {
                lemma_slots_grow(assigned@, i, slot + 1, n as int);
                lemma_slots_grow(assigned@, i, slot as int, slot + 1);
                lemma_groups_apart(counts@, i, experts as int);
                assert(counts@[i] == slots_sent(assigned@, i, n as int).len());
                assert(offsets@[i] == total(counts@, i));
                if r >= slots_sent(assigned@, i, slot as int).len() {
                    assert(expert == i);
                    assert(slots_sent(assigned@, i, slot + 1)[r] == slot);
                    assert(slot as int / (top_k as int) <= slot) by (nonlinear_arith)
                        requires
                            top_k > 0,
                    ;
                } else {
                    assert(slots_sent(assigned@, i, slot + 1)[r] == slots_sent(
                        assigned@,
                        i,
                        slot as int,
                    )[r]);
                    assert(placed(
                        old_slots,
                        old_tokens,
                        offsets@,
                        assigned@,
                        i,
                        r,
                        slot as int,
                        top_k as int,
                    ));
                    if expert >= 0 && expert != i {
                        let x = expert as int;
                        lemma_slots_grow(assigned@, i, slot as int, n as int);
                        lemma_slots_grow(assigned@, x, slot + 1, n as int);
                        assert(counts@[i] == slots_sent(assigned@, i, n as int).len());
                        assert(counts@[x] == slots_sent(assigned@, x, n as int).len());
                        if i < x {
                            lemma_groups_apart(counts@, i, x);
                        } else {
                            lemma_groups_apart(counts@, x, i);
                        }
                    }
                }
            }
        }
        slot = slot + 1;
    }
    let grouping = Grouping { counts, offsets, routed, token_of, slot_of };
    proof {
        assert forall|e: int| 0 <= e < experts implies #[trigger] grouping.groups(
            assigned@,
            top_k as int,
            e,
        ) by {
            let slots = slots_sent(assigned@, e, n as int);
            assert(grouping.counts@[e] == slots.len());
            assert forall|r: int| 0 <= r < slots.len() implies grouping.slot_of@[grouping.offsets@[e]
                + r] == #[trigger] slots[r] && grouping.token_of@[grouping.offsets@[e] + r]
                == slots[r] / (top_k as int) by {
                assert(placed(
                    grouping.slot_of@,
                    grouping.token_of@,
                    grouping.offsets@,
                    assigned@,
                    e,
                    r,
                    n as int,
                    top_k as int,
                ));
            }
        }
    }
    grouping
}

/// Whether entry `r` of an expert's group is the slot that went to it.
spec fn placed(
    slot_of: Seq<u32>,
    token_of: Seq<u32>,
    offsets: Seq<usize>,
    assigned: Seq<i32>,
    e: int,
    r: int,
    k: int,
    top_k: int,
) -> bool {
    let slot = slots_sent(assigned, e, k)[r];
    slot_of[offsets[e] + r] == slot && token_of[offsets[e] + r] == slot / top_k
}

/// How many slots went to each expert.
fn count_slots(assigned: &Vec<i32>, experts: usize) -> (counts: Vec<usize>)
    requires
        forall|i: int| 0 <= i < assigned@.len() ==> (#[trigger] assigned@[i]) < experts,
    ensures
        counts@.len() == experts,
        forall|e: int|
            0 <= e < experts ==> #[trigger] counts@[e] == slots_sent(
                assigned@,
                e,
                assigned@.len() as int,
            ).len(),
{
    let mut counts: Vec<usize> = Vec::new();
    let mut e: usize = 0;
    while e < experts
        invariant
            e <= experts,
            counts@.len() == e,
            forall|i: int| 0 <= i < e ==> #[trigger] counts@[i] == 0,
        decreases experts - e,
    {
        counts.push(0);
        e = e + 1;
    }
    let n: usize = assigned.len();
    let mut k: usize = 0;
    while k < n
        invariant
            k <= n == assigned@.len(),
            counts@.len() == experts,
            forall|i: int| 0 <= i < n ==> (#[trigger] assigned@[i]) < experts,
            forall|i: int|
                0 <= i < experts ==> #[trigger] counts@[i] == slots_sent(
                    assigned@,
                    i,
                    k as int,
                ).len(),
        decreases n - k,
    {
        let expert: i32 = assigned[k];
        if expert >= 0 {
            let x: usize = expert as usize;
            proof {
                lemma_slots_sent(assigned@, x as int, k as int);
                assert(counts@[x as int] <= k);
            }
            counts.set(x, counts[x] + 1);
        }
        k = k + 1;
    }
    counts
}

impl Grouping {
    /// Gates of the entries, by their slots.
    pub fn gates<T: Copy>(&self, gates: &Vec<T>, zero: T) -> (grouped: Vec<T>)
        requires
            self.wf(),
            forall|i: int| 0 <= i < self.routed ==> (#[trigger] self.slot_of@[i]) < gates@.len(),
        ensures
            grouped@.len() == self.slot_of@.len(),
            forall|i: int|
                0 <= i < self.routed ==> #[trigger] grouped@[i] == gates@[self.slot_of@[i] as int],
            self.routed == 0 ==> grouped@ == seq![zero],
    {
        let mut grouped: Vec<T> = Vec::new();
        let mut i: usize = 0;
        while i < self.routed
            invariant
                i <= self.routed,
                self.wf(),
                grouped@.len() == i,
                forall|k: int|
                    0 <= k < self.routed ==> (#[trigger] self.slot_of@[k]) < gates@.len(),
                forall|k: int|
                    0 <= k < i ==> #[trigger] grouped@[k] == gates@[self.slot_of@[k] as int],
            decreases self.routed - i,
        {
            grouped.push(gates[self.slot_of[i] as usize]);
            i = i + 1;
        }
        if self.routed == 0 {
            grouped.push(zero);
            assert(grouped@ =~= seq![zero]);
        }
        grouped
    }
}

/// Every routed slot is in the list once: the entries of the groups are all
/// entries there are, and no two groups share one.
pub proof fn law_groups_are_everything(grouping: Grouping, i: int)
    requires
        grouping.wf(),
        0 <= i < grouping.routed,
    ensures
        exists|e: int|
            0 <= e < grouping.counts@.len() && #[trigger] grouping.offsets@[e] <= i
                < grouping.offsets@[e] + grouping.counts@[e],
        forall|e: int, f: int|
            0 <= e < f < grouping.counts@.len() ==> #[trigger] grouping.offsets@[e]
                + grouping.counts@[e] <= #[trigger] grouping.offsets@[f],
{
    lemma_group_of(grouping, i, grouping.counts@.len() as int);
    assert forall|e: int, f: int|
        0 <= e < f < grouping.counts@.len() implies #[trigger] grouping.offsets@[e]
        + grouping.counts@[e] <= #[trigger] grouping.offsets@[f] by {
        lemma_groups_apart(grouping.counts@, e, f);
    }
}

proof fn lemma_group_of(grouping: Grouping, i: int, k: int)
    requires
        grouping.wf(),
        0 <= k <= grouping.counts@.len(),
        0 <= i < total(grouping.counts@, k),
    ensures
        exists|e: int|
            0 <= e < k && #[trigger] grouping.offsets@[e] <= i < grouping.offsets@[e]
                + grouping.counts@[e],
    decreases k,
{
    if k > 0 {
        if i >= total(grouping.counts@, k - 1) {
            assert(grouping.offsets@[k - 1] <= i < grouping.offsets@[k - 1] + grouping.counts@[k
                - 1]);
        } else {
            lemma_group_of(grouping, i, k - 1);
        }
    }
}

} // verus!
