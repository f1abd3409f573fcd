//! Sparse mixture-of-experts layers: which experts a token goes to, and which
//! tokens an expert sees.
//!
//! Each token is routed to the `experts_per_token` experts whose router
//! probability is highest, and only those experts run for it. Every token is
//! processed by all of its chosen experts; none is ever dropped.
use crate::error::{invalid_config, Fault, NetworkError};
use crate::matrix::{lemma_entry, Matrix};
use crate::moe_law::lemma_no_more_than_slots;
use crate::text::{decimal, with_two_numbers};
use vstd::prelude::*;

verus! {

/// Default weight for the load-balancing loss, one hundredth, as the bits of a
/// single-precision number.
pub const DEFAULT_AUX_LOSS_WEIGHT: u32 = 0x3C23D70A;

/// Default weight for the router z-loss, one thousandth, as the bits of a
/// single-precision number.
pub const DEFAULT_ROUTER_Z_LOSS_WEIGHT: u32 = 0x3A83126F;

/// Expert index stored for a padding row's assignment slots.
pub const UNROUTED: usize = usize::MAX;

/// The shape of a mixture-of-experts layer. The two loss weights are the bits
/// of single-precision numbers.
#[derive(Clone, Copy, Debug, PartialEq, Eq, Structural)]
pub struct MoeConfig {
    pub num_experts: usize,
    /// Top-k. `1` is switch-style routing.
    pub experts_per_token: usize,
    /// Hidden width of one expert.
    pub d_ff: usize,
    /// Adds one always-active expert on top of the routed ones.
    pub shared_expert: bool,
    pub aux_loss_weight: u32,
    /// Zero disables the z-loss.
    pub router_z_loss_weight: u32,
}

impl MoeConfig {
    /// Why no layer of this shape can be built, when none can.
    pub open spec fn objection(self) -> Option<Fault> {
        if self.num_experts == 0 {
            Some(Fault::InvalidConfig("a MoE layer needs at least one expert"@))
        } else if self.experts_per_token == 0 || self.experts_per_token > self.num_experts {
            Some(
                Fault::InvalidConfig(
                    "experts_per_token must be between 1 and num_experts ("@ + decimal(
                        self.num_experts as nat,
                    ) + "), got "@ + decimal(self.experts_per_token as nat) + ""@,
                ),
            )
        } else if self.d_ff == 0 {
            Some(Fault::InvalidConfig("expert d_ff must be non-zero"@))
        } else {
            None
        }
    }

    /// Whether a layer of this shape can be built.
    pub open spec fn is_valid(self) -> bool {
        self.objection() is None
    }

    /// A layer without a shared expert, with the default loss weights.
    pub fn new(num_experts: usize, experts_per_token: usize, d_ff: usize) -> (config: MoeConfig)
        ensures
            config == (MoeConfig {
                num_experts,
                experts_per_token,
                d_ff,
                shared_expert: false,
                aux_loss_weight: DEFAULT_AUX_LOSS_WEIGHT,
                router_z_loss_weight: DEFAULT_ROUTER_Z_LOSS_WEIGHT,
            }),
    {
        MoeConfig {
            num_experts,
            experts_per_token,
            d_ff,
            shared_expert: false,
            aux_loss_weight: DEFAULT_AUX_LOSS_WEIGHT,
            router_z_loss_weight: DEFAULT_ROUTER_Z_LOSS_WEIGHT,
        }
    }

    pub fn with_shared_expert(self, shared_expert: bool) -> (config: MoeConfig)
        ensures
            config == (MoeConfig { shared_expert, ..self }),
    {
        MoeConfig { shared_expert, ..self }
    }

    pub fn with_aux_loss_weight(self, weight: u32) -> (config: MoeConfig)
        ensures
            config == (MoeConfig { aux_loss_weight: weight, ..self }),
    {
        MoeConfig { aux_loss_weight: weight, ..self }
    }

    pub fn with_router_z_loss_weight(self, weight: u32) -> (config: MoeConfig)
        ensures
            config == (MoeConfig { router_z_loss_weight: weight, ..self }),
    {
        MoeConfig { router_z_loss_weight: weight, ..self }
    }

    /// Refuses a shape no layer can have.
    pub fn validate(&self) -> (checked: Result<(), NetworkError>)
        ensures
            match checked {
                Ok(()) => self.is_valid(),
                Err(error) => self.objection() == Some(error@),
            },
    {
        if self.num_experts == 0 {
            return Err(invalid_config("a MoE layer needs at least one expert"));
        }
        if self.experts_per_token == 0 || self.experts_per_token > self.num_experts {
            return Err(
                NetworkError::InvalidConfig(
                    with_two_numbers(
                        "experts_per_token must be between 1 and num_experts (",
                        self.num_experts as u64,
                        "), got ",
                        self.experts_per_token as u64,
                        "",
                    ),
                ),
            );
        }
        if self.d_ff == 0 {
            return Err(invalid_config("expert d_ff must be non-zero"));
        }
        Ok(())
    }
}

// -- Routing -------------------------------------------------------------------

/// Whether an expert was taken.
pub open spec fn is_taken(taken: Seq<usize>, expert: int) -> bool {
    exists|i: int| 0 <= i < taken.len() && #[trigger] taken[i] == expert
}

/// Whether an expert is the best of those not taken: the one with the greatest
/// key, and of several such the first.
pub open spec fn is_best(keys: Seq<u32>, taken: Seq<usize>, expert: int) -> bool {
    &&& 0 <= expert < keys.len()
    &&& !is_taken(taken, expert)
    &&& forall|other: int|
        0 <= other < keys.len() && !#[trigger] is_taken(taken, other) ==> keys[other]
            < keys[expert] || (keys[other] == keys[expert] && expert <= other)
}

/// Whether a list of experts is the best for a token, best first.
pub open spec fn is_choice(keys: Seq<u32>, chosen: Seq<usize>) -> bool {
    forall|rank: int|
        0 <= rank < chosen.len() ==> is_best(keys, chosen.take(rank), #[trigger] chosen[rank] as int)
}

/// The slots of a token among all slots.
pub open spec fn slots_of_token(assignments: Seq<usize>, top_k: int, token: int) -> Seq<usize> {
    assignments.subrange(token * top_k, token * top_k + top_k)
}

/// Whether a token's slots are what its keys say: unrouted for padding.
pub open spec fn routes_token(
    keys: Matrix<u32>,
    valid: Seq<bool>,
    top_k: int,
    assignments: Seq<usize>,
    token: int,
) -> bool {
    let chosen = slots_of_token(assignments, top_k, token);
    if valid[token] {
        is_choice(keys.line(token), chosen)
    } else {
        forall|rank: int| 0 <= rank < top_k ==> #[trigger] chosen[rank] == UNROUTED
    }
}

/// Whether slots are the routing of every token.
pub open spec fn is_routing(
    keys: Matrix<u32>,
    valid: Seq<bool>,
    top_k: int,
    assignments: Seq<usize>,
) -> bool {
    &&& assignments.len() == keys.rows * top_k
    &&& forall|token: int|
        0 <= token < keys.rows ==> #[trigger] routes_token(keys, valid, top_k, assignments, token)
}

/// The slots among the first `k` that went to an expert, in order.
pub open spec fn slots_of_expert(assignments: Seq<usize>, expert: int, k: int) -> Seq<usize>
    decreases k,
{
    if k <= 0 {
        Seq::empty()
    } else {
        let before = slots_of_expert(assignments, expert, k - 1);
        if assignments[k - 1] == expert {
            before.push((k - 1) as usize)
        } else {
            before
        }
    }
}

/// The lengths of the first `k` lists, added up.
pub open spec fn total_length(lists: Seq<Vec<usize>>, k: int) -> nat
    decreases k,
{
    if k <= 0 {
        0
    } else {
        total_length(lists, k - 1) + lists[k - 1]@.len()
    }
}

/// Which experts the tokens of a batch go to, and which tokens an expert sees.
#[derive(Debug)]
pub struct Routing {
    pub tokens: usize,
    pub top_k: usize,
    /// The expert of slot `token * top_k + rank`, or [`UNROUTED`].
    pub assignments: Vec<usize>,
    /// The tokens routed to each expert.
    pub expert_tokens: Vec<Vec<usize>>,
    /// The slot each of them came from.
    pub expert_slots: Vec<Vec<usize>>,
}

impl Routing {
    /// Whether the lists of the experts are those of the slots.
    pub open spec fn wf(&self) -> bool {
        let n = self.assignments@.len();
        &&& self.top_k > 0
        &&& n == self.tokens * self.top_k
        &&& self.expert_tokens@.len() == self.expert_slots@.len()
        &&& forall|i: int|
            0 <= i < n ==> #[trigger] self.assignments@[i] < self.expert_slots@.len()
                || self.assignments@[i] == UNROUTED
        &&& forall|e: int|
            0 <= e < self.expert_slots@.len() ==> (#[trigger] self.expert_slots@[e])@
                == slots_of_expert(self.assignments@, e, n as int)
        &&& forall|e: int|
            0 <= e < self.expert_slots@.len() ==> (#[trigger] self.expert_tokens@[e])@
                == tokens_of_slots(self.expert_slots@[e]@, self.top_k as int)
    }
}

/// The token each slot belongs to.
pub open spec fn tokens_of_slots(slots: Seq<usize>, top_k: int) -> Seq<usize> {
    Seq::new(slots.len(), |i: int| (slots[i] as int / top_k) as usize)
}

/// A mixture-of-experts layer, as far as its shape goes: what it reads, and
/// how many weights its router and its experts hold.
#[derive(Debug)]
pub struct MoeLayer {
    pub d_model: usize,
    pub config: MoeConfig,
    pub router_weights: usize,
    pub expert_weights: Vec<usize>,
    pub shared_weights: Option<usize>,
}

/// The first `k` numbers of a list, added up.
pub open spec fn total(list: Seq<usize>, k: int) -> nat
    decreases k,
{
    if k <= 0 {
        0
    } else {
        total(list, k - 1) + list[k - 1] as nat
    }
}

/// The best expert of those not taken.
fn best_expert(keys: &[u32], taken: &Vec<usize>, start: usize) -> (best: usize)
    requires
        keys@.len() < UNROUTED,
        start <= taken@.len(),
        exists|e: int| 0 <= e < keys@.len() && !is_taken(taken@.skip(start as int), e),
    ensures
        is_best(keys@, taken@.skip(start as int), best as int),
{
    let ghost slots = taken@.skip(start as int);
    let mut best: usize = UNROUTED;
    let mut expert: usize = 0;
    while expert < keys.len()
        invariant
            expert <= keys@.len() < UNROUTED,
            start <= taken@.len(),
            slots == taken@.skip(start as int),
            best == UNROUTED <==> forall|e: int| 0 <= e < expert ==> #[trigger] is_taken(slots, e),
            best != UNROUTED ==> best < expert && !is_taken(slots, best as int) && forall|e: int|
                0 <= e < expert && !#[trigger] is_taken(slots, e) ==> keys@[e] < keys@[best as int]
                    || (keys@[e] == keys@[best as int] && best <= e),
        decreases keys.len() - expert,
    {
        let mut taken_already: bool = false;
        let mut i: usize = start;
        while i < taken.len()
            invariant
                start <= i <= taken@.len(),
                slots == taken@.skip(start as int),
                taken_already <==> exists|k: int|
                    0 <= k < i - start && #[trigger] slots[k] == expert,
            decreases taken.len() - i,
        {
            assert(slots[i - start] == taken@[i as int]);
            if taken[i] == expert {
                taken_already = true;
            }
            i = i + 1;
        }
        assert(taken_already <==> is_taken(slots, expert as int));
        if !taken_already && (best == UNROUTED || keys[expert] > keys[best]) {
            best = expert;
        }
        expert = expert + 1;
    }
    best
}

impl MoeLayer {
    /// Whether the parts of the layer go together.
    pub open spec fn wf(&self) -> bool {
        &&& self.config.is_valid()
        &&& self.config.num_experts < UNROUTED
        &&& self.expert_weights@.len() == self.config.num_experts
        &&& self.shared_weights is Some <==> self.config.shared_expert
    }

    /// A layer of the given shape, whose router and experts hold so many
    /// weights each.
    pub fn new(d_model: usize, config: MoeConfig, router: usize, expert: usize) -> (layer: Result<
        MoeLayer,
        NetworkError,
    >)
        requires
            config.num_experts < UNROUTED,
        ensures
            match layer {
                Ok(layer) => {
                    &&& config.is_valid()
                    &&& layer.wf()
                    &&& layer.d_model == d_model
                    &&& layer.config == config
                    &&& layer.router_weights == router
                    &&& layer.expert_weights@ == Seq::new(
                        config.num_experts as nat,
                        |e: int| expert,
                    )
                    &&& layer.shared_weights == if config.shared_expert {
                        Some(expert)
                    } else {
                        None
                    }
                },
                Err(error) => config.objection() == Some(error@),
            },
    {
        match config.validate() {
            Ok(()) => {},
            Err(error) => return Err(error),
        }
        let mut expert_weights: Vec<usize> = Vec::new();
        let mut e: usize = 0;
        while e < config.num_experts
            invariant
                e <= config.num_experts,
                expert_weights@ == Seq::new(e as nat, |e: int| expert),
            decreases config.num_experts - e,
        {
            expert_weights.push(expert);
            e = e + 1;
            assert(expert_weights@ =~= Seq::new(e as nat, |e: int| expert));
        }
        Ok(
            MoeLayer {
                d_model,
                config,
                router_weights: router,
                expert_weights,
                shared_weights: if config.shared_expert {
                    Some(expert)
                } else {
                    None
                },
            },
        )
    }

    /// The width of what the layer reads.
    pub fn d_model(&self) -> (width: usize)
        ensures
            width == self.d_model,
    {
        self.d_model
    }

    /// Every weight in the layer, routed experts included.
    pub fn num_parameters(&self) -> (count: usize)
        requires
            self.wf(),
            self.router_weights + total(self.expert_weights@, self.expert_weights@.len() as int)
                + self.shared_weights.unwrap_or(0) <= usize::MAX,
        ensures
            count == self.router_weights + total(
                self.expert_weights@,
                self.expert_weights@.len() as int,
            ) + self.shared_weights.unwrap_or(0),
    {
        let mut count: usize = self.router_weights;
        let mut e: usize = 0;
        while e < self.expert_weights.len()
            invariant
                e <= self.expert_weights@.len(),
                count == self.router_weights + total(self.expert_weights@, e as int),
                self.router_weights + total(
                    self.expert_weights@,
                    self.expert_weights@.len() as int,
                ) <= usize::MAX,
            decreases self.expert_weights.len() - e,
        {
            proof {
                lemma_total_grows(self.expert_weights@, e + 1, self.expert_weights@.len() as int);
            }
            count = count + self.expert_weights[e];
            e = e + 1;
        }
        match self.shared_weights {
            Some(shared) => count + shared,
            None => count,
        }
    }

    /// Weights a single token actually multiplies against: the router, its
    /// `experts_per_token` experts, and the shared expert if there is one.
    pub fn active_parameters(&self) -> (count: usize)
        requires
            self.wf(),
            self.router_weights + self.expert_weights@[0] * self.config.experts_per_token
                + self.shared_weights.unwrap_or(0) <= usize::MAX,
        ensures
            count == self.router_weights + self.expert_weights@[0] * self.config.experts_per_token
                + self.shared_weights.unwrap_or(0),
    {
        let routed: usize = self.expert_weights[0] * self.config.experts_per_token;
        let count: usize = self.router_weights + routed;
        match self.shared_weights {
            Some(shared) => count + shared,
            None => count,
        }
    }

    /// The experts of every token, by rank: `keys` holds the router's
    /// probabilities as numbers that order as they do, one row per token, and
    /// `valid` which rows hold a token. A padding row is routed nowhere.
    pub fn route(&self, keys: &Matrix<u32>, valid: &Vec<bool>) -> (assignments: Vec<usize>)
        requires
            self.wf(),
            keys.wf(),
            keys.cols == self.config.num_experts,
            valid@.len() == keys.rows,
            keys.rows * self.config.experts_per_token <= usize::MAX,
        ensures
            is_routing(*keys, valid@, self.config.experts_per_token as int, assignments@),
    {
        let top_k: usize = self.config.experts_per_token;
        let mut assignments: Vec<usize> = Vec::new();
        let mut token: usize = 0;
        assert(0 * top_k == 0);
        while token < keys.rows
            invariant
                self.wf(),
                keys.wf(),
                keys.cols == self.config.num_experts,
                valid@.len() == keys.rows,
                top_k == self.config.experts_per_token,
                token <= keys.rows,
                assignments@.len() == token * top_k,
                forall|t: int|
                    0 <= t < token ==> #[trigger] routes_token(
                        *keys,
                        valid@,
                        top_k as int,
                        assignments@,
                        t,
                    ),
            decreases keys.rows - token,
        {
            let ghost before = assignments@;
            let start: usize = assignments.len();
            if valid[token] {
                let row = keys.row(token);
                let mut rank: usize = 0;
                assert(assignments@.skip(start as int) =~= Seq::<usize>::empty());
                while rank < top_k
                    invariant
                        self.wf(),
                        rank <= top_k == self.config.experts_per_token,
                        row@.len() == self.config.num_experts,
                        start == before.len(),
                        assignments@.len() == start + rank,
                        assignments@.take(start as int) == before,
                        is_choice(row@, assignments@.skip(start as int)),
                    decreases top_k - rank,
                {
                    let ghost slots = assignments@.skip(start as int);
                    proof {
                        lemma_one_left(slots, row@.len() as int);
                    }
                    let best: usize = best_expert(row, &assignments, start);
                    assignments.push(best);
                    proof {
                        let now = assignments@.skip(start as int);
                        assert(now =~= slots.push(best));
                        assert(assignments@.take(start as int) =~= before);
                        assert forall|r: int| 0 <= r < now.len() implies is_best(
                            row@,
                            now.take(r),
                            #[trigger] now[r] as int,
                        ) by {
                            if r < slots.len() {
                                assert(now.take(r) =~= slots.take(r));
                                assert(now[r] == slots[r]);
                            } else {
                                assert(now.take(r) =~= slots);
                            }
                        }
                    }
                    rank = rank + 1;
                }
            } else {
                let mut rank: usize = 0;
                while rank < top_k
                    invariant
                        rank <= top_k,
                        start == before.len(),
                        assignments@.len() == start + rank,
                        assignments@.take(start as int) == before,
                        forall|k: int|
                            start <= k < assignments@.len() ==> #[trigger] assignments@[k]
                                == UNROUTED,
                    decreases top_k - rank,
                {
                    assignments.push(UNROUTED);
                    assert(assignments@.take(start as int) =~= before);
                    rank = rank + 1;
                }
            }
            proof {
                assert((token + 1) * top_k == token * top_k + top_k) by (nonlinear_arith);
                assert forall|t: int| 0 <= t < token + 1 implies #[trigger] routes_token(
                    *keys,
                    valid@,
                    top_k as int,
                    assignments@,
                    t,
                ) by {
                    let now = slots_of_token(assignments@, top_k as int, t);
                    if t < token {
                        assert(routes_token(*keys, valid@, top_k as int, before, t));
                        lemma_entry(token as int, top_k as int, t, 0);
                        assert(now =~= slots_of_token(before, top_k as int, t)) by {
                            assert forall|i: int| 0 <= i < top_k implies #[trigger] assignments@[t
                                * top_k + i] == before[t * top_k + i] by {
                                assert(assignments@.take(start as int)[t * top_k + i]
                                    == before[t * top_k + i]);
                            }
                        }
                    } else {
                        assert(now =~= assignments@.skip(start as int));
                    }
                }
            }
            token = token + 1;
        }
        assignments
    }

    /// Routes a batch of rows of `cols` numbers each, and groups its tokens by
    /// expert.
    pub fn forward_train(&self, cols: usize, keys: &Matrix<u32>, valid: &Vec<bool>) -> (routing:
        Result<Routing, NetworkError>)
        requires
            self.wf(),
            keys.wf(),
            keys.cols == self.config.num_experts,
            valid@.len() == keys.rows,
            keys.rows * self.config.experts_per_token <= usize::MAX,
        ensures
            match routing {
                Ok(routing) => {
                    &&& cols == self.d_model
                    &&& routing.wf()
                    &&& routing.tokens == keys.rows
                    &&& routing.top_k == self.config.experts_per_token
                    &&& routing.expert_slots@.len() == self.config.num_experts
                    &&& is_routing(*keys, valid@, routing.top_k as int, routing.assignments@)
                },
                Err(error) => cols != self.d_model && error@ == (Fault::InvalidInput {
                    expected: self.d_model,
                    actual: cols,
                }),
            },
    {
        if cols != self.d_model {
            return Err(NetworkError::InvalidInput { expected: self.d_model, actual: cols });
        }
        let top_k: usize = self.config.experts_per_token;
        let assignments = self.route(keys, valid);
        proof {
            lemma_routed_in_range(
                *keys,
                valid@,
                top_k as int,
                assignments@,
                assignments@.len() as int,
            );
        }
        Ok(group(keys.rows, top_k, self.config.num_experts, assignments))
    }
}

/// Groups slots by the expert they went to.
pub fn group(tokens: usize, top_k: usize, experts: usize, assignments: Vec<usize>) -> (routing:
    Routing)
    requires
        top_k > 0,
        assignments@.len() == tokens * top_k,
        experts < UNROUTED,
        forall|i: int|
            0 <= i < assignments@.len() ==> #[trigger] assignments@[i] < experts || assignments@[i]
                == UNROUTED,
    ensures
        routing.wf(),
        routing.tokens == tokens,
        routing.top_k == top_k,
        routing.assignments == assignments,
        routing.expert_slots@.len() == experts,
{
    let mut expert_tokens: Vec<Vec<usize>> = Vec::new();
    let mut expert_slots: Vec<Vec<usize>> = Vec::new();
    let mut e: usize = 0;
    while e < experts
        invariant
            e <= experts,
            expert_tokens@.len() == e,
            expert_slots@.len() == e,
            forall|i: int| 0 <= i < e ==> (#[trigger] expert_tokens@[i])@.len() == 0,
            forall|i: int| 0 <= i < e ==> (#[trigger] expert_slots@[i])@.len() == 0,
        decreases experts - e,
    {
        expert_tokens.push(Vec::new());
        expert_slots.push(Vec::new());
        e = e + 1;
    }
    let mut slot: usize = 0;
    proof {
        assert forall|i: int| 0 <= i < experts implies (#[trigger] expert_slots@[i])@
            == slots_of_expert(assignments@, i, 0) by {
            assert(expert_slots@[i]@ =~= Seq::<usize>::empty());
        }
        assert forall|i: int| 0 <= i < experts implies (#[trigger] expert_tokens@[i])@
            == tokens_of_slots(expert_slots@[i]@, top_k as int) by {
            assert(expert_tokens@[i]@ =~= tokens_of_slots(expert_slots@[i]@, top_k as int));
        }
    }
    while slot < assignments.len()
        invariant
            top_k > 0,
            experts < UNROUTED,
            slot <= assignments@.len(),
            expert_tokens@.len() == experts,
            expert_slots@.len() == experts,
            forall|i: int|
                0 <= i < assignments@.len() ==> #[trigger] assignments@[i] < experts
                    || assignments@[i] == UNROUTED,
            forall|i: int|
                0 <= i < experts ==> (#[trigger] expert_slots@[i])@ == slots_of_expert(
                    assignments@,
                    i,
                    slot as int,
                ),
            forall|i: int|
                0 <= i < experts ==> (#[trigger] expert_tokens@[i])@ == tokens_of_slots(
                    expert_slots@[i]@,
                    top_k as int,
                ),
        decreases assignments.len() - slot,
    {
        let expert: usize = assignments[slot];
        if expert != UNROUTED {
            let ghost slots = expert_slots@;
            let ghost tokens = expert_tokens@;
            expert_tokens[expert].push(slot / top_k);
            expert_slots[expert].push(slot);
            proof {
                assert forall|i: int| 0 <= i < experts implies (#[trigger] expert_slots@[i])@
                    == slots_of_expert(assignments@, i, slot + 1) by {
                    assert(slots[i]@ == slots_of_expert(assignments@, i, slot as int));
                }
                assert forall|i: int| 0 <= i < experts implies (#[trigger] expert_tokens@[i])@
                    == tokens_of_slots(expert_slots@[i]@, top_k as int) by {
                    assert(tokens[i]@ == tokens_of_slots(slots[i]@, top_k as int));
                    assert(expert_tokens@[i]@ =~= tokens_of_slots(expert_slots@[i]@, top_k as int));
                }
            }
        } else {
            assert forall|i: int| 0 <= i < experts implies (#[trigger] expert_slots@[i])@
                == slots_of_expert(assignments@, i, slot + 1) by {}
        }
        slot = slot + 1;
    }
    Routing { tokens, top_k, assignments, expert_tokens, expert_slots }
}

impl Routing {
    /// Slots that carry a token.
    pub fn routed_slots(&self) -> (count: usize)
        requires
            self.wf(),
            self.expert_slots@.len() < UNROUTED,
        ensures
            count == total_length(self.expert_tokens@, self.expert_tokens@.len() as int),
    {
        let slots: usize = self.assignments.len();
        proof {
            lemma_no_more_than_slots(*self);
        }
        let mut count: usize = 0;
        let mut e: usize = 0;
        while e < self.expert_tokens.len()
            invariant
                e <= self.expert_tokens@.len(),
                count == total_length(self.expert_tokens@, e as int),
                total_length(self.expert_tokens@, self.expert_tokens@.len() as int) <= usize::MAX,
            decreases self.expert_tokens.len() - e,
        {
            proof {
                lemma_total_length_grows(
                    self.expert_tokens@,
                    e + 1,
                    self.expert_tokens@.len() as int,
                );
            }
            count = count + self.expert_tokens[e].len();
            e = e + 1;
        }
        count
    }
}

/// What a routing names is an expert there is, or nothing.
proof fn lemma_routed_in_range(
    keys: Matrix<u32>,
    valid: Seq<bool>,
    top_k: int,
    assignments: Seq<usize>,
    n: int,
)
    requires
        top_k > 0,
        n == assignments.len(),
        keys.wf(),
        is_routing(keys, valid, top_k, assignments),
    ensures
        forall|i: int|
            0 <= i < n ==> #[trigger] assignments[i] < keys.cols || assignments[i] == UNROUTED,
{
    assert forall|i: int| 0 <= i < n implies #[trigger] assignments[i] < keys.cols || assignments[i]
        == UNROUTED by {
        let token = i / top_k;
        let rank = i % top_k;
        vstd::arithmetic::div_mod::lemma_fundamental_div_mod(i, top_k);
        assert(0 <= token < keys.rows && 0 <= rank < top_k && i == token * top_k + rank)
            by (nonlinear_arith)
            requires
                i == top_k * token + rank,
                0 <= i < keys.rows * top_k,
                top_k > 0,
                token == i / top_k,
                rank == i % top_k,
        ;
        lemma_entry(keys.rows as int, top_k, token, rank);
        assert(routes_token(keys, valid, top_k, assignments, token));
        let chosen = slots_of_token(assignments, top_k, token);
        assert(chosen[rank] == assignments[i]);
        if keys.cols > 0 {
            lemma_entry(keys.rows as int, keys.cols as int, token, 0);
        } else {
            assert(token * keys.cols == 0) by (nonlinear_arith)
                requires
                    keys.cols == 0,
            ;
        }
        assert(keys.line(token).len() == keys.cols);
    }
}

proof fn lemma_total_length_grows(lists: Seq<Vec<usize>>, k: int, m: int)
    requires
        k <= m,
    ensures
        total_length(lists, k) <= total_length(lists, m),
    decreases m - k,
{
    if k < m {
        lemma_total_length_grows(lists, k, m - 1);
    }
}

/// Fewer taken experts than experts leave one.
proof fn lemma_one_left(taken: Seq<usize>, experts: int)
    requires
        taken.len() < experts,
    ensures
        exists|e: int| 0 <= e < experts && !is_taken(taken, e),
    decreases taken.len(),
{
    if forall|e: int| 0 <= e < experts ==> is_taken(taken, e) {
        lemma_cover(taken, experts);
    }
}

/// A list that holds every number below a bound is at least that long.
proof fn lemma_cover(taken: Seq<usize>, bound: int)
    requires
        bound >= 0,
        forall|e: int| 0 <= e < bound ==> is_taken(taken, e),
    ensures
        taken.len() >= bound,
    decreases bound,
{
    if bound > 0 {
        assert(is_taken(taken, bound - 1));
        let i = choose|i: int| 0 <= i < taken.len() && #[trigger] taken[i] == bound - 1;
        let rest = taken.remove(i);
        assert forall|e: int| 0 <= e < bound - 1 implies is_taken(rest, e) by {
            assert(is_taken(taken, e));
            let j = choose|j: int| 0 <= j < taken.len() && #[trigger] taken[j] == e;
            if j < i {
                assert(rest[j] == e);
            } else {
                assert(rest[j - 1] == e);
            }
        }
        lemma_cover(rest, bound - 1);
    }
}

proof fn lemma_total_grows(list: Seq<usize>, k: int, m: int)
    requires
        k <= m,
    ensures
        total(list, k) <= total(list, m),
    decreases m - k,
{
    if k < m {
        lemma_total_grows(list, k, m - 1);
    }
}

} // verus!
