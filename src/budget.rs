//! The resource budget: cpu and memory counters that only grow, charged by
//! affine cost models, against fixed limits.
use vstd::prelude::*;

verus! {

/// The kinds of work that are charged.
#[derive(Clone, Copy, Debug, PartialEq, Eq, Structural)]
pub enum CostType {
    /// Making a new object; the size is the number of elements copied into it.
    ObjAlloc,
    /// Searching or updating a map; the size is its number of entries.
    MapEntry,
    /// Copying or updating a vector; the size is its number of elements.
    VecEntry,
    /// Recording an event; the size is its number of topics.
    EventRecord,
}

/// Number of cost types; each budget holds one model pair per type.
pub const N_COST_TYPES: usize = 4;

pub open spec fn cost_index(t: CostType) -> int {
    match t {
        CostType::ObjAlloc => 0,
        CostType::MapEntry => 1,
        CostType::VecEntry => 2,
        CostType::EventRecord => 3,
    }
}

fn cost_index_exec(t: CostType) -> (r: usize)
    ensures
        r as int == cost_index(t),
{
    match t {
        CostType::ObjAlloc => 0,
        CostType::MapEntry => 1,
        CostType::VecEntry => 2,
        CostType::EventRecord => 3,
    }
}

/// An affine cost: `const_term + linear_term * size`.
#[derive(Clone, Copy, Debug, PartialEq, Eq, Structural)]
pub struct CostModel {
    pub const_term: u64,
    pub linear_term: u64,
}

/// Why a charge failed.
#[derive(Clone, Copy, Debug, PartialEq, Eq, Structural)]
pub enum BudgetError {
    /// The cpu or the memory counter went past its limit.
    ResourceExhausted,
}

/// `x` capped at the largest `u64`.
pub open spec fn sat(x: int) -> int {
    if x > u64::MAX {
        u64::MAX as int
    } else {
        x
    }
}

/// The cost a model gives for a size, capped at the largest `u64`.
pub open spec fn model_cost(m: CostModel, size: u64) -> int {
    sat(m.const_term + m.linear_term * size)
}

/// The counter after charging each operation of `ops` in turn, from `start`.
pub open spec fn replay(start: int, models: Seq<CostModel>, ops: Seq<(CostType, u64)>) -> int
    decreases ops.len(),
{
    if ops.len() == 0 {
        start
    } else {
        let last = ops.last();
        sat(replay(start, models, ops.drop_last()) + model_cost(models[cost_index(last.0)], last.1))
    }
}

impl CostModel {
    /// Evaluates the model at `size`.
    pub fn evaluate(&self, size: u64) -> (r: u64)
        ensures
            r as int == model_cost(*self, size),
    {
        let lin: u64 = match self.linear_term.checked_mul(size) {
            Some(x) => x,
            None => u64::MAX,
        };
        self.const_term.saturating_add(lin)
    }
}

/// The budget of one host instance.
pub struct Budget {
    pub cpu_used: u64,
    pub mem_used: u64,
    pub cpu_limit: u64,
    pub mem_limit: u64,
    /// Cpu model of each cost type, by `cost_index`.
    pub cpu_models: Vec<CostModel>,
    /// Memory model of each cost type, by `cost_index`.
    pub mem_models: Vec<CostModel>,
}

impl Budget {
    pub open spec fn wf(&self) -> bool {
        self.cpu_models@.len() == N_COST_TYPES && self.mem_models@.len() == N_COST_TYPES
    }

    pub open spec fn exhausted(&self) -> bool {
        self.cpu_used > self.cpu_limit || self.mem_used > self.mem_limit
    }

    /// The same models and limits, whatever the counters.
    pub open spec fn same_config(&self, other: &Budget) -> bool {
        &&& self.cpu_limit == other.cpu_limit
        &&& self.mem_limit == other.mem_limit
        &&& self.cpu_models@ == other.cpu_models@
        &&& self.mem_models@ == other.mem_models@
    }

    /// A fresh budget: both counters at zero.
    pub fn new(
        cpu_limit: u64,
        mem_limit: u64,
        cpu_models: Vec<CostModel>,
        mem_models: Vec<CostModel>,
    ) -> (r: Budget)
        requires
            cpu_models@.len() == N_COST_TYPES,
            mem_models@.len() == N_COST_TYPES,
        ensures
            r.wf(),
            r.cpu_used == 0,
            r.mem_used == 0,
            r.cpu_limit == cpu_limit,
            r.mem_limit == mem_limit,
            r.cpu_models@ == cpu_models@,
            r.mem_models@ == mem_models@,
    {
        Budget { cpu_used: 0, mem_used: 0, cpu_limit, mem_limit, cpu_models, mem_models }
    }

    /// Adds the cost of one operation of type `ty` and size `size` to both
    /// counters. The charge stands whether or not a limit is passed; the
    /// result says whether one is.
    pub fn charge(&mut self, ty: CostType, size: u64) -> (r: Result<(), BudgetError>)
        requires
            old(self).wf(),
        ensures
            final(self).wf(),
            final(self).same_config(old(self)),
            final(self).cpu_used == replay(
                old(self).cpu_used as int,
                old(self).cpu_models@,
                seq![(ty, size)],
            ),
            final(self).mem_used == replay(
                old(self).mem_used as int,
                old(self).mem_models@,
                seq![(ty, size)],
            ),
            final(self).cpu_used >= old(self).cpu_used,
            final(self).mem_used >= old(self).mem_used,
            r is Ok <==> !final(self).exhausted(),
    {
        let i = cost_index_exec(ty);
        let c = self.cpu_models[i].evaluate(size);
        let m = self.mem_models[i].evaluate(size);
        self.cpu_used = self.cpu_used.saturating_add(c);
        self.mem_used = self.mem_used.saturating_add(m);
        proof {
            reveal_with_fuel(replay, 2);
            let ops = seq![(ty, size)];
            assert(ops.drop_last() =~= Seq::<(CostType, u64)>::empty());
        }
        if self.cpu_used > self.cpu_limit || self.mem_used > self.mem_limit {
            Err(BudgetError::ResourceExhausted)
        } else {
            Ok(())
        }
    }
}

proof fn lemma_replay_bounds(start: int, models: Seq<CostModel>, ops: Seq<(CostType, u64)>)
    requires
        0 <= start <= u64::MAX,
    ensures
        start <= replay(start, models, ops) <= u64::MAX,
    decreases ops.len(),
{
    if ops.len() > 0 {
        lemma_replay_bounds(start, models, ops.drop_last());
    }
}

proof fn lemma_model_cost_nonneg(m: CostModel, size: u64)
    ensures
        model_cost(m, size) >= 0,
{
    assert(m.const_term + m.linear_term * size >= 0) by (nonlinear_arith);
}

/// A replay of a prefix of `ops` never ends above the replay of all of them.
pub proof fn lemma_replay_prefix_le(start: int, models: Seq<CostModel>, ops: Seq<(CostType, u64)>, k: int)
    requires
        0 <= start <= u64::MAX,
        0 <= k <= ops.len(),
    ensures
        replay(start, models, ops.take(k)) <= replay(start, models, ops),
    decreases ops.len(),
{
    if k < ops.len() {
        lemma_replay_prefix_le(start, models, ops.drop_last(), k);
        assert(ops.drop_last().take(k) =~= ops.take(k));
        lemma_replay_bounds(start, models, ops.drop_last());
        lemma_model_cost_nonneg(models[cost_index(ops.last().0)], ops.last().1);
    } else {
        assert(ops.take(k) =~= ops);
    }
}

/// Charging one more operation extends the replay by that operation.
pub proof fn lemma_replay_push(
    start: int,
    models: Seq<CostModel>,
    ops: Seq<(CostType, u64)>,
    op: (CostType, u64),
)
    ensures
        replay(start, models, ops.push(op)) == replay(
            replay(start, models, ops),
            models,
            seq![op],
        ),
{
    reveal_with_fuel(replay, 2);
    assert(ops.push(op).drop_last() =~= ops);
    assert(seq![op].drop_last() =~= Seq::<(CostType, u64)>::empty());
}

/// Charging is order-independent: exchanging two neighbouring operations of a
/// sequence leaves the counter at the end of a replay unchanged.
pub proof fn lemma_replay_swap(
    start: int,
    models: Seq<CostModel>,
    pre: Seq<(CostType, u64)>,
    x: (CostType, u64),
    y: (CostType, u64),
    post: Seq<(CostType, u64)>,
)
    requires
        0 <= start <= u64::MAX,
    ensures
        replay(start, models, pre + seq![x, y] + post) == replay(
            start,
            models,
            pre + seq![y, x] + post,
        ),
    decreases post.len(),
{
    if post.len() == 0 {
        let a = pre + seq![x, y];
        let b = pre + seq![y, x];
        assert(a + post =~= a);
        assert(b + post =~= b);
        assert(a.drop_last() =~= pre.push(x));
        assert(b.drop_last() =~= pre.push(y));
        assert(pre.push(x).drop_last() =~= pre);
        assert(pre.push(y).drop_last() =~= pre);
        lemma_replay_bounds(start, models, pre);
        let base = replay(start, models, pre);
        let cx = model_cost(models[cost_index(x.0)], x.1);
        let cy = model_cost(models[cost_index(y.0)], y.1);
        assert(cx >= 0 && cy >= 0) by (nonlinear_arith)
            requires
                cx == model_cost(models[cost_index(x.0)], x.1),
                cy == model_cost(models[cost_index(y.0)], y.1),
        {
        }
        assert(replay(start, models, pre.push(x)) == sat(base + cx));
        assert(replay(start, models, pre.push(y)) == sat(base + cy));
        assert(replay(start, models, a) == sat(sat(base + cx) + cy));
        assert(replay(start, models, b) == sat(sat(base + cy) + cx));
    } else {
        let post0 = post.drop_last();
        lemma_replay_swap(start, models, pre, x, y, post0);
        assert((pre + seq![x, y] + post).drop_last() =~= pre + seq![x, y] + post0);
        assert((pre + seq![y, x] + post).drop_last() =~= pre + seq![y, x] + post0);
    }
}

/// Replaying one sequence of charges on two fresh budgets of the same
/// configuration gives the same counters.
pub proof fn lemma_replay_deterministic(b1: &Budget, b2: &Budget, ops: Seq<(CostType, u64)>)
    requires
        b1.same_config(b2),
        b1.cpu_used == 0 && b1.mem_used == 0,
        b2.cpu_used == 0 && b2.mem_used == 0,
    ensures
        replay(b1.cpu_used as int, b1.cpu_models@, ops) == replay(
            b2.cpu_used as int,
            b2.cpu_models@,
            ops,
        ),
        replay(b1.mem_used as int, b1.mem_models@, ops) == replay(
            b2.mem_used as int,
            b2.mem_models@,
            ops,
        ),
{
}

} // verus!
