//! The host instance: object store, budget and event journal owned together,
//! and the operations that a contract calls, each charged to the budget
//! before its work is done.
use vstd::prelude::*;
use crate::budget::{replay, sat, Budget, BudgetError, CostModel, CostType, N_COST_TYPES};
use crate::events::{rolled_back, ContractEvent, ContractEventType, DebugEvent, EventError, EventView, Events, HostEvent};
use crate::objects::{is_put, ObjError, ObjectStore, ObjectView};
use crate::contracts::{multiple_events_charges, single_event_charges, multiple_events_prefix, multiple_events_ran, single_event_ran, TestContract};
use crate::value::Val;

verus! {

/// Most topics a contract event may carry.
pub const MAX_TOPICS: usize = 4;

/// Cpu limit of a budget made by `Host::default`.
pub const DEFAULT_CPU_LIMIT: u64 = 40_000_000;

/// Memory limit of a budget made by `Host::default`.
pub const DEFAULT_MEM_LIMIT: u64 = 50_000_000;

/// Why a host operation failed.
#[derive(Clone, Copy, Debug, PartialEq, Eq, Structural)]
pub enum HostError {
    Object(ObjError),
    Budget(BudgetError),
    Event(EventError),
    /// The topics of an event are not a vector of at most `MAX_TOPICS` values.
    BadTopics,
    /// No contract is registered under the identifier.
    NoSuchContract,
    /// A contract is registered under the identifier already.
    ContractExists,
    /// The contract called did not return a value.
    ContractFailed,
}

/// One host instance.
pub struct Host {
    pub objects: ObjectStore,
    pub budget: Budget,
    pub events: Events,
    /// Identifiers of the contracts being executed, innermost last.
    pub frames: Vec<Val>,
    /// The contracts that can be called, each under its identifier.
    pub contracts: Vec<(Val, TestContract)>,
}

pub open spec fn object_handle(v: Val) -> Option<u32> {
    match v {
        Val::Object(h) => Some(h),
        _ => None,
    }
}

/// The budget after charging one operation.
pub open spec fn charged_once(b0: &Budget, b1: &Budget, t: CostType, size: u64) -> bool {
    &&& b1.wf()
    &&& b1.same_config(b0)
    &&& b1.cpu_used == replay(b0.cpu_used as int, b0.cpu_models@, seq![(t, size)])
    &&& b1.mem_used == replay(b0.mem_used as int, b0.mem_models@, seq![(t, size)])
    &&& b1.cpu_used >= b0.cpu_used
    &&& b1.mem_used >= b0.mem_used
}

/// The budget after charging each operation of `ops` in turn.
pub open spec fn charged_seq(b0: &Budget, b1: &Budget, ops: Seq<(CostType, u64)>) -> bool {
    &&& b1.wf()
    &&& b1.same_config(b0)
    &&& b1.cpu_used == replay(b0.cpu_used as int, b0.cpu_models@, ops)
    &&& b1.mem_used == replay(b0.mem_used as int, b0.mem_models@, ops)
}

/// Charging all of `ops` from `b` stays within both limits.
pub open spec fn fits(b: &Budget, ops: Seq<(CostType, u64)>) -> bool {
    &&& replay(b.cpu_used as int, b.cpu_models@, ops) <= b.cpu_limit
    &&& replay(b.mem_used as int, b.mem_models@, ops) <= b.mem_limit
}

/// A sequence of charges does not fit where one of its prefixes already
/// exhausts the budget.
pub proof fn lemma_exhausted_prefix(b0: &Budget, b1: &Budget, ops: Seq<(CostType, u64)>, k: int)
    requires
        0 <= k <= ops.len(),
        charged_seq(b0, b1, ops.take(k)),
        b1.exhausted(),
    ensures
        !fits(b0, ops),
{
    crate::budget::lemma_replay_prefix_le(b0.cpu_used as int, b0.cpu_models@, ops, k);
    crate::budget::lemma_replay_prefix_le(b0.mem_used as int, b0.mem_models@, ops, k);
}

/// Charge `j` of `ops`, made after the first `j`, completes the first `j + 1`.
pub proof fn lemma_charged_step(b0: &Budget, bj: &Budget, b1: &Budget, ops: Seq<(CostType, u64)>, j: int)
    requires
        0 <= j < ops.len(),
        charged_seq(b0, bj, ops.take(j)),
        charged_once(bj, b1, ops[j].0, ops[j].1),
    ensures
        charged_seq(b0, b1, ops.take(j + 1)),
        b1.exhausted() ==> !fits(b0, ops),
{
    lemma_charged_seq_push(b0, bj, b1, ops.take(j), ops[j].0, ops[j].1);
    assert(ops.take(j).push((ops[j].0, ops[j].1)) =~= ops.take(j + 1));
    if b1.exhausted() {
        lemma_exhausted_prefix(b0, b1, ops, j + 1);
    }
}

/// No charge made is no charge at all.
pub proof fn lemma_charged_none(b0: &Budget, ops: Seq<(CostType, u64)>)
    requires
        b0.wf(),
    ensures
        charged_seq(b0, b0, ops.take(0)),
{
    assert(ops.take(0) =~= Seq::<(CostType, u64)>::empty());
}

/// One charge after a sequence of charges is the sequence extended by it.
pub proof fn lemma_charged_seq_push(
    b0: &Budget,
    b1: &Budget,
    b2: &Budget,
    ops: Seq<(CostType, u64)>,
    t: CostType,
    size: u64,
)
    requires
        charged_seq(b0, b1, ops),
        charged_once(b1, b2, t, size),
    ensures
        charged_seq(b0, b2, ops.push((t, size))),
{
    crate::budget::lemma_replay_push(b0.cpu_used as int, b0.cpu_models@, ops, (t, size));
    crate::budget::lemma_replay_push(b0.mem_used as int, b0.mem_models@, ops, (t, size));
}

/// `i` is the first position at which a contract is registered under `id`.
pub open spec fn first_registered(contracts: Seq<(Val, TestContract)>, id: Val, i: int) -> bool {
    &&& 0 <= i < contracts.len()
    &&& contracts[i].0 == id
    &&& forall|j: int| 0 <= j < i ==> #[trigger] contracts[j].0 != id
}

impl Default for Host {
    /// A host with an empty store and journal and a fresh budget with the
    /// default limits and models.
    fn default() -> (r: Host)
        ensures
            r.wf(),
            r.objects.len() == 0,
            r.events@ == Seq::<EventView>::empty(),
            r.frames@ == Seq::<Val>::empty(),
            r.contracts@ == Seq::<(Val, TestContract)>::empty(),
            r.budget.cpu_used == 0,
            r.budget.mem_used == 0,
            r.budget.cpu_limit == DEFAULT_CPU_LIMIT,
            r.budget.mem_limit == DEFAULT_MEM_LIMIT,
            r.budget.cpu_models@ == default_cost_models(),
            r.budget.mem_models@ == default_cost_models(),
    {
        Host::new(Budget::new(DEFAULT_CPU_LIMIT, DEFAULT_MEM_LIMIT, default_models(), default_models()))
    }
}

/// The cost models of a default host, by cost type: object allocation, map
/// entry, vector entry, event record.
pub open spec fn default_cost_models() -> Seq<CostModel> {
    seq![
        CostModel { const_term: 100, linear_term: 10 },
        CostModel { const_term: 50, linear_term: 20 },
        CostModel { const_term: 50, linear_term: 10 },
        CostModel { const_term: 200, linear_term: 50 },
    ]
}

fn default_models() -> (r: Vec<CostModel>)
    ensures
        r@ == default_cost_models(),
        r@.len() == N_COST_TYPES,
{
    let mut v: Vec<CostModel> = Vec::new();
    v.push(CostModel { const_term: 100, linear_term: 10 });
    v.push(CostModel { const_term: 50, linear_term: 20 });
    v.push(CostModel { const_term: 50, linear_term: 10 });
    v.push(CostModel { const_term: 200, linear_term: 50 });
    assert(v@ =~= default_cost_models());
    v
}

impl Host {
    pub open spec fn wf(&self) -> bool {
        self.objects.wf() && self.budget.wf()
    }

    /// The identifier of the contract being executed, if any.
    pub open spec fn current_contract(&self) -> Option<Val> {
        if self.frames@.len() == 0 {
            None
        } else {
            Some(self.frames@.last())
        }
    }

    /// Only the object store and the budget may have changed, and only as
    /// they are allowed to: objects are added, counters grow.
    pub open spec fn evolves_from(&self, old: &Host) -> bool {
        &&& self.objects.extends(&old.objects)
        &&& self.budget.same_config(&old.budget)
        &&& self.budget.cpu_used >= old.budget.cpu_used
        &&& self.budget.mem_used >= old.budget.mem_used
        &&& self.frames@ == old.frames@
        &&& self.contracts@ == old.contracts@
    }

    /// The journal holds what it held in `old`, and perhaps more after it.
    pub open spec fn events_extend(&self, old: &Host) -> bool {
        &&& self.events@.len() >= old.events@.len()
        &&& self.events@.subrange(0, old.events@.len() as int) == old.events@
    }

    /// A host with an empty store and journal and the given budget.
    pub fn new(budget: Budget) -> (r: Host)
        requires
            budget.wf(),
        ensures
            r.wf(),
            r.objects.len() == 0,
            r.events@ == Seq::<EventView>::empty(),
            r.budget == budget,
            r.frames@ == Seq::<Val>::empty(),
            r.contracts@ == Seq::<(Val, TestContract)>::empty(),
    {
        Host {
            objects: ObjectStore::new(),
            budget,
            events: Events::new(),
            frames: Vec::new(),
            contracts: Vec::new(),
        }
    }

    /// Charges one operation to the budget.
    fn charge(&mut self, t: CostType, size: u64) -> (r: Result<(), HostError>)
        requires
            old(self).wf(),
        ensures
            final(self).wf(),
            final(self).objects == old(self).objects,
            final(self).events == old(self).events,
            final(self).frames == old(self).frames,
            final(self).contracts == old(self).contracts,
            charged_once(&old(self).budget, &final(self).budget, t, size),
            r is Ok <==> !final(self).budget.exhausted(),
            r is Err ==> r == Err::<(), HostError>(HostError::Budget(BudgetError::ResourceExhausted)),
    {
        match self.budget.charge(t, size) {
            Ok(()) => Ok(()),
            Err(e) => Err(HostError::Budget(e)),
        }
    }

    /// Makes an empty map.
    pub fn map_new(&mut self) -> (r: Result<Val, HostError>)
        requires
            old(self).wf(),
        ensures
            final(self).wf(),
            final(self).evolves_from(old(self)),
            final(self).events == old(self).events,
            charged_once(&old(self).budget, &final(self).budget, CostType::ObjAlloc, 0),
            final(self).budget.exhausted() ==> r == Err::<Val, HostError>(
                HostError::Budget(BudgetError::ResourceExhausted),
            ) && final(self).objects == old(self).objects,
            !final(self).budget.exhausted() && old(self).objects.len() >= u32::MAX ==> r == Err::<
                Val,
                HostError,
            >(HostError::Object(ObjError::TooManyObjects)),
            !final(self).budget.exhausted() && old(self).objects.len() < u32::MAX ==> r == Ok::<
                Val,
                HostError,
            >(Val::Object(old(self).objects.len() as u32)) && final(self).objects.len()
                == old(self).objects.len() + 1 && final(self).objects.obj(
                old(self).objects.len() as int,
            ) == ObjectView::ValMap(Seq::empty()),
    {
        self.charge(CostType::ObjAlloc, 0)?;
        match self.objects.map_new() {
            Ok(h) => Ok(Val::Object(h)),
            Err(e) => Err(HostError::Object(e)),
        }
    }

    /// Makes an empty vector.
    pub fn vec_new(&mut self) -> (r: Result<Val, HostError>)
        requires
            old(self).wf(),
        ensures
            final(self).wf(),
            final(self).evolves_from(old(self)),
            final(self).events == old(self).events,
            charged_once(&old(self).budget, &final(self).budget, CostType::ObjAlloc, 0),
            final(self).budget.exhausted() ==> r == Err::<Val, HostError>(
                HostError::Budget(BudgetError::ResourceExhausted),
            ) && final(self).objects == old(self).objects,
            !final(self).budget.exhausted() && old(self).objects.len() >= u32::MAX ==> r == Err::<
                Val,
                HostError,
            >(HostError::Object(ObjError::TooManyObjects)),
            !final(self).budget.exhausted() && old(self).objects.len() < u32::MAX ==> r == Ok::<
                Val,
                HostError,
            >(Val::Object(old(self).objects.len() as u32)) && final(self).objects.len()
                == old(self).objects.len() + 1 && final(self).objects.obj(
                old(self).objects.len() as int,
            ) == ObjectView::ValVec(Seq::empty()),
    {
        self.charge(CostType::ObjAlloc, 0)?;
        match self.objects.vec_new() {
            Ok(h) => Ok(Val::Object(h)),
            Err(e) => Err(HostError::Object(e)),
        }
    }
    /// The number of elements of `t`, where it is a vector of this host.
    pub open spec fn vec_length(&self, t: Val) -> Option<int> {
        match object_handle(t) {
            Some(h) => if h < self.objects.len() {
                match self.objects.obj(h as int) {
                    ObjectView::ValVec(s) => Some(s.len() as int),
                    _ => None,
                }
            } else {
                None
            },
            None => None,
        }
    }

    /// `t` is a vector of this host with at most `MAX_TOPICS` elements.
    pub open spec fn topics_fit(&self, t: Val) -> bool {
        self.vec_length(t) matches Some(n) && n <= MAX_TOPICS
    }

    /// Makes a new map: map `m` with `k` bound to `v`. Charged by the number
    /// of entries of `m`.
    pub fn map_put(&mut self, m: Val, k: Val, v: Val) -> (r: Result<Val, HostError>)
        requires
            old(self).wf(),
        ensures
            final(self).wf(),
            final(self).evolves_from(old(self)),
            final(self).events == old(self).events,
            object_handle(m) is None ==> r == Err::<Val, HostError>(
                HostError::Object(ObjError::WrongKind),
            ) && final(self).budget == old(self).budget,
            object_handle(m) matches Some(h) && h >= old(self).objects.len() ==> r == Err::<
                Val,
                HostError,
            >(HostError::Object(ObjError::NoSuchObject)) && final(self).budget == old(self).budget,
            object_handle(m) is Some && object_handle(m)->0 < old(self).objects.len() ==> match old(self).objects.obj(
                object_handle(m)->0 as int,
            ) {
                ObjectView::ValMap(e) => {
                    &&& charged_once(
                        &old(self).budget,
                        &final(self).budget,
                        CostType::MapEntry,
                        e.len() as u64,
                    )
                    &&& final(self).budget.exhausted() ==> r == Err::<Val, HostError>(
                        HostError::Budget(BudgetError::ResourceExhausted),
                    ) && final(self).objects == old(self).objects
                    &&& !final(self).budget.exhausted() && old(self).objects.len() >= u32::MAX
                        ==> r == Err::<Val, HostError>(HostError::Object(ObjError::TooManyObjects))
                    &&& !final(self).budget.exhausted() && old(self).objects.len() < u32::MAX
                        ==> r == Ok::<Val, HostError>(Val::Object(old(self).objects.len() as u32))
                        && final(self).objects.len() == old(self).objects.len() + 1 && match final(self).objects.obj(old(self).objects.len() as int) {
                        ObjectView::ValMap(e2) => is_put(e, e2, k, v),
                        _ => false,
                    }
                },
                _ => r == Err::<Val, HostError>(HostError::Object(ObjError::WrongKind))
                    && final(self).budget == old(self).budget,
            },
    {
        let h = match m {
            Val::Object(h) => h,
            _ => {
                return Err(HostError::Object(ObjError::WrongKind));
            },
        };
        let n = match self.objects.map_len(h) {
            Ok(n) => n,
            Err(e) => {
                return Err(HostError::Object(e));
            },
        };
        self.charge(CostType::MapEntry, n as u64)?;
        match self.objects.map_put(h, k, v) {
            Ok(h2) => Ok(Val::Object(h2)),
            Err(e) => Err(HostError::Object(e)),
        }
    }

    /// Makes a new vector: vector `v` with `x` appended. Charged by the
    /// number of elements of `v`.
    pub fn vec_push_back(&mut self, v: Val, x: Val) -> (r: Result<Val, HostError>)
        requires
            old(self).wf(),
        ensures
            final(self).wf(),
            final(self).evolves_from(old(self)),
            final(self).events == old(self).events,
            old(self).vec_length(v) is None ==> r is Err && final(self).budget == old(self).budget
                && final(self).objects == old(self).objects,
            object_handle(v) is Some && object_handle(v)->0 < old(self).objects.len() ==> match old(self).objects.obj(
                object_handle(v)->0 as int,
            ) {
                ObjectView::ValVec(s) => {
                    &&& charged_once(
                        &old(self).budget,
                        &final(self).budget,
                        CostType::VecEntry,
                        s.len() as u64,
                    )
                    &&& final(self).budget.exhausted() ==> r == Err::<Val, HostError>(
                        HostError::Budget(BudgetError::ResourceExhausted),
                    ) && final(self).objects == old(self).objects
                    &&& !final(self).budget.exhausted() && old(self).objects.len() >= u32::MAX
                        ==> r == Err::<Val, HostError>(HostError::Object(ObjError::TooManyObjects))
                    &&& !final(self).budget.exhausted() && old(self).objects.len() < u32::MAX
                        ==> r == Ok::<Val, HostError>(Val::Object(old(self).objects.len() as u32))
                        && final(self).objects.len() == old(self).objects.len() + 1 && final(self).objects.obj(old(self).objects.len() as int) == ObjectView::ValVec(s.push(x))
                },
                _ => true,
            },
    {
        let h = match v {
            Val::Object(h) => h,
            _ => {
                return Err(HostError::Object(ObjError::WrongKind));
            },
        };
        let n = match self.objects.vec_len(h) {
            Ok(n) => n,
            Err(e) => {
                return Err(HostError::Object(e));
            },
        };
        self.charge(CostType::VecEntry, n as u64)?;
        match self.objects.vec_push_back(h, x) {
            Ok(h2) => Ok(Val::Object(h2)),
            Err(e) => Err(HostError::Object(e)),
        }
    }

    /// Makes a new vector: the elements of `v1` followed by those of `v2`.
    /// Charged by the combined length.
    pub fn vec_append(&mut self, v1: Val, v2: Val) -> (r: Result<Val, HostError>)
        requires
            old(self).wf(),
        ensures
            final(self).wf(),
            final(self).evolves_from(old(self)),
            final(self).events == old(self).events,
            old(self).vec_length(v1) is None || old(self).vec_length(v2) is None ==> r is Err
                && final(self).budget == old(self).budget && final(self).objects == old(self).objects,
            old(self).vec_length(v1) is Some && old(self).vec_length(v2) is Some ==> match (
                old(self).objects.obj(object_handle(v1)->0 as int),
                old(self).objects.obj(object_handle(v2)->0 as int),
            ) {
                (ObjectView::ValVec(a), ObjectView::ValVec(b)) => {
                    &&& charged_once(
                        &old(self).budget,
                        &final(self).budget,
                        CostType::VecEntry,
                        sat(a.len() + b.len() as int) as u64,
                    )
                    &&& final(self).budget.exhausted() ==> r == Err::<Val, HostError>(
                        HostError::Budget(BudgetError::ResourceExhausted),
                    ) && final(self).objects == old(self).objects
                    &&& !final(self).budget.exhausted() && old(self).objects.len() >= u32::MAX
                        ==> r == Err::<Val, HostError>(HostError::Object(ObjError::TooManyObjects))
                    &&& !final(self).budget.exhausted() && old(self).objects.len() < u32::MAX
                        ==> r == Ok::<Val, HostError>(Val::Object(old(self).objects.len() as u32))
                        && final(self).objects.len() == old(self).objects.len() + 1
                        && final(self).objects.obj(old(self).objects.len() as int)
                        == ObjectView::ValVec(a + b)
                },
                _ => true,
            },
    {
        let h1 = match v1 {
            Val::Object(h) => h,
            _ => {
                return Err(HostError::Object(ObjError::WrongKind));
            },
        };
        let h2 = match v2 {
            Val::Object(h) => h,
            _ => {
                return Err(HostError::Object(ObjError::WrongKind));
            },
        };
        let n1 = match self.objects.vec_len(h1) {
            Ok(n) => n,
            Err(e) => {
                return Err(HostError::Object(e));
            },
        };
        let n2 = match self.objects.vec_len(h2) {
            Ok(n) => n,
            Err(e) => {
                return Err(HostError::Object(e));
            },
        };
        let size: u64 = (n1 as u64).saturating_add(n2 as u64);
        proof {
            assert(size == sat(n1 as int + n2 as int));
        }
        self.charge(CostType::VecEntry, size)?;
        match self.objects.vec_append(h1, h2) {
            Ok(h) => Ok(Val::Object(h)),
            Err(e) => Err(HostError::Object(e)),
        }
    }

    /// Makes a byte string holding a copy of `bytes`. Charged by its length.
    pub fn bytes_new_from_slice(&mut self, bytes: &[u8]) -> (r: Result<Val, HostError>)
        requires
            old(self).wf(),
        ensures
            final(self).wf(),
            final(self).evolves_from(old(self)),
            final(self).events == old(self).events,
            charged_once(&old(self).budget, &final(self).budget, CostType::ObjAlloc, bytes@.len() as u64),
            final(self).budget.exhausted() ==> r == Err::<Val, HostError>(
                HostError::Budget(BudgetError::ResourceExhausted),
            ) && final(self).objects == old(self).objects,
            !final(self).budget.exhausted() && old(self).objects.len() >= u32::MAX ==> r == Err::<
                Val,
                HostError,
            >(HostError::Object(ObjError::TooManyObjects)),
            !final(self).budget.exhausted() && old(self).objects.len() < u32::MAX ==> r == Ok::<
                Val,
                HostError,
            >(Val::Object(old(self).objects.len() as u32)) && final(self).objects.len()
                == old(self).objects.len() + 1 && final(self).objects.obj(
                old(self).objects.len() as int,
            ) == ObjectView::Bytes(bytes@),
    {
        self.charge(CostType::ObjAlloc, bytes.len() as u64)?;
        match self.objects.bytes_new_from_slice(bytes) {
            Ok(h) => Ok(Val::Object(h)),
            Err(e) => Err(HostError::Object(e)),
        }
    }

    /// Makes a vector of the given integers. Charged by their number.
    pub fn test_vec_obj(&mut self, vals: &[i32]) -> (r: Result<Val, HostError>)
        requires
            old(self).wf(),
        ensures
            final(self).wf(),
            final(self).evolves_from(old(self)),
            final(self).events == old(self).events,
            charged_once(&old(self).budget, &final(self).budget, CostType::ObjAlloc, vals@.len() as u64),
            final(self).budget.exhausted() ==> r == Err::<Val, HostError>(
                HostError::Budget(BudgetError::ResourceExhausted),
            ) && final(self).objects == old(self).objects,
            !final(self).budget.exhausted() && old(self).objects.len() >= u32::MAX ==> r == Err::<
                Val,
                HostError,
            >(HostError::Object(ObjError::TooManyObjects)),
            !final(self).budget.exhausted() && old(self).objects.len() < u32::MAX ==> r == Ok::<
                Val,
                HostError,
            >(Val::Object(old(self).objects.len() as u32)) && final(self).objects.len()
                == old(self).objects.len() + 1 && final(self).objects.obj(
                old(self).objects.len() as int,
            ) == ObjectView::ValVec(vals@.map_values(|x: i32| Val::I32(x))),
    {
        self.charge(CostType::ObjAlloc, vals.len() as u64)?;
        let mut items: Vec<Val> = Vec::new();
        let mut i: usize = 0;
        while i < vals.len()
            invariant
                i <= vals@.len(),
                items@ == vals@.subrange(0, i as int).map_values(|x: i32| Val::I32(x)),
            decreases vals@.len() - i,
        {
            items.push(Val::I32(vals[i]));
            i = i + 1;
            assert(items@ =~= vals@.subrange(0, i as int).map_values(|x: i32| Val::I32(x)));
        }
        assert(vals@.subrange(0, i as int) =~= vals@);
        match self.objects.vec_from_vals(items) {
            Ok(h) => Ok(Val::Object(h)),
            Err(e) => Err(HostError::Object(e)),
        }
    }
    /// Records a contract event of the given type for the contract being
    /// executed. Charged by the number of topics.
    pub fn record_contract_event(
        &mut self,
        event_type: ContractEventType,
        topics: Val,
        data: Val,
    ) -> (r: Result<(), HostError>)
        requires
            old(self).wf(),
        ensures
            final(self).wf(),
            final(self).evolves_from(old(self)),
            final(self).objects == old(self).objects,
            !old(self).topics_fit(topics) ==> r == Err::<
                (),
                HostError,
            >(HostError::BadTopics) && final(self).budget == old(self).budget && final(self).events
                == old(self).events,
            old(self).topics_fit(topics) ==> {
                &&& charged_once(&old(self).budget, &final(self).budget, CostType::EventRecord, old(self).vec_length(topics)->0 as u64)
                &&& final(self).budget.exhausted() ==> r == Err::<(), HostError>(
                    HostError::Budget(BudgetError::ResourceExhausted),
                ) && final(self).events == old(self).events
                &&& !final(self).budget.exhausted() ==> r is Ok && final(self).events@ == old(self).events@.push(
                    EventView::Contract(
                        ContractEvent {
                            contract_id: old(self).current_contract(),
                            event_type,
                            topics,
                            data,
                        },
                    ),
                )
            },
    {
        let h = match topics {
            Val::Object(h) => h,
            _ => {
                return Err(HostError::BadTopics);
            },
        };
        let n = match self.objects.vec_len(h) {
            Ok(n) => n,
            Err(_) => {
                return Err(HostError::BadTopics);
            },
        };
        if n > MAX_TOPICS {
            return Err(HostError::BadTopics);
        }
        self.charge(CostType::EventRecord, n as u64)?;
        let contract_id = if self.frames.len() == 0 {
            None
        } else {
            Some(self.frames[self.frames.len() - 1])
        };
        self.events.record(
            HostEvent::Contract(ContractEvent { contract_id, event_type, topics, data }),
        );
        Ok(())
    }

    /// Records a contract event of type `Contract`; returns `Void`.
    pub fn contract_event(&mut self, topics: Val, data: Val) -> (r: Result<Val, HostError>)
        requires
            old(self).wf(),
        ensures
            final(self).wf(),
            final(self).evolves_from(old(self)),
            final(self).objects == old(self).objects,
            !old(self).topics_fit(topics) ==> r == Err::<
                Val,
                HostError,
            >(HostError::BadTopics) && final(self).budget == old(self).budget && final(self).events
                == old(self).events,
            old(self).topics_fit(topics) ==> {
                &&& charged_once(&old(self).budget, &final(self).budget, CostType::EventRecord, old(self).vec_length(topics)->0 as u64)
                &&& final(self).budget.exhausted() ==> r == Err::<Val, HostError>(
                    HostError::Budget(BudgetError::ResourceExhausted),
                ) && final(self).events == old(self).events
                &&& !final(self).budget.exhausted() ==> r == Ok::<Val, HostError>(Val::Void)
                    && final(self).events@ == old(self).events@.push(
                    EventView::Contract(
                        ContractEvent {
                            contract_id: old(self).current_contract(),
                            event_type: ContractEventType::Contract,
                            topics,
                            data,
                        },
                    ),
                )
            },
    {
        self.record_contract_event(ContractEventType::Contract, topics, data)?;
        Ok(Val::Void)
    }

    /// Records a debug event. Charged by its number of arguments.
    pub fn record_debug_event(&mut self, e: DebugEvent) -> (r: Result<(), HostError>)
        requires
            old(self).wf(),
        ensures
            final(self).wf(),
            final(self).evolves_from(old(self)),
            final(self).objects == old(self).objects,
            charged_once(
                &old(self).budget,
                &final(self).budget,
                CostType::EventRecord,
                e.args@.len() as u64,
            ),
            final(self).budget.exhausted() ==> r == Err::<(), HostError>(
                HostError::Budget(BudgetError::ResourceExhausted),
            ) && final(self).events == old(self).events,
            !final(self).budget.exhausted() ==> r is Ok && final(self).events@ == old(self).events@.push(HostEvent::Debug(e)@),
    {
        self.charge(CostType::EventRecord, e.args.len() as u64)?;
        self.events.record(HostEvent::Debug(e));
        Ok(())
    }

    /// The events recorded so far, in order.
    pub fn get_events(&self) -> (r: Vec<HostEvent>)
        ensures
            crate::events::views(r@) == self.events@,
    {
        self.events.externalize()
    }
    /// Makes `contract` callable under `id`.
    pub fn register_test_contract(&mut self, id: Val, contract: TestContract) -> (r: Result<
        (),
        HostError,
    >)
        ensures
            final(self).objects == old(self).objects,
            final(self).budget == old(self).budget,
            final(self).events == old(self).events,
            final(self).frames == old(self).frames,
            (exists|i: int| 0 <= i < old(self).contracts@.len() && #[trigger] old(self).contracts@[i].0 == id)
                ==> r == Err::<(), HostError>(HostError::ContractExists) && final(self).contracts
                == old(self).contracts,
            !(exists|i: int| 0 <= i < old(self).contracts@.len() && #[trigger] old(self).contracts@[i].0 == id)
                ==> r is Ok && final(self).contracts@ == old(self).contracts@.push((id, contract)),
    {
        let mut i: usize = 0;
        while i < self.contracts.len()
            invariant
                i <= self.contracts@.len(),
                forall|j: int| 0 <= j < i ==> #[trigger] self.contracts@[j].0 != id,
            decreases self.contracts@.len() - i,
        {
            if self.contracts[i].0 == id {
                return Err(HostError::ContractExists);
            }
            i = i + 1;
        }
        self.contracts.push((id, contract));
        Ok(())
    }

    /// Calls the contract registered under `id`. While it runs it is the
    /// current contract. Where it returns no value, the events it recorded
    /// are rolled back and the call fails; its charges stand.
    pub fn call(&mut self, id: Val, func: &str, args: &[Val]) -> (r: Result<Val, HostError>)
        requires
            old(self).wf(),
        ensures
            final(self).wf(),
            final(self).evolves_from(old(self)),
            final(self).events_extend(old(self)),
            !(exists|i: int| 0 <= i < old(self).contracts@.len() && #[trigger] old(self).contracts@[i].0 == id)
                ==> r == Err::<Val, HostError>(HostError::NoSuchContract) && final(self).events
                == old(self).events,
            (exists|i: int| 0 <= i < old(self).contracts@.len() && #[trigger] old(self).contracts@[i].0 == id)
                ==> r != Err::<Val, HostError>(HostError::NoSuchContract),
            r is Err && r != Err::<Val, HostError>(HostError::NoSuchContract) ==> r == Err::<
                Val,
                HostError,
            >(HostError::ContractFailed) || r == Err::<Val, HostError>(
                HostError::Event(EventError::TooManyEvents),
            ),
            r == Err::<Val, HostError>(HostError::ContractFailed) ==> forall|i: int|
                old(self).events@.len() <= i < final(self).events@.len() ==> #[trigger] final(self).events@[i] is Debug,
            forall|i: int| #[trigger] first_registered(old(self).contracts@, id, i) ==> match old(self).contracts@[i].1 {
                TestContract::SingleEvent(_) => {
                    &&& r is Ok <==> !final(self).budget.exhausted() && old(self).objects.len() + 5 <= u32::MAX
                    &&& r is Ok <==> fits(&old(self).budget, single_event_charges()) && old(self).objects.len() + 5 <= u32::MAX
                    &&& r is Ok ==> r == Ok::<Val, HostError>(Val::Void) && single_event_ran(old(self), final(self), Some(id))
                    &&& r is Err ==> r == Err::<Val, HostError>(HostError::ContractFailed)
                        && final(self).events@ == old(self).events@
                },
                TestContract::MultipleEvents(_) => {
                    &&& r is Ok <==> !final(self).budget.exhausted() && old(self).objects.len() < u32::MAX
                    &&& r is Ok <==> fits(&old(self).budget, multiple_events_charges()) && old(self).objects.len() < u32::MAX
                    &&& r is Ok ==> r == Ok::<Val, HostError>(Val::Void) && multiple_events_ran(old(self), final(self), Some(id))
                    &&& r is Err ==> (exists|k: int| {
                        let mid = old(self).events@ + #[trigger] multiple_events_prefix(
                            Some(id),
                            Val::Object(old(self).objects.len() as u32),
                            k,
                        );
                        &&& 0 <= k < 3
                        &&& (r == Err::<Val, HostError>(HostError::ContractFailed) && final(self).events@
                            == rolled_back(mid, old(self).events@.len() as int))
                            || (r == Err::<Val, HostError>(HostError::Event(EventError::TooManyEvents))
                            && final(self).events@ == mid)
                    })
                },
            },
    {
        proof {
            assert(old(self).events@.subrange(0, old(self).events@.len() as int) =~= old(self).events@);
        }
        let mut i: usize = 0;
        while i < self.contracts.len() && self.contracts[i].0 != id
            invariant
                i <= self.contracts@.len(),
                forall|j: int| 0 <= j < i ==> #[trigger] self.contracts@[j].0 != id,
            decreases self.contracts@.len() - i,
        {
            i = i + 1;
        }
        if i == self.contracts.len() {
            return Err(HostError::NoSuchContract);
        }
        let contract = self.contracts[i].1;
        proof {
            assert forall|j: int| #[trigger] first_registered(old(self).contracts@, id, j) implies j == i by {
                if j < i {
                    assert(old(self).contracts@[j].0 != id);
                } else if j > i {
                    assert(old(self).contracts@[i as int].0 != id);
                }
            }
        }
        let snapshot = self.events.snapshot();
        self.frames.push(id);
        let ghost entered = *self;
        proof {
            assert(entered.current_contract() == Some(id));
        }
        let result = match contract {
            TestContract::SingleEvent(c) => c.call(func, self, args),
            TestContract::MultipleEvents(c) => c.call(func, self, args),
        };
        let ghost after = *self;
        self.frames.pop();
        assert(self.frames@ =~= old(self).frames@);
        proof {
            match contract {
                TestContract::SingleEvent(_) => {
                    if result is Some {
                        assert(single_event_ran(&entered, &after, Some(id)));
                        assert(single_event_ran(old(self), &after, Some(id)));
                    }
                },
                TestContract::MultipleEvents(_) => {
                    if result is Some {
                        assert(multiple_events_ran(&entered, &after, Some(id)));
                        assert(multiple_events_ran(old(self), &after, Some(id)));
                    }
                },
            }
        }
        match result {
            Some(v) => Ok(v),
            None => {
                let ghost mid = self.events@;
                match self.events.rollback(snapshot) {
                    Ok(()) => {},
                    Err(e) => {
                        return Err(HostError::Event(e));
                    },
                }
                proof {
                    match contract {
                        TestContract::SingleEvent(_) => {
                            assert(mid == old(self).events@);
                        },
                        _ => {},
                    }
                    crate::events::lemma_rollback_keeps_prefix(mid, snapshot as int);
                    assert(self.events@.subrange(0, snapshot as int) =~= mid.subrange(0, snapshot as int));
                    assert(mid.subrange(0, snapshot as int) =~= old(self).events@);
                }
                Err(HostError::ContractFailed)
            },
        }
    }
}

} // verus!
