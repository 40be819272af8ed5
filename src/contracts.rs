//! Contracts that run inside a host: the closed set of implementations a
//! host can dispatch to.
use vstd::prelude::*;
use crate::events::{ContractEvent, ContractEventType, DebugEvent, EventView};
use crate::budget::{replay, Budget, CostModel, CostType};
use crate::host::{charged_seq, default_cost_models, fits, lemma_charged_none, lemma_charged_step, Host};
use crate::objects::ObjectView;
use crate::value::Val;

verus! {

/// Records one contract event whose data is the map `{1: 2}` and whose topics
/// are the vector `[0, 1]`.
#[derive(Clone, Copy, Debug, PartialEq, Eq, Structural)]
pub struct ContractWithSingleEvent;

/// Records a contract event, a debug event and a system event.
#[derive(Clone, Copy, Debug, PartialEq, Eq, Structural)]
pub struct ContractWithMultipleEvents;

/// The contracts a host can call.
#[derive(Clone, Copy, Debug, PartialEq, Eq, Structural)]
pub enum TestContract {
    SingleEvent(ContractWithSingleEvent),
    MultipleEvents(ContractWithMultipleEvents),
}

/// The charges of one run of `ContractWithSingleEvent::call`, in order.
pub open spec fn single_event_charges() -> Seq<(CostType, u64)> {
    seq![
        (CostType::ObjAlloc, 0u64),
        (CostType::MapEntry, 0u64),
        (CostType::ObjAlloc, 0u64),
        (CostType::VecEntry, 0u64),
        (CostType::VecEntry, 1u64),
        (CostType::EventRecord, 2u64),
    ]
}

/// The charges of one run of `ContractWithMultipleEvents::call`, in order.
pub open spec fn multiple_events_charges() -> Seq<(CostType, u64)> {
    seq![
        (CostType::ObjAlloc, 2u64),
        (CostType::EventRecord, 2u64),
        (CostType::EventRecord, 0u64),
        (CostType::EventRecord, 2u64),
    ]
}

/// The event the single-event contract records, where the store held `base`
/// objects before it ran.
pub open spec fn single_event_recorded(cur: Option<Val>, base: int) -> EventView {
    EventView::Contract(
        ContractEvent {
            contract_id: cur,
            event_type: ContractEventType::Contract,
            topics: Val::Object((base + 4) as u32),
            data: Val::Object((base + 1) as u32),
        },
    )
}

/// The events the multiple-events contract records, in order.
pub open spec fn multiple_events_recorded(cur: Option<Val>, topics: Val) -> Seq<EventView> {
    seq![
        EventView::Contract(
            ContractEvent {
                contract_id: cur,
                event_type: ContractEventType::Contract,
                topics,
                data: Val::U32(0),
            },
        ),
        EventView::Debug(Some("debug event 0"@), Seq::empty()),
        EventView::Contract(
            ContractEvent {
                contract_id: cur,
                event_type: ContractEventType::System,
                topics,
                data: Val::U32(0),
            },
        ),
    ]
}

/// The first `k` events the multiple-events contract records.
pub open spec fn multiple_events_prefix(cur: Option<Val>, topics: Val, k: int) -> Seq<EventView> {
    multiple_events_recorded(cur, topics).take(k)
}

/// `h1` is `h0` after a successful run of the single-event contract on
/// behalf of `cur`: five new objects, six charges, one event.
pub open spec fn single_event_ran(h0: &Host, h1: &Host, cur: Option<Val>) -> bool {
    let base = h0.objects.len() as int;
    &&& charged_seq(&h0.budget, &h1.budget, single_event_charges())
    &&& h1.objects.extends(&h0.objects)
    &&& h1.objects.len() == base + 5
    &&& h1.objects.obj(base) == ObjectView::ValMap(Seq::empty())
    &&& h1.objects.obj(base + 1) == ObjectView::ValMap(seq![(Val::U32(1), Val::U32(2))])
    &&& h1.objects.obj(base + 2) == ObjectView::ValVec(Seq::empty())
    &&& h1.objects.obj(base + 3) == ObjectView::ValVec(seq![Val::U32(0)])
    &&& h1.objects.obj(base + 4) == ObjectView::ValVec(seq![Val::U32(0), Val::U32(1)])
    &&& h1.events@ == h0.events@.push(single_event_recorded(cur, base))
}

/// `h1` is `h0` after a successful run of the multiple-events contract on
/// behalf of `cur`: one new object, four charges, three events.
pub open spec fn multiple_events_ran(h0: &Host, h1: &Host, cur: Option<Val>) -> bool {
    let base = h0.objects.len() as int;
    &&& charged_seq(&h0.budget, &h1.budget, multiple_events_charges())
    &&& h1.objects.extends(&h0.objects)
    &&& h1.objects.len() == base + 1
    &&& h1.objects.obj(base) == ObjectView::ValVec(seq![Val::I32(0), Val::I32(1)])
    &&& h1.events@ == h0.events@ + multiple_events_recorded(cur, Val::Object(base as u32))
}

impl ContractWithSingleEvent {
    /// Builds the data map `{1: 2}` and the topics vector `[0, 1]`, then
    /// records the event. Succeeds exactly where its six charges fit the
    /// budget and the store has handles left for the five objects made;
    /// on failure the journal is as it was.
    pub fn call(&self, func: &str, host: &mut Host, args: &[Val]) -> (r: Option<Val>)
        requires
            old(host).wf(),
        ensures
            final(host).wf(),
            final(host).evolves_from(old(host)),
            final(host).events_extend(old(host)),
            r is None <==> final(host).budget.exhausted() || old(host).objects.len() + 5 > u32::MAX,
            r is None <==> !fits(&old(host).budget, single_event_charges()) || old(host).objects.len()
                + 5 > u32::MAX,
            r is None ==> final(host).events == old(host).events,
            r is Some ==> r == Some(Val::Void) && single_event_ran(
                old(host),
                final(host),
                old(host).current_contract(),
            ),
    {
        let ghost ops = single_event_charges();
        let ghost b0 = host.budget;
        proof {
            assert(old(host).events@.subrange(0, old(host).events@.len() as int) =~= old(host).events@);
            lemma_charged_none(&b0, ops);
            assert(ops[0] == (CostType::ObjAlloc, 0u64));
            assert(ops[1] == (CostType::MapEntry, 0u64));
            assert(ops[2] == (CostType::ObjAlloc, 0u64));
            assert(ops[3] == (CostType::VecEntry, 0u64));
            assert(ops[4] == (CostType::VecEntry, 1u64));
            assert(ops[5] == (CostType::EventRecord, 2u64));
        }
        let m0 = match host.map_new() {
            Ok(v) => v,
            Err(_) => {
                proof {
                    lemma_charged_step(&b0, &b0, &host.budget, ops, 0);
                }
                return None;
            },
        };
        proof {
            lemma_charged_step(&b0, &b0, &host.budget, ops, 0);
        }
        let ghost b1 = host.budget;
        let data = match host.map_put(m0, Val::U32(1), Val::U32(2)) {
            Ok(v) => v,
            Err(_) => {
                proof {
                    lemma_charged_step(&b0, &b1, &host.budget, ops, 1);
                }
                return None;
            },
        };
        proof {
            lemma_charged_step(&b0, &b1, &host.budget, ops, 1);
            let e2 = seq![(Val::U32(1), Val::U32(2))];
            let base = old(host).objects.len() as int;
            match host.objects.obj(base + 1) {
                ObjectView::ValMap(e) => {
                    let p = choose|p: int| 0 <= p <= 0 && e == #[trigger] Seq::<(Val, Val)>::empty().insert(p, (Val::U32(1), Val::U32(2)));
                    assert(e =~= e2);
                },
                _ => {},
            }
        }
        let ghost b2 = host.budget;
        let t0 = match host.vec_new() {
            Ok(v) => v,
            Err(_) => {
                proof {
                    lemma_charged_step(&b0, &b2, &host.budget, ops, 2);
                }
                return None;
            },
        };
        proof {
            lemma_charged_step(&b0, &b2, &host.budget, ops, 2);
        }
        let ghost b3 = host.budget;
        let t1 = match host.vec_push_back(t0, Val::U32(0)) {
            Ok(v) => v,
            Err(_) => {
                proof {
                    lemma_charged_step(&b0, &b3, &host.budget, ops, 3);
                }
                return None;
            },
        };
        proof {
            lemma_charged_step(&b0, &b3, &host.budget, ops, 3);
        }
        let ghost b4 = host.budget;
        let topics = match host.vec_push_back(t1, Val::U32(1)) {
            Ok(v) => v,
            Err(_) => {
                proof {
                    lemma_charged_step(&b0, &b4, &host.budget, ops, 4);
                }
                return None;
            },
        };
        proof {
            lemma_charged_step(&b0, &b4, &host.budget, ops, 4);
            assert(seq![Val::U32(0)].push(Val::U32(1)) =~= seq![Val::U32(0), Val::U32(1)]);
            assert(Seq::<Val>::empty().push(Val::U32(0)) =~= seq![Val::U32(0)]);
        }
        let ghost b5 = host.budget;
        let ghost ev0 = host.events@;
        let r = host.contract_event(topics, data);
        proof {
            lemma_charged_step(&b0, &b5, &host.budget, ops, 5);
            assert(ops.take(6) =~= ops);
            if r is Ok {
                assert(host.events@.subrange(0, ev0.len() as int) =~= ev0);
            }
        }
        match r {
            Ok(v) => Some(v),
            Err(_) => None,
        }
    }
}

impl ContractWithMultipleEvents {
    /// Records a contract event on topics `[0, 1]` with data `0`, the debug
    /// event "debug event 0", and a system event with the same topics and
    /// data. Succeeds exactly where its four charges fit the budget and the
    /// store has a handle left; on failure the journal holds the events
    /// recorded before it.
    pub fn call(&self, func: &str, host: &mut Host, args: &[Val]) -> (r: Option<Val>)
        requires
            old(host).wf(),
        ensures
            final(host).wf(),
            final(host).evolves_from(old(host)),
            final(host).events_extend(old(host)),
            r is None <==> final(host).budget.exhausted() || old(host).objects.len() >= u32::MAX,
            r is None <==> !fits(&old(host).budget, multiple_events_charges()) || old(host).objects.len()
                >= u32::MAX,
            r is None ==> exists|k: int|
                0 <= k < 3 && final(host).events@ == old(host).events@ + #[trigger] multiple_events_prefix(
                    old(host).current_contract(),
                    Val::Object(old(host).objects.len() as u32),
                    k,
                ),
            r is Some ==> r == Some(Val::Void) && multiple_events_ran(
                old(host),
                final(host),
                old(host).current_contract(),
            ),
    {
        let ghost ops = multiple_events_charges();
        let ghost cur = old(host).current_contract();
        let ghost tv = Val::Object(old(host).objects.len() as u32);
        let ghost rec = multiple_events_recorded(cur, tv);
        let ghost e0 = old(host).events@;
        let ghost b0 = host.budget;
        proof {
            assert(e0.subrange(0, e0.len() as int) =~= e0);
            assert(e0 + rec.take(0) =~= e0);
            assert(rec.take(0) == multiple_events_prefix(cur, tv, 0));
            lemma_charged_none(&b0, ops);
            assert(ops[0] == (CostType::ObjAlloc, 2u64));
            assert(ops[1] == (CostType::EventRecord, 2u64));
            assert(ops[2] == (CostType::EventRecord, 0u64));
            assert(ops[3] == (CostType::EventRecord, 2u64));
        }
        let topics = match host.test_vec_obj(&[0, 1]) {
            Ok(v) => v,
            Err(_) => {
                proof {
                    lemma_charged_step(&b0, &b0, &host.budget, ops, 0);
                }
                return None;
            },
        };
        let data = Val::U32(0);
        proof {
            lemma_charged_step(&b0, &b0, &host.budget, ops, 0);
            let s: Seq<i32> = seq![0i32, 1i32];
            assert(s.map_values(|x: i32| Val::I32(x)) =~= seq![Val::I32(0), Val::I32(1)]);
        }
        let ghost b1 = host.budget;
        match host.record_contract_event(ContractEventType::Contract, topics, data) {
            Ok(()) => {},
            Err(_) => {
                proof {
                    lemma_charged_step(&b0, &b1, &host.budget, ops, 1);
                }
                return None;
            },
        }
        proof {
            lemma_charged_step(&b0, &b1, &host.budget, ops, 1);
            assert(host.events@ =~= e0 + rec.take(1));
            assert(rec.take(1) == multiple_events_prefix(cur, tv, 1));
            assert(host.events@.subrange(0, e0.len() as int) =~= e0);
        }
        let ghost b2 = host.budget;
        match host.record_debug_event(DebugEvent::new().msg("debug event 0")) {
            Ok(()) => {},
            Err(_) => {
                proof {
                    lemma_charged_step(&b0, &b2, &host.budget, ops, 2);
                }
                return None;
            },
        }
        proof {
            lemma_charged_step(&b0, &b2, &host.budget, ops, 2);
            assert(host.events@ =~= e0 + rec.take(2));
            assert(rec.take(2) == multiple_events_prefix(cur, tv, 2));
            assert(host.events@.subrange(0, e0.len() as int) =~= e0);
        }
        let ghost b3 = host.budget;
        match host.record_contract_event(ContractEventType::System, topics, data) {
            Ok(()) => {},
            Err(_) => {
                proof {
                    lemma_charged_step(&b0, &b3, &host.budget, ops, 3);
                }
                return None;
            },
        }
        proof {
            lemma_charged_step(&b0, &b3, &host.budget, ops, 3);
            assert(ops.take(4) =~= ops);
            assert(host.events@ =~= e0 + rec);
            assert(host.events@.subrange(0, e0.len() as int) =~= e0);
        }
        Some(Val::Void)
    }
}

/// Under the default cost models one run of the single-event contract costs
/// 660 in cpu and in memory.
pub proof fn lemma_single_event_cost(start: int)
    requires
        0 <= start <= u64::MAX - 660,
    ensures
        replay(start, default_cost_models(), single_event_charges()) == start + 660,
{
    let ops = single_event_charges();
    let m = default_cost_models();
    assert(m[0] == CostModel { const_term: 100, linear_term: 10 });
    assert(m[1] == CostModel { const_term: 50, linear_term: 20 });
    assert(m[2] == CostModel { const_term: 50, linear_term: 10 });
    assert(m[3] == CostModel { const_term: 200, linear_term: 50 });
    assert(ops.take(0).len() == 0);
    assert(replay(start, m, ops.take(0)) == start);
    assert(ops.take(1).drop_last() =~= ops.take(0));
    assert(ops.take(1).last() == ops[0]);
    assert(replay(start, m, ops.take(1)) == start + 100);
    assert(ops.take(2).drop_last() =~= ops.take(1));
    assert(ops.take(2).last() == ops[1]);
    assert(replay(start, m, ops.take(2)) == start + 150);
    assert(ops.take(3).drop_last() =~= ops.take(2));
    assert(ops.take(3).last() == ops[2]);
    assert(replay(start, m, ops.take(3)) == start + 250);
    assert(ops.take(4).drop_last() =~= ops.take(3));
    assert(ops.take(4).last() == ops[3]);
    assert(replay(start, m, ops.take(4)) == start + 300);
    assert(ops.take(5).drop_last() =~= ops.take(4));
    assert(ops.take(5).last() == ops[4]);
    assert(replay(start, m, ops.take(5)) == start + 360);
    assert(ops.take(6).drop_last() =~= ops.take(5));
    assert(ops.take(6).last() == ops[5]);
    assert(replay(start, m, ops.take(6)) == start + 660);
    assert(ops.take(6) =~= ops);
}

/// Under the default cost models one run of the multiple-events contract
/// costs 920 in cpu and in memory.
pub proof fn lemma_multiple_events_cost(start: int)
    requires
        0 <= start <= u64::MAX - 920,
    ensures
        replay(start, default_cost_models(), multiple_events_charges()) == start + 920,
{
    let ops = multiple_events_charges();
    let m = default_cost_models();
    assert(m[0] == CostModel { const_term: 100, linear_term: 10 });
    assert(m[3] == CostModel { const_term: 200, linear_term: 50 });
    assert(ops.take(0).len() == 0);
    assert(replay(start, m, ops.take(0)) == start);
    assert(ops.take(1).drop_last() =~= ops.take(0));
    assert(ops.take(1).last() == ops[0]);
    assert(replay(start, m, ops.take(1)) == start + 120);
    assert(ops.take(2).drop_last() =~= ops.take(1));
    assert(ops.take(2).last() == ops[1]);
    assert(replay(start, m, ops.take(2)) == start + 420);
    assert(ops.take(3).drop_last() =~= ops.take(2));
    assert(ops.take(3).last() == ops[2]);
    assert(replay(start, m, ops.take(3)) == start + 620);
    assert(ops.take(4).drop_last() =~= ops.take(3));
    assert(ops.take(4).last() == ops[3]);
    assert(replay(start, m, ops.take(4)) == start + 920);
    assert(ops.take(4) =~= ops);
}

/// Under the default cost models, a budget with 660 left in cpu and in
/// memory has room for a run of the single-event contract.
pub proof fn lemma_single_event_fits_default(b: &Budget)
    requires
        b.cpu_models@ == default_cost_models(),
        b.mem_models@ == default_cost_models(),
        b.cpu_used + 660 <= b.cpu_limit,
        b.mem_used + 660 <= b.mem_limit,
    ensures
        fits(b, single_event_charges()),
{
    lemma_single_event_cost(b.cpu_used as int);
    lemma_single_event_cost(b.mem_used as int);
}

/// Under the default cost models, a budget with 920 left in cpu and in
/// memory has room for a run of the multiple-events contract.
pub proof fn lemma_multiple_events_fits_default(b: &Budget)
    requires
        b.cpu_models@ == default_cost_models(),
        b.mem_models@ == default_cost_models(),
        b.cpu_used + 920 <= b.cpu_limit,
        b.mem_used + 920 <= b.mem_limit,
    ensures
        fits(b, multiple_events_charges()),
{
    lemma_multiple_events_cost(b.cpu_used as int);
    lemma_multiple_events_cost(b.mem_used as int);
}

} // verus!
