use soroban_host::contracts::{ContractWithMultipleEvents, ContractWithSingleEvent, TestContract};
use soroban_host::events::{
    ContractEvent, ContractEventType, DebugEvent, Events, HostEvent, ROLLBACK_MSG,
    ROLLED_BACK_EVENT_MSG,
};
use soroban_host::host::{Host, HostError};
use soroban_host::value::Val;

fn handle(v: Val) -> u32 {
    match v {
        Val::Object(h) => h,
        _ => panic!("not an object"),
    }
}

fn debug_parts(e: &HostEvent) -> (Option<String>, Vec<Val>) {
    match e {
        HostEvent::Debug(d) => (d.msg.clone(), d.args.clone()),
        _ => panic!("not a debug event"),
    }
}

#[test]
fn contract_event() -> Result<(), HostError> {
    let mut host = Host::default();
    let dummy_id = [0u8; 32];
    let id = host.bytes_new_from_slice(&dummy_id)?;
    let test_contract = TestContract::SingleEvent(ContractWithSingleEvent);
    let sym = "add";
    let args = host.test_vec_obj(&[1, 2])?;
    host.register_test_contract(id, test_contract)?;
    assert_eq!(host.call(id, sym, &[args])?, Val::Void);

    // Fish out the last contract event and check that it is correct.
    let events = host.get_events();
    match events.last() {
        Some(HostEvent::Contract(ce)) => {
            assert_eq!(ce.contract_id, Some(id));
            assert_eq!(ce.event_type, ContractEventType::Contract);
            let topics = handle(ce.topics);
            assert_eq!(host.objects.vec_len(topics), Ok(2));
            assert_eq!(host.objects.vec_get(topics, 0), Ok(Val::U32(0)));
            assert_eq!(host.objects.vec_get(topics, 1), Ok(Val::U32(1)));
            let data = handle(ce.data);
            assert_eq!(host.objects.map_len(data), Ok(1));
            assert_eq!(host.objects.map_get(data, Val::U32(1)), Ok(Val::U32(2)));
        }
        _ => {
            panic!("missing contract event")
        }
    };
    Ok(())
}

#[test]
fn test_event_rollback() -> Result<(), HostError> {
    let mut host = Host::default();
    let dummy_id = [0u8; 32];
    let id = host.bytes_new_from_slice(&dummy_id)?;
    let test_contract = TestContract::MultipleEvents(ContractWithMultipleEvents);
    let sym = "add";
    let args = host.test_vec_obj(&[1, 2])?;
    host.register_test_contract(id, test_contract)?;
    assert_eq!(host.call(id, sym, &[args])?, Val::Void);
    assert_eq!(host.get_events().len(), 3);
    host.events.rollback(1).map_err(HostError::Event)?;

    let events = host.get_events();
    assert_eq!(events.len(), 3);
    let topics = match &events[0] {
        HostEvent::Contract(ce) => {
            assert_eq!(ce.contract_id, Some(id));
            assert_eq!(ce.event_type, ContractEventType::Contract);
            assert_eq!(ce.data, Val::U32(0));
            let t = handle(ce.topics);
            assert_eq!(host.objects.vec_get(t, 0), Ok(Val::I32(0)));
            assert_eq!(host.objects.vec_get(t, 1), Ok(Val::I32(1)));
            ce.topics
        }
        _ => panic!("missing contract event"),
    };
    let (msg, a) = debug_parts(&events[1]);
    assert_eq!(msg.as_deref(), Some(ROLLED_BACK_EVENT_MSG));
    assert_eq!(a, vec![Val::I32(0), id, topics, Val::U32(0)]);
    let (msg, a) = debug_parts(&events[2]);
    assert_eq!(msg.as_deref(), Some(ROLLBACK_MSG));
    assert_eq!(a, vec![Val::U32(2), Val::U32(1)]);
    Ok(())
}

fn contract(t: ContractEventType, data: u32) -> HostEvent {
    HostEvent::Contract(ContractEvent {
        contract_id: None,
        event_type: t,
        topics: Val::Object(0),
        data: Val::U32(data),
    })
}

#[test]
fn rollback_scenario_from_journal() {
    let mut ev = Events::new();
    ev.record(contract(ContractEventType::Contract, 0));
    ev.record(HostEvent::Debug(DebugEvent::new().msg("debug event 0")));
    ev.record(contract(ContractEventType::System, 0));
    assert_eq!(ev.snapshot(), 3);
    assert_eq!(ev.rollback(1), Ok(()));
    let out = ev.externalize();
    assert_eq!(out.len(), 3);
    match &out[0] {
        HostEvent::Contract(ce) => {
            assert_eq!(ce.event_type, ContractEventType::Contract);
            assert_eq!(ce.data, Val::U32(0));
        }
        _ => panic!("first event must survive"),
    }
    let (msg, a) = debug_parts(&out[1]);
    assert_eq!(msg.as_deref(), Some(ROLLED_BACK_EVENT_MSG));
    assert_eq!(a, vec![Val::I32(0), Val::Void, Val::Object(0), Val::U32(0)]);
    let (msg, a) = debug_parts(&out[2]);
    assert_eq!(msg.as_deref(), Some(ROLLBACK_MSG));
    assert_eq!(a, vec![Val::U32(2), Val::U32(1)]);
}

#[test]
fn rollback_keeps_prefix_and_drops_contract_events() {
    let mut ev = Events::new();
    ev.record(contract(ContractEventType::Contract, 7));
    ev.record(contract(ContractEventType::Contract, 8));
    ev.record(contract(ContractEventType::Diagnostic, 9));
    assert_eq!(ev.rollback(2), Ok(()));
    let out = ev.externalize();
    assert_eq!(out.len(), 4);
    assert!(matches!(&out[0], HostEvent::Contract(ce) if ce.data == Val::U32(7)));
    assert!(matches!(&out[1], HostEvent::Contract(ce) if ce.data == Val::U32(8)));
    assert!(matches!(&out[2], HostEvent::Debug(_)));
    assert!(matches!(&out[3], HostEvent::Debug(_)));
    let (_, a) = debug_parts(&out[2]);
    assert_eq!(a[0], Val::I32(2));
    assert_eq!(a[3], Val::U32(9));
}

#[test]
fn rollback_to_current_length_is_noop() {
    let mut ev = Events::new();
    ev.record(contract(ContractEventType::Contract, 1));
    assert_eq!(ev.rollback(1), Ok(()));
    assert_eq!(ev.externalize().len(), 1);
}

#[test]
fn rollback_past_end_is_rejected() {
    let mut ev = Events::new();
    ev.record(contract(ContractEventType::Contract, 1));
    assert_eq!(ev.rollback(2), Err(soroban_host::events::EventError::BadCursor));
    assert_eq!(ev.externalize().len(), 1);
}

#[test]
fn failed_call_rolls_back_but_keeps_charges() {
    let mut host = Host::default();
    let id = host.bytes_new_from_slice(&[1u8; 4]).unwrap();
    host.register_test_contract(id, TestContract::MultipleEvents(ContractWithMultipleEvents))
        .unwrap();
    assert_eq!(
        host.register_test_contract(id, TestContract::SingleEvent(ContractWithSingleEvent)),
        Err(HostError::ContractExists)
    );
    assert_eq!(host.call(Val::U32(5), "add", &[]), Err(HostError::NoSuchContract));
    // Leave just enough budget for the contract to fail part way.
    let used = host.budget.cpu_used;
    host.budget.cpu_limit = used + 100 + 10 * 2 + 200 + 50 * 2;
    let before = host.budget.cpu_used;
    assert_eq!(host.call(id, "add", &[]), Err(HostError::ContractFailed));
    assert!(host.budget.cpu_used > before);
    let out = host.get_events();
    assert!(out.iter().all(|e| matches!(e, HostEvent::Debug(_))));
}

#[test]
fn handles_stay_fresh_across_rollback() {
    let mut host = Host::default();
    let id = host.bytes_new_from_slice(&[2u8; 4]).unwrap();
    host.register_test_contract(id, TestContract::SingleEvent(ContractWithSingleEvent))
        .unwrap();
    let used = host.budget.cpu_used;
    // Enough for the map, the put and the empty vector, not for the pushes.
    host.budget.cpu_limit = used + 100 + 50 + 100 + 10;
    assert_eq!(host.call(id, "add", &[]), Err(HostError::ContractFailed));
    let n = host.objects.objects.len() as u32;
    host.budget.cpu_limit = u64::MAX;
    let fresh = host.map_new().unwrap();
    assert_eq!(fresh, Val::Object(n));
    assert_eq!(n, 4);
}

fn run_contract(c: TestContract) -> (Host, Val, u64, u64) {
    let mut host = Host::default();
    let id = host.bytes_new_from_slice(&[0u8; 32]).unwrap();
    let args = host.test_vec_obj(&[1, 2]).unwrap();
    host.register_test_contract(id, c).unwrap();
    let (cpu, mem) = (host.budget.cpu_used, host.budget.mem_used);
    assert_eq!(host.call(id, "add", &[args]), Ok(Val::Void));
    (host, id, cpu, mem)
}

#[test]
fn single_event_call_charges_its_six_operations() {
    let (host, _, cpu, mem) = run_contract(TestContract::SingleEvent(ContractWithSingleEvent));
    assert_eq!(host.budget.cpu_used - cpu, 660);
    assert_eq!(host.budget.mem_used - mem, 660);
    assert_eq!(host.objects.objects.len(), 2 + 5);
}

#[test]
fn multiple_events_call_charges_its_four_operations() {
    let (host, _, cpu, mem) =
        run_contract(TestContract::MultipleEvents(ContractWithMultipleEvents));
    assert_eq!(host.budget.cpu_used - cpu, 920);
    assert_eq!(host.budget.mem_used - mem, 920);
    assert_eq!(host.get_events().len(), 3);
}

#[test]
fn equal_hosts_end_with_equal_counters() {
    for c in [
        TestContract::SingleEvent(ContractWithSingleEvent),
        TestContract::MultipleEvents(ContractWithMultipleEvents),
    ] {
        let (h1, _, _, _) = run_contract(c);
        let (h2, _, _, _) = run_contract(c);
        assert_eq!(
            (h1.budget.cpu_used, h1.budget.mem_used),
            (h2.budget.cpu_used, h2.budget.mem_used)
        );
        assert_eq!(h1.get_events().len(), h2.get_events().len());
    }
}
