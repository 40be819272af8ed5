use soroban_host::budget::{Budget, BudgetError, CostModel, CostType};
use soroban_host::host::{Host, HostError};
use soroban_host::value::Val;

fn models() -> Vec<CostModel> {
    vec![
        CostModel { const_term: 100, linear_term: 10 },
        CostModel { const_term: 50, linear_term: 20 },
        CostModel { const_term: 50, linear_term: 10 },
        CostModel { const_term: 200, linear_term: 50 },
    ]
}

#[test]
fn model_evaluates_affine_cost() {
    let m = CostModel { const_term: 7, linear_term: 3 };
    assert_eq!(m.evaluate(0), 7);
    assert_eq!(m.evaluate(5), 22);
    let big = CostModel { const_term: 1, linear_term: u64::MAX };
    assert_eq!(big.evaluate(2), u64::MAX);
}

#[test]
fn charge_adds_and_reports_exhaustion() {
    let mut b = Budget::new(1000, 1000, models(), models());
    assert_eq!(b.charge(CostType::MapEntry, 3), Ok(()));
    assert_eq!((b.cpu_used, b.mem_used), (110, 110));
    assert_eq!(b.charge(CostType::EventRecord, 20), Err(BudgetError::ResourceExhausted));
    // The charge stands.
    assert_eq!(b.cpu_used, 110 + 1200);
}

#[test]
fn replay_is_deterministic_and_order_free() {
    let ops = [(CostType::ObjAlloc, 4u64), (CostType::VecEntry, 4), (CostType::MapEntry, 4)];
    let mut b1 = Budget::new(u64::MAX, u64::MAX, models(), models());
    let mut b2 = Budget::new(u64::MAX, u64::MAX, models(), models());
    for (t, n) in ops {
        b1.charge(t, n).unwrap();
    }
    for (t, n) in ops.iter().rev() {
        b2.charge(*t, *n).unwrap();
    }
    assert_eq!((b1.cpu_used, b1.mem_used), (b2.cpu_used, b2.mem_used));
    assert_eq!(b1.cpu_used, 140 + 90 + 130);
}

#[test]
fn host_operations_are_charged() {
    let mut host = Host::default();
    let m = host.map_new().unwrap();
    assert_eq!(host.budget.cpu_used, 100);
    let m = host.map_put(m, Val::U32(1), Val::U32(2)).unwrap();
    assert_eq!(host.budget.cpu_used, 150);
    host.map_put(m, Val::U32(3), Val::U32(4)).unwrap();
    assert_eq!(host.budget.cpu_used, 220);
    host.budget.cpu_limit = 220;
    assert_eq!(host.vec_new(), Err(HostError::Budget(BudgetError::ResourceExhausted)));
    assert_eq!(host.budget.cpu_used, 320);
    assert_eq!(host.objects.objects.len(), 3);
}

#[test]
fn append_is_charged_by_combined_length() {
    let mut host = Host::default();
    let a = host.test_vec_obj(&[1, 2, 3]).unwrap();
    let b = host.test_vec_obj(&[4, 5]).unwrap();
    let before = host.budget.cpu_used;
    let c = host.vec_append(a, b).unwrap();
    assert_eq!(host.budget.cpu_used - before, 50 + 10 * 5);
    match c {
        Val::Object(h) => assert_eq!(host.objects.vec_len(h), Ok(5)),
        _ => panic!("not an object"),
    }
    assert_eq!(
        host.vec_append(a, Val::U32(1)),
        Err(HostError::Object(soroban_host::objects::ObjError::WrongKind))
    );
}
