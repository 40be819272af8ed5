use soroban_host::storage::{
    touch_expiration, BALANCE_BUMP_AMOUNT, BALANCE_LIFETIME_THRESHOLD, DAY_IN_LEDGERS,
    INSTANCE_BUMP_AMOUNT, INSTANCE_LIFETIME_THRESHOLD,
};

#[test]
fn policy_constants() {
    assert_eq!(INSTANCE_BUMP_AMOUNT, 7 * 17280);
    assert_eq!(INSTANCE_LIFETIME_THRESHOLD, 6 * DAY_IN_LEDGERS);
    assert_eq!(BALANCE_BUMP_AMOUNT, 518400);
    assert_eq!(BALANCE_LIFETIME_THRESHOLD, 29 * DAY_IN_LEDGERS);
}

#[test]
fn touch_below_threshold_extends() {
    assert_eq!(touch_expiration(1000, 1010, 100, 500), 1500);
    assert_eq!(touch_expiration(1000, 10, 100, 500), 1500);
    assert_eq!(touch_expiration(u32::MAX - 5, u32::MAX - 4, 100, 500), u32::MAX);
}

#[test]
fn touch_above_threshold_is_noop() {
    assert_eq!(touch_expiration(1000, 1200, 100, 500), 1200);
    assert_eq!(touch_expiration(1000, 1100, 100, 500), 1100);
}

#[test]
fn touch_never_decreases() {
    assert_eq!(touch_expiration(1000, 1050, 100, 20), 1050);
}
