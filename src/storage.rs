//! Storage records of a token-style contract, and the lifetime policy that
//! its entries follow: an entry whose remaining lifetime falls below a
//! threshold is extended when touched.
use vstd::prelude::*;

verus! {

pub const DAY_IN_LEDGERS: u32 = 17280;

pub const INSTANCE_BUMP_AMOUNT: u32 = 7 * DAY_IN_LEDGERS;

pub const INSTANCE_LIFETIME_THRESHOLD: u32 = INSTANCE_BUMP_AMOUNT - DAY_IN_LEDGERS;

pub const BALANCE_BUMP_AMOUNT: u32 = 30 * DAY_IN_LEDGERS;

pub const BALANCE_LIFETIME_THRESHOLD: u32 = BALANCE_BUMP_AMOUNT - DAY_IN_LEDGERS;

/// An account or contract address, by its identifier bytes.
#[derive(Clone, Debug)]
pub struct Address {
    pub id: Vec<u8>,
}

#[derive(Clone, Debug)]
pub struct AllowanceDataKey {
    pub from: Address,
    pub spender: Address,
}

#[derive(Clone, Copy, Debug, PartialEq, Eq, Structural)]
pub struct AllowanceValue {
    pub amount: i128,
    pub expiration_ledger: u32,
}

#[derive(Clone, Copy, Debug, PartialEq, Eq, Structural)]
pub struct BalanceValue {
    pub amount: i128,
    pub authorized: bool,
    pub clawback: bool,
}

/// Keys for the persistent data associated with token users.
#[derive(Clone, Debug)]
pub enum DataKey {
    Allowance(AllowanceDataKey),
    Balance(Address),
}

/// Keys for token instance data.
#[derive(Clone, Copy, Debug, PartialEq, Eq, Structural)]
pub enum InstanceDataKey {
    Admin,
    AssetInfo,
}

/// Ledgers left before `expiration`, counted from `current`.
pub open spec fn remaining(current: u32, expiration: u32) -> int {
    if expiration >= current {
        expiration - current
    } else {
        0
    }
}

/// The expiration after a touch at ledger `current`.
pub open spec fn touched(current: u32, expiration: u32, threshold: u32, bump: u32) -> int {
    if remaining(current, expiration) < threshold {
        let target = if current + bump > u32::MAX { u32::MAX as int } else { current + bump };
        if target > expiration { target } else { expiration as int }
    } else {
        expiration as int
    }
}

/// Touches an entry at ledger `current`: where fewer than `threshold`
/// ledgers remain, its expiration moves to `current + bump` (capped at the
/// largest `u32`); otherwise it stays. An expiration never decreases.
pub fn touch_expiration(current: u32, expiration: u32, threshold: u32, bump: u32) -> (r: u32)
    ensures
        r == touched(current, expiration, threshold, bump),
        r >= expiration,
{
    let left: u32 = if expiration >= current {
        expiration - current
    } else {
        0
    };
    if left < threshold {
        let target = current.saturating_add(bump);
        if target > expiration {
            target
        } else {
            expiration
        }
    } else {
        expiration
    }
}

} // verus!
