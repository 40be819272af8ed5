//! Compact values: immediate scalars or handles into the object store, with
//! one total order over all of them.
use vstd::prelude::*;

verus! {

/// A compact value.
#[derive(Clone, Copy, Debug, PartialEq, Eq, Structural)]
pub enum Val {
    Void,
    Bool(bool),
    U32(u32),
    I32(i32),
    /// A handle to an object of the store.
    Object(u32),
}

/// The variant's place in the order; values of lower rank sort first.
pub open spec fn val_rank(v: Val) -> int {
    match v {
        Val::Void => 0,
        Val::Bool(_) => 1,
        Val::U32(_) => 2,
        Val::I32(_) => 3,
        Val::Object(_) => 4,
    }
}

/// The value's place among the values of its rank.
pub open spec fn val_payload(v: Val) -> int {
    match v {
        Val::Void => 0,
        Val::Bool(b) => if b { 1 } else { 0 },
        Val::U32(x) => x as int,
        Val::I32(x) => x as int,
        Val::Object(h) => h as int,
    }
}

/// The strict total order over compact values: by rank, then by payload.
pub open spec fn val_lt(a: Val, b: Val) -> bool {
    val_rank(a) < val_rank(b) || (val_rank(a) == val_rank(b) && val_payload(a) < val_payload(b))
}

pub proof fn lemma_val_order_total(a: Val, b: Val)
    ensures
        val_lt(a, b) || val_lt(b, a) || a == b,
        !(val_lt(a, b) && val_lt(b, a)),
{
}

fn rank_of(v: Val) -> (r: u8)
    ensures
        r as int == val_rank(v),
{
    match v {
        Val::Void => 0,
        Val::Bool(_) => 1,
        Val::U32(_) => 2,
        Val::I32(_) => 3,
        Val::Object(_) => 4,
    }
}

/// Compares two values: -1, 0 or 1 as `a` sorts before, equal to, or after `b`.
pub fn compare(a: Val, b: Val) -> (r: i64)
    ensures
        r == -1 <==> val_lt(a, b),
        r == 0 <==> a == b,
        r == 1 <==> val_lt(b, a),
{
    let ra = rank_of(a);
    let rb = rank_of(b);
    if ra < rb {
        return -1;
    }
    if rb < ra {
        return 1;
    }
    let ord: i64 = match (a, b) {
        (Val::Bool(x), Val::Bool(y)) => if x == y { 0 } else if !x { -1 } else { 1 },
        (Val::U32(x), Val::U32(y)) => if x < y { -1 } else if x == y { 0 } else { 1 },
        (Val::I32(x), Val::I32(y)) => if x < y { -1 } else if x == y { 0 } else { 1 },
        (Val::Object(x), Val::Object(y)) => if x < y { -1 } else if x == y { 0 } else { 1 },
        _ => 0,
    };
    ord
}

} // verus!
