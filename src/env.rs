//! The base capability every environment offers.
use vstd::prelude::*;

verus! {

/// What every environment, host or guest, provides besides the host
/// functions themselves.
pub trait EnvBase: Sized {
    /// Whether `other` is this very environment.
    fn check_same_env(&self, other: &Self) -> bool;
}

} // verus!
