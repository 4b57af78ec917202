//! The settings that bear on the build of the chain: the amount of poles
//! and the signal that asks for a rebuild.

use vstd::prelude::*;

verus! {

/// Signal for reset: `true` while a rebuild of the chain is requested.
#[derive(Clone, Copy, Debug, PartialEq, Eq, Structural)]
pub struct HardReset(pub bool);

impl Default for HardReset {
    /// A fresh signal asks for the first build of the chain.
    fn default() -> (signal: Self)
        ensures
            signal.0,
    {
        Self(true)
    }
}

/// The amount of poles that the settings keep when `amount` is asked for:
/// a chain has at least one pole.
pub fn at_least_one(amount: u32) -> (kept: u32)
    ensures
        kept >= 1,
        amount >= 1 ==> kept == amount,
        amount == 0 ==> kept == 1,
{
    if amount < 1 {
        1
    } else {
        amount
    }
}

/// Whether the chain is to be torn down and built anew in this frame.
pub fn hard_reset(signal: &HardReset) -> (rebuild: bool)
    ensures
        rebuild == signal.0,
{
    signal.0
}

} // verus!
