//! The slots of durable storage in which the state of an oracle is kept.

use vstd::prelude::*;

verus! {

/// The name of one slot of durable storage.
#[derive(Clone, Copy, Debug, PartialEq, Eq, Structural)]
pub enum DataKey {
    /// The base asset.
    Base,
    /// The number of decimals.
    Decimals,
    /// The resolution.
    Resolution,
    /// The administrator.
    Admin,
    /// The price store.
    Prices,
}

impl DataKey {
    /// The number of the slot: no two slots share one.
    pub open spec fn number(self) -> u32 {
        match self {
            DataKey::Base => 0,
            DataKey::Decimals => 1,
            DataKey::Resolution => 2,
            DataKey::Admin => 3,
            DataKey::Prices => 4,
        }
    }

    /// The number under which the slot is stored.
    pub fn slot(self) -> (n: u32)
        ensures
            n == self.number(),
    {
        match self {
            DataKey::Base => 0,
            DataKey::Decimals => 1,
            DataKey::Resolution => 2,
            DataKey::Admin => 3,
            DataKey::Prices => 4,
        }
    }
}

} // verus!
