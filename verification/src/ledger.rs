//! The ledger clock of the host environment.

use vstd::prelude::*;

verus! {

/// The host environment of the Soroban SDK, carried through as it is.
#[verifier::external_type_specification]
#[verifier::external_body]
pub struct ExEnv(soroban_sdk::Env);

/// Reads the close time of the current ledger, in seconds since the Unix
/// epoch, with `soroban_sdk::ledger::Ledger::timestamp`. Nothing is claimed
/// of the value: it is whatever the host reports.
#[verifier::external_body]
pub(crate) fn ledger_timestamp(env: &soroban_sdk::Env) -> (now: u64) {
    env.ledger().timestamp()
}

} // verus!
