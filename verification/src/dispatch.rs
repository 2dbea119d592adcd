//! Origins of calls and the errors that a call can end with.

use crate::reward;
use crate::vault;
use vstd::prelude::*;

verus! {

/// Who a call comes from.
#[derive(Clone, Copy, Debug, PartialEq, Eq, Structural)]
pub enum Origin {
    /// The privileged root origin.
    Root,
    /// An account that signed the call.
    Signed(u64),
    /// An unsigned call.
    Unsigned,
}

/// Errors reported by the balances ledger when a fee cannot be withdrawn.
#[derive(Clone, Copy, Debug, PartialEq, Eq, Structural)]
pub enum CurrencyError {
    /// The account holds less than the amount.
    InsufficientBalance,
    /// The withdrawal would take the account below its existential deposit.
    Expendability,
    /// Locks forbid the withdrawal.
    LiquidityRestrictions,
}

/// Why a call failed.
#[derive(Clone, Copy, Debug, PartialEq, Eq, Structural)]
pub enum DispatchError {
    /// The call did not come from the origin it needs.
    BadOrigin,
    /// A reputation pallet error.
    Reward(reward::Error),
    /// A vault pallet error.
    Vault(vault::Error),
    /// The balances ledger refused a withdrawal.
    Currency(CurrencyError),
}

/// `log` after depositing `event` at `block`: nothing is recorded at the
/// genesis block.
pub open spec fn logged<E>(log: Seq<E>, block: u64, event: E) -> Seq<E> {
    if block == 0 {
        log
    } else {
        log.push(event)
    }
}

/// The signer of a call, if it is signed.
pub open spec fn signer(origin: Origin) -> Option<u64> {
    match origin {
        Origin::Signed(who) => Some(who),
        _ => None,
    }
}

/// The account that signed `origin`, or `BadOrigin`.
pub fn ensure_signed(origin: Origin) -> (r: Result<u64, DispatchError>)
    ensures
        match signer(origin) {
            Some(who) => r == Ok::<u64, DispatchError>(who),
            None => r == Err::<u64, DispatchError>(DispatchError::BadOrigin),
        },
{
    match origin {
        Origin::Signed(who) => Ok(who),
        _ => Err(DispatchError::BadOrigin),
    }
}

/// `Ok` for the root origin, `BadOrigin` for any other.
pub fn ensure_root(origin: Origin) -> (r: Result<(), DispatchError>)
    ensures
        origin == Origin::Root ==> r == Ok::<(), DispatchError>(()),
        origin != Origin::Root ==> r == Err::<(), DispatchError>(DispatchError::BadOrigin),
{
    match origin {
        Origin::Root => Ok(()),
        _ => Err(DispatchError::BadOrigin),
    }
}

} // verus!
