use vstd::prelude::*;

use crate::error::ContractError;
use crate::state::{addr_list_contains, Token};

verus! {

/// Forbid self-transfers, which can be abused to implement certain types of
/// attacks.  Fails with `Unauthorized` whenever sender and recipient
/// coincide, regardless of any other state.
pub fn ensure_not_self_transfer(sender: u64, recipient: u64) -> (r: Result<(), ContractError>)
    ensures
        r is Ok <==> sender != recipient,
        r matches Err(e) ==> e is Unauthorized,
{
    if sender == recipient {
        Err(ContractError::Unauthorized { reason: String::from_str("self-transfers not allowed") })
    } else {
        Ok(())
    }
}

/// Ensure that there is no global balance freeze and no freeze on the given
/// sender and recipient accounts specifically.
pub fn ensure_accounts_not_frozen(t: &Token, sender: Option<u64>, recipient: Option<u64>) -> (r:
    Result<(), ContractError>)
    ensures
        r is Ok <==> !t.global_freeze && (sender matches Some(s) ==> !t.is_frozen(s)) && (
        recipient matches Some(x) ==> !t.is_frozen(x)),
        r matches Err(e) ==> e is Unauthorized,
{
    if t.global_freeze {
        return Err(ContractError::Unauthorized {
            reason: String::from_str("CW20 balances are frozen"),
        });
    }
    match sender {
        Some(s) => {
            if addr_list_contains(&t.frozen, s) {
                return Err(ContractError::Unauthorized {
                    reason: String::from_str("CW20 sender balance is frozen"),
                });
            }
        },
        None => {},
    }
    match recipient {
        Some(x) => {
            if addr_list_contains(&t.frozen, x) {
                return Err(ContractError::Unauthorized {
                    reason: String::from_str("CW20 recipient balance is frozen"),
                });
            }
        },
        None => {},
    }
    Ok(())
}

/// The caller must be the stored operator; with no operator stored this
/// always fails (fail-closed).
pub fn ensure_operator(t: &Token, addr: u64) -> (r: Result<(), ContractError>)
    ensures
        r is Ok <==> t.is_operator(addr),
        r matches Err(e) ==> e is Unauthorized,
{
    match t.operator {
        Some(op) => {
            if op == addr {
                Ok(())
            } else {
                Err(ContractError::Unauthorized {
                    reason: String::from_str("Operator authorization required"),
                })
            }
        },
        None => Err(ContractError::Unauthorized {
            reason: String::from_str("Operator authorization required"),
        }),
    }
}

/// Once the operator slot is empty it can never be refilled: every
/// operator-gated entry point fails closed, `exec_set_operator` included.
pub proof fn lemma_operator_removal_is_final(t: Token, caller: u64)
    requires
        t.operator is None,
    ensures
        !t.is_operator(caller),
{
}

} // verus!
