use vstd::prelude::*;

use crate::checks::ensure_operator;
use crate::error::ContractError;
use crate::state::Token;

verus! {

/// Hands the operator slot to `new_operator`.  Operator-only; once the slot
/// is empty this (like every operator action) fails closed, so removal is
/// irreversible.
pub fn exec_set_operator(t: &mut Token, caller: u64, new_operator: u64) -> (r: Result<
    (),
    ContractError,
>)
    requires
        old(t).wf(),
    ensures
        final(t).wf(),
        r is Ok <==> old(t).is_operator(caller),
        r matches Err(e) ==> e is Unauthorized && *final(t) == *old(t),
        r is Ok ==> *final(t) == (Token { operator: Some(new_operator), ..*old(t) }),
{
    match ensure_operator(t, caller) {
        Ok(()) => {
            t.operator = Some(new_operator);
            Ok(())
        },
        Err(e) => Err(e),
    }
}

/// Empties the operator slot, leaving the contract permanently
/// unprivileged: no code path can re-appoint an operator afterwards.
pub fn exec_remove_operator(t: &mut Token, caller: u64) -> (r: Result<(), ContractError>)
    requires
        old(t).wf(),
    ensures
        final(t).wf(),
        r is Ok <==> old(t).is_operator(caller),
        r matches Err(e) ==> e is Unauthorized && *final(t) == *old(t),
        r is Ok ==> *final(t) == (Token { operator: None, ..*old(t) }),
{
    match ensure_operator(t, caller) {
        Ok(()) => {
            t.operator = None;
            Ok(())
        },
        Err(e) => Err(e),
    }
}

} // verus!
