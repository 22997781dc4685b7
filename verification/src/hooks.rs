use vstd::prelude::*;

use crate::checks::{ensure_accounts_not_frozen, ensure_not_self_transfer};
use crate::error::ContractError;
use crate::ledger::Ledger;
use crate::math::{add_u128, sub_u128};
use crate::msg::{BalanceChangeEvent, ListenerSubMsg};
use crate::notify::notify_balance_change_listeners;
use crate::state::Token;

verus! {

/// A transfer between these parties is blocked by the access gate:
/// self-transfer, the global freeze flag, or a freeze on either party.
pub open spec fn transfer_blocked(t: Token, sender: u64, recipient: u64) -> bool {
    sender == recipient || t.global_freeze || t.is_frozen(sender) || t.is_frozen(recipient)
}

/// A mint to `recipient` is blocked by the freeze state.
pub open spec fn mint_blocked(t: Token, recipient: u64) -> bool {
    t.global_freeze || t.is_frozen(recipient)
}

/// A burn from `holder` is blocked by the freeze state.
pub open spec fn burn_blocked(t: Token, holder: u64) -> bool {
    t.global_freeze || t.is_frozen(holder)
}

/// Everything but the ledger is unchanged between the two states.
pub open spec fn same_but_ledger(pre: Token, post: Token) -> bool {
    &&& post.operator == pre.operator
    &&& post.global_freeze == pre.global_freeze
    &&& post.frozen == pre.frozen
    &&& post.listeners == pre.listeners
    &&& post.bridge == pre.bridge
    &&& post.derive_cursor == pre.derive_cursor
    &&& post.n_initialized == pre.n_initialized
    &&& post.copy_cursors == pre.copy_cursors
}

/// Raises `address` by `delta` in the primary store and the ranked index
/// together; wraparound is surfaced as an error with nothing changed.
pub fn update_ordered_balance(l: &mut Ledger, address: u64, delta: u128) -> (r: Result<
    (),
    ContractError,
>)
    requires
        old(l).wf(),
    ensures
        final(l).wf(),
        r is Ok <==> old(l).balance_of(address) + delta <= u128::MAX,
        r matches Err(e) ==> e is ArithmeticOverflow && *final(l) == *old(l),
        r is Ok ==> final(l).balance_of(address) == old(l).balance_of(address) + delta && (forall|
            x: u64,
        |
            x != address ==> final(l).balance_of(x) == old(l).balance_of(x)),
{
    let prev = l.get_balance(address);
    match add_u128(prev, delta) {
        Ok(nb) => {
            l.adjust(address, nb);
            Ok(())
        },
        Err(e) => Err(e),
    }
}

/// Moves `delta` from `sender` to `recipient` in the primary store and the
/// ranked index together.  Underflow of the sender's balance and overflow
/// of the recipient's are surfaced as errors with nothing changed.
pub fn update_ordered_balances(l: &mut Ledger, sender: u64, recipient: u64, delta: u128) -> (r:
    Result<(), ContractError>)
    requires
        old(l).wf(),
        sender != recipient,
    ensures
        final(l).wf(),
        r is Ok <==> delta <= old(l).balance_of(sender) && old(l).balance_of(recipient) + delta
            <= u128::MAX,
        r matches Err(e) ==> *final(l) == *old(l) && (e is ArithmeticUnderflow <==> delta > old(l).balance_of(sender)) && (e is ArithmeticOverflow <==> delta <= old(l).balance_of(sender)
            && old(l).balance_of(recipient) + delta > u128::MAX),
        r is Ok ==> final(l).balance_of(sender) == old(l).balance_of(sender) - delta && final(l).balance_of(recipient) == old(l).balance_of(recipient) + delta && (forall|x: u64|
            x != sender && x != recipient ==> final(l).balance_of(x) == old(l).balance_of(x)),
{
    let prev_sender = l.get_balance(sender);
    let next_sender = match sub_u128(prev_sender, delta) {
        Ok(v) => v,
        Err(e) => {
            return Err(e);
        },
    };
    let prev_recipient = l.get_balance(recipient);
    let next_recipient = match add_u128(prev_recipient, delta) {
        Ok(v) => v,
        Err(e) => {
            return Err(e);
        },
    };
    l.adjust(sender, next_sender);
    l.adjust(recipient, next_recipient);
    Ok(())
}

/// Custom business logic that fires before the base send and transfer
/// functions: the access gate is consulted, the primary store and ranked
/// index are updated together, and the listener fan-out is built.
pub fn before_transfer(t: &mut Token, sender: u64, recipient: u64, delta: u128) -> (r: Result<
    Vec<ListenerSubMsg>,
    ContractError,
>)
    requires
        old(t).wf(),
    ensures
        final(t).wf(),
        r is Ok <==> !transfer_blocked(*old(t), sender, recipient) && delta <= old(t).ledger.balance_of(sender) && old(t).ledger.balance_of(recipient) + delta <= u128::MAX,
        r matches Err(e) ==> *final(t) == *old(t) && (e is Unauthorized <==> transfer_blocked(
            *old(t),
            sender,
            recipient,
        )),
        r is Ok ==> final(t).ledger.balance_of(sender) == old(t).ledger.balance_of(sender) - delta
            && final(t).ledger.balance_of(recipient) == old(t).ledger.balance_of(recipient)
            + delta && (forall|x: u64|
            x != sender && x != recipient ==> final(t).ledger.balance_of(x)
                == old(t).ledger.balance_of(x)) && same_but_ledger(*old(t), *final(t)),
        r matches Ok(msgs) ==> msgs@.len() == old(t).listeners@.len() && (forall|i: int|
            0 <= i < msgs@.len() ==> (#[trigger] msgs@[i]).contract_addr == old(t).listeners@[i]
                && msgs@[i].msg == (
            crate::msg::BalanceChangeListenerInterface::OnBalanceChange {
                event: BalanceChangeEvent::Transfer { initiator: sender, recipient, amount: delta },
            })),
{
    match ensure_not_self_transfer(sender, recipient) {
        Ok(()) => {},
        Err(e) => {
            return Err(e);
        },
    }
    match ensure_accounts_not_frozen(t, Some(sender), Some(recipient)) {
        Ok(()) => {},
        Err(e) => {
            return Err(e);
        },
    }
    match update_ordered_balances(&mut t.ledger, sender, recipient, delta) {
        Ok(()) => {},
        Err(e) => {
            return Err(e);
        },
    }
    let event = BalanceChangeEvent::Transfer { initiator: sender, recipient, amount: delta };
    Ok(notify_balance_change_listeners(&*t, &event))
}

/// Custom business logic that fires before the base mint function.
pub fn before_mint(t: &mut Token, minter: u64, recipient: u64, delta: u128) -> (r: Result<
    Vec<ListenerSubMsg>,
    ContractError,
>)
    requires
        old(t).wf(),
    ensures
        final(t).wf(),
        r is Ok <==> !mint_blocked(*old(t), recipient) && old(t).ledger.balance_of(recipient)
            + delta <= u128::MAX,
        r matches Err(e) ==> *final(t) == *old(t) && (e is Unauthorized <==> mint_blocked(
            *old(t),
            recipient,
        )),
        r is Ok ==> final(t).ledger.balance_of(recipient) == old(t).ledger.balance_of(recipient)
            + delta && (forall|x: u64|
            x != recipient ==> final(t).ledger.balance_of(x) == old(t).ledger.balance_of(x))
            && same_but_ledger(*old(t), *final(t)),
        r matches Ok(msgs) ==> msgs@.len() == old(t).listeners@.len() && (forall|i: int|
            0 <= i < msgs@.len() ==> (#[trigger] msgs@[i]).contract_addr == old(t).listeners@[i]
                && msgs@[i].msg == (
            crate::msg::BalanceChangeListenerInterface::OnBalanceChange {
                event: BalanceChangeEvent::Mint { initiator: minter, recipient, amount: delta },
            })),
{
    match ensure_accounts_not_frozen(t, None, Some(recipient)) {
        Ok(()) => {},
        Err(e) => {
            return Err(e);
        },
    }
    match update_ordered_balance(&mut t.ledger, recipient, delta) {
        Ok(()) => {},
        Err(e) => {
            return Err(e);
        },
    }
    let event = BalanceChangeEvent::Mint { initiator: minter, recipient, amount: delta };
    Ok(notify_balance_change_listeners(&*t, &event))
}

/// Custom business logic that fires before the base burn function.
pub fn before_burn(t: &mut Token, burner: u64, delta: u128) -> (r: Result<
    Vec<ListenerSubMsg>,
    ContractError,
>)
    requires
        old(t).wf(),
    ensures
        final(t).wf(),
        r is Ok <==> !burn_blocked(*old(t), burner) && delta <= old(t).ledger.balance_of(burner),
        r matches Err(e) ==> *final(t) == *old(t) && (e is Unauthorized <==> burn_blocked(
            *old(t),
            burner,
        )),
        r is Ok ==> final(t).ledger.balance_of(burner) == old(t).ledger.balance_of(burner) - delta
            && (forall|x: u64|
            x != burner ==> final(t).ledger.balance_of(x) == old(t).ledger.balance_of(x))
            && same_but_ledger(*old(t), *final(t)),
        r matches Ok(msgs) ==> msgs@.len() == old(t).listeners@.len() && (forall|i: int|
            0 <= i < msgs@.len() ==> (#[trigger] msgs@[i]).contract_addr == old(t).listeners@[i]
                && msgs@[i].msg == (
            crate::msg::BalanceChangeListenerInterface::OnBalanceChange {
                event: BalanceChangeEvent::Burn { initiator: burner, amount: delta },
            })),
{
    match ensure_accounts_not_frozen(t, Some(burner), None) {
        Ok(()) => {},
        Err(e) => {
            return Err(e);
        },
    }
    let prev = t.ledger.get_balance(burner);
    let next = match sub_u128(prev, delta) {
        Ok(v) => v,
        Err(e) => {
            return Err(e);
        },
    };
    t.ledger.adjust(burner, next);
    let event = BalanceChangeEvent::Burn { initiator: burner, amount: delta };
    Ok(notify_balance_change_listeners(&*t, &event))
}

/// Self-transfers are blocked whatever the freeze state or amount: the
/// gate refuses them before any balance is read.
pub proof fn lemma_self_transfer_always_blocked(t: Token, a: u64)
    ensures
        transfer_blocked(t, a, a),
{
}

/// The global freeze flag blocks every transfer, mint and burn at once,
/// whoever the parties are, until it is cleared.
pub proof fn lemma_global_freeze_blocks_all(t: Token, sender: u64, recipient: u64)
    requires
        t.global_freeze,
    ensures
        transfer_blocked(t, sender, recipient),
        mint_blocked(t, recipient),
        burn_blocked(t, sender),
{
}

} // verus!
