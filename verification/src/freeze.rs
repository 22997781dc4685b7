use vstd::prelude::*;

use crate::checks::ensure_operator;
use crate::error::ContractError;
use crate::state::{addr_list_insert, addr_list_remove, Token};
use crate::state::lemma_contains_prefix_step;

verus! {

/// What per-address freezing leaves frozen: with `new_state` set, the old
/// frozen set plus every listed address that currently holds a non-zero
/// balance; with it cleared, the old set minus those.  Listed addresses
/// with a zero balance are deliberately skipped, not an error.
pub open spec fn frozen_after(t: Token, list: Seq<u64>, new_state: bool, x: u64) -> bool {
    if new_state {
        t.is_frozen(x) || (list.contains(x) && t.ledger.balance_of(x) > 0)
    } else {
        t.is_frozen(x) && !(list.contains(x) && t.ledger.balance_of(x) > 0)
    }
}

/// The listed addresses that hold a strictly positive balance, in input
/// order: exactly those whose freeze flag a toggle touches.
pub open spec fn touched(l: crate::ledger::Ledger, list: Seq<u64>) -> Seq<u64>
    decreases list.len(),
{
    if list.len() == 0 {
        Seq::empty()
    } else {
        let rest = touched(l, list.drop_last());
        if l.balance_of(list.last()) > 0 {
            rest.push(list.last())
        } else {
            rest
        }
    }
}

/// Lock or unlock one or more specific accounts or, if none are given, lock
/// or unlock all balances globally.  Returns the addresses whose flag was
/// actually touched, in input order.
pub fn toggle_freeze(t: &mut Token, addresses: Option<Vec<u64>>, new_state: bool) -> (events: Vec<
    u64,
>)
    requires
        old(t).wf(),
    ensures
        final(t).wf(),
        addresses is None ==> *final(t) == (Token { global_freeze: new_state, ..*old(t) })
            && events@.len() == 0,
        addresses matches Some(list) ==> final(t).global_freeze == old(t).global_freeze
            && (forall|x: u64| final(t).is_frozen(x) == frozen_after(*old(t), list@, new_state, x))
            && events@ == touched(old(t).ledger, list@)
            && final(t).ledger == old(t).ledger
            && final(t).operator == old(t).operator
            && final(t).listeners == old(t).listeners
            && final(t).bridge == old(t).bridge
            && final(t).derive_cursor == old(t).derive_cursor
            && final(t).n_initialized == old(t).n_initialized
            && final(t).copy_cursors == old(t).copy_cursors,
{
    match addresses {
        Some(list) => {
            let mut events: Vec<u64> = Vec::new();
            let n = list.len();
            let mut k: usize = 0;
            while k < n
                invariant
                    old(t).wf(),
                    t.ledger == old(t).ledger,
                    t.operator == old(t).operator,
                    t.global_freeze == old(t).global_freeze,
                    t.listeners == old(t).listeners,
                    t.bridge == old(t).bridge,
                    t.derive_cursor == old(t).derive_cursor,
                    t.n_initialized == old(t).n_initialized,
                    t.copy_cursors == old(t).copy_cursors,
                    t.frozen@.no_duplicates(),
                    n == list@.len(),
                    0 <= k <= n,
                    forall|x: u64|
                        t.is_frozen(x) == #[trigger] frozen_after(
                            *old(t),
                            list@.subrange(0, k as int),
                            new_state,
                            x,
                        ),
                    events@ == touched(old(t).ledger, list@.subrange(0, k as int)),
                decreases n - k,
            {
                let a = list[k];
                let ghost prefix = list@.subrange(0, k as int);
                let ghost prefix1 = list@.subrange(0, k as int + 1);
                proof {
                    lemma_contains_prefix_step(list@, k as int);
                    assert(prefix1.drop_last() =~= prefix);
                    assert(prefix1.last() == a);
                }
                let bal = t.ledger.get_balance(a);
                if bal > 0 {
                    events.push(a);
                    if new_state {
                        addr_list_insert(&mut t.frozen, a);
                    } else {
                        addr_list_remove(&mut t.frozen, a);
                    }
                }
                proof {
                    assert(events@ == touched(old(t).ledger, prefix1));
                    assert forall|x: u64|
                        t.is_frozen(x) == frozen_after(*old(t), prefix1, new_state, x) by {
                        let before = frozen_after(*old(t), prefix, new_state, x);
                        assert(prefix1.contains(x) <==> (prefix.contains(x) || a == x));
                        assert(old(t).ledger.balance_of(a) == bal);
                        if x == a {
                            assert(frozen_after(*old(t), prefix1, new_state, x) == (
                            if new_state {
                                old(t).is_frozen(x) || bal > 0
                            } else {
                                old(t).is_frozen(x) && !(bal > 0)
                            }));
                        }
                    }
                }
                k += 1;
            }
            proof {
                assert(list@.subrange(0, n as int) =~= list@);
            }
            events
        },
        None => {
            t.global_freeze = new_state;
            Vec::new()
        },
    }
}

/// Freezes the listed accounts that hold a balance, or every balance
/// globally when no list is given.  Operator-only.
pub fn exec_freeze(t: &mut Token, caller: u64, addresses: Option<Vec<u64>>) -> (r: Result<
    Vec<u64>,
    ContractError,
>)
    requires
        old(t).wf(),
    ensures
        final(t).wf(),
        r is Ok <==> old(t).is_operator(caller),
        r matches Err(e) ==> e is Unauthorized && *final(t) == *old(t),
        r is Ok && addresses is None ==> *final(t) == (Token {
            global_freeze: true,
            ..*old(t)
        }),
        r is Ok ==> (addresses matches Some(list) ==> final(t).global_freeze == old(t).global_freeze && (forall|x: u64|
            final(t).is_frozen(x) == frozen_after(*old(t), list@, true, x)) && final(t).ledger
            == old(t).ledger),
{
    match ensure_operator(t, caller) {
        Ok(()) => Ok(toggle_freeze(t, addresses, true)),
        Err(e) => Err(e),
    }
}

/// Unfreezes the listed accounts that hold a balance, or clears the global
/// freeze when no list is given.  Operator-only.
pub fn exec_unfreeze(t: &mut Token, caller: u64, addresses: Option<Vec<u64>>) -> (r: Result<
    Vec<u64>,
    ContractError,
>)
    requires
        old(t).wf(),
    ensures
        final(t).wf(),
        r is Ok <==> old(t).is_operator(caller),
        r matches Err(e) ==> e is Unauthorized && *final(t) == *old(t),
        r is Ok && addresses is None ==> *final(t) == (Token {
            global_freeze: false,
            ..*old(t)
        }),
        r is Ok ==> (addresses matches Some(list) ==> final(t).global_freeze == old(t).global_freeze && (forall|x: u64|
            final(t).is_frozen(x) == frozen_after(*old(t), list@, false, x)) && final(t).ledger
            == old(t).ledger),
{
    match ensure_operator(t, caller) {
        Ok(()) => Ok(toggle_freeze(t, addresses, false)),
        Err(e) => Err(e),
    }
}

} // verus!
