use vstd::prelude::*;

use crate::checks::ensure_operator;
use crate::error::ContractError;
use crate::msg::{BalanceChangeEvent, BalanceChangeListenerInterface, ListenerSubMsg};
use crate::state::{addr_list_insert, addr_list_remove, lemma_contains_prefix_step, Token};

verus! {

/// Builds one fire-and-forget observer call per registered listener, in
/// registration order, each carrying the structured change event.  The
/// calls are dispatched as part of the same atomic response as the
/// triggering mutation, so a failing listener rolls the whole request back.
pub fn notify_balance_change_listeners(t: &Token, event: &BalanceChangeEvent) -> (msgs: Vec<
    ListenerSubMsg,
>)
    ensures
        msgs@.len() == t.listeners@.len(),
        forall|i: int|
            0 <= i < msgs@.len() ==> (#[trigger] msgs@[i]) == (ListenerSubMsg {
                contract_addr: t.listeners@[i],
                msg: BalanceChangeListenerInterface::OnBalanceChange { event: *event },
            }),
{
    let n = t.listeners.len();
    let mut msgs: Vec<ListenerSubMsg> = Vec::new();
    let mut i: usize = 0;
    while i < n
        invariant
            n == t.listeners@.len(),
            0 <= i <= n,
            msgs@.len() == i,
            forall|k: int|
                0 <= k < i ==> (#[trigger] msgs@[k]) == (ListenerSubMsg {
                    contract_addr: t.listeners@[k],
                    msg: BalanceChangeListenerInterface::OnBalanceChange { event: *event },
                }),
        decreases n - i,
    {
        msgs.push(
            ListenerSubMsg {
                contract_addr: t.listeners[i],
                msg: BalanceChangeListenerInterface::OnBalanceChange { event: *event },
            },
        );
        i += 1;
    }
    msgs
}

/// The listener set after one update call: additions are applied to the
/// loaded set first and removals after them, so when one address stands in
/// both lists, the removal wins.
pub open spec fn listeners_after(base: Seq<u64>, add: Seq<u64>, remove: Seq<u64>, x: u64) -> bool {
    (base.contains(x) || add.contains(x)) && !remove.contains(x)
}

pub open spec fn opt_addrs(o: Option<Vec<u64>>) -> Seq<u64> {
    match o {
        Some(v) => v@,
        None => Seq::empty(),
    }
}

/// Merges additions into the deduplicated listener set, then applies
/// removals.  Operator-only.
pub fn exec_update_balance_change_listeners(
    t: &mut Token,
    caller: u64,
    add: Option<Vec<u64>>,
    remove: Option<Vec<u64>>,
) -> (r: Result<(), ContractError>)
    requires
        old(t).wf(),
    ensures
        final(t).wf(),
        r is Ok <==> old(t).is_operator(caller),
        r matches Err(e) ==> e is Unauthorized && *final(t) == *old(t),
        r is Ok ==> (forall|x: u64|
            final(t).listeners@.contains(x) == #[trigger] listeners_after(
                old(t).listeners@,
                opt_addrs(add),
                opt_addrs(remove),
                x,
            )) && final(t).ledger == old(t).ledger && final(t).operator == old(t).operator
            && final(t).global_freeze == old(t).global_freeze && final(t).frozen == old(t).frozen
            && final(t).bridge == old(t).bridge && final(t).derive_cursor == old(t).derive_cursor
            && final(t).n_initialized == old(t).n_initialized && final(t).copy_cursors == old(
            t,
        ).copy_cursors,
{
    match ensure_operator(t, caller) {
        Ok(()) => {},
        Err(e) => {
            return Err(e);
        },
    }
    let ghost adds = opt_addrs(add);
    let ghost removes = opt_addrs(remove);
    match add {
        Some(list) => {
            let n = list.len();
            let mut k: usize = 0;
            while k < n
                invariant
                    old(t).wf(),
                    t.ledger == old(t).ledger,
                    t.operator == old(t).operator,
                    t.global_freeze == old(t).global_freeze,
                    t.frozen == old(t).frozen,
                    t.bridge == old(t).bridge,
                    t.derive_cursor == old(t).derive_cursor,
                    t.n_initialized == old(t).n_initialized,
                    t.copy_cursors == old(t).copy_cursors,
                    t.listeners@.no_duplicates(),
                    n == list@.len(),
                    adds == list@,
                    0 <= k <= n,
                    forall|x: u64|
                        t.listeners@.contains(x) == #[trigger] listeners_after(
                            old(t).listeners@,
                            adds.subrange(0, k as int),
                            Seq::empty(),
                            x,
                        ),
                decreases n - k,
            {
                addr_list_insert(&mut t.listeners, list[k]);
                proof {
                    lemma_contains_prefix_step(adds, k as int);
                    assert forall|x: u64|
                        t.listeners@.contains(x) == #[trigger] listeners_after(
                            old(t).listeners@,
                            adds.subrange(0, k as int + 1),
                            Seq::empty(),
                            x,
                        ) by {
                        let before = listeners_after(
                            old(t).listeners@,
                            adds.subrange(0, k as int),
                            Seq::empty(),
                            x,
                        );
                    }
                }
                k += 1;
            }
            proof {
                assert(adds.subrange(0, n as int) =~= adds);
            }
        },
        None => {
            proof {
                assert forall|x: u64|
                    t.listeners@.contains(x) == #[trigger] listeners_after(
                        old(t).listeners@,
                        adds,
                        Seq::empty(),
                        x,
                    ) by {}
            }
        },
    }
    let ghost mid = t.listeners@;
    match remove {
        Some(list) => {
            let n = list.len();
            let mut k: usize = 0;
            proof {
                assert(removes.subrange(0, 0) =~= Seq::<u64>::empty());
                assert forall|x: u64|
                    t.listeners@.contains(x) == #[trigger] listeners_after(
                        old(t).listeners@,
                        adds,
                        removes.subrange(0, 0),
                        x,
                    ) by {
                    let before = listeners_after(old(t).listeners@, adds, Seq::<u64>::empty(), x);
                }
            }
            while k < n
                invariant
                    old(t).wf(),
                    t.ledger == old(t).ledger,
                    t.operator == old(t).operator,
                    t.global_freeze == old(t).global_freeze,
                    t.frozen == old(t).frozen,
                    t.bridge == old(t).bridge,
                    t.derive_cursor == old(t).derive_cursor,
                    t.n_initialized == old(t).n_initialized,
                    t.copy_cursors == old(t).copy_cursors,
                    t.listeners@.no_duplicates(),
                    n == list@.len(),
                    removes == list@,
                    0 <= k <= n,
                    forall|x: u64|
                        mid.contains(x) == #[trigger] listeners_after(
                            old(t).listeners@,
                            adds,
                            Seq::empty(),
                            x,
                        ),
                    forall|x: u64|
                        t.listeners@.contains(x) == #[trigger] listeners_after(
                            old(t).listeners@,
                            adds,
                            removes.subrange(0, k as int),
                            x,
                        ),
                decreases n - k,
            {
                addr_list_remove(&mut t.listeners, list[k]);
                proof {
                    lemma_contains_prefix_step(removes, k as int);
                    assert forall|x: u64|
                        t.listeners@.contains(x) == #[trigger] listeners_after(
                            old(t).listeners@,
                            adds,
                            removes.subrange(0, k as int + 1),
                            x,
                        ) by {
                        let before = listeners_after(
                            old(t).listeners@,
                            adds,
                            removes.subrange(0, k as int),
                            x,
                        );
                    }
                }
                k += 1;
            }
            proof {
                assert(removes.subrange(0, n as int) =~= removes);
            }
        },
        None => {
            proof {
                assert forall|x: u64|
                    t.listeners@.contains(x) == #[trigger] listeners_after(
                        old(t).listeners@,
                        adds,
                        removes,
                        x,
                    ) by {}
            }
        },
    }
    Ok(())
}

} // verus!
