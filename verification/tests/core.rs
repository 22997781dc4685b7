use cw20_pro::checks::{ensure_accounts_not_frozen, ensure_not_self_transfer, ensure_operator};
use cw20_pro::error::ContractError;
use cw20_pro::freeze::{exec_freeze, exec_unfreeze};
use cw20_pro::hooks::{before_burn, before_mint, before_transfer, update_ordered_balance};
use cw20_pro::math::{add_u128, add_u256, add_u64, sub_u128, sub_u64, U256};
use cw20_pro::msg::{BalanceChangeEvent, BalanceChangeListenerInterface, MintParams};
use cw20_pro::notify::{exec_update_balance_change_listeners, notify_balance_change_listeners};
use cw20_pro::operator::{exec_remove_operator, exec_set_operator};
use cw20_pro::query::{query_balances_by_address, query_paginate_balances};
use cw20_pro::state::{init, Token};

const OP: u64 = 1;
const A: u64 = 10;
const B: u64 = 11;
const C: u64 = 12;

fn fresh(balances: &[(u64, u128)]) -> Token {
    let list: Vec<MintParams> = balances
        .iter()
        .map(|&(address, amount)| MintParams { address, amount })
        .collect();
    init(OP, &list).expect("init")
}

#[test]
fn init_aggregates_and_skips_zeroes() {
    let t = fresh(&[(A, 5), (A, 7), (B, 0)]);
    let resp = query_balances_by_address(&t.ledger, vec![A, B, C]).unwrap();
    assert_eq!(resp.balances[0].amount, 12);
    assert_eq!(resp.balances[1].amount, 0);
    assert_eq!(resp.balances[2].amount, 0);
    assert_eq!(t.ledger.n_balances, 1);
    assert!(t.operator == Some(OP));
    assert!(!t.global_freeze);
}

#[test]
fn init_overflow_is_surfaced() {
    let list = vec![
        MintParams { address: A, amount: u128::MAX },
        MintParams { address: A, amount: 1 },
    ];
    let r = init(OP, &list);
    assert!(matches!(r, Err(ContractError::ArithmeticOverflow)));
}

#[test]
fn math_guard_exact_values() {
    assert_eq!(add_u128(2, 3).unwrap(), 5);
    assert!(matches!(add_u128(u128::MAX, 1), Err(ContractError::ArithmeticOverflow)));
    assert_eq!(sub_u128(5, 3).unwrap(), 2);
    assert!(matches!(sub_u128(3, 5), Err(ContractError::ArithmeticUnderflow)));
    assert_eq!(add_u64(7, 8).unwrap(), 15);
    assert!(matches!(add_u64(u64::MAX, 1), Err(ContractError::ArithmeticOverflow)));
    assert_eq!(sub_u64(8, 8).unwrap(), 0);
    assert!(matches!(sub_u64(0, 1), Err(ContractError::ArithmeticUnderflow)));
}

#[test]
fn wide_total_carries_across_the_low_limb() {
    let z = U256::zero();
    let once = add_u256(z, u128::MAX).unwrap();
    assert_eq!(once.hi, 0);
    assert_eq!(once.lo, u128::MAX);
    let twice = add_u256(once, u128::MAX).unwrap();
    assert_eq!(twice.hi, 1);
    assert_eq!(twice.lo, u128::MAX - 1);
    let top = U256 { hi: u128::MAX, lo: u128::MAX };
    assert!(matches!(add_u256(top, 1), Err(ContractError::ArithmeticOverflow)));
}

// Self-transfer always fails with Unauthorized, whatever the freeze state
// or amount.
#[test]
fn self_transfer_always_unauthorized() {
    let mut t = fresh(&[(A, 100)]);
    assert!(matches!(
        before_transfer(&mut t, A, A, 5),
        Err(ContractError::Unauthorized { .. })
    ));
    assert!(matches!(
        before_transfer(&mut t, A, A, 0),
        Err(ContractError::Unauthorized { .. })
    ));
    // even with everything frozen, the same error comes back
    exec_freeze(&mut t, OP, None).unwrap();
    assert!(matches!(
        before_transfer(&mut t, A, A, 5),
        Err(ContractError::Unauthorized { .. })
    ));
    assert!(matches!(ensure_not_self_transfer(A, B), Ok(())));
}

// The global freeze blocks every transfer, mint and burn until cleared.
#[test]
fn global_freeze_blocks_everything_until_cleared() {
    let mut t = fresh(&[(A, 100), (B, 50)]);
    exec_freeze(&mut t, OP, None).unwrap();
    assert!(matches!(
        before_transfer(&mut t, A, B, 5),
        Err(ContractError::Unauthorized { .. })
    ));
    assert!(matches!(before_mint(&mut t, OP, B, 5), Err(ContractError::Unauthorized { .. })));
    assert!(matches!(before_burn(&mut t, A, 5), Err(ContractError::Unauthorized { .. })));
    exec_unfreeze(&mut t, OP, None).unwrap();
    assert!(before_transfer(&mut t, A, B, 5).is_ok());
    assert!(before_mint(&mut t, OP, B, 5).is_ok());
    assert!(before_burn(&mut t, A, 5).is_ok());
}

// A per-address freeze blocks only operations involving that address.
#[test]
fn per_address_freeze_blocks_only_that_address() {
    let mut t = fresh(&[(A, 100), (B, 50), (C, 25)]);
    exec_freeze(&mut t, OP, Some(vec![A])).unwrap();
    assert!(matches!(
        before_transfer(&mut t, A, B, 5),
        Err(ContractError::Unauthorized { .. })
    ));
    assert!(matches!(
        before_transfer(&mut t, B, A, 5),
        Err(ContractError::Unauthorized { .. })
    ));
    assert!(matches!(before_burn(&mut t, A, 5), Err(ContractError::Unauthorized { .. })));
    assert!(before_transfer(&mut t, B, C, 5).is_ok());
    assert!(matches!(ensure_accounts_not_frozen(&t, Some(B), Some(C)), Ok(())));
    assert!(ensure_accounts_not_frozen(&t, Some(A), None).is_err());
}

// Freezing silently skips addresses that hold no balance.
#[test]
fn freeze_skips_zero_balance_addresses() {
    let mut t = fresh(&[(A, 100)]);
    let touched = exec_freeze(&mut t, OP, Some(vec![A, C])).unwrap();
    assert_eq!(touched, vec![A]);
    // C was skipped, so it can still receive
    assert!(before_mint(&mut t, OP, C, 5).is_ok());
}

#[test]
fn freeze_requires_operator() {
    let mut t = fresh(&[(A, 100)]);
    assert!(matches!(
        exec_freeze(&mut t, A, None),
        Err(ContractError::Unauthorized { .. })
    ));
}

#[test]
fn transfer_underflow_and_overflow_are_surfaced() {
    let mut t = fresh(&[(A, 100), (B, u128::MAX - 10)]);
    assert!(matches!(
        before_transfer(&mut t, A, B, 101),
        Err(ContractError::ArithmeticUnderflow)
    ));
    assert!(matches!(
        before_transfer(&mut t, A, B, 50),
        Err(ContractError::ArithmeticOverflow)
    ));
    assert!(before_transfer(&mut t, A, B, 10).is_ok());
    let resp = query_balances_by_address(&t.ledger, vec![A, B]).unwrap();
    assert_eq!(resp.balances[0].amount, 90);
    assert_eq!(resp.balances[1].amount, u128::MAX);
}

// At every point of a mint/burn/transfer sequence, the ranked index holds
// exactly the positive-balance holders and the counter matches.
#[test]
fn index_tracks_holders_through_mutations() {
    let mut t = fresh(&[(A, 30)]);
    let check = |t: &Token, expected: &[(u128, u64)]| {
        assert_eq!(t.ledger.n_balances as usize, expected.len());
        let resp = query_paginate_balances(&t.ledger, None, Some(false), None).unwrap();
        let got: Vec<(u128, u64)> = resp.balances.iter().map(|b| (b.amount, b.address)).collect();
        assert_eq!(got, expected.to_vec());
    };
    check(&t, &[(30, A)]);
    before_mint(&mut t, OP, B, 40).unwrap();
    check(&t, &[(30, A), (40, B)]);
    before_transfer(&mut t, A, C, 30).unwrap();
    // A drops to zero and leaves the index entirely
    check(&t, &[(30, C), (40, B)]);
    before_burn(&mut t, B, 15).unwrap();
    check(&t, &[(25, B), (30, C)]);
    before_burn(&mut t, B, 25).unwrap();
    check(&t, &[(30, C)]);
    update_ordered_balance(&mut t.ledger, A, 30).unwrap();
    // ties are broken by address
    check(&t, &[(30, A), (30, C)]);
}

// Concatenating successive pages, following the cursor, yields the whole
// index exactly once, in both directions.
#[test]
fn pagination_round_trip_covers_everything() {
    let holders: Vec<(u64, u128)> = (0..25u64).map(|i| (100 + i, 1000 + (i as u128 % 7) * 10)).collect();
    let t = fresh(&holders);
    for &desc in &[false, true] {
        let mut seen: Vec<(u128, u64)> = Vec::new();
        let mut cursor = None;
        let mut rounds: u32 = 0;
        loop {
            let resp = query_paginate_balances(&t.ledger, Some(4), Some(desc), cursor).unwrap();
            for b in &resp.balances {
                seen.push((b.amount, b.address));
            }
            rounds += 1;
            assert!(rounds <= 25);
            match resp.cursor {
                Some(c) => cursor = Some(c),
                None => break,
            }
        }
        assert_eq!(seen.len(), 25);
        let mut expected = seen.clone();
        if desc {
            expected.sort_by(|a, b| b.cmp(a));
        } else {
            expected.sort();
        }
        assert_eq!(seen, expected);
        // no duplicates
        let mut dedup = seen.clone();
        dedup.sort();
        dedup.dedup();
        assert_eq!(dedup.len(), 25);
    }
}

#[test]
fn pagination_cursor_absent_means_end() {
    let t = fresh(&[(A, 10), (B, 20), (C, 30)]);
    let resp = query_paginate_balances(&t.ledger, Some(3), Some(true), None).unwrap();
    assert_eq!(resp.balances.len(), 3);
    assert!(resp.cursor.is_none());
    assert_eq!(resp.balances[0].amount, 30);
    assert_eq!(resp.balances[2].amount, 10);
    let partial = query_paginate_balances(&t.ledger, Some(2), Some(true), None).unwrap();
    assert_eq!(partial.balances.len(), 2);
    assert!(partial.cursor.is_some());
}

#[test]
fn operator_gate_fails_closed_and_removal_is_final() {
    let mut t = fresh(&[(A, 100)]);
    assert!(matches!(ensure_operator(&t, OP), Ok(())));
    assert!(ensure_operator(&t, A).is_err());
    exec_set_operator(&mut t, OP, B).unwrap();
    assert!(ensure_operator(&t, OP).is_err());
    assert!(matches!(ensure_operator(&t, B), Ok(())));
    exec_remove_operator(&mut t, B).unwrap();
    // fail-closed: nobody is the operator any more, and nobody can be
    assert!(ensure_operator(&t, B).is_err());
    assert!(matches!(
        exec_set_operator(&mut t, B, B),
        Err(ContractError::Unauthorized { .. })
    ));
}

#[test]
fn listener_fanout_carries_the_event() {
    let mut t = fresh(&[(A, 100), (B, 1)]);
    exec_update_balance_change_listeners(&mut t, OP, Some(vec![50, 51]), None).unwrap();
    let msgs = before_transfer(&mut t, A, B, 5).unwrap();
    assert_eq!(msgs.len(), 2);
    assert_eq!(msgs[0].contract_addr, 50);
    assert_eq!(msgs[1].contract_addr, 51);
    let expected = BalanceChangeListenerInterface::OnBalanceChange {
        event: BalanceChangeEvent::Transfer { initiator: A, recipient: B, amount: 5 },
    };
    assert_eq!(msgs[0].msg, expected);
    let direct = notify_balance_change_listeners(
        &t,
        &BalanceChangeEvent::Burn { initiator: A, amount: 2 },
    );
    assert_eq!(direct.len(), 2);
}

#[test]
fn listener_update_applies_removals_after_additions() {
    let mut t = fresh(&[(A, 100)]);
    exec_update_balance_change_listeners(&mut t, OP, Some(vec![50, 51]), None).unwrap();
    // the same address in both lists ends up removed
    exec_update_balance_change_listeners(&mut t, OP, Some(vec![52]), Some(vec![50, 52])).unwrap();
    assert_eq!(t.listeners, vec![51]);
    // adding twice keeps the set deduplicated
    exec_update_balance_change_listeners(&mut t, OP, Some(vec![51, 53]), None).unwrap();
    assert_eq!(t.listeners, vec![51, 53]);
}

#[test]
fn mint_to_frozen_recipient_fails() {
    let mut t = fresh(&[(A, 100)]);
    exec_freeze(&mut t, OP, Some(vec![A])).unwrap();
    assert!(matches!(before_mint(&mut t, OP, A, 5), Err(ContractError::Unauthorized { .. })));
    exec_unfreeze(&mut t, OP, Some(vec![A])).unwrap();
    assert!(before_mint(&mut t, OP, A, 5).is_ok());
}

#[test]
fn listener_update_requires_operator() {
    let mut t = fresh(&[(A, 100)]);
    assert!(matches!(
        exec_update_balance_change_listeners(&mut t, A, Some(vec![50]), None),
        Err(ContractError::Unauthorized { .. })
    ));
    assert!(t.listeners.is_empty());
}
