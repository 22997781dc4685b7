use cw20_pro::batch::{exec_copy_cw20_balances, exec_tf_derive_balances};
use cw20_pro::bridge::{
    before_update_marketing, before_upload_logo, exec_tf_burn, exec_tf_mint, exec_tf_remove_admin,
    exec_tf_set_admin, exec_tf_set_metadata, exec_token_factory_init, settle_mint, NativeMsg,
    NewDenomMetadata, TokenDescriptor, TokenFactoryType, INITIAL_TF_MINT_REPLY_ID,
};
use cw20_pro::error::ContractError;
use cw20_pro::logo::{verify_logo, verify_png_logo, verify_xml_logo, verify_xml_preamble,
    EmbeddedLogo, Logo};
use cw20_pro::msg::{BalanceCopyMode, MintParams};
use cw20_pro::query::query_balances_by_address;
use cw20_pro::state::{init, Token};

const OP: u64 = 1;
const A: u64 = 10;
const B: u64 = 11;
const X: u64 = 20;
const Y: u64 = 21;

fn fresh(balances: &[(u64, u128)]) -> Token {
    let list: Vec<MintParams> = balances
        .iter()
        .map(|&(address, amount)| MintParams { address, amount })
        .collect();
    init(OP, &list).expect("init")
}

fn descriptor() -> TokenDescriptor {
    TokenDescriptor {
        symbol: "TKN".to_string(),
        name: "Token".to_string(),
        decimals: 6,
        description: Some("a token".to_string()),
        logo_url: None,
    }
}

fn with_bridge(balances: &[(u64, u128)]) -> Token {
    let mut t = fresh(balances);
    exec_token_factory_init(&mut t, OP, "contract1", "osmosis-1", descriptor()).unwrap();
    t
}

#[test]
fn bridge_init_builds_denom_and_messages() {
    let mut t = fresh(&[(A, 100)]);
    let msgs = exec_token_factory_init(&mut t, OP, "contract1", "osmosis-1", descriptor()).unwrap();
    assert_eq!(msgs.len(), 2);
    match &msgs[0] {
        NativeMsg::CreateDenom { subdenom } => assert_eq!(subdenom, "tkn"),
        other => panic!("expected CreateDenom, got {:?}", other),
    }
    match &msgs[1] {
        NativeMsg::SetDenomMetadata { metadata } => {
            assert_eq!(metadata.base, "factory/contract1/tkn");
            assert_eq!(metadata.symbol, "TKN");
            assert_eq!(metadata.display, "TKN");
            assert_eq!(metadata.name, "Token");
            assert_eq!(metadata.description, "a token");
            assert_eq!(metadata.denom_units.len(), 2);
            assert_eq!(metadata.denom_units[0].denom, "factory/contract1/tkn");
            assert_eq!(metadata.denom_units[0].exponent, 0);
            assert_eq!(metadata.denom_units[1].denom, "TKN");
            assert_eq!(metadata.denom_units[1].exponent, 6);
        },
        other => panic!("expected SetDenomMetadata, got {:?}", other),
    }
    let b = t.bridge.as_ref().unwrap();
    assert_eq!(b.full_denom, "factory/contract1/tkn");
    assert_eq!(b.factory, TokenFactoryType::Osmosis);
    assert_eq!(b.reply_id_counter, INITIAL_TF_MINT_REPLY_ID);
    assert_eq!(b.amount_minted.lo, 0);
    assert_eq!(b.amount_burned.lo, 0);
    assert!(b.pending_mints.is_empty());
}

#[test]
fn bridge_init_blank_name_falls_back_to_symbol() {
    let mut t = fresh(&[(A, 100)]);
    let mut td = descriptor();
    td.name = "   ".to_string();
    exec_token_factory_init(&mut t, OP, "c", "unknown-1", td).unwrap();
    let b = t.bridge.as_ref().unwrap();
    assert_eq!(b.metadata.name, "TKN");
    assert_eq!(b.factory, TokenFactoryType::CosmWasm);
}

#[test]
fn backend_is_chosen_by_chain_id() {
    assert_eq!(TokenFactoryType::from_chain_id("osmosis-1"), TokenFactoryType::Osmosis);
    assert_eq!(TokenFactoryType::from_chain_id("injective-888"), TokenFactoryType::Injective);
    assert_eq!(TokenFactoryType::from_chain_id("kaiyo-1"), TokenFactoryType::Kujira);
    assert_eq!(TokenFactoryType::from_chain_id("juno-1"), TokenFactoryType::CosmWasm);
}

#[test]
fn micro_denom_prepends_u_to_the_last_segment() {
    assert_eq!(
        NewDenomMetadata::build_micro_denom(&"factory/contract1/tkn".to_string()),
        "factory/contract1/utkn"
    );
    assert_eq!(NewDenomMetadata::build_micro_denom(&"tkn".to_string()), "utkn");
    assert_eq!(NewDenomMetadata::build_micro_denom(&"".to_string()), "u");
}

// A mint of [(A, 100), (B, 50)]: the minted total rises by 150, a pending
// settlement entry for both recipients is created, and settlement turns it
// into one native transfer each; a failed confirmation propagates the
// failure so the whole unit rolls back.
#[test]
fn mint_then_settle_two_recipients() {
    let mut t = with_bridge(&[]);
    let (total, msgs) = exec_tf_mint(&mut t, OP, vec![(A, 100), (B, 50)]).unwrap();
    assert_eq!(total, 150);
    assert_eq!(msgs.len(), 1);
    let reply_id = match &msgs[0] {
        NativeMsg::MintNative { denom, amount, reply_id } => {
            assert_eq!(denom, "factory/contract1/tkn");
            assert_eq!(*amount, 150);
            assert_eq!(*reply_id, INITIAL_TF_MINT_REPLY_ID);
            *reply_id
        },
        other => panic!("expected MintNative, got {:?}", other),
    };
    {
        let b = t.bridge.as_ref().unwrap();
        assert_eq!(b.amount_minted.lo, 150);
        assert_eq!(b.pending_mints.len(), 1);
        assert_eq!(b.pending_mints[0].recipients.len(), 2);
    }

    // a failed confirmation propagates; the caller discards the state, so
    // the minted total reverts with it
    let snapshot = t.clone();
    let failed = settle_mint(&mut t, reply_id, Some("mint failed".to_string()));
    assert!(matches!(failed, Err(ContractError::Std { .. })));
    drop(t);
    let mut t = snapshot;

    let sends = settle_mint(&mut t, reply_id, None).unwrap();
    assert_eq!(sends.len(), 2);
    match &sends[0] {
        NativeMsg::SendNative { to_address, denom, amount } => {
            assert_eq!(*to_address, A);
            assert_eq!(denom, "factory/contract1/tkn");
            assert_eq!(*amount, 100);
        },
        other => panic!("expected SendNative, got {:?}", other),
    }
    match &sends[1] {
        NativeMsg::SendNative { to_address, amount, .. } => {
            assert_eq!(*to_address, B);
            assert_eq!(*amount, 50);
        },
        other => panic!("expected SendNative, got {:?}", other),
    }
    let b = t.bridge.as_ref().unwrap();
    assert!(b.pending_mints.is_empty());
    assert_eq!(b.amount_minted.lo, 150);
}

#[test]
fn unknown_reply_id_is_unauthorized() {
    let mut t = with_bridge(&[]);
    exec_tf_mint(&mut t, OP, vec![(A, 1)]).unwrap();
    // below the reserved range, or simply never issued
    assert!(matches!(
        settle_mint(&mut t, 3, None),
        Err(ContractError::Unauthorized { .. })
    ));
    assert!(matches!(
        settle_mint(&mut t, INITIAL_TF_MINT_REPLY_ID + 7, None),
        Err(ContractError::Unauthorized { .. })
    ));
}

#[test]
fn empty_mint_is_a_no_op() {
    let mut t = with_bridge(&[]);
    let before = t.clone();
    let (total, msgs) = exec_tf_mint(&mut t, OP, vec![]).unwrap();
    assert_eq!(total, 0);
    assert!(msgs.is_empty());
    assert_eq!(t, before);
}

#[test]
fn mint_requires_operator_and_bridge() {
    let mut t = with_bridge(&[]);
    assert!(matches!(
        exec_tf_mint(&mut t, A, vec![(A, 1)]),
        Err(ContractError::Unauthorized { .. })
    ));
    let mut bare = fresh(&[]);
    assert!(matches!(
        exec_tf_mint(&mut bare, OP, vec![(A, 1)]),
        Err(ContractError::Std { .. })
    ));
    // a sum that wraps is surfaced, not clamped
    assert!(matches!(
        exec_tf_mint(&mut t, OP, vec![(A, u128::MAX), (B, 1)]),
        Err(ContractError::ArithmeticOverflow)
    ));
}

#[test]
fn burn_accumulates_the_burned_total() {
    let mut t = with_bridge(&[]);
    let msgs = exec_tf_burn(&mut t, OP, 70).unwrap();
    match &msgs[0] {
        NativeMsg::BurnNative { denom, amount } => {
            assert_eq!(denom, "factory/contract1/tkn");
            assert_eq!(*amount, 70);
        },
        other => panic!("expected BurnNative, got {:?}", other),
    }
    exec_tf_burn(&mut t, OP, 30).unwrap();
    assert_eq!(t.bridge.as_ref().unwrap().amount_burned.lo, 100);
}

#[test]
fn admin_ops_emit_change_admin() {
    let mut t = with_bridge(&[]);
    let set = exec_tf_set_admin(&mut t, OP, X).unwrap();
    assert_eq!(
        set[0],
        NativeMsg::ChangeAdmin {
            denom: "factory/contract1/tkn".to_string(),
            new_admin: Some(X)
        }
    );
    let rem = exec_tf_remove_admin(&mut t, OP).unwrap();
    assert_eq!(
        rem[0],
        NativeMsg::ChangeAdmin { denom: "factory/contract1/tkn".to_string(), new_admin: None }
    );
}

#[test]
fn set_metadata_replaces_and_reissues() {
    let mut t = with_bridge(&[]);
    let md = NewDenomMetadata {
        symbol: "TKN".to_string(),
        decimals: 6,
        name: "Renamed".to_string(),
        description: None,
        uri: None,
    };
    let msgs = exec_tf_set_metadata(&mut t, OP, md.clone()).unwrap();
    assert_eq!(t.bridge.as_ref().unwrap().metadata, md);
    match &msgs[0] {
        NativeMsg::SetDenomMetadata { metadata } => {
            assert_eq!(metadata.name, "Renamed");
            assert_eq!(metadata.base, "factory/contract1/tkn");
        },
        other => panic!("expected SetDenomMetadata, got {:?}", other),
    }
}

#[test]
fn marketing_update_trims_and_clears() {
    let mut t = with_bridge(&[]);
    let msg = before_update_marketing(
        &mut t,
        Some("  New Name  ".to_string()),
        Some("   ".to_string()),
    )
    .unwrap();
    assert!(msg.is_some());
    let b = t.bridge.as_ref().unwrap();
    assert_eq!(b.metadata.name, "New Name");
    assert!(b.metadata.description.is_none());

    // without a bridge the hook is a no-op
    let mut bare = fresh(&[]);
    let none = before_update_marketing(&mut bare, Some("x".to_string()), None).unwrap();
    assert!(none.is_none());
}

#[test]
fn logo_upload_updates_uri_only_for_urls() {
    let mut t = with_bridge(&[]);
    let msg = before_upload_logo(&mut t, &Logo::Url("https://x/logo.png".to_string())).unwrap();
    assert!(msg.is_some());
    assert_eq!(
        t.bridge.as_ref().unwrap().metadata.uri,
        Some("https://x/logo.png".to_string())
    );
    let embedded = Logo::Embedded(EmbeddedLogo::Png(vec![0x89]));
    let none = before_upload_logo(&mut t, &embedded).unwrap();
    assert!(none.is_none());
}

// Derive-balances resumed after a partial batch processes only the
// remaining holders, reports done exactly when the processed count reaches
// the holder count, and afterwards keeps returning an empty batch.
#[test]
fn derive_balances_resumes_and_finishes_once() {
    let mut t = with_bridge(&[(A, 5), (B, 7), (X, 9)]);
    let first = exec_tf_derive_balances(&mut t, OP, Some(2)).unwrap();
    assert_eq!(first.batch_size, 2);
    assert_eq!(first.mint_amount, 12);
    assert_eq!(first.n_processed, 2);
    assert_eq!(first.n_total, 3);
    assert!(!first.done);
    assert_eq!(t.derive_cursor, Some(B));

    let second = exec_tf_derive_balances(&mut t, OP, Some(2)).unwrap();
    assert_eq!(second.batch_size, 1);
    assert_eq!(second.mint_amount, 9);
    assert_eq!(second.n_processed, 3);
    assert!(second.done);
    assert_eq!(t.derive_cursor, Some(X));

    let third = exec_tf_derive_balances(&mut t, OP, None).unwrap();
    assert_eq!(third.batch_size, 0);
    assert_eq!(third.mint_amount, 0);
    assert!(third.done);
    assert!(third.msgs.is_empty());

    // each non-empty batch left one pending settlement entry
    assert_eq!(t.bridge.as_ref().unwrap().pending_mints.len(), 2);
    assert_eq!(t.bridge.as_ref().unwrap().amount_minted.lo, 21);
}

#[test]
fn derive_balances_requires_operator() {
    let mut t = with_bridge(&[(A, 5)]);
    assert!(matches!(
        exec_tf_derive_balances(&mut t, A, None),
        Err(ContractError::Unauthorized { .. })
    ));
}

// Copy-balances with source {X: 10, Y: 20} in Increment mode onto a local
// ledger holding {X: 5} yields {X: 15, Y: 20}; Replace yields {X: 10, Y: 20}.
#[test]
fn copy_balances_increment_and_replace() {
    let source: u64 = 99;
    let page = vec![(X, 10u128), (Y, 20u128)];

    let mut t = fresh(&[(X, 5)]);
    let done =
        exec_copy_cw20_balances(&mut t, OP, source, BalanceCopyMode::Increment, &page, false)
            .unwrap();
    assert!(done);
    let resp = query_balances_by_address(&t.ledger, vec![X, Y]).unwrap();
    assert_eq!(resp.balances[0].amount, 15);
    assert_eq!(resp.balances[1].amount, 20);
    // the ranked index carries (15, X) and (20, Y)
    let page1 = cw20_pro::query::query_paginate_balances(&t.ledger, None, Some(false), None)
        .unwrap();
    let got: Vec<(u128, u64)> = page1.balances.iter().map(|b| (b.amount, b.address)).collect();
    assert_eq!(got, vec![(15, X), (20, Y)]);
    assert!(t.copy_cursors.is_empty());

    let mut t2 = fresh(&[(X, 5)]);
    let done2 =
        exec_copy_cw20_balances(&mut t2, OP, source, BalanceCopyMode::Replace, &page, false)
            .unwrap();
    assert!(done2);
    let resp2 = query_balances_by_address(&t2.ledger, vec![X, Y]).unwrap();
    assert_eq!(resp2.balances[0].amount, 10);
    assert_eq!(resp2.balances[1].amount, 20);
}

#[test]
fn copy_balances_keeps_a_cursor_until_the_short_page() {
    let source: u64 = 99;
    let mut t = fresh(&[]);
    let page = vec![(X, 10u128), (Y, 20u128)];
    let done = exec_copy_cw20_balances(&mut t, OP, source, BalanceCopyMode::Replace, &page, true)
        .unwrap();
    assert!(!done);
    assert_eq!(t.copy_cursors, vec![(source, Y)]);
    // one copy at a time: a different source is rejected while in flight
    assert!(matches!(
        exec_copy_cw20_balances(&mut t, OP, 98, BalanceCopyMode::Replace, &page, false),
        Err(ContractError::Unauthorized { .. })
    ));
    // the same source may resume, and a short page completes the copy
    let tail = vec![(30u64, 1u128)];
    let done2 = exec_copy_cw20_balances(&mut t, OP, source, BalanceCopyMode::Replace, &tail, false)
        .unwrap();
    assert!(done2);
    assert!(t.copy_cursors.is_empty());
}

#[test]
fn copy_balances_increment_overflow_changes_nothing() {
    let source: u64 = 99;
    let mut t = fresh(&[(X, u128::MAX)]);
    let before = t.clone();
    let page = vec![(X, 1u128)];
    assert!(matches!(
        exec_copy_cw20_balances(&mut t, OP, source, BalanceCopyMode::Increment, &page, false),
        Err(ContractError::ArithmeticOverflow)
    ));
    assert_eq!(t, before);
}

#[test]
fn logo_validation_accepts_and_rejects() {
    let good_svg = b"<?xml version=\"1.0\"?><svg></svg>".to_vec();
    assert!(verify_xml_preamble(&good_svg).is_ok());
    assert!(verify_xml_logo(&good_svg).is_ok());

    let bad_preamble = b"<svg></svg>".to_vec();
    assert!(matches!(
        verify_xml_preamble(&bad_preamble),
        Err(ContractError::InvalidXmlPreamble)
    ));

    let mut huge_svg = b"<?xml version=\"1.0\"?>".to_vec();
    huge_svg.extend(std::iter::repeat(b' ').take(6000));
    assert!(matches!(verify_xml_logo(&huge_svg), Err(ContractError::LogoTooBig)));

    let good_png = vec![0x89, b'P', b'N', b'G', 0x0d, 0x0a, 0x1a, 0x0a, 1, 2, 3];
    assert!(verify_png_logo(&good_png).is_ok());
    assert!(verify_logo(&Logo::Embedded(EmbeddedLogo::Png(good_png))).is_ok());

    let bad_png = vec![1, 2, 3];
    assert!(matches!(verify_png_logo(&bad_png), Err(ContractError::InvalidPngHeader)));

    let mut huge_png = vec![0x89, b'P', b'N', b'G', 0x0d, 0x0a, 0x1a, 0x0a];
    huge_png.extend(std::iter::repeat(0u8).take(6000));
    assert!(matches!(verify_png_logo(&huge_png), Err(ContractError::LogoTooBig)));

    assert!(verify_logo(&Logo::Url("anything".to_string())).is_ok());
}

#[test]
fn bridge_admin_ops_require_operator() {
    let mut t = with_bridge(&[]);
    assert!(matches!(
        exec_tf_set_admin(&mut t, A, X),
        Err(ContractError::Unauthorized { .. })
    ));
    assert!(matches!(
        exec_tf_remove_admin(&mut t, A),
        Err(ContractError::Unauthorized { .. })
    ));
    assert!(matches!(
        exec_tf_burn(&mut t, A, 1),
        Err(ContractError::Unauthorized { .. })
    ));
    assert!(matches!(
        exec_copy_cw20_balances(&mut t, A, 99, BalanceCopyMode::Replace, &vec![], false),
        Err(ContractError::Unauthorized { .. })
    ));
}
