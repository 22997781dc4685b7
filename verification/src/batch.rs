use vstd::prelude::*;

use crate::bridge::{mint_multiple, mintable, sum_amounts, NativeMsg};
use crate::checks::ensure_operator;
use crate::error::ContractError;
use crate::ledger::addr_sorted;
use crate::math::{add_u128, add_u64};
use crate::msg::BalanceCopyMode;
use crate::state::Token;

verus! {

// ---------------------------------------------------------------------------
// Derive-balances: one-time, resumable migration of the ledger onto the
// native denom
// ---------------------------------------------------------------------------

/// How many holders, in ascending address order, an address cursor has
/// already covered.
pub open spec fn count_addr_through(s: Seq<(u64, u128)>, c: u64) -> int
    decreases s.len(),
{
    if s.len() == 0 {
        0
    } else {
        count_addr_through(s.drop_last(), c) + if s.last().0 <= c {
            1int
        } else {
            0int
        }
    }
}

pub open spec fn covered_count(s: Seq<(u64, u128)>, cursor: Option<u64>) -> int {
    match cursor {
        None => 0,
        Some(c) => count_addr_through(s, c),
    }
}

proof fn lemma_count_addr_split(s: Seq<(u64, u128)>, c: u64)
    requires
        addr_sorted(s),
    ensures
        0 <= count_addr_through(s, c) <= s.len(),
        forall|i: int| 0 <= i < count_addr_through(s, c) ==> (#[trigger] s[i]).0 <= c,
        forall|i: int| count_addr_through(s, c) <= i < s.len() ==> (#[trigger] s[i]).0 > c,
    decreases s.len(),
{
    if s.len() > 0 {
        let pre = s.drop_last();
        assert(addr_sorted(pre)) by {
            assert forall|i: int, j: int|
                0 <= i < j < pre.len() implies (#[trigger] pre[i]).0 < (#[trigger] pre[j]).0 by {
                assert(pre[i] == s[i] && pre[j] == s[j]);
            }
        }
        lemma_count_addr_split(pre, c);
        let cnt = count_addr_through(pre, c);
        if s.last().0 <= c {
            assert forall|i: int| 0 <= i < pre.len() implies (#[trigger] s[i]).0 <= c by {
                assert(s[i].0 < s[s.len() - 1].0);
            }
            if cnt < pre.len() {
                assert(pre[cnt].0 > c);
                assert(pre[cnt] == s[cnt]);
                assert(false);
            }
        } else {
            assert forall|i: int| 0 <= i < cnt implies (#[trigger] s[i]).0 <= c by {
                assert(pre[i] == s[i]);
            }
            assert forall|i: int| cnt <= i < s.len() implies (#[trigger] s[i]).0 > c by {
                if i < s.len() - 1 {
                    assert(pre[i] == s[i]);
                }
            }
        }
    }
}

proof fn lemma_addr_split_unique(s: Seq<(u64, u128)>, c: u64, p: int)
    requires
        addr_sorted(s),
        0 <= p <= s.len(),
        forall|i: int| 0 <= i < p ==> (#[trigger] s[i]).0 <= c,
        forall|i: int| p <= i < s.len() ==> (#[trigger] s[i]).0 > c,
    ensures
        count_addr_through(s, c) == p,
{
    lemma_count_addr_split(s, c);
    let cnt = count_addr_through(s, c);
    if cnt < p {
        assert(s[cnt].0 <= c);
        assert(s[cnt].0 > c);
    }
    if p < cnt {
        assert(s[p].0 <= c);
        assert(s[p].0 > c);
    }
}

/// The batch size actually used: the request clamped into `1 ..= 500`, with
/// `150` as the default.
pub open spec fn effective_batch(limit: Option<u16>) -> int {
    let raw = match limit {
        Some(v) => v as int,
        None => 150int,
    };
    if raw < 1 {
        1int
    } else if raw > 500 {
        500int
    } else {
        raw
    }
}

/// Where the derivation batch beginning at `start` ends.
pub open spec fn batch_end(s: Seq<(u64, u128)>, start: int, k: int) -> int {
    if start + k <= s.len() {
        start + k
    } else {
        s.len() as int
    }
}

/// What one derivation call reports.
#[derive(Clone, Debug, PartialEq, Eq)]
pub struct DeriveBalancesReport {
    pub mint_amount: u128,
    pub batch_size: u64,
    pub done: bool,
    pub n_processed: u64,
    pub n_total: u64,
    pub msgs: Vec<NativeMsg>,
}

/// Derives native balances from the ledger: scans holders in ascending
/// address order just past the persisted cursor, enqueues one mint for the
/// batch, advances the cursor and the processed count, and reports
/// `done` exactly when the processed count equals the holder count.
/// Calling again after `done` is safe and reports an empty batch.
/// Operator-only, idempotent, resumable.
pub fn exec_tf_derive_balances(t: &mut Token, caller: u64, limit: Option<u16>) -> (r: Result<
    DeriveBalancesReport,
    ContractError,
>)
    requires
        old(t).wf(),
    ensures
        final(t).wf(),
        r matches Err(e) ==> *final(t) == *old(t) && (e is Unauthorized <==> !old(t).is_operator(
            caller,
        )),
        ({
            let bal = old(t).ledger.balances@;
            let start = covered_count(bal, old(t).derive_cursor);
            let end = batch_end(bal, start, effective_batch(limit));
            old(t).is_operator(caller) && old(t).n_initialized + (end - start) <= u64::MAX && (end
                == start || mintable(*old(t), bal.subrange(start, end)))
        }) ==> r is Ok,
        r matches Ok(rep) ==> old(t).is_operator(caller) && ({
            let bal = old(t).ledger.balances@;
            let start = covered_count(bal, old(t).derive_cursor);
            let end = batch_end(bal, start, effective_batch(limit));
            &&& rep.batch_size == end - start
            &&& rep.n_total == old(t).ledger.n_balances
            &&& rep.n_processed == old(t).n_initialized + (end - start)
            &&& final(t).n_initialized == rep.n_processed
            &&& (rep.done <==> rep.n_processed == old(t).ledger.n_balances)
            &&& rep.mint_amount == sum_amounts(bal.subrange(start, end))
            &&& final(t).derive_cursor == (if end > start {
                Some(bal[end - 1].0)
            } else {
                old(t).derive_cursor
            })
            &&& final(t).ledger == old(t).ledger
            &&& final(t).operator == old(t).operator
            &&& final(t).global_freeze == old(t).global_freeze
            &&& final(t).frozen == old(t).frozen
            &&& final(t).listeners == old(t).listeners
            &&& final(t).copy_cursors == old(t).copy_cursors
            &&& (end == start ==> final(t).bridge == old(t).bridge && rep.msgs@.len() == 0)
            &&& (end > start ==> old(t).bridge is Some && final(t).bridge is Some && ({
                let b0 = old(t).bridge->0;
                let b1 = final(t).bridge->0;
                &&& b1.amount_minted.value() == b0.amount_minted.value() + rep.mint_amount
                &&& b1.reply_id_counter == b0.reply_id_counter + 1
                &&& b1.pending_mints@.len() == b0.pending_mints@.len() + 1
                &&& b1.pending_mints@.last().reply_id == b0.reply_id_counter
                &&& b1.pending_mints@.last().recipients@.len() == end - start
                &&& (forall|i: int|
                    0 <= i < end - start
                        ==> (#[trigger] b1.pending_mints@.last().recipients@[i]).address == bal[
                        start + i].0 && b1.pending_mints@.last().recipients@[i].amount == bal[start
                        + i].1)
                &&& rep.msgs@.len() == 1
                &&& (rep.msgs@[0] matches NativeMsg::MintNative { denom, amount, reply_id }
                    && denom@ == b0.full_denom@ && amount == rep.mint_amount && reply_id
                    == b0.reply_id_counter)
            }))
        }),
{
    match ensure_operator(t, caller) {
        Ok(()) => {},
        Err(e) => {
            return Err(e);
        },
    }
    let ghost bal = t.ledger.balances@;
    let n = t.ledger.balances.len();

    // resume just past the cursor, in ascending address order
    let start: usize = match t.derive_cursor {
        None => 0,
        Some(c) => {
            let mut q: usize = 0;
            while q < n && t.ledger.balances[q].0 <= c
                invariant
                    t.ledger.wf(),
                    bal == t.ledger.balances@,
                    n == bal.len(),
                    0 <= q <= n,
                    forall|k: int| 0 <= k < q ==> (#[trigger] bal[k]).0 <= c,
                decreases n - q,
            {
                q += 1;
            }
            proof {
                assert forall|k: int| q <= k < n implies (#[trigger] bal[k]).0 > c by {
                    if k > q {
                        assert(bal[q as int].0 < bal[k].0);
                    }
                }
                lemma_addr_split_unique(bal, c, q as int);
            }
            q
        },
    };
    proof {
        assert(start == covered_count(bal, t.derive_cursor));
    }

    let lim_raw: u16 = match limit {
        Some(v) => v,
        None => 150,
    };
    let k: usize = (if lim_raw < 1 {
        1u16
    } else if lim_raw > 500 {
        500u16
    } else {
        lim_raw
    }) as usize;
    let avail = n - start;
    let cnt = if k < avail {
        k
    } else {
        avail
    };

    // collect the batch of recipients owed a native balance
    let mut batch: Vec<(u64, u128)> = Vec::new();
    let mut i: usize = 0;
    while i < cnt
        invariant
            t.ledger.wf(),
            bal == t.ledger.balances@,
            n == bal.len(),
            start + cnt <= n,
            0 <= i <= cnt,
            batch@.len() == i,
            forall|j: int| 0 <= j < i ==> (#[trigger] batch@[j]) == bal[start + j],
        decreases cnt - i,
    {
        batch.push(t.ledger.balances[start + i]);
        i += 1;
    }
    proof {
        assert(batch@ =~= bal.subrange(start as int, start as int + cnt as int));
    }

    // the processed count, checked
    let n_processed = match add_u64(t.n_initialized, batch.len() as u64) {
        Ok(v) => v,
        Err(e) => {
            return Err(e);
        },
    };
    let n_total = t.ledger.n_balances;

    if batch.len() == 0 {
        let done = n_processed == n_total;
        t.n_initialized = n_processed;
        return Ok(
            DeriveBalancesReport {
                mint_amount: 0,
                batch_size: 0,
                done,
                n_processed,
                n_total,
                msgs: Vec::new(),
            },
        );
    }
    let last_addr = batch[batch.len() - 1].0;
    let (mint_amount, msgs) = match mint_multiple(t, &batch) {
        Ok(p) => p,
        Err(e) => {
            return Err(e);
        },
    };
    t.n_initialized = n_processed;
    t.derive_cursor = Some(last_addr);
    let done = n_processed == n_total;
    Ok(
        DeriveBalancesReport {
            mint_amount,
            batch_size: cnt as u64,
            done,
            n_processed,
            n_total,
            msgs,
        },
    )
}

// ---------------------------------------------------------------------------
// Copy-balances: admin-triggered, resumable merge of a foreign ledger
// ---------------------------------------------------------------------------

pub open spec fn cursor_keys_unique(s: Seq<(u64, u64)>) -> bool {
    forall|i: int, j: int| 0 <= i < j < s.len() ==> (#[trigger] s[i]).0 != (#[trigger] s[j]).0
}

pub open spec fn cursor_has(s: Seq<(u64, u64)>, key: u64) -> bool {
    exists|i: int| 0 <= i < s.len() && (#[trigger] s[i]).0 == key
}

/// A copy of some other source is already in progress.
pub open spec fn other_copy_in_progress(s: Seq<(u64, u64)>, key: u64) -> bool {
    exists|i: int| 0 <= i < s.len() && (#[trigger] s[i]).0 != key
}

fn cursors_other_exists(v: &Vec<(u64, u64)>, key: u64) -> (r: bool)
    ensures
        r == other_copy_in_progress(v@, key),
{
    let n = v.len();
    let mut i: usize = 0;
    while i < n
        invariant
            n == v@.len(),
            0 <= i <= n,
            forall|k: int| 0 <= k < i ==> (#[trigger] v@[k]).0 == key,
        decreases n - i,
    {
        if v[i].0 != key {
            return true;
        }
        i += 1;
    }
    false
}

/// Records `(key, val)`, replacing any previous entry for `key`.
fn cursors_set(v: &mut Vec<(u64, u64)>, key: u64, val: u64)
    requires
        cursor_keys_unique(old(v)@),
    ensures
        cursor_keys_unique(final(v)@),
        forall|e: (u64, u64)|
            final(v)@.contains(e) <==> ((old(v)@.contains(e) && e.0 != key) || e == (key, val)),
{
    let ghost s = v@;
    let n = v.len();
    let mut i: usize = 0;
    while i < n
        invariant
            s == v@,
            s == old(v)@,
            cursor_keys_unique(s),
            n == s.len(),
            0 <= i <= n,
            forall|k: int| 0 <= k < i ==> (#[trigger] s[k]).0 != key,
        decreases n - i,
    {
        if v[i].0 == key {
            v[i] = (key, val);
            proof {
                assert forall|e: (u64, u64)|
                    v@.contains(e) <==> ((s.contains(e) && e.0 != key) || e == (key, val)) by {
                    if v@.contains(e) {
                        let w = choose|w: int| 0 <= w < v@.len() && v@[w] == e;
                        if w != i {
                            assert(s[w] == e);
                            assert(s.contains(e));
                        }
                    }
                    if s.contains(e) && e.0 != key {
                        let w = choose|w: int| 0 <= w < s.len() && s[w] == e;
                        assert(w != i);
                        assert(v@[w] == e);
                        assert(v@.contains(e));
                    }
                    if e == (key, val) {
                        assert(v@[i as int] == e);
                        assert(v@.contains(e));
                    }
                }
                assert forall|p: int, q: int|
                    0 <= p < q < v@.len() implies (#[trigger] v@[p]).0 != (#[trigger] v@[q]).0 by {
                    assert(v@[p].0 == s[p].0 && v@[q].0 == s[q].0);
                }
            }
            return;
        }
        i += 1;
    }
    v.push((key, val));
    proof {
        assert forall|e: (u64, u64)|
            v@.contains(e) <==> ((s.contains(e) && e.0 != key) || e == (key, val)) by {
            if v@.contains(e) {
                let w = choose|w: int| 0 <= w < v@.len() && v@[w] == e;
                if w < s.len() {
                    assert(s[w] == e);
                    assert(s.contains(e));
                }
            }
            if s.contains(e) && e.0 != key {
                let w = choose|w: int| 0 <= w < s.len() && s[w] == e;
                assert(v@[w] == e);
                assert(v@.contains(e));
            }
            if e == (key, val) {
                assert(v@[s.len() as int] == e);
                assert(v@.contains(e));
            }
        }
        assert forall|p: int, q: int|
            0 <= p < q < v@.len() implies (#[trigger] v@[p]).0 != (#[trigger] v@[q]).0 by {
            if q < s.len() {
                assert(v@[p] == s[p] && v@[q] == s[q]);
            } else {
                assert(v@[p] == s[p]);
            }
        }
    }
}

/// Drops the entry for `key` if present.
fn cursors_remove(v: &mut Vec<(u64, u64)>, key: u64)
    requires
        cursor_keys_unique(old(v)@),
    ensures
        cursor_keys_unique(final(v)@),
        forall|e: (u64, u64)| final(v)@.contains(e) <==> (old(v)@.contains(e) && e.0 != key),
{
    let ghost s = v@;
    let n = v.len();
    let mut i: usize = 0;
    while i < n
        invariant
            s == v@,
            s == old(v)@,
            cursor_keys_unique(s),
            n == s.len(),
            0 <= i <= n,
            forall|k: int| 0 <= k < i ==> (#[trigger] s[k]).0 != key,
        decreases n - i,
    {
        if v[i].0 == key {
            v.remove(i);
            proof {
                s.remove_ensures(i as int);
                assert forall|e: (u64, u64)|
                    v@.contains(e) <==> (s.contains(e) && e.0 != key) by {
                    if v@.contains(e) {
                        let w = choose|w: int| 0 <= w < v@.len() && v@[w] == e;
                        if w < i {
                            assert(s[w] == e);
                        } else {
                            assert(s[w + 1] == e);
                        }
                        assert(s.contains(e));
                    }
                    if s.contains(e) && e.0 != key {
                        let w = choose|w: int| 0 <= w < s.len() && s[w] == e;
                        assert(w != i);
                        if w < i {
                            assert(v@[w] == e);
                        } else {
                            assert(v@[w - 1] == e);
                        }
                        assert(v@.contains(e));
                    }
                }
                assert forall|p: int, q: int|
                    0 <= p < q < v@.len() implies (#[trigger] v@[p]).0 != (#[trigger] v@[q]).0 by {
                    let p0 = if p < i {
                        p
                    } else {
                        p + 1
                    };
                    let q0 = if q < i {
                        q
                    } else {
                        q + 1
                    };
                    assert(v@[p] == s[p0] && v@[q] == s[q0]);
                }
            }
            return;
        }
        i += 1;
    }
    proof {
        assert(!cursor_has(s, key));
        assert forall|e: (u64, u64)| v@.contains(e) <==> (s.contains(e) && e.0 != key) by {
            if s.contains(e) {
                let w = choose|w: int| 0 <= w < s.len() && s[w] == e;
            }
        }
    }
}

/// The foreign ledger's reported balance for `x` within one page.
pub open spec fn page_has(s: Seq<(u64, u128)>, x: u64) -> bool {
    exists|i: int| 0 <= i < s.len() && (#[trigger] s[i]).0 == x
}

pub open spec fn page_at(s: Seq<(u64, u128)>, x: u64) -> int {
    choose|i: int| 0 <= i < s.len() && (#[trigger] s[i]).0 == x
}

/// The balance a merge leaves behind, as an unbounded integer so that
/// overflow can be spoken about.
pub open spec fn copy_target(prev: u128, mode: BalanceCopyMode, reported: u128) -> int {
    match mode {
        BalanceCopyMode::Replace => reported as int,
        BalanceCopyMode::Increment => prev + reported,
    }
}

/// Merges one page of a foreign ledger's `(account, balance)` entries into
/// the local ledger under the chosen mode — `Replace` overwrites,
/// `Increment` adds with checked arithmetic — updating the ranked index
/// identically to any other mutation.  The last account is persisted as the
/// resume cursor, or the cursor is cleared — signaling completion — once a
/// page is shorter than the foreign page size.  Only one foreign source may
/// be in flight at a time.  Operator-only.
pub fn exec_copy_cw20_balances(
    t: &mut Token,
    caller: u64,
    other_cw20_addr: u64,
    mode: BalanceCopyMode,
    accounts: &Vec<(u64, u128)>,
    full_page: bool,
) -> (r: Result<bool, ContractError>)
    requires
        old(t).wf(),
        addr_sorted(accounts@),
        full_page ==> accounts@.len() > 0,
    ensures
        final(t).wf(),
        r matches Err(e) ==> *final(t) == *old(t) && (e is Unauthorized <==> (!old(t).is_operator(
            caller,
        ) || other_copy_in_progress(old(t).copy_cursors@, other_cw20_addr))),
        (old(t).is_operator(caller) && !other_copy_in_progress(
            old(t).copy_cursors@,
            other_cw20_addr,
        ) && (forall|i: int|
            0 <= i < accounts@.len() ==> copy_target(
                old(t).ledger.balance_of((#[trigger] accounts@[i]).0),
                mode,
                accounts@[i].1,
            ) <= u128::MAX)) ==> r is Ok,
        r matches Ok(done) ==> ({
            &&& done == !full_page
            &&& (forall|x: u64|
                final(t).ledger.balance_of(x) == (if page_has(accounts@, x) {
                    copy_target(
                        old(t).ledger.balance_of(x),
                        mode,
                        accounts@[page_at(accounts@, x)].1,
                    )
                } else {
                    old(t).ledger.balance_of(x) as int
                }))
            &&& (forall|e: (u64, u64)|
                final(t).copy_cursors@.contains(e) <==> ((old(t).copy_cursors@.contains(e) && e.0
                    != other_cw20_addr) || (!done && e == (
                other_cw20_addr,
                accounts@.last().0,
                ))))
            &&& final(t).operator == old(t).operator
            &&& final(t).global_freeze == old(t).global_freeze
            &&& final(t).frozen == old(t).frozen
            &&& final(t).listeners == old(t).listeners
            &&& final(t).bridge == old(t).bridge
            &&& final(t).derive_cursor == old(t).derive_cursor
            &&& final(t).n_initialized == old(t).n_initialized
        }),
{
    match ensure_operator(t, caller) {
        Ok(()) => {},
        Err(e) => {
            return Err(e);
        },
    }

    // just one foreign copy at a time
    if cursors_other_exists(&t.copy_cursors, other_cw20_addr) {
        return Err(
            ContractError::Unauthorized {
                reason: String::from_str("copy already in progress for another contract"),
            },
        );
    }

    let n = accounts.len();

    // first pass: compute every merged balance, surfacing overflow before
    // anything is written
    let mut news: Vec<(u64, u128)> = Vec::new();
    let mut i: usize = 0;
    while i < n
        invariant
            old(t).wf(),
            *t == *old(t),
            old(t).is_operator(caller),
            !other_copy_in_progress(old(t).copy_cursors@, other_cw20_addr),
            n == accounts@.len(),
            0 <= i <= n,
            news@.len() == i,
            forall|j: int|
                0 <= j < i ==> (#[trigger] news@[j]).0 == accounts@[j].0 && news@[j].1
                    == copy_target(
                    old(t).ledger.balance_of(accounts@[j].0),
                    mode,
                    accounts@[j].1,
                ),
        decreases n - i,
    {
        let a = accounts[i].0;
        let reported = accounts[i].1;
        let merged = match mode {
            BalanceCopyMode::Replace => reported,
            BalanceCopyMode::Increment => {
                let prev = t.ledger.get_balance(a);
                match add_u128(prev, reported) {
                    Ok(v) => v,
                    Err(e) => {
                        return Err(e);
                    },
                }
            },
        };
        news.push((a, merged));
        i += 1;
    }

    // second pass: apply, keeping the ranked index synchronized
    let mut k: usize = 0;
    while k < n
        invariant
            old(t).wf(),
            t.ledger.wf(),
            t.operator == old(t).operator,
            t.global_freeze == old(t).global_freeze,
            t.frozen == old(t).frozen,
            t.listeners == old(t).listeners,
            t.bridge == old(t).bridge,
            t.derive_cursor == old(t).derive_cursor,
            t.n_initialized == old(t).n_initialized,
            t.copy_cursors == old(t).copy_cursors,
            addr_sorted(accounts@),
            n == accounts@.len(),
            news@.len() == n,
            forall|j: int|
                0 <= j < n ==> (#[trigger] news@[j]).0 == accounts@[j].0 && news@[j].1
                    == copy_target(
                    old(t).ledger.balance_of(accounts@[j].0),
                    mode,
                    accounts@[j].1,
                ),
            0 <= k <= n,
            forall|x: u64|
                t.ledger.balance_of(x) == (if page_has(accounts@.subrange(0, k as int), x) {
                    copy_target(
                        old(t).ledger.balance_of(x),
                        mode,
                        accounts@[page_at(accounts@.subrange(0, k as int), x)].1,
                    )
                } else {
                    old(t).ledger.balance_of(x) as int
                }),
        decreases n - k,
    {
        let a = news[k].0;
        let v = news[k].1;
        let ghost pre = accounts@.subrange(0, k as int);
        let ghost pre1 = accounts@.subrange(0, k as int + 1);
        proof {
            // the page addresses are strictly ascending, so `a` is new
            assert(!page_has(pre, a)) by {
                if page_has(pre, a) {
                    let w = page_at(pre, a);
                    assert(pre[w] == accounts@[w]);
                    assert(accounts@[w].0 < accounts@[k as int].0);
                }
            }
        }
        t.ledger.adjust(a, v);
        proof {
            assert forall|x: u64|
                t.ledger.balance_of(x) == (if page_has(pre1, x) {
                    copy_target(
                        old(t).ledger.balance_of(x),
                        mode,
                        accounts@[page_at(pre1, x)].1,
                    )
                } else {
                    old(t).ledger.balance_of(x) as int
                }) by {
                if x == a {
                    assert(pre1[k as int] == accounts@[k as int]);
                    assert(page_has(pre1, x));
                    let w = page_at(pre1, x);
                    assert(0 <= w < pre1.len() && pre1[w].0 == x);
                    assert(pre1[w] == accounts@[w]);
                    if w < k {
                        assert(accounts@[w].0 < accounts@[k as int].0);
                    }
                    assert(w == k);
                } else {
                    if page_has(pre1, x) {
                        let w = page_at(pre1, x);
                        assert(0 <= w < pre1.len() && pre1[w].0 == x);
                        assert(pre1[w] == accounts@[w]);
                        assert(w != k);
                        assert(pre[w] == accounts@[w]);
                        assert(page_has(pre, x));
                        let w0 = page_at(pre, x);
                        assert(pre[w0] == accounts@[w0]);
                        if w0 < w {
                            assert(accounts@[w0].0 < accounts@[w].0);
                        }
                        if w < w0 {
                            assert(accounts@[w].0 < accounts@[w0].0);
                        }
                    } else {
                        if page_has(pre, x) {
                            let w = page_at(pre, x);
                            assert(pre1[w] == pre[w]);
                        }
                    }
                }
            }
        }
        k += 1;
    }
    proof {
        assert(accounts@.subrange(0, n as int) =~= accounts@);
    }

    // persist or clear the resume cursor
    let done = !full_page;
    if done {
        cursors_remove(&mut t.copy_cursors, other_cw20_addr);
    } else {
        cursors_set(&mut t.copy_cursors, other_cw20_addr, accounts[n - 1].0);
    }
    Ok(done)
}

/// Once the cursor has covered every holder, the remaining batch is empty:
/// a derivation call made after `done` was reported processes nothing and
/// reports `done` again.
pub proof fn lemma_derive_batch_empty_after_done(t: Token, limit: Option<u16>)
    requires
        t.wf(),
        covered_count(t.ledger.balances@, t.derive_cursor) == t.ledger.balances@.len(),
    ensures
        ({
            let bal = t.ledger.balances@;
            let start = covered_count(bal, t.derive_cursor);
            bal.subrange(start, batch_end(bal, start, effective_batch(limit))).len() == 0
        }),
{
}

} // verus!
