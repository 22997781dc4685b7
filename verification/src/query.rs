use vstd::prelude::*;

use crate::error::ContractError;
use crate::ledger::{key_lt, Ledger};
use crate::msg::{AccountBalance, BalancesResponse};

verus! {

/// Listing-order comparison: ascending by the index key order, or its
/// mirror image when descending.
pub open spec fn dir_lt(desc: bool, a: (u128, u64), b: (u128, u64)) -> bool {
    if desc {
        key_lt(b, a)
    } else {
        key_lt(a, b)
    }
}

pub open spec fn dir_le(desc: bool, a: (u128, u64), b: (u128, u64)) -> bool {
    dir_lt(desc, a, b) || a == b
}

pub open spec fn dir_sorted(view: Seq<(u128, u64)>, desc: bool) -> bool {
    forall|i: int, j: int|
        0 <= i < j < view.len() ==> dir_lt(desc, #[trigger] view[i], #[trigger] view[j])
}

/// The ranked index in the requested listing order.
pub open spec fn view_in_order(l: Ledger, desc: bool) -> Seq<(u128, u64)> {
    if desc {
        l.ranked@.reverse()
    } else {
        l.ranked@
    }
}

pub proof fn lemma_view_sorted(l: Ledger, desc: bool)
    requires
        l.wf(),
    ensures
        dir_sorted(view_in_order(l, desc), desc),
        view_in_order(l, desc).len() == l.ranked@.len(),
{
    let view = view_in_order(l, desc);
    if desc {
        let m = l.ranked@.len() as int;
        assert forall|i: int, j: int|
            0 <= i < j < view.len() implies dir_lt(desc, #[trigger] view[i], #[trigger] view[j]) by {
            assert(view[i] == l.ranked@[m - 1 - i]);
            assert(view[j] == l.ranked@[m - 1 - j]);
        }
    }
}

/// How many entries of the listing-ordered index sit at or before `c`:
/// exactly where a scan whose last-seen entry was `c` resumes.
pub open spec fn count_through(view: Seq<(u128, u64)>, desc: bool, c: (u128, u64)) -> int
    decreases view.len(),
{
    if view.len() == 0 {
        0
    } else {
        count_through(view.drop_last(), desc, c) + if dir_le(desc, view.last(), c) {
            1int
        } else {
            0int
        }
    }
}

pub open spec fn resume_at(view: Seq<(u128, u64)>, desc: bool, cursor: Option<(u128, u64)>) -> int {
    match cursor {
        None => 0,
        Some(c) => count_through(view, desc, c),
    }
}

/// In a listing-ordered index, the entries at or before `c` form exactly
/// the prefix of length `count_through`.
pub proof fn lemma_count_through_split(view: Seq<(u128, u64)>, desc: bool, c: (u128, u64))
    requires
        dir_sorted(view, desc),
    ensures
        0 <= count_through(view, desc, c) <= view.len(),
        forall|i: int|
            0 <= i < count_through(view, desc, c) ==> dir_le(desc, #[trigger] view[i], c),
        forall|i: int|
            count_through(view, desc, c) <= i < view.len() ==> !dir_le(desc, #[trigger] view[i], c),
    decreases view.len(),
{
    if view.len() > 0 {
        let pre = view.drop_last();
        assert(dir_sorted(pre, desc)) by {
            assert forall|i: int, j: int|
                0 <= i < j < pre.len() implies dir_lt(desc, #[trigger] pre[i], #[trigger] pre[j]) by {
                assert(pre[i] == view[i] && pre[j] == view[j]);
            }
        }
        lemma_count_through_split(pre, desc, c);
        let cnt = count_through(pre, desc, c);
        if dir_le(desc, view.last(), c) {
            assert forall|i: int| 0 <= i < pre.len() implies dir_le(desc, #[trigger] view[i], c) by {
                assert(dir_lt(desc, view[i], view[view.len() - 1]));
            }
            if cnt < pre.len() {
                assert(!dir_le(desc, pre[cnt], c));
                assert(pre[cnt] == view[cnt]);
                assert(false);
            }
        } else {
            assert forall|i: int| 0 <= i < cnt implies dir_le(desc, #[trigger] view[i], c) by {
                assert(pre[i] == view[i]);
            }
            assert forall|i: int| cnt <= i < view.len() implies !dir_le(
                desc,
                #[trigger] view[i],
                c,
            ) by {
                if i < view.len() - 1 {
                    assert(pre[i] == view[i]);
                }
            }
        }
    }
}

/// A position with the same split property is that count.
pub proof fn lemma_split_unique(view: Seq<(u128, u64)>, desc: bool, c: (u128, u64), p: int)
    requires
        dir_sorted(view, desc),
        0 <= p <= view.len(),
        forall|i: int| 0 <= i < p ==> dir_le(desc, #[trigger] view[i], c),
        forall|i: int| p <= i < view.len() ==> !dir_le(desc, #[trigger] view[i], c),
    ensures
        count_through(view, desc, c) == p,
{
    lemma_count_through_split(view, desc, c);
    let cnt = count_through(view, desc, c);
    if cnt < p {
        assert(dir_le(desc, view[cnt], c));
        assert(!dir_le(desc, view[cnt], c));
    }
    if p < cnt {
        assert(dir_le(desc, view[p], c));
        assert(!dir_le(desc, view[p], c));
    }
}

/// The listing direction; descending is the default.
pub open spec fn descending(desc: Option<bool>) -> bool {
    match desc {
        Some(d) => d,
        None => true,
    }
}

/// The page size actually used: the request clamped into `1 ..= 500`, with
/// `50` as the default.
pub open spec fn effective_limit(limit: Option<u16>) -> int {
    let raw = match limit {
        Some(v) => v as int,
        None => 50int,
    };
    if raw < 1 {
        1int
    } else if raw > 500 {
        500int
    } else {
        raw
    }
}

/// Where the page beginning at `start` ends.
pub open spec fn page_end(view: Seq<(u128, u64)>, start: int, lim: int) -> int {
    if start + lim <= view.len() {
        start + lim
    } else {
        view.len() as int
    }
}

/// Returns up to `limit` `(amount, address)` pairs of the ranked index in
/// the requested order, resuming just past `cursor` when one is given.  The
/// response's cursor is present exactly when this page was full and more
/// entries remain — an absent cursor is authoritative end-of-data — and
/// resuming with it continues at exactly the next entry.
#[verifier::rlimit(100)]
pub fn query_paginate_balances(
    l: &Ledger,
    limit: Option<u16>,
    desc: Option<bool>,
    cursor: Option<(u128, u64)>,
) -> (r: Result<BalancesResponse, ContractError>)
    requires
        l.wf(),
    ensures
        r matches Ok(resp) && ({
            let dsc = descending(desc);
            let lim = effective_limit(limit);
            let view = view_in_order(*l, dsc);
            let start = resume_at(view, dsc, cursor);
            let end = page_end(view, start, lim);
            &&& resp.balances@.len() == end - start
            &&& (forall|i: int|
                0 <= i < end - start ==> ((#[trigger] resp.balances@[i]).amount,
                resp.balances@[i].address) == view[start + i])
            &&& (resp.cursor is Some <==> end == start + lim && end < view.len())
            &&& (resp.cursor matches Some(c) ==> c == view[end - 1] && resume_at(
                view,
                dsc,
                Some(c),
            ) == end)
            &&& (resp.cursor is None ==> end == view.len())
        }),
{
    let dsc = match desc {
        Some(d) => d,
        None => true,
    };
    let lim_raw: u16 = match limit {
        Some(v) => v,
        None => 50,
    };
    let lim: usize = (if lim_raw < 1 {
        1u16
    } else if lim_raw > 500 {
        500u16
    } else {
        lim_raw
    }) as usize;
    let n = l.ranked.len();
    let ghost view = view_in_order(*l, dsc);
    let ghost start = resume_at(view, dsc, cursor);
    proof {
        lemma_view_sorted(*l, dsc);
    }

    // split position in the stored, ascending index: entries the listing
    // already passed sit on one side of it
    let p: usize = match cursor {
        None => {
            if dsc {
                n
            } else {
                0
            }
        },
        Some(cur) => {
            let ca = cur.0;
            let cd = cur.1;
            let mut q: usize = 0;
            if dsc {
                // first position at or above the cursor key
                while q < n && (l.ranked[q].0 < ca || (l.ranked[q].0 == ca && l.ranked[q].1 < cd))
                    invariant
                        l.wf(),
                        n == l.ranked@.len(),
                        0 <= q <= n,
                        forall|k: int| 0 <= k < q ==> key_lt(#[trigger] l.ranked@[k], (ca, cd)),
                    decreases n - q,
                {
                    q += 1;
                }
            } else {
                // first position strictly above the cursor key
                while q < n && (l.ranked[q].0 < ca || (l.ranked[q].0 == ca && l.ranked[q].1 <= cd))
                    invariant
                        l.wf(),
                        n == l.ranked@.len(),
                        0 <= q <= n,
                        forall|k: int|
                            0 <= k < q ==> key_lt(#[trigger] l.ranked@[k], (ca, cd)) || l.ranked@[k]
                                == (ca, cd),
                    decreases n - q,
                {
                    q += 1;
                }
            }
            q
        },
    };
    proof {
        match cursor {
            None => {
                assert(start == 0);
            },
            Some(cur) => {
                if dsc {
                    // in view order the first n - p entries are those at or
                    // past the cursor
                    assert forall|k: int| p <= k < n implies !key_lt(
                        #[trigger] l.ranked@[k],
                        cur,
                    ) by {
                        if k > p {
                            assert(key_lt(l.ranked@[p as int], l.ranked@[k]));
                        }
                    }
                    assert forall|i: int| 0 <= i < n - p implies dir_le(dsc, #[trigger] view[i], cur) by {
                        assert(view[i] == l.ranked@[n - 1 - i]);
                    }
                    assert forall|i: int| n - p <= i < n implies !dir_le(dsc, #[trigger] view[i], cur) by {
                        assert(view[i] == l.ranked@[n - 1 - i]);
                    }
                    lemma_split_unique(view, dsc, cur, n - p as int);
                    assert(start == n - p as int);
                } else {
                    assert forall|k: int| p <= k < n implies !dir_le(
                        dsc,
                        #[trigger] l.ranked@[k],
                        cur,
                    ) by {
                        if k > p {
                            assert(key_lt(l.ranked@[p as int], l.ranked@[k]));
                        }
                    }
                    lemma_split_unique(view, dsc, cur, p as int);
                    assert(start == p as int);
                }
            },
        }
    }

    // extract the page
    let mut out: Vec<AccountBalance> = Vec::new();
    if dsc {
        let cnt = if lim < p {
            lim
        } else {
            p
        };
        let mut i: usize = 0;
        while i < cnt
            invariant
                l.wf(),
                n == l.ranked@.len(),
                view == view_in_order(*l, dsc),
                view.len() == n,
                dsc,
                cnt <= p <= n,
                start == n - p,
                0 <= i <= cnt,
                out@.len() == i,
                forall|j: int|
                    0 <= j < i ==> ((#[trigger] out@[j]).amount, out@[j].address) == view[start + j],
            decreases cnt - i,
        {
            let e = l.ranked[p - 1 - i];
            out.push(AccountBalance { address: e.1, amount: e.0 });
            proof {
                assert(view[start + i as int] == l.ranked@[n - 1 - (start + i as int)]);
            }
            i += 1;
        }
    } else {
        let avail = n - p;
        let cnt = if lim < avail {
            lim
        } else {
            avail
        };
        let mut i: usize = 0;
        while i < cnt
            invariant
                l.wf(),
                n == l.ranked@.len(),
                view == view_in_order(*l, dsc),
                view.len() == n,
                !dsc,
                p + cnt <= n,
                start == p,
                0 <= i <= cnt,
                out@.len() == i,
                forall|j: int|
                    0 <= j < i ==> ((#[trigger] out@[j]).amount, out@[j].address) == view[start + j],
            decreases cnt - i,
        {
            let e = l.ranked[p + i];
            out.push(AccountBalance { address: e.1, amount: e.0 });
            i += 1;
        }
    }

    // a cursor goes out only when this page was full and did not reach the
    // final entry of the listing order
    let more = if dsc {
        lim < p
    } else {
        out.len() == lim && p + lim < n
    };
    let next_cursor: Option<(u128, u64)> = if more {
        let tail = out[out.len() - 1];
        Some((tail.amount, tail.address))
    } else {
        None
    };
    proof {
        let end = page_end(view, start, effective_limit(limit));
        assert(out@.len() == end - start);
        if next_cursor is Some {
            let c = next_cursor->0;
            assert(c == view[end - 1]);
            assert forall|i: int| 0 <= i < end implies dir_le(dsc, #[trigger] view[i], c) by {
                if i < end - 1 {
                    assert(dir_lt(dsc, view[i], view[end - 1]));
                }
            }
            assert forall|i: int| end <= i < view.len() implies !dir_le(dsc, #[trigger] view[i], c) by {
                assert(dir_lt(dsc, view[end - 1], view[i]));
            }
            lemma_split_unique(view, dsc, c, end);
        }
    }
    Ok(BalancesResponse { balances: out, cursor: next_cursor })
}

/// Reads the balances of the given addresses, zero for any address without
/// an entry; never paginates.
pub fn query_balances_by_address(l: &Ledger, addresses: Vec<u64>) -> (r: Result<
    BalancesResponse,
    ContractError,
>)
    requires
        l.wf(),
    ensures
        r matches Ok(resp) && resp.cursor is None && resp.balances@.len() == addresses@.len() && (
        forall|i: int|
            0 <= i < addresses@.len() ==> (#[trigger] resp.balances@[i]) == (AccountBalance {
                address: addresses@[i],
                amount: l.balance_of(addresses@[i]),
            })),
{
    let n = addresses.len();
    let mut out: Vec<AccountBalance> = Vec::new();
    let mut i: usize = 0;
    while i < n
        invariant
            l.wf(),
            n == addresses@.len(),
            0 <= i <= n,
            out@.len() == i,
            forall|k: int|
                0 <= k < i ==> (#[trigger] out@[k]) == (AccountBalance {
                    address: addresses@[k],
                    amount: l.balance_of(addresses@[k]),
                }),
        decreases n - i,
    {
        let a = addresses[i];
        let amount = l.get_balance(a);
        out.push(AccountBalance { address: a, amount });
        i += 1;
    }
    Ok(BalancesResponse { balances: out, cursor: None })
}

/// The pages of size `lim` tiling the listing-ordered index from `start`.
pub open spec fn chunks_from(view: Seq<(u128, u64)>, lim: int, start: int) -> Seq<(u128, u64)>
    decreases view.len() - start when 1 <= lim && 0 <= start
{
    if start >= view.len() {
        Seq::empty()
    } else {
        view.subrange(start, page_end(view, start, lim)) + chunks_from(
            view,
            lim,
            page_end(view, start, lim),
        )
    }
}

proof fn lemma_chunks_cover(view: Seq<(u128, u64)>, lim: int, start: int)
    requires
        1 <= lim,
        0 <= start <= view.len(),
    ensures
        chunks_from(view, lim, start) == view.subrange(start, view.len() as int),
    decreases view.len() - start,
{
    if start >= view.len() {
        assert(view.subrange(start, view.len() as int) =~= Seq::empty());
    } else {
        let end = page_end(view, start, lim);
        lemma_chunks_cover(view, lim, end);
        assert(view.subrange(start, end) + view.subrange(end, view.len() as int) =~= view.subrange(
            start,
            view.len() as int,
        ));
    }
}

/// Following the returned cursor through successive paginated calls tiles
/// the whole ranked index, in the requested order, with no duplicates and
/// no omissions: each call returns the slice `view[start .. start+limit]`
/// of the listing-ordered index and a cursor that resumes at exactly
/// `start + limit` (see `query_paginate_balances`), and those slices
/// concatenate to the full index.
pub proof fn lemma_pagination_exhaustive(l: Ledger, lim: int, desc: bool)
    requires
        l.wf(),
        1 <= lim,
    ensures
        chunks_from(view_in_order(l, desc), lim, 0) == view_in_order(l, desc),
{
    let view = view_in_order(l, desc);
    lemma_chunks_cover(view, lim, 0);
    assert(view.subrange(0, view.len() as int) =~= view);
}

} // verus!

