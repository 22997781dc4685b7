use vstd::prelude::*;

verus! {

// ---------------------------------------------------------------------------
// Orders and lookups over the two stores
// ---------------------------------------------------------------------------

/// Strict order on ranked-index keys: by amount first, ties broken by the
/// address, which is also the natural key order of the index.
pub open spec fn key_lt(a: (u128, u64), b: (u128, u64)) -> bool {
    a.0 < b.0 || (a.0 == b.0 && a.1 < b.1)
}

/// Balance entries are kept strictly sorted by address.
pub open spec fn addr_sorted(s: Seq<(u64, u128)>) -> bool {
    forall|i: int, j: int|
        0 <= i < j < s.len() ==> (#[trigger] s[i]).0 < (#[trigger] s[j]).0
}

/// Every recorded balance is strictly positive; a zero balance is absence.
pub open spec fn all_positive(s: Seq<(u64, u128)>) -> bool {
    forall|i: int| 0 <= i < s.len() ==> (#[trigger] s[i]).1 > 0
}

/// Ranked entries are kept strictly sorted by `key_lt`.
pub open spec fn rank_sorted(s: Seq<(u128, u64)>) -> bool {
    forall|i: int, j: int|
        0 <= i < j < s.len() ==> key_lt(#[trigger] s[i], #[trigger] s[j])
}

pub open spec fn has_addr(s: Seq<(u64, u128)>, a: u64) -> bool {
    exists|i: int| 0 <= i < s.len() && (#[trigger] s[i]).0 == a
}

pub open spec fn addr_index(s: Seq<(u64, u128)>, a: u64) -> int {
    choose|i: int| 0 <= i < s.len() && (#[trigger] s[i]).0 == a
}

/// The balance recorded for `a`; absence means zero.
pub open spec fn lookup(s: Seq<(u64, u128)>, a: u64) -> u128 {
    if has_addr(s, a) {
        s[addr_index(s, a)].1
    } else {
        0
    }
}

// ---------------------------------------------------------------------------
// Lookup lemmas
// ---------------------------------------------------------------------------

pub proof fn lemma_lookup_at(s: Seq<(u64, u128)>, j: int)
    requires
        addr_sorted(s),
        0 <= j < s.len(),
    ensures
        has_addr(s, s[j].0),
        addr_index(s, s[j].0) == j,
        lookup(s, s[j].0) == s[j].1,
{
    let a = s[j].0;
    assert(has_addr(s, a));
    let i = addr_index(s, a);
    assert(0 <= i < s.len() && s[i].0 == a);
    if i < j {
        assert(s[i].0 < s[j].0);
    }
    if j < i {
        assert(s[j].0 < s[i].0);
    }
}

pub proof fn lemma_lookup_absent(s: Seq<(u64, u128)>, a: u64)
    requires
        forall|i: int| 0 <= i < s.len() ==> (#[trigger] s[i]).0 != a,
    ensures
        !has_addr(s, a),
        lookup(s, a) == 0,
{
}

/// A positive looked-up balance comes from an actual entry.
pub proof fn lemma_lookup_positive(s: Seq<(u64, u128)>, a: u64)
    requires
        lookup(s, a) > 0,
    ensures
        has_addr(s, a),
        0 <= addr_index(s, a) < s.len(),
        s[addr_index(s, a)] == (a, lookup(s, a)),
{
    assert(has_addr(s, a));
    let i = addr_index(s, a);
    assert(0 <= i < s.len() && s[i].0 == a);
}

// ---------------------------------------------------------------------------
// Effect of the three primitive mutations on the balance store
// ---------------------------------------------------------------------------

proof fn lemma_lookup_after_update(s: Seq<(u64, u128)>, t: Seq<(u64, u128)>, i: int, v: u128)
    requires
        addr_sorted(s),
        0 <= i < s.len(),
        t == s.update(i, (s[i].0, v)),
    ensures
        addr_sorted(t),
        v > 0 && all_positive(s) ==> all_positive(t),
        lookup(t, s[i].0) == v,
        forall|x: u64| x != s[i].0 ==> lookup(t, x) == lookup(s, x),
{
    assert(forall|k: int| 0 <= k < t.len() ==> (#[trigger] t[k]).0 == s[k].0);
    lemma_lookup_at(t, i);
    assert forall|x: u64| x != s[i].0 implies lookup(t, x) == lookup(s, x) by {
        if has_addr(s, x) {
            let w = addr_index(s, x);
            assert(0 <= w < s.len() && s[w].0 == x);
            assert(t[w] == s[w]);
            lemma_lookup_at(s, w);
            lemma_lookup_at(t, w);
        } else {
            assert(forall|k: int| 0 <= k < t.len() ==> (#[trigger] t[k]).0 != x);
            lemma_lookup_absent(t, x);
            lemma_lookup_absent(s, x);
        }
    }
}

proof fn lemma_lookup_after_insert(s: Seq<(u64, u128)>, t: Seq<(u64, u128)>, i: int, a: u64, v: u128)
    requires
        addr_sorted(s),
        0 <= i <= s.len(),
        forall|k: int| 0 <= k < i ==> (#[trigger] s[k]).0 < a,
        forall|k: int| i <= k < s.len() ==> (#[trigger] s[k]).0 > a,
        t == s.insert(i, (a, v)),
    ensures
        addr_sorted(t),
        v > 0 && all_positive(s) ==> all_positive(t),
        lookup(t, a) == v,
        forall|x: u64| x != a ==> lookup(t, x) == lookup(s, x),
{
    s.insert_ensures(i, (a, v));
    assert(addr_sorted(t)) by {
        assert forall|p: int, q: int| 0 <= p < q < t.len() implies (#[trigger] t[p]).0 < (#[trigger] t[q]).0 by {
            if p < i && q < i {
                assert(t[p] == s[p] && t[q] == s[q]);
            } else if p < i && q == i {
                assert(t[p] == s[p]);
            } else if p < i && q > i {
                assert(t[p] == s[p] && t[q] == s[q - 1]);
            } else if p == i {
                assert(t[q] == s[q - 1]);
            } else {
                assert(t[p] == s[p - 1] && t[q] == s[q - 1]);
            }
        }
    }
    lemma_lookup_at(t, i);
    assert forall|x: u64| x != a implies lookup(t, x) == lookup(s, x) by {
        if has_addr(s, x) {
            let w = addr_index(s, x);
            assert(0 <= w < s.len() && s[w].0 == x);
            lemma_lookup_at(s, w);
            if w < i {
                assert(t[w] == s[w]);
                lemma_lookup_at(t, w);
            } else {
                assert(t[w + 1] == s[w]);
                lemma_lookup_at(t, w + 1);
            }
        } else {
            assert forall|k: int| 0 <= k < t.len() implies (#[trigger] t[k]).0 != x by {
                if k < i {
                    assert(t[k] == s[k]);
                } else if k == i {
                } else {
                    assert(t[k] == s[k - 1]);
                }
            }
            lemma_lookup_absent(t, x);
            lemma_lookup_absent(s, x);
        }
    }
}

proof fn lemma_lookup_after_remove(s: Seq<(u64, u128)>, t: Seq<(u64, u128)>, i: int)
    requires
        addr_sorted(s),
        0 <= i < s.len(),
        t == s.remove(i),
    ensures
        addr_sorted(t),
        all_positive(s) ==> all_positive(t),
        lookup(t, s[i].0) == 0,
        forall|x: u64| x != s[i].0 ==> lookup(t, x) == lookup(s, x),
{
    s.remove_ensures(i);
    let a = s[i].0;
    assert(addr_sorted(t)) by {
        assert forall|p: int, q: int| 0 <= p < q < t.len() implies (#[trigger] t[p]).0 < (#[trigger] t[q]).0 by {
            if q < i {
                assert(t[p] == s[p] && t[q] == s[q]);
            } else if p < i {
                assert(t[p] == s[p] && t[q] == s[q + 1]);
            } else {
                assert(t[p] == s[p + 1] && t[q] == s[q + 1]);
            }
        }
    }
    assert(all_positive(s) ==> all_positive(t)) by {
        if all_positive(s) {
            assert forall|k: int| 0 <= k < t.len() implies (#[trigger] t[k]).1 > 0 by {
                if k < i {
                    assert(t[k] == s[k]);
                } else {
                    assert(t[k] == s[k + 1]);
                }
            }
        }
    }
    assert forall|k: int| 0 <= k < t.len() implies (#[trigger] t[k]).0 != a by {
        if k < i {
            assert(t[k] == s[k]);
        } else {
            assert(t[k] == s[k + 1]);
        }
    }
    lemma_lookup_absent(t, a);
    assert forall|x: u64| x != a implies lookup(t, x) == lookup(s, x) by {
        if has_addr(s, x) {
            let w = addr_index(s, x);
            assert(0 <= w < s.len() && s[w].0 == x);
            lemma_lookup_at(s, w);
            if w < i {
                assert(t[w] == s[w]);
                lemma_lookup_at(t, w);
            } else {
                assert(t[w - 1] == s[w]);
                lemma_lookup_at(t, w - 1);
            }
        } else {
            lemma_lookup_absent(s, x);
            assert(!has_addr(t, x)) by {
                if has_addr(t, x) {
                    let w = choose|w: int| 0 <= w < t.len() && (#[trigger] t[w]).0 == x;
                    if w < i {
                        assert(t[w] == s[w]);
                    } else {
                        assert(t[w] == s[w + 1]);
                    }
                }
            }
        }
    }
}

// ---------------------------------------------------------------------------
// Effect of the primitive mutations on the ranked index
// ---------------------------------------------------------------------------

proof fn lemma_rank_after_remove(s: Seq<(u128, u64)>, t: Seq<(u128, u64)>, j: int)
    requires
        rank_sorted(s),
        0 <= j < s.len(),
        t == s.remove(j),
    ensures
        rank_sorted(t),
        forall|e: (u128, u64)| t.contains(e) <==> s.contains(e) && e != s[j],
{
    s.remove_ensures(j);
    assert(rank_sorted(t)) by {
        assert forall|p: int, q: int| 0 <= p < q < t.len() implies key_lt(#[trigger] t[p], #[trigger] t[q]) by {
            if q < j {
                assert(t[p] == s[p] && t[q] == s[q]);
            } else if p < j {
                assert(t[p] == s[p] && t[q] == s[q + 1]);
            } else {
                assert(t[p] == s[p + 1] && t[q] == s[q + 1]);
            }
        }
    }
    assert forall|e: (u128, u64)| t.contains(e) <==> s.contains(e) && e != s[j] by {
        if t.contains(e) {
            let w = choose|w: int| 0 <= w < t.len() && t[w] == e;
            if w < j {
                assert(s[w] == e);
                assert(key_lt(s[w], s[j]));
            } else {
                assert(s[w + 1] == e);
                assert(key_lt(s[j], s[w + 1]));
            }
            assert(s.contains(e));
        }
        if s.contains(e) && e != s[j] {
            let w = choose|w: int| 0 <= w < s.len() && s[w] == e;
            if w < j {
                assert(t[w] == e);
            } else {
                assert(w > j);
                assert(t[w - 1] == e);
            }
            assert(t.contains(e));
        }
    }
}

proof fn lemma_rank_after_insert(s: Seq<(u128, u64)>, t: Seq<(u128, u64)>, p: int, e: (u128, u64))
    requires
        rank_sorted(s),
        0 <= p <= s.len(),
        forall|k: int| 0 <= k < p ==> key_lt(#[trigger] s[k], e),
        forall|k: int| p <= k < s.len() ==> key_lt(e, #[trigger] s[k]),
        t == s.insert(p, e),
    ensures
        rank_sorted(t),
        forall|x: (u128, u64)| t.contains(x) <==> s.contains(x) || x == e,
{
    s.insert_ensures(p, e);
    assert(rank_sorted(t)) by {
        assert forall|a: int, b: int| 0 <= a < b < t.len() implies key_lt(#[trigger] t[a], #[trigger] t[b]) by {
            if a < p && b < p {
                assert(t[a] == s[a] && t[b] == s[b]);
            } else if a < p && b == p {
                assert(t[a] == s[a]);
            } else if a < p && b > p {
                assert(t[a] == s[a] && t[b] == s[b - 1]);
            } else if a == p {
                assert(t[b] == s[b - 1]);
            } else {
                assert(t[a] == s[a - 1] && t[b] == s[b - 1]);
            }
        }
    }
    assert forall|x: (u128, u64)| t.contains(x) <==> s.contains(x) || x == e by {
        if t.contains(x) {
            let w = choose|w: int| 0 <= w < t.len() && t[w] == x;
            if w < p {
                assert(s[w] == x);
                assert(s.contains(x));
            } else if w == p {
            } else {
                assert(s[w - 1] == x);
                assert(s.contains(x));
            }
        }
        if s.contains(x) {
            let w = choose|w: int| 0 <= w < s.len() && s[w] == x;
            if w < p {
                assert(t[w] == x);
            } else {
                assert(t[w + 1] == x);
            }
            assert(t.contains(x));
        }
        if x == e {
            assert(t[p] == x);
            assert(t.contains(x));
        }
    }
}

// ---------------------------------------------------------------------------
// The ledger: primary balance store plus ranked index plus holder counter
// ---------------------------------------------------------------------------

/// The account ledger together with its balance-ranked secondary index.
///
/// `balances` mirrors the primary address-to-amount store (absence means
/// zero); `ranked` is the secondary index keyed by `(amount, address)`; and
/// `n_balances` counts the addresses holding a strictly positive balance.
/// `wf` ties the three together: an index entry `(a, addr)` exists if and
/// only if the balance of `addr` is `a` and `a > 0`, and the counter always
/// equals the index cardinality.
#[derive(Clone, Debug, PartialEq, Eq)]
pub struct Ledger {
    pub balances: Vec<(u64, u128)>,
    pub ranked: Vec<(u128, u64)>,
    pub n_balances: u64,
}

impl Ledger {
    /// The balance of `a`; zero when no entry exists.
    pub open spec fn balance_of(self, a: u64) -> u128 {
        lookup(self.balances@, a)
    }

    pub open spec fn wf(self) -> bool {
        &&& addr_sorted(self.balances@)
        &&& all_positive(self.balances@)
        &&& rank_sorted(self.ranked@)
        &&& self.ranked@.len() == self.balances@.len()
        &&& forall|i: int|
            0 <= i < self.ranked@.len() ==> lookup(
                self.balances@,
                (#[trigger] self.ranked@[i]).1,
            ) == self.ranked@[i].0 && self.ranked@[i].0 > 0
        &&& forall|i: int|
            0 <= i < self.balances@.len() ==> self.ranked@.contains(
                ((#[trigger] self.balances@[i]).1, self.balances@[i].0),
            )
        &&& self.n_balances == self.balances@.len()
    }

    pub fn new() -> (l: Ledger)
        ensures
            l.wf(),
            l.balances@.len() == 0,
            l.ranked@.len() == 0,
            forall|a: u64| l.balance_of(a) == 0,
    {
        Ledger { balances: Vec::new(), ranked: Vec::new(), n_balances: 0 }
    }

    /// Reads a balance from the primary store; zero when absent.
    pub fn get_balance(&self, a: u64) -> (r: u128)
        requires
            self.wf(),
        ensures
            r == self.balance_of(a),
    {
        let n = self.balances.len();
        let mut i: usize = 0;
        while i < n
            invariant
                self.wf(),
                n == self.balances@.len(),
                0 <= i <= n,
                forall|k: int| 0 <= k < i ==> (#[trigger] self.balances@[k]).0 != a,
            decreases n - i,
        {
            if self.balances[i].0 == a {
                proof {
                    lemma_lookup_at(self.balances@, i as int);
                }
                return self.balances[i].1;
            }
            i += 1;
        }
        proof {
            lemma_lookup_absent(self.balances@, a);
        }
        0
    }
}

// ---------------------------------------------------------------------------
// Position searches
// ---------------------------------------------------------------------------

/// First position whose address is not below `addr`.
fn balance_pos(v: &Vec<(u64, u128)>, addr: u64) -> (i: usize)
    requires
        addr_sorted(v@),
    ensures
        0 <= i <= v@.len(),
        forall|k: int| 0 <= k < i ==> (#[trigger] v@[k]).0 < addr,
        i < v@.len() ==> v@[i as int].0 >= addr,
{
    let n = v.len();
    let mut i: usize = 0;
    while i < n && v[i].0 < addr
        invariant
            addr_sorted(v@),
            n == v@.len(),
            0 <= i <= n,
            forall|k: int| 0 <= k < i ==> (#[trigger] v@[k]).0 < addr,
        decreases n - i,
    {
        i += 1;
    }
    i
}

/// Position of the key `(amount, addr)` in the ranked index.
fn find_rank_pos(v: &Vec<(u128, u64)>, amount: u128, addr: u64) -> (j: usize)
    requires
        rank_sorted(v@),
        v@.contains((amount, addr)),
    ensures
        j < v@.len(),
        v@[j as int] == (amount, addr),
{
    let ghost key = (amount, addr);
    let n = v.len();
    let mut j: usize = 0;
    loop
        invariant
            rank_sorted(v@),
            v@.contains(key),
            key == (amount, addr),
            n == v@.len(),
            0 <= j <= v@.len(),
            forall|k: int| 0 <= k < j ==> #[trigger] v@[k] != key,
        decreases v@.len() - j,
    {
        proof {
            let w = choose|w: int| 0 <= w < v@.len() && v@[w] == key;
            assert(0 <= w < v@.len() && v@[w] == key);
            assert(j <= w);
            assert(j < v@.len());
        }
        if v[j].0 == amount && v[j].1 == addr {
            return j;
        }
        proof {
            assert(v@[j as int] != key);
        }
        j += 1;
    }
}

/// Position at which the absent key `(amount, addr)` belongs in the ranked
/// index.
fn rank_insert_pos(v: &Vec<(u128, u64)>, amount: u128, addr: u64) -> (p: usize)
    requires
        rank_sorted(v@),
        !v@.contains((amount, addr)),
    ensures
        0 <= p <= v@.len(),
        forall|k: int| 0 <= k < p ==> key_lt(#[trigger] v@[k], (amount, addr)),
        forall|k: int| p <= k < v@.len() ==> key_lt((amount, addr), #[trigger] v@[k]),
{
    let ghost key = (amount, addr);
    let n = v.len();
    let mut p: usize = 0;
    while p < n && (v[p].0 < amount || (v[p].0 == amount && v[p].1 < addr))
        invariant
            rank_sorted(v@),
            !v@.contains(key),
            key == (amount, addr),
            n == v@.len(),
            0 <= p <= n,
            forall|k: int| 0 <= k < p ==> key_lt(#[trigger] v@[k], key),
        decreases n - p,
    {
        proof {
            assert(key_lt(v@[p as int], key));
        }
        p += 1;
    }
    proof {
        assert forall|k: int| p <= k < v@.len() implies key_lt(key, #[trigger] v@[k]) by {
            assert(v@[p as int] != key);
            assert(!key_lt(v@[p as int], key));
            if k > p {
                assert(key_lt(v@[p as int], v@[k]));
            }
        }
    }
    p
}

// ---------------------------------------------------------------------------
// The one mutation primitive
// ---------------------------------------------------------------------------

impl Ledger {
    /// Sets the balance of `addr` to `new_amount`, keeping the primary store,
    /// the ranked index and the holder counter synchronized: the previous
    /// `(amount, addr)` index entry (if any) is removed, `(new_amount, addr)`
    /// is inserted when `new_amount > 0`, and the counter moves exactly when
    /// an address transitions to or from a zero balance.  Because the counter
    /// always equals the store's cardinality, its maintenance can never
    /// underflow or overflow here.
    pub fn adjust(&mut self, addr: u64, new_amount: u128)
        requires
            old(self).wf(),
        ensures
            final(self).wf(),
            final(self).balance_of(addr) == new_amount,
            forall|x: u64| x != addr ==> final(self).balance_of(x) == old(self).balance_of(x),
            final(self).balances@.len() == old(self).balances@.len() + (
            if new_amount > 0 && old(self).balance_of(addr) == 0 {
                1int
            } else {
                0int
            }) - (
            if new_amount == 0 && old(self).balance_of(addr) > 0 {
                1int
            } else {
                0int
            }),
    {
        let ghost bal0 = self.balances@;
        let ghost rank0 = self.ranked@;
        let i = balance_pos(&self.balances, addr);
        let found = i < self.balances.len() && self.balances[i].0 == addr;
        let old_amount = if found {
            self.balances[i].1
        } else {
            0
        };
        proof {
            if found {
                lemma_lookup_at(bal0, i as int);
            } else {
                assert forall|k: int| 0 <= k < bal0.len() implies (#[trigger] bal0[k]).0 != addr by {
                    if k >= i {
                        assert(bal0[i as int].0 <= bal0[k].0);
                    }
                }
                lemma_lookup_absent(bal0, addr);
            }
            assert(lookup(bal0, addr) == old_amount);
        }
        if old_amount == new_amount {
            return;
        }

        // primary store
        if found {
            if new_amount > 0 {
                self.balances[i] = (addr, new_amount);
                proof {
                    lemma_lookup_after_update(bal0, self.balances@, i as int, new_amount);
                }
            } else {
                self.balances.remove(i);
                proof {
                    lemma_lookup_after_remove(bal0, self.balances@, i as int);
                }
            }
        } else {
            assert(new_amount > 0);
            self.balances.insert(i, (addr, new_amount));
            proof {
                lemma_lookup_after_insert(bal0, self.balances@, i as int, addr, new_amount);
            }
        }
        let ghost bal1 = self.balances@;
        proof {
            assert(addr_sorted(bal1));
            assert(all_positive(bal1));
            assert(lookup(bal1, addr) == new_amount);
            assert(forall|x: u64| x != addr ==> lookup(bal1, x) == lookup(bal0, x));
        }

        // ranked index: drop the stale entry, insert the fresh one
        if old_amount > 0 {
            let j = find_rank_pos(&self.ranked, old_amount, addr);
            self.ranked.remove(j);
            proof {
                lemma_rank_after_remove(rank0, self.ranked@, j as int);
            }
        }
        let ghost rank1 = self.ranked@;
        proof {
            if old_amount > 0 {
                assert(forall|e: (u128, u64)|
                    rank1.contains(e) <==> rank0.contains(e) && e != (old_amount, addr));
            } else {
                assert(rank1 == rank0);
            }
            // the fresh key is absent from rank1
            if new_amount > 0 {
                if rank1.contains((new_amount, addr)) {
                    assert(rank0.contains((new_amount, addr)));
                    let w = choose|w: int|
                        0 <= w < rank0.len() && rank0[w] == (new_amount, addr);
                    assert(lookup(bal0, addr) == new_amount);
                    assert(false);
                }
            }
        }
        if new_amount > 0 {
            let p = rank_insert_pos(&self.ranked, new_amount, addr);
            self.ranked.insert(p, (new_amount, addr));
            proof {
                lemma_rank_after_insert(rank1, self.ranked@, p as int, (new_amount, addr));
            }
        }
        self.n_balances = self.balances.len() as u64;

        proof {
            let rank2 = self.ranked@;
            // containment of the final index, as one fact for both cases
            assert(forall|e: (u128, u64)|
                rank2.contains(e) <==> (rank0.contains(e) && e != (old_amount, addr)) || (
                new_amount > 0 && e == (new_amount, addr)));

            // every index entry matches the balance it ranks
            assert forall|k: int| 0 <= k < rank2.len() implies lookup(
                bal1,
                (#[trigger] rank2[k]).1,
            ) == rank2[k].0 && rank2[k].0 > 0 by {
                let e = rank2[k];
                assert(rank2.contains(e));
                if new_amount > 0 && e == (new_amount, addr) {
                    assert(lookup(bal1, addr) == new_amount);
                } else {
                    assert(rank0.contains(e) && e != (old_amount, addr));
                    assert(lookup(bal0, e.1) == e.0 && e.0 > 0);
                    if e.1 == addr {
                        assert(e.0 == old_amount);
                        assert(false);
                    }
                    assert(lookup(bal1, e.1) == lookup(bal0, e.1));
                }
            }

            // every balance is ranked
            assert forall|k: int| 0 <= k < bal1.len() implies rank2.contains(
                ((#[trigger] bal1[k]).1, bal1[k].0),
            ) by {
                let x = bal1[k].0;
                let v = bal1[k].1;
                lemma_lookup_at(bal1, k);
                assert(lookup(bal1, x) == v);
                assert(v > 0);
                if x == addr {
                    assert(v == new_amount);
                } else {
                    assert(lookup(bal0, x) == v);
                    lemma_lookup_positive(bal0, x);
                    let w = addr_index(bal0, x);
                    assert(bal0[w] == (x, v));
                    assert(rank0.contains((bal0[w].1, bal0[w].0)));
                    assert((v, x) != (old_amount, addr));
                }
            }

            // lengths moved in lock-step
            assert(rank2.len() == bal1.len());
        }
    }
}

// ---------------------------------------------------------------------------
// The index invariant, stated as the law it is
// ---------------------------------------------------------------------------

/// The set of addresses holding a strictly positive balance.
pub open spec fn holder_set(l: Ledger) -> Set<u64> {
    Set::new(|a: u64| l.balance_of(a) > 0)
}

/// The set of addresses present in the ranked index.
pub open spec fn ranked_addr_set(l: Ledger) -> Set<u64> {
    l.ranked@.map_values(|e: (u128, u64)| e.1).to_set()
}

/// The ranked index never drifts from the balance store: in every
/// well-formed ledger state — and `adjust` preserves well-formedness under
/// every mutation path — the set of addresses present in the ranked index
/// equals exactly the set of addresses with strictly positive balance, and
/// the holder counter equals that set's size.
pub proof fn lemma_index_matches_holders(l: Ledger)
    requires
        l.wf(),
    ensures
        ranked_addr_set(l) =~= holder_set(l),
        l.n_balances == holder_set(l).len(),
{
    let m = l.ranked@.map_values(|e: (u128, u64)| e.1);
    assert(m.len() == l.ranked@.len());
    assert forall|a: u64| ranked_addr_set(l).contains(a) implies holder_set(l).contains(a) by {
        let i = choose|i: int| 0 <= i < m.len() && m[i] == a;
        assert(l.ranked@[i].1 == a);
        assert(lookup(l.balances@, a) == l.ranked@[i].0);
    }
    assert forall|a: u64| holder_set(l).contains(a) implies ranked_addr_set(l).contains(a) by {
        lemma_lookup_positive(l.balances@, a);
        let w = addr_index(l.balances@, a);
        assert(l.ranked@.contains((l.balances@[w].1, l.balances@[w].0)));
        let u = choose|u: int|
            0 <= u < l.ranked@.len() && l.ranked@[u] == (l.balances@[w].1, l.balances@[w].0);
        assert(m[u] == a);
        assert(m.contains(a));
    }
    assert(m.no_duplicates()) by {
        assert forall|i: int, j: int| 0 <= i < j < m.len() implies m[i] != m[j] by {
            if m[i] == m[j] {
                assert(l.ranked@[i].1 == l.ranked@[j].1);
                assert(l.ranked@[i].0 == lookup(l.balances@, l.ranked@[i].1));
                assert(l.ranked@[j].0 == lookup(l.balances@, l.ranked@[j].1));
                assert(key_lt(l.ranked@[i], l.ranked@[j]));
            }
        }
    }
    m.unique_seq_to_set();
    assert(ranked_addr_set(l).len() == l.ranked@.len());
    assert(ranked_addr_set(l) =~= holder_set(l));
    assert(holder_set(l).len() == ranked_addr_set(l).len());
}

} // verus!
