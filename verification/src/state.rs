use vstd::prelude::*;

use crate::bridge::BridgeState;
use crate::error::ContractError;
use crate::ledger::Ledger;
use crate::math::add_u128;
use crate::msg::MintParams;

verus! {

/// Lifecycle stages of a raffle; retained alongside the token state for the
/// raffle extension built on this ledger.
#[derive(Clone, Copy, Debug, PartialEq, Eq, Structural)]
pub enum RaffleStatus {
    Created,
    Active,
    Drawing,
    Canceled,
    Completed,
}

/// The whole durable state owned by the token core, passed into every
/// handler: the ledger with its ranked index, the freeze and operator
/// slots of the access gate, the listener set, the bridge state (absent
/// until bridge initialization), and the two resumable batch cursors.
#[derive(Clone, Debug, PartialEq, Eq)]
pub struct Token {
    pub ledger: Ledger,
    /// At most one privileged address; `None` means the contract is
    /// permanently unprivileged.
    pub operator: Option<u64>,
    pub global_freeze: bool,
    /// Individually frozen addresses; presence means frozen.
    pub frozen: Vec<u64>,
    /// Deduplicated observer contracts notified of ledger changes.
    pub listeners: Vec<u64>,
    pub bridge: Option<BridgeState>,
    /// Resume point of the one-time native-balance derivation: the last
    /// address already processed.
    pub derive_cursor: Option<u64>,
    /// How many holders the derivation has processed so far.
    pub n_initialized: u64,
    /// Per-source resume points of cross-ledger copies: `(source, last seen
    /// foreign address)`; only one source may be in flight at a time.
    pub copy_cursors: Vec<(u64, u64)>,
}

impl Token {
    pub open spec fn wf(self) -> bool {
        &&& self.ledger.wf()
        &&& self.frozen@.no_duplicates()
        &&& self.listeners@.no_duplicates()
        &&& forall|i: int, j: int|
            0 <= i < j < self.copy_cursors@.len() ==> (#[trigger] self.copy_cursors@[i]).0 != (
            #[trigger] self.copy_cursors@[j]).0
        &&& self.bridge matches Some(b) ==> b.wf()
    }

    /// `a` is individually frozen.
    pub open spec fn is_frozen(self, a: u64) -> bool {
        self.frozen@.contains(a)
    }

    /// The caller is the stored operator; fails closed when none is stored.
    pub open spec fn is_operator(self, a: u64) -> bool {
        self.operator == Some(a)
    }
}

/// Membership test on a plain address list.
pub fn addr_list_contains(v: &Vec<u64>, a: u64) -> (r: bool)
    ensures
        r == v@.contains(a),
{
    let n = v.len();
    let mut i: usize = 0;
    while i < n
        invariant
            n == v@.len(),
            0 <= i <= n,
            forall|k: int| 0 <= k < i ==> v@[k] != a,
        decreases n - i,
    {
        if v[i] == a {
            return true;
        }
        i += 1;
    }
    false
}

/// Adds `a` to a deduplicated address list if it is not yet present.
pub fn addr_list_insert(v: &mut Vec<u64>, a: u64)
    requires
        old(v)@.no_duplicates(),
    ensures
        final(v)@.no_duplicates(),
        forall|x: u64| final(v)@.contains(x) <==> old(v)@.contains(x) || x == a,
{
    if !addr_list_contains(v, a) {
        let ghost s = v@;
        v.push(a);
        proof {
            assert forall|x: u64| v@.contains(x) <==> s.contains(x) || x == a by {
                if v@.contains(x) {
                    let w = choose|w: int| 0 <= w < v@.len() && v@[w] == x;
                    if w < s.len() {
                        assert(s[w] == x);
                    }
                }
                if s.contains(x) {
                    let w = choose|w: int| 0 <= w < s.len() && s[w] == x;
                    assert(v@[w] == x);
                }
                if x == a {
                    assert(v@[s.len() as int] == x);
                }
            }
            assert forall|i: int, j: int| 0 <= i < j < v@.len() implies v@[i] != v@[j] by {
                if j < s.len() {
                    assert(s[i] == v@[i] && s[j] == v@[j]);
                } else {
                    assert(s[i] == v@[i] && v@[j] == a);
                    assert(s.contains(s[i]));
                }
            }
        }
    }
}

/// Removes `a` from a deduplicated address list if present.
pub fn addr_list_remove(v: &mut Vec<u64>, a: u64)
    requires
        old(v)@.no_duplicates(),
    ensures
        final(v)@.no_duplicates(),
        forall|x: u64| final(v)@.contains(x) <==> old(v)@.contains(x) && x != a,
{
    let ghost s = v@;
    let n = v.len();
    let mut i: usize = 0;
    while i < n
        invariant
            s == v@,
            s == old(v)@,
            s.no_duplicates(),
            n == s.len(),
            0 <= i <= n,
            forall|k: int| 0 <= k < i ==> s[k] != a,
        decreases n - i,
    {
        if v[i] == a {
            v.remove(i);
            proof {
                s.remove_ensures(i as int);
                assert forall|x: u64| v@.contains(x) <==> s.contains(x) && x != a by {
                    if v@.contains(x) {
                        let w = choose|w: int| 0 <= w < v@.len() && v@[w] == x;
                        if w < i {
                            assert(s[w] == x);
                        } else {
                            assert(s[w + 1] == x);
                        }
                        assert(s.contains(x));
                    }
                    if s.contains(x) && x != a {
                        let w = choose|w: int| 0 <= w < s.len() && s[w] == x;
                        if w < i {
                            assert(v@[w] == x);
                        } else {
                            assert(s[i as int] == a);
                            assert(w != i);
                            assert(v@[w - 1] == x);
                        }
                        assert(v@.contains(x));
                    }
                }
                assert forall|p: int, q: int| 0 <= p < q < v@.len() implies v@[p] != v@[q] by {
                    let p0 = if p < i { p } else { p + 1 };
                    let q0 = if q < i { q } else { q + 1 };
                    assert(v@[p] == s[p0] && v@[q] == s[q0]);
                }
            }
            return;
        }
        i += 1;
    }
    proof {
        assert(!s.contains(a));
    }
}

/// Membership in a prefix one longer: either it was already there, or it is
/// the newly covered element.
pub proof fn lemma_contains_prefix_step(s: Seq<u64>, k: int)
    requires
        0 <= k < s.len(),
    ensures
        forall|x: u64|
            s.subrange(0, k + 1).contains(x) <==> (s.subrange(0, k).contains(x) || s[k] == x),
{
    assert forall|x: u64|
        s.subrange(0, k + 1).contains(x) <==> (s.subrange(0, k).contains(x) || s[k] == x) by {
        let a = s.subrange(0, k);
        let b = s.subrange(0, k + 1);
        if b.contains(x) {
            let w = choose|w: int| 0 <= w < b.len() && b[w] == x;
            if w < k {
                assert(a[w] == x);
            } else {
                assert(s[k] == x);
            }
        }
        if a.contains(x) {
            let w = choose|w: int| 0 <= w < a.len() && a[w] == x;
            assert(b[w] == x);
        }
        if s[k] == x {
            assert(b[k] == x);
        }
    }
}

/// The total amount credited to `a` across an initial-balance list; repeated
/// addresses accumulate.
pub open spec fn credited_total(s: Seq<MintParams>, a: u64) -> int
    decreases s.len(),
{
    if s.len() == 0 {
        0
    } else {
        credited_total(s.drop_last(), a) + if s.last().address == a {
            s.last().amount as int
        } else {
            0
        }
    }
}

proof fn lemma_credited_prefix(s: Seq<MintParams>, j: int, a: u64)
    requires
        0 <= j <= s.len(),
    ensures
        credited_total(s.subrange(0, j), a) <= credited_total(s, a),
    decreases s.len() - j,
{
    if j == s.len() {
        assert(s.subrange(0, j) =~= s);
    } else {
        lemma_credited_prefix(s, j + 1, a);
        assert(s.subrange(0, j + 1).drop_last() =~= s.subrange(0, j));
        assert(s.subrange(0, j + 1).last() == s[j]);
        assert(credited_total(s.subrange(0, j), a) <= credited_total(s.subrange(0, j + 1), a));
    }
}

/// Top-level initialization of the token state: the given address becomes
/// the operator, nothing is frozen, and the ledger and its ranked index are
/// seeded from the initial balances, accumulating repeated addresses with
/// checked addition and recording only strictly positive totals.
pub fn init(operator: u64, initial_balances: &Vec<MintParams>) -> (r: Result<
    Token,
    ContractError,
>)
    ensures
        (forall|a: u64| credited_total(initial_balances@, a) <= u128::MAX) ==> r is Ok,
        r matches Ok(t) ==> t.wf() && (forall|a: u64|
            t.ledger.balance_of(a) == credited_total(initial_balances@, a)) && t.operator
            == Some(operator) && !t.global_freeze && t.frozen@.len() == 0 && t.listeners@.len()
            == 0 && t.bridge is None && t.derive_cursor is None && t.n_initialized == 0
            && t.copy_cursors@.len() == 0,
        r matches Err(e) ==> e is ArithmeticOverflow && exists|a: u64|
            credited_total(initial_balances@, a) > u128::MAX,
{
    let mut t = Token {
        ledger: Ledger::new(),
        operator: Some(operator),
        global_freeze: false,
        frozen: Vec::new(),
        listeners: Vec::new(),
        bridge: None,
        derive_cursor: None,
        n_initialized: 0,
        copy_cursors: Vec::new(),
    };
    let n = initial_balances.len();
    let mut k: usize = 0;
    while k < n
        invariant
            n == initial_balances@.len(),
            0 <= k <= n,
            t.ledger.wf(),
            forall|a: u64|
                t.ledger.balance_of(a) == credited_total(
                    initial_balances@.subrange(0, k as int),
                    a,
                ),
            t.operator == Some(operator),
            !t.global_freeze,
            t.frozen@.len() == 0,
            t.listeners@.len() == 0,
            t.bridge is None,
            t.derive_cursor is None,
            t.n_initialized == 0,
            t.copy_cursors@.len() == 0,
        decreases n - k,
    {
        let mp = initial_balances[k];
        let prev = t.ledger.get_balance(mp.address);
        proof {
            assert(initial_balances@.subrange(0, k as int + 1).drop_last() =~= initial_balances@
                .subrange(0, k as int));
            assert(initial_balances@.subrange(0, k as int + 1).last() == initial_balances@[
                k as int]);
        }
        match add_u128(prev, mp.amount) {
            Ok(nb) => {
                t.ledger.adjust(mp.address, nb);
                proof {
                    assert forall|a: u64|
                        t.ledger.balance_of(a) == credited_total(
                            initial_balances@.subrange(0, k as int + 1),
                            a,
                        ) by {}
                }
            },
            Err(e) => {
                proof {
                    lemma_credited_prefix(initial_balances@, k as int + 1, mp.address);
                    assert(credited_total(initial_balances@, mp.address) > u128::MAX);
                }
                return Err(e);
            },
        }
        k += 1;
    }
    proof {
        assert(initial_balances@.subrange(0, n as int) =~= initial_balances@);
    }
    Ok(t)
}

} // verus!
