use vstd::prelude::*;

use crate::checks::ensure_operator;
use crate::error::ContractError;
use crate::logo::Logo;
use crate::math::{add_u128, add_u256, U256};
use crate::msg::MintParams;
use crate::state::Token;
use crate::strutil::{clone_string, lower_of, lowercase, spec_has_prefix, str_starts_with, trim_of,
    trimmed};

verus! {

/// Reply identifiers at or above this base belong to mint-settlement
/// confirmations; anything below is treated as spoofed and rejected.
pub const INITIAL_TF_MINT_REPLY_ID: u64 = 1_000_000;

/// The supported native-currency backends.  Each offers the same capability
/// set — create, mint, burn, set-metadata, change-admin — and differs only
/// in wire encoding, which the unverified platform adapter supplies.
#[derive(Clone, Copy, Debug, PartialEq, Eq, Structural)]
pub enum TokenFactoryType {
    CosmWasm,
    Osmosis,
    Injective,
    Kujira,
}

/// Metadata parameters for a new bank denom.
#[derive(Clone, Debug, PartialEq, Eq)]
pub struct NewDenomMetadata {
    pub symbol: String,
    pub decimals: u32,
    pub name: String,
    pub description: Option<String>,
    pub uri: Option<String>,
}

/// One denomination unit of the full denom metadata.
#[derive(Clone, Debug, PartialEq, Eq)]
pub struct DenomUnit {
    pub aliases: Vec<String>,
    pub denom: String,
    pub exponent: u32,
}

/// Full denom metadata as the platform's set-metadata operation takes it.
#[derive(Clone, Debug, PartialEq, Eq)]
pub struct Metadata {
    pub symbol: String,
    pub display: String,
    pub name: String,
    pub base: String,
    pub description: String,
    pub uri: String,
    pub denom_units: Vec<DenomUnit>,
}

/// The token descriptor and marketing snapshot read from the ledger
/// collaborator when the bridge (re)synchronizes.
#[derive(Clone, Debug, PartialEq, Eq)]
pub struct TokenDescriptor {
    pub symbol: String,
    pub name: String,
    pub decimals: u32,
    pub description: Option<String>,
    pub logo_url: Option<String>,
}

/// One outbound platform operation issued by the bridge.  The unverified
/// adapter turns each into the backend-specific wire message; `ChangeAdmin`
/// with `new_admin == None` uses the platform's designated "no admin"
/// sentinel address.
#[derive(Clone, Debug, PartialEq, Eq)]
pub enum NativeMsg {
    CreateDenom { subdenom: String },
    SetDenomMetadata { metadata: Metadata },
    MintNative { denom: String, amount: u128, reply_id: u64 },
    BurnNative { denom: String, amount: u128 },
    ChangeAdmin { denom: String, new_admin: Option<u64> },
    SendNative { to_address: u64, denom: String, amount: u128 },
}

/// The recipients of one in-flight mint, awaiting settlement under the
/// reply identifier the mint operation was issued with.
#[derive(Clone, Debug, PartialEq, Eq)]
pub struct PendingMint {
    pub reply_id: u64,
    pub recipients: Vec<MintParams>,
}

/// Bridge state, created once by bridge initialization and mutated by every
/// later mint, burn, metadata or admin operation.
#[derive(Clone, Debug, PartialEq, Eq)]
pub struct BridgeState {
    pub factory: TokenFactoryType,
    pub full_denom: String,
    pub reply_id_counter: u64,
    pub metadata: NewDenomMetadata,
    pub amount_minted: crate::math::U256,
    pub amount_burned: crate::math::U256,
    pub pending_mints: Vec<PendingMint>,
}

impl BridgeState {
    /// Pending reply identifiers are unique, and sit within the reserved
    /// range handed out so far.
    pub open spec fn wf(self) -> bool {
        &&& self.reply_id_counter >= INITIAL_TF_MINT_REPLY_ID
        &&& forall|i: int|
            0 <= i < self.pending_mints@.len() ==> INITIAL_TF_MINT_REPLY_ID <= (
            #[trigger] self.pending_mints@[i]).reply_id < self.reply_id_counter
        &&& forall|i: int, j: int|
            0 <= i < j < self.pending_mints@.len() ==> (#[trigger] self.pending_mints@[i]).reply_id
                != (#[trigger] self.pending_mints@[j]).reply_id
    }
}

/// The backend chosen for a chain identifier; unrecognized chains use the
/// generic CosmWasm backend.
pub open spec fn backend_of(chain: Seq<char>) -> TokenFactoryType {
    if spec_has_prefix(chain, "osmo"@) {
        TokenFactoryType::Osmosis
    } else if spec_has_prefix(chain, "injective"@) {
        TokenFactoryType::Injective
    } else if spec_has_prefix(chain, "kaiyo"@) {
        TokenFactoryType::Kujira
    } else {
        TokenFactoryType::CosmWasm
    }
}

impl TokenFactoryType {
    /// Chooses the native-currency backend from the chain identifier.
    pub fn from_chain_id(chain_id: &str) -> (r: TokenFactoryType)
        ensures
            r == backend_of(chain_id@),
    {
        if str_starts_with(chain_id, "osmo") {
            TokenFactoryType::Osmosis
        } else if str_starts_with(chain_id, "injective") {
            TokenFactoryType::Injective
        } else if str_starts_with(chain_id, "kaiyo") {
            TokenFactoryType::Kujira
        } else {
            TokenFactoryType::CosmWasm
        }
    }
}

/// Index just past the last `/` of a denom path, or zero when none occurs.
pub open spec fn cut_after_last_slash(s: Seq<char>) -> int
    decreases s.len(),
{
    if s.len() == 0 {
        0
    } else if s.last() == '/' {
        s.len() as int
    } else {
        cut_after_last_slash(s.drop_last())
    }
}

impl NewDenomMetadata {
    /// Assembles the full denom metadata: a base unit for the full denom at
    /// exponent zero and a display unit for the symbol at the token's
    /// decimals; the encoding is shared by every backend.
    pub fn to_token_factory_metadata(&self, _factory: TokenFactoryType, full_denom: &String) -> (m:
        Metadata)
        ensures
            m.symbol@ == self.symbol@,
            m.display@ == self.symbol@,
            m.name@ == self.name@,
            m.base@ == full_denom@,
            m.description@ == (match self.description {
                Some(d) => d@,
                None => Seq::<char>::empty(),
            }),
            m.uri@ == (match self.uri {
                Some(u) => u@,
                None => Seq::<char>::empty(),
            }),
            m.denom_units@.len() == 2,
            m.denom_units@[0].denom@ == full_denom@ && m.denom_units@[0].exponent == 0
                && m.denom_units@[0].aliases@.len() == 0,
            m.denom_units@[1].denom@ == self.symbol@ && m.denom_units@[1].exponent == self.decimals
                && m.denom_units@[1].aliases@.len() == 0,
    {
        proof {
            reveal_strlit("");
            assert(""@ =~= Seq::<char>::empty());
        }
        let mut denom_units: Vec<DenomUnit> = Vec::new();
        denom_units.push(
            DenomUnit { aliases: Vec::new(), denom: clone_string(full_denom), exponent: 0 },
        );
        denom_units.push(
            DenomUnit {
                aliases: Vec::new(),
                denom: clone_string(&self.symbol),
                exponent: self.decimals,
            },
        );
        Metadata {
            symbol: clone_string(&self.symbol),
            display: clone_string(&self.symbol),
            name: clone_string(&self.name),
            base: clone_string(full_denom),
            description: match &self.description {
                Some(d) => clone_string(d),
                None => String::from_str(""),
            },
            uri: match &self.uri {
                Some(u) => clone_string(u),
                None => String::from_str(""),
            },
            denom_units,
        }
    }

    /// The denom's micro form: `u` prepended to the final path segment.
    pub fn build_micro_denom(full_denom: &String) -> (r: String)
        ensures
            r@ == full_denom@.subrange(0, cut_after_last_slash(full_denom@)) + seq!['u']
                + full_denom@.subrange(cut_after_last_slash(full_denom@), full_denom@.len() as int),
    {
        let s = full_denom.as_str();
        let n = s.unicode_len();
        let mut i: usize = n;
        proof {
            assert(s@.subrange(0, n as int) =~= s@);
        }
        while i > 0 && s.get_char(i - 1) != '/'
            invariant
                n == s@.len(),
                0 <= i <= n,
                cut_after_last_slash(s@) == cut_after_last_slash(s@.subrange(0, i as int)),
            decreases i,
        {
            proof {
                assert(s@.subrange(0, i as int).drop_last() =~= s@.subrange(0, i as int - 1));
            }
            i -= 1;
        }
        proof {
            if i == 0 {
                assert(s@.subrange(0, 0) =~= Seq::<char>::empty());
            }
            assert(cut_after_last_slash(s@) == i);
        }
        let cut = i;
        let prefix = s.substring_char(0, cut);
        let suffix = s.substring_char(cut, n);
        let mut r = String::from_str(prefix);
        r.append("u");
        r.append(suffix);
        proof {
            reveal_strlit("u");
            assert("u"@ =~= seq!['u']);
        }
        r
    }
}

/// The sum of the amounts of a recipient list.
pub open spec fn sum_amounts(s: Seq<(u64, u128)>) -> int
    decreases s.len(),
{
    if s.len() == 0 {
        0
    } else {
        sum_amounts(s.drop_last()) + s.last().1
    }
}

proof fn lemma_sum_prefix(s: Seq<(u64, u128)>, j: int)
    requires
        0 <= j <= s.len(),
    ensures
        sum_amounts(s.subrange(0, j)) <= sum_amounts(s),
    decreases s.len() - j,
{
    if j == s.len() {
        assert(s.subrange(0, j) =~= s);
    } else {
        lemma_sum_prefix(s, j + 1);
        assert(s.subrange(0, j + 1).drop_last() =~= s.subrange(0, j));
        assert(s.subrange(0, j + 1).last() == s[j]);
    }
}

/// A settlement entry awaits confirmation under this reply identifier.
pub open spec fn has_pending(b: BridgeState, id: u64) -> bool {
    exists|i: int|
        0 <= i < b.pending_mints@.len() && (#[trigger] b.pending_mints@[i]).reply_id == id
}

pub open spec fn pending_index(b: BridgeState, id: u64) -> int {
    choose|i: int|
        0 <= i < b.pending_mints@.len() && (#[trigger] b.pending_mints@[i]).reply_id == id
}

/// Everything but the bridge is unchanged between the two states.
pub open spec fn same_but_bridge(pre: Token, post: Token) -> bool {
    &&& post.ledger == pre.ledger
    &&& post.operator == pre.operator
    &&& post.global_freeze == pre.global_freeze
    &&& post.frozen == pre.frozen
    &&& post.listeners == pre.listeners
    &&& post.derive_cursor == pre.derive_cursor
    &&& post.n_initialized == pre.n_initialized
    &&& post.copy_cursors == pre.copy_cursors
}

/// A mint of this batch can go through: the bridge exists and neither the
/// batch sum, nor the running minted total, nor the reply-id counter would
/// wrap.
pub open spec fn mintable(t: Token, batch: Seq<(u64, u128)>) -> bool {
    match t.bridge {
        Some(b) => sum_amounts(batch) <= u128::MAX && b.amount_minted.value() + sum_amounts(batch)
            <= U256::max_value() && b.reply_id_counter < u64::MAX,
        None => false,
    }
}

/// Sums the requested amounts with checked addition, adds the sum to the
/// running minted total, allocates the next reply identifier, persists the
/// full recipient list under that identifier in the pending-settlement
/// queue, and issues one native mint for the total, tagged to always
/// report completion.
pub fn mint_multiple(t: &mut Token, recipients: &Vec<(u64, u128)>) -> (r: Result<
    (u128, Vec<NativeMsg>),
    ContractError,
>)
    requires
        old(t).wf(),
    ensures
        final(t).wf(),
        r matches Err(e) ==> *final(t) == *old(t) && (e is Std <==> old(t).bridge is None) && (
        e is Std || e is ArithmeticOverflow),
        (old(t).bridge matches Some(b) && sum_amounts(recipients@) <= u128::MAX
            && b.amount_minted.value() + sum_amounts(recipients@) <= U256::max_value()
            && b.reply_id_counter < u64::MAX) ==> r is Ok,
        r matches Ok(p) ==> old(t).bridge is Some && final(t).bridge is Some && ({
            let b0 = old(t).bridge->0;
            let b1 = final(t).bridge->0;
            &&& p.0 == sum_amounts(recipients@)
            &&& b1.amount_minted.value() == b0.amount_minted.value() + sum_amounts(recipients@)
            &&& b1.reply_id_counter == b0.reply_id_counter + 1
            &&& b1.pending_mints@.len() == b0.pending_mints@.len() + 1
            &&& b1.pending_mints@.subrange(0, b0.pending_mints@.len() as int)
                == b0.pending_mints@
            &&& b1.pending_mints@.last().reply_id == b0.reply_id_counter
            &&& b1.pending_mints@.last().recipients@.len() == recipients@.len()
            &&& (forall|i: int|
                0 <= i < recipients@.len() ==> (#[trigger] b1.pending_mints@.last().recipients@[i])
                    == (MintParams {
                    address: recipients@[i].0,
                    amount: recipients@[i].1,
                }))
            &&& b1.full_denom == b0.full_denom
            &&& b1.factory == b0.factory
            &&& b1.metadata == b0.metadata
            &&& b1.amount_burned == b0.amount_burned
            &&& p.1@.len() == 1
            &&& (p.1@[0] matches NativeMsg::MintNative { denom, amount, reply_id } && denom@
                == b0.full_denom@ && amount == p.0 && reply_id == b0.reply_id_counter)
            &&& same_but_bridge(*old(t), *final(t))
        }),
{
    let mut b = match t.bridge.take() {
        Some(b) => b,
        None => {
            return Err(
                ContractError::Std { msg: String::from_str("token factory not initialized") },
            );
        },
    };

    // checked sum of the requested amounts
    let n = recipients.len();
    let mut total: u128 = 0;
    let mut k: usize = 0;
    while k < n
        invariant
            old(t).wf(),
            t.bridge is None,
            Some(b) == old(t).bridge,
            same_but_bridge(*old(t), *t),
            n == recipients@.len(),
            0 <= k <= n,
            total == sum_amounts(recipients@.subrange(0, k as int)),
        decreases n - k,
    {
        proof {
            assert(recipients@.subrange(0, k as int + 1).drop_last() =~= recipients@.subrange(
                0,
                k as int,
            ));
            assert(recipients@.subrange(0, k as int + 1).last() == recipients@[k as int]);
        }
        total = match add_u128(total, recipients[k].1) {
            Ok(v) => v,
            Err(e) => {
                proof {
                    lemma_sum_prefix(recipients@, k as int + 1);
                }
                t.bridge = Some(b);
                return Err(e);
            },
        };
        k += 1;
    }
    proof {
        assert(recipients@.subrange(0, n as int) =~= recipients@);
    }

    // running minted total, checked as well
    let minted = match add_u256(b.amount_minted, total) {
        Ok(v) => v,
        Err(e) => {
            t.bridge = Some(b);
            return Err(e);
        },
    };
    let reply_id = b.reply_id_counter;
    let next_counter = if reply_id < u64::MAX {
        reply_id + 1
    } else {
        t.bridge = Some(b);
        return Err(ContractError::ArithmeticOverflow);
    };

    // persist the recipients awaiting settlement
    let mut pending: Vec<MintParams> = Vec::new();
    let mut k2: usize = 0;
    while k2 < n
        invariant
            old(t).wf(),
            t.bridge is None,
            Some(b) == old(t).bridge,
            same_but_bridge(*old(t), *t),
            n == recipients@.len(),
            0 <= k2 <= n,
            pending@.len() == k2,
            forall|i: int|
                0 <= i < k2 ==> (#[trigger] pending@[i]) == (MintParams {
                    address: recipients@[i].0,
                    amount: recipients@[i].1,
                }),
        decreases n - k2,
    {
        pending.push(MintParams { address: recipients[k2].0, amount: recipients[k2].1 });
        k2 += 1;
    }
    let denom_for_msg = clone_string(&b.full_denom);
    let ghost pending0 = b.pending_mints@;
    b.amount_minted = minted;
    b.reply_id_counter = next_counter;
    b.pending_mints.push(PendingMint { reply_id, recipients: pending });
    proof {
        assert(b.pending_mints@.subrange(0, pending0.len() as int) =~= pending0);
        assert forall|i: int|
            0 <= i < b.pending_mints@.len() implies INITIAL_TF_MINT_REPLY_ID <= (
        #[trigger] b.pending_mints@[i]).reply_id < b.reply_id_counter by {
            if i < pending0.len() {
                assert(b.pending_mints@[i] == pending0[i]);
            }
        }
        assert forall|i: int, j: int|
            0 <= i < j < b.pending_mints@.len() implies (#[trigger] b.pending_mints@[i]).reply_id
            != (#[trigger] b.pending_mints@[j]).reply_id by {
            if j < pending0.len() {
                assert(b.pending_mints@[i] == pending0[i] && b.pending_mints@[j] == pending0[j]);
            } else {
                assert(b.pending_mints@[j].reply_id == reply_id);
                assert(b.pending_mints@[i] == pending0[i]);
            }
        }
    }
    t.bridge = Some(b);
    let msgs = vec![NativeMsg::MintNative { denom: denom_for_msg, amount: total, reply_id }];
    Ok((total, msgs))
}

/// Mints and forwards tokens to a list of recipients; an empty list is a
/// no-op.  Operator-only.
pub fn exec_tf_mint(t: &mut Token, caller: u64, recipients: Vec<(u64, u128)>) -> (r: Result<
    (u128, Vec<NativeMsg>),
    ContractError,
>)
    requires
        old(t).wf(),
    ensures
        final(t).wf(),
        r matches Err(e) ==> *final(t) == *old(t)
            && (e is Unauthorized <==> !old(t).is_operator(caller)),
        !old(t).is_operator(caller) ==> r is Err,
        (old(t).is_operator(caller) && recipients@.len() == 0) ==> (r matches Ok(p) && p.0 == 0
            && p.1@.len() == 0 && *final(t) == *old(t)),
        (old(t).bridge matches Some(b) && old(t).is_operator(caller) && recipients@.len() > 0
            && sum_amounts(recipients@) <= u128::MAX && b.amount_minted.value()
            + sum_amounts(recipients@) <= U256::max_value() && b.reply_id_counter < u64::MAX)
            ==> r is Ok,
        (r is Ok && recipients@.len() > 0) ==> (r matches Ok(p) && old(t).bridge is Some
            && final(t).bridge is Some && ({
            let b0 = old(t).bridge->0;
            let b1 = final(t).bridge->0;
            &&& p.0 == sum_amounts(recipients@)
            &&& b1.amount_minted.value() == b0.amount_minted.value() + sum_amounts(recipients@)
            &&& b1.reply_id_counter == b0.reply_id_counter + 1
            &&& b1.pending_mints@.len() == b0.pending_mints@.len() + 1
            &&& b1.pending_mints@.last().reply_id == b0.reply_id_counter
            &&& b1.pending_mints@.last().recipients@.len() == recipients@.len()
            &&& (forall|i: int|
                0 <= i < recipients@.len() ==> (#[trigger] b1.pending_mints@.last().recipients@[i])
                    == (MintParams {
                    address: recipients@[i].0,
                    amount: recipients@[i].1,
                }))
            &&& p.1@.len() == 1
            &&& (p.1@[0] matches NativeMsg::MintNative { denom, amount, reply_id } && denom@
                == b0.full_denom@ && amount == p.0 && reply_id == b0.reply_id_counter)
            &&& same_but_bridge(*old(t), *final(t))
        })),
{
    match ensure_operator(t, caller) {
        Ok(()) => {},
        Err(e) => {
            return Err(e);
        },
    }
    if recipients.len() == 0 {
        return Ok((0, Vec::new()));
    }
    mint_multiple(t, &recipients)
}

/// Settles one in-flight mint once the platform confirms it.  On success,
/// every recorded `(recipient, amount)` pair under the reply identifier
/// becomes one native transfer and the queue entry is discarded; on a
/// reported failure the failure is propagated, so the enclosing atomic unit
/// rolls the mint back; an unrecognized identifier is an authorization
/// error, defending against spoofed confirmations.
pub fn settle_mint(t: &mut Token, reply_id: u64, error: Option<String>) -> (r: Result<
    Vec<NativeMsg>,
    ContractError,
>)
    requires
        old(t).wf(),
    ensures
        final(t).wf(),
        r matches Err(e) ==> *final(t) == *old(t),
        (match old(t).bridge {
            None => true,
            Some(b) => !has_pending(b, reply_id),
        }) ==> (r matches Err(e) && e is Unauthorized),
        (old(t).bridge matches Some(b) && has_pending(b, reply_id) && error is Some) ==> (
        r matches Err(e) && e is Std),
        (old(t).bridge matches Some(b) && has_pending(b, reply_id) && error is None) ==> (
        r matches Ok(msgs) && final(t).bridge is Some && ({
            let b0 = old(t).bridge->0;
            let b1 = final(t).bridge->0;
            let idx = pending_index(b0, reply_id);
            let entry = b0.pending_mints@[idx];
            &&& b1.pending_mints@ == b0.pending_mints@.remove(idx)
            &&& b1.amount_minted == b0.amount_minted
            &&& b1.amount_burned == b0.amount_burned
            &&& b1.reply_id_counter == b0.reply_id_counter
            &&& b1.full_denom == b0.full_denom
            &&& b1.factory == b0.factory
            &&& b1.metadata == b0.metadata
            &&& msgs@.len() == entry.recipients@.len()
            &&& (forall|i: int|
                0 <= i < msgs@.len() ==> ((#[trigger] msgs@[i]) matches NativeMsg::SendNative {
                    to_address,
                    denom,
                    amount,
                } && to_address == entry.recipients@[i].address && denom@ == b0.full_denom@
                    && amount == entry.recipients@[i].amount))
            &&& same_but_bridge(*old(t), *final(t))
        })),
{
    let mut b = match t.bridge.take() {
        Some(b) => b,
        None => {
            return Err(
                ContractError::Unauthorized {
                    reason: String::from_str("unrecognized mint reply id"),
                },
            );
        },
    };
    let ghost b0 = b;

    // locate the settlement entry
    let n = b.pending_mints.len();
    let mut idx: usize = 0;
    let mut found = false;
    while idx < n && !found
        invariant
            old(t).wf(),
            t.bridge is None,
            Some(b) == old(t).bridge,
            b == b0,
            same_but_bridge(*old(t), *t),
            n == b.pending_mints@.len(),
            0 <= idx <= n,
            !found ==> forall|k: int|
                0 <= k < idx ==> (#[trigger] b.pending_mints@[k]).reply_id != reply_id,
            found ==> idx < n && b.pending_mints@[idx as int].reply_id == reply_id && forall|
                k: int,
            |
                0 <= k < idx ==> (#[trigger] b.pending_mints@[k]).reply_id != reply_id,
        decreases n - idx + (if found {
            0int
        } else {
            1int
        }),
    {
        if b.pending_mints[idx].reply_id == reply_id {
            found = true;
        } else {
            idx += 1;
        }
    }
    if !found {
        proof {
            assert(!has_pending(b0, reply_id));
        }
        t.bridge = Some(b);
        return Err(
            ContractError::Unauthorized { reason: String::from_str("unrecognized mint reply id") },
        );
    }
    proof {
        assert(has_pending(b0, reply_id));
        let j = pending_index(b0, reply_id);
        assert(0 <= j < b0.pending_mints@.len() && b0.pending_mints@[j].reply_id == reply_id);
        if j < idx {
            assert(b0.pending_mints@[j].reply_id != reply_id);
        }
        if idx < j {
            assert(b0.pending_mints@[idx as int].reply_id != b0.pending_mints@[j].reply_id);
        }
        assert(pending_index(b0, reply_id) == idx);
    }
    match error {
        Some(msg) => {
            t.bridge = Some(b);
            return Err(ContractError::Std { msg });
        },
        None => {},
    }
    let entry = b.pending_mints.remove(idx);
    proof {
        b0.pending_mints@.remove_ensures(idx as int);
        assert forall|i: int|
            0 <= i < b.pending_mints@.len() implies INITIAL_TF_MINT_REPLY_ID <= (
        #[trigger] b.pending_mints@[i]).reply_id < b.reply_id_counter by {
            if i < idx {
                assert(b.pending_mints@[i] == b0.pending_mints@[i]);
            } else {
                assert(b.pending_mints@[i] == b0.pending_mints@[i + 1]);
            }
        }
        assert forall|i: int, j: int|
            0 <= i < j < b.pending_mints@.len() implies (#[trigger] b.pending_mints@[i]).reply_id
            != (#[trigger] b.pending_mints@[j]).reply_id by {
            let i0 = if i < idx {
                i
            } else {
                i + 1
            };
            let j0 = if j < idx {
                j
            } else {
                j + 1
            };
            assert(b.pending_mints@[i] == b0.pending_mints@[i0]);
            assert(b.pending_mints@[j] == b0.pending_mints@[j0]);
        }
    }

    // one native transfer per recorded recipient
    let m = entry.recipients.len();
    let mut msgs: Vec<NativeMsg> = Vec::new();
    let mut k: usize = 0;
    proof {
        assert(b.wf());
    }
    while k < m
        invariant
            old(t).wf(),
            t.bridge is None,
            Some(b0) == old(t).bridge,
            same_but_bridge(*old(t), *t),
            b.wf(),
            0 <= idx < b0.pending_mints@.len(),
            pending_index(b0, reply_id) == idx,
            has_pending(b0, reply_id),
            entry == b0.pending_mints@[idx as int],
            b.pending_mints@ == b0.pending_mints@.remove(idx as int),
            b.amount_minted == b0.amount_minted,
            b.amount_burned == b0.amount_burned,
            b.reply_id_counter == b0.reply_id_counter,
            b.full_denom == b0.full_denom,
            b.factory == b0.factory,
            b.metadata == b0.metadata,
            m == entry.recipients@.len(),
            0 <= k <= m,
            msgs@.len() == k,
            forall|i: int|
                0 <= i < k ==> ((#[trigger] msgs@[i]) matches NativeMsg::SendNative {
                    to_address,
                    denom,
                    amount,
                } && to_address == entry.recipients@[i].address && denom@ == b.full_denom@
                    && amount == entry.recipients@[i].amount),
        decreases m - k,
    {
        let p = entry.recipients[k];
        msgs.push(
            NativeMsg::SendNative {
                to_address: p.address,
                denom: clone_string(&b.full_denom),
                amount: p.amount,
            },
        );
        k += 1;
    }
    t.bridge = Some(b);
    Ok(msgs)
}

/// Adds to the running burned total (checked) and issues a native burn for
/// the amount from the contract's own holdings.  Operator-only.
pub fn exec_tf_burn(t: &mut Token, caller: u64, amount: u128) -> (r: Result<
    Vec<NativeMsg>,
    ContractError,
>)
    requires
        old(t).wf(),
    ensures
        final(t).wf(),
        r matches Err(e) ==> *final(t) == *old(t)
            && (e is Unauthorized <==> !old(t).is_operator(caller)),
        (old(t).is_operator(caller) && old(t).bridge is None) ==> (r matches Err(e) && e is Std),
        (old(t).bridge matches Some(b) && old(t).is_operator(caller) && b.amount_burned.value()
            + amount <= U256::max_value()) ==> r is Ok,
        r matches Ok(msgs) ==> old(t).bridge is Some && final(t).bridge is Some && ({
            let b0 = old(t).bridge->0;
            let b1 = final(t).bridge->0;
            &&& b1.amount_burned.value() == b0.amount_burned.value() + amount
            &&& b1.amount_minted == b0.amount_minted
            &&& b1.reply_id_counter == b0.reply_id_counter
            &&& b1.pending_mints == b0.pending_mints
            &&& b1.full_denom == b0.full_denom
            &&& b1.factory == b0.factory
            &&& b1.metadata == b0.metadata
            &&& msgs@.len() == 1
            &&& (msgs@[0] matches NativeMsg::BurnNative { denom, amount: a } && denom@
                == b0.full_denom@ && a == amount)
            &&& same_but_bridge(*old(t), *final(t))
        }),
{
    match ensure_operator(t, caller) {
        Ok(()) => {},
        Err(e) => {
            return Err(e);
        },
    }
    let mut b = match t.bridge.take() {
        Some(b) => b,
        None => {
            return Err(
                ContractError::Std { msg: String::from_str("token factory not initialized") },
            );
        },
    };
    let burned = match add_u256(b.amount_burned, amount) {
        Ok(v) => v,
        Err(e) => {
            t.bridge = Some(b);
            return Err(e);
        },
    };
    b.amount_burned = burned;
    let denom = clone_string(&b.full_denom);
    t.bridge = Some(b);
    Ok(vec![NativeMsg::BurnNative { denom, amount }])
}

/// Initializes the bridge: derives a subdenom from the lowercased symbol,
/// builds the full denom as `factory/<contract-address>/<subdenom>`, picks
/// the backend from the chain identifier, persists zeroed totals and the
/// reply-id counter seeded at its reserved base, and emits the two ordered
/// platform operations — create-denom, then set-metadata.  Operator-only.
pub fn exec_token_factory_init(
    t: &mut Token,
    caller: u64,
    contract_addr: &str,
    chain_id: &str,
    token: TokenDescriptor,
) -> (r: Result<Vec<NativeMsg>, ContractError>)
    requires
        old(t).wf(),
    ensures
        final(t).wf(),
        r is Ok <==> old(t).is_operator(caller),
        r matches Err(e) ==> e is Unauthorized && *final(t) == *old(t),
        r matches Ok(msgs) ==> final(t).bridge is Some && ({
            let b = final(t).bridge->0;
            &&& b.factory == backend_of(chain_id@)
            &&& b.full_denom@ == "factory/"@ + contract_addr@ + "/"@ + lower_of(token.symbol@)
            &&& b.reply_id_counter == INITIAL_TF_MINT_REPLY_ID
            &&& b.amount_minted.value() == 0
            &&& b.amount_burned.value() == 0
            &&& b.pending_mints@.len() == 0
            &&& b.metadata.symbol@ == token.symbol@
            &&& b.metadata.decimals == token.decimals
            &&& b.metadata.name@ == (if trim_of(token.name@).len() == 0 {
                token.symbol@
            } else {
                token.name@
            })
            &&& b.metadata.description == token.description
            &&& b.metadata.uri == token.logo_url
            &&& msgs@.len() == 2
            &&& (msgs@[0] matches NativeMsg::CreateDenom { subdenom } && subdenom@ == lower_of(
                token.symbol@,
            ))
            &&& (msgs@[1] matches NativeMsg::SetDenomMetadata { metadata } && metadata.base@
                == b.full_denom@ && metadata.symbol@ == token.symbol@ && metadata.name@
                == b.metadata.name@)
            &&& same_but_bridge(*old(t), *final(t))
        }),
{
    match ensure_operator(t, caller) {
        Ok(()) => {},
        Err(e) => {
            return Err(e);
        },
    }

    // metadata parameters for the new denom; an all-whitespace display name
    // falls back to the symbol
    let name_trimmed = trimmed(token.name.as_str());
    let display_name = if name_trimmed.as_str().is_empty() {
        clone_string(&token.symbol)
    } else {
        token.name
    };
    let metadata = NewDenomMetadata {
        symbol: clone_string(&token.symbol),
        decimals: token.decimals,
        name: display_name,
        description: token.description,
        uri: token.logo_url,
    };

    // the full tokenfactory denom path
    let subdenom = lowercase(token.symbol.as_str());
    let mut full_denom = String::from_str("factory/");
    full_denom.append(contract_addr);
    full_denom.append("/");
    full_denom.append(subdenom.as_str());

    let factory = TokenFactoryType::from_chain_id(chain_id);
    let denom_metadata = metadata.to_token_factory_metadata(factory, &full_denom);
    t.bridge = Some(
        BridgeState {
            factory,
            full_denom,
            reply_id_counter: INITIAL_TF_MINT_REPLY_ID,
            metadata,
            amount_minted: U256::zero(),
            amount_burned: U256::zero(),
            pending_mints: Vec::new(),
        },
    );
    let mut msgs: Vec<NativeMsg> = Vec::new();
    msgs.push(NativeMsg::CreateDenom { subdenom });
    msgs.push(NativeMsg::SetDenomMetadata { metadata: denom_metadata });
    Ok(msgs)
}

/// Replaces the stored denom metadata and re-issues the platform's
/// set-metadata operation for it.  Operator-only.
pub fn exec_tf_set_metadata(t: &mut Token, caller: u64, metadata: NewDenomMetadata) -> (r: Result<
    Vec<NativeMsg>,
    ContractError,
>)
    requires
        old(t).wf(),
    ensures
        final(t).wf(),
        r matches Err(e) ==> *final(t) == *old(t)
            && (e is Unauthorized <==> !old(t).is_operator(caller))
            && (e is Std <==> old(t).is_operator(caller) && old(t).bridge is None),
        r is Ok <==> old(t).is_operator(caller) && old(t).bridge is Some,
        r matches Ok(msgs) ==> final(t).bridge is Some && ({
            let b0 = old(t).bridge->0;
            let b1 = final(t).bridge->0;
            &&& b1.metadata == metadata
            &&& b1.full_denom == b0.full_denom
            &&& b1.factory == b0.factory
            &&& b1.reply_id_counter == b0.reply_id_counter
            &&& b1.amount_minted == b0.amount_minted
            &&& b1.amount_burned == b0.amount_burned
            &&& b1.pending_mints == b0.pending_mints
            &&& msgs@.len() == 1
            &&& (msgs@[0] matches NativeMsg::SetDenomMetadata { metadata: md } && md.base@
                == b0.full_denom@ && md.symbol@ == metadata.symbol@ && md.name@
                == metadata.name@)
            &&& same_but_bridge(*old(t), *final(t))
        }),
{
    match ensure_operator(t, caller) {
        Ok(()) => {},
        Err(e) => {
            return Err(e);
        },
    }
    let mut b = match t.bridge.take() {
        Some(b) => b,
        None => {
            return Err(
                ContractError::Std { msg: String::from_str("token factory not initialized") },
            );
        },
    };
    let denom_metadata = metadata.to_token_factory_metadata(b.factory, &b.full_denom);
    b.metadata = metadata;
    t.bridge = Some(b);
    Ok(vec![NativeMsg::SetDenomMetadata { metadata: denom_metadata }])
}

/// Hands denom admin rights to the given address through the platform's
/// change-admin operation.  Operator-only.
pub fn exec_tf_set_admin(t: &mut Token, caller: u64, address: u64) -> (r: Result<
    Vec<NativeMsg>,
    ContractError,
>)
    requires
        old(t).wf(),
    ensures
        final(t).wf(),
        *final(t) == *old(t),
        r matches Err(e) ==> (e is Unauthorized <==> !old(t).is_operator(caller)) && (e is Std
            <==> old(t).is_operator(caller) && old(t).bridge is None),
        r is Ok <==> old(t).is_operator(caller) && old(t).bridge is Some,
        r matches Ok(msgs) ==> msgs@.len() == 1 && (msgs@[0] matches NativeMsg::ChangeAdmin {
            denom,
            new_admin,
        } && denom@ == (old(t).bridge->0).full_denom@ && new_admin == Some(address)),
{
    match ensure_operator(t, caller) {
        Ok(()) => {},
        Err(e) => {
            return Err(e);
        },
    }
    match &t.bridge {
        Some(b) => {
            let denom = clone_string(&b.full_denom);
            Ok(vec![NativeMsg::ChangeAdmin { denom, new_admin: Some(address) }])
        },
        None => Err(ContractError::Std { msg: String::from_str("token factory not initialized") }),
    }
}

/// Removes the denom admin by handing admin rights to the platform's
/// designated "no admin" sentinel.  Operator-only.
pub fn exec_tf_remove_admin(t: &mut Token, caller: u64) -> (r: Result<Vec<NativeMsg>, ContractError>)
    requires
        old(t).wf(),
    ensures
        final(t).wf(),
        *final(t) == *old(t),
        r matches Err(e) ==> (e is Unauthorized <==> !old(t).is_operator(caller)) && (e is Std
            <==> old(t).is_operator(caller) && old(t).bridge is None),
        r is Ok <==> old(t).is_operator(caller) && old(t).bridge is Some,
        r matches Ok(msgs) ==> msgs@.len() == 1 && (msgs@[0] matches NativeMsg::ChangeAdmin {
            denom,
            new_admin,
        } && denom@ == (old(t).bridge->0).full_denom@ && new_admin is None),
{
    match ensure_operator(t, caller) {
        Ok(()) => {},
        Err(e) => {
            return Err(e);
        },
    }
    match &t.bridge {
        Some(b) => {
            let denom = clone_string(&b.full_denom);
            Ok(vec![NativeMsg::ChangeAdmin { denom, new_admin: None }])
        },
        None => Err(ContractError::Std { msg: String::from_str("token factory not initialized") }),
    }
}

/// Custom business logic that fires before the base update-marketing
/// handler: when the bridge exists, the stored metadata's display name and
/// description are updated from the trimmed inputs (an all-whitespace
/// description clears the field) and one set-metadata operation re-derived
/// from the updated metadata is returned; without a bridge this is a no-op.
pub fn before_update_marketing(
    t: &mut Token,
    project: Option<String>,
    description: Option<String>,
) -> (r: Result<Option<NativeMsg>, ContractError>)
    requires
        old(t).wf(),
    ensures
        final(t).wf(),
        r is Ok,
        old(t).bridge is None ==> (r matches Ok(m) && m is None && *final(t) == *old(t)),
        old(t).bridge matches Some(b0) ==> final(t).bridge is Some && ({
            let b1 = final(t).bridge->0;
            &&& (match project {
                Some(p) => b1.metadata.name@ == trim_of(p@),
                None => b1.metadata.name == b0.metadata.name,
            })
            &&& (match description {
                Some(d) => (if trim_of(d@).len() == 0 {
                    b1.metadata.description is None
                } else {
                    b1.metadata.description matches Some(s) && s@ == trim_of(d@)
                }),
                None => b1.metadata.description == b0.metadata.description,
            })
            &&& b1.metadata.symbol == b0.metadata.symbol
            &&& b1.metadata.decimals == b0.metadata.decimals
            &&& b1.metadata.uri == b0.metadata.uri
            &&& b1.full_denom == b0.full_denom
            &&& b1.factory == b0.factory
            &&& b1.reply_id_counter == b0.reply_id_counter
            &&& b1.amount_minted == b0.amount_minted
            &&& b1.amount_burned == b0.amount_burned
            &&& b1.pending_mints == b0.pending_mints
            &&& (r matches Ok(m) && m matches Some(msg) && (msg matches
            NativeMsg::SetDenomMetadata { metadata: md } && md.base@ == b0.full_denom@
                && md.symbol@ == b1.metadata.symbol@ && md.name@ == b1.metadata.name@))
            &&& same_but_bridge(*old(t), *final(t))
        }),
{
    let mut b = match t.bridge.take() {
        Some(b) => b,
        None => {
            return Ok(None);
        },
    };
    match project {
        Some(p) => {
            b.metadata.name = trimmed(p.as_str());
        },
        None => {},
    }
    match description {
        Some(d) => {
            let desc = trimmed(d.as_str());
            if desc.as_str().is_empty() {
                b.metadata.description = None;
            } else {
                b.metadata.description = Some(desc);
            }
        },
        None => {},
    }
    let denom_metadata = b.metadata.to_token_factory_metadata(b.factory, &b.full_denom);
    t.bridge = Some(b);
    Ok(Some(NativeMsg::SetDenomMetadata { metadata: denom_metadata }))
}

/// Custom business logic that fires before the base upload-logo handler:
/// when the bridge exists and the logo is a URL, the stored metadata's uri
/// is updated and one set-metadata operation re-derived from the updated
/// metadata is returned; anything else is a no-op.
pub fn before_upload_logo(t: &mut Token, logo: &Logo) -> (r: Result<
    Option<NativeMsg>,
    ContractError,
>)
    requires
        old(t).wf(),
    ensures
        final(t).wf(),
        r is Ok,
        old(t).bridge is None ==> (r matches Ok(m) && m is None && *final(t) == *old(t)),
        !(logo is Url) ==> (r matches Ok(m) && m is None && *final(t) == *old(t)),
        old(t).bridge matches Some(b0) ==> (logo matches Logo::Url(url) ==> final(t).bridge
            is Some && ({
            let b1 = final(t).bridge->0;
            &&& b1.metadata.uri matches Some(u) && u@ == url@
            &&& b1.metadata.symbol == b0.metadata.symbol
            &&& b1.metadata.decimals == b0.metadata.decimals
            &&& b1.metadata.name == b0.metadata.name
            &&& b1.metadata.description == b0.metadata.description
            &&& b1.full_denom == b0.full_denom
            &&& b1.factory == b0.factory
            &&& b1.reply_id_counter == b0.reply_id_counter
            &&& b1.amount_minted == b0.amount_minted
            &&& b1.amount_burned == b0.amount_burned
            &&& b1.pending_mints == b0.pending_mints
            &&& (r matches Ok(m) && m matches Some(msg) && (msg matches
            NativeMsg::SetDenomMetadata { metadata: md } && md.base@ == b0.full_denom@
                && md.uri@ == url@))
            &&& same_but_bridge(*old(t), *final(t))
        })),
{
    match logo {
        Logo::Url(url) => {
            let mut b = match t.bridge.take() {
                Some(b) => b,
                None => {
                    return Ok(None);
                },
            };
            b.metadata.uri = Some(clone_string(url));
            let denom_metadata = b.metadata.to_token_factory_metadata(b.factory, &b.full_denom);
            t.bridge = Some(b);
            Ok(Some(NativeMsg::SetDenomMetadata { metadata: denom_metadata }))
        },
        _ => Ok(None),
    }
}

} // verus!
