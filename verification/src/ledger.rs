//! The asset ledger: slots, tokens with fungible balances nested in
//! non-fungible records, ownership indexes and value allowances.
//!
//! The ledger state is one explicit record.  Token ids are handed out
//! by a generator that starts at 1 and never reuses or decrements, so
//! the token catalog is dense: the token with id `i` sits at position
//! `i - 1` of `tokens`, which makes the id-to-position index table
//! implicit and always correct.

use vstd::prelude::*;

use crate::types::{Address, Bytes32, Error};

verus! {

/// One remaining value allowance: how much `operator` may still move
/// out of the token that holds this entry.
pub struct Allowance {
    pub operator: Address,
    pub value: u128,
}

/// A non-fungible token record holding a fungible balance.
pub struct TokenData {
    /// Sequential id, starting at 1.
    pub id: u128,
    /// The slot this token belongs to; value moves only inside a slot.
    pub slot: u128,
    /// The fungible value held by this token.
    pub balance: u128,
    /// The current owner.
    pub owner: Address,
    /// Whole-token approved operator, cleared on ownership transfer.
    pub approved: Option<Address>,
    /// Addresses ever approved to spend value from this token.  An
    /// address stays a member even after its allowance is exhausted.
    pub value_approvals: Vec<Address>,
    /// Remaining value allowance per operator.  Ownership transfer
    /// does not clear these entries; only a new `approve` overwrites
    /// them.
    pub allowances: Vec<Allowance>,
}

/// A slot: a named grouping of tokens whose values are interchangeable.
pub struct SlotData {
    pub slot: u128,
    pub slot_name: String,
    /// Placeholder for a future dividend extension; always 0 for now.
    pub dividend_rate: u128,
    /// The ids of the tokens minted into this slot, in creation order.
    pub slot_tokens: Vec<u128>,
}

/// The ownership index entry of one address: the ids it owns, ordered.
pub struct OwnedTokens {
    pub owner: Address,
    pub token_ids: Vec<u128>,
}

/// The complete state of one asset-ledger contract instance.
#[allow(non_camel_case_types)]
pub struct ctm_rwa001 {
    /// Classification: which ledger implementation this instance is.
    pub rwa_type: u32,
    pub version: u32,
    /// The admin; `None` until `initialize` has run.
    pub token_admin: Option<Address>,
    /// The 32-byte global asset identifier of this series.
    pub rwa_id: Bytes32,
    pub token_name: String,
    pub symbol: String,
    pub decimals: u32,
    pub base_uri: String,
    /// The next token id to hand out; always one more than the highest
    /// id ever minted.
    pub token_id_generator: u128,
    /// Every token ever created, in creation order; the token with id
    /// `i` is at position `i - 1`.  Tokens are never deleted.
    pub tokens: Vec<TokenData>,
    /// Every slot ever created, in creation order.  Never deleted.
    pub slots: Vec<SlotData>,
    /// Per-address ownership index.
    pub owned_tokens: Vec<OwnedTokens>,
}

impl TokenData {
    /// Whether `operator` holds an allowance entry on this token.
    pub open spec fn has_allowance(&self, operator: Address) -> bool {
        exists|i: int|
            0 <= i < self.allowances@.len() && (#[trigger] self.allowances@[i]).operator
                == operator
    }

    /// The index of `operator`'s allowance entry.
    pub open spec fn allowance_idx(&self, operator: Address) -> int {
        choose|i: int|
            0 <= i < self.allowances@.len() && (#[trigger] self.allowances@[i]).operator
                == operator
    }

    /// The value `operator` may still move out of this token; an
    /// operator with no entry has allowance 0.
    pub open spec fn spec_allowance(&self, operator: Address) -> u128 {
        if self.has_allowance(operator) {
            self.allowances@[self.allowance_idx(operator)].value
        } else {
            0
        }
    }

    /// Allowance operators are unique and approval members distinct.
    pub open spec fn approvals_wf(&self) -> bool {
        &&& forall|k: int, l: int|
            0 <= k < l < self.value_approvals@.len() ==> #[trigger] self.value_approvals@[k]
                != #[trigger] self.value_approvals@[l]
        &&& forall|k: int, l: int|
            0 <= k < l < self.allowances@.len() ==> (#[trigger] self.allowances@[k]).operator != (
            #[trigger] self.allowances@[l]).operator
    }

    /// With unique operators, a position holding `operator` is the
    /// position the allowance lookup refers to.
    proof fn lemma_allowance_idx_is(&self, k: int, operator: Address)
        requires
            self.approvals_wf(),
            0 <= k < self.allowances@.len(),
            self.allowances@[k].operator == operator,
        ensures
            self.has_allowance(operator),
            self.allowance_idx(operator) == k,
    {
        assert(self.has_allowance(operator));
        let j = self.allowance_idx(operator);
        assert(0 <= j < self.allowances@.len() && self.allowances@[j].operator == operator);
        if j != k {
            if j < k {
                assert(self.allowances@[j].operator != self.allowances@[k].operator);
            } else {
                assert(self.allowances@[k].operator != self.allowances@[j].operator);
            }
        }
    }

    /// Whether `a` is a member of the value-approval set.
    fn contains_approval(&self, a: Address) -> (r: bool)
        ensures
            r == self.value_approvals@.contains(a),
    {
        let n = self.value_approvals.len();
        let mut i: usize = 0;
        while i < n
            invariant
                n == self.value_approvals@.len(),
                0 <= i <= n,
                forall|j: int| 0 <= j < i ==> self.value_approvals@[j] != a,
            decreases n - i,
        {
            if self.value_approvals[i] == a {
                assert(self.value_approvals@[i as int] == a);
                return true;
            }
            i = i + 1;
        }
        false
    }

    /// The position of `operator`'s allowance entry, if any.
    fn find_allowance(&self, operator: Address) -> (r: Option<usize>)
        requires
            self.approvals_wf(),
        ensures
            match r {
                Some(i) => {
                    &&& i < self.allowances@.len()
                    &&& self.allowances@[i as int].operator == operator
                    &&& self.has_allowance(operator)
                    &&& self.allowance_idx(operator) == i
                },
                None => !self.has_allowance(operator),
            },
    {
        let n = self.allowances.len();
        let mut i: usize = 0;
        while i < n
            invariant
                n == self.allowances@.len(),
                0 <= i <= n,
                self.approvals_wf(),
                forall|j: int| 0 <= j < i ==> (#[trigger] self.allowances@[j]).operator != operator,
            decreases n - i,
        {
            if self.allowances[i].operator == operator {
                proof {
                    self.lemma_allowance_idx_is(i as int, operator);
                }
                return Some(i);
            }
            i = i + 1;
        }
        None
    }

    /// The remaining allowance of `operator`, 0 when it has no entry.
    pub fn allowance_of(&self, operator: Address) -> (r: u128)
        requires
            self.approvals_wf(),
        ensures
            r == self.spec_allowance(operator),
    {
        match self.find_allowance(operator) {
            Some(i) => self.allowances[i].value,
            None => 0,
        }
    }
}

/// Law: the token-id generator always reads one more than the highest
/// id ever minted; every positive id below it names a minted token and
/// every minted token's id is below it, so ids are never reused,
/// skipped or decremented.
pub proof fn lemma_generator_one_past_max(l: ctm_rwa001)
    requires
        l.wf(),
    ensures
        forall|i: int|
            0 <= i < l.tokens@.len() ==> (#[trigger] l.tokens@[i]).id < l.token_id_generator,
        l.tokens@.len() > 0 ==> l.tokens@.last().id + 1 == l.token_id_generator,
        forall|id: u128| 1 <= id < l.token_id_generator ==> l.spec_has_token(id),
{
}

/// Law: the token with id `i` sits at position `i - 1` of the token
/// catalog.  Ids are handed out densely from 1, so recording a
/// token's catalog position as its id minus one is always correct,
/// and the id-to-position table needs no storage of its own.
pub proof fn lemma_token_index_correct(l: ctm_rwa001, token_id: u128)
    requires
        l.wf(),
        l.spec_has_token(token_id),
    ensures
        l.tokens@[token_id as int - 1].id == token_id,
        forall|i: int|
            0 <= i < l.tokens@.len() && (#[trigger] l.tokens@[i]).id == token_id ==> i
                == token_id - 1,
{
}

/// What one token contributes to a slot's total value.
pub open spec fn slot_contrib(t: TokenData, slot: u128) -> int {
    if t.slot == slot {
        t.balance as int
    } else {
        0
    }
}

/// The total fungible value held inside one slot.
pub open spec fn slot_balance_sum(s: Seq<TokenData>, slot: u128) -> int
    decreases s.len(),
{
    if s.len() == 0 {
        0
    } else {
        slot_balance_sum(s.drop_last(), slot) + slot_contrib(s.last(), slot)
    }
}

/// Replacing one record moves a slot's total by the difference of the
/// record's contributions.
proof fn lemma_sum_update(s: Seq<TokenData>, i: int, x: TokenData, slot: u128)
    requires
        0 <= i < s.len(),
    ensures
        slot_balance_sum(s.update(i, x), slot) == slot_balance_sum(s, slot) - slot_contrib(
            s[i],
            slot,
        ) + slot_contrib(x, slot),
    decreases s.len(),
{
    if i == s.len() - 1 {
        assert(s.update(i, x).drop_last() =~= s.drop_last());
        assert(s.update(i, x).last() == x);
    } else {
        assert(s.update(i, x).drop_last() =~= s.drop_last().update(i, x));
        assert(s.update(i, x).last() == s.last());
        lemma_sum_update(s.drop_last(), i, x, slot);
    }
}

/// Law: a successful value transfer conserves the total balance of
/// every slot.  The two affected records keep their slots and change
/// their balances by the same amount in opposite directions (or, for
/// a self-transfer, not at all), exactly as `transfer_from` ensures,
/// and every other record is untouched — so each slot's sum is
/// unchanged.
pub proof fn lemma_transfer_conserves_slot_sums(
    pre: Seq<TokenData>,
    post: Seq<TokenData>,
    from_idx: int,
    to_idx: int,
    value: u128,
    slot: u128,
)
    requires
        post.len() == pre.len(),
        0 <= from_idx < pre.len(),
        0 <= to_idx < pre.len(),
        forall|i: int|
            0 <= i < pre.len() && i != from_idx && i != to_idx ==> #[trigger] post[i] == pre[i],
        post[from_idx].slot == pre[from_idx].slot,
        post[to_idx].slot == pre[to_idx].slot,
        from_idx != to_idx ==> {
            &&& post[from_idx].balance == pre[from_idx].balance - value
            &&& post[to_idx].balance == pre[to_idx].balance + value
            &&& pre[from_idx].slot == pre[to_idx].slot
        },
        from_idx == to_idx ==> post[from_idx].balance == pre[from_idx].balance,
    ensures
        slot_balance_sum(post, slot) == slot_balance_sum(pre, slot),
{
    if from_idx == to_idx {
        assert(post =~= pre.update(from_idx, post[from_idx]));
        lemma_sum_update(pre, from_idx, post[from_idx], slot);
    } else {
        let mid = pre.update(from_idx, post[from_idx]);
        assert(post =~= mid.update(to_idx, post[to_idx]));
        lemma_sum_update(pre, from_idx, post[from_idx], slot);
        lemma_sum_update(mid, to_idx, post[to_idx], slot);
        assert(mid[to_idx] == pre[to_idx]);
    }
}

/// `x` occurs at no more than one position of `s`.
pub open spec fn appears_at_most_once(s: Seq<u128>, x: u128) -> bool {
    forall|k: int, j: int|
        0 <= k < j < s.len() ==> !((#[trigger] s[k]) == x && (#[trigger] s[j]) == x)
}

/// Law: every minted token is listed exactly once in the ownership
/// index — once in its current owner's list, and in no other
/// address's list.
pub proof fn lemma_ownership_partition(l: ctm_rwa001, token_id: u128)
    requires
        l.wf(),
        l.spec_has_token(token_id),
    ensures
        l.owned_list(l.spec_token(token_id).owner).contains(token_id),
        appears_at_most_once(l.owned_list(l.spec_token(token_id).owner), token_id),
        forall|a: Address|
            a != l.spec_token(token_id).owner ==> !(#[trigger] l.owned_list(a)).contains(token_id),
{
    let owner = l.spec_token(token_id).owner;
    let i = token_id as int - 1;
    assert(l.owned_list((l.tokens@[i]).owner).contains((i + 1) as u128));
    assert(l.has_owned_entry(owner)) by {
        if !l.has_owned_entry(owner) {
            assert(l.owned_list(owner) =~= Seq::<u128>::empty());
        }
    };
    let e = l.owned_entry_idx(owner);
    assert(0 <= e < l.owned_tokens@.len() && l.owned_tokens@[e].owner == owner);
    let lst = l.owned_list(owner);
    assert(lst == l.owned_tokens@[e].token_ids@);
    assert forall|k: int, j: int| 0 <= k < j < lst.len() implies !((#[trigger] lst[k]) == token_id
        && (#[trigger] lst[j]) == token_id) by {
        assert(l.owned_tokens@[e].token_ids@[k] != l.owned_tokens@[e].token_ids@[j]);
    };
    assert forall|a: Address| a != owner implies !(#[trigger] l.owned_list(a)).contains(
        token_id,
    ) by {
        if l.owned_list(a).contains(token_id) {
            assert(l.has_owned_entry(a)) by {
                if !l.has_owned_entry(a) {
                    assert(l.owned_list(a) =~= Seq::<u128>::empty());
                }
            };
            let j = l.owned_entry_idx(a);
            assert(l.owned_tokens@[j].owner == a);
            let y = choose|y: int|
                0 <= y < l.owned_list(a).len() && l.owned_list(a)[y] == token_id;
            assert(l.owned_tokens@[j].token_ids@[y] == token_id);
            assert(l.spec_token(token_id).owner == l.owned_tokens@[j].owner);
        }
    };
}

/// The first position of `x` in `ids`, which must contain it.
fn position_of(ids: &Vec<u128>, x: u128) -> (k: usize)
    requires
        ids@.contains(x),
    ensures
        k < ids@.len(),
        ids@[k as int] == x,
        forall|j: int| 0 <= j < k ==> ids@[j] != x,
{
    let n = ids.len();
    let mut i: usize = 0;
    while i < n
        invariant
            n == ids@.len(),
            0 <= i <= n,
            ids@.contains(x),
            forall|j: int| 0 <= j < i ==> ids@[j] != x,
        decreases n - i,
    {
        if ids[i] == x {
            return i;
        }
        i = i + 1;
    }
    proof {
        let w = choose|w: int| 0 <= w < ids@.len() && ids@[w] == x;
        assert(false);
    }
    vstd::pervasive::unreached()
}

impl ctm_rwa001 {
    /// Whether `initialize` has run.
    pub open spec fn is_initialized(&self) -> bool {
        self.token_admin is Some
    }

    /// Whether a token with this id has been minted.
    pub open spec fn spec_has_token(&self, token_id: u128) -> bool {
        1 <= token_id <= self.tokens@.len()
    }

    /// The record of the token with this id.
    pub open spec fn spec_token(&self, token_id: u128) -> TokenData {
        self.tokens@[token_id as int - 1]
    }

    /// Whether a slot with this id has been created.
    pub open spec fn spec_slot_exists(&self, slot: u128) -> bool {
        exists|i: int|
            0 <= i < self.slots@.len() && (#[trigger] self.slots@[i]).slot == slot
    }

    /// The position of the slot with this id in the slot catalog.
    pub open spec fn slot_idx(&self, slot: u128) -> int {
        choose|i: int|
            0 <= i < self.slots@.len() && (#[trigger] self.slots@[i]).slot == slot
    }

    /// The record of the slot with this id.
    pub open spec fn spec_slot(&self, slot: u128) -> SlotData {
        self.slots@[self.slot_idx(slot)]
    }

    /// Whether `owner` has an ownership-index entry.
    pub open spec fn has_owned_entry(&self, owner: Address) -> bool {
        exists|i: int|
            0 <= i < self.owned_tokens@.len() && (#[trigger] self.owned_tokens@[i]).owner == owner
    }

    /// The position of `owner`'s entry in the ownership index.
    pub open spec fn owned_entry_idx(&self, owner: Address) -> int {
        choose|i: int|
            0 <= i < self.owned_tokens@.len() && (#[trigger] self.owned_tokens@[i]).owner == owner
    }

    /// The ids owned by `owner`, in the order they were received; an
    /// address that never owned a token has the empty list.
    pub open spec fn owned_list(&self, owner: Address) -> Seq<u128> {
        if self.has_owned_entry(owner) {
            self.owned_tokens@[self.owned_entry_idx(owner)].token_ids@
        } else {
            Seq::empty()
        }
    }

    /// Token catalog invariants: the generator is one past the highest
    /// id, ids are dense in creation order, every token's slot exists,
    /// and each token's approval bookkeeping is well formed.
    pub open spec fn tokens_wf(&self) -> bool {
        &&& self.token_id_generator == self.tokens@.len() + 1
        &&& forall|i: int|
            0 <= i < self.tokens@.len() ==> (#[trigger] self.tokens@[i]).id == i + 1
        &&& forall|i: int|
            0 <= i < self.tokens@.len() ==> self.spec_slot_exists(
                (#[trigger] self.tokens@[i]).slot,
            )
        &&& forall|i: int|
            0 <= i < self.tokens@.len() ==> (#[trigger] self.tokens@[i]).approvals_wf()
    }

    /// Slot catalog invariants: slot ids are unique, and each slot's
    /// token list holds exactly the distinct ids minted into it.
    pub open spec fn slots_wf(&self) -> bool {
        &&& self.slot_ids_unique()
        &&& forall|j: int, k: int|
            0 <= j < self.slots@.len() && 0 <= k < (#[trigger] self.slots@[j]).slot_tokens@.len()
                ==> self.spec_has_token(#[trigger] self.slots@[j].slot_tokens@[k])
                && self.spec_token(self.slots@[j].slot_tokens@[k]).slot == self.slots@[j].slot
        &&& forall|j: int, k: int, l: int|
            0 <= j < self.slots@.len() && 0 <= k < l < (
            #[trigger] self.slots@[j]).slot_tokens@.len() ==> #[trigger] self.slots@[j].slot_tokens@[k]
                != #[trigger] self.slots@[j].slot_tokens@[l]
        &&& forall|i: int|
            0 <= i < self.tokens@.len() ==> self.spec_slot(
                (#[trigger] self.tokens@[i]).slot,
            ).slot_tokens@.contains((i + 1) as u128)
    }

    /// Ownership index invariants: owner keys are unique, every listed
    /// id is a token currently owned by that address, no id is listed
    /// twice, and every token is listed under its owner.
    pub open spec fn owned_wf(&self) -> bool {
        &&& self.owner_keys_unique()
        &&& forall|i: int, k: int|
            0 <= i < self.owned_tokens@.len() && 0 <= k < (
            #[trigger] self.owned_tokens@[i]).token_ids@.len() ==> self.spec_has_token(
                #[trigger] self.owned_tokens@[i].token_ids@[k],
            ) && self.spec_token(self.owned_tokens@[i].token_ids@[k]).owner
                == self.owned_tokens@[i].owner
        &&& forall|i: int, k: int, l: int|
            0 <= i < self.owned_tokens@.len() && 0 <= k < l < (
            #[trigger] self.owned_tokens@[i]).token_ids@.len()
                ==> #[trigger] self.owned_tokens@[i].token_ids@[k]
                != #[trigger] self.owned_tokens@[i].token_ids@[l]
        &&& forall|i: int|
            0 <= i < self.tokens@.len() ==> self.owned_list(
                (#[trigger] self.tokens@[i]).owner,
            ).contains((i + 1) as u128)
    }

    /// The ledger's accounting invariant; established by the
    /// constructor and preserved by every operation.
    pub open spec fn wf(&self) -> bool {
        &&& self.tokens_wf()
        &&& self.slots_wf()
        &&& self.owned_wf()
    }

    /// The contract metadata of `a` and `b` agree; used to state that
    /// record operations leave the configuration untouched.
    pub open spec fn same_config(a: ctm_rwa001, b: ctm_rwa001) -> bool {
        &&& a.rwa_type == b.rwa_type
        &&& a.version == b.version
        &&& a.token_admin == b.token_admin
        &&& a.rwa_id == b.rwa_id
        &&& a.token_name == b.token_name
        &&& a.symbol == b.symbol
        &&& a.decimals == b.decimals
        &&& a.base_uri == b.base_uri
    }

    /// A blank, uninitialized ledger: empty catalogs, generator at 1.
    pub fn new() -> (r: ctm_rwa001)
        ensures
            r.wf(),
            !r.is_initialized(),
            r.tokens@.len() == 0,
            r.slots@.len() == 0,
            r.owned_tokens@.len() == 0,
            r.token_id_generator == 1,
    {
        ctm_rwa001 {
            rwa_type: 0,
            version: 0,
            token_admin: None,
            rwa_id: Bytes32 { hi: 0, lo: 0 },
            token_name: String::new(),
            symbol: String::new(),
            decimals: 0,
            base_uri: String::new(),
            token_id_generator: 1,
            tokens: Vec::new(),
            slots: Vec::new(),
            owned_tokens: Vec::new(),
        }
    }

    /// One-time setup of the contract metadata.  Fails with
    /// `AlreadyInitialized` exactly when an admin is already stored;
    /// a failing call changes nothing.
    pub fn initialize(
        &mut self,
        rwa_type: u32,
        version: u32,
        token_admin: Address,
        token_name: String,
        symbol: String,
        decimals: u32,
        base_uri: String,
        rwa_id: Bytes32,
    ) -> (r: Result<(), Error>)
        requires
            old(self).wf(),
        ensures
            final(self).wf(),
            r == (if old(self).is_initialized() {
                Err::<(), Error>(Error::AlreadyInitialized)
            } else {
                Ok::<(), Error>(())
            }),
            r is Err ==> *final(self) == *old(self),
            r is Ok ==> {
                &&& final(self).rwa_type == rwa_type
                &&& final(self).version == version
                &&& final(self).token_admin == Some(token_admin)
                &&& final(self).rwa_id == rwa_id
                &&& final(self).token_name == token_name
                &&& final(self).symbol == symbol
                &&& final(self).decimals == decimals
                &&& final(self).base_uri == base_uri
                &&& final(self).token_id_generator == 1
                &&& final(self).tokens@.len() == 0
                &&& final(self).slots@.len() == 0
                &&& final(self).owned_tokens@.len() == 0
            },
    {
        if self.token_admin.is_some() {
            return Err(Error::AlreadyInitialized);
        }
        self.rwa_type = rwa_type;
        self.version = version;
        self.token_admin = Some(token_admin);
        self.rwa_id = rwa_id;
        self.token_name = token_name;
        self.symbol = symbol;
        self.decimals = decimals;
        self.base_uri = base_uri;
        self.token_id_generator = 1;
        self.tokens = Vec::new();
        self.slots = Vec::new();
        self.owned_tokens = Vec::new();
        Ok(())
    }

    /// Whether `caller` is the stored admin; false when uninitialized.
    fn is_admin(&self, caller: Address) -> (r: bool)
        ensures
            r == (self.token_admin == Some(caller)),
    {
        match self.token_admin {
            Some(a) => a == caller,
            None => false,
        }
    }

    /// Create a new, empty slot.  Only the admin may create slots;
    /// fails `SlotExists` when the id is already taken.  A failing
    /// call changes nothing.
    pub fn create_slot(&mut self, caller: Address, slot: u128, slot_name: String) -> (r: Result<
        (),
        Error,
    >)
        requires
            old(self).wf(),
        ensures
            final(self).wf(),
            r == (if old(self).token_admin != Some(caller) {
                Err::<(), Error>(Error::Unauthorized)
            } else if old(self).spec_slot_exists(slot) {
                Err::<(), Error>(Error::SlotExists)
            } else {
                Ok::<(), Error>(())
            }),
            r is Err ==> *final(self) == *old(self),
            r is Ok ==> {
                &&& final(self).slots@.len() == old(self).slots@.len() + 1
                &&& final(self).slots@.subrange(0, old(self).slots@.len() as int) == old(
                    self,
                ).slots@
                &&& final(self).spec_slot_exists(slot)
                &&& final(self).spec_slot(slot).slot == slot
                &&& final(self).spec_slot(slot).slot_name == slot_name
                &&& final(self).spec_slot(slot).dividend_rate == 0
                &&& final(self).spec_slot(slot).slot_tokens@.len() == 0
                &&& final(self).tokens@ == old(self).tokens@
                &&& final(self).owned_tokens@ == old(self).owned_tokens@
                &&& final(self).token_id_generator == old(self).token_id_generator
                &&& Self::same_config(*final(self), *old(self))
            },
    {
        if !self.is_admin(caller) {
            return Err(Error::Unauthorized);
        }
        if self.slot_exists(slot) {
            return Err(Error::SlotExists);
        }
        let ghost pre = *self;
        let slot_data = SlotData { slot, slot_name, dividend_rate: 0, slot_tokens: Vec::new() };
        self.slots.push(slot_data);
        proof {
            self.lemma_slot_idx_is(pre.slots@.len() as int, slot);
            assert(self.slots@.subrange(0, pre.slots@.len() as int) =~= pre.slots@);
            // every token's slot still exists, at the same position
            assert forall|i: int| 0 <= i < self.tokens@.len() implies self.spec_slot_exists(
                (#[trigger] self.tokens@[i]).slot,
            ) && self.spec_slot(self.tokens@[i].slot).slot_tokens@.contains((i + 1) as u128) by {
                let s = self.tokens@[i].slot;
                assert(pre.spec_slot_exists(s));
                let j = pre.slot_idx(s);
                assert(pre.slots@[j].slot == s);
                assert(self.slots@[j] == pre.slots@[j]);
                self.lemma_slot_idx_is(j, s);
                assert(pre.spec_slot(s).slot_tokens@.contains((i + 1) as u128));
            };
        }
        Ok(())
    }

    /// The position of the slot with this id, if any.
    fn find_slot_index(&self, slot: u128) -> (r: Option<usize>)
        requires
            self.slot_ids_unique(),
        ensures
            match r {
                Some(i) => {
                    &&& i < self.slots@.len()
                    &&& self.slots@[i as int].slot == slot
                    &&& self.spec_slot_exists(slot)
                    &&& self.slot_idx(slot) == i
                },
                None => !self.spec_slot_exists(slot),
            },
    {
        let n = self.slots.len();
        let mut i: usize = 0;
        while i < n
            invariant
                n == self.slots@.len(),
                0 <= i <= n,
                self.slot_ids_unique(),
                forall|j: int| 0 <= j < i ==> (#[trigger] self.slots@[j]).slot != slot,
            decreases n - i,
        {
            if self.slots[i].slot == slot {
                proof {
                    self.lemma_slot_idx_is(i as int, slot);
                }
                return Some(i);
            }
            i = i + 1;
        }
        None
    }

    /// The position of `owner`'s ownership-index entry, if any.
    fn find_owned_index(&self, owner: Address) -> (r: Option<usize>)
        requires
            self.owner_keys_unique(),
        ensures
            match r {
                Some(i) => {
                    &&& i < self.owned_tokens@.len()
                    &&& self.owned_tokens@[i as int].owner == owner
                    &&& self.has_owned_entry(owner)
                    &&& self.owned_entry_idx(owner) == i
                },
                None => !self.has_owned_entry(owner),
            },
    {
        let n = self.owned_tokens.len();
        let mut i: usize = 0;
        while i < n
            invariant
                n == self.owned_tokens@.len(),
                0 <= i <= n,
                self.owner_keys_unique(),
                forall|j: int| 0 <= j < i ==> (#[trigger] self.owned_tokens@[j]).owner != owner,
            decreases n - i,
        {
            if self.owned_tokens[i].owner == owner {
                proof {
                    self.lemma_owned_idx_is(i as int, owner);
                }
                return Some(i);
            }
            i = i + 1;
        }
        None
    }

    /// The result `mint` is obliged to return for these inputs.
    pub open spec fn spec_mint_outcome(
        &self,
        caller: Address,
        to_authorized: bool,
        slot: u128,
    ) -> Result<u128, Error> {
        if self.token_admin != Some(caller) {
            Err(Error::Unauthorized)
        } else if !to_authorized {
            Err(Error::Unauthorized)
        } else if !self.spec_slot_exists(slot) {
            Err(Error::SlotNotFound)
        } else {
            Ok(self.token_id_generator)
        }
    }

    /// Mint a new token with balance `value` into `slot` for `to`.
    ///
    /// Only the admin may mint, and the recipient must have authorized
    /// receipt (`to_authorized` is the outcome of the host's
    /// authorization proof for `to`).  The new token takes the next id
    /// from the generator; it is appended to the token catalog, to the
    /// recipient's ownership index and to the slot's token list.  A
    /// failing call changes nothing.
    pub fn mint(
        &mut self,
        caller: Address,
        to: Address,
        to_authorized: bool,
        slot: u128,
        _slot_name: String,
        value: u128,
    ) -> (r: Result<u128, Error>)
        requires
            old(self).wf(),
        ensures
            final(self).wf(),
            r == old(self).spec_mint_outcome(caller, to_authorized, slot),
            r is Err ==> *final(self) == *old(self),
            r is Ok ==> {
                let id = old(self).token_id_generator;
                &&& final(self).token_id_generator == old(self).token_id_generator + 1
                &&& final(self).tokens@.len() == old(self).tokens@.len() + 1
                &&& final(self).tokens@.subrange(0, old(self).tokens@.len() as int) == old(
                    self,
                ).tokens@
                &&& final(self).spec_has_token(id)
                &&& final(self).spec_token(id).id == id
                &&& final(self).spec_token(id).slot == slot
                &&& final(self).spec_token(id).balance == value
                &&& final(self).spec_token(id).owner == to
                &&& final(self).spec_token(id).approved is None
                &&& final(self).spec_token(id).value_approvals@.len() == 0
                &&& final(self).spec_token(id).allowances@.len() == 0
                &&& final(self).owned_list(to) == old(self).owned_list(to).push(id)
                &&& forall|a: Address|
                    a != to ==> #[trigger] final(self).owned_list(a) == old(self).owned_list(a)
                &&& final(self).slots@.len() == old(self).slots@.len()
                &&& final(self).spec_slot(slot).slot == slot
                &&& final(self).spec_slot(slot).slot_name == old(self).spec_slot(slot).slot_name
                &&& final(self).spec_slot(slot).slot_tokens@ == old(self).spec_slot(
                    slot,
                ).slot_tokens@.push(id)
                &&& forall|j: int|
                    0 <= j < old(self).slots@.len() && (#[trigger] old(self).slots@[j]).slot
                        != slot ==> final(self).slots@[j] == old(self).slots@[j]
                &&& Self::same_config(*final(self), *old(self))
            },
    {
        if !self.is_admin(caller) {
            return Err(Error::Unauthorized);
        }
        if !to_authorized {
            return Err(Error::Unauthorized);
        }
        let sidx = match self.find_slot_index(slot) {
            Some(i) => i,
            None => {
                return Err(Error::SlotNotFound);
            },
        };
        let ghost pre = *self;
        let n = self.tokens.len();
        let token_id = self.token_id_generator;
        assert(token_id == n + 1 && n <= usize::MAX);
        self.token_id_generator = token_id + 1;
        let tok = TokenData {
            id: token_id,
            slot,
            balance: value,
            owner: to,
            approved: None,
            value_approvals: Vec::new(),
            allowances: Vec::new(),
        };
        self.tokens.push(tok);
        match self.find_owned_index(to) {
            Some(oi) => {
                self.owned_tokens[oi].token_ids.push(token_id);
                proof {
                    assert(self.owned_tokens@[oi as int].owner == to);
                }
            },
            None => {
                let mut ids: Vec<u128> = Vec::new();
                ids.push(token_id);
                self.owned_tokens.push(OwnedTokens { owner: to, token_ids: ids });
            },
        }
        self.slots[sidx].slot_tokens.push(token_id);
        proof {
            assert(self.tokens@.subrange(0, pre.tokens@.len() as int) =~= pre.tokens@);
            if !pre.has_owned_entry(to) {
                assert(self.owned_tokens@.subrange(0, pre.owned_tokens@.len() as int)
                    =~= pre.owned_tokens@);
            }
            self.lemma_mint_shape(pre, to, slot, sidx as int, token_id, value);
        }
        Ok(token_id)
    }

    /// The result `approve` is obliged to return for these inputs.
    pub open spec fn spec_approve_outcome(
        &self,
        caller: Address,
        token_id: u128,
        to: Address,
    ) -> Result<(), Error> {
        if !self.spec_has_token(token_id) {
            Err(Error::NotFound)
        } else if caller != self.spec_token(token_id).owner {
            Err(Error::Unauthorized)
        } else if to == self.spec_token(token_id).owner {
            Err(Error::SelfApproval)
        } else {
            Ok(())
        }
    }

    /// Let `to` spend up to `value` out of a token.
    ///
    /// Only the token's owner may approve, and never to itself.  The
    /// operator joins the value-approval set at most once, however
    /// often it is approved again; the allowance is set to `value`
    /// outright, overwriting any earlier figure.  A failing call
    /// changes nothing.
    pub fn approve(&mut self, caller: Address, token_id: u128, to: Address, value: u128) -> (r:
        Result<(), Error>)
        requires
            old(self).wf(),
        ensures
            final(self).wf(),
            r == old(self).spec_approve_outcome(caller, token_id, to),
            r is Err ==> *final(self) == *old(self),
            r is Ok ==> {
                let t0 = old(self).spec_token(token_id);
                let t1 = final(self).spec_token(token_id);
                &&& final(self).tokens@.len() == old(self).tokens@.len()
                &&& forall|i: int|
                    0 <= i < old(self).tokens@.len() && i != token_id - 1
                        ==> #[trigger] final(self).tokens@[i] == old(self).tokens@[i]
                &&& t1.id == t0.id
                &&& t1.slot == t0.slot
                &&& t1.balance == t0.balance
                &&& t1.owner == t0.owner
                &&& t1.approved == t0.approved
                &&& t1.value_approvals@ == (if t0.value_approvals@.contains(to) {
                    t0.value_approvals@
                } else {
                    t0.value_approvals@.push(to)
                })
                &&& t1.spec_allowance(to) == value
                &&& forall|op: Address|
                    op != to ==> #[trigger] t1.spec_allowance(op) == t0.spec_allowance(op)
                &&& final(self).slots@ == old(self).slots@
                &&& final(self).owned_tokens@ == old(self).owned_tokens@
                &&& final(self).token_id_generator == old(self).token_id_generator
                &&& Self::same_config(*final(self), *old(self))
            },
    {
        let n = self.tokens.len();
        if !(1 <= token_id && token_id <= n as u128) {
            return Err(Error::NotFound);
        }
        let idx = (token_id - 1) as usize;
        if !(caller == self.tokens[idx].owner) {
            return Err(Error::Unauthorized);
        }
        if to == self.tokens[idx].owner {
            return Err(Error::SelfApproval);
        }
        let ghost pre = *self;
        if !self.tokens[idx].contains_approval(to) {
            self.tokens[idx].value_approvals.push(to);
        }
        let ghost mid = *self;
        match self.tokens[idx].find_allowance(to) {
            Some(k) => {
                self.tokens[idx].allowances[k].value = value;
                proof {
                    let t1 = self.spec_token(token_id);
                    assert(t1.approvals_wf());
                    t1.lemma_allowance_idx_is(k as int, to);
                    assert forall|op: Address| op != to implies #[trigger] t1.spec_allowance(op)
                        == pre.spec_token(token_id).spec_allowance(op) by {
                        let t0 = pre.spec_token(token_id);
                        if t0.has_allowance(op) {
                            let j = t0.allowance_idx(op);
                            assert(t0.allowances@[j].operator == op);
                            assert(j != k);
                            t1.lemma_allowance_idx_is(j, op);
                        } else {
                            if t1.has_allowance(op) {
                                let j = t1.allowance_idx(op);
                                assert(t0.allowances@[j].operator == op);
                                assert(false);
                            }
                        }
                    };
                }
            },
            None => {
                self.tokens[idx].allowances.push(Allowance { operator: to, value });
                proof {
                    let t0 = pre.spec_token(token_id);
                    let t1 = self.spec_token(token_id);
                    let m = t0.allowances@.len() as int;
                    assert forall|k2: int, l: int|
                        0 <= k2 < l < t1.allowances@.len() implies (
                        #[trigger] t1.allowances@[k2]).operator != (
                        #[trigger] t1.allowances@[l]).operator by {
                        if l < m {
                            assert(t1.allowances@[k2] == t0.allowances@[k2]);
                            assert(t1.allowances@[l] == t0.allowances@[l]);
                        } else {
                            assert(t1.allowances@[l].operator == to);
                            assert(t1.allowances@[k2] == t0.allowances@[k2]);
                        }
                    };
                    assert(t1.approvals_wf());
                    t1.lemma_allowance_idx_is(m, to);
                    assert forall|op: Address| op != to implies #[trigger] t1.spec_allowance(op)
                        == t0.spec_allowance(op) by {
                        if t0.has_allowance(op) {
                            let j = t0.allowance_idx(op);
                            assert(t0.allowances@[j].operator == op);
                            assert(t1.allowances@[j] == t0.allowances@[j]);
                            t1.lemma_allowance_idx_is(j, op);
                        } else {
                            if t1.has_allowance(op) {
                                let j = t1.allowance_idx(op);
                                assert(t1.allowances@[j].operator == op);
                                assert(j < m ==> t0.allowances@[j].operator == op);
                                assert(false);
                            }
                        }
                    };
                }
            },
        }
        proof {
            assert forall|i: int|
                0 <= i < self.tokens@.len() implies (#[trigger] self.tokens@[i]).id
                == pre.tokens@[i].id && self.tokens@[i].slot == pre.tokens@[i].slot
                && self.tokens@[i].owner == pre.tokens@[i].owner
                && self.tokens@[i].approvals_wf() by {
                if i != idx as int {
                    assert(self.tokens@[i] == pre.tokens@[i]);
                    assert(pre.tokens@[i].approvals_wf());
                } else {
                    if !pre.spec_token(token_id).value_approvals@.contains(to) {
                        let t0 = pre.spec_token(token_id);
                        let t1m = mid.spec_token(token_id);
                        assert forall|k2: int, l: int|
                            0 <= k2 < l < t1m.value_approvals@.len() implies #[trigger] t1m.value_approvals@[k2]
                            != #[trigger] t1m.value_approvals@[l] by {
                            if l < t0.value_approvals@.len() {
                                assert(t1m.value_approvals@[k2] == t0.value_approvals@[k2]);
                                assert(t1m.value_approvals@[l] == t0.value_approvals@[l]);
                            } else {
                                assert(t1m.value_approvals@[l] == to);
                                assert(t1m.value_approvals@[k2] == t0.value_approvals@[k2]);
                                assert(t0.value_approvals@.contains(t0.value_approvals@[k2]));
                            }
                        };
                    }
                }
            };
            self.lemma_tokens_reshaped(pre);
        }
        Ok(())
    }

    /// The result `transfer_from` is obliged to return for these
    /// inputs.
    pub open spec fn spec_transfer_from_outcome(
        &self,
        caller: Address,
        from_token_id: u128,
        to_token_id: u128,
        value: u128,
    ) -> Result<Address, Error> {
        if !self.spec_has_token(from_token_id) {
            Err(Error::NotFound)
        } else if !self.spec_has_token(to_token_id) {
            Err(Error::NotFound)
        } else if caller != self.spec_token(from_token_id).owner && self.spec_token(
            from_token_id,
        ).spec_allowance(caller) < value {
            Err(Error::InsufficientAllowance)
        } else if self.spec_token(from_token_id).slot != self.spec_token(to_token_id).slot {
            Err(Error::SameSlotRequired)
        } else if self.spec_token(from_token_id).balance < value {
            Err(Error::InsufficientBalance)
        } else {
            Ok(self.spec_token(to_token_id).owner)
        }
    }

    /// Move `value` of fungible balance from one token to another in
    /// the same slot, and return the recipient token's owner.
    ///
    /// The caller must be the source token's owner or hold an
    /// allowance of at least `value` on it.  An owner's transfer
    /// leaves allowances untouched; a non-owner's transfer spends
    /// `value` of its allowance.  Value is conserved: the two balances
    /// change by exactly `value` in opposite directions, and a
    /// transfer from a token to itself leaves its balance unchanged.
    /// A failing call changes nothing.
    pub fn transfer_from(
        &mut self,
        caller: Address,
        from_token_id: u128,
        to_token_id: u128,
        value: u128,
    ) -> (r: Result<Address, Error>)
        requires
            old(self).wf(),
            old(self).spec_transfer_from_outcome(caller, from_token_id, to_token_id, value) is Ok
                && from_token_id != to_token_id ==> old(self).spec_token(to_token_id).balance
                + value <= u128::MAX,
        ensures
            final(self).wf(),
            r == old(self).spec_transfer_from_outcome(caller, from_token_id, to_token_id, value),
            r is Err ==> *final(self) == *old(self),
            r is Ok ==> {
                let f0 = old(self).spec_token(from_token_id);
                let f1 = final(self).spec_token(from_token_id);
                let t0 = old(self).spec_token(to_token_id);
                let t1 = final(self).spec_token(to_token_id);
                &&& final(self).tokens@.len() == old(self).tokens@.len()
                &&& from_token_id != to_token_id ==> {
                    &&& f1.balance == f0.balance - value
                    &&& t1.balance == t0.balance + value
                    &&& f1.balance + t1.balance == f0.balance + t0.balance
                    &&& t1.value_approvals@ == t0.value_approvals@
                    &&& t1.allowances@ == t0.allowances@
                }
                &&& from_token_id == to_token_id ==> f1.balance == f0.balance
                &&& caller == f0.owner ==> f1.allowances@ == f0.allowances@
                &&& caller != f0.owner ==> {
                    &&& f1.spec_allowance(caller) == f0.spec_allowance(caller) - value
                    &&& forall|op: Address|
                        op != caller ==> #[trigger] f1.spec_allowance(op) == f0.spec_allowance(op)
                }
                &&& f1.id == f0.id && f1.slot == f0.slot && f1.owner == f0.owner && f1.approved
                    == f0.approved
                &&& f1.value_approvals@ == f0.value_approvals@
                &&& t1.id == t0.id && t1.slot == t0.slot && t1.owner == t0.owner && t1.approved
                    == t0.approved
                &&& forall|i: int|
                    0 <= i < old(self).tokens@.len() && i != from_token_id - 1 && i != to_token_id
                        - 1 ==> #[trigger] final(self).tokens@[i] == old(self).tokens@[i]
                &&& final(self).slots@ == old(self).slots@
                &&& final(self).owned_tokens@ == old(self).owned_tokens@
                &&& final(self).token_id_generator == old(self).token_id_generator
                &&& Self::same_config(*final(self), *old(self))
            },
    {
        let n = self.tokens.len();
        if !(1 <= from_token_id && from_token_id <= n as u128) {
            return Err(Error::NotFound);
        }
        if !(1 <= to_token_id && to_token_id <= n as u128) {
            return Err(Error::NotFound);
        }
        let fidx = (from_token_id - 1) as usize;
        let tidx = (to_token_id - 1) as usize;
        let owner = self.tokens[fidx].owner;
        let allowance = self.tokens[fidx].allowance_of(caller);
        if caller != owner && allowance < value {
            return Err(Error::InsufficientAllowance);
        }
        if self.tokens[fidx].slot != self.tokens[tidx].slot {
            return Err(Error::SameSlotRequired);
        }
        if self.tokens[fidx].balance < value {
            return Err(Error::InsufficientBalance);
        }
        let ghost pre = *self;
        if fidx != tidx {
            let b = self.tokens[fidx].balance;
            self.tokens[fidx].balance = b - value;
            let b2 = self.tokens[tidx].balance;
            self.tokens[tidx].balance = b2 + value;
        }
        if caller != owner {
            match self.tokens[fidx].find_allowance(caller) {
                Some(k) => {
                    self.tokens[fidx].allowances[k].value = allowance - value;
                    proof {
                        let f0 = pre.spec_token(from_token_id);
                        let f1 = self.spec_token(from_token_id);
                        assert(f1.approvals_wf());
                        f1.lemma_allowance_idx_is(k as int, caller);
                        assert forall|op: Address| op != caller implies #[trigger] f1.spec_allowance(
                            op,
                        ) == f0.spec_allowance(op) by {
                            if f0.has_allowance(op) {
                                let j = f0.allowance_idx(op);
                                assert(f0.allowances@[j].operator == op);
                                assert(j != k);
                                f1.lemma_allowance_idx_is(j, op);
                            } else {
                                if f1.has_allowance(op) {
                                    let j = f1.allowance_idx(op);
                                    assert(f0.allowances@[j].operator == op);
                                    assert(false);
                                }
                            }
                        };
                    }
                },
                None => {
                    // no entry means allowance 0, so `value` is 0 and
                    // the spent figure recorded is also 0
                    self.tokens[fidx].allowances.push(Allowance { operator: caller, value: 0 });
                    proof {
                        let f0 = pre.spec_token(from_token_id);
                        let f1 = self.spec_token(from_token_id);
                        let m = f0.allowances@.len() as int;
                        assert forall|k2: int, l: int|
                            0 <= k2 < l < f1.allowances@.len() implies (
                            #[trigger] f1.allowances@[k2]).operator != (
                            #[trigger] f1.allowances@[l]).operator by {
                            if l < m {
                                assert(f1.allowances@[k2] == f0.allowances@[k2]);
                                assert(f1.allowances@[l] == f0.allowances@[l]);
                            } else {
                                assert(f1.allowances@[l].operator == caller);
                                assert(f1.allowances@[k2] == f0.allowances@[k2]);
                            }
                        };
                        assert(f1.approvals_wf());
                        f1.lemma_allowance_idx_is(m, caller);
                        assert forall|op: Address| op != caller implies #[trigger] f1.spec_allowance(
                            op,
                        ) == f0.spec_allowance(op) by {
                            if f0.has_allowance(op) {
                                let j = f0.allowance_idx(op);
                                assert(f0.allowances@[j].operator == op);
                                assert(f1.allowances@[j] == f0.allowances@[j]);
                                f1.lemma_allowance_idx_is(j, op);
                            } else {
                                if f1.has_allowance(op) {
                                    let j = f1.allowance_idx(op);
                                    assert(f1.allowances@[j].operator == op);
                                    assert(j < m ==> f0.allowances@[j].operator == op);
                                    assert(false);
                                }
                            }
                        };
                    }
                },
            }
        }
        let result_owner = self.tokens[tidx].owner;
        proof {
            assert forall|i: int|
                0 <= i < self.tokens@.len() implies (#[trigger] self.tokens@[i]).id
                == pre.tokens@[i].id && self.tokens@[i].slot == pre.tokens@[i].slot
                && self.tokens@[i].owner == pre.tokens@[i].owner
                && self.tokens@[i].approvals_wf() by {
                if i != fidx as int && i != tidx as int {
                    assert(self.tokens@[i] == pre.tokens@[i]);
                }
                assert(pre.tokens@[i].approvals_wf());
            };
            self.lemma_tokens_reshaped(pre);
        }
        Ok(result_owner)
    }

    /// The position of `owner`'s ownership-index entry, which must
    /// exist.
    fn owned_index_of(&self, owner: Address) -> (i: usize)
        requires
            self.owner_keys_unique(),
            self.has_owned_entry(owner),
        ensures
            i < self.owned_tokens@.len(),
            self.owned_tokens@[i as int].owner == owner,
            self.owned_entry_idx(owner) == i,
    {
        let n = self.owned_tokens.len();
        let mut i: usize = 0;
        while i < n
            invariant
                n == self.owned_tokens@.len(),
                0 <= i <= n,
                self.owner_keys_unique(),
                self.has_owned_entry(owner),
                forall|j: int| 0 <= j < i ==> (#[trigger] self.owned_tokens@[j]).owner != owner,
            decreases n - i,
        {
            if self.owned_tokens[i].owner == owner {
                proof {
                    self.lemma_owned_idx_is(i as int, owner);
                }
                return i;
            }
            i = i + 1;
        }
        proof {
            let w = self.owned_entry_idx(owner);
            assert(self.owned_tokens@[w].owner == owner);
            assert(false);
        }
        vstd::pervasive::unreached()
    }

    /// The result `transfer_token` is obliged to return for these
    /// inputs.
    pub open spec fn spec_transfer_token_outcome(
        &self,
        caller: Address,
        from: Address,
        to: Address,
        to_authorized: bool,
        token_id: u128,
    ) -> Result<(), Error> {
        if !self.spec_has_token(token_id) {
            Err(Error::NotFound)
        } else if caller != from || from != self.spec_token(token_id).owner {
            Err(Error::Unauthorized)
        } else if !to_authorized {
            Err(Error::Unauthorized)
        } else {
            Ok(())
        }
    }

    /// Transfer whole-token ownership from `from` to `to`.
    ///
    /// The caller must be `from` and `from` must be the current owner;
    /// the recipient must have authorized receipt.  On success the
    /// token changes owner, leaves `from`'s ownership index and joins
    /// `to`'s, and its whole-token approval and value-approval set are
    /// cleared.  Allowance entries granted by the previous owner are
    /// not cleared: they stay until a new `approve` overwrites them.
    /// A failing call changes nothing.
    pub fn transfer_token(
        &mut self,
        caller: Address,
        from: Address,
        to: Address,
        to_authorized: bool,
        token_id: u128,
    ) -> (r: Result<(), Error>)
        requires
            old(self).wf(),
        ensures
            final(self).wf(),
            r == old(self).spec_transfer_token_outcome(caller, from, to, to_authorized, token_id),
            r is Err ==> *final(self) == *old(self),
            r is Ok ==> {
                let t0 = old(self).spec_token(token_id);
                let t1 = final(self).spec_token(token_id);
                let lf0 = old(self).owned_list(from);
                &&& t1.owner == to
                &&& t1.approved is None
                &&& t1.value_approvals@.len() == 0
                &&& t1.allowances@ == t0.allowances@
                &&& t1.id == t0.id && t1.slot == t0.slot && t1.balance == t0.balance
                &&& final(self).tokens@.len() == old(self).tokens@.len()
                &&& forall|i: int|
                    0 <= i < old(self).tokens@.len() && i != token_id - 1
                        ==> #[trigger] final(self).tokens@[i] == old(self).tokens@[i]
                &&& from != to ==> {
                    &&& final(self).owned_list(from) == lf0.remove(lf0.index_of(token_id))
                    &&& !final(self).owned_list(from).contains(token_id)
                    &&& final(self).owned_list(to) == old(self).owned_list(to).push(token_id)
                }
                &&& from == to ==> final(self).owned_list(from) == lf0.remove(
                    lf0.index_of(token_id),
                ).push(token_id)
                &&& final(self).owned_list(to).contains(token_id)
                &&& forall|a: Address|
                    a != from && a != to ==> #[trigger] final(self).owned_list(a) == old(
                        self,
                    ).owned_list(a)
                &&& final(self).slots@ == old(self).slots@
                &&& final(self).token_id_generator == old(self).token_id_generator
                &&& Self::same_config(*final(self), *old(self))
            },
    {
        let n = self.tokens.len();
        if !(1 <= token_id && token_id <= n as u128) {
            return Err(Error::NotFound);
        }
        let idx = (token_id - 1) as usize;
        if caller != from || !(from == self.tokens[idx].owner) {
            return Err(Error::Unauthorized);
        }
        if !to_authorized {
            return Err(Error::Unauthorized);
        }
        let ghost pre = *self;
        proof {
            assert(pre.owned_list(pre.tokens@[idx as int].owner).contains((idx + 1) as u128));
            assert(pre.owned_list(from).contains(token_id));
            assert(pre.has_owned_entry(from));
        }
        let fi = self.owned_index_of(from);
        let k = position_of(&self.owned_tokens[fi].token_ids, token_id);
        self.owned_tokens[fi].token_ids.remove(k);
        self.tokens[idx].owner = to;
        self.tokens[idx].approved = None;
        self.tokens[idx].value_approvals = Vec::new();
        proof {
            assert forall|j: int| 0 <= j < self.owned_tokens@.len() implies (
            #[trigger] self.owned_tokens@[j]).owner == pre.owned_tokens@[j].owner by {
                if j != fi as int {
                    assert(self.owned_tokens@[j] == pre.owned_tokens@[j]);
                }
            };
        }
        match self.find_owned_index(to) {
            Some(ti) => {
                proof {
                    if from != to {
                        assert(pre.owned_tokens@[ti as int].owner == to);
                        pre.lemma_owned_idx_is(ti as int, to);
                    } else {
                        if ti as int != fi as int {
                            if (ti as int) < (fi as int) {
                                assert(self.owned_tokens@[ti as int].owner
                                    != self.owned_tokens@[fi as int].owner);
                            } else {
                                assert(self.owned_tokens@[fi as int].owner
                                    != self.owned_tokens@[ti as int].owner);
                            }
                        }
                        assert(ti as int == fi as int);
                    }
                }
                self.owned_tokens[ti].token_ids.push(token_id);
            },
            None => {
                proof {
                    assert(!pre.has_owned_entry(to)) by {
                        if pre.has_owned_entry(to) {
                            let j = pre.owned_entry_idx(to);
                            assert(pre.owned_tokens@[j].owner == to);
                            if j != fi as int {
                                assert(self.owned_tokens@[j] == pre.owned_tokens@[j]);
                                assert(self.has_owned_entry(to));
                            } else {
                                assert(self.owned_tokens@[j].owner == from);
                                assert(to == from);
                                assert(self.has_owned_entry(to));
                            }
                            assert(false);
                        }
                    };
                }
                let mut ids: Vec<u128> = Vec::new();
                ids.push(token_id);
                self.owned_tokens.push(OwnedTokens { owner: to, token_ids: ids });
            },
        }
        proof {
            self.lemma_transfer_token_shape(
                pre,
                from,
                to,
                token_id,
                idx as int,
                fi as int,
                k as int,
            );
        }
        Ok(())
    }

    /// The stored token name; `NotFound` until the ledger is
    /// initialized.
    pub fn name(&self) -> (r: Result<String, Error>)
        ensures
            self.is_initialized() ==> r == Ok::<String, Error>(self.token_name),
            !self.is_initialized() ==> r == Err::<String, Error>(Error::NotFound),
    {
        if self.token_admin.is_some() {
            Ok(self.token_name.clone())
        } else {
            Err(Error::NotFound)
        }
    }

    /// The stored token symbol; `NotFound` until initialized.
    pub fn symbol(&self) -> (r: Result<String, Error>)
        ensures
            self.is_initialized() ==> r == Ok::<String, Error>(self.symbol),
            !self.is_initialized() ==> r == Err::<String, Error>(Error::NotFound),
    {
        if self.token_admin.is_some() {
            Ok(self.symbol.clone())
        } else {
            Err(Error::NotFound)
        }
    }

    /// The stored value-decimal count; `NotFound` until initialized.
    pub fn value_decimals(&self) -> (r: Result<u32, Error>)
        ensures
            self.is_initialized() ==> r == Ok::<u32, Error>(self.decimals),
            !self.is_initialized() ==> r == Err::<u32, Error>(Error::NotFound),
    {
        if self.token_admin.is_some() {
            Ok(self.decimals)
        } else {
            Err(Error::NotFound)
        }
    }

    /// The fungible balance of a token; `NotFound` for an unminted id.
    pub fn balance_of(&self, token_id: u128) -> (r: Result<u128, Error>)
        ensures
            self.spec_has_token(token_id) ==> r == Ok::<u128, Error>(
                self.spec_token(token_id).balance,
            ),
            !self.spec_has_token(token_id) ==> r == Err::<u128, Error>(Error::NotFound),
    {
        if 1 <= token_id && token_id <= self.tokens.len() as u128 {
            Ok(self.tokens[(token_id - 1) as usize].balance)
        } else {
            Err(Error::NotFound)
        }
    }

    /// The number of tokens an address owns; 0 for an address that
    /// owns none.
    pub fn balance_of_address(&self, owner: Address) -> (r: u128)
        requires
            self.wf(),
        ensures
            r == self.owned_list(owner).len(),
    {
        let n = self.owned_tokens.len();
        let mut i: usize = 0;
        while i < n
            invariant
                n == self.owned_tokens@.len(),
                0 <= i <= n,
                self.wf(),
                forall|j: int| 0 <= j < i ==> (#[trigger] self.owned_tokens@[j]).owner != owner,
            decreases n - i,
        {
            if self.owned_tokens[i].owner == owner {
                proof {
                    self.lemma_owned_idx_is(i as int, owner);
                }
                return self.owned_tokens[i].token_ids.len() as u128;
            }
            i = i + 1;
        }
        0
    }

    /// The owner of a token; `NotFound` for an unminted id.
    pub fn owner_of(&self, token_id: u128) -> (r: Result<Address, Error>)
        ensures
            self.spec_has_token(token_id) ==> r == Ok::<Address, Error>(
                self.spec_token(token_id).owner,
            ),
            !self.spec_has_token(token_id) ==> r == Err::<Address, Error>(Error::NotFound),
    {
        if 1 <= token_id && token_id <= self.tokens.len() as u128 {
            Ok(self.tokens[(token_id - 1) as usize].owner)
        } else {
            Err(Error::NotFound)
        }
    }

    /// The slot of a token; `NotFound` for an unminted id.
    pub fn slot_of(&self, token_id: u128) -> (r: Result<u128, Error>)
        ensures
            self.spec_has_token(token_id) ==> r == Ok::<u128, Error>(
                self.spec_token(token_id).slot,
            ),
            !self.spec_has_token(token_id) ==> r == Err::<u128, Error>(Error::NotFound),
    {
        if 1 <= token_id && token_id <= self.tokens.len() as u128 {
            Ok(self.tokens[(token_id - 1) as usize].slot)
        } else {
            Err(Error::NotFound)
        }
    }

    /// The human-readable name of a slot; `NotFound` for an absent id.
    pub fn slot_name(&self, slot: u128) -> (r: Result<String, Error>)
        requires
            self.wf(),
        ensures
            self.spec_slot_exists(slot) ==> r == Ok::<String, Error>(self.spec_slot(slot).slot_name),
            !self.spec_slot_exists(slot) ==> r == Err::<String, Error>(Error::NotFound),
    {
        let n = self.slots.len();
        let mut i: usize = 0;
        while i < n
            invariant
                n == self.slots@.len(),
                0 <= i <= n,
                self.wf(),
                forall|j: int| 0 <= j < i ==> (#[trigger] self.slots@[j]).slot != slot,
            decreases n - i,
        {
            if self.slots[i].slot == slot {
                proof {
                    self.lemma_slot_idx_is(i as int, slot);
                }
                return Ok(self.slots[i].slot_name.clone());
            }
            i = i + 1;
        }
        Err(Error::NotFound)
    }

    /// Whether a token with this id has been minted.
    pub fn require_minted(&self, token_id: u128) -> (r: bool)
        ensures
            r == self.spec_has_token(token_id),
    {
        1 <= token_id && token_id <= self.tokens.len() as u128
    }

    /// Whether a slot with this id has been created.
    pub fn slot_exists(&self, slot: u128) -> (r: bool)
        ensures
            r == self.spec_slot_exists(slot),
    {
        let n = self.slots.len();
        let mut i: usize = 0;
        while i < n
            invariant
                n == self.slots@.len(),
                0 <= i <= n,
                forall|j: int| 0 <= j < i ==> (#[trigger] self.slots@[j]).slot != slot,
            decreases n - i,
        {
            if self.slots[i].slot == slot {
                return true;
            }
            i = i + 1;
        }
        false
    }

    /// Slot ids name at most one catalog entry.
    pub open spec fn slot_ids_unique(&self) -> bool {
        forall|i: int, j: int|
            0 <= i < j < self.slots@.len() ==> (#[trigger] self.slots@[i]).slot != (
            #[trigger] self.slots@[j]).slot
    }

    /// Owner keys name at most one ownership-index entry.
    pub open spec fn owner_keys_unique(&self) -> bool {
        forall|i: int, j: int|
            0 <= i < j < self.owned_tokens@.len() ==> (#[trigger] self.owned_tokens@[i]).owner != (
            #[trigger] self.owned_tokens@[j]).owner
    }

    /// Replacing token records without touching their id, slot or
    /// owner — balance or approval updates — preserves the invariant.
    proof fn lemma_tokens_reshaped(&self, pre: ctm_rwa001)
        requires
            pre.wf(),
            self.tokens@.len() == pre.tokens@.len(),
            forall|i: int|
                0 <= i < pre.tokens@.len() ==> (#[trigger] self.tokens@[i]).id == pre.tokens@[i].id
                    && self.tokens@[i].slot == pre.tokens@[i].slot && self.tokens@[i].owner
                    == pre.tokens@[i].owner && self.tokens@[i].approvals_wf(),
            self.slots@ == pre.slots@,
            self.owned_tokens@ == pre.owned_tokens@,
            self.token_id_generator == pre.token_id_generator,
        ensures
            self.wf(),
    {
        assert forall|i: int| 0 <= i < self.tokens@.len() implies self.spec_slot_exists(
            (#[trigger] self.tokens@[i]).slot,
        ) by {
            let s = pre.tokens@[i].slot;
            assert(pre.spec_slot_exists(s));
            let w = pre.slot_idx(s);
            assert(self.slots@[w].slot == s);
        };
        assert(self.tokens_wf());
        assert forall|j: int, k: int|
            0 <= j < self.slots@.len() && 0 <= k < (
            #[trigger] self.slots@[j]).slot_tokens@.len() implies self.spec_has_token(
            #[trigger] self.slots@[j].slot_tokens@[k],
        ) && self.spec_token(self.slots@[j].slot_tokens@[k]).slot == self.slots@[j].slot by {
            let e = pre.slots@[j].slot_tokens@[k];
            assert(pre.spec_has_token(e) && pre.spec_token(e).slot == pre.slots@[j].slot);
        };
        assert forall|i: int| 0 <= i < self.tokens@.len() implies self.spec_slot(
            (#[trigger] self.tokens@[i]).slot,
        ).slot_tokens@.contains((i + 1) as u128) by {
            let s = pre.tokens@[i].slot;
            let w = pre.slot_idx(s);
            assert(pre.slots@[w].slot == s);
            self.lemma_slot_idx_is(w, s);
            assert(pre.spec_slot(s).slot_tokens@.contains((i + 1) as u128));
        };
        assert(self.slots_wf());
        assert forall|i: int, k: int|
            0 <= i < self.owned_tokens@.len() && 0 <= k < (
            #[trigger] self.owned_tokens@[i]).token_ids@.len() implies self.spec_has_token(
            #[trigger] self.owned_tokens@[i].token_ids@[k],
        ) && self.spec_token(self.owned_tokens@[i].token_ids@[k]).owner
            == self.owned_tokens@[i].owner by {
            let e = pre.owned_tokens@[i].token_ids@[k];
            assert(pre.spec_has_token(e) && pre.spec_token(e).owner == pre.owned_tokens@[i].owner);
        };
        assert forall|i: int| 0 <= i < self.tokens@.len() implies self.owned_list(
            (#[trigger] self.tokens@[i]).owner,
        ).contains((i + 1) as u128) by {
            let a = pre.tokens@[i].owner;
            assert(pre.owned_list(a).contains((i + 1) as u128));
            if pre.has_owned_entry(a) {
                let j = pre.owned_entry_idx(a);
                assert(pre.owned_tokens@[j].owner == a);
                self.lemma_owned_idx_is(j, a);
            }
        };
        assert(self.owned_wf());
    }

    /// The slot-catalog invariants survive any token reshaping that
    /// keeps every token's slot, with the slot catalog untouched.
    proof fn lemma_slots_preserved(&self, pre: ctm_rwa001)
        requires
            pre.wf(),
            self.slots@ == pre.slots@,
            self.tokens@.len() == pre.tokens@.len(),
            forall|i: int|
                0 <= i < pre.tokens@.len() ==> (#[trigger] self.tokens@[i]).slot
                    == pre.tokens@[i].slot,
        ensures
            self.slots_wf(),
            forall|i: int|
                0 <= i < self.tokens@.len() ==> self.spec_slot_exists(
                    (#[trigger] self.tokens@[i]).slot,
                ),
    {
        assert forall|i: int| 0 <= i < self.tokens@.len() implies self.spec_slot_exists(
            (#[trigger] self.tokens@[i]).slot,
        ) by {
            let s = pre.tokens@[i].slot;
            assert(pre.spec_slot_exists(s));
            let w = pre.slot_idx(s);
            assert(self.slots@[w].slot == s);
        };
        assert forall|j: int, k: int|
            0 <= j < self.slots@.len() && 0 <= k < (
            #[trigger] self.slots@[j]).slot_tokens@.len() implies self.spec_has_token(
            #[trigger] self.slots@[j].slot_tokens@[k],
        ) && self.spec_token(self.slots@[j].slot_tokens@[k]).slot == self.slots@[j].slot by {
            let e = pre.slots@[j].slot_tokens@[k];
            assert(pre.spec_has_token(e) && pre.spec_token(e).slot == pre.slots@[j].slot);
        };
        assert forall|i: int| 0 <= i < self.tokens@.len() implies self.spec_slot(
            (#[trigger] self.tokens@[i]).slot,
        ).slot_tokens@.contains((i + 1) as u128) by {
            let s = pre.tokens@[i].slot;
            let w = pre.slot_idx(s);
            assert(pre.slots@[w].slot == s);
            self.lemma_slot_idx_is(w, s);
            assert(pre.spec_slot(s).slot_tokens@.contains((i + 1) as u128));
        };
    }

    /// After `transfer_token`'s surgery — record rewritten for the new
    /// owner, id removed from the old owner's index list, id appended
    /// to the new owner's — the invariant holds again and the index
    /// lists read as stated.
    proof fn lemma_transfer_token_shape(
        &self,
        pre: ctm_rwa001,
        from: Address,
        to: Address,
        token_id: u128,
        idx: int,
        fi: int,
        k: int,
    )
        requires
            pre.wf(),
            0 <= idx < pre.tokens@.len(),
            token_id == idx + 1,
            pre.tokens@[idx].owner == from,
            self.tokens@.len() == pre.tokens@.len(),
            forall|i: int|
                0 <= i < pre.tokens@.len() && i != idx ==> #[trigger] self.tokens@[i]
                    == pre.tokens@[i],
            self.tokens@[idx].id == pre.tokens@[idx].id,
            self.tokens@[idx].slot == pre.tokens@[idx].slot,
            self.tokens@[idx].balance == pre.tokens@[idx].balance,
            self.tokens@[idx].owner == to,
            self.tokens@[idx].approved is None,
            self.tokens@[idx].value_approvals@.len() == 0,
            self.tokens@[idx].allowances@ == pre.tokens@[idx].allowances@,
            0 <= fi < pre.owned_tokens@.len(),
            pre.owned_tokens@[fi].owner == from,
            0 <= k < pre.owned_tokens@[fi].token_ids@.len(),
            pre.owned_tokens@[fi].token_ids@[k] == token_id,
            ({
                let fl1 = pre.owned_tokens@[fi].token_ids@.remove(k);
                if to == from {
                    &&& self.owned_tokens@.len() == pre.owned_tokens@.len()
                    &&& forall|j: int|
                        0 <= j < pre.owned_tokens@.len() && j != fi
                            ==> #[trigger] self.owned_tokens@[j] == pre.owned_tokens@[j]
                    &&& self.owned_tokens@[fi].owner == from
                    &&& self.owned_tokens@[fi].token_ids@ == fl1.push(token_id)
                } else if pre.has_owned_entry(to) {
                    let ti = pre.owned_entry_idx(to);
                    &&& self.owned_tokens@.len() == pre.owned_tokens@.len()
                    &&& forall|j: int|
                        0 <= j < pre.owned_tokens@.len() && j != fi && j != ti
                            ==> #[trigger] self.owned_tokens@[j] == pre.owned_tokens@[j]
                    &&& self.owned_tokens@[fi].owner == from
                    &&& self.owned_tokens@[fi].token_ids@ == fl1
                    &&& self.owned_tokens@[ti].owner == to
                    &&& self.owned_tokens@[ti].token_ids@ == pre.owned_tokens@[ti].token_ids@.push(
                        token_id,
                    )
                } else {
                    &&& self.owned_tokens@.len() == pre.owned_tokens@.len() + 1
                    &&& forall|j: int|
                        0 <= j < pre.owned_tokens@.len() && j != fi
                            ==> #[trigger] self.owned_tokens@[j] == pre.owned_tokens@[j]
                    &&& self.owned_tokens@[fi].owner == from
                    &&& self.owned_tokens@[fi].token_ids@ == fl1
                    &&& self.owned_tokens@.last().owner == to
                    &&& self.owned_tokens@.last().token_ids@.len() == 1
                    &&& self.owned_tokens@.last().token_ids@[0] == token_id
                }
            }),
            self.slots@ == pre.slots@,
            self.token_id_generator == pre.token_id_generator,
        ensures
            self.wf(),
            self.owned_list(from) == (if from == to {
                pre.owned_list(from).remove(pre.owned_list(from).index_of(token_id)).push(token_id)
            } else {
                pre.owned_list(from).remove(pre.owned_list(from).index_of(token_id))
            }),
            from != to ==> !self.owned_list(from).contains(token_id),
            from != to ==> self.owned_list(to) == pre.owned_list(to).push(token_id),
            self.owned_list(to).contains(token_id),
            forall|a: Address|
                a != from && a != to ==> #[trigger] self.owned_list(a) == pre.owned_list(a),
    {
        let on = pre.owned_tokens@.len() as int;
        let pn = pre.tokens@.len() as int;
        let fl0 = pre.owned_tokens@[fi].token_ids@;
        let fl1 = fl0.remove(k);
        pre.lemma_owned_idx_is(fi, from);
        assert(pre.owned_list(from) == fl0);
        // the removed position is the position the contract names
        assert(fl0.contains(token_id));
        let x = fl0.index_of(token_id);
        assert(0 <= x < fl0.len() && fl0[x] == token_id);
        assert(x == k) by {
            if x != k {
                if x < k {
                    assert(pre.owned_tokens@[fi].token_ids@[x] != pre.owned_tokens@[fi].token_ids@[k]);
                } else {
                    assert(pre.owned_tokens@[fi].token_ids@[k] != pre.owned_tokens@[fi].token_ids@[x]);
                }
            }
        };
        // the id appears in no other entry, and nowhere else in fi's
        assert forall|j: int, kk: int|
            0 <= j < on && j != fi && 0 <= kk < (
            #[trigger] pre.owned_tokens@[j]).token_ids@.len() implies #[trigger] pre.owned_tokens@[j].token_ids@[kk]
            != token_id by {
            if pre.owned_tokens@[j].token_ids@[kk] == token_id {
                assert(pre.spec_token(token_id).owner == pre.owned_tokens@[j].owner);
                if j < fi {
                    assert(pre.owned_tokens@[j].owner != pre.owned_tokens@[fi].owner);
                } else {
                    assert(pre.owned_tokens@[fi].owner != pre.owned_tokens@[j].owner);
                }
            }
        };
        assert forall|kk: int| 0 <= kk < fl0.len() && kk != k implies #[trigger] fl0[kk]
            != token_id by {
            if kk < k {
                assert(pre.owned_tokens@[fi].token_ids@[kk] != pre.owned_tokens@[fi].token_ids@[k]);
            } else {
                assert(pre.owned_tokens@[fi].token_ids@[k] != pre.owned_tokens@[fi].token_ids@[kk]);
            }
        };
        assert(!fl1.contains(token_id)) by {
            if fl1.contains(token_id) {
                let y = choose|y: int| 0 <= y < fl1.len() && fl1[y] == token_id;
                if y < k {
                    assert(fl0[y] == token_id);
                } else {
                    assert(fl0[y + 1] == token_id);
                }
            }
        };
        // token catalog invariants
        assert forall|i: int| 0 <= i < self.tokens@.len() implies (#[trigger] self.tokens@[i]).id
            == i + 1 && self.tokens@[i].approvals_wf() && self.tokens@[i].slot
            == pre.tokens@[i].slot by {
            if i != idx {
                assert(self.tokens@[i] == pre.tokens@[i]);
                assert(pre.tokens@[i].approvals_wf());
            } else {
                assert(pre.tokens@[idx].approvals_wf());
                assert(self.tokens@[idx].allowances@ == pre.tokens@[idx].allowances@);
            }
        };
        assert(self.tokens_wf()) by {
            self.lemma_slots_preserved(pre);
        };
        self.lemma_slots_preserved(pre);
        // ownership index: case analysis over the three shapes
        let case_self = (to == from);
        let case_existing = (to != from && pre.has_owned_entry(to));
        let ti = if case_existing {
            pre.owned_entry_idx(to)
        } else if case_self {
            fi
        } else {
            on
        };
        if case_existing {
            pre.lemma_owned_idx_is(ti, to);
            assert(pre.owned_tokens@[ti].owner == to);
            assert(ti != fi);
        }
        // owners of all entries are unchanged except a possible new
        // last entry owned by `to`
        assert forall|j: int| 0 <= j < on implies (#[trigger] self.owned_tokens@[j]).owner
            == pre.owned_tokens@[j].owner by {
            if j != fi && j != ti {
                assert(self.owned_tokens@[j] == pre.owned_tokens@[j]);
            }
        };
        assert(self.owner_keys_unique()) by {
            assert forall|i: int, j: int|
                0 <= i < j < self.owned_tokens@.len() implies (
                #[trigger] self.owned_tokens@[i]).owner != (
                #[trigger] self.owned_tokens@[j]).owner by {
                if j < on {
                } else {
                    assert(self.owned_tokens@[j].owner == to);
                    assert(!pre.has_owned_entry(to));
                    assert(pre.owned_tokens@[i].owner != to);
                }
            };
        };
        // entry contents: valid ids, owned by the entry's owner, no
        // duplicates
        assert forall|i: int, kk: int|
            0 <= i < self.owned_tokens@.len() && 0 <= kk < (
            #[trigger] self.owned_tokens@[i]).token_ids@.len() implies self.spec_has_token(
            #[trigger] self.owned_tokens@[i].token_ids@[kk],
        ) && self.spec_token(self.owned_tokens@[i].token_ids@[kk]).owner
            == self.owned_tokens@[i].owner by {
            let list = self.owned_tokens@[i].token_ids@;
            let e = list[kk];
            if i < on && i != fi && i != ti {
                assert(self.owned_tokens@[i] == pre.owned_tokens@[i]);
                assert(pre.spec_has_token(e));
                assert(e != token_id);
                assert(self.tokens@[e as int - 1] == pre.tokens@[e as int - 1]);
            } else if i == fi && (case_existing || !case_self && !case_existing) {
                // `from`'s list after removal
                let e2 = if kk < k {
                    fl0[kk]
                } else {
                    fl0[kk + 1]
                };
                assert(e == e2);
                assert(pre.spec_has_token(e2) && pre.spec_token(e2).owner == from);
                assert(e2 != token_id);
                assert(self.tokens@[e2 as int - 1] == pre.tokens@[e2 as int - 1]);
            } else if case_self && i == fi {
                if kk < fl1.len() {
                    let e2 = if kk < k {
                        fl0[kk]
                    } else {
                        fl0[kk + 1]
                    };
                    assert(e == e2);
                    assert(pre.spec_has_token(e2) && pre.spec_token(e2).owner == from);
                    assert(e2 != token_id);
                    assert(self.tokens@[e2 as int - 1] == pre.tokens@[e2 as int - 1]);
                } else {
                    assert(e == token_id);
                    assert(self.spec_token(token_id).owner == to);
                }
            } else if case_existing && i == ti {
                if kk < pre.owned_tokens@[ti].token_ids@.len() {
                    let e2 = pre.owned_tokens@[ti].token_ids@[kk];
                    assert(e == e2);
                    assert(pre.spec_has_token(e2) && pre.spec_token(e2).owner == to);
                    assert(e2 != token_id);
                    assert(self.tokens@[e2 as int - 1] == pre.tokens@[e2 as int - 1]);
                } else {
                    assert(e == token_id);
                }
            } else {
                // the appended entry for a fresh owner
                assert(i == on && e == token_id);
            }
        };
        assert forall|i: int, kk: int, ll: int|
            0 <= i < self.owned_tokens@.len() && 0 <= kk < ll < (
            #[trigger] self.owned_tokens@[i]).token_ids@.len() implies #[trigger] self.owned_tokens@[i].token_ids@[kk]
            != #[trigger] self.owned_tokens@[i].token_ids@[ll] by {
            let list = self.owned_tokens@[i].token_ids@;
            if i < on && i != fi && i != ti {
                assert(self.owned_tokens@[i] == pre.owned_tokens@[i]);
            } else if i == fi && !case_self {
                let ek = if kk < k {
                    fl0[kk]
                } else {
                    fl0[kk + 1]
                };
                let el = if ll < k {
                    fl0[ll]
                } else {
                    fl0[ll + 1]
                };
                assert(list[kk] == ek && list[ll] == el);
            } else if i == fi && case_self {
                if ll < fl1.len() {
                    let ek = if kk < k {
                        fl0[kk]
                    } else {
                        fl0[kk + 1]
                    };
                    let el = if ll < k {
                        fl0[ll]
                    } else {
                        fl0[ll + 1]
                    };
                    assert(list[kk] == ek && list[ll] == el);
                } else {
                    assert(list[ll] == token_id);
                    let ek = if kk < k {
                        fl0[kk]
                    } else {
                        fl0[kk + 1]
                    };
                    assert(list[kk] == ek);
                    assert(ek != token_id);
                }
            } else if case_existing && i == ti {
                if ll < pre.owned_tokens@[ti].token_ids@.len() {
                    assert(list[kk] == pre.owned_tokens@[ti].token_ids@[kk]);
                    assert(list[ll] == pre.owned_tokens@[ti].token_ids@[ll]);
                } else {
                    assert(list[ll] == token_id);
                    assert(list[kk] == pre.owned_tokens@[ti].token_ids@[kk]);
                }
            }
        };
        // index lists read as stated
        self.lemma_owned_idx_is(fi, from);
        if case_self {
            assert(self.owned_list(from) == fl1.push(token_id));
        } else {
            assert(self.owned_list(from) == fl1);
            assert(!self.owned_list(from).contains(token_id));
        }
        if case_existing {
            self.lemma_owned_idx_is(ti, to);
            assert(self.owned_list(to) == pre.owned_tokens@[ti].token_ids@.push(token_id));
            assert(pre.owned_list(to) == pre.owned_tokens@[ti].token_ids@);
        } else if !case_self {
            assert(self.owned_tokens@[on].owner == to);
            self.lemma_owned_idx_is(on, to);
            assert(pre.owned_list(to) =~= Seq::<u128>::empty());
            assert(self.owned_list(to) =~= pre.owned_list(to).push(token_id));
        }
        let ltos = self.owned_list(to);
        assert(ltos[ltos.len() - 1] == token_id);
        assert(self.owned_list(to).contains(token_id));
        // other owners' lists are untouched
        assert forall|a: Address| a != from && a != to implies #[trigger] self.owned_list(a)
            == pre.owned_list(a) by {
            if pre.has_owned_entry(a) {
                let j = pre.owned_entry_idx(a);
                pre.lemma_owned_idx_is(j, a);
                assert(j != fi && j != ti);
                assert(self.owned_tokens@[j] == pre.owned_tokens@[j]);
                self.lemma_owned_idx_is(j, a);
            } else {
                if self.has_owned_entry(a) {
                    let j = self.owned_entry_idx(a);
                    assert(self.owned_tokens@[j].owner == a);
                    if j < on {
                        assert(self.owned_tokens@[j].owner == pre.owned_tokens@[j].owner);
                    }
                    assert(false);
                }
            }
        };
        // every token is listed under its owner
        assert forall|i: int| 0 <= i < self.tokens@.len() implies self.owned_list(
            (#[trigger] self.tokens@[i]).owner,
        ).contains((i + 1) as u128) by {
            if i == idx {
                assert(self.tokens@[i].owner == to);
            } else {
                let a = pre.tokens@[i].owner;
                assert(self.tokens@[i].owner == a);
                let plist = pre.owned_list(a);
                assert(plist.contains((i + 1) as u128));
                let y = choose|y: int| 0 <= y < plist.len() && plist[y] == (i + 1) as u128;
                if a == from {
                    assert(plist == fl0);
                    assert(y != k);
                    let flist = self.owned_list(from);
                    if y < k {
                        assert(flist[y] == fl0[y]);
                    } else {
                        assert(fl1[y - 1] == fl0[y]);
                        assert(flist[y - 1] == fl0[y]);
                    }
                    assert(flist.contains((i + 1) as u128));
                } else if a == to {
                    assert(self.owned_list(to)[y] == plist[y]);
                    assert(self.owned_list(to).contains((i + 1) as u128));
                } else {
                    assert(self.owned_list(a) == plist);
                }
            }
        };
        assert(self.owned_wf());
        assert(self.wf());
    }

    /// After the three appends of `mint` — token catalog, ownership
    /// index, slot token list — the invariant holds again and the
    /// indexes read as the old ones plus the new id.
    proof fn lemma_mint_shape(
        &self,
        pre: ctm_rwa001,
        to: Address,
        slot: u128,
        sidx: int,
        token_id: u128,
        value: u128,
    )
        requires
            pre.wf(),
            0 <= sidx < pre.slots@.len(),
            pre.slots@[sidx].slot == slot,
            token_id == pre.token_id_generator,
            token_id == pre.tokens@.len() + 1,
            self.tokens@.len() == pre.tokens@.len() + 1,
            self.tokens@.subrange(0, pre.tokens@.len() as int) == pre.tokens@,
            self.tokens@.last().id == token_id,
            self.tokens@.last().slot == slot,
            self.tokens@.last().balance == value,
            self.tokens@.last().owner == to,
            self.tokens@.last().approved is None,
            self.tokens@.last().value_approvals@.len() == 0,
            self.tokens@.last().allowances@.len() == 0,
            self.slots@.len() == pre.slots@.len(),
            forall|j: int|
                0 <= j < pre.slots@.len() && j != sidx ==> #[trigger] self.slots@[j]
                    == pre.slots@[j],
            self.slots@[sidx].slot == slot,
            self.slots@[sidx].slot_name == pre.slots@[sidx].slot_name,
            self.slots@[sidx].dividend_rate == pre.slots@[sidx].dividend_rate,
            self.slots@[sidx].slot_tokens@ == pre.slots@[sidx].slot_tokens@.push(token_id),
            (pre.has_owned_entry(to) && {
                let oi = pre.owned_entry_idx(to);
                &&& self.owned_tokens@.len() == pre.owned_tokens@.len()
                &&& forall|j: int|
                    0 <= j < pre.owned_tokens@.len() && j != oi ==> #[trigger] self.owned_tokens@[j]
                        == pre.owned_tokens@[j]
                &&& self.owned_tokens@[oi].owner == to
                &&& self.owned_tokens@[oi].token_ids@ == pre.owned_tokens@[oi].token_ids@.push(
                    token_id,
                )
            }) || (!pre.has_owned_entry(to) && {
                &&& self.owned_tokens@.len() == pre.owned_tokens@.len() + 1
                &&& self.owned_tokens@.subrange(0, pre.owned_tokens@.len() as int)
                    == pre.owned_tokens@
                &&& self.owned_tokens@.last().owner == to
                &&& self.owned_tokens@.last().token_ids@.len() == 1
                &&& self.owned_tokens@.last().token_ids@[0] == token_id
            }),
            self.token_id_generator == token_id + 1,
        ensures
            self.wf(),
            self.spec_slot_exists(slot),
            self.slot_idx(slot) == sidx,
            self.owned_list(to) == pre.owned_list(to).push(token_id),
            forall|a: Address| a != to ==> #[trigger] self.owned_list(a) == pre.owned_list(a),
    {
        let pn = pre.tokens@.len() as int;
        let on = pre.owned_tokens@.len() as int;
        let existing = pre.has_owned_entry(to);
        assert forall|i: int| 0 <= i < pn implies self.tokens@[i] == pre.tokens@[i] by {
            assert(pre.tokens@[i] == self.tokens@.subrange(0, pn)[i]);
        };
        if !existing {
            assert forall|j: int| 0 <= j < on implies self.owned_tokens@[j]
                == pre.owned_tokens@[j] by {
                assert(pre.owned_tokens@[j] == self.owned_tokens@.subrange(0, on)[j]);
            };
        }
        // slot ids are all preserved, so slot lookups are stable
        assert forall|j: int| 0 <= j < self.slots@.len() implies (#[trigger] self.slots@[j]).slot
            == pre.slots@[j].slot by {
            if j != sidx {
                assert(self.slots@[j] == pre.slots@[j]);
            }
        };
        assert(self.slot_ids_unique());
        self.lemma_slot_idx_is(sidx, slot);
        // every old slot list entry is an old id
        assert forall|j: int, k: int|
            0 <= j < pre.slots@.len() && 0 <= k < (
            #[trigger] pre.slots@[j]).slot_tokens@.len() implies 1 <= #[trigger] pre.slots@[j].slot_tokens@[k]
            <= pn by {
            assert(pre.spec_has_token(pre.slots@[j].slot_tokens@[k]));
        };
        // token catalog invariants
        assert(self.token_id_generator == self.tokens@.len() + 1);
        assert forall|i: int| 0 <= i < self.tokens@.len() implies (#[trigger] self.tokens@[i]).id
            == i + 1 by {
            if i < pn {
                assert(self.tokens@[i] == pre.tokens@[i]);
            } else {
                assert(self.tokens@[i] == self.tokens@.last());
            }
        };
        assert forall|i: int| 0 <= i < self.tokens@.len() implies self.spec_slot_exists(
            (#[trigger] self.tokens@[i]).slot,
        ) by {
            if i < pn {
                let s = pre.tokens@[i].slot;
                assert(pre.spec_slot_exists(s));
                let w = pre.slot_idx(s);
                assert(pre.slots@[w].slot == s);
                assert(self.slots@[w].slot == s);
            } else {
                assert(self.slots@[sidx].slot == self.tokens@[i].slot);
            }
        };
        assert forall|i: int| 0 <= i < self.tokens@.len() implies (
        #[trigger] self.tokens@[i]).approvals_wf() by {
            if i < pn {
                assert(self.tokens@[i] == pre.tokens@[i]);
                assert(pre.tokens@[i].approvals_wf());
            }
        };
        assert(self.tokens_wf());
        // slot catalog invariants
        assert forall|j: int, k: int|
            0 <= j < self.slots@.len() && 0 <= k < (
            #[trigger] self.slots@[j]).slot_tokens@.len() implies self.spec_has_token(
            #[trigger] self.slots@[j].slot_tokens@[k],
        ) && self.spec_token(self.slots@[j].slot_tokens@[k]).slot == self.slots@[j].slot by {
            if j != sidx {
                assert(self.slots@[j] == pre.slots@[j]);
                let e = pre.slots@[j].slot_tokens@[k];
                assert(pre.spec_has_token(e) && pre.spec_token(e).slot == pre.slots@[j].slot);
                assert(self.tokens@[e as int - 1] == pre.tokens@[e as int - 1]);
            } else {
                if k < pre.slots@[sidx].slot_tokens@.len() {
                    let e = pre.slots@[sidx].slot_tokens@[k];
                    assert(self.slots@[sidx].slot_tokens@[k] == e);
                    assert(pre.spec_has_token(e) && pre.spec_token(e).slot == pre.slots@[sidx].slot);
                    assert(self.tokens@[e as int - 1] == pre.tokens@[e as int - 1]);
                } else {
                    assert(self.slots@[sidx].slot_tokens@[k] == token_id);
                    assert(self.spec_token(token_id) == self.tokens@.last());
                }
            }
        };
        assert forall|j: int, k: int, l: int|
            0 <= j < self.slots@.len() && 0 <= k < l < (
            #[trigger] self.slots@[j]).slot_tokens@.len() implies #[trigger] self.slots@[j].slot_tokens@[k]
            != #[trigger] self.slots@[j].slot_tokens@[l] by {
            if j != sidx {
                assert(self.slots@[j] == pre.slots@[j]);
            } else {
                if l < pre.slots@[sidx].slot_tokens@.len() {
                    assert(self.slots@[j].slot_tokens@[k] == pre.slots@[j].slot_tokens@[k]);
                    assert(self.slots@[j].slot_tokens@[l] == pre.slots@[j].slot_tokens@[l]);
                } else {
                    assert(self.slots@[j].slot_tokens@[l] == token_id);
                    assert(self.slots@[j].slot_tokens@[k] == pre.slots@[j].slot_tokens@[k]);
                }
            }
        };
        assert forall|i: int| 0 <= i < self.tokens@.len() implies self.spec_slot(
            (#[trigger] self.tokens@[i]).slot,
        ).slot_tokens@.contains((i + 1) as u128) by {
            if i < pn {
                let s = pre.tokens@[i].slot;
                let w = pre.slot_idx(s);
                assert(pre.slots@[w].slot == s);
                self.lemma_slot_idx_is(w, s);
                let list = pre.spec_slot(s).slot_tokens@;
                assert(list.contains((i + 1) as u128));
                let x = choose|x: int| 0 <= x < list.len() && list[x] == (i + 1) as u128;
                if w == sidx {
                    assert(self.slots@[sidx].slot_tokens@[x] == (i + 1) as u128);
                } else {
                    assert(self.slots@[w] == pre.slots@[w]);
                }
            } else {
                assert(self.tokens@[i].slot == slot);
                let list = self.slots@[sidx].slot_tokens@;
                assert(list[list.len() - 1] == token_id);
                assert(list.contains((i + 1) as u128));
            }
        };
        assert(self.slots_wf());
        // ownership index invariants
        self.lemma_mint_owned(pre, to, token_id);
        assert(self.wf());
    }

    /// The ownership-index half of `lemma_mint_shape`.
    proof fn lemma_mint_owned(&self, pre: ctm_rwa001, to: Address, token_id: u128)
        requires
            pre.wf(),
            token_id == pre.tokens@.len() + 1,
            self.tokens@.len() == pre.tokens@.len() + 1,
            forall|i: int| 0 <= i < pre.tokens@.len() ==> #[trigger] self.tokens@[i]
                == pre.tokens@[i],
            self.tokens@.last().owner == to,
            (pre.has_owned_entry(to) && {
                let oi = pre.owned_entry_idx(to);
                &&& self.owned_tokens@.len() == pre.owned_tokens@.len()
                &&& forall|j: int|
                    0 <= j < pre.owned_tokens@.len() && j != oi ==> #[trigger] self.owned_tokens@[j]
                        == pre.owned_tokens@[j]
                &&& self.owned_tokens@[oi].owner == to
                &&& self.owned_tokens@[oi].token_ids@ == pre.owned_tokens@[oi].token_ids@.push(
                    token_id,
                )
            }) || (!pre.has_owned_entry(to) && {
                &&& self.owned_tokens@.len() == pre.owned_tokens@.len() + 1
                &&& forall|j: int|
                    0 <= j < pre.owned_tokens@.len() ==> #[trigger] self.owned_tokens@[j]
                        == pre.owned_tokens@[j]
                &&& self.owned_tokens@.last().owner == to
                &&& self.owned_tokens@.last().token_ids@.len() == 1
                &&& self.owned_tokens@.last().token_ids@[0] == token_id
            }),
        ensures
            self.owned_wf(),
            self.owned_list(to) == pre.owned_list(to).push(token_id),
            forall|a: Address| a != to ==> #[trigger] self.owned_list(a) == pre.owned_list(a),
    {
        let on = pre.owned_tokens@.len() as int;
        let pn = pre.tokens@.len() as int;
        let existing = pre.has_owned_entry(to);
        // every old index entry holds old ids
        assert forall|i: int, k: int|
            0 <= i < on && 0 <= k < (#[trigger] pre.owned_tokens@[i]).token_ids@.len() implies 1
            <= #[trigger] pre.owned_tokens@[i].token_ids@[k] <= pn by {
            assert(pre.spec_has_token(pre.owned_tokens@[i].token_ids@[k]));
        };
        // unique owner keys
        assert forall|i: int, j: int|
            0 <= i < j < self.owned_tokens@.len() implies (#[trigger] self.owned_tokens@[i]).owner
            != (#[trigger] self.owned_tokens@[j]).owner by {
            if existing {
                let oi = pre.owned_entry_idx(to);
                assert(self.owned_tokens@[i].owner == pre.owned_tokens@[i].owner);
                assert(self.owned_tokens@[j].owner == pre.owned_tokens@[j].owner);
            } else {
                if j < on {
                } else {
                    assert(self.owned_tokens@[i].owner == pre.owned_tokens@[i].owner);
                    assert(self.owned_tokens@[j].owner == to);
                    assert(pre.owned_tokens@[i].owner != to);
                }
            }
        };
        assert(self.owner_keys_unique());
        // entries valid, owned by the entry's owner, and distinct
        assert forall|i: int, k: int|
            0 <= i < self.owned_tokens@.len() && 0 <= k < (
            #[trigger] self.owned_tokens@[i]).token_ids@.len() implies self.spec_has_token(
            #[trigger] self.owned_tokens@[i].token_ids@[k],
        ) && self.spec_token(self.owned_tokens@[i].token_ids@[k]).owner
            == self.owned_tokens@[i].owner by {
            let oi = if existing {
                pre.owned_entry_idx(to)
            } else {
                on
            };
            if i == oi {
                if existing {
                    if k < pre.owned_tokens@[oi].token_ids@.len() {
                        let e = pre.owned_tokens@[oi].token_ids@[k];
                        assert(self.owned_tokens@[i].token_ids@[k] == e);
                        assert(pre.spec_has_token(e));
                        assert(self.tokens@[e as int - 1] == pre.tokens@[e as int - 1]);
                    } else {
                        assert(self.owned_tokens@[i].token_ids@[k] == token_id);
                        assert(self.spec_token(token_id) == self.tokens@.last());
                    }
                } else {
                    assert(self.owned_tokens@[i].token_ids@[k] == token_id);
                    assert(self.spec_token(token_id) == self.tokens@.last());
                    assert(self.owned_tokens@[i].owner == to);
                }
            } else {
                assert(self.owned_tokens@[i] == pre.owned_tokens@[i]);
                let e = pre.owned_tokens@[i].token_ids@[k];
                assert(pre.spec_has_token(e));
                assert(self.tokens@[e as int - 1] == pre.tokens@[e as int - 1]);
            }
        };
        assert forall|i: int, k: int, l: int|
            0 <= i < self.owned_tokens@.len() && 0 <= k < l < (
            #[trigger] self.owned_tokens@[i]).token_ids@.len() implies #[trigger] self.owned_tokens@[i].token_ids@[k]
            != #[trigger] self.owned_tokens@[i].token_ids@[l] by {
            let oi = if existing {
                pre.owned_entry_idx(to)
            } else {
                on
            };
            if i == oi {
                if existing {
                    if l < pre.owned_tokens@[oi].token_ids@.len() {
                        assert(self.owned_tokens@[i].token_ids@[k] == pre.owned_tokens@[i].token_ids@[k]);
                        assert(self.owned_tokens@[i].token_ids@[l] == pre.owned_tokens@[i].token_ids@[l]);
                    } else {
                        assert(self.owned_tokens@[i].token_ids@[l] == token_id);
                        assert(self.owned_tokens@[i].token_ids@[k] == pre.owned_tokens@[i].token_ids@[k]);
                    }
                }
            } else {
                assert(self.owned_tokens@[i] == pre.owned_tokens@[i]);
            }
        };
        // the new id is listed under `to`
        let fi = if existing {
            pre.owned_entry_idx(to)
        } else {
            on
        };
        assert(self.owned_tokens@[fi].owner == to);
        self.lemma_owned_idx_is(fi, to);
        if existing {
            pre.lemma_owned_idx_is(fi, to);
            assert(self.owned_list(to) == pre.owned_list(to).push(token_id));
        } else {
            assert(pre.owned_list(to) =~= Seq::<u128>::empty());
            assert(self.owned_list(to) =~= pre.owned_list(to).push(token_id));
        }
        let flist = self.owned_list(to);
        assert(flist[flist.len() - 1] == token_id);
        // lists of other owners are untouched
        assert forall|a: Address| a != to implies #[trigger] self.owned_list(a) == pre.owned_list(
            a,
        ) by {
            if pre.has_owned_entry(a) {
                let j = pre.owned_entry_idx(a);
                pre.lemma_owned_idx_is(j, a);
                assert(pre.owned_tokens@[j].owner == a);
                assert(j != fi);
                assert(self.owned_tokens@[j] == pre.owned_tokens@[j]);
                self.lemma_owned_idx_is(j, a);
            } else {
                if self.has_owned_entry(a) {
                    let j = self.owned_entry_idx(a);
                    assert(self.owned_tokens@[j].owner == a);
                    assert(j != fi);
                    assert(self.owned_tokens@[j] == pre.owned_tokens@[j]);
                    assert(false);
                }
            }
        };
        // membership of every token under its owner
        assert forall|i: int| 0 <= i < self.tokens@.len() implies self.owned_list(
            (#[trigger] self.tokens@[i]).owner,
        ).contains((i + 1) as u128) by {
            if i < pn {
                let a = pre.tokens@[i].owner;
                assert(self.tokens@[i].owner == a);
                let plist = pre.owned_list(a);
                assert(plist.contains((i + 1) as u128));
                let x = choose|x: int| 0 <= x < plist.len() && plist[x] == (i + 1) as u128;
                if a == to {
                    assert(self.owned_list(a)[x] == (i + 1) as u128);
                } else {
                    assert(self.owned_list(a) == plist);
                }
                assert(self.owned_list(a).contains((i + 1) as u128));
            } else {
                assert(self.tokens@[i].owner == to);
                assert(flist.contains((i + 1) as u128));
            }
        };
        assert(self.owned_wf());
    }

    /// With unique owner keys, a position holding `owner` is the
    /// position the ownership-index lookup refers to.
    proof fn lemma_owned_idx_is(&self, i: int, owner: Address)
        requires
            self.owner_keys_unique(),
            0 <= i < self.owned_tokens@.len(),
            self.owned_tokens@[i].owner == owner,
        ensures
            self.has_owned_entry(owner),
            self.owned_entry_idx(owner) == i,
    {
        assert(self.has_owned_entry(owner));
        let k = self.owned_entry_idx(owner);
        assert(0 <= k < self.owned_tokens@.len() && self.owned_tokens@[k].owner == owner);
        if k != i {
            if k < i {
                assert(self.owned_tokens@[k].owner != self.owned_tokens@[i].owner);
            } else {
                assert(self.owned_tokens@[i].owner != self.owned_tokens@[k].owner);
            }
        }
    }

    /// With unique slot ids, a position holding `slot` is the position
    /// the slot lookup refers to.
    proof fn lemma_slot_idx_is(&self, i: int, slot: u128)
        requires
            self.slot_ids_unique(),
            0 <= i < self.slots@.len(),
            self.slots@[i].slot == slot,
        ensures
            self.spec_slot_exists(slot),
            self.slot_idx(slot) == i,
    {
        assert(self.spec_slot_exists(slot));
        let k = self.slot_idx(slot);
        assert(0 <= k < self.slots@.len() && self.slots@[k].slot == slot);
        if k != i {
            if k < i {
                assert(self.slots@[k].slot != self.slots@[i].slot);
            } else {
                assert(self.slots@[i].slot != self.slots@[k].slot);
            }
        }
    }
}

} // verus!
