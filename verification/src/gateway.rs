//! The gateway: per-classification tables of sibling contract
//! addresses on other chains, keyed by chain-id string, with
//! idempotent find-or-append upserts driven by governance.

use vstd::prelude::*;

use crate::types::{Address, Error};

verus! {

/// A sibling contract on another chain: the chain's decimal id
/// string and the contract's 42-character address string.
pub struct ChainContract {
    pub chain_id_str: String,
    pub contract_str: String,
}

/// The mathematical shape of one sibling-contract row.
pub struct ChainContractV {
    pub chain_id_str: Seq<char>,
    pub contract_str: Seq<char>,
}

impl View for ChainContract {
    type V = ChainContractV;

    open spec fn view(&self) -> ChainContractV {
        ChainContractV { chain_id_str: self.chain_id_str@, contract_str: self.contract_str@ }
    }
}

impl DeepView for ChainContract {
    type V = ChainContractV;

    open spec fn deep_view(&self) -> ChainContractV {
        self.view()
    }
}

/// Upsert one (chain id, contract) pair: overwrite the first row with
/// that chain id, or append a new row when none matches.
pub open spec fn upsert_one(s: Seq<ChainContractV>, id: Seq<char>, c: Seq<char>) -> Seq<
    ChainContractV,
>
    decreases s.len(),
{
    if s.len() == 0 {
        seq![ChainContractV { chain_id_str: id, contract_str: c }]
    } else if s[0].chain_id_str == id {
        seq![ChainContractV { chain_id_str: id, contract_str: c }] + s.drop_first()
    } else {
        seq![s[0]] + upsert_one(s.drop_first(), id, c)
    }
}

/// Upsert a batch of pairs, in order.
pub open spec fn upsert_all(s: Seq<ChainContractV>, ids: Seq<Seq<char>>, cs: Seq<Seq<char>>) -> Seq<
    ChainContractV,
>
    decreases ids.len(),
{
    if ids.len() == 0 {
        s
    } else {
        upsert_all(upsert_one(s, ids[0], cs[0]), ids.drop_first(), cs.drop_first())
    }
}

/// The chain-id list after a batch: ids whose pair appended a new row
/// are appended here too, in order.
pub open spec fn chains_after(
    s: Seq<ChainContractV>,
    ch: Seq<Seq<char>>,
    ids: Seq<Seq<char>>,
    cs: Seq<Seq<char>>,
) -> Seq<Seq<char>>
    decreases ids.len(),
{
    if ids.len() == 0 {
        ch
    } else {
        let ch1 = if has_chain(s, ids[0]) {
            ch
        } else {
            ch.push(ids[0])
        };
        chains_after(upsert_one(s, ids[0], cs[0]), ch1, ids.drop_first(), cs.drop_first())
    }
}

/// Whether some row carries this chain id.
pub open spec fn has_chain(s: Seq<ChainContractV>, id: Seq<char>) -> bool {
    exists|i: int| 0 <= i < s.len() && (#[trigger] s[i]).chain_id_str == id
}

/// The contract string of the first row carrying this chain id.
pub open spec fn spec_lookup(s: Seq<ChainContractV>, id: Seq<char>) -> Option<Seq<char>>
    decreases s.len(),
{
    if s.len() == 0 {
        None
    } else if s[0].chain_id_str == id {
        Some(s[0].contract_str)
    } else {
        spec_lookup(s.drop_first(), id)
    }
}

/// A first match at `i` pins the lookup result.
proof fn lemma_lookup_at(s: Seq<ChainContractV>, id: Seq<char>, i: int)
    requires
        0 <= i < s.len(),
        s[i].chain_id_str == id,
        forall|j: int| 0 <= j < i ==> (#[trigger] s[j]).chain_id_str != id,
    ensures
        spec_lookup(s, id) == Some(s[i].contract_str),
    decreases i,
{
    if i == 0 {
    } else {
        assert(s.drop_first()[i - 1] == s[i]);
        assert forall|j: int| 0 <= j < i - 1 implies (#[trigger] s.drop_first()[j]).chain_id_str
            != id by {
            assert(s.drop_first()[j] == s[j + 1]);
        };
        lemma_lookup_at(s.drop_first(), id, i - 1);
    }
}

/// No match anywhere means the lookup misses.
proof fn lemma_lookup_absent(s: Seq<ChainContractV>, id: Seq<char>)
    requires
        forall|j: int| 0 <= j < s.len() ==> (#[trigger] s[j]).chain_id_str != id,
    ensures
        spec_lookup(s, id) is None,
    decreases s.len(),
{
    if s.len() > 0 {
        assert forall|j: int|
            0 <= j < s.drop_first().len() implies (#[trigger] s.drop_first()[j]).chain_id_str
            != id by {
            assert(s.drop_first()[j] == s[j + 1]);
        };
        lemma_lookup_absent(s.drop_first(), id);
    }
}

/// A first match at `i` makes the upsert an in-place overwrite.
proof fn lemma_upsert_one_found(s: Seq<ChainContractV>, id: Seq<char>, c: Seq<char>, i: int)
    requires
        0 <= i < s.len(),
        s[i].chain_id_str == id,
        forall|j: int| 0 <= j < i ==> (#[trigger] s[j]).chain_id_str != id,
    ensures
        upsert_one(s, id, c) =~= s.update(
            i,
            (ChainContractV { chain_id_str: id, contract_str: c }),
        ),
    decreases i,
{
    if i == 0 {
    } else {
        assert(s.drop_first()[i - 1] == s[i]);
        assert forall|j: int| 0 <= j < i - 1 implies (#[trigger] s.drop_first()[j]).chain_id_str
            != id by {
            assert(s.drop_first()[j] == s[j + 1]);
        };
        lemma_upsert_one_found(s.drop_first(), id, c, i - 1);
    }
}

/// No match anywhere makes the upsert an append.
proof fn lemma_upsert_one_absent(s: Seq<ChainContractV>, id: Seq<char>, c: Seq<char>)
    requires
        forall|j: int| 0 <= j < s.len() ==> (#[trigger] s[j]).chain_id_str != id,
    ensures
        upsert_one(s, id, c) =~= s.push((ChainContractV { chain_id_str: id, contract_str: c })),
    decreases s.len(),
{
    if s.len() > 0 {
        assert forall|j: int|
            0 <= j < s.drop_first().len() implies (#[trigger] s.drop_first()[j]).chain_id_str
            != id by {
            assert(s.drop_first()[j] == s[j + 1]);
        };
        lemma_upsert_one_absent(s.drop_first(), id, c);
    }
}

/// A batch grows one pair at a time from the left.
proof fn lemma_upsert_all_snoc(
    s: Seq<ChainContractV>,
    ids: Seq<Seq<char>>,
    cs: Seq<Seq<char>>,
    x: Seq<char>,
    y: Seq<char>,
)
    requires
        ids.len() == cs.len(),
    ensures
        upsert_all(s, ids.push(x), cs.push(y)) == upsert_one(upsert_all(s, ids, cs), x, y),
    decreases ids.len(),
{
    if ids.len() == 0 {
        assert(ids.push(x).drop_first() =~= ids);
        assert(cs.push(y).drop_first() =~= cs);
        assert(ids.push(x)[0] == x && cs.push(y)[0] == y);
        assert(upsert_all(s, ids.push(x), cs.push(y)) == upsert_all(
            upsert_one(s, x, y),
            ids,
            cs,
        ));
    } else {
        assert(ids.push(x).drop_first() =~= ids.drop_first().push(x));
        assert(cs.push(y).drop_first() =~= cs.drop_first().push(y));
        lemma_upsert_all_snoc(upsert_one(s, ids[0], cs[0]), ids.drop_first(), cs.drop_first(), x, y);
    }
}

/// The chain list grows the same way.
proof fn lemma_chains_after_snoc(
    s: Seq<ChainContractV>,
    ch: Seq<Seq<char>>,
    ids: Seq<Seq<char>>,
    cs: Seq<Seq<char>>,
    x: Seq<char>,
    y: Seq<char>,
)
    requires
        ids.len() == cs.len(),
    ensures
        chains_after(s, ch, ids.push(x), cs.push(y)) == (if has_chain(
            upsert_all(s, ids, cs),
            x,
        ) {
            chains_after(s, ch, ids, cs)
        } else {
            chains_after(s, ch, ids, cs).push(x)
        }),
    decreases ids.len(),
{
    if ids.len() == 0 {
        assert(ids.push(x).drop_first() =~= ids);
        assert(cs.push(y).drop_first() =~= cs);
        assert(ids.push(x)[0] == x && cs.push(y)[0] == y);
        let ch1 = if has_chain(s, x) {
            ch
        } else {
            ch.push(x)
        };
        assert(chains_after(s, ch, ids.push(x), cs.push(y)) == chains_after(
            upsert_one(s, x, y),
            ch1,
            ids,
            cs,
        ));
        assert(chains_after(upsert_one(s, x, y), ch1, ids, cs) == ch1);
        assert(chains_after(s, ch, ids, cs) == ch);
        assert(upsert_all(s, ids, cs) == s);
    } else {
        assert(ids.push(x).drop_first() =~= ids.drop_first().push(x));
        assert(cs.push(y).drop_first() =~= cs.drop_first().push(y));
        assert(ids.push(x)[0] == ids[0] && cs.push(y)[0] == cs[0]);
        let ch1 = if has_chain(s, ids[0]) {
            ch
        } else {
            ch.push(ids[0])
        };
        assert(chains_after(s, ch, ids.push(x), cs.push(y)) == chains_after(
            upsert_one(s, ids[0], cs[0]),
            ch1,
            ids.drop_first().push(x),
            cs.drop_first().push(y),
        ));
        lemma_chains_after_snoc(
            upsert_one(s, ids[0], cs[0]),
            ch1,
            ids.drop_first(),
            cs.drop_first(),
            x,
            y,
        );
        assert(chains_after(s, ch, ids, cs) == chains_after(
            upsert_one(s, ids[0], cs[0]),
            ch1,
            ids.drop_first(),
            cs.drop_first(),
        ));
        assert(upsert_all(s, ids, cs) == upsert_all(
            upsert_one(s, ids[0], cs[0]),
            ids.drop_first(),
            cs.drop_first(),
        ));
    }
}

/// Overwrite the first row carrying each chain id, appending a new
/// row where none matches; exactly the batch-upsert shape.
fn upsert_contracts(list: &mut Vec<ChainContract>, chain_ids: &Vec<String>, contract_strs: &Vec<
    String,
>)
    requires
        chain_ids@.len() == contract_strs@.len(),
    ensures
        final(list).deep_view() == upsert_all(
            old(list).deep_view(),
            chain_ids.deep_view(),
            contract_strs.deep_view(),
        ),
{
    let ghost pre = list.deep_view();
    let ghost gids = chain_ids.deep_view();
    let ghost gcs = contract_strs.deep_view();
    let m = chain_ids.len();
    let mut k: usize = 0;
    while k < m
        invariant
            m == chain_ids@.len(),
            chain_ids@.len() == contract_strs@.len(),
            gids == chain_ids.deep_view(),
            gcs == contract_strs.deep_view(),
            0 <= k <= m,
            list.deep_view() == upsert_all(pre, gids.subrange(0, k as int), gcs.subrange(0, k as int)),
        decreases m - k,
    {
        let ghost lpre = list.deep_view();
        let id = &chain_ids[k];
        let cstr = &contract_strs[k];
        if let Some(i) = find_chain_index(list, id) {
            list[i].contract_str = cstr.clone();
            proof {
                assert(list.deep_view() =~= lpre.update(
                    i as int,
                    (ChainContractV { chain_id_str: id@, contract_str: cstr@ }),
                ));
                lemma_upsert_one_found(lpre, id@, cstr@, i as int);
            }
        } else {
            list.push(ChainContract { chain_id_str: id.clone(), contract_str: cstr.clone() });
            proof {
                assert(list.deep_view() =~= lpre.push(
                    (ChainContractV { chain_id_str: id@, contract_str: cstr@ }),
                ));
                lemma_upsert_one_absent(lpre, id@, cstr@);
            }
        }
        proof {
            assert(gids.subrange(0, k as int).push(gids[k as int]) =~= gids.subrange(
                0,
                k as int + 1,
            ));
            assert(gcs.subrange(0, k as int).push(gcs[k as int]) =~= gcs.subrange(0, k as int + 1));
            lemma_upsert_all_snoc(
                pre,
                gids.subrange(0, k as int),
                gcs.subrange(0, k as int),
                gids[k as int],
                gcs[k as int],
            );
            assert(gids[k as int] == id@ && gcs[k as int] == cstr@);
        }
        k = k + 1;
    }
    proof {
        assert(gids.subrange(0, m as int) =~= gids);
        assert(gcs.subrange(0, m as int) =~= gcs);
    }
}

/// The first row carrying this chain id, if any.
fn find_chain_index(list: &Vec<ChainContract>, id: &String) -> (r: Option<usize>)
    ensures
        match r {
            Some(i) => i < list@.len() && list.deep_view()[i as int].chain_id_str == id@ && (forall|
                j: int,
            | 0 <= j < i ==> (#[trigger] list.deep_view()[j]).chain_id_str != id@),
            None => forall|j: int|
                0 <= j < list@.len() ==> (#[trigger] list.deep_view()[j]).chain_id_str != id@,
        },
{
    let n = list.len();
    let mut i: usize = 0;
    while i < n
        invariant
            n == list@.len(),
            0 <= i <= n,
            forall|j: int| 0 <= j < i ==> (#[trigger] list.deep_view()[j]).chain_id_str != id@,
        decreases n - i,
    {
        if list[i].chain_id_str == *id {
            assert(list.deep_view()[i as int].chain_id_str == id@);
            return Some(i);
        }
        assert(list.deep_view()[i as int].chain_id_str != id@);
        i = i + 1;
    }
    None
}

/// Whether every contract string in the batch is exactly 42
/// characters.
pub open spec fn all_addr_42(cs: Seq<Seq<char>>) -> bool {
    forall|i: int| 0 <= i < cs.len() ==> (#[trigger] cs[i]).len() == 42
}

/// Check every contract string's length.
fn check_addr_lengths(contract_strs: &Vec<String>) -> (ok: bool)
    ensures
        ok == all_addr_42(contract_strs.deep_view()),
{
    let n = contract_strs.len();
    let mut i: usize = 0;
    while i < n
        invariant
            n == contract_strs@.len(),
            0 <= i <= n,
            forall|j: int| 0 <= j < i ==> (#[trigger] contract_strs.deep_view()[j]).len() == 42,
        decreases n - i,
    {
        if contract_strs[i].as_str().unicode_len() != 42 {
            assert(contract_strs.deep_view()[i as int].len() != 42);
            return false;
        }
        i = i + 1;
    }
    true
}

/// The cross-chain coordination contracts for one classification,
/// with the chain ids that have one, in attachment order.
pub struct RwaXEntry {
    pub rwa_type: u32,
    pub version: u32,
    pub contracts: Vec<ChainContract>,
    pub chains: Vec<String>,
}

/// The storage- or sentry-manager contracts for one classification.
pub struct ManagerEntry {
    pub rwa_type: u32,
    pub version: u32,
    pub contracts: Vec<ChainContract>,
}

/// Whether a manager table has an entry for the pair.
pub open spec fn has_mgr(s: Seq<ManagerEntry>, t: u32, v: u32) -> bool {
    exists|i: int|
        0 <= i < s.len() && (#[trigger] s[i]).rwa_type == t && s[i].version == v
}

/// The position of the pair's entry in a manager table.
pub open spec fn mgr_idx(s: Seq<ManagerEntry>, t: u32, v: u32) -> int {
    choose|i: int|
        0 <= i < s.len() && (#[trigger] s[i]).rwa_type == t && s[i].version == v
}

/// The pair's rows in a manager table; empty when it has no entry.
pub open spec fn mgr_contracts(s: Seq<ManagerEntry>, t: u32, v: u32) -> Seq<ChainContractV> {
    if has_mgr(s, t, v) {
        s[mgr_idx(s, t, v)].contracts.deep_view()
    } else {
        Seq::empty()
    }
}

/// A manager table has at most one entry per pair.
pub open spec fn mgr_keys_unique(s: Seq<ManagerEntry>) -> bool {
    forall|i: int, j: int|
        0 <= i < j < s.len() ==> !((#[trigger] s[i]).rwa_type == (#[trigger] s[j]).rwa_type
            && s[i].version == s[j].version)
}

/// With unique pairs, a position holding the pair is the position the
/// manager lookup refers to.
proof fn lemma_mgr_idx_is(s: Seq<ManagerEntry>, i: int, t: u32, v: u32)
    requires
        mgr_keys_unique(s),
        0 <= i < s.len(),
        s[i].rwa_type == t,
        s[i].version == v,
    ensures
        has_mgr(s, t, v),
        mgr_idx(s, t, v) == i,
{
    assert(has_mgr(s, t, v));
    let k = mgr_idx(s, t, v);
    assert(0 <= k < s.len() && s[k].rwa_type == t && s[k].version == v);
    if k != i {
        if k < i {
            assert(!(s[k].rwa_type == s[i].rwa_type && s[k].version == s[i].version));
        } else {
            assert(!(s[i].rwa_type == s[k].rwa_type && s[i].version == s[k].version));
        }
    }
}

/// A manager write at one pair leaves every other pair's rows as they
/// were.
proof fn lemma_mgr_frame(post: Seq<ManagerEntry>, pre: Seq<ManagerEntry>, w: int, t: u32, v: u32)
    requires
        mgr_keys_unique(pre),
        mgr_keys_unique(post),
        post.len() == pre.len() || (post.len() == pre.len() + 1 && w == pre.len()),
        forall|j: int| 0 <= j < pre.len() && j != w ==> #[trigger] post[j] == pre[j],
        0 <= w < post.len(),
        !(post[w].rwa_type == t && post[w].version == v),
        w < pre.len() ==> pre[w].rwa_type == post[w].rwa_type && pre[w].version == post[w].version,
    ensures
        has_mgr(post, t, v) == has_mgr(pre, t, v),
        has_mgr(pre, t, v) ==> mgr_contracts(post, t, v) == mgr_contracts(pre, t, v),
{
    if has_mgr(pre, t, v) {
        let j = mgr_idx(pre, t, v);
        assert(0 <= j < pre.len() && pre[j].rwa_type == t && pre[j].version == v);
        assert(j != w);
        assert(post[j] == pre[j]);
        lemma_mgr_idx_is(post, j, t, v);
    } else {
        if has_mgr(post, t, v) {
            let j = mgr_idx(post, t, v);
            assert(0 <= j < post.len() && post[j].rwa_type == t && post[j].version == v);
            assert(j != w);
            if j < pre.len() {
                assert(post[j] == pre[j]);
                assert(has_mgr(pre, t, v));
            } else {
                assert(j == w);
            }
            assert(false);
        }
    }
}

/// Whether the coordination table has an entry for the pair.
pub open spec fn has_x(s: Seq<RwaXEntry>, t: u32, v: u32) -> bool {
    exists|i: int|
        0 <= i < s.len() && (#[trigger] s[i]).rwa_type == t && s[i].version == v
}

/// The position of the pair's entry in the coordination table.
pub open spec fn x_idx(s: Seq<RwaXEntry>, t: u32, v: u32) -> int {
    choose|i: int|
        0 <= i < s.len() && (#[trigger] s[i]).rwa_type == t && s[i].version == v
}

/// The pair's rows in the coordination table; empty when absent.
pub open spec fn x_contracts(s: Seq<RwaXEntry>, t: u32, v: u32) -> Seq<ChainContractV> {
    if has_x(s, t, v) {
        s[x_idx(s, t, v)].contracts.deep_view()
    } else {
        Seq::empty()
    }
}

/// The pair's chain-id list in the coordination table; empty when
/// absent.
pub open spec fn x_chains(s: Seq<RwaXEntry>, t: u32, v: u32) -> Seq<Seq<char>> {
    if has_x(s, t, v) {
        s[x_idx(s, t, v)].chains.deep_view()
    } else {
        Seq::empty()
    }
}

/// The coordination table has at most one entry per pair.
pub open spec fn x_keys_unique(s: Seq<RwaXEntry>) -> bool {
    forall|i: int, j: int|
        0 <= i < j < s.len() ==> !((#[trigger] s[i]).rwa_type == (#[trigger] s[j]).rwa_type
            && s[i].version == s[j].version)
}

/// With unique pairs, a position holding the pair is the position the
/// coordination lookup refers to.
proof fn lemma_x_idx_is(s: Seq<RwaXEntry>, i: int, t: u32, v: u32)
    requires
        x_keys_unique(s),
        0 <= i < s.len(),
        s[i].rwa_type == t,
        s[i].version == v,
    ensures
        has_x(s, t, v),
        x_idx(s, t, v) == i,
{
    assert(has_x(s, t, v));
    let k = x_idx(s, t, v);
    assert(0 <= k < s.len() && s[k].rwa_type == t && s[k].version == v);
    if k != i {
        if k < i {
            assert(!(s[k].rwa_type == s[i].rwa_type && s[k].version == s[i].version));
        } else {
            assert(!(s[i].rwa_type == s[k].rwa_type && s[i].version == s[k].version));
        }
    }
}

/// A coordination write at one pair leaves every other pair's rows
/// and chain list as they were.
proof fn lemma_x_frame(post: Seq<RwaXEntry>, pre: Seq<RwaXEntry>, w: int, t: u32, v: u32)
    requires
        x_keys_unique(pre),
        x_keys_unique(post),
        post.len() == pre.len() || (post.len() == pre.len() + 1 && w == pre.len()),
        forall|j: int| 0 <= j < pre.len() && j != w ==> #[trigger] post[j] == pre[j],
        0 <= w < post.len(),
        !(post[w].rwa_type == t && post[w].version == v),
        w < pre.len() ==> pre[w].rwa_type == post[w].rwa_type && pre[w].version == post[w].version,
    ensures
        has_x(post, t, v) == has_x(pre, t, v),
        has_x(pre, t, v) ==> x_contracts(post, t, v) == x_contracts(pre, t, v) && x_chains(
            post,
            t,
            v,
        ) == x_chains(pre, t, v),
{
    if has_x(pre, t, v) {
        let j = x_idx(pre, t, v);
        assert(0 <= j < pre.len() && pre[j].rwa_type == t && pre[j].version == v);
        assert(j != w);
        assert(post[j] == pre[j]);
        lemma_x_idx_is(post, j, t, v);
    } else {
        if has_x(post, t, v) {
            let j = x_idx(post, t, v);
            assert(0 <= j < post.len() && post[j].rwa_type == t && post[j].version == v);
            assert(j != w);
            if j < pre.len() {
                assert(post[j] == pre[j]);
                assert(has_x(pre, t, v));
            } else {
                assert(j == w);
            }
            assert(false);
        }
    }
}

/// The complete state of one gateway contract instance.
#[allow(non_camel_case_types)]
pub struct CTMRWAGateway {
    /// The governance address; `None` until `initialize` has run.
    pub governor: Option<Address>,
    /// This chain's identifier string.
    pub chain_id_str: String,
    /// Sibling gateways on other chains, this contract's own entry
    /// first.
    pub chain_contracts: Vec<ChainContract>,
    /// Cross-chain coordination contracts per classification.
    pub rwa_x: Vec<RwaXEntry>,
    /// Storage managers per classification.
    pub storage_managers: Vec<ManagerEntry>,
    /// Sentry managers per classification.
    pub sentry_managers: Vec<ManagerEntry>,
}

impl CTMRWAGateway {
    /// Whether `initialize` has run.
    pub open spec fn is_initialized(&self) -> bool {
        self.governor is Some
    }

    /// The gateway invariant: each classification table is keyed at
    /// most once per pair.
    pub open spec fn wf(&self) -> bool {
        &&& x_keys_unique(self.rwa_x@)
        &&& mgr_keys_unique(self.storage_managers@)
        &&& mgr_keys_unique(self.sentry_managers@)
    }

    /// The admission check every governance call must pass.
    pub open spec fn spec_gov_check(&self, caller: Address, caller_authorized: bool) -> Result<
        (),
        Error,
    > {
        if !caller_authorized {
            Err(Error::Unauthorized)
        } else if self.governor is None {
            Err(Error::ConfigMissing)
        } else if self.governor != Some(caller) {
            Err(Error::Unauthorized)
        } else {
            Ok(())
        }
    }

    /// The admission and argument checks every batch attach must
    /// pass.
    pub open spec fn spec_batch_check(
        &self,
        caller: Address,
        caller_authorized: bool,
        ids: Seq<String>,
        cs: Seq<Seq<char>>,
    ) -> Result<(), Error> {
        match self.spec_gov_check(caller, caller_authorized) {
            Err(e) => Err(e),
            Ok(_) => if ids.len() != cs.len() {
                Err(Error::LengthMismatch)
            } else if !all_addr_42(cs) {
                Err(Error::InvalidAddressLength)
            } else {
                Ok(())
            },
        }
    }

    /// A blank, uninitialized gateway.
    pub fn new() -> (r: CTMRWAGateway)
        ensures
            r.wf(),
            !r.is_initialized(),
            r.chain_contracts@.len() == 0,
            r.rwa_x@.len() == 0,
            r.storage_managers@.len() == 0,
            r.sentry_managers@.len() == 0,
    {
        CTMRWAGateway {
            governor: None,
            chain_id_str: String::new(),
            chain_contracts: Vec::new(),
            rwa_x: Vec::new(),
            storage_managers: Vec::new(),
            sentry_managers: Vec::new(),
        }
    }

    /// One-time setup: governance, this chain's id, and this
    /// gateway's own 42-character address string, which seeds the
    /// sibling table.  A failing call changes nothing.
    pub fn initialize(&mut self, gov: Address, chain_id_str: String, this_contract_str: String) -> (r:
        Result<(), Error>)
        requires
            old(self).wf(),
        ensures
            final(self).wf(),
            r == (if old(self).is_initialized() {
                Err::<(), Error>(Error::AlreadyInitialized)
            } else if this_contract_str@.len() != 42 {
                Err::<(), Error>(Error::InvalidAddressLength)
            } else {
                Ok::<(), Error>(())
            }),
            r is Err ==> *final(self) == *old(self),
            r is Ok ==> {
                &&& final(self).governor == Some(gov)
                &&& final(self).chain_id_str == chain_id_str
                &&& final(self).chain_contracts.deep_view() == Seq::<ChainContractV>::empty().push(
                    (ChainContractV {
                        chain_id_str: chain_id_str@,
                        contract_str: this_contract_str@,
                    }),
                )
                &&& final(self).rwa_x@ == old(self).rwa_x@
                &&& final(self).storage_managers@ == old(self).storage_managers@
                &&& final(self).sentry_managers@ == old(self).sentry_managers@
            },
    {
        if self.governor.is_some() {
            return Err(Error::AlreadyInitialized);
        }
        if this_contract_str.as_str().unicode_len() != 42 {
            return Err(Error::InvalidAddressLength);
        }
        self.governor = Some(gov);
        let mut seeded: Vec<ChainContract> = Vec::new();
        seeded.push(
            ChainContract { chain_id_str: chain_id_str.clone(), contract_str: this_contract_str },
        );
        self.chain_contracts = seeded;
        self.chain_id_str = chain_id_str;
        proof {
            assert(self.chain_contracts.deep_view() =~= Seq::<ChainContractV>::empty().push(
                (ChainContractV {
                    chain_id_str: self.chain_id_str@,
                    contract_str: self.chain_contracts@[0].contract_str@,
                }),
            ));
        }
        Ok(())
    }

    /// Upsert sibling gateway addresses for a batch of chains; a
    /// governance call.  Every address string must be exactly 42
    /// characters and the two lists equally long.  A failing call
    /// changes nothing; a successful one reports `true`.
    pub fn add_chain_contract(
        &mut self,
        caller: Address,
        caller_authorized: bool,
        new_chain_ids: Vec<String>,
        contract_strs: Vec<String>,
    ) -> (r: Result<bool, Error>)
        requires
            old(self).wf(),
        ensures
            final(self).wf(),
            r == (match old(self).spec_batch_check(
                caller,
                caller_authorized,
                new_chain_ids@,
                contract_strs.deep_view(),
            ) {
                Err(e) => Err::<bool, Error>(e),
                Ok(_) => Ok::<bool, Error>(true),
            }),
            r is Err ==> *final(self) == *old(self),
            r is Ok ==> {
                &&& final(self).chain_contracts.deep_view() == upsert_all(
                    old(self).chain_contracts.deep_view(),
                    new_chain_ids.deep_view(),
                    contract_strs.deep_view(),
                )
                &&& final(self).governor == old(self).governor
                &&& final(self).chain_id_str == old(self).chain_id_str
                &&& final(self).rwa_x@ == old(self).rwa_x@
                &&& final(self).storage_managers@ == old(self).storage_managers@
                &&& final(self).sentry_managers@ == old(self).sentry_managers@
            },
    {
        if !caller_authorized {
            return Err(Error::Unauthorized);
        }
        match self.governor {
            None => {
                return Err(Error::ConfigMissing);
            },
            Some(g) => {
                if g != caller {
                    return Err(Error::Unauthorized);
                }
            },
        }
        if new_chain_ids.len() != contract_strs.len() {
            return Err(Error::LengthMismatch);
        }
        if !check_addr_lengths(&contract_strs) {
            return Err(Error::InvalidAddressLength);
        }
        upsert_contracts(&mut self.chain_contracts, &new_chain_ids, &contract_strs);
        Ok(true)
    }

    /// The sibling gateway address for a chain id, if any.
    pub fn get_chain_contract(&self, chain_id_str: String) -> (r: Option<String>)
        ensures
            opt_str_view(r) == spec_lookup(self.chain_contracts.deep_view(), chain_id_str@),
    {
        match find_chain_index(&self.chain_contracts, &chain_id_str) {
            Some(i) => {
                proof {
                    lemma_lookup_at(self.chain_contracts.deep_view(), chain_id_str@, i as int);
                }
                Some(self.chain_contracts[i].contract_str.clone())
            },
            None => {
                proof {
                    lemma_lookup_absent(self.chain_contracts.deep_view(), chain_id_str@);
                }
                None
            },
        }
    }

    /// The sibling pair at a position, if the position is in range.
    pub fn get_chain_contract_at(&self, pos: usize) -> (r: Option<(String, String)>)
        ensures
            pos < self.chain_contracts@.len() ==> (r matches Some(p)
                && p.0@ == self.chain_contracts.deep_view()[pos as int].chain_id_str && p.1@
                == self.chain_contracts.deep_view()[pos as int].contract_str),
            pos >= self.chain_contracts@.len() ==> r is None,
    {
        if pos >= self.chain_contracts.len() {
            return None;
        }
        Some(
            (
                self.chain_contracts[pos].chain_id_str.clone(),
                self.chain_contracts[pos].contract_str.clone(),
            ),
        )
    }

    /// How many sibling pairs are stored.
    pub fn get_chain_count(&self) -> (r: usize)
        ensures
            r == self.chain_contracts@.len(),
    {
        self.chain_contracts.len()
    }
}

/// An optional string reduced to its character sequence.
pub open spec fn opt_str_view(r: Option<String>) -> Option<Seq<char>> {
    match r {
        Some(s) => Some(s@),
        None => None,
    }
}

/// A copy of a string list, element for element.
fn clone_strings(v: &Vec<String>) -> (r: Vec<String>)
    ensures
        r@ == v@,
{
    let n = v.len();
    let mut r: Vec<String> = Vec::new();
    let mut i: usize = 0;
    while i < n
        invariant
            n == v@.len(),
            0 <= i <= n,
            r@ == v@.subrange(0, i as int),
        decreases n - i,
    {
        r.push(v[i].clone());
        proof {
            assert(r@ =~= v@.subrange(0, i as int + 1));
        }
        i = i + 1;
    }
    proof {
        assert(v@.subrange(0, n as int) =~= v@);
    }
    r
}

/// The coordination entry for the pair, if any.
fn find_x_entry(table: &Vec<RwaXEntry>, t: u32, v: u32) -> (r: Option<usize>)
    requires
        x_keys_unique(table@),
    ensures
        match r {
            Some(i) => i < table@.len() && table@[i as int].rwa_type == t
                && table@[i as int].version == v && has_x(table@, t, v) && x_idx(table@, t, v)
                == i,
            None => !has_x(table@, t, v),
        },
{
    let n = table.len();
    let mut i: usize = 0;
    while i < n
        invariant
            n == table@.len(),
            0 <= i <= n,
            x_keys_unique(table@),
            forall|j: int|
                0 <= j < i ==> !((#[trigger] table@[j]).rwa_type == t && table@[j].version == v),
        decreases n - i,
    {
        if table[i].rwa_type == t && table[i].version == v {
            proof {
                lemma_x_idx_is(table@, i as int, t, v);
            }
            return Some(i);
        }
        i = i + 1;
    }
    None
}

/// The manager entry for the pair, if any.
fn find_mgr_entry(table: &Vec<ManagerEntry>, t: u32, v: u32) -> (r: Option<usize>)
    requires
        mgr_keys_unique(table@),
    ensures
        match r {
            Some(i) => i < table@.len() && table@[i as int].rwa_type == t
                && table@[i as int].version == v && has_mgr(table@, t, v) && mgr_idx(table@, t, v)
                == i,
            None => !has_mgr(table@, t, v),
        },
{
    let n = table.len();
    let mut i: usize = 0;
    while i < n
        invariant
            n == table@.len(),
            0 <= i <= n,
            mgr_keys_unique(table@),
            forall|j: int|
                0 <= j < i ==> !((#[trigger] table@[j]).rwa_type == t && table@[j].version == v),
        decreases n - i,
    {
        if table[i].rwa_type == t && table[i].version == v {
            proof {
                lemma_mgr_idx_is(table@, i as int, t, v);
            }
            return Some(i);
        }
        i = i + 1;
    }
    None
}

/// Upsert a batch of pairs into one manager entry's rows.
fn upsert_mgr_entry(e: &mut ManagerEntry, chain_ids: &Vec<String>, contract_strs: &Vec<String>)
    requires
        chain_ids@.len() == contract_strs@.len(),
    ensures
        final(e).contracts.deep_view() == upsert_all(
            old(e).contracts.deep_view(),
            chain_ids.deep_view(),
            contract_strs.deep_view(),
        ),
        final(e).rwa_type == old(e).rwa_type,
        final(e).version == old(e).version,
{
    upsert_contracts(&mut e.contracts, chain_ids, contract_strs);
}

/// Upsert a batch of pairs into one coordination entry's rows,
/// appending each freshly seen chain id to the entry's chain list.
fn upsert_x_entry(e: &mut RwaXEntry, chain_ids: &Vec<String>, contract_strs: &Vec<String>)
    requires
        chain_ids@.len() == contract_strs@.len(),
    ensures
        final(e).contracts.deep_view() == upsert_all(
            old(e).contracts.deep_view(),
            chain_ids.deep_view(),
            contract_strs.deep_view(),
        ),
        final(e).chains.deep_view() == chains_after(
            old(e).contracts.deep_view(),
            old(e).chains.deep_view(),
            chain_ids.deep_view(),
            contract_strs.deep_view(),
        ),
        final(e).rwa_type == old(e).rwa_type,
        final(e).version == old(e).version,
{
    let ghost pre = e.contracts.deep_view();
    let ghost prech = e.chains.deep_view();
    let ghost gids = chain_ids.deep_view();
    let ghost gcs = contract_strs.deep_view();
    let m = chain_ids.len();
    let mut k: usize = 0;
    while k < m
        invariant
            m == chain_ids@.len(),
            chain_ids@.len() == contract_strs@.len(),
            gids == chain_ids.deep_view(),
            gcs == contract_strs.deep_view(),
            0 <= k <= m,
            e.rwa_type == old(e).rwa_type,
            e.version == old(e).version,
            e.contracts.deep_view() == upsert_all(
                pre,
                gids.subrange(0, k as int),
                gcs.subrange(0, k as int),
            ),
            e.chains.deep_view() == chains_after(
                pre,
                prech,
                gids.subrange(0, k as int),
                gcs.subrange(0, k as int),
            ),
        decreases m - k,
    {
        let ghost lpre = e.contracts.deep_view();
        let id = &chain_ids[k];
        let cstr = &contract_strs[k];
        if let Some(i) = find_chain_index(&e.contracts, id) {
            e.contracts[i].contract_str = cstr.clone();
            proof {
                assert(e.contracts.deep_view() =~= lpre.update(
                    i as int,
                    (ChainContractV { chain_id_str: id@, contract_str: cstr@ }),
                ));
                lemma_upsert_one_found(lpre, id@, cstr@, i as int);
                assert(has_chain(lpre, id@));
            }
        } else {
            e.contracts.push(
                ChainContract { chain_id_str: id.clone(), contract_str: cstr.clone() },
            );
            e.chains.push(id.clone());
            proof {
                assert(e.contracts.deep_view() =~= lpre.push(
                    (ChainContractV { chain_id_str: id@, contract_str: cstr@ }),
                ));
                lemma_upsert_one_absent(lpre, id@, cstr@);
                assert(!has_chain(lpre, id@));
            }
        }
        proof {
            assert(gids.subrange(0, k as int).push(gids[k as int]) =~= gids.subrange(
                0,
                k as int + 1,
            ));
            assert(gcs.subrange(0, k as int).push(gcs[k as int]) =~= gcs.subrange(0, k as int + 1));
            lemma_upsert_all_snoc(
                pre,
                gids.subrange(0, k as int),
                gcs.subrange(0, k as int),
                gids[k as int],
                gcs[k as int],
            );
            lemma_chains_after_snoc(
                pre,
                prech,
                gids.subrange(0, k as int),
                gcs.subrange(0, k as int),
                gids[k as int],
                gcs[k as int],
            );
            assert(gids[k as int] == id@ && gcs[k as int] == cstr@);
            if has_chain(lpre, id@) {
                assert(e.chains.deep_view() == chains_after(
                    pre,
                    prech,
                    gids.subrange(0, k as int + 1),
                    gcs.subrange(0, k as int + 1),
                ));
            } else {
                assert(e.chains.deep_view() =~= chains_after(
                    pre,
                    prech,
                    gids.subrange(0, k as int),
                    gcs.subrange(0, k as int),
                ).push(id@));
            }
        }
        k = k + 1;
    }
    proof {
        assert(gids.subrange(0, m as int) =~= gids);
        assert(gcs.subrange(0, m as int) =~= gcs);
    }
}

impl CTMRWAGateway {
    /// All chain ids with a coordination contract for the pair.
    pub fn get_all_rwa_x_chains(&self, rwa_type: u32, version: u32) -> (r: Vec<String>)
        requires
            self.wf(),
        ensures
            r.deep_view() == x_chains(self.rwa_x@, rwa_type, version),
    {
        match find_x_entry(&self.rwa_x, rwa_type, version) {
            Some(i) => {
                let r = clone_strings(&self.rwa_x[i].chains);
                proof {
                    assert(r.deep_view() =~= self.rwa_x@[i as int].chains.deep_view());
                }
                r
            },
            None => {
                let r: Vec<String> = Vec::new();
                proof {
                    assert(r.deep_view() =~= Seq::<Seq<char>>::empty());
                }
                r
            },
        }
    }

    /// Whether a coordination contract exists for the pair on this
    /// chain id.
    pub fn exist_rwa_x_chain(&self, rwa_type: u32, version: u32, chain_id_str: String) -> (r: bool)
        requires
            self.wf(),
        ensures
            r == x_chains(self.rwa_x@, rwa_type, version).contains(chain_id_str@),
    {
        match find_x_entry(&self.rwa_x, rwa_type, version) {
            Some(ei) => {
                let chains = &self.rwa_x[ei].chains;
                let ghost cv = x_chains(self.rwa_x@, rwa_type, version);
                let n = chains.len();
                let mut i: usize = 0;
                while i < n
                    invariant
                        n == chains@.len(),
                        0 <= i <= n,
                        cv == chains.deep_view(),
                        cv == x_chains(self.rwa_x@, rwa_type, version),
                        forall|j: int| 0 <= j < i ==> cv[j] != chain_id_str@,
                    decreases n - i,
                {
                    if chains[i] == chain_id_str {
                        assert(cv[i as int] == chain_id_str@);
                        return true;
                    }
                    i = i + 1;
                }
                false
            },
            None => false,
        }
    }

    /// The coordination pair at a position for the pair, if in range.
    pub fn get_attached_rwa_x_at(&self, rwa_type: u32, version: u32, index: usize) -> (r: Option<
        (String, String),
    >)
        requires
            self.wf(),
        ensures
            index < x_contracts(self.rwa_x@, rwa_type, version).len() ==> (r matches Some(p) && p.0@
                == x_contracts(self.rwa_x@, rwa_type, version)[index as int].chain_id_str && p.1@
                == x_contracts(self.rwa_x@, rwa_type, version)[index as int].contract_str),
            index >= x_contracts(self.rwa_x@, rwa_type, version).len() ==> r is None,
    {
        match find_x_entry(&self.rwa_x, rwa_type, version) {
            Some(ei) => {
                let rows = &self.rwa_x[ei].contracts;
                if index >= rows.len() {
                    return None;
                }
                Some((rows[index].chain_id_str.clone(), rows[index].contract_str.clone()))
            },
            None => None,
        }
    }

    /// How many coordination contracts the pair has.
    pub fn get_rwa_x_count(&self, rwa_type: u32, version: u32) -> (r: usize)
        requires
            self.wf(),
        ensures
            r == x_contracts(self.rwa_x@, rwa_type, version).len(),
    {
        match find_x_entry(&self.rwa_x, rwa_type, version) {
            Some(ei) => self.rwa_x[ei].contracts.len(),
            None => 0,
        }
    }

    /// The coordination contract for the pair on one chain id, if
    /// any.
    pub fn get_attached_rwa_x(&self, rwa_type: u32, version: u32, chain_id_str: String) -> (r:
        Option<String>)
        requires
            self.wf(),
        ensures
            opt_str_view(r) == spec_lookup(
                x_contracts(self.rwa_x@, rwa_type, version),
                chain_id_str@,
            ),
    {
        match find_x_entry(&self.rwa_x, rwa_type, version) {
            Some(ei) => {
                match find_chain_index(&self.rwa_x[ei].contracts, &chain_id_str) {
                    Some(i) => {
                        proof {
                            lemma_lookup_at(
                                self.rwa_x@[ei as int].contracts.deep_view(),
                                chain_id_str@,
                                i as int,
                            );
                        }
                        Some(self.rwa_x[ei].contracts[i].contract_str.clone())
                    },
                    None => {
                        proof {
                            lemma_lookup_absent(
                                self.rwa_x@[ei as int].contracts.deep_view(),
                                chain_id_str@,
                            );
                        }
                        None
                    },
                }
            },
            None => None,
        }
    }

    /// The storage-manager pair at a position for the pair, if in
    /// range.
    pub fn get_attached_storage_manager_at(
        &self,
        rwa_type: u32,
        version: u32,
        index: usize,
    ) -> (r: Option<(String, String)>)
        requires
            self.wf(),
        ensures
            index < mgr_contracts(self.storage_managers@, rwa_type, version).len() ==> (r
                matches Some(p) && p.0@ == mgr_contracts(
                self.storage_managers@,
                rwa_type,
                version,
            )[index as int].chain_id_str && p.1@ == mgr_contracts(
                self.storage_managers@,
                rwa_type,
                version,
            )[index as int].contract_str),
            index >= mgr_contracts(self.storage_managers@, rwa_type, version).len() ==> r is None,
    {
        match find_mgr_entry(&self.storage_managers, rwa_type, version) {
            Some(ei) => {
                let rows = &self.storage_managers[ei].contracts;
                if index >= rows.len() {
                    return None;
                }
                Some((rows[index].chain_id_str.clone(), rows[index].contract_str.clone()))
            },
            None => None,
        }
    }

    /// How many storage managers the pair has.
    pub fn get_storage_manager_count(&self, rwa_type: u32, version: u32) -> (r: usize)
        requires
            self.wf(),
        ensures
            r == mgr_contracts(self.storage_managers@, rwa_type, version).len(),
    {
        match find_mgr_entry(&self.storage_managers, rwa_type, version) {
            Some(ei) => self.storage_managers[ei].contracts.len(),
            None => 0,
        }
    }

    /// The storage manager for the pair on one chain id, if any.
    pub fn get_attached_storage_manager(
        &self,
        rwa_type: u32,
        version: u32,
        chain_id_str: String,
    ) -> (r: Option<String>)
        requires
            self.wf(),
        ensures
            opt_str_view(r) == spec_lookup(
                mgr_contracts(self.storage_managers@, rwa_type, version),
                chain_id_str@,
            ),
    {
        match find_mgr_entry(&self.storage_managers, rwa_type, version) {
            Some(ei) => {
                match find_chain_index(&self.storage_managers[ei].contracts, &chain_id_str) {
                    Some(i) => {
                        proof {
                            lemma_lookup_at(
                                self.storage_managers@[ei as int].contracts.deep_view(),
                                chain_id_str@,
                                i as int,
                            );
                        }
                        Some(self.storage_managers[ei].contracts[i].contract_str.clone())
                    },
                    None => {
                        proof {
                            lemma_lookup_absent(
                                self.storage_managers@[ei as int].contracts.deep_view(),
                                chain_id_str@,
                            );
                        }
                        None
                    },
                }
            },
            None => None,
        }
    }

    /// The sentry-manager pair at a position for the pair, if in
    /// range.
    pub fn get_attached_sentry_manager_at(
        &self,
        rwa_type: u32,
        version: u32,
        index: usize,
    ) -> (r: Option<(String, String)>)
        requires
            self.wf(),
        ensures
            index < mgr_contracts(self.sentry_managers@, rwa_type, version).len() ==> (r
                matches Some(p) && p.0@ == mgr_contracts(
                self.sentry_managers@,
                rwa_type,
                version,
            )[index as int].chain_id_str && p.1@ == mgr_contracts(
                self.sentry_managers@,
                rwa_type,
                version,
            )[index as int].contract_str),
            index >= mgr_contracts(self.sentry_managers@, rwa_type, version).len() ==> r is None,
    {
        match find_mgr_entry(&self.sentry_managers, rwa_type, version) {
            Some(ei) => {
                let rows = &self.sentry_managers[ei].contracts;
                if index >= rows.len() {
                    return None;
                }
                Some((rows[index].chain_id_str.clone(), rows[index].contract_str.clone()))
            },
            None => None,
        }
    }

    /// How many sentry managers the pair has.
    pub fn get_sentry_manager_count(&self, rwa_type: u32, version: u32) -> (r: usize)
        requires
            self.wf(),
        ensures
            r == mgr_contracts(self.sentry_managers@, rwa_type, version).len(),
    {
        match find_mgr_entry(&self.sentry_managers, rwa_type, version) {
            Some(ei) => self.sentry_managers[ei].contracts.len(),
            None => 0,
        }
    }

    /// The sentry manager for the pair on one chain id, if any.
    pub fn get_attached_sentry_manager(
        &self,
        rwa_type: u32,
        version: u32,
        chain_id_str: String,
    ) -> (r: Option<String>)
        requires
            self.wf(),
        ensures
            opt_str_view(r) == spec_lookup(
                mgr_contracts(self.sentry_managers@, rwa_type, version),
                chain_id_str@,
            ),
    {
        match find_mgr_entry(&self.sentry_managers, rwa_type, version) {
            Some(ei) => {
                match find_chain_index(&self.sentry_managers[ei].contracts, &chain_id_str) {
                    Some(i) => {
                        proof {
                            lemma_lookup_at(
                                self.sentry_managers@[ei as int].contracts.deep_view(),
                                chain_id_str@,
                                i as int,
                            );
                        }
                        Some(self.sentry_managers[ei].contracts[i].contract_str.clone())
                    },
                    None => {
                        proof {
                            lemma_lookup_absent(
                                self.sentry_managers@[ei as int].contracts.deep_view(),
                                chain_id_str@,
                            );
                        }
                        None
                    },
                }
            },
            None => None,
        }
    }

    /// Upsert coordination contracts for a batch of chains under one
    /// classification; a governance call.  Chain ids seen for the
    /// first time are appended to the pair's chain list.  A failing
    /// call changes nothing; a successful one reports `true`.
    pub fn attach_rwa_x(
        &mut self,
        caller: Address,
        caller_authorized: bool,
        rwa_type: u32,
        version: u32,
        chain_ids: Vec<String>,
        rwa_x_strs: Vec<String>,
    ) -> (r: Result<bool, Error>)
        requires
            old(self).wf(),
        ensures
            final(self).wf(),
            r == (match old(self).spec_batch_check(
                caller,
                caller_authorized,
                chain_ids@,
                rwa_x_strs.deep_view(),
            ) {
                Err(e) => Err::<bool, Error>(e),
                Ok(_) => Ok::<bool, Error>(true),
            }),
            r is Err ==> *final(self) == *old(self),
            r is Ok ==> {
                &&& x_contracts(final(self).rwa_x@, rwa_type, version) == upsert_all(
                    x_contracts(old(self).rwa_x@, rwa_type, version),
                    chain_ids.deep_view(),
                    rwa_x_strs.deep_view(),
                )
                &&& x_chains(final(self).rwa_x@, rwa_type, version) == chains_after(
                    x_contracts(old(self).rwa_x@, rwa_type, version),
                    x_chains(old(self).rwa_x@, rwa_type, version),
                    chain_ids.deep_view(),
                    rwa_x_strs.deep_view(),
                )
                &&& forall|a: u32, b: u32|
                    !(a == rwa_type && b == version) ==> #[trigger] has_x(final(self).rwa_x@, a, b)
                        == has_x(old(self).rwa_x@, a, b) && (has_x(old(self).rwa_x@, a, b)
                        ==> x_contracts(final(self).rwa_x@, a, b) == x_contracts(
                        old(self).rwa_x@,
                        a,
                        b,
                    ) && x_chains(final(self).rwa_x@, a, b) == x_chains(old(self).rwa_x@, a, b))
                &&& final(self).chain_contracts@ == old(self).chain_contracts@
                &&& final(self).storage_managers@ == old(self).storage_managers@
                &&& final(self).sentry_managers@ == old(self).sentry_managers@
                &&& final(self).governor == old(self).governor
                &&& final(self).chain_id_str == old(self).chain_id_str
            },
    {
        if !caller_authorized {
            return Err(Error::Unauthorized);
        }
        match self.governor {
            None => {
                return Err(Error::ConfigMissing);
            },
            Some(g) => {
                if g != caller {
                    return Err(Error::Unauthorized);
                }
            },
        }
        if chain_ids.len() != rwa_x_strs.len() {
            return Err(Error::LengthMismatch);
        }
        if !check_addr_lengths(&rwa_x_strs) {
            return Err(Error::InvalidAddressLength);
        }
        let ghost pre = *self;
        let ei = match find_x_entry(&self.rwa_x, rwa_type, version) {
            Some(i) => i,
            None => {
                let i = self.rwa_x.len();
                self.rwa_x.push(
                    RwaXEntry { rwa_type, version, contracts: Vec::new(), chains: Vec::new() },
                );
                proof {
                    assert forall|a: int, b: int|
                        0 <= a < b < self.rwa_x@.len() implies !((
                    #[trigger] self.rwa_x@[a]).rwa_type == (#[trigger] self.rwa_x@[b]).rwa_type
                        && self.rwa_x@[a].version == self.rwa_x@[b].version) by {
                        if b < i as int {
                        } else {
                            assert(self.rwa_x@[a] == pre.rwa_x@[a]);
                        }
                    };
                    lemma_x_idx_is(self.rwa_x@, i as int, rwa_type, version);
                    assert(x_contracts(self.rwa_x@, rwa_type, version) =~= Seq::<
                        ChainContractV,
                    >::empty());
                    assert(x_chains(self.rwa_x@, rwa_type, version) =~= Seq::<Seq<char>>::empty());
                    assert(x_contracts(self.rwa_x@, rwa_type, version) == x_contracts(
                        pre.rwa_x@,
                        rwa_type,
                        version,
                    ));
                    assert(x_chains(self.rwa_x@, rwa_type, version) == x_chains(
                        pre.rwa_x@,
                        rwa_type,
                        version,
                    ));
                }
                i
            },
        };
        let ghost mid = *self;
        proof {
            lemma_x_idx_is(mid.rwa_x@, ei as int, rwa_type, version);
        }
        upsert_x_entry(&mut self.rwa_x[ei], &chain_ids, &rwa_x_strs);
        proof {
            lemma_x_idx_is(self.rwa_x@, ei as int, rwa_type, version);
            assert forall|a: u32, b: u32| !(a == rwa_type && b == version) implies
            #[trigger] has_x(self.rwa_x@, a, b) == has_x(pre.rwa_x@, a, b) && (has_x(
                pre.rwa_x@,
                a,
                b,
            ) ==> x_contracts(self.rwa_x@, a, b) == x_contracts(pre.rwa_x@, a, b) && x_chains(
                self.rwa_x@,
                a,
                b,
            ) == x_chains(pre.rwa_x@, a, b)) by {
                lemma_x_frame(self.rwa_x@, pre.rwa_x@, ei as int, a, b);
            };
        }
        Ok(true)
    }

    /// Upsert storage managers for a batch of chains under one
    /// classification; a governance call.  A failing call changes
    /// nothing; a successful one reports `true`.
    pub fn attach_storage_manager(
        &mut self,
        caller: Address,
        caller_authorized: bool,
        rwa_type: u32,
        version: u32,
        chain_ids: Vec<String>,
        storage_manager_strs: Vec<String>,
    ) -> (r: Result<bool, Error>)
        requires
            old(self).wf(),
        ensures
            final(self).wf(),
            r == (match old(self).spec_batch_check(
                caller,
                caller_authorized,
                chain_ids@,
                storage_manager_strs.deep_view(),
            ) {
                Err(e) => Err::<bool, Error>(e),
                Ok(_) => Ok::<bool, Error>(true),
            }),
            r is Err ==> *final(self) == *old(self),
            r is Ok ==> {
                &&& mgr_contracts(final(self).storage_managers@, rwa_type, version) == upsert_all(
                    mgr_contracts(old(self).storage_managers@, rwa_type, version),
                    chain_ids.deep_view(),
                    storage_manager_strs.deep_view(),
                )
                &&& forall|a: u32, b: u32|
                    !(a == rwa_type && b == version) ==> #[trigger] has_mgr(
                        final(self).storage_managers@,
                        a,
                        b,
                    ) == has_mgr(old(self).storage_managers@, a, b) && (has_mgr(
                        old(self).storage_managers@,
                        a,
                        b,
                    ) ==> mgr_contracts(final(self).storage_managers@, a, b) == mgr_contracts(
                        old(self).storage_managers@,
                        a,
                        b,
                    ))
                &&& final(self).chain_contracts@ == old(self).chain_contracts@
                &&& final(self).rwa_x@ == old(self).rwa_x@
                &&& final(self).sentry_managers@ == old(self).sentry_managers@
                &&& final(self).governor == old(self).governor
                &&& final(self).chain_id_str == old(self).chain_id_str
            },
    {
        if !caller_authorized {
            return Err(Error::Unauthorized);
        }
        match self.governor {
            None => {
                return Err(Error::ConfigMissing);
            },
            Some(g) => {
                if g != caller {
                    return Err(Error::Unauthorized);
                }
            },
        }
        if chain_ids.len() != storage_manager_strs.len() {
            return Err(Error::LengthMismatch);
        }
        if !check_addr_lengths(&storage_manager_strs) {
            return Err(Error::InvalidAddressLength);
        }
        let ghost pre = *self;
        let ei = match find_mgr_entry(&self.storage_managers, rwa_type, version) {
            Some(i) => i,
            None => {
                let i = self.storage_managers.len();
                self.storage_managers.push(
                    ManagerEntry { rwa_type, version, contracts: Vec::new() },
                );
                proof {
                    assert forall|a: int, b: int|
                        0 <= a < b < self.storage_managers@.len() implies !((
                    #[trigger] self.storage_managers@[a]).rwa_type == (
                    #[trigger] self.storage_managers@[b]).rwa_type
                        && self.storage_managers@[a].version
                        == self.storage_managers@[b].version) by {
                        if b < i as int {
                        } else {
                            assert(self.storage_managers@[a] == pre.storage_managers@[a]);
                        }
                    };
                    lemma_mgr_idx_is(self.storage_managers@, i as int, rwa_type, version);
                    assert(mgr_contracts(self.storage_managers@, rwa_type, version) =~= Seq::<
                        ChainContractV,
                    >::empty());
                    assert(mgr_contracts(self.storage_managers@, rwa_type, version)
                        == mgr_contracts(pre.storage_managers@, rwa_type, version));
                }
                i
            },
        };
        let ghost mid = *self;
        proof {
            lemma_mgr_idx_is(mid.storage_managers@, ei as int, rwa_type, version);
        }
        upsert_mgr_entry(&mut self.storage_managers[ei], &chain_ids, &storage_manager_strs);
        proof {
            lemma_mgr_idx_is(self.storage_managers@, ei as int, rwa_type, version);
            assert forall|a: u32, b: u32| !(a == rwa_type && b == version) implies
            #[trigger] has_mgr(self.storage_managers@, a, b) == has_mgr(pre.storage_managers@, a, b)
                && (has_mgr(pre.storage_managers@, a, b) ==> mgr_contracts(
                self.storage_managers@,
                a,
                b,
            ) == mgr_contracts(pre.storage_managers@, a, b)) by {
                lemma_mgr_frame(self.storage_managers@, pre.storage_managers@, ei as int, a, b);
            };
        }
        Ok(true)
    }

    /// Upsert sentry managers for a batch of chains under one
    /// classification; a governance call.  A failing call changes
    /// nothing; a successful one reports `true`.
    pub fn attach_sentry_manager(
        &mut self,
        caller: Address,
        caller_authorized: bool,
        rwa_type: u32,
        version: u32,
        chain_ids: Vec<String>,
        sentry_manager_strs: Vec<String>,
    ) -> (r: Result<bool, Error>)
        requires
            old(self).wf(),
        ensures
            final(self).wf(),
            r == (match old(self).spec_batch_check(
                caller,
                caller_authorized,
                chain_ids@,
                sentry_manager_strs.deep_view(),
            ) {
                Err(e) => Err::<bool, Error>(e),
                Ok(_) => Ok::<bool, Error>(true),
            }),
            r is Err ==> *final(self) == *old(self),
            r is Ok ==> {
                &&& mgr_contracts(final(self).sentry_managers@, rwa_type, version) == upsert_all(
                    mgr_contracts(old(self).sentry_managers@, rwa_type, version),
                    chain_ids.deep_view(),
                    sentry_manager_strs.deep_view(),
                )
                &&& forall|a: u32, b: u32|
                    !(a == rwa_type && b == version) ==> #[trigger] has_mgr(
                        final(self).sentry_managers@,
                        a,
                        b,
                    ) == has_mgr(old(self).sentry_managers@, a, b) && (has_mgr(
                        old(self).sentry_managers@,
                        a,
                        b,
                    ) ==> mgr_contracts(final(self).sentry_managers@, a, b) == mgr_contracts(
                        old(self).sentry_managers@,
                        a,
                        b,
                    ))
                &&& final(self).chain_contracts@ == old(self).chain_contracts@
                &&& final(self).rwa_x@ == old(self).rwa_x@
                &&& final(self).storage_managers@ == old(self).storage_managers@
                &&& final(self).governor == old(self).governor
                &&& final(self).chain_id_str == old(self).chain_id_str
            },
    {
        if !caller_authorized {
            return Err(Error::Unauthorized);
        }
        match self.governor {
            None => {
                return Err(Error::ConfigMissing);
            },
            Some(g) => {
                if g != caller {
                    return Err(Error::Unauthorized);
                }
            },
        }
        if chain_ids.len() != sentry_manager_strs.len() {
            return Err(Error::LengthMismatch);
        }
        if !check_addr_lengths(&sentry_manager_strs) {
            return Err(Error::InvalidAddressLength);
        }
        let ghost pre = *self;
        let ei = match find_mgr_entry(&self.sentry_managers, rwa_type, version) {
            Some(i) => i,
            None => {
                let i = self.sentry_managers.len();
                self.sentry_managers.push(
                    ManagerEntry { rwa_type, version, contracts: Vec::new() },
                );
                proof {
                    assert forall|a: int, b: int|
                        0 <= a < b < self.sentry_managers@.len() implies !((
                    #[trigger] self.sentry_managers@[a]).rwa_type == (
                    #[trigger] self.sentry_managers@[b]).rwa_type
                        && self.sentry_managers@[a].version
                        == self.sentry_managers@[b].version) by {
                        if b < i as int {
                        } else {
                            assert(self.sentry_managers@[a] == pre.sentry_managers@[a]);
                        }
                    };
                    lemma_mgr_idx_is(self.sentry_managers@, i as int, rwa_type, version);
                    assert(mgr_contracts(self.sentry_managers@, rwa_type, version) =~= Seq::<
                        ChainContractV,
                    >::empty());
                    assert(mgr_contracts(self.sentry_managers@, rwa_type, version)
                        == mgr_contracts(pre.sentry_managers@, rwa_type, version));
                }
                i
            },
        };
        let ghost mid = *self;
        proof {
            lemma_mgr_idx_is(mid.sentry_managers@, ei as int, rwa_type, version);
        }
        upsert_mgr_entry(&mut self.sentry_managers[ei], &chain_ids, &sentry_manager_strs);
        proof {
            lemma_mgr_idx_is(self.sentry_managers@, ei as int, rwa_type, version);
            assert forall|a: u32, b: u32| !(a == rwa_type && b == version) implies
            #[trigger] has_mgr(self.sentry_managers@, a, b) == has_mgr(pre.sentry_managers@, a, b)
                && (has_mgr(pre.sentry_managers@, a, b) ==> mgr_contracts(
                self.sentry_managers@,
                a,
                b,
            ) == mgr_contracts(pre.sentry_managers@, a, b)) by {
                lemma_mgr_frame(self.sentry_managers@, pre.sentry_managers@, ei as int, a, b);
            };
        }
        Ok(true)
    }

    /// Acknowledge a failed cross-chain call; the host logs the
    /// details, and the acknowledgement is always positive.
    #[allow(unused_variables)]
    pub fn c3_fallback(&self, selector: Vec<u8>, data: Vec<u8>, reason: Vec<u8>) -> (r: bool)
        ensures
            r,
    {
        true
    }
}

} // verus!
