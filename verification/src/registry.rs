//! The asset registry: a bidirectional, immutable 1:1 mapping between
//! 32-byte global asset ids and chain-local ledger contract addresses,
//! written only by the configured deployer.

use vstd::prelude::*;

use crate::types::{Address, Bytes32, Error};

verus! {

/// The classification this registry instance serves.
pub const RWA_TYPE: u32 = 1;

pub const VERSION: u32 = 1;

/// One binding between a global asset id and a contract address.
pub struct Binding {
    pub id: Bytes32,
    pub addr: Address,
}

/// The complete state of one registry contract instance.
#[allow(non_camel_case_types)]
pub struct CTMRWAMap {
    /// The gateway peer; `None` until `initialize` has run.
    pub gateway: Option<Address>,
    /// The cross-chain coordination contract allowed to reconfigure.
    pub ctm_rwa001x: Option<Address>,
    /// This chain's identifier string.
    pub chain_id_str: String,
    /// The deployer allowed to attach bindings; set after
    /// initialization.
    pub ctm_rwa_deployer: Option<Address>,
    /// The id-to-ledger bindings, in attachment order.  The reverse
    /// direction is read from the same list.
    pub contracts: Vec<Binding>,
    /// Dividend, storage and sentry bindings: present in the key
    /// space, never written by any operation of this contract.
    pub dividends: Vec<Binding>,
    pub storages: Vec<Binding>,
    pub sentries: Vec<Binding>,
}

impl CTMRWAMap {
    /// Whether `initialize` has run.
    pub open spec fn is_initialized(&self) -> bool {
        self.gateway is Some
    }

    /// Whether an id already has a ledger binding.
    pub open spec fn id_bound(&self, id: Bytes32) -> bool {
        exists|i: int| 0 <= i < self.contracts@.len() && (#[trigger] self.contracts@[i]).id == id
    }

    /// Whether a ledger address already has a binding.
    pub open spec fn addr_bound(&self, addr: Address) -> bool {
        exists|i: int|
            0 <= i < self.contracts@.len() && (#[trigger] self.contracts@[i]).addr == addr
    }

    /// The position of `id`'s binding.
    pub open spec fn id_idx(&self, id: Bytes32) -> int {
        choose|i: int| 0 <= i < self.contracts@.len() && (#[trigger] self.contracts@[i]).id == id
    }

    /// The position of `addr`'s binding.
    pub open spec fn addr_idx(&self, addr: Address) -> int {
        choose|i: int|
            0 <= i < self.contracts@.len() && (#[trigger] self.contracts@[i]).addr == addr
    }

    /// The ledger address bound to `id`.
    pub open spec fn spec_contract_of(&self, id: Bytes32) -> Address {
        self.contracts@[self.id_idx(id)].addr
    }

    /// The id bound to `addr`.
    pub open spec fn spec_id_of(&self, addr: Address) -> Bytes32 {
        self.contracts@[self.addr_idx(addr)].id
    }

    /// The registry invariant: the mapping is 1:1 in both directions.
    pub open spec fn wf(&self) -> bool {
        &&& forall|i: int, j: int|
            0 <= i < j < self.contracts@.len() ==> (#[trigger] self.contracts@[i]).id != (
            #[trigger] self.contracts@[j]).id
        &&& forall|i: int, j: int|
            0 <= i < j < self.contracts@.len() ==> (#[trigger] self.contracts@[i]).addr != (
            #[trigger] self.contracts@[j]).addr
    }

    /// A blank, uninitialized registry.
    pub fn new() -> (r: CTMRWAMap)
        ensures
            r.wf(),
            !r.is_initialized(),
            r.ctm_rwa_deployer is None,
            r.contracts@.len() == 0,
            r.dividends@.len() == 0,
            r.storages@.len() == 0,
            r.sentries@.len() == 0,
    {
        CTMRWAMap {
            gateway: None,
            ctm_rwa001x: None,
            chain_id_str: String::new(),
            ctm_rwa_deployer: None,
            contracts: Vec::new(),
            dividends: Vec::new(),
            storages: Vec::new(),
            sentries: Vec::new(),
        }
    }

    /// One-time setup: the gateway and coordination peers and this
    /// chain's id string.  Fails `AlreadyInitialized` exactly when a
    /// gateway is already stored; a failing call changes nothing.
    pub fn initialize(&mut self, gateway: Address, ctm_rwa001x: Address, chain_id_str: String) -> (r:
        Result<(), Error>)
        requires
            old(self).wf(),
        ensures
            final(self).wf(),
            r == (if old(self).is_initialized() {
                Err::<(), Error>(Error::AlreadyInitialized)
            } else {
                Ok::<(), Error>(())
            }),
            r is Err ==> *final(self) == *old(self),
            r is Ok ==> {
                &&& final(self).gateway == Some(gateway)
                &&& final(self).ctm_rwa001x == Some(ctm_rwa001x)
                &&& final(self).chain_id_str == chain_id_str
                &&& final(self).ctm_rwa_deployer == old(self).ctm_rwa_deployer
                &&& final(self).contracts@ == old(self).contracts@
                &&& final(self).dividends@ == old(self).dividends@
                &&& final(self).storages@ == old(self).storages@
                &&& final(self).sentries@ == old(self).sentries@
            },
    {
        if self.gateway.is_some() {
            return Err(Error::AlreadyInitialized);
        }
        self.gateway = Some(gateway);
        self.ctm_rwa001x = Some(ctm_rwa001x);
        self.chain_id_str = chain_id_str;
        Ok(())
    }

    /// The result the reconfiguration call is obliged to return.
    pub open spec fn spec_set_deployer_outcome(&self, caller: Address, caller_authorized: bool) -> Result<
        (),
        Error,
    > {
        if !caller_authorized {
            Err(Error::Unauthorized)
        } else if self.ctm_rwa001x is None {
            Err(Error::ConfigMissing)
        } else if self.ctm_rwa001x != Some(caller) {
            Err(Error::Unauthorized)
        } else {
            Ok(())
        }
    }

    /// Reconfigure the deployer, gateway and coordination peers; only
    /// the configured coordination contract may do so, with an
    /// authorization proof.  A failing call changes nothing.
    pub fn set_ctm_rwa_deployer(
        &mut self,
        caller: Address,
        caller_authorized: bool,
        deployer: Address,
        gateway: Address,
        rwa001x: Address,
    ) -> (r: Result<(), Error>)
        requires
            old(self).wf(),
        ensures
            final(self).wf(),
            r == old(self).spec_set_deployer_outcome(caller, caller_authorized),
            r is Err ==> *final(self) == *old(self),
            r is Ok ==> {
                &&& final(self).ctm_rwa_deployer == Some(deployer)
                &&& final(self).gateway == Some(gateway)
                &&& final(self).ctm_rwa001x == Some(rwa001x)
                &&& final(self).chain_id_str == old(self).chain_id_str
                &&& final(self).contracts@ == old(self).contracts@
                &&& final(self).dividends@ == old(self).dividends@
                &&& final(self).storages@ == old(self).storages@
                &&& final(self).sentries@ == old(self).sentries@
            },
    {
        if !caller_authorized {
            return Err(Error::Unauthorized);
        }
        match self.ctm_rwa001x {
            None => {
                return Err(Error::ConfigMissing);
            },
            Some(x) => {
                if x != caller {
                    return Err(Error::Unauthorized);
                }
            },
        }
        self.ctm_rwa_deployer = Some(deployer);
        self.gateway = Some(gateway);
        self.ctm_rwa001x = Some(rwa001x);
        Ok(())
    }

    /// Find the binding of `id` in a list; `None` when absent.
    fn lookup_by_id(list: &Vec<Binding>, id: Bytes32) -> (r: Option<Address>)
        ensures
            match r {
                Some(a) => exists|i: int|
                    0 <= i < list@.len() && (#[trigger] list@[i]).id == id && list@[i].addr == a,
                None => forall|i: int| 0 <= i < list@.len() ==> (#[trigger] list@[i]).id != id,
            },
    {
        let n = list.len();
        let mut i: usize = 0;
        while i < n
            invariant
                n == list@.len(),
                0 <= i <= n,
                forall|j: int| 0 <= j < i ==> (#[trigger] list@[j]).id != id,
            decreases n - i,
        {
            if list[i].id == id {
                return Some(list[i].addr);
            }
            i = i + 1;
        }
        None
    }

    /// The id bound to `token_addr`, if any; fails
    /// `ClassificationMismatch` for any pair other than the one this
    /// registry serves.
    pub fn get_token_id(&self, token_addr: Address, rwa_type: u32, version: u32) -> (r: Result<
        Option<Bytes32>,
        Error,
    >)
        requires
            self.wf(),
        ensures
            (rwa_type != RWA_TYPE || version != VERSION) ==> r == Err::<
                Option<Bytes32>,
                Error,
            >(Error::ClassificationMismatch),
            (rwa_type == RWA_TYPE && version == VERSION) ==> r == Ok::<Option<Bytes32>, Error>(
                if self.addr_bound(token_addr) {
                    Some(self.spec_id_of(token_addr))
                } else {
                    None
                },
            ),
    {
        if rwa_type != RWA_TYPE || version != VERSION {
            return Err(Error::ClassificationMismatch);
        }
        let n = self.contracts.len();
        let mut i: usize = 0;
        while i < n
            invariant
                n == self.contracts@.len(),
                0 <= i <= n,
                self.wf(),
                rwa_type == RWA_TYPE && version == VERSION,
                forall|j: int| 0 <= j < i ==> (#[trigger] self.contracts@[j]).addr != token_addr,
            decreases n - i,
        {
            if self.contracts[i].addr == token_addr {
                proof {
                    self.lemma_addr_idx_is(i as int, token_addr);
                }
                return Ok(Some(self.contracts[i].id));
            }
            i = i + 1;
        }
        Ok(None)
    }

    /// The ledger address bound to `id`, if any; fails
    /// `ClassificationMismatch` for any pair other than the one this
    /// registry serves.
    pub fn get_token_contract(&self, id: Bytes32, rwa_type: u32, version: u32) -> (r: Result<
        Option<Address>,
        Error,
    >)
        requires
            self.wf(),
        ensures
            (rwa_type != RWA_TYPE || version != VERSION) ==> r == Err::<
                Option<Address>,
                Error,
            >(Error::ClassificationMismatch),
            (rwa_type == RWA_TYPE && version == VERSION) ==> r == Ok::<Option<Address>, Error>(
                if self.id_bound(id) {
                    Some(self.spec_contract_of(id))
                } else {
                    None
                },
            ),
    {
        if rwa_type != RWA_TYPE || version != VERSION {
            return Err(Error::ClassificationMismatch);
        }
        let n = self.contracts.len();
        let mut i: usize = 0;
        while i < n
            invariant
                n == self.contracts@.len(),
                0 <= i <= n,
                self.wf(),
                rwa_type == RWA_TYPE && version == VERSION,
                forall|j: int| 0 <= j < i ==> (#[trigger] self.contracts@[j]).id != id,
            decreases n - i,
        {
            if self.contracts[i].id == id {
                proof {
                    self.lemma_id_idx_is(i as int, id);
                }
                return Ok(Some(self.contracts[i].addr));
            }
            i = i + 1;
        }
        Ok(None)
    }

    /// The dividend contract bound to `id`, if any.  No operation of
    /// this contract writes a dividend binding, so the answer is
    /// `None` whenever the classification matches.
    pub fn get_dividend_contract(&self, id: Bytes32, rwa_type: u32, version: u32) -> (r: Result<
        Option<Address>,
        Error,
    >)
        ensures
            (rwa_type != RWA_TYPE || version != VERSION) ==> r == Err::<
                Option<Address>,
                Error,
            >(Error::ClassificationMismatch),
            (rwa_type == RWA_TYPE && version == VERSION) ==> (r matches Ok(o) && (o is Some
                ==> exists|i: int|
                0 <= i < self.dividends@.len() && (#[trigger] self.dividends@[i]).id == id)),
    {
        if rwa_type != RWA_TYPE || version != VERSION {
            return Err(Error::ClassificationMismatch);
        }
        Ok(Self::lookup_by_id(&self.dividends, id))
    }

    /// The storage contract bound to `id`, if any; see
    /// `get_dividend_contract`.
    pub fn get_storage_contract(&self, id: Bytes32, rwa_type: u32, version: u32) -> (r: Result<
        Option<Address>,
        Error,
    >)
        ensures
            (rwa_type != RWA_TYPE || version != VERSION) ==> r == Err::<
                Option<Address>,
                Error,
            >(Error::ClassificationMismatch),
            (rwa_type == RWA_TYPE && version == VERSION) ==> (r matches Ok(o) && (o is Some
                ==> exists|i: int|
                0 <= i < self.storages@.len() && (#[trigger] self.storages@[i]).id == id)),
    {
        if rwa_type != RWA_TYPE || version != VERSION {
            return Err(Error::ClassificationMismatch);
        }
        Ok(Self::lookup_by_id(&self.storages, id))
    }

    /// The sentry contract bound to `id`, if any; see
    /// `get_dividend_contract`.
    pub fn get_sentry_contract(&self, id: Bytes32, rwa_type: u32, version: u32) -> (r: Result<
        Option<Address>,
        Error,
    >)
        ensures
            (rwa_type != RWA_TYPE || version != VERSION) ==> r == Err::<
                Option<Address>,
                Error,
            >(Error::ClassificationMismatch),
            (rwa_type == RWA_TYPE && version == VERSION) ==> (r matches Ok(o) && (o is Some
                ==> exists|i: int|
                0 <= i < self.sentries@.len() && (#[trigger] self.sentries@[i]).id == id)),
    {
        if rwa_type != RWA_TYPE || version != VERSION {
            return Err(Error::ClassificationMismatch);
        }
        Ok(Self::lookup_by_id(&self.sentries, id))
    }

    /// The result `attach_contracts` is obliged to return.
    pub open spec fn spec_attach_outcome(
        &self,
        caller: Address,
        caller_authorized: bool,
        id: Bytes32,
        rwa_type: u32,
        version: u32,
        token_addr: Address,
    ) -> Result<(), Error> {
        if !caller_authorized {
            Err(Error::Unauthorized)
        } else if self.ctm_rwa_deployer is None {
            Err(Error::ConfigMissing)
        } else if self.ctm_rwa_deployer != Some(caller) {
            Err(Error::Unauthorized)
        } else if rwa_type != RWA_TYPE || version != VERSION {
            Err(Error::ClassificationMismatch)
        } else if self.id_bound(id) || self.addr_bound(token_addr) {
            Err(Error::AlreadyBound)
        } else {
            Ok(())
        }
    }

    /// Bind `id` and `token_addr` to each other, atomically in both
    /// directions.  Only the configured deployer may attach; a
    /// binding is immutable, so a second attach for the same id or
    /// address fails `AlreadyBound`.  A failing call changes nothing.
    pub fn attach_contracts(
        &mut self,
        caller: Address,
        caller_authorized: bool,
        id: Bytes32,
        rwa_type: u32,
        version: u32,
        token_addr: Address,
    ) -> (r: Result<(), Error>)
        requires
            old(self).wf(),
        ensures
            final(self).wf(),
            r == old(self).spec_attach_outcome(
                caller,
                caller_authorized,
                id,
                rwa_type,
                version,
                token_addr,
            ),
            r is Err ==> *final(self) == *old(self),
            r is Ok ==> {
                &&& final(self).contracts@ == old(self).contracts@.push(
                    (Binding { id, addr: token_addr }),
                )
                &&& final(self).id_bound(id)
                &&& final(self).addr_bound(token_addr)
                &&& final(self).spec_contract_of(id) == token_addr
                &&& final(self).spec_id_of(token_addr) == id
                &&& final(self).gateway == old(self).gateway
                &&& final(self).ctm_rwa001x == old(self).ctm_rwa001x
                &&& final(self).chain_id_str == old(self).chain_id_str
                &&& final(self).ctm_rwa_deployer == old(self).ctm_rwa_deployer
                &&& final(self).dividends@ == old(self).dividends@
                &&& final(self).storages@ == old(self).storages@
                &&& final(self).sentries@ == old(self).sentries@
            },
    {
        if !caller_authorized {
            return Err(Error::Unauthorized);
        }
        match self.ctm_rwa_deployer {
            None => {
                return Err(Error::ConfigMissing);
            },
            Some(d) => {
                if d != caller {
                    return Err(Error::Unauthorized);
                }
            },
        }
        if rwa_type != RWA_TYPE || version != VERSION {
            return Err(Error::ClassificationMismatch);
        }
        if !self.attach_ctmrwa_id(id, token_addr) {
            return Err(Error::AlreadyBound);
        }
        Ok(())
    }

    /// Record the binding in both directions if neither side is
    /// taken; report whether it was recorded.
    fn attach_ctmrwa_id(&mut self, id: Bytes32, ctm_rwa_addr: Address) -> (ok: bool)
        requires
            old(self).wf(),
        ensures
            final(self).wf(),
            ok == !(old(self).id_bound(id) || old(self).addr_bound(ctm_rwa_addr)),
            !ok ==> *final(self) == *old(self),
            ok ==> {
                &&& final(self).contracts@ == old(self).contracts@.push(
                    (Binding { id, addr: ctm_rwa_addr }),
                )
                &&& final(self).id_bound(id)
                &&& final(self).addr_bound(ctm_rwa_addr)
                &&& final(self).spec_contract_of(id) == ctm_rwa_addr
                &&& final(self).spec_id_of(ctm_rwa_addr) == id
                &&& final(self).gateway == old(self).gateway
                &&& final(self).ctm_rwa001x == old(self).ctm_rwa001x
                &&& final(self).chain_id_str == old(self).chain_id_str
                &&& final(self).ctm_rwa_deployer == old(self).ctm_rwa_deployer
                &&& final(self).dividends@ == old(self).dividends@
                &&& final(self).storages@ == old(self).storages@
                &&& final(self).sentries@ == old(self).sentries@
            },
    {
        let id_taken = {
            let n = self.contracts.len();
            let mut i: usize = 0;
            let mut found = false;
            while i < n
                invariant
                    n == self.contracts@.len(),
                    0 <= i <= n,
                    found == exists|j: int|
                        0 <= j < i && (#[trigger] self.contracts@[j]).id == id,
                decreases n - i,
            {
                if self.contracts[i].id == id {
                    found = true;
                }
                i = i + 1;
            }
            found
        };
        let addr_taken = {
            let n = self.contracts.len();
            let mut i: usize = 0;
            let mut found = false;
            while i < n
                invariant
                    n == self.contracts@.len(),
                    0 <= i <= n,
                    found == exists|j: int|
                        0 <= j < i && (#[trigger] self.contracts@[j]).addr == ctm_rwa_addr,
                decreases n - i,
            {
                if self.contracts[i].addr == ctm_rwa_addr {
                    found = true;
                }
                i = i + 1;
            }
            found
        };
        if id_taken || addr_taken {
            return false;
        }
        let ghost pre = *self;
        self.contracts.push(Binding { id, addr: ctm_rwa_addr });
        proof {
            let m = pre.contracts@.len() as int;
            assert(self.contracts@[m].id == id && self.contracts@[m].addr == ctm_rwa_addr);
            self.lemma_id_idx_is(m, id);
            self.lemma_addr_idx_is(m, ctm_rwa_addr);
        }
        true
    }

    /// With 1:1 bindings, a position holding `id` is the position the
    /// id lookup refers to.
    proof fn lemma_id_idx_is(&self, i: int, id: Bytes32)
        requires
            self.wf(),
            0 <= i < self.contracts@.len(),
            self.contracts@[i].id == id,
        ensures
            self.id_bound(id),
            self.id_idx(id) == i,
    {
        assert(self.id_bound(id));
        let k = self.id_idx(id);
        assert(0 <= k < self.contracts@.len() && self.contracts@[k].id == id);
        if k != i {
            if k < i {
                assert(self.contracts@[k].id != self.contracts@[i].id);
            } else {
                assert(self.contracts@[i].id != self.contracts@[k].id);
            }
        }
    }

    /// With 1:1 bindings, a position holding `addr` is the position
    /// the address lookup refers to.
    proof fn lemma_addr_idx_is(&self, i: int, addr: Address)
        requires
            self.wf(),
            0 <= i < self.contracts@.len(),
            self.contracts@[i].addr == addr,
        ensures
            self.addr_bound(addr),
            self.addr_idx(addr) == i,
    {
        assert(self.addr_bound(addr));
        let k = self.addr_idx(addr);
        assert(0 <= k < self.contracts@.len() && self.contracts@[k].addr == addr);
        if k != i {
            if k < i {
                assert(self.contracts@[k].addr != self.contracts@[i].addr);
            } else {
                assert(self.contracts@[i].addr != self.contracts@[k].addr);
            }
        }
    }
}

} // verus!
