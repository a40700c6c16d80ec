//! The deployment orchestrator: invokes the factory registered for a
//! classification, checks the fresh instance's self-reported
//! classification, and registers the new ledger in the asset registry.
//!
//! The whole chain is atomic: a failure at any step leaves the
//! factory and the registry exactly as they were, so a second deploy
//! for an already-bound asset id fails and changes nothing.

use vstd::prelude::*;

use crate::codec;
use crate::factory::CtmRwa001Factory;
use crate::ledger::ctm_rwa001;
use crate::registry;
use crate::registry::CTMRWAMap;
use crate::types::{Address, Bytes32, Error};

verus! {

/// A code hash registered for one (asset type, version) pair.
pub struct HashEntry {
    pub rwa_type: u32,
    pub version: u32,
    pub hash: Bytes32,
}

/// A factory address registered for one (asset type, version) pair.
pub struct FactoryEntry {
    pub rwa_type: u32,
    pub version: u32,
    pub factory: Address,
}

/// The complete state of one deployer contract instance.
#[allow(non_camel_case_types)]
pub struct CTMRwaDeployer {
    /// This contract's own address; it is the caller of the nested
    /// factory and registry calls.
    pub self_address: Address,
    /// Whether `initialize` has run.
    pub initialized: bool,
    /// The governance address.
    pub gov: Address,
    pub gateway: Address,
    pub fee_manager: Address,
    /// The cross-chain coordination contract whose authorization
    /// every deploy requires.
    pub rwa_x: Address,
    pub ctm_rwa_map: Address,
    /// Ledger code hashes per classification.
    pub token_hashes: Vec<HashEntry>,
    /// Factory addresses per classification.
    pub factories: Vec<FactoryEntry>,
}

impl CTMRwaDeployer {
    /// Whether a code hash is registered for the pair.
    pub open spec fn has_hash(&self, rwa_type: u32, version: u32) -> bool {
        exists|i: int|
            0 <= i < self.token_hashes@.len() && (#[trigger] self.token_hashes@[i]).rwa_type
                == rwa_type && self.token_hashes@[i].version == version
    }

    /// The position of the pair's hash entry.
    pub open spec fn hash_idx(&self, rwa_type: u32, version: u32) -> int {
        choose|i: int|
            0 <= i < self.token_hashes@.len() && (#[trigger] self.token_hashes@[i]).rwa_type
                == rwa_type && self.token_hashes@[i].version == version
    }

    /// The code hash registered for the pair.
    pub open spec fn spec_hash_of(&self, rwa_type: u32, version: u32) -> Bytes32 {
        self.token_hashes@[self.hash_idx(rwa_type, version)].hash
    }

    /// Whether a factory is registered for the pair.
    pub open spec fn has_factory(&self, rwa_type: u32, version: u32) -> bool {
        exists|i: int|
            0 <= i < self.factories@.len() && (#[trigger] self.factories@[i]).rwa_type == rwa_type
                && self.factories@[i].version == version
    }

    /// The position of the pair's factory entry.
    pub open spec fn factory_idx(&self, rwa_type: u32, version: u32) -> int {
        choose|i: int|
            0 <= i < self.factories@.len() && (#[trigger] self.factories@[i]).rwa_type == rwa_type
                && self.factories@[i].version == version
    }

    /// The factory address registered for the pair.
    pub open spec fn spec_factory_of(&self, rwa_type: u32, version: u32) -> Address {
        self.factories@[self.factory_idx(rwa_type, version)].factory
    }

    /// The deployer invariant: one hash and one factory per pair.
    pub open spec fn wf(&self) -> bool {
        &&& forall|i: int, j: int|
            0 <= i < j < self.token_hashes@.len() ==> !((#[trigger] self.token_hashes@[i]).rwa_type
                == (#[trigger] self.token_hashes@[j]).rwa_type && self.token_hashes@[i].version
                == self.token_hashes@[j].version)
        &&& forall|i: int, j: int|
            0 <= i < j < self.factories@.len() ==> !((#[trigger] self.factories@[i]).rwa_type == (
            #[trigger] self.factories@[j]).rwa_type && self.factories@[i].version
                == self.factories@[j].version)
    }

    /// A blank, uninitialized deployer living at `self_address`.
    pub fn new(self_address: Address) -> (r: CTMRwaDeployer)
        ensures
            r.wf(),
            !r.initialized,
            r.self_address == self_address,
            r.token_hashes@.len() == 0,
            r.factories@.len() == 0,
    {
        CTMRwaDeployer {
            self_address,
            initialized: false,
            gov: Address { id: 0 },
            gateway: Address { id: 0 },
            fee_manager: Address { id: 0 },
            rwa_x: Address { id: 0 },
            ctm_rwa_map: Address { id: 0 },
            token_hashes: Vec::new(),
            factories: Vec::new(),
        }
    }

    /// One-time setup of governance and the peer addresses.  Fails
    /// `AlreadyInitialized` exactly when already set up; a failing
    /// call changes nothing.
    pub fn initialize(
        &mut self,
        gov: Address,
        gateway: Address,
        fee_manager: Address,
        rwa_x: Address,
        ctm_rwa_map: Address,
    ) -> (r: Result<(), Error>)
        requires
            old(self).wf(),
        ensures
            final(self).wf(),
            r == (if old(self).initialized {
                Err::<(), Error>(Error::AlreadyInitialized)
            } else {
                Ok::<(), Error>(())
            }),
            r is Err ==> *final(self) == *old(self),
            r is Ok ==> {
                &&& final(self).initialized
                &&& final(self).gov == gov
                &&& final(self).gateway == gateway
                &&& final(self).fee_manager == fee_manager
                &&& final(self).rwa_x == rwa_x
                &&& final(self).ctm_rwa_map == ctm_rwa_map
                &&& final(self).self_address == old(self).self_address
                &&& final(self).token_hashes@ == old(self).token_hashes@
                &&& final(self).factories@ == old(self).factories@
            },
    {
        if self.initialized {
            return Err(Error::AlreadyInitialized);
        }
        self.initialized = true;
        self.gov = gov;
        self.gateway = gateway;
        self.fee_manager = fee_manager;
        self.rwa_x = rwa_x;
        self.ctm_rwa_map = ctm_rwa_map;
        Ok(())
    }

    /// The admission check every governance call must pass.
    pub open spec fn spec_gov_check(&self, gov: Address, gov_authorized: bool) -> Result<
        (),
        Error,
    > {
        if !gov_authorized {
            Err(Error::Unauthorized)
        } else if !self.initialized {
            Err(Error::ConfigMissing)
        } else if gov != self.gov {
            Err(Error::Unauthorized)
        } else {
            Ok(())
        }
    }

    /// Hand governance to `new_gov`; only the current governance
    /// address may do so, with an authorization proof.  A failing
    /// call changes nothing.
    pub fn set_governor(&mut self, gov: Address, gov_authorized: bool, new_gov: Address) -> (r:
        Result<(), Error>)
        requires
            old(self).wf(),
        ensures
            final(self).wf(),
            r == old(self).spec_gov_check(gov, gov_authorized),
            r is Err ==> *final(self) == *old(self),
            r is Ok ==> *final(self) == (CTMRwaDeployer { gov: new_gov, ..*old(self) }),
    {
        if !gov_authorized {
            return Err(Error::Unauthorized);
        }
        if !self.initialized {
            return Err(Error::ConfigMissing);
        }
        if !(gov == self.gov) {
            return Err(Error::Unauthorized);
        }
        self.gov = new_gov;
        Ok(())
    }

    /// Register (or overwrite) the ledger code hash for a pair; a
    /// governance call.  A failing call changes nothing.
    pub fn set_token_hash(
        &mut self,
        gov: Address,
        gov_authorized: bool,
        rwa_type: u32,
        version: u32,
        token_hash: Bytes32,
    ) -> (r: Result<(), Error>)
        requires
            old(self).wf(),
        ensures
            final(self).wf(),
            r == old(self).spec_gov_check(gov, gov_authorized),
            r is Err ==> *final(self) == *old(self),
            r is Ok ==> {
                &&& final(self).has_hash(rwa_type, version)
                &&& final(self).spec_hash_of(rwa_type, version) == token_hash
                &&& forall|t: u32, v: u32|
                    !(t == rwa_type && v == version) ==> #[trigger] final(self).has_hash(t, v)
                        == old(self).has_hash(t, v) && (old(self).has_hash(t, v)
                        ==> final(self).spec_hash_of(t, v) == old(self).spec_hash_of(t, v))
                &&& final(self).factories@ == old(self).factories@
                &&& final(self).gov == old(self).gov
                &&& final(self).initialized == old(self).initialized
                &&& final(self).self_address == old(self).self_address
                &&& final(self).rwa_x == old(self).rwa_x
                &&& final(self).ctm_rwa_map == old(self).ctm_rwa_map
                &&& final(self).gateway == old(self).gateway
                &&& final(self).fee_manager == old(self).fee_manager
            },
    {
        if !gov_authorized {
            return Err(Error::Unauthorized);
        }
        if !self.initialized {
            return Err(Error::ConfigMissing);
        }
        if !(gov == self.gov) {
            return Err(Error::Unauthorized);
        }
        let ghost pre = *self;
        let n = self.token_hashes.len();
        let mut i: usize = 0;
        while i < n
            invariant
                n == self.token_hashes@.len(),
                0 <= i <= n,
                *self == pre,
                pre == *old(self),
                pre.wf(),
                gov_authorized,
                pre.initialized,
                gov == pre.gov,
                forall|j: int|
                    0 <= j < i ==> !((#[trigger] pre.token_hashes@[j]).rwa_type == rwa_type
                        && pre.token_hashes@[j].version == version),
            decreases n - i,
        {
            if self.token_hashes[i].rwa_type == rwa_type && self.token_hashes[i].version
                == version {
                self.token_hashes[i].hash = token_hash;
                proof {
                    self.lemma_hash_idx_is(i as int, rwa_type, version);
                    assert forall|t: u32, v: u32| !(t == rwa_type && v == version) implies
                    #[trigger] self.has_hash(t, v) == pre.has_hash(t, v) && (pre.has_hash(t, v)
                        ==> self.spec_hash_of(t, v) == pre.spec_hash_of(t, v)) by {
                        self.lemma_hash_frame(pre, i as int, t, v);
                    };
                }
                return Ok(());
            }
            i = i + 1;
        }
        self.token_hashes.push(HashEntry { rwa_type, version, hash: token_hash });
        proof {
            let m = pre.token_hashes@.len() as int;
            assert forall|a: int, b: int|
                0 <= a < b < self.token_hashes@.len() implies !((
            #[trigger] self.token_hashes@[a]).rwa_type == (
            #[trigger] self.token_hashes@[b]).rwa_type && self.token_hashes@[a].version
                == self.token_hashes@[b].version) by {
                if b < m {
                } else {
                    assert(self.token_hashes@[a] == pre.token_hashes@[a]);
                }
            };
            self.lemma_hash_idx_is(m, rwa_type, version);
            assert forall|t: u32, v: u32| !(t == rwa_type && v == version) implies
            #[trigger] self.has_hash(t, v) == pre.has_hash(t, v) && (pre.has_hash(t, v)
                ==> self.spec_hash_of(t, v) == pre.spec_hash_of(t, v)) by {
                self.lemma_hash_frame(pre, m, t, v);
            };
        }
        Ok(())
    }

    /// Register (or overwrite) the factory address for a pair; a
    /// governance call.  A failing call changes nothing.
    pub fn set_factory(
        &mut self,
        gov: Address,
        gov_authorized: bool,
        rwa_type: u32,
        version: u32,
        factory: Address,
    ) -> (r: Result<(), Error>)
        requires
            old(self).wf(),
        ensures
            final(self).wf(),
            r == old(self).spec_gov_check(gov, gov_authorized),
            r is Err ==> *final(self) == *old(self),
            r is Ok ==> {
                &&& final(self).has_factory(rwa_type, version)
                &&& final(self).spec_factory_of(rwa_type, version) == factory
                &&& forall|t: u32, v: u32|
                    !(t == rwa_type && v == version) ==> #[trigger] final(self).has_factory(t, v)
                        == old(self).has_factory(t, v) && (old(self).has_factory(t, v)
                        ==> final(self).spec_factory_of(t, v) == old(self).spec_factory_of(t, v))
                &&& final(self).token_hashes@ == old(self).token_hashes@
                &&& final(self).gov == old(self).gov
                &&& final(self).initialized == old(self).initialized
                &&& final(self).self_address == old(self).self_address
                &&& final(self).rwa_x == old(self).rwa_x
                &&& final(self).ctm_rwa_map == old(self).ctm_rwa_map
                &&& final(self).gateway == old(self).gateway
                &&& final(self).fee_manager == old(self).fee_manager
            },
    {
        if !gov_authorized {
            return Err(Error::Unauthorized);
        }
        if !self.initialized {
            return Err(Error::ConfigMissing);
        }
        if !(gov == self.gov) {
            return Err(Error::Unauthorized);
        }
        let ghost pre = *self;
        let n = self.factories.len();
        let mut i: usize = 0;
        while i < n
            invariant
                n == self.factories@.len(),
                0 <= i <= n,
                *self == pre,
                pre == *old(self),
                pre.wf(),
                gov_authorized,
                pre.initialized,
                gov == pre.gov,
                forall|j: int|
                    0 <= j < i ==> !((#[trigger] pre.factories@[j]).rwa_type == rwa_type
                        && pre.factories@[j].version == version),
            decreases n - i,
        {
            if self.factories[i].rwa_type == rwa_type && self.factories[i].version == version {
                self.factories[i].factory = factory;
                proof {
                    self.lemma_factory_idx_is(i as int, rwa_type, version);
                    assert forall|t: u32, v: u32| !(t == rwa_type && v == version) implies
                    #[trigger] self.has_factory(t, v) == pre.has_factory(t, v) && (pre.has_factory(
                        t,
                        v,
                    ) ==> self.spec_factory_of(t, v) == pre.spec_factory_of(t, v)) by {
                        self.lemma_factory_frame(pre, i as int, t, v);
                    };
                }
                return Ok(());
            }
            i = i + 1;
        }
        self.factories.push(FactoryEntry { rwa_type, version, factory });
        proof {
            let m = pre.factories@.len() as int;
            assert forall|a: int, b: int|
                0 <= a < b < self.factories@.len() implies !((
            #[trigger] self.factories@[a]).rwa_type == (#[trigger] self.factories@[b]).rwa_type
                && self.factories@[a].version == self.factories@[b].version) by {
                if b < m {
                } else {
                    assert(self.factories@[a] == pre.factories@[a]);
                }
            };
            self.lemma_factory_idx_is(m, rwa_type, version);
            assert forall|t: u32, v: u32| !(t == rwa_type && v == version) implies
            #[trigger] self.has_factory(t, v) == pre.has_factory(t, v) && (pre.has_factory(t, v)
                ==> self.spec_factory_of(t, v) == pre.spec_factory_of(t, v)) by {
                self.lemma_factory_frame(pre, m, t, v);
            };
        }
        Ok(())
    }

    /// The hash entry for the pair, if any.
    fn find_token_hash(&self, rwa_type: u32, version: u32) -> (r: Option<Bytes32>)
        requires
            self.wf(),
        ensures
            match r {
                Some(h) => self.has_hash(rwa_type, version) && h == self.spec_hash_of(
                    rwa_type,
                    version,
                ),
                None => !self.has_hash(rwa_type, version),
            },
    {
        let n = self.token_hashes.len();
        let mut i: usize = 0;
        while i < n
            invariant
                n == self.token_hashes@.len(),
                0 <= i <= n,
                self.wf(),
                forall|j: int|
                    0 <= j < i ==> !((#[trigger] self.token_hashes@[j]).rwa_type == rwa_type
                        && self.token_hashes@[j].version == version),
            decreases n - i,
        {
            if self.token_hashes[i].rwa_type == rwa_type && self.token_hashes[i].version
                == version {
                proof {
                    self.lemma_hash_idx_is(i as int, rwa_type, version);
                }
                return Some(self.token_hashes[i].hash);
            }
            i = i + 1;
        }
        None
    }

    /// The factory entry for the pair, if any.
    fn find_factory(&self, rwa_type: u32, version: u32) -> (r: Option<Address>)
        requires
            self.wf(),
        ensures
            match r {
                Some(a) => self.has_factory(rwa_type, version) && a == self.spec_factory_of(
                    rwa_type,
                    version,
                ),
                None => !self.has_factory(rwa_type, version),
            },
    {
        let n = self.factories.len();
        let mut i: usize = 0;
        while i < n
            invariant
                n == self.factories@.len(),
                0 <= i <= n,
                self.wf(),
                forall|j: int|
                    0 <= j < i ==> !((#[trigger] self.factories@[j]).rwa_type == rwa_type
                        && self.factories@[j].version == version),
            decreases n - i,
        {
            if self.factories[i].rwa_type == rwa_type && self.factories[i].version == version {
                proof {
                    self.lemma_factory_idx_is(i as int, rwa_type, version);
                }
                return Some(self.factories[i].factory);
            }
            i = i + 1;
        }
        None
    }

    /// The result `deploy` is obliged to return, as seen before the
    /// call: the full check cascade of the deployer, the factory it
    /// invokes, and the registry attachment.
    pub open spec fn spec_deploy_outcome(
        &self,
        factory: CtmRwa001Factory,
        map: CTMRWAMap,
        rwa_x_authorized: bool,
        rwa_id: Bytes32,
        rwa_type: u32,
        version: u32,
        data: Seq<u8>,
        new_address: Address,
    ) -> Result<Address, Error> {
        if !self.initialized {
            Err(Error::ConfigMissing)
        } else if !rwa_x_authorized {
            Err(Error::Unauthorized)
        } else if !self.has_hash(rwa_type, version) {
            Err(Error::ConfigMissing)
        } else if !self.has_factory(rwa_type, version) {
            Err(Error::ConfigMissing)
        } else {
            match factory.spec_deploy_outcome(self.self_address, data) {
                Err(e) => Err(e),
                Ok(a) => if a.rwa_type != rwa_type || a.version != version {
                    Err(Error::ClassificationMismatch)
                } else {
                    match map.spec_attach_outcome(
                        self.self_address,
                        true,
                        rwa_id,
                        rwa_type,
                        version,
                        new_address,
                    ) {
                        Err(e) => Err(e),
                        Ok(_) => Ok(new_address),
                    }
                },
            }
        }
    }

    /// Deploy a new asset ledger through the registered factory and
    /// bind it in the registry.
    ///
    /// The configured cross-chain coordination contract must have
    /// authorized the call.  The registered code hash and factory for
    /// the classification must exist; the factory decodes the payload
    /// and instantiates the ledger, whose self-reported
    /// classification must equal the requested one; finally the
    /// registry binds `rwa_id` to the new instance.  The chain is
    /// atomic: on any failure both the factory and the registry are
    /// left exactly as they were.  In particular, a deploy for an
    /// asset id the registry already binds always fails and changes
    /// nothing.
    pub fn deploy(
        &self,
        factory: &mut CtmRwa001Factory,
        map: &mut CTMRWAMap,
        rwa_x_authorized: bool,
        rwa_id: Bytes32,
        rwa_type: u32,
        version: u32,
        deploy_args: &Vec<u8>,
        new_address: Address,
        token_admin: Address,
    ) -> (r: Result<(Address, ctm_rwa001), Error>)
        requires
            self.wf(),
            old(factory).wf(),
            old(map).wf(),
        ensures
            final(factory).wf(),
            final(map).wf(),
            match r {
                Ok(p) => p.0 == new_address && self.spec_deploy_outcome(
                    *old(factory),
                    *old(map),
                    rwa_x_authorized,
                    rwa_id,
                    rwa_type,
                    version,
                    deploy_args@,
                    new_address,
                ) == Ok::<Address, Error>(new_address),
                Err(e) => self.spec_deploy_outcome(
                    *old(factory),
                    *old(map),
                    rwa_x_authorized,
                    rwa_id,
                    rwa_type,
                    version,
                    deploy_args@,
                    new_address,
                ) == Err::<Address, Error>(e),
            },
            r is Err ==> *final(factory) == *old(factory) && *final(map) == *old(map),
            old(map).id_bound(rwa_id) ==> r is Err && *final(factory) == *old(factory)
                && *final(map) == *old(map),
            r matches Ok(p) ==> {
                let a = old(factory).spec_deploy_outcome(self.self_address, deploy_args@)->Ok_0;
                &&& p.1.wf()
                &&& p.1.is_initialized()
                &&& p.1.rwa_type == rwa_type
                &&& p.1.version == version
                &&& p.1.token_admin == Some(token_admin)
                &&& p.1.rwa_id == a.rwa_id
                &&& p.1.tokens@.len() == 0
                &&& p.1.slots@.len() == 0
                &&& final(factory).id_deployed(a.rwa_id)
                &&& final(factory).spec_deployed_at(a.rwa_id) == new_address
                &&& final(map).id_bound(rwa_id)
                &&& final(map).spec_contract_of(rwa_id) == new_address
                &&& final(map).spec_id_of(new_address) == rwa_id
            },
    {
        if !self.initialized {
            return Err(Error::ConfigMissing);
        }
        if !rwa_x_authorized {
            return Err(Error::Unauthorized);
        }
        let token_hash = match self.find_token_hash(rwa_type, version) {
            Some(h) => h,
            None => {
                return Err(Error::ConfigMissing);
            },
        };
        match self.find_factory(rwa_type, version) {
            Some(_) => {},
            None => {
                return Err(Error::ConfigMissing);
            },
        }
        // the factory's own admission checks, before committing anything
        if !factory.initialized {
            return Err(Error::ConfigMissing);
        }
        if !(self.self_address == factory.ctm_rwa_deployer) {
            return Err(Error::Unauthorized);
        }
        let dec = match codec::decode_ctm_arg(deploy_args) {
            Ok(a) => a,
            Err(e) => {
                return Err(e);
            },
        };
        if factory.get_contract(dec.rwa_id).is_some() {
            return Err(Error::AlreadyDeployed);
        }
        // the fresh instance will self-report the decoded
        // classification
        if dec.rwa_type != rwa_type || dec.version != version {
            return Err(Error::ClassificationMismatch);
        }
        // the registry's admission checks, before committing anything
        match map.ctm_rwa_deployer {
            None => {
                return Err(Error::ConfigMissing);
            },
            Some(d) => {
                if !(d == self.self_address) {
                    return Err(Error::Unauthorized);
                }
            },
        }
        if rwa_type != registry::RWA_TYPE || version != registry::VERSION {
            return Err(Error::ClassificationMismatch);
        }
        match map.get_token_contract(rwa_id, rwa_type, version) {
            Ok(Some(_)) => {
                return Err(Error::AlreadyBound);
            },
            Ok(None) => {},
            Err(_) => {
                proof {
                    assert(false);
                }
            },
        }
        match map.get_token_id(new_address, rwa_type, version) {
            Ok(Some(_)) => {
                return Err(Error::AlreadyBound);
            },
            Ok(None) => {},
            Err(_) => {
                proof {
                    assert(false);
                }
            },
        }
        // every check has passed: commit the factory deployment and the
        // registry binding
        let (token_address, instance) = match factory.deploy(
            self.self_address,
            token_hash,
            deploy_args,
            new_address,
            token_admin,
        ) {
            Ok(p) => p,
            Err(_) => {
                proof {
                    assert(false);
                }
                vstd::pervasive::unreached()
            },
        };
        match map.attach_contracts(
            self.self_address,
            true,
            rwa_id,
            rwa_type,
            version,
            token_address,
        ) {
            Ok(_) => {},
            Err(_) => {
                proof {
                    assert(false);
                }
            },
        }
        Ok((token_address, instance))
    }

    /// With unique pairs, a position holding the pair is the position
    /// the hash lookup refers to.
    proof fn lemma_hash_idx_is(&self, i: int, rwa_type: u32, version: u32)
        requires
            self.wf(),
            0 <= i < self.token_hashes@.len(),
            self.token_hashes@[i].rwa_type == rwa_type,
            self.token_hashes@[i].version == version,
        ensures
            self.has_hash(rwa_type, version),
            self.hash_idx(rwa_type, version) == i,
    {
        assert(self.has_hash(rwa_type, version));
        let k = self.hash_idx(rwa_type, version);
        assert(0 <= k < self.token_hashes@.len() && self.token_hashes@[k].rwa_type == rwa_type
            && self.token_hashes@[k].version == version);
        if k != i {
            if k < i {
                assert(!((self.token_hashes@[k]).rwa_type == (self.token_hashes@[i]).rwa_type
                    && self.token_hashes@[k].version == self.token_hashes@[i].version));
            } else {
                assert(!((self.token_hashes@[i]).rwa_type == (self.token_hashes@[k]).rwa_type
                    && self.token_hashes@[i].version == self.token_hashes@[k].version));
            }
        }
    }

    /// With unique pairs, a position holding the pair is the position
    /// the factory lookup refers to.
    proof fn lemma_factory_idx_is(&self, i: int, rwa_type: u32, version: u32)
        requires
            self.wf(),
            0 <= i < self.factories@.len(),
            self.factories@[i].rwa_type == rwa_type,
            self.factories@[i].version == version,
        ensures
            self.has_factory(rwa_type, version),
            self.factory_idx(rwa_type, version) == i,
    {
        assert(self.has_factory(rwa_type, version));
        let k = self.factory_idx(rwa_type, version);
        assert(0 <= k < self.factories@.len() && self.factories@[k].rwa_type == rwa_type
            && self.factories@[k].version == version);
        if k != i {
            if k < i {
                assert(!((self.factories@[k]).rwa_type == (self.factories@[i]).rwa_type
                    && self.factories@[k].version == self.factories@[i].version));
            } else {
                assert(!((self.factories@[i]).rwa_type == (self.factories@[k]).rwa_type
                    && self.factories@[i].version == self.factories@[k].version));
            }
        }
    }

    /// A hash write at one pair leaves every other pair's entry as it
    /// was.
    proof fn lemma_hash_frame(&self, pre: CTMRwaDeployer, w: int, t: u32, v: u32)
        requires
            pre.wf(),
            self.wf(),
            self.token_hashes@.len() == pre.token_hashes@.len() || (self.token_hashes@.len()
                == pre.token_hashes@.len() + 1 && w == pre.token_hashes@.len()),
            forall|j: int|
                0 <= j < pre.token_hashes@.len() && j != w ==> #[trigger] self.token_hashes@[j]
                    == pre.token_hashes@[j],
            0 <= w < self.token_hashes@.len(),
            !(self.token_hashes@[w].rwa_type == t && self.token_hashes@[w].version == v),
            w < pre.token_hashes@.len() ==> pre.token_hashes@[w].rwa_type
                == self.token_hashes@[w].rwa_type && pre.token_hashes@[w].version
                == self.token_hashes@[w].version,
        ensures
            self.has_hash(t, v) == pre.has_hash(t, v),
            pre.has_hash(t, v) ==> self.spec_hash_of(t, v) == pre.spec_hash_of(t, v),
    {
        if pre.has_hash(t, v) {
            let j = pre.hash_idx(t, v);
            assert(0 <= j < pre.token_hashes@.len() && pre.token_hashes@[j].rwa_type == t
                && pre.token_hashes@[j].version == v);
            assert(j != w);
            assert(self.token_hashes@[j] == pre.token_hashes@[j]);
            self.lemma_hash_idx_is(j, t, v);
        } else {
            if self.has_hash(t, v) {
                let j = self.hash_idx(t, v);
                assert(0 <= j < self.token_hashes@.len() && self.token_hashes@[j].rwa_type == t
                    && self.token_hashes@[j].version == v);
                assert(j != w);
                if j < pre.token_hashes@.len() {
                    assert(self.token_hashes@[j] == pre.token_hashes@[j]);
                    assert(pre.has_hash(t, v));
                } else {
                    assert(j == w);
                }
                assert(false);
            }
        }
    }

    /// A factory write at one pair leaves every other pair's entry as
    /// it was.
    proof fn lemma_factory_frame(&self, pre: CTMRwaDeployer, w: int, t: u32, v: u32)
        requires
            pre.wf(),
            self.wf(),
            self.factories@.len() == pre.factories@.len() || (self.factories@.len()
                == pre.factories@.len() + 1 && w == pre.factories@.len()),
            forall|j: int|
                0 <= j < pre.factories@.len() && j != w ==> #[trigger] self.factories@[j]
                    == pre.factories@[j],
            0 <= w < self.factories@.len(),
            !(self.factories@[w].rwa_type == t && self.factories@[w].version == v),
            w < pre.factories@.len() ==> pre.factories@[w].rwa_type == self.factories@[w].rwa_type
                && pre.factories@[w].version == self.factories@[w].version,
        ensures
            self.has_factory(t, v) == pre.has_factory(t, v),
            pre.has_factory(t, v) ==> self.spec_factory_of(t, v) == pre.spec_factory_of(t, v),
    {
        if pre.has_factory(t, v) {
            let j = pre.factory_idx(t, v);
            assert(0 <= j < pre.factories@.len() && pre.factories@[j].rwa_type == t
                && pre.factories@[j].version == v);
            assert(j != w);
            assert(self.factories@[j] == pre.factories@[j]);
            self.lemma_factory_idx_is(j, t, v);
        } else {
            if self.has_factory(t, v) {
                let j = self.factory_idx(t, v);
                assert(0 <= j < self.factories@.len() && self.factories@[j].rwa_type == t
                    && self.factories@[j].version == v);
                assert(j != w);
                if j < pre.factories@.len() {
                    assert(self.factories@[j] == pre.factories@[j]);
                    assert(pre.has_factory(t, v));
                } else {
                    assert(j == w);
                }
                assert(false);
            }
        }
    }
}

} // verus!
