//! The token factory: instantiates a new asset ledger from a decoded
//! deployment payload, at most once per asset id.
//!
//! The host environment performs the actual deterministic
//! instantiation, with the asset id as the uniqueness salt; its
//! outcome — the fresh instance's address — is handed in, and the
//! factory's own record keeping, decoding and one-instance-per-id
//! rule are verified here.

use vstd::prelude::*;

use crate::codec;
use crate::codec::{ArgData, ArgDataV};
use crate::ledger::ctm_rwa001;
use crate::registry::Binding;
use crate::types::{Address, Bytes32, Error};

verus! {

/// The complete state of one factory contract instance.
#[allow(non_camel_case_types)]
pub struct CtmRwa001Factory {
    /// Whether `initialize` has run.
    pub initialized: bool,
    /// The classification of the ledgers this factory produces.
    pub rwa_type: u32,
    pub version: u32,
    /// The only caller allowed to deploy.
    pub ctm_rwa_deployer: Address,
    /// Asset id to deployed-instance address, in deployment order.
    pub deployed_contracts: Vec<Binding>,
}

impl CtmRwa001Factory {
    /// Whether an instance for this asset id was already deployed.
    pub open spec fn id_deployed(&self, id: Bytes32) -> bool {
        exists|i: int|
            0 <= i < self.deployed_contracts@.len() && (#[trigger] self.deployed_contracts@[i]).id
                == id
    }

    /// The position of `id`'s deployment record.
    pub open spec fn deployed_idx(&self, id: Bytes32) -> int {
        choose|i: int|
            0 <= i < self.deployed_contracts@.len() && (#[trigger] self.deployed_contracts@[i]).id
                == id
    }

    /// The address deployed for `id`.
    pub open spec fn spec_deployed_at(&self, id: Bytes32) -> Address {
        self.deployed_contracts@[self.deployed_idx(id)].addr
    }

    /// The factory invariant: at most one instance per asset id.
    pub open spec fn wf(&self) -> bool {
        forall|i: int, j: int|
            0 <= i < j < self.deployed_contracts@.len() ==> (
            #[trigger] self.deployed_contracts@[i]).id != (
            #[trigger] self.deployed_contracts@[j]).id
    }

    /// A blank, uninitialized factory.
    pub fn new() -> (r: CtmRwa001Factory)
        ensures
            r.wf(),
            !r.initialized,
            r.deployed_contracts@.len() == 0,
    {
        CtmRwa001Factory {
            initialized: false,
            rwa_type: 0,
            version: 0,
            ctm_rwa_deployer: Address { id: 0 },
            deployed_contracts: Vec::new(),
        }
    }

    /// One-time setup of the classification and the deployer peer.
    /// Fails `AlreadyInitialized` exactly when already set up; a
    /// failing call changes nothing.
    pub fn initialize(&mut self, rwa_type: u32, version: u32, ctm_rwa_deployer: Address) -> (r:
        Result<(), Error>)
        requires
            old(self).wf(),
        ensures
            final(self).wf(),
            r == (if old(self).initialized {
                Err::<(), Error>(Error::AlreadyInitialized)
            } else {
                Ok::<(), Error>(())
            }),
            r is Err ==> *final(self) == *old(self),
            r is Ok ==> {
                &&& final(self).initialized
                &&& final(self).rwa_type == rwa_type
                &&& final(self).version == version
                &&& final(self).ctm_rwa_deployer == ctm_rwa_deployer
                &&& final(self).deployed_contracts@ == old(self).deployed_contracts@
            },
    {
        if self.initialized {
            return Err(Error::AlreadyInitialized);
        }
        self.initialized = true;
        self.rwa_type = rwa_type;
        self.version = version;
        self.ctm_rwa_deployer = ctm_rwa_deployer;
        Ok(())
    }

    /// The decoded arguments `deploy` acts on when it succeeds, or
    /// the error it is obliged to return.
    pub open spec fn spec_deploy_outcome(&self, caller: Address, data: Seq<u8>) -> Result<
        ArgDataV,
        Error,
    > {
        if !self.initialized {
            Err(Error::ConfigMissing)
        } else if caller != self.ctm_rwa_deployer {
            Err(Error::Unauthorized)
        } else {
            match codec::spec_decode_ctm_arg(data) {
                Err(e) => Err(e),
                Ok(a) => if self.id_deployed(a.rwa_id) {
                    Err(Error::AlreadyDeployed)
                } else {
                    Ok(a)
                },
            }
        }
    }

    /// Deploy and initialize a new asset ledger from an ABI-encoded
    /// payload.
    ///
    /// Only the configured deployer may call.  The payload is decoded
    /// under the fixed schema; a second deployment for the decoded
    /// asset id fails `AlreadyDeployed`.  The host instantiates the
    /// contract deterministically from the asset id and reports its
    /// address as `new_address` and the admin account resolved from
    /// the decoded admin string as `token_admin`; the fresh ledger is
    /// initialized from the decoded arguments and returned with its
    /// address, which is recorded for the asset id.  A failing call
    /// changes nothing.
    #[allow(unused_variables)]
    pub fn deploy(
        &mut self,
        caller: Address,
        wasm_hash: Bytes32,
        deploy_args: &Vec<u8>,
        new_address: Address,
        token_admin: Address,
    ) -> (r: Result<(Address, ctm_rwa001), Error>)
        requires
            old(self).wf(),
        ensures
            final(self).wf(),
            match r {
                Ok(p) => {
                    &&& old(self).spec_deploy_outcome(caller, deploy_args@) is Ok
                    &&& p.0 == new_address
                    &&& p.1.wf()
                    &&& p.1.is_initialized()
                    &&& ({
                        let a = old(self).spec_deploy_outcome(caller, deploy_args@)->Ok_0;
                        &&& p.1.rwa_type == a.rwa_type
                        &&& p.1.version == a.version
                        &&& p.1.token_admin == Some(token_admin)
                        &&& p.1.rwa_id == a.rwa_id
                        &&& p.1.token_name@ == a.token_name
                        &&& p.1.symbol@ == a.symbol
                        &&& p.1.decimals == a.decimals
                        &&& p.1.base_uri@ == a.base_uri
                        &&& p.1.token_id_generator == 1
                        &&& p.1.tokens@.len() == 0
                        &&& p.1.slots@.len() == 0
                        &&& final(self).deployed_contracts@ == old(self).deployed_contracts@.push(
                            (Binding { id: a.rwa_id, addr: new_address }),
                        )
                        &&& final(self).id_deployed(a.rwa_id)
                        &&& final(self).spec_deployed_at(a.rwa_id) == new_address
                    })
                    &&& final(self).initialized == old(self).initialized
                    &&& final(self).rwa_type == old(self).rwa_type
                    &&& final(self).version == old(self).version
                    &&& final(self).ctm_rwa_deployer == old(self).ctm_rwa_deployer
                },
                Err(e) => {
                    &&& old(self).spec_deploy_outcome(caller, deploy_args@) == Err::<
                        ArgDataV,
                        Error,
                    >(e)
                    &&& *final(self) == *old(self)
                },
            },
    {
        if !self.initialized {
            return Err(Error::ConfigMissing);
        }
        if !(caller == self.ctm_rwa_deployer) {
            return Err(Error::Unauthorized);
        }
        let dec_args: ArgData = match codec::decode_ctm_arg(deploy_args) {
            Ok(a) => a,
            Err(e) => {
                return Err(e);
            },
        };
        if self.get_contract(dec_args.rwa_id).is_some() {
            return Err(Error::AlreadyDeployed);
        }
        let ghost pre = *self;
        let mut instance = ctm_rwa001::new();
        let init = instance.initialize(
            dec_args.rwa_type,
            dec_args.version,
            token_admin,
            dec_args.token_name,
            dec_args.symbol,
            dec_args.decimals,
            dec_args.base_uri,
            dec_args.rwa_id,
        );
        proof {
            assert(init is Ok);
        }
        self.deployed_contracts.push(Binding { id: dec_args.rwa_id, addr: new_address });
        proof {
            let m = pre.deployed_contracts@.len() as int;
            assert(self.deployed_contracts@[m].id == dec_args.rwa_id);
            assert forall|i: int, j: int|
                0 <= i < j < self.deployed_contracts@.len() implies (
            #[trigger] self.deployed_contracts@[i]).id != (
            #[trigger] self.deployed_contracts@[j]).id by {
                if j < m {
                } else {
                    assert(self.deployed_contracts@[i] == pre.deployed_contracts@[i]);
                    assert(!pre.id_deployed(dec_args.rwa_id));
                }
            };
            self.lemma_deployed_idx_is(m, dec_args.rwa_id);
        }
        Ok((new_address, instance))
    }

    /// The deployed instance for an asset id, if any.
    pub fn get_contract(&self, rwa_id: Bytes32) -> (r: Option<Address>)
        requires
            self.wf(),
        ensures
            match r {
                Some(a) => self.id_deployed(rwa_id) && a == self.spec_deployed_at(rwa_id),
                None => !self.id_deployed(rwa_id),
            },
    {
        let n = self.deployed_contracts.len();
        let mut i: usize = 0;
        while i < n
            invariant
                n == self.deployed_contracts@.len(),
                0 <= i <= n,
                self.wf(),
                forall|j: int|
                    0 <= j < i ==> (#[trigger] self.deployed_contracts@[j]).id != rwa_id,
            decreases n - i,
        {
            if self.deployed_contracts[i].id == rwa_id {
                proof {
                    self.lemma_deployed_idx_is(i as int, rwa_id);
                }
                return Some(self.deployed_contracts[i].addr);
            }
            i = i + 1;
        }
        None
    }

    /// With unique ids, a position holding `id` is the position the
    /// deployment lookup refers to.
    proof fn lemma_deployed_idx_is(&self, i: int, id: Bytes32)
        requires
            self.wf(),
            0 <= i < self.deployed_contracts@.len(),
            self.deployed_contracts@[i].id == id,
        ensures
            self.id_deployed(id),
            self.deployed_idx(id) == i,
    {
        assert(self.id_deployed(id));
        let k = self.deployed_idx(id);
        assert(0 <= k < self.deployed_contracts@.len() && self.deployed_contracts@[k].id == id);
        if k != i {
            if k < i {
                assert(self.deployed_contracts@[k].id != self.deployed_contracts@[i].id);
            } else {
                assert(self.deployed_contracts@[i].id != self.deployed_contracts@[k].id);
            }
        }
    }
}

} // verus!
