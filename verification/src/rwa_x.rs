//! The cross-chain coordination contract: governance over the peer
//! addresses, validation of multi-chain deployment requests, and the
//! local leg of a deployment — encoding the constructor payload and
//! driving the deployer.

use vstd::prelude::*;

use crate::codec;
use crate::deployer::CTMRwaDeployer;
use crate::factory::CtmRwa001Factory;
use crate::ledger::ctm_rwa001;
use crate::registry::CTMRWAMap;
use crate::types::{Address, Bytes32, Error};

verus! {

/// The classification this coordination contract serves.
pub const RWA_TYPE: u32 = 1;

pub const VERSION: u32 = 1;

/// The token metadata of one deployment request.
pub struct TokenDetails {
    pub token_name: String,
    pub token_symbol: String,
    pub token_decimals: u32,
    pub base_uri: String,
}

/// The initial slots of one deployment request, as parallel lists.
pub struct SlotDetails {
    pub slot_numbers: Vec<u32>,
    pub slot_names: Vec<String>,
}

/// The complete state of one coordination contract instance.
#[allow(non_camel_case_types)]
pub struct CTMRwa001X {
    /// Whether `initialize` has run.
    pub initialized: bool,
    /// The governance address.
    pub gov: Address,
    pub gateway: Address,
    pub fee_manager: Address,
    /// The registry peer; set by governance after initialization.
    pub ctm_rwa_map: Option<Address>,
    /// The deployer peer; set by governance after initialization.
    pub ctm_rwa_deployer: Option<Address>,
}

impl CTMRwa001X {
    /// A blank, uninitialized coordination contract.
    pub fn new() -> (r: CTMRwa001X)
        ensures
            !r.initialized,
            r.ctm_rwa_map is None,
            r.ctm_rwa_deployer is None,
    {
        CTMRwa001X {
            initialized: false,
            gov: Address { id: 0 },
            gateway: Address { id: 0 },
            fee_manager: Address { id: 0 },
            ctm_rwa_map: None,
            ctm_rwa_deployer: None,
        }
    }

    /// One-time setup of governance and the gateway and fee-manager
    /// peers.  Fails `AlreadyInitialized` exactly when already set
    /// up; a failing call changes nothing.
    pub fn initialize(&mut self, gov: Address, gateway: Address, fee_manager: Address) -> (r:
        Result<(), Error>)
        ensures
            r == (if old(self).initialized {
                Err::<(), Error>(Error::AlreadyInitialized)
            } else {
                Ok::<(), Error>(())
            }),
            r is Err ==> *final(self) == *old(self),
            r is Ok ==> {
                &&& final(self).initialized
                &&& final(self).gov == gov
                &&& final(self).gateway == gateway
                &&& final(self).fee_manager == fee_manager
                &&& final(self).ctm_rwa_map == old(self).ctm_rwa_map
                &&& final(self).ctm_rwa_deployer == old(self).ctm_rwa_deployer
            },
    {
        if self.initialized {
            return Err(Error::AlreadyInitialized);
        }
        self.initialized = true;
        self.gov = gov;
        self.gateway = gateway;
        self.fee_manager = fee_manager;
        Ok(())
    }

    /// The admission check every governance call must pass.
    pub open spec fn spec_gov_check(&self, gov: Address, gov_authorized: bool) -> Result<
        (),
        Error,
    > {
        if !gov_authorized {
            Err(Error::Unauthorized)
        } else if !self.initialized {
            Err(Error::ConfigMissing)
        } else if gov != self.gov {
            Err(Error::Unauthorized)
        } else {
            Ok(())
        }
    }

    /// Hand governance to `new_gov`; a governance call.  A failing
    /// call changes nothing.
    pub fn set_governor(&mut self, gov: Address, gov_authorized: bool, new_gov: Address) -> (r:
        Result<(), Error>)
        ensures
            r == old(self).spec_gov_check(gov, gov_authorized),
            r is Err ==> *final(self) == *old(self),
            r is Ok ==> *final(self) == (CTMRwa001X { gov: new_gov, ..*old(self) }),
    {
        if !gov_authorized {
            return Err(Error::Unauthorized);
        }
        if !self.initialized {
            return Err(Error::ConfigMissing);
        }
        if !(gov == self.gov) {
            return Err(Error::Unauthorized);
        }
        self.gov = new_gov;
        Ok(())
    }

    /// Point at a new gateway; a governance call.
    pub fn set_ctm_gateway(&mut self, gov: Address, gov_authorized: bool, new_gateway: Address) -> (r:
        Result<(), Error>)
        ensures
            r == old(self).spec_gov_check(gov, gov_authorized),
            r is Err ==> *final(self) == *old(self),
            r is Ok ==> *final(self) == (CTMRwa001X { gateway: new_gateway, ..*old(self) }),
    {
        if !gov_authorized {
            return Err(Error::Unauthorized);
        }
        if !self.initialized {
            return Err(Error::ConfigMissing);
        }
        if !(gov == self.gov) {
            return Err(Error::Unauthorized);
        }
        self.gateway = new_gateway;
        Ok(())
    }

    /// Point at a new registry; a governance call.
    pub fn set_ctm_map(&mut self, gov: Address, gov_authorized: bool, new_map: Address) -> (r:
        Result<(), Error>)
        ensures
            r == old(self).spec_gov_check(gov, gov_authorized),
            r is Err ==> *final(self) == *old(self),
            r is Ok ==> *final(self) == (CTMRwa001X { ctm_rwa_map: Some(new_map), ..*old(self) }),
    {
        if !gov_authorized {
            return Err(Error::Unauthorized);
        }
        if !self.initialized {
            return Err(Error::ConfigMissing);
        }
        if !(gov == self.gov) {
            return Err(Error::Unauthorized);
        }
        self.ctm_rwa_map = Some(new_map);
        Ok(())
    }

    /// Point at a new fee manager; a governance call.
    pub fn set_fee_manager(
        &mut self,
        gov: Address,
        gov_authorized: bool,
        new_fee_manager: Address,
    ) -> (r: Result<(), Error>)
        ensures
            r == old(self).spec_gov_check(gov, gov_authorized),
            r is Err ==> *final(self) == *old(self),
            r is Ok ==> *final(self) == (CTMRwa001X { fee_manager: new_fee_manager, ..*old(self) }),
    {
        if !gov_authorized {
            return Err(Error::Unauthorized);
        }
        if !self.initialized {
            return Err(Error::ConfigMissing);
        }
        if !(gov == self.gov) {
            return Err(Error::Unauthorized);
        }
        self.fee_manager = new_fee_manager;
        Ok(())
    }

    /// Point at a new deployer; a governance call.
    pub fn set_ctm_deployer(&mut self, gov: Address, gov_authorized: bool, new_deployer: Address) -> (r:
        Result<(), Error>)
        ensures
            r == old(self).spec_gov_check(gov, gov_authorized),
            r is Err ==> *final(self) == *old(self),
            r is Ok ==> *final(self) == (CTMRwa001X {
                ctm_rwa_deployer: Some(new_deployer),
                ..*old(self)
            }),
    {
        if !gov_authorized {
            return Err(Error::Unauthorized);
        }
        if !self.initialized {
            return Err(Error::ConfigMissing);
        }
        if !(gov == self.gov) {
            return Err(Error::Unauthorized);
        }
        self.ctm_rwa_deployer = Some(new_deployer);
        Ok(())
    }

    /// The ledger contract bound to an asset id, read through the
    /// configured registry; `ConfigMissing` when no registry peer is
    /// set.
    pub fn get_token_contract(
        &self,
        map: &CTMRWAMap,
        rwa_id: Bytes32,
        rwa_type: u32,
        version: u32,
    ) -> (r: Result<Option<Address>, Error>)
        requires
            map.wf(),
        ensures
            self.ctm_rwa_map is None ==> r == Err::<Option<Address>, Error>(Error::ConfigMissing),
            self.ctm_rwa_map is Some ==> {
                &&& (rwa_type != crate::registry::RWA_TYPE || version != crate::registry::VERSION)
                    ==> r == Err::<Option<Address>, Error>(Error::ClassificationMismatch)
                &&& (rwa_type == crate::registry::RWA_TYPE && version == crate::registry::VERSION)
                    ==> r == Ok::<Option<Address>, Error>(
                    if map.id_bound(rwa_id) {
                        Some(map.spec_contract_of(rwa_id))
                    } else {
                        None
                    },
                )
            },
    {
        if self.ctm_rwa_map.is_none() {
            return Err(Error::ConfigMissing);
        }
        map.get_token_contract(rwa_id, rwa_type, version)
    }

    /// The result the multi-chain deployment request check is obliged
    /// to return.
    pub open spec fn spec_deploy_all_outcome(
        include_local: bool,
        existing_rwa_id: Bytes32,
        token_name: Seq<char>,
    ) -> Result<(), Error> {
        if (!include_local && existing_rwa_id.spec_is_zero()) || (include_local
            && !existing_rwa_id.spec_is_zero()) {
            Err(Error::IncorrectCallLogic)
        } else if token_name.len() < 10 || token_name.len() > 512 {
            Err(Error::InvalidNameLength)
        } else {
            Ok(())
        }
    }

    /// Validate a request to deploy an asset series across chains.
    ///
    /// A caller either creates a fresh series locally (`include_local`
    /// with the zero asset id) or extends an existing one (no local
    /// leg, a non-zero id); any other combination is rejected.  The
    /// token name must be 10 to 512 characters.  The call reads and
    /// writes no contract state.
    #[allow(unused_variables)]
    pub fn deploy_all_ctm_rwa001_x(
        &self,
        caller: Address,
        include_local: bool,
        existing_rwa_id: Bytes32,
        rwa_type: u32,
        version: u32,
        token_details: TokenDetails,
        to_chain_ids: Vec<String>,
        fee_token: String,
    ) -> (r: Result<(), Error>)
        ensures
            r == Self::spec_deploy_all_outcome(
                include_local,
                existing_rwa_id,
                token_details.token_name@,
            ),
    {
        if !include_local && existing_rwa_id.is_zero() || include_local
            && !existing_rwa_id.is_zero() {
            return Err(Error::IncorrectCallLogic);
        }
        let name_len = token_details.token_name.as_str().unicode_len();
        if name_len < 10 || name_len > 512 {
            return Err(Error::InvalidNameLength);
        }
        Ok(())
    }

    /// Deploy the local leg of an asset series: encode the
    /// constructor payload from the request and drive the deployer,
    /// which instantiates the ledger and registers it.
    ///
    /// `token_admin_str` is the admin's 42-character address string
    /// carried in the payload and `token_admin` the host's account
    /// handle for it; `new_address` is the host's address for the
    /// instance.  Fails `ConfigMissing` when no deployer peer is
    /// configured; otherwise the outcome is the deployer's, over the
    /// encoded payload, and on failure the factory and registry are
    /// left unchanged.
    pub fn deploy_local_ctm_rwa001(
        &self,
        dep: &CTMRwaDeployer,
        factory: &mut CtmRwa001Factory,
        map: &mut CTMRWAMap,
        rwa_x_authorized: bool,
        rwa_id: Bytes32,
        token_details: TokenDetails,
        slot_details: SlotDetails,
        token_admin_str: String,
        token_admin: Address,
        new_address: Address,
    ) -> (r: Result<(Address, ctm_rwa001), Error>)
        requires
            dep.wf(),
            old(factory).wf(),
            old(map).wf(),
        ensures
            final(factory).wf(),
            final(map).wf(),
            ({
                let payload = codec::deploy_payload_of(
                    codec::spec_be_bytes32(rwa_id),
                    token_admin_str@,
                    token_details.token_name@,
                    token_details.token_symbol@,
                    token_details.token_decimals,
                    token_details.base_uri@,
                    slot_details.slot_numbers@,
                    slot_details.slot_names.deep_view(),
                );
                match r {
                    Ok(p) => self.ctm_rwa_deployer is Some && p.0 == new_address
                        && dep.spec_deploy_outcome(
                        *old(factory),
                        *old(map),
                        rwa_x_authorized,
                        rwa_id,
                        RWA_TYPE,
                        VERSION,
                        payload,
                        new_address,
                    ) == Ok::<Address, Error>(new_address) && p.1.wf() && p.1.is_initialized()
                        && p.1.token_admin == Some(token_admin) && final(map).id_bound(rwa_id)
                        && final(map).spec_contract_of(rwa_id) == new_address,
                    Err(e) => (self.ctm_rwa_deployer is None && e == Error::ConfigMissing) || (
                    self.ctm_rwa_deployer is Some && dep.spec_deploy_outcome(
                        *old(factory),
                        *old(map),
                        rwa_x_authorized,
                        rwa_id,
                        RWA_TYPE,
                        VERSION,
                        payload,
                        new_address,
                    ) == Err::<Address, Error>(e)),
                }
            }),
            r is Err ==> *final(factory) == *old(factory) && *final(map) == *old(map),
    {
        let id_bytes = codec::bytes32_to_be(rwa_id);
        let payload = codec::abi_encode_deploy_args(
            &id_bytes,
            &token_admin_str,
            &token_details.token_name,
            &token_details.token_symbol,
            token_details.token_decimals,
            &token_details.base_uri,
            &slot_details.slot_numbers,
            &slot_details.slot_names,
        );
        if self.ctm_rwa_deployer.is_none() {
            return Err(Error::ConfigMissing);
        }
        match dep.deploy(
            factory,
            map,
            rwa_x_authorized,
            rwa_id,
            RWA_TYPE,
            VERSION,
            &payload,
            new_address,
            token_admin,
        ) {
            Ok(p) => Ok(p),
            Err(e) => Err(e),
        }
    }
}

} // verus!
