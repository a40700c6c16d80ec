//! A semi-fungible asset-tokenization ledger together with the
//! deployment, registry and gateway contracts that publish each asset
//! series across chains.
//!
//! Each contract of the protocol is modelled as an explicit state record
//! with plain-value fields; every entry point is a total function from
//! the old state and the call's inputs to the new state and a result.
//! The host environment (persistent storage, event log, authorization
//! proofs, contract instantiation and hashing) stays outside: callers
//! perform those effects and hand the outcomes in as arguments.

pub mod codec;
pub mod deployer;
pub mod factory;
pub mod gateway;
pub mod ledger;
pub mod registry;
pub mod rwa_x;
pub mod types;
