//! Proposer-side preconfirmation sidecar: consensus tracking, block templates,
//! constraint signing inputs, and the coordinator's decisions, with contracts.

pub mod cli;
pub mod commitment;
pub mod consensus;
pub mod crypto;
pub mod delegation;
pub mod driver;
pub mod execution;
pub mod relay;
pub mod signer;
pub mod ssz;
pub mod template;
pub mod wire;
