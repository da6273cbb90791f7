//! Governance core of a programmable multi-party wallet: permission matching
//! with whitelist/blacklist scopes, access configurations, voting
//! configurations with numeric threshold rules, and a multi-round weighted
//! voting state machine with share-weighted tallying.

pub mod access_config;
pub mod blob;
pub mod choice;
pub mod common;
pub mod deployer;
pub mod group;
pub mod idl;
pub mod idmap;
pub mod pagination;
pub mod permission;
pub mod profile;
pub mod streaming;
pub mod types;
pub mod validation;
pub mod voting;
pub mod voting_config;
pub mod voting_service;
