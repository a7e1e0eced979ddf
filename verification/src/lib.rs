//! Verified core of the RemitWise contracts: the insurance policy registry,
//! the page-limit normaliser shared by paginated reads, the orchestrator's
//! execution accounting, and the checksum and hex encoding used for
//! migration snapshots.

pub mod checksum;
pub mod common;
pub mod hex;
pub mod insurance;
pub mod orchestrator;
