//! Verified core of a control tool for a replicated key-value store, and of the order in which the
//! server of such a store starts and stops.
pub mod bytes;
pub mod codec;
pub mod command;
pub mod diff;
pub mod diff_laws;
pub mod error;
pub mod escape;
pub mod hex;
pub mod keys;
pub mod mvcc;
pub mod mvcc_laws;
pub mod notation_laws;
pub mod number;
pub mod order_laws;
pub mod plan_laws;
pub mod range;
pub mod raw;
pub mod region;
pub mod region_laws;
pub mod report_laws;
pub mod scan_laws;
pub mod server;
pub mod size;
pub mod store;
pub mod store_laws;
pub mod text;
pub mod types;
pub mod version_laws;
