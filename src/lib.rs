//! An inbound IPv4 packet filter: prefix parsing, a prefix table with
//! longest-prefix membership, protocol recognizers over the first payload
//! bytes, and the per-frame verdict.
pub mod cidr;
pub mod config;
pub mod dpi;
pub mod fet;
pub mod lpm;
pub mod classifier;
