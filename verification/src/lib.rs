//! A verified core for a cloud-network inspection tool: it assembles a
//! topology from independently fetched resource collections, classifies
//! security-group ingress rules into severity-ranked compliance issues
//! under a fixed risk policy, compares two networks structurally, and
//! aggregates per-region scan outcomes into a worst-case exit code.
pub mod compliance;
pub mod diff;
pub mod json;
pub mod model;
pub mod regions;
pub mod strutil;
pub mod topology;
