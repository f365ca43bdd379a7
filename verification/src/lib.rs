//! Verified core of the Zebra security-audit toolkit: P2P frame construction,
//! corpus seeds, crash triage, static scanners and runtime peer metrics.

pub mod assoc;
pub mod crash;
pub mod digest;
pub mod payloads;
pub mod peer_metrics;
pub mod processing;
pub mod text;
pub mod wire;
pub mod unsafe_scan;
pub mod taint;
pub mod klee;
