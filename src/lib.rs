//! Vanity fingerprint search: enumerate candidate creation instants for an
//! identity label, synthesize a signing key for each, and keep those whose
//! fingerprint ends with one of the requested hexadecimal suffixes.
pub mod candidate;
pub mod error;
pub mod keys;
pub mod matcher;
pub mod pattern;
pub mod report;
pub mod throughput;
pub mod worker;
