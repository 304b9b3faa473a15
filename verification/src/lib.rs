//! Scanning, fuzzing and CVE matching, with the logic proved in Verus.
use vstd::prelude::*;

pub mod text;
pub mod targets;
pub mod ipv6;
pub mod ports;
pub mod scan;
pub mod syn;
pub mod services;
pub mod consolidate;
pub mod config;
pub mod fuzzer;
pub mod nvd;
pub mod cache;
pub mod patterns;

verus! {
} // verus!
