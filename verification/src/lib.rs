//! Assigns aligned sequencing reads to genomic features and produces
//! per-feature counts together with normalized expression values.
//!
//! The crate models alignment records as plain values (flags, positions,
//! mapping quality, hit-count tag); decoding the binary alignment container
//! itself is left to the surrounding application, which hands records in.

pub mod context;
pub mod count;
pub mod detect;
pub mod feature;
pub mod filter;
pub mod normalization;
pub mod record;
pub mod strand;
