//! Converter core for proof-of-capacity plot files.
//!
//! A plot file carries precomputed mining data whose geometry is encoded in
//! its own filename. This crate decodes and validates that name, and performs
//! the byte transform between the two plot generations: for every pair of
//! mirrored scoop blocks, the second hash half of each scoop record is
//! exchanged between the two blocks. Only optimized plots, whose stagger
//! equals their full nonce count, are accepted.

pub mod convert;
pub mod decimal;
pub mod geometry;
pub mod name;
pub mod plot;
