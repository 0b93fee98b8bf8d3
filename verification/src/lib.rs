//! Planning logic of the tree-PIR benchmarking tool: command-line selection of
//! benchmarks, benchmark parameters and labels, and the layout of the
//! generated Merkle trees (leaf chunks, batches, flattened node lists).

pub mod text;
pub mod cli;
pub mod random;
pub mod benchmark;
pub mod tree;
