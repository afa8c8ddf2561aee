//! Verified comparison-sort algorithms over integer sequences, with a
//! benchmark harness that times each algorithm over a batch of sequences
//! and cross-checks every result against a reference sort.

pub mod seqs;
pub mod quadratic;
pub mod quicksort;
pub mod mergesort;
pub mod scratch;
pub mod randgen;
pub mod harness;
