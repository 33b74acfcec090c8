//! Exact 0/1 knapsack solving by dynamic programming.
//!
//! The solver fills the classic `(n + 1) x (W + 1)` table of best achievable
//! values and then walks it backwards to reconstruct one optimal selection.
//! Its contract pins both results to spec-level functions of the input, and
//! the `laws` module proves the general facts a caller may rely on: no
//! selection within capacity beats the reported optimum, the reconstructed
//! selection attains it, the optimum is monotonic in capacity and in the
//! item set, and degenerate inputs yield zero value and an all-zero
//! selection. The `parse` module reads the whitespace-separated dataset
//! text that drivers feed the solver from.

pub mod laws;
pub mod parse;
pub mod solver;
