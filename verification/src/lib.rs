//! CPU and CUDA primitives for searching WireGuard vanity keypairs.
//!
//! A search draws private keys, derives their public keys and tests the Base64
//! text of each public key against a pattern: a literal, a glob or a regular
//! expression. This library holds everything that such a search decides or
//! computes; drawing on the operating system, the devices and the other ranks
//! of a search is left to the programs around it.
//!
//! - [`pattern`], [`glob`] and [`regex_engine`] match texts; [`glob_laws`],
//!   [`match_laws`] and [`pattern_laws`] state what holds of matching.
//! - [`regex_dfa`] turns a regular expression into a bounded table for the
//!   device, read from the automaton in [`dense`]; [`dfa_laws`] relates the
//!   table to the automaton and to the engine, [`reach_laws`], [`trace_laws`]
//!   and [`compile_laws`] state when there is a table and what it holds, and
//!   [`run_laws`] what a search of it gives.
//! - [`encoding`] and [`keys`] encode keys and try keypairs; [`encoding_laws`]
//!   states what the texts stand for.
//! - [`search`], [`exchange`], [`cuda`] and [`cuda_run`] plan a search on the
//!   CPU, on several ranks and on CUDA devices; [`plan_laws`] states what holds
//!   of the plans.
//! - [`field`] and [`edwards`] hold the curve arithmetic of the point-addition
//!   benchmark, [`field_laws`], [`edwards_laws`] and [`limb_laws`] its meaning.

pub mod compile_laws;
pub mod cuda;
pub mod cuda_run;
pub mod dense;
pub mod dfa_laws;
pub mod edwards;
pub mod edwards_laws;
pub mod encoding;
pub mod encoding_laws;
pub mod exchange;
pub mod field;
pub mod field_laws;
pub mod glob;
pub mod glob_laws;
pub mod keys;
pub mod limb_laws;
pub mod match_laws;
pub mod pattern;
pub mod pattern_laws;
pub mod plan_laws;
pub mod reach_laws;
pub mod regex_dfa;
pub mod regex_engine;
pub mod run_laws;
pub mod search;
pub mod text;
pub mod trace_laws;

pub use keys::{trial, trial_pattern};
pub use pattern::{GpuPattern, PatternKind, SearchPattern};
pub use regex_dfa::{GpuRegexDfa, GpuRegexError};
