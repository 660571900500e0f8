//! Data recovery for an application client of an erasure-coded block data layer.
//!
//! A block's payload is a matrix of fixed-size chunks, extended row-wise, with one
//! commitment per row. This library holds the decisions of the per-block pipeline:
//! which retrieved cells and rows are trusted, when a block is abandoned, how
//! missing rows are rebuilt from reconstructed columns and how rows become cells.
//! Retrieval, commitment checks, column decoding and storage are done by the caller,
//! which hands their results to the functions here.

use vstd::prelude::*;

pub mod matrix;
pub mod cells;
pub mod reconstruct;
pub mod pipeline;
pub mod session;
