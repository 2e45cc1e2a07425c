use vstd::prelude::*;

pub mod adapters;
pub mod analysis;
pub mod assoc;
pub mod baseline;
pub mod config;
pub mod demo;
pub mod ir;
pub mod matching;
pub mod mcp;
pub mod report;
pub mod rules;
pub mod scan;
pub mod seqs;
pub mod text;

verus! {
}
