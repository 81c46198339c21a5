use vstd::prelude::*;

pub mod text;
pub mod parser;
pub mod ir;
pub mod transpiler;
pub mod report;
pub mod cli;
pub mod java_lines;
pub mod perf;

verus! {

} // verus!
