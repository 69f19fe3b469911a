//! A compiler for a small C-like language with one integer type: lowering
//! of the syntax tree to Koopa-style SSA IR text, and of that IR to RV32
//! assembly with a spill-everywhere frame.
//!
//! - `ast`: the syntax tree.
//! - `env`, `fold`: scoped symbols and constant folding.
//! - `ast2ir`: lowering to IR, specified exactly by `lower_unit`.
//! - `ir`, `ir_text`: the IR model and its text.
//! - `riscv`: frame layout and code generation, specified by `asm_text`.
//! - `driver`: the two pipelines, with the IR read back by the Koopa library.
//! - `laws`: properties of the passes.
use vstd::prelude::*;

pub mod ast;
pub mod ast2ir;
pub mod driver;
pub mod env;
pub mod error;
pub mod fold;
pub mod ir;
pub mod ir_text;
pub mod laws;
pub mod riscv;
pub mod text;

verus! {

} // verus!
