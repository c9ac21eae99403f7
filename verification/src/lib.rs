//! A toolchain for a minimal esoteric language over a fixed-size byte tape:
//! a tokenizer that turns source text into command tokens, a parser that
//! builds a nested instruction tree from them, an interpreter that executes
//! the tree against a 30000-cell tape, and a renderer for inspecting a
//! window of the tape.

pub mod tokenizer;
pub mod parser;
pub mod interpreter;
pub mod eval;
pub mod tape;
pub mod repl;
mod text;
