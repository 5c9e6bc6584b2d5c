//! A flat-tape output backend for a shift-reduce parser.
//!
//! Instead of one allocation per tree node, a parse appends everything it
//! recognises to two flat arrays: a token entry records positions and the byte
//! span of its text, a node entry records its rule and a range of child
//! indices. [`tape::TapeTree::materialize`] projects the tape back to the owned
//! tree whenever one is wanted.

pub mod cursor;
pub mod intern;
pub mod laws;
pub mod meaning;
pub mod output;
pub mod projection;
pub mod steps;
pub mod tape;
pub mod text;
pub mod tree;

pub use intern::{CompiledRule, SymbolId, SymbolTable};
pub use output::{OutputBuilder, OutputContext};
pub use tape::{TapeBuilder, TapeEntry, TapeTree};
pub use tree::{Child, Meta, ParseTree, Token, Tree};
