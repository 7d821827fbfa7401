//! A recursive-descent reader for debug notation: the text that pretty
//! printing of nested tagged data leaves behind, read back into a tree that
//! lives in an arena.
//!
//! `grammar` says what a text denotes, `cursor` holds the lexical probes,
//! `parse` reads nodes, and `node` is the tree that comes out. `arena`
//! states what is taken from bumpalo, `text` cuts tokens out of the input,
//! `number` reads the bounds of locations, and `laws` holds what is proved
//! of the grammar as a whole.

pub mod arena;
pub mod cursor;
pub mod grammar;
pub mod laws;
pub mod node;
pub mod number;
pub mod parse;
pub mod text;

pub use cursor::{ParseError, Parser};
pub use node::{DebugNode, Fields, Generics};
