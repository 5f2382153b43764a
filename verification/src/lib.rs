//! A grammar-driven parser generator.
//!
//! Given a context-free grammar over byte-level terminals (with semantic
//! transforms attached to each rule), this library computes the classic
//! EPS / FIRST / FOLLOW / PREDICT sets, validates that the grammar is LL(1),
//! and emits the text of a table-free single-lookahead recursive-descent
//! parser.
//!
//! The grammar model lives in [`grammar`], [`symbols`], [`refs`] and
//! [`trie`]; the analysis engine in [`analysis`]; the emitter in
//! [`generator`] and [`repr`]. Two parsers in the exact shape the emitter
//! produces, one per terminal strategy, are kept in source form in
//! [`pair_parser`] and [`words_parser`], reading from the [`cursor`] the
//! emitted parsers assume.

pub mod analysis;
pub mod cursor;
pub mod generator;
pub mod grammar;
pub mod index_set;
pub mod pair_parser;
pub mod refs;
pub mod repr;
pub mod symbols;
pub mod text;
pub mod trie;
pub mod words_parser;

pub use refs::NonTerminalRef;
pub use refs::SymbolRef;
pub use refs::TerminalRef;
