//! A resilient, lossless front end for a small expression language.
//!
//! Source text is lexed elsewhere into a flat stream of tokens; this library
//! turns such a stream into an immutable syntax tree together with a list of
//! structured diagnostics.  Parsing never fails: malformed input degrades to
//! explicit error, missing and unexpected nodes in the tree, and the tree
//! always reproduces the input text exactly when its leaves are concatenated.
//!
//! The pipeline has two passes.  The [`parser`] walks the token stream by
//! precedence climbing and emits a flat log of tree-construction [`event`]s,
//! so that a node whose parent is discovered only later — the left operand of
//! a binary operator, say — can be re-parented through a forward-parent
//! offset instead of tree surgery.  The [`sink`] then replays that log
//! against the token stream, resolves the forward-parent chains, reinserts
//! the trivia the parser skipped, and materializes the [`tree`].
//! [`diagnostic`] holds the severity-ranked report model the parser fills in
//! during recovery; [`syntax`], [`token`] and [`source`] hold the shared
//! vocabulary of kinds, symbols, spans and positions.

pub mod diagnostic;
pub mod event;
pub mod parser;
pub mod sink;
pub mod source;
pub mod syntax;
pub mod token;
pub mod tree;
