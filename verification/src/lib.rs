//! Recovery of macro and conditional-compilation structure from instrumented,
//! mechanically flattened source code.
//!
//! An upstream translator lowers C source (macros and `#ifdef` branches
//! included) into a flattened target language, wrapping every macro expansion
//! site and preprocessor branch in a dead-branch guard that carries a
//! machine-readable "seed tag" payload.  This crate models that instrumented
//! output with plain values and recovers the higher-level structure: it parses
//! and re-serializes tag payloads, pairs begin/end markers into seeds, groups
//! call sites into clusters, decides whether a macro can become a typed
//! callable or must remain a pattern template, generates the replacement
//! constructs, plans conditional-gate reconstruction and variant merges, and
//! sequences the whole pipeline as lists of planned edits.
//!
//! Tree parsing, tree splicing and workspace I/O belong to an external
//! toolkit; this crate works on the plain-value projections of tree regions
//! and produces edit plans for a driver to apply.

pub mod cond;
pub mod db;
pub mod extract;
pub mod inv;
pub mod laws;
pub mod loc;
pub mod merge;
pub mod payload;
pub mod pipeline;
pub mod region;
pub mod seed;
pub mod synth;
pub mod tag;
pub mod text;
