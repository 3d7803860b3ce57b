//! Flattens a package with a module tree and dependencies into one tree of
//! items: pending modules are filled from their files, external crates from
//! their packages' libraries, and paths through the root library are shortened.
//!
//! `graph` models the package graph, `tree` the items of a file and their
//! tokens, `source` the files of a run, `engine` the verified expansion, and
//! `expansion` the mathematical statement that the engine is proved to meet.
pub mod graph;
pub mod tree;
pub mod source;
pub mod engine;
pub mod expansion;
