//! A batch file-renaming engine driven by a small rule language: a rule
//! string is tokenized, parsed into rules, and the rules are applied in order
//! to the file names of a set of paths.
pub mod engine;
pub mod lexer;
pub mod order;
pub mod parser;
pub mod pattern;
pub mod rename;
pub mod rule;
pub mod text;
pub mod timestamp;
pub mod transform;
