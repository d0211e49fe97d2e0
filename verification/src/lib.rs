//! Syntax-guided test case reduction over tree-sitter grammars.
pub mod tree;
pub mod text;
pub mod parse;
pub mod languages;
pub mod validity;
pub mod supertype;
pub mod compat;
pub mod transform;
pub mod transforms;
pub mod queue;
pub mod cache;
pub mod project;
pub mod paths;
pub mod config;
pub mod interest;
pub mod output;
pub mod target;
pub mod criteria;
pub mod progress;
pub mod scope;
pub mod reducer;
pub mod file_set;
