//! Names of the syntax elements of the `tree-sitter-wdl-1` grammar: node kinds, field names,
//! keywords and symbols.
pub mod fields;
pub mod keywords;
pub mod rules;
pub mod symbols;
