//! Symbols of the `tree-sitter-wdl-1` grammar: the kinds of their terminal nodes.
use vstd::prelude::*;

verus! {

pub const ASSIGN: &'static str = "=";
pub const COLON: &'static str = ":";
pub const COMMA: &'static str = ",";
pub const DOT: &'static str = ".";
pub const LBRACE: &'static str = "{";
pub const LBRACK: &'static str = "[";
pub const LPAREN: &'static str = "(";
pub const OPTIONAL: &'static str = "?";
pub const RBRACE: &'static str = "}";
pub const RBRACK: &'static str = "]";
pub const RPAREN: &'static str = ")";
pub const SQUOTE: &'static str = "'";
pub const DQUOTE: &'static str = "\"";

} // verus!
