//! Keywords of the `tree-sitter-wdl-1` grammar: the kinds of their terminal nodes.
use vstd::prelude::*;

verus! {

pub const AS: &'static str = "as";
pub const ALIAS: &'static str = "alias";
pub const CALL: &'static str = "call";
pub const COMMAND: &'static str = "command";
pub const ELSE: &'static str = "else";
pub const IF: &'static str = "if";
pub const IMPORT: &'static str = "import";
pub const IN: &'static str = "in";
pub const INPUT: &'static str = "input";
pub const META: &'static str = "meta";
pub const OUTPUT: &'static str = "output";
pub const PARAMETER_META: &'static str = "parameter_meta";
pub const RUNTIME: &'static str = "runtime";
pub const SCATTER: &'static str = "scatter";
pub const STRUCT: &'static str = "struct";
pub const TASK: &'static str = "task";
pub const THEN: &'static str = "then";
pub const VERSION: &'static str = "version";
pub const WORKFLOW: &'static str = "workflow";
pub const ARRAY: &'static str = "Array";
pub const MAP: &'static str = "Map";
pub const PAIR: &'static str = "Pair";

} // verus!
