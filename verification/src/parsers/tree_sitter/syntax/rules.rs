//! Kinds of the nodes of the `tree-sitter-wdl-1` grammar.
use vstd::prelude::*;

verus! {

pub const AND_OPERATOR: &'static str = "and_operator";
pub const APPLY_EXPRESSION: &'static str = "apply_expression";
pub const ARRAY: &'static str = "array";
pub const ARRAY_TYPE: &'static str = "array_type";
pub const BINARY_OPERATOR: &'static str = "binary_operator";
pub const BOOLEAN_TYPE: &'static str = "boolean_type";
pub const BOUND_DECLARATION: &'static str = "bound_declaration";
pub const CALL: &'static str = "call";
pub const COMMAND: &'static str = "command";
pub const COMMENT: &'static str = "comment";
pub const COMPARISON_OPERATOR: &'static str = "comparison_operator";
pub const CONDITIONAL: &'static str = "conditional";
pub const CONTENT: &'static str = "content";
pub const DEC_INT: &'static str = "dec_int";
pub const ESCAPE_SEQUENCE: &'static str = "escape_sequence";
pub const FALSE: &'static str = "false";
pub const FIELD_EXPRESSION: &'static str = "field_expression";
pub const FILE_TYPE: &'static str = "file_type";
pub const FLOAT: &'static str = "float";
pub const FLOAT_TYPE: &'static str = "float_type";
pub const GROUP_EXPRESSION: &'static str = "group_expression";
pub const HEX_INT: &'static str = "hex_int";
pub const IDENTIFIER: &'static str = "identifier";
pub const IMPORT: &'static str = "import";
pub const INDEX_EXPRESSION: &'static str = "index_expression";
pub const INPUT: &'static str = "input";
pub const INT_TYPE: &'static str = "int_type";
pub const MAP: &'static str = "map";
pub const MAP_TYPE: &'static str = "map_type";
pub const META: &'static str = "meta";
pub const META_ARRAY: &'static str = "meta_array";
pub const META_OBJECT: &'static str = "meta_object";
pub const NONE: &'static str = "none";
pub const NOT_OPERATOR: &'static str = "not_operator";
pub const NULL: &'static str = "null";
pub const OBJECT: &'static str = "object";
pub const OBJECT_TYPE: &'static str = "object_type";
pub const OCT_INT: &'static str = "oct_int";
pub const OPTIONAL_TYPE: &'static str = "optional_type";
pub const OR_OPERATOR: &'static str = "or_operator";
pub const OUTPUT: &'static str = "output";
pub const PAIR: &'static str = "pair";
pub const PAIR_TYPE: &'static str = "pair_type";
pub const PARAMETER_META: &'static str = "parameter_meta";
pub const PLACEHOLDER: &'static str = "placeholder";
pub const RUNTIME: &'static str = "runtime";
pub const SCATTER: &'static str = "scatter";
pub const SIMPLE_STRING: &'static str = "simple_string";
pub const STRING: &'static str = "string";
pub const STRING_TYPE: &'static str = "string_type";
pub const STRUCT: &'static str = "struct";
pub const TASK: &'static str = "task";
pub const TERNARY_EXPRESSION: &'static str = "ternary_expression";
pub const TRUE: &'static str = "true";
pub const UNARY_OPERATOR: &'static str = "unary_operator";
pub const UNBOUND_DECLARATION: &'static str = "unbound_declaration";
pub const USER_TYPE: &'static str = "user_type";
pub const WORKFLOW: &'static str = "workflow";

} // verus!
