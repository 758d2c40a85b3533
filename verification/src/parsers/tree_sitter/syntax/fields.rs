//! Names of the fields of the nodes of the `tree-sitter-wdl-1` grammar.
use vstd::prelude::*;

verus! {

pub const ALIAS: &'static str = "alias";
pub const ALIASES: &'static str = "aliases";
pub const ARGUMENTS: &'static str = "arguments";
pub const ATTRIBUTES: &'static str = "attributes";
pub const BODY: &'static str = "body";
pub const COLLECTION: &'static str = "collection";
pub const CONDITION: &'static str = "condition";
pub const DECLARATIONS: &'static str = "declarations";
pub const ELEMENTS: &'static str = "elements";
pub const ENTRIES: &'static str = "entries";
pub const EXPRESSION: &'static str = "expression";
pub const FALSE: &'static str = "false";
pub const FIELDS: &'static str = "fields";
pub const FROM: &'static str = "from";
pub const INDEX: &'static str = "index";
pub const INPUTS: &'static str = "inputs";
pub const LEFT: &'static str = "left";
pub const IDENTIFIER: &'static str = "identifier";
pub const KEY: &'static str = "key";
pub const NAME: &'static str = "name";
pub const NAMESPACE: &'static str = "namespace";
pub const NONEMPTY: &'static str = "nonempty";
pub const OBJECT: &'static str = "object";
pub const OPERATOR: &'static str = "operator";
pub const PARTS: &'static str = "parts";
pub const RIGHT: &'static str = "right";
pub const TARGET: &'static str = "target";
pub const TO: &'static str = "to";
pub const TRUE: &'static str = "true";
pub const TYPE: &'static str = "type";
pub const URI: &'static str = "uri";
pub const VALUE: &'static str = "value";
pub const VERSION: &'static str = "version";

} // verus!
