//! Literal values of the model, read from the text of tree-sitter nodes.
use crate::model::{integer_text, is_float_text, Float, Integer, ModelError};
use crate::parsers::pest::primitives::float_of;
use crate::parsers::tree_sitter::node::TSNode;
use vstd::prelude::*;

verus! {

/// The integer literal a node is written as; an error when its text is not valid UTF-8.
pub fn try_into_integer(node: TSNode) -> (res: Result<Integer, ModelError>)
    ensures
        node.node.text is None ==> res is Err,
        node.node.text matches Some(t) ==> match integer_text(t@) {
            Some(i) => res == Ok::<Integer, ModelError>(i),
            None => res is Err,
        },
{
    Integer::from_str(node.try_as_str()?)
}

/// The float literal a node is written as; an error when its text is not valid UTF-8.
pub fn try_into_float(node: TSNode) -> (res: Result<Float, ModelError>)
    ensures
        res is Ok <==> (node.node.text matches Some(t) && is_float_text(t@)),
        res matches Ok(f) ==> (node.node.text matches Some(t) && float_of(t@, f)),
{
    Float::from_str(node.try_as_str()?)
}

} // verus!
