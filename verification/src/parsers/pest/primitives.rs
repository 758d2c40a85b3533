//! Literal values of the model, read from the text of their matches.
use crate::model::{has_exponent_letter, integer_text, is_float_text, Anchor, Float, Integer, ModelError};
use crate::parsers::pest::node::PestNode;
use crate::parsers::pest::tree::SyntaxNode;
use crate::text::{owned, str_eq};
use vstd::prelude::*;

verus! {

/// `a` holds the text of the match `c`, anchored to its span.
pub open spec fn text_anchor_of(c: SyntaxNode, a: Anchor<String>) -> bool {
    a.element@ == c.text@ && a.span == c.span
}

/// The boolean written as `t` (as `bool::from_str` reads it), if it is one.
pub open spec fn bool_text(t: Seq<char>) -> Option<bool> {
    if t == "true"@ {
        Some(true)
    } else if t == "false"@ {
        Some(false)
    } else {
        None
    }
}

/// `f` is the float literal written as `t`.
pub open spec fn float_of(t: Seq<char>, f: Float) -> bool {
    &&& f.text() == t
    &&& (f is Scientific <==> has_exponent_letter(t))
}

/// The text of a match, anchored to its span.
pub fn try_into_text_anchor(node: PestNode) -> (res: Anchor<String>)
    ensures
        text_anchor_of(*node.pair, res),
{
    Anchor::new(node.pair.text.clone(), node.pair.span)
}

/// The boolean a match is written as.
pub fn try_into_bool(node: PestNode) -> (res: Result<bool, ModelError>)
    ensures
        match bool_text(node.pair.text@) {
            Some(b) => res == Ok::<bool, ModelError>(b),
            None => res is Err,
        },
{
    proof {
        reveal_strlit("true");
        reveal_strlit("false");
        assert("true"@[0] != "false"@[0]);
    }
    let t = node.as_str();
    if str_eq(t, "true") {
        Ok(true)
    } else if str_eq(t, "false") {
        Ok(false)
    } else {
        Err(ModelError::parser(owned("Invalid boolean")))
    }
}

/// The integer literal a match is written as.
pub fn try_into_integer(node: PestNode) -> (res: Result<Integer, ModelError>)
    ensures
        match integer_text(node.pair.text@) {
            Some(i) => res == Ok::<Integer, ModelError>(i),
            None => res is Err,
        },
{
    Integer::from_str(node.as_str())
}

/// The float literal a match is written as.
pub fn try_into_float(node: PestNode) -> (res: Result<Float, ModelError>)
    ensures
        res is Ok <==> is_float_text(node.pair.text@),
        res matches Ok(f) ==> float_of(node.pair.text@, f),
{
    Float::from_str(node.as_str())
}

} // verus!
