//! Building expressions from the nodes of the tree-sitter syntax tree.
use crate::model::{
    integer_text, is_float_text, Access, AccessOperation, Anchor, Apply, ArrayLiteral, Binary,
    BinaryOperator, Expression, Float, MapEntry, MapLiteral, ModelError, ObjectField,
    ObjectLiteral, PairLiteral, StringLiteral, StringPart, Ternary, Unary, UnaryOperator,
};
use crate::parsers::pest::primitives::float_of;
use crate::parsers::tree_sitter::node::{
    parser_error,
    is_field, is_terminal, item, items, lemma_rem_block_range, rem_block, BlockDelim, BlockEnds,
    TSNode,
};
use crate::parsers::tree_sitter::primitives::{try_into_float, try_into_integer};
use crate::parsers::tree_sitter::syntax::{fields, keywords, rules, symbols};
use crate::parsers::tree_sitter::tree::TsSyntaxNode;
use crate::text::{owned, str_eq};
use vstd::prelude::*;
use vstd::string::*;

verus! {

/// The unary operator written as `t`.
pub open spec fn ts_unary_operator(t: Seq<char>) -> Option<UnaryOperator> {
    if t == "+"@ {
        Some(UnaryOperator::Pos)
    } else if t == "-"@ {
        Some(UnaryOperator::Neg)
    } else if t == "!"@ {
        Some(UnaryOperator::Not)
    } else {
        None
    }
}

/// `n` is one of the kinds of node that build a binary operation.
pub open spec fn is_binary_kind(k: Seq<char>) -> bool {
    k == rules::BINARY_OPERATOR@ || k == rules::AND_OPERATOR@ || k == rules::OR_OPERATOR@ || k
        == rules::COMPARISON_OPERATOR@
}

/// `n` is one of the kinds of node that build an integer.
pub open spec fn is_int_kind(k: Seq<char>) -> bool {
    k == rules::DEC_INT@ || k == rules::OCT_INT@ || k == rules::HEX_INT@
}

/// `e` is the expression built from the node `n`, by the kind of `n`: a literal from its text,
/// a compound expression from its items in the order its kind lays them out, each operand
/// anchored to the span of its node.
pub open spec fn ts_expression_of(n: TsSyntaxNode, e: Expression) -> bool
    decreases n, 1nat,
{
    proof {
        lemma_rem_block_range(n.children@, BlockEnds::NoEnds, BlockDelim::NoDelim);
    }
    let k = n.kind@;
    if k == rules::NONE@ {
        e == Expression::NoneValue
    } else if k == rules::TRUE@ {
        e == Expression::Boolean(true)
    } else if k == rules::FALSE@ {
        e == Expression::Boolean(false)
    } else if is_int_kind(k) {
        n.text matches Some(t) && integer_text(t@) matches Some(i) && e == Expression::Int(i)
    } else if k == rules::FLOAT@ {
        &&& n.text matches Some(t)
        &&& is_float_text(t@)
        &&& e matches Expression::Float(f)
        &&& float_of(t@, f)
    } else if k == rules::IDENTIFIER@ {
        n.text matches Some(t) && e == Expression::Identifier(t)
    } else if k == rules::STRING@ {
        e matches Expression::String(s) && ts_string_of(n, s)
    } else if k == rules::ARRAY@ {
        e matches Expression::Array(a) && ts_array_of(n, a)
    } else if k == rules::MAP@ {
        e matches Expression::Mapping(m) && ts_map_of(n, m)
    } else if k == rules::PAIR@ {
        e matches Expression::Pair(p) && ts_pair_of(n, p)
    } else if k == rules::OBJECT@ {
        e matches Expression::Object(o) && ts_object_of(n, o)
    } else if k == rules::UNARY_OPERATOR@ || k == rules::NOT_OPERATOR@ {
        e matches Expression::Unary(u) && ts_unary_of(n, u)
    } else if is_binary_kind(k) {
        e matches Expression::Binary(b) && ts_binary_of(n, b)
    } else if k == rules::APPLY_EXPRESSION@ {
        e matches Expression::Apply(a) && ts_apply_of(n, a)
    } else if k == rules::INDEX_EXPRESSION@ || k == rules::FIELD_EXPRESSION@ {
        e matches Expression::Access(x) && ts_access_of(n, x)
    } else if k == rules::TERNARY_EXPRESSION@ {
        e matches Expression::Ternary(t) && ts_ternary_of(n, t)
    } else if k == rules::GROUP_EXPRESSION@ {
        e matches Expression::Group(x) && ts_group_of(n, *x)
    } else {
        false
    }
}

/// `a` is the array literal built from the node `n`: its elements, in brackets, separated by
/// commas.
pub open spec fn ts_array_of(n: TsSyntaxNode, a: ArrayLiteral) -> bool
    decreases n, 0nat,
{
    proof {
        lemma_rem_block_range(n.children@, BlockEnds::NoEnds, BlockDelim::NoDelim);
    }
    let r = items(n);
    &&& r.1 && r.0.len() >= 1 && is_field(item(n, 0), fields::ELEMENTS@)
    &&& ts_exprs_of(item(n, 0), BlockEnds::Brackets, BlockDelim::Comma, a.elements@)
}

/// `m` is the map literal built from the node `n`: its entries, in braces, separated by commas.
pub open spec fn ts_map_of(n: TsSyntaxNode, m: MapLiteral) -> bool
    decreases n, 0nat,
{
    proof {
        lemma_rem_block_range(n.children@, BlockEnds::NoEnds, BlockDelim::NoDelim);
    }
    let r = items(n);
    &&& r.1 && r.0.len() >= 1 && is_field(item(n, 0), fields::ENTRIES@)
    &&& ts_entries_of(item(n, 0), m.entries@)
}

/// `p` is the pair literal built from the node `n`: `(`, the left expression, `,`, the right
/// expression.
pub open spec fn ts_pair_of(n: TsSyntaxNode, p: PairLiteral) -> bool
    decreases n, 0nat,
{
    proof {
        lemma_rem_block_range(n.children@, BlockEnds::NoEnds, BlockDelim::NoDelim);
    }
    let r = items(n);
    &&& r.1 && r.0.len() >= 4 && is_terminal(item(n, 0), symbols::LPAREN@)
    &&& is_field(item(n, 1), fields::LEFT@) && is_terminal(item(n, 2), symbols::COMMA@)
    &&& is_field(item(n, 3), fields::RIGHT@)
    &&& p.left.span == item(n, 1).span && ts_expression_of(item(n, 1), p.left.element)
    &&& p.right.span == item(n, 3).span && ts_expression_of(item(n, 3), p.right.element)
}

/// `o` is the object literal built from the node `n`: its type name, then its fields.
pub open spec fn ts_object_of(n: TsSyntaxNode, o: ObjectLiteral) -> bool
    decreases n, 0nat,
{
    proof {
        lemma_rem_block_range(n.children@, BlockEnds::NoEnds, BlockDelim::NoDelim);
    }
    let r = items(n);
    &&& r.1 && r.0.len() >= 2 && is_field(item(n, 0), fields::TYPE@)
    &&& item(n, 0).text matches Some(t) && o.object_type == (Anchor { element: t, span: item(n, 0).span })
    &&& is_field(item(n, 1), fields::FIELDS@) && ts_fields_of(item(n, 1), o.fields@)
}

/// `u` is the unary operation built from the node `n`: its operator, then its operand.
pub open spec fn ts_unary_of(n: TsSyntaxNode, u: Unary) -> bool
    decreases n, 0nat,
{
    proof {
        lemma_rem_block_range(n.children@, BlockEnds::NoEnds, BlockDelim::NoDelim);
    }
    let r = items(n);
    &&& r.1 && r.0.len() >= 2 && is_field(item(n, 0), fields::OPERATOR@)
    &&& item(n, 0).text matches Some(t) && ts_unary_operator(t@) == Some(u.operator)
    &&& is_field(item(n, 1), fields::EXPRESSION@)
    &&& u.expression.span == item(n, 1).span && ts_expression_of(item(n, 1), u.expression.element)
}

/// `b` is the binary operation built from the node `n`: its left operand, its operator, its
/// right operand.
pub open spec fn ts_binary_of(n: TsSyntaxNode, b: Binary) -> bool
    decreases n, 0nat,
{
    proof {
        lemma_rem_block_range(n.children@, BlockEnds::NoEnds, BlockDelim::NoDelim);
    }
    let r = items(n);
    &&& r.1 && r.0.len() >= 3 && is_field(item(n, 0), fields::LEFT@)
    &&& is_field(item(n, 1), fields::OPERATOR@) && is_field(item(n, 2), fields::RIGHT@)
    &&& item(n, 1).text matches Some(t) && BinaryOperator::with_symbol(t@) == Some(b.operator)
    &&& b.left.span == item(n, 0).span && ts_expression_of(item(n, 0), b.left.element)
    &&& b.right.span == item(n, 2).span && ts_expression_of(item(n, 2), b.right.element)
}

/// `a` is the application built from the node `n`: the name of a function, then its
/// arguments, in parentheses, separated by commas.
pub open spec fn ts_apply_of(n: TsSyntaxNode, a: Apply) -> bool
    decreases n, 0nat,
{
    proof {
        lemma_rem_block_range(n.children@, BlockEnds::NoEnds, BlockDelim::NoDelim);
    }
    let r = items(n);
    &&& r.1 && r.0.len() >= 2 && is_field(item(n, 0), fields::NAME@)
    &&& item(n, 0).text matches Some(t) && a.name == (Anchor { element: t, span: item(n, 0).span })
    &&& is_field(item(n, 1), fields::ARGUMENTS@)
    &&& ts_exprs_of(item(n, 1), BlockEnds::Parens, BlockDelim::Comma, a.arguments@)
}

/// `t` is the conditional expression built from the node `n`: `if`, the condition, `then`,
/// the value when it holds, `else`, the value when it does not.
pub open spec fn ts_ternary_of(n: TsSyntaxNode, t: Ternary) -> bool
    decreases n, 0nat,
{
    proof {
        lemma_rem_block_range(n.children@, BlockEnds::NoEnds, BlockDelim::NoDelim);
    }
    let r = items(n);
    &&& r.1 && r.0.len() >= 6 && is_terminal(item(n, 0), keywords::IF@)
    &&& is_field(item(n, 1), fields::CONDITION@) && is_terminal(item(n, 2), keywords::THEN@)
    &&& is_field(item(n, 3), fields::TRUE@) && is_terminal(item(n, 4), keywords::ELSE@)
    &&& is_field(item(n, 5), fields::FALSE@)
    &&& t.condition.span == item(n, 1).span && ts_expression_of(item(n, 1), t.condition.element)
    &&& t.true_branch.span == item(n, 3).span && ts_expression_of(item(n, 3), t.true_branch.element)
    &&& t.false_branch.span == item(n, 5).span && ts_expression_of(item(n, 5), t.false_branch.element)
}

/// `x` is the grouped expression built from the node `n`, anchored to its span: an expression
/// in parentheses.
pub open spec fn ts_group_of(n: TsSyntaxNode, x: Anchor<Expression>) -> bool
    decreases n, 0nat,
{
    proof {
        lemma_rem_block_range(n.children@, BlockEnds::Parens, BlockDelim::NoDelim);
    }
    let g = rem_block(n.children@, BlockEnds::Parens, BlockDelim::NoDelim);
    &&& g.1 && g.0.len() >= 1 && is_field(n.children@[g.0[0]], fields::EXPRESSION@)
    &&& x.span == n.children@[g.0[0]].span && ts_expression_of(n.children@[g.0[0]], x.element)
}

/// `s` is the string literal built from the node `n`: an opening quote, its parts if it has
/// any, and a closing quote written as the opening one.
pub open spec fn ts_string_of(n: TsSyntaxNode, s: StringLiteral) -> bool
    decreases n, 0nat,
{
    proof {
        lemma_rem_block_range(n.children@, BlockEnds::NoEnds, BlockDelim::NoDelim);
    }
    let r = items(n);
    &&& r.1 && r.0.len() >= 2 && item(n, 0).text is Some
    &&& if is_field(item(n, 1), fields::PARTS@) {
        &&& r.0.len() >= 3
        &&& item(n, 2).text matches Some(t) && t@ == item(n, 0).text->0@
        &&& ts_parts_of(item(n, 1), s.parts@)
    } else {
        item(n, 1).text matches Some(t) && t@ == item(n, 0).text->0@ && s.parts@.len() == 0
    }
}

/// `x` is the access built from the node `n`: an index into a collection, or a field of an
/// object.
pub open spec fn ts_access_of(n: TsSyntaxNode, x: Access) -> bool
    decreases n, 0nat,
{
    proof {
        lemma_rem_block_range(n.children@, BlockEnds::NoEnds, BlockDelim::NoDelim);
    }
    let r = items(n);
    &&& r.1 && r.0.len() >= 3 && x.accesses@.len() == 1
    &&& x.collection.span == item(n, 0).span && ts_expression_of(item(n, 0), x.collection.element)
    &&& x.accesses@[0].span == item(n, 2).span
    &&& if n.kind@ == rules::INDEX_EXPRESSION@ {
        &&& is_field(item(n, 0), fields::COLLECTION@) && is_terminal(item(n, 1), symbols::LBRACK@)
        &&& is_field(item(n, 2), fields::INDEX@)
        &&& x.accesses@[0].element matches AccessOperation::Index(i) && ts_expression_of(item(n, 2), i)
    } else {
        &&& n.kind@ == rules::FIELD_EXPRESSION@
        &&& is_field(item(n, 0), fields::OBJECT@) && is_terminal(item(n, 1), symbols::DOT@)
        &&& is_field(item(n, 2), fields::NAME@)
        &&& item(n, 2).text matches Some(t) && x.accesses@[0].element == AccessOperation::Field(t)
    }
}

/// `v` holds, in order, the expressions built from the items of the block that the children of
/// `m` form with `ends` and `delim`, each anchored to its node's span; the block ends well.
pub open spec fn ts_exprs_of(m: TsSyntaxNode, ends: BlockEnds, delim: BlockDelim, v: Seq<Anchor<Expression>>) -> bool
    decreases m, 0nat,
{
    proof {
        lemma_rem_block_range(m.children@, ends, delim);
    }
    let r = rem_block(m.children@, ends, delim);
    &&& r.1 && v.len() == r.0.len()
    &&& forall|k: int|
        0 <= k < r.0.len() ==> (#[trigger] v[k]).span == m.children@[r.0[k]].span
            && ts_expression_of(m.children@[r.0[k]], v[k].element)
}

/// `v` holds, in order, the string parts built from the children of `m` that are not comments,
/// each anchored to its node's span.
pub open spec fn ts_parts_of(m: TsSyntaxNode, v: Seq<Anchor<StringPart>>) -> bool
    decreases m, 0nat,
{
    proof {
        lemma_rem_block_range(m.children@, BlockEnds::NoEnds, BlockDelim::NoDelim);
    }
    let r = items(m);
    &&& r.1 && v.len() == r.0.len()
    &&& forall|k: int|
        0 <= k < r.0.len() ==> (#[trigger] v[k]).span == m.children@[r.0[k]].span
            && ts_part_of(m.children@[r.0[k]], v[k].element)
}

/// `p` is the string part built from the node `n`: its content, an escape sequence, or a
/// placeholder around an expression.
pub open spec fn ts_part_of(n: TsSyntaxNode, p: StringPart) -> bool
    decreases n, 0nat,
{
    proof {
        lemma_rem_block_range(n.children@, BlockEnds::NoEnds, BlockDelim::NoDelim);
    }
    let k = n.kind@;
    let r = items(n);
    if k == rules::CONTENT@ {
        n.text matches Some(t) && p == StringPart::Content(t)
    } else if k == rules::ESCAPE_SEQUENCE@ {
        n.text matches Some(t) && p == StringPart::Escape(t)
    } else if k == rules::PLACEHOLDER@ {
        &&& r.1 && r.0.len() >= 2 && item(n, 0).text is Some
        &&& is_field(item(n, 1), fields::EXPRESSION@)
        &&& p matches StringPart::Placeholder(e) && ts_expression_of(item(n, 1), e)
    } else {
        false
    }
}

/// `v` holds, in order, the map entries built from the items of the block of `m` in braces,
/// separated by commas, each anchored to its node's span.
pub open spec fn ts_entries_of(m: TsSyntaxNode, v: Seq<Anchor<MapEntry>>) -> bool
    decreases m, 0nat,
{
    proof {
        lemma_rem_block_range(m.children@, BlockEnds::Braces, BlockDelim::Comma);
    }
    let r = rem_block(m.children@, BlockEnds::Braces, BlockDelim::Comma);
    &&& r.1 && v.len() == r.0.len()
    &&& forall|k: int|
        0 <= k < r.0.len() ==> (#[trigger] v[k]).span == m.children@[r.0[k]].span
            && ts_entry_of(m.children@[r.0[k]], v[k].element)
}

/// `x` is the map entry built from the node `n`: a key, `:`, a value.
pub open spec fn ts_entry_of(n: TsSyntaxNode, x: MapEntry) -> bool
    decreases n, 0nat,
{
    proof {
        lemma_rem_block_range(n.children@, BlockEnds::NoEnds, BlockDelim::NoDelim);
    }
    let r = items(n);
    &&& r.1 && r.0.len() >= 3 && is_field(item(n, 0), fields::KEY@)
    &&& is_terminal(item(n, 1), symbols::COLON@) && is_field(item(n, 2), fields::VALUE@)
    &&& x.key.span == item(n, 0).span && ts_expression_of(item(n, 0), x.key.element)
    &&& x.value.span == item(n, 2).span && ts_expression_of(item(n, 2), x.value.element)
}

/// `v` holds, in order, the fields of an object literal built from the items of the block of
/// `m` in braces, separated by commas, each anchored to its node's span.
pub open spec fn ts_fields_of(m: TsSyntaxNode, v: Seq<Anchor<ObjectField>>) -> bool
    decreases m, 0nat,
{
    proof {
        lemma_rem_block_range(m.children@, BlockEnds::Braces, BlockDelim::Comma);
    }
    let r = rem_block(m.children@, BlockEnds::Braces, BlockDelim::Comma);
    &&& r.1 && v.len() == r.0.len()
    &&& forall|k: int|
        0 <= k < r.0.len() ==> (#[trigger] v[k]).span == m.children@[r.0[k]].span
            && ts_field_of(m.children@[r.0[k]], v[k].element)
}

/// `x` is the field of an object literal built from the node `n`: a name, `:`, an expression.
pub open spec fn ts_field_of(n: TsSyntaxNode, x: ObjectField) -> bool
    decreases n, 0nat,
{
    proof {
        lemma_rem_block_range(n.children@, BlockEnds::NoEnds, BlockDelim::NoDelim);
    }
    let r = items(n);
    &&& r.1 && r.0.len() >= 3 && is_field(item(n, 0), fields::NAME@)
    &&& item(n, 0).text matches Some(t) && x.name == (Anchor { element: t, span: item(n, 0).span })
    &&& is_terminal(item(n, 1), symbols::COLON@) && is_field(item(n, 2), fields::EXPRESSION@)
    &&& x.expression.span == item(n, 2).span && ts_expression_of(item(n, 2), x.expression.element)
}

// ----- building -----

/// The expression built from the node of `t`, anchored to its span, boxed.
fn inner_of(t: TSNode) -> (res: Result<Box<Anchor<Expression>>, ModelError>)
    ensures
        res matches Ok(b) ==> b.span == t.node.span && ts_expression_of(*t.node, b.element),
        res is Err ==> forall|e: Expression| !ts_expression_of(*t.node, e),
    decreases t.node, 3nat,
{
    let span = t.as_span();
    let e = expression_of_node(t.node)?;
    Ok(Box::new(Anchor::new(e, span)))
}

/// The expression built from the node of `t`, anchored to its span.
fn anchor_of(t: TSNode) -> (res: Result<Anchor<Expression>, ModelError>)
    ensures
        res matches Ok(a) ==> a.span == t.node.span && ts_expression_of(*t.node, a.element),
        res is Err ==> forall|e: Expression| !ts_expression_of(*t.node, e),
    decreases t.node, 3nat,
{
    let span = t.as_span();
    let e = expression_of_node(t.node)?;
    Ok(Anchor::new(e, span))
}

/// The expression built from `n`; an error when none can be.
fn expression_of_node(n: &TsSyntaxNode) -> (res: Result<Expression, ModelError>)
    ensures
        res matches Ok(e) ==> ts_expression_of(*n, e),
        res is Err ==> forall|e: Expression| !ts_expression_of(*n, e),
    decreases n, 2nat,
{
    let kind = n.kind.as_str();
    if str_eq(kind, rules::NONE) {
        Ok(Expression::NoneValue)
    } else if str_eq(kind, rules::TRUE) {
        Ok(Expression::Boolean(true))
    } else if str_eq(kind, rules::FALSE) {
        Ok(Expression::Boolean(false))
    } else if str_eq(kind, rules::DEC_INT) || str_eq(kind, rules::OCT_INT) || str_eq(kind, rules::HEX_INT) {
        Ok(Expression::Int(try_into_integer(TSNode::from_cursor(n))?))
    } else if str_eq(kind, rules::FLOAT) {
        Ok(Expression::Float(try_into_float(TSNode::from_cursor(n))?))
    } else if str_eq(kind, rules::IDENTIFIER) {
        Ok(Expression::Identifier(TSNode::from_cursor(n).try_into_string()?))
    } else if str_eq(kind, rules::STRING) {
        match string_of_node(n) {
            Ok(x) => Ok(Expression::String(x)),
            Err(e) => {
                proof {
                    assert forall|y: Expression| !ts_expression_of(*n, y) by {
                        if let Expression::String(x) = y {
                            assert(!ts_string_of(*n, x));
                        }
                    }
                }
                Err(e)
            },
        }
    } else if str_eq(kind, rules::ARRAY) {
        match array_of_node(n) {
            Ok(x) => Ok(Expression::Array(x)),
            Err(e) => {
                proof {
                    assert forall|y: Expression| !ts_expression_of(*n, y) by {
                        if let Expression::Array(x) = y {
                            assert(!ts_array_of(*n, x));
                        }
                    }
                }
                Err(e)
            },
        }
    } else if str_eq(kind, rules::MAP) {
        match map_of_node(n) {
            Ok(x) => Ok(Expression::Mapping(x)),
            Err(e) => {
                proof {
                    assert forall|y: Expression| !ts_expression_of(*n, y) by {
                        if let Expression::Mapping(x) = y {
                            assert(!ts_map_of(*n, x));
                        }
                    }
                }
                Err(e)
            },
        }
    } else if str_eq(kind, rules::PAIR) {
        match pair_of_node(n) {
            Ok(x) => Ok(Expression::Pair(x)),
            Err(e) => {
                proof {
                    assert forall|y: Expression| !ts_expression_of(*n, y) by {
                        if let Expression::Pair(x) = y {
                            assert(!ts_pair_of(*n, x));
                        }
                    }
                }
                Err(e)
            },
        }
    } else if str_eq(kind, rules::OBJECT) {
        match object_of_node(n) {
            Ok(x) => Ok(Expression::Object(x)),
            Err(e) => {
                proof {
                    assert forall|y: Expression| !ts_expression_of(*n, y) by {
                        if let Expression::Object(x) = y {
                            assert(!ts_object_of(*n, x));
                        }
                    }
                }
                Err(e)
            },
        }
    } else if str_eq(kind, rules::UNARY_OPERATOR) || str_eq(kind, rules::NOT_OPERATOR) {
        match unary_of_node(n) {
            Ok(x) => Ok(Expression::Unary(x)),
            Err(e) => {
                proof {
                    assert forall|y: Expression| !ts_expression_of(*n, y) by {
                        if let Expression::Unary(x) = y {
                            assert(!ts_unary_of(*n, x));
                        }
                    }
                }
                Err(e)
            },
        }
    } else if str_eq(kind, rules::BINARY_OPERATOR) || str_eq(kind, rules::AND_OPERATOR) || str_eq(
        kind,
        rules::OR_OPERATOR,
    ) || str_eq(kind, rules::COMPARISON_OPERATOR) {
        match binary_of_node(n) {
            Ok(x) => Ok(Expression::Binary(x)),
            Err(e) => {
                proof {
                    assert forall|y: Expression| !ts_expression_of(*n, y) by {
                        if let Expression::Binary(x) = y {
                            assert(!ts_binary_of(*n, x));
                        }
                    }
                }
                Err(e)
            },
        }
    } else if str_eq(kind, rules::APPLY_EXPRESSION) {
        match apply_of_node(n) {
            Ok(x) => Ok(Expression::Apply(x)),
            Err(e) => {
                proof {
                    assert forall|y: Expression| !ts_expression_of(*n, y) by {
                        if let Expression::Apply(x) = y {
                            assert(!ts_apply_of(*n, x));
                        }
                    }
                }
                Err(e)
            },
        }
    } else if str_eq(kind, rules::INDEX_EXPRESSION) || str_eq(kind, rules::FIELD_EXPRESSION) {
        match access_of_node(n) {
            Ok(x) => Ok(Expression::Access(x)),
            Err(e) => {
                proof {
                    assert forall|y: Expression| !ts_expression_of(*n, y) by {
                        if let Expression::Access(x) = y {
                            assert(!ts_access_of(*n, x));
                        }
                    }
                }
                Err(e)
            },
        }
    } else if str_eq(kind, rules::TERNARY_EXPRESSION) {
        match ternary_of_node(n) {
            Ok(x) => Ok(Expression::Ternary(x)),
            Err(e) => {
                proof {
                    assert forall|y: Expression| !ts_expression_of(*n, y) by {
                        if let Expression::Ternary(x) = y {
                            assert(!ts_ternary_of(*n, x));
                        }
                    }
                }
                Err(e)
            },
        }
    } else if str_eq(kind, rules::GROUP_EXPRESSION) {
        match group_of_node(n) {
            Ok(x) => Ok(Expression::Group(Box::new(x))),
            Err(e) => {
                proof {
                    assert forall|y: Expression| !ts_expression_of(*n, y) by {
                        if let Expression::Group(x) = y {
                            assert(!ts_group_of(*n, *x));
                        }
                    }
                }
                Err(e)
            },
        }
    } else {
        Err(parser_error("Invalid expression ", kind, "", ""))
    }
}

/// The array literal built from `n`: its elements, in brackets, separated by commas.
fn array_of_node(n: &TsSyntaxNode) -> (res: Result<ArrayLiteral, ModelError>)
    ensures
        res matches Ok(x) ==> ts_array_of(*n, x),
        res is Err ==> forall|x: ArrayLiteral| !ts_array_of(*n, x),
    decreases n, 1nat,
{
    proof {
        lemma_rem_block_range(n.children@, BlockEnds::NoEnds, BlockDelim::NoDelim);
    }
    let mut children = TSNode::from_cursor(n).into_children();
    let list = children.next_field(fields::ELEMENTS)?;
    proof {
        assert(decreases_to!(n => n.children@[items(*n).0[0]]));
        assert(*list.node == item(*n, 0));
    }
    let elements = match exprs_of_node(list.node, BlockEnds::Brackets, BlockDelim::Comma) {
        Ok(b) => b,
        Err(e) => {
            proof {
                assert forall|y: ArrayLiteral| !ts_array_of(*n, y) by {
                    assert(!ts_exprs_of(*list.node, BlockEnds::Brackets, BlockDelim::Comma, y.elements@));
                }
            }
            return Err(e);
        },
    };
    children.drain(false)?;
    Ok(ArrayLiteral { elements })
}

/// The map literal built from `n`: its entries, in braces, separated by commas.
fn map_of_node(n: &TsSyntaxNode) -> (res: Result<MapLiteral, ModelError>)
    ensures
        res matches Ok(x) ==> ts_map_of(*n, x),
        res is Err ==> forall|x: MapLiteral| !ts_map_of(*n, x),
    decreases n, 1nat,
{
    proof {
        lemma_rem_block_range(n.children@, BlockEnds::NoEnds, BlockDelim::NoDelim);
    }
    let mut children = TSNode::from_cursor(n).into_children();
    let list = children.next_field(fields::ENTRIES)?;
    proof {
        assert(decreases_to!(n => n.children@[items(*n).0[0]]));
        assert(*list.node == item(*n, 0));
    }
    let entries = match entries_of_node(list.node) {
        Ok(b) => b,
        Err(e) => {
            proof {
                assert forall|y: MapLiteral| !ts_map_of(*n, y) by {
                    assert(!ts_entries_of(*list.node, y.entries@));
                }
            }
            return Err(e);
        },
    };
    children.drain(false)?;
    Ok(MapLiteral { entries })
}

/// The pair literal built from `n`: `(`, the left expression, `,`, the right expression.
fn pair_of_node(n: &TsSyntaxNode) -> (res: Result<PairLiteral, ModelError>)
    ensures
        res matches Ok(x) ==> ts_pair_of(*n, x),
        res is Err ==> forall|x: PairLiteral| !ts_pair_of(*n, x),
    decreases n, 1nat,
{
    proof {
        lemma_rem_block_range(n.children@, BlockEnds::NoEnds, BlockDelim::NoDelim);
    }
    let mut children = TSNode::from_cursor(n).into_children();
    children.skip_terminal(symbols::LPAREN)?;
    let l = children.next_field(fields::LEFT)?;
    proof {
        assert(decreases_to!(n => n.children@[items(*n).0[1]]));
        assert(*l.node == item(*n, 1));
    }
    let left = match inner_of(l) {
        Ok(b) => b,
        Err(e) => {
            proof {
                assert forall|y: PairLiteral| !ts_pair_of(*n, y) by {
                    assert(!ts_expression_of(*l.node, y.left.element));
                }
            }
            return Err(e);
        },
    };
    children.skip_terminal(symbols::COMMA)?;
    let r = children.next_field(fields::RIGHT)?;
    proof {
        assert(decreases_to!(n => n.children@[items(*n).0[3]]));
        assert(*r.node == item(*n, 3));
    }
    let right = match inner_of(r) {
        Ok(b) => b,
        Err(e) => {
            proof {
                assert forall|y: PairLiteral| !ts_pair_of(*n, y) by {
                    assert(!ts_expression_of(*r.node, y.right.element));
                }
            }
            return Err(e);
        },
    };
    children.drain(false)?;
    Ok(PairLiteral { left, right })
}

/// The object literal built from `n`: its type name, then its fields.
fn object_of_node(n: &TsSyntaxNode) -> (res: Result<ObjectLiteral, ModelError>)
    ensures
        res matches Ok(x) ==> ts_object_of(*n, x),
        res is Err ==> forall|x: ObjectLiteral| !ts_object_of(*n, x),
    decreases n, 1nat,
{
    proof {
        lemma_rem_block_range(n.children@, BlockEnds::NoEnds, BlockDelim::NoDelim);
    }
    let mut children = TSNode::from_cursor(n).into_children();
    let object_type = children.next_field(fields::TYPE)?.try_into_text_anchor()?;
    let list = children.next_field(fields::FIELDS)?;
    proof {
        assert(decreases_to!(n => n.children@[items(*n).0[1]]));
        assert(*list.node == item(*n, 1));
    }
    let fields = match fields_of_node(list.node) {
        Ok(b) => b,
        Err(e) => {
            proof {
                assert forall|y: ObjectLiteral| !ts_object_of(*n, y) by {
                    assert(!ts_fields_of(*list.node, y.fields@));
                }
            }
            return Err(e);
        },
    };
    children.drain(false)?;
    Ok(ObjectLiteral { object_type, fields })
}

/// The unary operation built from `n`: its operator, then its operand.
fn unary_of_node(n: &TsSyntaxNode) -> (res: Result<Unary, ModelError>)
    ensures
        res matches Ok(x) ==> ts_unary_of(*n, x),
        res is Err ==> forall|x: Unary| !ts_unary_of(*n, x),
    decreases n, 1nat,
{
    proof {
        lemma_rem_block_range(n.children@, BlockEnds::NoEnds, BlockDelim::NoDelim);
    }
    let mut children = TSNode::from_cursor(n).into_children();
    let operator = UnaryOperator::from_str(children.next_field(fields::OPERATOR)?.try_as_str()?)?;
    let x = children.next_field(fields::EXPRESSION)?;
    proof {
        assert(decreases_to!(n => n.children@[items(*n).0[1]]));
        assert(*x.node == item(*n, 1));
    }
    let expression = match inner_of(x) {
        Ok(b) => b,
        Err(e) => {
            proof {
                assert forall|y: Unary| !ts_unary_of(*n, y) by {
                    assert(!ts_expression_of(*x.node, y.expression.element));
                }
            }
            return Err(e);
        },
    };
    children.drain(false)?;
    Ok(Unary { operator, expression })
}

/// The binary operation built from `n`: its left operand, its operator, its right operand.
fn binary_of_node(n: &TsSyntaxNode) -> (res: Result<Binary, ModelError>)
    ensures
        res matches Ok(x) ==> ts_binary_of(*n, x),
        res is Err ==> forall|x: Binary| !ts_binary_of(*n, x),
    decreases n, 1nat,
{
    proof {
        lemma_rem_block_range(n.children@, BlockEnds::NoEnds, BlockDelim::NoDelim);
    }
    let mut children = TSNode::from_cursor(n).into_children();
    let l = children.next_field(fields::LEFT)?;
    proof {
        assert(decreases_to!(n => n.children@[items(*n).0[0]]));
        assert(*l.node == item(*n, 0));
    }
    let left = match inner_of(l) {
        Ok(b) => b,
        Err(e) => {
            proof {
                assert forall|y: Binary| !ts_binary_of(*n, y) by {
                    assert(!ts_expression_of(*l.node, y.left.element));
                }
            }
            return Err(e);
        },
    };
    let operator = BinaryOperator::from_str(children.next_field(fields::OPERATOR)?.try_as_str()?)?;
    let r = children.next_field(fields::RIGHT)?;
    proof {
        assert(decreases_to!(n => n.children@[items(*n).0[2]]));
        assert(*r.node == item(*n, 2));
    }
    let right = match inner_of(r) {
        Ok(b) => b,
        Err(e) => {
            proof {
                assert forall|y: Binary| !ts_binary_of(*n, y) by {
                    assert(!ts_expression_of(*r.node, y.right.element));
                }
            }
            return Err(e);
        },
    };
    children.drain(false)?;
    Ok(Binary { operator, left, right })
}

/// The application built from `n`: the name of a function, then its arguments.
fn apply_of_node(n: &TsSyntaxNode) -> (res: Result<Apply, ModelError>)
    ensures
        res matches Ok(x) ==> ts_apply_of(*n, x),
        res is Err ==> forall|x: Apply| !ts_apply_of(*n, x),
    decreases n, 1nat,
{
    proof {
        lemma_rem_block_range(n.children@, BlockEnds::NoEnds, BlockDelim::NoDelim);
    }
    let mut children = TSNode::from_cursor(n).into_children();
    let name = children.next_field(fields::NAME)?.try_into_text_anchor()?;
    let list = children.next_field(fields::ARGUMENTS)?;
    proof {
        assert(decreases_to!(n => n.children@[items(*n).0[1]]));
        assert(*list.node == item(*n, 1));
    }
    let arguments = match exprs_of_node(list.node, BlockEnds::Parens, BlockDelim::Comma) {
        Ok(b) => b,
        Err(e) => {
            proof {
                assert forall|y: Apply| !ts_apply_of(*n, y) by {
                    assert(!ts_exprs_of(*list.node, BlockEnds::Parens, BlockDelim::Comma, y.arguments@));
                }
            }
            return Err(e);
        },
    };
    children.drain(false)?;
    Ok(Apply { name, arguments })
}

/// The conditional expression built from `n`: `if`, the condition, `then`, the value when it
/// holds, `else`, the value when it does not.
fn ternary_of_node(n: &TsSyntaxNode) -> (res: Result<Ternary, ModelError>)
    ensures
        res matches Ok(x) ==> ts_ternary_of(*n, x),
        res is Err ==> forall|x: Ternary| !ts_ternary_of(*n, x),
    decreases n, 1nat,
{
    proof {
        lemma_rem_block_range(n.children@, BlockEnds::NoEnds, BlockDelim::NoDelim);
    }
    let mut children = TSNode::from_cursor(n).into_children();
    children.skip_terminal(keywords::IF)?;
    let c = children.next_field(fields::CONDITION)?;
    proof {
        assert(decreases_to!(n => n.children@[items(*n).0[1]]));
        assert(*c.node == item(*n, 1));
    }
    let condition = match inner_of(c) {
        Ok(b) => b,
        Err(e) => {
            proof {
                assert forall|x: Ternary| !ts_ternary_of(*n, x) by {
                    assert(!ts_expression_of(*c.node, x.condition.element));
                }
            }
            return Err(e);
        },
    };
    children.skip_terminal(keywords::THEN)?;
    let t = children.next_field(fields::TRUE)?;
    proof {
        assert(decreases_to!(n => n.children@[items(*n).0[3]]));
        assert(*t.node == item(*n, 3));
    }
    let true_branch = match inner_of(t) {
        Ok(b) => b,
        Err(e) => {
            proof {
                assert forall|y: Ternary| !ts_ternary_of(*n, y) by {
                    assert(!ts_expression_of(*t.node, y.true_branch.element));
                }
            }
            return Err(e);
        },
    };
    children.skip_terminal(keywords::ELSE)?;
    let f = children.next_field(fields::FALSE)?;
    proof {
        assert(decreases_to!(n => n.children@[items(*n).0[5]]));
        assert(*f.node == item(*n, 5));
    }
    let false_branch = match inner_of(f) {
        Ok(b) => b,
        Err(e) => {
            proof {
                assert forall|y: Ternary| !ts_ternary_of(*n, y) by {
                    assert(!ts_expression_of(*f.node, y.false_branch.element));
                }
            }
            return Err(e);
        },
    };
    children.drain(false)?;
    Ok(Ternary { condition, true_branch, false_branch })
}

/// The group built from `n`: an expression in parentheses, anchored to its span.
fn group_of_node(n: &TsSyntaxNode) -> (res: Result<Anchor<Expression>, ModelError>)
    ensures
        res matches Ok(x) ==> ts_group_of(*n, x),
        res is Err ==> forall|x: Anchor<Expression>| !ts_group_of(*n, x),
    decreases n, 1nat,
{
    proof {
        lemma_rem_block_range(n.children@, BlockEnds::Parens, BlockDelim::NoDelim);
    }
    let mut children = TSNode::from_cursor(n).into_block(BlockEnds::Parens, BlockDelim::NoDelim);
    let x = children.next_field(fields::EXPRESSION)?;
    proof {
        let g = rem_block(n.children@, BlockEnds::Parens, BlockDelim::NoDelim);
        assert(decreases_to!(n => n.children@[g.0[0]]));
        assert(*x.node == n.children@[g.0[0]]);
    }
    let inner = match anchor_of(x) {
        Ok(b) => b,
        Err(e) => {
            proof {
                assert forall|y: Anchor<Expression>| !ts_group_of(*n, y) by {
                    assert(!ts_expression_of(*x.node, y.element));
                }
            }
            return Err(e);
        },
    };
    children.drain(false)?;
    Ok(inner)
}

/// The string literal built from `n`: an opening quote, its parts if it has any, and a
/// closing quote written as the opening one.
fn string_of_node(n: &TsSyntaxNode) -> (res: Result<StringLiteral, ModelError>)
    ensures
        res matches Ok(x) ==> ts_string_of(*n, x),
        res is Err ==> forall|x: StringLiteral| !ts_string_of(*n, x),
    decreases n, 1nat,
{
    proof {
        lemma_rem_block_range(n.children@, BlockEnds::NoEnds, BlockDelim::NoDelim);
    }
    let mut children = TSNode::from_cursor(n).into_children();
    let start = children.next_node()?.try_as_str()?;
    let second = children.next_node()?;
    let is_parts = match second.get_field() {
        Some(f) => str_eq(f, fields::PARTS),
        None => false,
    };
    let (parts, end) = if is_parts {
        proof {
            assert(decreases_to!(n => n.children@[items(*n).0[1]]));
            assert(*second.node == item(*n, 1));
        }
        let parts = match parts_of_node(second.node) {
            Ok(v) => v,
            Err(e) => {
                proof {
                    assert forall|y: StringLiteral| !ts_string_of(*n, y) by {
                        assert(!ts_parts_of(*second.node, y.parts@));
                    }
                }
                return Err(e);
            },
        };
        (parts, children.next_node()?.try_as_str()?)
    } else {
        (Vec::new(), second.try_as_str()?)
    };
    if !str_eq(start, end) {
        return Err(ModelError::parser(owned("Expected the quotes of a string to match")));
    }
    children.drain(false)?;
    Ok(StringLiteral { parts })
}

/// The access built from `n`: an index into a collection, or a field of an object.
fn access_of_node(n: &TsSyntaxNode) -> (res: Result<Access, ModelError>)
    ensures
        res matches Ok(x) ==> ts_access_of(*n, x),
        res is Err ==> forall|x: Access| !ts_access_of(*n, x),
    decreases n, 1nat,
{
    proof {
        lemma_rem_block_range(n.children@, BlockEnds::NoEnds, BlockDelim::NoDelim);
    }
    let is_index = str_eq(n.kind.as_str(), rules::INDEX_EXPRESSION);
    if !is_index && !str_eq(n.kind.as_str(), rules::FIELD_EXPRESSION) {
        return Err(parser_error("Invalid access ", n.kind.as_str(), "", ""));
    }
    let mut children = TSNode::from_cursor(n).into_children();
    let c = children.next_field(if is_index { fields::COLLECTION } else { fields::OBJECT })?;
    proof {
        assert(decreases_to!(n => n.children@[items(*n).0[0]]));
        assert(*c.node == item(*n, 0));
    }
    let collection = match inner_of(c) {
        Ok(b) => b,
        Err(e) => {
            proof {
                assert forall|y: Access| !ts_access_of(*n, y) by {
                    assert(!ts_expression_of(*c.node, y.collection.element));
                }
            }
            return Err(e);
        },
    };
    children.skip_terminal(if is_index { symbols::LBRACK } else { symbols::DOT })?;
    let a = children.next_field(if is_index { fields::INDEX } else { fields::NAME })?;
    let span = a.as_span();
    let operation = if is_index {
        proof {
            assert(decreases_to!(n => n.children@[items(*n).0[2]]));
            assert(*a.node == item(*n, 2));
        }
        match expression_of_node(a.node) {
            Ok(i) => AccessOperation::Index(i),
            Err(e) => {
                proof {
                    assert forall|y: Access| !ts_access_of(*n, y) by {
                        if let AccessOperation::Index(i) = y.accesses@[0].element {
                            assert(!ts_expression_of(*a.node, i));
                        }
                    }
                }
                return Err(e);
            },
        }
    } else {
        AccessOperation::Field(a.try_into_string()?)
    };
    children.drain(false)?;
    Ok(Access { collection, accesses: vec![Anchor::new(operation, span)] })
}

/// The string part built from `n`: its content, an escape sequence, or a placeholder around an
/// expression.
fn part_of_node(n: &TsSyntaxNode) -> (res: Result<StringPart, ModelError>)
    ensures
        res matches Ok(x) ==> ts_part_of(*n, x),
        res is Err ==> forall|x: StringPart| !ts_part_of(*n, x),
    decreases n, 1nat,
{
    proof {
        lemma_rem_block_range(n.children@, BlockEnds::NoEnds, BlockDelim::NoDelim);
    }
    let kind = n.kind.as_str();
    if str_eq(kind, rules::CONTENT) {
        Ok(StringPart::Content(TSNode::from_cursor(n).try_into_string()?))
    } else if str_eq(kind, rules::ESCAPE_SEQUENCE) {
        Ok(StringPart::Escape(TSNode::from_cursor(n).try_into_string()?))
    } else if str_eq(kind, rules::PLACEHOLDER) {
        let mut children = TSNode::from_cursor(n).into_children();
        let _ = children.next_node()?.try_as_str()?;
        let x = children.next_field(fields::EXPRESSION)?;
        proof {
            assert(decreases_to!(n => n.children@[items(*n).0[1]]));
            assert(*x.node == item(*n, 1));
        }
        let e = match expression_of_node(x.node) {
            Ok(e) => e,
            Err(e) => {
                proof {
                    assert forall|y: StringPart| !ts_part_of(*n, y) by {
                        if let StringPart::Placeholder(p) = y {
                            assert(!ts_expression_of(*x.node, p));
                        }
                    }
                }
                return Err(e);
            },
        };
        children.drain(false)?;
        Ok(StringPart::Placeholder(e))
    } else {
        Err(parser_error("Invalid string part ", kind, "", ""))
    }
}

/// The map entry built from `n`: a key, `:`, a value.
fn entry_of_node(n: &TsSyntaxNode) -> (res: Result<MapEntry, ModelError>)
    ensures
        res matches Ok(x) ==> ts_entry_of(*n, x),
        res is Err ==> forall|x: MapEntry| !ts_entry_of(*n, x),
    decreases n, 1nat,
{
    proof {
        lemma_rem_block_range(n.children@, BlockEnds::NoEnds, BlockDelim::NoDelim);
    }
    let mut children = TSNode::from_cursor(n).into_children();
    let k = children.next_field(fields::KEY)?;
    proof {
        assert(decreases_to!(n => n.children@[items(*n).0[0]]));
        assert(*k.node == item(*n, 0));
    }
    let key = match anchor_of(k) {
        Ok(b) => b,
        Err(e) => {
            proof {
                assert forall|y: MapEntry| !ts_entry_of(*n, y) by {
                    assert(!ts_expression_of(*k.node, y.key.element));
                }
            }
            return Err(e);
        },
    };
    children.skip_terminal(symbols::COLON)?;
    let v = children.next_field(fields::VALUE)?;
    proof {
        assert(decreases_to!(n => n.children@[items(*n).0[2]]));
        assert(*v.node == item(*n, 2));
    }
    let value = match anchor_of(v) {
        Ok(b) => b,
        Err(e) => {
            proof {
                assert forall|y: MapEntry| !ts_entry_of(*n, y) by {
                    assert(!ts_expression_of(*v.node, y.value.element));
                }
            }
            return Err(e);
        },
    };
    children.drain(false)?;
    Ok(MapEntry { key, value })
}

/// The field of an object literal built from `n`: a name, `:`, an expression.
fn field_of_node(n: &TsSyntaxNode) -> (res: Result<ObjectField, ModelError>)
    ensures
        res matches Ok(x) ==> ts_field_of(*n, x),
        res is Err ==> forall|x: ObjectField| !ts_field_of(*n, x),
    decreases n, 1nat,
{
    proof {
        lemma_rem_block_range(n.children@, BlockEnds::NoEnds, BlockDelim::NoDelim);
    }
    let mut children = TSNode::from_cursor(n).into_children();
    let name = children.next_field(fields::NAME)?.try_into_text_anchor()?;
    children.skip_terminal(symbols::COLON)?;
    let x = children.next_field(fields::EXPRESSION)?;
    proof {
        assert(decreases_to!(n => n.children@[items(*n).0[2]]));
        assert(*x.node == item(*n, 2));
    }
    let expression = match anchor_of(x) {
        Ok(b) => b,
        Err(e) => {
            proof {
                assert forall|y: ObjectField| !ts_field_of(*n, y) by {
                    assert(!ts_expression_of(*x.node, y.expression.element));
                }
            }
            return Err(e);
        },
    };
    children.drain(false)?;
    Ok(ObjectField { name, expression })
}

/// The expressions built from the items of the block that the children of `m` form with
/// `ends` and `delim`, each anchored to its span.
#[verifier::spinoff_prover]
#[verifier::rlimit(40)]
fn exprs_of_node(m: &TsSyntaxNode, ends: BlockEnds, delim: BlockDelim) -> (res: Result<Vec<Anchor<Expression>>, ModelError>)
    ensures
        res matches Ok(v) ==> ts_exprs_of(*m, ends, delim, v@),
        res is Err ==> forall|v: Seq<Anchor<Expression>>| !ts_exprs_of(*m, ends, delim, v),
    decreases m, 1nat,
{
    proof {
        lemma_rem_block_range(m.children@, ends, delim);
    }
    let ghost cs = m.children@;
    let ghost r = rem_block(cs, ends, delim);
    let mut it = TSNode::from_cursor(m).into_block(ends, delim);
    let mut v: Vec<Anchor<Expression>> = Vec::new();
    loop
        invariant
            it.wf(),
            it.children@ == cs,
            cs == m.children@,
            r == rem_block(cs, ends, delim),
            forall|k: int| 0 <= k < r.0.len() ==> 0 <= #[trigger] r.0[k] < cs.len(),
            v@.len() <= r.0.len(),
            it.remaining() == (r.0.skip(v@.len() as int), r.1),
            forall|k: int|
                0 <= k < v@.len() ==> (#[trigger] v@[k]).span == cs[r.0[k]].span && ts_expression_of(
                    cs[r.0[k]],
                    v@[k].element,
                ),
        ensures
            r.1,
            v@.len() == r.0.len(),
            forall|k: int|
                0 <= k < v@.len() ==> (#[trigger] v@[k]).span == cs[r.0[k]].span && ts_expression_of(
                    cs[r.0[k]],
                    v@[k].element,
                ),
        decreases r.0.len() - v@.len(),
    {
        let ghost len = v@.len() as int;
        proof {
            if len < r.0.len() {
                assert(r.0.skip(len)[0] == r.0[len]);
                assert(r.0.skip(len).drop_first() =~= r.0.skip(len + 1));
            }
        }
        match it.next() {
            Some(Ok(t)) => {
                proof {
                    assert(decreases_to!(m => m.children@[r.0[len]]));
                    assert(*t.node == cs[r.0[len]]);
                }
                let span = t.as_span();
                match expression_of_node(t.node) {
                    Ok(x) => v.push(Anchor::new(x, span)),
                    Err(e) => {
                        proof {
                            assert forall|w: Seq<Anchor<Expression>>| !ts_exprs_of(*m, ends, delim, w) by {
                                if ts_exprs_of(*m, ends, delim, w) {
                                    assert(w[len].span == cs[r.0[len]].span);
                                    assert(!ts_expression_of(*t.node, w[len].element));
                                }
                            }
                        }
                        return Err(e);
                    },
                }
            },
            Some(Err(e)) => {
                return Err(e);
            },
            None => {
                break ;
            },
        }
    }
    proof {
        assert(ts_exprs_of(*m, ends, delim, v@));
    }
    Ok(v)
}

/// The string parts built from the children of `m`, each anchored to its span.
#[verifier::spinoff_prover]
#[verifier::rlimit(40)]
pub(crate) fn parts_of_node(m: &TsSyntaxNode) -> (res: Result<Vec<Anchor<StringPart>>, ModelError>)
    ensures
        res matches Ok(v) ==> ts_parts_of(*m, v@),
        res is Err ==> forall|v: Seq<Anchor<StringPart>>| !ts_parts_of(*m, v),
    decreases m, 1nat,
{
    proof {
        lemma_rem_block_range(m.children@, BlockEnds::NoEnds, BlockDelim::NoDelim);
    }
    let ghost cs = m.children@;
    let ghost r = rem_block(cs, BlockEnds::NoEnds, BlockDelim::NoDelim);
    let mut it = TSNode::from_cursor(m).into_block(BlockEnds::NoEnds, BlockDelim::NoDelim);
    let mut v: Vec<Anchor<StringPart>> = Vec::new();
    loop
        invariant
            it.wf(),
            it.children@ == cs,
            cs == m.children@,
            r == rem_block(cs, BlockEnds::NoEnds, BlockDelim::NoDelim),
            forall|k: int| 0 <= k < r.0.len() ==> 0 <= #[trigger] r.0[k] < cs.len(),
            v@.len() <= r.0.len(),
            it.remaining() == (r.0.skip(v@.len() as int), r.1),
            forall|k: int|
                0 <= k < v@.len() ==> (#[trigger] v@[k]).span == cs[r.0[k]].span && ts_part_of(
                    cs[r.0[k]],
                    v@[k].element,
                ),
        ensures
            r.1,
            v@.len() == r.0.len(),
            forall|k: int|
                0 <= k < v@.len() ==> (#[trigger] v@[k]).span == cs[r.0[k]].span && ts_part_of(
                    cs[r.0[k]],
                    v@[k].element,
                ),
        decreases r.0.len() - v@.len(),
    {
        let ghost len = v@.len() as int;
        proof {
            if len < r.0.len() {
                assert(r.0.skip(len)[0] == r.0[len]);
                assert(r.0.skip(len).drop_first() =~= r.0.skip(len + 1));
            }
        }
        match it.next() {
            Some(Ok(t)) => {
                proof {
                    assert(decreases_to!(m => m.children@[r.0[len]]));
                    assert(*t.node == cs[r.0[len]]);
                }
                let span = t.as_span();
                match part_of_node(t.node) {
                    Ok(x) => v.push(Anchor::new(x, span)),
                    Err(e) => {
                        proof {
                            assert forall|w: Seq<Anchor<StringPart>>| !ts_parts_of(*m, w) by {
                                if ts_parts_of(*m, w) {
                                    assert(w[len].span == cs[r.0[len]].span);
                                    assert(!ts_part_of(*t.node, w[len].element));
                                }
                            }
                        }
                        return Err(e);
                    },
                }
            },
            Some(Err(e)) => {
                return Err(e);
            },
            None => {
                break ;
            },
        }
    }
    proof {
        assert(ts_parts_of(*m, v@));
    }
    Ok(v)
}

/// The map entries built from the items of the block of `m` in braces, separated by commas.
#[verifier::spinoff_prover]
#[verifier::rlimit(40)]
fn entries_of_node(m: &TsSyntaxNode) -> (res: Result<Vec<Anchor<MapEntry>>, ModelError>)
    ensures
        res matches Ok(v) ==> ts_entries_of(*m, v@),
        res is Err ==> forall|v: Seq<Anchor<MapEntry>>| !ts_entries_of(*m, v),
    decreases m, 1nat,
{
    proof {
        lemma_rem_block_range(m.children@, BlockEnds::Braces, BlockDelim::Comma);
    }
    let ghost cs = m.children@;
    let ghost r = rem_block(cs, BlockEnds::Braces, BlockDelim::Comma);
    let mut it = TSNode::from_cursor(m).into_block(BlockEnds::Braces, BlockDelim::Comma);
    let mut v: Vec<Anchor<MapEntry>> = Vec::new();
    loop
        invariant
            it.wf(),
            it.children@ == cs,
            cs == m.children@,
            r == rem_block(cs, BlockEnds::Braces, BlockDelim::Comma),
            forall|k: int| 0 <= k < r.0.len() ==> 0 <= #[trigger] r.0[k] < cs.len(),
            v@.len() <= r.0.len(),
            it.remaining() == (r.0.skip(v@.len() as int), r.1),
            forall|k: int|
                0 <= k < v@.len() ==> (#[trigger] v@[k]).span == cs[r.0[k]].span && ts_entry_of(
                    cs[r.0[k]],
                    v@[k].element,
                ),
        ensures
            r.1,
            v@.len() == r.0.len(),
            forall|k: int|
                0 <= k < v@.len() ==> (#[trigger] v@[k]).span == cs[r.0[k]].span && ts_entry_of(
                    cs[r.0[k]],
                    v@[k].element,
                ),
        decreases r.0.len() - v@.len(),
    {
        let ghost len = v@.len() as int;
        proof {
            if len < r.0.len() {
                assert(r.0.skip(len)[0] == r.0[len]);
                assert(r.0.skip(len).drop_first() =~= r.0.skip(len + 1));
            }
        }
        match it.next() {
            Some(Ok(t)) => {
                proof {
                    assert(decreases_to!(m => m.children@[r.0[len]]));
                    assert(*t.node == cs[r.0[len]]);
                }
                let span = t.as_span();
                match entry_of_node(t.node) {
                    Ok(x) => v.push(Anchor::new(x, span)),
                    Err(e) => {
                        proof {
                            assert forall|w: Seq<Anchor<MapEntry>>| !ts_entries_of(*m, w) by {
                                if ts_entries_of(*m, w) {
                                    assert(w[len].span == cs[r.0[len]].span);
                                    assert(!ts_entry_of(*t.node, w[len].element));
                                }
                            }
                        }
                        return Err(e);
                    },
                }
            },
            Some(Err(e)) => {
                return Err(e);
            },
            None => {
                break ;
            },
        }
    }
    proof {
        assert(ts_entries_of(*m, v@));
    }
    Ok(v)
}

/// The fields of an object literal built from the items of the block of `m` in braces,
/// separated by commas.
#[verifier::spinoff_prover]
#[verifier::rlimit(40)]
fn fields_of_node(m: &TsSyntaxNode) -> (res: Result<Vec<Anchor<ObjectField>>, ModelError>)
    ensures
        res matches Ok(v) ==> ts_fields_of(*m, v@),
        res is Err ==> forall|v: Seq<Anchor<ObjectField>>| !ts_fields_of(*m, v),
    decreases m, 1nat,
{
    proof {
        lemma_rem_block_range(m.children@, BlockEnds::Braces, BlockDelim::Comma);
    }
    let ghost cs = m.children@;
    let ghost r = rem_block(cs, BlockEnds::Braces, BlockDelim::Comma);
    let mut it = TSNode::from_cursor(m).into_block(BlockEnds::Braces, BlockDelim::Comma);
    let mut v: Vec<Anchor<ObjectField>> = Vec::new();
    loop
        invariant
            it.wf(),
            it.children@ == cs,
            cs == m.children@,
            r == rem_block(cs, BlockEnds::Braces, BlockDelim::Comma),
            forall|k: int| 0 <= k < r.0.len() ==> 0 <= #[trigger] r.0[k] < cs.len(),
            v@.len() <= r.0.len(),
            it.remaining() == (r.0.skip(v@.len() as int), r.1),
            forall|k: int|
                0 <= k < v@.len() ==> (#[trigger] v@[k]).span == cs[r.0[k]].span && ts_field_of(
                    cs[r.0[k]],
                    v@[k].element,
                ),
        ensures
            r.1,
            v@.len() == r.0.len(),
            forall|k: int|
                0 <= k < v@.len() ==> (#[trigger] v@[k]).span == cs[r.0[k]].span && ts_field_of(
                    cs[r.0[k]],
                    v@[k].element,
                ),
        decreases r.0.len() - v@.len(),
    {
        let ghost len = v@.len() as int;
        proof {
            if len < r.0.len() {
                assert(r.0.skip(len)[0] == r.0[len]);
                assert(r.0.skip(len).drop_first() =~= r.0.skip(len + 1));
            }
        }
        match it.next() {
            Some(Ok(t)) => {
                proof {
                    assert(decreases_to!(m => m.children@[r.0[len]]));
                    assert(*t.node == cs[r.0[len]]);
                }
                let span = t.as_span();
                match field_of_node(t.node) {
                    Ok(x) => v.push(Anchor::new(x, span)),
                    Err(e) => {
                        proof {
                            assert forall|w: Seq<Anchor<ObjectField>>| !ts_fields_of(*m, w) by {
                                if ts_fields_of(*m, w) {
                                    assert(w[len].span == cs[r.0[len]].span);
                                    assert(!ts_field_of(*t.node, w[len].element));
                                }
                            }
                        }
                        return Err(e);
                    },
                }
            },
            Some(Err(e)) => {
                return Err(e);
            },
            None => {
                break ;
            },
        }
    }
    proof {
        assert(ts_fields_of(*m, v@));
    }
    Ok(v)
}

/// The expression built from a node; an error when none can be.
pub fn try_into_expression(node: TSNode) -> (res: Result<Expression, ModelError>)
    ensures
        res is Ok <==> exists|e: Expression| ts_expression_of(*node.node, e),
        res matches Ok(e) ==> ts_expression_of(*node.node, e),
{
    expression_of_node(node.node)
}

/// The access built from a node: an index into a collection, or a field of an object; an
/// error when none can be.
pub fn try_into_access(node: TSNode) -> (res: Result<Access, ModelError>)
    ensures
        res is Ok <==> exists|x: Access| ts_access_of(*node.node, x),
        res matches Ok(x) ==> ts_access_of(*node.node, x),
{
    access_of_node(node.node)
}

} // verus!
