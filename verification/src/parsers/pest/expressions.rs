//! Building the expressions of the model from their matches in the parse tree.
use crate::model::{
    Access, AccessOperation, Anchor, Apply, ArrayLiteral, Binary, BinaryOperator, Expression, InnerSpan,
    MapEntry, MapLiteral, ModelError, ObjectField, ObjectLiteral, PairLiteral, Span,
    StringLiteral, StringPart, Ternary, Unary, UnaryOperator,
};
use crate::parsers::pest::expression_specs::{
    access_operation_anchor_of, access_operation_anchor_ok, access_operations_of,
    access_operations_ok, access_of, access_ok, apply_of, binary_of, binary_ok,
    binary_operator_of_rule, chain_of, chain_ok, expr_anchor_of,
    expr_anchor_ok, expr_anchors_of, expr_anchors_ok, expression_of, expression_ok,
    is_binary_rule, map_entries_of, map_entries_ok, map_entry_of, map_entry_ok, object_field_of,
    object_field_ok, object_fields_of, object_fields_ok, object_of, pair_of, pair_ok,
    string_part_of, string_part_ok, string_parts_of, string_parts_ok, ternary_of, ternary_ok,
    unary_of, unary_ok, unary_operator_of_rule,
};
use crate::parsers::pest::node::{
    has_vis, hidden, is_hidden, lemma_next_visible, lemma_prev_visible_at, lemma_vpos,
    next_visible, prev_visible, vcount, vis, vpos, PestNode, PestNodes,
};
use crate::parsers::pest::primitives::{
    try_into_bool, try_into_float, try_into_integer, try_into_text_anchor,
};
use crate::parsers::pest::rules::WdlRule;
use crate::text::owned;
use vstd::prelude::*;

verus! {

/// The unary operator a match stands for.
pub fn try_into_unary_operator(node: PestNode) -> (res: Result<UnaryOperator, ModelError>)
    ensures
        match unary_operator_of_rule(node.pair.rule) {
            Some(o) => res == Ok::<UnaryOperator, ModelError>(o),
            None => res matches Err(ModelError::Grammar { kind, value }) && kind@
                == "unary operator"@ && value@ == node.pair.text@,
        },
{
    match node.as_rule() {
        WdlRule::pos => Ok(UnaryOperator::Pos),
        WdlRule::neg => Ok(UnaryOperator::Neg),
        WdlRule::not => Ok(UnaryOperator::Not),
        _ => Err(ModelError::grammar("unary operator", node.as_str())),
    }
}

/// The binary operator a match stands for.
pub fn try_into_binary_operator(node: PestNode) -> (res: Result<BinaryOperator, ModelError>)
    ensures
        match binary_operator_of_rule(node.pair.rule) {
            Some(o) => res == Ok::<BinaryOperator, ModelError>(o),
            None => res matches Err(ModelError::Grammar { kind, value }) && kind@
                == "binary operator"@ && value@ == node.pair.text@,
        },
{
    match node.as_rule() {
        WdlRule::add => Ok(BinaryOperator::Add),
        WdlRule::sub => Ok(BinaryOperator::Sub),
        WdlRule::mul => Ok(BinaryOperator::Mul),
        WdlRule::div => Ok(BinaryOperator::Div),
        WdlRule::rem => Ok(BinaryOperator::Mod),
        WdlRule::gt => Ok(BinaryOperator::Gt),
        WdlRule::lt => Ok(BinaryOperator::Lt),
        WdlRule::gte => Ok(BinaryOperator::Gte),
        WdlRule::lte => Ok(BinaryOperator::Lte),
        WdlRule::eq => Ok(BinaryOperator::Eq),
        WdlRule::neq => Ok(BinaryOperator::Neq),
        WdlRule::and => Ok(BinaryOperator::And),
        WdlRule::or => Ok(BinaryOperator::Or),
        _ => Err(ModelError::grammar("binary operator", node.as_str())),
    }
}

fn is_binary_level(r: WdlRule) -> (res: bool)
    ensures
        res == is_binary_rule(r),
{
    r == WdlRule::disjunction || r == WdlRule::conjunction || r == WdlRule::equality || r
        == WdlRule::comparison || r == WdlRule::math1 || r == WdlRule::math2
}

/// Builds the anchored expressions of the nested matches from the iterator's position on.
pub fn collect_expression_anchors(nodes: PestNodes) -> (res: Result<
    Vec<Anchor<Expression>>,
    ModelError,
>)
    requires
        nodes.index <= nodes.pairs@.len(),
    ensures
        res is Ok <==> expr_anchors_ok(nodes.pairs@, nodes.index as int),
        res matches Ok(v) ==> expr_anchors_of(nodes.pairs@, nodes.index as int, v@),
    decreases nodes.pairs@, 2nat, 0int,
{
    let cs = nodes.pairs;
    let start = nodes.index;
    let mut v: Vec<Anchor<Expression>> = Vec::new();
    let mut j = start;
    while j < cs.len()
        invariant
            cs == nodes.pairs,
            start == nodes.index,
            start <= j <= cs@.len(),
            v@.len() == vcount(cs@, start as int, j as int),
            forall|k: int|
                #![trigger cs@[k]]
                start <= k < j && !hidden(cs@[k]) ==> vcount(cs@, start as int, k) < v@.len()
                    && expr_anchor_ok(cs@[k]) && expr_anchor_of(
                    cs@[k],
                    v@[vcount(cs@, start as int, k) as int],
                ),
        decreases cs@.len() - j,
    {
        if !is_hidden(&cs[j]) {
            proof {
                assert(decreases_to!(nodes.pairs@ => nodes.pairs@[j as int]));
            }
            match try_into_expression_anchor(PestNode::new(&cs[j])) {
                Ok(a) => v.push(a),
                Err(e) => {
                    assert(!expr_anchor_ok(nodes.pairs@[j as int]));
                    return Err(e);
                },
            }
        }
        j = j + 1;
    }
    Ok(v)
}

/// Builds the string parts of the nested matches from the iterator's position on, each anchored
/// to its match's span.
pub fn collect_string_parts(nodes: PestNodes) -> (res: Result<Vec<Anchor<StringPart>>, ModelError>)
    requires
        nodes.index <= nodes.pairs@.len(),
    ensures
        res is Ok <==> string_parts_ok(nodes.pairs@, nodes.index as int),
        res matches Ok(v) ==> string_parts_of(nodes.pairs@, nodes.index as int, v@),
    decreases nodes.pairs@, 2nat, 0int,
{
    let cs = nodes.pairs;
    let start = nodes.index;
    let mut v: Vec<Anchor<StringPart>> = Vec::new();
    let mut j = start;
    while j < cs.len()
        invariant
            cs == nodes.pairs,
            start == nodes.index,
            start <= j <= cs@.len(),
            v@.len() == vcount(cs@, start as int, j as int),
            forall|k: int|
                #![trigger cs@[k]]
                start <= k < j && !hidden(cs@[k]) ==> {
                    &&& vcount(cs@, start as int, k) < v@.len()
                    &&& string_part_ok(cs@[k])
                    &&& v@[vcount(cs@, start as int, k) as int].span == cs@[k].span
                    &&& string_part_of(cs@[k], v@[vcount(cs@, start as int, k) as int].element)
                },
        decreases cs@.len() - j,
    {
        if !is_hidden(&cs[j]) {
            proof {
                assert(decreases_to!(nodes.pairs@ => nodes.pairs@[j as int]));
            }
            let node = PestNode::new(&cs[j]);
            match try_into_string_part(node) {
                Ok(p) => v.push(Anchor::new(p, node.as_span())),
                Err(e) => {
                    assert(!string_part_ok(nodes.pairs@[j as int]));
                    return Err(e);
                },
            }
        }
        j = j + 1;
    }
    Ok(v)
}

/// Builds the map entries of the nested matches from the iterator's position on, each anchored
/// to its match's span.
pub fn collect_map_entries(nodes: PestNodes) -> (res: Result<Vec<Anchor<MapEntry>>, ModelError>)
    requires
        nodes.index <= nodes.pairs@.len(),
    ensures
        res is Ok <==> map_entries_ok(nodes.pairs@, nodes.index as int),
        res matches Ok(v) ==> map_entries_of(nodes.pairs@, nodes.index as int, v@),
    decreases nodes.pairs@, 2nat, 0int,
{
    let cs = nodes.pairs;
    let start = nodes.index;
    let mut v: Vec<Anchor<MapEntry>> = Vec::new();
    let mut j = start;
    while j < cs.len()
        invariant
            cs == nodes.pairs,
            start == nodes.index,
            start <= j <= cs@.len(),
            v@.len() == vcount(cs@, start as int, j as int),
            forall|k: int|
                #![trigger cs@[k]]
                start <= k < j && !hidden(cs@[k]) ==> {
                    &&& vcount(cs@, start as int, k) < v@.len()
                    &&& map_entry_ok(cs@[k])
                    &&& v@[vcount(cs@, start as int, k) as int].span == cs@[k].span
                    &&& map_entry_of(cs@[k], v@[vcount(cs@, start as int, k) as int].element)
                },
        decreases cs@.len() - j,
    {
        if !is_hidden(&cs[j]) {
            proof {
                assert(decreases_to!(nodes.pairs@ => nodes.pairs@[j as int]));
            }
            let node = PestNode::new(&cs[j]);
            match try_into_map_entry(node) {
                Ok(x) => v.push(Anchor::new(x, node.as_span())),
                Err(e) => {
                    assert(!map_entry_ok(nodes.pairs@[j as int]));
                    return Err(e);
                },
            }
        }
        j = j + 1;
    }
    Ok(v)
}

/// Builds the fields of an object literal from the nested matches from the iterator's position
/// on, each anchored to its match's span.
pub fn collect_object_fields(nodes: PestNodes) -> (res: Result<Vec<Anchor<ObjectField>>, ModelError>)
    requires
        nodes.index <= nodes.pairs@.len(),
    ensures
        res is Ok <==> object_fields_ok(nodes.pairs@, nodes.index as int),
        res matches Ok(v) ==> object_fields_of(nodes.pairs@, nodes.index as int, v@),
    decreases nodes.pairs@, 2nat, 0int,
{
    let cs = nodes.pairs;
    let start = nodes.index;
    let mut v: Vec<Anchor<ObjectField>> = Vec::new();
    let mut j = start;
    while j < cs.len()
        invariant
            cs == nodes.pairs,
            start == nodes.index,
            start <= j <= cs@.len(),
            v@.len() == vcount(cs@, start as int, j as int),
            forall|k: int|
                #![trigger cs@[k]]
                start <= k < j && !hidden(cs@[k]) ==> {
                    &&& vcount(cs@, start as int, k) < v@.len()
                    &&& object_field_ok(cs@[k])
                    &&& v@[vcount(cs@, start as int, k) as int].span == cs@[k].span
                    &&& object_field_of(cs@[k], v@[vcount(cs@, start as int, k) as int].element)
                },
        decreases cs@.len() - j,
    {
        if !is_hidden(&cs[j]) {
            proof {
                assert(decreases_to!(nodes.pairs@ => nodes.pairs@[j as int]));
            }
            let node = PestNode::new(&cs[j]);
            match try_into_object_field(node) {
                Ok(x) => v.push(Anchor::new(x, node.as_span())),
                Err(e) => {
                    assert(!object_field_ok(nodes.pairs@[j as int]));
                    return Err(e);
                },
            }
        }
        j = j + 1;
    }
    Ok(v)
}

/// Builds the access operations of the nested matches from the iterator's position on.
pub fn collect_access_operations(nodes: PestNodes) -> (res: Result<
    Vec<Anchor<AccessOperation>>,
    ModelError,
>)
    requires
        nodes.index <= nodes.pairs@.len(),
    ensures
        res is Ok <==> access_operations_ok(nodes.pairs@, nodes.index as int),
        res matches Ok(v) ==> access_operations_of(nodes.pairs@, nodes.index as int, v@),
    decreases nodes.pairs@, 2nat, 0int,
{
    let cs = nodes.pairs;
    let start = nodes.index;
    let mut v: Vec<Anchor<AccessOperation>> = Vec::new();
    let mut j = start;
    while j < cs.len()
        invariant
            cs == nodes.pairs,
            start == nodes.index,
            start <= j <= cs@.len(),
            v@.len() == vcount(cs@, start as int, j as int),
            forall|k: int|
                #![trigger cs@[k]]
                start <= k < j && !hidden(cs@[k]) ==> vcount(cs@, start as int, k) < v@.len()
                    && access_operation_anchor_ok(cs@[k]) && access_operation_anchor_of(
                    cs@[k],
                    v@[vcount(cs@, start as int, k) as int],
                ),
        decreases cs@.len() - j,
    {
        if !is_hidden(&cs[j]) {
            proof {
                assert(decreases_to!(nodes.pairs@ => nodes.pairs@[j as int]));
            }
            match try_into_access_operation_anchor(PestNode::new(&cs[j])) {
                Ok(a) => v.push(a),
                Err(e) => {
                    assert(!access_operation_anchor_ok(nodes.pairs@[j as int]));
                    return Err(e);
                },
            }
        }
        j = j + 1;
    }
    Ok(v)
}

/// A part of a string literal: literal text, an escape sequence, or a placeholder holding an
/// expression.
pub fn try_into_string_part(node: PestNode) -> (res: Result<StringPart, ModelError>)
    ensures
        res is Ok <==> string_part_ok(*node.pair),
        res matches Ok(p) ==> string_part_of(*node.pair, p),
    decreases node.pair, 3nat, 0int,
{
    let r = node.as_rule();
    if r == WdlRule::squote_literal || r == WdlRule::dquote_literal || r
        == WdlRule::single_line_command_block_literal || r
        == WdlRule::multi_line_command_block_literal || r == WdlRule::command_heredoc_literal {
        Ok(StringPart::Content(node.pair.text.clone()))
    } else if r == WdlRule::squote_escape_sequence || r == WdlRule::dquote_escape_sequence || r
        == WdlRule::command_block_escape_sequence || r
        == WdlRule::command_heredoc_escape_sequence {
        Ok(StringPart::Escape(node.pair.text.clone()))
    } else if r == WdlRule::tilde_placeholder || r == WdlRule::dollar_placeholder {
        let inner = node.one_inner()?;
        proof {
            lemma_vpos(*node.pair, 0);
            assert(decreases_to!(node.pair => node.pair.children@[vpos(*node.pair, 0)]));
        }
        Ok(StringPart::Placeholder(try_into_expression(inner)?))
    } else {
        Err(ModelError::parser(owned("Invalid string part")))
    }
}

/// A string literal: its parts, each anchored to its span.
pub fn try_into_string_literal(node: PestNode) -> (res: Result<StringLiteral, ModelError>)
    ensures
        res is Ok <==> string_parts_ok(node.pair.children@, 0),
        res matches Ok(x) ==> string_parts_of(node.pair.children@, 0, x.parts@),
    decreases node.pair, 3nat, 0int,
{
    Ok(StringLiteral { parts: collect_string_parts(node.into_inner())? })
}

/// An array literal: its elements.
pub fn try_into_array_literal(node: PestNode) -> (res: Result<ArrayLiteral, ModelError>)
    ensures
        res is Ok <==> expr_anchors_ok(node.pair.children@, 0),
        res matches Ok(x) ==> expr_anchors_of(node.pair.children@, 0, x.elements@),
    decreases node.pair, 3nat, 0int,
{
    Ok(ArrayLiteral { elements: collect_expression_anchors(node.into_inner())? })
}

/// An entry of a map literal: the key (anchored to the span of its match) and the value.
pub fn try_into_map_entry(node: PestNode) -> (res: Result<MapEntry, ModelError>)
    ensures
        res is Ok <==> map_entry_ok(*node.pair),
        res matches Ok(x) ==> map_entry_of(*node.pair, x),
    decreases node.pair, 3nat, 0int,
{
    let n = node.pair;
    proof {
        lemma_vpos(*n, 0);
        lemma_vpos(*n, 1);
    }
    let mut inner = node.into_inner();
    let key_node = inner.next_node()?;
    let value_node = inner.next_node()?;
    proof {
        assert(decreases_to!(n => n.children@[vpos(*n, 0)]));
        assert(decreases_to!(n => n.children@[vpos(*n, 1)]));
    }
    let key = try_into_expression(key_node)?;
    let value = try_into_expression_anchor(value_node)?;
    Ok(MapEntry { key: Anchor::new(key, key_node.as_span()), value })
}

/// A map literal: its entries, each anchored to its span.
pub fn try_into_map_literal(node: PestNode) -> (res: Result<MapLiteral, ModelError>)
    ensures
        res is Ok <==> map_entries_ok(node.pair.children@, 0),
        res matches Ok(x) ==> map_entries_of(node.pair.children@, 0, x.entries@),
    decreases node.pair, 3nat, 0int,
{
    Ok(MapLiteral { entries: collect_map_entries(node.into_inner())? })
}

/// A pair literal: its two expressions.
pub fn try_into_pair_literal(node: PestNode) -> (res: Result<PairLiteral, ModelError>)
    ensures
        res is Ok <==> pair_ok(*node.pair),
        res matches Ok(x) ==> pair_of(*node.pair, x),
    decreases node.pair, 3nat, 0int,
{
    let n = node.pair;
    proof {
        lemma_vpos(*n, 0);
        lemma_vpos(*n, 1);
    }
    let mut inner = node.into_inner();
    let left_node = inner.next_node()?;
    let right_node = inner.next_node()?;
    proof {
        assert(decreases_to!(n => n.children@[vpos(*n, 0)]));
        assert(decreases_to!(n => n.children@[vpos(*n, 1)]));
    }
    let left = try_into_expression_anchor(left_node)?;
    let right = try_into_expression_anchor(right_node)?;
    Ok(PairLiteral { left: Box::new(left), right: Box::new(right) })
}

/// A field of an object literal: its name and expression.
pub fn try_into_object_field(node: PestNode) -> (res: Result<ObjectField, ModelError>)
    ensures
        res is Ok <==> object_field_ok(*node.pair),
        res matches Ok(x) ==> object_field_of(*node.pair, x),
    decreases node.pair, 3nat, 0int,
{
    let n = node.pair;
    proof {
        lemma_vpos(*n, 0);
        lemma_vpos(*n, 1);
    }
    let mut inner = node.into_inner();
    let name_node = inner.next_node()?;
    let expression_node = inner.next_node()?;
    proof {
        assert(decreases_to!(n => n.children@[vpos(*n, 1)]));
    }
    let expression = try_into_expression_anchor(expression_node)?;
    Ok(ObjectField { name: try_into_text_anchor(name_node), expression })
}

/// An object literal: its type name, then its fields.
pub fn try_into_object_literal(node: PestNode) -> (res: Result<ObjectLiteral, ModelError>)
    ensures
        res is Ok <==> has_vis(*node.pair, 0) && object_fields_ok(
            node.pair.children@,
            vpos(*node.pair, 0) + 1,
        ),
        res matches Ok(x) ==> object_of(*node.pair, x),
    decreases node.pair, 3nat, 0int,
{
    proof {
        lemma_vpos(*node.pair, 0);
    }
    let mut inner = node.into_inner();
    let name_node = inner.next_node()?;
    let fields = collect_object_fields(inner)?;
    Ok(ObjectLiteral { object_type: try_into_text_anchor(name_node), fields })
}

/// A function application: its name, then its arguments.
pub fn try_into_apply(node: PestNode) -> (res: Result<Apply, ModelError>)
    ensures
        res is Ok <==> has_vis(*node.pair, 0) && expr_anchors_ok(
            node.pair.children@,
            vpos(*node.pair, 0) + 1,
        ),
        res matches Ok(x) ==> apply_of(*node.pair, x),
    decreases node.pair, 3nat, 0int,
{
    proof {
        lemma_vpos(*node.pair, 0);
    }
    let mut inner = node.into_inner();
    let name_node = inner.next_node()?;
    let arguments = collect_expression_anchors(inner)?;
    Ok(Apply { name: try_into_text_anchor(name_node), arguments })
}

/// An access operation (an index, or a field), without its span.
pub fn try_into_access_operation(node: PestNode) -> (res: Result<AccessOperation, ModelError>)
    ensures
        res is Ok <==> access_operation_anchor_ok(*node.pair),
        res matches Ok(x) ==> access_operation_anchor_of(
            *node.pair,
            Anchor { element: x, span: vis(*node.pair, 0).span },
        ),
    decreases node.pair, 3nat, 0int,
{
    proof {
        lemma_vpos(*node.pair, 0);
    }
    if node.as_rule() == WdlRule::index {
        let inner = node.one_inner()?;
        proof {
            assert(decreases_to!(node.pair => node.pair.children@[vpos(*node.pair, 0)]));
        }
        Ok(AccessOperation::Index(try_into_expression(inner)?))
    } else if node.as_rule() == WdlRule::field {
        let inner = node.one_inner()?;
        Ok(AccessOperation::Field(inner.pair.text.clone()))
    } else {
        Err(ModelError::parser(owned("Invalid access operation")))
    }
}

/// An access operation, anchored to the span of its inner match.
pub fn try_into_access_operation_anchor(node: PestNode) -> (res: Result<
    Anchor<AccessOperation>,
    ModelError,
>)
    ensures
        res is Ok <==> access_operation_anchor_ok(*node.pair),
        res matches Ok(x) ==> access_operation_anchor_of(*node.pair, x),
    decreases node.pair, 3nat, 0int,
{
    proof {
        lemma_vpos(*node.pair, 0);
    }
    if node.as_rule() == WdlRule::index {
        let inner = node.one_inner()?;
        let inner_span = inner.as_span();
        proof {
            assert(decreases_to!(node.pair => node.pair.children@[vpos(*node.pair, 0)]));
        }
        Ok(Anchor::new(AccessOperation::Index(try_into_expression(inner)?), inner_span))
    } else if node.as_rule() == WdlRule::field {
        let inner = node.one_inner()?;
        let inner_span = inner.as_span();
        Ok(Anchor::new(AccessOperation::Field(inner.pair.text.clone()), inner_span))
    } else {
        Err(ModelError::parser(owned("Invalid access operation")))
    }
}

/// A ternary expression: its condition and its two branches.
pub fn try_into_ternary(node: PestNode) -> (res: Result<Ternary, ModelError>)
    ensures
        res is Ok <==> ternary_ok(*node.pair),
        res matches Ok(x) ==> ternary_of(*node.pair, x),
    decreases node.pair, 3nat, 0int,
{
    let n = node.pair;
    proof {
        lemma_vpos(*n, 0);
        lemma_vpos(*n, 1);
        lemma_vpos(*n, 2);
    }
    let mut inner = node.into_inner();
    let condition_node = inner.next_node()?;
    let true_node = inner.next_node()?;
    let false_node = inner.next_node()?;
    proof {
        assert(decreases_to!(n => n.children@[vpos(*n, 0)]));
        assert(decreases_to!(n => n.children@[vpos(*n, 1)]));
        assert(decreases_to!(n => n.children@[vpos(*n, 2)]));
    }
    let condition = try_into_expression_anchor(condition_node)?;
    let true_branch = try_into_expression_anchor(true_node)?;
    let false_branch = try_into_expression_anchor(false_node)?;
    Ok(
        Ternary {
            condition: Box::new(condition),
            true_branch: Box::new(true_branch),
            false_branch: Box::new(false_branch),
        },
    )
}

/// A unary operation: the operator `first`, applied to the expression `second`.
fn try_into_unary(first: PestNode, second: PestNode) -> (res: Result<Expression, ModelError>)
    ensures
        res is Ok <==> unary_operator_of_rule(first.pair.rule) is Some && expr_anchor_ok(
            *second.pair,
        ),
        res matches Ok(e) ==> e matches Expression::Unary(u) && unary_operator_of_rule(
            first.pair.rule,
        ) == Some(u.operator) && expr_anchor_of(*second.pair, *u.expression),
    decreases second.pair, 6nat, 0int,
{
    let operator = try_into_unary_operator(first)?;
    let expression = try_into_expression_anchor(second)?;
    Ok(Expression::Unary(Unary { operator, expression: Box::new(expression) }))
}

/// A chain of binary operations, left to right: `first`, then the operators and operands that
/// `rest` holds. The operations group to the left.
fn try_into_binary<'a>(first: PestNode<'a>, rest: PestNodes<'a>) -> (res: Result<
    Expression,
    ModelError,
>)
    requires
        1 <= rest.index <= rest.pairs@.len(),
        *first.pair == rest.pairs@[rest.index - 1],
    ensures
        res is Ok <==> expr_anchor_ok(*first.pair) && chain_ok(rest.pairs@, rest.index as int),
        res matches Ok(e) ==> e matches Expression::Binary(b) && chain_of(
            rest.pairs@,
            rest.index - 1,
            prev_visible(rest.pairs@, rest.pairs@.len() as int) + 1,
            b,
        ),
    decreases rest.pairs@, 3nat, 0int,
{
    let ghost cs = rest.pairs@;
    let ghost f: int = rest.index - 1;
    let mut nodes = rest;
    proof {
        lemma_next_visible(cs, f + 1);
    }
    let op_node = nodes.next_node()?;
    let ghost o: int = nodes.index - 1;
    proof {
        lemma_next_visible(cs, o + 1);
    }
    let operator = try_into_binary_operator(op_node)?;
    proof {
        assert(decreases_to!(rest.pairs@ => rest.pairs@[f]));
    }
    let left = try_into_expression_anchor(first)?;
    let right_node = nodes.next_node()?;
    let ghost e: int = nodes.index - 1;
    proof {
        assert(decreases_to!(rest.pairs@ => rest.pairs@[e]));
    }
    let right = try_into_expression_anchor(right_node)?;
    let mut bin = Binary { operator, left: Box::new(left), right: Box::new(right) };
    proof {
        lemma_prev_visible_at(cs, o, e);
        assert(chain_of(cs, f, e + 1, bin));
    }
    loop
        invariant
            nodes.pairs == rest.pairs,
            cs == rest.pairs@,
            f == rest.index - 1,
            *first.pair == cs[f],
            0 <= f < nodes.index - 1,
            nodes.index <= cs.len(),
            next_visible(cs, f + 1) < nodes.index - 1,
            !hidden(cs[nodes.index - 1]),
            chain_of(cs, f, nodes.index as int, bin),
            chain_ok(cs, f + 1) == (next_visible(cs, nodes.index as int) < cs.len() ==> chain_ok(
                cs,
                nodes.index as int,
            )),
            expr_anchor_ok(cs[f]),
        decreases cs.len() - nodes.index,
    {
        let ghost c: int = nodes.index as int;
        proof {
            lemma_next_visible(cs, c);
        }
        match nodes.next() {
            None => {
                proof {
                    lemma_prev_visible_at(cs, c - 1, cs.len() as int);
                }
                return Ok(Expression::Binary(bin));
            },
            Some(op_node) => {
                let ghost o: int = nodes.index - 1;
                proof {
                    lemma_next_visible(cs, o + 1);
                }
                let operator = try_into_binary_operator(op_node)?;
                let right_node = nodes.next_node()?;
                let ghost e: int = nodes.index - 1;
                proof {
                    assert(decreases_to!(rest.pairs@ => rest.pairs@[e]));
                }
                let right = try_into_expression_anchor(right_node)?;
                let span = Span::from_range(&bin.left.span, &bin.right.span);
                bin =
                Binary {
                    operator,
                    left: Box::new(Anchor::new(Expression::Binary(bin), span)),
                    right: Box::new(right),
                };
                proof {
                    lemma_prev_visible_at(cs, o, e);
                    lemma_prev_visible_at(cs, c - 1, o);
                    assert(chain_of(cs, f, e + 1, bin));
                }
            },
        }
    }
}

/// An access: the collection `first`, then the access operations that `rest` holds.
fn try_into_access<'a>(first: PestNode<'a>, rest: PestNodes<'a>) -> (res: Result<
    Expression,
    ModelError,
>)
    requires
        1 <= rest.index <= rest.pairs@.len(),
        *first.pair == rest.pairs@[rest.index - 1],
    ensures
        res is Ok <==> expr_anchor_ok(*first.pair) && access_operations_ok(
            rest.pairs@,
            rest.index as int,
        ),
        res matches Ok(e) ==> e matches Expression::Access(x) && expr_anchor_of(
            *first.pair,
            *x.collection,
        ) && access_operations_of(rest.pairs@, rest.index as int, x.accesses@),
    decreases rest.pairs@, 3nat, 0int,
{
    proof {
        assert(decreases_to!(rest.pairs@ => rest.pairs@[rest.index - 1]));
    }
    let collection = try_into_expression_anchor(first)?;
    let accesses = collect_access_operations(rest)?;
    Ok(Expression::Access(Access { collection: Box::new(collection), accesses }))
}

/// Builds an expression together with its span. The span of an operation is taken from its
/// operands, as the match of an operation also spans the whitespace that follows it; a ternary
/// expression runs from the start of its match to the end of its last branch.
pub fn try_into_expression_anchor(node: PestNode) -> (res: Result<Anchor<Expression>, ModelError>)
    ensures
        res is Ok <==> expr_anchor_ok(*node.pair),
        res matches Ok(a) ==> expr_anchor_of(*node.pair, a),
    decreases node.pair, 5nat, 0int,
{
    let n = node.pair;
    proof {
        lemma_vpos(*n, 0);
        lemma_vpos(*n, 1);
    }
    let rule = node.as_rule();
    if rule == WdlRule::expression {
        let inner = node.one_inner()?;
        proof {
            assert(decreases_to!(n => n.children@[vpos(*n, 0)]));
        }
        try_into_expression_anchor(inner)
    } else if rule == WdlRule::ternary {
        let outer_span = node.as_span();
        let expression = try_into_expression(node)?;
        let inner_span = expression.get_inner_span().unwrap();
        Ok(Anchor::new(expression, Span::from_range(&outer_span, &inner_span)))
    } else if is_binary_level(rule) {
        let mut inner = node.into_inner();
        let first = inner.next_node()?;
        if inner.peek_rule().is_some() {
            let binary = match try_into_binary(first, inner) {
                Ok(b) => b,
                Err(e) => {
                    assert(!binary_ok(*n));
                    return Err(e);
                },
            };
            assert(binary_ok(*n) && binary_of(*n, binary));
            let span = binary.get_inner_span().unwrap();
            Ok(Anchor::new(binary, span))
        } else {
            proof {
                assert(decreases_to!(n => n.children@[vpos(*n, 0)]));
            }
            try_into_expression_anchor(first)
        }
    } else if rule == WdlRule::unary {
        let mut inner = node.into_inner();
        let first = inner.next_node()?;
        if inner.peek_rule().is_some() {
            let second = match inner.next_node() {
                Ok(x) => x,
                Err(e) => {
                    assert(!unary_ok(*n));
                    return Err(e);
                },
            };
            proof {
                assert(decreases_to!(n => n.children@[vpos(*n, 1)]));
            }
            let unary = match try_into_unary(first, second) {
                Ok(u) => u,
                Err(e) => {
                    assert(!unary_ok(*n));
                    return Err(e);
                },
            };
            assert(unary_ok(*n) && unary_of(*n, unary));
            let span = unary.get_inner_span().unwrap();
            Ok(Anchor::new(unary, span))
        } else {
            proof {
                assert(decreases_to!(n => n.children@[vpos(*n, 0)]));
            }
            try_into_expression_anchor(first)
        }
    } else if rule == WdlRule::access {
        let mut inner = node.into_inner();
        let first = inner.next_node()?;
        if inner.peek_rule().is_some() {
            let access = match try_into_access(first, inner) {
                Ok(a) => a,
                Err(e) => {
                    assert(!access_ok(*n));
                    return Err(e);
                },
            };
            assert(access_ok(*n) && access_of(*n, access));
            let has_operations = match &access {
                Expression::Access(x) => x.accesses.len() > 0,
                _ => false,
            };
            if !has_operations {
                return Err(ModelError::parser(owned("An access has no operation")));
            }
            let span = access.get_inner_span().unwrap();
            Ok(Anchor::new(access, span))
        } else {
            proof {
                assert(decreases_to!(n => n.children@[vpos(*n, 0)]));
            }
            try_into_expression_anchor(first)
        }
    } else {
        let span = node.as_span();
        let expression = try_into_expression(node)?;
        Ok(Anchor::new(expression, span))
    }
}

/// Builds an expression.
pub fn try_into_expression(node: PestNode) -> (res: Result<Expression, ModelError>)
    ensures
        res is Ok <==> expression_ok(*node.pair),
        res matches Ok(e) ==> expression_of(*node.pair, e),
    decreases node.pair, 4nat, 0int,
{
    let n = node.pair;
    proof {
        lemma_vpos(*n, 0);
        lemma_vpos(*n, 1);
    }
    let rule = node.as_rule();
    if rule == WdlRule::expression {
        let inner = node.one_inner()?;
        proof {
            assert(decreases_to!(n => n.children@[vpos(*n, 0)]));
        }
        try_into_expression(inner)
    } else if rule == WdlRule::group {
        let inner = node.one_inner()?;
        let span = inner.as_span();
        proof {
            assert(decreases_to!(n => n.children@[vpos(*n, 0)]));
        }
        let expression = try_into_expression(inner)?;
        Ok(Expression::Group(Box::new(Anchor::new(expression, span))))
    } else if rule == WdlRule::ternary {
        Ok(Expression::Ternary(try_into_ternary(node)?))
    } else if is_binary_level(rule) {
        let mut inner = node.into_inner();
        let first = inner.next_node()?;
        if inner.peek_rule().is_some() {
            let res = try_into_binary(first, inner);
            assert(res is Ok <==> binary_ok(*n));
            assert(res matches Ok(e) ==> binary_of(*n, e));
            res
        } else {
            proof {
                assert(decreases_to!(n => n.children@[vpos(*n, 0)]));
            }
            try_into_expression(first)
        }
    } else if rule == WdlRule::unary {
        let mut inner = node.into_inner();
        let first = inner.next_node()?;
        if inner.peek_rule().is_some() {
            let second = match inner.next_node() {
                Ok(x) => x,
                Err(e) => {
                    assert(!unary_ok(*n));
                    return Err(e);
                },
            };
            proof {
                assert(decreases_to!(n => n.children@[vpos(*n, 1)]));
            }
            let res = try_into_unary(first, second);
            assert(res is Ok <==> unary_ok(*n));
            assert(res matches Ok(e) ==> unary_of(*n, e));
            res
        } else {
            proof {
                assert(decreases_to!(n => n.children@[vpos(*n, 0)]));
            }
            try_into_expression(first)
        }
    } else if rule == WdlRule::access {
        let mut inner = node.into_inner();
        let first = inner.next_node()?;
        if inner.peek_rule().is_some() {
            let res = try_into_access(first, inner);
            assert(res is Ok <==> access_ok(*n));
            assert(res matches Ok(e) ==> access_of(*n, e));
            res
        } else {
            proof {
                assert(decreases_to!(n => n.children@[vpos(*n, 0)]));
            }
            try_into_expression(first)
        }
    } else {
        match rule {
            WdlRule::apply => Ok(Expression::Apply(try_into_apply(node)?)),
            WdlRule::none => Ok(Expression::NoneValue),
            WdlRule::boolean => Ok(Expression::Boolean(try_into_bool(node)?)),
            WdlRule::hex_int | WdlRule::oct_int | WdlRule::dec_int => Ok(
                Expression::Int(try_into_integer(node)?),
            ),
            WdlRule::float => Ok(Expression::Float(try_into_float(node)?)),
            WdlRule::dquote_string | WdlRule::squote_string => Ok(
                Expression::String(try_into_string_literal(node)?),
            ),
            WdlRule::array => Ok(Expression::Array(try_into_array_literal(node)?)),
            WdlRule::map => Ok(Expression::Mapping(try_into_map_literal(node)?)),
            WdlRule::pair => Ok(Expression::Pair(try_into_pair_literal(node)?)),
            WdlRule::object => Ok(Expression::Object(try_into_object_literal(node)?)),
            WdlRule::identifier => Ok(Expression::Identifier(node.pair.text.clone())),
            _ => Err(ModelError::parser(owned("Invalid expression"))),
        }
    }
}

} // verus!
