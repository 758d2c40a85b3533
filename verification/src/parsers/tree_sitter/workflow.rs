//! Building the parts of workflows that stand on their own from the nodes of the tree-sitter
//! syntax tree.
use crate::model::{
    Anchor, Call, CallInput, Conditional, Meta, ModelError, QualifiedIdentifier, Scatter, Workflow,
    WorkflowElement, WorkflowNestedElement,
};
use crate::parsers::tree_sitter::declarations::{
    bound_declaration_of_node, input_of_node, output_of_node, ts_bound_declaration_of, ts_input_of,
    ts_output_of,
};
use crate::parsers::tree_sitter::meta::{try_into_meta, try_into_parameter_meta, ts_meta_section_of};
use crate::parsers::tree_sitter::document::text_anchor;
use crate::parsers::tree_sitter::expressions::{try_into_expression, ts_expression_of};
use crate::parsers::tree_sitter::node::{
    parser_error,
    block_items, is_field, is_terminal, item, items, lemma_rem_block_range, lemma_rem_next_range,
    rem_block, rem_next, BlockDelim, BlockEnds, TSNode, TSNodeIterator,
};
use crate::parsers::tree_sitter::syntax::{fields, keywords, rules, symbols};
use crate::parsers::tree_sitter::tree::TsSyntaxNode;
use crate::text::{owned, str_eq};
use vstd::prelude::*;

verus! {

/// Each of the nodes `ns` has its text.
pub open spec fn texts_ok(ns: Seq<TsSyntaxNode>) -> bool {
    forall|k: int| 0 <= k < ns.len() ==> (#[trigger] ns[k]).text is Some
}

/// The texts of the nodes `ns`, each anchored to its node's span.
pub open spec fn text_anchors_of(ns: Seq<TsSyntaxNode>) -> Seq<Anchor<String>> {
    ns.map_values(|c: TsSyntaxNode| text_anchor(c))
}

/// The texts of the items left in `nodes`, each anchored to its span; an error when the block
/// is malformed or the text of an item is not valid UTF-8.
pub fn collect_text_anchors(nodes: TSNodeIterator) -> (res: Result<Vec<Anchor<String>>, ModelError>)
    requires
        nodes.wf(),
    ensures
        res is Ok <==> nodes.remaining().1 && texts_ok(nodes.pending()),
        res matches Ok(v) ==> v@ == text_anchors_of(nodes.pending()),
{
    let ghost r = nodes.remaining();
    let ghost ns = nodes.pending();
    let ghost cs = nodes.children@;
    let mut it = nodes;
    let mut v: Vec<Anchor<String>> = Vec::new();
    loop
        invariant
            it.wf(),
            it.children@ == cs,
            r == nodes.remaining(),
            ns == nodes.pending(),
            cs == nodes.children@,
            v@.len() <= r.0.len(),
            it.remaining() == (r.0.skip(v@.len() as int), r.1),
            forall|k: int| 0 <= k < v@.len() ==> (#[trigger] ns[k]).text is Some,
            forall|k: int| 0 <= k < v@.len() ==> #[trigger] v@[k] == text_anchor(ns[k]),
        ensures
            r.1,
            v@.len() == r.0.len(),
            forall|k: int| 0 <= k < v@.len() ==> (#[trigger] ns[k]).text is Some,
            forall|k: int| 0 <= k < v@.len() ==> #[trigger] v@[k] == text_anchor(ns[k]),
        decreases r.0.len() - v@.len(),
    {
        let ghost len = v@.len() as int;
        proof {
            if len < r.0.len() {
                assert(it.peek() == Some(ns[len]));
                assert(r.0.skip(len).drop_first() =~= r.0.skip(len + 1));
            } else {
                assert(it.remaining().0.len() == 0);
            }
        }
        match it.next() {
            Some(Ok(t)) => {
                match t.try_into_text_anchor() {
                    Ok(a) => v.push(a),
                    Err(e) => {
                        assert(!texts_ok(ns)) by {
                            assert(ns[len].text is None);
                        }
                        return Err(e);
                    },
                }
            },
            Some(Err(e)) => {
                return Err(e);
            },
            None => {
                break ;
            },
        }
    }
    proof {
        assert(v@ =~= text_anchors_of(ns));
    }
    Ok(v)
}

/// A qualified identifier: its names, separated by dots, each anchored to its span.
pub fn try_into_qualified_identifier(node: TSNode) -> (res: Result<QualifiedIdentifier, ModelError>)
    ensures
        res is Ok <==> rem_block(node.node.children@, BlockEnds::NoEnds, BlockDelim::Dot).1
            && texts_ok(block_items(*node.node, BlockEnds::NoEnds, BlockDelim::Dot)),
        res matches Ok(q) ==> q.parts@ == text_anchors_of(
            block_items(*node.node, BlockEnds::NoEnds, BlockDelim::Dot),
        ),
{
    let parts = collect_text_anchors(node.into_block(BlockEnds::NoEnds, BlockDelim::Dot))?;
    Ok(QualifiedIdentifier { parts })
}

/// `q` is the qualified identifier built from the node `n`: its names, separated by dots,
/// each anchored to its span.
pub open spec fn ts_qualified_identifier_of(n: TsSyntaxNode, q: QualifiedIdentifier) -> bool {
    &&& rem_block(n.children@, BlockEnds::NoEnds, BlockDelim::Dot).1
    &&& texts_ok(block_items(n, BlockEnds::NoEnds, BlockDelim::Dot))
    &&& q.parts@ == text_anchors_of(block_items(n, BlockEnds::NoEnds, BlockDelim::Dot))
}

/// `x` is the input of a call built from the node `n`: a name, then, where `=` follows, an
/// expression.
pub open spec fn ts_call_input_of(n: TsSyntaxNode, x: CallInput) -> bool {
    let r = items(n);
    &&& r.1 && r.0.len() >= 1 && is_field(item(n, 0), fields::NAME@)
    &&& item(n, 0).text matches Some(t) && x.name == (Anchor { element: t, span: item(n, 0).span })
    &&& if r.0.len() >= 2 {
        &&& is_terminal(item(n, 1), symbols::ASSIGN@) && r.0.len() >= 3
        &&& is_field(item(n, 2), fields::EXPRESSION@)
        &&& x.expression matches Some(a) && a.span == item(n, 2).span && ts_expression_of(item(n, 2), a.element)
    } else {
        x.expression is None
    }
}

/// What remains of the block of the children `cs` in braces once `input` and `:` are read:
/// the inputs, separated by commas.
pub open spec fn rest_of_inputs(cs: Seq<TsSyntaxNode>) -> (Seq<int>, bool) {
    rem_next(cs, rem_block(cs, BlockEnds::Braces, BlockDelim::NoDelim).0[1], BlockEnds::Braces, BlockDelim::Comma, false)
}

/// `v` holds the inputs of a call built from the node `m`: a block in braces that is empty, or
/// holds `input`, `:` and the inputs, separated by commas, each anchored to its node's span.
pub open spec fn ts_call_inputs_of(m: TsSyntaxNode, v: Seq<Anchor<CallInput>>) -> bool {
    let cs = m.children@;
    let rb = rem_block(cs, BlockEnds::Braces, BlockDelim::NoDelim);
    if rb.0.len() == 0 {
        rb.1 && v.len() == 0
    } else {
        let rest = rest_of_inputs(cs);
        &&& is_terminal(cs[rb.0[0]], keywords::INPUT@) && rb.0.len() >= 2
        &&& is_terminal(cs[rb.0[1]], symbols::COLON@)
        &&& rest.1 && v.len() == rest.0.len()
        &&& forall|k: int|
            0 <= k < rest.0.len() ==> (#[trigger] v[k]).span == cs[rest.0[k]].span && ts_call_input_of(
                cs[rest.0[k]],
                v[k].element,
            )
    }
}

/// The name an alias of a call gives, anchored to its span, built from the node `n`: `as`,
/// then the name.
pub open spec fn ts_call_alias_of(n: TsSyntaxNode, a: Anchor<String>) -> bool {
    let r = items(n);
    &&& r.1 && r.0.len() >= 2 && is_terminal(item(n, 0), keywords::AS@)
    &&& is_field(item(n, 1), fields::NAME@)
    &&& item(n, 1).text matches Some(t) && a == (Anchor { element: t, span: item(n, 1).span })
}

/// `c` is the call built from the node `n`: `call`, the qualified name of its target, then an
/// alias and its inputs where the next items fill those fields; an item after the target
/// that fills no field ends the call there.
pub open spec fn ts_call_of(n: TsSyntaxNode, c: Call) -> bool {
    let r = items(n);
    &&& r.1 && r.0.len() >= 2 && is_terminal(item(n, 0), keywords::CALL@)
    &&& is_field(item(n, 1), fields::TARGET@) && c.target.span == item(n, 1).span
    &&& ts_qualified_identifier_of(item(n, 1), c.target.element)
    &&& if r.0.len() < 3 || item(n, 2).field is None {
        c.alias is None && c.inputs is None
    } else if is_field(item(n, 2), fields::ALIAS@) {
        &&& c.alias matches Some(a) && ts_call_alias_of(item(n, 2), a)
        &&& if r.0.len() >= 4 {
            &&& is_field(item(n, 3), fields::INPUTS@)
            &&& c.inputs matches Some(v) && ts_call_inputs_of(item(n, 3), v@)
        } else {
            c.inputs is None
        }
    } else {
        &&& is_field(item(n, 2), fields::INPUTS@) && c.alias is None
        &&& c.inputs matches Some(v) && ts_call_inputs_of(item(n, 2), v@)
    }
}

/// The input of a call built from a node: a name, then, where `=` follows, an expression.
pub fn try_into_call_input(node: TSNode) -> (res: Result<CallInput, ModelError>)
    ensures
        res matches Ok(x) ==> ts_call_input_of(*node.node, x),
        res is Err ==> forall|x: CallInput| !ts_call_input_of(*node.node, x),
{
    let ghost n = *node.node;
    let mut children = node.into_children();
    let name = children.next_field(fields::NAME)?.try_into_text_anchor()?;
    let expression = if children.skip_optional_last(symbols::ASSIGN)? {
        let x = children.next_field(fields::EXPRESSION)?;
        let span = x.as_span();
        proof {
            assert(*x.node == item(n, 2));
        }
        match try_into_expression(x) {
            Ok(e) => Some(Anchor::new(e, span)),
            Err(e) => {
                proof {
                    assert forall|y: CallInput| !ts_call_input_of(n, y) by {
                        if let Some(a) = y.expression {
                            assert(!ts_expression_of(item(n, 2), a.element));
                        }
                    }
                }
                return Err(e);
            },
        }
    } else {
        None
    };
    children.drain(false)?;
    Ok(CallInput { name, expression })
}

/// The inputs of a call built from the node `m`: a block in braces that is empty, or holds
/// `input`, `:` and the inputs, separated by commas.
fn call_inputs_of_node(m: &TsSyntaxNode) -> (res: Result<Vec<Anchor<CallInput>>, ModelError>)
    ensures
        res matches Ok(v) ==> ts_call_inputs_of(*m, v@),
        res is Err ==> forall|v: Seq<Anchor<CallInput>>| !ts_call_inputs_of(*m, v),
{
    let ghost cs = m.children@;
    let ghost rb = rem_block(cs, BlockEnds::Braces, BlockDelim::NoDelim);
    proof {
        lemma_rem_block_range(cs, BlockEnds::Braces, BlockDelim::NoDelim);
    }
    let mut it = TSNode::from_cursor(m).into_block(BlockEnds::Braces, BlockDelim::NoDelim);
    if !it.skip_optional_last(keywords::INPUT)? {
        return Ok(Vec::new());
    }
    it.skip_terminal(symbols::COLON)?;
    proof {
        assert(rb.0.drop_first()[0] == rb.0[1]);
    }
    it.set_delim(BlockDelim::Comma)?;
    let ghost r = it.remaining();
    proof {
        assert(r == rest_of_inputs(cs));
        lemma_rem_next_range(cs, rb.0[1], BlockEnds::Braces, BlockDelim::Comma, false);
    }
    let mut v: Vec<Anchor<CallInput>> = Vec::new();
    loop
        invariant
            it.wf(),
            it.children@ == cs,
            cs == m.children@,
            r == rest_of_inputs(cs),
            rb == rem_block(cs, BlockEnds::Braces, BlockDelim::NoDelim),
            rb.0.len() >= 2,
            is_terminal(cs[rb.0[0]], keywords::INPUT@),
            is_terminal(cs[rb.0[1]], symbols::COLON@),
            forall|k: int| 0 <= k < r.0.len() ==> 0 <= #[trigger] r.0[k] < cs.len(),
            v@.len() <= r.0.len(),
            it.remaining() == (r.0.skip(v@.len() as int), r.1),
            forall|k: int|
                0 <= k < v@.len() ==> (#[trigger] v@[k]).span == cs[r.0[k]].span && ts_call_input_of(
                    cs[r.0[k]],
                    v@[k].element,
                ),
        ensures
            r.1,
            v@.len() == r.0.len(),
            forall|k: int|
                0 <= k < v@.len() ==> (#[trigger] v@[k]).span == cs[r.0[k]].span && ts_call_input_of(
                    cs[r.0[k]],
                    v@[k].element,
                ),
        decreases r.0.len() - v@.len(),
    {
        let ghost len = v@.len() as int;
        proof {
            if len < r.0.len() {
                assert(r.0.skip(len)[0] == r.0[len]);
                assert(r.0.skip(len).drop_first() =~= r.0.skip(len + 1));
            }
        }
        match it.next() {
            Some(Ok(t)) => {
                proof {
                    assert(*t.node == cs[r.0[len]]);
                }
                let span = t.as_span();
                match try_into_call_input(t) {
                    Ok(x) => v.push(Anchor::new(x, span)),
                    Err(e) => {
                        proof {
                            assert forall|w: Seq<Anchor<CallInput>>| !ts_call_inputs_of(*m, w) by {
                                if ts_call_inputs_of(*m, w) {
                                    assert(w[len].span == cs[r.0[len]].span);
                                    assert(!ts_call_input_of(cs[r.0[len]], w[len].element));
                                }
                            }
                        }
                        return Err(e);
                    },
                }
            },
            Some(Err(e)) => {
                return Err(e);
            },
            None => {
                break ;
            },
        }
    }
    Ok(v)
}

/// The name an alias of a call gives, anchored to its span: `as`, then the name.
fn call_alias_of_node(n: &TsSyntaxNode) -> (res: Result<Anchor<String>, ModelError>)
    ensures
        res matches Ok(a) ==> ts_call_alias_of(*n, a),
        res is Err ==> forall|a: Anchor<String>| !ts_call_alias_of(*n, a),
{
    let mut children = TSNode::from_cursor(n).into_children();
    children.skip_terminal(keywords::AS)?;
    let name = children.next_field(fields::NAME)?.try_into_text_anchor()?;
    children.drain(false)?;
    Ok(name)
}

/// The call built from a node: `call`, the qualified name of its target, then an alias and
/// its inputs where the next items fill those fields.
pub fn try_into_call(node: TSNode) -> (res: Result<Call, ModelError>)
    ensures
        res is Ok <==> exists|c: Call| ts_call_of(*node.node, c),
        res matches Ok(c) ==> ts_call_of(*node.node, c),
{
    let ghost n = *node.node;
    let ghost r = items(n);
    proof {
        lemma_rem_block_range(n.children@, BlockEnds::NoEnds, BlockDelim::NoDelim);
    }
    let mut children = node.into_children();
    children.skip_terminal(keywords::CALL)?;
    let t = children.next_field(fields::TARGET)?;
    let span = t.as_span();
    proof {
        assert(*t.node == item(n, 1));
    }
    let target = Anchor::new(try_into_qualified_identifier(t)?, span);
    proof {
        if r.0.len() > 2 {
            assert(r.0.skip(2)[0] == r.0[2]);
        }
    }
    let next = match children.next() {
        Some(Ok(x)) => Some(x),
        Some(Err(e)) => {
            return Err(e);
        },
        None => None,
    };
    let next_field = match &next {
        Some(x) => x.get_field(),
        None => None,
    };
    let (alias, inputs_node) = match next_field {
        None => (None, None),
        Some(f) => {
            let x = next.unwrap();
            proof {
                assert(*x.node == item(n, 2));
            }
            if str_eq(f, fields::ALIAS) {
                let a = match call_alias_of_node(x.node) {
                    Ok(a) => a,
                    Err(e) => {
                        proof {
                            assert forall|c: Call| !ts_call_of(n, c) by {
                                if let Some(a) = c.alias {
                                    assert(!ts_call_alias_of(item(n, 2), a));
                                }
                            }
                        }
                        return Err(e);
                    },
                };
                proof {
                    if r.0.len() > 3 {
                        assert(r.0.skip(3)[0] == r.0[3]);
                    }
                }
                (Some(a), children.get_next_field(fields::INPUTS)?)
            } else if str_eq(f, fields::INPUTS) {
                (None, Some(x))
            } else {
                return Err(ModelError::parser(owned("Invalid call field")));
            }
        },
    };
    let inputs = match inputs_node {
        Some(x) => {
            let ghost k: int = if alias is Some { 3 } else { 2 };
            proof {
                assert(*x.node == item(n, k));
            }
            match call_inputs_of_node(x.node) {
                Ok(v) => Some(v),
                Err(e) => {
                    proof {
                        assert forall|c: Call| !ts_call_of(n, c) by {
                            if let Some(v) = c.inputs {
                                assert(!ts_call_inputs_of(item(n, k), v@));
                            }
                        }
                    }
                    return Err(e);
                },
            }
        },
        None => None,
    };
    children.drain(false)?;
    let c = Call { target, alias, inputs };
    proof {
        assert(ts_call_of(n, c));
    }
    Ok(c)
}

/// `e` is the element of a scatter or conditional block built from the node `n`, by the kind
/// of `n`.
pub open spec fn ts_nested_element_of(n: TsSyntaxNode, e: WorkflowNestedElement) -> bool
    decreases n, 1nat,
{
    let k = n.kind@;
    if k == rules::BOUND_DECLARATION@ {
        e matches WorkflowNestedElement::Declaration(x) && ts_bound_declaration_of(n, x)
    } else if k == rules::CALL@ {
        e matches WorkflowNestedElement::Call(x) && ts_call_of(n, x)
    } else if k == rules::SCATTER@ {
        e matches WorkflowNestedElement::Scatter(x) && ts_scatter_of(n, x)
    } else if k == rules::CONDITIONAL@ {
        e matches WorkflowNestedElement::Conditional(x) && ts_conditional_of(n, x)
    } else {
        false
    }
}

/// `x` is the scatter built from the node `n`: `scatter`, `(`, a name, `in`, an expression,
/// `)`, then its elements in braces.
pub open spec fn ts_scatter_of(n: TsSyntaxNode, x: Scatter) -> bool
    decreases n, 0nat,
{
    proof {
        lemma_rem_block_range(n.children@, BlockEnds::NoEnds, BlockDelim::NoDelim);
    }
    let r = items(n);
    &&& r.1 && r.0.len() >= 7 && is_terminal(item(n, 0), keywords::SCATTER@)
    &&& is_terminal(item(n, 1), symbols::LPAREN@) && is_field(item(n, 2), fields::NAME@)
    &&& item(n, 2).text matches Some(t) && x.name == (Anchor { element: t, span: item(n, 2).span })
    &&& is_terminal(item(n, 3), keywords::IN@) && is_field(item(n, 4), fields::EXPRESSION@)
    &&& x.expression.span == item(n, 4).span && ts_expression_of(item(n, 4), x.expression.element)
    &&& is_terminal(item(n, 5), symbols::RPAREN@) && is_field(item(n, 6), fields::BODY@)
    &&& ts_nested_elements_of(item(n, 6), x.body@)
}

/// `x` is the conditional built from the node `n`: `if`, `(`, an expression, `)`, then its
/// elements in braces.
pub open spec fn ts_conditional_of(n: TsSyntaxNode, x: Conditional) -> bool
    decreases n, 0nat,
{
    proof {
        lemma_rem_block_range(n.children@, BlockEnds::NoEnds, BlockDelim::NoDelim);
    }
    let r = items(n);
    &&& r.1 && r.0.len() >= 5 && is_terminal(item(n, 0), keywords::IF@)
    &&& is_terminal(item(n, 1), symbols::LPAREN@) && is_field(item(n, 2), fields::EXPRESSION@)
    &&& x.expression.span == item(n, 2).span && ts_expression_of(item(n, 2), x.expression.element)
    &&& is_terminal(item(n, 3), symbols::RPAREN@) && is_field(item(n, 4), fields::BODY@)
    &&& ts_nested_elements_of(item(n, 4), x.body@)
}

/// `v` holds the elements of a scatter or conditional block built from the items of the block
/// of `m` in braces, each anchored to its node's span.
pub open spec fn ts_nested_elements_of(m: TsSyntaxNode, v: Seq<Anchor<WorkflowNestedElement>>) -> bool
    decreases m, 0nat,
{
    proof {
        lemma_rem_block_range(m.children@, BlockEnds::Braces, BlockDelim::NoDelim);
    }
    let r = rem_block(m.children@, BlockEnds::Braces, BlockDelim::NoDelim);
    &&& r.1 && v.len() == r.0.len()
    &&& forall|k: int|
        0 <= k < r.0.len() ==> (#[trigger] v[k]).span == m.children@[r.0[k]].span
            && ts_nested_element_of(m.children@[r.0[k]], v[k].element)
}

/// The element of a scatter or conditional block built from `n`, by its kind.
fn nested_element_of_node(n: &TsSyntaxNode) -> (res: Result<WorkflowNestedElement, ModelError>)
    ensures
        res matches Ok(x) ==> ts_nested_element_of(*n, x),
        res is Err ==> forall|x: WorkflowNestedElement| !ts_nested_element_of(*n, x),
    decreases n, 2nat,
{
    let kind = n.kind.as_str();
    if str_eq(kind, rules::BOUND_DECLARATION) {
        match bound_declaration_of_node(n) {
            Ok(x) => Ok(WorkflowNestedElement::Declaration(x)),
            Err(e) => {
                proof {
                    assert forall|y: WorkflowNestedElement| !ts_nested_element_of(*n, y) by {
                        if let WorkflowNestedElement::Declaration(x) = y {
                            assert(!ts_bound_declaration_of(*n, x));
                        }
                    }
                }
                Err(e)
            },
        }
    } else if str_eq(kind, rules::CALL) {
        match try_into_call(TSNode::from_cursor(n)) {
            Ok(x) => Ok(WorkflowNestedElement::Call(x)),
            Err(e) => {
                proof {
                    assert forall|y: WorkflowNestedElement| !ts_nested_element_of(*n, y) by {
                        if let WorkflowNestedElement::Call(x) = y {
                            assert(!ts_call_of(*n, x));
                        }
                    }
                }
                Err(e)
            },
        }
    } else if str_eq(kind, rules::SCATTER) {
        match scatter_of_node(n) {
            Ok(x) => Ok(WorkflowNestedElement::Scatter(x)),
            Err(e) => {
                proof {
                    assert forall|y: WorkflowNestedElement| !ts_nested_element_of(*n, y) by {
                        if let WorkflowNestedElement::Scatter(x) = y {
                            assert(!ts_scatter_of(*n, x));
                        }
                    }
                }
                Err(e)
            },
        }
    } else if str_eq(kind, rules::CONDITIONAL) {
        match conditional_of_node(n) {
            Ok(x) => Ok(WorkflowNestedElement::Conditional(x)),
            Err(e) => {
                proof {
                    assert forall|y: WorkflowNestedElement| !ts_nested_element_of(*n, y) by {
                        if let WorkflowNestedElement::Conditional(x) = y {
                            assert(!ts_conditional_of(*n, x));
                        }
                    }
                }
                Err(e)
            },
        }
    } else {
        Err(parser_error("Invalid scatter/conditional block element ", kind, "", ""))
    }
}

/// The scatter built from `n`: `scatter`, `(`, a name, `in`, an expression, `)`, then its
/// elements in braces.
fn scatter_of_node(n: &TsSyntaxNode) -> (res: Result<Scatter, ModelError>)
    ensures
        res matches Ok(x) ==> ts_scatter_of(*n, x),
        res is Err ==> forall|x: Scatter| !ts_scatter_of(*n, x),
    decreases n, 1nat,
{
    proof {
        lemma_rem_block_range(n.children@, BlockEnds::NoEnds, BlockDelim::NoDelim);
    }
    let mut children = TSNode::from_cursor(n).into_children();
    children.skip_terminal(keywords::SCATTER)?;
    children.skip_terminal(symbols::LPAREN)?;
    let name = children.next_field(fields::NAME)?.try_into_text_anchor()?;
    children.skip_terminal(keywords::IN)?;
    let x = children.next_field(fields::EXPRESSION)?;
    let span = x.as_span();
    proof {
        assert(*x.node == item(*n, 4));
    }
    let e = match try_into_expression(x) {
        Ok(e) => e,
        Err(e) => {
            proof {
                assert forall|y: Scatter| !ts_scatter_of(*n, y) by {
                    assert(!ts_expression_of(item(*n, 4), y.expression.element));
                }
            }
            return Err(e);
        },
    };
    children.skip_terminal(symbols::RPAREN)?;
    let list = children.next_field(fields::BODY)?;
    proof {
        assert(decreases_to!(n => n.children@[items(*n).0[6]]));
        assert(*list.node == item(*n, 6));
    }
    let body = match nested_elements_of_node(list.node) {
        Ok(v) => v,
        Err(e) => {
            proof {
                assert forall|y: Scatter| !ts_scatter_of(*n, y) by {
                    assert(!ts_nested_elements_of(item(*n, 6), y.body@));
                }
            }
            return Err(e);
        },
    };
    children.drain(false)?;
    Ok(Scatter { name, expression: Anchor::new(e, span), body })
}

/// The conditional built from `n`: `if`, `(`, an expression, `)`, then its elements in braces.
fn conditional_of_node(n: &TsSyntaxNode) -> (res: Result<Conditional, ModelError>)
    ensures
        res matches Ok(x) ==> ts_conditional_of(*n, x),
        res is Err ==> forall|x: Conditional| !ts_conditional_of(*n, x),
    decreases n, 1nat,
{
    proof {
        lemma_rem_block_range(n.children@, BlockEnds::NoEnds, BlockDelim::NoDelim);
    }
    let mut children = TSNode::from_cursor(n).into_children();
    children.skip_terminal(keywords::IF)?;
    children.skip_terminal(symbols::LPAREN)?;
    let x = children.next_field(fields::EXPRESSION)?;
    let span = x.as_span();
    proof {
        assert(*x.node == item(*n, 2));
    }
    let e = match try_into_expression(x) {
        Ok(e) => e,
        Err(e) => {
            proof {
                assert forall|y: Conditional| !ts_conditional_of(*n, y) by {
                    assert(!ts_expression_of(item(*n, 2), y.expression.element));
                }
            }
            return Err(e);
        },
    };
    children.skip_terminal(symbols::RPAREN)?;
    let list = children.next_field(fields::BODY)?;
    proof {
        assert(decreases_to!(n => n.children@[items(*n).0[4]]));
        assert(*list.node == item(*n, 4));
    }
    let body = match nested_elements_of_node(list.node) {
        Ok(v) => v,
        Err(e) => {
            proof {
                assert forall|y: Conditional| !ts_conditional_of(*n, y) by {
                    assert(!ts_nested_elements_of(item(*n, 4), y.body@));
                }
            }
            return Err(e);
        },
    };
    children.drain(false)?;
    Ok(Conditional { expression: Anchor::new(e, span), body })
}

/// The elements of a scatter or conditional block built from the items of the block of `m` in
/// braces.
fn nested_elements_of_node(m: &TsSyntaxNode) -> (res: Result<Vec<Anchor<WorkflowNestedElement>>, ModelError>)
    ensures
        res matches Ok(v) ==> ts_nested_elements_of(*m, v@),
        res is Err ==> forall|v: Seq<Anchor<WorkflowNestedElement>>| !ts_nested_elements_of(*m, v),
    decreases m, 1nat,
{
    proof {
        lemma_rem_block_range(m.children@, BlockEnds::Braces, BlockDelim::NoDelim);
    }
    let ghost cs = m.children@;
    let ghost r = rem_block(cs, BlockEnds::Braces, BlockDelim::NoDelim);
    let mut it = TSNode::from_cursor(m).into_block(BlockEnds::Braces, BlockDelim::NoDelim);
    let mut v: Vec<Anchor<WorkflowNestedElement>> = Vec::new();
    loop
        invariant
            it.wf(),
            it.children@ == cs,
            cs == m.children@,
            r == rem_block(cs, BlockEnds::Braces, BlockDelim::NoDelim),
            forall|k: int| 0 <= k < r.0.len() ==> 0 <= #[trigger] r.0[k] < cs.len(),
            v@.len() <= r.0.len(),
            it.remaining() == (r.0.skip(v@.len() as int), r.1),
            forall|k: int|
                0 <= k < v@.len() ==> (#[trigger] v@[k]).span == cs[r.0[k]].span && ts_nested_element_of(
                    cs[r.0[k]],
                    v@[k].element,
                ),
        ensures
            r.1,
            v@.len() == r.0.len(),
            forall|k: int|
                0 <= k < v@.len() ==> (#[trigger] v@[k]).span == cs[r.0[k]].span && ts_nested_element_of(
                    cs[r.0[k]],
                    v@[k].element,
                ),
        decreases r.0.len() - v@.len(),
    {
        let ghost len = v@.len() as int;
        proof {
            if len < r.0.len() {
                assert(r.0.skip(len)[0] == r.0[len]);
                assert(r.0.skip(len).drop_first() =~= r.0.skip(len + 1));
            }
        }
        match it.next() {
            Some(Ok(t)) => {
                proof {
                    assert(decreases_to!(m => m.children@[r.0[len]]));
                    assert(*t.node == cs[r.0[len]]);
                }
                let span = t.as_span();
                match nested_element_of_node(t.node) {
                    Ok(x) => v.push(Anchor::new(x, span)),
                    Err(e) => {
                        proof {
                            assert forall|w: Seq<Anchor<WorkflowNestedElement>>| !ts_nested_elements_of(*m, w) by {
                                if ts_nested_elements_of(*m, w) {
                                    assert(w[len].span == cs[r.0[len]].span);
                                    assert(!ts_nested_element_of(cs[r.0[len]], w[len].element));
                                }
                            }
                        }
                        return Err(e);
                    },
                }
            },
            Some(Err(e)) => {
                return Err(e);
            },
            None => {
                break ;
            },
        }
    }
    proof {
        assert(ts_nested_elements_of(*m, v@));
    }
    Ok(v)
}

/// `e` is the element of a workflow built from the node `n`, by the kind of `n`.
pub open spec fn ts_workflow_element_of(n: TsSyntaxNode, e: WorkflowElement) -> bool {
    let k = n.kind@;
    if k == rules::INPUT@ {
        e matches WorkflowElement::Input(x) && ts_input_of(n, x)
    } else if k == rules::OUTPUT@ {
        e matches WorkflowElement::Output(x) && ts_output_of(n, x)
    } else if k == rules::META@ {
        e matches WorkflowElement::Meta(x) && ts_meta_section_of(n, keywords::META@, x.attributes@)
    } else if k == rules::PARAMETER_META@ {
        e matches WorkflowElement::ParameterMeta(x) && ts_meta_section_of(
            n,
            keywords::PARAMETER_META@,
            x.attributes@,
        )
    } else if k == rules::BOUND_DECLARATION@ {
        e matches WorkflowElement::Declaration(x) && ts_bound_declaration_of(n, x)
    } else if k == rules::CALL@ {
        e matches WorkflowElement::Call(x) && ts_call_of(n, x)
    } else if k == rules::SCATTER@ {
        e matches WorkflowElement::Scatter(x) && ts_scatter_of(n, x)
    } else if k == rules::CONDITIONAL@ {
        e matches WorkflowElement::Conditional(x) && ts_conditional_of(n, x)
    } else {
        false
    }
}

/// The element of a workflow built from `n`, by its kind.
fn workflow_element_of_node(n: &TsSyntaxNode) -> (res: Result<WorkflowElement, ModelError>)
    ensures
        res matches Ok(x) ==> ts_workflow_element_of(*n, x),
        res is Err ==> forall|x: WorkflowElement| !ts_workflow_element_of(*n, x),
{
    let kind = n.kind.as_str();
    if str_eq(kind, rules::INPUT) {
        match input_of_node(n) {
            Ok(x) => Ok(WorkflowElement::Input(x)),
            Err(e) => {
                proof {
                    assert forall|y: WorkflowElement| !ts_workflow_element_of(*n, y) by {
                        if let WorkflowElement::Input(x) = y {
                            assert(!ts_input_of(*n, x));
                        }
                    }
                }
                Err(e)
            },
        }
    } else if str_eq(kind, rules::OUTPUT) {
        match output_of_node(n) {
            Ok(x) => Ok(WorkflowElement::Output(x)),
            Err(e) => {
                proof {
                    assert forall|y: WorkflowElement| !ts_workflow_element_of(*n, y) by {
                        if let WorkflowElement::Output(x) = y {
                            assert(!ts_output_of(*n, x));
                        }
                    }
                }
                Err(e)
            },
        }
    } else if str_eq(kind, rules::META) {
        match try_into_meta(TSNode::from_cursor(n)) {
            Ok(x) => Ok(WorkflowElement::Meta(x)),
            Err(e) => {
                proof {
                    assert forall|y: WorkflowElement| !ts_workflow_element_of(*n, y) by {
                        if let WorkflowElement::Meta(x) = y {
                            assert(!ts_meta_section_of(*n, keywords::META@, x.attributes@));
                        }
                    }
                }
                Err(e)
            },
        }
    } else if str_eq(kind, rules::PARAMETER_META) {
        match parameter_meta_of_node(n) {
            Ok(x) => Ok(WorkflowElement::ParameterMeta(x)),
            Err(e) => {
                proof {
                    assert forall|y: WorkflowElement| !ts_workflow_element_of(*n, y) by {
                        if let WorkflowElement::ParameterMeta(x) = y {
                            assert(!ts_meta_section_of(*n, keywords::PARAMETER_META@, x.attributes@));
                        }
                    }
                }
                Err(e)
            },
        }
    } else if str_eq(kind, rules::BOUND_DECLARATION) {
        match bound_declaration_of_node(n) {
            Ok(x) => Ok(WorkflowElement::Declaration(x)),
            Err(e) => {
                proof {
                    assert forall|y: WorkflowElement| !ts_workflow_element_of(*n, y) by {
                        if let WorkflowElement::Declaration(x) = y {
                            assert(!ts_bound_declaration_of(*n, x));
                        }
                    }
                }
                Err(e)
            },
        }
    } else if str_eq(kind, rules::CALL) {
        match try_into_call(TSNode::from_cursor(n)) {
            Ok(x) => Ok(WorkflowElement::Call(x)),
            Err(e) => {
                proof {
                    assert forall|y: WorkflowElement| !ts_workflow_element_of(*n, y) by {
                        if let WorkflowElement::Call(x) = y {
                            assert(!ts_call_of(*n, x));
                        }
                    }
                }
                Err(e)
            },
        }
    } else if str_eq(kind, rules::SCATTER) {
        match scatter_of_node(n) {
            Ok(x) => Ok(WorkflowElement::Scatter(x)),
            Err(e) => {
                proof {
                    assert forall|y: WorkflowElement| !ts_workflow_element_of(*n, y) by {
                        if let WorkflowElement::Scatter(x) = y {
                            assert(!ts_scatter_of(*n, x));
                        }
                    }
                }
                Err(e)
            },
        }
    } else if str_eq(kind, rules::CONDITIONAL) {
        match conditional_of_node(n) {
            Ok(x) => Ok(WorkflowElement::Conditional(x)),
            Err(e) => {
                proof {
                    assert forall|y: WorkflowElement| !ts_workflow_element_of(*n, y) by {
                        if let WorkflowElement::Conditional(x) = y {
                            assert(!ts_conditional_of(*n, x));
                        }
                    }
                }
                Err(e)
            },
        }
    } else {
        Err(parser_error("Invalid workflow element ", kind, "", ""))
    }
}

/// The parameter metadata of a workflow built from `n`, held as metadata.
fn parameter_meta_of_node(n: &TsSyntaxNode) -> (res: Result<Meta, ModelError>)
    ensures
        res matches Ok(x) ==> ts_meta_section_of(*n, keywords::PARAMETER_META@, x.attributes@),
        res is Err ==> forall|x: Meta| !ts_meta_section_of(*n, keywords::PARAMETER_META@, x.attributes@),
{
    let p = try_into_parameter_meta(TSNode::from_cursor(n))?;
    Ok(Meta { attributes: p.attributes })
}

/// `v` holds the elements of a workflow built from the items of the block of `m` in braces,
/// each anchored to its node's span.
pub open spec fn ts_workflow_elements_of(m: TsSyntaxNode, v: Seq<Anchor<WorkflowElement>>) -> bool
{
    let r = rem_block(m.children@, BlockEnds::Braces, BlockDelim::NoDelim);
    &&& r.1 && v.len() == r.0.len()
    &&& forall|k: int|
        0 <= k < r.0.len() ==> (#[trigger] v[k]).span == m.children@[r.0[k]].span
            && ts_workflow_element_of(m.children@[r.0[k]], v[k].element)
}

/// The elements of a workflow built from the items of the block of `m` in braces.
fn workflow_elements_of_node(m: &TsSyntaxNode) -> (res: Result<Vec<Anchor<WorkflowElement>>, ModelError>)
    ensures
        res matches Ok(v) ==> ts_workflow_elements_of(*m, v@),
        res is Err ==> forall|v: Seq<Anchor<WorkflowElement>>| !ts_workflow_elements_of(*m, v),
{
    proof {
        lemma_rem_block_range(m.children@, BlockEnds::Braces, BlockDelim::NoDelim);
    }
    let ghost cs = m.children@;
    let ghost r = rem_block(cs, BlockEnds::Braces, BlockDelim::NoDelim);
    let mut it = TSNode::from_cursor(m).into_block(BlockEnds::Braces, BlockDelim::NoDelim);
    let mut v: Vec<Anchor<WorkflowElement>> = Vec::new();
    loop
        invariant
            it.wf(),
            it.children@ == cs,
            cs == m.children@,
            r == rem_block(cs, BlockEnds::Braces, BlockDelim::NoDelim),
            forall|k: int| 0 <= k < r.0.len() ==> 0 <= #[trigger] r.0[k] < cs.len(),
            v@.len() <= r.0.len(),
            it.remaining() == (r.0.skip(v@.len() as int), r.1),
            forall|k: int|
                0 <= k < v@.len() ==> (#[trigger] v@[k]).span == cs[r.0[k]].span && ts_workflow_element_of(
                    cs[r.0[k]],
                    v@[k].element,
                ),
        ensures
            r.1,
            v@.len() == r.0.len(),
            forall|k: int|
                0 <= k < v@.len() ==> (#[trigger] v@[k]).span == cs[r.0[k]].span && ts_workflow_element_of(
                    cs[r.0[k]],
                    v@[k].element,
                ),
        decreases r.0.len() - v@.len(),
    {
        let ghost len = v@.len() as int;
        proof {
            if len < r.0.len() {
                assert(r.0.skip(len)[0] == r.0[len]);
                assert(r.0.skip(len).drop_first() =~= r.0.skip(len + 1));
            }
        }
        match it.next() {
            Some(Ok(t)) => {
                proof {
                    assert(*t.node == cs[r.0[len]]);
                }
                let span = t.as_span();
                match workflow_element_of_node(t.node) {
                    Ok(x) => v.push(Anchor::new(x, span)),
                    Err(e) => {
                        proof {
                            assert forall|w: Seq<Anchor<WorkflowElement>>| !ts_workflow_elements_of(*m, w) by {
                                if ts_workflow_elements_of(*m, w) {
                                    assert(w[len].span == cs[r.0[len]].span);
                                    assert(!ts_workflow_element_of(cs[r.0[len]], w[len].element));
                                }
                            }
                        }
                        return Err(e);
                    },
                }
            },
            Some(Err(e)) => {
                return Err(e);
            },
            None => {
                break ;
            },
        }
    }
    proof {
        assert(ts_workflow_elements_of(*m, v@));
    }
    Ok(v)
}

/// `w` is the workflow built from the node `n`: `workflow`, its name, then its elements in
/// braces.
pub open spec fn ts_workflow_of(n: TsSyntaxNode, w: Workflow) -> bool {
    let r = items(n);
    &&& r.1 && r.0.len() >= 3 && is_terminal(item(n, 0), keywords::WORKFLOW@)
    &&& is_field(item(n, 1), fields::NAME@)
    &&& item(n, 1).text matches Some(x) && w.name == (Anchor { element: x, span: item(n, 1).span })
    &&& is_field(item(n, 2), fields::BODY@) && ts_workflow_elements_of(item(n, 2), w.body@)
}

/// The workflow built from a node: `workflow`, its name, then its elements in braces; an
/// error when none can be.
pub fn try_into_workflow(node: TSNode) -> (res: Result<Workflow, ModelError>)
    ensures
        res matches Ok(x) ==> ts_workflow_of(*node.node, x),
        res is Err ==> forall|x: Workflow| !ts_workflow_of(*node.node, x),
{
    let ghost n = *node.node;
    let mut children = node.into_children();
    children.skip_terminal(keywords::WORKFLOW)?;
    let name = children.next_field(fields::NAME)?.try_into_text_anchor()?;
    let list = children.next_field(fields::BODY)?;
    proof {
        assert(*list.node == item(n, 2));
    }
    let body = match workflow_elements_of_node(list.node) {
        Ok(v) => v,
        Err(e) => {
            proof {
                assert forall|y: Workflow| !ts_workflow_of(n, y) by {
                    assert(!ts_workflow_elements_of(item(n, 2), y.body@));
                }
            }
            return Err(e);
        },
    };
    children.drain(false)?;
    Ok(Workflow { name, body })
}

} // verus!
