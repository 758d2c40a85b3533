//! Building workflows from their matches in the parse tree.
use crate::model::{
    Anchor, Call, CallInput, Conditional, InnerSpan, ModelError, QualifiedIdentifier, Scatter,
    Span, Workflow, WorkflowElement, WorkflowNestedElement,
};
use crate::parsers::pest::declarations::{
    bound_declaration_of, bound_declaration_ok, bound_declarations_of, bound_declarations_ok,
    input_declarations_of, input_declarations_ok, try_into_bound_declaration, try_into_input,
    try_into_output,
};
use crate::parsers::pest::expression_specs::{expr_anchor_of, expr_anchor_ok};
use crate::parsers::pest::expressions::try_into_expression_anchor;
use crate::parsers::pest::meta::{meta_attributes_of, meta_attributes_ok, try_into_meta};
use crate::parsers::pest::node::{
    has_vis, hidden, is_hidden, lemma_vpos, vcount, vis, vpos, PestNode, PestNodes,
};
use crate::parsers::pest::primitives::{text_anchor_of, try_into_text_anchor};
use crate::parsers::pest::rules::WdlRule;
use crate::parsers::pest::tree::SyntaxNode;
use crate::text::{from_chars, owned, to_chars, utf8_len, utf8_len_of};
use vstd::prelude::*;

verus! {

/// `c` is white space (`char::is_whitespace`: the Unicode property `White_Space`).
pub open spec fn is_whitespace_char(c: char) -> bool {
    ||| c == ' '
    ||| '\t' <= c <= '\r'
    ||| c == '\u{85}'
    ||| c == '\u{a0}'
    ||| c == '\u{1680}'
    ||| '\u{2000}' <= c <= '\u{200a}'
    ||| c == '\u{2028}'
    ||| c == '\u{2029}'
    ||| c == '\u{202f}'
    ||| c == '\u{205f}'
    ||| c == '\u{3000}'
}

/// The length of `s` without its trailing white space.
pub open spec fn trimmed_len(s: Seq<char>) -> nat
    decreases s.len(),
{
    if s.len() > 0 && is_whitespace_char(s.last()) {
        trimmed_len(s.drop_last())
    } else {
        s.len()
    }
}

/// The number of bytes of the trailing white space of `s`.
pub open spec fn trailing_space_bytes(s: Seq<char>) -> nat {
    utf8_len_of(s.skip(trimmed_len(s) as int))
}

/// A part of a qualified identifier can be built from `n`: its span can lose the bytes of the
/// trailing white space of its text.
pub open spec fn qualified_part_ok(n: SyntaxNode) -> bool {
    let w = trailing_space_bytes(n.text@);
    w > 0 ==> n.span.end.column >= w && n.span.end.offset >= w
}

/// `a` is the part of a qualified identifier built from `n`: its text without trailing white
/// space, its span ending before that white space.
pub open spec fn qualified_part_of(n: SyntaxNode, a: Anchor<String>) -> bool {
    let w = trailing_space_bytes(n.text@);
    &&& a.element@ == n.text@.take(trimmed_len(n.text@) as int)
    &&& a.span.start == n.span.start
    &&& a.span.end.line == n.span.end.line
    &&& a.span.end.column == n.span.end.column - w
    &&& a.span.end.offset == n.span.end.offset - w
}

/// A qualified identifier can be built from `n`.
pub open spec fn qualified_identifier_ok(n: SyntaxNode) -> bool {
    forall|j: int| #![trigger n.children@[j]] 0 <= j < n.children@.len() && !hidden(n.children@[j])
        ==> qualified_part_ok(n.children@[j])
}

/// `q` is the qualified identifier built from `n`: one part per nested match.
pub open spec fn qualified_identifier_of(n: SyntaxNode, q: QualifiedIdentifier) -> bool {
    let cs = n.children@;
    &&& q.parts@.len() == vcount(cs, 0, cs.len() as int)
    &&& forall|j: int| #![trigger cs[j]] 0 <= j < cs.len() && !hidden(cs[j]) ==> qualified_part_of(
        cs[j],
        q.parts@[vcount(cs, 0, j) as int],
    )
}

/// An input of a call can be built from `n`.
pub open spec fn call_input_ok(n: SyntaxNode) -> bool {
    has_vis(n, 0) && (has_vis(n, 1) ==> expr_anchor_ok(vis(n, 1)))
}

/// `x` is the input of a call built from `n`: a name, and an expression if one follows.
pub open spec fn call_input_of(n: SyntaxNode, x: CallInput) -> bool {
    &&& text_anchor_of(vis(n, 0), x.name)
    &&& if has_vis(n, 1) {
        x.expression matches Some(e) && expr_anchor_of(vis(n, 1), e)
    } else {
        x.expression is None
    }
}

/// Every match of `cs` that is not hidden becomes an input of a call.
pub open spec fn call_inputs_ok(cs: Seq<SyntaxNode>) -> bool {
    forall|j: int| #![trigger cs[j]] 0 <= j < cs.len() && !hidden(cs[j]) ==> call_input_ok(cs[j])
}

/// `v` holds, in order, the inputs built from the matches of `cs` that are not hidden, each
/// anchored to its inner span.
pub open spec fn call_inputs_of(cs: Seq<SyntaxNode>, v: Seq<Anchor<CallInput>>) -> bool {
    &&& v.len() == vcount(cs, 0, cs.len() as int)
    &&& forall|j: int| #![trigger cs[j]] 0 <= j < cs.len() && !hidden(cs[j]) ==> {
        &&& call_input_of(cs[j], v[vcount(cs, 0, j) as int].element)
        &&& Some(v[vcount(cs, 0, j) as int].span) == v[vcount(cs, 0, j) as int].element.inner_span()
    }
}

/// The raw index in `n` of the alias of a call, right after its target.
pub open spec fn alias_pos(n: SyntaxNode) -> int {
    vpos(n, 0) + 1
}

/// The call `n` has an alias.
pub open spec fn has_alias(n: SyntaxNode) -> bool {
    alias_pos(n) < n.children@.len() && n.children@[alias_pos(n)].rule == WdlRule::call_alias
}

/// The raw index in `n` of the inputs of a call, after its target and its alias.
pub open spec fn inputs_pos(n: SyntaxNode) -> int {
    if has_alias(n) {
        alias_pos(n) + 1
    } else {
        alias_pos(n)
    }
}

/// The call `n` has inputs.
pub open spec fn has_inputs(n: SyntaxNode) -> bool {
    inputs_pos(n) < n.children@.len() && n.children@[inputs_pos(n)].rule == WdlRule::call_inputs
}

/// A call can be built from `n`.
pub open spec fn call_ok(n: SyntaxNode) -> bool {
    &&& has_vis(n, 0)
    &&& qualified_identifier_ok(vis(n, 0))
    &&& vcount(vis(n, 0).children@, 0, vis(n, 0).children@.len() as int) > 0
    &&& has_alias(n) ==> has_vis(n.children@[alias_pos(n)], 0)
    &&& has_inputs(n) ==> call_inputs_ok(n.children@[inputs_pos(n)].children@)
}

/// `x` is the call built from `n`: a target (anchored to the span of its parts), an alias if
/// one follows, and inputs if they follow.
pub open spec fn call_of(n: SyntaxNode, x: Call) -> bool {
    &&& qualified_identifier_of(vis(n, 0), x.target.element)
    &&& Some(x.target.span) == x.target.element.inner_span()
    &&& if has_alias(n) {
        x.alias matches Some(a) && text_anchor_of(vis(n.children@[alias_pos(n)], 0), a)
    } else {
        x.alias is None
    }
    &&& if has_inputs(n) {
        x.inputs matches Some(v) && call_inputs_of(n.children@[inputs_pos(n)].children@, v@)
    } else {
        x.inputs is None
    }
}

/// The span of a call built from `n`: that of `n` when the call has inputs, otherwise from the
/// start of `n` to the end of the call's last part.
pub open spec fn call_span(n: SyntaxNode, x: Call) -> Span {
    if x.inputs is Some {
        n.span
    } else {
        Span::range(n.span, x.inner_span()->0)
    }
}

/// A nested element of a workflow can be built from `n`.
pub open spec fn nested_element_ok(n: SyntaxNode) -> bool
    decreases n, 3nat,
{
    proof {
        lemma_vpos(n, 0);
        lemma_vpos(n, 1);
    }
    if n.rule == WdlRule::bound_declaration {
        bound_declaration_ok(n)
    } else if n.rule == WdlRule::call {
        call_ok(n)
    } else if n.rule == WdlRule::scatter {
        scatter_ok(n)
    } else {
        n.rule == WdlRule::conditional && conditional_ok(n)
    }
}

/// A scatter can be built from `n`.
pub open spec fn scatter_ok(n: SyntaxNode) -> bool
    decreases n, 2nat,
{
    proof {
        lemma_vpos(n, 0);
        lemma_vpos(n, 1);
    }
    &&& has_vis(n, 0) && has_vis(n, 1)
    &&& expr_anchor_ok(vis(n, 1))
    &&& nested_anchors_ok(n.children@, vpos(n, 1) + 1)
}

/// `x` is the scatter built from `n`: a name, an expression, then the nested elements.
pub open spec fn scatter_of(n: SyntaxNode, x: Scatter) -> bool
    decreases n, 2nat,
{
    proof {
        lemma_vpos(n, 0);
        lemma_vpos(n, 1);
    }
    &&& has_vis(n, 0) && has_vis(n, 1)
    &&& text_anchor_of(vis(n, 0), x.name)
    &&& expr_anchor_of(vis(n, 1), x.expression)
    &&& nested_anchors_of(n.children@, vpos(n, 1) + 1, x.body@)
}

/// A conditional can be built from `n`.
pub open spec fn conditional_ok(n: SyntaxNode) -> bool
    decreases n, 2nat,
{
    proof {
        lemma_vpos(n, 0);
    }
    &&& has_vis(n, 0)
    &&& expr_anchor_ok(vis(n, 0))
    &&& nested_anchors_ok(n.children@, vpos(n, 0) + 1)
}

/// `x` is the conditional built from `n`: an expression, then the nested elements.
pub open spec fn conditional_of(n: SyntaxNode, x: Conditional) -> bool
    decreases n, 2nat,
{
    proof {
        lemma_vpos(n, 0);
    }
    &&& has_vis(n, 0)
    &&& expr_anchor_of(vis(n, 0), x.expression)
    &&& nested_anchors_of(n.children@, vpos(n, 0) + 1, x.body@)
}

/// `e` is the nested element of a workflow built from `n`.
pub open spec fn nested_element_of(n: SyntaxNode, e: WorkflowNestedElement) -> bool
    decreases n, 3nat,
{
    proof {
        lemma_vpos(n, 0);
        lemma_vpos(n, 1);
    }
    if n.rule == WdlRule::bound_declaration {
        e matches WorkflowNestedElement::Declaration(d) && bound_declaration_of(n, d)
    } else if n.rule == WdlRule::call {
        e matches WorkflowNestedElement::Call(x) && call_of(n, x)
    } else if n.rule == WdlRule::scatter {
        e matches WorkflowNestedElement::Scatter(x) && scatter_of(n, x)
    } else {
        e matches WorkflowNestedElement::Conditional(x) && conditional_of(n, x)
    }
}

/// A nested element and its span can be built from `n`.
pub open spec fn nested_anchor_ok(n: SyntaxNode) -> bool
    decreases n, 4nat,
{
    nested_element_ok(n)
}

/// `a` is the nested element built from `n`, anchored: a declaration to the span from its type
/// to its expression, a call as `call_span` says, anything else to the span of `n`.
pub open spec fn nested_anchor_of(n: SyntaxNode, a: Anchor<WorkflowNestedElement>) -> bool
    decreases n, 4nat,
{
    &&& nested_element_of(n, a.element)
    &&& if n.rule == WdlRule::bound_declaration {
        a.element matches WorkflowNestedElement::Declaration(d) && Some(a.span) == d.inner_span()
    } else if n.rule == WdlRule::call {
        a.element matches WorkflowNestedElement::Call(x) && a.span == call_span(n, x)
    } else {
        a.span == n.span
    }
}

/// Every match of `cs` from `i` on that is not hidden becomes a nested element.
pub open spec fn nested_anchors_ok(cs: Seq<SyntaxNode>, i: int) -> bool
    decreases cs, 1nat,
{
    forall|j: int| #![trigger cs[j]] 0 <= i <= j < cs.len() && !hidden(cs[j]) ==> nested_anchor_ok(cs[j])
}

/// `v` holds, in order, the anchored nested elements built from the matches of `cs` from `i` on
/// that are not hidden.
pub open spec fn nested_anchors_of(
    cs: Seq<SyntaxNode>,
    i: int,
    v: Seq<Anchor<WorkflowNestedElement>>,
) -> bool
    decreases cs, 1nat,
{
    &&& v.len() == vcount(cs, i, cs.len() as int)
    &&& forall|j: int| #![trigger cs[j]] 0 <= i <= j < cs.len() && !hidden(cs[j]) ==> nested_anchor_of(
        cs[j],
        v[vcount(cs, i, j) as int],
    )
}

/// An element of a workflow's body can be built from `n`.
pub open spec fn workflow_element_ok(n: SyntaxNode) -> bool {
    match n.rule {
        WdlRule::input => input_declarations_ok(n.children@, 0),
        WdlRule::output => bound_declarations_ok(n.children@, 0),
        WdlRule::bound_declaration => bound_declaration_ok(n),
        WdlRule::meta => meta_attributes_ok(n.children@, 0),
        WdlRule::parameter_meta => meta_attributes_ok(n.children@, 0),
        WdlRule::call => call_ok(n),
        WdlRule::scatter => scatter_ok(n),
        WdlRule::conditional => conditional_ok(n),
        _ => false,
    }
}

/// `e` is the element of a workflow's body built from `n`.
pub open spec fn workflow_element_of(n: SyntaxNode, e: WorkflowElement) -> bool {
    match n.rule {
        WdlRule::input => e matches WorkflowElement::Input(x) && input_declarations_of(
            n.children@,
            0,
            x.declarations@,
        ),
        WdlRule::output => e matches WorkflowElement::Output(x) && bound_declarations_of(
            n.children@,
            0,
            x.declarations@,
        ),
        WdlRule::bound_declaration => e matches WorkflowElement::Declaration(x)
            && bound_declaration_of(n, x),
        WdlRule::meta => e matches WorkflowElement::Meta(x) && meta_attributes_of(
            n.children@,
            0,
            x.attributes@,
        ),
        WdlRule::parameter_meta => e matches WorkflowElement::ParameterMeta(x)
            && meta_attributes_of(n.children@, 0, x.attributes@),
        WdlRule::call => e matches WorkflowElement::Call(x) && call_of(n, x),
        WdlRule::scatter => e matches WorkflowElement::Scatter(x) && scatter_of(n, x),
        _ => e matches WorkflowElement::Conditional(x) && conditional_of(n, x),
    }
}

/// `a` is the element of a workflow's body built from `n`, anchored as `nested_anchor_of` says.
pub open spec fn workflow_anchor_of(n: SyntaxNode, a: Anchor<WorkflowElement>) -> bool {
    &&& workflow_element_of(n, a.element)
    &&& if n.rule == WdlRule::bound_declaration {
        a.element matches WorkflowElement::Declaration(d) && Some(a.span) == d.inner_span()
    } else if n.rule == WdlRule::call {
        a.element matches WorkflowElement::Call(x) && a.span == call_span(n, x)
    } else {
        a.span == n.span
    }
}

/// A workflow can be built from `n`.
pub open spec fn workflow_ok(n: SyntaxNode) -> bool {
    let cs = n.children@;
    &&& has_vis(n, 0)
    &&& forall|j: int| #![trigger cs[j]] vpos(n, 0) < j < cs.len() && !hidden(cs[j]) ==> workflow_element_ok(cs[j])
}

/// `w` is the workflow built from `n`: a name, then the anchored elements of its body.
pub open spec fn workflow_of(n: SyntaxNode, w: Workflow) -> bool {
    let cs = n.children@;
    let i = vpos(n, 0) + 1;
    &&& text_anchor_of(vis(n, 0), w.name)
    &&& w.body@.len() == vcount(cs, i, cs.len() as int)
    &&& forall|j: int| #![trigger cs[j]] i <= j < cs.len() && !hidden(cs[j]) ==> workflow_anchor_of(
        cs[j],
        w.body@[vcount(cs, i, j) as int],
    )
}

fn is_whitespace(c: char) -> (res: bool)
    ensures
        res == is_whitespace_char(c),
{
    c == ' ' || ('\t' <= c && c <= '\r') || c == '\u{85}' || c == '\u{a0}' || c == '\u{1680}' || (
    '\u{2000}' <= c && c <= '\u{200a}') || c == '\u{2028}' || c == '\u{2029}' || c == '\u{202f}'
        || c == '\u{205f}' || c == '\u{3000}'
}

fn utf8_width(c: char) -> (res: usize)
    ensures
        res == utf8_len(c),
{
    let v = c as u32;
    if v < 0x80 {
        1
    } else if v < 0x800 {
        2
    } else if v < 0x10000 {
        3
    } else {
        4
    }
}

/// A part of a qualified identifier: the text of `node` without its trailing white space, with
/// a span that ends before that white space.
fn try_into_qualified_part(node: PestNode) -> (res: Result<Anchor<String>, ModelError>)
    ensures
        res is Ok <==> qualified_part_ok(*node.pair),
        res matches Ok(a) ==> qualified_part_of(*node.pair, a),
{
    let chars = to_chars(node.as_str());
    let n = chars.len();
    let mut k = n;
    let mut ws: usize = 0;
    let mut overflow = false;
    assert(chars@.take(n as int) =~= chars@);
    while k > 0 && is_whitespace(chars[k - 1])
        invariant
            k <= n,
            n == chars@.len(),
            trimmed_len(chars@) == trimmed_len(chars@.take(k as int)),
            !overflow ==> ws == utf8_len_of(chars@.subrange(k as int, n as int)),
            overflow ==> utf8_len_of(chars@.subrange(k as int, n as int)) > usize::MAX,
        decreases k,
    {
        let w = utf8_width(chars[k - 1]);
        proof {
            assert(chars@.subrange(k - 1, n as int).drop_first() =~= chars@.subrange(
                k as int,
                n as int,
            ));
            assert(chars@.take(k as int).drop_last() =~= chars@.take(k - 1));
        }
        if !overflow {
            match ws.checked_add(w) {
                Some(x) => ws = x,
                None => overflow = true,
            }
        }
        k = k - 1;
    }
    proof {
        assert(chars@.take(n as int) =~= chars@);
        assert(chars@.skip(trimmed_len(chars@) as int) =~= chars@.subrange(k as int, n as int));
        assert(chars@.take(k as int) =~= chars@.subrange(0, k as int));
    }
    let trimmed = from_chars(&chars, 0, k);
    let mut span = node.as_span();
    if overflow {
        return Err(ModelError::parser(owned("white space longer than its line")));
    }
    if ws > 0 {
        if span.end.column < ws || span.end.offset < ws {
            return Err(ModelError::parser(owned("white space longer than its line")));
        }
        span.trim_end(ws);
    }
    Ok(Anchor::new(trimmed, span))
}

/// A qualified identifier: one part per nested match.
pub fn try_into_qualified_identifier(node: PestNode) -> (res: Result<QualifiedIdentifier, ModelError>)
    ensures
        res is Ok <==> qualified_identifier_ok(*node.pair),
        res matches Ok(q) ==> qualified_identifier_of(*node.pair, q),
{
    let nodes = node.into_inner();
    let cs = nodes.pairs;
    let mut v: Vec<Anchor<String>> = Vec::new();
    let mut j: usize = 0;
    while j < cs.len()
        invariant
            cs@ == node.pair.children@,
            0 <= j <= cs@.len(),
            v@.len() == vcount(cs@, 0, j as int),
            forall|k: int|
                #![trigger cs@[k]]
                0 <= k < j && !hidden(cs@[k]) ==> {
                    &&& vcount(cs@, 0, k) < v@.len()
                    &&& qualified_part_ok(cs@[k])
                    &&& qualified_part_of(cs@[k], v@[vcount(cs@, 0, k) as int])
                },
        decreases cs@.len() - j,
    {
        if !is_hidden(&cs[j]) {
            match try_into_qualified_part(PestNode::new(&cs[j])) {
                Ok(a) => v.push(a),
                Err(e) => {
                    assert(!qualified_part_ok(cs@[j as int]));
                    return Err(e);
                },
            }
        }
        j = j + 1;
    }
    Ok(QualifiedIdentifier { parts: v })
}

/// An input of a call: a name, and an expression if one follows.
pub fn try_into_call_input(node: PestNode) -> (res: Result<CallInput, ModelError>)
    ensures
        res is Ok <==> call_input_ok(*node.pair),
        res matches Ok(x) ==> call_input_of(*node.pair, x),
{
    proof {
        lemma_vpos(*node.pair, 0);
        lemma_vpos(*node.pair, 1);
    }
    let mut inner = node.into_inner();
    let name_node = inner.next_node()?;
    let expression = match inner.next() {
        Some(expression_node) => Some(try_into_expression_anchor(expression_node)?),
        None => None,
    };
    Ok(CallInput { name: try_into_text_anchor(name_node), expression })
}

/// Builds the inputs of a call from the nested matches, each anchored to its inner span.
fn collect_call_inputs(nodes: PestNodes) -> (res: Result<Vec<Anchor<CallInput>>, ModelError>)
    requires
        nodes.index == 0,
    ensures
        res is Ok <==> call_inputs_ok(nodes.pairs@),
        res matches Ok(v) ==> call_inputs_of(nodes.pairs@, v@),
{
    let cs = nodes.pairs;
    let mut v: Vec<Anchor<CallInput>> = Vec::new();
    let mut j: usize = 0;
    while j < cs.len()
        invariant
            cs == nodes.pairs,
            0 <= j <= cs@.len(),
            v@.len() == vcount(cs@, 0, j as int),
            forall|k: int|
                #![trigger cs@[k]]
                0 <= k < j && !hidden(cs@[k]) ==> {
                    &&& vcount(cs@, 0, k) < v@.len()
                    &&& call_input_ok(cs@[k])
                    &&& call_input_of(cs@[k], v@[vcount(cs@, 0, k) as int].element)
                    &&& Some(v@[vcount(cs@, 0, k) as int].span) == v@[vcount(
                        cs@,
                        0,
                        k,
                    ) as int].element.inner_span()
                },
        decreases cs@.len() - j,
    {
        if !is_hidden(&cs[j]) {
            match try_into_call_input(PestNode::new(&cs[j])) {
                Ok(x) => {
                    let span = match x.get_inner_span() {
                        Some(s) => s,
                        None => {
                            return Err(ModelError::parser(owned("element has no inner span")));
                        },
                    };
                    v.push(Anchor::new(x, span));
                },
                Err(e) => {
                    assert(!call_input_ok(nodes.pairs@[j as int]));
                    return Err(e);
                },
            }
        }
        j = j + 1;
    }
    Ok(v)
}

/// A call: its target (anchored to the span of its parts), then an alias and inputs where they
/// follow.
pub fn try_into_call(node: PestNode) -> (res: Result<Call, ModelError>)
    ensures
        res is Ok <==> call_ok(*node.pair),
        res matches Ok(x) ==> call_of(*node.pair, x),
{
    let n = node.pair;
    proof {
        lemma_vpos(*n, 0);
    }
    let mut inner = node.into_inner();
    let target_node = inner.next_node()?;
    let target_element = try_into_qualified_identifier(target_node)?;
    let target_span = match target_element.get_inner_span() {
        Some(s) => s,
        None => {
            return Err(ModelError::parser(owned("element has no inner span")));
        },
    };
    let target = Anchor::new(target_element, target_span);
    let alias = match inner.peek_rule() {
        Some(WdlRule::call_alias) => {
            let alias_node = inner.next_node()?;
            let name_node = alias_node.one_inner()?;
            Some(try_into_text_anchor(name_node))
        },
        _ => None,
    };
    assert(inner.index == inputs_pos(*n));
    let inputs = match inner.peek_rule() {
        Some(WdlRule::call_inputs) => {
            let inputs_node = inner.next_node()?;
            Some(collect_call_inputs(inputs_node.into_inner())?)
        },
        _ => None,
    };
    Ok(Call { target, alias, inputs })
}

/// A nested element of a workflow, anchored: a declaration to the span from its type to its
/// expression, a call as `call_span` says, a scatter or a conditional to its match's span.
fn try_into_nested_element_anchor(node: PestNode) -> (res: Result<
    Anchor<WorkflowNestedElement>,
    ModelError,
>)
    ensures
        res is Ok <==> nested_anchor_ok(*node.pair),
        res matches Ok(a) ==> nested_anchor_of(*node.pair, a),
    decreases node.pair, 4nat,
{
    let rule = node.as_rule();
    if rule == WdlRule::bound_declaration {
        let d = try_into_bound_declaration(node)?;
        let span = d.get_inner_span().unwrap();
        Ok(Anchor::new(WorkflowNestedElement::Declaration(d), span))
    } else if rule == WdlRule::call {
        let outer = node.as_span();
        let call = try_into_call(node)?;
        let span = if call.inputs.is_some() {
            outer
        } else {
            Span::from_range(&outer, &call.get_inner_span().unwrap())
        };
        Ok(Anchor::new(WorkflowNestedElement::Call(call), span))
    } else {
        let span = node.as_span();
        Ok(Anchor::new(try_into_workflow_nested_element(node)?, span))
    }
}

/// Builds the nested elements of a scatter or a conditional from the iterator's position on.
pub fn try_into_nested_body(nodes: PestNodes) -> (res: Result<
    Vec<Anchor<WorkflowNestedElement>>,
    ModelError,
>)
    requires
        nodes.index <= nodes.pairs@.len(),
    ensures
        res is Ok <==> nested_anchors_ok(nodes.pairs@, nodes.index as int),
        res matches Ok(v) ==> nested_anchors_of(nodes.pairs@, nodes.index as int, v@),
    decreases nodes.pairs@, 1nat,
{
    let cs = nodes.pairs;
    let start = nodes.index;
    let mut v: Vec<Anchor<WorkflowNestedElement>> = Vec::new();
    let mut j = start;
    while j < cs.len()
        invariant
            cs == nodes.pairs,
            start == nodes.index,
            start <= j <= cs@.len(),
            v@.len() == vcount(cs@, start as int, j as int),
            forall|k: int|
                #![trigger cs@[k]]
                start <= k < j && !hidden(cs@[k]) ==> vcount(cs@, start as int, k) < v@.len()
                    && nested_anchor_ok(cs@[k]) && nested_anchor_of(
                    cs@[k],
                    v@[vcount(cs@, start as int, k) as int],
                ),
        decreases cs@.len() - j,
    {
        if !is_hidden(&cs[j]) {
            proof {
                assert(decreases_to!(nodes.pairs@ => nodes.pairs@[j as int]));
            }
            match try_into_nested_element_anchor(PestNode::new(&cs[j])) {
                Ok(a) => v.push(a),
                Err(e) => {
                    assert(!nested_anchor_ok(nodes.pairs@[j as int]));
                    return Err(e);
                },
            }
        }
        j = j + 1;
    }
    Ok(v)
}

/// A scatter: a name, an expression, then the nested elements.
pub fn try_into_scatter(node: PestNode) -> (res: Result<Scatter, ModelError>)
    ensures
        res is Ok <==> scatter_ok(*node.pair),
        res matches Ok(x) ==> scatter_of(*node.pair, x),
    decreases node.pair, 2nat,
{
    let n = node.pair;
    proof {
        lemma_vpos(*n, 0);
        lemma_vpos(*n, 1);
    }
    let mut inner = node.into_inner();
    let name_node = inner.next_node()?;
    let expression_node = inner.next_node()?;
    let expression = try_into_expression_anchor(expression_node)?;
    let body = try_into_nested_body(inner)?;
    Ok(Scatter { name: try_into_text_anchor(name_node), expression, body })
}

/// A conditional: an expression, then the nested elements.
pub fn try_into_conditional(node: PestNode) -> (res: Result<Conditional, ModelError>)
    ensures
        res is Ok <==> conditional_ok(*node.pair),
        res matches Ok(x) ==> conditional_of(*node.pair, x),
    decreases node.pair, 2nat,
{
    let n = node.pair;
    proof {
        lemma_vpos(*n, 0);
    }
    let mut inner = node.into_inner();
    let expression_node = inner.next_node()?;
    let expression = try_into_expression_anchor(expression_node)?;
    let body = try_into_nested_body(inner)?;
    Ok(Conditional { expression, body })
}

/// A nested element of a workflow.
pub fn try_into_workflow_nested_element(node: PestNode) -> (res: Result<
    WorkflowNestedElement,
    ModelError,
>)
    ensures
        res is Ok <==> nested_element_ok(*node.pair),
        res matches Ok(e) ==> nested_element_of(*node.pair, e),
    decreases node.pair, 3nat,
{
    let rule = node.as_rule();
    if rule == WdlRule::bound_declaration {
        Ok(WorkflowNestedElement::Declaration(try_into_bound_declaration(node)?))
    } else if rule == WdlRule::call {
        Ok(WorkflowNestedElement::Call(try_into_call(node)?))
    } else if rule == WdlRule::scatter {
        Ok(WorkflowNestedElement::Scatter(try_into_scatter(node)?))
    } else if rule == WdlRule::conditional {
        Ok(WorkflowNestedElement::Conditional(try_into_conditional(node)?))
    } else {
        Err(ModelError::parser(owned("Invalid workflow element")))
    }
}

/// An element of a workflow's body.
pub fn try_into_workflow_element(node: PestNode) -> (res: Result<WorkflowElement, ModelError>)
    ensures
        res is Ok <==> workflow_element_ok(*node.pair),
        res matches Ok(e) ==> workflow_element_of(*node.pair, e),
{
    match node.as_rule() {
        WdlRule::input => Ok(WorkflowElement::Input(try_into_input(node)?)),
        WdlRule::output => Ok(WorkflowElement::Output(try_into_output(node)?)),
        WdlRule::bound_declaration => Ok(
            WorkflowElement::Declaration(try_into_bound_declaration(node)?),
        ),
        WdlRule::meta => Ok(WorkflowElement::Meta(try_into_meta(node)?)),
        WdlRule::parameter_meta => Ok(WorkflowElement::ParameterMeta(try_into_meta(node)?)),
        WdlRule::call => Ok(WorkflowElement::Call(try_into_call(node)?)),
        WdlRule::scatter => Ok(WorkflowElement::Scatter(try_into_scatter(node)?)),
        WdlRule::conditional => Ok(WorkflowElement::Conditional(try_into_conditional(node)?)),
        _ => Err(ModelError::parser(owned("Invalid workflow element"))),
    }
}

/// An element of a workflow's body, anchored as `workflow_anchor_of` says.
fn try_into_workflow_element_anchor(node: PestNode) -> (res: Result<
    Anchor<WorkflowElement>,
    ModelError,
>)
    ensures
        res is Ok <==> workflow_element_ok(*node.pair),
        res matches Ok(a) ==> workflow_anchor_of(*node.pair, a),
{
    let rule = node.as_rule();
    if rule == WdlRule::bound_declaration {
        let d = try_into_bound_declaration(node)?;
        let span = d.get_inner_span().unwrap();
        Ok(Anchor::new(WorkflowElement::Declaration(d), span))
    } else if rule == WdlRule::call {
        let outer = node.as_span();
        let call = try_into_call(node)?;
        let span = if call.inputs.is_some() {
            outer
        } else {
            Span::from_range(&outer, &call.get_inner_span().unwrap())
        };
        Ok(Anchor::new(WorkflowElement::Call(call), span))
    } else {
        let span = node.as_span();
        Ok(Anchor::new(try_into_workflow_element(node)?, span))
    }
}

/// A workflow: a name, then the anchored elements of its body.
pub fn try_into_workflow(node: PestNode) -> (res: Result<Workflow, ModelError>)
    ensures
        res is Ok <==> workflow_ok(*node.pair),
        res matches Ok(w) ==> workflow_of(*node.pair, w),
{
    proof {
        lemma_vpos(*node.pair, 0);
    }
    let mut inner = node.into_inner();
    let name_node = inner.next_node()?;
    let cs = inner.pairs;
    let start = inner.index;
    let mut v: Vec<Anchor<WorkflowElement>> = Vec::new();
    let mut j = start;
    while j < cs.len()
        invariant
            cs@ == node.pair.children@,
            start == vpos(*node.pair, 0) + 1,
            start <= j <= cs@.len(),
            v@.len() == vcount(cs@, start as int, j as int),
            forall|k: int|
                #![trigger cs@[k]]
                start <= k < j && !hidden(cs@[k]) ==> {
                    &&& vcount(cs@, start as int, k) < v@.len()
                    &&& workflow_element_ok(cs@[k])
                    &&& workflow_anchor_of(cs@[k], v@[vcount(cs@, start as int, k) as int])
                },
        decreases cs@.len() - j,
    {
        if !is_hidden(&cs[j]) {
            match try_into_workflow_element_anchor(PestNode::new(&cs[j])) {
                Ok(a) => v.push(a),
                Err(e) => {
                    assert(!workflow_element_ok(cs@[j as int]));
                    return Err(e);
                },
            }
        }
        j = j + 1;
    }
    Ok(Workflow { name: try_into_text_anchor(name_node), body: v })
}

} // verus!
