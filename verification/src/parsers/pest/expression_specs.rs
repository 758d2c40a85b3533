//! What the expressions built from a parse tree are: for each kind of match, when it can be
//! turned into a model element (`*_ok`) and which element it becomes (`*_of`).
//!
//! The builders step over comments and the end of input, so the `k`-th nested match below means
//! the `k`-th one that is neither (`vis`). Where a builder looks at the very next nested match,
//! comments included (`raw_more`), so does its description.
use crate::model::{
    integer_text, is_float_text, AccessOperation, Anchor, Apply, ArrayLiteral, Binary,
    BinaryOperator, Expression, MapEntry, MapLiteral, ObjectField, ObjectLiteral, PairLiteral,
    Span, StringLiteral, StringPart, Ternary, UnaryOperator,
};
use crate::parsers::pest::node::{
    has_vis, hidden, lemma_next_visible, lemma_prev_visible, lemma_vpos, next_visible,
    prev_visible, vcount, vis, vpos,
};
use crate::parsers::pest::primitives::{bool_text, float_of, text_anchor_of};
use crate::parsers::pest::rules::WdlRule;
use crate::parsers::pest::tree::SyntaxNode;
use vstd::prelude::*;

verus! {

/// The unary operator a match of `r` stands for.
pub open spec fn unary_operator_of_rule(r: WdlRule) -> Option<UnaryOperator> {
    match r {
        WdlRule::pos => Some(UnaryOperator::Pos),
        WdlRule::neg => Some(UnaryOperator::Neg),
        WdlRule::not => Some(UnaryOperator::Not),
        _ => None,
    }
}

/// The binary operator a match of `r` stands for.
pub open spec fn binary_operator_of_rule(r: WdlRule) -> Option<BinaryOperator> {
    match r {
        WdlRule::add => Some(BinaryOperator::Add),
        WdlRule::sub => Some(BinaryOperator::Sub),
        WdlRule::mul => Some(BinaryOperator::Mul),
        WdlRule::div => Some(BinaryOperator::Div),
        WdlRule::rem => Some(BinaryOperator::Mod),
        WdlRule::gt => Some(BinaryOperator::Gt),
        WdlRule::lt => Some(BinaryOperator::Lt),
        WdlRule::gte => Some(BinaryOperator::Gte),
        WdlRule::lte => Some(BinaryOperator::Lte),
        WdlRule::eq => Some(BinaryOperator::Eq),
        WdlRule::neq => Some(BinaryOperator::Neq),
        WdlRule::and => Some(BinaryOperator::And),
        WdlRule::or => Some(BinaryOperator::Or),
        _ => None,
    }
}

/// The rules of the levels of binary operations, from `or` down to `*`.
pub open spec fn is_binary_rule(r: WdlRule) -> bool {
    ||| r == WdlRule::disjunction
    ||| r == WdlRule::conjunction
    ||| r == WdlRule::equality
    ||| r == WdlRule::comparison
    ||| r == WdlRule::math1
    ||| r == WdlRule::math2
}

pub open spec fn is_int_rule(r: WdlRule) -> bool {
    r == WdlRule::hex_int || r == WdlRule::oct_int || r == WdlRule::dec_int
}

pub open spec fn is_content_rule(r: WdlRule) -> bool {
    ||| r == WdlRule::squote_literal
    ||| r == WdlRule::dquote_literal
    ||| r == WdlRule::single_line_command_block_literal
    ||| r == WdlRule::multi_line_command_block_literal
    ||| r == WdlRule::command_heredoc_literal
}

pub open spec fn is_escape_rule(r: WdlRule) -> bool {
    ||| r == WdlRule::squote_escape_sequence
    ||| r == WdlRule::dquote_escape_sequence
    ||| r == WdlRule::command_block_escape_sequence
    ||| r == WdlRule::command_heredoc_escape_sequence
}

pub open spec fn is_placeholder_rule(r: WdlRule) -> bool {
    r == WdlRule::tilde_placeholder || r == WdlRule::dollar_placeholder
}

/// Right after the first nested match of `n` there is another one (a comment counts).
pub open spec fn raw_more(n: SyntaxNode) -> bool {
    vpos(n, 0) + 1 < n.children@.len()
}

// ----- when a match can be turned into an expression -----

/// An expression and its span can be built from `n`.
pub open spec fn expr_anchor_ok(n: SyntaxNode) -> bool
    decreases n, 5nat, 0int,
{
    proof {
        lemma_vpos(n, 0);
    }
    if n.rule == WdlRule::expression {
        has_vis(n, 0) && expr_anchor_ok(vis(n, 0))
    } else if n.rule == WdlRule::ternary {
        ternary_ok(n)
    } else if is_binary_rule(n.rule) {
        has_vis(n, 0) && if raw_more(n) {
            binary_ok(n)
        } else {
            expr_anchor_ok(vis(n, 0))
        }
    } else if n.rule == WdlRule::unary {
        has_vis(n, 0) && if raw_more(n) {
            unary_ok(n)
        } else {
            expr_anchor_ok(vis(n, 0))
        }
    } else if n.rule == WdlRule::access {
        has_vis(n, 0) && if raw_more(n) {
            access_ok(n) && vcount(n.children@, vpos(n, 0) + 1, n.children@.len() as int) > 0
        } else {
            expr_anchor_ok(vis(n, 0))
        }
    } else {
        expression_ok(n)
    }
}

/// An expression can be built from `n`.
pub open spec fn expression_ok(n: SyntaxNode) -> bool
    decreases n, 4nat, 0int,
{
    proof {
        lemma_vpos(n, 0);
    }
    if n.rule == WdlRule::expression || n.rule == WdlRule::group {
        has_vis(n, 0) && expression_ok(vis(n, 0))
    } else if n.rule == WdlRule::ternary {
        ternary_ok(n)
    } else if is_binary_rule(n.rule) {
        has_vis(n, 0) && if raw_more(n) {
            binary_ok(n)
        } else {
            expression_ok(vis(n, 0))
        }
    } else if n.rule == WdlRule::unary {
        has_vis(n, 0) && if raw_more(n) {
            unary_ok(n)
        } else {
            expression_ok(vis(n, 0))
        }
    } else if n.rule == WdlRule::access {
        has_vis(n, 0) && if raw_more(n) {
            access_ok(n)
        } else {
            expression_ok(vis(n, 0))
        }
    } else {
        match n.rule {
            WdlRule::apply => has_vis(n, 0) && expr_anchors_ok(n.children@, vpos(n, 0) + 1),
            WdlRule::none => true,
            WdlRule::boolean => bool_text(n.text@) is Some,
            WdlRule::float => is_float_text(n.text@),
            WdlRule::dquote_string => string_parts_ok(n.children@, 0),
            WdlRule::squote_string => string_parts_ok(n.children@, 0),
            WdlRule::array => expr_anchors_ok(n.children@, 0),
            WdlRule::map => map_entries_ok(n.children@, 0),
            WdlRule::pair => pair_ok(n),
            WdlRule::object => has_vis(n, 0) && object_fields_ok(n.children@, vpos(n, 0) + 1),
            WdlRule::identifier => true,
            _ => is_int_rule(n.rule) && integer_text(n.text@) is Some,
        }
    }
}

/// A ternary expression can be built from `n`.
pub open spec fn ternary_ok(n: SyntaxNode) -> bool
    decreases n, 3nat, 0int,
{
    proof {
        lemma_vpos(n, 0);
        lemma_vpos(n, 1);
        lemma_vpos(n, 2);
    }
    &&& has_vis(n, 0) && has_vis(n, 1) && has_vis(n, 2)
    &&& expr_anchor_ok(vis(n, 0))
    &&& expr_anchor_ok(vis(n, 1))
    &&& expr_anchor_ok(vis(n, 2))
}

/// A pair literal can be built from `n`.
pub open spec fn pair_ok(n: SyntaxNode) -> bool
    decreases n, 3nat, 0int,
{
    proof {
        lemma_vpos(n, 0);
        lemma_vpos(n, 1);
    }
    &&& has_vis(n, 0) && has_vis(n, 1)
    &&& expr_anchor_ok(vis(n, 0))
    &&& expr_anchor_ok(vis(n, 1))
}

/// A unary operation can be built from the first two matches nested in `n`.
pub open spec fn unary_ok(n: SyntaxNode) -> bool
    decreases n, 3nat, 0int,
{
    proof {
        lemma_vpos(n, 0);
        lemma_vpos(n, 1);
    }
    &&& has_vis(n, 0) && has_vis(n, 1)
    &&& unary_operator_of_rule(vis(n, 0).rule) is Some
    &&& expr_anchor_ok(vis(n, 1))
}

/// A chain of binary operations can be built from the matches nested in `n`.
pub open spec fn binary_ok(n: SyntaxNode) -> bool
    decreases n, 3nat, 0int,
{
    proof {
        lemma_vpos(n, 0);
    }
    &&& has_vis(n, 0)
    &&& expr_anchor_ok(vis(n, 0))
    &&& chain_ok(n.children@, vpos(n, 0) + 1)
}

/// The matches of `cs` from `c` on are pairs of an operator and an operand, at least one.
pub open spec fn chain_ok(cs: Seq<SyntaxNode>, c: int) -> bool
    decreases cs, 2nat, cs.len() + 1 - c,
{
    let o = next_visible(cs, c);
    let e = next_visible(cs, o + 1);
    &&& 0 <= c <= cs.len()
    &&& o < cs.len()
    &&& e < cs.len()
    &&& binary_operator_of_rule(cs[o].rule) is Some
    &&& {
        proof {
            lemma_next_visible(cs, c);
            lemma_next_visible(cs, o + 1);
        }
        expr_anchor_ok(cs[e])
    }
    &&& next_visible(cs, e + 1) < cs.len() ==> chain_ok(cs, e + 1)
}

/// An access to a collection can be built from the matches nested in `n`.
pub open spec fn access_ok(n: SyntaxNode) -> bool
    decreases n, 3nat, 0int,
{
    proof {
        lemma_vpos(n, 0);
    }
    &&& has_vis(n, 0)
    &&& expr_anchor_ok(vis(n, 0))
    &&& access_operations_ok(n.children@, vpos(n, 0) + 1)
}

/// An access operation and its span can be built from `n`.
pub open spec fn access_operation_anchor_ok(n: SyntaxNode) -> bool
    decreases n, 3nat, 0int,
{
    proof {
        lemma_vpos(n, 0);
    }
    if n.rule == WdlRule::index {
        has_vis(n, 0) && expression_ok(vis(n, 0))
    } else {
        n.rule == WdlRule::field && has_vis(n, 0)
    }
}

/// A map entry can be built from `n`.
pub open spec fn map_entry_ok(n: SyntaxNode) -> bool
    decreases n, 3nat, 0int,
{
    proof {
        lemma_vpos(n, 0);
        lemma_vpos(n, 1);
    }
    &&& has_vis(n, 0) && has_vis(n, 1)
    &&& expression_ok(vis(n, 0))
    &&& expr_anchor_ok(vis(n, 1))
}

/// A field of an object literal can be built from `n`.
pub open spec fn object_field_ok(n: SyntaxNode) -> bool
    decreases n, 3nat, 0int,
{
    proof {
        lemma_vpos(n, 0);
        lemma_vpos(n, 1);
    }
    &&& has_vis(n, 0) && has_vis(n, 1)
    &&& expr_anchor_ok(vis(n, 1))
}

/// A part of a string literal can be built from `n`.
pub open spec fn string_part_ok(n: SyntaxNode) -> bool
    decreases n, 3nat, 0int,
{
    proof {
        lemma_vpos(n, 0);
    }
    if is_placeholder_rule(n.rule) {
        has_vis(n, 0) && expression_ok(vis(n, 0))
    } else {
        is_content_rule(n.rule) || is_escape_rule(n.rule)
    }
}

/// Every match of `cs` from `i` on that is not hidden becomes an anchored expression.
pub open spec fn expr_anchors_ok(cs: Seq<SyntaxNode>, i: int) -> bool
    decreases cs, 2nat, 0int,
{
    forall|j: int| #![trigger cs[j]] 0 <= i <= j < cs.len() && !hidden(cs[j]) ==> expr_anchor_ok(cs[j])
}

/// Every match of `cs` from `i` on that is not hidden becomes a string part.
pub open spec fn string_parts_ok(cs: Seq<SyntaxNode>, i: int) -> bool
    decreases cs, 2nat, 0int,
{
    forall|j: int| #![trigger cs[j]] 0 <= i <= j < cs.len() && !hidden(cs[j]) ==> string_part_ok(cs[j])
}

/// Every match of `cs` from `i` on that is not hidden becomes a map entry.
pub open spec fn map_entries_ok(cs: Seq<SyntaxNode>, i: int) -> bool
    decreases cs, 2nat, 0int,
{
    forall|j: int| #![trigger cs[j]] 0 <= i <= j < cs.len() && !hidden(cs[j]) ==> map_entry_ok(cs[j])
}

/// Every match of `cs` from `i` on that is not hidden becomes a field of an object literal.
pub open spec fn object_fields_ok(cs: Seq<SyntaxNode>, i: int) -> bool
    decreases cs, 2nat, 0int,
{
    forall|j: int| #![trigger cs[j]] 0 <= i <= j < cs.len() && !hidden(cs[j]) ==> object_field_ok(cs[j])
}

/// Every match of `cs` from `i` on that is not hidden becomes an access operation.
pub open spec fn access_operations_ok(cs: Seq<SyntaxNode>, i: int) -> bool
    decreases cs, 2nat, 0int,
{
    forall|j: int| #![trigger cs[j]] 0 <= i <= j < cs.len() && !hidden(cs[j]) ==> access_operation_anchor_ok(cs[j])
}

// ----- which expression a match becomes -----

/// `a` is the expression built from `n`, anchored to its span: the span of `n` itself, or, for
/// operations, the span from their first to their last operand.
pub open spec fn expr_anchor_of(n: SyntaxNode, a: Anchor<Expression>) -> bool
    decreases n, 5nat, 0int,
{
    proof {
        lemma_vpos(n, 0);
    }
    if n.rule == WdlRule::expression {
        has_vis(n, 0) && expr_anchor_of(vis(n, 0), a)
    } else if n.rule == WdlRule::ternary {
        &&& a.element matches Expression::Ternary(t)
        &&& ternary_of(n, t)
        &&& a.span == Span::range(n.span, Span::range(t.condition.span, t.false_branch.span))
    } else if is_binary_rule(n.rule) {
        has_vis(n, 0) && if raw_more(n) {
            &&& binary_of(n, a.element)
            &&& a.element matches Expression::Binary(b)
            &&& a.span == Span::range(b.left.span, b.right.span)
        } else {
            expr_anchor_of(vis(n, 0), a)
        }
    } else if n.rule == WdlRule::unary {
        has_vis(n, 0) && if raw_more(n) {
            &&& unary_of(n, a.element)
            &&& a.element matches Expression::Unary(u)
            &&& a.span == u.expression.span
        } else {
            expr_anchor_of(vis(n, 0), a)
        }
    } else if n.rule == WdlRule::access {
        has_vis(n, 0) && if raw_more(n) {
            &&& access_of(n, a.element)
            &&& a.element matches Expression::Access(x)
            &&& x.accesses@.len() > 0
            &&& a.span == Span::range(
                x.collection.span,
                Span::range(x.accesses@[0].span, x.accesses@.last().span),
            )
        } else {
            expr_anchor_of(vis(n, 0), a)
        }
    } else {
        expression_of(n, a.element) && a.span == n.span
    }
}

/// `e` is the expression built from `n`.
pub open spec fn expression_of(n: SyntaxNode, e: Expression) -> bool
    decreases n, 4nat, 0int,
{
    proof {
        lemma_vpos(n, 0);
    }
    if n.rule == WdlRule::expression {
        has_vis(n, 0) && expression_of(vis(n, 0), e)
    } else if n.rule == WdlRule::group {
        &&& has_vis(n, 0)
        &&& e matches Expression::Group(g)
        &&& g.span == vis(n, 0).span
        &&& expression_of(vis(n, 0), g.element)
    } else if n.rule == WdlRule::ternary {
        e matches Expression::Ternary(t) && ternary_of(n, t)
    } else if is_binary_rule(n.rule) {
        has_vis(n, 0) && if raw_more(n) {
            binary_of(n, e)
        } else {
            expression_of(vis(n, 0), e)
        }
    } else if n.rule == WdlRule::unary {
        has_vis(n, 0) && if raw_more(n) {
            unary_of(n, e)
        } else {
            expression_of(vis(n, 0), e)
        }
    } else if n.rule == WdlRule::access {
        has_vis(n, 0) && if raw_more(n) {
            access_of(n, e)
        } else {
            expression_of(vis(n, 0), e)
        }
    } else {
        match n.rule {
            WdlRule::apply => e matches Expression::Apply(x) && apply_of(n, x),
            WdlRule::none => e == Expression::NoneValue,
            WdlRule::boolean => e matches Expression::Boolean(b) && bool_text(n.text@) == Some(b),
            WdlRule::float => e matches Expression::Float(f) && float_of(n.text@, f),
            WdlRule::dquote_string => e matches Expression::String(x) && string_parts_of(
                n.children@,
                0,
                x.parts@,
            ),
            WdlRule::squote_string => e matches Expression::String(x) && string_parts_of(
                n.children@,
                0,
                x.parts@,
            ),
            WdlRule::array => e matches Expression::Array(x) && expr_anchors_of(
                n.children@,
                0,
                x.elements@,
            ),
            WdlRule::map => e matches Expression::Mapping(x) && map_entries_of(
                n.children@,
                0,
                x.entries@,
            ),
            WdlRule::pair => e matches Expression::Pair(x) && pair_of(n, x),
            WdlRule::object => e matches Expression::Object(x) && object_of(n, x),
            WdlRule::identifier => e matches Expression::Identifier(s) && s@ == n.text@,
            _ => is_int_rule(n.rule) && (e matches Expression::Int(i) && integer_text(n.text@)
                == Some(i)),
        }
    }
}

/// `t` is the ternary expression built from `n`.
pub open spec fn ternary_of(n: SyntaxNode, t: Ternary) -> bool
    decreases n, 3nat, 0int,
{
    proof {
        lemma_vpos(n, 0);
        lemma_vpos(n, 1);
        lemma_vpos(n, 2);
    }
    &&& has_vis(n, 0) && has_vis(n, 1) && has_vis(n, 2)
    &&& expr_anchor_of(vis(n, 0), *t.condition)
    &&& expr_anchor_of(vis(n, 1), *t.true_branch)
    &&& expr_anchor_of(vis(n, 2), *t.false_branch)
}

/// `p` is the pair literal built from `n`.
pub open spec fn pair_of(n: SyntaxNode, p: PairLiteral) -> bool
    decreases n, 3nat, 0int,
{
    proof {
        lemma_vpos(n, 0);
        lemma_vpos(n, 1);
    }
    &&& has_vis(n, 0) && has_vis(n, 1)
    &&& expr_anchor_of(vis(n, 0), *p.left)
    &&& expr_anchor_of(vis(n, 1), *p.right)
}

/// `x` is the function application built from `n`: a name, then the arguments.
pub open spec fn apply_of(n: SyntaxNode, x: Apply) -> bool
    decreases n, 3nat, 0int,
{
    proof {
        lemma_vpos(n, 0);
    }
    &&& has_vis(n, 0)
    &&& text_anchor_of(vis(n, 0), x.name)
    &&& expr_anchors_of(n.children@, vpos(n, 0) + 1, x.arguments@)
}

/// `x` is the object literal built from `n`: a type name, then the fields.
pub open spec fn object_of(n: SyntaxNode, x: ObjectLiteral) -> bool
    decreases n, 3nat, 0int,
{
    proof {
        lemma_vpos(n, 0);
    }
    &&& has_vis(n, 0)
    &&& text_anchor_of(vis(n, 0), x.object_type)
    &&& object_fields_of(n.children@, vpos(n, 0) + 1, x.fields@)
}

/// `e` is the unary operation built from the first two matches nested in `n`.
pub open spec fn unary_of(n: SyntaxNode, e: Expression) -> bool
    decreases n, 3nat, 0int,
{
    proof {
        lemma_vpos(n, 0);
        lemma_vpos(n, 1);
    }
    &&& has_vis(n, 0) && has_vis(n, 1)
    &&& e matches Expression::Unary(u)
    &&& unary_operator_of_rule(vis(n, 0).rule) == Some(u.operator)
    &&& expr_anchor_of(vis(n, 1), *u.expression)
}

/// `e` is the chain of binary operations built from the matches nested in `n`: the operations
/// group to the left, so the last operator of the chain is the outermost one.
pub open spec fn binary_of(n: SyntaxNode, e: Expression) -> bool
    decreases n, 3nat, 0int,
{
    proof {
        lemma_vpos(n, 0);
    }
    &&& has_vis(n, 0)
    &&& e matches Expression::Binary(b)
    &&& chain_of(n.children@, vpos(n, 0), prev_visible(n.children@, n.children@.len() as int) + 1, b)
}

/// `r` is the binary operation built from the operand `cs[f]` and the pairs of an operator and
/// an operand that follow it, up to the operand just before `c`.
pub open spec fn chain_of(cs: Seq<SyntaxNode>, f: int, c: int, r: Binary) -> bool
    decreases cs, 2nat, c,
{
    let e = c - 1;
    let o = prev_visible(cs, e);
    &&& 0 <= f < o < e < cs.len()
    &&& !hidden(cs[e])
    &&& binary_operator_of_rule(cs[o].rule) == Some(r.operator)
    &&& expr_anchor_of(cs[e], *r.right)
    &&& if next_visible(cs, f + 1) == o {
        expr_anchor_of(cs[f], *r.left)
    } else {
        let p = prev_visible(cs, o);
        &&& f < p
        &&& r.left.element matches Expression::Binary(b)
        &&& r.left.span == Span::range(b.left.span, b.right.span)
        &&& {
            proof {
                lemma_prev_visible(cs, o);
            }
            chain_of(cs, f, p + 1, b)
        }
    }
}

/// `e` is the access built from the matches nested in `n`: a collection, then the operations.
pub open spec fn access_of(n: SyntaxNode, e: Expression) -> bool
    decreases n, 3nat, 0int,
{
    proof {
        lemma_vpos(n, 0);
    }
    &&& has_vis(n, 0)
    &&& e matches Expression::Access(x)
    &&& expr_anchor_of(vis(n, 0), *x.collection)
    &&& access_operations_of(n.children@, vpos(n, 0) + 1, x.accesses@)
}

/// `a` is the access operation built from `n`, anchored to the span of its inner match.
pub open spec fn access_operation_anchor_of(n: SyntaxNode, a: Anchor<AccessOperation>) -> bool
    decreases n, 3nat, 0int,
{
    proof {
        lemma_vpos(n, 0);
    }
    &&& has_vis(n, 0)
    &&& a.span == vis(n, 0).span
    &&& if n.rule == WdlRule::index {
        a.element matches AccessOperation::Index(x) && expression_of(vis(n, 0), x)
    } else {
        a.element matches AccessOperation::Field(s) && s@ == vis(n, 0).text@
    }
}

/// `m` is the map entry built from `n`.
pub open spec fn map_entry_of(n: SyntaxNode, m: MapEntry) -> bool
    decreases n, 3nat, 0int,
{
    proof {
        lemma_vpos(n, 0);
        lemma_vpos(n, 1);
    }
    &&& has_vis(n, 0) && has_vis(n, 1)
    &&& m.key.span == vis(n, 0).span
    &&& expression_of(vis(n, 0), m.key.element)
    &&& expr_anchor_of(vis(n, 1), m.value)
}

/// `x` is the field of an object literal built from `n`.
pub open spec fn object_field_of(n: SyntaxNode, x: ObjectField) -> bool
    decreases n, 3nat, 0int,
{
    proof {
        lemma_vpos(n, 0);
        lemma_vpos(n, 1);
    }
    &&& has_vis(n, 0) && has_vis(n, 1)
    &&& text_anchor_of(vis(n, 0), x.name)
    &&& expr_anchor_of(vis(n, 1), x.expression)
}

/// `p` is the part of a string literal built from `n`.
pub open spec fn string_part_of(n: SyntaxNode, p: StringPart) -> bool
    decreases n, 3nat, 0int,
{
    proof {
        lemma_vpos(n, 0);
    }
    if is_placeholder_rule(n.rule) {
        has_vis(n, 0) && (p matches StringPart::Placeholder(x) && expression_of(vis(n, 0), x))
    } else if is_content_rule(n.rule) {
        p matches StringPart::Content(s) && s@ == n.text@
    } else {
        p matches StringPart::Escape(s) && s@ == n.text@
    }
}

/// `v` holds, in order, the anchored expressions built from the matches of `cs` from `i` on
/// that are not hidden.
pub open spec fn expr_anchors_of(cs: Seq<SyntaxNode>, i: int, v: Seq<Anchor<Expression>>) -> bool
    decreases cs, 2nat, 0int,
{
    &&& v.len() == vcount(cs, i, cs.len() as int)
    &&& forall|j: int| #![trigger cs[j]] 0 <= i <= j < cs.len() && !hidden(cs[j]) ==> expr_anchor_of(
        cs[j],
        v[vcount(cs, i, j) as int],
    )
}

/// `v` holds, in order, the string parts built from the matches of `cs` from `i` on that are
/// not hidden, each anchored to its match's span.
pub open spec fn string_parts_of(cs: Seq<SyntaxNode>, i: int, v: Seq<Anchor<StringPart>>) -> bool
    decreases cs, 2nat, 0int,
{
    &&& v.len() == vcount(cs, i, cs.len() as int)
    &&& forall|j: int| #![trigger cs[j]] 0 <= i <= j < cs.len() && !hidden(cs[j]) ==> {
        &&& v[vcount(cs, i, j) as int].span == cs[j].span
        &&& string_part_of(cs[j], v[vcount(cs, i, j) as int].element)
    }
}

/// `v` holds, in order, the map entries built from the matches of `cs` from `i` on that are not
/// hidden, each anchored to its match's span.
pub open spec fn map_entries_of(cs: Seq<SyntaxNode>, i: int, v: Seq<Anchor<MapEntry>>) -> bool
    decreases cs, 2nat, 0int,
{
    &&& v.len() == vcount(cs, i, cs.len() as int)
    &&& forall|j: int| #![trigger cs[j]] 0 <= i <= j < cs.len() && !hidden(cs[j]) ==> {
        &&& v[vcount(cs, i, j) as int].span == cs[j].span
        &&& map_entry_of(cs[j], v[vcount(cs, i, j) as int].element)
    }
}

/// `v` holds, in order, the object fields built from the matches of `cs` from `i` on that are
/// not hidden, each anchored to its match's span.
pub open spec fn object_fields_of(cs: Seq<SyntaxNode>, i: int, v: Seq<Anchor<ObjectField>>) -> bool
    decreases cs, 2nat, 0int,
{
    &&& v.len() == vcount(cs, i, cs.len() as int)
    &&& forall|j: int| #![trigger cs[j]] 0 <= i <= j < cs.len() && !hidden(cs[j]) ==> {
        &&& v[vcount(cs, i, j) as int].span == cs[j].span
        &&& object_field_of(cs[j], v[vcount(cs, i, j) as int].element)
    }
}

/// `v` holds, in order, the access operations built from the matches of `cs` from `i` on that
/// are not hidden.
pub open spec fn access_operations_of(
    cs: Seq<SyntaxNode>,
    i: int,
    v: Seq<Anchor<AccessOperation>>,
) -> bool
    decreases cs, 2nat, 0int,
{
    &&& v.len() == vcount(cs, i, cs.len() as int)
    &&& forall|j: int| #![trigger cs[j]] 0 <= i <= j < cs.len() && !hidden(cs[j])
        ==> access_operation_anchor_of(cs[j], v[vcount(cs, i, j) as int])
}

} // verus!
