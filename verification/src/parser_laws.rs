//! How the parts of an expression are read from a parse: operators by the text the grammar
//! matches, operands and branches by the field of the node they fill.
use crate::model::{Binary, BinaryOperator, Ternary, Unary, UnaryOperator};
use crate::parsers::pest::expression_specs::{binary_operator_of_rule, unary_operator_of_rule};
use crate::parsers::pest::rules::WdlRule;
use crate::parsers::tree_sitter::expressions::{ts_binary_of, ts_expression_of, ts_ternary_of, ts_unary_of};
use crate::parsers::tree_sitter::node::{item, items, lemma_rem_block_range, BlockDelim, BlockEnds};
use crate::parsers::tree_sitter::tree::TsSyntaxNode;
use vstd::prelude::*;

verus! {

/// The text that a match of `r` covers, where the WDL grammar defines `r` as one literal: the
/// operator rules.
pub open spec fn wdl_operator_literal(r: WdlRule) -> Option<Seq<char>> {
    match r {
        WdlRule::or => Some("||"@),
        WdlRule::and => Some("&&"@),
        WdlRule::eq => Some("=="@),
        WdlRule::neq => Some("!="@),
        WdlRule::gte => Some(">="@),
        WdlRule::gt => Some(">"@),
        WdlRule::lte => Some("<="@),
        WdlRule::lt => Some("<"@),
        WdlRule::add => Some("+"@),
        WdlRule::sub => Some("-"@),
        WdlRule::mul => Some("*"@),
        WdlRule::div => Some("/"@),
        WdlRule::rem => Some("%"@),
        WdlRule::not => Some("!"@),
        WdlRule::pos => Some("+"@),
        WdlRule::neg => Some("-"@),
        _ => None,
    }
}

/// The binary operator built from a match of a grammar rule is the one whose symbol is the text
/// of the match (`>` builds `Gt`, `<` builds `Lt`, `==` builds `Eq`), and reading that text back
/// with `BinaryOperator::from_str` gives the same operator. Every operator rule but the unary
/// ones builds a binary operator.
pub proof fn law_pest_binary_operator_is_its_text(r: WdlRule)
    ensures
        binary_operator_of_rule(r) matches Some(op) ==> wdl_operator_literal(r) == Some(op.symbol())
            && BinaryOperator::with_symbol(op.symbol()) == Some(op),
        wdl_operator_literal(r) is Some && unary_operator_of_rule(r) is None ==> binary_operator_of_rule(r) is Some,
{
    if let Some(op) = binary_operator_of_rule(r) {
        crate::laws::law_binary_operator_symbol_round_trip(op);
    }
}

/// The unary operator built from a match of a grammar rule is the one whose symbol is the text
/// of the match (`-` builds `Neg`, `!` builds `Not`, `+` builds `Pos`).
pub proof fn law_pest_unary_operator_is_its_text(r: WdlRule)
    ensures
        unary_operator_of_rule(r) matches Some(op) ==> wdl_operator_literal(r) == Some(op.symbol()),
        r == WdlRule::pos || r == WdlRule::neg || r == WdlRule::not ==> unary_operator_of_rule(r) is Some,
{
}

/// A conditional expression `if c then a else b` takes its condition from the node in the
/// field `condition`, its value when the condition holds from the node in the field `true`
/// (after `then`) and its value otherwise from the node in the field `false` (after `else`).
pub proof fn law_ternary_branches_by_field(n: TsSyntaxNode, t: Ternary)
    requires
        ts_ternary_of(n, t),
    ensures
        exists|k: int| #![trigger n.children@[k]]
            0 <= k < n.children@.len() && (n.children@[k].field matches Some(f) && f@ == "condition"@)
                && t.condition.span == n.children@[k].span && ts_expression_of(n.children@[k], t.condition.element),
        exists|k: int| #![trigger n.children@[k]]
            0 <= k < n.children@.len() && (n.children@[k].field matches Some(f) && f@ == "true"@)
                && t.true_branch.span == n.children@[k].span && ts_expression_of(n.children@[k], t.true_branch.element),
        exists|k: int| #![trigger n.children@[k]]
            0 <= k < n.children@.len() && (n.children@[k].field matches Some(f) && f@ == "false"@)
                && t.false_branch.span == n.children@[k].span && ts_expression_of(n.children@[k], t.false_branch.element),
{
    lemma_rem_block_range(n.children@, BlockEnds::NoEnds, BlockDelim::NoDelim);
    let r = items(n).0;
    assert(n.children@[r[1]] == item(n, 1));
    assert(n.children@[r[3]] == item(n, 3));
    assert(n.children@[r[5]] == item(n, 5));
}

/// A binary operation takes its left operand from the node in the field `left`, its right
/// operand from the node in the field `right`, and its operator is the one whose symbol is the
/// text of the node in the field `operator`.
pub proof fn law_binary_parts_by_field(n: TsSyntaxNode, b: Binary)
    requires
        ts_binary_of(n, b),
    ensures
        exists|k: int| #![trigger n.children@[k]]
            0 <= k < n.children@.len() && (n.children@[k].field matches Some(f) && f@ == "left"@)
                && b.left.span == n.children@[k].span && ts_expression_of(n.children@[k], b.left.element),
        exists|k: int| #![trigger n.children@[k]]
            0 <= k < n.children@.len() && (n.children@[k].field matches Some(f) && f@ == "operator"@)
                && (n.children@[k].text matches Some(s) && s@ == b.operator.symbol()),
        exists|k: int| #![trigger n.children@[k]]
            0 <= k < n.children@.len() && (n.children@[k].field matches Some(f) && f@ == "right"@)
                && b.right.span == n.children@[k].span && ts_expression_of(n.children@[k], b.right.element),
{
    lemma_rem_block_range(n.children@, BlockEnds::NoEnds, BlockDelim::NoDelim);
    let r = items(n).0;
    assert(n.children@[r[0]] == item(n, 0));
    assert(n.children@[r[1]] == item(n, 1));
    assert(n.children@[r[2]] == item(n, 2));
}

/// A unary operation takes its operand from the node in the field `expression`, and its
/// operator is the one whose symbol is the text of the node in the field `operator`.
pub proof fn law_unary_parts_by_field(n: TsSyntaxNode, u: Unary)
    requires
        ts_unary_of(n, u),
    ensures
        exists|k: int| #![trigger n.children@[k]]
            0 <= k < n.children@.len() && (n.children@[k].field matches Some(f) && f@ == "operator"@)
                && (n.children@[k].text matches Some(s) && s@ == u.operator.symbol()),
        exists|k: int| #![trigger n.children@[k]]
            0 <= k < n.children@.len() && (n.children@[k].field matches Some(f) && f@ == "expression"@)
                && u.expression.span == n.children@[k].span && ts_expression_of(n.children@[k], u.expression.element),
{
    lemma_rem_block_range(n.children@, BlockEnds::NoEnds, BlockDelim::NoDelim);
    let r = items(n).0;
    assert(n.children@[r[0]] == item(n, 0));
    assert(n.children@[r[1]] == item(n, 1));
}

/// The operator of the syntax tree that stands for the same operation as the model's `op`.
pub open spec fn ast_binary_operator_of(op: BinaryOperator) -> crate::ast::BinaryOperator {
    match op {
        BinaryOperator::Add => crate::ast::BinaryOperator::Add,
        BinaryOperator::Sub => crate::ast::BinaryOperator::Sub,
        BinaryOperator::Mul => crate::ast::BinaryOperator::Mul,
        BinaryOperator::Div => crate::ast::BinaryOperator::Div,
        BinaryOperator::Mod => crate::ast::BinaryOperator::Mod,
        BinaryOperator::Gt => crate::ast::BinaryOperator::Gt,
        BinaryOperator::Lt => crate::ast::BinaryOperator::Lt,
        BinaryOperator::Gte => crate::ast::BinaryOperator::Gte,
        BinaryOperator::Lte => crate::ast::BinaryOperator::Lte,
        BinaryOperator::Eq => crate::ast::BinaryOperator::Eq,
        BinaryOperator::Neq => crate::ast::BinaryOperator::Neq,
        BinaryOperator::And => crate::ast::BinaryOperator::And,
        BinaryOperator::Or => crate::ast::BinaryOperator::Or,
    }
}

/// The operator of the syntax tree that stands for the same operation as the model's `op`.
pub open spec fn ast_unary_operator_of(op: UnaryOperator) -> crate::ast::UnaryOperator {
    match op {
        UnaryOperator::Pos => crate::ast::UnaryOperator::Pos,
        UnaryOperator::Neg => crate::ast::UnaryOperator::Neg,
        UnaryOperator::Not => crate::ast::UnaryOperator::Not,
    }
}

/// The model and the syntax tree write each binary operation with the same symbol.
pub proof fn law_ast_binary_operator_symbols_agree(op: BinaryOperator)
    ensures
        ast_binary_operator_of(op).symbol() == op.symbol(),
{
}

/// The model and the syntax tree write each unary operation with the same symbol.
pub proof fn law_ast_unary_operator_symbols_agree(op: UnaryOperator)
    ensures
        ast_unary_operator_of(op).symbol() == op.symbol(),
{
}

} // verus!
