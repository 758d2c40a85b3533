//! Properties that relate the operations of the library to one another.
use crate::ast;
use crate::model::{
    element_count, first_invalid, first_task, first_workflow, integer_text, line_index, lines_increasing, negated_text, task_count,
    workflow_count, Anchor, BinaryOperator, DocumentElement, Integer, Span, Task, TaskElement,
    UnaryOperator, Workflow, WorkflowElement,
};
use crate::parsers::pest::workflow::trimmed_len;
use crate::radix::{digit_value, digits_of, lemma_digits_of};
use crate::parsers::tree_sitter::node::{
    block_shaped, bad, clean_children, closes, every_other_between, first_stop, is_comment, opens,
    lemma_first_stop, non_comments_from, rem_block, rem_delim, rem_item, rem_next, stops_scan, BlockDelim, BlockEnds,
};
use crate::parsers::tree_sitter::tree::TsSyntaxNode;
use vstd::prelude::*;

verus! {

/// Every binary operator is read back from its symbol: `from_str` of `to_string` gives the
/// operator again.
pub proof fn law_binary_operator_symbol_round_trip(op: BinaryOperator)
    ensures
        BinaryOperator::with_symbol(op.symbol()) == Some(op),
{
    reveal_strlit("+");
    reveal_strlit("-");
    reveal_strlit("*");
    reveal_strlit("/");
    reveal_strlit("%");
    reveal_strlit(">");
    reveal_strlit("<");
    reveal_strlit(">=");
    reveal_strlit("<=");
    reveal_strlit("==");
    reveal_strlit("!=");
    reveal_strlit("&&");
    reveal_strlit("||");
    let s = op.symbol();
    assert(s.len() == 1 ==> s != ">="@ && s != "<="@ && s != "=="@ && s != "!="@ && s != "&&"@
        && s != "||"@);
    assert(s.len() == 2 ==> s != "+"@ && s != "-"@ && s != "*"@ && s != "/"@ && s != "%"@ && s
        != ">"@ && s != "<"@);
    assert(s.len() == 1 ==> (s == "+"@ <==> s[0] == '+'));
    assert(s.len() == 1 ==> (s == "-"@ <==> s[0] == '-'));
    assert(s.len() == 1 ==> (s == "*"@ <==> s[0] == '*'));
    assert(s.len() == 1 ==> (s == "/"@ <==> s[0] == '/'));
    assert(s.len() == 1 ==> (s == "%"@ <==> s[0] == '%'));
    assert(s.len() == 1 ==> (s == ">"@ <==> s[0] == '>'));
    assert(s.len() == 2 ==> (s == ">="@ <==> s[0] == '>' && s[1] == '='));
    assert(s.len() == 2 ==> (s == "<="@ <==> s[0] == '<' && s[1] == '='));
    assert(s.len() == 2 ==> (s == "=="@ <==> s[0] == '=' && s[1] == '='));
    assert(s.len() == 2 ==> (s == "!="@ <==> s[0] == '!' && s[1] == '='));
    assert(s.len() == 2 ==> (s == "&&"@ <==> s[0] == '&' && s[1] == '&'));
}

/// Two unary operators with the same symbol are the same operator, so `from_str` of
/// `to_string` gives the operator again.
pub proof fn law_unary_operator_symbols_distinct(a: UnaryOperator, b: UnaryOperator)
    ensures
        a.symbol() == b.symbol() ==> a == b,
{
    reveal_strlit("+");
    reveal_strlit("-");
    reveal_strlit("!");
    assert(a.symbol()[0] == b.symbol()[0] ==> a == b);
}

/// Negating an integer literal twice gives it back, where its value is not `i64::MIN` (whose
/// negation does not fit).
pub proof fn law_integer_negate_twice(i: Integer)
    requires
        i.value() != i64::MIN,
    ensures
        i.with_value((-i.value()) as i64).value() != i64::MIN,
        i.with_value((-i.value()) as i64).with_value(
            (-i.with_value((-i.value()) as i64).value()) as i64,
        ) == i,
{
}

/// Negating the text of a float literal twice gives it back, unless the text starts with `+`
/// (which negation turns into `-`) or with a sign followed by another.
pub proof fn law_float_negate_twice(t: Seq<char>)
    requires
        !(t.len() > 0 && t[0] == '+'),
        !(t.len() > 1 && t[0] == '-' && (t[1] == '-' || t[1] == '+')),
    ensures
        negated_text(negated_text(t)) == t,
{
    if t.len() > 0 && t[0] == '-' {
        assert(seq!['-'] + t.skip(1) =~= t);
    } else {
        assert((seq!['-'] + t).skip(1) =~= t);
    }
}

/// Once a comment is inserted on a line, the comment on that line is the one inserted: the
/// comments `try_insert` leaves are found again by `get`.
pub proof fn law_comment_insert_then_get(
    before: Seq<(usize, Anchor<String>)>,
    k: int,
    line: usize,
    comment: Anchor<String>,
)
    requires
        0 <= k <= before.len(),
        line_index(before, line) is None,
        lines_increasing(before.insert(k, (line, comment))),
    ensures
        line_index(before.insert(k, (line, comment)), line) == Some(k),
        before.insert(k, (line, comment))[k].1 == comment,
{
    let after = before.insert(k, (line, comment));
    assert(after[k].0 == line);
    let i = choose|i: int| 0 <= i < after.len() && after[i].0 == line;
    if i < k {
        assert(after[i].0 < after[k].0);
    } else if i > k {
        assert(after[k].0 < after[i].0);
    }
}

/// Inserting a comment on one line leaves the comments of every other line as they were: what
/// `get` finds on another line before `try_insert`, it finds there after, and nothing where
/// it found nothing.
pub proof fn law_comment_insert_keeps_other_lines(
    before: Seq<(usize, Anchor<String>)>,
    k: int,
    line: usize,
    comment: Anchor<String>,
    other: usize,
)
    requires
        0 <= k <= before.len(),
        lines_increasing(before),
        line_index(before, line) is None,
        lines_increasing(before.insert(k, (line, comment))),
        other != line,
    ensures
        match line_index(before, other) {
            Some(i) => line_index(before.insert(k, (line, comment)), other) matches Some(j)
                && before.insert(k, (line, comment))[j].1 == before[i].1,
            None => line_index(before.insert(k, (line, comment)), other) is None,
        },
{
    let after = before.insert(k, (line, comment));
    if exists|i: int| 0 <= i < before.len() && before[i].0 == other {
        let i = choose|i: int| 0 <= i < before.len() && before[i].0 == other;
        let j = if i < k { i } else { i + 1 };
        assert(after[j] == before[i]);
        let jj = choose|x: int| 0 <= x < after.len() && after[x].0 == other;
        if jj < j {
            assert(after[jj].0 < after[j].0);
        } else if jj > j {
            assert(after[j].0 < after[jj].0);
        }
    } else {
        assert forall|x: int| 0 <= x < after.len() implies after[x].0 != other by {
            if x < k {
                assert(after[x] == before[x]);
            } else if x > k {
                assert(after[x] == before[x - 1]);
            }
        }
    }
}

/// The comment that `s` holds on `line`, as `get` finds it.
pub open spec fn comment_on(s: Seq<(usize, Anchor<String>)>, line: usize) -> Option<Anchor<String>> {
    match line_index(s, line) {
        Some(i) => Some(s[i].1),
        None => None,
    }
}

/// The comment of the first of the insertions `ops` made on `line`, if any was.
pub open spec fn first_insert_on(ops: Seq<(usize, Anchor<String>)>, line: usize) -> Option<Anchor<String>>
    decreases ops.len(),
{
    if ops.len() == 0 {
        None
    } else {
        match first_insert_on(ops.drop_last(), line) {
            Some(c) => Some(c),
            None => if ops.last().0 == line {
                Some(ops.last().1)
            } else {
                None
            },
        }
    }
}

/// `states` is what `try_insert` leaves after each of the insertions `ops`, from no comments:
/// each state is the one before where the line is taken, and otherwise the one before with the
/// comment inserted, its lines still in order.
pub open spec fn insert_history(
    states: Seq<Seq<(usize, Anchor<String>)>>,
    ops: Seq<(usize, Anchor<String>)>,
) -> bool {
    &&& states.len() == ops.len() + 1
    &&& states[0] == Seq::<(usize, Anchor<String>)>::empty()
    &&& forall|i: int|
        0 <= i < ops.len() ==> {
            &&& lines_increasing(#[trigger] states[i + 1])
            &&& if line_index(states[i], ops[i].0) is Some {
                states[i + 1] == states[i]
            } else {
                exists|k: int| 0 <= k <= states[i].len() && states[i + 1] == states[i].insert(k, ops[i])
            }
        }
}

/// After the first `j` insertions of a history, each line holds the comment first inserted on
/// it among them, and the lines are in order.
proof fn lemma_comment_history_prefix(
    states: Seq<Seq<(usize, Anchor<String>)>>,
    ops: Seq<(usize, Anchor<String>)>,
    line: usize,
    j: int,
)
    requires
        insert_history(states, ops),
        0 <= j <= ops.len(),
    ensures
        lines_increasing(states[j]),
        comment_on(states[j], line) == first_insert_on(ops.take(j), line),
    decreases j,
{
    if j == 0 {
        assert(ops.take(0).len() == 0);
    } else {
        lemma_comment_history_prefix(states, ops, line, j - 1);
        let before = states[j - 1];
        let after = states[(j - 1) + 1];
        let op = ops[j - 1];
        assert(lines_increasing(after));
        assert(ops.take(j).drop_last() =~= ops.take(j - 1));
        assert(ops.take(j).last() == op);
        if line_index(before, op.0) is Some {
            assert(after == before);
            if op.0 == line {
                assert(first_insert_on(ops.take(j - 1), line) is Some);
            }
        } else {
            let k = choose|k: int| 0 <= k <= before.len() && after == before.insert(k, op);
            if op.0 == line {
                law_comment_insert_then_get(before, k, op.0, op.1);
            } else {
                law_comment_insert_keeps_other_lines(before, k, op.0, op.1, line);
            }
        }
    }
}

/// A line keeps the comment first inserted on it: after any history of `try_insert`, `get`
/// finds on each line the comment of the first insertion made on that line, and nothing on a
/// line where none was made.
pub proof fn law_comment_history(
    states: Seq<Seq<(usize, Anchor<String>)>>,
    ops: Seq<(usize, Anchor<String>)>,
    line: usize,
)
    requires
        insert_history(states, ops),
    ensures
        comment_on(states.last(), line) == first_insert_on(ops, line),
{
    lemma_comment_history_prefix(states, ops, line, ops.len() as int);
    assert(ops.take(ops.len() as int) =~= ops);
}

/// Trimming the end of a span by `n` shortens it by `n`.
pub proof fn law_trim_end_shortens(before: Span, after: Span, n: usize)
    requires
        after.start == before.start,
        after.end.offset == before.end.offset - n,
        after.start.offset <= after.end.offset,
    ensures
        after.end.offset - after.start.offset == (before.end.offset - before.start.offset) - n,
{
}

/// Trimming trailing white space is idempotent: a trimmed part of a qualified identifier has
/// no trailing white space left.
pub proof fn law_trim_idempotent(s: Seq<char>)
    ensures
        trimmed_len(s) <= s.len(),
        trimmed_len(s.take(trimmed_len(s) as int)) == trimmed_len(s),
    decreases s.len(),
{
    if s.len() > 0 && crate::parsers::pest::workflow::is_whitespace_char(s.last()) {
        law_trim_idempotent(s.drop_last());
        assert(s.take(trimmed_len(s) as int) =~= s.drop_last().take(trimmed_len(s) as int));
    } else {
        assert(s.take(s.len() as int) =~= s);
    }
}

/// The first workflow of a body is a workflow with none before it, and the first task is a
/// task with none before it; where there is none, no element is of that kind.
pub proof fn law_first_element_kinds(body: Seq<Anchor<DocumentElement>>)
    ensures
        first_workflow(body) matches Some(i) ==> 0 <= i < body.len() && body[i].element is Workflow,
        first_task(body) matches Some(i) ==> 0 <= i < body.len() && body[i].element is Task,
        first_workflow(body) matches Some(i) ==> forall|j: int| 0 <= j < i ==> !(body[j].element is Workflow),
        first_task(body) matches Some(i) ==> forall|j: int| 0 <= j < i ==> !(body[j].element is Task),
        first_workflow(body) is None ==> forall|j: int| 0 <= j < body.len() ==> !(body[j].element is Workflow),
        first_task(body) is None ==> forall|j: int| 0 <= j < body.len() ==> !(body[j].element is Task),
        workflow_count(body) > 0 ==> first_workflow(body) is Some,
        task_count(body) > 0 ==> first_task(body) is Some,
    decreases body.len(),
{
    if body.len() > 0 {
        let t = body.drop_last();
        law_first_element_kinds(t);
        assert forall|j: int| 0 <= j < t.len() implies body[j] == t[j] by {}
    }
}

/// The primary element of a document is a workflow, or its only task; a document with a
/// workflow has that workflow as its primary element.
pub proof fn law_primary_element(d: crate::model::Document)
    ensures
        d.primary_index() matches Some(i) ==> 0 <= i < d.body@.len() && (d.body@[i].element is Workflow
            || (d.body@[i].element is Task && task_count(d.body@) == 1)),
        workflow_count(d.body@) > 0 ==> d.primary_index() == first_workflow(d.body@),
        d.primary_index() matches Some(i) ==> (d.body@[i].element is Workflow ==> forall|j: int|
            0 <= j < i ==> !(d.body@[j].element is Workflow)),
        d.primary_index() is None ==> (forall|j: int| 0 <= j < d.body@.len() ==> !(d.body@[j].element is Workflow))
            && task_count(d.body@) != 1,
{
    law_first_element_kinds(d.body@);
}

/// Every binary operator of the syntax tree but `&&` and `||` is read back from its symbol.
pub proof fn law_ast_binary_operator_round_trip(op: ast::BinaryOperator)
    requires
        op != ast::BinaryOperator::And,
        op != ast::BinaryOperator::Or,
    ensures
        ast::BinaryOperator::parsed_from(op.symbol()) == Some(op),
{
    reveal_strlit("+");
    reveal_strlit("-");
    reveal_strlit("*");
    reveal_strlit("/");
    reveal_strlit("%");
    reveal_strlit(">");
    reveal_strlit("<");
    reveal_strlit(">=");
    reveal_strlit("<=");
    reveal_strlit("==");
    reveal_strlit("!=");
    let s = op.symbol();
    assert(s.len() == 1 ==> s != ">="@ && s != "<="@ && s != "=="@ && s != "!="@);
    assert(s.len() == 2 ==> s != "+"@ && s != "-"@ && s != "*"@ && s != "/"@ && s != "%"@ && s
        != ">"@ && s != "<"@);
    assert(s.len() == 1 ==> (s == "+"@ <==> s[0] == '+'));
    assert(s.len() == 1 ==> (s == "-"@ <==> s[0] == '-'));
    assert(s.len() == 1 ==> (s == "*"@ <==> s[0] == '*'));
    assert(s.len() == 1 ==> (s == "/"@ <==> s[0] == '/'));
    assert(s.len() == 1 ==> (s == "%"@ <==> s[0] == '%'));
    assert(s.len() == 1 ==> (s == ">"@ <==> s[0] == '>'));
    assert(s.len() == 2 ==> (s == ">="@ <==> s[0] == '>' && s[1] == '='));
    assert(s.len() == 2 ==> (s == "<="@ <==> s[0] == '<' && s[1] == '='));
    assert(s.len() == 2 ==> (s == "=="@ <==> s[0] == '=' && s[1] == '='));
}

/// Negating the text of a scientific literal of the syntax tree twice gives it back, unless
/// the text starts with `--`.
pub proof fn law_ast_scientific_negate_twice(t: Seq<char>)
    requires
        !(t.len() > 1 && t[0] == '-' && t[1] == '-'),
    ensures
        ast::negated_scientific(ast::negated_scientific(t)) == t,
{
    if t.len() > 0 && t[0] == '-' {
        assert(seq!['-'] + t.skip(1) =~= t);
    } else {
        assert((seq!['-'] + t).skip(1) =~= t);
    }
}

proof fn lemma_skip_comments(cs: Seq<TsSyntaxNode>, i: int)
    requires
        0 <= i <= cs.len(),
        clean_children(cs),
    ensures
        first_stop(cs, i) >= cs.len() ==> non_comments_from(cs, i) == Seq::<int>::empty(),
        first_stop(cs, i) < cs.len() ==> non_comments_from(cs, i) == non_comments_from(
            cs,
            first_stop(cs, i),
        ) && !is_comment(cs[first_stop(cs, i)]),
    decreases cs.len() - i,
{
    if i < cs.len() && !stops_scan(cs[i]) {
        lemma_skip_comments(cs, i + 1);
    }
}

proof fn lemma_items_are_non_comments(cs: Seq<TsSyntaxNode>, i: int)
    requires
        0 <= i <= cs.len(),
        clean_children(cs),
    ensures
        rem_item(cs, i, BlockEnds::NoEnds, BlockDelim::NoDelim) == (non_comments_from(cs, i), true),
    decreases cs.len() - i,
{
    lemma_first_stop(cs, i);
    lemma_skip_comments(cs, i);
    let j = first_stop(cs, i);
    if j < cs.len() {
        if j + 1 < cs.len() {
            lemma_items_are_non_comments(cs, j + 1);
        } else {
            assert(non_comments_from(cs, j + 1) == Seq::<int>::empty());
        }
        assert(non_comments_from(cs, j) == seq![j] + non_comments_from(cs, j + 1));
    }
}

/// Reading the children of a node as a block without ends or delimiter gives its children
/// that are not comments, in order, whatever their kind, and ends well, when no child is an
/// error or missing and only comments are extras.
pub proof fn law_children_are_non_comments(cs: Seq<TsSyntaxNode>)
    requires
        clean_children(cs),
    ensures
        rem_block(cs, BlockEnds::NoEnds, BlockDelim::NoDelim) == (non_comments_from(cs, 0), true),
{
    if cs.len() > 0 {
        lemma_items_are_non_comments(cs, 0);
    }
}

proof fn lemma_non_comments_range(cs: Seq<TsSyntaxNode>, i: int)
    requires
        0 <= i,
    ensures
        forall|t: int|
            0 <= t < non_comments_from(cs, i).len() ==> i <= #[trigger] non_comments_from(cs, i)[t]
                < cs.len(),
    decreases cs.len() - i,
{
    if i < cs.len() {
        lemma_non_comments_range(cs, i + 1);
        let r = non_comments_from(cs, i + 1);
        if !is_comment(cs[i]) {
            assert forall|t: int| 0 <= t < (seq![i] + r).len() implies i <= #[trigger] (seq![i]
                + r)[t] < cs.len() by {
                if t > 0 {
                    assert((seq![i] + r)[t] == r[t - 1]);
                }
            }
        }
    }
}

proof fn lemma_no_more_items(cs: Seq<TsSyntaxNode>, i: int)
    requires
        0 <= i <= cs.len(),
        clean_children(cs),
        non_comments_from(cs, i).len() == 0,
    ensures
        first_stop(cs, i) >= cs.len(),
{
    lemma_first_stop(cs, i);
    lemma_skip_comments(cs, i);
    if first_stop(cs, i) < cs.len() {
        assert(non_comments_from(cs, first_stop(cs, i)).len() > 0);
    }
}

/// Where the children not yet read from `i` on are those of `nc` from `t` on, the scan from `i`
/// stops at the `t`th of them, and those after it are those of `nc` after `t`.
proof fn lemma_next_of(cs: Seq<TsSyntaxNode>, nc: Seq<int>, i: int, t: int)
    requires
        0 <= i <= cs.len(),
        clean_children(cs),
        0 <= t < nc.len(),
        non_comments_from(cs, i) == nc.skip(t),
    ensures
        first_stop(cs, i) == nc[t],
        0 <= i <= nc[t] < cs.len(),
        !is_comment(cs[nc[t]]),
        !bad(cs[nc[t]]),
        non_comments_from(cs, nc[t] + 1) == nc.skip(t + 1),
{
    lemma_first_stop(cs, i);
    lemma_skip_comments(cs, i);
    let j = first_stop(cs, i);
    if j >= cs.len() {
        assert(nc.skip(t).len() > 0);
    }
    assert(non_comments_from(cs, j) == seq![j] + non_comments_from(cs, j + 1));
    assert(nc.skip(t) =~= seq![nc[t]] + nc.skip(t + 1));
    assert((seq![j] + non_comments_from(cs, j + 1))[0] == j);
    assert(nc.skip(t)[0] == nc[t]);
    assert(non_comments_from(cs, j + 1) =~= (seq![j] + non_comments_from(cs, j + 1)).drop_first());
    assert(nc.skip(t + 1) =~= (seq![nc[t]] + nc.skip(t + 1)).drop_first());
}

proof fn lemma_plain_block_items(cs: Seq<TsSyntaxNode>, ends: BlockEnds, i: int, t: int)
    requires
        block_shaped(cs, ends, BlockDelim::NoDelim),
        ends != BlockEnds::NoEnds,
        0 <= i <= cs.len(),
        1 <= t <= non_comments_from(cs, 0).len() - 1,
        non_comments_from(cs, i) == non_comments_from(cs, 0).skip(t),
    ensures
        rem_item(cs, i, ends, BlockDelim::NoDelim) == (non_comments_from(cs, 0).subrange(
            t,
            non_comments_from(cs, 0).len() - 1,
        ), true),
    decreases cs.len() - i,
{
    let nc = non_comments_from(cs, 0);
    let n = nc.len() as int;
    lemma_non_comments_range(cs, 0);
    lemma_next_of(cs, nc, i, t);
    let j = nc[t];
    if t == n - 1 {
        assert(closes(ends, cs[j]));
        if j + 1 < cs.len() {
            lemma_no_more_items(cs, j + 1);
        }
        assert(nc.subrange(t, n - 1) =~= Seq::<int>::empty());
    } else {
        assert(!closes(ends, cs[j]));
        lemma_next_of(cs, nc, j + 1, t + 1);
        lemma_plain_block_items(cs, ends, j + 1, t + 1);
        assert(nc.subrange(t, n - 1) =~= seq![j] + nc.subrange(t + 1, n - 1));
    }
}

proof fn lemma_delimited_block_items(
    cs: Seq<TsSyntaxNode>,
    ends: BlockEnds,
    delim: BlockDelim,
    i: int,
    t: int,
)
    requires
        block_shaped(cs, ends, delim),
        ends != BlockEnds::NoEnds,
        delim != BlockDelim::NoDelim,
        0 <= i <= cs.len(),
        1 <= t <= non_comments_from(cs, 0).len() - 1,
        t % 2 == 1 || t == non_comments_from(cs, 0).len() - 1,
        non_comments_from(cs, i) == non_comments_from(cs, 0).skip(t),
    ensures
        rem_item(cs, i, ends, delim) == (every_other_between(
            t,
            non_comments_from(cs, 0).len() - 1,
        ).map_values(|k: int| non_comments_from(cs, 0)[k]), true),
    decreases cs.len() - i,
{
    let nc = non_comments_from(cs, 0);
    let n = nc.len() as int;
    let f = |k: int| nc[k];
    lemma_non_comments_range(cs, 0);
    lemma_next_of(cs, nc, i, t);
    let j = nc[t];
    if t == n - 1 {
        assert(closes(ends, cs[j]));
        if j + 1 < cs.len() {
            lemma_no_more_items(cs, j + 1);
        }
        assert(every_other_between(t, n - 1).map_values(f) =~= Seq::<int>::empty());
    } else {
        assert(!closes(ends, cs[j]));
        lemma_next_of(cs, nc, j + 1, t + 1);
        let j2 = nc[t + 1];
        let r = rem_delim(cs, j + 1, ends, delim);
        assert(rem_next(cs, j, ends, delim, true) == r);
        if t + 1 == n - 1 {
            assert(closes(ends, cs[j2]));
            if j2 + 1 < cs.len() {
                lemma_no_more_items(cs, j2 + 1);
            }
            assert(r == (Seq::<int>::empty(), true));
            assert(every_other_between(t, n - 1) == seq![t]);
            assert(every_other_between(t, n - 1).map_values(f) =~= seq![j] + r.0);
        } else {
            assert(!closes(ends, cs[j2]));
            assert(BlockDelim::delim_of(cs[j2].kind@) == delim);
            lemma_next_of(cs, nc, j2 + 1, t + 2);
            lemma_delimited_block_items(cs, ends, delim, j2 + 1, t + 2);
            assert(r == rem_item(cs, j2 + 1, ends, delim));
            if t + 2 >= n - 1 {
                assert(every_other_between(t, n - 1) == seq![t]);
                assert(every_other_between(t + 2, n - 1) =~= Seq::<int>::empty());
            } else {
                assert(every_other_between(t, n - 1) == seq![t] + every_other_between(t + 2, n - 1));
            }
            assert(every_other_between(t, n - 1).map_values(f) =~= seq![j] + every_other_between(
                t + 2,
                n - 1,
            ).map_values(f));
        }
        assert(rem_item(cs, i, ends, delim) == (seq![j] + r.0, r.1));
    }
}

/// Reading the children of a node as a block with `ends` and `delim` gives the children between
/// the opening and closing symbols that are neither comments nor delimiters, in order, and ends
/// well, when the children form such a block, comments anywhere and a delimiter allowed right
/// before the closing symbol.
pub proof fn law_block_items(cs: Seq<TsSyntaxNode>, ends: BlockEnds, delim: BlockDelim)
    requires
        ends != BlockEnds::NoEnds,
        ends != BlockEnds::Quotes,
        block_shaped(cs, ends, delim),
    ensures
        rem_block(cs, ends, delim) == (if delim == BlockDelim::NoDelim {
            non_comments_from(cs, 0).subrange(1, non_comments_from(cs, 0).len() - 1)
        } else {
            every_other_between(1, non_comments_from(cs, 0).len() - 1).map_values(
                |k: int| non_comments_from(cs, 0)[k],
            )
        }, true),
{
    let nc = non_comments_from(cs, 0);
    lemma_non_comments_range(cs, 0);
    assert(nc.skip(0) =~= nc);
    lemma_next_of(cs, nc, 0, 0);
    let j = nc[0];
    assert(opens(ends, BlockEnds::open_of(cs[j].kind@)));
    lemma_next_of(cs, nc, j + 1, 1);
    if delim == BlockDelim::NoDelim {
        lemma_plain_block_items(cs, ends, j + 1, 1);
    } else {
        lemma_delimited_block_items(cs, ends, delim, j + 1, 1);
    }
}

/// How `{}` writes the integer `n`: a `-` before the digits of a negative one.
pub open spec fn decimal_text(n: i64) -> Seq<char> {
    if n < 0 {
        seq!['-'] + digits_of((-n) as nat, 10)
    } else {
        digits_of(n as nat, 10)
    }
}

/// An integer read back from how it is written is the integer again: its decimal text reads as
/// a decimal literal of it, and, when it is not negative, `0x` and its upper-case hexadecimal
/// digits read as a hexadecimal literal of it, `0` and its octal digits as an octal literal.
pub proof fn law_integer_text_round_trip(n: i64)
    ensures
        integer_text(decimal_text(n)) == Some(Integer::Decimal(n)),
        n >= 0 ==> integer_text(seq!['0', 'x'] + digits_of(n as nat, 16)) == Some(Integer::Hex(n)),
        n >= 0 ==> integer_text(seq!['0'] + digits_of(n as nat, 8)) == Some(Integer::Octal(n)),
{
    if n < 0 {
        let v = (-n) as nat;
        lemma_digits_of(v, 10);
        let s = decimal_text(n);
        assert(s.drop_first() =~= digits_of(v, 10));
        assert(s[0] == '-');
    } else {
        let v = n as nat;
        lemma_digits_of(v, 10);
        let s = decimal_text(n);
        assert(!(s.len() > 1 && s[0] == '0')) by {
            if s.len() > 1 {
                assert(v >= 10) by {
                    if v < 10 {
                        assert(s.len() == 1);
                    }
                }
            }
        }
        lemma_digits_of(v, 16);
        let h = seq!['0', 'x'] + digits_of(v, 16);
        assert(h.skip(2) =~= digits_of(v, 16));
        lemma_digits_of(v, 8);
        let o = seq!['0'] + digits_of(v, 8);
        assert(o.skip(1) =~= digits_of(v, 8));
        assert(o[1] == digits_of(v, 8)[0]);
        assert('0' <= o[1] <= '7') by {
            let c = digits_of(v, 8)[0];
            assert(digit_value(c, 8) is Some);
        }
    }
}

/// A document validates exactly when each of its tasks and workflows validates, it holds a
/// struct, task or workflow, and at most one workflow.
pub proof fn law_document_valid_parts(d: crate::model::Document)
    ensures
        d.is_valid() <==> {
            &&& forall|i: int| 0 <= i < d.body@.len() ==> ((#[trigger] d.body@[i]).element matches DocumentElement::Task(t) ==> t.is_valid())
            &&& forall|i: int| 0 <= i < d.body@.len() ==> ((#[trigger] d.body@[i]).element matches DocumentElement::Workflow(w) ==> w.is_valid())
            &&& element_count(d.body@) >= 1
            &&& workflow_count(d.body@) <= 1
        },
{
    let body = d.body@;
    if forall|i: int| 0 <= i < body.len() ==> ((#[trigger] body[i]).element matches DocumentElement::Task(t) ==> t.is_valid())
        && (body[i].element matches DocumentElement::Workflow(w) ==> w.is_valid()) {
        assert forall|i: int| 0 <= i < body.len() implies !(#[trigger] body[i].element.is_invalid()) by {}
    }
    if first_invalid(body) is None {
        assert forall|i: int| 0 <= i < body.len() implies ((#[trigger] body[i]).element matches DocumentElement::Task(t) ==> t.is_valid()) by {
            assert(!body[i].element.is_invalid());
        }
        assert forall|i: int| 0 <= i < body.len() implies ((#[trigger] body[i]).element matches DocumentElement::Workflow(w) ==> w.is_valid()) by {
            assert(!body[i].element.is_invalid());
        }
    }
}

/// How many items of `s` satisfy `p`.
pub open spec fn count_where<A>(s: Seq<A>, p: spec_fn(A) -> bool) -> nat
    decreases s.len(),
{
    if s.len() == 0 {
        0
    } else {
        count_where(s.drop_last(), p) + if p(s.last()) {
            1nat
        } else {
            0nat
        }
    }
}

/// Some item satisfies `p` exactly when the count is at least one; no two do exactly when it
/// is at most one.
proof fn lemma_count_where<A>(s: Seq<A>, p: spec_fn(A) -> bool)
    ensures
        count_where(s, p) >= 1 <==> exists|i: int| 0 <= i < s.len() && p(s[i]),
        count_where(s, p) <= 1 <==> forall|i: int, j: int|
            0 <= i < j < s.len() ==> !(p(s[i]) && p(s[j])),
    decreases s.len(),
{
    if s.len() > 0 {
        let t = s.drop_last();
        let n = s.len() - 1;
        lemma_count_where(t, p);
        assert forall|i: int| 0 <= i < n implies t[i] == s[i] by {}
        if count_where(s, p) >= 1 {
            if !p(s[n]) {
                let i = choose|i: int| 0 <= i < t.len() && p(t[i]);
                assert(p(s[i]));
            }
        }
        if exists|i: int| 0 <= i < s.len() && p(s[i]) {
            let i = choose|i: int| 0 <= i < s.len() && p(s[i]);
            if i < n {
                assert(p(t[i]));
            }
        }
        if count_where(s, p) <= 1 {
            assert forall|i: int, j: int| 0 <= i < j < s.len() implies !(p(s[i]) && p(s[j])) by {
                if p(s[i]) && p(s[j]) {
                    if j < n {
                        assert(p(t[i]) && p(t[j]));
                    } else {
                        assert(p(t[i]));
                    }
                }
            }
        }
        if forall|i: int, j: int| 0 <= i < j < s.len() ==> !(p(s[i]) && p(s[j])) {
            assert forall|i: int, j: int| 0 <= i < j < t.len() implies !(p(t[i]) && p(t[j])) by {
                assert(s[i] == t[i] && s[j] == t[j]);
            }
            if p(s[n]) {
                assert forall|i: int| 0 <= i < t.len() implies !p(t[i]) by {
                    assert(s[i] == t[i]);
                }
            }
        }
    }
}

/// How many elements of a task body are of the kind numbered `k`.
pub open spec fn task_kind_count(body: Seq<Anchor<TaskElement>>, k: int) -> nat {
    count_where(body, |a: Anchor<TaskElement>| a.element.tag() == k)
}

/// A valid task body holds one command and at most one element of each other kind but
/// declarations.
proof fn lemma_task_valid_has_counts(body: Seq<Anchor<TaskElement>>)
    requires
        !(exists|i: int| 0 <= i < body.len() && crate::model::task_repeat_at(body, i)),
        crate::model::has_command(body),
    ensures
        task_kind_count(body, 3) == 1,
        forall|k: int| 0 <= k <= 6 && k != 2 ==> #[trigger] task_kind_count(body, k) <= 1,
{
    assert forall|k: int| 0 <= k <= 6 && k != 2 implies #[trigger] task_kind_count(body, k) <= 1 by {
        lemma_count_where(body, |a: Anchor<TaskElement>| a.element.tag() == k);
        assert forall|i: int, j: int| 0 <= i < j < body.len() implies !(body[i].element.tag() == k
            && body[j].element.tag() == k) by {
            if body[i].element.tag() == k && body[j].element.tag() == k {
                assert(crate::model::task_repeat_at(body, j));
            }
        }
    }
    lemma_count_where(body, |a: Anchor<TaskElement>| a.element.tag() == 3);
    let c = choose|i: int| 0 <= i < body.len() && body[i].element is Command;
    assert(body[c].element.tag() == 3);
}

/// A task body with one command and at most one element of each other kind but declarations
/// repeats no kind and holds a command.
proof fn lemma_task_counts_make_valid(body: Seq<Anchor<TaskElement>>)
    requires
        task_kind_count(body, 3) == 1,
        forall|k: int| 0 <= k <= 6 && k != 2 ==> #[trigger] task_kind_count(body, k) <= 1,
    ensures
        !(exists|i: int| 0 <= i < body.len() && crate::model::task_repeat_at(body, i)),
        crate::model::has_command(body),
{
    if exists|i: int| 0 <= i < body.len() && crate::model::task_repeat_at(body, i) {
        let i = choose|i: int| 0 <= i < body.len() && crate::model::task_repeat_at(body, i);
        let j = choose|j: int| 0 <= j < i && #[trigger] body[j].element.tag() == body[i].element.tag();
        let k = body[i].element.tag();
        lemma_count_where(body, |a: Anchor<TaskElement>| a.element.tag() == k);
        assert(task_kind_count(body, k) <= 1);
        assert(false);
    }
    lemma_count_where(body, |a: Anchor<TaskElement>| a.element.tag() == 3);
    let c = choose|i: int| 0 <= i < body.len() && body[i].element.tag() == 3;
    assert(body[c].element is Command);
}

/// A task validates exactly when it holds one command and at most one element of each other
/// kind but declarations (kind 2).
pub proof fn law_task_valid_counts(t: Task)
    ensures
        t.is_valid() <==> task_kind_count(t.body@, 3) == 1 && forall|k: int|
            0 <= k <= 6 && k != 2 ==> #[trigger] task_kind_count(t.body@, k) <= 1,
{
    let body = t.body@;
    if t.is_valid() {
        lemma_task_valid_has_counts(body);
    }
    if task_kind_count(body, 3) == 1 && forall|k: int|
        0 <= k <= 6 && k != 2 ==> #[trigger] task_kind_count(body, k) <= 1 {
        lemma_task_counts_make_valid(body);
    }
}

/// How many elements of the body of a task of the syntax tree are of the kind numbered `k`.
pub open spec fn ast_task_kind_count(body: Seq<ast::Node<ast::TaskElement>>, k: int) -> nat {
    count_where(body, |a: ast::Node<ast::TaskElement>| a.element.tag() == k)
}

/// A valid task body holds one command and at most one element of each other kind but
/// declarations.
proof fn lemma_ast_task_valid_has_counts(body: Seq<ast::Node<ast::TaskElement>>)
    requires
        !(exists|i: int| 0 <= i < body.len() && ast::task_repeat_at(body, i)),
        exists|i: int| 0 <= i < body.len() && body[i].element is Command,
    ensures
        ast_task_kind_count(body, 3) == 1,
        forall|k: int| 0 <= k <= 6 && k != 2 ==> #[trigger] ast_task_kind_count(body, k) <= 1,
{
    assert forall|k: int| 0 <= k <= 6 && k != 2 implies #[trigger] ast_task_kind_count(body, k) <= 1 by {
        lemma_count_where(body, |a: ast::Node<ast::TaskElement>| a.element.tag() == k);
        assert forall|i: int, j: int| 0 <= i < j < body.len() implies !(body[i].element.tag() == k
            && body[j].element.tag() == k) by {
            if body[i].element.tag() == k && body[j].element.tag() == k {
                assert(ast::task_repeat_at(body, j));
            }
        }
    }
    lemma_count_where(body, |a: ast::Node<ast::TaskElement>| a.element.tag() == 3);
    let c = choose|i: int| 0 <= i < body.len() && body[i].element is Command;
    assert(body[c].element.tag() == 3);
}

/// A task body with one command and at most one element of each other kind but declarations
/// repeats no kind and holds a command.
proof fn lemma_ast_task_counts_make_valid(body: Seq<ast::Node<ast::TaskElement>>)
    requires
        ast_task_kind_count(body, 3) == 1,
        forall|k: int| 0 <= k <= 6 && k != 2 ==> #[trigger] ast_task_kind_count(body, k) <= 1,
    ensures
        !(exists|i: int| 0 <= i < body.len() && ast::task_repeat_at(body, i)),
        exists|i: int| 0 <= i < body.len() && body[i].element is Command,
{
    if exists|i: int| 0 <= i < body.len() && ast::task_repeat_at(body, i) {
        let i = choose|i: int| 0 <= i < body.len() && ast::task_repeat_at(body, i);
        let j = choose|j: int| 0 <= j < i && #[trigger] body[j].element.tag() == body[i].element.tag();
        let k = body[i].element.tag();
        lemma_count_where(body, |a: ast::Node<ast::TaskElement>| a.element.tag() == k);
        assert(ast_task_kind_count(body, k) <= 1);
        assert(false);
    }
    lemma_count_where(body, |a: ast::Node<ast::TaskElement>| a.element.tag() == 3);
    let c = choose|i: int| 0 <= i < body.len() && body[i].element.tag() == 3;
    assert(body[c].element is Command);
}

/// A task of the syntax tree validates exactly when it holds one command and at most one element of each other
/// kind but declarations (kind 2).
pub proof fn law_ast_task_valid_counts(t: ast::Task)
    ensures
        t.is_valid() <==> ast_task_kind_count(t.body@, 3) == 1 && forall|k: int|
            0 <= k <= 6 && k != 2 ==> #[trigger] ast_task_kind_count(t.body@, k) <= 1,
{
    let body = t.body@;
    if t.is_valid() {
        lemma_ast_task_valid_has_counts(body);
    }
    if ast_task_kind_count(body, 3) == 1 && forall|k: int|
        0 <= k <= 6 && k != 2 ==> #[trigger] ast_task_kind_count(body, k) <= 1 {
        lemma_ast_task_counts_make_valid(body);
    }
}

/// How many elements of a workflow body are of the kind numbered `k`.
pub open spec fn workflow_kind_count(body: Seq<Anchor<WorkflowElement>>, k: int) -> nat {
    count_where(body, |a: Anchor<WorkflowElement>| a.element.tag() == k)
}

/// A workflow body that repeats no kind holds at most one element of each unique kind, and
/// the other way round.
proof fn lemma_workflow_counts(body: Seq<Anchor<WorkflowElement>>)
    ensures
        !(exists|i: int| 0 <= i < body.len() && crate::model::workflow_repeat_at(body, i))
            <==> forall|k: int| (k == 0 || k == 1 || k == 6 || k == 7) ==> #[trigger] workflow_kind_count(
            body,
            k,
        ) <= 1,
{
    if !(exists|i: int| 0 <= i < body.len() && crate::model::workflow_repeat_at(body, i)) {
        assert forall|k: int| (k == 0 || k == 1 || k == 6 || k == 7) implies #[trigger] workflow_kind_count(
            body,
            k,
        ) <= 1 by {
            lemma_count_where(body, |a: Anchor<WorkflowElement>| a.element.tag() == k);
            assert forall|i: int, j: int| 0 <= i < j < body.len() implies !(body[i].element.tag() == k
                && body[j].element.tag() == k) by {
                if body[i].element.tag() == k && body[j].element.tag() == k {
                    assert(crate::model::workflow_repeat_at(body, j));
                }
            }
        }
    } else {
        let i = choose|i: int| 0 <= i < body.len() && crate::model::workflow_repeat_at(body, i);
        let j = choose|j: int| 0 <= j < i && #[trigger] body[j].element.tag() == body[i].element.tag();
        let k = body[i].element.tag();
        lemma_count_where(body, |a: Anchor<WorkflowElement>| a.element.tag() == k);
        assert(!(workflow_kind_count(body, k) <= 1));
    }
}

/// A workflow validates exactly when it holds at most one input (kind 0), output (kind 1),
/// meta (kind 6) and parameter meta (kind 7) element.
pub proof fn law_workflow_valid_counts(w: Workflow)
    ensures
        w.is_valid() <==> forall|k: int|
            (k == 0 || k == 1 || k == 6 || k == 7) ==> #[trigger] workflow_kind_count(w.body@, k) <= 1,
{
    lemma_workflow_counts(w.body@);
}

} // verus!
