//! Nodes of the parse tree as the model's builders walk them: a node, and an iterator over the
//! nodes nested in it that skips comments and the end of input.
use crate::model::{line_index, lines_increasing, Anchor, Comments, ModelError, Span};
use crate::parsers::pest::rules::WdlRule;
use crate::parsers::pest::tree::SyntaxNode;
use vstd::prelude::*;

verus! {

/// `true` for the matches that the model's builders step over: comments and the end of input.
pub open spec fn hidden(n: SyntaxNode) -> bool {
    n.rule == WdlRule::COMMENT || n.rule == WdlRule::EOI
}

/// The index of the first node of `cs` at or after `i` that is not hidden, or `cs.len()`.
pub open spec fn next_visible(cs: Seq<SyntaxNode>, i: int) -> int
    decreases cs.len() - i,
{
    if i >= cs.len() {
        cs.len() as int
    } else if !hidden(cs[i]) {
        i
    } else {
        next_visible(cs, i + 1)
    }
}

pub proof fn lemma_next_visible(cs: Seq<SyntaxNode>, i: int)
    requires
        0 <= i <= cs.len(),
    ensures
        i <= next_visible(cs, i) <= cs.len(),
        next_visible(cs, i) < cs.len() ==> !hidden(cs[next_visible(cs, i)]),
        forall|j: int| i <= j < next_visible(cs, i) ==> hidden(#[trigger] cs[j]),
    decreases cs.len() - i,
{
    if i < cs.len() && hidden(cs[i]) {
        lemma_next_visible(cs, i + 1);
    }
}

/// The raw index of the `k`-th node of `n` (counted from 0) that is not hidden, or the number of
/// `n`'s nodes when there are no more than `k` such nodes.
pub open spec fn vpos(n: SyntaxNode, k: nat) -> int
    decreases k,
{
    if k == 0 {
        next_visible(n.children@, 0)
    } else {
        next_visible(n.children@, vpos(n, (k - 1) as nat) + 1)
    }
}

/// `n` holds a `k`-th node that is not hidden.
pub open spec fn has_vis(n: SyntaxNode, k: nat) -> bool {
    vpos(n, k) < n.children@.len()
}

/// The `k`-th node of `n` that is not hidden.
pub open spec fn vis(n: SyntaxNode, k: nat) -> SyntaxNode {
    n.children@[vpos(n, k)]
}

/// The number of nodes of `cs[i..j]` that are not hidden.
pub open spec fn vcount(cs: Seq<SyntaxNode>, i: int, j: int) -> nat
    decreases j - i,
{
    if j <= i {
        0
    } else {
        vcount(cs, i, j - 1) + if hidden(cs[j - 1]) { 0nat } else { 1nat }
    }
}

pub proof fn lemma_vpos(n: SyntaxNode, k: nat)
    ensures
        0 <= vpos(n, k) <= n.children@.len(),
        has_vis(n, k) ==> !hidden(vis(n, k)),
        k > 0 && has_vis(n, k) ==> has_vis(n, (k - 1) as nat) && vpos(n, (k - 1) as nat) < vpos(n, k),
        forall|j: int| (if k == 0 { 0 } else { vpos(n, (k - 1) as nat) + 1 }) <= j < vpos(n, k) ==> hidden(#[trigger] n.children@[j]),
    decreases k,
{
    if k == 0 {
        lemma_next_visible(n.children@, 0);
    } else {
        lemma_vpos(n, (k - 1) as nat);
        let p = vpos(n, (k - 1) as nat);
        if p < n.children@.len() {
            lemma_next_visible(n.children@, p + 1);
        }
    }
}

/// The index of the last node of `cs` before `j` that is not hidden, or -1 when there is none.
pub open spec fn prev_visible(cs: Seq<SyntaxNode>, j: int) -> int
    decreases j,
{
    if j <= 0 {
        -1
    } else if !hidden(cs[j - 1]) {
        j - 1
    } else {
        prev_visible(cs, j - 1)
    }
}

pub proof fn lemma_prev_visible(cs: Seq<SyntaxNode>, j: int)
    requires
        j <= cs.len(),
    ensures
        -1 <= prev_visible(cs, j) < j || j <= 0,
        prev_visible(cs, j) >= 0 ==> !hidden(cs[prev_visible(cs, j)]),
        forall|k: int| prev_visible(cs, j) < k < j && 0 <= k ==> hidden(#[trigger] cs[k]),
    decreases j,
{
    if j > 0 && hidden(cs[j - 1]) {
        lemma_prev_visible(cs, j - 1);
    }
}

/// `prev_visible` finds the last node that is not hidden.
pub proof fn lemma_prev_visible_at(cs: Seq<SyntaxNode>, e: int, j: int)
    requires
        0 <= e < j <= cs.len(),
        !hidden(cs[e]),
        forall|k: int| e < k < j ==> hidden(#[trigger] cs[k]),
    ensures
        prev_visible(cs, j) == e,
    decreases j,
{
    if j - 1 > e {
        lemma_prev_visible_at(cs, e, j - 1);
    }
}

/// `true` iff `n` is a comment or the end of input.
pub fn is_hidden(n: &SyntaxNode) -> (res: bool)
    ensures
        res == hidden(*n),
{
    n.rule == WdlRule::COMMENT || n.rule == WdlRule::EOI
}

/// A node of the parse tree.
#[derive(Debug, Clone, Copy)]
pub struct PestNode<'a> {
    pub pair: &'a SyntaxNode,
}

impl<'a> PestNode<'a> {
    pub fn new(pair: &'a SyntaxNode) -> (res: Self)
        ensures
            res.pair == pair,
    {
        PestNode { pair }
    }

    /// The text the node's match spans.
    pub fn as_str(&self) -> (res: &'a str)
        ensures
            res@ == self.pair.text@,
    {
        self.pair.text.as_str()
    }

    /// The rule of the node's match.
    pub fn as_rule(&self) -> (res: WdlRule)
        ensures
            res == self.pair.rule,
    {
        self.pair.rule
    }

    /// The span of the node's match.
    pub fn as_span(&self) -> (res: Span)
        ensures
            res == self.pair.span,
    {
        self.pair.span
    }

    /// Returns an iterator over this node's inner nodes.
    pub fn into_inner(self) -> (res: PestNodes<'a>)
        ensures
            res.pairs == &self.pair.children,
            res.index == 0,
    {
        PestNodes { pairs: &self.pair.children, index: 0 }
    }

    /// The inner node, when there is expected to be exactly one.
    pub fn one_inner(self) -> (res: Result<PestNode<'a>, ModelError>)
        ensures
            next_visible(self.pair.children@, 0) < self.pair.children@.len() ==> res == Ok::<
                PestNode<'a>,
                ModelError,
            >(PestNode { pair: &self.pair.children@[next_visible(self.pair.children@, 0)] }),
            next_visible(self.pair.children@, 0) >= self.pair.children@.len() ==> res is Err,
    {
        let mut inner = self.into_inner();
        inner.next_node()
    }

    /// The comments within this node, in line order, each keyed by the line it starts on; an
    /// error when two of them start on one line.
    pub fn clone_comments(&self) -> (res: Result<Comments, ModelError>)
        ensures
            res is Ok <==> lines_free(Seq::empty(), tree_comments(*self.pair)),
            res matches Ok(c) ==> comments_of(*self.pair, c@),
    {
        let mut comments = Comments::default();
        add_comments(self.pair, &mut comments)?;
        proof {
            assert(Seq::<(usize, Anchor<String>)>::empty() + tree_comments(*self.pair) =~= tree_comments(*self.pair));
        }
        Ok(comments)
    }
}

/// The comments within `n`, in document order, each with the line it starts on.
pub open spec fn tree_comments(n: SyntaxNode) -> Seq<(usize, Anchor<String>)>
    decreases n, 1nat,
{
    own_comment(n) + forest_comments(n.children@)
}

/// `n` itself as a comment with the line it starts on, if it is a comment.
pub open spec fn own_comment(n: SyntaxNode) -> Seq<(usize, Anchor<String>)> {
    if n.rule == WdlRule::COMMENT {
        seq![(n.span.start.line, Anchor { element: n.text, span: n.span })]
    } else {
        Seq::empty()
    }
}

/// The comments within the nodes `cs`, in document order.
pub open spec fn forest_comments(cs: Seq<SyntaxNode>) -> Seq<(usize, Anchor<String>)>
    decreases cs, 0nat,
{
    if cs.len() == 0 {
        Seq::empty()
    } else {
        forest_comments(cs.subrange(0, cs.len() - 1)) + tree_comments(cs[cs.len() - 1])
    }
}

/// The lines of the comments `s` are distinct, and none is a line of the comments `old`.
pub open spec fn lines_free(old: Seq<(usize, Anchor<String>)>, s: Seq<(usize, Anchor<String>)>) -> bool {
    &&& forall|i: int, j: int| 0 <= i < j < s.len() ==> s[i].0 != s[j].0
    &&& forall|i: int, j: int| 0 <= i < s.len() && 0 <= j < old.len() ==> s[i].0 != old[j].0
}

/// `c` holds the comments within `n`, in line order.
pub open spec fn comments_of(n: SyntaxNode, c: Seq<(usize, Anchor<String>)>) -> bool {
    lines_increasing(c) && c.to_multiset() == tree_comments(n).to_multiset()
}

proof fn lemma_forest_concat(a: Seq<SyntaxNode>, b: Seq<SyntaxNode>)
    ensures
        forest_comments(a + b) == forest_comments(a) + forest_comments(b),
    decreases b.len(),
{
    if b.len() == 0 {
        assert(a + b =~= a);
        assert(forest_comments(b) =~= Seq::empty());
        assert(forest_comments(a) + forest_comments(b) =~= forest_comments(a));
    } else {
        let b0 = b.subrange(0, b.len() - 1);
        lemma_forest_concat(a, b0);
        assert((a + b).subrange(0, (a + b).len() - 1) =~= a + b0);
        assert((a + b)[(a + b).len() - 1] == b[b.len() - 1]);
        assert(forest_comments(a) + forest_comments(b) =~= forest_comments(a) + forest_comments(b0)
            + tree_comments(b[b.len() - 1]));
    }
}

pub proof fn lemma_lines_free_concat(
    old: Seq<(usize, Anchor<String>)>,
    a: Seq<(usize, Anchor<String>)>,
    b: Seq<(usize, Anchor<String>)>,
)
    ensures
        lines_free(old, a + b) <==> lines_free(old, a) && lines_free(old + a, b),
{
    let s = a + b;
    if lines_free(old, s) {
        assert forall|i: int, j: int| 0 <= i < b.len() && 0 <= j < (old + a).len() implies b[i].0
            != (old + a)[j].0 by {
            if j >= old.len() {
                assert(s[j - old.len()] == a[j - old.len()]);
                assert(s[a.len() + i] == b[i]);
            } else {
                assert(s[a.len() + i] == b[i]);
            }
        }
        assert forall|i: int, j: int| 0 <= i < j < b.len() implies b[i].0 != b[j].0 by {
            assert(s[a.len() + i] == b[i]);
            assert(s[a.len() + j] == b[j]);
        }
        assert forall|i: int, j: int| 0 <= i < j < a.len() implies a[i].0 != a[j].0 by {
            assert(s[i] == a[i]);
            assert(s[j] == a[j]);
        }
        assert forall|i: int, j: int| 0 <= i < a.len() && 0 <= j < old.len() implies a[i].0
            != old[j].0 by {
            assert(s[i] == a[i]);
        }
    }
    if lines_free(old, a) && lines_free(old + a, b) {
        assert forall|i: int, j: int| 0 <= i < j < s.len() implies s[i].0 != s[j].0 by {
            if j < a.len() {
            } else if i < a.len() {
                assert((old + a)[old.len() + i] == a[i]);
            } else {
            }
        }
        assert forall|i: int, j: int| 0 <= i < s.len() && 0 <= j < old.len() implies s[i].0
            != old[j].0 by {
            if i >= a.len() {
                assert((old + a)[j] == old[j]);
            }
        }
    }
}

pub proof fn lemma_lines_free_same_multiset(
    m1: Seq<(usize, Anchor<String>)>,
    m2: Seq<(usize, Anchor<String>)>,
    s: Seq<(usize, Anchor<String>)>,
)
    requires
        m1.to_multiset() == m2.to_multiset(),
    ensures
        lines_free(m1, s) <==> lines_free(m2, s),
{
    broadcast use vstd::seq_lib::to_multiset_contains;

    assert forall|i: int, j: int| 0 <= i < s.len() && 0 <= j < m1.len() && lines_free(m2, s) implies s[i].0
        != m1[j].0 by {
        vstd::seq_lib::to_multiset_contains(m1, m1[j]);
        vstd::seq_lib::to_multiset_contains(m2, m1[j]);
        assert(m1.contains(m1[j]));
        assert(m2.contains(m1[j]));
        let k = choose|k: int| 0 <= k < m2.len() && m2[k] == m1[j];
    }
    assert forall|i: int, j: int| 0 <= i < s.len() && 0 <= j < m2.len() && lines_free(m1, s) implies s[i].0
        != m2[j].0 by {
        vstd::seq_lib::to_multiset_contains(m1, m2[j]);
        vstd::seq_lib::to_multiset_contains(m2, m2[j]);
        assert(m2.contains(m2[j]));
        assert(m1.contains(m2[j]));
        let k = choose|k: int| 0 <= k < m1.len() && m1[k] == m2[j];
    }
}

/// Adds the comments within `n` to `comments`; an error when two of them, or one of them and a
/// comment already there, start on one line.
pub fn add_comments(n: &SyntaxNode, comments: &mut Comments) -> (res: Result<(), ModelError>)
    requires
        lines_increasing(old(comments)@),
    ensures
        res is Ok <==> lines_free(old(comments)@, tree_comments(*n)),
        res is Ok ==> final(comments)@.to_multiset() == (old(comments)@ + tree_comments(
            *n,
        )).to_multiset(),
        lines_increasing(final(comments)@),
    decreases n,
{
    broadcast use vstd::seq_lib::to_multiset_insert, vstd::seq_lib::lemma_multiset_commutative;

    let ghost old_c = comments@;
    if n.rule == WdlRule::COMMENT {
        let ghost e = (n.span.start.line, Anchor { element: n.text, span: n.span });
        match comments.try_insert(n.span.start.line, Anchor::new(n.text.clone(), n.span)) {
            Ok(()) => {
                proof {
                    assert(own_comment(*n) == seq![e]);
                    assert forall|j: int| 0 <= j < old_c.len() implies e.0 != old_c[j].0 by {
                        if e.0 == old_c[j].0 {
                            assert(line_index(old_c, e.0) is Some);
                        }
                    }
                    let k = choose|k: int| 0 <= k <= old_c.len() && comments@ == old_c.insert(k, e);
                    assert(comments@.to_multiset() == old_c.to_multiset().insert(e));
                    vstd::seq_lib::to_multiset_insert(old_c, k, e);
                    vstd::seq_lib::to_multiset_insert(old_c, old_c.len() as int, e);
                    assert(old_c + seq![e] =~= old_c.insert(old_c.len() as int, e));
                }
            },
            Err(err) => {
                proof {
                    let j = choose|i: int| 0 <= i < old_c.len() && old_c[i].0 == e.0;
                    assert(own_comment(*n) == seq![e]);
                    assert(tree_comments(*n)[0] == e);
                    assert(!lines_free(old_c, tree_comments(*n)));
                }
                return Err(err);
            },
        }
    } else {
        proof {
            assert(old_c + own_comment(*n) =~= old_c);
        }
    }
    let ghost own = own_comment(*n);
    let ghost cs = n.children@;
    proof {
        assert(lines_free(old_c, own)) by {
            if n.rule == WdlRule::COMMENT {
            }
        }
        assert(cs.subrange(0, 0) =~= Seq::<SyntaxNode>::empty());
        assert(own + forest_comments(cs.subrange(0, 0)) =~= own);
    }
    let mut i: usize = 0;
    while i < n.children.len()
        invariant
            cs == n.children@,
            old_c == old(comments)@,
            i <= cs.len(),
            lines_free(old_c, own + forest_comments(cs.subrange(0, i as int))),
            comments@.to_multiset() == (old_c + own + forest_comments(cs.subrange(0, i as int))).to_multiset(),
            lines_increasing(comments@),
            tree_comments(*n) == own + forest_comments(cs),
            lines_free(old_c, tree_comments(*n)) ==> lines_free(
                old_c,
                own + forest_comments(cs.subrange(0, i as int)),
            ),
        decreases cs.len() - i,
    {
        proof {
            assert(decreases_to!(n => n.children@[i as int]));
        }
        let ghost pre = own + forest_comments(cs.subrange(0, i as int));
        let ghost mid = comments@;
        let ghost child = cs[i as int];
        proof {
            assert(cs.subrange(0, i + 1).subrange(0, i as int) =~= cs.subrange(0, i as int));
            assert(forest_comments(cs.subrange(0, i + 1)) == forest_comments(cs.subrange(0, i as int))
                + tree_comments(child));
            assert(pre + tree_comments(child) =~= own + forest_comments(cs.subrange(0, i + 1)));
            lemma_lines_free_concat(old_c, pre, tree_comments(child));
            assert(old_c + own + forest_comments(cs.subrange(0, i as int)) =~= old_c + pre);
            lemma_lines_free_same_multiset(mid, old_c + pre, tree_comments(child));
            lemma_forest_concat(cs.subrange(0, i + 1), cs.subrange(i + 1, cs.len() as int));
            assert(cs.subrange(0, i + 1) + cs.subrange(i + 1, cs.len() as int) =~= cs);
            lemma_lines_free_concat(
                old_c,
                own + forest_comments(cs.subrange(0, i + 1)),
                forest_comments(cs.subrange(i + 1, cs.len() as int)),
            );
            assert(own + forest_comments(cs) =~= own + forest_comments(cs.subrange(0, i + 1))
                + forest_comments(cs.subrange(i + 1, cs.len() as int)));
        }
        match add_comments(&n.children[i], comments) {
            Ok(()) => {},
            Err(err) => {
                proof {
                    assert(!lines_free(mid, tree_comments(child)));
                    assert(!lines_free(old_c + pre, tree_comments(child)));
                    assert(!lines_free(old_c, pre + tree_comments(child)));
                    assert(!lines_free(old_c, own + forest_comments(cs.subrange(0, i + 1))));
                    assert(!lines_free(old_c, tree_comments(*n)));
                }
                return Err(err);
            },
        }
        proof {
            vstd::seq_lib::lemma_multiset_commutative(mid, tree_comments(child));
            vstd::seq_lib::lemma_multiset_commutative(old_c + pre, tree_comments(child));
            assert(old_c + own + forest_comments(cs.subrange(0, i + 1)) =~= old_c + pre
                + tree_comments(child));
        }
        i = i + 1;
    }
    proof {
        assert(cs.subrange(0, cs.len() as int) =~= cs);
        assert(old_c + own + forest_comments(cs) =~= old_c + tree_comments(*n));
    }
    Ok(())
}

/// An iterator over the nodes nested in a node, from `index` on.
#[derive(Debug)]
pub struct PestNodes<'a> {
    pub pairs: &'a Vec<SyntaxNode>,
    pub index: usize,
}

impl<'a> PestNodes<'a> {
    pub open spec fn remaining(self) -> Seq<SyntaxNode> {
        self.pairs@.skip(self.index as int)
    }

    /// Returns the rule of the next node, comments and end of input included, without
    /// advancing the iterator.
    pub fn peek_rule(&self) -> (res: Option<WdlRule>)
        ensures
            self.index < self.pairs@.len() ==> res == Some(self.pairs@[self.index as int].rule),
            self.index >= self.pairs@.len() ==> res is None,
    {
        if self.index < self.pairs.len() {
            Some(self.pairs[self.index].rule)
        } else {
            None
        }
    }

    /// `true` iff there is a next node and it is neither a comment nor the end of input.
    pub fn has_next(&self) -> (res: bool)
        ensures
            res == (self.index < self.pairs@.len() && !hidden(self.pairs@[self.index as int])),
    {
        match self.peek_rule() {
            Some(WdlRule::COMMENT) | Some(WdlRule::EOI) => false,
            Some(_) => true,
            None => false,
        }
    }

    /// Returns the next node that is neither a comment nor the end of input, and advances past
    /// it; `None` when there is none.
    pub fn next(&mut self) -> (res: Option<PestNode<'a>>)
        requires
            old(self).index <= old(self).pairs@.len(),
        ensures
            final(self).pairs == old(self).pairs,
            next_visible(old(self).pairs@, old(self).index as int) < old(self).pairs@.len() ==> {
                &&& res == Some(PestNode { pair: &old(self).pairs@[next_visible(old(self).pairs@, old(self).index as int)] })
                &&& final(self).index == next_visible(old(self).pairs@, old(self).index as int) + 1
            },
            next_visible(old(self).pairs@, old(self).index as int) >= old(self).pairs@.len() ==> {
                &&& res is None
                &&& final(self).index == old(self).pairs@.len()
            },
    {
        proof {
            lemma_next_visible(self.pairs@, self.index as int);
        }
        let n = self.pairs.len();
        while self.index < n
            invariant
                n == self.pairs@.len(),
                self.pairs == old(self).pairs,
                old(self).index <= self.index <= n,
                next_visible(self.pairs@, self.index as int) == next_visible(old(self).pairs@, old(self).index as int),
            decreases n - self.index,
        {
            let r = self.pairs[self.index].rule;
            if r == WdlRule::COMMENT || r == WdlRule::EOI {
                self.index = self.index + 1;
            } else {
                let node = PestNode { pair: &self.pairs[self.index] };
                self.index = self.index + 1;
                return Some(node);
            }
        }
        None
    }

    /// Like `next`, but returns an `Err` instead of `None` if there is no next node.
    pub fn next_node(&mut self) -> (res: Result<PestNode<'a>, ModelError>)
        requires
            old(self).index <= old(self).pairs@.len(),
        ensures
            final(self).pairs == old(self).pairs,
            next_visible(old(self).pairs@, old(self).index as int) < old(self).pairs@.len() ==> {
                &&& res == Ok::<PestNode<'a>, ModelError>(PestNode { pair: &old(self).pairs@[next_visible(old(self).pairs@, old(self).index as int)] })
                &&& final(self).index == next_visible(old(self).pairs@, old(self).index as int) + 1
            },
            next_visible(old(self).pairs@, old(self).index as int) >= old(self).pairs@.len() ==> {
                &&& res is Err
                &&& final(self).index == old(self).pairs@.len()
            },
    {
        match self.next() {
            Some(node) => Ok(node),
            None => Err(ModelError::parser(crate::text::owned("A next node was expected but is missing"))),
        }
    }
}

} // verus!
