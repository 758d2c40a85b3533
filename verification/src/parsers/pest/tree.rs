//! The parse tree of a WDL document, built from the grammar's token stream: one node per match
//! of a rule, holding the matched text, its span and the matches nested in it.
use crate::model::{Position, Span};
use crate::parsers::pest::grammar::{next_token, token_queue, RawToken, TokenView};
use crate::parsers::pest::rules::WdlRule;
use vstd::prelude::*;
use vstd::string::*;
use vstd::utf8::{encode_utf8, is_char_boundary};

verus! {

/// A match of a grammar rule: the rule, the matched text, its span (lines and columns counted
/// from 0, as everywhere in the model) and the nested matches.
#[derive(Debug)]
pub struct SyntaxNode {
    pub rule: WdlRule,
    pub text: String,
    pub span: Span,
    pub children: Vec<SyntaxNode>,
}

/// Why a token stream does not describe a tree.
#[derive(Debug, PartialEq)]
pub enum TreeError {
    /// The stream is empty, ends inside a match, or goes on after the root's end.
    Unbalanced,
    /// An end token closes a match of another rule than the one that is open.
    Mismatched,
    /// A token names a rule the grammar does not have.
    UnknownRule,
    /// A match's offsets do not delimit a piece of the text.
    BadOffsets,
}

/// The start token of the match `n`.
pub open spec fn start_token(n: SyntaxNode) -> TokenView {
    TokenView {
        is_start: true,
        rule: n.rule.name_of(),
        offset: n.span.start.offset,
        line: n.span.start.line + 1,
        column: n.span.start.column + 1,
    }
}

/// The end token of the match `n`.
pub open spec fn end_token(n: SyntaxNode) -> TokenView {
    TokenView {
        is_start: false,
        rule: n.rule.name_of(),
        offset: n.span.end.offset,
        line: n.span.end.line + 1,
        column: n.span.end.column + 1,
    }
}

/// The tokens of the match `n`: its start, the tokens of its nested matches, its end.
pub open spec fn node_tokens(n: SyntaxNode) -> Seq<TokenView>
    decreases n, 1nat,
{
    seq![start_token(n)] + nodes_tokens(n.children@) + seq![end_token(n)]
}

/// The tokens of the matches `cs`, one after the other.
pub open spec fn nodes_tokens(cs: Seq<SyntaxNode>) -> Seq<TokenView>
    decreases cs, 0nat,
{
    if cs.len() == 0 {
        Seq::empty()
    } else {
        nodes_tokens(cs.subrange(0, cs.len() - 1)) + node_tokens(cs[cs.len() - 1])
    }
}

/// Every match in `n` holds the text of `doc` (given as its UTF-8 bytes) between its offsets.
pub open spec fn texts_match(n: SyntaxNode, doc: Seq<u8>) -> bool
    decreases n, 1nat,
{
    &&& n.span.start.offset <= n.span.end.offset <= doc.len()
    &&& encode_utf8(n.text@) == doc.subrange(n.span.start.offset as int, n.span.end.offset as int)
    &&& all_texts_match(n.children@, doc)
}

pub open spec fn all_texts_match(cs: Seq<SyntaxNode>, doc: Seq<u8>) -> bool
    decreases cs, 0nat,
{
    if cs.len() == 0 {
        true
    } else {
        all_texts_match(cs.subrange(0, cs.len() - 1), doc) && texts_match(cs[cs.len() - 1], doc)
    }
}

/// Returns `s[from..to]` (`str::get`): `None` exactly where indexing would panic, that is when
/// the range is reversed or out of bounds, or does not start and end on character boundaries.
#[verifier::external_body]
fn str_get(s: &str, from: usize, to: usize) -> (res: Option<&str>)
    ensures
        res is Some <==> (from <= to && to <= s.spec_bytes().len() && is_char_boundary(s.spec_bytes(), from as int) && is_char_boundary(s.spec_bytes(), to as int)),
        res matches Some(t) ==> t.spec_bytes() == s.spec_bytes().subrange(from as int, to as int),
{
    s.get(from..to)
}

/// Every match in `n` starts and ends on a character boundary of `doc`.
pub open spec fn offsets_on_chars(n: SyntaxNode, doc: Seq<u8>) -> bool
    decreases n,
{
    &&& is_char_boundary(doc, n.span.start.offset as int)
    &&& is_char_boundary(doc, n.span.end.offset as int)
    &&& forall|i: int| 0 <= i < n.children@.len() ==> offsets_on_chars(#[trigger] n.children@[i], doc)
}

proof fn lemma_all_texts_match(cs: Seq<SyntaxNode>, doc: Seq<u8>, i: int)
    requires
        all_texts_match(cs, doc),
        0 <= i < cs.len(),
    ensures
        texts_match(cs[i], doc),
    decreases cs.len(),
{
    if i < cs.len() - 1 {
        lemma_all_texts_match(cs.subrange(0, cs.len() - 1), doc, i);
    }
}

proof fn lemma_tokens_concat(a: Seq<SyntaxNode>, b: Seq<SyntaxNode>)
    ensures
        nodes_tokens(a + b) == nodes_tokens(a) + nodes_tokens(b),
    decreases b.len(),
{
    if b.len() == 0 {
        assert(a + b =~= a);
        assert(nodes_tokens(a) + nodes_tokens(b) =~= nodes_tokens(a));
    } else {
        let b0 = b.subrange(0, b.len() - 1);
        lemma_tokens_concat(a, b0);
        assert((a + b).subrange(0, (a + b).len() - 1) =~= a + b0);
        assert((a + b)[(a + b).len() - 1] == b[b.len() - 1]);
        assert(nodes_tokens(a) + nodes_tokens(b) =~= nodes_tokens(a) + nodes_tokens(b0) + node_tokens(
            b[b.len() - 1],
        ));
    }
}

proof fn lemma_tokens_push(cs: Seq<SyntaxNode>, i: int)
    requires
        0 <= i < cs.len(),
    ensures
        nodes_tokens(cs.take(i + 1)) == nodes_tokens(cs.take(i)) + node_tokens(cs[i]),
{
    assert(cs.take(i + 1).subrange(0, i) =~= cs.take(i));
}

/// After the tokens of the first `i` nested matches of `w`, the queue `q0` (which begins with
/// the tokens of `w` after its start) goes on with the tokens of its `i`th nested match, or
/// with its end token when there are no more.
proof fn lemma_queue_after(w: SyntaxNode, q0: Seq<TokenView>, i: int)
    requires
        node_tokens(w).len() - 1 <= q0.len(),
        q0.subrange(0, node_tokens(w).len() - 1) == node_tokens(w).drop_first(),
        0 <= i <= w.children@.len(),
    ensures
        ({
            let t = nodes_tokens(w.children@.take(i)).len() as int;
            let rest = q0.skip(t);
            &&& t < q0.len()
            &&& i < w.children@.len() ==> {
                let c = w.children@[i];
                &&& rest[0] == start_token(c)
                &&& node_tokens(c).len() - 1 <= rest.drop_first().len()
                &&& rest.drop_first().subrange(0, node_tokens(c).len() - 1) == node_tokens(c).drop_first()
            }
            &&& i == w.children@.len() ==> rest[0] == end_token(w)
        }),
{
    let cs = w.children@;
    let a = cs.take(i);
    let b = cs.skip(i);
    lemma_tokens_concat(a, b);
    assert(a + b =~= cs);
    let t = nodes_tokens(a).len() as int;
    let s = nodes_tokens(b);
    assert(node_tokens(w).drop_first() =~= nodes_tokens(cs) + seq![end_token(w)]);
    let l = node_tokens(w).len() - 1;
    assert(q0.subrange(0, l) =~= nodes_tokens(a) + s + seq![end_token(w)]);
    let rest = q0.skip(t);
    assert(rest.subrange(0, s.len() as int + 1) =~= s + seq![end_token(w)]) by {
        assert forall|k: int| 0 <= k < s.len() as int + 1 implies rest.subrange(0, s.len() as int + 1)[k] == (s
            + seq![end_token(w)])[k] by {
            assert(rest[k] == q0[t + k]);
            assert(q0[t + k] == q0.subrange(0, l)[t + k]);
        }
    }
    if i < cs.len() {
        let c = cs[i];
        assert(b =~= seq![c] + cs.skip(i + 1));
        lemma_tokens_concat(seq![c], cs.skip(i + 1));
        assert(seq![c].subrange(0, 0) =~= Seq::<SyntaxNode>::empty());
        assert(seq![c][0] == c);
        assert(nodes_tokens(Seq::<SyntaxNode>::empty()) =~= Seq::<TokenView>::empty());
        assert(nodes_tokens(seq![c]) =~= node_tokens(c));
        let m = node_tokens(c).len();
        assert(node_tokens(c)[0] == start_token(c));
        assert(s[0] == node_tokens(c)[0]);
        assert(rest[0] == rest.subrange(0, s.len() as int + 1)[0]);
        assert((s + seq![end_token(w)])[0] == s[0]);
        assert(rest[0] == s[0]);
        assert(rest.drop_first().subrange(0, m - 1) =~= node_tokens(c).drop_first()) by {
            assert forall|k: int| 0 <= k < m - 1 implies rest.drop_first().subrange(0, m - 1)[k]
                == node_tokens(c).drop_first()[k] by {
                assert(rest.drop_first()[k] == rest[k + 1]);
                assert(rest[k + 1] == rest.subrange(0, s.len() as int + 1)[k + 1]);
                assert(s[k + 1] == node_tokens(c)[k + 1]);
            }
        }
    } else {
        assert(b =~= Seq::<SyntaxNode>::empty());
        assert(s =~= Seq::<TokenView>::empty());
        assert(rest[0] == rest.subrange(0, s.len() as int + 1)[0]);
    }
}

/// `w` is a match whose start token is `start`, whose other tokens begin the queue `q`, and
/// whose matches agree with `doc` in their texts and start and end on its character boundaries.
pub open spec fn fits(w: SyntaxNode, start: TokenView, q: Seq<TokenView>, doc: Seq<u8>) -> bool {
    &&& start == start_token(w)
    &&& node_tokens(w).len() - 1 <= q.len()
    &&& q.subrange(0, node_tokens(w).len() - 1) == node_tokens(w).drop_first()
    &&& texts_match(w, doc)
    &&& offsets_on_chars(w, doc)
}

/// Reads the rest of the match opened by `start`: its nested matches and its end token. When
/// the tokens left are those of the match `w` (after its start) and `w` agrees with the text,
/// the match is read, with the tokens of `w`.
fn read_node(
    tokens: &mut pest::iterators::Tokens<'_, pest_wdl_1::Rule>,
    start: RawToken,
    text: &str,
    Ghost(w): Ghost<SyntaxNode>,
) -> (res: Result<SyntaxNode, TreeError>)
    requires
        start.is_start,
        start.line >= 1 && start.column >= 1,
    ensures
        res matches Ok(n) ==> {
            &&& 1 <= node_tokens(n).len() <= token_queue(*old(tokens)).len() + 1
            &&& node_tokens(n) == seq![start@] + token_queue(*old(tokens)).subrange(
                0,
                node_tokens(n).len() - 1,
            )
            &&& token_queue(*final(tokens)) == token_queue(*old(tokens)).subrange(
                node_tokens(n).len() - 1,
                token_queue(*old(tokens)).len() as int,
            )
            &&& texts_match(n, text.spec_bytes())
            &&& offsets_on_chars(n, text.spec_bytes())
        },
        fits(w, start@, token_queue(*old(tokens)), text.spec_bytes()) ==> (res matches Ok(n)
            && node_tokens(n) == node_tokens(w)),
    decreases token_queue(*old(tokens)).len(),
{
    let ghost q0 = token_queue(*tokens);
    let ghost doc = text.spec_bytes();
    let ghost fit = fits(w, start@, q0, doc);
    let mut children: Vec<SyntaxNode> = Vec::new();
    loop
        invariant
            start.is_start,
            start.line >= 1 && start.column >= 1,
            q0 == token_queue(*old(tokens)),
            doc == text.spec_bytes(),
            fit == fits(w, start@, q0, doc),
            token_queue(*tokens).len() <= q0.len(),
            q0.subrange(0, q0.len() - token_queue(*tokens).len()) == nodes_tokens(children@),
            q0.subrange(q0.len() - token_queue(*tokens).len(), q0.len() as int) == token_queue(*tokens),
            all_texts_match(children@, text.spec_bytes()),
            forall|k: int| 0 <= k < children@.len() ==> offsets_on_chars(#[trigger] children@[k], text.spec_bytes()),
            fit ==> children@.len() <= w.children@.len(),
            fit ==> nodes_tokens(children@) == nodes_tokens(w.children@.take(children@.len() as int)),
        decreases token_queue(*tokens).len(),
    {
        let ghost q = token_queue(*tokens);
        let ghost i = children@.len() as int;
        proof {
            if fit {
                lemma_queue_after(w, q0, i);
                assert(q =~= q0.skip(nodes_tokens(w.children@.take(i)).len() as int));
            }
        }
        let tok = match next_token(tokens) {
            Some(t) => t,
            None => return Err(TreeError::Unbalanced),
        };
        if tok.is_start {
            assert(token_queue(*tokens).len() < q0.len());
            let ghost c = if fit && i < w.children@.len() {
                w.children@[i]
            } else {
                w
            };
            proof {
                if fit {
                    assert(i < w.children@.len()) by {
                        if i == w.children@.len() {
                            assert(tok@ == end_token(w));
                        }
                    }
                    lemma_all_texts_match(w.children@, doc, i);
                    assert(offsets_on_chars(c, doc));
                    assert(token_queue(*tokens) == q.drop_first());
                    assert(fits(c, tok@, token_queue(*tokens), doc));
                }
            }
            let child = read_node(tokens, tok, text, Ghost(c))?;
            let ghost q2 = token_queue(*tokens);
            let ghost old_c = children@;
            let ghost k = node_tokens(child).len() - 1;
            proof {
                assert(q.drop_first() =~= q.subrange(1, q.len() as int));
                assert(node_tokens(child) == seq![q[0]] + q.subrange(1, 1 + k));
                assert(q2 == q.subrange(1 + k, q.len() as int)) by {
                    assert((seq![tok@] + q2).drop_first() =~= q2);
                    assert((seq![tok@] + q.drop_first().subrange(k, q.drop_first().len() as int)).drop_first() =~= q.subrange(1 + k, q.len() as int));
                }
            }
            children.push(child);
            proof {
                assert(children@.subrange(0, children@.len() - 1) =~= old_c);
                assert(nodes_tokens(children@) == nodes_tokens(old_c) + node_tokens(children@[children@.len() - 1]));
                assert(q0.subrange(0, q0.len() - q2.len()) =~= q0.subrange(0, q0.len() - q.len()) + q.subrange(0, 1 + k));
                assert(q.subrange(0, 1 + k) =~= seq![q[0]] + q.subrange(1, 1 + k));
                assert(all_texts_match(children@, text.spec_bytes()));
                assert(q0.subrange(q0.len() - q2.len(), q0.len() as int) =~= q2);
                if fit {
                    lemma_tokens_push(w.children@, i);
                }
            }
        } else {
            proof {
                if fit {
                    assert(i == w.children@.len()) by {
                        if i < w.children@.len() {
                            assert(tok@ == start_token(w.children@[i]));
                        }
                    }
                    assert(tok@ == end_token(w));
                }
            }
            if !crate::text::str_eq(tok.rule.as_str(), start.rule.as_str()) {
                return Err(TreeError::Mismatched);
            }
            let rule = match WdlRule::from_name(start.rule.as_str()) {
                Some(r) => r,
                None => {
                    assert(!fit) by {
                        if fit {
                            assert(w.rule.name_of() == start.rule@);
                        }
                    }
                    return Err(TreeError::UnknownRule);
                },
            };
            let matched = match str_get(text, start.offset, tok.offset) {
                Some(t) => t,
                None => return Err(TreeError::BadOffsets),
            };
            let span = Span {
                start: Position { line: start.line - 1, column: start.column - 1, offset: start.offset },
                end: Position { line: tok.line - 1, column: tok.column - 1, offset: tok.offset },
            };
            let node = SyntaxNode { rule, text: matched.to_owned(), span, children };
            proof {
                let q2 = token_queue(*tokens);
                assert(q.drop_first() =~= q2);
                assert(start_token(node) == start@);
                assert(end_token(node) == tok@);
                assert(node_tokens(node) =~= seq![start@] + q0.subrange(0, q0.len() - q2.len()));
                assert(q0.subrange(q0.len() - q2.len(), q0.len() as int) =~= q2);
                if fit {
                    assert(w.children@.take(i) =~= w.children@);
                    assert(node_tokens(node) =~= node_tokens(w));
                }
            }
            return Ok(node);
        }
    }
}

/// The tokens of `q` describe a match whose texts agree with `doc` and whose matches start and
/// end on its character boundaries.
pub open spec fn describes_tree(q: Seq<TokenView>, doc: Seq<u8>) -> bool {
    exists|w: SyntaxNode|
        #![trigger node_tokens(w)]
        node_tokens(w) == q && texts_match(w, doc) && offsets_on_chars(w, doc)
}

/// Builds the tree of the matches that `tokens` describes: the root match, opened by the first
/// token and closed by the last. It is built whenever the tokens describe such a tree.
pub fn build_tree(tokens: &mut pest::iterators::Tokens<'_, pest_wdl_1::Rule>, text: &str) -> (res: Result<
    SyntaxNode,
    TreeError,
>)
    ensures
        res matches Ok(n) ==> node_tokens(n) == token_queue(*old(tokens)) && texts_match(n, text.spec_bytes())
            && offsets_on_chars(n, text.spec_bytes()),
        res is Ok <==> describes_tree(token_queue(*old(tokens)), text.spec_bytes()),
        describes_tree(token_queue(*old(tokens)), text.spec_bytes()) ==> res is Ok,
{
    let ghost q = token_queue(*tokens);
    let ghost doc = text.spec_bytes();
    let ghost w = choose|w: SyntaxNode|
        #![trigger node_tokens(w)]
        node_tokens(w) == q && texts_match(w, doc) && offsets_on_chars(w, doc);
    let first = match next_token(tokens) {
        Some(t) => t,
        None => {
            assert(!describes_tree(q, doc)) by {
                if describes_tree(q, doc) {
                    assert(node_tokens(w).len() >= 2);
                }
            }
            return Err(TreeError::Unbalanced);
        },
    };
    proof {
        if describes_tree(q, doc) {
            assert(node_tokens(w)[0] == start_token(w));
            assert(token_queue(*tokens) == q.drop_first());
            assert(q.drop_first().subrange(0, node_tokens(w).len() - 1) =~= node_tokens(w).drop_first());
            assert(fits(w, first@, token_queue(*tokens), doc));
        }
    }
    if !first.is_start {
        return Err(TreeError::Unbalanced);
    }
    let node = read_node(tokens, first, text, Ghost(w))?;
    match next_token(tokens) {
        Some(_) => {
            assert(!describes_tree(q, doc));
            Err(TreeError::Unbalanced)
        },
        None => {
            proof {
                assert(q.drop_first().subrange(0, q.drop_first().len() as int) =~= q.drop_first());
                assert(seq![q[0]] + q.drop_first() =~= q);
            }
            Ok(node)
        },
    }
}

} // verus!
