//! Nodes of the tree-sitter syntax tree as the model's builders walk them, and an iterator over
//! the children of a node that checks the block they form: an opening symbol, items separated
//! by a delimiter, a closing symbol, with comments anywhere.
use crate::model::{line_index, lines_increasing, Anchor, Comments, ModelError, Span};
use crate::parsers::pest::node::{lemma_lines_free_concat, lemma_lines_free_same_multiset, lines_free};
use crate::parsers::tree_sitter::syntax::rules::COMMENT;
use crate::parsers::tree_sitter::syntax::symbols::{
    COMMA, DOT, DQUOTE, LBRACE, LBRACK, LPAREN, RBRACE, RBRACK, RPAREN, SQUOTE,
};
use crate::parsers::tree_sitter::tree::TsSyntaxNode;
use crate::text::{concat, owned, str_eq};
use vstd::prelude::*;

verus! {

/// The symbols that open and close a block.
#[derive(Clone, Copy, Debug, PartialEq, Eq, Structural)]
pub enum BlockEnds {
    Braces,
    Brackets,
    Parens,
    /// Single or double quotes, whichever opens the block.
    Quotes,
    DoubleQuotes,
    SingleQuotes,
    NoEnds,
}

impl BlockEnds {
    /// The ends that the symbol `s` opens, or `NoEnds`.
    pub open spec fn open_of(s: Seq<char>) -> BlockEnds {
        if s == LBRACE@ {
            BlockEnds::Braces
        } else if s == LBRACK@ {
            BlockEnds::Brackets
        } else if s == LPAREN@ {
            BlockEnds::Parens
        } else if s == DQUOTE@ {
            BlockEnds::DoubleQuotes
        } else if s == SQUOTE@ {
            BlockEnds::SingleQuotes
        } else {
            BlockEnds::NoEnds
        }
    }

    /// The ends that the symbol `s` closes, or `NoEnds`.
    pub open spec fn close_of(s: Seq<char>) -> BlockEnds {
        if s == RBRACE@ {
            BlockEnds::Braces
        } else if s == RBRACK@ {
            BlockEnds::Brackets
        } else if s == RPAREN@ {
            BlockEnds::Parens
        } else if s == DQUOTE@ {
            BlockEnds::DoubleQuotes
        } else if s == SQUOTE@ {
            BlockEnds::SingleQuotes
        } else {
            BlockEnds::NoEnds
        }
    }

    /// The ends that `symbol` opens.
    pub fn get_open(symbol: &str) -> (res: Self)
        ensures
            res == BlockEnds::open_of(symbol@),
    {
        if str_eq(symbol, LBRACE) {
            BlockEnds::Braces
        } else if str_eq(symbol, LBRACK) {
            BlockEnds::Brackets
        } else if str_eq(symbol, LPAREN) {
            BlockEnds::Parens
        } else if str_eq(symbol, DQUOTE) {
            BlockEnds::DoubleQuotes
        } else if str_eq(symbol, SQUOTE) {
            BlockEnds::SingleQuotes
        } else {
            BlockEnds::NoEnds
        }
    }

    /// The name of these ends, as messages show it.
    pub fn name(&self) -> &'static str {
        match self {
            BlockEnds::Braces => "Braces",
            BlockEnds::Brackets => "Brackets",
            BlockEnds::Parens => "Parens",
            BlockEnds::Quotes => "Quotes",
            BlockEnds::DoubleQuotes => "DoubleQuotes",
            BlockEnds::SingleQuotes => "SingleQuotes",
            BlockEnds::NoEnds => "None",
        }
    }

    /// The ends that `symbol` closes.
    pub fn get_close(symbol: &str) -> (res: Self)
        ensures
            res == BlockEnds::close_of(symbol@),
    {
        if str_eq(symbol, RBRACE) {
            BlockEnds::Braces
        } else if str_eq(symbol, RBRACK) {
            BlockEnds::Brackets
        } else if str_eq(symbol, RPAREN) {
            BlockEnds::Parens
        } else if str_eq(symbol, DQUOTE) {
            BlockEnds::DoubleQuotes
        } else if str_eq(symbol, SQUOTE) {
            BlockEnds::SingleQuotes
        } else {
            BlockEnds::NoEnds
        }
    }
}

/// The symbol that separates the items of a block.
#[derive(Clone, Copy, Debug, PartialEq, Eq, Structural)]
pub enum BlockDelim {
    Comma,
    Dot,
    NoDelim,
}

impl BlockDelim {
    /// The delimiter that the symbol `s` is, or `NoDelim`.
    pub open spec fn delim_of(s: Seq<char>) -> BlockDelim {
        if s == COMMA@ {
            BlockDelim::Comma
        } else if s == DOT@ {
            BlockDelim::Dot
        } else {
            BlockDelim::NoDelim
        }
    }

    /// The name of this delimiter, as messages show it.
    pub fn name(&self) -> &'static str {
        match self {
            BlockDelim::Comma => "Comma",
            BlockDelim::Dot => "Dot",
            BlockDelim::NoDelim => "None",
        }
    }

    /// The delimiter that `symbol` is.
    pub fn get(symbol: &str) -> (res: Self)
        ensures
            res == BlockDelim::delim_of(symbol@),
    {
        if str_eq(symbol, COMMA) {
            BlockDelim::Comma
        } else if str_eq(symbol, DOT) {
            BlockDelim::Dot
        } else {
            BlockDelim::NoDelim
        }
    }
}

/// `n` is a comment.
pub open spec fn is_comment(n: TsSyntaxNode) -> bool {
    n.kind@ == COMMENT@
}

/// Scanning the children for the next item stops at `n`: it is not a comment, or it is an
/// error or missing.
pub open spec fn stops_scan(n: TsSyntaxNode) -> bool {
    n.is_error || n.is_missing || !is_comment(n)
}

/// Where the scan stops, `n` is not an item: an error, a missing node, or an extra one.
pub open spec fn bad(n: TsSyntaxNode) -> bool {
    n.is_error || n.is_missing || n.is_extra
}

/// The index of the first node of `cs` from `i` on where a scan stops, or `cs.len()`.
pub open spec fn first_stop(cs: Seq<TsSyntaxNode>, i: int) -> int
    decreases cs.len() - i,
{
    if i < 0 || i >= cs.len() {
        cs.len() as int
    } else if stops_scan(cs[i]) {
        i
    } else {
        first_stop(cs, i + 1)
    }
}

pub proof fn lemma_first_stop(cs: Seq<TsSyntaxNode>, i: int)
    requires
        0 <= i <= cs.len(),
    ensures
        i <= first_stop(cs, i) <= cs.len(),
        first_stop(cs, i) < cs.len() ==> stops_scan(cs[first_stop(cs, i)]),
        forall|k: int| i <= k < first_stop(cs, i) ==> !stops_scan(#[trigger] cs[k]),
    decreases cs.len() - i,
{
    if i < cs.len() && !stops_scan(cs[i]) {
        lemma_first_stop(cs, i + 1);
    }
}

/// `ends` are closed by `n`.
pub open spec fn closes(ends: BlockEnds, n: TsSyntaxNode) -> bool {
    ends != BlockEnds::NoEnds && ends == BlockEnds::close_of(n.kind@)
}

/// A block expecting `ends` may start with the symbol that opens `open`.
pub open spec fn opens(ends: BlockEnds, open: BlockEnds) -> bool {
    ||| ends == BlockEnds::Quotes && (open == BlockEnds::SingleQuotes || open
        == BlockEnds::DoubleQuotes)
    ||| ends == open
}

/// The ends of a block expecting `ends` that `open` opens: the kind of quote that opens it
/// where any is expected.
pub open spec fn resolved(ends: BlockEnds, open: BlockEnds) -> BlockEnds {
    if ends == BlockEnds::Quotes && (open == BlockEnds::SingleQuotes || open
        == BlockEnds::DoubleQuotes) {
        open
    } else {
        ends
    }
}

/// What remains of a block: the indices of the items that are yet to be read, in order, and
/// whether the block ends well (`true`) or in an error once they are read.
pub type Remaining = (Seq<int>, bool);

/// What remains of the block of `cs` when an item (or the closing symbol) is expected at `i`.
pub open spec fn rem_item(cs: Seq<TsSyntaxNode>, i: int, ends: BlockEnds, delim: BlockDelim) -> Remaining
    decreases cs.len() - i, 1nat,
{
    if 0 <= i <= cs.len() {
        let j = first_stop(cs, i);
        proof {
            lemma_first_stop(cs, i);
        }
        if j >= cs.len() {
            (Seq::empty(), ends == BlockEnds::NoEnds)
        } else if bad(cs[j]) {
            (Seq::empty(), false)
        } else if closes(ends, cs[j]) {
            rem_close(cs, j)
        } else {
            let r = rem_next(cs, j, ends, delim, delim != BlockDelim::NoDelim);
            (seq![j] + r.0, r.1)
        }
    } else {
        (Seq::empty(), false)
    }
}

/// What remains of the block of `cs` when a delimiter (or the closing symbol) is expected at
/// `i`.
pub open spec fn rem_delim(cs: Seq<TsSyntaxNode>, i: int, ends: BlockEnds, delim: BlockDelim) -> Remaining
    decreases cs.len() - i, 1nat,
{
    if 0 <= i <= cs.len() {
        let j = first_stop(cs, i);
        proof {
            lemma_first_stop(cs, i);
        }
        if j >= cs.len() {
            (Seq::empty(), ends == BlockEnds::NoEnds)
        } else if bad(cs[j]) {
            (Seq::empty(), false)
        } else if closes(ends, cs[j]) {
            rem_close(cs, j)
        } else if BlockDelim::delim_of(cs[j].kind@) != delim {
            (Seq::empty(), false)
        } else {
            rem_next(cs, j, ends, delim, false)
        }
    } else {
        (Seq::empty(), false)
    }
}

/// What remains of the block of `cs` after the item or delimiter at `j`: a delimiter is
/// expected next if `expect_delim`, otherwise an item.
pub open spec fn rem_next(
    cs: Seq<TsSyntaxNode>,
    j: int,
    ends: BlockEnds,
    delim: BlockDelim,
    expect_delim: bool,
) -> Remaining
    decreases cs.len() - j, 0nat,
{
    if 0 <= j && j + 1 < cs.len() {
        if expect_delim {
            rem_delim(cs, j + 1, ends, delim)
        } else {
            rem_item(cs, j + 1, ends, delim)
        }
    } else {
        (Seq::empty(), ends == BlockEnds::NoEnds)
    }
}

/// What remains of a block of `cs` after its closing symbol at `j`: only comments may follow.
pub open spec fn rem_close(cs: Seq<TsSyntaxNode>, j: int) -> Remaining {
    if j + 1 < cs.len() {
        (Seq::empty(), first_stop(cs, j + 1) >= cs.len())
    } else {
        (Seq::empty(), true)
    }
}

/// What remains of the block of `cs` when its opening symbol is expected at `i`.
pub open spec fn rem_open(cs: Seq<TsSyntaxNode>, i: int, ends: BlockEnds, delim: BlockDelim) -> Remaining {
    let j = first_stop(cs, i);
    if j >= cs.len() {
        (Seq::empty(), true)
    } else if bad(cs[j]) {
        (Seq::empty(), false)
    } else if !opens(ends, BlockEnds::open_of(cs[j].kind@)) {
        (Seq::empty(), false)
    } else if j + 1 >= cs.len() {
        (Seq::empty(), false)
    } else {
        rem_item(cs, j + 1, resolved(ends, BlockEnds::open_of(cs[j].kind@)), delim)
    }
}

/// The whole block of the children `cs`, with `ends` and `delim`.
pub open spec fn rem_block(cs: Seq<TsSyntaxNode>, ends: BlockEnds, delim: BlockDelim) -> Remaining {
    if cs.len() == 0 {
        (Seq::empty(), true)
    } else if ends == BlockEnds::NoEnds {
        rem_item(cs, 0, ends, delim)
    } else {
        rem_open(cs, 0, ends, delim)
    }
}

/// The state of a node iterator: where it is in the block it reads.
#[derive(Clone, Copy, Debug, PartialEq, Eq, Structural)]
pub enum State {
    /// At the parent, before its children.
    Enter,
    /// The opening symbol is expected.
    Open,
    /// An item (or the closing symbol) is expected.
    Item,
    /// After an item or a delimiter, with an item next.
    NextItem,
    /// A delimiter (or the closing symbol) is expected.
    Delim,
    /// After an item, with a delimiter next.
    NextDelim,
    /// After the closing symbol: only comments may follow.
    Exhaust,
    /// The children are read.
    Exit,
    /// Nothing is left.
    Done,
}

/// A rank of the states that the reading of a block goes down through at one position.
pub open spec fn rank(s: State) -> nat {
    match s {
        State::Enter => 8,
        State::Open => 7,
        State::Item => 6,
        State::Delim => 6,
        State::NextItem => 5,
        State::NextDelim => 5,
        State::Exhaust => 4,
        State::Exit => 3,
        State::Done => 2,
    }
}

/// An iterator over the children of a node that reads them as a block: the opening symbol of
/// `ends` (unless `NoEnds`), items separated by `delim` (unless `NoDelim`), the closing symbol;
/// comments are stepped over anywhere.
pub struct TSNodeIterator<'a> {
    pub children: &'a Vec<TsSyntaxNode>,
    pub state: State,
    pub pos: usize,
    pub ends: BlockEnds,
    pub delim: BlockDelim,
}

/// `true` iff `n` is a comment.
fn is_comment_node(n: &TsSyntaxNode) -> (res: bool)
    ensures
        res == is_comment(*n),
{
    str_eq(n.kind.as_str(), COMMENT)
}

/// A parser error whose message is the texts `a`, `b`, `c` and `d` one after another.
pub(crate) fn parser_error(a: &str, b: &str, c: &str, d: &str) -> (res: ModelError)
    ensures
        res.is_parser_error(a@ + b@ + c@ + d@),
{
    let ab = concat(a, b);
    let abc = concat(ab.as_str(), c);
    ModelError::parser(concat(abc.as_str(), d))
}

/// Scans the children from `i` past comments: `Ok(Some(j))` at the first node that is not one,
/// `Ok(None)` when only comments remain, an error at an error, missing or extra node.
fn get_next(cs: &Vec<TsSyntaxNode>, i: usize) -> (res: Result<Option<usize>, ModelError>)
    requires
        i <= cs@.len(),
    ensures
        first_stop(cs@, i as int) >= cs@.len() ==> res == Ok::<Option<usize>, ModelError>(None),
        first_stop(cs@, i as int) < cs@.len() && bad(cs@[first_stop(cs@, i as int)]) ==> res is Err,
        first_stop(cs@, i as int) < cs@.len() && !bad(cs@[first_stop(cs@, i as int)]) ==> res
            == Ok::<Option<usize>, ModelError>(Some(first_stop(cs@, i as int) as usize)),
        res matches Err(e) ==> e.is_parser_kind(),
{
    proof {
        lemma_first_stop(cs@, i as int);
    }
    let mut k = i;
    while k < cs.len()
        invariant
            i <= k <= cs@.len(),
            first_stop(cs@, i as int) == first_stop(cs@, k as int),
        decreases cs@.len() - k,
    {
        let n = &cs[k];
        if n.is_error || n.is_missing {
            return Err(ModelError::parser(owned("Parser error")));
        }
        if !is_comment_node(n) {
            if n.is_extra {
                return Err(ModelError::parser(owned("Unexpected extra node")));
            }
            return Ok(Some(k));
        }
        k = k + 1;
    }
    Ok(None)
}

impl<'a> TSNodeIterator<'a> {
    /// The iterator's position agrees with its state.
    pub open spec fn wf(self) -> bool {
        &&& self.pos <= self.children@.len()
        &&& self.state == State::Enter ==> self.pos == 0
        &&& (self.state == State::Open || self.state == State::Item || self.state == State::Delim
            || self.state == State::NextItem || self.state == State::NextDelim || self.state
            == State::Exhaust) ==> self.pos < self.children@.len()
    }

    /// What remains of the block: the items yet to be read and whether it ends well.
    pub open spec fn remaining(self) -> Remaining {
        let cs = self.children@;
        match self.state {
            State::Enter => rem_block(cs, self.ends, self.delim),
            State::Open => rem_open(cs, self.pos as int, self.ends, self.delim),
            State::Item => rem_item(cs, self.pos as int, self.ends, self.delim),
            State::Delim => rem_delim(cs, self.pos as int, self.ends, self.delim),
            State::NextItem => rem_next(cs, self.pos as int, self.ends, self.delim, false),
            State::NextDelim => rem_next(cs, self.pos as int, self.ends, self.delim, true),
            State::Exhaust => (Seq::empty(), first_stop(cs, self.pos as int) >= cs.len()),
            _ => (Seq::empty(), true),
        }
    }

    /// An iterator over `children` read as a block with `ends` and `delim`.
    pub fn from_children(children: &'a Vec<TsSyntaxNode>, ends: BlockEnds, delim: BlockDelim) -> (res: Self)
        ensures
            res.wf(),
            res.children == children,
            res.remaining() == rem_block(children@, ends, delim),
            res.ends == ends && res.delim == delim,
    {
        TSNodeIterator { children, state: State::Enter, pos: 0, ends, delim }
    }

    /// Reads the next item of the block: `Ok(Some(node))` for the next item, `Ok(None)` when
    /// the block is read and ends well, an error when it does not. Comments are stepped over
    /// and not recorded: the comments of a tree are gathered at once by `clone_comments`.
    pub fn advance(&mut self) -> (res: Result<Option<&'a TsSyntaxNode>, ModelError>)
        requires
            old(self).wf(),
        ensures
            final(self).wf(),
            final(self).children == old(self).children,
            old(self).remaining().0.len() > 0 ==> {
                &&& res == Ok::<Option<&'a TsSyntaxNode>, ModelError>(
                    Some(&old(self).children@[old(self).remaining().0[0]]),
                )
                &&& final(self).remaining() == (
                    old(self).remaining().0.drop_first(),
                    old(self).remaining().1,
                )
            },
            old(self).remaining().0.len() == 0 && old(self).remaining().1 ==> res == Ok::<
                Option<&'a TsSyntaxNode>,
                ModelError,
            >(None) && final(self).remaining() == old(self).remaining(),
            old(self).remaining().0.len() == 0 && !old(self).remaining().1 ==> res is Err,
            res matches Ok(Some(_)) ==> final(self).after_item() && final(self).pos == old(
                self,
            ).remaining().0[0],
            old(self).ends != BlockEnds::Quotes ==> final(self).ends == old(self).ends,
            final(self).delim == old(self).delim,
            res matches Ok(Some(_)) ==> (final(self).state == State::NextItem <==> old(self).delim
                == BlockDelim::NoDelim),
            res matches Ok(None) ==> final(self).state == State::Done,
            res matches Err(e) ==> e.is_parser_kind(),
    {
        let cs = self.children;
        let n = cs.len();
        let ghost r = self.remaining();
        loop
            invariant
                self.wf(),
                self.children == cs,
                cs == old(self).children,
                n == cs@.len(),
                self.remaining() == r,
                r == old(self).remaining(),
                old(self).ends != BlockEnds::Quotes ==> self.ends == old(self).ends,
                self.delim == old(self).delim,
            decreases n - self.pos, rank(self.state),
        {
            proof {
                lemma_first_stop(cs@, self.pos as int);
            }
            match self.state {
                State::Enter => {
                    if n > 0 {
                        self.pos = 0;
                        self.state = if self.ends == BlockEnds::NoEnds {
                            State::Item
                        } else {
                            State::Open
                        };
                    } else {
                        self.state = State::Done;
                    }
                },
                State::Open => {
                    match get_next(cs, self.pos)? {
                        Some(j) => {
                            let open = BlockEnds::get_open(cs[j].kind.as_str());
                            let ends = self.ends;
                            if ends == BlockEnds::Quotes && (open == BlockEnds::SingleQuotes || open
                                == BlockEnds::DoubleQuotes) {
                                self.ends = open;
                            } else if ends != open {
                                return Err(
                                    parser_error("Expected open symbol ", ends.name(), " but found ", open.name()),
                                );
                            }
                            if j + 1 >= n {
                                return Err(
                                    parser_error("Expected close symbol ", self.ends.name(), " but iterator is exhausted", ""),
                                );
                            }
                            self.pos = j + 1;
                            self.state = State::Item;
                        },
                        None => {
                            self.pos = n - 1;
                            self.state = State::Exit;
                        },
                    }
                },
                State::Item | State::Delim => {
                    let delim_expected = self.state == State::Delim;
                    match get_next(cs, self.pos)? {
                        Some(j) => {
                            let node = &cs[j];
                            let has_ends = self.ends != BlockEnds::NoEnds;
                            if has_ends && self.ends == BlockEnds::get_close(node.kind.as_str()) {
                                if j + 1 < n {
                                    self.pos = j + 1;
                                    self.state = State::Exhaust;
                                } else {
                                    self.pos = j;
                                    self.state = State::Exit;
                                }
                            } else if delim_expected {
                                let found = BlockDelim::get(node.kind.as_str());
                                if found != self.delim {
                                    return Err(
                                        parser_error("Expected delimiter ", self.delim.name(), " but found ", found.name()),
                                    );
                                }
                                self.pos = j;
                                self.state = State::NextItem;
                            } else {
                                self.pos = j;
                                self.state = if self.delim != BlockDelim::NoDelim {
                                    State::NextDelim
                                } else {
                                    State::NextItem
                                };
                                proof {
                                    let rn = rem_next(cs@, j as int, self.ends, self.delim, self.delim != BlockDelim::NoDelim);
                                    assert((seq![j as int] + rn.0).drop_first() =~= rn.0);
                                }
                                return Ok(Some(node));
                            }
                        },
                        None => {
                            if self.ends != BlockEnds::NoEnds {
                                return Err(
                                    parser_error("Expected close symbol ", self.ends.name(), " but iterator is exhausted", ""),
                                );
                            }
                            self.pos = n - 1;
                            self.state = State::Exit;
                        },
                    }
                },
                State::NextItem | State::NextDelim => {
                    if self.pos + 1 < n {
                        self.state = if self.state == State::NextDelim {
                            State::Delim
                        } else {
                            State::Item
                        };
                        self.pos = self.pos + 1;
                    } else if self.ends != BlockEnds::NoEnds {
                        return Err(
                            parser_error("Expected close symbol ", self.ends.name(), " but iterator is exhausted", ""),
                        );
                    } else {
                        self.state = State::Exit;
                    }
                },
                State::Exhaust => {
                    match get_next(cs, self.pos)? {
                        Some(j) => {
                            return Err(
                                parser_error("Expected iterator to be exhausted but found ", cs[j].kind.as_str(), "", ""),
                            );
                        },
                        None => {
                            self.pos = n - 1;
                            self.state = State::Exit;
                        },
                    }
                },
                State::Exit => {
                    self.state = State::Done;
                },
                State::Done => {
                    return Ok(None);
                },
            }
        }
    }
}

/// `n` is a terminal of kind `kind`: a node of that kind that fills no field.
pub open spec fn is_terminal(n: TsSyntaxNode, kind: Seq<char>) -> bool {
    n.field is None && n.kind@ == kind
}

/// `n` fills the field `name` of its parent.
pub open spec fn is_field(n: TsSyntaxNode, name: Seq<char>) -> bool {
    n.field matches Some(f) && f@ == name
}

impl<'a> TSNodeIterator<'a> {
    /// An item was just read: the iterator stands right after it.
    pub open spec fn after_item(self) -> bool {
        self.state == State::NextItem || self.state == State::NextDelim
    }

    /// The next item of the block, if one is left.
    pub open spec fn peek(self) -> Option<TsSyntaxNode> {
        if self.remaining().0.len() > 0 {
            Some(self.children@[self.remaining().0[0]])
        } else {
            None
        }
    }

    /// The items of the block that are left, in order.
    pub open spec fn pending(self) -> Seq<TsSyntaxNode> {
        self.remaining().0.map_values(|k: int| self.children@[k])
    }

    /// What remains of the block once its next item is read.
    pub open spec fn after_next(self) -> Remaining {
        (self.remaining().0.drop_first(), self.remaining().1)
    }

    /// The next item of the block; an error when none is left or the block is malformed.
    pub fn next_node(&mut self) -> (res: Result<TSNode<'a>, ModelError>)
        requires
            old(self).wf(),
        ensures
            final(self).wf(),
            final(self).children == old(self).children,
            old(self).peek() matches Some(n) ==> res matches Ok(t) && *t.node == n
                && final(self).remaining() == old(self).after_next() && final(self).after_item(),
            old(self).peek() is None ==> res is Err,
            old(self).peek() is None && old(self).remaining().1 ==> (res matches Err(e)
                && e.is_parser_error("Expected next node but iterator is exhausted"@)),
            res matches Err(e) ==> e.is_parser_kind(),
    {
        match self.advance()? {
            Some(node) => Ok(TSNode { node }),
            None => Err(ModelError::parser(owned("Expected next node but iterator is exhausted"))),
        }
    }

    /// Reads the next item of the block, which must be a terminal of kind `kind`.
    pub fn skip_terminal(&mut self, kind: &str) -> (res: Result<(), ModelError>)
        requires
            old(self).wf(),
        ensures
            final(self).wf(),
            final(self).children == old(self).children,
            res is Ok <==> (old(self).peek() matches Some(n) && is_terminal(n, kind@)),
            old(self).peek() is Some ==> final(self).remaining() == old(self).after_next(),
            res is Ok ==> final(self).after_item() && final(self).pos == old(self).remaining().0[0],
            old(self).ends != BlockEnds::Quotes ==> final(self).ends == old(self).ends,
            final(self).delim == old(self).delim,
            res is Ok ==> (final(self).state == State::NextItem <==> old(self).delim
                == BlockDelim::NoDelim),
            res matches Err(e) ==> e.is_parser_kind(),
    {
        match self.advance()? {
            Some(node) => {
                if node.field.is_none() && str_eq(node.kind.as_str(), kind) {
                    Ok(())
                } else {
                    Err(parser_error("Expected next node to be a terminal with kind '", kind, "' but was ", node.kind.as_str()))
                }
            },
            None => Err(
                parser_error("Expected next node to be a terminal with kind '", kind, "' but iterator is exhausted", ""),
            ),
        }
    }

    /// Reads the last item of the block if there is one: `Ok(true)` when it is a terminal of
    /// kind `kind`, `Ok(false)` when no item is left, an error otherwise.
    pub fn skip_optional_last(&mut self, kind: &str) -> (res: Result<bool, ModelError>)
        requires
            old(self).wf(),
        ensures
            final(self).wf(),
            final(self).children == old(self).children,
            old(self).peek() matches Some(n) ==> (if is_terminal(n, kind@) {
                res == Ok::<bool, ModelError>(true)
            } else {
                res is Err
            }) && final(self).remaining() == old(self).after_next(),
            old(self).peek() is None && old(self).remaining().1 ==> res == Ok::<bool, ModelError>(
                false,
            ) && final(self).remaining() == old(self).remaining(),
            old(self).peek() is None && !old(self).remaining().1 ==> res is Err,
            old(self).ends != BlockEnds::Quotes ==> final(self).ends == old(self).ends,
            final(self).delim == old(self).delim,
            res matches Err(e) ==> e.is_parser_kind(),
    {
        match self.advance()? {
            Some(node) => {
                if node.field.is_none() && str_eq(node.kind.as_str(), kind) {
                    Ok(true)
                } else {
                    Err(parser_error("Expected next node to be a terminal with kind '", kind, "' but was ", node.kind.as_str()))
                }
            },
            None => Ok(false),
        }
    }

    /// Reads the next item of the block if there is one, which must fill the field `name`;
    /// `Ok(None)` when no item is left.
    pub fn get_next_field(&mut self, name: &str) -> (res: Result<Option<TSNode<'a>>, ModelError>)
        requires
            old(self).wf(),
        ensures
            final(self).wf(),
            final(self).children == old(self).children,
            old(self).peek() matches Some(n) ==> (if is_field(n, name@) {
                res matches Ok(Some(t)) && *t.node == n
            } else {
                res is Err
            }) && final(self).remaining() == old(self).after_next(),
            old(self).peek() is None && old(self).remaining().1 ==> res == Ok::<
                Option<TSNode<'a>>,
                ModelError,
            >(None) && final(self).remaining() == old(self).remaining(),
            old(self).peek() is None && !old(self).remaining().1 ==> res is Err,
            res matches Err(e) ==> e.is_parser_kind(),
    {
        match self.advance()? {
            Some(node) => {
                let is_named = match &node.field {
                    Some(f) => str_eq(f.as_str(), name),
                    None => false,
                };
                if is_named {
                    Ok(Some(TSNode { node }))
                } else {
                    Err(parser_error("Expected next node to be a field with name '", name, "' but was ", node.kind.as_str()))
                }
            },
            None => Ok(None),
        }
    }

    /// Reads the next item of the block, which must fill the field `name`.
    pub fn next_field(&mut self, name: &str) -> (res: Result<TSNode<'a>, ModelError>)
        requires
            old(self).wf(),
        ensures
            final(self).wf(),
            final(self).children == old(self).children,
            old(self).peek() matches Some(n) ==> (if is_field(n, name@) {
                res matches Ok(t) && *t.node == n
            } else {
                res is Err
            }) && final(self).remaining() == old(self).after_next(),
            old(self).peek() is None ==> res is Err,
            res matches Err(e) ==> e.is_parser_kind(),
    {
        match self.get_next_field(name)? {
            Some(node) => Ok(node),
            None => Err(
                parser_error("Expected next node to be a field with name '", name, "' but iterator is exhausted", ""),
            ),
        }
    }

    /// Sets the delimiter of the items that follow; only right after an item or a delimiter.
    pub fn set_delim(&mut self, delim: BlockDelim) -> (res: Result<(), ModelError>)
        requires
            old(self).wf(),
        ensures
            final(self).wf(),
            res is Ok <==> (old(self).state == State::NextItem || old(self).state
                == State::NextDelim),
            final(self).delim == (if res is Ok {
                delim
            } else {
                old(self).delim
            }),
            final(self).children == old(self).children,
            final(self).state == old(self).state,
            final(self).pos == old(self).pos,
            final(self).ends == old(self).ends,
            res matches Err(e) ==> e.is_parser_kind(),
    {
        match self.state {
            State::NextItem | State::NextDelim => {
                self.delim = delim;
                Ok(())
            },
            _ => Err(ModelError::parser(owned("Cannot initiate list from this state"))),
        }
    }

    /// Reads the rest of the block; with `ensure_exhausted`, an error when an item is left.
    /// The comments it steps over are not recorded (see `advance`).
    pub fn drain(&mut self, ensure_exhausted: bool) -> (res: Result<(), ModelError>)
        requires
            old(self).wf(),
        ensures
            final(self).wf(),
            final(self).children == old(self).children,
            res is Ok <==> old(self).remaining().1 && (ensure_exhausted ==> old(
                self,
            ).remaining().0.len() == 0),
            res is Ok ==> final(self).remaining() == (Seq::<int>::empty(), true),
            res matches Err(e) ==> e.is_parser_kind(),
    {
        let ghost r = self.remaining();
        let mut found = false;
        loop
            invariant
                self.wf(),
                self.children == old(self).children,
                r == old(self).remaining(),
                self.remaining().1 == r.1,
                self.remaining().0.len() <= r.0.len(),
                found == (self.remaining().0.len() < r.0.len()),
            ensures
                self.wf(),
                self.children == old(self).children,
                r.1,
                found == (r.0.len() > 0),
                self.remaining().0.len() == 0,
                self.remaining().1,
            decreases self.remaining().0.len(),
        {
            match self.advance() {
                Ok(Some(_)) => {
                    found = true;
                },
                Ok(None) => {
                    break ;
                },
                Err(e) => {
                    return Err(e);
                },
            }
        }
        if ensure_exhausted && found {
            return Err(ModelError::parser(owned("Expected iterator to be exhausted but found one or more non-comment node(s)")));
        }
        Ok(())
    }

    /// The next item of the block: `None` when the block is read and ends well, an error when
    /// it does not.
    pub fn next(&mut self) -> (res: Option<Result<TSNode<'a>, ModelError>>)
        requires
            old(self).wf(),
        ensures
            final(self).wf(),
            final(self).children == old(self).children,
            old(self).peek() matches Some(n) ==> res matches Some(Ok(t)) && *t.node == n
                && final(self).remaining() == old(self).after_next() && final(self).after_item(),
            old(self).peek() is None && old(self).remaining().1 ==> res is None
                && final(self).remaining() == old(self).remaining(),
            old(self).peek() is None && !old(self).remaining().1 ==> res matches Some(Err(_)),
            res matches Some(Err(e)) ==> e.is_parser_kind(),
    {
        match self.advance() {
            Ok(Some(node)) => Some(Ok(TSNode { node })),
            Ok(None) => None,
            Err(e) => Some(Err(e)),
        }
    }
}

/// A node of the syntax tree, as the model's builders read it.
#[derive(Debug)]
pub struct TSNode<'a> {
    pub node: &'a TsSyntaxNode,
}

impl<'a> TSNode<'a> {
    /// The root of a syntax tree read from a tree cursor.
    pub fn from_cursor(root: &'a TsSyntaxNode) -> (res: Self)
        ensures
            *res.node == *root,
    {
        TSNode { node: root }
    }

    /// The kind of the node.
    pub fn kind(&self) -> (res: &'a str)
        ensures
            res@ == self.node.kind@,
    {
        let n: &'a TsSyntaxNode = self.node;
        n.kind.as_str()
    }

    /// The span of the node.
    pub fn as_span(&self) -> (res: Span)
        ensures
            res == self.node.span,
    {
        self.node.span
    }

    /// The text of the node; an error when it is not valid UTF-8.
    pub fn try_as_str(&self) -> (res: Result<&'a str, ModelError>)
        ensures
            self.node.text matches Some(t) ==> res matches Ok(s) && s@ == t@,
            self.node.text is None ==> res is Err,
    {
        let n: &'a TsSyntaxNode = self.node;
        match &n.text {
            Some(t) => Ok(t.as_str()),
            None => Err(ModelError::parser(owned("error getting node contents as str"))),
        }
    }

    /// The text of the node; an error when it is not valid UTF-8.
    pub fn try_into_string(self) -> (res: Result<String, ModelError>)
        ensures
            self.node.text matches Some(t) ==> res == Ok::<String, ModelError>(t),
            self.node.text is None ==> res is Err,
    {
        match &self.node.text {
            Some(t) => Ok(t.clone()),
            None => Err(ModelError::parser(owned("error getting node contents as str"))),
        }
    }

    /// The text of the node, anchored to its span; an error when it is not valid UTF-8.
    pub fn try_into_text_anchor(self) -> (res: Result<Anchor<String>, ModelError>)
        ensures
            self.node.text matches Some(t) ==> res matches Ok(a) && a.element == t && a.span
                == self.node.span,
            self.node.text is None ==> res is Err,
    {
        let span = self.as_span();
        Ok(Anchor::new(self.try_into_string()?, span))
    }

    /// The name of the field of its parent that the node fills, if any.
    pub fn get_field(&self) -> (res: Option<&'a str>)
        ensures
            self.node.field matches Some(f) ==> res matches Some(g) && g@ == f@,
            self.node.field is None ==> res is None,
    {
        let n: &'a TsSyntaxNode = self.node;
        match &n.field {
            Some(f) => Some(f.as_str()),
            None => None,
        }
    }

    /// The name of the field of its parent that the node fills; an error when it fills none.
    pub fn try_field(&self) -> (res: Result<&'a str, ModelError>)
        ensures
            self.node.field matches Some(f) ==> res matches Ok(g) && g@ == f@,
            self.node.field is None ==> res is Err,
    {
        match self.get_field() {
            Some(f) => Ok(f),
            None => Err(ModelError::parser(owned("Expected node to be a field"))),
        }
    }

    /// An error unless the node fills the field `name` of its parent.
    pub fn ensure_field(&self, name: &str) -> (res: Result<(), ModelError>)
        ensures
            res is Ok <==> is_field(*self.node, name@),
    {
        let field = self.try_field()?;
        if str_eq(name, field) {
            Ok(())
        } else {
            Err(ModelError::parser(owned("Expected node to be a field with another name")))
        }
    }

    /// An iterator over the children of the node that are not comments, whatever their kind.
    pub fn into_children(self) -> (res: TSNodeIterator<'a>)
        ensures
            res.wf(),
            res.children@ == self.node.children@,
            res.remaining() == rem_block(self.node.children@, BlockEnds::NoEnds, BlockDelim::NoDelim),
    {
        let n: &'a TsSyntaxNode = self.node;
        TSNodeIterator::from_children(&n.children, BlockEnds::NoEnds, BlockDelim::NoDelim)
    }

    /// An iterator over the items of the block that the children of the node form, with
    /// `ends` and `delim`.
    pub fn into_block(self, ends: BlockEnds, delim: BlockDelim) -> (res: TSNodeIterator<'a>)
        ensures
            res.wf(),
            res.children@ == self.node.children@,
            res.remaining() == rem_block(self.node.children@, ends, delim),
            res.ends == ends && res.delim == delim,
    {
        let n: &'a TsSyntaxNode = self.node;
        TSNodeIterator::from_children(&n.children, ends, delim)
    }

    /// The comments within the node, in line order, each keyed by the line it starts on; an
    /// error when the text of one is not valid UTF-8, or two start on one line.
    pub fn clone_comments(&self) -> (res: Result<Comments, ModelError>)
        ensures
            res is Ok <==> comments_readable(*self.node) && lines_free(
                Seq::empty(),
                ts_tree_comments(*self.node),
            ),
            res matches Ok(c) ==> lines_increasing(c@) && c@.to_multiset() == ts_tree_comments(
                *self.node,
            ).to_multiset(),
    {
        if !check_readable(self.node) {
            return Err(ModelError::parser(owned("error getting node contents as str")));
        }
        let mut comments = Comments::default();
        add_ts_comments(self.node, &mut comments)?;
        proof {
            assert(Seq::<(usize, Anchor<String>)>::empty() + ts_tree_comments(*self.node)
                =~= ts_tree_comments(*self.node));
        }
        Ok(comments)
    }

    /// The error that `message` describes, raised at this node; an error of its own when the
    /// text of the node is not valid UTF-8.
    pub fn into_err(self, message: String) -> (res: Result<(), ModelError>)
        ensures
            res matches Err(e) && (self.node.text is Some ==> e.is_parser_error(message@)),
    {
        let _ = self.try_as_str()?;
        Err(ModelError::parser(message))
    }
}

/// Every comment within `n` has its text.
pub open spec fn comments_readable(n: TsSyntaxNode) -> bool
    decreases n,
{
    &&& is_comment(n) ==> n.text is Some
    &&& forall|i: int| 0 <= i < n.children@.len() ==> comments_readable(#[trigger] n.children@[i])
}

/// `true` iff every comment within `n` has its text.
fn check_readable(n: &TsSyntaxNode) -> (res: bool)
    ensures
        res == comments_readable(*n),
    decreases n,
{
    if is_comment_node(n) && n.text.is_none() {
        return false;
    }
    let mut i: usize = 0;
    while i < n.children.len()
        invariant
            i <= n.children@.len(),
            is_comment(*n) ==> n.text is Some,
            forall|k: int| 0 <= k < i ==> comments_readable(#[trigger] n.children@[k]),
        decreases n.children@.len() - i,
    {
        proof {
            assert(decreases_to!(n => n.children@[i as int]));
        }
        if !check_readable(&n.children[i]) {
            return false;
        }
        i = i + 1;
    }
    true
}

/// `n` itself as a comment with the line it starts on, if it is a comment with its text.
pub open spec fn ts_own_comment(n: TsSyntaxNode) -> Seq<(usize, Anchor<String>)> {
    if is_comment(n) && n.text is Some {
        seq![(n.span.start.line, Anchor { element: n.text->0, span: n.span })]
    } else {
        Seq::empty()
    }
}

/// The comments within `n`, in document order, each with the line it starts on.
pub open spec fn ts_tree_comments(n: TsSyntaxNode) -> Seq<(usize, Anchor<String>)>
    decreases n, 1nat,
{
    ts_own_comment(n) + ts_forest_comments(n.children@)
}

/// The comments within the nodes `cs`, in document order.
pub open spec fn ts_forest_comments(cs: Seq<TsSyntaxNode>) -> Seq<(usize, Anchor<String>)>
    decreases cs, 0nat,
{
    if cs.len() == 0 {
        Seq::empty()
    } else {
        ts_forest_comments(cs.subrange(0, cs.len() - 1)) + ts_tree_comments(cs[cs.len() - 1])
    }
}

proof fn lemma_ts_forest_concat(a: Seq<TsSyntaxNode>, b: Seq<TsSyntaxNode>)
    ensures
        ts_forest_comments(a + b) == ts_forest_comments(a) + ts_forest_comments(b),
    decreases b.len(),
{
    if b.len() == 0 {
        assert(a + b =~= a);
        assert(ts_forest_comments(b) =~= Seq::empty());
        assert(ts_forest_comments(a) + ts_forest_comments(b) =~= ts_forest_comments(a));
    } else {
        let b0 = b.subrange(0, b.len() - 1);
        lemma_ts_forest_concat(a, b0);
        assert((a + b).subrange(0, (a + b).len() - 1) =~= a + b0);
        assert((a + b)[(a + b).len() - 1] == b[b.len() - 1]);
        assert(ts_forest_comments(a) + ts_forest_comments(b) =~= ts_forest_comments(a)
            + ts_forest_comments(b0) + ts_tree_comments(b[b.len() - 1]));
    }
}

/// Adds the comments within `n` to `comments`; an error when two of them, or one of them and a
/// comment already there, start on one line.
fn add_ts_comments(n: &TsSyntaxNode, comments: &mut Comments) -> (res: Result<(), ModelError>)
    requires
        lines_increasing(old(comments)@),
        comments_readable(*n),
    ensures
        res is Ok <==> lines_free(old(comments)@, ts_tree_comments(*n)),
        res is Ok ==> final(comments)@.to_multiset() == (old(comments)@ + ts_tree_comments(
            *n,
        )).to_multiset(),
        lines_increasing(final(comments)@),
    decreases n,
{
    broadcast use vstd::seq_lib::to_multiset_insert, vstd::seq_lib::lemma_multiset_commutative;

    let ghost old_c = comments@;
    if is_comment_node(n) {
        let text = match &n.text {
            Some(t) => t.clone(),
            None => {
                return Err(ModelError::parser(owned("error getting node contents as str")));
            },
        };
        let ghost e = (n.span.start.line, Anchor { element: n.text->0, span: n.span });
        match comments.try_insert(n.span.start.line, Anchor::new(text, n.span)) {
            Ok(()) => {
                proof {
                    assert(ts_own_comment(*n) == seq![e]);
                    assert forall|j: int| 0 <= j < old_c.len() implies e.0 != old_c[j].0 by {
                        if e.0 == old_c[j].0 {
                            assert(line_index(old_c, e.0) is Some);
                        }
                    }
                    let k = choose|k: int| 0 <= k <= old_c.len() && comments@ == old_c.insert(k, e);
                    assert(comments@.to_multiset() == old_c.to_multiset().insert(e));
                    vstd::seq_lib::to_multiset_insert(old_c, k, e);
                    vstd::seq_lib::to_multiset_insert(old_c, old_c.len() as int, e);
                    assert(old_c + seq![e] =~= old_c.insert(old_c.len() as int, e));
                }
            },
            Err(err) => {
                proof {
                    let j = choose|i: int| 0 <= i < old_c.len() && old_c[i].0 == e.0;
                    assert(ts_own_comment(*n) == seq![e]);
                    assert(ts_tree_comments(*n)[0] == e);
                    assert(!lines_free(old_c, ts_tree_comments(*n)));
                }
                return Err(err);
            },
        }
    } else {
        proof {
            assert(old_c + ts_own_comment(*n) =~= old_c);
        }
    }
    let ghost own = ts_own_comment(*n);
    let ghost cs = n.children@;
    proof {
        assert(lines_free(old_c, own)) by {
            if is_comment(*n) {
            }
        }
        assert(cs.subrange(0, 0) =~= Seq::<TsSyntaxNode>::empty());
        assert(own + ts_forest_comments(cs.subrange(0, 0)) =~= own);
    }
    let mut i: usize = 0;
    while i < n.children.len()
        invariant
            cs == n.children@,
            comments_readable(*n),
            old_c == old(comments)@,
            i <= cs.len(),
            lines_free(old_c, own + ts_forest_comments(cs.subrange(0, i as int))),
            comments@.to_multiset() == (old_c + own + ts_forest_comments(
                cs.subrange(0, i as int),
            )).to_multiset(),
            lines_increasing(comments@),
            ts_tree_comments(*n) == own + ts_forest_comments(cs),
            lines_free(old_c, ts_tree_comments(*n)) ==> lines_free(
                old_c,
                own + ts_forest_comments(cs.subrange(0, i as int)),
            ),
        decreases cs.len() - i,
    {
        proof {
            assert(decreases_to!(n => n.children@[i as int]));
        }
        let ghost pre = own + ts_forest_comments(cs.subrange(0, i as int));
        let ghost mid = comments@;
        let ghost child = cs[i as int];
        proof {
            assert(comments_readable(child));
            assert(cs.subrange(0, i + 1).subrange(0, i as int) =~= cs.subrange(0, i as int));
            assert(ts_forest_comments(cs.subrange(0, i + 1)) == ts_forest_comments(
                cs.subrange(0, i as int),
            ) + ts_tree_comments(child));
            assert(pre + ts_tree_comments(child) =~= own + ts_forest_comments(
                cs.subrange(0, i + 1),
            ));
            lemma_lines_free_concat(old_c, pre, ts_tree_comments(child));
            assert(old_c + own + ts_forest_comments(cs.subrange(0, i as int)) =~= old_c + pre);
            lemma_lines_free_same_multiset(mid, old_c + pre, ts_tree_comments(child));
            lemma_ts_forest_concat(cs.subrange(0, i + 1), cs.subrange(i + 1, cs.len() as int));
            assert(cs.subrange(0, i + 1) + cs.subrange(i + 1, cs.len() as int) =~= cs);
            lemma_lines_free_concat(
                old_c,
                own + ts_forest_comments(cs.subrange(0, i + 1)),
                ts_forest_comments(cs.subrange(i + 1, cs.len() as int)),
            );
            assert(own + ts_forest_comments(cs) =~= own + ts_forest_comments(cs.subrange(0, i + 1))
                + ts_forest_comments(cs.subrange(i + 1, cs.len() as int)));
        }
        match add_ts_comments(&n.children[i], comments) {
            Ok(()) => {},
            Err(err) => {
                proof {
                    assert(!lines_free(mid, ts_tree_comments(child)));
                    assert(!lines_free(old_c + pre, ts_tree_comments(child)));
                    assert(!lines_free(old_c, pre + ts_tree_comments(child)));
                    assert(!lines_free(old_c, own + ts_forest_comments(cs.subrange(0, i + 1))));
                    assert(!lines_free(old_c, ts_tree_comments(*n)));
                }
                return Err(err);
            },
        }
        proof {
            vstd::seq_lib::lemma_multiset_commutative(mid, ts_tree_comments(child));
            vstd::seq_lib::lemma_multiset_commutative(old_c + pre, ts_tree_comments(child));
            assert(old_c + own + ts_forest_comments(cs.subrange(0, i + 1)) =~= old_c + pre
                + ts_tree_comments(child));
        }
        i = i + 1;
    }
    proof {
        assert(cs.subrange(0, cs.len() as int) =~= cs);
        assert(old_c + own + ts_forest_comments(cs) =~= old_c + ts_tree_comments(*n));
    }
    Ok(())
}

/// The indices of the children `cs` from `i` on that are not comments, in order.
pub open spec fn non_comments_from(cs: Seq<TsSyntaxNode>, i: int) -> Seq<int>
    decreases cs.len() - i,
{
    if i < 0 || i >= cs.len() {
        Seq::empty()
    } else if is_comment(cs[i]) {
        non_comments_from(cs, i + 1)
    } else {
        seq![i] + non_comments_from(cs, i + 1)
    }
}

/// No child of `cs` is an error or missing, and only comments are extras.
pub open spec fn clean_children(cs: Seq<TsSyntaxNode>) -> bool {
    forall|k: int|
        0 <= k < cs.len() ==> !(#[trigger] cs[k]).is_error && !cs[k].is_missing && (!is_comment(
            cs[k],
        ) ==> !cs[k].is_extra)
}

/// Every index in `s` is one of `cs` at `i` or later.
pub open spec fn indices_from(s: Seq<int>, cs: Seq<TsSyntaxNode>, i: int) -> bool {
    forall|k: int| 0 <= k < s.len() ==> i <= #[trigger] s[k] < cs.len()
}

proof fn lemma_rem_item_range(cs: Seq<TsSyntaxNode>, i: int, ends: BlockEnds, delim: BlockDelim)
    requires
        0 <= i,
    ensures
        indices_from(rem_item(cs, i, ends, delim).0, cs, i),
    decreases cs.len() - i, 1nat,
{
    if 0 <= i <= cs.len() {
        lemma_first_stop(cs, i);
        let j = first_stop(cs, i);
        if j < cs.len() && !bad(cs[j]) && !closes(ends, cs[j]) {
            lemma_rem_next_range(cs, j, ends, delim, delim != BlockDelim::NoDelim);
            let r = rem_next(cs, j, ends, delim, delim != BlockDelim::NoDelim);
            assert forall|k: int| 0 <= k < (seq![j] + r.0).len() implies i <= #[trigger] (seq![j]
                + r.0)[k] < cs.len() by {
                if k > 0 {
                    assert((seq![j] + r.0)[k] == r.0[k - 1]);
                }
            }
        }
    }
}

proof fn lemma_rem_delim_range(cs: Seq<TsSyntaxNode>, i: int, ends: BlockEnds, delim: BlockDelim)
    requires
        0 <= i,
    ensures
        indices_from(rem_delim(cs, i, ends, delim).0, cs, i),
    decreases cs.len() - i, 1nat,
{
    if 0 <= i <= cs.len() {
        lemma_first_stop(cs, i);
        let j = first_stop(cs, i);
        if j < cs.len() && !bad(cs[j]) && !closes(ends, cs[j]) && BlockDelim::delim_of(cs[j].kind@)
            == delim {
            lemma_rem_next_range(cs, j, ends, delim, false);
        }
    }
}

pub proof fn lemma_rem_next_range(
    cs: Seq<TsSyntaxNode>,
    j: int,
    ends: BlockEnds,
    delim: BlockDelim,
    expect_delim: bool,
)
    requires
        0 <= j,
    ensures
        indices_from(rem_next(cs, j, ends, delim, expect_delim).0, cs, j + 1),
    decreases cs.len() - j, 0nat,
{
    if 0 <= j && j + 1 < cs.len() {
        if expect_delim {
            lemma_rem_delim_range(cs, j + 1, ends, delim);
        } else {
            lemma_rem_item_range(cs, j + 1, ends, delim);
        }
    }
}

/// Every item of the block of `cs` is one of its children.
pub proof fn lemma_rem_block_range(cs: Seq<TsSyntaxNode>, ends: BlockEnds, delim: BlockDelim)
    ensures
        indices_from(rem_block(cs, ends, delim).0, cs, 0),
{
    if cs.len() > 0 {
        if ends == BlockEnds::NoEnds {
            lemma_rem_item_range(cs, 0, ends, delim);
        } else {
            lemma_first_stop(cs, 0);
            let j = first_stop(cs, 0);
            if j < cs.len() && !bad(cs[j]) && opens(ends, BlockEnds::open_of(cs[j].kind@)) && j + 1
                < cs.len() {
                lemma_rem_item_range(
                    cs,
                    j + 1,
                    resolved(ends, BlockEnds::open_of(cs[j].kind@)),
                    delim,
                );
            }
        }
    }
}

/// The items of the children of `n` read without ends or delimiter, and whether they end well.
pub open spec fn items(n: TsSyntaxNode) -> Remaining {
    rem_block(n.children@, BlockEnds::NoEnds, BlockDelim::NoDelim)
}

/// The `k`th item of the children of `n`.
pub open spec fn item(n: TsSyntaxNode, k: int) -> TsSyntaxNode {
    n.children@[items(n).0[k]]
}

/// The items of the children of `n` read as a block with `ends` and `delim`.
pub open spec fn block_items(n: TsSyntaxNode, ends: BlockEnds, delim: BlockDelim) -> Seq<TsSyntaxNode> {
    rem_block(n.children@, ends, delim).0.map_values(|k: int| n.children@[k])
}

/// Every other index from `i` up to `end`, in order.
pub open spec fn every_other_between(i: int, end: int) -> Seq<int>
    decreases end - i,
{
    if i >= end {
        Seq::empty()
    } else if i + 2 >= end {
        seq![i]
    } else {
        seq![i] + every_other_between(i + 2, end)
    }
}

/// The children `cs` form a block with `ends` and `delim`, comments anywhere: of the children
/// that are not comments, the first opens the block, the last closes it, none between closes
/// it, and, with a delimiter, every other one between (the second, the fourth, and so on) is
/// the delimiter, so that a delimiter may also stand right before the closing symbol; no child
/// is an error or missing, and only comments are extras.
pub open spec fn block_shaped(cs: Seq<TsSyntaxNode>, ends: BlockEnds, delim: BlockDelim) -> bool {
    let nc = non_comments_from(cs, 0);
    let n = nc.len();
    &&& clean_children(cs)
    &&& n >= 2
    &&& BlockEnds::open_of(cs[nc[0]].kind@) == ends
    &&& BlockEnds::close_of(cs[nc[n - 1]].kind@) == ends
    &&& forall|t: int| 0 < t < n - 1 ==> BlockEnds::close_of(cs[#[trigger] nc[t]].kind@) != ends
    &&& delim != BlockDelim::NoDelim ==> forall|t: int|
        0 < t < n - 1 && t % 2 == 0 ==> BlockDelim::delim_of(cs[#[trigger] nc[t]].kind@) == delim
}

} // verus!
