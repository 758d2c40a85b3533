//! The syntax tree that the `tree-sitter-wdl-1` grammar gives a WDL document, read out of
//! tree-sitter into plain values: one node per node of the tree, with its kind, its field name
//! in its parent, its flags, its span, its text and its children.
use crate::model::{Position, Span};
use crate::parsers::WdlParserError;
use crate::text::owned;
use vstd::prelude::*;
use vstd::string::*;
use vstd::utf8::{encode_utf8, valid_utf8};

verus! {

#[verifier::external_type_specification]
#[verifier::external_body]
pub struct ExTsParser(tree_sitter::Parser);

#[verifier::external_type_specification]
#[verifier::external_body]
pub struct ExTsTree(tree_sitter::Tree);

#[verifier::external_type_specification]
#[verifier::external_body]
pub struct ExTsTreeCursor<'a>(tree_sitter::TreeCursor<'a>);

/// A node of the syntax tree, as plain values.
#[derive(Debug)]
pub struct TsSyntaxNode {
    /// The node's identifier, unique in its tree.
    pub id: usize,
    /// The kind of the node: a rule, or the literal text of a token.
    pub kind: String,
    /// The name of the field of its parent that the node fills, if it fills one.
    pub field: Option<String>,
    /// The node is an error the parser recovered from.
    pub is_error: bool,
    /// The node was inserted by the parser where the text lacked it.
    pub is_missing: bool,
    /// The node may appear anywhere, such as a comment.
    pub is_extra: bool,
    /// The span of the node; lines and columns are counted from 0.
    pub span: Span,
    /// The text of the node, or `None` when it is not valid UTF-8.
    pub text: Option<String>,
    /// The children of the node, in order.
    pub children: Vec<TsSyntaxNode>,
}

/// Returns a parser for WDL 1.x (`tree_sitter_wdl_1::parser`). The contract claims that there
/// is one: the parser is made by `Parser::new` and `Parser::set_language`, which fails only for a
/// grammar whose version lies outside the range this `tree-sitter` reads (13 to 14), and the
/// version of this grammar is 14. Nothing else is claimed of the parser.
#[verifier::external_body]
fn wdl_parser() -> (res: Option<tree_sitter::Parser>)
    ensures
        res is Some,
{
    tree_sitter_wdl_1::parser().ok()
}

/// A node of a tree-sitter tree, as plain values: its kind, the field of its parent it fills,
/// its flags, and where it starts and ends (row and column, counted from 0, and byte offset).
pub struct TsNodeView {
    pub kind: Seq<char>,
    pub field: Option<Seq<char>>,
    pub is_error: bool,
    pub is_missing: bool,
    pub is_extra: bool,
    pub start_row: usize,
    pub start_column: usize,
    pub end_row: usize,
    pub end_column: usize,
    pub start_byte: usize,
    pub end_byte: usize,
}

/// The tree that `tree-sitter-wdl-1` gives `text` when it parses it from scratch: each node as a
/// tree cursor visits it, keyed by its path, the positions of the node and its ancestors among
/// their siblings from the root down (the root's path is empty).
pub uninterp spec fn ts_wdl_tree(text: Seq<char>) -> Map<Seq<int>, TsNodeView>;

/// The nodes of a tree-sitter tree, each keyed by its path.
pub uninterp spec fn ts_tree_nodes(tree: tree_sitter::Tree) -> Map<Seq<int>, TsNodeView>;

/// The nodes of the tree that a tree cursor walks, each keyed by its path.
pub uninterp spec fn ts_cursor_nodes(cursor: tree_sitter::TreeCursor<'_>) -> Map<Seq<int>, TsNodeView>;

/// The path of the node that a tree cursor stands on.
pub uninterp spec fn ts_cursor_path(cursor: tree_sitter::TreeCursor<'_>) -> Seq<int>;

/// The node that `cursor` stands on.
pub open spec fn cursor_node(cursor: tree_sitter::TreeCursor<'_>) -> TsNodeView {
    ts_cursor_nodes(cursor)[ts_cursor_path(cursor)]
}

/// `cursor` stands on a node of its tree.
pub open spec fn cursor_ok(cursor: tree_sitter::TreeCursor<'_>) -> bool {
    ts_cursor_nodes(cursor).dom().contains(ts_cursor_path(cursor))
}

/// A cursor at the root of `tree` (`Tree::walk`). The contract claims that it walks the nodes
/// of `tree`, of which there are finitely many, and stands on its root, whose path is empty.
#[verifier::external_body]
fn walk(tree: &tree_sitter::Tree) -> (res: tree_sitter::TreeCursor<'_>)
    ensures
        ts_cursor_nodes(res) == ts_tree_nodes(*tree),
        ts_cursor_path(res) == Seq::<int>::empty(),
        cursor_ok(res),
        ts_cursor_nodes(res).dom().finite(),
{
    tree.walk()
}

/// The name of the field that the cursor's node fills in its parent, if any
/// (`TreeCursor::field_name`).
#[verifier::external_body]
fn cursor_field_name(cursor: &tree_sitter::TreeCursor<'_>) -> (res: Option<&'static str>)
    requires
        cursor_ok(*cursor),
    ensures
        res matches Some(f) ==> cursor_node(*cursor).field == Some(f@),
        res is None ==> cursor_node(*cursor).field is None,
{
    cursor.field_name()
}

/// Moves the cursor to the first child of its node (`TreeCursor::goto_first_child`); `false`
/// when there is none, and the cursor stays.
#[verifier::external_body]
fn goto_first_child(cursor: &mut tree_sitter::TreeCursor<'_>) -> (res: bool)
    requires
        cursor_ok(*old(cursor)),
    ensures
        ts_cursor_nodes(*final(cursor)) == ts_cursor_nodes(*old(cursor)),
        res == ts_cursor_nodes(*old(cursor)).dom().contains(ts_cursor_path(*old(cursor)).push(0)),
        res ==> ts_cursor_path(*final(cursor)) == ts_cursor_path(*old(cursor)).push(0),
        !res ==> ts_cursor_path(*final(cursor)) == ts_cursor_path(*old(cursor)),
        cursor_ok(*final(cursor)),
{
    cursor.goto_first_child()
}

/// The path of the next sibling of the node at `p`.
pub open spec fn next_sibling_path(p: Seq<int>) -> Seq<int> {
    p.drop_last().push(p.last() + 1)
}

/// Moves the cursor to the next sibling of its node (`TreeCursor::goto_next_sibling`); `false`
/// when there is none, and the cursor stays.
#[verifier::external_body]
fn goto_next_sibling(cursor: &mut tree_sitter::TreeCursor<'_>) -> (res: bool)
    requires
        cursor_ok(*old(cursor)),
    ensures
        ts_cursor_nodes(*final(cursor)) == ts_cursor_nodes(*old(cursor)),
        res == (ts_cursor_path(*old(cursor)).len() > 0 && ts_cursor_nodes(*old(cursor)).dom().contains(next_sibling_path(ts_cursor_path(*old(cursor))))),
        res ==> ts_cursor_path(*final(cursor)) == next_sibling_path(ts_cursor_path(*old(cursor))),
        !res ==> ts_cursor_path(*final(cursor)) == ts_cursor_path(*old(cursor)),
        cursor_ok(*final(cursor)),
{
    cursor.goto_next_sibling()
}

/// Moves the cursor to the parent of its node (`TreeCursor::goto_parent`); `false` at the node
/// the cursor was made on, and the cursor stays.
#[verifier::external_body]
fn goto_parent(cursor: &mut tree_sitter::TreeCursor<'_>) -> (res: bool)
    requires
        cursor_ok(*old(cursor)),
    ensures
        ts_cursor_nodes(*final(cursor)) == ts_cursor_nodes(*old(cursor)),
        res == (ts_cursor_path(*old(cursor)).len() > 0),
        res ==> ts_cursor_path(*final(cursor)) == ts_cursor_path(*old(cursor)).drop_last(),
        !res ==> ts_cursor_path(*final(cursor)) == ts_cursor_path(*old(cursor)),
        cursor_ok(*final(cursor)),
{
    cursor.goto_parent()
}

/// The identifier of the cursor's node (`Node::id`). It is an address, so nothing is claimed
/// of it.
#[verifier::external_body]
fn node_id(cursor: &tree_sitter::TreeCursor<'_>) -> usize {
    cursor.node().id()
}

/// The kind of the cursor's node (`Node::kind`).
#[verifier::external_body]
fn node_kind(cursor: &tree_sitter::TreeCursor<'_>) -> (res: &'static str)
    requires
        cursor_ok(*cursor),
    ensures
        res@ == cursor_node(*cursor).kind,
{
    cursor.node().kind()
}

/// Whether the cursor's node is an error (`Node::is_error`).
#[verifier::external_body]
fn node_is_error(cursor: &tree_sitter::TreeCursor<'_>) -> (res: bool)
    requires
        cursor_ok(*cursor),
    ensures
        res == cursor_node(*cursor).is_error,
{
    cursor.node().is_error()
}

/// Whether the cursor's node is missing (`Node::is_missing`).
#[verifier::external_body]
fn node_is_missing(cursor: &tree_sitter::TreeCursor<'_>) -> (res: bool)
    requires
        cursor_ok(*cursor),
    ensures
        res == cursor_node(*cursor).is_missing,
{
    cursor.node().is_missing()
}

/// Whether the cursor's node is an extra (`Node::is_extra`).
#[verifier::external_body]
fn node_is_extra(cursor: &tree_sitter::TreeCursor<'_>) -> (res: bool)
    requires
        cursor_ok(*cursor),
    ensures
        res == cursor_node(*cursor).is_extra,
{
    cursor.node().is_extra()
}

/// The row and column where the cursor's node starts (`Node::start_position`).
#[verifier::external_body]
fn node_start(cursor: &tree_sitter::TreeCursor<'_>) -> (res: (usize, usize))
    requires
        cursor_ok(*cursor),
    ensures
        res == (cursor_node(*cursor).start_row, cursor_node(*cursor).start_column),
{
    let p = cursor.node().start_position();
    (p.row, p.column)
}

/// The row and column where the cursor's node ends (`Node::end_position`).
#[verifier::external_body]
fn node_end(cursor: &tree_sitter::TreeCursor<'_>) -> (res: (usize, usize))
    requires
        cursor_ok(*cursor),
    ensures
        res == (cursor_node(*cursor).end_row, cursor_node(*cursor).end_column),
{
    let p = cursor.node().end_position();
    (p.row, p.column)
}

/// The byte offsets where the cursor's node starts and ends (`Node::byte_range`).
#[verifier::external_body]
fn node_byte_range(cursor: &tree_sitter::TreeCursor<'_>) -> (res: (usize, usize))
    requires
        cursor_ok(*cursor),
    ensures
        res == (cursor_node(*cursor).start_byte, cursor_node(*cursor).end_byte),
{
    let r = cursor.node().byte_range();
    (r.start, r.end)
}

/// The string that `bytes` encode (`std::str::from_utf8`), or `None` when they are not valid
/// UTF-8.
#[verifier::external_body]
fn utf8_str(bytes: &[u8]) -> (res: Option<&str>)
    ensures
        res is Some <==> valid_utf8(bytes@),
        res matches Some(s) ==> s.spec_bytes() == bytes@,
{
    std::str::from_utf8(bytes).ok()
}

/// The text of `text` between the byte offsets `start` and `end`, or `None` when they do not
/// delimit a piece of `text` or its bytes there are not valid UTF-8.
fn text_between(text: &str, start: usize, end: usize) -> (res: Option<String>)
    ensures
        res matches Some(t) ==> start <= end <= text.spec_bytes().len() && encode_utf8(t@)
            == text.spec_bytes().subrange(start as int, end as int),
        res is None ==> !(start <= end <= text.spec_bytes().len()) || !valid_utf8(
            text.spec_bytes().subrange(start as int, end as int),
        ),
{
    let bytes = text.as_bytes();
    if start <= end && end <= bytes.len() {
        let part = vstd::slice::slice_subrange(bytes, start, end);
        match utf8_str(part) {
            Some(s) => Some(s.to_owned()),
            None => None,
        }
    } else {
        None
    }
}

/// The text of every node within `n` that has one is the text of `doc` between its byte
/// offsets; a node has none exactly when those offsets do not delimit a piece of `doc` or its
/// bytes there are not valid UTF-8.
pub open spec fn texts_agree(n: TsSyntaxNode, doc: Seq<u8>) -> bool
    decreases n,
{
    &&& n.text matches Some(t) ==> n.span.start.offset <= n.span.end.offset <= doc.len()
        && encode_utf8(t@) == doc.subrange(n.span.start.offset as int, n.span.end.offset as int)
    &&& n.text is None ==> !(n.span.start.offset <= n.span.end.offset <= doc.len()) || !valid_utf8(
        doc.subrange(n.span.start.offset as int, n.span.end.offset as int),
    )
    &&& forall|i: int| 0 <= i < n.children@.len() ==> texts_agree(#[trigger] n.children@[i], doc)
}

/// The plain values of the snapshot node `n` agree with the node view `v`.
pub open spec fn agrees_with(n: TsSyntaxNode, v: TsNodeView) -> bool {
    &&& n.kind@ == v.kind
    &&& (match n.field {
        Some(f) => v.field == Some(f@),
        None => v.field is None,
    })
    &&& n.is_error == v.is_error && n.is_missing == v.is_missing && n.is_extra == v.is_extra
    &&& n.span.start == (Position { line: v.start_row, column: v.start_column, offset: v.start_byte })
    &&& n.span.end == (Position { line: v.end_row, column: v.end_column, offset: v.end_byte })
}

/// The snapshot `n` is the subtree of the tree `m` at the path `p`: its node agrees with the
/// node at `p`, and its children, in order, are the subtrees at the paths of the children of
/// `p`, `p` followed by 0, 1, and so on up to the first that is not in `m`.
pub open spec fn snapshot_of(n: TsSyntaxNode, m: Map<Seq<int>, TsNodeView>, p: Seq<int>) -> bool
    decreases n,
{
    &&& m.dom().contains(p)
    &&& agrees_with(n, m[p])
    &&& !m.dom().contains(p.push(n.children@.len() as int))
    &&& forall|k: int|
        0 <= k < n.children@.len() ==> snapshot_of(#[trigger] n.children@[k], m, p.push(k))
}

/// The paths in `m` below the path `p`.
pub open spec fn descendants(m: Map<Seq<int>, TsNodeView>, p: Seq<int>) -> Set<Seq<int>> {
    m.dom().filter(|q: Seq<int>| q.len() > p.len() && q.subrange(0, p.len() as int) == p)
}

/// The paths of the first `j` children of the path `p`.
pub open spec fn first_children(p: Seq<int>, j: nat) -> Set<Seq<int>>
    decreases j,
{
    if j == 0 {
        Set::empty()
    } else {
        first_children(p, (j - 1) as nat).insert(p.push(j - 1))
    }
}

proof fn lemma_first_children(p: Seq<int>, j: nat)
    ensures
        first_children(p, j).finite(),
        first_children(p, j).len() == j,
        forall|q: Seq<int>|
            #[trigger] first_children(p, j).contains(q) ==> q.len() == p.len() + 1 && q.drop_last()
                == p && 0 <= q.last() < j,
    decreases j,
{
    if j > 0 {
        lemma_first_children(p, (j - 1) as nat);
        let q = p.push(j - 1);
        assert(q.drop_last() =~= p);
        assert(!first_children(p, (j - 1) as nat).contains(q));
        assert forall|r: Seq<int>| #[trigger] first_children(p, j).contains(r) implies r.len() == p.len()
            + 1 && r.drop_last() == p && 0 <= r.last() < j by {
            if r != q {
                assert(first_children(p, (j - 1) as nat).contains(r));
            }
        }
    }
}

/// Each of the first `j` children of `p` being in the finite tree `m`, there are more than `j`
/// paths below `p`... at least `j` of them.
proof fn lemma_children_count(m: Map<Seq<int>, TsNodeView>, p: Seq<int>, j: nat)
    requires
        m.dom().finite(),
        forall|k: int| 0 <= k < j ==> m.dom().contains(#[trigger] p.push(k)),
    ensures
        j <= descendants(m, p).len(),
        descendants(m, p).finite(),
{
    lemma_first_children(p, j);
    m.dom().lemma_len_filter(|q: Seq<int>| q.len() > p.len() && q.subrange(0, p.len() as int) == p);
    assert forall|q: Seq<int>| #[trigger] first_children(p, j).contains(q) implies descendants(m, p).contains(q) by {
        let k = q.last();
        assert(q =~= p.push(k));
        assert(q.subrange(0, p.len() as int) =~= p);
    }
    vstd::set_lib::lemma_len_subset(first_children(p, j), descendants(m, p));
}

/// A child of `p` has fewer paths below it than `p`.
proof fn lemma_child_smaller(m: Map<Seq<int>, TsNodeView>, p: Seq<int>, k: int)
    requires
        m.dom().finite(),
        m.dom().contains(p.push(k)),
    ensures
        descendants(m, p.push(k)).len() < descendants(m, p).len(),
        descendants(m, p).finite(),
{
    let c = p.push(k);
    m.dom().lemma_len_filter(|q: Seq<int>| q.len() > p.len() && q.subrange(0, p.len() as int) == p);
    m.dom().lemma_len_filter(|q: Seq<int>| q.len() > c.len() && q.subrange(0, c.len() as int) == c);
    assert(c.subrange(0, p.len() as int) =~= p);
    assert forall|q: Seq<int>| #[trigger] descendants(m, c).insert(c).contains(q) implies descendants(m, p).contains(q) by {
        if q != c {
            assert(q.subrange(0, c.len() as int) == c);
            assert(q.subrange(0, p.len() as int) =~= q.subrange(0, c.len() as int).subrange(0, p.len() as int));
        }
    }
    assert(!descendants(m, c).contains(c));
    vstd::set_lib::lemma_len_subset(descendants(m, c).insert(c), descendants(m, p));
}

/// Reads the node at the cursor and, recursively, its children. The cursor ends where it
/// started.
fn read_node(cursor: &mut tree_sitter::TreeCursor<'_>, text: &str) -> (res: TsSyntaxNode)
    requires
        cursor_ok(*old(cursor)),
        ts_cursor_nodes(*old(cursor)).dom().finite(),
    ensures
        ts_cursor_nodes(*final(cursor)) == ts_cursor_nodes(*old(cursor)),
        ts_cursor_path(*final(cursor)) == ts_cursor_path(*old(cursor)),
        cursor_ok(*final(cursor)),
        texts_agree(res, text.spec_bytes()),
        snapshot_of(res, ts_cursor_nodes(*old(cursor)), ts_cursor_path(*old(cursor))),
    decreases descendants(ts_cursor_nodes(*old(cursor)), ts_cursor_path(*old(cursor))).len(),
{
    let ghost m = ts_cursor_nodes(*cursor);
    let ghost p = ts_cursor_path(*cursor);
    let id = node_id(cursor);
    let kind = owned(node_kind(cursor));
    let is_error = node_is_error(cursor);
    let is_missing = node_is_missing(cursor);
    let is_extra = node_is_extra(cursor);
    let (start_offset, end_offset) = node_byte_range(cursor);
    let node_text = text_between(text, start_offset, end_offset);
    let field = match cursor_field_name(cursor) {
        Some(f) => Some(owned(f)),
        None => None,
    };
    let (start_row, start_column) = node_start(cursor);
    let (end_row, end_column) = node_end(cursor);
    let span = Span {
        start: Position { line: start_row, column: start_column, offset: start_offset },
        end: Position { line: end_row, column: end_column, offset: end_offset },
    };
    let mut children: Vec<TsSyntaxNode> = Vec::new();
    if goto_first_child(cursor) {
        let mut more = true;
        while more
            invariant
                ts_cursor_nodes(*cursor) == m,
                m == ts_cursor_nodes(*old(cursor)),
                p == ts_cursor_path(*old(cursor)),
                m.dom().finite(),
                cursor_ok(*cursor),
                m.dom().contains(p),
                more ==> ts_cursor_path(*cursor) == p.push(children@.len() as int),
                !more ==> children@.len() > 0 && ts_cursor_path(*cursor) == p.push(
                    children@.len() - 1,
                ) && !m.dom().contains(p.push(children@.len() as int)),
                forall|k: int| 0 <= k < children@.len() ==> texts_agree(#[trigger] children@[k], text.spec_bytes()),
                forall|k: int| 0 <= k < children@.len() ==> snapshot_of(#[trigger] children@[k], m, p.push(k)),
            decreases descendants(m, p).len() - children@.len(),
        {
            let ghost j = children@.len() as int;
            proof {
                assert forall|k: int| 0 <= k < j + 1 implies m.dom().contains(#[trigger] p.push(k)) by {
                    if k < j {
                        assert(snapshot_of(children@[k], m, p.push(k)));
                    }
                }
                lemma_children_count(m, p, (j + 1) as nat);
                lemma_child_smaller(m, p, j);
            }
            let child = read_node(cursor, text);
            children.push(child);
            proof {
                assert(p.push(j).drop_last() =~= p);
                assert(next_sibling_path(p.push(j)) =~= p.push(j + 1));
            }
            more = goto_next_sibling(cursor);
        }
        proof {
            assert(p.push(children@.len() - 1).drop_last() =~= p);
        }
        let back = goto_parent(cursor);
        assert(back);
    }
    let node = TsSyntaxNode {
        id,
        kind,
        field,
        is_error,
        is_missing,
        is_extra,
        span,
        text: node_text,
        children,
    };
    proof {
        assert(agrees_with(node, m[p]));
    }
    node
}

/// Reads the whole of `tree`, a tree that `text` was parsed into: each node as plain values,
/// the text of each node being the text between its offsets (none where they do not delimit
/// valid UTF-8).
pub fn read_tree(tree: &tree_sitter::Tree, text: &str) -> (res: TsSyntaxNode)
    ensures
        snapshot_of(res, ts_tree_nodes(*tree), Seq::<int>::empty()),
        texts_agree(res, text.spec_bytes()),
{
    let mut cursor = walk(tree);
    read_node(&mut cursor, text)
}

/// A new parser for WDL 1.x; the grammar always loads (see `wdl_parser`).
pub fn new_parser() -> (res: Result<tree_sitter::Parser, WdlParserError>)
    ensures
        res is Ok,
{
    match wdl_parser() {
        Some(p) => Ok(p),
        None => Err(WdlParserError::Internal),
    }
}

} // verus!
