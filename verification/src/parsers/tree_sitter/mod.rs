//! Reading WDL documents with the `tree-sitter-wdl-1` grammar: the syntax tree, and the nodes
//! and node iterators that walk it.
pub mod declarations;
pub mod document;
pub mod expressions;
pub mod meta;
pub mod node;
pub mod primitives;
pub mod syntax;
pub mod task;
pub mod tree;
pub mod workflow;

use crate::model::{Document, DocumentSource};
use crate::parsers::tree_sitter::document::{try_into_document, ts_document_of};
use crate::parsers::tree_sitter::node::TSNode;
use crate::parsers::tree_sitter::tree::{
    new_parser, read_tree, snapshot_of, texts_agree, ts_tree_nodes, ts_wdl_tree, TsSyntaxNode,
};
use crate::parsers::WdlParserError;
use vstd::prelude::*;
use vstd::string::*;

verus! {

/// `root` is the syntax tree that `tree-sitter-wdl-1` gives `text`, read as plain values, the
/// text of each node being the text between its offsets.
pub open spec fn ts_tree_of(text: &str, root: TsSyntaxNode) -> bool {
    &&& snapshot_of(root, ts_wdl_tree(text@), Seq::<int>::empty())
    &&& texts_agree(root, text.spec_bytes())
}

/// The document built from the syntax tree `root` and read from `source`: a `Model` error when
/// none can be built or the one built is not valid.
pub fn document_from_tree(root: &TsSyntaxNode, source: DocumentSource) -> (res: Result<
    Document,
    WdlParserError,
>)
    ensures
        res matches Err(e) ==> e == WdlParserError::Model(source),
        res matches Ok(d) ==> d.source == source && d.is_valid() && ts_document_of(*root, d),
        res is Err ==> (forall|d: Document| !ts_document_of(*root, d)) || (exists|d: Document|
            ts_document_of(*root, d) && !d.is_valid()),
{
    let mut doc = match try_into_document(TSNode::from_cursor(root)) {
        Ok(d) => d,
        Err(_) => {
            return Err(WdlParserError::Model(source));
        },
    };
    match doc.validate() {
        Ok(()) => {
            doc.source = source;
            Ok(doc)
        },
        Err(_) => {
            assert(ts_document_of(*root, doc) && !doc.is_valid());
            Err(WdlParserError::Model(source))
        },
    }
}

/// A parser of WDL documents built on the `tree-sitter-wdl-1` grammar. The parser it holds is
/// the one `new` made, with the WDL grammar set and neither time-out nor cancellation.
pub struct TreeSitterParser(tree_sitter::Parser);

/// Parses `text` from scratch with the parser that `parser` holds (`Parser::parse`, with no old
/// tree). The contract claims that there is a tree, the one named `ts_wdl_tree`: `Parser::parse`
/// gives none only without a grammar, after a time-out or on cancellation, and the parser is
/// the one `TreeSitterParser::new` made (its field is private to this module), with the grammar
/// set and neither of the others; a parse that completes leaves it ready for the next.
#[verifier::external_body]
fn parse_with(parser: &mut TreeSitterParser, text: &str) -> (res: Option<tree_sitter::Tree>)
    ensures
        res is Some,
        res matches Some(t) ==> ts_tree_nodes(t) == ts_wdl_tree(text@),
{
    parser.0.parse(text, None)
}

impl TreeSitterParser {
    /// A new parser, with the WDL grammar loaded; loading it cannot fail.
    pub fn new() -> (res: Result<Self, WdlParserError>)
        ensures
            res is Ok,
    {
        Ok(TreeSitterParser(new_parser()?))
    }

    /// Parses `text` from `source` into its syntax tree, with the parser it holds: the tree that
    /// `tree-sitter-wdl-1` gives the text, read as plain values, the text of each node being the
    /// text between its offsets. Tree-sitter gives a tree for every text; where it gave none,
    /// the error would be `Syntax`.
    pub fn parse_tree(&mut self, text: &str, source: DocumentSource) -> (res: Result<
        TsSyntaxNode,
        WdlParserError,
    >)
        ensures
            res matches Ok(root) && ts_tree_of(text, root),
    {
        match parse_with(self, text) {
            Some(tree) => Ok(read_tree(&tree, text)),
            None => Err(WdlParserError::Syntax(source)),
        }
    }

    /// Parses `text` from `source` into a document: the document built from the tree that
    /// tree-sitter gives the text, or a `Model` error when none can be built or the one built is
    /// not valid.
    pub fn parse_text(&mut self, text: &str, source: DocumentSource) -> (res: Result<
        Document,
        WdlParserError,
    >)
        ensures
            res matches Err(e) ==> e == WdlParserError::Model(source),
            res matches Ok(d) ==> {
                &&& d.source == source
                &&& d.is_valid()
                &&& exists|root: TsSyntaxNode|
                    #![trigger ts_tree_of(text, root)]
                    ts_tree_of(text, root) && ts_document_of(root, d)
            },
            res is Err ==> exists|root: TsSyntaxNode|
                #![trigger ts_tree_of(text, root)]
                ts_tree_of(text, root) && ((forall|d: Document| !ts_document_of(root, d)) || (exists|
                    d: Document,
                | ts_document_of(root, d) && !d.is_valid())),
    {
        let root = match self.parse_tree(text, DocumentSource::Unknown) {
            Ok(root) => root,
            Err(_) => {
                return Err(WdlParserError::Syntax(source));
            },
        };
        proof {
            assert(ts_tree_of(text, root));
        }
        document_from_tree(&root, source)
    }
}

} // verus!
