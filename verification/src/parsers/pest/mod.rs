//! Building the document model from the parse trees of the `pest-wdl-1` grammar.
pub mod declarations;
pub mod document;
pub mod expression_specs;
pub mod expressions;
pub mod grammar;
pub mod meta;
pub mod node;
pub mod primitives;
pub mod rules;
pub mod task;
pub mod tree;
pub mod workflow;

use crate::model::{Document, DocumentSource};
use crate::parsers::pest::document::{document_of, document_ok, try_into_document};
use crate::parsers::pest::grammar::{document_tokens, token_queue, wdl_parse_tokens, TokenView};
use crate::parsers::pest::node::PestNode;
use crate::parsers::pest::tree::{build_tree, describes_tree, node_tokens, texts_match, SyntaxNode};
use crate::parsers::WdlParserError;
use vstd::prelude::*;
use vstd::string::*;

verus! {

/// `root` is the parse tree of `text` as a WDL document: the tree whose tokens the grammar
/// produces for `text`, each match holding its piece of `text`.
pub open spec fn parse_tree_of(text: &str, root: SyntaxNode) -> bool {
    &&& wdl_parse_tokens(text@) == Some(node_tokens(root))
    &&& texts_match(root, text.spec_bytes())
}

/// `root` is the tree of matches that the tokens `q` describe, each match holding its piece of
/// the text whose bytes are `doc`.
pub open spec fn tree_of_tokens(q: Seq<TokenView>, doc: Seq<u8>, root: SyntaxNode) -> bool {
    node_tokens(root) == q && texts_match(root, doc)
}

/// Builds the document that the grammar's tokens of `text` describe, from `source`, and
/// validates it. An `Internal` error exactly when the tokens describe no tree of matches that
/// agrees with the text; otherwise a `Model` error when the document cannot be built from the
/// tree or is not valid, and the document, with its source, when it is.
pub fn document_from_tokens(
    tokens: &mut pest::iterators::Tokens<'_, pest_wdl_1::Rule>,
    text: &str,
    source: DocumentSource,
) -> (res: Result<Document, WdlParserError>)
    ensures
        res matches Err(e) ==> e == WdlParserError::Internal || e == WdlParserError::Model(source),
        (res == Err::<Document, WdlParserError>(WdlParserError::Internal)) <==> !describes_tree(
            token_queue(*old(tokens)),
            text.spec_bytes(),
        ),
        res matches Ok(d) ==> {
            &&& d.source == source
            &&& d.is_valid()
            &&& exists|root: SyntaxNode|
                #![trigger tree_of_tokens(token_queue(*old(tokens)), text.spec_bytes(), root)]
                tree_of_tokens(token_queue(*old(tokens)), text.spec_bytes(), root) && document_ok(root)
                    && document_of(root, d)
        },
        res matches Err(WdlParserError::Model(_)) ==> exists|root: SyntaxNode|
            #![trigger tree_of_tokens(token_queue(*old(tokens)), text.spec_bytes(), root)]
            tree_of_tokens(token_queue(*old(tokens)), text.spec_bytes(), root) && (document_ok(root)
                ==> exists|d: Document|
                #![trigger document_of(root, d)]
                document_of(root, d) && !d.is_valid()),
{
    let ghost q = token_queue(*tokens);
    let root = match build_tree(tokens, text) {
        Ok(n) => n,
        Err(_) => {
            return Err(WdlParserError::Internal);
        },
    };
    assert(tree_of_tokens(q, text.spec_bytes(), root));
    let mut doc = match try_into_document(PestNode::new(&root)) {
        Ok(d) => d,
        Err(_) => {
            return Err(WdlParserError::Model(source));
        },
    };
    match doc.validate() {
        Ok(()) => {
            doc.source = source;
            assert(document_of(root, doc));
            Ok(doc)
        },
        Err(_) => {
            assert(document_of(root, doc) && !doc.is_valid());
            Err(WdlParserError::Model(source))
        },
    }
}

/// A parser of WDL documents built on the `pest-wdl-1` grammar.
pub struct PestParser;

impl PestParser {
    pub fn new() -> (res: Self) {
        PestParser
    }

    /// Parses `text` as a WDL document from `source`: the grammar parses the text, the model
    /// is built from the parse tree, and the model is validated. A text the grammar rejects is
    /// a `Syntax` error, as is a parse that pest gives up for want of resources (stack or call
    /// limit); a model that cannot be built or is not valid, a `Model` error. The grammar's
    /// tokens always describe a tree of matches, so there is no `Internal` error.
    pub fn parse_text(&mut self, text: &str, source: DocumentSource) -> (res: Result<
        Document,
        WdlParserError,
    >)
        ensures
            wdl_parse_tokens(text@) is None ==> res == Err::<Document, WdlParserError>(
                WdlParserError::Syntax(source),
            ),
            res matches Err(WdlParserError::Syntax(s)) ==> s == source,
            res matches Ok(d) ==> {
                &&& d.source == source
                &&& d.is_valid()
                &&& exists|root: SyntaxNode|
                    #![trigger parse_tree_of(text, root)]
                    parse_tree_of(text, root) && document_ok(root) && document_of(root, d)
            },
            res matches Err(WdlParserError::Model(s)) ==> {
                &&& s == source
                &&& exists|root: SyntaxNode|
                    #![trigger parse_tree_of(text, root)]
                    parse_tree_of(text, root) && (document_ok(root) ==> exists|d: Document|
                        #![trigger document_of(root, d)]
                        document_of(root, d) && !d.is_valid())
            },
            !(res matches Err(WdlParserError::Internal)),
            !(res matches Err(WdlParserError::IO(_))),
    {
        let mut tokens = match document_tokens(text) {
            Ok(t) => t,
            Err(_) => {
                return Err(WdlParserError::Syntax(source));
            },
        };
        let ghost q = token_queue(tokens);
        let res = document_from_tokens(&mut tokens, text, source);
        proof {
            if let Ok(ref d) = res {
                let root = choose|root: SyntaxNode| #![trigger tree_of_tokens(q, text.spec_bytes(), root)]
                    tree_of_tokens(q, text.spec_bytes(), root) && document_ok(root) && document_of(root, *d);
                assert(parse_tree_of(text, root));
            }
            if let Err(WdlParserError::Model(_)) = res {
                let root = choose|root: SyntaxNode| #![trigger tree_of_tokens(q, text.spec_bytes(), root)]
                    tree_of_tokens(q, text.spec_bytes(), root) && (document_ok(root) ==> exists|d: Document|
                    #![trigger document_of(root, d)] document_of(root, d) && !d.is_valid());
                assert(parse_tree_of(text, root));
            }
        }
        res
    }
}

} // verus!
