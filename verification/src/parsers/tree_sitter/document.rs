//! Building the parts of a document that stand on their own (its version, imports and structs)
//! from the nodes of the tree-sitter syntax tree.
use crate::model::{
    implicit_namespace, lines_increasing, Alias, Anchor, Document, DocumentElement, DocumentSource,
    Import, ModelError, Namespace, Struct, Version, VersionIdentifier,
};
use crate::parsers::pest::node::lines_free;
use crate::parsers::tree_sitter::node::{
    parser_error,comments_readable, ts_tree_comments};
use crate::parsers::tree_sitter::syntax::{fields, rules};
use crate::parsers::tree_sitter::task::{try_into_task, ts_task_of};
use crate::parsers::tree_sitter::workflow::{try_into_workflow, ts_workflow_of};
use crate::text::owned;
use crate::parsers::pest::document::version_identifier_of;
use crate::parsers::tree_sitter::declarations::{
    collect_unbound_declarations, unbound_declarations_of, unbound_declarations_ok,
};
use crate::parsers::tree_sitter::node::{
    block_items, is_field, is_terminal, item, items, lemma_rem_block_range, rem_block, BlockDelim,
    BlockEnds, TSNode, TSNodeIterator,
};
use crate::parsers::tree_sitter::syntax::fields::{
    ALIASES, FIELDS, FROM, IDENTIFIER, NAME, NAMESPACE, TO, URI,
};
use crate::parsers::tree_sitter::syntax::keywords::{ALIAS, AS, IMPORT, STRUCT, VERSION};
use crate::parsers::tree_sitter::tree::TsSyntaxNode;
use crate::text::{concat, str_eq};
use vstd::prelude::*;

verus! {

/// The text of `n`, anchored to its span; the text must be there.
pub open spec fn text_anchor(n: TsSyntaxNode) -> Anchor<String> {
    Anchor { element: n.text->0, span: n.span }
}

/// The version built from `n`, if one can be: `version`, then its identifier, anchored to the
/// identifier's span.
pub open spec fn ts_version(n: TsSyntaxNode) -> Option<Version> {
    let r = items(n);
    if r.0.len() >= 2 && r.1 && is_terminal(item(n, 0), VERSION@) && is_field(
        item(n, 1),
        IDENTIFIER@,
    ) && item(n, 1).text is Some && version_identifier_of(item(n, 1).text->0@) is Some {
        Some(
            Version {
                identifier: Anchor {
                    element: version_identifier_of(item(n, 1).text->0@)->0,
                    span: item(n, 1).span,
                },
            },
        )
    } else {
        None
    }
}

/// A version: `version`, then its identifier.
pub fn try_into_version(node: TSNode) -> (res: Result<Version, ModelError>)
    ensures
        match ts_version(*node.node) {
            Some(v) => res == Ok::<Version, ModelError>(v),
            None => res is Err,
        },
{
    proof {
        reveal_strlit("1.0");
        reveal_strlit("1.1");
    }
    let mut children = node.into_children();
    children.skip_terminal(VERSION)?;
    let identifier_node = children.next_field(IDENTIFIER)?;
    let span = identifier_node.as_span();
    let identifier = VersionIdentifier::from_str(identifier_node.try_as_str()?)?;
    children.drain(false)?;
    Ok(Version { identifier: Anchor::new(identifier, span) })
}

/// A namespace named in an import: the text of its node.
pub fn try_into_namespace(node: TSNode) -> (res: Result<Namespace, ModelError>)
    ensures
        node.node.text is Some ==> res == Ok::<Namespace, ModelError>(
            Namespace::Explicit(text_anchor(*node.node)),
        ),
        node.node.text is None ==> res is Err,
{
    Ok(Namespace::Explicit(node.try_into_text_anchor()?))
}

/// The alias built from `n`, if one can be: `alias`, the name it renames, `as`, the new name.
pub open spec fn ts_alias(n: TsSyntaxNode) -> Option<Alias> {
    let r = items(n);
    if r.0.len() >= 4 && r.1 && is_terminal(item(n, 0), ALIAS@) && is_field(item(n, 1), FROM@)
        && item(n, 1).text is Some && is_terminal(item(n, 2), AS@) && is_field(item(n, 3), TO@)
        && item(n, 3).text is Some {
        Some(Alias { from: text_anchor(item(n, 1)), to: text_anchor(item(n, 3)) })
    } else {
        None
    }
}

/// An alias: `alias`, the name it renames, `as`, the new name.
pub fn try_into_alias(node: TSNode) -> (res: Result<Alias, ModelError>)
    ensures
        match ts_alias(*node.node) {
            Some(x) => res == Ok::<Alias, ModelError>(x),
            None => res is Err,
        },
{
    let mut children = node.into_children();
    children.skip_terminal(ALIAS)?;
    let from = children.next_field(FROM)?.try_into_text_anchor()?;
    children.skip_terminal(AS)?;
    let to = children.next_field(TO)?.try_into_text_anchor()?;
    children.drain(false)?;
    Ok(Alias { from, to })
}

/// Each of the nodes `ns` builds an alias.
pub open spec fn aliases_ok(ns: Seq<TsSyntaxNode>) -> bool {
    forall|k: int| 0 <= k < ns.len() ==> (#[trigger] ts_alias(ns[k])) is Some
}

/// The aliases built from the nodes `ns`, each anchored to its node's span.
pub open spec fn aliases_of(ns: Seq<TsSyntaxNode>) -> Seq<Anchor<Alias>> {
    ns.map_values(|c: TsSyntaxNode| Anchor { element: ts_alias(c)->0, span: c.span })
}

/// The aliases built from the items left in `nodes`, each anchored to its span; an error when
/// the block is malformed or an item builds none.
pub fn collect_aliases(nodes: TSNodeIterator) -> (res: Result<Vec<Anchor<Alias>>, ModelError>)
    requires
        nodes.wf(),
    ensures
        res is Ok <==> nodes.remaining().1 && aliases_ok(nodes.pending()),
        res matches Ok(v) ==> v@ == aliases_of(nodes.pending()),
{
    let ghost r = nodes.remaining();
    let ghost ns = nodes.pending();
    let ghost cs = nodes.children@;
    let mut it = nodes;
    let mut v: Vec<Anchor<Alias>> = Vec::new();
    loop
        invariant
            it.wf(),
            it.children@ == cs,
            r == nodes.remaining(),
            ns == nodes.pending(),
            cs == nodes.children@,
            v@.len() <= r.0.len(),
            it.remaining() == (r.0.skip(v@.len() as int), r.1),
            forall|k: int| 0 <= k < v@.len() ==> (#[trigger] ts_alias(ns[k])) is Some,
            forall|k: int|
                0 <= k < v@.len() ==> #[trigger] v@[k] == (Anchor {
                    element: ts_alias(ns[k])->0,
                    span: ns[k].span,
                }),
        ensures
            r.1,
            v@.len() == r.0.len(),
            forall|k: int| 0 <= k < v@.len() ==> (#[trigger] ts_alias(ns[k])) is Some,
            forall|k: int|
                0 <= k < v@.len() ==> #[trigger] v@[k] == (Anchor {
                    element: ts_alias(ns[k])->0,
                    span: ns[k].span,
                }),
        decreases r.0.len() - v@.len(),
    {
        let ghost len = v@.len() as int;
        proof {
            if len < r.0.len() {
                assert(it.peek() == Some(ns[len]));
                assert(r.0.skip(len).drop_first() =~= r.0.skip(len + 1));
            } else {
                assert(it.remaining().0.len() == 0);
            }
        }
        match it.next() {
            Some(Ok(t)) => {
                let span = t.as_span();
                match try_into_alias(t) {
                    Ok(x) => v.push(Anchor::new(x, span)),
                    Err(e) => {
                        assert(!aliases_ok(ns)) by {
                            assert(ts_alias(ns[len]) is None);
                        }
                        return Err(e);
                    },
                }
            },
            Some(Err(e)) => {
                return Err(e);
            },
            None => {
                break ;
            },
        }
    }
    proof {
        assert(v@ =~= aliases_of(ns));
    }
    Ok(v)
}

/// The texts of the nodes `ns`, one after another; each text must be there.
pub open spec fn joined_texts(ns: Seq<TsSyntaxNode>) -> Seq<char>
    decreases ns.len(),
{
    if ns.len() == 0 {
        Seq::empty()
    } else {
        joined_texts(ns.drop_last()) + ns.last().text->0@
    }
}

/// The parts of the quoted string `n` are read, and each has its text.
pub open spec fn uri_ok(n: TsSyntaxNode) -> bool {
    &&& rem_block(n.children@, BlockEnds::Quotes, BlockDelim::NoDelim).1
    &&& forall|k: int|
        0 <= k < block_items(n, BlockEnds::Quotes, BlockDelim::NoDelim).len() ==> (#[trigger] block_items(
            n,
            BlockEnds::Quotes,
            BlockDelim::NoDelim,
        )[k]).text is Some
}

/// The text of the quoted string `n`: the texts of its parts between the quotes, joined,
/// anchored to the span of `n`.
pub fn uri_string(node: TSNode) -> (res: Result<Anchor<String>, ModelError>)
    ensures
        res is Ok <==> uri_ok(*node.node),
        res matches Ok(a) ==> a.span == node.node.span && a.element@ == joined_texts(
            block_items(*node.node, BlockEnds::Quotes, BlockDelim::NoDelim),
        ),
{
    let span = node.as_span();
    let ghost n = *node.node;
    let ghost ns = block_items(n, BlockEnds::Quotes, BlockDelim::NoDelim);
    let ghost r = rem_block(n.children@, BlockEnds::Quotes, BlockDelim::NoDelim);
    let mut it = node.into_block(BlockEnds::Quotes, BlockDelim::NoDelim);
    let mut parts: Vec<TSNode> = Vec::new();
    loop
        invariant
            it.wf(),
            it.children@ == n.children@,
            n == *node.node,
            ns == block_items(n, BlockEnds::Quotes, BlockDelim::NoDelim),
            r == rem_block(n.children@, BlockEnds::Quotes, BlockDelim::NoDelim),
            ns == r.0.map_values(|k: int| n.children@[k]),
            parts@.len() <= r.0.len(),
            it.remaining() == (r.0.skip(parts@.len() as int), r.1),
            forall|k: int| 0 <= k < parts@.len() ==> *(#[trigger] parts@[k]).node == ns[k],
        ensures
            r.1,
            parts@.len() == r.0.len(),
            parts@.len() == ns.len(),
            forall|k: int| 0 <= k < parts@.len() ==> *(#[trigger] parts@[k]).node == ns[k],
        decreases r.0.len() - parts@.len(),
    {
        let ghost len = parts@.len() as int;
        proof {
            if len < r.0.len() {
                assert(it.peek() == Some(ns[len]));
                assert(r.0.skip(len).drop_first() =~= r.0.skip(len + 1));
            } else {
                assert(it.remaining().0.len() == 0);
            }
        }
        match it.next() {
            Some(Ok(t)) => {
                parts.push(t);
            },
            Some(Err(e)) => {
                return Err(e);
            },
            None => {
                break ;
            },
        }
    }
    let mut text = String::new();
    let mut i: usize = 0;
    while i < parts.len()
        invariant
            i <= parts@.len(),
            parts@.len() == ns.len(),
            n == *node.node,
            r.1,
            r == rem_block(n.children@, BlockEnds::Quotes, BlockDelim::NoDelim),
            ns == block_items(n, BlockEnds::Quotes, BlockDelim::NoDelim),
            forall|k: int| 0 <= k < parts@.len() ==> *(#[trigger] parts@[k]).node == ns[k],
            forall|k: int| 0 <= k < i ==> (#[trigger] ns[k]).text is Some,
            text@ == joined_texts(ns.take(i as int)),
        decreases parts@.len() - i,
    {
        let part = match parts[i].try_as_str() {
            Ok(p) => p,
            Err(e) => {
                assert(!uri_ok(n)) by {
                    assert(block_items(n, BlockEnds::Quotes, BlockDelim::NoDelim)[i as int].text is None);
                }
                return Err(e);
            },
        };
        proof {
            assert(ns.take(i + 1).drop_last() =~= ns.take(i as int));
        }
        text = concat(text.as_str(), part);
        i = i + 1;
    }
    proof {
        assert(ns.take(ns.len() as int) =~= ns);
    }
    Ok(Anchor::new(text, span))
}

/// The import `n` names its namespace: its third item is `as`.
pub open spec fn names_namespace(n: TsSyntaxNode) -> bool {
    items(n).0.len() > 2 && item(n, 2).kind@ == AS@
}

/// The position among the items of the import `n` of its aliases, if it has them.
pub open spec fn aliases_index(n: TsSyntaxNode) -> int {
    if names_namespace(n) {
        4
    } else {
        2
    }
}

/// An import can be built from `n`: `import`, the URI, then `as` and the namespace, then the
/// aliases, the last two each if there.
pub open spec fn ts_import_ok(n: TsSyntaxNode) -> bool {
    let r = items(n);
    let a = aliases_index(n);
    &&& r.0.len() >= 2 && r.1
    &&& is_terminal(item(n, 0), IMPORT@)
    &&& is_field(item(n, 1), URI@) && uri_ok(item(n, 1))
    &&& names_namespace(n) ==> r.0.len() > 3 && is_field(item(n, 3), NAMESPACE@) && item(
        n,
        3,
    ).text is Some
    &&& r.0.len() > a ==> {
        let m = item(n, a);
        &&& is_field(m, ALIASES@)
        &&& items(m).1
        &&& aliases_ok(block_items(m, BlockEnds::NoEnds, BlockDelim::NoDelim))
    }
}

/// `x` is the import built from `n`: its URI, its namespace (the one named, else the one the URI
/// implies), then its aliases (none when there are none).
pub open spec fn ts_import_of(n: TsSyntaxNode, x: Import) -> bool {
    let a = aliases_index(n);
    &&& x.uri.span == item(n, 1).span
    &&& x.uri.element@ == joined_texts(block_items(item(n, 1), BlockEnds::Quotes, BlockDelim::NoDelim))
    &&& if names_namespace(n) {
        x.namespace == Namespace::Explicit(text_anchor(item(n, 3)))
    } else {
        x.namespace matches Namespace::Implicit(s) && s@ == implicit_namespace(x.uri.element@)
    }
    &&& if items(n).0.len() > a {
        x.aliases@ == aliases_of(block_items(item(n, a), BlockEnds::NoEnds, BlockDelim::NoDelim))
    } else {
        x.aliases@.len() == 0
    }
}

/// An import: `import`, the URI, then `as` and the namespace, then the aliases, the last two
/// each if there. Without a namespace, the import takes the one its URI implies.
pub fn try_into_import(node: TSNode) -> (res: Result<Import, ModelError>)
    ensures
        res is Ok <==> ts_import_ok(*node.node),
        res matches Ok(x) ==> ts_import_of(*node.node, x),
{
    let ghost n = *node.node;
    let ghost r = items(n);
    proof {
        lemma_rem_block_range(n.children@, BlockEnds::NoEnds, BlockDelim::NoDelim);
    }
    let mut children = node.into_children();
    children.skip_terminal(IMPORT)?;
    let uri = uri_string(children.next_field(URI)?)?;
    let next = match children.next() {
        Some(Ok(t)) => Some(t),
        Some(Err(e)) => {
            return Err(e);
        },
        None => None,
    };
    let has_namespace = match &next {
        Some(t) => str_eq(t.kind(), AS),
        None => false,
    };
    assert(has_namespace == names_namespace(n));
    let (namespace, next) = if has_namespace {
        let namespace = try_into_namespace(children.next_field(NAMESPACE)?)?;
        let next = match children.next() {
            Some(Ok(t)) => Some(t),
            Some(Err(e)) => {
                return Err(e);
            },
            None => None,
        };
        (namespace, next)
    } else {
        (Namespace::from_uri(uri.element.as_str()), next)
    };
    let aliases = match next {
        Some(t) => {
            t.ensure_field(ALIASES)?;
            collect_aliases(t.into_children())?
        },
        None => Vec::new(),
    };
    children.drain(false)?;
    Ok(Import { uri, namespace, aliases })
}

/// A struct can be built from `n`: `struct`, its name, then its fields in braces.
pub open spec fn ts_struct_ok(n: TsSyntaxNode) -> bool {
    let r = items(n);
    &&& r.0.len() >= 3 && r.1
    &&& is_terminal(item(n, 0), STRUCT@)
    &&& is_field(item(n, 1), NAME@) && item(n, 1).text is Some
    &&& is_field(item(n, 2), FIELDS@)
    &&& rem_block(item(n, 2).children@, BlockEnds::Braces, BlockDelim::NoDelim).1
    &&& unbound_declarations_ok(block_items(item(n, 2), BlockEnds::Braces, BlockDelim::NoDelim))
}

/// `x` is the struct built from `n`: its name, then its fields, each anchored to its span.
pub open spec fn ts_struct_of(n: TsSyntaxNode, x: Struct) -> bool {
    &&& x.name == text_anchor(item(n, 1))
    &&& x.fields@ == unbound_declarations_of(
        block_items(item(n, 2), BlockEnds::Braces, BlockDelim::NoDelim),
    )
}

/// A struct: `struct`, its name, then its fields in braces.
pub fn try_into_struct(node: TSNode) -> (res: Result<Struct, ModelError>)
    ensures
        res is Ok <==> ts_struct_ok(*node.node),
        res matches Ok(x) ==> ts_struct_of(*node.node, x),
{
    let mut children = node.into_children();
    children.skip_terminal(STRUCT)?;
    let name = children.next_field(NAME)?.try_into_text_anchor()?;
    let fields = collect_unbound_declarations(
        children.next_field(FIELDS)?.into_block(BlockEnds::Braces, BlockDelim::NoDelim),
    )?;
    children.drain(false)?;
    Ok(Struct { name, fields })
}

/// `e` is the element of a document built from the node `n`, by the kind of `n`.
pub open spec fn ts_document_element_of(n: TsSyntaxNode, e: DocumentElement) -> bool {
    let k = n.kind@;
    if k == rules::IMPORT@ {
        e matches DocumentElement::Import(x) && ts_import_ok(n) && ts_import_of(n, x)
    } else if k == rules::STRUCT@ {
        e matches DocumentElement::Struct(x) && ts_struct_ok(n) && ts_struct_of(n, x)
    } else if k == rules::TASK@ {
        e matches DocumentElement::Task(x) && ts_task_of(n, x)
    } else if k == rules::WORKFLOW@ {
        e matches DocumentElement::Workflow(x) && ts_workflow_of(n, x)
    } else {
        false
    }
}

/// The element of a document built from `n`, by its kind.
fn document_element_of_node(n: &TsSyntaxNode) -> (res: Result<DocumentElement, ModelError>)
    ensures
        res matches Ok(x) ==> ts_document_element_of(*n, x),
        res is Err ==> forall|x: DocumentElement| !ts_document_element_of(*n, x),
{
    let kind = n.kind.as_str();
    if str_eq(kind, rules::IMPORT) {
        Ok(DocumentElement::Import(try_into_import(TSNode::from_cursor(n))?))
    } else if str_eq(kind, rules::STRUCT) {
        Ok(DocumentElement::Struct(try_into_struct(TSNode::from_cursor(n))?))
    } else if str_eq(kind, rules::TASK) {
        match try_into_task(TSNode::from_cursor(n)) {
            Ok(x) => Ok(DocumentElement::Task(x)),
            Err(e) => {
                proof {
                    assert forall|y: DocumentElement| !ts_document_element_of(*n, y) by {
                        if let DocumentElement::Task(x) = y {
                            assert(!ts_task_of(*n, x));
                        }
                    }
                }
                Err(e)
            },
        }
    } else if str_eq(kind, rules::WORKFLOW) {
        match try_into_workflow(TSNode::from_cursor(n)) {
            Ok(x) => Ok(DocumentElement::Workflow(x)),
            Err(e) => {
                proof {
                    assert forall|y: DocumentElement| !ts_document_element_of(*n, y) by {
                        if let DocumentElement::Workflow(x) = y {
                            assert(!ts_workflow_of(*n, x));
                        }
                    }
                }
                Err(e)
            },
        }
    } else {
        Err(parser_error("Invalid document element ", kind, "", ""))
    }
}

/// `v` holds the elements of a document built from the children of `m` that are not
/// comments, each anchored to its node's span.
pub open spec fn ts_document_elements_of(m: TsSyntaxNode, v: Seq<Anchor<DocumentElement>>) -> bool
{
    let r = rem_block(m.children@, BlockEnds::NoEnds, BlockDelim::NoDelim);
    &&& r.1 && v.len() == r.0.len()
    &&& forall|k: int|
        0 <= k < r.0.len() ==> (#[trigger] v[k]).span == m.children@[r.0[k]].span
            && ts_document_element_of(m.children@[r.0[k]], v[k].element)
}

/// The elements of a document built from the children of `m`.
fn document_elements_of_node(m: &TsSyntaxNode) -> (res: Result<Vec<Anchor<DocumentElement>>, ModelError>)
    ensures
        res matches Ok(v) ==> ts_document_elements_of(*m, v@),
        res is Err ==> forall|v: Seq<Anchor<DocumentElement>>| !ts_document_elements_of(*m, v),
{
    proof {
        lemma_rem_block_range(m.children@, BlockEnds::NoEnds, BlockDelim::NoDelim);
    }
    let ghost cs = m.children@;
    let ghost r = rem_block(cs, BlockEnds::NoEnds, BlockDelim::NoDelim);
    let mut it = TSNode::from_cursor(m).into_block(BlockEnds::NoEnds, BlockDelim::NoDelim);
    let mut v: Vec<Anchor<DocumentElement>> = Vec::new();
    loop
        invariant
            it.wf(),
            it.children@ == cs,
            cs == m.children@,
            r == rem_block(cs, BlockEnds::NoEnds, BlockDelim::NoDelim),
            forall|k: int| 0 <= k < r.0.len() ==> 0 <= #[trigger] r.0[k] < cs.len(),
            v@.len() <= r.0.len(),
            it.remaining() == (r.0.skip(v@.len() as int), r.1),
            forall|k: int|
                0 <= k < v@.len() ==> (#[trigger] v@[k]).span == cs[r.0[k]].span && ts_document_element_of(
                    cs[r.0[k]],
                    v@[k].element,
                ),
        ensures
            r.1,
            v@.len() == r.0.len(),
            forall|k: int|
                0 <= k < v@.len() ==> (#[trigger] v@[k]).span == cs[r.0[k]].span && ts_document_element_of(
                    cs[r.0[k]],
                    v@[k].element,
                ),
        decreases r.0.len() - v@.len(),
    {
        let ghost len = v@.len() as int;
        proof {
            if len < r.0.len() {
                assert(r.0.skip(len)[0] == r.0[len]);
                assert(r.0.skip(len).drop_first() =~= r.0.skip(len + 1));
            }
        }
        match it.next() {
            Some(Ok(t)) => {
                proof {
                    assert(*t.node == cs[r.0[len]]);
                }
                let span = t.as_span();
                match document_element_of_node(t.node) {
                    Ok(x) => v.push(Anchor::new(x, span)),
                    Err(e) => {
                        proof {
                            assert forall|w: Seq<Anchor<DocumentElement>>| !ts_document_elements_of(*m, w) by {
                                if ts_document_elements_of(*m, w) {
                                    assert(w[len].span == cs[r.0[len]].span);
                                    assert(!ts_document_element_of(cs[r.0[len]], w[len].element));
                                }
                            }
                        }
                        return Err(e);
                    },
                }
            },
            Some(Err(e)) => {
                return Err(e);
            },
            None => {
                break ;
            },
        }
    }
    proof {
        assert(ts_document_elements_of(*m, v@));
    }
    Ok(v)
}

/// `d` is the document built from the node `n` (its source aside): the comments within `n`, in
/// line order, each keyed by the line it starts on; its version, anchored to the version's
/// span; then its elements.
pub open spec fn ts_document_of(n: TsSyntaxNode, d: Document) -> bool {
    let r = items(n);
    &&& comments_readable(n) && lines_free(Seq::empty(), ts_tree_comments(n))
    &&& lines_increasing(d.comments@) && d.comments@.to_multiset() == ts_tree_comments(n).to_multiset()
    &&& r.1 && r.0.len() >= 2 && is_field(item(n, 0), fields::VERSION@)
    &&& ts_version(item(n, 0)) matches Some(v) && d.version == (Anchor { element: v, span: item(n, 0).span })
    &&& is_field(item(n, 1), fields::BODY@) && ts_document_elements_of(item(n, 1), d.body@)
}

/// The document built from a node: its comments, its version, then its elements; the source
/// is left unknown. An error when none can be built. The comments are all those within the
/// tree, gathered at once, so that one inside a part that no builder steps over is kept too.
pub fn try_into_document(node: TSNode) -> (res: Result<Document, ModelError>)
    ensures
        res matches Ok(d) ==> ts_document_of(*node.node, d) && d.source is Unknown,
        res is Err ==> forall|d: Document| !ts_document_of(*node.node, d),
{
    let ghost n = *node.node;
    let comments = node.clone_comments()?;
    let mut children = node.into_children();
    let v = children.next_field(fields::VERSION)?;
    let span = v.as_span();
    let version = Anchor::new(try_into_version(v)?, span);
    let list = children.next_field(fields::BODY)?;
    proof {
        assert(*list.node == item(n, 1));
    }
    let body = match document_elements_of_node(list.node) {
        Ok(b) => b,
        Err(e) => {
            proof {
                assert forall|y: Document| !ts_document_of(n, y) by {
                    assert(!ts_document_elements_of(item(n, 1), y.body@));
                }
            }
            return Err(e);
        },
    };
    children.drain(false)?;
    Ok(Document { source: DocumentSource::Unknown, version, body, comments })
}

} // verus!
