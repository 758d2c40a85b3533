//! Building documents from their matches in the parse tree.
use crate::model::{
    implicit_namespace, Alias, Anchor, Document, DocumentElement, DocumentSource, Import,
    ModelError, Namespace, Struct, Version, VersionIdentifier,
};
use crate::parsers::pest::declarations::{
    collect_unbound_declarations, unbound_declarations_of, unbound_declarations_ok,
};
use crate::parsers::pest::node::{
    comments_of, has_vis, hidden, is_hidden, lemma_vpos, lines_free, tree_comments, vcount, vis,
    vpos, PestNode, PestNodes,
};
use crate::parsers::pest::primitives::{text_anchor_of, try_into_text_anchor};
use crate::parsers::pest::rules::WdlRule;
use crate::parsers::pest::task::{task_of, task_ok, try_into_task};
use crate::parsers::pest::tree::SyntaxNode;
use crate::parsers::pest::workflow::{try_into_workflow, workflow_of, workflow_ok};
use crate::text::owned;
use vstd::prelude::*;

verus! {

/// The version written as `t`, if it is a supported one.
pub open spec fn version_identifier_of(t: Seq<char>) -> Option<VersionIdentifier> {
    if t == "1.0"@ {
        Some(VersionIdentifier::V1_0)
    } else if t == "1.1"@ {
        Some(VersionIdentifier::V1_1)
    } else {
        None
    }
}

/// `a` is the version built from `n`, its identifier and itself anchored to the span of `n`.
pub open spec fn version_anchor_of(n: SyntaxNode, a: Anchor<Version>) -> bool {
    &&& a.span == n.span
    &&& a.element.identifier.span == n.span
    &&& version_identifier_of(n.text@) == Some(a.element.identifier.element)
}

/// `x` is the alias built from `n`: the name it renames, then the new name.
pub open spec fn alias_of(n: SyntaxNode, x: Alias) -> bool {
    text_anchor_of(vis(n, 0), x.from) && text_anchor_of(vis(n, 1), x.to)
}

/// Every match of `cs` from `i` on that is not hidden becomes an alias.
pub open spec fn aliases_ok(cs: Seq<SyntaxNode>, i: int) -> bool {
    forall|j: int| #![trigger cs[j]] 0 <= i <= j < cs.len() && !hidden(cs[j]) ==> has_vis(cs[j], 0)
        && has_vis(cs[j], 1)
}

/// `v` holds, in order, the aliases built from the matches of `cs` from `i` on that are not
/// hidden, each anchored to its match's span.
pub open spec fn aliases_of(cs: Seq<SyntaxNode>, i: int, v: Seq<Anchor<Alias>>) -> bool {
    &&& v.len() == vcount(cs, i, cs.len() as int)
    &&& forall|j: int| #![trigger cs[j]] 0 <= i <= j < cs.len() && !hidden(cs[j]) ==> {
        &&& v[vcount(cs, i, j) as int].span == cs[j].span
        &&& alias_of(cs[j], v[vcount(cs, i, j) as int].element)
    }
}

/// The raw index in the import `n` of its namespace, right after its URI.
pub open spec fn namespace_pos(n: SyntaxNode) -> int {
    vpos(n, 0) + 1
}

/// The import `n` names its namespace.
pub open spec fn has_namespace(n: SyntaxNode) -> bool {
    namespace_pos(n) < n.children@.len() && n.children@[namespace_pos(n)].rule
        == WdlRule::namespace
}

/// The raw index in the import `n` of its first alias.
pub open spec fn aliases_pos(n: SyntaxNode) -> int {
    if has_namespace(n) {
        namespace_pos(n) + 1
    } else {
        namespace_pos(n)
    }
}

/// An import can be built from `n`.
pub open spec fn import_ok(n: SyntaxNode) -> bool {
    has_vis(n, 0) && aliases_ok(n.children@, aliases_pos(n))
}

/// `x` is the import built from `n`: a URI, a namespace (the one named, else the one the URI
/// implies), then the aliases.
pub open spec fn import_of(n: SyntaxNode, x: Import) -> bool {
    &&& text_anchor_of(vis(n, 0), x.uri)
    &&& if has_namespace(n) {
        x.namespace matches Namespace::Explicit(a) && text_anchor_of(
            n.children@[namespace_pos(n)],
            a,
        )
    } else {
        x.namespace matches Namespace::Implicit(s) && s@ == implicit_namespace(vis(n, 0).text@)
    }
    &&& aliases_of(n.children@, aliases_pos(n), x.aliases@)
}

/// A struct can be built from `n`.
pub open spec fn struct_ok(n: SyntaxNode) -> bool {
    has_vis(n, 0) && unbound_declarations_ok(n.children@, vpos(n, 0) + 1)
}

/// `x` is the struct built from `n`: a name, then the fields.
pub open spec fn struct_of(n: SyntaxNode, x: Struct) -> bool {
    text_anchor_of(vis(n, 0), x.name) && unbound_declarations_of(
        n.children@,
        vpos(n, 0) + 1,
        x.fields@,
    )
}

/// An element of a document can be built from `n`.
pub open spec fn document_element_ok(n: SyntaxNode) -> bool {
    match n.rule {
        WdlRule::import => import_ok(n),
        WdlRule::structdef => struct_ok(n),
        WdlRule::task => task_ok(n),
        WdlRule::workflow => workflow_ok(n),
        _ => false,
    }
}

/// `e` is the element of a document built from `n`.
pub open spec fn document_element_of(n: SyntaxNode, e: DocumentElement) -> bool {
    match n.rule {
        WdlRule::import => e matches DocumentElement::Import(x) && import_of(n, x),
        WdlRule::structdef => e matches DocumentElement::Struct(x) && struct_of(n, x),
        WdlRule::task => e matches DocumentElement::Task(x) && task_of(n, x),
        _ => e matches DocumentElement::Workflow(x) && workflow_of(n, x),
    }
}

/// A document can be built from `n`: no two comments start on one line, the version is a
/// supported one, and each element can be built.
pub open spec fn document_ok(n: SyntaxNode) -> bool {
    let cs = n.children@;
    &&& lines_free(Seq::empty(), tree_comments(n))
    &&& has_vis(n, 0)
    &&& version_identifier_of(vis(n, 0).text@) is Some
    &&& forall|j: int| #![trigger cs[j]] vpos(n, 0) < j < cs.len() && !hidden(cs[j]) ==> document_element_ok(cs[j])
}

/// `d` is the document built from `n` (its source aside): its comments, its version, then its
/// elements, each anchored to its match's span.
pub open spec fn document_of(n: SyntaxNode, d: Document) -> bool {
    let cs = n.children@;
    let i = vpos(n, 0) + 1;
    &&& comments_of(n, d.comments@)
    &&& version_anchor_of(vis(n, 0), d.version)
    &&& d.body@.len() == vcount(cs, i, cs.len() as int)
    &&& forall|j: int| #![trigger cs[j]] i <= j < cs.len() && !hidden(cs[j]) ==> {
        &&& d.body@[vcount(cs, i, j) as int].span == cs[j].span
        &&& document_element_of(cs[j], d.body@[vcount(cs, i, j) as int].element)
    }
}

/// A version: its identifier, anchored to the span of its match.
pub fn try_into_version(node: PestNode) -> (res: Result<Version, ModelError>)
    ensures
        res is Ok <==> version_identifier_of(node.pair.text@) is Some,
        res matches Ok(v) ==> version_anchor_of(*node.pair, Anchor { element: v, span: node.pair.span }),
{
    proof {
        reveal_strlit("1.0");
        reveal_strlit("1.1");
    }
    let identifier = VersionIdentifier::from_str(node.as_str())?;
    Ok(Version { identifier: Anchor::new(identifier, node.as_span()) })
}

/// A namespace named in an import: the text of its match.
pub fn try_into_namespace(node: PestNode) -> (res: Namespace)
    ensures
        res matches Namespace::Explicit(a) && text_anchor_of(*node.pair, a),
{
    Namespace::Explicit(try_into_text_anchor(node))
}

/// An alias: the name it renames, then the new name.
pub fn try_into_alias(node: PestNode) -> (res: Result<Alias, ModelError>)
    ensures
        res is Ok <==> has_vis(*node.pair, 0) && has_vis(*node.pair, 1),
        res matches Ok(x) ==> alias_of(*node.pair, x),
{
    proof {
        lemma_vpos(*node.pair, 0);
        lemma_vpos(*node.pair, 1);
    }
    let mut inner = node.into_inner();
    let from_node = inner.next_node()?;
    let to_node = inner.next_node()?;
    Ok(Alias { from: try_into_text_anchor(from_node), to: try_into_text_anchor(to_node) })
}

/// An import: a URI, a namespace (the one named, else the one the URI implies), then the
/// aliases.
pub fn try_into_import(node: PestNode) -> (res: Result<Import, ModelError>)
    ensures
        res is Ok <==> import_ok(*node.pair),
        res matches Ok(x) ==> import_of(*node.pair, x),
{
    let n = node.pair;
    proof {
        lemma_vpos(*n, 0);
    }
    let mut inner = node.into_inner();
    let uri_node = inner.next_node()?;
    let uri = try_into_text_anchor(uri_node);
    let namespace = match inner.peek_rule() {
        Some(WdlRule::namespace) => try_into_namespace(inner.next_node()?),
        _ => Namespace::from_uri(uri.element.as_str()),
    };
    assert(inner.index == aliases_pos(*n));
    let cs = inner.pairs;
    let start = inner.index;
    let mut v: Vec<Anchor<Alias>> = Vec::new();
    let mut j = start;
    while j < cs.len()
        invariant
            cs@ == node.pair.children@,
            start == aliases_pos(*node.pair),
            start <= j <= cs@.len(),
            v@.len() == vcount(cs@, start as int, j as int),
            forall|k: int|
                #![trigger cs@[k]]
                start <= k < j && !hidden(cs@[k]) ==> {
                    &&& vcount(cs@, start as int, k) < v@.len()
                    &&& has_vis(cs@[k], 0) && has_vis(cs@[k], 1)
                    &&& v@[vcount(cs@, start as int, k) as int].span == cs@[k].span
                    &&& alias_of(cs@[k], v@[vcount(cs@, start as int, k) as int].element)
                },
        decreases cs@.len() - j,
    {
        if !is_hidden(&cs[j]) {
            let alias_node = PestNode::new(&cs[j]);
            match try_into_alias(alias_node) {
                Ok(x) => v.push(Anchor::new(x, alias_node.as_span())),
                Err(e) => {
                    assert(!(has_vis(cs@[j as int], 0) && has_vis(cs@[j as int], 1)));
                    return Err(e);
                },
            }
        }
        j = j + 1;
    }
    Ok(Import { uri, namespace, aliases: v })
}

/// A struct: a name, then the fields, each anchored to its span.
pub fn try_into_struct(node: PestNode) -> (res: Result<Struct, ModelError>)
    ensures
        res is Ok <==> struct_ok(*node.pair),
        res matches Ok(x) ==> struct_of(*node.pair, x),
{
    proof {
        lemma_vpos(*node.pair, 0);
    }
    let mut inner = node.into_inner();
    let name_node = inner.next_node()?;
    let fields = collect_unbound_declarations(inner)?;
    Ok(Struct { name: try_into_text_anchor(name_node), fields })
}

/// An element of a document: an import, a struct, a task or a workflow.
pub fn try_into_document_element(node: PestNode) -> (res: Result<DocumentElement, ModelError>)
    ensures
        res is Ok <==> document_element_ok(*node.pair),
        res matches Ok(e) ==> document_element_of(*node.pair, e),
{
    match node.as_rule() {
        WdlRule::import => Ok(DocumentElement::Import(try_into_import(node)?)),
        WdlRule::structdef => Ok(DocumentElement::Struct(try_into_struct(node)?)),
        WdlRule::task => Ok(DocumentElement::Task(try_into_task(node)?)),
        WdlRule::workflow => Ok(DocumentElement::Workflow(try_into_workflow(node)?)),
        _ => Err(ModelError::parser(owned("Invalid document element"))),
    }
}

/// A document: its comments, its version, then its elements, each anchored to its span. The
/// source is left unknown. The comments are all those within the parse, gathered at once, so
/// that one inside a part that no builder steps over (such as inside a type) is kept too.
pub fn try_into_document(node: PestNode) -> (res: Result<Document, ModelError>)
    ensures
        res is Ok <==> document_ok(*node.pair),
        res matches Ok(d) ==> document_of(*node.pair, d) && d.source is Unknown,
{
    let n = node.pair;
    proof {
        lemma_vpos(*n, 0);
    }
    let comments = node.clone_comments()?;
    let mut inner = node.into_inner();
    let version_node = inner.next_node()?;
    let version = try_into_version(version_node)?;
    let cs = inner.pairs;
    let start = inner.index;
    let mut v: Vec<Anchor<DocumentElement>> = Vec::new();
    let mut j = start;
    while j < cs.len()
        invariant
            cs@ == node.pair.children@,
            start == vpos(*node.pair, 0) + 1,
            start <= j <= cs@.len(),
            v@.len() == vcount(cs@, start as int, j as int),
            forall|k: int|
                #![trigger cs@[k]]
                start <= k < j && !hidden(cs@[k]) ==> {
                    &&& vcount(cs@, start as int, k) < v@.len()
                    &&& document_element_ok(cs@[k])
                    &&& v@[vcount(cs@, start as int, k) as int].span == cs@[k].span
                    &&& document_element_of(cs@[k], v@[vcount(cs@, start as int, k) as int].element)
                },
        decreases cs@.len() - j,
    {
        if !is_hidden(&cs[j]) {
            let element_node = PestNode::new(&cs[j]);
            match try_into_document_element(element_node) {
                Ok(e) => v.push(Anchor::new(e, element_node.as_span())),
                Err(e) => {
                    assert(!document_element_ok(cs@[j as int]));
                    return Err(e);
                },
            }
        }
        j = j + 1;
    }
    Ok(
        Document {
            source: DocumentSource::Unknown,
            version: Anchor::new(version, version_node.as_span()),
            body: v,
            comments,
        },
    )
}

} // verus!
