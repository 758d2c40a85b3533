//! Building types and declarations from their matches in the parse tree.
use crate::model::{
    Anchor, BoundDeclaration, InnerSpan, Input, InputDeclaration, ModelError, Output, Span,
    Type, UnboundDeclaration,
};
use crate::parsers::pest::expression_specs::{expr_anchor_of, expr_anchor_ok};
use crate::parsers::pest::expressions::try_into_expression_anchor;
use crate::parsers::pest::node::{
    has_vis, hidden, is_hidden, lemma_vpos, vcount, vis, vpos, PestNode, PestNodes,
};
use crate::parsers::pest::primitives::{text_anchor_of, try_into_text_anchor};
use crate::parsers::pest::rules::WdlRule;
use crate::parsers::pest::tree::SyntaxNode;
use crate::text::{owned, str_eq};
use vstd::prelude::*;

verus! {

/// The primitive type named `t`, if it names one.
pub open spec fn primitive_type_of(t: Seq<char>) -> Option<Type> {
    if t == "Boolean"@ {
        Some(Type::Boolean)
    } else if t == "Int"@ {
        Some(Type::Int)
    } else if t == "Float"@ {
        Some(Type::Float)
    } else if t == "String"@ {
        Some(Type::String)
    } else if t == "File"@ {
        Some(Type::File)
    } else if t == "Object"@ {
        Some(Type::Object)
    } else {
        None
    }
}

/// The type built from `n` is an array that may be empty.
pub open spec fn builds_plain_array(n: SyntaxNode) -> bool
    decreases n,
{
    proof {
        lemma_vpos(n, 0);
    }
    if n.rule == WdlRule::array_type {
        true
    } else if n.rule == WdlRule::typedef {
        has_vis(n, 0) && !has_vis(n, 1) && builds_plain_array(vis(n, 0))
    } else {
        false
    }
}

/// A type can be built from `n`.
pub open spec fn type_ok(n: SyntaxNode) -> bool
    decreases n, 3nat,
{
    proof {
        lemma_vpos(n, 0);
        lemma_vpos(n, 1);
    }
    if n.rule == WdlRule::typedef {
        &&& has_vis(n, 0)
        &&& has_vis(n, 1) ==> vis(n, 1).rule == WdlRule::optional
        &&& type_ok(vis(n, 0))
    } else if n.rule == WdlRule::primitive_type {
        primitive_type_of(n.text@) is Some
    } else if n.rule == WdlRule::non_empty_array_type {
        has_vis(n, 0) && type_ok(vis(n, 0)) && builds_plain_array(vis(n, 0))
    } else if n.rule == WdlRule::array_type {
        has_vis(n, 0) && type_anchor_ok(vis(n, 0))
    } else if n.rule == WdlRule::map_type || n.rule == WdlRule::pair_type {
        has_vis(n, 0) && has_vis(n, 1) && type_anchor_ok(vis(n, 0)) && type_anchor_ok(vis(n, 1))
    } else {
        n.rule == WdlRule::user_type && has_vis(n, 0)
    }
}

/// A type and its span can be built from `n`: the type of its first nested match, made optional
/// when a `?` follows.
pub open spec fn type_anchor_ok(n: SyntaxNode) -> bool
    decreases n, 2nat,
{
    proof {
        lemma_vpos(n, 0);
        lemma_vpos(n, 1);
    }
    &&& has_vis(n, 0)
    &&& has_vis(n, 1) ==> vis(n, 1).rule == WdlRule::optional
    &&& type_ok(vis(n, 0))
}

/// `t` is the type built from `n`.
pub open spec fn type_of(n: SyntaxNode, t: Type) -> bool
    decreases n, 3nat,
{
    proof {
        lemma_vpos(n, 0);
        lemma_vpos(n, 1);
    }
    if n.rule == WdlRule::typedef {
        has_vis(n, 0) && if has_vis(n, 1) {
            &&& t matches Type::Optional(b)
            &&& b.span == vis(n, 0).span
            &&& type_of(vis(n, 0), b.element)
        } else {
            type_of(vis(n, 0), t)
        }
    } else if n.rule == WdlRule::primitive_type {
        primitive_type_of(n.text@) == Some(t)
    } else if n.rule == WdlRule::non_empty_array_type {
        &&& has_vis(n, 0)
        &&& t matches Type::Array { item, non_empty }
        &&& non_empty
        &&& type_of(vis(n, 0), Type::Array { item, non_empty: false })
    } else if n.rule == WdlRule::array_type {
        &&& has_vis(n, 0)
        &&& t matches Type::Array { item, non_empty }
        &&& !non_empty
        &&& type_anchor_of(vis(n, 0), *item)
    } else if n.rule == WdlRule::map_type {
        &&& has_vis(n, 0) && has_vis(n, 1)
        &&& t matches Type::Mapping { key, value }
        &&& type_anchor_of(vis(n, 0), *key)
        &&& type_anchor_of(vis(n, 1), *value)
    } else if n.rule == WdlRule::pair_type {
        &&& has_vis(n, 0) && has_vis(n, 1)
        &&& t matches Type::Pair { left, right }
        &&& type_anchor_of(vis(n, 0), *left)
        &&& type_anchor_of(vis(n, 1), *right)
    } else {
        has_vis(n, 0) && (t matches Type::User(s) && s@ == vis(n, 0).text@)
    }
}

/// `a` is the type built from `n`, with its span: with a `?`, the optional type of the first
/// nested match, spanning all of `n`; without, the type of the first nested match with its
/// span.
pub open spec fn type_anchor_of(n: SyntaxNode, a: Anchor<Type>) -> bool
    decreases n, 2nat,
{
    proof {
        lemma_vpos(n, 0);
        lemma_vpos(n, 1);
    }
    &&& has_vis(n, 0)
    &&& if has_vis(n, 1) {
        &&& a.span == n.span
        &&& a.element matches Type::Optional(b)
        &&& b.span == vis(n, 0).span
        &&& type_of(vis(n, 0), b.element)
    } else {
        a.span == vis(n, 0).span && type_of(vis(n, 0), a.element)
    }
}

/// An unbound declaration can be built from `n`.
pub open spec fn unbound_declaration_ok(n: SyntaxNode) -> bool {
    has_vis(n, 0) && has_vis(n, 1) && type_anchor_ok(vis(n, 0))
}

/// `d` is the unbound declaration built from `n`: a type, then a name.
pub open spec fn unbound_declaration_of(n: SyntaxNode, d: UnboundDeclaration) -> bool {
    type_anchor_of(vis(n, 0), d.type_) && text_anchor_of(vis(n, 1), d.name)
}

/// A bound declaration can be built from `n`.
pub open spec fn bound_declaration_ok(n: SyntaxNode) -> bool {
    &&& has_vis(n, 0) && has_vis(n, 1) && has_vis(n, 2)
    &&& type_anchor_ok(vis(n, 0))
    &&& expr_anchor_ok(vis(n, 2))
}

/// `d` is the bound declaration built from `n`: a type, a name, then an expression.
pub open spec fn bound_declaration_of(n: SyntaxNode, d: BoundDeclaration) -> bool {
    &&& type_anchor_of(vis(n, 0), d.type_)
    &&& text_anchor_of(vis(n, 1), d.name)
    &&& expr_anchor_of(vis(n, 2), d.expression)
}

/// An input declaration can be built from `n`.
pub open spec fn input_declaration_ok(n: SyntaxNode) -> bool {
    ||| n.rule == WdlRule::unbound_declaration && unbound_declaration_ok(n)
    ||| n.rule == WdlRule::bound_declaration && bound_declaration_ok(n)
}

/// `d` is the input declaration built from `n`.
pub open spec fn input_declaration_of(n: SyntaxNode, d: InputDeclaration) -> bool {
    if n.rule == WdlRule::unbound_declaration {
        d matches InputDeclaration::Unbound(x) && unbound_declaration_of(n, x)
    } else {
        d matches InputDeclaration::Bound(x) && bound_declaration_of(n, x)
    }
}

/// Every match of `cs` from `i` on that is not hidden becomes an input declaration.
pub open spec fn input_declarations_ok(cs: Seq<SyntaxNode>, i: int) -> bool {
    forall|j: int| #![trigger cs[j]] 0 <= i <= j < cs.len() && !hidden(cs[j]) ==> input_declaration_ok(cs[j])
}

/// `v` holds, in order, the input declarations built from the matches of `cs` from `i` on that
/// are not hidden, each anchored to the span from its type to its end.
pub open spec fn input_declarations_of(
    cs: Seq<SyntaxNode>,
    i: int,
    v: Seq<Anchor<InputDeclaration>>,
) -> bool {
    &&& v.len() == vcount(cs, i, cs.len() as int)
    &&& forall|j: int| #![trigger cs[j]] 0 <= i <= j < cs.len() && !hidden(cs[j]) ==> {
        &&& input_declaration_of(cs[j], v[vcount(cs, i, j) as int].element)
        &&& Some(v[vcount(cs, i, j) as int].span) == v[vcount(cs, i, j) as int].element.inner_span()
    }
}

/// Every match of `cs` from `i` on that is not hidden becomes a bound declaration.
pub open spec fn bound_declarations_ok(cs: Seq<SyntaxNode>, i: int) -> bool {
    forall|j: int| #![trigger cs[j]] 0 <= i <= j < cs.len() && !hidden(cs[j]) ==> bound_declaration_ok(cs[j])
}

/// `v` holds, in order, the bound declarations built from the matches of `cs` from `i` on that
/// are not hidden, each anchored to the span from its type to its expression.
pub open spec fn bound_declarations_of(
    cs: Seq<SyntaxNode>,
    i: int,
    v: Seq<Anchor<BoundDeclaration>>,
) -> bool {
    &&& v.len() == vcount(cs, i, cs.len() as int)
    &&& forall|j: int| #![trigger cs[j]] 0 <= i <= j < cs.len() && !hidden(cs[j]) ==> {
        &&& bound_declaration_of(cs[j], v[vcount(cs, i, j) as int].element)
        &&& Some(v[vcount(cs, i, j) as int].span) == v[vcount(cs, i, j) as int].element.inner_span()
    }
}

/// Every match of `cs` from `i` on that is not hidden becomes an unbound declaration.
pub open spec fn unbound_declarations_ok(cs: Seq<SyntaxNode>, i: int) -> bool {
    forall|j: int| #![trigger cs[j]] 0 <= i <= j < cs.len() && !hidden(cs[j]) ==> unbound_declaration_ok(cs[j])
}

/// `v` holds, in order, the unbound declarations built from the matches of `cs` from `i` on that
/// are not hidden, each anchored to its match's span.
pub open spec fn unbound_declarations_of(
    cs: Seq<SyntaxNode>,
    i: int,
    v: Seq<Anchor<UnboundDeclaration>>,
) -> bool {
    &&& v.len() == vcount(cs, i, cs.len() as int)
    &&& forall|j: int| #![trigger cs[j]] 0 <= i <= j < cs.len() && !hidden(cs[j]) ==> {
        &&& unbound_declaration_of(cs[j], v[vcount(cs, i, j) as int].element)
        &&& v[vcount(cs, i, j) as int].span == cs[j].span
    }
}

proof fn lemma_plain_array(c: SyntaxNode, t: Type)
    requires
        type_ok(c),
        type_of(c, t),
    ensures
        builds_plain_array(c) <==> (t matches Type::Array { non_empty, .. } && !non_empty),
    decreases c,
{
    lemma_vpos(c, 0);
    lemma_vpos(c, 1);
    if c.rule == WdlRule::typedef && !has_vis(c, 1) {
        lemma_plain_array(vis(c, 0), t);
    }
}

/// The primitive type named `t`, if it names one.
fn primitive_type(t: &str) -> (res: Option<Type>)
    ensures
        res == primitive_type_of(t@),
{
    proof {
        reveal_strlit("Boolean");
        reveal_strlit("Int");
        reveal_strlit("Float");
        reveal_strlit("String");
        reveal_strlit("File");
        reveal_strlit("Object");
        assert("Float"@[0] != "File"@[0] || "Float"@[1] != "File"@[1]);
    }
    if str_eq(t, "Boolean") {
        Some(Type::Boolean)
    } else if str_eq(t, "Int") {
        Some(Type::Int)
    } else if str_eq(t, "Float") {
        Some(Type::Float)
    } else if str_eq(t, "String") {
        Some(Type::String)
    } else if str_eq(t, "File") {
        Some(Type::File)
    } else if str_eq(t, "Object") {
        Some(Type::Object)
    } else {
        None
    }
}

/// Builds a type.
pub fn try_into_type(node: PestNode) -> (res: Result<Type, ModelError>)
    ensures
        res is Ok <==> type_ok(*node.pair),
        res matches Ok(t) ==> type_of(*node.pair, t),
    decreases node.pair, 3nat,
{
    let n = node.pair;
    proof {
        lemma_vpos(*n, 0);
        lemma_vpos(*n, 1);
    }
    let rule = node.as_rule();
    if rule == WdlRule::typedef {
        let mut inner = node.into_inner();
        let type_node = inner.next_node()?;
        proof {
            assert(decreases_to!(n => n.children@[vpos(*n, 0)]));
        }
        match inner.next() {
            Some(opt_node) => {
                if opt_node.as_rule() == WdlRule::optional {
                    try_into_optional(type_node)
                } else {
                    Err(ModelError::parser(owned("Expected optional token '?'")))
                }
            },
            None => try_into_type(type_node),
        }
    } else if rule == WdlRule::primitive_type {
        match primitive_type(node.as_str()) {
            Some(t) => Ok(t),
            None => Err(ModelError::parser(owned("Invalid primitive type"))),
        }
    } else if rule == WdlRule::non_empty_array_type {
        let inner = node.one_inner()?;
        proof {
            assert(decreases_to!(n => n.children@[vpos(*n, 0)]));
        }
        let t = try_into_type(inner)?;
        proof {
            lemma_plain_array(*inner.pair, t);
        }
        match t {
            Type::Array { item, non_empty: false } => Ok(Type::Array { item, non_empty: true }),
            _ => Err(ModelError::parser(owned("Expected array type"))),
        }
    } else if rule == WdlRule::array_type {
        let inner = node.one_inner()?;
        proof {
            assert(decreases_to!(n => n.children@[vpos(*n, 0)]));
        }
        Ok(Type::Array { item: Box::new(try_into_type_anchor(inner)?), non_empty: false })
    } else if rule == WdlRule::map_type {
        let mut inner = node.into_inner();
        let key_node = inner.next_node()?;
        let value_node = inner.next_node()?;
        proof {
            assert(decreases_to!(n => n.children@[vpos(*n, 0)]));
            assert(decreases_to!(n => n.children@[vpos(*n, 1)]));
        }
        let key = Box::new(try_into_type_anchor(key_node)?);
        let value = Box::new(try_into_type_anchor(value_node)?);
        Ok(Type::Mapping { key, value })
    } else if rule == WdlRule::pair_type {
        let mut inner = node.into_inner();
        let left_node = inner.next_node()?;
        let right_node = inner.next_node()?;
        proof {
            assert(decreases_to!(n => n.children@[vpos(*n, 0)]));
            assert(decreases_to!(n => n.children@[vpos(*n, 1)]));
        }
        let left = Box::new(try_into_type_anchor(left_node)?);
        let right = Box::new(try_into_type_anchor(right_node)?);
        Ok(Type::Pair { left, right })
    } else if rule == WdlRule::user_type {
        let inner = node.one_inner()?;
        Ok(Type::User(inner.pair.text.clone()))
    } else {
        Err(ModelError::parser(owned("Invalid typedef")))
    }
}

/// The optional type of the type built from `node`, anchored to the span of `node`.
fn try_into_optional(node: PestNode) -> (res: Result<Type, ModelError>)
    ensures
        res is Ok <==> type_ok(*node.pair),
        res matches Ok(t) ==> t matches Type::Optional(b) && b.span == node.pair.span && type_of(
            *node.pair,
            b.element,
        ),
    decreases node.pair, 4nat,
{
    let inner_span = node.as_span();
    Ok(Type::Optional(Box::new(Anchor::new(try_into_type(node)?, inner_span))))
}

/// Builds a type together with its span: the type of the first nested match, made optional
/// (and spanning the whole match) when a `?` follows it.
pub fn try_into_type_anchor(node: PestNode) -> (res: Result<Anchor<Type>, ModelError>)
    ensures
        res is Ok <==> type_anchor_ok(*node.pair),
        res matches Ok(a) ==> type_anchor_of(*node.pair, a),
    decreases node.pair, 2nat,
{
    let n = node.pair;
    proof {
        lemma_vpos(*n, 0);
        lemma_vpos(*n, 1);
    }
    let outer_span = node.as_span();
    let mut inner = node.into_inner();
    let type_node = inner.next_node()?;
    proof {
        assert(decreases_to!(n => n.children@[vpos(*n, 0)]));
    }
    match inner.next() {
        Some(opt_node) => {
            if opt_node.as_rule() == WdlRule::optional {
                Ok(Anchor::new(try_into_optional(type_node)?, outer_span))
            } else {
                Err(ModelError::parser(owned("Expected optional token '?'")))
            }
        },
        None => {
            let span = type_node.as_span();
            Ok(Anchor::new(try_into_type(type_node)?, span))
        },
    }
}

/// Builds an unbound declaration: a type, then a name.
pub fn try_into_unbound_declaration(node: PestNode) -> (res: Result<UnboundDeclaration, ModelError>)
    ensures
        res is Ok <==> unbound_declaration_ok(*node.pair),
        res matches Ok(d) ==> unbound_declaration_of(*node.pair, d),
{
    proof {
        lemma_vpos(*node.pair, 0);
        lemma_vpos(*node.pair, 1);
    }
    let mut inner = node.into_inner();
    let type_node = inner.next_node()?;
    let name_node = inner.next_node()?;
    let type_ = try_into_type_anchor(type_node)?;
    Ok(UnboundDeclaration { type_, name: try_into_text_anchor(name_node) })
}

/// Builds a bound declaration: a type, a name, then an expression.
pub fn try_into_bound_declaration(node: PestNode) -> (res: Result<BoundDeclaration, ModelError>)
    ensures
        res is Ok <==> bound_declaration_ok(*node.pair),
        res matches Ok(d) ==> bound_declaration_of(*node.pair, d),
{
    proof {
        lemma_vpos(*node.pair, 0);
        lemma_vpos(*node.pair, 1);
        lemma_vpos(*node.pair, 2);
    }
    let mut inner = node.into_inner();
    let type_node = inner.next_node()?;
    let name_node = inner.next_node()?;
    let expression_node = inner.next_node()?;
    let type_ = try_into_type_anchor(type_node)?;
    let expression = try_into_expression_anchor(expression_node)?;
    Ok(BoundDeclaration { type_, name: try_into_text_anchor(name_node), expression })
}

/// Builds an input declaration, bound or unbound.
pub fn try_into_input_declaration(node: PestNode) -> (res: Result<InputDeclaration, ModelError>)
    ensures
        res is Ok <==> input_declaration_ok(*node.pair),
        res matches Ok(d) ==> input_declaration_of(*node.pair, d),
{
    let rule = node.as_rule();
    if rule == WdlRule::unbound_declaration {
        Ok(InputDeclaration::Unbound(try_into_unbound_declaration(node)?))
    } else if rule == WdlRule::bound_declaration {
        Ok(InputDeclaration::Bound(try_into_bound_declaration(node)?))
    } else {
        Err(ModelError::parser(owned("Invalid declaration")))
    }
}

/// Builds the input declarations of the nested matches from the iterator's position on, each
/// anchored to its inner span.
pub fn collect_input_declarations(nodes: PestNodes) -> (res: Result<
    Vec<Anchor<InputDeclaration>>,
    ModelError,
>)
    requires
        nodes.index <= nodes.pairs@.len(),
    ensures
        res is Ok <==> input_declarations_ok(nodes.pairs@, nodes.index as int),
        res matches Ok(v) ==> input_declarations_of(nodes.pairs@, nodes.index as int, v@),
{
    let cs = nodes.pairs;
    let start = nodes.index;
    let mut v: Vec<Anchor<InputDeclaration>> = Vec::new();
    let mut j = start;
    while j < cs.len()
        invariant
            cs == nodes.pairs,
            start == nodes.index,
            start <= j <= cs@.len(),
            v@.len() == vcount(cs@, start as int, j as int),
            forall|k: int|
                #![trigger cs@[k]]
                start <= k < j && !hidden(cs@[k]) ==> {
                    &&& vcount(cs@, start as int, k) < v@.len()
                    &&& input_declaration_ok(cs@[k])
                    &&& input_declaration_of(cs@[k], v@[vcount(cs@, start as int, k) as int].element)
                    &&& Some(v@[vcount(cs@, start as int, k) as int].span) == v@[vcount(
                        cs@,
                        start as int,
                        k,
                    ) as int].element.inner_span()
                },
        decreases cs@.len() - j,
    {
        if !is_hidden(&cs[j]) {
            match try_into_input_declaration(PestNode::new(&cs[j])) {
                Ok(d) => {
                    let span = match d.get_inner_span() {
                        Some(s) => s,
                        None => {
                            return Err(ModelError::parser(owned("element has no inner span")));
                        },
                    };
                    v.push(Anchor::new(d, span));
                },
                Err(e) => {
                    assert(!input_declaration_ok(nodes.pairs@[j as int]));
                    return Err(e);
                },
            }
        }
        j = j + 1;
    }
    Ok(v)
}

/// Builds the bound declarations of the nested matches from the iterator's position on, each
/// anchored to its inner span.
pub fn collect_bound_declarations(nodes: PestNodes) -> (res: Result<
    Vec<Anchor<BoundDeclaration>>,
    ModelError,
>)
    requires
        nodes.index <= nodes.pairs@.len(),
    ensures
        res is Ok <==> bound_declarations_ok(nodes.pairs@, nodes.index as int),
        res matches Ok(v) ==> bound_declarations_of(nodes.pairs@, nodes.index as int, v@),
{
    let cs = nodes.pairs;
    let start = nodes.index;
    let mut v: Vec<Anchor<BoundDeclaration>> = Vec::new();
    let mut j = start;
    while j < cs.len()
        invariant
            cs == nodes.pairs,
            start == nodes.index,
            start <= j <= cs@.len(),
            v@.len() == vcount(cs@, start as int, j as int),
            forall|k: int|
                #![trigger cs@[k]]
                start <= k < j && !hidden(cs@[k]) ==> {
                    &&& vcount(cs@, start as int, k) < v@.len()
                    &&& bound_declaration_ok(cs@[k])
                    &&& bound_declaration_of(cs@[k], v@[vcount(cs@, start as int, k) as int].element)
                    &&& Some(v@[vcount(cs@, start as int, k) as int].span) == v@[vcount(
                        cs@,
                        start as int,
                        k,
                    ) as int].element.inner_span()
                },
        decreases cs@.len() - j,
    {
        if !is_hidden(&cs[j]) {
            match try_into_bound_declaration(PestNode::new(&cs[j])) {
                Ok(d) => {
                    let span = match d.get_inner_span() {
                        Some(s) => s,
                        None => {
                            return Err(ModelError::parser(owned("element has no inner span")));
                        },
                    };
                    v.push(Anchor::new(d, span));
                },
                Err(e) => {
                    assert(!bound_declaration_ok(nodes.pairs@[j as int]));
                    return Err(e);
                },
            }
        }
        j = j + 1;
    }
    Ok(v)
}

/// Builds the unbound declarations of the nested matches from the iterator's position on, each
/// anchored to its match's span.
pub fn collect_unbound_declarations(nodes: PestNodes) -> (res: Result<
    Vec<Anchor<UnboundDeclaration>>,
    ModelError,
>)
    requires
        nodes.index <= nodes.pairs@.len(),
    ensures
        res is Ok <==> unbound_declarations_ok(nodes.pairs@, nodes.index as int),
        res matches Ok(v) ==> unbound_declarations_of(nodes.pairs@, nodes.index as int, v@),
{
    let cs = nodes.pairs;
    let start = nodes.index;
    let mut v: Vec<Anchor<UnboundDeclaration>> = Vec::new();
    let mut j = start;
    while j < cs.len()
        invariant
            cs == nodes.pairs,
            start == nodes.index,
            start <= j <= cs@.len(),
            v@.len() == vcount(cs@, start as int, j as int),
            forall|k: int|
                #![trigger cs@[k]]
                start <= k < j && !hidden(cs@[k]) ==> {
                    &&& vcount(cs@, start as int, k) < v@.len()
                    &&& unbound_declaration_ok(cs@[k])
                    &&& unbound_declaration_of(cs@[k], v@[vcount(cs@, start as int, k) as int].element)
                    &&& v@[vcount(cs@, start as int, k) as int].span == cs@[k].span
                },
        decreases cs@.len() - j,
    {
        if !is_hidden(&cs[j]) {
            let node = PestNode::new(&cs[j]);
            match try_into_unbound_declaration(node) {
                Ok(d) => v.push(Anchor::new(d, node.as_span())),
                Err(e) => {
                    assert(!unbound_declaration_ok(nodes.pairs@[j as int]));
                    return Err(e);
                },
            }
        }
        j = j + 1;
    }
    Ok(v)
}

/// Builds the declarations of an input section.
pub fn try_into_input(node: PestNode) -> (res: Result<Input, ModelError>)
    ensures
        res is Ok <==> input_declarations_ok(node.pair.children@, 0),
        res matches Ok(x) ==> input_declarations_of(node.pair.children@, 0, x.declarations@),
{
    Ok(Input { declarations: collect_input_declarations(node.into_inner())? })
}

/// Builds the declarations of an output section.
pub fn try_into_output(node: PestNode) -> (res: Result<Output, ModelError>)
    ensures
        res is Ok <==> bound_declarations_ok(node.pair.children@, 0),
        res matches Ok(x) ==> bound_declarations_of(node.pair.children@, 0, x.declarations@),
{
    Ok(Output { declarations: collect_bound_declarations(node.into_inner())? })
}

} // verus!
