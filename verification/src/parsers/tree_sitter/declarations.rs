//! Building types and declarations from the nodes of the tree-sitter syntax tree.
use crate::model::{
    Anchor, BoundDeclaration, Input, InputDeclaration, ModelError, Output, Type, UnboundDeclaration,
};
use crate::parsers::tree_sitter::expressions::{try_into_expression, ts_expression_of};
use crate::parsers::tree_sitter::node::{
    parser_error,
    is_field, is_terminal, item, items, lemma_rem_block_range, rem_block, BlockDelim, BlockEnds,
    TSNode, TSNodeIterator,
};
use crate::parsers::tree_sitter::syntax::{fields, keywords, rules, symbols};
use crate::parsers::tree_sitter::syntax::fields::{KEY, LEFT, NAME, NONEMPTY, RIGHT, TYPE, VALUE};
use crate::parsers::tree_sitter::syntax::keywords::{ARRAY, MAP, PAIR};
use crate::parsers::tree_sitter::syntax::rules::{
    ARRAY_TYPE, BOOLEAN_TYPE, FILE_TYPE, FLOAT_TYPE, INT_TYPE, MAP_TYPE, OBJECT_TYPE,
    OPTIONAL_TYPE, PAIR_TYPE, STRING_TYPE, USER_TYPE,
};
use crate::parsers::tree_sitter::syntax::symbols::{COMMA, LBRACK, LPAREN, OPTIONAL, RBRACK};
use crate::parsers::tree_sitter::tree::TsSyntaxNode;
use crate::text::{owned, str_eq};
use vstd::prelude::*;

verus! {

/// The type `t` anchored to the span of `n`.
pub open spec fn anchored(t: Type, n: TsSyntaxNode) -> Box<Anchor<Type>> {
    Box::new(Anchor { element: t, span: n.span })
}

/// The type built from the node `n`, if one can be: a primitive type by the kind of `n`;
/// otherwise from the items of `n`, in the order its kind lays them out.
pub open spec fn ts_type(n: TsSyntaxNode) -> Option<Type>
    decreases n, 1nat,
{
    let k = n.kind@;
    if k == BOOLEAN_TYPE@ {
        Some(Type::Boolean)
    } else if k == INT_TYPE@ {
        Some(Type::Int)
    } else if k == FLOAT_TYPE@ {
        Some(Type::Float)
    } else if k == STRING_TYPE@ {
        Some(Type::String)
    } else if k == FILE_TYPE@ {
        Some(Type::File)
    } else if k == OBJECT_TYPE@ {
        Some(Type::Object)
    } else if k == ARRAY_TYPE@ {
        ts_array_type(n)
    } else if k == MAP_TYPE@ {
        ts_map_type(n)
    } else if k == PAIR_TYPE@ {
        ts_pair_type(n)
    } else if k == USER_TYPE@ {
        ts_user_type(n)
    } else if k == OPTIONAL_TYPE@ {
        ts_optional_type(n)
    } else {
        None
    }
}

/// An array type built from `n`: `Array`, `[`, the item type, `]`, and a `nonempty` marker
/// that makes it non-empty.
pub open spec fn ts_array_type(n: TsSyntaxNode) -> Option<Type>
    decreases n, 0nat,
{
    proof {
        lemma_rem_block_range(n.children@, BlockEnds::NoEnds, BlockDelim::NoDelim);
    }
    let r = items(n);
    if r.0.len() >= 4 && r.1 && is_terminal(item(n, 0), ARRAY@) && is_terminal(item(n, 1), LBRACK@)
        && is_field(item(n, 2), TYPE@) && is_terminal(item(n, 3), RBRACK@) && (r.0.len() > 4
        ==> is_field(item(n, 4), NONEMPTY@)) {
        match ts_type(item(n, 2)) {
            Some(t) => Some(Type::Array { item: anchored(t, item(n, 2)), non_empty: r.0.len() > 4 }),
            None => None,
        }
    } else {
        None
    }
}

/// The items of `n` lay out a type with two parts: `word`, the symbol `open`, the field
/// `first`, `,`, the field `second`.
pub open spec fn two_part_layout(
    n: TsSyntaxNode,
    word: Seq<char>,
    open: Seq<char>,
    first: Seq<char>,
    second: Seq<char>,
) -> bool {
    let r = items(n);
    &&& r.0.len() >= 5 && r.1
    &&& is_terminal(item(n, 0), word) && is_terminal(item(n, 1), open)
    &&& is_field(item(n, 2), first) && is_terminal(item(n, 3), COMMA@)
    &&& is_field(item(n, 4), second)
}

/// A map type built from `n`: `Map`, `[`, the key type, `,`, the value type.
pub open spec fn ts_map_type(n: TsSyntaxNode) -> Option<Type>
    decreases n, 0nat,
{
    proof {
        lemma_rem_block_range(n.children@, BlockEnds::NoEnds, BlockDelim::NoDelim);
    }
    if two_part_layout(n, MAP@, LBRACK@, KEY@, VALUE@) {
        match (ts_type(item(n, 2)), ts_type(item(n, 4))) {
            (Some(a), Some(b)) => Some(
                Type::Mapping { key: anchored(a, item(n, 2)), value: anchored(b, item(n, 4)) },
            ),
            _ => None,
        }
    } else {
        None
    }
}

/// A pair type built from `n`: `Pair`, `(`, the left type, `,`, the right type.
pub open spec fn ts_pair_type(n: TsSyntaxNode) -> Option<Type>
    decreases n, 0nat,
{
    proof {
        lemma_rem_block_range(n.children@, BlockEnds::NoEnds, BlockDelim::NoDelim);
    }
    if two_part_layout(n, PAIR@, LPAREN@, LEFT@, RIGHT@) {
        match (ts_type(item(n, 2)), ts_type(item(n, 4))) {
            (Some(a), Some(b)) => Some(
                Type::Pair { left: anchored(a, item(n, 2)), right: anchored(b, item(n, 4)) },
            ),
            _ => None,
        }
    } else {
        None
    }
}

/// A user type built from `n`: the text of its name.
pub open spec fn ts_user_type(n: TsSyntaxNode) -> Option<Type> {
    let r = items(n);
    if r.0.len() >= 1 && r.1 && is_field(item(n, 0), NAME@) && item(n, 0).text is Some {
        Some(Type::User(item(n, 0).text->0))
    } else {
        None
    }
}

/// An optional type built from `n`: the type, then `?`.
pub open spec fn ts_optional_type(n: TsSyntaxNode) -> Option<Type>
    decreases n, 0nat,
{
    proof {
        lemma_rem_block_range(n.children@, BlockEnds::NoEnds, BlockDelim::NoDelim);
    }
    let r = items(n);
    if r.0.len() >= 2 && r.1 && is_field(item(n, 0), TYPE@) && is_terminal(item(n, 1), OPTIONAL@) {
        match ts_type(item(n, 0)) {
            Some(t) => Some(Type::Optional(anchored(t, item(n, 0)))),
            None => None,
        }
    } else {
        None
    }
}

/// The type built from `n`; an error when none can be.
fn type_of_node(n: &TsSyntaxNode) -> (res: Result<Type, ModelError>)
    ensures
        match ts_type(*n) {
            Some(t) => res == Ok::<Type, ModelError>(t),
            None => res is Err,
        },
    decreases n, 1nat,
{
    let kind = n.kind.as_str();
    if str_eq(kind, BOOLEAN_TYPE) {
        Ok(Type::Boolean)
    } else if str_eq(kind, INT_TYPE) {
        Ok(Type::Int)
    } else if str_eq(kind, FLOAT_TYPE) {
        Ok(Type::Float)
    } else if str_eq(kind, STRING_TYPE) {
        Ok(Type::String)
    } else if str_eq(kind, FILE_TYPE) {
        Ok(Type::File)
    } else if str_eq(kind, OBJECT_TYPE) {
        Ok(Type::Object)
    } else if str_eq(kind, ARRAY_TYPE) {
        array_of_node(n)
    } else if str_eq(kind, MAP_TYPE) {
        two_part_of_node(n, true)
    } else if str_eq(kind, PAIR_TYPE) {
        two_part_of_node(n, false)
    } else if str_eq(kind, USER_TYPE) {
        let mut children = TSNode::from_cursor(n).into_children();
        let name = children.next_field(NAME)?.try_into_string()?;
        children.drain(false)?;
        Ok(Type::User(name))
    } else if str_eq(kind, OPTIONAL_TYPE) {
        optional_of_node(n)
    } else {
        Err(parser_error("Invalid type ", kind, "", ""))
    }
}

/// The array type built from `n`.
fn array_of_node(n: &TsSyntaxNode) -> (res: Result<Type, ModelError>)
    ensures
        match ts_array_type(*n) {
            Some(t) => res == Ok::<Type, ModelError>(t),
            None => res is Err,
        },
    decreases n, 0nat,
{
    proof {
        lemma_rem_block_range(n.children@, BlockEnds::NoEnds, BlockDelim::NoDelim);
    }
    let mut children = TSNode::from_cursor(n).into_children();
    children.skip_terminal(ARRAY)?;
    children.skip_terminal(LBRACK)?;
    let item_node = children.next_field(TYPE)?;
    proof {
        assert(decreases_to!(n => n.children@[items(*n).0[2]]));
    }
    let t = type_of_node(item_node.node)?;
    let item = Box::new(Anchor::new(t, item_node.as_span()));
    children.skip_terminal(RBRACK)?;
    let non_empty = children.get_next_field(NONEMPTY)?.is_some();
    children.drain(false)?;
    Ok(Type::Array { item, non_empty })
}

/// The map type (with `is_map`) or pair type built from `n`.
fn two_part_of_node(n: &TsSyntaxNode, is_map: bool) -> (res: Result<Type, ModelError>)
    ensures
        match (if is_map { ts_map_type(*n) } else { ts_pair_type(*n) }) {
            Some(t) => res == Ok::<Type, ModelError>(t),
            None => res is Err,
        },
    decreases n, 0nat,
{
    proof {
        lemma_rem_block_range(n.children@, BlockEnds::NoEnds, BlockDelim::NoDelim);
    }
    let mut children = TSNode::from_cursor(n).into_children();
    children.skip_terminal(if is_map { MAP } else { PAIR })?;
    children.skip_terminal(if is_map { LBRACK } else { LPAREN })?;
    let first_node = children.next_field(if is_map { KEY } else { LEFT })?;
    proof {
        assert(decreases_to!(n => n.children@[items(*n).0[2]]));
    }
    let a = type_of_node(first_node.node)?;
    children.skip_terminal(COMMA)?;
    let second_node = children.next_field(if is_map { VALUE } else { RIGHT })?;
    proof {
        assert(decreases_to!(n => n.children@[items(*n).0[4]]));
    }
    let b = type_of_node(second_node.node)?;
    children.drain(false)?;
    let first = Box::new(Anchor::new(a, first_node.as_span()));
    let second = Box::new(Anchor::new(b, second_node.as_span()));
    if is_map {
        Ok(Type::Mapping { key: first, value: second })
    } else {
        Ok(Type::Pair { left: first, right: second })
    }
}

/// The optional type built from `n`.
fn optional_of_node(n: &TsSyntaxNode) -> (res: Result<Type, ModelError>)
    ensures
        match ts_optional_type(*n) {
            Some(t) => res == Ok::<Type, ModelError>(t),
            None => res is Err,
        },
    decreases n, 0nat,
{
    proof {
        lemma_rem_block_range(n.children@, BlockEnds::NoEnds, BlockDelim::NoDelim);
    }
    let mut children = TSNode::from_cursor(n).into_children();
    let inner_node = children.next_field(TYPE)?;
    proof {
        assert(decreases_to!(n => n.children@[items(*n).0[0]]));
    }
    let t = type_of_node(inner_node.node)?;
    children.skip_terminal(OPTIONAL)?;
    children.drain(false)?;
    Ok(Type::Optional(Box::new(Anchor::new(t, inner_node.as_span()))))
}

/// The type built from a node; an error when none can be.
pub fn try_into_type(node: TSNode) -> (res: Result<Type, ModelError>)
    ensures
        match ts_type(*node.node) {
            Some(t) => res == Ok::<Type, ModelError>(t),
            None => res is Err,
        },
{
    type_of_node(node.node)
}

/// The type built from a node, anchored to its span; an error when none can be.
pub fn try_into_type_anchor(node: TSNode) -> (res: Result<Anchor<Type>, ModelError>)
    ensures
        match ts_type(*node.node) {
            Some(t) => res == Ok::<Anchor<Type>, ModelError>(Anchor { element: t, span: node.node.span }),
            None => res is Err,
        },
{
    let span = node.as_span();
    Ok(Anchor::new(try_into_type(node)?, span))
}

/// The unbound declaration built from `n`, if one can be: a type, then a name.
pub open spec fn ts_unbound_declaration(n: TsSyntaxNode) -> Option<UnboundDeclaration> {
    let r = items(n);
    if r.0.len() >= 2 && r.1 && is_field(item(n, 0), TYPE@) && is_field(item(n, 1), NAME@) && item(
        n,
        1,
    ).text is Some {
        match ts_type(item(n, 0)) {
            Some(t) => Some(
                UnboundDeclaration {
                    type_: Anchor { element: t, span: item(n, 0).span },
                    name: Anchor { element: item(n, 1).text->0, span: item(n, 1).span },
                },
            ),
            None => None,
        }
    } else {
        None
    }
}

/// An unbound declaration: a type, then a name.
pub fn try_into_unbound_declaration(node: TSNode) -> (res: Result<UnboundDeclaration, ModelError>)
    ensures
        match ts_unbound_declaration(*node.node) {
            Some(d) => res == Ok::<UnboundDeclaration, ModelError>(d),
            None => res is Err,
        },
{
    let mut children = node.into_children();
    let type_ = try_into_type_anchor(children.next_field(TYPE)?)?;
    let name = children.next_field(NAME)?.try_into_text_anchor()?;
    children.drain(false)?;
    Ok(UnboundDeclaration { type_, name })
}

/// Each of the nodes `ns` builds an unbound declaration.
pub open spec fn unbound_declarations_ok(ns: Seq<TsSyntaxNode>) -> bool {
    forall|k: int| 0 <= k < ns.len() ==> (#[trigger] ts_unbound_declaration(ns[k])) is Some
}

/// The unbound declarations built from the nodes `ns`, each anchored to its node's span.
pub open spec fn unbound_declarations_of(ns: Seq<TsSyntaxNode>) -> Seq<Anchor<UnboundDeclaration>> {
    ns.map_values(
        |c: TsSyntaxNode| Anchor { element: ts_unbound_declaration(c)->0, span: c.span },
    )
}

/// The unbound declarations built from the items left in `nodes`, each anchored to its span; an
/// error when the block is malformed or an item builds none.
pub fn collect_unbound_declarations(nodes: TSNodeIterator) -> (res: Result<
    Vec<Anchor<UnboundDeclaration>>,
    ModelError,
>)
    requires
        nodes.wf(),
    ensures
        res is Ok <==> nodes.remaining().1 && unbound_declarations_ok(nodes.pending()),
        res matches Ok(v) ==> v@ == unbound_declarations_of(nodes.pending()),
{
    let ghost r = nodes.remaining();
    let ghost ns = nodes.pending();
    let ghost cs = nodes.children@;
    let mut it = nodes;
    let mut v: Vec<Anchor<UnboundDeclaration>> = Vec::new();
    loop
        invariant
            it.wf(),
            it.children@ == cs,
            r == nodes.remaining(),
            ns == nodes.pending(),
            cs == nodes.children@,
            v@.len() <= r.0.len(),
            it.remaining() == (r.0.skip(v@.len() as int), r.1),
            forall|k: int| 0 <= k < v@.len() ==> (#[trigger] ts_unbound_declaration(ns[k])) is Some,
            forall|k: int|
                0 <= k < v@.len() ==> #[trigger] v@[k] == (Anchor {
                    element: ts_unbound_declaration(ns[k])->0,
                    span: ns[k].span,
                }),
        ensures
            r.1,
            v@.len() == r.0.len(),
            forall|k: int| 0 <= k < v@.len() ==> (#[trigger] ts_unbound_declaration(ns[k])) is Some,
            forall|k: int|
                0 <= k < v@.len() ==> #[trigger] v@[k] == (Anchor {
                    element: ts_unbound_declaration(ns[k])->0,
                    span: ns[k].span,
                }),
        decreases r.0.len() - v@.len(),
    {
        let ghost len = v@.len() as int;
        proof {
            if len < r.0.len() {
                assert(it.peek() == Some(ns[len]));
                assert(r.0.skip(len).drop_first() =~= r.0.skip(len + 1));
            } else {
                assert(it.remaining().0.len() == 0);
            }
        }
        match it.next() {
            Some(Ok(t)) => {
                let span = t.as_span();
                match try_into_unbound_declaration(t) {
                    Ok(d) => v.push(Anchor::new(d, span)),
                    Err(e) => {
                        assert(!unbound_declarations_ok(ns)) by {
                            assert(ts_unbound_declaration(ns[len]) is None);
                        }
                        return Err(e);
                    },
                }
            },
            Some(Err(e)) => {
                return Err(e);
            },
            None => {
                break ;
            },
        }
    }
    proof {
        assert(v@ =~= unbound_declarations_of(ns));
    }
    Ok(v)
}

/// `d` is the bound declaration built from the node `n`: a type, a name, `=`, an expression.
pub open spec fn ts_bound_declaration_of(n: TsSyntaxNode, d: BoundDeclaration) -> bool {
    let r = items(n);
    &&& r.1 && r.0.len() >= 4 && is_field(item(n, 0), TYPE@) && is_field(item(n, 1), NAME@)
    &&& ts_type(item(n, 0)) matches Some(t) && d.type_ == (Anchor { element: t, span: item(n, 0).span })
    &&& item(n, 1).text matches Some(x) && d.name == (Anchor { element: x, span: item(n, 1).span })
    &&& is_terminal(item(n, 2), symbols::ASSIGN@) && is_field(item(n, 3), fields::EXPRESSION@)
    &&& d.expression.span == item(n, 3).span && ts_expression_of(item(n, 3), d.expression.element)
}

/// A bound declaration: a type, a name, `=`, an expression.
pub fn bound_declaration_of_node(n: &TsSyntaxNode) -> (res: Result<BoundDeclaration, ModelError>)
    ensures
        res matches Ok(d) ==> ts_bound_declaration_of(*n, d),
        res is Err ==> forall|d: BoundDeclaration| !ts_bound_declaration_of(*n, d),
{
    let mut children = TSNode::from_cursor(n).into_children();
    let type_ = try_into_type_anchor(children.next_field(TYPE)?)?;
    let name = children.next_field(NAME)?.try_into_text_anchor()?;
    children.skip_terminal(symbols::ASSIGN)?;
    let x = children.next_field(fields::EXPRESSION)?;
    let span = x.as_span();
    proof {
        assert(*x.node == item(*n, 3));
    }
    let e = match try_into_expression(x) {
        Ok(e) => e,
        Err(e) => {
            proof {
                assert forall|d: BoundDeclaration| !ts_bound_declaration_of(*n, d) by {
                    assert(!ts_expression_of(item(*n, 3), d.expression.element));
                }
            }
            return Err(e);
        },
    };
    children.drain(false)?;
    Ok(BoundDeclaration { type_, name, expression: Anchor::new(e, span) })
}

/// `d` is the input declaration built from the node `n`: bound or unbound, by its kind.
pub open spec fn ts_input_declaration_of(n: TsSyntaxNode, d: InputDeclaration) -> bool {
    if n.kind@ == rules::BOUND_DECLARATION@ {
        d matches InputDeclaration::Bound(b) && ts_bound_declaration_of(n, b)
    } else if n.kind@ == rules::UNBOUND_DECLARATION@ {
        ts_unbound_declaration(n) matches Some(u) && d == InputDeclaration::Unbound(u)
    } else {
        false
    }
}

/// An input declaration: bound or unbound, by the kind of `n`.
fn input_declaration_of_node(n: &TsSyntaxNode) -> (res: Result<InputDeclaration, ModelError>)
    ensures
        res matches Ok(d) ==> ts_input_declaration_of(*n, d),
        res is Err ==> forall|d: InputDeclaration| !ts_input_declaration_of(*n, d),
{
    if str_eq(n.kind.as_str(), rules::BOUND_DECLARATION) {
        match bound_declaration_of_node(n) {
            Ok(b) => Ok(InputDeclaration::Bound(b)),
            Err(e) => {
                proof {
                    assert forall|d: InputDeclaration| !ts_input_declaration_of(*n, d) by {
                        if let InputDeclaration::Bound(b) = d {
                            assert(!ts_bound_declaration_of(*n, b));
                        }
                    }
                }
                Err(e)
            },
        }
    } else if str_eq(n.kind.as_str(), rules::UNBOUND_DECLARATION) {
        Ok(InputDeclaration::Unbound(try_into_unbound_declaration(TSNode::from_cursor(n))?))
    } else {
        Err(parser_error("Invalid declaration ", n.kind.as_str(), "", ""))
    }
}

/// `v` holds the input declarations built from the items of the block of `m` in braces.
pub open spec fn ts_input_declarations_of(m: TsSyntaxNode, v: Seq<Anchor<InputDeclaration>>) -> bool
{
    let r = rem_block(m.children@, BlockEnds::Braces, BlockDelim::NoDelim);
    &&& r.1 && v.len() == r.0.len()
    &&& forall|k: int|
        0 <= k < r.0.len() ==> (#[trigger] v[k]).span == m.children@[r.0[k]].span
            && ts_input_declaration_of(m.children@[r.0[k]], v[k].element)
}

/// The input declarations built from the items of the block of `m` in braces.
fn input_declarations_of_node(m: &TsSyntaxNode) -> (res: Result<Vec<Anchor<InputDeclaration>>, ModelError>)
    ensures
        res matches Ok(v) ==> ts_input_declarations_of(*m, v@),
        res is Err ==> forall|v: Seq<Anchor<InputDeclaration>>| !ts_input_declarations_of(*m, v),
{
    proof {
        lemma_rem_block_range(m.children@, BlockEnds::Braces, BlockDelim::NoDelim);
    }
    let ghost cs = m.children@;
    let ghost r = rem_block(cs, BlockEnds::Braces, BlockDelim::NoDelim);
    let mut it = TSNode::from_cursor(m).into_block(BlockEnds::Braces, BlockDelim::NoDelim);
    let mut v: Vec<Anchor<InputDeclaration>> = Vec::new();
    loop
        invariant
            it.wf(),
            it.children@ == cs,
            cs == m.children@,
            r == rem_block(cs, BlockEnds::Braces, BlockDelim::NoDelim),
            forall|k: int| 0 <= k < r.0.len() ==> 0 <= #[trigger] r.0[k] < cs.len(),
            v@.len() <= r.0.len(),
            it.remaining() == (r.0.skip(v@.len() as int), r.1),
            forall|k: int|
                0 <= k < v@.len() ==> (#[trigger] v@[k]).span == cs[r.0[k]].span && ts_input_declaration_of(
                    cs[r.0[k]],
                    v@[k].element,
                ),
        ensures
            r.1,
            v@.len() == r.0.len(),
            forall|k: int|
                0 <= k < v@.len() ==> (#[trigger] v@[k]).span == cs[r.0[k]].span && ts_input_declaration_of(
                    cs[r.0[k]],
                    v@[k].element,
                ),
        decreases r.0.len() - v@.len(),
    {
        let ghost len = v@.len() as int;
        proof {
            if len < r.0.len() {
                assert(r.0.skip(len)[0] == r.0[len]);
                assert(r.0.skip(len).drop_first() =~= r.0.skip(len + 1));
            }
        }
        match it.next() {
            Some(Ok(t)) => {
                proof {
                    assert(*t.node == cs[r.0[len]]);
                }
                let span = t.as_span();
                match input_declaration_of_node(t.node) {
                    Ok(x) => v.push(Anchor::new(x, span)),
                    Err(e) => {
                        proof {
                            assert forall|w: Seq<Anchor<InputDeclaration>>| !ts_input_declarations_of(*m, w) by {
                                if ts_input_declarations_of(*m, w) {
                                    assert(w[len].span == cs[r.0[len]].span);
                                    assert(!ts_input_declaration_of(cs[r.0[len]], w[len].element));
                                }
                            }
                        }
                        return Err(e);
                    },
                }
            },
            Some(Err(e)) => {
                return Err(e);
            },
            None => {
                break ;
            },
        }
    }
    proof {
        assert(ts_input_declarations_of(*m, v@));
    }
    Ok(v)
}

/// `v` holds the bound declarations built from the items of the block of `m` in braces.
pub open spec fn ts_bound_declarations_of(m: TsSyntaxNode, v: Seq<Anchor<BoundDeclaration>>) -> bool
{
    let r = rem_block(m.children@, BlockEnds::Braces, BlockDelim::NoDelim);
    &&& r.1 && v.len() == r.0.len()
    &&& forall|k: int|
        0 <= k < r.0.len() ==> (#[trigger] v[k]).span == m.children@[r.0[k]].span
            && ts_bound_declaration_of(m.children@[r.0[k]], v[k].element)
}

/// The bound declarations built from the items of the block of `m` in braces.
fn bound_declarations_of_node(m: &TsSyntaxNode) -> (res: Result<Vec<Anchor<BoundDeclaration>>, ModelError>)
    ensures
        res matches Ok(v) ==> ts_bound_declarations_of(*m, v@),
        res is Err ==> forall|v: Seq<Anchor<BoundDeclaration>>| !ts_bound_declarations_of(*m, v),
{
    proof {
        lemma_rem_block_range(m.children@, BlockEnds::Braces, BlockDelim::NoDelim);
    }
    let ghost cs = m.children@;
    let ghost r = rem_block(cs, BlockEnds::Braces, BlockDelim::NoDelim);
    let mut it = TSNode::from_cursor(m).into_block(BlockEnds::Braces, BlockDelim::NoDelim);
    let mut v: Vec<Anchor<BoundDeclaration>> = Vec::new();
    loop
        invariant
            it.wf(),
            it.children@ == cs,
            cs == m.children@,
            r == rem_block(cs, BlockEnds::Braces, BlockDelim::NoDelim),
            forall|k: int| 0 <= k < r.0.len() ==> 0 <= #[trigger] r.0[k] < cs.len(),
            v@.len() <= r.0.len(),
            it.remaining() == (r.0.skip(v@.len() as int), r.1),
            forall|k: int|
                0 <= k < v@.len() ==> (#[trigger] v@[k]).span == cs[r.0[k]].span && ts_bound_declaration_of(
                    cs[r.0[k]],
                    v@[k].element,
                ),
        ensures
            r.1,
            v@.len() == r.0.len(),
            forall|k: int|
                0 <= k < v@.len() ==> (#[trigger] v@[k]).span == cs[r.0[k]].span && ts_bound_declaration_of(
                    cs[r.0[k]],
                    v@[k].element,
                ),
        decreases r.0.len() - v@.len(),
    {
        let ghost len = v@.len() as int;
        proof {
            if len < r.0.len() {
                assert(r.0.skip(len)[0] == r.0[len]);
                assert(r.0.skip(len).drop_first() =~= r.0.skip(len + 1));
            }
        }
        match it.next() {
            Some(Ok(t)) => {
                proof {
                    assert(*t.node == cs[r.0[len]]);
                }
                let span = t.as_span();
                match bound_declaration_of_node(t.node) {
                    Ok(x) => v.push(Anchor::new(x, span)),
                    Err(e) => {
                        proof {
                            assert forall|w: Seq<Anchor<BoundDeclaration>>| !ts_bound_declarations_of(*m, w) by {
                                if ts_bound_declarations_of(*m, w) {
                                    assert(w[len].span == cs[r.0[len]].span);
                                    assert(!ts_bound_declaration_of(cs[r.0[len]], w[len].element));
                                }
                            }
                        }
                        return Err(e);
                    },
                }
            },
            Some(Err(e)) => {
                return Err(e);
            },
            None => {
                break ;
            },
        }
    }
    proof {
        assert(ts_bound_declarations_of(*m, v@));
    }
    Ok(v)
}

/// `x` is the input section built from the node `n`: `input`, then its declarations in
/// braces.
pub open spec fn ts_input_of(n: TsSyntaxNode, x: Input) -> bool {
    let r = items(n);
    &&& r.1 && r.0.len() >= 2 && is_terminal(item(n, 0), keywords::INPUT@)
    &&& is_field(item(n, 1), fields::DECLARATIONS@)
    &&& ts_input_declarations_of(item(n, 1), x.declarations@)
}

/// The input section built from `n`: `input`, then its declarations in braces.
pub fn input_of_node(n: &TsSyntaxNode) -> (res: Result<Input, ModelError>)
    ensures
        res matches Ok(x) ==> ts_input_of(*n, x),
        res is Err ==> forall|x: Input| !ts_input_of(*n, x),
{
    let mut children = TSNode::from_cursor(n).into_children();
    children.skip_terminal(keywords::INPUT)?;
    let list = children.next_field(fields::DECLARATIONS)?;
    proof {
        assert(*list.node == item(*n, 1));
    }
    let declarations = match input_declarations_of_node(list.node) {
        Ok(v) => v,
        Err(e) => {
            proof {
                assert forall|x: Input| !ts_input_of(*n, x) by {
                    assert(!ts_input_declarations_of(item(*n, 1), x.declarations@));
                }
            }
            return Err(e);
        },
    };
    children.drain(false)?;
    Ok(Input { declarations })
}

/// `x` is the output section built from the node `n`: `output`, then its bound declarations
/// in braces.
pub open spec fn ts_output_of(n: TsSyntaxNode, x: Output) -> bool {
    let r = items(n);
    &&& r.1 && r.0.len() >= 2 && is_terminal(item(n, 0), keywords::OUTPUT@)
    &&& is_field(item(n, 1), fields::DECLARATIONS@)
    &&& ts_bound_declarations_of(item(n, 1), x.declarations@)
}

/// The output section built from `n`: `output`, then its bound declarations in braces.
pub fn output_of_node(n: &TsSyntaxNode) -> (res: Result<Output, ModelError>)
    ensures
        res matches Ok(x) ==> ts_output_of(*n, x),
        res is Err ==> forall|x: Output| !ts_output_of(*n, x),
{
    let mut children = TSNode::from_cursor(n).into_children();
    children.skip_terminal(keywords::OUTPUT)?;
    let list = children.next_field(fields::DECLARATIONS)?;
    proof {
        assert(*list.node == item(*n, 1));
    }
    let declarations = match bound_declarations_of_node(list.node) {
        Ok(v) => v,
        Err(e) => {
            proof {
                assert forall|x: Output| !ts_output_of(*n, x) by {
                    assert(!ts_bound_declarations_of(item(*n, 1), x.declarations@));
                }
            }
            return Err(e);
        },
    };
    children.drain(false)?;
    Ok(Output { declarations })
}

} // verus!
