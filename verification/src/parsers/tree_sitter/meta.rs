//! Building the metadata of tasks and workflows from the nodes of the tree-sitter syntax tree.
use crate::model::{
    integer_text, is_float_text, Anchor, Meta, MetaArray, MetaAttribute, MetaObject,
    MetaObjectField, MetaString, MetaStringPart, MetaValue, ModelError, ParameterMeta,
};
use crate::parsers::pest::primitives::float_of;
use crate::parsers::tree_sitter::node::{
    parser_error,
    is_field, is_terminal, item, items, lemma_rem_block_range, rem_block, BlockDelim, BlockEnds,
    TSNode,
};
use crate::parsers::tree_sitter::primitives::{try_into_float, try_into_integer};
use crate::parsers::tree_sitter::syntax::{fields, keywords, rules, symbols};
use crate::parsers::tree_sitter::tree::TsSyntaxNode;
use crate::text::{owned, str_eq};
use vstd::prelude::*;

verus! {

/// `v` is the metadata value built from the node `n`, by the kind of `n`: a literal from its
/// text, a string, an array or an object.
pub open spec fn ts_meta_value_of(n: TsSyntaxNode, v: MetaValue) -> bool
    decreases n, 1nat,
{
    let k = n.kind@;
    if k == rules::NULL@ {
        v == MetaValue::Null
    } else if k == rules::TRUE@ {
        v == MetaValue::Boolean(true)
    } else if k == rules::FALSE@ {
        v == MetaValue::Boolean(false)
    } else if k == rules::DEC_INT@ || k == rules::OCT_INT@ || k == rules::HEX_INT@ {
        n.text matches Some(t) && integer_text(t@) matches Some(i) && v == MetaValue::Int(i)
    } else if k == rules::FLOAT@ {
        &&& n.text matches Some(t)
        &&& is_float_text(t@)
        &&& v matches MetaValue::Float(f)
        &&& float_of(t@, f)
    } else if k == rules::SIMPLE_STRING@ {
        v matches MetaValue::String(s) && ts_meta_string_of(n, s)
    } else if k == rules::META_ARRAY@ {
        v matches MetaValue::Array(a) && ts_meta_array_of(n, a)
    } else if k == rules::META_OBJECT@ {
        v matches MetaValue::Object(o) && ts_meta_object_of(n, o)
    } else {
        false
    }
}

/// `a` is the metadata array built from the node `n`: its values, in brackets, separated by
/// commas.
pub open spec fn ts_meta_array_of(n: TsSyntaxNode, a: MetaArray) -> bool
    decreases n, 0nat,
{
    proof {
        lemma_rem_block_range(n.children@, BlockEnds::NoEnds, BlockDelim::NoDelim);
    }
    let r = items(n);
    &&& r.1 && r.0.len() >= 1 && is_field(item(n, 0), fields::ELEMENTS@)
    &&& ts_meta_values_of(item(n, 0), a.elements@)
}

/// `o` is the metadata object built from the node `n`: its fields, in braces, separated by
/// commas.
pub open spec fn ts_meta_object_of(n: TsSyntaxNode, o: MetaObject) -> bool
    decreases n, 0nat,
{
    proof {
        lemma_rem_block_range(n.children@, BlockEnds::NoEnds, BlockDelim::NoDelim);
    }
    let r = items(n);
    &&& r.1 && r.0.len() >= 1 && is_field(item(n, 0), fields::FIELDS@)
    &&& ts_meta_fields_of(item(n, 0), o.fields@)
}

/// `x` is the field of a metadata object built from the node `n`: a name, `:`, a value.
pub open spec fn ts_meta_field_of(n: TsSyntaxNode, x: MetaObjectField) -> bool
    decreases n, 0nat,
{
    proof {
        lemma_rem_block_range(n.children@, BlockEnds::NoEnds, BlockDelim::NoDelim);
    }
    let r = items(n);
    &&& r.1 && r.0.len() >= 3 && is_field(item(n, 0), fields::NAME@)
    &&& item(n, 0).text matches Some(t) && x.name == (Anchor { element: t, span: item(n, 0).span })
    &&& is_terminal(item(n, 1), symbols::COLON@) && is_field(item(n, 2), fields::VALUE@)
    &&& x.value.span == item(n, 2).span && ts_meta_value_of(item(n, 2), x.value.element)
}

/// `v` holds the metadata values built from the items of the block of `m` in brackets,
/// separated by commas, each anchored to its node's span.
pub open spec fn ts_meta_values_of(m: TsSyntaxNode, v: Seq<Anchor<MetaValue>>) -> bool
    decreases m, 0nat,
{
    proof {
        lemma_rem_block_range(m.children@, BlockEnds::Brackets, BlockDelim::Comma);
    }
    let r = rem_block(m.children@, BlockEnds::Brackets, BlockDelim::Comma);
    &&& r.1 && v.len() == r.0.len()
    &&& forall|k: int|
        0 <= k < r.0.len() ==> (#[trigger] v[k]).span == m.children@[r.0[k]].span
            && ts_meta_value_of(m.children@[r.0[k]], v[k].element)
}

/// `v` holds the fields of a metadata object built from the items of the block of `m` in
/// braces, separated by commas, each anchored to its node's span.
pub open spec fn ts_meta_fields_of(m: TsSyntaxNode, v: Seq<Anchor<MetaObjectField>>) -> bool
    decreases m, 0nat,
{
    proof {
        lemma_rem_block_range(m.children@, BlockEnds::Braces, BlockDelim::Comma);
    }
    let r = rem_block(m.children@, BlockEnds::Braces, BlockDelim::Comma);
    &&& r.1 && v.len() == r.0.len()
    &&& forall|k: int|
        0 <= k < r.0.len() ==> (#[trigger] v[k]).span == m.children@[r.0[k]].span
            && ts_meta_field_of(m.children@[r.0[k]], v[k].element)
}

/// `p` is the part of a metadata string built from the node `n`: its content or an escape
/// sequence.
pub open spec fn ts_meta_part_of(n: TsSyntaxNode, p: MetaStringPart) -> bool {
    if n.kind@ == rules::CONTENT@ {
        n.text matches Some(t) && p == MetaStringPart::Content(t)
    } else if n.kind@ == rules::ESCAPE_SEQUENCE@ {
        n.text matches Some(t) && p == MetaStringPart::Escape(t)
    } else {
        false
    }
}

/// `v` holds the parts of a metadata string built from the children of `m` that are not
/// comments, each anchored to its node's span.
pub open spec fn ts_meta_parts_of(m: TsSyntaxNode, v: Seq<Anchor<MetaStringPart>>) -> bool
{
    let r = rem_block(m.children@, BlockEnds::NoEnds, BlockDelim::NoDelim);
    &&& r.1 && v.len() == r.0.len()
    &&& forall|k: int|
        0 <= k < r.0.len() ==> (#[trigger] v[k]).span == m.children@[r.0[k]].span
            && ts_meta_part_of(m.children@[r.0[k]], v[k].element)
}

/// `s` is the metadata string built from the node `n`: an opening quote, its parts if it has
/// any, and a closing quote written as the opening one.
pub open spec fn ts_meta_string_of(n: TsSyntaxNode, s: MetaString) -> bool {
    let r = items(n);
    &&& r.1 && r.0.len() >= 2 && item(n, 0).text is Some
    &&& if is_field(item(n, 1), fields::PARTS@) {
        &&& r.0.len() >= 3
        &&& item(n, 2).text matches Some(t) && t@ == item(n, 0).text->0@
        &&& ts_meta_parts_of(item(n, 1), s.parts@)
    } else {
        item(n, 1).text matches Some(t) && t@ == item(n, 0).text->0@ && s.parts@.len() == 0
    }
}

/// `a` is the metadata attribute built from the node `n`: a name, `:`, a value.
pub open spec fn ts_meta_attribute_of(n: TsSyntaxNode, a: MetaAttribute) -> bool {
    let r = items(n);
    &&& r.1 && r.0.len() >= 3 && is_field(item(n, 0), fields::NAME@)
    &&& item(n, 0).text matches Some(t) && a.name == (Anchor { element: t, span: item(n, 0).span })
    &&& is_terminal(item(n, 1), symbols::COLON@) && is_field(item(n, 2), fields::VALUE@)
    &&& a.value.span == item(n, 2).span && ts_meta_value_of(item(n, 2), a.value.element)
}

/// `v` holds the metadata attributes built from the items of the block of `m` in braces, each
/// anchored to its node's span.
pub open spec fn ts_meta_attributes_of(m: TsSyntaxNode, v: Seq<Anchor<MetaAttribute>>) -> bool
{
    let r = rem_block(m.children@, BlockEnds::Braces, BlockDelim::NoDelim);
    &&& r.1 && v.len() == r.0.len()
    &&& forall|k: int|
        0 <= k < r.0.len() ==> (#[trigger] v[k]).span == m.children@[r.0[k]].span
            && ts_meta_attribute_of(m.children@[r.0[k]], v[k].element)
}

/// `v` holds the attributes of a metadata section built from the node `n`: the keyword
/// `word`, then its attributes in braces.
pub open spec fn ts_meta_section_of(n: TsSyntaxNode, word: Seq<char>, v: Seq<Anchor<MetaAttribute>>) -> bool {
    let r = items(n);
    &&& r.1 && r.0.len() >= 2 && is_terminal(item(n, 0), word)
    &&& is_field(item(n, 1), fields::ATTRIBUTES@) && ts_meta_attributes_of(item(n, 1), v)
}

// ----- building -----

/// The metadata value built from the node of `t`, anchored to its span.
fn meta_anchor_of(t: TSNode) -> (res: Result<Anchor<MetaValue>, ModelError>)
    ensures
        res matches Ok(a) ==> a.span == t.node.span && ts_meta_value_of(*t.node, a.element),
        res is Err ==> forall|v: MetaValue| !ts_meta_value_of(*t.node, v),
    decreases t.node, 3nat,
{
    let span = t.as_span();
    let v = meta_value_of_node(t.node)?;
    Ok(Anchor::new(v, span))
}

/// The metadata value built from `n`; an error when none can be.
pub fn meta_value_of_node(n: &TsSyntaxNode) -> (res: Result<MetaValue, ModelError>)
    ensures
        res matches Ok(v) ==> ts_meta_value_of(*n, v),
        res is Err ==> forall|v: MetaValue| !ts_meta_value_of(*n, v),
    decreases n, 2nat,
{
    let kind = n.kind.as_str();
    if str_eq(kind, rules::NULL) {
        Ok(MetaValue::Null)
    } else if str_eq(kind, rules::TRUE) {
        Ok(MetaValue::Boolean(true))
    } else if str_eq(kind, rules::FALSE) {
        Ok(MetaValue::Boolean(false))
    } else if str_eq(kind, rules::DEC_INT) || str_eq(kind, rules::OCT_INT) || str_eq(kind, rules::HEX_INT) {
        Ok(MetaValue::Int(try_into_integer(TSNode::from_cursor(n))?))
    } else if str_eq(kind, rules::FLOAT) {
        Ok(MetaValue::Float(try_into_float(TSNode::from_cursor(n))?))
    } else if str_eq(kind, rules::SIMPLE_STRING) {
        match meta_string_of_node(n) {
            Ok(x) => Ok(MetaValue::String(x)),
            Err(e) => {
                proof {
                    assert forall|y: MetaValue| !ts_meta_value_of(*n, y) by {
                        if let MetaValue::String(x) = y {
                            assert(!ts_meta_string_of(*n, x));
                        }
                    }
                }
                Err(e)
            },
        }
    } else if str_eq(kind, rules::META_ARRAY) {
        match meta_array_of_node(n) {
            Ok(x) => Ok(MetaValue::Array(x)),
            Err(e) => {
                proof {
                    assert forall|y: MetaValue| !ts_meta_value_of(*n, y) by {
                        if let MetaValue::Array(x) = y {
                            assert(!ts_meta_array_of(*n, x));
                        }
                    }
                }
                Err(e)
            },
        }
    } else if str_eq(kind, rules::META_OBJECT) {
        match meta_object_of_node(n) {
            Ok(x) => Ok(MetaValue::Object(x)),
            Err(e) => {
                proof {
                    assert forall|y: MetaValue| !ts_meta_value_of(*n, y) by {
                        if let MetaValue::Object(x) = y {
                            assert(!ts_meta_object_of(*n, x));
                        }
                    }
                }
                Err(e)
            },
        }
    } else {
        Err(parser_error("Invalid meta value ", kind, "", ""))
    }
}

/// The metadata array built from `n`: its values, in brackets, separated by commas.
fn meta_array_of_node(n: &TsSyntaxNode) -> (res: Result<MetaArray, ModelError>)
    ensures
        res matches Ok(x) ==> ts_meta_array_of(*n, x),
        res is Err ==> forall|x: MetaArray| !ts_meta_array_of(*n, x),
    decreases n, 1nat,
{
    proof {
        lemma_rem_block_range(n.children@, BlockEnds::NoEnds, BlockDelim::NoDelim);
    }
    let mut children = TSNode::from_cursor(n).into_children();
    let list = children.next_field(fields::ELEMENTS)?;
    proof {
        assert(decreases_to!(n => n.children@[items(*n).0[0]]));
        assert(*list.node == item(*n, 0));
    }
    let elements = match meta_values_of_node(list.node) {
        Ok(v) => v,
        Err(e) => {
            proof {
                assert forall|y: MetaArray| !ts_meta_array_of(*n, y) by {
                    assert(!ts_meta_values_of(item(*n, 0), y.elements@));
                }
            }
            return Err(e);
        },
    };
    children.drain(false)?;
    Ok(MetaArray { elements })
}

/// The metadata object built from `n`: its fields, in braces, separated by commas.
fn meta_object_of_node(n: &TsSyntaxNode) -> (res: Result<MetaObject, ModelError>)
    ensures
        res matches Ok(x) ==> ts_meta_object_of(*n, x),
        res is Err ==> forall|x: MetaObject| !ts_meta_object_of(*n, x),
    decreases n, 1nat,
{
    proof {
        lemma_rem_block_range(n.children@, BlockEnds::NoEnds, BlockDelim::NoDelim);
    }
    let mut children = TSNode::from_cursor(n).into_children();
    let list = children.next_field(fields::FIELDS)?;
    proof {
        assert(decreases_to!(n => n.children@[items(*n).0[0]]));
        assert(*list.node == item(*n, 0));
    }
    let fields = match meta_fields_of_node(list.node) {
        Ok(v) => v,
        Err(e) => {
            proof {
                assert forall|y: MetaObject| !ts_meta_object_of(*n, y) by {
                    assert(!ts_meta_fields_of(item(*n, 0), y.fields@));
                }
            }
            return Err(e);
        },
    };
    children.drain(false)?;
    Ok(MetaObject { fields })
}

/// The field of a metadata object built from `n`: a name, `:`, a value.
fn meta_field_of_node(n: &TsSyntaxNode) -> (res: Result<MetaObjectField, ModelError>)
    ensures
        res matches Ok(x) ==> ts_meta_field_of(*n, x),
        res is Err ==> forall|x: MetaObjectField| !ts_meta_field_of(*n, x),
    decreases n, 1nat,
{
    proof {
        lemma_rem_block_range(n.children@, BlockEnds::NoEnds, BlockDelim::NoDelim);
    }
    let mut children = TSNode::from_cursor(n).into_children();
    let name = children.next_field(fields::NAME)?.try_into_text_anchor()?;
    children.skip_terminal(symbols::COLON)?;
    let x = children.next_field(fields::VALUE)?;
    proof {
        assert(decreases_to!(n => n.children@[items(*n).0[2]]));
        assert(*x.node == item(*n, 2));
    }
    let value = match meta_anchor_of(x) {
        Ok(a) => a,
        Err(e) => {
            proof {
                assert forall|y: MetaObjectField| !ts_meta_field_of(*n, y) by {
                    assert(!ts_meta_value_of(item(*n, 2), y.value.element));
                }
            }
            return Err(e);
        },
    };
    children.drain(false)?;
    Ok(MetaObjectField { name, value })
}

/// The metadata values built from the items of the block of `m` in brackets, separated by
/// commas.
fn meta_values_of_node(m: &TsSyntaxNode) -> (res: Result<Vec<Anchor<MetaValue>>, ModelError>)
    ensures
        res matches Ok(v) ==> ts_meta_values_of(*m, v@),
        res is Err ==> forall|v: Seq<Anchor<MetaValue>>| !ts_meta_values_of(*m, v),
    decreases m, 1nat,
{
    proof {
        lemma_rem_block_range(m.children@, BlockEnds::Brackets, BlockDelim::Comma);
    }
    let ghost cs = m.children@;
    let ghost r = rem_block(cs, BlockEnds::Brackets, BlockDelim::Comma);
    let mut it = TSNode::from_cursor(m).into_block(BlockEnds::Brackets, BlockDelim::Comma);
    let mut v: Vec<Anchor<MetaValue>> = Vec::new();
    loop
        invariant
            it.wf(),
            it.children@ == cs,
            cs == m.children@,
            r == rem_block(cs, BlockEnds::Brackets, BlockDelim::Comma),
            forall|k: int| 0 <= k < r.0.len() ==> 0 <= #[trigger] r.0[k] < cs.len(),
            v@.len() <= r.0.len(),
            it.remaining() == (r.0.skip(v@.len() as int), r.1),
            forall|k: int|
                0 <= k < v@.len() ==> (#[trigger] v@[k]).span == cs[r.0[k]].span && ts_meta_value_of(
                    cs[r.0[k]],
                    v@[k].element,
                ),
        ensures
            r.1,
            v@.len() == r.0.len(),
            forall|k: int|
                0 <= k < v@.len() ==> (#[trigger] v@[k]).span == cs[r.0[k]].span && ts_meta_value_of(
                    cs[r.0[k]],
                    v@[k].element,
                ),
        decreases r.0.len() - v@.len(),
    {
        let ghost len = v@.len() as int;
        proof {
            if len < r.0.len() {
                assert(r.0.skip(len)[0] == r.0[len]);
                assert(r.0.skip(len).drop_first() =~= r.0.skip(len + 1));
            }
        }
        match it.next() {
            Some(Ok(t)) => {
                proof {
                    assert(decreases_to!(m => m.children@[r.0[len]]));
                    assert(*t.node == cs[r.0[len]]);
                }
                let span = t.as_span();
                match meta_value_of_node(t.node) {
                    Ok(x) => v.push(Anchor::new(x, span)),
                    Err(e) => {
                        proof {
                            assert forall|w: Seq<Anchor<MetaValue>>| !ts_meta_values_of(*m, w) by {
                                if ts_meta_values_of(*m, w) {
                                    assert(w[len].span == cs[r.0[len]].span);
                                    assert(!ts_meta_value_of(cs[r.0[len]], w[len].element));
                                }
                            }
                        }
                        return Err(e);
                    },
                }
            },
            Some(Err(e)) => {
                return Err(e);
            },
            None => {
                break ;
            },
        }
    }
    proof {
        assert(ts_meta_values_of(*m, v@));
    }
    Ok(v)
}

/// The fields of a metadata object built from the items of the block of `m` in braces,
/// separated by commas.
fn meta_fields_of_node(m: &TsSyntaxNode) -> (res: Result<Vec<Anchor<MetaObjectField>>, ModelError>)
    ensures
        res matches Ok(v) ==> ts_meta_fields_of(*m, v@),
        res is Err ==> forall|v: Seq<Anchor<MetaObjectField>>| !ts_meta_fields_of(*m, v),
    decreases m, 1nat,
{
    proof {
        lemma_rem_block_range(m.children@, BlockEnds::Braces, BlockDelim::Comma);
    }
    let ghost cs = m.children@;
    let ghost r = rem_block(cs, BlockEnds::Braces, BlockDelim::Comma);
    let mut it = TSNode::from_cursor(m).into_block(BlockEnds::Braces, BlockDelim::Comma);
    let mut v: Vec<Anchor<MetaObjectField>> = Vec::new();
    loop
        invariant
            it.wf(),
            it.children@ == cs,
            cs == m.children@,
            r == rem_block(cs, BlockEnds::Braces, BlockDelim::Comma),
            forall|k: int| 0 <= k < r.0.len() ==> 0 <= #[trigger] r.0[k] < cs.len(),
            v@.len() <= r.0.len(),
            it.remaining() == (r.0.skip(v@.len() as int), r.1),
            forall|k: int|
                0 <= k < v@.len() ==> (#[trigger] v@[k]).span == cs[r.0[k]].span && ts_meta_field_of(
                    cs[r.0[k]],
                    v@[k].element,
                ),
        ensures
            r.1,
            v@.len() == r.0.len(),
            forall|k: int|
                0 <= k < v@.len() ==> (#[trigger] v@[k]).span == cs[r.0[k]].span && ts_meta_field_of(
                    cs[r.0[k]],
                    v@[k].element,
                ),
        decreases r.0.len() - v@.len(),
    {
        let ghost len = v@.len() as int;
        proof {
            if len < r.0.len() {
                assert(r.0.skip(len)[0] == r.0[len]);
                assert(r.0.skip(len).drop_first() =~= r.0.skip(len + 1));
            }
        }
        match it.next() {
            Some(Ok(t)) => {
                proof {
                    assert(decreases_to!(m => m.children@[r.0[len]]));
                    assert(*t.node == cs[r.0[len]]);
                }
                let span = t.as_span();
                match meta_field_of_node(t.node) {
                    Ok(x) => v.push(Anchor::new(x, span)),
                    Err(e) => {
                        proof {
                            assert forall|w: Seq<Anchor<MetaObjectField>>| !ts_meta_fields_of(*m, w) by {
                                if ts_meta_fields_of(*m, w) {
                                    assert(w[len].span == cs[r.0[len]].span);
                                    assert(!ts_meta_field_of(cs[r.0[len]], w[len].element));
                                }
                            }
                        }
                        return Err(e);
                    },
                }
            },
            Some(Err(e)) => {
                return Err(e);
            },
            None => {
                break ;
            },
        }
    }
    proof {
        assert(ts_meta_fields_of(*m, v@));
    }
    Ok(v)
}

/// The part of a metadata string built from `n`: its content or an escape sequence.
fn meta_part_of_node(n: &TsSyntaxNode) -> (res: Result<MetaStringPart, ModelError>)
    ensures
        res matches Ok(x) ==> ts_meta_part_of(*n, x),
        res is Err ==> forall|x: MetaStringPart| !ts_meta_part_of(*n, x),
{
    if str_eq(n.kind.as_str(), rules::CONTENT) {
        Ok(MetaStringPart::Content(TSNode::from_cursor(n).try_into_string()?))
    } else if str_eq(n.kind.as_str(), rules::ESCAPE_SEQUENCE) {
        Ok(MetaStringPart::Escape(TSNode::from_cursor(n).try_into_string()?))
    } else {
        Err(parser_error("Invalid meta string part ", n.kind.as_str(), "", ""))
    }
}

/// The parts of a metadata string built from the children of `m`.
fn meta_parts_of_node(m: &TsSyntaxNode) -> (res: Result<Vec<Anchor<MetaStringPart>>, ModelError>)
    ensures
        res matches Ok(v) ==> ts_meta_parts_of(*m, v@),
        res is Err ==> forall|v: Seq<Anchor<MetaStringPart>>| !ts_meta_parts_of(*m, v),
{
    proof {
        lemma_rem_block_range(m.children@, BlockEnds::NoEnds, BlockDelim::NoDelim);
    }
    let ghost cs = m.children@;
    let ghost r = rem_block(cs, BlockEnds::NoEnds, BlockDelim::NoDelim);
    let mut it = TSNode::from_cursor(m).into_block(BlockEnds::NoEnds, BlockDelim::NoDelim);
    let mut v: Vec<Anchor<MetaStringPart>> = Vec::new();
    loop
        invariant
            it.wf(),
            it.children@ == cs,
            cs == m.children@,
            r == rem_block(cs, BlockEnds::NoEnds, BlockDelim::NoDelim),
            forall|k: int| 0 <= k < r.0.len() ==> 0 <= #[trigger] r.0[k] < cs.len(),
            v@.len() <= r.0.len(),
            it.remaining() == (r.0.skip(v@.len() as int), r.1),
            forall|k: int|
                0 <= k < v@.len() ==> (#[trigger] v@[k]).span == cs[r.0[k]].span && ts_meta_part_of(
                    cs[r.0[k]],
                    v@[k].element,
                ),
        ensures
            r.1,
            v@.len() == r.0.len(),
            forall|k: int|
                0 <= k < v@.len() ==> (#[trigger] v@[k]).span == cs[r.0[k]].span && ts_meta_part_of(
                    cs[r.0[k]],
                    v@[k].element,
                ),
        decreases r.0.len() - v@.len(),
    {
        let ghost len = v@.len() as int;
        proof {
            if len < r.0.len() {
                assert(r.0.skip(len)[0] == r.0[len]);
                assert(r.0.skip(len).drop_first() =~= r.0.skip(len + 1));
            }
        }
        match it.next() {
            Some(Ok(t)) => {
                proof {
                    assert(*t.node == cs[r.0[len]]);
                }
                let span = t.as_span();
                match meta_part_of_node(t.node) {
                    Ok(x) => v.push(Anchor::new(x, span)),
                    Err(e) => {
                        proof {
                            assert forall|w: Seq<Anchor<MetaStringPart>>| !ts_meta_parts_of(*m, w) by {
                                if ts_meta_parts_of(*m, w) {
                                    assert(w[len].span == cs[r.0[len]].span);
                                    assert(!ts_meta_part_of(cs[r.0[len]], w[len].element));
                                }
                            }
                        }
                        return Err(e);
                    },
                }
            },
            Some(Err(e)) => {
                return Err(e);
            },
            None => {
                break ;
            },
        }
    }
    proof {
        assert(ts_meta_parts_of(*m, v@));
    }
    Ok(v)
}

/// The metadata string built from `n`: an opening quote, its parts if it has any, and a
/// closing quote written as the opening one.
fn meta_string_of_node(n: &TsSyntaxNode) -> (res: Result<MetaString, ModelError>)
    ensures
        res matches Ok(x) ==> ts_meta_string_of(*n, x),
        res is Err ==> forall|x: MetaString| !ts_meta_string_of(*n, x),
{
    let mut children = TSNode::from_cursor(n).into_children();
    let start = children.next_node()?.try_as_str()?;
    let second = children.next_node()?;
    let is_parts = match second.get_field() {
        Some(f) => str_eq(f, fields::PARTS),
        None => false,
    };
    let (parts, end) = if is_parts {
        proof {
            assert(*second.node == item(*n, 1));
        }
        let parts = match meta_parts_of_node(second.node) {
            Ok(v) => v,
            Err(e) => {
                proof {
                    assert forall|y: MetaString| !ts_meta_string_of(*n, y) by {
                        assert(!ts_meta_parts_of(*second.node, y.parts@));
                    }
                }
                return Err(e);
            },
        };
        (parts, children.next_node()?.try_as_str()?)
    } else {
        (Vec::new(), second.try_as_str()?)
    };
    if !str_eq(start, end) {
        return Err(ModelError::parser(owned("Expected the quotes of a string to match")));
    }
    children.drain(false)?;
    Ok(MetaString { parts })
}

/// The metadata attribute built from `n`: a name, `:`, a value.
fn meta_attribute_of_node(n: &TsSyntaxNode) -> (res: Result<MetaAttribute, ModelError>)
    ensures
        res matches Ok(x) ==> ts_meta_attribute_of(*n, x),
        res is Err ==> forall|x: MetaAttribute| !ts_meta_attribute_of(*n, x),
{
    let mut children = TSNode::from_cursor(n).into_children();
    let name = children.next_field(fields::NAME)?.try_into_text_anchor()?;
    children.skip_terminal(symbols::COLON)?;
    let x = children.next_field(fields::VALUE)?;
    proof {
        assert(*x.node == item(*n, 2));
    }
    let value = match meta_anchor_of(x) {
        Ok(a) => a,
        Err(e) => {
            proof {
                assert forall|y: MetaAttribute| !ts_meta_attribute_of(*n, y) by {
                    assert(!ts_meta_value_of(item(*n, 2), y.value.element));
                }
            }
            return Err(e);
        },
    };
    children.drain(false)?;
    Ok(MetaAttribute { name, value })
}

/// The metadata attributes built from the items of the block of `m` in braces.
fn meta_attributes_of_node(m: &TsSyntaxNode) -> (res: Result<Vec<Anchor<MetaAttribute>>, ModelError>)
    ensures
        res matches Ok(v) ==> ts_meta_attributes_of(*m, v@),
        res is Err ==> forall|v: Seq<Anchor<MetaAttribute>>| !ts_meta_attributes_of(*m, v),
{
    proof {
        lemma_rem_block_range(m.children@, BlockEnds::Braces, BlockDelim::NoDelim);
    }
    let ghost cs = m.children@;
    let ghost r = rem_block(cs, BlockEnds::Braces, BlockDelim::NoDelim);
    let mut it = TSNode::from_cursor(m).into_block(BlockEnds::Braces, BlockDelim::NoDelim);
    let mut v: Vec<Anchor<MetaAttribute>> = Vec::new();
    loop
        invariant
            it.wf(),
            it.children@ == cs,
            cs == m.children@,
            r == rem_block(cs, BlockEnds::Braces, BlockDelim::NoDelim),
            forall|k: int| 0 <= k < r.0.len() ==> 0 <= #[trigger] r.0[k] < cs.len(),
            v@.len() <= r.0.len(),
            it.remaining() == (r.0.skip(v@.len() as int), r.1),
            forall|k: int|
                0 <= k < v@.len() ==> (#[trigger] v@[k]).span == cs[r.0[k]].span && ts_meta_attribute_of(
                    cs[r.0[k]],
                    v@[k].element,
                ),
        ensures
            r.1,
            v@.len() == r.0.len(),
            forall|k: int|
                0 <= k < v@.len() ==> (#[trigger] v@[k]).span == cs[r.0[k]].span && ts_meta_attribute_of(
                    cs[r.0[k]],
                    v@[k].element,
                ),
        decreases r.0.len() - v@.len(),
    {
        let ghost len = v@.len() as int;
        proof {
            if len < r.0.len() {
                assert(r.0.skip(len)[0] == r.0[len]);
                assert(r.0.skip(len).drop_first() =~= r.0.skip(len + 1));
            }
        }
        match it.next() {
            Some(Ok(t)) => {
                proof {
                    assert(*t.node == cs[r.0[len]]);
                }
                let span = t.as_span();
                match meta_attribute_of_node(t.node) {
                    Ok(x) => v.push(Anchor::new(x, span)),
                    Err(e) => {
                        proof {
                            assert forall|w: Seq<Anchor<MetaAttribute>>| !ts_meta_attributes_of(*m, w) by {
                                if ts_meta_attributes_of(*m, w) {
                                    assert(w[len].span == cs[r.0[len]].span);
                                    assert(!ts_meta_attribute_of(cs[r.0[len]], w[len].element));
                                }
                            }
                        }
                        return Err(e);
                    },
                }
            },
            Some(Err(e)) => {
                return Err(e);
            },
            None => {
                break ;
            },
        }
    }
    proof {
        assert(ts_meta_attributes_of(*m, v@));
    }
    Ok(v)
}

/// The attributes of a metadata section built from `n`: the keyword `word`, then its
/// attributes in braces.
fn meta_section_of_node(n: &TsSyntaxNode, word: &str) -> (res: Result<Vec<Anchor<MetaAttribute>>, ModelError>)
    ensures
        res matches Ok(v) ==> ts_meta_section_of(*n, word@, v@),
        res is Err ==> forall|v: Seq<Anchor<MetaAttribute>>| !ts_meta_section_of(*n, word@, v),
{
    let mut children = TSNode::from_cursor(n).into_children();
    children.skip_terminal(word)?;
    let list = children.next_field(fields::ATTRIBUTES)?;
    proof {
        assert(*list.node == item(*n, 1));
    }
    let attributes = match meta_attributes_of_node(list.node) {
        Ok(v) => v,
        Err(e) => {
            proof {
                assert forall|y: Seq<Anchor<MetaAttribute>>| !ts_meta_section_of(*n, word@, y) by {
                    assert(!ts_meta_attributes_of(item(*n, 1), y));
                }
            }
            return Err(e);
        },
    };
    children.drain(false)?;
    Ok(attributes)
}

/// The metadata section built from a node: `meta`, then its attributes in braces.
pub fn try_into_meta(node: TSNode) -> (res: Result<Meta, ModelError>)
    ensures
        res matches Ok(x) ==> ts_meta_section_of(*node.node, keywords::META@, x.attributes@),
        res is Err ==> forall|v: Seq<Anchor<MetaAttribute>>| !ts_meta_section_of(*node.node, keywords::META@, v),
{
    Ok(Meta { attributes: meta_section_of_node(node.node, keywords::META)? })
}

/// The parameter metadata section built from a node: `parameter_meta`, then its attributes in
/// braces.
pub fn try_into_parameter_meta(node: TSNode) -> (res: Result<ParameterMeta, ModelError>)
    ensures
        res matches Ok(x) ==> ts_meta_section_of(*node.node, keywords::PARAMETER_META@, x.attributes@),
        res is Err ==> forall|v: Seq<Anchor<MetaAttribute>>| !ts_meta_section_of(*node.node, keywords::PARAMETER_META@, v),
{
    Ok(ParameterMeta { attributes: meta_section_of_node(node.node, keywords::PARAMETER_META)? })
}

} // verus!
