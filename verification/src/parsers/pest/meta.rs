//! Building metadata sections from their matches in the parse tree.
use crate::model::{
    has_exponent_letter, integer_text, is_float_text, negated_text, Anchor, Float, Integer, Meta, MetaArray,
    MetaAttribute, MetaObject, MetaObjectField, MetaString, MetaStringPart, MetaValue,
    ModelError, ParameterMeta,
};
use crate::parsers::pest::expression_specs::is_int_rule;
use crate::parsers::pest::node::{
    has_vis, hidden, is_hidden, lemma_vpos, vcount, vis, vpos, PestNode, PestNodes,
};
use crate::parsers::pest::primitives::{
    bool_text, float_of, text_anchor_of, try_into_bool, try_into_float, try_into_integer,
    try_into_text_anchor,
};
use crate::parsers::pest::rules::WdlRule;
use crate::parsers::pest::tree::SyntaxNode;
use crate::text::owned;
use vstd::prelude::*;

verus! {

/// A number can be built from `n`, negated if `negate`. A negated integer must not be
/// `i64::MIN`, whose negation does not fit.
pub open spec fn meta_number_ok(n: SyntaxNode, negate: bool) -> bool {
    if is_int_rule(n.rule) {
        integer_text(n.text@) matches Some(i) && (negate ==> i.value() != i64::MIN)
    } else {
        n.rule == WdlRule::float && is_float_text(n.text@)
    }
}

/// `v` is the number built from `n`, negated if `negate`.
pub open spec fn meta_number_of(n: SyntaxNode, negate: bool, v: MetaValue) -> bool {
    if is_int_rule(n.rule) {
        integer_text(n.text@) matches Some(i) && v == MetaValue::Int(
            if negate {
                i.with_value((-i.value()) as i64)
            } else {
                i
            },
        )
    } else {
        v matches MetaValue::Float(f) && if negate {
            f.text() == negated_text(n.text@) && (f is Scientific <==> has_exponent_letter(n.text@))
        } else {
            float_of(n.text@, f)
        }
    }
}

pub open spec fn is_meta_content_rule(r: WdlRule) -> bool {
    r == WdlRule::simple_squote_literal || r == WdlRule::simple_dquote_literal
}

pub open spec fn is_meta_escape_rule(r: WdlRule) -> bool {
    r == WdlRule::simple_squote_escape_sequence || r == WdlRule::simple_dquote_escape_sequence
}

/// `p` is the part of a metadata string built from `n`.
pub open spec fn meta_string_part_of(n: SyntaxNode, p: MetaStringPart) -> bool {
    if is_meta_content_rule(n.rule) {
        p matches MetaStringPart::Content(s) && s@ == n.text@
    } else {
        p matches MetaStringPart::Escape(s) && s@ == n.text@
    }
}

/// Every match of `cs` from `i` on that is not hidden becomes a part of a metadata string.
pub open spec fn meta_string_parts_ok(cs: Seq<SyntaxNode>, i: int) -> bool {
    forall|j: int| #![trigger cs[j]] 0 <= i <= j < cs.len() && !hidden(cs[j]) ==> (
    is_meta_content_rule(cs[j].rule) || is_meta_escape_rule(cs[j].rule))
}

/// `v` holds, in order, the parts built from the matches of `cs` from `i` on that are not
/// hidden, each anchored to its match's span.
pub open spec fn meta_string_parts_of(
    cs: Seq<SyntaxNode>,
    i: int,
    v: Seq<Anchor<MetaStringPart>>,
) -> bool {
    &&& v.len() == vcount(cs, i, cs.len() as int)
    &&& forall|j: int| #![trigger cs[j]] 0 <= i <= j < cs.len() && !hidden(cs[j]) ==> {
        &&& v[vcount(cs, i, j) as int].span == cs[j].span
        &&& meta_string_part_of(cs[j], v[vcount(cs, i, j) as int].element)
    }
}

/// A metadata value can be built from `n`.
pub open spec fn meta_value_ok(n: SyntaxNode) -> bool
    decreases n, 3nat,
{
    proof {
        lemma_vpos(n, 0);
        lemma_vpos(n, 1);
    }
    if n.rule == WdlRule::null {
        true
    } else if n.rule == WdlRule::boolean {
        bool_text(n.text@) is Some
    } else if n.rule == WdlRule::meta_number {
        has_vis(n, 0) && if vis(n, 0).rule == WdlRule::pos || vis(n, 0).rule == WdlRule::neg {
            has_vis(n, 1) && meta_number_ok(vis(n, 1), vis(n, 0).rule == WdlRule::neg)
        } else {
            meta_number_ok(vis(n, 0), false)
        }
    } else if n.rule == WdlRule::simple_dquote_string || n.rule == WdlRule::simple_squote_string {
        meta_string_parts_ok(n.children@, 0)
    } else if n.rule == WdlRule::meta_array {
        meta_values_ok(n.children@, 0)
    } else {
        n.rule == WdlRule::meta_object && meta_object_fields_ok(n.children@, 0)
    }
}

/// `v` is the metadata value built from `n`.
pub open spec fn meta_value_of(n: SyntaxNode, v: MetaValue) -> bool
    decreases n, 3nat,
{
    proof {
        lemma_vpos(n, 0);
        lemma_vpos(n, 1);
    }
    if n.rule == WdlRule::null {
        v == MetaValue::Null
    } else if n.rule == WdlRule::boolean {
        v matches MetaValue::Boolean(b) && bool_text(n.text@) == Some(b)
    } else if n.rule == WdlRule::meta_number {
        has_vis(n, 0) && if vis(n, 0).rule == WdlRule::pos || vis(n, 0).rule == WdlRule::neg {
            has_vis(n, 1) && meta_number_of(vis(n, 1), vis(n, 0).rule == WdlRule::neg, v)
        } else {
            meta_number_of(vis(n, 0), false, v)
        }
    } else if n.rule == WdlRule::simple_dquote_string || n.rule == WdlRule::simple_squote_string {
        v matches MetaValue::String(s) && meta_string_parts_of(n.children@, 0, s.parts@)
    } else if n.rule == WdlRule::meta_array {
        v matches MetaValue::Array(a) && meta_values_of(n.children@, 0, a.elements@)
    } else {
        v matches MetaValue::Object(o) && meta_object_fields_of(n.children@, 0, o.fields@)
    }
}

/// A field of a metadata object (or a metadata attribute) can be built from `n`.
pub open spec fn meta_field_ok(n: SyntaxNode) -> bool
    decreases n, 3nat,
{
    proof {
        lemma_vpos(n, 0);
        lemma_vpos(n, 1);
    }
    has_vis(n, 0) && has_vis(n, 1) && meta_value_ok(vis(n, 1))
}

/// `name` and `value` are the name and the value built from `n`, a field of a metadata object
/// or a metadata attribute.
pub open spec fn meta_field_of(n: SyntaxNode, name: Anchor<String>, value: Anchor<MetaValue>) -> bool
    decreases n, 3nat,
{
    proof {
        lemma_vpos(n, 0);
        lemma_vpos(n, 1);
    }
    &&& has_vis(n, 0) && has_vis(n, 1)
    &&& text_anchor_of(vis(n, 0), name)
    &&& value.span == vis(n, 1).span
    &&& meta_value_of(vis(n, 1), value.element)
}

/// Every match of `cs` from `i` on that is not hidden becomes a metadata value.
pub open spec fn meta_values_ok(cs: Seq<SyntaxNode>, i: int) -> bool
    decreases cs, 2nat,
{
    forall|j: int| #![trigger cs[j]] 0 <= i <= j < cs.len() && !hidden(cs[j]) ==> meta_value_ok(cs[j])
}

/// `v` holds, in order, the metadata values built from the matches of `cs` from `i` on that are
/// not hidden, each anchored to its match's span.
pub open spec fn meta_values_of(cs: Seq<SyntaxNode>, i: int, v: Seq<Anchor<MetaValue>>) -> bool
    decreases cs, 2nat,
{
    &&& v.len() == vcount(cs, i, cs.len() as int)
    &&& forall|j: int| #![trigger cs[j]] 0 <= i <= j < cs.len() && !hidden(cs[j]) ==> {
        &&& v[vcount(cs, i, j) as int].span == cs[j].span
        &&& meta_value_of(cs[j], v[vcount(cs, i, j) as int].element)
    }
}

/// Every match of `cs` from `i` on that is not hidden becomes a field of a metadata object.
pub open spec fn meta_object_fields_ok(cs: Seq<SyntaxNode>, i: int) -> bool
    decreases cs, 2nat,
{
    forall|j: int| #![trigger cs[j]] 0 <= i <= j < cs.len() && !hidden(cs[j]) ==> meta_field_ok(cs[j])
}

/// `v` holds, in order, the fields built from the matches of `cs` from `i` on that are not
/// hidden, each anchored to its match's span.
pub open spec fn meta_object_fields_of(
    cs: Seq<SyntaxNode>,
    i: int,
    v: Seq<Anchor<MetaObjectField>>,
) -> bool
    decreases cs, 2nat,
{
    &&& v.len() == vcount(cs, i, cs.len() as int)
    &&& forall|j: int| #![trigger cs[j]] 0 <= i <= j < cs.len() && !hidden(cs[j]) ==> {
        &&& v[vcount(cs, i, j) as int].span == cs[j].span
        &&& meta_field_of(
            cs[j],
            v[vcount(cs, i, j) as int].element.name,
            v[vcount(cs, i, j) as int].element.value,
        )
    }
}

/// Every match of `cs` from `i` on that is not hidden becomes a metadata attribute.
pub open spec fn meta_attributes_ok(cs: Seq<SyntaxNode>, i: int) -> bool {
    forall|j: int| #![trigger cs[j]] 0 <= i <= j < cs.len() && !hidden(cs[j]) ==> meta_field_ok(cs[j])
}

/// `v` holds, in order, the metadata attributes built from the matches of `cs` from `i` on that
/// are not hidden, each anchored to its match's span.
pub open spec fn meta_attributes_of(cs: Seq<SyntaxNode>, i: int, v: Seq<Anchor<MetaAttribute>>) -> bool {
    &&& v.len() == vcount(cs, i, cs.len() as int)
    &&& forall|j: int| #![trigger cs[j]] 0 <= i <= j < cs.len() && !hidden(cs[j]) ==> {
        &&& v[vcount(cs, i, j) as int].span == cs[j].span
        &&& meta_field_of(
            cs[j],
            v[vcount(cs, i, j) as int].element.name,
            v[vcount(cs, i, j) as int].element.value,
        )
    }
}

/// A number, negated if `negate`: an integer or a float literal.
fn pest_meta_number(node: PestNode, negate: bool) -> (res: Result<MetaValue, ModelError>)
    ensures
        res is Ok <==> meta_number_ok(*node.pair, negate),
        res matches Ok(v) ==> meta_number_of(*node.pair, negate, v),
{
    let rule = node.as_rule();
    if rule == WdlRule::dec_int || rule == WdlRule::hex_int || rule == WdlRule::oct_int {
        let i = try_into_integer(node)?;
        if negate {
            let value = match &i {
                Integer::Decimal(x) => *x,
                Integer::Octal(x) => *x,
                Integer::Hex(x) => *x,
            };
            if value == i64::MIN {
                return Err(ModelError::Integer(node.pair.text.clone()));
            }
            Ok(MetaValue::Int(i.negate()))
        } else {
            Ok(MetaValue::Int(i))
        }
    } else if rule == WdlRule::float {
        let f = try_into_float(node)?;
        if negate {
            Ok(MetaValue::Float(f.negate()))
        } else {
            Ok(MetaValue::Float(f))
        }
    } else {
        Err(ModelError::parser(owned("Invalid number")))
    }
}

/// A part of a metadata string: literal text or an escape sequence.
pub fn try_into_meta_string_part(node: PestNode) -> (res: Result<MetaStringPart, ModelError>)
    ensures
        res is Ok <==> is_meta_content_rule(node.pair.rule) || is_meta_escape_rule(node.pair.rule),
        res matches Ok(p) ==> meta_string_part_of(*node.pair, p),
{
    let rule = node.as_rule();
    if rule == WdlRule::simple_squote_literal || rule == WdlRule::simple_dquote_literal {
        Ok(MetaStringPart::Content(node.pair.text.clone()))
    } else if rule == WdlRule::simple_squote_escape_sequence || rule
        == WdlRule::simple_dquote_escape_sequence {
        Ok(MetaStringPart::Escape(node.pair.text.clone()))
    } else {
        Err(ModelError::parser(owned("Invalid meta string part")))
    }
}

/// A metadata string: its parts, each anchored to its span.
pub fn try_into_meta_string(node: PestNode) -> (res: Result<MetaString, ModelError>)
    ensures
        res is Ok <==> meta_string_parts_ok(node.pair.children@, 0),
        res matches Ok(x) ==> meta_string_parts_of(node.pair.children@, 0, x.parts@),
{
    let nodes = node.into_inner();
    let cs = nodes.pairs;
    let mut v: Vec<Anchor<MetaStringPart>> = Vec::new();
    let mut j: usize = 0;
    while j < cs.len()
        invariant
            cs == nodes.pairs,
            cs@ == node.pair.children@,
            0 <= j <= cs@.len(),
            v@.len() == vcount(cs@, 0, j as int),
            forall|k: int|
                #![trigger cs@[k]]
                0 <= k < j && !hidden(cs@[k]) ==> {
                    &&& vcount(cs@, 0, k) < v@.len()
                    &&& (is_meta_content_rule(cs@[k].rule) || is_meta_escape_rule(cs@[k].rule))
                    &&& v@[vcount(cs@, 0, k) as int].span == cs@[k].span
                    &&& meta_string_part_of(cs@[k], v@[vcount(cs@, 0, k) as int].element)
                },
        decreases cs@.len() - j,
    {
        if !is_hidden(&cs[j]) {
            let part_node = PestNode::new(&cs[j]);
            match try_into_meta_string_part(part_node) {
                Ok(p) => v.push(Anchor::new(p, part_node.as_span())),
                Err(e) => {
                    assert(!(is_meta_content_rule(nodes.pairs@[j as int].rule)
                        || is_meta_escape_rule(nodes.pairs@[j as int].rule)));
                    return Err(e);
                },
            }
        }
        j = j + 1;
    }
    Ok(MetaString { parts: v })
}

/// Builds the metadata values of the nested matches from the iterator's position on, each
/// anchored to its match's span.
fn collect_meta_values(nodes: PestNodes) -> (res: Result<Vec<Anchor<MetaValue>>, ModelError>)
    requires
        nodes.index <= nodes.pairs@.len(),
    ensures
        res is Ok <==> meta_values_ok(nodes.pairs@, nodes.index as int),
        res matches Ok(v) ==> meta_values_of(nodes.pairs@, nodes.index as int, v@),
    decreases nodes.pairs@, 2nat,
{
    let cs = nodes.pairs;
    let start = nodes.index;
    let mut v: Vec<Anchor<MetaValue>> = Vec::new();
    let mut j = start;
    while j < cs.len()
        invariant
            cs == nodes.pairs,
            start == nodes.index,
            start <= j <= cs@.len(),
            v@.len() == vcount(cs@, start as int, j as int),
            forall|k: int|
                #![trigger cs@[k]]
                start <= k < j && !hidden(cs@[k]) ==> {
                    &&& vcount(cs@, start as int, k) < v@.len()
                    &&& meta_value_ok(cs@[k])
                    &&& v@[vcount(cs@, start as int, k) as int].span == cs@[k].span
                    &&& meta_value_of(cs@[k], v@[vcount(cs@, start as int, k) as int].element)
                },
        decreases cs@.len() - j,
    {
        if !is_hidden(&cs[j]) {
            proof {
                assert(decreases_to!(nodes.pairs@ => nodes.pairs@[j as int]));
            }
            let node = PestNode::new(&cs[j]);
            match try_into_meta_value(node) {
                Ok(x) => v.push(Anchor::new(x, node.as_span())),
                Err(e) => {
                    assert(!meta_value_ok(nodes.pairs@[j as int]));
                    return Err(e);
                },
            }
        }
        j = j + 1;
    }
    Ok(v)
}

/// Builds the fields of a metadata object from the nested matches from the iterator's position
/// on, each anchored to its match's span.
fn collect_meta_object_fields(nodes: PestNodes) -> (res: Result<
    Vec<Anchor<MetaObjectField>>,
    ModelError,
>)
    requires
        nodes.index <= nodes.pairs@.len(),
    ensures
        res is Ok <==> meta_object_fields_ok(nodes.pairs@, nodes.index as int),
        res matches Ok(v) ==> meta_object_fields_of(nodes.pairs@, nodes.index as int, v@),
    decreases nodes.pairs@, 2nat,
{
    let cs = nodes.pairs;
    let start = nodes.index;
    let mut v: Vec<Anchor<MetaObjectField>> = Vec::new();
    let mut j = start;
    while j < cs.len()
        invariant
            cs == nodes.pairs,
            start == nodes.index,
            start <= j <= cs@.len(),
            v@.len() == vcount(cs@, start as int, j as int),
            forall|k: int|
                #![trigger cs@[k]]
                start <= k < j && !hidden(cs@[k]) ==> {
                    &&& vcount(cs@, start as int, k) < v@.len()
                    &&& meta_field_ok(cs@[k])
                    &&& v@[vcount(cs@, start as int, k) as int].span == cs@[k].span
                    &&& meta_field_of(
                        cs@[k],
                        v@[vcount(cs@, start as int, k) as int].element.name,
                        v@[vcount(cs@, start as int, k) as int].element.value,
                    )
                },
        decreases cs@.len() - j,
    {
        if !is_hidden(&cs[j]) {
            proof {
                assert(decreases_to!(nodes.pairs@ => nodes.pairs@[j as int]));
            }
            let node = PestNode::new(&cs[j]);
            match try_into_meta_object_field(node) {
                Ok(x) => v.push(Anchor::new(x, node.as_span())),
                Err(e) => {
                    assert(!meta_field_ok(nodes.pairs@[j as int]));
                    return Err(e);
                },
            }
        }
        j = j + 1;
    }
    Ok(v)
}

/// A metadata array: its elements, each anchored to its span.
pub fn try_into_meta_array(node: PestNode) -> (res: Result<MetaArray, ModelError>)
    ensures
        res is Ok <==> meta_values_ok(node.pair.children@, 0),
        res matches Ok(x) ==> meta_values_of(node.pair.children@, 0, x.elements@),
    decreases node.pair, 3nat,
{
    Ok(MetaArray { elements: collect_meta_values(node.into_inner())? })
}

/// A metadata object: its fields, each anchored to its span.
pub fn try_into_meta_object(node: PestNode) -> (res: Result<MetaObject, ModelError>)
    ensures
        res is Ok <==> meta_object_fields_ok(node.pair.children@, 0),
        res matches Ok(x) ==> meta_object_fields_of(node.pair.children@, 0, x.fields@),
    decreases node.pair, 3nat,
{
    Ok(MetaObject { fields: collect_meta_object_fields(node.into_inner())? })
}

/// A field of a metadata object: its name and its value.
pub fn try_into_meta_object_field(node: PestNode) -> (res: Result<MetaObjectField, ModelError>)
    ensures
        res is Ok <==> meta_field_ok(*node.pair),
        res matches Ok(x) ==> meta_field_of(*node.pair, x.name, x.value),
    decreases node.pair, 3nat,
{
    let n = node.pair;
    proof {
        lemma_vpos(*n, 0);
        lemma_vpos(*n, 1);
    }
    let mut inner = node.into_inner();
    let name_node = inner.next_node()?;
    let value_node = inner.next_node()?;
    proof {
        assert(decreases_to!(n => n.children@[vpos(*n, 1)]));
    }
    let value = try_into_meta_value(value_node)?;
    Ok(
        MetaObjectField {
            name: try_into_text_anchor(name_node),
            value: Anchor::new(value, value_node.as_span()),
        },
    )
}

/// A metadata value.
pub fn try_into_meta_value(node: PestNode) -> (res: Result<MetaValue, ModelError>)
    ensures
        res is Ok <==> meta_value_ok(*node.pair),
        res matches Ok(v) ==> meta_value_of(*node.pair, v),
    decreases node.pair, 4nat,
{
    let n = node.pair;
    proof {
        lemma_vpos(*n, 0);
        lemma_vpos(*n, 1);
    }
    let rule = node.as_rule();
    if rule == WdlRule::null {
        Ok(MetaValue::Null)
    } else if rule == WdlRule::boolean {
        Ok(MetaValue::Boolean(try_into_bool(node)?))
    } else if rule == WdlRule::meta_number {
        let mut inner = node.into_inner();
        let first_node = inner.next_node()?;
        let first_rule = first_node.as_rule();
        if first_rule == WdlRule::pos || first_rule == WdlRule::neg {
            let number_node = inner.next_node()?;
            pest_meta_number(number_node, first_rule == WdlRule::neg)
        } else {
            pest_meta_number(first_node, false)
        }
    } else if rule == WdlRule::simple_dquote_string || rule == WdlRule::simple_squote_string {
        Ok(MetaValue::String(try_into_meta_string(node)?))
    } else if rule == WdlRule::meta_array {
        Ok(MetaValue::Array(try_into_meta_array(node)?))
    } else if rule == WdlRule::meta_object {
        Ok(MetaValue::Object(try_into_meta_object(node)?))
    } else {
        Err(ModelError::parser(owned("Invalid meta value")))
    }
}

/// A metadata attribute: its name and its value.
pub fn try_into_meta_attribute(node: PestNode) -> (res: Result<MetaAttribute, ModelError>)
    ensures
        res is Ok <==> meta_field_ok(*node.pair),
        res matches Ok(x) ==> meta_field_of(*node.pair, x.name, x.value),
{
    proof {
        lemma_vpos(*node.pair, 0);
        lemma_vpos(*node.pair, 1);
    }
    let mut inner = node.into_inner();
    let name_node = inner.next_node()?;
    let value_node = inner.next_node()?;
    let value = try_into_meta_value(value_node)?;
    Ok(
        MetaAttribute {
            name: try_into_text_anchor(name_node),
            value: Anchor::new(value, value_node.as_span()),
        },
    )
}

/// Builds the metadata attributes of the nested matches from the iterator's position on, each
/// anchored to its match's span.
fn collect_meta_attributes(nodes: PestNodes) -> (res: Result<Vec<Anchor<MetaAttribute>>, ModelError>)
    requires
        nodes.index <= nodes.pairs@.len(),
    ensures
        res is Ok <==> meta_attributes_ok(nodes.pairs@, nodes.index as int),
        res matches Ok(v) ==> meta_attributes_of(nodes.pairs@, nodes.index as int, v@),
{
    let cs = nodes.pairs;
    let start = nodes.index;
    let mut v: Vec<Anchor<MetaAttribute>> = Vec::new();
    let mut j = start;
    while j < cs.len()
        invariant
            cs == nodes.pairs,
            start == nodes.index,
            start <= j <= cs@.len(),
            v@.len() == vcount(cs@, start as int, j as int),
            forall|k: int|
                #![trigger cs@[k]]
                start <= k < j && !hidden(cs@[k]) ==> {
                    &&& vcount(cs@, start as int, k) < v@.len()
                    &&& meta_field_ok(cs@[k])
                    &&& v@[vcount(cs@, start as int, k) as int].span == cs@[k].span
                    &&& meta_field_of(
                        cs@[k],
                        v@[vcount(cs@, start as int, k) as int].element.name,
                        v@[vcount(cs@, start as int, k) as int].element.value,
                    )
                },
        decreases cs@.len() - j,
    {
        if !is_hidden(&cs[j]) {
            let node = PestNode::new(&cs[j]);
            match try_into_meta_attribute(node) {
                Ok(x) => v.push(Anchor::new(x, node.as_span())),
                Err(e) => {
                    assert(!meta_field_ok(nodes.pairs@[j as int]));
                    return Err(e);
                },
            }
        }
        j = j + 1;
    }
    Ok(v)
}

/// A metadata section: its attributes, each anchored to its span.
pub fn try_into_meta(node: PestNode) -> (res: Result<Meta, ModelError>)
    ensures
        res is Ok <==> meta_attributes_ok(node.pair.children@, 0),
        res matches Ok(x) ==> meta_attributes_of(node.pair.children@, 0, x.attributes@),
{
    Ok(Meta { attributes: collect_meta_attributes(node.into_inner())? })
}

/// A parameter metadata section: its attributes, each anchored to its span.
pub fn try_into_parameter_meta(node: PestNode) -> (res: Result<ParameterMeta, ModelError>)
    ensures
        res is Ok <==> meta_attributes_ok(node.pair.children@, 0),
        res matches Ok(x) ==> meta_attributes_of(node.pair.children@, 0, x.attributes@),
{
    Ok(ParameterMeta { attributes: collect_meta_attributes(node.into_inner())? })
}

} // verus!
