//! Building tasks from their matches in the parse tree.
use crate::model::{
    Anchor, Command, InnerSpan, ModelError, Runtime, RuntimeAttribute, Task, TaskElement,
};
use crate::parsers::pest::declarations::{
    bound_declaration_of, bound_declaration_ok, bound_declarations_of, bound_declarations_ok,
    input_declarations_of, input_declarations_ok, try_into_bound_declaration, try_into_input,
    try_into_output,
};
use crate::parsers::pest::expression_specs::{
    expr_anchor_of, expr_anchor_ok, string_parts_of, string_parts_ok,
};
use crate::parsers::pest::expressions::{collect_string_parts, try_into_expression_anchor};
use crate::parsers::pest::meta::{
    meta_attributes_of, meta_attributes_ok, try_into_meta, try_into_parameter_meta,
};
use crate::parsers::pest::node::{
    has_vis, hidden, is_hidden, lemma_vpos, vcount, vis, vpos, PestNode, PestNodes,
};
use crate::parsers::pest::primitives::{text_anchor_of, try_into_text_anchor};
use crate::parsers::pest::rules::WdlRule;
use crate::parsers::pest::tree::SyntaxNode;
use crate::text::owned;
use vstd::prelude::*;

verus! {

/// A command section can be built from `n`: from the parts of its first nested match.
pub open spec fn command_ok(n: SyntaxNode) -> bool {
    has_vis(n, 0) && string_parts_ok(vis(n, 0).children@, 0)
}

/// `c` is the command section built from `n`.
pub open spec fn command_of(n: SyntaxNode, c: Command) -> bool {
    string_parts_of(vis(n, 0).children@, 0, c.parts@)
}

/// A runtime attribute can be built from `n`.
pub open spec fn runtime_attribute_ok(n: SyntaxNode) -> bool {
    has_vis(n, 0) && has_vis(n, 1) && expr_anchor_ok(vis(n, 1))
}

/// `a` is the runtime attribute built from `n`: a name, then an expression.
pub open spec fn runtime_attribute_of(n: SyntaxNode, a: RuntimeAttribute) -> bool {
    text_anchor_of(vis(n, 0), a.name) && expr_anchor_of(vis(n, 1), a.expression)
}

/// Every match of `cs` from `i` on that is not hidden becomes a runtime attribute.
pub open spec fn runtime_attributes_ok(cs: Seq<SyntaxNode>, i: int) -> bool {
    forall|j: int| #![trigger cs[j]] 0 <= i <= j < cs.len() && !hidden(cs[j]) ==> runtime_attribute_ok(cs[j])
}

/// `v` holds, in order, the runtime attributes built from the matches of `cs` from `i` on that
/// are not hidden, each anchored to the span from its name to its expression.
pub open spec fn runtime_attributes_of(
    cs: Seq<SyntaxNode>,
    i: int,
    v: Seq<Anchor<RuntimeAttribute>>,
) -> bool {
    &&& v.len() == vcount(cs, i, cs.len() as int)
    &&& forall|j: int| #![trigger cs[j]] 0 <= i <= j < cs.len() && !hidden(cs[j]) ==> {
        &&& runtime_attribute_of(cs[j], v[vcount(cs, i, j) as int].element)
        &&& Some(v[vcount(cs, i, j) as int].span) == v[vcount(cs, i, j) as int].element.inner_span()
    }
}

/// An element of a task's body can be built from `n`.
pub open spec fn task_element_ok(n: SyntaxNode) -> bool {
    match n.rule {
        WdlRule::input => input_declarations_ok(n.children@, 0),
        WdlRule::output => bound_declarations_ok(n.children@, 0),
        WdlRule::bound_declaration => bound_declaration_ok(n),
        WdlRule::meta => meta_attributes_ok(n.children@, 0),
        WdlRule::parameter_meta => meta_attributes_ok(n.children@, 0),
        WdlRule::command => command_ok(n),
        WdlRule::runtime => runtime_attributes_ok(n.children@, 0),
        _ => false,
    }
}

/// `e` is the element of a task's body built from `n`.
pub open spec fn task_element_of(n: SyntaxNode, e: TaskElement) -> bool {
    match n.rule {
        WdlRule::input => e matches TaskElement::Input(x) && input_declarations_of(
            n.children@,
            0,
            x.declarations@,
        ),
        WdlRule::output => e matches TaskElement::Output(x) && bound_declarations_of(
            n.children@,
            0,
            x.declarations@,
        ),
        WdlRule::bound_declaration => e matches TaskElement::Declaration(x)
            && bound_declaration_of(n, x),
        WdlRule::meta => e matches TaskElement::Meta(x) && meta_attributes_of(
            n.children@,
            0,
            x.attributes@,
        ),
        WdlRule::parameter_meta => e matches TaskElement::ParameterMeta(x) && meta_attributes_of(
            n.children@,
            0,
            x.attributes@,
        ),
        WdlRule::command => e matches TaskElement::Command(x) && command_of(n, x),
        _ => e matches TaskElement::Runtime(x) && runtime_attributes_of(
            n.children@,
            0,
            x.attributes@,
        ),
    }
}

/// Every match of `cs` from `i` on that is not hidden becomes an element of a task's body.
pub open spec fn task_elements_ok(cs: Seq<SyntaxNode>, i: int) -> bool {
    forall|j: int| #![trigger cs[j]] 0 <= i <= j < cs.len() && !hidden(cs[j]) ==> task_element_ok(cs[j])
}

/// `v` holds, in order, the elements built from the matches of `cs` from `i` on that are not
/// hidden, each anchored to its match's span.
pub open spec fn task_elements_of(cs: Seq<SyntaxNode>, i: int, v: Seq<Anchor<TaskElement>>) -> bool {
    &&& v.len() == vcount(cs, i, cs.len() as int)
    &&& forall|j: int| #![trigger cs[j]] 0 <= i <= j < cs.len() && !hidden(cs[j]) ==> {
        &&& v[vcount(cs, i, j) as int].span == cs[j].span
        &&& task_element_of(cs[j], v[vcount(cs, i, j) as int].element)
    }
}

/// A task can be built from `n`.
pub open spec fn task_ok(n: SyntaxNode) -> bool {
    has_vis(n, 0) && task_elements_ok(n.children@, vpos(n, 0) + 1)
}

/// `t` is the task built from `n`: a name, then the elements of its body.
pub open spec fn task_of(n: SyntaxNode, t: Task) -> bool {
    text_anchor_of(vis(n, 0), t.name) && task_elements_of(n.children@, vpos(n, 0) + 1, t.body@)
}

/// A command section: the parts of its command text, each anchored to its span.
pub fn try_into_command(node: PestNode) -> (res: Result<Command, ModelError>)
    ensures
        res is Ok <==> command_ok(*node.pair),
        res matches Ok(c) ==> command_of(*node.pair, c),
{
    proof {
        lemma_vpos(*node.pair, 0);
    }
    let inner = node.one_inner()?;
    Ok(Command { parts: collect_string_parts(inner.into_inner())? })
}

/// A runtime attribute: a name, then an expression.
pub fn try_into_runtime_attribute(node: PestNode) -> (res: Result<RuntimeAttribute, ModelError>)
    ensures
        res is Ok <==> runtime_attribute_ok(*node.pair),
        res matches Ok(a) ==> runtime_attribute_of(*node.pair, a),
{
    proof {
        lemma_vpos(*node.pair, 0);
        lemma_vpos(*node.pair, 1);
    }
    let mut inner = node.into_inner();
    let name_node = inner.next_node()?;
    let expression_node = inner.next_node()?;
    let expression = try_into_expression_anchor(expression_node)?;
    Ok(RuntimeAttribute { name: try_into_text_anchor(name_node), expression })
}

/// A runtime section: its attributes, each anchored to its inner span.
pub fn try_into_runtime(node: PestNode) -> (res: Result<Runtime, ModelError>)
    ensures
        res is Ok <==> runtime_attributes_ok(node.pair.children@, 0),
        res matches Ok(x) ==> runtime_attributes_of(node.pair.children@, 0, x.attributes@),
{
    let nodes = node.into_inner();
    let cs = nodes.pairs;
    let mut v: Vec<Anchor<RuntimeAttribute>> = Vec::new();
    let mut j: usize = 0;
    while j < cs.len()
        invariant
            cs == nodes.pairs,
            cs@ == node.pair.children@,
            0 <= j <= cs@.len(),
            v@.len() == vcount(cs@, 0, j as int),
            forall|k: int|
                #![trigger cs@[k]]
                0 <= k < j && !hidden(cs@[k]) ==> {
                    &&& vcount(cs@, 0, k) < v@.len()
                    &&& runtime_attribute_ok(cs@[k])
                    &&& runtime_attribute_of(cs@[k], v@[vcount(cs@, 0, k) as int].element)
                    &&& Some(v@[vcount(cs@, 0, k) as int].span) == v@[vcount(
                        cs@,
                        0,
                        k,
                    ) as int].element.inner_span()
                },
        decreases cs@.len() - j,
    {
        if !is_hidden(&cs[j]) {
            match try_into_runtime_attribute(PestNode::new(&cs[j])) {
                Ok(a) => {
                    let span = match a.get_inner_span() {
                        Some(s) => s,
                        None => {
                            return Err(ModelError::parser(owned("element has no inner span")));
                        },
                    };
                    v.push(Anchor::new(a, span));
                },
                Err(e) => {
                    assert(!runtime_attribute_ok(cs@[j as int]));
                    return Err(e);
                },
            }
        }
        j = j + 1;
    }
    Ok(Runtime { attributes: v })
}

/// An element of a task's body.
pub fn try_into_task_element(node: PestNode) -> (res: Result<TaskElement, ModelError>)
    ensures
        res is Ok <==> task_element_ok(*node.pair),
        res matches Ok(e) ==> task_element_of(*node.pair, e),
{
    match node.as_rule() {
        WdlRule::input => Ok(TaskElement::Input(try_into_input(node)?)),
        WdlRule::output => Ok(TaskElement::Output(try_into_output(node)?)),
        WdlRule::bound_declaration => Ok(TaskElement::Declaration(try_into_bound_declaration(node)?)),
        WdlRule::meta => Ok(TaskElement::Meta(try_into_meta(node)?)),
        WdlRule::parameter_meta => Ok(TaskElement::ParameterMeta(try_into_parameter_meta(node)?)),
        WdlRule::command => Ok(TaskElement::Command(try_into_command(node)?)),
        WdlRule::runtime => Ok(TaskElement::Runtime(try_into_runtime(node)?)),
        _ => Err(ModelError::parser(owned("Invalid task element"))),
    }
}

/// A task: a name, then the elements of its body, each anchored to its span.
pub fn try_into_task(node: PestNode) -> (res: Result<Task, ModelError>)
    ensures
        res is Ok <==> task_ok(*node.pair),
        res matches Ok(t) ==> task_of(*node.pair, t),
{
    proof {
        lemma_vpos(*node.pair, 0);
    }
    let mut inner = node.into_inner();
    let name_node = inner.next_node()?;
    let cs = inner.pairs;
    let start = inner.index;
    let mut v: Vec<Anchor<TaskElement>> = Vec::new();
    let mut j = start;
    while j < cs.len()
        invariant
            cs@ == node.pair.children@,
            start == vpos(*node.pair, 0) + 1,
            start <= j <= cs@.len(),
            v@.len() == vcount(cs@, start as int, j as int),
            forall|k: int|
                #![trigger cs@[k]]
                start <= k < j && !hidden(cs@[k]) ==> {
                    &&& vcount(cs@, start as int, k) < v@.len()
                    &&& task_element_ok(cs@[k])
                    &&& v@[vcount(cs@, start as int, k) as int].span == cs@[k].span
                    &&& task_element_of(cs@[k], v@[vcount(cs@, start as int, k) as int].element)
                },
        decreases cs@.len() - j,
    {
        if !is_hidden(&cs[j]) {
            let element_node = PestNode::new(&cs[j]);
            match try_into_task_element(element_node) {
                Ok(e) => v.push(Anchor::new(e, element_node.as_span())),
                Err(e) => {
                    assert(!task_element_ok(cs@[j as int]));
                    return Err(e);
                },
            }
        }
        j = j + 1;
    }
    Ok(Task { name: try_into_text_anchor(name_node), body: v })
}

} // verus!
