//! Building tasks from the nodes of the tree-sitter syntax tree.
use crate::model::{Anchor, Command, ModelError, Runtime, RuntimeAttribute, Task, TaskElement};
use crate::parsers::tree_sitter::declarations::{
    bound_declaration_of_node, input_of_node, output_of_node, ts_bound_declaration_of, ts_input_of,
    ts_output_of,
};
use crate::parsers::tree_sitter::expressions::{
    parts_of_node, try_into_expression, ts_expression_of, ts_parts_of,
};
use crate::parsers::tree_sitter::meta::{try_into_meta, try_into_parameter_meta, ts_meta_section_of};
use crate::parsers::tree_sitter::node::{
    parser_error,
    is_field, is_terminal, item, items, lemma_rem_block_range, rem_block, BlockDelim, BlockEnds,
    TSNode,
};
use crate::parsers::tree_sitter::syntax::{fields, keywords, rules, symbols};
use crate::parsers::tree_sitter::tree::TsSyntaxNode;
use crate::text::{owned, str_eq};
use vstd::prelude::*;

verus! {

/// `c` is the command built from the node `n`: `command`, its opening symbol, then its parts
/// where the next item fills that field.
pub open spec fn ts_command_of(n: TsSyntaxNode, c: Command) -> bool {
    let r = items(n);
    &&& r.1 && r.0.len() >= 2 && is_terminal(item(n, 0), keywords::COMMAND@)
    &&& item(n, 1).text is Some
    &&& if r.0.len() >= 3 {
        is_field(item(n, 2), fields::PARTS@) && ts_parts_of(item(n, 2), c.parts@)
    } else {
        c.parts@.len() == 0
    }
}

/// The command built from `n`: `command`, its opening symbol, then its parts.
fn command_of_node(n: &TsSyntaxNode) -> (res: Result<Command, ModelError>)
    ensures
        res matches Ok(x) ==> ts_command_of(*n, x),
        res is Err ==> forall|x: Command| !ts_command_of(*n, x),
{
    let mut children = TSNode::from_cursor(n).into_children();
    children.skip_terminal(keywords::COMMAND)?;
    let _ = children.next_node()?.try_as_str()?;
    let parts = match children.get_next_field(fields::PARTS)? {
        Some(p) => {
            proof {
                assert(*p.node == item(*n, 2));
            }
            match parts_of_node(p.node) {
                Ok(v) => v,
                Err(e) => {
                    proof {
                        assert forall|y: Command| !ts_command_of(*n, y) by {
                            assert(!ts_parts_of(item(*n, 2), y.parts@));
                        }
                    }
                    return Err(e);
                },
            }
        },
        None => Vec::new(),
    };
    children.drain(false)?;
    Ok(Command { parts })
}

/// `x` is the runtime attribute built from the node `n`: a name, `:`, an expression.
pub open spec fn ts_runtime_attribute_of(n: TsSyntaxNode, x: RuntimeAttribute) -> bool {
    let r = items(n);
    &&& r.1 && r.0.len() >= 3 && is_field(item(n, 0), fields::NAME@)
    &&& item(n, 0).text matches Some(t) && x.name == (Anchor { element: t, span: item(n, 0).span })
    &&& is_terminal(item(n, 1), symbols::COLON@) && is_field(item(n, 2), fields::EXPRESSION@)
    &&& x.expression.span == item(n, 2).span && ts_expression_of(item(n, 2), x.expression.element)
}

/// The runtime attribute built from `n`: a name, `:`, an expression.
fn runtime_attribute_of_node(n: &TsSyntaxNode) -> (res: Result<RuntimeAttribute, ModelError>)
    ensures
        res matches Ok(x) ==> ts_runtime_attribute_of(*n, x),
        res is Err ==> forall|x: RuntimeAttribute| !ts_runtime_attribute_of(*n, x),
{
    let mut children = TSNode::from_cursor(n).into_children();
    let name = children.next_field(fields::NAME)?.try_into_text_anchor()?;
    children.skip_terminal(symbols::COLON)?;
    let x = children.next_field(fields::EXPRESSION)?;
    let span = x.as_span();
    proof {
        assert(*x.node == item(*n, 2));
    }
    let e = match try_into_expression(x) {
        Ok(e) => e,
        Err(e) => {
            proof {
                assert forall|y: RuntimeAttribute| !ts_runtime_attribute_of(*n, y) by {
                    assert(!ts_expression_of(item(*n, 2), y.expression.element));
                }
            }
            return Err(e);
        },
    };
    children.drain(false)?;
    Ok(RuntimeAttribute { name, expression: Anchor::new(e, span) })
}

/// `v` holds the runtime attributes built from the items of the block of `m` in braces, each
/// anchored to its node's span.
pub open spec fn ts_runtime_attributes_of(m: TsSyntaxNode, v: Seq<Anchor<RuntimeAttribute>>) -> bool
{
    let r = rem_block(m.children@, BlockEnds::Braces, BlockDelim::NoDelim);
    &&& r.1 && v.len() == r.0.len()
    &&& forall|k: int|
        0 <= k < r.0.len() ==> (#[trigger] v[k]).span == m.children@[r.0[k]].span
            && ts_runtime_attribute_of(m.children@[r.0[k]], v[k].element)
}

/// The runtime attributes built from the items of the block of `m` in braces.
fn runtime_attributes_of_node(m: &TsSyntaxNode) -> (res: Result<Vec<Anchor<RuntimeAttribute>>, ModelError>)
    ensures
        res matches Ok(v) ==> ts_runtime_attributes_of(*m, v@),
        res is Err ==> forall|v: Seq<Anchor<RuntimeAttribute>>| !ts_runtime_attributes_of(*m, v),
{
    proof {
        lemma_rem_block_range(m.children@, BlockEnds::Braces, BlockDelim::NoDelim);
    }
    let ghost cs = m.children@;
    let ghost r = rem_block(cs, BlockEnds::Braces, BlockDelim::NoDelim);
    let mut it = TSNode::from_cursor(m).into_block(BlockEnds::Braces, BlockDelim::NoDelim);
    let mut v: Vec<Anchor<RuntimeAttribute>> = Vec::new();
    loop
        invariant
            it.wf(),
            it.children@ == cs,
            cs == m.children@,
            r == rem_block(cs, BlockEnds::Braces, BlockDelim::NoDelim),
            forall|k: int| 0 <= k < r.0.len() ==> 0 <= #[trigger] r.0[k] < cs.len(),
            v@.len() <= r.0.len(),
            it.remaining() == (r.0.skip(v@.len() as int), r.1),
            forall|k: int|
                0 <= k < v@.len() ==> (#[trigger] v@[k]).span == cs[r.0[k]].span && ts_runtime_attribute_of(
                    cs[r.0[k]],
                    v@[k].element,
                ),
        ensures
            r.1,
            v@.len() == r.0.len(),
            forall|k: int|
                0 <= k < v@.len() ==> (#[trigger] v@[k]).span == cs[r.0[k]].span && ts_runtime_attribute_of(
                    cs[r.0[k]],
                    v@[k].element,
                ),
        decreases r.0.len() - v@.len(),
    {
        let ghost len = v@.len() as int;
        proof {
            if len < r.0.len() {
                assert(r.0.skip(len)[0] == r.0[len]);
                assert(r.0.skip(len).drop_first() =~= r.0.skip(len + 1));
            }
        }
        match it.next() {
            Some(Ok(t)) => {
                proof {
                    assert(*t.node == cs[r.0[len]]);
                }
                let span = t.as_span();
                match runtime_attribute_of_node(t.node) {
                    Ok(x) => v.push(Anchor::new(x, span)),
                    Err(e) => {
                        proof {
                            assert forall|w: Seq<Anchor<RuntimeAttribute>>| !ts_runtime_attributes_of(*m, w) by {
                                if ts_runtime_attributes_of(*m, w) {
                                    assert(w[len].span == cs[r.0[len]].span);
                                    assert(!ts_runtime_attribute_of(cs[r.0[len]], w[len].element));
                                }
                            }
                        }
                        return Err(e);
                    },
                }
            },
            Some(Err(e)) => {
                return Err(e);
            },
            None => {
                break ;
            },
        }
    }
    proof {
        assert(ts_runtime_attributes_of(*m, v@));
    }
    Ok(v)
}

/// `x` is the runtime section built from the node `n`: `runtime`, then its attributes in
/// braces.
pub open spec fn ts_runtime_of(n: TsSyntaxNode, x: Runtime) -> bool {
    let r = items(n);
    &&& r.1 && r.0.len() >= 2 && is_terminal(item(n, 0), keywords::RUNTIME@)
    &&& is_field(item(n, 1), fields::ATTRIBUTES@) && ts_runtime_attributes_of(item(n, 1), x.attributes@)
}

/// The runtime section built from `n`: `runtime`, then its attributes in braces.
fn runtime_of_node(n: &TsSyntaxNode) -> (res: Result<Runtime, ModelError>)
    ensures
        res matches Ok(x) ==> ts_runtime_of(*n, x),
        res is Err ==> forall|x: Runtime| !ts_runtime_of(*n, x),
{
    let mut children = TSNode::from_cursor(n).into_children();
    children.skip_terminal(keywords::RUNTIME)?;
    let list = children.next_field(fields::ATTRIBUTES)?;
    proof {
        assert(*list.node == item(*n, 1));
    }
    let attributes = match runtime_attributes_of_node(list.node) {
        Ok(v) => v,
        Err(e) => {
            proof {
                assert forall|y: Runtime| !ts_runtime_of(*n, y) by {
                    assert(!ts_runtime_attributes_of(item(*n, 1), y.attributes@));
                }
            }
            return Err(e);
        },
    };
    children.drain(false)?;
    Ok(Runtime { attributes })
}

/// `e` is the element of a task built from the node `n`, by the kind of `n`.
pub open spec fn ts_task_element_of(n: TsSyntaxNode, e: TaskElement) -> bool {
    let k = n.kind@;
    if k == rules::INPUT@ {
        e matches TaskElement::Input(x) && ts_input_of(n, x)
    } else if k == rules::OUTPUT@ {
        e matches TaskElement::Output(x) && ts_output_of(n, x)
    } else if k == rules::META@ {
        e matches TaskElement::Meta(x) && ts_meta_section_of(n, keywords::META@, x.attributes@)
    } else if k == rules::PARAMETER_META@ {
        e matches TaskElement::ParameterMeta(x) && ts_meta_section_of(
            n,
            keywords::PARAMETER_META@,
            x.attributes@,
        )
    } else if k == rules::BOUND_DECLARATION@ {
        e matches TaskElement::Declaration(x) && ts_bound_declaration_of(n, x)
    } else if k == rules::COMMAND@ {
        e matches TaskElement::Command(x) && ts_command_of(n, x)
    } else if k == rules::RUNTIME@ {
        e matches TaskElement::Runtime(x) && ts_runtime_of(n, x)
    } else {
        false
    }
}

/// The element of a task built from `n`, by its kind.
fn task_element_of_node(n: &TsSyntaxNode) -> (res: Result<TaskElement, ModelError>)
    ensures
        res matches Ok(x) ==> ts_task_element_of(*n, x),
        res is Err ==> forall|x: TaskElement| !ts_task_element_of(*n, x),
{
    let kind = n.kind.as_str();
    if str_eq(kind, rules::INPUT) {
        match input_of_node(n) {
            Ok(x) => Ok(TaskElement::Input(x)),
            Err(e) => {
                proof {
                    assert forall|y: TaskElement| !ts_task_element_of(*n, y) by {
                        if let TaskElement::Input(x) = y {
                            assert(!ts_input_of(*n, x));
                        }
                    }
                }
                Err(e)
            },
        }
    } else if str_eq(kind, rules::OUTPUT) {
        match output_of_node(n) {
            Ok(x) => Ok(TaskElement::Output(x)),
            Err(e) => {
                proof {
                    assert forall|y: TaskElement| !ts_task_element_of(*n, y) by {
                        if let TaskElement::Output(x) = y {
                            assert(!ts_output_of(*n, x));
                        }
                    }
                }
                Err(e)
            },
        }
    } else if str_eq(kind, rules::META) {
        match try_into_meta(TSNode::from_cursor(n)) {
            Ok(x) => Ok(TaskElement::Meta(x)),
            Err(e) => {
                proof {
                    assert forall|y: TaskElement| !ts_task_element_of(*n, y) by {
                        if let TaskElement::Meta(x) = y {
                            assert(!ts_meta_section_of(*n, keywords::META@, x.attributes@));
                        }
                    }
                }
                Err(e)
            },
        }
    } else if str_eq(kind, rules::PARAMETER_META) {
        match try_into_parameter_meta(TSNode::from_cursor(n)) {
            Ok(x) => Ok(TaskElement::ParameterMeta(x)),
            Err(e) => {
                proof {
                    assert forall|y: TaskElement| !ts_task_element_of(*n, y) by {
                        if let TaskElement::ParameterMeta(x) = y {
                            assert(!ts_meta_section_of(*n, keywords::PARAMETER_META@, x.attributes@));
                        }
                    }
                }
                Err(e)
            },
        }
    } else if str_eq(kind, rules::BOUND_DECLARATION) {
        match bound_declaration_of_node(n) {
            Ok(x) => Ok(TaskElement::Declaration(x)),
            Err(e) => {
                proof {
                    assert forall|y: TaskElement| !ts_task_element_of(*n, y) by {
                        if let TaskElement::Declaration(x) = y {
                            assert(!ts_bound_declaration_of(*n, x));
                        }
                    }
                }
                Err(e)
            },
        }
    } else if str_eq(kind, rules::COMMAND) {
        match command_of_node(n) {
            Ok(x) => Ok(TaskElement::Command(x)),
            Err(e) => {
                proof {
                    assert forall|y: TaskElement| !ts_task_element_of(*n, y) by {
                        if let TaskElement::Command(x) = y {
                            assert(!ts_command_of(*n, x));
                        }
                    }
                }
                Err(e)
            },
        }
    } else if str_eq(kind, rules::RUNTIME) {
        match runtime_of_node(n) {
            Ok(x) => Ok(TaskElement::Runtime(x)),
            Err(e) => {
                proof {
                    assert forall|y: TaskElement| !ts_task_element_of(*n, y) by {
                        if let TaskElement::Runtime(x) = y {
                            assert(!ts_runtime_of(*n, x));
                        }
                    }
                }
                Err(e)
            },
        }
    } else {
        Err(parser_error("Invalid task element ", kind, "", ""))
    }
}

/// `v` holds the elements of a task built from the items of the block of `m` in braces, each
/// anchored to its node's span.
pub open spec fn ts_task_elements_of(m: TsSyntaxNode, v: Seq<Anchor<TaskElement>>) -> bool
{
    let r = rem_block(m.children@, BlockEnds::Braces, BlockDelim::NoDelim);
    &&& r.1 && v.len() == r.0.len()
    &&& forall|k: int|
        0 <= k < r.0.len() ==> (#[trigger] v[k]).span == m.children@[r.0[k]].span
            && ts_task_element_of(m.children@[r.0[k]], v[k].element)
}

/// The elements of a task built from the items of the block of `m` in braces.
fn task_elements_of_node(m: &TsSyntaxNode) -> (res: Result<Vec<Anchor<TaskElement>>, ModelError>)
    ensures
        res matches Ok(v) ==> ts_task_elements_of(*m, v@),
        res is Err ==> forall|v: Seq<Anchor<TaskElement>>| !ts_task_elements_of(*m, v),
{
    proof {
        lemma_rem_block_range(m.children@, BlockEnds::Braces, BlockDelim::NoDelim);
    }
    let ghost cs = m.children@;
    let ghost r = rem_block(cs, BlockEnds::Braces, BlockDelim::NoDelim);
    let mut it = TSNode::from_cursor(m).into_block(BlockEnds::Braces, BlockDelim::NoDelim);
    let mut v: Vec<Anchor<TaskElement>> = Vec::new();
    loop
        invariant
            it.wf(),
            it.children@ == cs,
            cs == m.children@,
            r == rem_block(cs, BlockEnds::Braces, BlockDelim::NoDelim),
            forall|k: int| 0 <= k < r.0.len() ==> 0 <= #[trigger] r.0[k] < cs.len(),
            v@.len() <= r.0.len(),
            it.remaining() == (r.0.skip(v@.len() as int), r.1),
            forall|k: int|
                0 <= k < v@.len() ==> (#[trigger] v@[k]).span == cs[r.0[k]].span && ts_task_element_of(
                    cs[r.0[k]],
                    v@[k].element,
                ),
        ensures
            r.1,
            v@.len() == r.0.len(),
            forall|k: int|
                0 <= k < v@.len() ==> (#[trigger] v@[k]).span == cs[r.0[k]].span && ts_task_element_of(
                    cs[r.0[k]],
                    v@[k].element,
                ),
        decreases r.0.len() - v@.len(),
    {
        let ghost len = v@.len() as int;
        proof {
            if len < r.0.len() {
                assert(r.0.skip(len)[0] == r.0[len]);
                assert(r.0.skip(len).drop_first() =~= r.0.skip(len + 1));
            }
        }
        match it.next() {
            Some(Ok(t)) => {
                proof {
                    assert(*t.node == cs[r.0[len]]);
                }
                let span = t.as_span();
                match task_element_of_node(t.node) {
                    Ok(x) => v.push(Anchor::new(x, span)),
                    Err(e) => {
                        proof {
                            assert forall|w: Seq<Anchor<TaskElement>>| !ts_task_elements_of(*m, w) by {
                                if ts_task_elements_of(*m, w) {
                                    assert(w[len].span == cs[r.0[len]].span);
                                    assert(!ts_task_element_of(cs[r.0[len]], w[len].element));
                                }
                            }
                        }
                        return Err(e);
                    },
                }
            },
            Some(Err(e)) => {
                return Err(e);
            },
            None => {
                break ;
            },
        }
    }
    proof {
        assert(ts_task_elements_of(*m, v@));
    }
    Ok(v)
}

/// `t` is the task built from the node `n`: `task`, its name, then its elements in braces.
pub open spec fn ts_task_of(n: TsSyntaxNode, t: Task) -> bool {
    let r = items(n);
    &&& r.1 && r.0.len() >= 3 && is_terminal(item(n, 0), keywords::TASK@)
    &&& is_field(item(n, 1), fields::NAME@)
    &&& item(n, 1).text matches Some(x) && t.name == (Anchor { element: x, span: item(n, 1).span })
    &&& is_field(item(n, 2), fields::BODY@) && ts_task_elements_of(item(n, 2), t.body@)
}

/// The task built from a node: `task`, its name, then its elements in braces; an error when
/// none can be.
pub fn try_into_task(node: TSNode) -> (res: Result<Task, ModelError>)
    ensures
        res matches Ok(x) ==> ts_task_of(*node.node, x),
        res is Err ==> forall|x: Task| !ts_task_of(*node.node, x),
{
    let ghost n = *node.node;
    let mut children = node.into_children();
    children.skip_terminal(keywords::TASK)?;
    let name = children.next_field(fields::NAME)?.try_into_text_anchor()?;
    let list = children.next_field(fields::BODY)?;
    proof {
        assert(*list.node == item(n, 2));
    }
    let body = match task_elements_of_node(list.node) {
        Ok(v) => v,
        Err(e) => {
            proof {
                assert forall|y: Task| !ts_task_of(n, y) by {
                    assert(!ts_task_elements_of(item(n, 2), y.body@));
                }
            }
            return Err(e);
        },
    };
    children.drain(false)?;
    Ok(Task { name, body })
}

} // verus!
