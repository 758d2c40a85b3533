//! What validation counts as a repeat: two elements of a task or a workflow are of the same kind
//! exactly when they are the same variant.
use crate::ast;
use crate::model::{Task, TaskElement, Workflow, WorkflowElement};
use vstd::prelude::*;

verus! {

/// `a` and `b` are task elements of the same kind: both inputs, both outputs, both
/// declarations, both commands, both runtime sections, both meta sections or both parameter
/// meta sections.
pub open spec fn same_task_kind(a: TaskElement, b: TaskElement) -> bool {
    ||| a is Input && b is Input
    ||| a is Output && b is Output
    ||| a is Declaration && b is Declaration
    ||| a is Command && b is Command
    ||| a is Runtime && b is Runtime
    ||| a is Meta && b is Meta
    ||| a is ParameterMeta && b is ParameterMeta
}

/// `a` and `b` are workflow elements of the same kind.
pub open spec fn same_workflow_kind(a: WorkflowElement, b: WorkflowElement) -> bool {
    ||| a is Input && b is Input
    ||| a is Output && b is Output
    ||| a is Declaration && b is Declaration
    ||| a is Call && b is Call
    ||| a is Scatter && b is Scatter
    ||| a is Conditional && b is Conditional
    ||| a is Meta && b is Meta
    ||| a is ParameterMeta && b is ParameterMeta
}

/// `a` and `b` are task elements of the syntax tree of the same kind.
pub open spec fn same_ast_task_kind(a: ast::TaskElement, b: ast::TaskElement) -> bool {
    ||| a is Input && b is Input
    ||| a is Output && b is Output
    ||| a is Declaration && b is Declaration
    ||| a is Command && b is Command
    ||| a is Runtime && b is Runtime
    ||| a is Meta && b is Meta
    ||| a is ParameterMeta && b is ParameterMeta
}

/// `a` and `b` are workflow elements of the syntax tree of the same kind.
pub open spec fn same_ast_workflow_kind(a: ast::WorkflowElement, b: ast::WorkflowElement) -> bool {
    ||| a is Input && b is Input
    ||| a is Output && b is Output
    ||| a is Declaration && b is Declaration
    ||| a is Call && b is Call
    ||| a is Scatter && b is Scatter
    ||| a is Conditional && b is Conditional
    ||| a is Meta && b is Meta
    ||| a is ParameterMeta && b is ParameterMeta
}

/// Two elements have the same number exactly when they are of the same kind.
proof fn lemma_task_tags(a: TaskElement, b: TaskElement)
    ensures
        a.tag() == b.tag() <==> same_task_kind(a, b),
{
}

/// Two elements have the same number exactly when they are of the same kind.
proof fn lemma_workflow_tags(a: WorkflowElement, b: WorkflowElement)
    ensures
        a.tag() == b.tag() <==> same_workflow_kind(a, b),
{
}

/// Two elements have the same number exactly when they are of the same kind.
proof fn lemma_ast_task_tags(a: ast::TaskElement, b: ast::TaskElement)
    ensures
        a.tag() == b.tag() <==> same_ast_task_kind(a, b),
{
}

/// Two elements have the same number exactly when they are of the same kind.
proof fn lemma_ast_workflow_tags(a: ast::WorkflowElement, b: ast::WorkflowElement)
    ensures
        a.tag() == b.tag() <==> same_ast_workflow_kind(a, b),
{
}

/// A task validates exactly when it holds a command and no element other than a declaration
/// follows an element of its own kind. So a task with one input, one output, one command, one
/// runtime, one meta and one parameter meta section, and any number of declarations, is valid.
pub proof fn law_task_valid_by_kind(t: Task)
    ensures
        t.is_valid() <==> {
            &&& exists|i: int| 0 <= i < t.body@.len() && t.body@[i].element is Command
            &&& forall|i: int, j: int|
                0 <= i < j < t.body@.len() && !(t.body@[j].element is Declaration) ==> !same_task_kind(
                    #[trigger] t.body@[i].element,
                    #[trigger] t.body@[j].element,
                )
        },
{
    let body = t.body@;
    assert(crate::model::task_first_repeat(body) is None <==> !(exists|k: int| 0 <= k < body.len() && crate::model::task_repeat_at(body, k)));
    if exists|k: int| 0 <= k < body.len() && crate::model::task_repeat_at(body, k) {
        let k = choose|k: int| 0 <= k < body.len() && crate::model::task_repeat_at(body, k);
        let i = choose|i: int| 0 <= i < k && #[trigger] body[i].element.tag() == body[k].element.tag();
        lemma_task_tags(body[i].element, body[k].element);
        assert(!(body[k].element is Declaration));
        assert(same_task_kind(body[i].element, body[k].element));
    } else {
        assert forall|i: int, j: int|
            0 <= i < j < body.len() && !(body[j].element is Declaration) implies !same_task_kind(
            #[trigger] body[i].element,
            #[trigger] body[j].element,
        ) by {
            lemma_task_tags(body[i].element, body[j].element);
            if same_task_kind(body[i].element, body[j].element) {
                assert(crate::model::task_repeat_at(body, j));
            }
        }
    }
}

/// A workflow validates exactly when no input, output, meta or parameter meta element follows
/// an element of its own kind. So a workflow with one input, one output, one meta and one
/// parameter meta section, and any number of other elements, is valid.
pub proof fn law_workflow_valid_by_kind(w: Workflow)
    ensures
        w.is_valid() <==> {
            &&& forall|i: int, j: int|
                0 <= i < j < w.body@.len() && (w.body@[j].element is Input || w.body@[j].element is Output || w.body@[j].element is Meta || w.body@[j].element is ParameterMeta) ==> !same_workflow_kind(
                    #[trigger] w.body@[i].element,
                    #[trigger] w.body@[j].element,
                )
        },
{
    let body = w.body@;
    assert(crate::model::workflow_first_repeat(body) is None <==> !(exists|k: int| 0 <= k < body.len() && crate::model::workflow_repeat_at(body, k)));
    if exists|k: int| 0 <= k < body.len() && crate::model::workflow_repeat_at(body, k) {
        let k = choose|k: int| 0 <= k < body.len() && crate::model::workflow_repeat_at(body, k);
        let i = choose|i: int| 0 <= i < k && #[trigger] body[i].element.tag() == body[k].element.tag();
        lemma_workflow_tags(body[i].element, body[k].element);
        assert((body[k].element is Input || body[k].element is Output || body[k].element is Meta || body[k].element is ParameterMeta));
        assert(same_workflow_kind(body[i].element, body[k].element));
    } else {
        assert forall|i: int, j: int|
            0 <= i < j < body.len() && (body[j].element is Input || body[j].element is Output || body[j].element is Meta || body[j].element is ParameterMeta) implies !same_workflow_kind(
            #[trigger] body[i].element,
            #[trigger] body[j].element,
        ) by {
            lemma_workflow_tags(body[i].element, body[j].element);
            if same_workflow_kind(body[i].element, body[j].element) {
                assert(crate::model::workflow_repeat_at(body, j));
            }
        }
    }
}

/// A task of the syntax tree validates exactly when it holds a command and no element other
/// than a declaration follows an element of its own kind.
pub proof fn law_ast_task_valid_by_kind(t: ast::Task)
    ensures
        t.is_valid() <==> {
            &&& exists|i: int| 0 <= i < t.body@.len() && t.body@[i].element is Command
            &&& forall|i: int, j: int|
                0 <= i < j < t.body@.len() && !(t.body@[j].element is Declaration) ==> !same_ast_task_kind(
                    #[trigger] t.body@[i].element,
                    #[trigger] t.body@[j].element,
                )
        },
{
    let body = t.body@;
    assert(ast::task_first_repeat(body) is None <==> !(exists|k: int| 0 <= k < body.len() && ast::task_repeat_at(body, k)));
    if exists|k: int| 0 <= k < body.len() && ast::task_repeat_at(body, k) {
        let k = choose|k: int| 0 <= k < body.len() && ast::task_repeat_at(body, k);
        let i = choose|i: int| 0 <= i < k && #[trigger] body[i].element.tag() == body[k].element.tag();
        lemma_ast_task_tags(body[i].element, body[k].element);
        assert(!(body[k].element is Declaration));
        assert(same_ast_task_kind(body[i].element, body[k].element));
    } else {
        assert forall|i: int, j: int|
            0 <= i < j < body.len() && !(body[j].element is Declaration) implies !same_ast_task_kind(
            #[trigger] body[i].element,
            #[trigger] body[j].element,
        ) by {
            lemma_ast_task_tags(body[i].element, body[j].element);
            if same_ast_task_kind(body[i].element, body[j].element) {
                assert(ast::task_repeat_at(body, j));
            }
        }
    }
}

/// A workflow of the syntax tree validates exactly when no input, output, meta or parameter
/// meta element follows an element of its own kind.
pub proof fn law_ast_workflow_valid_by_kind(w: ast::Workflow)
    ensures
        w.is_valid() <==> {
            &&& forall|i: int, j: int|
                0 <= i < j < w.body@.len() && (w.body@[j].element is Input || w.body@[j].element is Output || w.body@[j].element is Meta || w.body@[j].element is ParameterMeta) ==> !same_ast_workflow_kind(
                    #[trigger] w.body@[i].element,
                    #[trigger] w.body@[j].element,
                )
        },
{
    let body = w.body@;
    assert(ast::workflow_first_repeat(body) is None <==> !(exists|k: int| 0 <= k < body.len() && ast::workflow_repeat_at(body, k)));
    if exists|k: int| 0 <= k < body.len() && ast::workflow_repeat_at(body, k) {
        let k = choose|k: int| 0 <= k < body.len() && ast::workflow_repeat_at(body, k);
        let i = choose|i: int| 0 <= i < k && #[trigger] body[i].element.tag() == body[k].element.tag();
        lemma_ast_workflow_tags(body[i].element, body[k].element);
        assert((body[k].element is Input || body[k].element is Output || body[k].element is Meta || body[k].element is ParameterMeta));
        assert(same_ast_workflow_kind(body[i].element, body[k].element));
    } else {
        assert forall|i: int, j: int|
            0 <= i < j < body.len() && (body[j].element is Input || body[j].element is Output || body[j].element is Meta || body[j].element is ParameterMeta) implies !same_ast_workflow_kind(
            #[trigger] body[i].element,
            #[trigger] body[j].element,
        ) by {
            lemma_ast_workflow_tags(body[i].element, body[j].element);
            if same_ast_workflow_kind(body[i].element, body[j].element) {
                assert(ast::workflow_repeat_at(body, j));
            }
        }
    }
}

} // verus!
