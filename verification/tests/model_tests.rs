use wdl::model::{
    Anchor, BinaryOperator, Comments, Document, DocumentElement, DocumentSource, Float, Integer,
    ModelError, Namespace, Position, Span, Task, TaskElement, UnaryOperator, Version,
    VersionIdentifier, Workflow, WorkflowElement,
};

fn pos(line: usize, column: usize, offset: usize) -> Position {
    Position::new(line, column, offset)
}

fn span(a: usize, b: usize) -> Span {
    Span::new(pos(1, a, a), pos(1, b, b))
}

fn anchor<T>(element: T) -> Anchor<T> {
    Anchor::new(element, span(0, 1))
}

#[test]
fn integer_from_str_reads_each_radix() {
    assert_eq!(Integer::from_str("42").unwrap(), Integer::Decimal(42));
    assert_eq!(Integer::from_str("0x1F").unwrap(), Integer::Hex(31));
    assert_eq!(Integer::from_str("0X1f").unwrap(), Integer::Hex(31));
    assert_eq!(Integer::from_str("017").unwrap(), Integer::Octal(15));
    assert_eq!(Integer::from_str("0").unwrap(), Integer::Decimal(0));
    assert_eq!(Integer::from_str("-5").unwrap(), Integer::Decimal(-5));
}

#[test]
fn integer_from_str_errors() {
    assert!(matches!(Integer::from_str("09"), Err(ModelError::Grammar { .. })));
    assert!(matches!(
        Integer::from_str("99999999999999999999"),
        Err(ModelError::Integer(t)) if t == "99999999999999999999"
    ));
    assert!(matches!(Integer::from_str("0xZZ"), Err(ModelError::Integer(_))));
    assert!(matches!(Integer::from_str("abc"), Err(ModelError::Integer(_))));
}

#[test]
fn integer_negate_twice_gives_back() {
    let i = Integer::Octal(8);
    assert_eq!(i.negate(), Integer::Octal(-8));
    assert_eq!(i.negate().negate(), i);
    assert_eq!(Integer::Decimal(5).into_i64(), 5);
}

#[test]
fn float_from_str_and_negate() {
    assert_eq!(Float::from_str("1.5").unwrap(), Float::Decimal("1.5".to_string()));
    assert_eq!(Float::from_str("1e5").unwrap(), Float::Scientific("1e5".to_string()));
    assert!(matches!(Float::from_str("abc"), Err(ModelError::Float(_))));
    let f = Float::from_str("2.5").unwrap();
    assert_eq!(f.negate(), Float::Decimal("-2.5".to_string()));
    assert_eq!(f.negate().negate(), f);
    assert_eq!(Float::Decimal("+1.0".to_string()).negate(), Float::Decimal("-1.0".to_string()));
}

#[test]
fn operators_round_trip() {
    for op in [UnaryOperator::Pos, UnaryOperator::Neg, UnaryOperator::Not] {
        assert_eq!(UnaryOperator::from_str(&op.to_string()).unwrap(), op);
    }
    let ops = [
        BinaryOperator::Add,
        BinaryOperator::Sub,
        BinaryOperator::Mul,
        BinaryOperator::Div,
        BinaryOperator::Mod,
        BinaryOperator::Gt,
        BinaryOperator::Lt,
        BinaryOperator::Gte,
        BinaryOperator::Lte,
        BinaryOperator::Eq,
        BinaryOperator::Neq,
        BinaryOperator::And,
        BinaryOperator::Or,
    ];
    for op in ops {
        assert_eq!(BinaryOperator::from_str(&op.to_string()).unwrap(), op);
    }
    assert_eq!(BinaryOperator::Gte.to_string(), ">=");
    assert!(BinaryOperator::from_str("<>").is_err());
    assert!(UnaryOperator::from_str("~").is_err());
}

#[test]
fn version_identifier_from_str() {
    assert_eq!(VersionIdentifier::from_str("1.0").unwrap(), VersionIdentifier::V1_0);
    assert_eq!(VersionIdentifier::from_str("1.1").unwrap(), VersionIdentifier::V1_1);
    assert!(matches!(VersionIdentifier::from_str("2.0"), Err(ModelError::Version(v)) if v == "2.0"));
}

#[test]
fn namespace_from_uri() {
    assert_eq!(Namespace::from_uri("local.wdl"), Namespace::Implicit("local".to_string()));
    assert_eq!(Namespace::from_uri("other"), Namespace::Implicit("other".to_string()));
    // the lazy group of the pattern takes a single character
    assert_eq!(
        Namespace::from_uri("https://example.com/foo.wdl"),
        Namespace::Implicit("f".to_string())
    );
}

#[test]
fn span_operations() {
    let mut s = span(2, 10);
    assert_eq!(s.len(), 8);
    s.trim_end(3);
    assert_eq!(s.end.offset, 7);
    assert_eq!(s.end.column, 7);
    assert_eq!(s.len(), 5);
    assert_eq!(Span::from_components(0, 8, 8, 0, 11, 11).len(), 3);
    let r = Span::from_range(&span(1, 2), &span(5, 9));
    assert_eq!(r.start.offset, 1);
    assert_eq!(r.end.offset, 9);
    let c = Span::from_components(1, 2, 3, 4, 5, 6);
    assert_eq!(c.start, pos(1, 2, 3));
    assert_eq!(c.end, pos(4, 5, 6));
    assert_eq!(c.into_range(), 3..6);
    assert_eq!(c.to_string(), "1:2..4:5");
    let mut p = pos(3, 9, 20);
    p.shift_left(4);
    assert_eq!(p, pos(3, 5, 16));
    assert!(pos(1, 1, 1).lt(&pos(1, 1, 2)));
}

#[test]
fn comments_insert_get_and_range() {
    let mut comments = Comments::default();
    comments.try_insert(5, anchor("# five".to_string())).unwrap();
    comments.try_insert(2, anchor("# two".to_string())).unwrap();
    comments.try_insert(9, anchor("# nine".to_string())).unwrap();
    assert!(matches!(
        comments.try_insert(5, anchor("# again".to_string())),
        Err(ModelError::CommentRepeatedLine(5))
    ));
    assert_eq!(comments.get(5).unwrap().element, "# five");
    assert!(comments.get(3).is_none());
    let values: Vec<String> = comments.values().iter().map(|a| a.element.clone()).collect();
    assert_eq!(values, vec!["# two", "# five", "# nine"]);
    let in_range: Vec<String> = comments.range(2, 9).iter().map(|(_, a)| a.element.clone()).collect();
    assert_eq!(in_range, vec!["# two", "# five"]);
}

fn command() -> TaskElement {
    TaskElement::Command(wdl::model::Command { parts: Vec::new() })
}

fn runtime() -> TaskElement {
    TaskElement::Runtime(wdl::model::Runtime { attributes: Vec::new() })
}

fn task(name: &str, body: Vec<TaskElement>) -> Task {
    Task { name: anchor(name.to_string()), body: body.into_iter().map(anchor).collect() }
}

fn workflow(name: &str, body: Vec<WorkflowElement>) -> Workflow {
    Workflow { name: anchor(name.to_string()), body: body.into_iter().map(anchor).collect() }
}

fn meta() -> WorkflowElement {
    WorkflowElement::Meta(wdl::model::Meta { attributes: Vec::new() })
}

fn document(body: Vec<DocumentElement>) -> Document {
    Document {
        source: DocumentSource::Unknown,
        version: anchor(Version { identifier: anchor(VersionIdentifier::V1_1) }),
        body: body.into_iter().map(anchor).collect(),
        comments: Comments::default(),
    }
}

#[test]
fn task_validation() {
    assert!(task("t", vec![command()]).validate().is_ok());
    assert!(matches!(
        task("t", vec![runtime()]).validate(),
        Err(ModelError::TaskMissingCommand(t)) if t == "t"
    ));
    assert!(matches!(
        task("t", vec![command(), runtime(), runtime()]).validate(),
        Err(ModelError::TaskRepeatedElement { task, kind }) if task == "t" && kind == "runtime"
    ));
}

#[test]
fn workflow_validation() {
    assert!(workflow("w", vec![meta()]).validate().is_ok());
    assert!(matches!(
        workflow("w", vec![meta(), meta()]).validate(),
        Err(ModelError::WorkflowRepeatedElement { workflow, kind }) if workflow == "w" && kind == "meta"
    ));
}

#[test]
fn document_validation_and_primary_element() {
    assert!(matches!(document(vec![]).validate(), Err(ModelError::DocumentIncomplete)));
    let two = document(vec![
        DocumentElement::Workflow(workflow("a", vec![])),
        DocumentElement::Workflow(workflow("b", vec![])),
    ]);
    assert!(matches!(two.validate(), Err(ModelError::DocumentMultipleWorkflows)));
    let doc = document(vec![
        DocumentElement::Task(task("t", vec![command()])),
        DocumentElement::Workflow(workflow("w", vec![])),
    ]);
    assert!(doc.validate().is_ok());
    match doc.get_primary_element() {
        Some(DocumentElement::Workflow(w)) => assert_eq!(w.name.element, "w"),
        _ => panic!("expected the workflow"),
    }
    let tasks = document(vec![
        DocumentElement::Task(task("t1", vec![command()])),
        DocumentElement::Task(task("t2", vec![command()])),
    ]);
    assert!(tasks.get_primary_element().is_none());
    let one = document(vec![DocumentElement::Task(task("t", vec![command()]))]);
    match one.get_primary_element() {
        Some(DocumentElement::Task(t)) => assert_eq!(t.name.element, "t"),
        _ => panic!("expected the task"),
    }
    assert_eq!(one.body_iter().len(), 1);
    let invalid = document(vec![DocumentElement::Task(task("t", vec![]))]);
    assert!(matches!(invalid.validate(), Err(ModelError::TaskMissingCommand(_))));
}

#[test]
fn integer_text_round_trip() {
    for n in [0i64, 7, 10, 42, 255, 4096, i64::MAX, -1, -42, i64::MIN] {
        assert_eq!(Integer::from_str(&n.to_string()).unwrap(), Integer::Decimal(n));
        if n >= 0 {
            assert_eq!(Integer::from_str(&format!("0x{:X}", n)).unwrap(), Integer::Hex(n));
            assert_eq!(Integer::from_str(&format!("0{:o}", n)).unwrap(), Integer::Octal(n));
        }
    }
}

#[test]
fn comment_insert_keeps_other_lines() {
    let mut comments = Comments::default();
    comments.try_insert(3, anchor("# three".to_string())).unwrap();
    comments.try_insert(7, anchor("# seven".to_string())).unwrap();
    comments.try_insert(5, anchor("# five".to_string())).unwrap();
    assert_eq!(comments.get(3).unwrap().element, "# three");
    assert_eq!(comments.get(7).unwrap().element, "# seven");
    assert_eq!(comments.get(5).unwrap().element, "# five");
    assert!(comments.get(4).is_none());
}

#[test]
fn task_validity_counts_commands() {
    assert!(matches!(
        task("t", vec![command(), command()]).validate(),
        Err(ModelError::TaskRepeatedElement { kind, .. }) if kind == "command"
    ));
    let decl = || {
        TaskElement::Declaration(wdl::model::BoundDeclaration {
            type_: anchor(wdl::model::Type::Int),
            name: anchor("x".to_string()),
            expression: anchor(wdl::model::Expression::Int(wdl::model::Integer::Decimal(1))),
        })
    };
    assert!(task("t", vec![decl(), command(), decl(), runtime()]).validate().is_ok());
}

#[test]
fn workflow_with_two_inputs_is_invalid() {
    let input = || WorkflowElement::Input(wdl::model::Input { declarations: Vec::new() });
    assert!(matches!(
        workflow("w", vec![input(), meta(), input()]).validate(),
        Err(ModelError::WorkflowRepeatedElement { kind, .. }) if kind == "input"
    ));
}

#[test]
fn primary_element_is_the_first_workflow() {
    let doc = document(vec![
        DocumentElement::Task(task("t", vec![command()])),
        DocumentElement::Workflow(workflow("first", vec![])),
        DocumentElement::Workflow(workflow("second", vec![])),
    ]);
    match doc.get_primary_element() {
        Some(DocumentElement::Workflow(w)) => assert_eq!(w.name.element, "first"),
        _ => panic!("expected the first workflow"),
    }
}

#[test]
fn positions_are_ordered_by_offset() {
    assert!(pos(5, 3, 10) < pos(0, 0, 11));
    assert!(pos(0, 9, 12) > pos(7, 0, 11));
    assert_eq!(pos(1, 2, 4).partial_cmp(&pos(9, 9, 4)), Some(std::cmp::Ordering::Equal));
    assert!(span(1, 5) < span(2, 3));
    assert!(span(1, 5) < span(1, 6));
}

#[test]
fn namespace_from_a_given_capture() {
    assert_eq!(
        Namespace::from_uri_capture("lib/util.wdl", Some("util".to_string())),
        Namespace::Implicit("util".to_string())
    );
    assert_eq!(
        Namespace::from_uri_capture("lib/util.wdl", None),
        Namespace::Implicit("lib/util".to_string())
    );
    assert_eq!(Namespace::from_uri_capture("plain", None), Namespace::Implicit("plain".to_string()));
}

#[test]
fn fragments_and_anchored_texts_as_strings() {
    assert_eq!(wdl::model::SourceFragment("Int x".to_string()).to_string(), "Int x");
    let a = Anchor::new("x".to_string(), Span::new(pos(1, 2, 3), pos(1, 3, 4)));
    assert_eq!(a.to_string(), format!("x ({})", a.span.to_string()));
}
