use wdl::ast::{
    AstError, BinaryOperator, Command, Document, DocumentElement, DocumentSource, Float, Integer,
    Location, Meta, Namespace, Node, Runtime, Task, TaskElement, UnaryOperator, Version,
    VersionIdentifier, Workflow, WorkflowElement,
};

fn loc(offset: usize) -> Location {
    Location { line: 1, column: offset, offset }
}

fn node<T>(element: T) -> Node<T> {
    Node { element, start: loc(0), end: loc(1) }
}

#[test]
fn integer_from_str_keeps_octal_and_hex_text() {
    assert!(matches!(Integer::from_str("0o17"), Ok(Integer::Octal(t)) if t == "0o17"));
    assert!(matches!(Integer::from_str("0XfF"), Ok(Integer::Hex(t)) if t == "0XfF"));
    assert!(matches!(Integer::from_str("-12"), Ok(Integer::Decimal(-12))));
    assert!(matches!(Integer::from_str("12a"), Err(AstError::Integer(t)) if t == "12a"));
}

#[test]
fn integer_negate_only_decimal() {
    let mut i = Integer::Decimal(7);
    assert!(i.negate().is_ok());
    assert!(matches!(i, Integer::Decimal(-7)));
    assert!(i.negate().is_ok());
    assert!(matches!(i, Integer::Decimal(7)));
    let mut h = Integer::Hex("0x1".to_string());
    assert!(matches!(h.negate(), Err(AstError::NegateNonDecimal)));
}

#[test]
fn integer_into_i64_reads_the_text_with_its_prefix() {
    assert!(matches!(Integer::Decimal(3).try_into_i64(), Ok(3)));
    // the prefix is part of the text read in the radix, so it does not read
    assert!(matches!(Integer::Octal("0o17".to_string()).try_into_i64(), Err(AstError::Integer(_))));
    assert!(matches!(Integer::Hex("0x1F".to_string()).try_into_i64(), Err(AstError::Integer(_))));
}

#[test]
fn ast_float_from_str_and_negate() {
    assert!(matches!(Float::from_str("1e3"), Ok(Float::Scientific(t)) if t == "1e3"));
    assert!(matches!(Float::from_str("2.5"), Ok(Float::Decimal(t)) if t == "2.5"));
    assert!(matches!(Float::from_str("x.5"), Err(AstError::Float(_))));
    let mut f = Float::Scientific("1e3".to_string());
    f.negate().unwrap();
    assert!(matches!(&f, Float::Scientific(t) if t == "-1e3"));
    f.negate().unwrap();
    assert!(matches!(&f, Float::Scientific(t) if t == "1e3"));
    let mut d = Float::Decimal("2.5".to_string());
    d.negate().unwrap();
    assert!(matches!(&d, Float::Decimal(t) if t == "-2.5"));
}

#[test]
fn ast_operators() {
    assert_eq!(UnaryOperator::from_str("!").unwrap(), UnaryOperator::Not);
    assert_eq!(UnaryOperator::Neg.to_string(), "-");
    assert_eq!(BinaryOperator::from_str("<=").unwrap(), BinaryOperator::Lte);
    assert_eq!(BinaryOperator::And.to_string(), "&&");
    // `&&` and `||` are not read back
    assert!(matches!(BinaryOperator::from_str("&&"), Err(AstError::BinaryOperator(_))));
    assert!(matches!(BinaryOperator::from_str("||"), Err(AstError::BinaryOperator(_))));
}

#[test]
fn version_and_namespace() {
    assert_eq!(VersionIdentifier::from_str("1.0").unwrap(), VersionIdentifier::V1_0);
    assert!(matches!(VersionIdentifier::from_str("draft-2"), Err(AstError::Version(_))));
    assert!(matches!(
        Namespace::try_from_uri("https://example.com/tools/align.wdl"),
        Ok(Namespace::Implicit(n)) if n == "align"
    ));
    assert!(matches!(Namespace::try_from_uri("local.wdl"), Ok(Namespace::Implicit(n)) if n == "local"));
    assert!(matches!(Namespace::try_from_uri("no-suffix"), Err(AstError::Namespace(_))));
}

fn task(body: Vec<TaskElement>) -> Task {
    Task { name: node("t".to_string()), body: body.into_iter().map(node).collect() }
}

#[test]
fn ast_validation() {
    let command = || TaskElement::Command(Command { parts: Vec::new() });
    let runtime = || TaskElement::Runtime(Runtime { attributes: Vec::new() });
    assert!(task(vec![command()]).validate().is_ok());
    assert!(matches!(task(vec![runtime()]).validate(), Err(AstError::TaskMissingCommand)));
    assert!(matches!(
        task(vec![command(), command()]).validate(),
        Err(AstError::TaskRepeatedElement(k)) if k == "command"
    ));
    let meta = || WorkflowElement::ParameterMeta(Meta { attributes: Vec::new() });
    let w = Workflow { name: node("w".to_string()), body: vec![node(meta()), node(meta())] };
    assert!(matches!(w.validate(), Err(AstError::WorkflowRepeatedElement(k)) if k == "parameter_meta"));
    let doc = Document {
        source: DocumentSource::Unknown,
        version: node(Version { identifier: node(VersionIdentifier::V1_0) }),
        body: vec![node(DocumentElement::Task(task(vec![command()])))],
    };
    assert!(doc.validate().is_ok());
    assert!(matches!(doc.get_primary_element(), Some(DocumentElement::Task(_))));
    assert_eq!(doc.element_iter().len(), 1);
    let empty = Document {
        source: DocumentSource::Unknown,
        version: node(Version { identifier: node(VersionIdentifier::V1_0) }),
        body: Vec::new(),
    };
    assert!(matches!(empty.validate(), Err(AstError::DocumentIncomplete)));
}

#[test]
fn ast_namespace_from_a_given_capture() {
    assert!(matches!(
        Namespace::try_from_uri_capture("x/local.wdl", Some("given".to_string())),
        Ok(Namespace::Implicit(n)) if n == "given"
    ));
    assert!(matches!(
        Namespace::try_from_uri_capture("local.wdl", None),
        Ok(Namespace::Implicit(n)) if n == "local"
    ));
    assert!(matches!(Namespace::try_from_uri_capture("no-suffix", None), Err(AstError::Namespace(_))));
}
