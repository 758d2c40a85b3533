use wdl::model::{
    BinaryOperator, DocumentElement, DocumentSource, Expression, Integer, MetaValue, Namespace,
    Type, UnaryOperator, VersionIdentifier, WorkflowElement,
};
use wdl::parsers::pest::PestParser;
use wdl::parsers::WdlParserError;

fn parse(text: &str) -> Result<wdl::model::Document, WdlParserError> {
    let mut parser = PestParser::new();
    parser.parse_text(text, DocumentSource::Unknown)
}

#[test]
fn parses_a_struct() {
    let doc = parse("version 1.1\n\nstruct Person {\n  String name\n  Int? age\n}\n").unwrap();
    assert_eq!(doc.version.element.identifier.element, VersionIdentifier::V1_1);
    assert_eq!(doc.body.len(), 1);
    match &doc.body[0].element {
        DocumentElement::Struct(s) => {
            assert_eq!(s.name.element, "Person");
            assert_eq!(s.fields.len(), 2);
            assert_eq!(s.fields[0].element.name.element, "name");
            assert_eq!(s.fields[0].element.type_.element, Type::String);
            assert_eq!(s.fields[1].element.name.element, "age");
            match &s.fields[1].element.type_.element {
                Type::Optional(inner) => assert_eq!(inner.element, Type::Int),
                other => panic!("expected an optional type, found {:?}", other),
            }
        },
        other => panic!("expected a struct, found {:?}", other),
    }
}

#[test]
fn rejects_text_that_is_not_wdl() {
    assert!(matches!(parse("this is not wdl"), Err(WdlParserError::Syntax(DocumentSource::Unknown))));
}

#[test]
fn unsupported_version_is_a_model_error() {
    assert!(matches!(
        parse("version 1.2\nstruct S {\n  Int x\n}\n"),
        Err(WdlParserError::Model(DocumentSource::Unknown))
    ));
}

#[test]
fn two_workflows_fail_validation() {
    assert!(matches!(
        parse("version 1.0\nworkflow a {\n}\nworkflow b {\n}\n"),
        Err(WdlParserError::Model(_))
    ));
}

#[test]
fn parses_a_workflow_with_calls_and_declarations() {
    let doc = parse(
        "version 1.0\n\nworkflow main {\n  Int x = 1 + 2 * 3\n  Int y = -x\n  call foo\n  call lib.bar as baz\n}\n",
    )
    .unwrap();
    let w = match &doc.body[0].element {
        DocumentElement::Workflow(w) => w,
        other => panic!("expected a workflow, found {:?}", other),
    };
    assert_eq!(w.name.element, "main");
    assert_eq!(w.body.len(), 4);
    match &w.body[0].element {
        WorkflowElement::Declaration(d) => {
            assert_eq!(d.name.element, "x");
            match &d.expression.element {
                Expression::Binary(b) => {
                    assert_eq!(b.operator, BinaryOperator::Add);
                    assert_eq!(b.left.element, Expression::Int(Integer::Decimal(1)));
                    match &b.right.element {
                        Expression::Binary(inner) => {
                            assert_eq!(inner.operator, BinaryOperator::Mul);
                            assert_eq!(inner.left.element, Expression::Int(Integer::Decimal(2)));
                            assert_eq!(inner.right.element, Expression::Int(Integer::Decimal(3)));
                        },
                        other => panic!("expected a product, found {:?}", other),
                    }
                },
                other => panic!("expected a sum, found {:?}", other),
            }
        },
        other => panic!("expected a declaration, found {:?}", other),
    }
    match &w.body[1].element {
        WorkflowElement::Declaration(d) => match &d.expression.element {
            Expression::Unary(u) => {
                assert_eq!(u.operator, UnaryOperator::Neg);
                assert_eq!(u.expression.element, Expression::Identifier("x".to_string()));
            },
            other => panic!("expected a negation, found {:?}", other),
        },
        other => panic!("expected a declaration, found {:?}", other),
    }
    match &w.body[2].element {
        WorkflowElement::Call(c) => {
            assert_eq!(c.target.element.parts.len(), 1);
            assert_eq!(c.target.element.parts[0].element, "foo");
            assert!(c.alias.is_none());
        },
        other => panic!("expected a call, found {:?}", other),
    }
    match &w.body[3].element {
        WorkflowElement::Call(c) => {
            let parts: Vec<&str> =
                c.target.element.parts.iter().map(|p| p.element.as_str()).collect();
            assert_eq!(parts, vec!["lib", "bar"]);
            assert_eq!(c.alias.as_ref().unwrap().element, "baz");
        },
        other => panic!("expected a call, found {:?}", other),
    }
}

#[test]
fn left_operands_group_to_the_left() {
    let doc = parse("version 1.0\nworkflow w {\n  Int x = 10 - 4 - 3\n}\n").unwrap();
    let w = match &doc.body[0].element {
        DocumentElement::Workflow(w) => w,
        _ => panic!("expected a workflow"),
    };
    match &w.body[0].element {
        WorkflowElement::Declaration(d) => match &d.expression.element {
            Expression::Binary(outer) => {
                assert_eq!(outer.operator, BinaryOperator::Sub);
                assert_eq!(outer.right.element, Expression::Int(Integer::Decimal(3)));
                match &outer.left.element {
                    Expression::Binary(inner) => {
                        assert_eq!(inner.left.element, Expression::Int(Integer::Decimal(10)));
                        assert_eq!(inner.right.element, Expression::Int(Integer::Decimal(4)));
                        assert_eq!(outer.left.span.start, inner.left.span.start);
                        assert_eq!(outer.left.span.end, inner.right.span.end);
                    },
                    other => panic!("expected a difference, found {:?}", other),
                }
            },
            other => panic!("expected a difference, found {:?}", other),
        },
        _ => panic!("expected a declaration"),
    }
}

#[test]
fn collects_comments_by_line() {
    let doc = parse("version 1.0\n# about the struct\nstruct S {\n  Int x # the field\n}\n").unwrap();
    assert_eq!(doc.comments.get(1).unwrap().element, "# about the struct");
    assert_eq!(doc.comments.get(3).unwrap().element, "# the field");
    assert!(doc.comments.get(2).is_none());
    assert_eq!(doc.comments.get(1).unwrap().span.start.column, 0);
    assert_eq!(doc.comments.values().len(), 2);
}

#[test]
fn parses_metadata_and_imports() {
    let doc = parse(
        "version 1.0\nimport \"lib.wdl\" as library\nimport \"local.wdl\"\nworkflow w {\n  meta {\n    author: \"me\"\n    level: -3\n  }\n}\n",
    )
    .unwrap();
    match &doc.body[0].element {
        DocumentElement::Import(i) => {
            assert_eq!(i.uri.element, "\"lib.wdl\"");
            assert!(matches!(&i.namespace, Namespace::Explicit(_)));
        },
        other => panic!("expected an import, found {:?}", other),
    }
    match &doc.body[1].element {
        DocumentElement::Import(i) => {
            assert!(matches!(&i.namespace, Namespace::Implicit(_)));
        },
        other => panic!("expected an import, found {:?}", other),
    }
    match &doc.body[2].element {
        DocumentElement::Workflow(w) => match &w.body[0].element {
            WorkflowElement::Meta(m) => {
                assert_eq!(m.attributes.len(), 2);
                assert_eq!(m.attributes[0].element.name.element, "author");
                assert_eq!(m.attributes[1].element.value.element, MetaValue::Int(Integer::Decimal(-3)));
            },
            other => panic!("expected metadata, found {:?}", other),
        },
        other => panic!("expected a workflow, found {:?}", other),
    }
}
