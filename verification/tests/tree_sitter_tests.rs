use wdl::model::{
    AccessOperation, BinaryOperator, DocumentElement, DocumentSource, Expression, Float, Integer,
    MetaValue, Namespace, Position, Span, StringPart, TaskElement, Type, UnaryOperator,
    VersionIdentifier, WorkflowElement, WorkflowNestedElement,
};
use wdl::parsers::tree_sitter::expressions::{try_into_access, try_into_expression};
use wdl::parsers::tree_sitter::declarations::{
    try_into_type, try_into_type_anchor, try_into_unbound_declaration,
};
use wdl::parsers::tree_sitter::document::{
    try_into_alias, try_into_import, try_into_namespace, try_into_struct, try_into_version,
    uri_string,
};
use wdl::parsers::tree_sitter::primitives::{try_into_float, try_into_integer};
use wdl::parsers::tree_sitter::node::{BlockDelim, BlockEnds, TSNode, TSNodeIterator};
use wdl::parsers::tree_sitter::tree::TsSyntaxNode;
use wdl::parsers::tree_sitter::workflow::{try_into_call, try_into_qualified_identifier};
use wdl::parsers::tree_sitter::TreeSitterParser;

fn span_on(line: usize, column: usize) -> Span {
    Span {
        start: Position { line, column, offset: column },
        end: Position { line, column: column + 1, offset: column + 1 },
    }
}

fn node(kind: &str, field: Option<&str>, line: usize, children: Vec<TsSyntaxNode>) -> TsSyntaxNode {
    TsSyntaxNode {
        id: line * 100,
        kind: kind.to_string(),
        field: field.map(|f| f.to_string()),
        is_error: false,
        is_missing: false,
        is_extra: false,
        span: span_on(line, 0),
        text: Some(kind.to_string()),
        children,
    }
}

fn leaf(kind: &str, line: usize) -> TsSyntaxNode {
    node(kind, None, line, Vec::new())
}

fn field(kind: &str, name: &str, line: usize) -> TsSyntaxNode {
    node(kind, Some(name), line, Vec::new())
}

fn comment(text: &str, line: usize) -> TsSyntaxNode {
    TsSyntaxNode {
        id: line * 100 + 1,
        kind: "comment".to_string(),
        field: None,
        is_error: false,
        is_missing: false,
        is_extra: true,
        span: span_on(line, 4),
        text: Some(text.to_string()),
        children: Vec::new(),
    }
}

fn kinds(it: &mut TSNodeIterator) -> Vec<String> {
    let mut out = Vec::new();
    loop {
        match it.next() {
            Some(Ok(n)) => out.push(n.kind().to_string()),
            Some(Err(e)) => panic!("unexpected error {:?}", e),
            None => return out,
        }
    }
}

#[test]
fn block_ends_of_symbols() {
    assert_eq!(BlockEnds::get_open("{"), BlockEnds::Braces);
    assert_eq!(BlockEnds::get_open("["), BlockEnds::Brackets);
    assert_eq!(BlockEnds::get_open("("), BlockEnds::Parens);
    assert_eq!(BlockEnds::get_open("\""), BlockEnds::DoubleQuotes);
    assert_eq!(BlockEnds::get_open("'"), BlockEnds::SingleQuotes);
    assert_eq!(BlockEnds::get_open("}"), BlockEnds::NoEnds);
    assert_eq!(BlockEnds::get_close("}"), BlockEnds::Braces);
    assert_eq!(BlockEnds::get_close("]"), BlockEnds::Brackets);
    assert_eq!(BlockEnds::get_close(")"), BlockEnds::Parens);
    assert_eq!(BlockEnds::get_close("'"), BlockEnds::SingleQuotes);
    assert_eq!(BlockEnds::get_close("{"), BlockEnds::NoEnds);
}

#[test]
fn block_delimiters_of_symbols() {
    assert_eq!(BlockDelim::get(","), BlockDelim::Comma);
    assert_eq!(BlockDelim::get("."), BlockDelim::Dot);
    assert_eq!(BlockDelim::get(";"), BlockDelim::NoDelim);
}

#[test]
fn children_skip_comments() {
    let root = node(
        "document",
        None,
        0,
        vec![comment("# a", 0), leaf("version", 1), comment("# b", 2), leaf("workflow", 3)],
    );
    let mut it = TSNode::from_cursor(&root).into_children();
    assert_eq!(kinds(&mut it), vec!["version", "workflow"]);
    assert!(it.next().is_none());
}

#[test]
fn children_of_a_leaf_are_none() {
    let root = leaf("identifier", 0);
    let mut it = TSNode::from_cursor(&root).into_children();
    assert!(it.next().is_none());
}

#[test]
fn error_child_is_an_error() {
    let mut bad = leaf("identifier", 1);
    bad.is_error = true;
    let root = node("call", None, 0, vec![leaf("call", 0), bad]);
    let mut it = TSNode::from_cursor(&root).into_children();
    assert!(matches!(it.next(), Some(Ok(_))));
    assert!(matches!(it.next(), Some(Err(_))));
}

#[test]
fn extra_child_that_is_no_comment_is_an_error() {
    let mut extra = leaf("identifier", 1);
    extra.is_extra = true;
    let root = node("call", None, 0, vec![extra]);
    let mut it = TSNode::from_cursor(&root).into_children();
    assert!(matches!(it.next(), Some(Err(_))));
}

#[test]
fn comma_block_in_brackets() {
    let root = node(
        "array",
        None,
        0,
        vec![
            leaf("[", 0),
            leaf("a", 1),
            leaf(",", 1),
            comment("# between", 2),
            leaf("b", 3),
            leaf("]", 4),
            comment("# after", 5),
        ],
    );
    let mut it = TSNode::from_cursor(&root).into_block(BlockEnds::Brackets, BlockDelim::Comma);
    assert_eq!(kinds(&mut it), vec!["a", "b"]);
}

#[test]
fn empty_block_in_braces() {
    let root = node("input", None, 0, vec![leaf("{", 0), leaf("}", 0)]);
    let mut it = TSNode::from_cursor(&root).into_block(BlockEnds::Braces, BlockDelim::NoDelim);
    assert!(it.next().is_none());
}

#[test]
fn block_without_close_is_an_error() {
    let root = node("array", None, 0, vec![leaf("[", 0), leaf("a", 1)]);
    let mut it = TSNode::from_cursor(&root).into_block(BlockEnds::Brackets, BlockDelim::Comma);
    assert!(matches!(it.next(), Some(Ok(_))));
    assert!(matches!(it.next(), Some(Err(_))));
}

#[test]
fn block_with_wrong_open_is_an_error() {
    let root = node("array", None, 0, vec![leaf("(", 0), leaf("a", 1), leaf(")", 1)]);
    let mut it = TSNode::from_cursor(&root).into_block(BlockEnds::Brackets, BlockDelim::Comma);
    assert!(matches!(it.next(), Some(Err(_))));
}

#[test]
fn block_with_wrong_delimiter_is_an_error() {
    let root = node(
        "array",
        None,
        0,
        vec![leaf("[", 0), leaf("a", 1), leaf(".", 1), leaf("b", 1), leaf("]", 1)],
    );
    let mut it = TSNode::from_cursor(&root).into_block(BlockEnds::Brackets, BlockDelim::Comma);
    assert!(matches!(it.next(), Some(Ok(_))));
    assert!(matches!(it.next(), Some(Err(_))));
}

#[test]
fn node_after_close_is_an_error() {
    let root = node("array", None, 0, vec![leaf("[", 0), leaf("]", 0), leaf("x", 1)]);
    let mut it = TSNode::from_cursor(&root).into_block(BlockEnds::Brackets, BlockDelim::Comma);
    assert!(matches!(it.next(), Some(Err(_))));
}

#[test]
fn quotes_take_the_kind_that_opens() {
    let root = node(
        "string",
        None,
        0,
        vec![leaf("'", 0), leaf("content", 0), leaf("\"", 0), leaf("'", 0)],
    );
    let mut it = TSNode::from_cursor(&root).into_block(BlockEnds::Quotes, BlockDelim::NoDelim);
    assert_eq!(kinds(&mut it), vec!["content", "\""]);
}

#[test]
fn terminals_and_fields() {
    let root = node(
        "array_type",
        None,
        0,
        vec![
            leaf("Array", 0),
            leaf("[", 0),
            field("int_type", "type", 0),
            leaf("]", 0),
            field("+", "nonempty", 0),
        ],
    );
    let mut it = TSNode::from_cursor(&root).into_children();
    assert!(it.skip_terminal("Array").is_ok());
    assert!(it.skip_terminal("[").is_ok());
    let item = it.next_field("type").unwrap();
    assert_eq!(item.kind(), "int_type");
    assert_eq!(item.get_field(), Some("type"));
    assert!(item.ensure_field("type").is_ok());
    assert!(item.ensure_field("name").is_err());
    assert!(it.skip_terminal("]").is_ok());
    assert!(it.get_next_field("nonempty").unwrap().is_some());
    assert!(it.get_next_field("nonempty").unwrap().is_none());
    assert!(it.next_field("nonempty").is_err());
    assert!(it.next_node().is_err());
}

#[test]
fn terminal_with_a_field_is_no_terminal() {
    let root = node("x", None, 0, vec![field("Array", "type", 0)]);
    let mut it = TSNode::from_cursor(&root).into_children();
    assert!(it.skip_terminal("Array").is_err());
}

#[test]
fn wrong_terminal_is_an_error() {
    let root = node("x", None, 0, vec![leaf("Map", 0)]);
    let mut it = TSNode::from_cursor(&root).into_children();
    assert!(it.skip_terminal("Array").is_err());
}

#[test]
fn field_with_another_name_is_an_error() {
    let root = node("x", None, 0, vec![field("identifier", "name", 0)]);
    let mut it = TSNode::from_cursor(&root).into_children();
    assert!(it.get_next_field("type").is_err());
}

#[test]
fn optional_last_terminal() {
    let root = node("optional_type", None, 0, vec![field("int_type", "type", 0), leaf("?", 0)]);
    let mut it = TSNode::from_cursor(&root).into_children();
    assert!(it.next_field("type").is_ok());
    assert_eq!(it.skip_optional_last("?").unwrap(), true);
    assert_eq!(it.skip_optional_last("?").unwrap(), false);

    let other = node("x", None, 0, vec![leaf("!", 0)]);
    let mut it = TSNode::from_cursor(&other).into_children();
    assert!(it.skip_optional_last("?").is_err());
}

#[test]
fn delimiter_set_after_an_item() {
    let root = node(
        "list",
        None,
        0,
        vec![leaf("a", 0), leaf("b", 0), leaf(",", 0), leaf("c", 0)],
    );
    let mut it = TSNode::from_cursor(&root).into_children();
    assert!(it.set_delim(BlockDelim::Comma).is_err());
    assert_eq!(it.next_node().unwrap().kind(), "a");
    assert!(it.set_delim(BlockDelim::Comma).is_ok());
    assert_eq!(it.next_node().unwrap().kind(), "b");
    assert_eq!(it.next_node().unwrap().kind(), "c");
    assert!(it.next().is_none());
}

#[test]
fn drain_checks_what_is_left() {
    let root = node("x", None, 0, vec![leaf("a", 0), comment("# c", 1), leaf("b", 2)]);
    let mut it = TSNode::from_cursor(&root).into_children();
    assert!(it.drain(true).is_err());
    let mut it = TSNode::from_cursor(&root).into_children();
    assert!(it.drain(false).is_ok());
    let mut it = TSNode::from_cursor(&root).into_children();
    it.next_node().unwrap();
    it.next_node().unwrap();
    assert!(it.drain(true).is_ok());
}

#[test]
fn node_getters() {
    let n = field("identifier", "name", 7);
    let t = TSNode::from_cursor(&n);
    assert_eq!(t.kind(), "identifier");
    assert_eq!(t.as_span(), span_on(7, 0));
    assert_eq!(t.try_as_str().unwrap(), "identifier");
    assert_eq!(t.try_field().unwrap(), "name");

    let mut unreadable = leaf("identifier", 0);
    unreadable.text = None;
    let t = TSNode::from_cursor(&unreadable);
    assert!(t.try_as_str().is_err());
    assert!(t.try_field().is_err());
    assert_eq!(t.get_field(), None);
}

#[test]
fn into_err_is_an_error() {
    let n = leaf("identifier", 0);
    assert!(TSNode::from_cursor(&n).into_err("bad identifier".to_string()).is_err());
}

#[test]
fn comments_are_collected_in_line_order() {
    let root = node(
        "document",
        None,
        0,
        vec![
            comment("# three", 3),
            node("workflow", None, 1, vec![comment("# two", 2), leaf("workflow", 1)]),
            comment("# one", 1),
        ],
    );
    let comments = TSNode::from_cursor(&root).clone_comments().unwrap();
    let got = comments.values();
    let texts: Vec<&str> = got.iter().map(|a| a.element.as_str()).collect();
    assert_eq!(texts, vec!["# one", "# two", "# three"]);
}

#[test]
fn two_comments_on_one_line_are_an_error() {
    let root = node("document", None, 0, vec![comment("# a", 1), comment("# b", 1)]);
    assert!(TSNode::from_cursor(&root).clone_comments().is_err());
}

#[test]
fn unreadable_comment_is_an_error() {
    let mut c = comment("# a", 1);
    c.text = None;
    let root = node("document", None, 0, vec![c]);
    assert!(TSNode::from_cursor(&root).clone_comments().is_err());
}

#[test]
fn parses_a_document_tree() {
    let mut parser = TreeSitterParser::new().unwrap();
    let root = parser
        .parse_tree("version 1.1\n# note\nworkflow w {}\n", DocumentSource::Unknown)
        .unwrap();
    assert_eq!(root.kind, "document");
    let mut children = TSNode::from_cursor(&root).into_children();
    let version = children.next_field("version").unwrap();
    let mut inner = version.into_children();
    assert!(inner.skip_terminal("version").is_ok());
    let identifier = inner.next_field("identifier").unwrap();
    assert_eq!(identifier.try_as_str().unwrap(), "1.1");
    let body = children.next_field("body").unwrap();
    assert_eq!(body.kind(), "document_body");
    let comments = TSNode::from_cursor(&root).clone_comments().unwrap();
    let got = comments.values();
    assert_eq!(got.len(), 1);
    assert_eq!(got[0].element, "# note");
    assert_eq!(got[0].span.start.line, 1);
}

fn parse_tree(text: &str) -> TsSyntaxNode {
    let mut parser = TreeSitterParser::new().unwrap();
    parser.parse_tree(text, DocumentSource::Unknown).unwrap()
}

fn field_child<'a>(n: &'a TsSyntaxNode, name: &str) -> &'a TsSyntaxNode {
    n.children
        .iter()
        .find(|c| c.field.as_deref() == Some(name))
        .unwrap_or_else(|| panic!("no field {} in {}", name, n.kind))
}

fn body_item<'a>(root: &'a TsSyntaxNode, kind: &str) -> &'a TsSyntaxNode {
    field_child(root, "body")
        .children
        .iter()
        .find(|c| c.kind == kind)
        .unwrap_or_else(|| panic!("no {} in the body", kind))
}

#[test]
fn ts_version_of_a_document() {
    let root = parse_tree("version 1.1\nworkflow w {}\n");
    let v = try_into_version(TSNode::from_cursor(field_child(&root, "version"))).unwrap();
    assert_eq!(v.identifier.element, VersionIdentifier::V1_1);
    assert_eq!(v.identifier.span.start.line, 0);
    assert_eq!(v.identifier.span.start.column, 8);
}

#[test]
fn ts_unsupported_version_is_an_error() {
    let root = parse_tree("version 2.0\nworkflow w {}\n");
    assert!(try_into_version(TSNode::from_cursor(field_child(&root, "version"))).is_err());
}

#[test]
fn ts_import_with_namespace_and_aliases() {
    let root = parse_tree(
        "version 1.1\nimport \"lib/util.wdl\" as u alias A as B alias C as D\nworkflow w {}\n",
    );
    let import = try_into_import(TSNode::from_cursor(body_item(&root, "import"))).unwrap();
    assert_eq!(import.uri.element, "lib/util.wdl");
    match &import.namespace {
        Namespace::Explicit(a) => assert_eq!(a.element, "u"),
        other => panic!("expected an explicit namespace, found {:?}", other),
    }
    assert_eq!(import.aliases.len(), 2);
    assert_eq!(import.aliases[0].element.from.element, "A");
    assert_eq!(import.aliases[0].element.to.element, "B");
    assert_eq!(import.aliases[1].element.from.element, "C");
    assert_eq!(import.aliases[1].element.to.element, "D");
}

#[test]
fn ts_import_takes_the_namespace_of_its_uri() {
    let root = parse_tree("version 1.0\nimport \"lib/util.wdl\"\nworkflow w {}\n");
    let import = try_into_import(TSNode::from_cursor(body_item(&root, "import"))).unwrap();
    assert_eq!(import.namespace, Namespace::from_uri("lib/util.wdl"));
    assert!(import.aliases.is_empty());
}

#[test]
fn ts_struct_with_fields() {
    let root = parse_tree(
        "version 1.1\nstruct Person {\n  String name\n  Int? age\n  Array[File]+ files\n  Map[String, Int] scores\n}\n",
    );
    let s = try_into_struct(TSNode::from_cursor(body_item(&root, "struct"))).unwrap();
    assert_eq!(s.name.element, "Person");
    assert_eq!(s.fields.len(), 4);
    assert_eq!(s.fields[0].element.name.element, "name");
    assert_eq!(s.fields[0].element.type_.element, Type::String);
    match &s.fields[1].element.type_.element {
        Type::Optional(inner) => assert_eq!(inner.element, Type::Int),
        other => panic!("expected an optional type, found {:?}", other),
    }
    match &s.fields[2].element.type_.element {
        Type::Array { item, non_empty } => {
            assert_eq!(item.element, Type::File);
            assert!(*non_empty);
        },
        other => panic!("expected an array type, found {:?}", other),
    }
    match &s.fields[3].element.type_.element {
        Type::Mapping { key, value } => {
            assert_eq!(key.element, Type::String);
            assert_eq!(value.element, Type::Int);
        },
        other => panic!("expected a map type, found {:?}", other),
    }
    assert_eq!(s.fields[3].element.name.element, "scores");
}

#[test]
fn ts_user_type_and_plain_array() {
    let root = parse_tree("version 1.1\nstruct A {\n  Person p\n  Array[Boolean] flags\n}\n");
    let s = try_into_struct(TSNode::from_cursor(body_item(&root, "struct"))).unwrap();
    assert_eq!(s.fields[0].element.type_.element, Type::User("Person".to_string()));
    match &s.fields[1].element.type_.element {
        Type::Array { item, non_empty } => {
            assert_eq!(item.element, Type::Boolean);
            assert!(!*non_empty);
        },
        other => panic!("expected an array type, found {:?}", other),
    }
}

#[test]
fn ts_pair_type_in_parentheses() {
    let root = node(
        "pair_type",
        None,
        0,
        vec![
            leaf("Pair", 0),
            leaf("(", 0),
            field("int_type", "left", 0),
            leaf(",", 0),
            field("object_type", "right", 0),
            leaf(")", 0),
        ],
    );
    match try_into_type(TSNode::from_cursor(&root)).unwrap() {
        Type::Pair { left, right } => {
            assert_eq!(left.element, Type::Int);
            assert_eq!(right.element, Type::Object);
        },
        other => panic!("expected a pair type, found {:?}", other),
    }
}

#[test]
fn ts_unknown_type_is_an_error() {
    let root = leaf("tuple_type", 0);
    assert!(try_into_type(TSNode::from_cursor(&root)).is_err());
    let anchored = try_into_type_anchor(TSNode::from_cursor(&leaf("float_type", 3))).unwrap();
    assert_eq!(anchored.element, Type::Float);
    assert_eq!(anchored.span, span_on(3, 0));
}

#[test]
fn ts_optional_without_question_mark_is_an_error() {
    let root = node("optional_type", None, 0, vec![field("int_type", "type", 0), leaf("!", 0)]);
    assert!(try_into_type(TSNode::from_cursor(&root)).is_err());
}

#[test]
fn ts_unbound_declaration_needs_a_name() {
    let root = node("unbound_declaration", None, 0, vec![field("int_type", "type", 0)]);
    assert!(try_into_unbound_declaration(TSNode::from_cursor(&root)).is_err());
    let ok = node(
        "unbound_declaration",
        None,
        0,
        vec![field("int_type", "type", 0), field("identifier", "name", 0)],
    );
    let d = try_into_unbound_declaration(TSNode::from_cursor(&ok)).unwrap();
    assert_eq!(d.type_.element, Type::Int);
    assert_eq!(d.name.element, "identifier");
}

#[test]
fn ts_alias_with_a_missing_keyword_is_an_error() {
    let root = node(
        "import_alias",
        None,
        0,
        vec![leaf("alias", 0), field("identifier", "from", 0), field("identifier", "to", 0)],
    );
    assert!(try_into_alias(TSNode::from_cursor(&root)).is_err());
}

#[test]
fn ts_namespace_is_the_text_of_its_node() {
    let n = field("identifier", "namespace", 2);
    match try_into_namespace(TSNode::from_cursor(&n)).unwrap() {
        Namespace::Explicit(a) => {
            assert_eq!(a.element, "identifier");
            assert_eq!(a.span, span_on(2, 0));
        },
        other => panic!("expected an explicit namespace, found {:?}", other),
    }
}

#[test]
fn ts_uri_joins_the_parts_between_quotes() {
    let root = node(
        "simple_string",
        Some("uri"),
        0,
        vec![leaf("'", 0), leaf("a/", 0), leaf("b.wdl", 0), leaf("'", 0)],
    );
    let uri = uri_string(TSNode::from_cursor(&root)).unwrap();
    assert_eq!(uri.element, "a/b.wdl");
    let open = node("simple_string", None, 0, vec![leaf("'", 0), leaf("a", 0)]);
    assert!(uri_string(TSNode::from_cursor(&open)).is_err());
}

#[test]
fn ts_literals_from_node_text() {
    let n = leaf("0x1F", 0);
    assert_eq!(try_into_integer(TSNode::from_cursor(&n)).unwrap(), Integer::Hex(31));
    let n = leaf("1.5e3", 0);
    assert_eq!(
        try_into_float(TSNode::from_cursor(&n)).unwrap(),
        Float::Scientific("1.5e3".to_string())
    );
    let n = leaf("abc", 0);
    assert!(try_into_integer(TSNode::from_cursor(&n)).is_err());
    assert!(try_into_float(TSNode::from_cursor(&n)).is_err());
}

#[test]
fn ts_qualified_identifier_of_a_call() {
    let root = parse_tree("version 1.1\nworkflow w {\n  call lib.align\n}\n");
    let workflow = body_item(&root, "workflow");
    let body = field_child(workflow, "body");
    let call = body.children.iter().find(|c| c.kind == "call").unwrap();
    let target = field_child(call, "target");
    let q = try_into_qualified_identifier(TSNode::from_cursor(target)).unwrap();
    let names: Vec<&str> = q.parts.iter().map(|p| p.element.as_str()).collect();
    assert_eq!(names, vec!["lib", "align"]);
    assert_eq!(q.parts[1].span.start.column, 11);
}

#[test]
fn ts_qualified_identifier_needs_dots() {
    let root = node(
        "qualified_identifier",
        None,
        0,
        vec![leaf("a", 0), leaf(",", 0), leaf("b", 0)],
    );
    assert!(try_into_qualified_identifier(TSNode::from_cursor(&root)).is_err());
    let ok = node(
        "qualified_identifier",
        None,
        0,
        vec![leaf("a", 0), leaf(".", 0), leaf("b", 0), leaf(".", 0), leaf("c", 0)],
    );
    let q = try_into_qualified_identifier(TSNode::from_cursor(&ok)).unwrap();
    assert_eq!(q.parts.len(), 3);
}

fn assert_texts_agree(n: &TsSyntaxNode, src: &str) {
    assert!(n.span.start.offset <= n.span.end.offset && n.span.end.offset <= src.len());
    assert_eq!(n.text.as_deref(), Some(&src[n.span.start.offset..n.span.end.offset]));
    for c in &n.children {
        assert_texts_agree(c, src);
    }
}

#[test]
fn ts_node_texts_are_the_text_between_their_offsets() {
    let src = "version 1.1\n# a comment\nstruct P {\n  Map[String, Int] m\n}\n";
    let root = parse_tree(src);
    assert_texts_agree(&root, src);
}

#[test]
fn trailing_comma_block_with_comments() {
    let root = node(
        "array",
        None,
        0,
        vec![
            comment("# before", 0),
            leaf("[", 1),
            leaf("a", 1),
            leaf(",", 1),
            comment("# between", 2),
            leaf("b", 3),
            leaf(",", 3),
            leaf("]", 4),
            comment("# after", 5),
        ],
    );
    let mut it = TSNode::from_cursor(&root).into_block(BlockEnds::Brackets, BlockDelim::Comma);
    assert_eq!(kinds(&mut it), vec!["a", "b"]);
}

#[test]
fn exhausted_iterator_error_is_the_parser_error() {
    let root = node("x", None, 0, vec![]);
    let mut it = TSNode::from_cursor(&root).into_children();
    match it.next_node() {
        Err(wdl::model::ModelError::Grammar { kind, value }) => {
            assert_eq!(kind, "parser");
            assert_eq!(value, "Expected next node but iterator is exhausted");
        },
        other => panic!("expected the parser error, found {:?}", other),
    }
}

const TS_DOCUMENT: &str = r#"version 1.1

# a task
task greet {
  input {
    String who
    Int times = 2
  }
  command <<<
    echo "hello ~{who}"
  >>>
  runtime {
    docker: "ubuntu:latest"
  }
  output {
    String out = read_string(stdout())
  }
  meta {
    author: "someone"
    tags: ["a", "b"]
    limits: { cpu: 2, ok: true }
  }
}

workflow main {
  input {
    Array[String] names
  }
  scatter (n in names) {
    call greet as g { input: who = n, times = 1 + 2 }
  }
  if (length(names) > 0) {
    Int first = if true then 1 else 0
  }
  Map[String, Int] m = {"x": 1}
  Object p = (1, 2)
  Int item = names[0].length
  output {
    Array[String] outs = g.out
  }
}
"#;

fn ts_parse(text: &str) -> Result<wdl::model::Document, wdl::parsers::WdlParserError> {
    let mut parser = TreeSitterParser::new().unwrap();
    parser.parse_text(text, DocumentSource::Uri("mem://doc".to_string()))
}

#[test]
fn ts_parse_text_builds_a_document() {
    let doc = ts_parse(TS_DOCUMENT).unwrap();
    assert_eq!(doc.source, DocumentSource::Uri("mem://doc".to_string()));
    assert_eq!(doc.version.element.identifier.element, VersionIdentifier::V1_1);
    assert_eq!(doc.body.len(), 2);
    let comments = doc.comments.values();
    assert_eq!(comments.len(), 1);
    assert_eq!(comments[0].element, "# a task");
    match &doc.body[0].element {
        DocumentElement::Task(t) => {
            assert_eq!(t.name.element, "greet");
            assert_eq!(t.body.len(), 5);
            match &t.body[1].element {
                TaskElement::Command(c) => {
                    assert!(c.parts.iter().any(|p| matches!(
                        &p.element,
                        StringPart::Placeholder(Expression::Identifier(x)) if x == "who"
                    )));
                },
                other => panic!("expected the command, found {:?}", other),
            }
            match &t.body[2].element {
                TaskElement::Runtime(r) => {
                    assert_eq!(r.attributes.len(), 1);
                    assert_eq!(r.attributes[0].element.name.element, "docker");
                },
                other => panic!("expected the runtime, found {:?}", other),
            }
            match &t.body[4].element {
                TaskElement::Meta(m) => {
                    assert_eq!(m.attributes.len(), 3);
                    match &m.attributes[1].element.value.element {
                        MetaValue::Array(a) => assert_eq!(a.elements.len(), 2),
                        other => panic!("expected an array, found {:?}", other),
                    }
                    match &m.attributes[2].element.value.element {
                        MetaValue::Object(o) => {
                            assert_eq!(o.fields.len(), 2);
                            assert_eq!(o.fields[1].element.value.element, MetaValue::Boolean(true));
                        },
                        other => panic!("expected an object, found {:?}", other),
                    }
                },
                other => panic!("expected the meta section, found {:?}", other),
            }
        },
        other => panic!("expected a task, found {:?}", other),
    }
    match &doc.body[1].element {
        DocumentElement::Workflow(w) => {
            assert_eq!(w.name.element, "main");
            assert_eq!(w.body.len(), 7);
            match &w.body[1].element {
                WorkflowElement::Scatter(s) => {
                    assert_eq!(s.name.element, "n");
                    assert_eq!(s.expression.element, Expression::Identifier("names".to_string()));
                    match &s.body[0].element {
                        WorkflowNestedElement::Call(c) => {
                            assert_eq!(c.target.element.parts.len(), 1);
                            assert_eq!(c.target.element.parts[0].element, "greet");
                            assert_eq!(c.alias.as_ref().unwrap().element, "g");
                            let inputs = c.inputs.as_ref().unwrap();
                            assert_eq!(inputs.len(), 2);
                            assert_eq!(inputs[0].element.name.element, "who");
                            match &inputs[1].element.expression.as_ref().unwrap().element {
                                Expression::Binary(b) => {
                                    assert_eq!(b.operator, BinaryOperator::Add);
                                    assert_eq!(b.left.element, Expression::Int(Integer::Decimal(1)));
                                    assert_eq!(b.right.element, Expression::Int(Integer::Decimal(2)));
                                },
                                other => panic!("expected a sum, found {:?}", other),
                            }
                        },
                        other => panic!("expected a call, found {:?}", other),
                    }
                },
                other => panic!("expected a scatter, found {:?}", other),
            }
            match &w.body[2].element {
                WorkflowElement::Conditional(c) => {
                    match &c.expression.element {
                        Expression::Binary(b) => {
                            assert_eq!(b.operator, BinaryOperator::Gt);
                            match &b.left.element {
                                Expression::Apply(a) => {
                                    assert_eq!(a.name.element, "length");
                                    assert_eq!(a.arguments.len(), 1);
                                },
                                other => panic!("expected an application, found {:?}", other),
                            }
                        },
                        other => panic!("expected a comparison, found {:?}", other),
                    }
                    match &c.body[0].element {
                        WorkflowNestedElement::Declaration(d) => {
                            assert!(matches!(d.expression.element, Expression::Ternary(_)));
                        },
                        other => panic!("expected a declaration, found {:?}", other),
                    }
                },
                other => panic!("expected a conditional, found {:?}", other),
            }
            match &w.body[3].element {
                WorkflowElement::Declaration(d) => match &d.expression.element {
                    Expression::Mapping(m) => assert_eq!(m.entries.len(), 1),
                    other => panic!("expected a map literal, found {:?}", other),
                },
                other => panic!("expected a declaration, found {:?}", other),
            }
            match &w.body[4].element {
                WorkflowElement::Declaration(d) => {
                    assert!(matches!(d.expression.element, Expression::Pair(_)))
                },
                other => panic!("expected a declaration, found {:?}", other),
            }
            match &w.body[5].element {
                WorkflowElement::Declaration(d) => match &d.expression.element {
                    Expression::Access(a) => {
                        assert_eq!(a.accesses.len(), 1);
                        assert_eq!(
                            a.accesses[0].element,
                            AccessOperation::Field("length".to_string())
                        );
                        match &a.collection.element {
                            Expression::Access(inner) => assert_eq!(
                                inner.accesses[0].element,
                                AccessOperation::Index(Expression::Int(Integer::Decimal(0)))
                            ),
                            other => panic!("expected an index, found {:?}", other),
                        }
                    },
                    other => panic!("expected an access, found {:?}", other),
                },
                other => panic!("expected a declaration, found {:?}", other),
            }
        },
        other => panic!("expected a workflow, found {:?}", other),
    }
}

#[test]
fn ts_parse_text_of_an_invalid_document_is_a_model_error() {
    let res = ts_parse("version 1.1\nworkflow a {}\nworkflow b {}\n");
    match res {
        Err(wdl::parsers::WdlParserError::Model(s)) => {
            assert_eq!(s, DocumentSource::Uri("mem://doc".to_string()))
        },
        other => panic!("expected a model error, found {:?}", other),
    }
}

#[test]
fn ts_call_with_alias_and_inputs() {
    let root = parse_tree("version 1.1\nworkflow w {\n  call lib.t as u { input: a, b = \"x\" }\n}\n");
    let body = field_child(body_item(&root, "workflow"), "body");
    let call = body.children.iter().find(|c| c.kind == "call").unwrap();
    let c = try_into_call(TSNode::from_cursor(call)).unwrap();
    assert_eq!(c.target.element.parts.len(), 2);
    assert_eq!(c.target.element.parts[1].element, "t");
    assert_eq!(c.alias.unwrap().element, "u");
    let inputs = c.inputs.unwrap();
    assert_eq!(inputs.len(), 2);
    assert!(inputs[0].element.expression.is_none());
    match &inputs[1].element.expression.as_ref().unwrap().element {
        Expression::String(s) => assert_eq!(s.parts.len(), 1),
        other => panic!("expected a string, found {:?}", other),
    }
}

#[test]
fn ts_call_without_inputs() {
    let root = parse_tree("version 1.1\nworkflow w {\n  call t\n}\n");
    let body = field_child(body_item(&root, "workflow"), "body");
    let call = body.children.iter().find(|c| c.kind == "call").unwrap();
    let c = try_into_call(TSNode::from_cursor(call)).unwrap();
    assert!(c.alias.is_none());
    assert!(c.inputs.is_none());
}

#[test]
fn ts_access_of_an_index() {
    let root = parse_tree("version 1.1\nworkflow w {\n  Int x = xs[2]\n}\n");
    let body = field_child(body_item(&root, "workflow"), "body");
    let decl = body.children.iter().find(|c| c.kind == "bound_declaration").unwrap();
    let access = try_into_access(TSNode::from_cursor(field_child(decl, "expression"))).unwrap();
    assert_eq!(access.collection.element, Expression::Identifier("xs".to_string()));
    assert_eq!(access.accesses.len(), 1);
    assert_eq!(access.accesses[0].element, AccessOperation::Index(Expression::Int(Integer::Decimal(2))));
}

#[test]
fn ts_access_of_something_else_is_an_error() {
    let root = parse_tree("version 1.1\nworkflow w {\n  Int x = 2\n}\n");
    let body = field_child(body_item(&root, "workflow"), "body");
    let decl = body.children.iter().find(|c| c.kind == "bound_declaration").unwrap();
    assert!(try_into_access(TSNode::from_cursor(field_child(decl, "expression"))).is_err());
}

#[test]
fn ts_expressions_of_literals_and_operators() {
    let root = parse_tree(
        "version 1.1\nworkflow w {\n  Int a = -(3)\n  Boolean b = !true && false\n  Array[Int] c = [1, 0x10, 017]\n  Float d = 1.5e3\n  Object e = object { k: None }\n}\n",
    );
    let body = field_child(body_item(&root, "workflow"), "body");
    let decls: Vec<&TsSyntaxNode> =
        body.children.iter().filter(|c| c.kind == "bound_declaration").collect();
    let exprs: Vec<Expression> = decls
        .iter()
        .map(|d| try_into_expression(TSNode::from_cursor(field_child(d, "expression"))).unwrap())
        .collect();
    match &exprs[0] {
        Expression::Unary(u) => {
            assert_eq!(u.operator, UnaryOperator::Neg);
            assert!(matches!(u.expression.element, Expression::Group(_)));
        },
        other => panic!("expected a negation, found {:?}", other),
    }
    match &exprs[1] {
        Expression::Binary(b) => {
            assert_eq!(b.operator, BinaryOperator::And);
            assert!(matches!(b.left.element, Expression::Unary(_)));
            assert_eq!(b.right.element, Expression::Boolean(false));
        },
        other => panic!("expected a conjunction, found {:?}", other),
    }
    match &exprs[2] {
        Expression::Array(a) => {
            assert_eq!(a.elements.len(), 3);
            assert_eq!(a.elements[1].element, Expression::Int(Integer::Hex(16)));
            assert_eq!(a.elements[2].element, Expression::Int(Integer::Octal(15)));
        },
        other => panic!("expected an array, found {:?}", other),
    }
    assert_eq!(exprs[3], Expression::Float(Float::Scientific("1.5e3".to_string())));
    match &exprs[4] {
        Expression::Object(o) => {
            assert_eq!(o.object_type.element, "object");
            assert_eq!(o.fields.len(), 1);
            assert_eq!(o.fields[0].element.expression.element, Expression::NoneValue);
        },
        other => panic!("expected an object, found {:?}", other),
    }
}


#[test]
fn ts_parse_text_of_text_that_is_not_wdl_is_a_model_error() {
    match ts_parse("this is not wdl") {
        Err(wdl::parsers::WdlParserError::Model(s)) => {
            assert_eq!(s, DocumentSource::Uri("mem://doc".to_string()))
        },
        other => panic!("expected a model error, found {:?}", other),
    }
}

#[test]
fn ts_meta_values_and_strings() {
    let root = parse_tree(
        "version 1.1\nworkflow w {\n  meta {\n    a: null\n    b: 'x\\ty'\n    c: -2\n    d: 0.5\n  }\n}\n",
    );
    let body = field_child(body_item(&root, "workflow"), "body");
    let meta = body.children.iter().find(|c| c.kind == "meta").unwrap();
    let m = wdl::parsers::tree_sitter::meta::try_into_meta(TSNode::from_cursor(meta)).unwrap();
    assert_eq!(m.attributes.len(), 4);
    assert_eq!(m.attributes[0].element.name.element, "a");
    assert_eq!(m.attributes[0].element.value.element, MetaValue::Null);
    match &m.attributes[1].element.value.element {
        MetaValue::String(s) => {
            assert_eq!(s.parts.len(), 3);
            assert_eq!(s.parts[1].element, wdl::model::MetaStringPart::Escape("\\t".to_string()));
        },
        other => panic!("expected a string, found {:?}", other),
    }
    assert_eq!(m.attributes[2].element.value.element, MetaValue::Int(Integer::Decimal(-2)));
    assert_eq!(
        m.attributes[3].element.value.element,
        MetaValue::Float(Float::Decimal("0.5".to_string()))
    );
    assert!(wdl::parsers::tree_sitter::meta::try_into_parameter_meta(TSNode::from_cursor(meta)).is_err());
}

#[test]
fn ts_task_with_command_parts() {
    let root = parse_tree("version 1.1\ntask t {\n  command <<<\n    echo ~{x} \\>>\n  >>>\n}\n");
    let t = wdl::parsers::tree_sitter::task::try_into_task(TSNode::from_cursor(body_item(&root, "task"))).unwrap();
    assert_eq!(t.name.element, "t");
    match &t.body[0].element {
        TaskElement::Command(c) => {
            assert!(c.parts.iter().any(|p| matches!(&p.element, StringPart::Placeholder(Expression::Identifier(x)) if x == "x")));
        },
        other => panic!("expected a command, found {:?}", other),
    }
}

fn parser_message(e: wdl::model::ModelError) -> String {
    match e {
        wdl::model::ModelError::Grammar { kind, value } => {
            assert_eq!(kind, "parser");
            value
        },
        other => panic!("expected a parser error, found {:?}", other),
    }
}

#[test]
fn block_errors_name_what_was_expected() {
    let wrong_open = node("array", None, 0, vec![leaf("(", 0), leaf("a", 1), leaf(")", 1)]);
    let mut it = TSNode::from_cursor(&wrong_open).into_block(BlockEnds::Brackets, BlockDelim::Comma);
    match it.next() {
        Some(Err(e)) => assert_eq!(parser_message(e), "Expected open symbol Brackets but found Parens"),
        other => panic!("expected an error, found {:?}", other.map(|r| r.is_ok())),
    }
    let unclosed = node("array", None, 0, vec![leaf("[", 0), leaf("a", 1)]);
    let mut it = TSNode::from_cursor(&unclosed).into_block(BlockEnds::Brackets, BlockDelim::Comma);
    assert!(matches!(it.next(), Some(Ok(_))));
    match it.next() {
        Some(Err(e)) => assert_eq!(
            parser_message(e),
            "Expected close symbol Brackets but iterator is exhausted"
        ),
        other => panic!("expected an error, found {:?}", other.map(|r| r.is_ok())),
    }
    let wrong_delim = node(
        "array",
        None,
        0,
        vec![leaf("[", 0), leaf("a", 1), leaf(".", 1), leaf("b", 1), leaf("]", 1)],
    );
    let mut it = TSNode::from_cursor(&wrong_delim).into_block(BlockEnds::Brackets, BlockDelim::Comma);
    assert!(matches!(it.next(), Some(Ok(_))));
    match it.next() {
        Some(Err(e)) => assert_eq!(parser_message(e), "Expected delimiter Comma but found Dot"),
        other => panic!("expected an error, found {:?}", other.map(|r| r.is_ok())),
    }
}

#[test]
fn after_the_end_a_delimiter_cannot_be_set() {
    let root = node("array", None, 0, vec![leaf("[", 0), leaf("a", 1), leaf("]", 1)]);
    let mut it = TSNode::from_cursor(&root).into_block(BlockEnds::Brackets, BlockDelim::NoDelim);
    assert!(matches!(it.next(), Some(Ok(_))));
    assert!(it.next().is_none());
    assert!(it.set_delim(BlockDelim::Comma).is_err());
}

#[test]
fn wrong_terminal_names_both_kinds() {
    let root = node("call", None, 0, vec![leaf("call", 0)]);
    let mut it = TSNode::from_cursor(&root).into_children();
    match it.skip_terminal("scatter") {
        Err(e) => assert_eq!(
            parser_message(e),
            "Expected next node to be a terminal with kind 'scatter' but was call"
        ),
        Ok(()) => panic!("expected an error"),
    }
}

#[test]
fn tree_sitter_parser_is_made() {
    assert!(TreeSitterParser::new().is_ok());
}
