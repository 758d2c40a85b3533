# wdl

A library for the Workflow Description Language (WDL), verified with Verus.

- `src/model.rs`: the document model. Every element is anchored to the span of source text it
  was built from; comments are kept by line; documents, tasks and workflows are validated.
- `src/ast.rs`: an abstract syntax tree with its own literals, operators and validation.
- `src/parsers/pest`: builds the model from WDL text with the `pest-wdl-1` grammar. The parse
  is read into a tree of plain values, and each builder's contract states which tree it accepts
  and what it builds from it.
- `src/parsers/tree_sitter`: reads the syntax tree that the `tree-sitter-wdl-1` grammar gives a
  document, walks it with a node iterator that checks blocks (opening symbol, delimited items,
  closing symbol, comments anywhere), and builds the whole model from it: expressions,
  declarations, metadata, tasks, workflows and documents. Each builder's contract states the
  tree it accepts and what it builds from it; `TreeSitterParser::parse_text` then validates the
  document.
- `src/laws.rs`: properties that relate the operations to one another.

`app/` holds what stays outside the verified library: reading documents from files, the error
types with their messages, and the floating-point values of float literals.
