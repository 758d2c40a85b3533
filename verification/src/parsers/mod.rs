//! Parsers that build the document model from WDL source text.
pub mod pest;
pub mod tree_sitter;

use crate::model::DocumentSource;
use vstd::prelude::*;

verus! {

/// Errors that parsing a WDL document may end in.
#[derive(Debug)]
pub enum WdlParserError {
    /// The parser failed on its own account: the parse it produced could not be read.
    Internal,
    /// The document could not be read from its source.
    IO(DocumentSource),
    /// The document is not valid WDL syntax.
    Syntax(DocumentSource),
    /// The document model could not be built from the parse, or is not valid.
    Model(DocumentSource),
}

} // verus!
