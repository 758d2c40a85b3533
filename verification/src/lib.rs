//! A model of the Workflow Description Language (WDL) together with the logic that builds it from
//! the parse trees of the WDL grammar.
#![allow(non_camel_case_types)]

use vstd::prelude::*;

pub mod ast;
pub mod element_laws;
pub mod laws;
pub mod model;
pub mod order;
pub mod parser_laws;
pub mod parsers;
pub mod radix;
pub mod regex_match;
pub mod text;

verus! {

} // verus!
