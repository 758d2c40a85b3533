//! The WDL grammar of the `pest-wdl-1` crate, seen as a stream of tokens: each match of a rule
//! is a start token and an end token, nested as the matches are.
use crate::parsers::pest::tree::describes_tree;
use vstd::prelude::*;
use vstd::string::*;

verus! {

#[verifier::external_type_specification]
#[verifier::external_body]
pub struct ExGrammarRule(pest_wdl_1::Rule);

#[verifier::external_type_specification]
#[verifier::external_body]
#[verifier::reject_recursive_types(R)]
pub struct ExTokens<'i, R>(pest::iterators::Tokens<'i, R>);

#[verifier::external_type_specification]
#[verifier::external_body]
#[verifier::reject_recursive_types(R)]
pub struct ExGrammarError<R>(pest::error::Error<R>);

/// A token of a parse: the start or the end of a match of the rule named `rule`, at byte
/// `offset` of the text, which is on `line` at `column` (both counted from 1, the column in
/// characters).
#[derive(Debug)]
pub struct RawToken {
    pub is_start: bool,
    pub rule: String,
    pub offset: usize,
    pub line: usize,
    pub column: usize,
}

/// A token, as plain values; its line and column are counted from 1, as pest counts them.
pub struct TokenView {
    pub is_start: bool,
    pub rule: Seq<char>,
    pub offset: usize,
    pub line: int,
    pub column: int,
}

impl View for RawToken {
    type V = TokenView;

    open spec fn view(&self) -> TokenView {
        TokenView {
            is_start: self.is_start,
            rule: self.rule@,
            offset: self.offset,
            line: self.line as int,
            column: self.column as int,
        }
    }
}

/// The tokens of the parse of `text` as a WDL document by `pest_wdl_1::parse_document`, or `None`
/// when the grammar rejects the text. A parse may also fail for want of resources (pest's stack
/// guard and call limit), which this name does not describe.
pub uninterp spec fn wdl_parse_tokens(text: Seq<char>) -> Option<Seq<TokenView>>;

/// The tokens that a token iterator has yet to return.
pub uninterp spec fn token_queue(tokens: pest::iterators::Tokens<'_, pest_wdl_1::Rule>) -> Seq<TokenView>;

/// Parses `text` as a WDL document with `pest_wdl_1::parse_document` and returns the tokens of
/// the document's match (`Pair::tokens`). The contract claims that a parse that succeeds gives
/// the tokens named `wdl_parse_tokens`, that a text the grammar rejects fails to parse, and that
/// the tokens describe a tree of matches (`describes_tree`): pest gives, for the document's
/// match, its start token, the tokens of its nested matches in order, and its end token, each
/// end naming the rule of its start; every position is a byte offset of the text on a character
/// boundary, an end never before its start, with line and column counted from 1; and every
/// rule that yields tokens (the grammar's rules that are not silent, and `EOI`) is one that
/// `WdlRule` names. A parse may also fail where the grammar accepts the text: pest fails a parse
/// when the stack runs low or a process-wide call limit is reached, so nothing is claimed of
/// success.
#[verifier::external_body]
pub(crate) fn document_tokens(text: &str) -> (res: Result<pest::iterators::Tokens<'_, pest_wdl_1::Rule>, pest::error::Error<pest_wdl_1::Rule>>)
    ensures
        res matches Ok(t) ==> wdl_parse_tokens(text@) == Some(token_queue(t)),
        res matches Ok(t) ==> describes_tree(token_queue(t), text.spec_bytes()),
        wdl_parse_tokens(text@) is None ==> res is Err,
{
    match pest_wdl_1::parse_document(text) {
        Ok(pair) => Ok(pair.tokens()),
        Err(e) => Err(e),
    }
}

/// Returns the next token of `tokens` (`Tokens::next`), with the rule given by its name and the
/// position by its byte offset (`Position::pos`) and line and column (`Position::line_col`). The
/// contract claims that the iterator returns the first of the tokens it has yet to return and
/// removes it, or `None` when none is left, and that lines and columns are counted from 1
/// (`Position::line_col` starts both at 1).
#[verifier::external_body]
pub(crate) fn next_token(tokens: &mut pest::iterators::Tokens<'_, pest_wdl_1::Rule>) -> (res: Option<RawToken>)
    ensures
        token_queue(*old(tokens)).len() > 0 ==> (res matches Some(t) && t@ == token_queue(*old(tokens))[0]
            && token_queue(*final(tokens)) == token_queue(*old(tokens)).drop_first()),
        token_queue(*old(tokens)).len() == 0 ==> res is None && token_queue(*final(tokens)) == token_queue(*old(tokens)),
        res matches Some(t) ==> t.line >= 1 && t.column >= 1,
{
    let (is_start, rule, pos) = match tokens.next() {
        Some(pest::Token::Start { rule, pos }) => (true, rule, pos),
        Some(pest::Token::End { rule, pos }) => (false, rule, pos),
        None => return None,
    };
    let (line, column) = pos.line_col();
    Some(RawToken { is_start, rule: format!("{:?}", rule), offset: pos.pos(), line, column })
}

} // verus!
