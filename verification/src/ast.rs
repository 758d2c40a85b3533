//! The abstract syntax tree of a WDL document, each element tied to the positions in the
//! source document it was derived from.
use crate::model::{float_text, has_exponent_letter, is_float_text, negate_text, negated_text};
use crate::radix::{parse_radix, radix_value};
use crate::regex_match::{first_capture, regex_first_group};
use crate::text::{concat, from_chars, owned, str_eq, to_chars, utf8_len, utf8_len_of};
use vstd::prelude::*;

verus! {

// operators
pub const POS: &'static str = "+";
pub const NEG: &'static str = "-";
pub const ADD: &'static str = "+";
pub const SUB: &'static str = "-";
pub const MUL: &'static str = "*";
pub const DIV: &'static str = "/";
pub const MOD: &'static str = "%";
pub const GT: &'static str = ">";
pub const LT: &'static str = "<";
pub const GTE: &'static str = ">=";
pub const LTE: &'static str = "<=";
pub const EQ: &'static str = "==";
pub const NEQ: &'static str = "!=";
pub const AND: &'static str = "&&";
pub const OR: &'static str = "||";
pub const NOT: &'static str = "!";

/// The errors of building and checking the syntax tree.
#[derive(Debug, PartialEq)]
pub enum AstError {
    /// Only a decimal integer can be negated.
    NegateNonDecimal,
    /// Invalid integer literal.
    Integer(String),
    /// Invalid float literal.
    Float(String),
    /// Invalid unary operator.
    UnaryOperator(String),
    /// Invalid binary operator.
    BinaryOperator(String),
    /// Invalid version identifier.
    Version(String),
    /// No namespace can be derived from the URI of an import.
    Namespace(String),
    /// A task holds more than one element of a kind that must be unique.
    TaskRepeatedElement(String),
    /// A task is missing its command.
    TaskMissingCommand,
    /// A workflow holds more than one element of a kind that must be unique.
    WorkflowRepeatedElement(String),
    /// The document has no struct, task or workflow.
    DocumentIncomplete,
    /// The document has more than one workflow.
    DocumentMultipleWorkflows,
}

#[derive(Debug)]
pub struct Location {
    /// Line of the source file
    pub line: usize,
    /// Column of the source line
    pub column: usize,
    /// Absolute byte offset
    pub offset: usize,
}

/// Wrapper around a syntax element of type `T` that also holds the positions in the source
/// document from which it was derived.
#[derive(Debug)]
pub struct Node<T> {
    /// The syntax element.
    pub element: T,
    /// The starting position in the source document from which this node was derived.
    pub start: Location,
    /// The ending position in the source document from which this node was derived.
    pub end: Location,
}

impl<T> Node<T> {
    /// The syntax element.
    pub fn get(&self) -> (res: &T)
        ensures
            *res == self.element,
    {
        &self.element
    }
}

/// An integer literal: a decimal value, or the text of an octal or hexadecimal literal.
#[derive(Debug)]
pub enum Integer {
    Decimal(i64),
    Octal(String),
    Hex(String),
}

/// The first two bytes of `s`, if it has that many, are whole characters.
pub open spec fn two_byte_prefix_whole(s: Seq<char>) -> bool {
    utf8_len_of(s) >= 2 ==> ((s.len() >= 1 && utf8_len(s[0]) == 2) || (s.len() >= 2 && utf8_len(
        s[0],
    ) == 1 && utf8_len(s[1]) == 1))
}

/// `s` starts with `0` and one of the letters `a` and `b`.
pub open spec fn has_radix_prefix(s: Seq<char>, a: char, b: char) -> bool {
    s.len() >= 2 && s[0] == '0' && (s[1] == a || s[1] == b)
}

impl Integer {
    /// Negates a decimal integer; only a decimal integer can be negated.
    pub fn negate(&mut self) -> (res: Result<(), AstError>)
        requires
            *old(self) matches Integer::Decimal(i) ==> i != i64::MIN,
        ensures
            match *old(self) {
                Integer::Decimal(i) => res is Ok && *final(self) == Integer::Decimal((-i) as i64),
                _ => res == Err::<(), AstError>(AstError::NegateNonDecimal) && *final(self)
                    == *old(self),
            },
    {
        match self {
            Integer::Decimal(i) => {
                *i = 0 - *i;
            },
            _ => {
                return Err(AstError::NegateNonDecimal);
            },
        }
        Ok(())
    }

    /// Parses an integer literal: `0o`/`0O` or `0x`/`0X` mark an octal or hexadecimal literal,
    /// kept as text; anything else is read as a decimal `i64`.
    pub fn from_str(s: &str) -> (res: Result<Self, AstError>)
        requires
            two_byte_prefix_whole(s@),
        ensures
            has_radix_prefix(s@, 'o', 'O') ==> (res matches Ok(Integer::Octal(t)) && t@ == s@),
            has_radix_prefix(s@, 'x', 'X') ==> (res matches Ok(Integer::Hex(t)) && t@ == s@),
            !has_radix_prefix(s@, 'o', 'O') && !has_radix_prefix(s@, 'x', 'X') ==> match radix_value(
                s@,
                10,
            ) {
                Some(v) => res == Ok::<Integer, AstError>(Integer::Decimal(v)),
                None => res matches Err(AstError::Integer(t)) && t@ == s@,
            },
    {
        let chars = to_chars(s);
        if chars.len() >= 2 && chars[0] == '0' {
            if chars[1] == 'o' || chars[1] == 'O' {
                return Ok(Integer::Octal(owned(s)));
            } else if chars[1] == 'x' || chars[1] == 'X' {
                return Ok(Integer::Hex(owned(s)));
            }
        }
        assert(chars@.skip(0) =~= chars@);
        match parse_radix(&chars, 0, 10) {
            Some(v) => Ok(Integer::Decimal(v)),
            None => Err(AstError::Integer(owned(s))),
        }
    }

    /// The value of the literal: a decimal value as it is, the text of an octal or hexadecimal
    /// literal read in its radix (prefix included, as `i64::from_str_radix` reads it).
    pub fn try_into_i64(self) -> (res: Result<i64, AstError>)
        ensures
            match self {
                Integer::Decimal(i) => res == Ok::<i64, AstError>(i),
                Integer::Octal(t) => match radix_value(t@, 8) {
                    Some(v) => res == Ok::<i64, AstError>(v),
                    None => res matches Err(AstError::Integer(e)) && e@ == t@,
                },
                Integer::Hex(t) => match radix_value(t@, 16) {
                    Some(v) => res == Ok::<i64, AstError>(v),
                    None => res matches Err(AstError::Integer(e)) && e@ == t@,
                },
            },
    {
        match self {
            Integer::Decimal(i) => Ok(i),
            Integer::Octal(t) => {
                let chars = to_chars(t.as_str());
                assert(chars@.skip(0) =~= chars@);
                match parse_radix(&chars, 0, 8) {
                    Some(v) => Ok(v),
                    None => Err(AstError::Integer(t)),
                }
            },
            Integer::Hex(t) => {
                let chars = to_chars(t.as_str());
                assert(chars@.skip(0) =~= chars@);
                match parse_radix(&chars, 0, 16) {
                    Some(v) => Ok(v),
                    None => Err(AstError::Integer(t)),
                }
            },
        }
    }
}

/// A float literal, held as the text it was written as: `Scientific` when that text holds an
/// exponent letter, `Decimal` (a text that parses as an `f64`) otherwise.
#[derive(Debug)]
pub enum Float {
    Decimal(String),
    Scientific(String),
}

/// The text of the negation of the scientific literal written as `s`: a leading `-` removed,
/// otherwise a `-` put in front.
pub open spec fn negated_scientific(s: Seq<char>) -> Seq<char> {
    if s.len() > 0 && s[0] == '-' {
        s.skip(1)
    } else {
        seq!['-'] + s
    }
}

impl Float {
    /// The text of this literal.
    pub open spec fn text(self) -> Seq<char> {
        match self {
            Float::Decimal(t) => t@,
            Float::Scientific(t) => t@,
        }
    }

    /// Negates this literal: a decimal one by the negation of its value, a scientific one by
    /// removing a leading `-` or putting one in front.
    pub fn negate(&mut self) -> (res: Result<(), AstError>)
        ensures
            res is Ok,
            match *old(self) {
                Float::Decimal(t) => *final(self) matches Float::Decimal(u) && u@ == negated_text(
                    t@,
                ),
                Float::Scientific(t) => *final(self) matches Float::Scientific(u) && u@
                    == negated_scientific(t@),
            },
    {
        match self {
            Float::Decimal(t) => {
                let u = negate_text(t.as_str());
                *t = u;
            },
            Float::Scientific(t) => {
                let chars = to_chars(t.as_str());
                let n = chars.len();
                let u = if n > 0 && chars[0] == '-' {
                    from_chars(&chars, 1, n)
                } else {
                    proof {
                        reveal_strlit("-");
                    }
                    concat("-", t.as_str())
                };
                *t = u;
            },
        }
        Ok(())
    }

    /// Parses a float literal: a text holding `e` or `E` is kept as scientific; any other text
    /// must parse as an `f64`.
    pub fn from_str(s: &str) -> (res: Result<Self, AstError>)
        ensures
            has_exponent_letter(s@) ==> (res matches Ok(Float::Scientific(t)) && t@ == s@),
            !has_exponent_letter(s@) && is_float_text(s@) ==> (res matches Ok(Float::Decimal(t))
                && t@ == s@),
            !has_exponent_letter(s@) && !is_float_text(s@) ==> (res matches Err(AstError::Float(t))
                && t@ == s@),
    {
        let chars = to_chars(s);
        let n = chars.len();
        let mut i: usize = 0;
        while i < n
            invariant
                n == chars@.len(),
                chars@ == s@,
                i <= n,
                forall|j: int| 0 <= j < i ==> !crate::model::is_e(chars@[j]),
            decreases n - i,
        {
            if chars[i] == 'e' || chars[i] == 'E' {
                assert(crate::model::is_e(s@[i as int]));
                return Ok(Float::Scientific(owned(s)));
            }
            i = i + 1;
        }
        if float_text(&chars) {
            Ok(Float::Decimal(owned(s)))
        } else {
            Err(AstError::Float(owned(s)))
        }
    }
}

#[derive(Debug)]
pub enum StringPart {
    Literal(String),
    Escape(String),
    Placeholder(Expression),
}

#[derive(Debug)]
pub struct StringLiteral {
    pub parts: Vec<Node<StringPart>>,
}

#[derive(Debug)]
pub struct ArrayLiteral {
    pub elements: Vec<Node<Expression>>,
}

#[derive(Debug)]
pub struct MapEntry {
    pub key: Node<Expression>,
    pub value: Node<Expression>,
}

#[derive(Debug)]
pub struct MapLiteral {
    pub entries: Vec<Node<MapEntry>>,
}

#[derive(Debug)]
pub struct PairLiteral {
    pub left: InnerExpression,
    pub right: InnerExpression,
}

#[derive(Debug)]
pub struct ObjectField {
    pub name: Node<String>,
    pub expression: Node<Expression>,
}

#[derive(Debug)]
pub struct ObjectLiteral {
    pub object_type: Node<String>,
    pub fields: Vec<Node<ObjectField>>,
}

#[derive(Debug, PartialEq, Eq, Structural)]
pub enum UnaryOperator {
    Pos,
    Neg,
    Not,
}

impl UnaryOperator {
    /// The symbol of this operator.
    pub open spec fn symbol(self) -> Seq<char> {
        match self {
            UnaryOperator::Pos => POS@,
            UnaryOperator::Neg => NEG@,
            UnaryOperator::Not => NOT@,
        }
    }

    /// Parses a unary operator from its symbol.
    pub fn from_str(s: &str) -> (res: Result<Self, AstError>)
        ensures
            s@ == "+"@ ==> res == Ok::<UnaryOperator, AstError>(UnaryOperator::Pos),
            s@ == "-"@ ==> res == Ok::<UnaryOperator, AstError>(UnaryOperator::Neg),
            s@ == "!"@ ==> res == Ok::<UnaryOperator, AstError>(UnaryOperator::Not),
            s@ != "+"@ && s@ != "-"@ && s@ != "!"@ ==> (res matches Err(AstError::UnaryOperator(t))
                && t@ == s@),
    {
        proof {
            reveal_strlit("+");
            reveal_strlit("-");
            reveal_strlit("!");
            assert("+"@[0] == '+' && "-"@[0] == '-' && "!"@[0] == '!');
        }
        if str_eq(s, POS) {
            Ok(UnaryOperator::Pos)
        } else if str_eq(s, NEG) {
            Ok(UnaryOperator::Neg)
        } else if str_eq(s, NOT) {
            Ok(UnaryOperator::Not)
        } else {
            Err(AstError::UnaryOperator(owned(s)))
        }
    }

    /// The symbol of this operator.
    pub fn to_string(&self) -> (res: String)
        ensures
            res@ == self.symbol(),
    {
        match self {
            UnaryOperator::Pos => owned(POS),
            UnaryOperator::Neg => owned(NEG),
            UnaryOperator::Not => owned(NOT),
        }
    }
}

#[derive(Debug)]
pub struct Unary {
    pub operator: UnaryOperator,
    pub expression: InnerExpression,
}

#[derive(Debug, PartialEq, Eq, Structural)]
pub enum BinaryOperator {
    Add,
    Sub,
    Mul,
    Div,
    Mod,
    Gt,
    Lt,
    Gte,
    Lte,
    Eq,
    Neq,
    And,
    Or,
}

impl BinaryOperator {
    /// The symbol of this operator.
    pub open spec fn symbol(self) -> Seq<char> {
        match self {
            BinaryOperator::Add => ADD@,
            BinaryOperator::Sub => SUB@,
            BinaryOperator::Mul => MUL@,
            BinaryOperator::Div => DIV@,
            BinaryOperator::Mod => MOD@,
            BinaryOperator::Gt => GT@,
            BinaryOperator::Lt => LT@,
            BinaryOperator::Gte => GTE@,
            BinaryOperator::Lte => LTE@,
            BinaryOperator::Eq => EQ@,
            BinaryOperator::Neq => NEQ@,
            BinaryOperator::And => AND@,
            BinaryOperator::Or => OR@,
        }
    }

    /// The operator that `from_str` reads from `s`: every operator but `&&` and `||`.
    pub open spec fn parsed_from(s: Seq<char>) -> Option<BinaryOperator> {
        if s == ADD@ {
            Some(BinaryOperator::Add)
        } else if s == SUB@ {
            Some(BinaryOperator::Sub)
        } else if s == MUL@ {
            Some(BinaryOperator::Mul)
        } else if s == DIV@ {
            Some(BinaryOperator::Div)
        } else if s == MOD@ {
            Some(BinaryOperator::Mod)
        } else if s == GT@ {
            Some(BinaryOperator::Gt)
        } else if s == LT@ {
            Some(BinaryOperator::Lt)
        } else if s == GTE@ {
            Some(BinaryOperator::Gte)
        } else if s == LTE@ {
            Some(BinaryOperator::Lte)
        } else if s == EQ@ {
            Some(BinaryOperator::Eq)
        } else if s == NEQ@ {
            Some(BinaryOperator::Neq)
        } else {
            None
        }
    }

    /// Parses a binary operator from its symbol; `&&` and `||` are not read.
    pub fn from_str(s: &str) -> (res: Result<Self, AstError>)
        ensures
            match BinaryOperator::parsed_from(s@) {
                Some(o) => res == Ok::<BinaryOperator, AstError>(o),
                None => res matches Err(AstError::BinaryOperator(t)) && t@ == s@,
            },
    {
        if str_eq(s, ADD) {
            Ok(BinaryOperator::Add)
        } else if str_eq(s, SUB) {
            Ok(BinaryOperator::Sub)
        } else if str_eq(s, MUL) {
            Ok(BinaryOperator::Mul)
        } else if str_eq(s, DIV) {
            Ok(BinaryOperator::Div)
        } else if str_eq(s, MOD) {
            Ok(BinaryOperator::Mod)
        } else if str_eq(s, GT) {
            Ok(BinaryOperator::Gt)
        } else if str_eq(s, LT) {
            Ok(BinaryOperator::Lt)
        } else if str_eq(s, GTE) {
            Ok(BinaryOperator::Gte)
        } else if str_eq(s, LTE) {
            Ok(BinaryOperator::Lte)
        } else if str_eq(s, EQ) {
            Ok(BinaryOperator::Eq)
        } else if str_eq(s, NEQ) {
            Ok(BinaryOperator::Neq)
        } else {
            Err(AstError::BinaryOperator(owned(s)))
        }
    }

    /// The symbol of this operator.
    pub fn to_string(&self) -> (res: String)
        ensures
            res@ == self.symbol(),
    {
        match self {
            BinaryOperator::Add => owned(ADD),
            BinaryOperator::Sub => owned(SUB),
            BinaryOperator::Mul => owned(MUL),
            BinaryOperator::Div => owned(DIV),
            BinaryOperator::Mod => owned(MOD),
            BinaryOperator::Gt => owned(GT),
            BinaryOperator::Lt => owned(LT),
            BinaryOperator::Gte => owned(GTE),
            BinaryOperator::Lte => owned(LTE),
            BinaryOperator::Eq => owned(EQ),
            BinaryOperator::Neq => owned(NEQ),
            BinaryOperator::And => owned(AND),
            BinaryOperator::Or => owned(OR),
        }
    }
}

#[derive(Debug)]
pub struct Binary {
    pub operator: BinaryOperator,
    pub operands: Vec<Node<Expression>>,
}

#[derive(Debug)]
pub struct Apply {
    pub name: Node<String>,
    pub arguments: Vec<Node<Expression>>,
}

#[derive(Debug)]
pub enum AccessOperation {
    Index(Expression),
    Field(String),
}

#[derive(Debug)]
pub struct Access {
    pub collection: InnerExpression,
    pub accesses: Vec<Node<AccessOperation>>,
}

#[derive(Debug)]
pub struct Ternary {
    pub condition: InnerExpression,
    pub true_branch: InnerExpression,
    pub false_branch: InnerExpression,
}

pub type InnerExpression = Box<Node<Expression>>;

#[derive(Debug)]
pub enum Expression {
    NoneValue,
    Boolean(bool),
    Int(Integer),
    Float(Float),
    String(StringLiteral),
    Array(ArrayLiteral),
    Mapping(MapLiteral),
    Pair(PairLiteral),
    Object(ObjectLiteral),
    Unary(Unary),
    Binary(Binary),
    Apply(Apply),
    Access(Access),
    Ternary(Ternary),
    Group(InnerExpression),
    Identifier(String),
}

pub type InnerType = Box<Node<Type>>;

#[derive(Debug)]
pub enum Type {
    Boolean,
    Int,
    Float,
    String,
    File,
    Array(InnerType),
    NonEmpty(InnerType),
    Mapping { key: InnerType, value: InnerType },
    Pair { left: InnerType, right: InnerType },
    Object,
    User(String),
    Optional(InnerType),
}

#[derive(Debug)]
pub struct UnboundDeclaration {
    pub wdl_type: Node<Type>,
    pub name: Node<String>,
}

#[derive(Debug)]
pub struct BoundDeclaration {
    pub wdl_type: Node<Type>,
    pub name: Node<String>,
    pub expression: Node<Expression>,
}

/// Enumeration of sources from which a WDL document may be loaded.
#[derive(Debug)]
pub enum DocumentSource {
    File(std::path::PathBuf),
    Uri(String),
    Unknown,
}

impl Default for DocumentSource {
    fn default() -> (res: Self)
        ensures
            res is Unknown,
    {
        DocumentSource::Unknown
    }
}

#[derive(Clone, Copy, Debug, PartialEq, Eq, Structural)]
pub enum VersionIdentifier {
    V1_0,
    V1_1,
}

impl VersionIdentifier {
    /// Parses a version identifier; only WDL 1.0 and 1.1 are supported.
    pub fn from_str(s: &str) -> (res: Result<Self, AstError>)
        ensures
            s@ == "1.0"@ ==> res == Ok::<VersionIdentifier, AstError>(VersionIdentifier::V1_0),
            s@ == "1.1"@ ==> res == Ok::<VersionIdentifier, AstError>(VersionIdentifier::V1_1),
            s@ != "1.0"@ && s@ != "1.1"@ ==> (res matches Err(AstError::Version(t)) && t@ == s@),
    {
        proof {
            reveal_strlit("1.0");
            reveal_strlit("1.1");
            assert("1.0"@[2] == '0' && "1.1"@[2] == '1');
        }
        if str_eq(s, "1.0") {
            Ok(VersionIdentifier::V1_0)
        } else if str_eq(s, "1.1") {
            Ok(VersionIdentifier::V1_1)
        } else {
            Err(AstError::Version(owned(s)))
        }
    }
}

#[derive(Debug)]
pub struct Version {
    pub identifier: Node<VersionIdentifier>,
}

#[derive(Debug)]
pub enum Namespace {
    Explicit(Node<String>),
    Implicit(String),
}

/// The pattern whose first capture group names the namespace of an import's URI.
pub const URI_NAMESPACE_PATTERN: &'static str = ".*/(.+)\\.wdl";

/// The namespace that the URI `uri` implies, if it implies one: the first capture group of
/// `URI_NAMESPACE_PATTERN`, or, where that does not match, the URI without its `.wdl` suffix.
pub open spec fn uri_namespace(uri: Seq<char>) -> Option<Seq<char>> {
    uri_namespace_of(uri, regex_first_group(URI_NAMESPACE_PATTERN@, uri))
}

/// The namespace that `uri` implies, given `capture`, the first capture group of
/// `URI_NAMESPACE_PATTERN` in it: that group, or, where there is none, the URI without a `.wdl`
/// suffix; none where it has no such suffix.
pub open spec fn uri_namespace_of(uri: Seq<char>, capture: Option<Seq<char>>) -> Option<Seq<char>> {
    match capture {
        Some(g) => Some(g),
        None => if crate::model::ends_with(uri, ".wdl"@) {
            Some(uri.take(uri.len() - 4))
        } else {
            None
        },
    }
}

impl Namespace {
    /// The namespace that the URI of an import implies.
    pub fn try_from_uri(uri: &str) -> (res: Result<Self, AstError>)
        ensures
            match uri_namespace(uri@) {
                Some(ns) => res matches Ok(Namespace::Implicit(x)) && x@ == ns,
                None => res matches Err(AstError::Namespace(t)) && t@ == uri@,
            },
    {
        Namespace::try_from_uri_capture(uri, first_capture(URI_NAMESPACE_PATTERN, uri))
    }

    /// The namespace that `uri` implies, given the first capture group of
    /// `URI_NAMESPACE_PATTERN` in it, if any.
    pub fn try_from_uri_capture(uri: &str, capture: Option<String>) -> (res: Result<Self, AstError>)
        ensures
            match uri_namespace_of(
                uri@,
                match capture {
                    Some(c) => Some(c@),
                    None => None,
                },
            ) {
                Some(ns) => res matches Ok(Namespace::Implicit(x)) && x@ == ns,
                None => res matches Err(AstError::Namespace(t)) && t@ == uri@,
            },
    {
        match capture {
            Some(cap) => Ok(Namespace::Implicit(cap)),
            None => {
                let chars = to_chars(uri);
                let n = chars.len();
                proof {
                    reveal_strlit(".wdl");
                }
                if n >= 4 && chars[n - 4] == '.' && chars[n - 3] == 'w' && chars[n - 2] == 'd'
                    && chars[n - 1] == 'l' {
                    assert(crate::model::ends_with(uri@, ".wdl"@)) by {
                        assert(uri@.skip(n - 4) =~= ".wdl"@);
                    }
                    assert(chars@.subrange(0, n - 4) =~= uri@.take(n - 4));
                    Ok(Namespace::Implicit(from_chars(&chars, 0, n - 4)))
                } else {
                    assert(!crate::model::ends_with(uri@, ".wdl"@)) by {
                        if n >= 4 && uri@.skip(n - 4) == ".wdl"@ {
                            assert(uri@.skip(n - 4)[0] == chars@[n - 4]);
                            assert(uri@.skip(n - 4)[1] == chars@[n - 3]);
                            assert(uri@.skip(n - 4)[2] == chars@[n - 2]);
                            assert(uri@.skip(n - 4)[3] == chars@[n - 1]);
                        }
                    }
                    Err(AstError::Namespace(owned(uri)))
                }
            },
        }
    }
}

#[derive(Debug)]
pub struct Alias {
    pub from: Node<String>,
    pub to: Node<String>,
}

#[derive(Debug)]
pub struct Import {
    pub uri: Node<String>,
    pub namespace: Namespace,
    pub aliases: Vec<Node<Alias>>,
}

#[derive(Debug)]
pub struct Struct {
    pub name: Node<String>,
    pub fields: Vec<Node<UnboundDeclaration>>,
}

#[derive(Debug)]
pub enum InputDeclaration {
    Bound(BoundDeclaration),
    Unbound(UnboundDeclaration),
}

#[derive(Debug)]
pub struct Input {
    pub declarations: Vec<Node<InputDeclaration>>,
}

#[derive(Debug)]
pub struct Output {
    pub declarations: Vec<Node<BoundDeclaration>>,
}

#[derive(Debug)]
pub struct Command {
    pub parts: Vec<Node<StringPart>>,
}

#[derive(Debug)]
pub struct RuntimeAttribute {
    pub name: Node<String>,
    pub expression: Node<Expression>,
}

#[derive(Debug)]
pub struct Runtime {
    pub attributes: Vec<Node<RuntimeAttribute>>,
}

#[derive(Debug)]
pub enum MetaStringPart {
    Content(String),
    Escape(String),
}

#[derive(Debug)]
pub struct MetaString {
    pub parts: Vec<Node<MetaStringPart>>,
}

#[derive(Debug)]
pub struct MetaArray {
    pub elements: Vec<Node<MetaValue>>,
}

#[derive(Debug)]
pub struct MetaObjectField {
    pub name: Node<String>,
    pub value: Node<MetaValue>,
}

#[derive(Debug)]
pub struct MetaObject {
    pub fields: Vec<Node<MetaObjectField>>,
}

#[derive(Debug)]
pub enum MetaValue {
    Null,
    Boolean(bool),
    Int(Integer),
    Float(Float),
    String(MetaString),
    Array(MetaArray),
    Object(MetaObject),
}

#[derive(Debug)]
pub struct MetaAttribute {
    pub name: Node<String>,
    pub value: Node<MetaValue>,
}

#[derive(Debug)]
pub struct Meta {
    pub attributes: Vec<Node<MetaAttribute>>,
}

#[derive(Debug)]
pub struct CallInput {
    pub name: Node<String>,
    pub expression: Option<Node<Expression>>,
}

#[derive(Debug)]
pub struct QualifiedName {
    pub parts: Vec<Node<String>>,
}

#[derive(Debug)]
pub struct Call {
    pub target: Node<QualifiedName>,
    pub alias: Option<Node<String>>,
    pub inputs: Vec<Node<CallInput>>,
}

#[derive(Debug)]
pub struct Scatter {
    pub name: Node<String>,
    pub expression: Node<Expression>,
    pub body: Vec<Node<WorkflowBodyElement>>,
}

#[derive(Debug)]
pub struct Conditional {
    pub expression: Node<Expression>,
    pub body: Vec<Node<WorkflowBodyElement>>,
}

#[derive(Debug)]
pub enum WorkflowBodyElement {
    Call(Call),
    Scatter(Scatter),
    Conditional(Conditional),
}

#[derive(Debug)]
pub enum TaskElement {
    Input(Input),
    Output(Output),
    Declaration(BoundDeclaration),
    Command(Command),
    Runtime(Runtime),
    Meta(Meta),
    ParameterMeta(Meta),
}

impl TaskElement {
    /// The name of this element's kind.
    pub open spec fn kind_name(self) -> Seq<char> {
        match self {
            TaskElement::Input(_) => "input"@,
            TaskElement::Output(_) => "output"@,
            TaskElement::Declaration(_) => "declaration"@,
            TaskElement::Command(_) => "command"@,
            TaskElement::Runtime(_) => "runtime"@,
            TaskElement::Meta(_) => "meta"@,
            TaskElement::ParameterMeta(_) => "parameter_meta"@,
        }
    }

    /// A number for each kind of element.
    pub open spec fn tag(self) -> int {
        match self {
            TaskElement::Input(_) => 0,
            TaskElement::Output(_) => 1,
            TaskElement::Declaration(_) => 2,
            TaskElement::Command(_) => 3,
            TaskElement::Runtime(_) => 4,
            TaskElement::Meta(_) => 5,
            TaskElement::ParameterMeta(_) => 6,
        }
    }

    /// A task holds at most one element of each kind but declarations.
    pub open spec fn must_be_unique(self) -> bool {
        !(self is Declaration)
    }

    /// The name of this element's kind.
    pub fn kind(&self) -> (res: &'static str)
        ensures
            res@ == self.kind_name(),
    {
        match self {
            TaskElement::Input(_) => "input",
            TaskElement::Output(_) => "output",
            TaskElement::Declaration(_) => "declaration",
            TaskElement::Command(_) => "command",
            TaskElement::Runtime(_) => "runtime",
            TaskElement::Meta(_) => "meta",
            TaskElement::ParameterMeta(_) => "parameter_meta",
        }
    }

    fn tag_of(&self) -> (res: usize)
        ensures
            res == self.tag(),
    {
        match self {
            TaskElement::Input(_) => 0,
            TaskElement::Output(_) => 1,
            TaskElement::Declaration(_) => 2,
            TaskElement::Command(_) => 3,
            TaskElement::Runtime(_) => 4,
            TaskElement::Meta(_) => 5,
            TaskElement::ParameterMeta(_) => 6,
        }
    }
}

#[derive(Debug)]
pub struct Task {
    pub name: Node<String>,
    pub body: Vec<Node<TaskElement>>,
}

/// `true` iff `body[i]` must be unique and an element of its kind comes before it.
pub open spec fn task_repeat_at(body: Seq<Node<TaskElement>>, i: int) -> bool {
    &&& body[i].element.must_be_unique()
    &&& exists|j: int| 0 <= j < i && #[trigger] body[j].element.tag() == body[i].element.tag()
}

/// The index of the first element of `body` that repeats a unique kind, if there is one.
pub open spec fn task_first_repeat(body: Seq<Node<TaskElement>>) -> Option<int> {
    if exists|i: int| 0 <= i < body.len() && task_repeat_at(body, i) {
        Some(choose|i: int|
            0 <= i < body.len() && task_repeat_at(body, i) && forall|j: int|
                0 <= j < i ==> !task_repeat_at(body, j))
    } else {
        None
    }
}

impl Task {
    /// A task is valid when it holds no two elements of one kind but declarations, and it holds
    /// a command.
    pub open spec fn is_valid(self) -> bool {
        &&& task_first_repeat(self.body@) is None
        &&& exists|i: int| 0 <= i < self.body@.len() && self.body@[i].element is Command
    }

    /// `e` is the error that validating `self` reports.
    pub open spec fn validation_error(self, e: AstError) -> bool {
        match task_first_repeat(self.body@) {
            Some(i) => e matches AstError::TaskRepeatedElement(kind) && kind@ == self.body@[i].element.kind_name(),
            None => e is TaskMissingCommand,
        }
    }

    /// Validates the task: no repeated unique element, and a command present.
    pub fn validate(&self) -> (res: Result<(), AstError>)
        ensures
            res is Ok <==> self.is_valid(),
            res matches Err(e) ==> self.validation_error(e),
    {
        let mut seen: Vec<bool> = vec![false, false, false, false, false, false, false];
        let n = self.body.len();
        let mut i: usize = 0;
        while i < n
            invariant
                n == self.body@.len(),
                i <= n,
                seen@.len() == 7,
                forall|t: int|
                    0 <= t < 7 ==> (seen@[t] <==> exists|j: int|
                        0 <= j < i && self.body@[j].element.must_be_unique() && #[trigger] self.body@[j].element.tag() == t),
                forall|j: int| 0 <= j < i ==> !task_repeat_at(self.body@, j),
            decreases n - i,
        {
            let element = &self.body[i].element;
            let t = element.tag_of();
            let must_be_unique = match element {
                TaskElement::Declaration(_) => false,
                _ => true,
            };
            if must_be_unique {
                if seen[t] {
                    proof {
                        let j = choose|j: int|
                            0 <= j < i && self.body@[j].element.must_be_unique() && #[trigger] self.body@[j].element.tag() == t;
                        assert(task_repeat_at(self.body@, i as int));
                        let k = choose|k: int|
                            0 <= k < self.body@.len() && task_repeat_at(self.body@, k) && forall|j: int|
                                0 <= j < k ==> !task_repeat_at(self.body@, j);
                        assert(k == i);
                    }
                    return Err(AstError::TaskRepeatedElement(owned(element.kind())));
                }
                seen.set(t, true);
            }
            proof {
                if task_repeat_at(self.body@, i as int) {
                    let j = choose|j: int| 0 <= j < i && #[trigger] self.body@[j].element.tag() == self.body@[i as int].element.tag();
                    assert(self.body@[j].element.must_be_unique());
                }
            }
            i = i + 1;
        }
        assert(task_first_repeat(self.body@) is None);
        if !seen[3] {
            assert(!(exists|i: int| 0 <= i < self.body@.len() && self.body@[i].element is Command)) by {
                if exists|i: int| 0 <= i < self.body@.len() && self.body@[i].element is Command {
                    let j = choose|j: int| 0 <= j < self.body@.len() && self.body@[j].element is Command;
                    assert(self.body@[j].element.tag() == 3);
                }
            }
            return Err(AstError::TaskMissingCommand);
        }
        proof {
            let j = choose|j: int| 0 <= j < n && self.body@[j].element.must_be_unique() && #[trigger] self.body@[j].element.tag() == 3;
            assert(self.body@[j].element is Command);
        }
        Ok(())
    }
}

#[derive(Debug)]
pub enum WorkflowElement {
    Input(Input),
    Output(Output),
    Declaration(BoundDeclaration),
    Call(Call),
    Scatter(Scatter),
    Conditional(Conditional),
    Meta(Meta),
    ParameterMeta(Meta),
}

impl WorkflowElement {
    /// The name of this element's kind.
    pub open spec fn kind_name(self) -> Seq<char> {
        match self {
            WorkflowElement::Input(_) => "input"@,
            WorkflowElement::Output(_) => "output"@,
            WorkflowElement::Declaration(_) => "declaration"@,
            WorkflowElement::Call(_) => "call"@,
            WorkflowElement::Scatter(_) => "scatter"@,
            WorkflowElement::Conditional(_) => "conditional"@,
            WorkflowElement::Meta(_) => "meta"@,
            WorkflowElement::ParameterMeta(_) => "parameter_meta"@,
        }
    }

    /// A number for each kind of element.
    pub open spec fn tag(self) -> int {
        match self {
            WorkflowElement::Input(_) => 0,
            WorkflowElement::Output(_) => 1,
            WorkflowElement::Declaration(_) => 2,
            WorkflowElement::Call(_) => 3,
            WorkflowElement::Scatter(_) => 4,
            WorkflowElement::Conditional(_) => 5,
            WorkflowElement::Meta(_) => 6,
            WorkflowElement::ParameterMeta(_) => 7,
        }
    }

    /// A workflow holds at most one input, output, meta and parameter_meta.
    pub open spec fn must_be_unique(self) -> bool {
        self is Input || self is Output || self is Meta || self is ParameterMeta
    }

    /// The name of this element's kind.
    pub fn kind(&self) -> (res: &'static str)
        ensures
            res@ == self.kind_name(),
    {
        match self {
            WorkflowElement::Input(_) => "input",
            WorkflowElement::Output(_) => "output",
            WorkflowElement::Declaration(_) => "declaration",
            WorkflowElement::Call(_) => "call",
            WorkflowElement::Scatter(_) => "scatter",
            WorkflowElement::Conditional(_) => "conditional",
            WorkflowElement::Meta(_) => "meta",
            WorkflowElement::ParameterMeta(_) => "parameter_meta",
        }
    }

    fn tag_of(&self) -> (res: usize)
        ensures
            res == self.tag(),
    {
        match self {
            WorkflowElement::Input(_) => 0,
            WorkflowElement::Output(_) => 1,
            WorkflowElement::Declaration(_) => 2,
            WorkflowElement::Call(_) => 3,
            WorkflowElement::Scatter(_) => 4,
            WorkflowElement::Conditional(_) => 5,
            WorkflowElement::Meta(_) => 6,
            WorkflowElement::ParameterMeta(_) => 7,
        }
    }
}

#[derive(Debug)]
pub struct Workflow {
    pub name: Node<String>,
    pub body: Vec<Node<WorkflowElement>>,
}

/// `true` iff `body[i]` must be unique and an element of its kind comes before it.
pub open spec fn workflow_repeat_at(body: Seq<Node<WorkflowElement>>, i: int) -> bool {
    &&& body[i].element.must_be_unique()
    &&& exists|j: int| 0 <= j < i && #[trigger] body[j].element.tag() == body[i].element.tag()
}

/// The index of the first element of `body` that repeats a unique kind, if there is one.
pub open spec fn workflow_first_repeat(body: Seq<Node<WorkflowElement>>) -> Option<int> {
    if exists|i: int| 0 <= i < body.len() && workflow_repeat_at(body, i) {
        Some(choose|i: int|
            0 <= i < body.len() && workflow_repeat_at(body, i) && forall|j: int|
                0 <= j < i ==> !workflow_repeat_at(body, j))
    } else {
        None
    }
}

impl Workflow {
    /// A workflow is valid when it holds at most one input, output, meta and parameter_meta.
    pub open spec fn is_valid(self) -> bool {
        workflow_first_repeat(self.body@) is None
    }

    /// `e` is the error that validating `self` reports.
    pub open spec fn validation_error(self, e: AstError) -> bool {
        match workflow_first_repeat(self.body@) {
            Some(i) => e matches AstError::WorkflowRepeatedElement(kind) && kind@ == self.body@[i].element.kind_name(),
            None => false,
        }
    }

    /// Checks that this workflow holds at most one input, output, meta and parameter_meta.
    pub fn validate(&self) -> (res: Result<(), AstError>)
        ensures
            res is Ok <==> self.is_valid(),
            res matches Err(e) ==> self.validation_error(e),
    {
        let mut seen: Vec<bool> = vec![false, false, false, false, false, false, false, false];
        let n = self.body.len();
        let mut i: usize = 0;
        while i < n
            invariant
                n == self.body@.len(),
                i <= n,
                seen@.len() == 8,
                forall|t: int|
                    0 <= t < 8 ==> (seen@[t] <==> exists|j: int|
                        0 <= j < i && self.body@[j].element.must_be_unique() && #[trigger] self.body@[j].element.tag() == t),
                forall|j: int| 0 <= j < i ==> !workflow_repeat_at(self.body@, j),
            decreases n - i,
        {
            let element = &self.body[i].element;
            let t = element.tag_of();
            let must_be_unique = match element {
                WorkflowElement::Input(_) | WorkflowElement::Output(_) | WorkflowElement::Meta(_)
                | WorkflowElement::ParameterMeta(_) => true,
                _ => false,
            };
            if must_be_unique {
                if seen[t] {
                    proof {
                        let j = choose|j: int|
                            0 <= j < i && self.body@[j].element.must_be_unique() && #[trigger] self.body@[j].element.tag() == t;
                        assert(workflow_repeat_at(self.body@, i as int));
                        let k = choose|k: int|
                            0 <= k < self.body@.len() && workflow_repeat_at(self.body@, k) && forall|j: int|
                                0 <= j < k ==> !workflow_repeat_at(self.body@, j);
                        assert(k == i);
                    }
                    return Err(AstError::WorkflowRepeatedElement(owned(element.kind())));
                }
                seen.set(t, true);
            }
            proof {
                if workflow_repeat_at(self.body@, i as int) {
                    let j = choose|j: int| 0 <= j < i && #[trigger] self.body@[j].element.tag() == self.body@[i as int].element.tag();
                    assert(self.body@[j].element.must_be_unique());
                }
            }
            i = i + 1;
        }
        Ok(())
    }
}


#[derive(Debug)]
pub enum DocumentElement {
    Import(Import),
    Struct(Struct),
    Task(Task),
    Workflow(Workflow),
}

impl DocumentElement {
    /// `true` iff this element is a task or workflow that fails validation.
    pub open spec fn is_invalid(self) -> bool {
        match self {
            DocumentElement::Task(t) => !t.is_valid(),
            DocumentElement::Workflow(w) => !w.is_valid(),
            _ => false,
        }
    }

    /// `e` is the error that validating this element reports.
    pub open spec fn validation_error(self, e: AstError) -> bool {
        match self {
            DocumentElement::Task(t) => t.validation_error(e),
            DocumentElement::Workflow(w) => w.validation_error(e),
            _ => false,
        }
    }

    /// Structs, tasks and workflows count toward a complete document.
    pub open spec fn counts(self) -> bool {
        !(self is Import)
    }
}

#[derive(Debug)]
pub struct Document {
    pub source: DocumentSource,
    pub version: Node<Version>,
    pub body: Vec<Node<DocumentElement>>,
}

/// The number of structs, tasks and workflows in `body`.
pub open spec fn element_count(body: Seq<Node<DocumentElement>>) -> nat
    decreases body.len(),
{
    if body.len() == 0 {
        0
    } else {
        element_count(body.drop_last()) + if body.last().element.counts() { 1nat } else { 0nat }
    }
}

/// The number of workflows in `body`.
pub open spec fn workflow_count(body: Seq<Node<DocumentElement>>) -> nat
    decreases body.len(),
{
    if body.len() == 0 {
        0
    } else {
        workflow_count(body.drop_last()) + if body.last().element is Workflow { 1nat } else { 0nat }
    }
}

/// The number of tasks in `body`.
pub open spec fn task_count(body: Seq<Node<DocumentElement>>) -> nat
    decreases body.len(),
{
    if body.len() == 0 {
        0
    } else {
        task_count(body.drop_last()) + if body.last().element is Task { 1nat } else { 0nat }
    }
}

/// The index of the first invalid task or workflow of `body`, if there is one.
pub open spec fn first_invalid(body: Seq<Node<DocumentElement>>) -> Option<int> {
    if exists|i: int| 0 <= i < body.len() && #[trigger] body[i].element.is_invalid() {
        Some(choose|i: int|
            0 <= i < body.len() && #[trigger] body[i].element.is_invalid() && forall|j: int|
                0 <= j < i ==> !(#[trigger] body[j].element.is_invalid()))
    } else {
        None
    }
}

/// The index of the first workflow of `body`, if there is one.
pub open spec fn first_workflow(body: Seq<Node<DocumentElement>>) -> Option<int>
    decreases body.len(),
{
    if body.len() == 0 {
        None
    } else {
        match first_workflow(body.drop_last()) {
            Some(i) => Some(i),
            None => if body.last().element is Workflow { Some(body.len() - 1) } else { None },
        }
    }
}

/// The index of the first task of `body`, if there is one.
pub open spec fn first_task(body: Seq<Node<DocumentElement>>) -> Option<int>
    decreases body.len(),
{
    if body.len() == 0 {
        None
    } else {
        match first_task(body.drop_last()) {
            Some(i) => Some(i),
            None => if body.last().element is Task { Some(body.len() - 1) } else { None },
        }
    }
}

proof fn lemma_first_prefix(body: Seq<Node<DocumentElement>>, k: int)
    requires
        0 <= k <= body.len(),
    ensures
        first_workflow(body.take(k)) is Some ==> first_workflow(body) == first_workflow(body.take(k)),
        first_task(body.take(k)) is Some ==> first_task(body) == first_task(body.take(k)),
    decreases body.len() - k,
{
    if k < body.len() {
        assert(body.take(k + 1).drop_last() =~= body.take(k));
        lemma_first_prefix(body, k + 1);
    } else {
        assert(body.take(k) =~= body);
    }
}

proof fn lemma_count_take(body: Seq<Node<DocumentElement>>, i: int)
    requires
        0 <= i < body.len(),
    ensures
        element_count(body.take(i + 1)) == element_count(body.take(i)) + if body[i].element.counts() { 1nat } else { 0nat },
        workflow_count(body.take(i + 1)) == workflow_count(body.take(i)) + if body[i].element is Workflow { 1nat } else { 0nat },
        task_count(body.take(i + 1)) == task_count(body.take(i)) + if body[i].element is Task { 1nat } else { 0nat },
{
    assert(body.take(i + 1).drop_last() =~= body.take(i));
}

proof fn lemma_counts_bounded(body: Seq<Node<DocumentElement>>)
    ensures
        element_count(body) <= body.len(),
        workflow_count(body) <= body.len(),
        task_count(body) <= body.len(),
    decreases body.len(),
{
    if body.len() > 0 {
        lemma_counts_bounded(body.drop_last());
    }
}

impl Document {
    /// A document is valid when all its tasks and workflows are valid, it holds at least one
    /// struct, task or workflow, and at most one workflow.
    pub open spec fn is_valid(self) -> bool {
        &&& first_invalid(self.body@) is None
        &&& element_count(self.body@) > 0
        &&& workflow_count(self.body@) <= 1
    }

    /// `e` is the error that validating `self` reports.
    pub open spec fn validation_error(self, e: AstError) -> bool {
        match first_invalid(self.body@) {
            Some(i) => self.body@[i].element.validation_error(e),
            None => if element_count(self.body@) == 0 {
                e is DocumentIncomplete
            } else {
                e is DocumentMultipleWorkflows
            },
        }
    }

    /// Validates each task and workflow in order, then checks that the document holds at least
    /// one struct, task or workflow, and at most one workflow.
    pub fn validate(&self) -> (res: Result<(), AstError>)
        ensures
            res is Ok <==> self.is_valid(),
            res matches Err(e) ==> self.validation_error(e),
    {
        let mut elements: usize = 0;
        let mut workflows: usize = 0;
        let n = self.body.len();
        let mut i: usize = 0;
        while i < n
            invariant
                n == self.body@.len(),
                i <= n,
                elements == element_count(self.body@.take(i as int)),
                workflows == workflow_count(self.body@.take(i as int)),
                forall|j: int| 0 <= j < i ==> !(#[trigger] self.body@[j].element.is_invalid()),
            decreases n - i,
        {
            proof {
                lemma_count_take(self.body@, i as int);
                lemma_counts_bounded(self.body@.take(i as int));
            }
            match &self.body[i].element {
                DocumentElement::Task(task) => {
                    match task.validate() {
                        Ok(()) => {},
                        Err(e) => {
                            proof {
                                assert(self.body@[i as int].element.is_invalid());
                                let k = choose|k: int|
                                    0 <= k < self.body@.len() && #[trigger] self.body@[k].element.is_invalid() && forall|j: int|
                                        0 <= j < k ==> !(#[trigger] self.body@[j].element.is_invalid());
                                assert(k == i);
                            }
                            return Err(e);
                        },
                    }
                    elements = elements + 1;
                },
                DocumentElement::Workflow(workflow) => {
                    match workflow.validate() {
                        Ok(()) => {},
                        Err(e) => {
                            proof {
                                assert(self.body@[i as int].element.is_invalid());
                                let k = choose|k: int|
                                    0 <= k < self.body@.len() && #[trigger] self.body@[k].element.is_invalid() && forall|j: int|
                                        0 <= j < k ==> !(#[trigger] self.body@[j].element.is_invalid());
                                assert(k == i);
                            }
                            return Err(e);
                        },
                    }
                    elements = elements + 1;
                    workflows = workflows + 1;
                },
                DocumentElement::Struct(_) => {
                    elements = elements + 1;
                },
                _ => {},
            }
            i = i + 1;
        }
        assert(self.body@.take(n as int) =~= self.body@);
        assert(first_invalid(self.body@) is None);
        if elements == 0 {
            return Err(AstError::DocumentIncomplete);
        }
        if workflows > 1 {
            return Err(AstError::DocumentMultipleWorkflows);
        }
        Ok(())
    }

    /// The elements of this document's body, in order.
    pub fn element_iter(&self) -> (res: Vec<&DocumentElement>)
        ensures
            res@.len() == self.body@.len(),
            forall|i: int| 0 <= i < res@.len() ==> *res@[i] == #[trigger] self.body@[i].element,
    {
        let mut res: Vec<&DocumentElement> = Vec::new();
        let n = self.body.len();
        let mut i: usize = 0;
        while i < n
            invariant
                n == self.body@.len(),
                i <= n,
                res@.len() == i,
                forall|j: int| 0 <= j < i ==> *res@[j] == #[trigger] self.body@[j].element,
            decreases n - i,
        {
            res.push(&self.body[i].element);
            i = i + 1;
        }
        res
    }

    /// The index of this document's primary element: its first workflow if it holds one,
    /// otherwise its task if it holds exactly one.
    pub open spec fn primary_index(self) -> Option<int> {
        match first_workflow(self.body@) {
            Some(i) => Some(i),
            None => if task_count(self.body@) == 1 {
                first_task(self.body@)
            } else {
                None
            },
        }
    }

    /// Returns this Document's Workflow if it contains one, or its Task if it contains exactly
    /// one, otherwise None.
    pub fn get_primary_element(&self) -> (res: Option<&DocumentElement>)
        ensures
            match self.primary_index() {
                Some(i) => res == Some(&self.body@[i].element),
                None => res is None,
            },
    {
        let n = self.body.len();
        let mut i: usize = 0;
        let mut tasks: usize = 0;
        let mut task_index: usize = 0;
        while i < n
            invariant
                n == self.body@.len(),
                i <= n,
                first_workflow(self.body@.take(i as int)) is None,
                tasks == task_count(self.body@.take(i as int)),
                tasks == 0 ==> first_task(self.body@.take(i as int)) is None,
                tasks > 0 ==> first_task(self.body@.take(i as int)) == Some(task_index as int),
                tasks > 0 ==> task_index < n,
            decreases n - i,
        {
            proof {
                lemma_count_take(self.body@, i as int);
                lemma_counts_bounded(self.body@.take(i as int));
                assert(self.body@.take(i + 1).drop_last() =~= self.body@.take(i as int));
            }
            match &self.body[i].element {
                DocumentElement::Workflow(_) => {
                    proof {
                        lemma_first_prefix(self.body@, i + 1);
                    }
                    return Some(&self.body[i].element);
                },
                DocumentElement::Task(_) => {
                    if tasks == 0 {
                        task_index = i;
                    }
                    tasks = tasks + 1;
                },
                _ => {},
            }
            i = i + 1;
        }
        assert(self.body@.take(n as int) =~= self.body@);
        if tasks == 1 {
            Some(&self.body[task_index].element)
        } else {
            None
        }
    }
}

} // verus!
