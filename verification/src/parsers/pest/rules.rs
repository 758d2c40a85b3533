//! The rules of the WDL grammar.
use crate::text::str_eq;
use vstd::prelude::*;

verus! {

/// The rules of the WDL grammar whose matches appear in a parse tree.
#[derive(Clone, Copy, Debug, PartialEq, Eq, Structural)]
pub enum WdlRule {
    EOI,
    COMMENT,
    document,
    version,
    import,
    namespace,
    import_alias,
    structdef,
    task,
    command,
    command_heredoc,
    command_heredoc_escape_sequence,
    command_heredoc_literal,
    command_block_escape_sequence,
    single_line_command_block,
    single_line_command_block_literal,
    multi_line_command_block,
    multi_line_command_block_end,
    multi_line_command_block_literal,
    runtime,
    runtime_attribute,
    workflow,
    call,
    qualified_identifier,
    call_alias,
    call_inputs,
    call_input,
    scatter,
    conditional,
    unbound_declaration,
    bound_declaration,
    input,
    output,
    meta,
    parameter_meta,
    meta_attribute,
    null,
    meta_number,
    meta_array,
    meta_object,
    meta_object_field,
    typedef,
    primitive_type,
    array_type,
    non_empty_array_type,
    non_empty,
    map_type,
    pair_type,
    user_type,
    optional,
    expression,
    ternary,
    disjunction,
    conjunction,
    equality,
    comparison,
    math1,
    math2,
    unary,
    access,
    index,
    field,
    apply,
    none,
    tilde_placeholder,
    dollar_placeholder,
    squote_string,
    squote_escape_sequence,
    squote_literal,
    dquote_string,
    dquote_escape_sequence,
    dquote_literal,
    pair,
    array,
    map,
    map_entry,
    object,
    object_field,
    group,
    identifier,
    boolean,
    float,
    exponent,
    hex_int,
    oct_int,
    dec_int,
    number_escape_sequence,
    simple_squote_string,
    simple_squote_escape_sequence,
    simple_squote_literal,
    simple_dquote_string,
    simple_dquote_escape_sequence,
    simple_dquote_literal,
    or,
    and,
    eq,
    neq,
    gte,
    gt,
    lte,
    lt,
    add,
    sub,
    mul,
    div,
    rem,
    not,
    pos,
    neg,
    indent,
}

impl WdlRule {
    /// The name of this rule in the grammar.
    pub open spec fn name_of(self) -> Seq<char> {
        match self {
            WdlRule::EOI => "EOI"@,
            WdlRule::COMMENT => "COMMENT"@,
            WdlRule::document => "document"@,
            WdlRule::version => "version"@,
            WdlRule::import => "import"@,
            WdlRule::namespace => "namespace"@,
            WdlRule::import_alias => "import_alias"@,
            WdlRule::structdef => "structdef"@,
            WdlRule::task => "task"@,
            WdlRule::command => "command"@,
            WdlRule::command_heredoc => "command_heredoc"@,
            WdlRule::command_heredoc_escape_sequence => "command_heredoc_escape_sequence"@,
            WdlRule::command_heredoc_literal => "command_heredoc_literal"@,
            WdlRule::command_block_escape_sequence => "command_block_escape_sequence"@,
            WdlRule::single_line_command_block => "single_line_command_block"@,
            WdlRule::single_line_command_block_literal => "single_line_command_block_literal"@,
            WdlRule::multi_line_command_block => "multi_line_command_block"@,
            WdlRule::multi_line_command_block_end => "multi_line_command_block_end"@,
            WdlRule::multi_line_command_block_literal => "multi_line_command_block_literal"@,
            WdlRule::runtime => "runtime"@,
            WdlRule::runtime_attribute => "runtime_attribute"@,
            WdlRule::workflow => "workflow"@,
            WdlRule::call => "call"@,
            WdlRule::qualified_identifier => "qualified_identifier"@,
            WdlRule::call_alias => "call_alias"@,
            WdlRule::call_inputs => "call_inputs"@,
            WdlRule::call_input => "call_input"@,
            WdlRule::scatter => "scatter"@,
            WdlRule::conditional => "conditional"@,
            WdlRule::unbound_declaration => "unbound_declaration"@,
            WdlRule::bound_declaration => "bound_declaration"@,
            WdlRule::input => "input"@,
            WdlRule::output => "output"@,
            WdlRule::meta => "meta"@,
            WdlRule::parameter_meta => "parameter_meta"@,
            WdlRule::meta_attribute => "meta_attribute"@,
            WdlRule::null => "null"@,
            WdlRule::meta_number => "meta_number"@,
            WdlRule::meta_array => "meta_array"@,
            WdlRule::meta_object => "meta_object"@,
            WdlRule::meta_object_field => "meta_object_field"@,
            WdlRule::typedef => "typedef"@,
            WdlRule::primitive_type => "primitive_type"@,
            WdlRule::array_type => "array_type"@,
            WdlRule::non_empty_array_type => "non_empty_array_type"@,
            WdlRule::non_empty => "non_empty"@,
            WdlRule::map_type => "map_type"@,
            WdlRule::pair_type => "pair_type"@,
            WdlRule::user_type => "user_type"@,
            WdlRule::optional => "optional"@,
            WdlRule::expression => "expression"@,
            WdlRule::ternary => "ternary"@,
            WdlRule::disjunction => "disjunction"@,
            WdlRule::conjunction => "conjunction"@,
            WdlRule::equality => "equality"@,
            WdlRule::comparison => "comparison"@,
            WdlRule::math1 => "math1"@,
            WdlRule::math2 => "math2"@,
            WdlRule::unary => "unary"@,
            WdlRule::access => "access"@,
            WdlRule::index => "index"@,
            WdlRule::field => "field"@,
            WdlRule::apply => "apply"@,
            WdlRule::none => "none"@,
            WdlRule::tilde_placeholder => "tilde_placeholder"@,
            WdlRule::dollar_placeholder => "dollar_placeholder"@,
            WdlRule::squote_string => "squote_string"@,
            WdlRule::squote_escape_sequence => "squote_escape_sequence"@,
            WdlRule::squote_literal => "squote_literal"@,
            WdlRule::dquote_string => "dquote_string"@,
            WdlRule::dquote_escape_sequence => "dquote_escape_sequence"@,
            WdlRule::dquote_literal => "dquote_literal"@,
            WdlRule::pair => "pair"@,
            WdlRule::array => "array"@,
            WdlRule::map => "map"@,
            WdlRule::map_entry => "map_entry"@,
            WdlRule::object => "object"@,
            WdlRule::object_field => "object_field"@,
            WdlRule::group => "group"@,
            WdlRule::identifier => "identifier"@,
            WdlRule::boolean => "boolean"@,
            WdlRule::float => "float"@,
            WdlRule::exponent => "exponent"@,
            WdlRule::hex_int => "hex_int"@,
            WdlRule::oct_int => "oct_int"@,
            WdlRule::dec_int => "dec_int"@,
            WdlRule::number_escape_sequence => "number_escape_sequence"@,
            WdlRule::simple_squote_string => "simple_squote_string"@,
            WdlRule::simple_squote_escape_sequence => "simple_squote_escape_sequence"@,
            WdlRule::simple_squote_literal => "simple_squote_literal"@,
            WdlRule::simple_dquote_string => "simple_dquote_string"@,
            WdlRule::simple_dquote_escape_sequence => "simple_dquote_escape_sequence"@,
            WdlRule::simple_dquote_literal => "simple_dquote_literal"@,
            WdlRule::or => "or"@,
            WdlRule::and => "and"@,
            WdlRule::eq => "eq"@,
            WdlRule::neq => "neq"@,
            WdlRule::gte => "gte"@,
            WdlRule::gt => "gt"@,
            WdlRule::lte => "lte"@,
            WdlRule::lt => "lt"@,
            WdlRule::add => "add"@,
            WdlRule::sub => "sub"@,
            WdlRule::mul => "mul"@,
            WdlRule::div => "div"@,
            WdlRule::rem => "rem"@,
            WdlRule::not => "not"@,
            WdlRule::pos => "pos"@,
            WdlRule::neg => "neg"@,
            WdlRule::indent => "indent"@,
        }
    }

    /// The name of this rule in the grammar.
    pub fn name(&self) -> (res: &'static str)
        ensures
            res@ == self.name_of(),
    {
        match self {
            WdlRule::EOI => "EOI",
            WdlRule::COMMENT => "COMMENT",
            WdlRule::document => "document",
            WdlRule::version => "version",
            WdlRule::import => "import",
            WdlRule::namespace => "namespace",
            WdlRule::import_alias => "import_alias",
            WdlRule::structdef => "structdef",
            WdlRule::task => "task",
            WdlRule::command => "command",
            WdlRule::command_heredoc => "command_heredoc",
            WdlRule::command_heredoc_escape_sequence => "command_heredoc_escape_sequence",
            WdlRule::command_heredoc_literal => "command_heredoc_literal",
            WdlRule::command_block_escape_sequence => "command_block_escape_sequence",
            WdlRule::single_line_command_block => "single_line_command_block",
            WdlRule::single_line_command_block_literal => "single_line_command_block_literal",
            WdlRule::multi_line_command_block => "multi_line_command_block",
            WdlRule::multi_line_command_block_end => "multi_line_command_block_end",
            WdlRule::multi_line_command_block_literal => "multi_line_command_block_literal",
            WdlRule::runtime => "runtime",
            WdlRule::runtime_attribute => "runtime_attribute",
            WdlRule::workflow => "workflow",
            WdlRule::call => "call",
            WdlRule::qualified_identifier => "qualified_identifier",
            WdlRule::call_alias => "call_alias",
            WdlRule::call_inputs => "call_inputs",
            WdlRule::call_input => "call_input",
            WdlRule::scatter => "scatter",
            WdlRule::conditional => "conditional",
            WdlRule::unbound_declaration => "unbound_declaration",
            WdlRule::bound_declaration => "bound_declaration",
            WdlRule::input => "input",
            WdlRule::output => "output",
            WdlRule::meta => "meta",
            WdlRule::parameter_meta => "parameter_meta",
            WdlRule::meta_attribute => "meta_attribute",
            WdlRule::null => "null",
            WdlRule::meta_number => "meta_number",
            WdlRule::meta_array => "meta_array",
            WdlRule::meta_object => "meta_object",
            WdlRule::meta_object_field => "meta_object_field",
            WdlRule::typedef => "typedef",
            WdlRule::primitive_type => "primitive_type",
            WdlRule::array_type => "array_type",
            WdlRule::non_empty_array_type => "non_empty_array_type",
            WdlRule::non_empty => "non_empty",
            WdlRule::map_type => "map_type",
            WdlRule::pair_type => "pair_type",
            WdlRule::user_type => "user_type",
            WdlRule::optional => "optional",
            WdlRule::expression => "expression",
            WdlRule::ternary => "ternary",
            WdlRule::disjunction => "disjunction",
            WdlRule::conjunction => "conjunction",
            WdlRule::equality => "equality",
            WdlRule::comparison => "comparison",
            WdlRule::math1 => "math1",
            WdlRule::math2 => "math2",
            WdlRule::unary => "unary",
            WdlRule::access => "access",
            WdlRule::index => "index",
            WdlRule::field => "field",
            WdlRule::apply => "apply",
            WdlRule::none => "none",
            WdlRule::tilde_placeholder => "tilde_placeholder",
            WdlRule::dollar_placeholder => "dollar_placeholder",
            WdlRule::squote_string => "squote_string",
            WdlRule::squote_escape_sequence => "squote_escape_sequence",
            WdlRule::squote_literal => "squote_literal",
            WdlRule::dquote_string => "dquote_string",
            WdlRule::dquote_escape_sequence => "dquote_escape_sequence",
            WdlRule::dquote_literal => "dquote_literal",
            WdlRule::pair => "pair",
            WdlRule::array => "array",
            WdlRule::map => "map",
            WdlRule::map_entry => "map_entry",
            WdlRule::object => "object",
            WdlRule::object_field => "object_field",
            WdlRule::group => "group",
            WdlRule::identifier => "identifier",
            WdlRule::boolean => "boolean",
            WdlRule::float => "float",
            WdlRule::exponent => "exponent",
            WdlRule::hex_int => "hex_int",
            WdlRule::oct_int => "oct_int",
            WdlRule::dec_int => "dec_int",
            WdlRule::number_escape_sequence => "number_escape_sequence",
            WdlRule::simple_squote_string => "simple_squote_string",
            WdlRule::simple_squote_escape_sequence => "simple_squote_escape_sequence",
            WdlRule::simple_squote_literal => "simple_squote_literal",
            WdlRule::simple_dquote_string => "simple_dquote_string",
            WdlRule::simple_dquote_escape_sequence => "simple_dquote_escape_sequence",
            WdlRule::simple_dquote_literal => "simple_dquote_literal",
            WdlRule::or => "or",
            WdlRule::and => "and",
            WdlRule::eq => "eq",
            WdlRule::neq => "neq",
            WdlRule::gte => "gte",
            WdlRule::gt => "gt",
            WdlRule::lte => "lte",
            WdlRule::lt => "lt",
            WdlRule::add => "add",
            WdlRule::sub => "sub",
            WdlRule::mul => "mul",
            WdlRule::div => "div",
            WdlRule::rem => "rem",
            WdlRule::not => "not",
            WdlRule::pos => "pos",
            WdlRule::neg => "neg",
            WdlRule::indent => "indent",
        }
    }

    /// The rule with the given name, if the grammar has one.
    pub fn from_name(name: &str) -> (res: Option<WdlRule>)
        ensures
            res matches Some(r) ==> r.name_of() == name@,
            res is None ==> forall|r: WdlRule| r.name_of() != name@,
    {
        if str_eq(name, "EOI") {
            Some(WdlRule::EOI)
        } else if str_eq(name, "COMMENT") {
            Some(WdlRule::COMMENT)
        } else if str_eq(name, "document") {
            Some(WdlRule::document)
        } else if str_eq(name, "version") {
            Some(WdlRule::version)
        } else if str_eq(name, "import") {
            Some(WdlRule::import)
        } else if str_eq(name, "namespace") {
            Some(WdlRule::namespace)
        } else if str_eq(name, "import_alias") {
            Some(WdlRule::import_alias)
        } else if str_eq(name, "structdef") {
            Some(WdlRule::structdef)
        } else if str_eq(name, "task") {
            Some(WdlRule::task)
        } else if str_eq(name, "command") {
            Some(WdlRule::command)
        } else if str_eq(name, "command_heredoc") {
            Some(WdlRule::command_heredoc)
        } else if str_eq(name, "command_heredoc_escape_sequence") {
            Some(WdlRule::command_heredoc_escape_sequence)
        } else if str_eq(name, "command_heredoc_literal") {
            Some(WdlRule::command_heredoc_literal)
        } else if str_eq(name, "command_block_escape_sequence") {
            Some(WdlRule::command_block_escape_sequence)
        } else if str_eq(name, "single_line_command_block") {
            Some(WdlRule::single_line_command_block)
        } else if str_eq(name, "single_line_command_block_literal") {
            Some(WdlRule::single_line_command_block_literal)
        } else if str_eq(name, "multi_line_command_block") {
            Some(WdlRule::multi_line_command_block)
        } else if str_eq(name, "multi_line_command_block_end") {
            Some(WdlRule::multi_line_command_block_end)
        } else if str_eq(name, "multi_line_command_block_literal") {
            Some(WdlRule::multi_line_command_block_literal)
        } else if str_eq(name, "runtime") {
            Some(WdlRule::runtime)
        } else if str_eq(name, "runtime_attribute") {
            Some(WdlRule::runtime_attribute)
        } else if str_eq(name, "workflow") {
            Some(WdlRule::workflow)
        } else if str_eq(name, "call") {
            Some(WdlRule::call)
        } else if str_eq(name, "qualified_identifier") {
            Some(WdlRule::qualified_identifier)
        } else if str_eq(name, "call_alias") {
            Some(WdlRule::call_alias)
        } else if str_eq(name, "call_inputs") {
            Some(WdlRule::call_inputs)
        } else if str_eq(name, "call_input") {
            Some(WdlRule::call_input)
        } else if str_eq(name, "scatter") {
            Some(WdlRule::scatter)
        } else if str_eq(name, "conditional") {
            Some(WdlRule::conditional)
        } else if str_eq(name, "unbound_declaration") {
            Some(WdlRule::unbound_declaration)
        } else if str_eq(name, "bound_declaration") {
            Some(WdlRule::bound_declaration)
        } else if str_eq(name, "input") {
            Some(WdlRule::input)
        } else if str_eq(name, "output") {
            Some(WdlRule::output)
        } else if str_eq(name, "meta") {
            Some(WdlRule::meta)
        } else if str_eq(name, "parameter_meta") {
            Some(WdlRule::parameter_meta)
        } else if str_eq(name, "meta_attribute") {
            Some(WdlRule::meta_attribute)
        } else if str_eq(name, "null") {
            Some(WdlRule::null)
        } else if str_eq(name, "meta_number") {
            Some(WdlRule::meta_number)
        } else if str_eq(name, "meta_array") {
            Some(WdlRule::meta_array)
        } else if str_eq(name, "meta_object") {
            Some(WdlRule::meta_object)
        } else if str_eq(name, "meta_object_field") {
            Some(WdlRule::meta_object_field)
        } else if str_eq(name, "typedef") {
            Some(WdlRule::typedef)
        } else if str_eq(name, "primitive_type") {
            Some(WdlRule::primitive_type)
        } else if str_eq(name, "array_type") {
            Some(WdlRule::array_type)
        } else if str_eq(name, "non_empty_array_type") {
            Some(WdlRule::non_empty_array_type)
        } else if str_eq(name, "non_empty") {
            Some(WdlRule::non_empty)
        } else if str_eq(name, "map_type") {
            Some(WdlRule::map_type)
        } else if str_eq(name, "pair_type") {
            Some(WdlRule::pair_type)
        } else if str_eq(name, "user_type") {
            Some(WdlRule::user_type)
        } else if str_eq(name, "optional") {
            Some(WdlRule::optional)
        } else if str_eq(name, "expression") {
            Some(WdlRule::expression)
        } else if str_eq(name, "ternary") {
            Some(WdlRule::ternary)
        } else if str_eq(name, "disjunction") {
            Some(WdlRule::disjunction)
        } else if str_eq(name, "conjunction") {
            Some(WdlRule::conjunction)
        } else if str_eq(name, "equality") {
            Some(WdlRule::equality)
        } else if str_eq(name, "comparison") {
            Some(WdlRule::comparison)
        } else if str_eq(name, "math1") {
            Some(WdlRule::math1)
        } else if str_eq(name, "math2") {
            Some(WdlRule::math2)
        } else if str_eq(name, "unary") {
            Some(WdlRule::unary)
        } else if str_eq(name, "access") {
            Some(WdlRule::access)
        } else if str_eq(name, "index") {
            Some(WdlRule::index)
        } else if str_eq(name, "field") {
            Some(WdlRule::field)
        } else if str_eq(name, "apply") {
            Some(WdlRule::apply)
        } else if str_eq(name, "none") {
            Some(WdlRule::none)
        } else if str_eq(name, "tilde_placeholder") {
            Some(WdlRule::tilde_placeholder)
        } else if str_eq(name, "dollar_placeholder") {
            Some(WdlRule::dollar_placeholder)
        } else if str_eq(name, "squote_string") {
            Some(WdlRule::squote_string)
        } else if str_eq(name, "squote_escape_sequence") {
            Some(WdlRule::squote_escape_sequence)
        } else if str_eq(name, "squote_literal") {
            Some(WdlRule::squote_literal)
        } else if str_eq(name, "dquote_string") {
            Some(WdlRule::dquote_string)
        } else if str_eq(name, "dquote_escape_sequence") {
            Some(WdlRule::dquote_escape_sequence)
        } else if str_eq(name, "dquote_literal") {
            Some(WdlRule::dquote_literal)
        } else if str_eq(name, "pair") {
            Some(WdlRule::pair)
        } else if str_eq(name, "array") {
            Some(WdlRule::array)
        } else if str_eq(name, "map") {
            Some(WdlRule::map)
        } else if str_eq(name, "map_entry") {
            Some(WdlRule::map_entry)
        } else if str_eq(name, "object") {
            Some(WdlRule::object)
        } else if str_eq(name, "object_field") {
            Some(WdlRule::object_field)
        } else if str_eq(name, "group") {
            Some(WdlRule::group)
        } else if str_eq(name, "identifier") {
            Some(WdlRule::identifier)
        } else if str_eq(name, "boolean") {
            Some(WdlRule::boolean)
        } else if str_eq(name, "float") {
            Some(WdlRule::float)
        } else if str_eq(name, "exponent") {
            Some(WdlRule::exponent)
        } else if str_eq(name, "hex_int") {
            Some(WdlRule::hex_int)
        } else if str_eq(name, "oct_int") {
            Some(WdlRule::oct_int)
        } else if str_eq(name, "dec_int") {
            Some(WdlRule::dec_int)
        } else if str_eq(name, "number_escape_sequence") {
            Some(WdlRule::number_escape_sequence)
        } else if str_eq(name, "simple_squote_string") {
            Some(WdlRule::simple_squote_string)
        } else if str_eq(name, "simple_squote_escape_sequence") {
            Some(WdlRule::simple_squote_escape_sequence)
        } else if str_eq(name, "simple_squote_literal") {
            Some(WdlRule::simple_squote_literal)
        } else if str_eq(name, "simple_dquote_string") {
            Some(WdlRule::simple_dquote_string)
        } else if str_eq(name, "simple_dquote_escape_sequence") {
            Some(WdlRule::simple_dquote_escape_sequence)
        } else if str_eq(name, "simple_dquote_literal") {
            Some(WdlRule::simple_dquote_literal)
        } else if str_eq(name, "or") {
            Some(WdlRule::or)
        } else if str_eq(name, "and") {
            Some(WdlRule::and)
        } else if str_eq(name, "eq") {
            Some(WdlRule::eq)
        } else if str_eq(name, "neq") {
            Some(WdlRule::neq)
        } else if str_eq(name, "gte") {
            Some(WdlRule::gte)
        } else if str_eq(name, "gt") {
            Some(WdlRule::gt)
        } else if str_eq(name, "lte") {
            Some(WdlRule::lte)
        } else if str_eq(name, "lt") {
            Some(WdlRule::lt)
        } else if str_eq(name, "add") {
            Some(WdlRule::add)
        } else if str_eq(name, "sub") {
            Some(WdlRule::sub)
        } else if str_eq(name, "mul") {
            Some(WdlRule::mul)
        } else if str_eq(name, "div") {
            Some(WdlRule::div)
        } else if str_eq(name, "rem") {
            Some(WdlRule::rem)
        } else if str_eq(name, "not") {
            Some(WdlRule::not)
        } else if str_eq(name, "pos") {
            Some(WdlRule::pos)
        } else if str_eq(name, "neg") {
            Some(WdlRule::neg)
        } else if str_eq(name, "indent") {
            Some(WdlRule::indent)
        } else {
            None
        }
    }
}
} // verus!
