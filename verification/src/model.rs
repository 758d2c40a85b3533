//! The WDL document model: the elements of a document, each anchored to its span of source text.
use crate::radix::{parse_radix, radix_value};
use crate::regex_match::{first_capture, regex_first_group};
use crate::text::{concat, from_chars, owned, str_eq, to_chars};
use std::collections::BTreeMap;
use vstd::laws_cmp::obeys_cmp;
use vstd::prelude::*;
use vstd::std_specs::btree::{axiom_increasing_seq_meaning, increasing_seq, spec_btree_map_iter};
use vstd::std_specs::cmp::OrdSpec;
use vstd::std_specs::iter::IteratorSpec;
use vstd::string::*;

verus! {

/// Syntax errors that may be returned when creating model elements.
#[derive(Debug, PartialEq)]
pub enum ModelError {
    /// The parser allowed invalid syntax: this indicates a bug in the parser grammar.
    Grammar { kind: String, value: String },
    /// Invalid integer literal.
    Integer(String),
    /// Invalid float literal.
    Float(String),
    /// Invalid version identifier (only WDL 1.x is supported).
    Version(String),
    /// A task contains more than one element of a kind that must be unique.
    TaskRepeatedElement { task: String, kind: String },
    /// A task is missing its required 'command' element.
    TaskMissingCommand(String),
    /// A workflow contains more than one element of a kind that must be unique.
    WorkflowRepeatedElement { workflow: String, kind: String },
    /// The document has no element of kind Struct, Task, or Workflow.
    DocumentIncomplete,
    /// The document has more than one Workflow element.
    DocumentMultipleWorkflows,
    /// A comment already exists for the given line.
    CommentRepeatedLine(usize),
}

impl ModelError {
    /// The error of a parser that produced a tree the model cannot be built from.
    pub open spec fn is_parser_error(self, msg: Seq<char>) -> bool {
        self matches ModelError::Grammar { kind, value } && kind@ == "parser"@ && value@ == msg
    }

    /// A grammar error of kind `parser`, whatever its message.
    pub open spec fn is_parser_kind(self) -> bool {
        self matches ModelError::Grammar { kind, value } && kind@ == "parser"@
    }

    pub fn parser(msg: String) -> (res: Self)
        ensures
            res.is_parser_error(msg@),
    {
        ModelError::Grammar { kind: String::from_str("parser"), value: msg }
    }

    /// A grammar error of the given kind, about the given source text.
    pub fn grammar(kind: &str, value: &str) -> (res: Self)
        ensures
            res matches ModelError::Grammar { kind: k, value: v } && k@ == kind@ && v@ == value@,
    {
        ModelError::Grammar { kind: owned(kind), value: owned(value) }
    }
}

/// A position in the source document. Includes both 1D (byte offset) and 2D (line and column)
/// coordinates. Coordinates are zero-based, end-exclusive.
#[derive(Clone, Copy, Debug, PartialEq, Eq)]
pub struct Position {
    /// Line of the source file
    pub line: usize,
    /// Column of the source line
    pub column: usize,
    /// Absolute byte offset
    pub offset: usize,
}

impl Position {
    pub fn new(line: usize, column: usize, offset: usize) -> (res: Self)
        ensures
            res == (Position { line, column, offset }),
    {
        Position { line, column, offset }
    }

    /// Moves this position `n` columns (and bytes) to the left on its line.
    pub fn shift_left(&mut self, n: usize)
        requires
            old(self).column >= n,
            old(self).offset >= n,
        ensures
            final(self).line == old(self).line,
            final(self).column == old(self).column - n,
            final(self).offset == old(self).offset - n,
    {
        self.column = self.column - n;
        self.offset = self.offset - n;
    }

    /// Positions are ordered by their byte offset: returns `true` iff `self` comes before `other`.
    pub fn lt(&self, other: &Position) -> (res: bool)
        ensures
            res == (self.offset < other.offset),
    {
        self.offset < other.offset
    }

    /// Formats this position as `line:column`.
    pub fn to_string(&self) -> (res: String)
        ensures
            res@ == self.display(),
    {
        let l = usize_to_string(self.line);
        let c = usize_to_string(self.column);
        let a = concat(l.as_str(), ":");
        concat(a.as_str(), c.as_str())
    }

    pub open spec fn display(self) -> Seq<char> {
        decimal(self.line as nat) + ":"@ + decimal(self.column as nat)
    }
}

/// The decimal digits of `n`.
pub open spec fn decimal(n: nat) -> Seq<char>
    decreases n,
{
    if n < 10 {
        seq![digit_char(n)]
    } else {
        decimal(n / 10) + seq![digit_char(n % 10)]
    }
}

pub open spec fn digit_char(d: nat) -> char {
    if d == 0 { '0' } else if d == 1 { '1' } else if d == 2 { '2' } else if d == 3 { '3' }
    else if d == 4 { '4' } else if d == 5 { '5' } else if d == 6 { '6' } else if d == 7 { '7' }
    else if d == 8 { '8' } else { '9' }
}

fn digit_of(d: usize) -> (c: char)
    requires
        d < 10,
    ensures
        c == digit_char(d as nat),
{
    if d == 0 { '0' } else if d == 1 { '1' } else if d == 2 { '2' } else if d == 3 { '3' }
    else if d == 4 { '4' } else if d == 5 { '5' } else if d == 6 { '6' } else if d == 7 { '7' }
    else if d == 8 { '8' } else { '9' }
}

/// Formats `n` in decimal.
pub fn usize_to_string(n: usize) -> (res: String)
    ensures
        res@ == decimal(n as nat),
    decreases n,
{
    if n < 10 {
        let mut s = String::new();
        crate::text::push_char(&mut s, digit_of(n));
        assert(s@ =~= seq![digit_char(n as nat)]);
        s
    } else {
        let mut s = usize_to_string(n / 10);
        crate::text::push_char(&mut s, digit_of(n % 10));
        s
    }
}

/// The span (start and end positions) in the source document from which a model element was
/// derived. Spans are ordered by their start, then their end.
#[derive(Clone, Copy, Debug, PartialEq, Eq, PartialOrd)]
pub struct Span {
    pub start: Position,
    pub end: Position,
}

impl Span {
    /// Creates a span; the start must come before the end.
    pub fn new(start: Position, end: Position) -> (res: Self)
        requires
            start.offset < end.offset,
        ensures
            res == (Span { start, end }),
    {
        Span { start, end }
    }

    /// The span that starts where `left` starts and ends where `right` ends.
    pub open spec fn range(left: Span, right: Span) -> Span {
        Span { start: left.start, end: right.end }
    }

    pub fn from_range(left: &Self, right: &Self) -> (res: Self)
        ensures
            res == Span::range(*left, *right),
    {
        Span { start: left.start.clone(), end: right.end.clone() }
    }

    pub fn from_components(
        start_line: usize,
        start_column: usize,
        start_offset: usize,
        end_line: usize,
        end_column: usize,
        end_offset: usize,
    ) -> (res: Self)
        ensures
            res.start == (Position { line: start_line, column: start_column, offset: start_offset }),
            res.end == (Position { line: end_line, column: end_column, offset: end_offset }),
    {
        Span {
            start: Position::new(start_line, start_column, start_offset),
            end: Position::new(end_line, end_column, end_offset),
        }
    }

    /// The length of this span in bytes: positions are end-exclusive, so it is the end offset
    /// less the start offset.
    pub fn len(&self) -> (res: usize)
        requires
            self.start.offset <= self.end.offset,
        ensures
            res == self.end.offset - self.start.offset,
    {
        self.end.offset - self.start.offset
    }

    /// Moves the end of this span `n` columns to the left.
    pub fn trim_end(&mut self, n: usize)
        requires
            old(self).end.column >= n,
            old(self).end.offset >= n,
        ensures
            final(self).start == old(self).start,
            final(self).end.line == old(self).end.line,
            final(self).end.column == old(self).end.column - n,
            final(self).end.offset == old(self).end.offset - n,
    {
        self.end.shift_left(n)
    }

    /// The byte range `start.offset..end.offset`.
    pub fn into_range(self) -> (res: std::ops::Range<usize>)
        ensures
            res.start == self.start.offset,
            res.end == self.end.offset,
    {
        std::ops::Range { start: self.start.offset, end: self.end.offset }
    }

    /// Formats this span as `start..end`.
    pub fn to_string(&self) -> (res: String)
        ensures
            res@ == self.start.display() + ".."@ + self.end.display(),
    {
        let a = self.start.to_string();
        let b = concat(a.as_str(), "..");
        let c = self.end.to_string();
        concat(b.as_str(), c.as_str())
    }
}

/// A fragment of source text.
#[derive(Debug)]
pub struct SourceFragment(pub String);

impl SourceFragment {
    /// Formats this fragment as its text.
    pub fn to_string(&self) -> (res: String)
        ensures
            res@ == self.0@,
    {
        owned(self.0.as_str())
    }
}

/// Wrapper around a model element of type `T` that also encapsulates source code span information.
#[derive(Debug, PartialEq)]
pub struct Anchor<T> {
    /// The model element.
    pub element: T,
    /// The span of the source document from which the element was derived.
    pub span: Span,
}

impl<T> Anchor<T> {
    pub fn new(element: T, span: Span) -> (res: Self)
        ensures
            res.element == element,
            res.span == span,
    {
        Anchor { element, span }
    }

    /// The model element.
    pub fn get(&self) -> (res: &T)
        ensures
            *res == self.element,
    {
        &self.element
    }
}

impl Anchor<String> {
    /// Formats this anchored text as the text, then its span in parentheses.
    pub fn to_string(&self) -> (res: String)
        ensures
            res@ == self.element@ + " ("@ + self.span.start.display() + ".."@ + self.span.end.display()
                + ")"@,
    {
        let a = concat(self.element.as_str(), " (");
        let b = self.span.to_string();
        let c = concat(a.as_str(), b.as_str());
        concat(c.as_str(), ")")
    }
}

/// Elements whose span can be computed from the spans of their inner elements.
pub trait InnerSpan {
    /// `true` when the inner span can be computed without failing.
    spec fn inner_span_defined(&self) -> bool;

    /// The span that runs from the first to the last inner element, if there is one.
    spec fn inner_span(&self) -> Option<Span>;

    fn get_inner_span(&self) -> (res: Option<Span>)
        requires
            self.inner_span_defined(),
        ensures
            res == self.inner_span(),
    ;
}

/// The span from the first to the last anchor of `s`, or `None` if `s` is empty.
pub open spec fn anchors_span<T>(s: Seq<Anchor<T>>) -> Option<Span> {
    if s.len() == 0 {
        None
    } else {
        Some(Span::range(s[0].span, s.last().span))
    }
}

impl<T> InnerSpan for Vec<Anchor<T>> {
    open spec fn inner_span_defined(&self) -> bool {
        true
    }

    open spec fn inner_span(&self) -> Option<Span> {
        anchors_span(self@)
    }

    fn get_inner_span(&self) -> (res: Option<Span>) {
        let n = self.len();
        let res = if n == 0 {
            None
        } else {
            Some(Span::from_range(&self[0].span, &self[n - 1].span))
        };
        assert(res == anchors_span(self@));
        assert(self.inner_span() == anchors_span(self@));
        res
    }
}

/// Mapping of source lines to comments. In WDL there are no block comments, so there can be a
/// maximum of one comment per line. The comments are held in a map keyed by line, so that they
/// come out in line order.
#[derive(Debug, PartialEq)]
pub struct Comments {
    map: BTreeMap<usize, Anchor<String>>,
}

/// `true` iff the lines of `s` are strictly increasing.
pub open spec fn lines_increasing(s: Seq<(usize, Anchor<String>)>) -> bool {
    forall|i: int, j: int| 0 <= i < j < s.len() ==> s[i].0 < s[j].0
}

/// The index of the entry of `s` for `line`, if there is one.
pub open spec fn line_index(s: Seq<(usize, Anchor<String>)>, line: usize) -> Option<int> {
    if exists|i: int| 0 <= i < s.len() && s[i].0 == line {
        Some(choose|i: int| 0 <= i < s.len() && s[i].0 == line)
    } else {
        None
    }
}

/// `s` lists the comments of `m` in line order: each entry is a line of `m` with its comment,
/// the lines increase, and every line of `m` is listed.
pub open spec fn lists(s: Seq<(usize, Anchor<String>)>, m: Map<usize, Anchor<String>>) -> bool {
    &&& lines_increasing(s)
    &&& forall|i: int| 0 <= i < s.len() ==> m.contains_key(#[trigger] s[i].0) && m[s[i].0] == s[i].1
    &&& forall|l: usize| #[trigger] m.contains_key(l) ==> exists|i: int| 0 <= i < s.len() && s[i].0 == l
}

/// The comments of `m` in line order.
pub open spec fn listing(m: Map<usize, Anchor<String>>) -> Seq<(usize, Anchor<String>)> {
    choose|s: Seq<(usize, Anchor<String>)>| lists(s, m)
}

/// A map has at most one listing in line order.
proof fn lemma_listing_unique(s1: Seq<(usize, Anchor<String>)>, s2: Seq<(usize, Anchor<String>)>, m: Map<usize, Anchor<String>>)
    requires
        lists(s1, m),
        lists(s2, m),
    ensures
        s1 == s2,
    decreases s1.len(),
{
    if s1.len() == 0 {
        if s2.len() > 0 {
            assert(m.contains_key(s2[0].0));
        }
        assert(s1 =~= s2);
    } else {
        assert(m.contains_key(s1[0].0));
        assert(s2.len() > 0);
        assert(m.contains_key(s2[0].0));
        let j = choose|i: int| 0 <= i < s2.len() && s2[i].0 == s1[0].0;
        let i = choose|i: int| 0 <= i < s1.len() && s1[i].0 == s2[0].0;
        if j > 0 {
            assert(s2[0].0 < s2[j].0);
            if i > 0 {
                assert(s1[0].0 < s1[i].0);
            }
        }
        assert(s1[0] == s2[0]);
        let k = s1[0].0;
        let m2 = m.remove(k);
        let t1 = s1.drop_first();
        let t2 = s2.drop_first();
        assert(lists(t1, m2)) by {
            assert forall|a: int| 0 <= a < t1.len() implies m2.contains_key(#[trigger] t1[a].0) && m2[t1[a].0] == t1[a].1 by {
                assert(s1[0].0 < s1[a + 1].0);
            }
            assert forall|l: usize| #[trigger] m2.contains_key(l) implies exists|a: int| 0 <= a < t1.len() && t1[a].0 == l by {
                let b = choose|b: int| 0 <= b < s1.len() && s1[b].0 == l;
                assert(t1[b - 1].0 == l);
            }
        }
        assert(lists(t2, m2)) by {
            assert forall|a: int| 0 <= a < t2.len() implies m2.contains_key(#[trigger] t2[a].0) && m2[t2[a].0] == t2[a].1 by {
                assert(s2[0].0 < s2[a + 1].0);
            }
            assert forall|l: usize| #[trigger] m2.contains_key(l) implies exists|a: int| 0 <= a < t2.len() && t2[a].0 == l by {
                let b = choose|b: int| 0 <= b < s2.len() && s2[b].0 == l;
                assert(t2[b - 1].0 == l);
            }
        }
        lemma_listing_unique(t1, t2, m2);
        assert(s1 =~= seq![s1[0]] + t1);
        assert(s2 =~= seq![s2[0]] + t2);
    }
}

/// A listing of a map is the listing.
proof fn lemma_listing_is(s: Seq<(usize, Anchor<String>)>, m: Map<usize, Anchor<String>>)
    requires
        lists(s, m),
    ensures
        listing(m) == s,
{
    lemma_listing_unique(listing(m), s, m);
}

/// The number of entries of `s` at the front whose lines come before `line`.
spec fn count_before(s: Seq<(usize, Anchor<String>)>, line: usize) -> int
    decreases s.len(),
{
    if s.len() == 0 {
        0
    } else if s.last().0 < line {
        s.len() as int
    } else {
        count_before(s.drop_last(), line)
    }
}

/// In a listing in line order, the entries before `count_before` have lines before `line`, and
/// the others do not.
proof fn lemma_count_before(s: Seq<(usize, Anchor<String>)>, line: usize)
    requires
        lines_increasing(s),
    ensures
        0 <= count_before(s, line) <= s.len(),
        forall|i: int| 0 <= i < count_before(s, line) ==> #[trigger] s[i].0 < line,
        forall|i: int| count_before(s, line) <= i < s.len() ==> #[trigger] s[i].0 >= line,
    decreases s.len(),
{
    if s.len() > 0 {
        let t = s.drop_last();
        lemma_count_before(t, line);
        assert forall|i: int| 0 <= i < t.len() implies t[i] == s[i] by {}
    }
}

/// The keys that a map's iterator yields increase.
proof fn lemma_iter_increasing(v: Seq<(&usize, &Anchor<String>)>)
    requires
        increasing_seq(v.map_values(|kv: (&usize, &Anchor<String>)| *kv.0)),
    ensures
        forall|i: int, j: int| 0 <= i < j < v.len() ==> *v[i].0 < *v[j].0,
{
    broadcast use vstd::laws_cmp::group_laws_cmp;
    let ks = v.map_values(|kv: (&usize, &Anchor<String>)| *kv.0);
    assert(obeys_cmp::<usize>());
    axiom_increasing_seq_meaning::<usize>(ks);
    assert forall|i: int, j: int| 0 <= i < j < v.len() implies *v[i].0 < *v[j].0 by {
        assert(ks[i] == *v[i].0 && ks[j] == *v[j].0);
        assert(ks[i].cmp_spec(&ks[j]) is Less);
    }
}

impl View for Comments {
    type V = Seq<(usize, Anchor<String>)>;

    closed spec fn view(&self) -> Seq<(usize, Anchor<String>)> {
        listing(self.map@)
    }
}

impl Comments {
    #[verifier::type_invariant]
    closed spec fn wf(self) -> bool {
        lists(listing(self.map@), self.map@)
    }

    /// An empty set of comments.
    pub fn default() -> (res: Self)
        ensures
            res@ == Seq::<(usize, Anchor<String>)>::empty(),
    {
        let map = BTreeMap::new();
        proof {
            assert(lists(Seq::<(usize, Anchor<String>)>::empty(), map@));
            lemma_listing_is(Seq::<(usize, Anchor<String>)>::empty(), map@);
        }
        Comments { map }
    }

    /// Adds a comment to the map. Returns a `ModelError::CommentRepeatedLine` if a comment has
    /// already been added at `line`.
    pub fn try_insert(&mut self, line: usize, comment: Anchor<String>) -> (res: Result<(), ModelError>)
        ensures
            line_index(old(self)@, line) is Some ==> res == Err::<(), ModelError>(ModelError::CommentRepeatedLine(line))
                && final(self)@ == old(self)@,
            line_index(old(self)@, line) is None ==> res is Ok && exists|k: int|
                0 <= k <= old(self)@.len() && final(self)@ == old(self)@.insert(k, (line, comment)),
            lines_increasing(final(self)@),
    {
        proof {
            use_type_invariant(&*self);
            broadcast use vstd::std_specs::btree::group_btree_axioms, vstd::laws_cmp::group_laws_cmp;
        }
        let ghost before = self@;
        let ghost m0 = self.map@;
        if self.map.contains_key(&line) {
            proof {
                let i = choose|i: int| 0 <= i < before.len() && before[i].0 == line;
                assert(before[i].0 == line);
            }
            return Err(ModelError::CommentRepeatedLine(line));
        }
        assert(line_index(before, line) is None) by {
            if exists|i: int| 0 <= i < before.len() && before[i].0 == line {
                let i = choose|i: int| 0 <= i < before.len() && before[i].0 == line;
                assert(m0.contains_key(before[i].0));
            }
        }
        let mut map = BTreeMap::new();
        proof {
            assert(lists(Seq::<(usize, Anchor<String>)>::empty(), map@));
            lemma_listing_is(Seq::<(usize, Anchor<String>)>::empty(), map@);
        }
        std::mem::swap(&mut map, &mut self.map);
        map.insert(line, comment);
        proof {
            lemma_count_before(before, line);
            let k = count_before(before, line);
            let after = before.insert(k, (line, comment));
            assert(lists(after, map@)) by {
                assert forall|i: int, j: int| 0 <= i < j < after.len() implies after[i].0 < after[j].0 by {
                    if j < k {
                        assert(after[i] == before[i] && after[j] == before[j]);
                    } else if j == k {
                        assert(after[i] == before[i]);
                    } else if i == k {
                        assert(after[j] == before[j - 1]);
                        assert(before[j - 1].0 != line);
                    } else if i < k {
                        assert(after[i] == before[i] && after[j] == before[j - 1]);
                    } else {
                        assert(after[i] == before[i - 1] && after[j] == before[j - 1]);
                    }
                }
                assert forall|i: int| 0 <= i < after.len() implies map@.contains_key(#[trigger] after[i].0) && map@[after[i].0] == after[i].1 by {
                    if i < k {
                        assert(after[i] == before[i]);
                    } else if i > k {
                        assert(after[i] == before[i - 1]);
                    }
                }
                assert forall|l: usize| #[trigger] map@.contains_key(l) implies exists|i: int| 0 <= i < after.len() && after[i].0 == l by {
                    if l == line {
                        assert(after[k].0 == line);
                    } else {
                        assert(m0.contains_key(l));
                        let b = choose|b: int| 0 <= b < before.len() && before[b].0 == l;
                        if b < k {
                            assert(after[b] == before[b]);
                        } else {
                            assert(after[b + 1] == before[b]);
                        }
                    }
                }
            }
            lemma_listing_is(after, map@);
        }
        self.map = map;
        Ok(())
    }

    /// Returns the comment on the specified line, or `None` if there is no comment on that line.
    pub fn get(&self, line: usize) -> (res: Option<&Anchor<String>>)
        ensures
            lines_increasing(self@),
            match line_index(self@, line) {
                Some(i) => res == Some(&self@[i].1),
                None => res is None,
            },
    {
        proof {
            use_type_invariant(self);
            broadcast use vstd::std_specs::btree::group_btree_axioms, vstd::laws_cmp::group_laws_cmp;
        }
        let res = self.map.get(&line);
        proof {
            let s = self@;
            if exists|i: int| 0 <= i < s.len() && s[i].0 == line {
                let i = choose|i: int| 0 <= i < s.len() && s[i].0 == line;
                assert(self.map@.contains_key(s[i].0));
            } else if self.map@.contains_key(line) {
                let i = choose|i: int| 0 <= i < s.len() && s[i].0 == line;
                assert(s[i].0 == line);
            }
        }
        res
    }

    /// All comments with their lines, in line order.
    fn entries(&self) -> (res: Vec<(usize, &Anchor<String>)>)
        ensures
            res@.map_values(|p: (usize, &Anchor<String>)| (p.0, *p.1)) == self@,
    {
        proof {
            use_type_invariant(self);
            broadcast use vstd::std_specs::btree::group_btree_axioms, vstd::laws_cmp::group_laws_cmp;
        }
        let ghost m = self.map@;
        let mut res: Vec<(usize, &Anchor<String>)> = Vec::new();
        for kv in it: self.map.iter()
            invariant
                res.len() == it.index(),
                it.seq() == spec_btree_map_iter(&self.map).remaining(),
                increasing_seq(
                    spec_btree_map_iter(&self.map).remaining().map_values(
                        |kv: (&usize, &Anchor<String>)| *kv.0,
                    ),
                ),
                forall|i: int| 0 <= i < res.len() ==> res@[i] == (*it.seq()[i].0, it.seq()[i].1),
        {
            let (k, v) = kv;
            res.push((*k, v));
        }
        proof {
            let v = spec_btree_map_iter(&self.map).remaining();
            let s = res@.map_values(|p: (usize, &Anchor<String>)| (p.0, *p.1));
            lemma_iter_increasing(v);
            assert(lists(s, m)) by {
                assert forall|i: int, j: int| 0 <= i < j < s.len() implies s[i].0 < s[j].0 by {
                    assert(s[i].0 == *v[i].0 && s[j].0 == *v[j].0);
                }
                assert forall|i: int| 0 <= i < s.len() implies m.contains_key(#[trigger] s[i].0) && m[s[i].0] == s[i].1 by {
                    assert(s[i].0 == *v[i].0 && s[i].1 == *v[i].1);
                }
                assert forall|l: usize| #[trigger] m.contains_key(l) implies exists|i: int| 0 <= i < s.len() && s[i].0 == l by {
                    assert(v.contains((&l, &m[l])));
                    let i = choose|i: int| 0 <= i < v.len() && v[i] == (&l, &m[l]);
                    assert(s[i].0 == l);
                }
            }
            lemma_listing_is(s, m);
        }
        res
    }

    /// Returns all comments in line order.
    pub fn values(&self) -> (res: Vec<&Anchor<String>>)
        ensures
            lines_increasing(self@),
            res@.len() == self@.len(),
            forall|i: int| 0 <= i < res@.len() ==> *res@[i] == #[trigger] self@[i].1,
    {
        proof {
            use_type_invariant(self);
        }
        let all = self.entries();
        let n = all.len();
        let mut res: Vec<&Anchor<String>> = Vec::new();
        let mut k: usize = 0;
        while k < n
            invariant
                n == all@.len(),
                all@.map_values(|p: (usize, &Anchor<String>)| (p.0, *p.1)) == self@,
                k <= n,
                res@.len() == k,
                forall|i: int| 0 <= i < k ==> *res@[i] == #[trigger] self@[i].1,
            decreases n - k,
        {
            assert(self@[k as int] == (all@[k as int].0, *all@[k as int].1));
            res.push(all[k].1);
            k = k + 1;
        }
        res
    }

    /// Returns the comments within the given source line range (start-inclusive, end-exclusive),
    /// each with its line, in line order.
    pub fn range(&self, start: usize, end: usize) -> (res: Vec<(usize, &Anchor<String>)>)
        ensures
            lines_increasing(self@),
            res@.map_values(|p: (usize, &Anchor<String>)| (p.0, *p.1)) == self@.filter(
                |e: (usize, Anchor<String>)| start <= e.0 && e.0 < end,
            ),
    {
        proof {
            use_type_invariant(self);
        }
        let all = self.entries();
        let ghost f = |e: (usize, Anchor<String>)| start <= e.0 && e.0 < end;
        let n = all.len();
        let mut res: Vec<(usize, &Anchor<String>)> = Vec::new();
        let mut k: usize = 0;
        assert(self@.subrange(0, 0).filter(f) =~= Seq::<(usize, Anchor<String>)>::empty()) by {
            reveal_with_fuel(Seq::filter, 1);
        }
        while k < n
            invariant
                n == all@.len(),
                all@.map_values(|p: (usize, &Anchor<String>)| (p.0, *p.1)) == self@,
                k <= n,
                f == (|e: (usize, Anchor<String>)| start <= e.0 && e.0 < end),
                res@.map_values(|p: (usize, &Anchor<String>)| (p.0, *p.1)) == self@.subrange(
                    0,
                    k as int,
                ).filter(f),
            decreases n - k,
        {
            let ghost pre = self@.subrange(0, k as int);
            assert(self@[k as int] == (all@[k as int].0, *all@[k as int].1));
            assert(self@.subrange(0, k + 1) =~= pre.push(self@[k as int]));
            proof {
                assert(pre.push(self@[k as int]).filter(f) == if f(self@[k as int]) {
                    pre.filter(f).push(self@[k as int])
                } else {
                    pre.filter(f)
                }) by {
                    reveal_with_fuel(Seq::filter, 1);
                    assert(pre.push(self@[k as int]).drop_last() =~= pre);
                }
            }
            let line = all[k].0;
            if start <= line && line < end {
                res.push(all[k]);
                assert(res@.map_values(|p: (usize, &Anchor<String>)| (p.0, *p.1)) =~= pre.filter(
                    f,
                ).push(self@[k as int]));
            }
            k = k + 1;
        }
        assert(self@.subrange(0, n as int) =~= self@);
        res
    }
}

/// An integer literal, with the radix it was written in.
#[derive(Debug, PartialEq)]
pub enum Integer {
    Decimal(i64),
    Octal(i64),
    Hex(i64),
}

/// The integer literal written as `s`, if it is one: `0x`/`0X` and hexadecimal digits, `0` and
/// octal digits, or a decimal number, its value in range of an `i64`.
pub open spec fn integer_text(s: Seq<char>) -> Option<Integer> {
    if s.len() > 1 && s[0] == '0' && (s[1] == 'x' || s[1] == 'X') {
        match radix_value(s.skip(2), 16) {
            Some(v) => Some(Integer::Hex(v)),
            None => None,
        }
    } else if s.len() > 1 && s[0] == '0' && '0' <= s[1] <= '7' {
        match radix_value(s.skip(1), 8) {
            Some(v) => Some(Integer::Octal(v)),
            None => None,
        }
    } else if s.len() > 1 && s[0] == '0' {
        None
    } else {
        match radix_value(s, 10) {
            Some(v) => Some(Integer::Decimal(v)),
            None => None,
        }
    }
}

impl Integer {
    /// The value of this literal.
    pub open spec fn value(self) -> i64 {
        match self {
            Integer::Decimal(i) => i,
            Integer::Octal(i) => i,
            Integer::Hex(i) => i,
        }
    }

    /// The same literal with the value `v`.
    pub open spec fn with_value(self, v: i64) -> Integer {
        match self {
            Integer::Decimal(_) => Integer::Decimal(v),
            Integer::Octal(_) => Integer::Octal(v),
            Integer::Hex(_) => Integer::Hex(v),
        }
    }

    /// Returns the literal with the negated value; the value must not be `i64::MIN`, whose
    /// negation does not fit.
    pub fn negate(&self) -> (res: Self)
        requires
            self.value() != i64::MIN,
        ensures
            res == self.with_value((-self.value()) as i64),
    {
        match self {
            Integer::Decimal(i) => Integer::Decimal(0 - *i),
            Integer::Octal(i) => Integer::Octal(0 - *i),
            Integer::Hex(i) => Integer::Hex(0 - *i),
        }
    }

    /// Parses an integer literal: `0x`/`0X` followed by hexadecimal digits, `0` followed by octal
    /// digits, or a decimal number.
    pub fn from_str(s: &str) -> (res: Result<Self, ModelError>)
        ensures
            match integer_text(s@) {
                Some(i) => res == Ok::<Integer, ModelError>(i),
                None => res is Err,
            },
            s@.len() > 1 && s@[0] == '0' && (s@[1] == 'x' || s@[1] == 'X') ==> match radix_value(s@.skip(2), 16) {
                Some(v) => res == Ok::<Integer, ModelError>(Integer::Hex(v)),
                None => res matches Err(ModelError::Integer(t)) && t@ == s@,
            },
            s@.len() > 1 && s@[0] == '0' && '0' <= s@[1] <= '7' ==> match radix_value(s@.skip(1), 8) {
                Some(v) => res == Ok::<Integer, ModelError>(Integer::Octal(v)),
                None => res matches Err(ModelError::Integer(t)) && t@ == s@,
            },
            s@.len() > 1 && s@[0] == '0' && !(s@[1] == 'x' || s@[1] == 'X' || '0' <= s@[1] <= '7') ==>
                (res matches Err(ModelError::Grammar { kind, value }) && kind@ == "integer"@ && value@ == s@),
            !(s@.len() > 1 && s@[0] == '0') ==> match radix_value(s@, 10) {
                Some(v) => res == Ok::<Integer, ModelError>(Integer::Decimal(v)),
                None => res matches Err(ModelError::Integer(t)) && t@ == s@,
            },
    {
        let chars = to_chars(s);
        if chars.len() > 1 && chars[0] == '0' {
            let c = chars[1];
            if c == 'x' || c == 'X' {
                match parse_radix(&chars, 2, 16) {
                    Some(v) => Ok(Integer::Hex(v)),
                    None => Err(ModelError::Integer(owned(s))),
                }
            } else if '0' <= c && c <= '7' {
                match parse_radix(&chars, 1, 8) {
                    Some(v) => Ok(Integer::Octal(v)),
                    None => Err(ModelError::Integer(owned(s))),
                }
            } else {
                Err(ModelError::grammar("integer", s))
            }
        } else {
            assert(chars@.skip(0) =~= chars@);
            match parse_radix(&chars, 0, 10) {
                Some(v) => Ok(Integer::Decimal(v)),
                None => Err(ModelError::Integer(owned(s))),
            }
        }
    }

    /// The value of this literal.
    pub fn into_i64(self) -> (res: i64)
        ensures
            res == self.value(),
    {
        match self {
            Integer::Decimal(i) => i,
            Integer::Octal(i) => i,
            Integer::Hex(i) => i,
        }
    }
}

/// A floating point literal, held as the text it was written as: `Scientific` when that text
/// holds an exponent, `Decimal` otherwise.
#[derive(Debug, PartialEq)]
pub enum Float {
    Decimal(String),
    Scientific(String),
}

pub open spec fn is_digit(c: char) -> bool {
    '0' <= c && c <= '9'
}

pub open spec fn all_digits(s: Seq<char>) -> bool {
    forall|i: int| 0 <= i < s.len() ==> is_digit(#[trigger] s[i])
}

/// `Digit+ | Digit+ '.' Digit* | Digit* '.' Digit+`
pub open spec fn is_mantissa(m: Seq<char>) -> bool {
    ||| (m.len() >= 1 && all_digits(m))
    ||| exists|p: int|
        0 <= p < m.len() && m[p] == '.' && all_digits(m.take(p)) && all_digits(m.skip(p + 1)) && (p
            > 0 || p + 1 < m.len())
}

/// `Sign? Digit+`
pub open spec fn is_exponent(e: Seq<char>) -> bool {
    if e.len() > 0 && (e[0] == '+' || e[0] == '-') {
        e.len() >= 2 && all_digits(e.skip(1))
    } else {
        e.len() >= 1 && all_digits(e)
    }
}

pub open spec fn is_e(c: char) -> bool {
    c == 'e' || c == 'E'
}

/// `Mantissa ('e' Exponent)?`, the letter in either case.
pub open spec fn is_number(s: Seq<char>) -> bool {
    ||| is_mantissa(s)
    ||| exists|k: int| 0 <= k < s.len() && is_e(s[k]) && is_mantissa(s.take(k)) && is_exponent(s.skip(k + 1))
}

pub open spec fn lower(c: char) -> char {
    if 'A' <= c && c <= 'Z' {
        ((c as u32) + 32) as char
    } else {
        c
    }
}

pub open spec fn lowercase(s: Seq<char>) -> Seq<char> {
    s.map_values(|c: char| lower(c))
}

/// The text of a valid float (as `f64::from_str` accepts it): an optional sign, then `inf`,
/// `infinity` or `nan` in any case, or a number.
pub open spec fn is_float_text(s: Seq<char>) -> bool {
    let body = if s.len() > 0 && (s[0] == '+' || s[0] == '-') { s.skip(1) } else { s };
    ||| lowercase(body) == "inf"@
    ||| lowercase(body) == "infinity"@
    ||| lowercase(body) == "nan"@
    ||| is_number(body)
}

pub open spec fn has_exponent_letter(s: Seq<char>) -> bool {
    exists|i: int| 0 <= i < s.len() && is_e(s[i])
}

/// The text of the negation of the float written as `s`.
pub open spec fn negated_text(s: Seq<char>) -> Seq<char> {
    if s.len() > 0 && s[0] == '-' {
        s.skip(1)
    } else if s.len() > 0 && s[0] == '+' {
        seq!['-'] + s.skip(1)
    } else {
        seq!['-'] + s
    }
}

impl Float {
    pub open spec fn text(self) -> Seq<char> {
        match self {
            Float::Decimal(t) => t@,
            Float::Scientific(t) => t@,
        }
    }

    pub open spec fn is_scientific(self) -> bool {
        self is Scientific
    }

    /// Returns the literal with the negated value: a leading `-` is removed, a leading `+`
    /// becomes `-`, and otherwise `-` is prepended.
    pub fn negate(&self) -> (res: Self)
        ensures
            res.text() == negated_text(self.text()),
            res.is_scientific() == self.is_scientific(),
    {
        match self {
            Float::Decimal(t) => Float::Decimal(negate_text(t.as_str())),
            Float::Scientific(t) => Float::Scientific(negate_text(t.as_str())),
        }
    }

    /// Parses a float literal; its text must be one that `f64::from_str` accepts.
    pub fn from_str(s: &str) -> (res: Result<Self, ModelError>)
        ensures
            !is_float_text(s@) ==> (res matches Err(ModelError::Float(t)) && t@ == s@),
            is_float_text(s@) && has_exponent_letter(s@) ==> (res matches Ok(Float::Scientific(t)) && t@ == s@),
            is_float_text(s@) && !has_exponent_letter(s@) ==> (res matches Ok(Float::Decimal(t)) && t@ == s@),
    {
        let chars = to_chars(s);
        if !float_text(&chars) {
            return Err(ModelError::Float(owned(s)));
        }
        let n = chars.len();
        let mut i: usize = 0;
        while i < n
            invariant
                n == chars@.len(),
                chars@ == s@,
                is_float_text(s@),
                i <= n,
                forall|j: int| 0 <= j < i ==> !is_e(chars@[j]),
            decreases n - i,
        {
            if chars[i] == 'e' || chars[i] == 'E' {
                return Ok(Float::Scientific(owned(s)));
            }
            i = i + 1;
        }
        Ok(Float::Decimal(owned(s)))
    }
}

pub(crate) fn negate_text(t: &str) -> (res: String)
    ensures
        res@ == negated_text(t@),
{
    let chars = to_chars(t);
    let n = chars.len();
    if n > 0 && chars[0] == '-' {
        from_chars(&chars, 1, n)
    } else if n > 0 && chars[0] == '+' {
        let rest = from_chars(&chars, 1, n);
        let r = concat("-", rest.as_str());
        proof {
            reveal_strlit("-");
        }
        r
    } else {
        let r = concat("-", t);
        proof {
            reveal_strlit("-");
        }
        r
    }
}

fn digits_in(chars: &Vec<char>, from: usize, to: usize) -> (res: bool)
    requires
        from <= to <= chars@.len(),
    ensures
        res == all_digits(chars@.subrange(from as int, to as int)),
{
    let mut i = from;
    while i < to
        invariant
            from <= i <= to,
            to <= chars@.len(),
            all_digits(chars@.subrange(from as int, i as int)),
        decreases to - i,
    {
        if !('0' <= chars[i] && chars[i] <= '9') {
            assert(!is_digit(chars@.subrange(from as int, to as int)[i - from]));
            return false;
        }
        i = i + 1;
        assert forall|j: int| 0 <= j < i - from implies is_digit(#[trigger] chars@.subrange(from as int, i as int)[j]) by {
            if j < i - 1 - from {
                assert(chars@.subrange(from as int, i as int)[j] == chars@.subrange(from as int, i - 1)[j]);
            }
        }
    }
    true
}

fn mantissa_in(chars: &Vec<char>, from: usize, to: usize) -> (res: bool)
    requires
        from <= to <= chars@.len(),
    ensures
        res == is_mantissa(chars@.subrange(from as int, to as int)),
{
    let ghost m = chars@.subrange(from as int, to as int);
    let mut p = from;
    while p < to && chars[p] != '.'
        invariant
            from <= p <= to,
            to <= chars@.len(),
            forall|j: int| from <= j < p ==> chars@[j] != '.',
        decreases to - p,
    {
        p = p + 1;
    }
    if p == to {
        let r = to > from && digits_in(chars, from, to);
        proof {
            if !r && to > from {
                assert(!all_digits(m));
            }
            if exists|q: int| 0 <= q < m.len() && m[q] == '.' {
                let q = choose|q: int| 0 <= q < m.len() && m[q] == '.';
                assert(chars@[from + q] == '.');
            }
        }
        r
    } else {
        let k = p - from;
        let r = digits_in(chars, from, p) && digits_in(chars, p + 1, to) && (p > from || p + 1 < to);
        proof {
            assert(m.take(k as int) =~= chars@.subrange(from as int, p as int));
            assert(m.skip(k + 1) =~= chars@.subrange(p + 1, to as int));
            assert(m[k as int] == '.');
            assert(!all_digits(m)) by {
                assert(!is_digit(m[k as int]));
            }
            if exists|q: int|
                0 <= q < m.len() && m[q] == '.' && all_digits(m.take(q)) && all_digits(m.skip(q + 1)) && (q > 0 || q + 1 < m.len()) {
                let q = choose|q: int|
                    0 <= q < m.len() && m[q] == '.' && all_digits(m.take(q)) && all_digits(m.skip(q + 1)) && (q > 0 || q + 1 < m.len());
                if q < k {
                    assert(m.skip(q + 1)[k - q - 1] == '.');
                } else if q > k {
                    assert(m.take(q)[k as int] == '.');
                }
            }
        }
        r
    }
}

fn exponent_in(chars: &Vec<char>, from: usize, to: usize) -> (res: bool)
    requires
        from <= to <= chars@.len(),
    ensures
        res == is_exponent(chars@.subrange(from as int, to as int)),
{
    let ghost e = chars@.subrange(from as int, to as int);
    if to > from && (chars[from] == '+' || chars[from] == '-') {
        assert(e.skip(1) =~= chars@.subrange(from + 1, to as int));
        to - from >= 2 && digits_in(chars, from + 1, to)
    } else {
        to > from && digits_in(chars, from, to)
    }
}

fn number_in(chars: &Vec<char>, from: usize, to: usize) -> (res: bool)
    requires
        from <= to <= chars@.len(),
    ensures
        res == is_number(chars@.subrange(from as int, to as int)),
{
    let ghost s = chars@.subrange(from as int, to as int);
    let mut k = from;
    while k < to && chars[k] != 'e' && chars[k] != 'E'
        invariant
            from <= k <= to,
            to <= chars@.len(),
            forall|j: int| from <= j < k ==> !is_e(chars@[j]),
        decreases to - k,
    {
        k = k + 1;
    }
    let whole = mantissa_in(chars, from, to);
    if k == to {
        proof {
            if exists|q: int| 0 <= q < s.len() && is_e(s[q]) && is_mantissa(s.take(q)) && is_exponent(s.skip(q + 1)) {
                let q = choose|q: int| 0 <= q < s.len() && is_e(s[q]) && is_mantissa(s.take(q)) && is_exponent(s.skip(q + 1));
                assert(is_e(chars@[from + q]));
            }
        }
        whole
    } else {
        let r = mantissa_in(chars, from, k) && exponent_in(chars, k + 1, to);
        proof {
            let i = k - from;
            assert(s.take(i as int) =~= chars@.subrange(from as int, k as int));
            assert(s.skip(i + 1) =~= chars@.subrange(k + 1, to as int));
            assert(is_e(s[i as int]));
            // a mantissa holds no exponent letter
            assert(!is_mantissa(s)) by {
                assert(!is_digit(s[i as int]));
                if exists|p: int|
                    0 <= p < s.len() && s[p] == '.' && all_digits(s.take(p)) && all_digits(s.skip(p + 1)) && (p > 0 || p + 1 < s.len()) {
                    let p = choose|p: int|
                        0 <= p < s.len() && s[p] == '.' && all_digits(s.take(p)) && all_digits(s.skip(p + 1)) && (p > 0 || p + 1 < s.len());
                    if p < i {
                        assert(!is_digit(s.skip(p + 1)[i - p - 1]));
                    } else {
                        assert(!is_digit(s.take(p)[i as int]));
                    }
                }
            }
            if exists|q: int| 0 <= q < s.len() && is_e(s[q]) && is_mantissa(s.take(q)) && is_exponent(s.skip(q + 1)) {
                let q = choose|q: int| 0 <= q < s.len() && is_e(s[q]) && is_mantissa(s.take(q)) && is_exponent(s.skip(q + 1));
                if q > i {
                    lemma_mantissa_no_e(s.take(q), i);
                } else if q < i {
                    lemma_exponent_no_e(s.skip(q + 1), i - q - 1);
                }
            }
        }
        r
    }
}

proof fn lemma_mantissa_no_e(m: Seq<char>, i: int)
    requires
        is_mantissa(m),
        0 <= i < m.len(),
    ensures
        !is_e(m[i]),
{
    if m.len() >= 1 && all_digits(m) {
        assert(is_digit(m[i]));
    } else {
        let p = choose|p: int|
            0 <= p < m.len() && m[p] == '.' && all_digits(m.take(p)) && all_digits(m.skip(p + 1)) && (p > 0 || p + 1 < m.len());
        if i < p {
            assert(is_digit(m.take(p)[i]));
        } else if i > p {
            assert(is_digit(m.skip(p + 1)[i - p - 1]));
        }
    }
}

proof fn lemma_exponent_no_e(e: Seq<char>, i: int)
    requires
        is_exponent(e),
        0 <= i < e.len(),
    ensures
        !is_e(e[i]),
{
    if e.len() > 0 && (e[0] == '+' || e[0] == '-') {
        if i > 0 {
            assert(is_digit(e.skip(1)[i - 1]));
        }
    } else {
        assert(is_digit(e[i]));
    }
}

fn lower_char(c: char) -> (res: char)
    ensures
        res == lower(c),
{
    if 'A' <= c && c <= 'Z' {
        ((c as u8) + 32) as char
    } else {
        c
    }
}

/// `true` iff `chars[from..to]`, lowercased, is `word`.
fn lower_equals(chars: &Vec<char>, from: usize, to: usize, word: &str) -> (res: bool)
    requires
        from <= to <= chars@.len(),
    ensures
        res == (lowercase(chars@.subrange(from as int, to as int)) == word@),
{
    let w = to_chars(word);
    let ghost s = chars@.subrange(from as int, to as int);
    if to - from != w.len() {
        assert(lowercase(s).len() != word@.len());
        return false;
    }
    let mut i: usize = 0;
    while i < w.len()
        invariant
            from <= to <= chars@.len(),
            to - from == w@.len(),
            w@ == word@,
            s == chars@.subrange(from as int, to as int),
            i <= w@.len(),
            forall|j: int| 0 <= j < i ==> lower(s[j]) == w@[j],
        decreases w@.len() - i,
    {
        if lower_char(chars[from + i]) != w[i] {
            assert(lowercase(s)[i as int] != word@[i as int]);
            return false;
        }
        i = i + 1;
    }
    assert(lowercase(s) =~= word@);
    true
}

/// `true` iff `chars` is the text of a valid float.
pub(crate) fn float_text(chars: &Vec<char>) -> (res: bool)
    ensures
        res == is_float_text(chars@),
{
    let n = chars.len();
    let from: usize = if n > 0 && (chars[0] == '+' || chars[0] == '-') { 1 } else { 0 };
    let ghost body = if chars@.len() > 0 && (chars@[0] == '+' || chars@[0] == '-') { chars@.skip(1) } else { chars@ };
    assert(body =~= chars@.subrange(from as int, n as int));
    lower_equals(chars, from, n, "inf") || lower_equals(chars, from, n, "infinity") || lower_equals(chars, from, n, "nan")
        || number_in(chars, from, n)
}

const POS: &'static str = "+";
const NEG: &'static str = "-";
const NOT: &'static str = "!";

/// A unary operator.
#[derive(Debug, PartialEq)]
pub enum UnaryOperator {
    Pos,
    Neg,
    Not,
}

impl UnaryOperator {
    /// The symbol of this operator.
    pub open spec fn symbol(self) -> Seq<char> {
        match self {
            UnaryOperator::Pos => "+"@,
            UnaryOperator::Neg => "-"@,
            UnaryOperator::Not => "!"@,
        }
    }

    /// Parses a unary operator from its symbol.
    pub fn from_str(s: &str) -> (res: Result<Self, ModelError>)
        ensures
            s@ == "+"@ ==> res == Ok::<UnaryOperator, ModelError>(UnaryOperator::Pos),
            s@ == "-"@ ==> res == Ok::<UnaryOperator, ModelError>(UnaryOperator::Neg),
            s@ == "!"@ ==> res == Ok::<UnaryOperator, ModelError>(UnaryOperator::Not),
            s@ != "+"@ && s@ != "-"@ && s@ != "!"@ ==> (res matches Err(ModelError::Grammar { kind, value })
                && kind@ == "unary operator"@ && value@ == s@),
    {
        proof {
            reveal_strlit("+");
            reveal_strlit("-");
            reveal_strlit("!");
            assert("+"@[0] == '+' && "-"@[0] == '-' && "!"@[0] == '!');
        }
        if str_eq(s, POS) {
            Ok(UnaryOperator::Pos)
        } else if str_eq(s, NEG) {
            Ok(UnaryOperator::Neg)
        } else if str_eq(s, NOT) {
            Ok(UnaryOperator::Not)
        } else {
            Err(ModelError::grammar("unary operator", s))
        }
    }

    /// Formats this operator as its symbol.
    pub fn to_string(&self) -> (res: String)
        ensures
            res@ == self.symbol(),
    {
        match self {
            UnaryOperator::Pos => owned(POS),
            UnaryOperator::Neg => owned(NEG),
            UnaryOperator::Not => owned(NOT),
        }
    }
}

const ADD: &'static str = "+";
const SUB: &'static str = "-";
const MUL: &'static str = "*";
const DIV: &'static str = "/";
const MOD: &'static str = "%";
const GT: &'static str = ">";
const LT: &'static str = "<";
const GTE: &'static str = ">=";
const LTE: &'static str = "<=";
const EQ: &'static str = "==";
const NEQ: &'static str = "!=";
const AND: &'static str = "&&";
const OR: &'static str = "||";

/// A binary operator.
#[derive(Debug, PartialEq)]
pub enum BinaryOperator {
    Add,
    Sub,
    Mul,
    Div,
    Mod,
    Gt,
    Lt,
    Gte,
    Lte,
    Eq,
    Neq,
    And,
    Or,
}

impl BinaryOperator {
    /// The symbol of this operator.
    pub open spec fn symbol(self) -> Seq<char> {
        match self {
            BinaryOperator::Add => "+"@,
            BinaryOperator::Sub => "-"@,
            BinaryOperator::Mul => "*"@,
            BinaryOperator::Div => "/"@,
            BinaryOperator::Mod => "%"@,
            BinaryOperator::Gt => ">"@,
            BinaryOperator::Lt => "<"@,
            BinaryOperator::Gte => ">="@,
            BinaryOperator::Lte => "<="@,
            BinaryOperator::Eq => "=="@,
            BinaryOperator::Neq => "!="@,
            BinaryOperator::And => "&&"@,
            BinaryOperator::Or => "||"@,
        }
    }

    /// The operator whose symbol is `s`, if there is one.
    pub open spec fn with_symbol(s: Seq<char>) -> Option<BinaryOperator> {
        if s == "+"@ { Some(BinaryOperator::Add) }
        else if s == "-"@ { Some(BinaryOperator::Sub) }
        else if s == "*"@ { Some(BinaryOperator::Mul) }
        else if s == "/"@ { Some(BinaryOperator::Div) }
        else if s == "%"@ { Some(BinaryOperator::Mod) }
        else if s == ">"@ { Some(BinaryOperator::Gt) }
        else if s == "<"@ { Some(BinaryOperator::Lt) }
        else if s == ">="@ { Some(BinaryOperator::Gte) }
        else if s == "<="@ { Some(BinaryOperator::Lte) }
        else if s == "=="@ { Some(BinaryOperator::Eq) }
        else if s == "!="@ { Some(BinaryOperator::Neq) }
        else if s == "&&"@ { Some(BinaryOperator::And) }
        else if s == "||"@ { Some(BinaryOperator::Or) }
        else { None }
    }

    /// Parses a binary operator from its symbol.
    pub fn from_str(s: &str) -> (res: Result<Self, ModelError>)
        ensures
            match BinaryOperator::with_symbol(s@) {
                Some(op) => res == Ok::<BinaryOperator, ModelError>(op),
                None => res matches Err(ModelError::Grammar { kind, value }) && kind@ == "binary operator"@
                    && value@ == s@,
            },
    {
        proof {
            reveal_strlit("+");
            reveal_strlit("-");
            reveal_strlit("*");
            reveal_strlit("/");
            reveal_strlit("%");
            reveal_strlit(">");
            reveal_strlit("<");
            reveal_strlit(">=");
            reveal_strlit("<=");
            reveal_strlit("==");
            reveal_strlit("!=");
            reveal_strlit("&&");
            reveal_strlit("||");
        }
        if str_eq(s, ADD) { Ok(BinaryOperator::Add) }
        else if str_eq(s, SUB) { Ok(BinaryOperator::Sub) }
        else if str_eq(s, MUL) { Ok(BinaryOperator::Mul) }
        else if str_eq(s, DIV) { Ok(BinaryOperator::Div) }
        else if str_eq(s, MOD) { Ok(BinaryOperator::Mod) }
        else if str_eq(s, GT) { Ok(BinaryOperator::Gt) }
        else if str_eq(s, LT) { Ok(BinaryOperator::Lt) }
        else if str_eq(s, GTE) { Ok(BinaryOperator::Gte) }
        else if str_eq(s, LTE) { Ok(BinaryOperator::Lte) }
        else if str_eq(s, EQ) { Ok(BinaryOperator::Eq) }
        else if str_eq(s, NEQ) { Ok(BinaryOperator::Neq) }
        else if str_eq(s, AND) { Ok(BinaryOperator::And) }
        else if str_eq(s, OR) { Ok(BinaryOperator::Or) }
        else { Err(ModelError::grammar("binary operator", s)) }
    }

    /// Formats this operator as its symbol.
    pub fn to_string(&self) -> (res: String)
        ensures
            res@ == self.symbol(),
    {
        match self {
            BinaryOperator::Add => owned(ADD),
            BinaryOperator::Sub => owned(SUB),
            BinaryOperator::Mul => owned(MUL),
            BinaryOperator::Div => owned(DIV),
            BinaryOperator::Mod => owned(MOD),
            BinaryOperator::Gt => owned(GT),
            BinaryOperator::Lt => owned(LT),
            BinaryOperator::Gte => owned(GTE),
            BinaryOperator::Lte => owned(LTE),
            BinaryOperator::Eq => owned(EQ),
            BinaryOperator::Neq => owned(NEQ),
            BinaryOperator::And => owned(AND),
            BinaryOperator::Or => owned(OR),
        }
    }
}

/// A WDL version identifier.
#[derive(Clone, Debug, PartialEq)]
pub enum VersionIdentifier {
    V1_0,
    V1_1,
}

impl VersionIdentifier {
    /// Parses a version identifier; only WDL 1.0 and 1.1 are supported.
    pub fn from_str(s: &str) -> (res: Result<Self, ModelError>)
        ensures
            s@ == "1.0"@ ==> res == Ok::<VersionIdentifier, ModelError>(VersionIdentifier::V1_0),
            s@ == "1.1"@ ==> res == Ok::<VersionIdentifier, ModelError>(VersionIdentifier::V1_1),
            s@ != "1.0"@ && s@ != "1.1"@ ==> (res matches Err(ModelError::Version(t)) && t@ == s@),
    {
        proof {
            reveal_strlit("1.0");
            reveal_strlit("1.1");
            assert("1.0"@[2] == '0' && "1.1"@[2] == '1');
        }
        if str_eq(s, "1.0") {
            Ok(VersionIdentifier::V1_0)
        } else if str_eq(s, "1.1") {
            Ok(VersionIdentifier::V1_1)
        } else {
            Err(ModelError::Version(owned(s)))
        }
    }
}

/// A part of a string literal.
#[derive(Debug, PartialEq)]
pub enum StringPart {
    Content(String),
    Escape(String),
    Placeholder(Expression),
}

impl StringPart {
    /// The text this part is displayed as: its content, or `~{..}` for a placeholder.
    pub open spec fn display(self) -> Seq<char> {
        match self {
            StringPart::Content(s) => s@,
            StringPart::Escape(s) => s@,
            StringPart::Placeholder(_) => "~{..}"@,
        }
    }

    pub fn to_string(&self) -> (res: String)
        ensures
            res@ == self.display(),
    {
        match self {
            StringPart::Content(s) => s.clone(),
            StringPart::Escape(s) => s.clone(),
            StringPart::Placeholder(_) => owned("~{..}"),
        }
    }
}

/// The concatenated display texts of `parts`.
pub open spec fn parts_display(parts: Seq<Anchor<StringPart>>) -> Seq<char>
    decreases parts.len(),
{
    if parts.len() == 0 {
        Seq::empty()
    } else {
        parts_display(parts.drop_last()) + parts.last().element.display()
    }
}

#[derive(Debug, PartialEq)]
pub struct StringLiteral {
    pub parts: Vec<Anchor<StringPart>>,
}

impl StringLiteral {
    /// Formats this literal as its parts between double quotes.
    pub fn to_string(&self) -> (res: String)
        ensures
            res@ == "\""@ + parts_display(self.parts@) + "\""@,
    {
        let mut res = owned("\"");
        let mut i: usize = 0;
        while i < self.parts.len()
            invariant
                i <= self.parts@.len(),
                res@ == "\""@ + parts_display(self.parts@.take(i as int)),
            decreases self.parts@.len() - i,
        {
            let p = self.parts[i].element.to_string();
            res.append(p.as_str());
            assert(self.parts@.take(i + 1).drop_last() =~= self.parts@.take(i as int));
            i = i + 1;
        }
        assert(self.parts@.take(self.parts@.len() as int) =~= self.parts@);
        res.append("\"");
        res
    }
}

impl InnerSpan for StringLiteral {
    open spec fn inner_span_defined(&self) -> bool {
        true
    }

    open spec fn inner_span(&self) -> Option<Span> {
        anchors_span(self.parts@)
    }

    fn get_inner_span(&self) -> (res: Option<Span>) {
        self.parts.get_inner_span()
    }
}

#[derive(Debug, PartialEq)]
pub struct ArrayLiteral {
    pub elements: Vec<Anchor<Expression>>,
}

impl InnerSpan for ArrayLiteral {
    open spec fn inner_span_defined(&self) -> bool {
        true
    }

    open spec fn inner_span(&self) -> Option<Span> {
        anchors_span(self.elements@)
    }

    fn get_inner_span(&self) -> (res: Option<Span>) {
        self.elements.get_inner_span()
    }
}

#[derive(Debug, PartialEq)]
pub struct MapEntry {
    pub key: Anchor<Expression>,
    pub value: Anchor<Expression>,
}

#[derive(Debug, PartialEq)]
pub struct MapLiteral {
    pub entries: Vec<Anchor<MapEntry>>,
}

impl InnerSpan for MapLiteral {
    open spec fn inner_span_defined(&self) -> bool {
        true
    }

    open spec fn inner_span(&self) -> Option<Span> {
        anchors_span(self.entries@)
    }

    fn get_inner_span(&self) -> (res: Option<Span>) {
        self.entries.get_inner_span()
    }
}

#[derive(Debug, PartialEq)]
pub struct PairLiteral {
    pub left: InnerExpression,
    pub right: InnerExpression,
}

impl InnerSpan for PairLiteral {
    open spec fn inner_span_defined(&self) -> bool {
        true
    }

    open spec fn inner_span(&self) -> Option<Span> {
        Some(Span::range(self.left.span, self.right.span))
    }

    fn get_inner_span(&self) -> (res: Option<Span>) {
        Some(Span::from_range(&self.left.span, &self.right.span))
    }
}

#[derive(Debug, PartialEq)]
pub struct ObjectField {
    pub name: Anchor<String>,
    pub expression: Anchor<Expression>,
}

#[derive(Debug, PartialEq)]
pub struct ObjectLiteral {
    pub object_type: Anchor<String>,
    pub fields: Vec<Anchor<ObjectField>>,
}

impl InnerSpan for ObjectLiteral {
    open spec fn inner_span_defined(&self) -> bool {
        self.fields@.len() > 0
    }

    open spec fn inner_span(&self) -> Option<Span> {
        Some(Span::range(self.object_type.span, anchors_span(self.fields@)->0))
    }

    fn get_inner_span(&self) -> (res: Option<Span>) {
        let field_span = self.fields.get_inner_span().unwrap();
        Some(Span::from_range(&self.object_type.span, &field_span))
    }
}

#[derive(Debug, PartialEq)]
pub struct Unary {
    pub operator: UnaryOperator,
    pub expression: InnerExpression,
}

impl InnerSpan for Unary {
    open spec fn inner_span_defined(&self) -> bool {
        true
    }

    open spec fn inner_span(&self) -> Option<Span> {
        Some(self.expression.span)
    }

    fn get_inner_span(&self) -> (res: Option<Span>) {
        Some(self.expression.span.clone())
    }
}

#[derive(Debug, PartialEq)]
pub struct Binary {
    pub operator: BinaryOperator,
    pub left: InnerExpression,
    pub right: InnerExpression,
}

impl InnerSpan for Binary {
    open spec fn inner_span_defined(&self) -> bool {
        true
    }

    open spec fn inner_span(&self) -> Option<Span> {
        Some(Span::range(self.left.span, self.right.span))
    }

    fn get_inner_span(&self) -> (res: Option<Span>) {
        Some(Span::from_range(&self.left.span, &self.right.span))
    }
}

#[derive(Debug, PartialEq)]
pub struct Apply {
    pub name: Anchor<String>,
    pub arguments: Vec<Anchor<Expression>>,
}

impl InnerSpan for Apply {
    open spec fn inner_span_defined(&self) -> bool {
        self.arguments@.len() > 0
    }

    open spec fn inner_span(&self) -> Option<Span> {
        Some(Span::range(self.name.span, anchors_span(self.arguments@)->0))
    }

    fn get_inner_span(&self) -> (res: Option<Span>) {
        let argument_span = self.arguments.get_inner_span().unwrap();
        Some(Span::from_range(&self.name.span, &argument_span))
    }
}

#[derive(Debug, PartialEq)]
pub enum AccessOperation {
    Index(Expression),
    Field(String),
}

#[derive(Debug, PartialEq)]
pub struct Access {
    pub collection: InnerExpression,
    pub accesses: Vec<Anchor<AccessOperation>>,
}

impl InnerSpan for Access {
    open spec fn inner_span_defined(&self) -> bool {
        self.accesses@.len() > 0
    }

    open spec fn inner_span(&self) -> Option<Span> {
        Some(Span::range(self.collection.span, anchors_span(self.accesses@)->0))
    }

    fn get_inner_span(&self) -> (res: Option<Span>) {
        let access_span = self.accesses.get_inner_span().unwrap();
        Some(Span::from_range(&self.collection.span, &access_span))
    }
}

#[derive(Debug, PartialEq)]
pub struct Ternary {
    pub condition: InnerExpression,
    pub true_branch: InnerExpression,
    pub false_branch: InnerExpression,
}

impl InnerSpan for Ternary {
    open spec fn inner_span_defined(&self) -> bool {
        true
    }

    open spec fn inner_span(&self) -> Option<Span> {
        Some(Span::range(self.condition.span, self.false_branch.span))
    }

    fn get_inner_span(&self) -> (res: Option<Span>) {
        Some(Span::from_range(&self.condition.span, &self.false_branch.span))
    }
}

pub type InnerExpression = Box<Anchor<Expression>>;

/// A WDL expression.
#[derive(Debug, PartialEq)]
pub enum Expression {
    NoneValue,
    Boolean(bool),
    Int(Integer),
    Float(Float),
    String(StringLiteral),
    Array(ArrayLiteral),
    Mapping(MapLiteral),
    Pair(PairLiteral),
    Object(ObjectLiteral),
    Unary(Unary),
    Binary(Binary),
    Apply(Apply),
    Access(Access),
    Ternary(Ternary),
    Group(InnerExpression),
    Identifier(String),
}

/// `true` when the inner span of `e` can be computed.
pub open spec fn expression_inner_span_defined(e: Expression) -> bool
    decreases e,
{
    match e {
        Expression::Object(o) => o.inner_span_defined(),
        Expression::Apply(a) => a.inner_span_defined(),
        Expression::Access(a) => a.inner_span_defined(),
        Expression::Group(g) => expression_inner_span_defined(g.element),
        _ => true,
    }
}

/// The inner span of `e`: that of its inner elements for compound expressions, `None` for
/// literals and identifiers.
pub open spec fn expression_inner_span(e: Expression) -> Option<Span>
    decreases e,
{
    match e {
        Expression::String(s) => s.inner_span(),
        Expression::Array(a) => a.inner_span(),
        Expression::Mapping(m) => m.inner_span(),
        Expression::Pair(p) => p.inner_span(),
        Expression::Object(o) => o.inner_span(),
        Expression::Unary(u) => u.inner_span(),
        Expression::Binary(b) => b.inner_span(),
        Expression::Apply(a) => a.inner_span(),
        Expression::Access(a) => a.inner_span(),
        Expression::Ternary(t) => t.inner_span(),
        Expression::Group(g) => expression_inner_span(g.element),
        _ => None,
    }
}

impl InnerSpan for Expression {
    open spec fn inner_span_defined(&self) -> bool {
        expression_inner_span_defined(*self)
    }

    open spec fn inner_span(&self) -> Option<Span> {
        expression_inner_span(*self)
    }

    fn get_inner_span(&self) -> (res: Option<Span>)
        decreases self,
    {
        match self {
            Expression::String(s) => s.get_inner_span(),
            Expression::Array(a) => a.get_inner_span(),
            Expression::Mapping(m) => m.get_inner_span(),
            Expression::Pair(p) => p.get_inner_span(),
            Expression::Object(o) => o.get_inner_span(),
            Expression::Unary(u) => u.get_inner_span(),
            Expression::Binary(b) => b.get_inner_span(),
            Expression::Apply(a) => a.get_inner_span(),
            Expression::Access(a) => a.get_inner_span(),
            Expression::Ternary(t) => t.get_inner_span(),
            Expression::Group(g) => g.element.get_inner_span(),
            _ => None,
        }
    }
}

pub type InnerType = Box<Anchor<Type>>;

/// A WDL type.
#[derive(Debug, PartialEq)]
pub enum Type {
    Boolean,
    Int,
    Float,
    String,
    File,
    Array { item: InnerType, non_empty: bool },
    Mapping { key: InnerType, value: InnerType },
    Pair { left: InnerType, right: InnerType },
    Object,
    User(String),
    Optional(InnerType),
}

#[derive(Debug, PartialEq)]
pub struct UnboundDeclaration {
    pub type_: Anchor<Type>,
    pub name: Anchor<String>,
}

impl InnerSpan for UnboundDeclaration {
    open spec fn inner_span_defined(&self) -> bool {
        true
    }

    open spec fn inner_span(&self) -> Option<Span> {
        Some(Span::range(self.type_.span, self.name.span))
    }

    fn get_inner_span(&self) -> (res: Option<Span>) {
        Some(Span::from_range(&self.type_.span, &self.name.span))
    }
}

#[derive(Debug, PartialEq)]
pub struct BoundDeclaration {
    pub type_: Anchor<Type>,
    pub name: Anchor<String>,
    pub expression: Anchor<Expression>,
}

impl InnerSpan for BoundDeclaration {
    open spec fn inner_span_defined(&self) -> bool {
        true
    }

    open spec fn inner_span(&self) -> Option<Span> {
        Some(Span::range(self.type_.span, self.expression.span))
    }

    fn get_inner_span(&self) -> (res: Option<Span>) {
        Some(Span::from_range(&self.type_.span, &self.expression.span))
    }
}

#[verifier::external_type_specification]
#[verifier::external_body]
pub struct ExPathBuf(std::path::PathBuf);

/// `PathBuf::clone` copies the path; nothing is claimed of the copy, which is only carried along.
pub assume_specification[ <std::path::PathBuf as Clone>::clone ](p: &std::path::PathBuf) -> (res: std::path::PathBuf);

/// Enumeration of sources from which a WDL document may be loaded.
#[derive(Clone, Debug, PartialEq)]
pub enum DocumentSource {
    File(std::path::PathBuf),
    Uri(String),
    Unknown,
}

impl Default for DocumentSource {
    fn default() -> (res: Self)
        ensures
            res is Unknown,
    {
        DocumentSource::Unknown
    }
}

#[derive(Debug, PartialEq)]
pub struct Version {
    pub identifier: Anchor<VersionIdentifier>,
}

#[derive(Debug, PartialEq)]
pub enum Namespace {
    Explicit(Anchor<String>),
    Implicit(String),
}

/// The pattern whose first capture group names the namespace of an import's URI.
pub const NAMESPACE_PATTERN: &'static str = ".*/(.+?)(?:\\.wdl)?";

pub open spec fn ends_with(s: Seq<char>, suffix: Seq<char>) -> bool {
    s.len() >= suffix.len() && s.skip(s.len() - suffix.len()) == suffix
}

/// The implicit namespace of an import from `uri`, given `capture`, the first capture group
/// of `NAMESPACE_PATTERN` in it: that group, or, where there is none, the URI without a `.wdl`
/// suffix.
pub open spec fn namespace_of(uri: Seq<char>, capture: Option<Seq<char>>) -> Seq<char> {
    match capture {
        Some(g) => g,
        None => if ends_with(uri, ".wdl"@) {
            uri.take(uri.len() - 4)
        } else {
            uri
        },
    }
}

/// The implicit namespace of an import from `uri`: the first capture group of
/// `NAMESPACE_PATTERN`, or, where that does not match, the URI without a `.wdl` suffix.
pub open spec fn implicit_namespace(uri: Seq<char>) -> Seq<char> {
    namespace_of(uri, regex_first_group(NAMESPACE_PATTERN@, uri))
}

impl Namespace {
    /// The implicit namespace of an import from `uri`.
    pub fn from_uri(uri: &str) -> (res: Self)
        ensures
            res matches Namespace::Implicit(ns) && ns@ == implicit_namespace(uri@),
    {
        Namespace::from_uri_capture(uri, first_capture(NAMESPACE_PATTERN, uri))
    }

    /// The implicit namespace of an import from `uri`, given the first capture group of
    /// `NAMESPACE_PATTERN` in it, if any.
    pub fn from_uri_capture(uri: &str, capture: Option<String>) -> (res: Self)
        ensures
            res matches Namespace::Implicit(ns) && ns@ == namespace_of(
                uri@,
                match capture {
                    Some(c) => Some(c@),
                    None => None,
                },
            ),
    {
        let ns = match capture {
            Some(cap) => cap,
            None => {
                let chars = to_chars(uri);
                let n = chars.len();
                proof {
                    reveal_strlit(".wdl");
                }
                if n >= 4 && chars[n - 4] == '.' && chars[n - 3] == 'w' && chars[n - 2] == 'd'
                    && chars[n - 1] == 'l' {
                    assert(ends_with(uri@, ".wdl"@)) by {
                        assert(uri@.skip(n - 4) =~= ".wdl"@);
                    }
                    from_chars(&chars, 0, n - 4)
                } else {
                    assert(!ends_with(uri@, ".wdl"@)) by {
                        if n >= 4 && uri@.skip(n - 4) == ".wdl"@ {
                            assert(uri@.skip(n - 4)[0] == chars@[n - 4]);
                            assert(uri@.skip(n - 4)[1] == chars@[n - 3]);
                            assert(uri@.skip(n - 4)[2] == chars@[n - 2]);
                            assert(uri@.skip(n - 4)[3] == chars@[n - 1]);
                        }
                    }
                    assert(chars@.subrange(0, n as int) =~= uri@);
                    from_chars(&chars, 0, n)
                }
            },
        };
        Namespace::Implicit(ns)
    }
}

#[derive(Debug, PartialEq)]
pub struct Alias {
    pub from: Anchor<String>,
    pub to: Anchor<String>,
}

#[derive(Debug, PartialEq)]
pub struct Import {
    pub uri: Anchor<String>,
    pub namespace: Namespace,
    pub aliases: Vec<Anchor<Alias>>,
}

#[derive(Debug, PartialEq)]
pub struct Struct {
    pub name: Anchor<String>,
    pub fields: Vec<Anchor<UnboundDeclaration>>,
}

#[derive(Debug, PartialEq)]
pub enum InputDeclaration {
    Bound(BoundDeclaration),
    Unbound(UnboundDeclaration),
}

impl InnerSpan for InputDeclaration {
    open spec fn inner_span_defined(&self) -> bool {
        true
    }

    open spec fn inner_span(&self) -> Option<Span> {
        match *self {
            InputDeclaration::Bound(d) => d.inner_span(),
            InputDeclaration::Unbound(d) => d.inner_span(),
        }
    }

    fn get_inner_span(&self) -> (res: Option<Span>) {
        match self {
            InputDeclaration::Bound(d) => d.get_inner_span(),
            InputDeclaration::Unbound(d) => d.get_inner_span(),
        }
    }
}

#[derive(Debug, PartialEq)]
pub struct Input {
    pub declarations: Vec<Anchor<InputDeclaration>>,
}

#[derive(Debug, PartialEq)]
pub struct Output {
    pub declarations: Vec<Anchor<BoundDeclaration>>,
}

#[derive(Debug, PartialEq)]
pub enum MetaStringPart {
    Content(String),
    Escape(String),
}

#[derive(Debug, PartialEq)]
pub struct MetaString {
    pub parts: Vec<Anchor<MetaStringPart>>,
}

#[derive(Debug, PartialEq)]
pub struct MetaArray {
    pub elements: Vec<Anchor<MetaValue>>,
}

#[derive(Debug, PartialEq)]
pub struct MetaObjectField {
    pub name: Anchor<String>,
    pub value: Anchor<MetaValue>,
}

#[derive(Debug, PartialEq)]
pub struct MetaObject {
    pub fields: Vec<Anchor<MetaObjectField>>,
}

#[derive(Debug, PartialEq)]
pub enum MetaValue {
    Null,
    Boolean(bool),
    Int(Integer),
    Float(Float),
    String(MetaString),
    Array(MetaArray),
    Object(MetaObject),
}

#[derive(Debug, PartialEq)]
pub struct MetaAttribute {
    pub name: Anchor<String>,
    pub value: Anchor<MetaValue>,
}

#[derive(Debug, PartialEq)]
pub struct Meta {
    pub attributes: Vec<Anchor<MetaAttribute>>,
}

#[derive(Debug, PartialEq)]
pub struct ParameterMeta {
    pub attributes: Vec<Anchor<MetaAttribute>>,
}

#[derive(Debug, PartialEq)]
pub struct Command {
    pub parts: Vec<Anchor<StringPart>>,
}

#[derive(Debug, PartialEq)]
pub struct RuntimeAttribute {
    pub name: Anchor<String>,
    pub expression: Anchor<Expression>,
}

impl InnerSpan for RuntimeAttribute {
    open spec fn inner_span_defined(&self) -> bool {
        true
    }

    open spec fn inner_span(&self) -> Option<Span> {
        Some(Span::range(self.name.span, self.expression.span))
    }

    fn get_inner_span(&self) -> (res: Option<Span>) {
        Some(Span::from_range(&self.name.span, &self.expression.span))
    }
}

#[derive(Debug, PartialEq)]
pub struct Runtime {
    pub attributes: Vec<Anchor<RuntimeAttribute>>,
}

/// An element of a task's body.
#[derive(Debug, PartialEq)]
pub enum TaskElement {
    Input(Input),
    Output(Output),
    Declaration(BoundDeclaration),
    Command(Command),
    Runtime(Runtime),
    Meta(Meta),
    ParameterMeta(ParameterMeta),
}

impl TaskElement {
    /// The name of this element's kind.
    pub open spec fn kind_name(self) -> Seq<char> {
        match self {
            TaskElement::Input(_) => "input"@,
            TaskElement::Output(_) => "output"@,
            TaskElement::Declaration(_) => "declaration"@,
            TaskElement::Command(_) => "command"@,
            TaskElement::Runtime(_) => "runtime"@,
            TaskElement::Meta(_) => "meta"@,
            TaskElement::ParameterMeta(_) => "parameter_meta"@,
        }
    }

    /// A number for each kind of element.
    pub open spec fn tag(self) -> int {
        match self {
            TaskElement::Input(_) => 0,
            TaskElement::Output(_) => 1,
            TaskElement::Declaration(_) => 2,
            TaskElement::Command(_) => 3,
            TaskElement::Runtime(_) => 4,
            TaskElement::Meta(_) => 5,
            TaskElement::ParameterMeta(_) => 6,
        }
    }

    /// A task holds at most one element of each kind but declarations.
    pub open spec fn must_be_unique(self) -> bool {
        !(self is Declaration)
    }

    pub fn kind(&self) -> (res: &'static str)
        ensures
            res@ == self.kind_name(),
    {
        match self {
            TaskElement::Input(_) => "input",
            TaskElement::Output(_) => "output",
            TaskElement::Declaration(_) => "declaration",
            TaskElement::Command(_) => "command",
            TaskElement::Runtime(_) => "runtime",
            TaskElement::Meta(_) => "meta",
            TaskElement::ParameterMeta(_) => "parameter_meta",
        }
    }

    fn tag_of(&self) -> (res: usize)
        ensures
            res == self.tag(),
    {
        match self {
            TaskElement::Input(_) => 0,
            TaskElement::Output(_) => 1,
            TaskElement::Declaration(_) => 2,
            TaskElement::Command(_) => 3,
            TaskElement::Runtime(_) => 4,
            TaskElement::Meta(_) => 5,
            TaskElement::ParameterMeta(_) => 6,
        }
    }
}

/// A WDL task.
#[derive(Debug, PartialEq)]
pub struct Task {
    pub name: Anchor<String>,
    pub body: Vec<Anchor<TaskElement>>,
}

/// `true` iff `body[i]` must be unique and an element of its kind comes before it.
pub open spec fn task_repeat_at(body: Seq<Anchor<TaskElement>>, i: int) -> bool {
    &&& body[i].element.must_be_unique()
    &&& exists|j: int| 0 <= j < i && #[trigger] body[j].element.tag() == body[i].element.tag()
}

/// The index of the first element of `body` that repeats a unique kind, if there is one.
pub open spec fn task_first_repeat(body: Seq<Anchor<TaskElement>>) -> Option<int> {
    if exists|i: int| 0 <= i < body.len() && task_repeat_at(body, i) {
        Some(choose|i: int|
            0 <= i < body.len() && task_repeat_at(body, i) && forall|j: int|
                0 <= j < i ==> !task_repeat_at(body, j))
    } else {
        None
    }
}

pub open spec fn has_command(body: Seq<Anchor<TaskElement>>) -> bool {
    exists|i: int| 0 <= i < body.len() && body[i].element is Command
}

impl Task {
    /// A task is valid when it holds no two elements of the same kind but declarations, and it
    /// holds a command.
    pub open spec fn is_valid(self) -> bool {
        task_first_repeat(self.body@) is None && has_command(self.body@)
    }

    /// `e` is the error that validating `self` reports.
    pub open spec fn validation_error(self, e: ModelError) -> bool {
        match task_first_repeat(self.body@) {
            Some(i) => e matches ModelError::TaskRepeatedElement { task, kind } && task == self.name.element
                && kind@ == self.body@[i].element.kind_name(),
            None => e matches ModelError::TaskMissingCommand(task) && task == self.name.element,
        }
    }

    /// Validates the task: no repeated unique element, and a command present.
    pub fn validate(&self) -> (res: Result<(), ModelError>)
        ensures
            res is Ok <==> self.is_valid(),
            res matches Err(e) ==> self.validation_error(e),
    {
        let mut seen: Vec<bool> = vec![false, false, false, false, false, false, false];
        let n = self.body.len();
        let mut i: usize = 0;
        while i < n
            invariant
                n == self.body@.len(),
                i <= n,
                seen@.len() == 7,
                forall|t: int|
                    0 <= t < 7 ==> (seen@[t] <==> exists|j: int|
                        0 <= j < i && self.body@[j].element.must_be_unique() && #[trigger] self.body@[j].element.tag() == t),
                forall|j: int| 0 <= j < i ==> !task_repeat_at(self.body@, j),
            decreases n - i,
        {
            let element = &self.body[i].element;
            let t = element.tag_of();
            let must_be_unique = match element {
                TaskElement::Declaration(_) => false,
                _ => true,
            };
            if must_be_unique {
                if seen[t] {
                    proof {
                        let j = choose|j: int|
                            0 <= j < i && self.body@[j].element.must_be_unique() && #[trigger] self.body@[j].element.tag() == t;
                        assert(task_repeat_at(self.body@, i as int));
                        let k = choose|k: int|
                            0 <= k < self.body@.len() && task_repeat_at(self.body@, k) && forall|j: int|
                                0 <= j < k ==> !task_repeat_at(self.body@, j);
                        if k < i {
                        } else if k > i {
                        }
                        assert(k == i);
                    }
                    return Err(ModelError::TaskRepeatedElement { task: self.name.element.clone(), kind: owned(element.kind()) });
                }
                seen.set(t, true);
            }
            proof {
                if task_repeat_at(self.body@, i as int) {
                    let j = choose|j: int| 0 <= j < i && #[trigger] self.body@[j].element.tag() == self.body@[i as int].element.tag();
                    assert(self.body@[j].element.must_be_unique());
                }
            }
            i = i + 1;
        }
        assert(task_first_repeat(self.body@) is None);
        if !seen[3] {
            assert(!has_command(self.body@)) by {
                if has_command(self.body@) {
                    let j = choose|j: int| 0 <= j < self.body@.len() && self.body@[j].element is Command;
                    assert(self.body@[j].element.tag() == 3);
                }
            }
            return Err(ModelError::TaskMissingCommand(self.name.element.clone()));
        }
        assert(has_command(self.body@)) by {
            let j = choose|j: int| 0 <= j < n && self.body@[j].element.must_be_unique() && #[trigger] self.body@[j].element.tag() == 3;
        }
        Ok(())
    }
}

#[derive(Debug, PartialEq)]
pub struct QualifiedIdentifier {
    pub parts: Vec<Anchor<String>>,
}

impl InnerSpan for QualifiedIdentifier {
    open spec fn inner_span_defined(&self) -> bool {
        true
    }

    open spec fn inner_span(&self) -> Option<Span> {
        anchors_span(self.parts@)
    }

    fn get_inner_span(&self) -> (res: Option<Span>) {
        self.parts.get_inner_span()
    }
}

#[derive(Debug, PartialEq)]
pub struct CallInput {
    pub name: Anchor<String>,
    pub expression: Option<Anchor<Expression>>,
}

impl InnerSpan for CallInput {
    open spec fn inner_span_defined(&self) -> bool {
        true
    }

    open spec fn inner_span(&self) -> Option<Span> {
        match self.expression {
            Some(e) => Some(Span::range(self.name.span, e.span)),
            None => Some(self.name.span),
        }
    }

    fn get_inner_span(&self) -> (res: Option<Span>) {
        match &self.expression {
            Some(e) => Some(Span::from_range(&self.name.span, &e.span)),
            None => Some(self.name.span.clone()),
        }
    }
}

#[derive(Debug, PartialEq)]
pub struct Call {
    pub target: Anchor<QualifiedIdentifier>,
    pub alias: Option<Anchor<String>>,
    pub inputs: Option<Vec<Anchor<CallInput>>>,
}

impl InnerSpan for Call {
    open spec fn inner_span_defined(&self) -> bool {
        true
    }

    /// From the target to the last input if there are inputs, else to the alias if there is
    /// one, else the target's span.
    open spec fn inner_span(&self) -> Option<Span> {
        match self.inputs {
            Some(inputs) if inputs@.len() > 0 => Some(Span::range(self.target.span, anchors_span(inputs@)->0)),
            _ => match self.alias {
                Some(a) => Some(Span::range(self.target.span, a.span)),
                None => Some(self.target.span),
            },
        }
    }

    fn get_inner_span(&self) -> (res: Option<Span>) {
        match &self.inputs {
            Some(inputs) if inputs.len() > 0 => {
                let input_span = inputs.get_inner_span().unwrap();
                return Some(Span::from_range(&self.target.span, &input_span));
            },
            _ => {},
        }
        match &self.alias {
            Some(a) => Some(Span::from_range(&self.target.span, &a.span)),
            None => Some(self.target.span.clone()),
        }
    }
}

#[derive(Debug, PartialEq)]
pub struct Scatter {
    pub name: Anchor<String>,
    pub expression: Anchor<Expression>,
    pub body: Vec<Anchor<WorkflowNestedElement>>,
}

#[derive(Debug, PartialEq)]
pub struct Conditional {
    pub expression: Anchor<Expression>,
    pub body: Vec<Anchor<WorkflowNestedElement>>,
}

#[derive(Debug, PartialEq)]
pub enum WorkflowNestedElement {
    Declaration(BoundDeclaration),
    Call(Call),
    Scatter(Scatter),
    Conditional(Conditional),
}

/// An element of a workflow's body.
#[derive(Debug, PartialEq)]
pub enum WorkflowElement {
    Input(Input),
    Output(Output),
    Declaration(BoundDeclaration),
    Call(Call),
    Scatter(Scatter),
    Conditional(Conditional),
    Meta(Meta),
    ParameterMeta(Meta),
}

impl WorkflowElement {
    /// The name of this element's kind.
    pub open spec fn kind_name(self) -> Seq<char> {
        match self {
            WorkflowElement::Input(_) => "input"@,
            WorkflowElement::Output(_) => "output"@,
            WorkflowElement::Declaration(_) => "declaration"@,
            WorkflowElement::Call(_) => "call"@,
            WorkflowElement::Scatter(_) => "scatter"@,
            WorkflowElement::Conditional(_) => "conditional"@,
            WorkflowElement::Meta(_) => "meta"@,
            WorkflowElement::ParameterMeta(_) => "parameter_meta"@,
        }
    }

    /// A number for each kind of element.
    pub open spec fn tag(self) -> int {
        match self {
            WorkflowElement::Input(_) => 0,
            WorkflowElement::Output(_) => 1,
            WorkflowElement::Declaration(_) => 2,
            WorkflowElement::Call(_) => 3,
            WorkflowElement::Scatter(_) => 4,
            WorkflowElement::Conditional(_) => 5,
            WorkflowElement::Meta(_) => 6,
            WorkflowElement::ParameterMeta(_) => 7,
        }
    }

    /// A workflow holds at most one input, output, meta and parameter_meta element.
    pub open spec fn must_be_unique(self) -> bool {
        self is Input || self is Output || self is Meta || self is ParameterMeta
    }

    pub fn kind(&self) -> (res: &'static str)
        ensures
            res@ == self.kind_name(),
    {
        match self {
            WorkflowElement::Input(_) => "input",
            WorkflowElement::Output(_) => "output",
            WorkflowElement::Declaration(_) => "declaration",
            WorkflowElement::Call(_) => "call",
            WorkflowElement::Scatter(_) => "scatter",
            WorkflowElement::Conditional(_) => "conditional",
            WorkflowElement::Meta(_) => "meta",
            WorkflowElement::ParameterMeta(_) => "parameter_meta",
        }
    }

    fn tag_of(&self) -> (res: usize)
        ensures
            res == self.tag(),
    {
        match self {
            WorkflowElement::Input(_) => 0,
            WorkflowElement::Output(_) => 1,
            WorkflowElement::Declaration(_) => 2,
            WorkflowElement::Call(_) => 3,
            WorkflowElement::Scatter(_) => 4,
            WorkflowElement::Conditional(_) => 5,
            WorkflowElement::Meta(_) => 6,
            WorkflowElement::ParameterMeta(_) => 7,
        }
    }
}

/// A WDL workflow.
#[derive(Debug, PartialEq)]
pub struct Workflow {
    pub name: Anchor<String>,
    pub body: Vec<Anchor<WorkflowElement>>,
}

/// `true` iff `body[i]` must be unique and an element of its kind comes before it.
pub open spec fn workflow_repeat_at(body: Seq<Anchor<WorkflowElement>>, i: int) -> bool {
    &&& body[i].element.must_be_unique()
    &&& exists|j: int| 0 <= j < i && #[trigger] body[j].element.tag() == body[i].element.tag()
}

/// The index of the first element of `body` that repeats a unique kind, if there is one.
pub open spec fn workflow_first_repeat(body: Seq<Anchor<WorkflowElement>>) -> Option<int> {
    if exists|i: int| 0 <= i < body.len() && workflow_repeat_at(body, i) {
        Some(choose|i: int|
            0 <= i < body.len() && workflow_repeat_at(body, i) && forall|j: int|
                0 <= j < i ==> !workflow_repeat_at(body, j))
    } else {
        None
    }
}

impl Workflow {
    /// A workflow is valid when it holds at most one input, output, meta and parameter_meta.
    pub open spec fn is_valid(self) -> bool {
        workflow_first_repeat(self.body@) is None
    }

    /// `e` is the error that validating `self` reports.
    pub open spec fn validation_error(self, e: ModelError) -> bool {
        match workflow_first_repeat(self.body@) {
            Some(i) => e matches ModelError::WorkflowRepeatedElement { workflow, kind } && workflow
                == self.name.element && kind@ == self.body@[i].element.kind_name(),
            None => false,
        }
    }

    /// Checks that this workflow holds at most one input, output, meta and parameter_meta.
    pub fn validate(&self) -> (res: Result<(), ModelError>)
        ensures
            res is Ok <==> self.is_valid(),
            res matches Err(e) ==> self.validation_error(e),
    {
        let mut seen: Vec<bool> = vec![false, false, false, false, false, false, false, false];
        let n = self.body.len();
        let mut i: usize = 0;
        while i < n
            invariant
                n == self.body@.len(),
                i <= n,
                seen@.len() == 8,
                forall|t: int|
                    0 <= t < 8 ==> (seen@[t] <==> exists|j: int|
                        0 <= j < i && self.body@[j].element.must_be_unique() && #[trigger] self.body@[j].element.tag() == t),
                forall|j: int| 0 <= j < i ==> !workflow_repeat_at(self.body@, j),
            decreases n - i,
        {
            let element = &self.body[i].element;
            let t = element.tag_of();
            let must_be_unique = match element {
                WorkflowElement::Input(_) | WorkflowElement::Output(_) | WorkflowElement::Meta(_)
                | WorkflowElement::ParameterMeta(_) => true,
                _ => false,
            };
            if must_be_unique {
                if seen[t] {
                    proof {
                        let j = choose|j: int|
                            0 <= j < i && self.body@[j].element.must_be_unique() && #[trigger] self.body@[j].element.tag() == t;
                        assert(workflow_repeat_at(self.body@, i as int));
                        let k = choose|k: int|
                            0 <= k < self.body@.len() && workflow_repeat_at(self.body@, k) && forall|j: int|
                                0 <= j < k ==> !workflow_repeat_at(self.body@, j);
                        assert(k == i);
                    }
                    return Err(ModelError::WorkflowRepeatedElement { workflow: self.name.element.clone(), kind: owned(element.kind()) });
                }
                seen.set(t, true);
            }
            proof {
                if workflow_repeat_at(self.body@, i as int) {
                    let j = choose|j: int| 0 <= j < i && #[trigger] self.body@[j].element.tag() == self.body@[i as int].element.tag();
                    assert(self.body@[j].element.must_be_unique());
                }
            }
            i = i + 1;
        }
        Ok(())
    }
}

/// An element of a document's body.
#[derive(Debug, PartialEq)]
pub enum DocumentElement {
    Import(Import),
    Struct(Struct),
    Task(Task),
    Workflow(Workflow),
}

impl DocumentElement {
    /// `true` iff this element is a task or workflow that fails validation.
    pub open spec fn is_invalid(self) -> bool {
        match self {
            DocumentElement::Task(t) => !t.is_valid(),
            DocumentElement::Workflow(w) => !w.is_valid(),
            _ => false,
        }
    }

    /// `e` is the error that validating this element reports.
    pub open spec fn validation_error(self, e: ModelError) -> bool {
        match self {
            DocumentElement::Task(t) => t.validation_error(e),
            DocumentElement::Workflow(w) => w.validation_error(e),
            _ => false,
        }
    }

    /// Structs, tasks and workflows count toward a complete document.
    pub open spec fn counts(self) -> bool {
        !(self is Import)
    }
}

/// A WDL document.
#[derive(Debug, PartialEq)]
pub struct Document {
    pub source: DocumentSource,
    pub version: Anchor<Version>,
    pub body: Vec<Anchor<DocumentElement>>,
    pub comments: Comments,
}

/// The number of structs, tasks and workflows in `body`.
pub open spec fn element_count(body: Seq<Anchor<DocumentElement>>) -> nat
    decreases body.len(),
{
    if body.len() == 0 {
        0
    } else {
        element_count(body.drop_last()) + if body.last().element.counts() { 1nat } else { 0nat }
    }
}

/// The number of workflows in `body`.
pub open spec fn workflow_count(body: Seq<Anchor<DocumentElement>>) -> nat
    decreases body.len(),
{
    if body.len() == 0 {
        0
    } else {
        workflow_count(body.drop_last()) + if body.last().element is Workflow { 1nat } else { 0nat }
    }
}

/// The number of tasks in `body`.
pub open spec fn task_count(body: Seq<Anchor<DocumentElement>>) -> nat
    decreases body.len(),
{
    if body.len() == 0 {
        0
    } else {
        task_count(body.drop_last()) + if body.last().element is Task { 1nat } else { 0nat }
    }
}

/// The index of the first invalid task or workflow of `body`, if there is one.
pub open spec fn first_invalid(body: Seq<Anchor<DocumentElement>>) -> Option<int> {
    if exists|i: int| 0 <= i < body.len() && #[trigger] body[i].element.is_invalid() {
        Some(choose|i: int|
            0 <= i < body.len() && #[trigger] body[i].element.is_invalid() && forall|j: int|
                0 <= j < i ==> !(#[trigger] body[j].element.is_invalid()))
    } else {
        None
    }
}

/// The index of the first workflow of `body`, if there is one.
pub open spec fn first_workflow(body: Seq<Anchor<DocumentElement>>) -> Option<int>
    decreases body.len(),
{
    if body.len() == 0 {
        None
    } else {
        match first_workflow(body.drop_last()) {
            Some(i) => Some(i),
            None => if body.last().element is Workflow { Some(body.len() - 1) } else { None },
        }
    }
}

/// The index of the first task of `body`, if there is one.
pub open spec fn first_task(body: Seq<Anchor<DocumentElement>>) -> Option<int>
    decreases body.len(),
{
    if body.len() == 0 {
        None
    } else {
        match first_task(body.drop_last()) {
            Some(i) => Some(i),
            None => if body.last().element is Task { Some(body.len() - 1) } else { None },
        }
    }
}

proof fn lemma_first_prefix(body: Seq<Anchor<DocumentElement>>, k: int)
    requires
        0 <= k <= body.len(),
    ensures
        first_workflow(body.take(k)) is Some ==> first_workflow(body) == first_workflow(body.take(k)),
        first_task(body.take(k)) is Some ==> first_task(body) == first_task(body.take(k)),
    decreases body.len() - k,
{
    if k < body.len() {
        assert(body.take(k + 1).drop_last() =~= body.take(k));
        lemma_first_prefix(body, k + 1);
    } else {
        assert(body.take(k) =~= body);
    }
}

proof fn lemma_count_take(body: Seq<Anchor<DocumentElement>>, i: int)
    requires
        0 <= i < body.len(),
    ensures
        element_count(body.take(i + 1)) == element_count(body.take(i)) + if body[i].element.counts() { 1nat } else { 0nat },
        workflow_count(body.take(i + 1)) == workflow_count(body.take(i)) + if body[i].element is Workflow { 1nat } else { 0nat },
        task_count(body.take(i + 1)) == task_count(body.take(i)) + if body[i].element is Task { 1nat } else { 0nat },
{
    assert(body.take(i + 1).drop_last() =~= body.take(i));
}

proof fn lemma_counts_bounded(body: Seq<Anchor<DocumentElement>>)
    ensures
        element_count(body) <= body.len(),
        workflow_count(body) <= body.len(),
        task_count(body) <= body.len(),
    decreases body.len(),
{
    if body.len() > 0 {
        lemma_counts_bounded(body.drop_last());
    }
}

impl Document {
    /// A document is valid when all its tasks and workflows are valid, it holds at least one
    /// struct, task or workflow, and at most one workflow.
    pub open spec fn is_valid(self) -> bool {
        &&& first_invalid(self.body@) is None
        &&& element_count(self.body@) > 0
        &&& workflow_count(self.body@) <= 1
    }

    /// `e` is the error that validating `self` reports.
    pub open spec fn validation_error(self, e: ModelError) -> bool {
        match first_invalid(self.body@) {
            Some(i) => self.body@[i].element.validation_error(e),
            None => if element_count(self.body@) == 0 {
                e is DocumentIncomplete
            } else {
                e is DocumentMultipleWorkflows
            },
        }
    }

    /// Validates each task and workflow in order, then checks that the document holds at least
    /// one struct, task or workflow, and at most one workflow.
    pub fn validate(&self) -> (res: Result<(), ModelError>)
        ensures
            res is Ok <==> self.is_valid(),
            res matches Err(e) ==> self.validation_error(e),
    {
        let mut elements: usize = 0;
        let mut workflows: usize = 0;
        let n = self.body.len();
        let mut i: usize = 0;
        while i < n
            invariant
                n == self.body@.len(),
                i <= n,
                elements == element_count(self.body@.take(i as int)),
                workflows == workflow_count(self.body@.take(i as int)),
                forall|j: int| 0 <= j < i ==> !(#[trigger] self.body@[j].element.is_invalid()),
            decreases n - i,
        {
            proof {
                lemma_count_take(self.body@, i as int);
                lemma_counts_bounded(self.body@.take(i as int));
            }
            match &self.body[i].element {
                DocumentElement::Task(task) => {
                    match task.validate() {
                        Ok(()) => {},
                        Err(e) => {
                            proof {
                                assert(self.body@[i as int].element.is_invalid());
                                let k = choose|k: int|
                                    0 <= k < self.body@.len() && #[trigger] self.body@[k].element.is_invalid() && forall|j: int|
                                        0 <= j < k ==> !(#[trigger] self.body@[j].element.is_invalid());
                                assert(k == i);
                            }
                            return Err(e);
                        },
                    }
                    elements = elements + 1;
                },
                DocumentElement::Workflow(workflow) => {
                    match workflow.validate() {
                        Ok(()) => {},
                        Err(e) => {
                            proof {
                                assert(self.body@[i as int].element.is_invalid());
                                let k = choose|k: int|
                                    0 <= k < self.body@.len() && #[trigger] self.body@[k].element.is_invalid() && forall|j: int|
                                        0 <= j < k ==> !(#[trigger] self.body@[j].element.is_invalid());
                                assert(k == i);
                            }
                            return Err(e);
                        },
                    }
                    elements = elements + 1;
                    workflows = workflows + 1;
                },
                DocumentElement::Struct(_) => {
                    elements = elements + 1;
                },
                _ => {},
            }
            i = i + 1;
        }
        assert(self.body@.take(n as int) =~= self.body@);
        assert(first_invalid(self.body@) is None);
        if elements == 0 {
            return Err(ModelError::DocumentIncomplete);
        }
        if workflows > 1 {
            return Err(ModelError::DocumentMultipleWorkflows);
        }
        Ok(())
    }

    /// The elements of this document's body, in order.
    pub fn body_iter(&self) -> (res: Vec<&DocumentElement>)
        ensures
            res@.len() == self.body@.len(),
            forall|i: int| 0 <= i < res@.len() ==> *res@[i] == #[trigger] self.body@[i].element,
    {
        let mut res: Vec<&DocumentElement> = Vec::new();
        let n = self.body.len();
        let mut i: usize = 0;
        while i < n
            invariant
                n == self.body@.len(),
                i <= n,
                res@.len() == i,
                forall|j: int| 0 <= j < i ==> *res@[j] == #[trigger] self.body@[j].element,
            decreases n - i,
        {
            res.push(&self.body[i].element);
            i = i + 1;
        }
        res
    }

    /// The index of this document's primary element: its first workflow if it holds one,
    /// otherwise its task if it holds exactly one.
    pub open spec fn primary_index(self) -> Option<int> {
        match first_workflow(self.body@) {
            Some(i) => Some(i),
            None => if task_count(self.body@) == 1 {
                first_task(self.body@)
            } else {
                None
            },
        }
    }

    /// Returns this Document's Workflow if it contains one, or its Task if it contains exactly
    /// one, otherwise None.
    pub fn get_primary_element(&self) -> (res: Option<&DocumentElement>)
        ensures
            match self.primary_index() {
                Some(i) => res == Some(&self.body@[i].element),
                None => res is None,
            },
    {
        let n = self.body.len();
        let mut i: usize = 0;
        let mut tasks: usize = 0;
        let mut task_index: usize = 0;
        while i < n
            invariant
                n == self.body@.len(),
                i <= n,
                first_workflow(self.body@.take(i as int)) is None,
                tasks == task_count(self.body@.take(i as int)),
                tasks == 0 ==> first_task(self.body@.take(i as int)) is None,
                tasks > 0 ==> first_task(self.body@.take(i as int)) == Some(task_index as int),
                tasks > 0 ==> task_index < n,
            decreases n - i,
        {
            proof {
                lemma_count_take(self.body@, i as int);
                lemma_counts_bounded(self.body@.take(i as int));
                assert(self.body@.take(i + 1).drop_last() =~= self.body@.take(i as int));
            }
            match &self.body[i].element {
                DocumentElement::Workflow(_) => {
                    proof {
                        lemma_first_prefix(self.body@, i + 1);
                    }
                    return Some(&self.body[i].element);
                },
                DocumentElement::Task(_) => {
                    if tasks == 0 {
                        task_index = i;
                    }
                    tasks = tasks + 1;
                },
                _ => {},
            }
            i = i + 1;
        }
        assert(self.body@.take(n as int) =~= self.body@);
        if tasks == 1 {
            Some(&self.body[task_index].element)
        } else {
            None
        }
    }
}


} // verus!
