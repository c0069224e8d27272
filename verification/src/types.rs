//! The typed token and syntax-tree variants the pipeline passes along.

use vstd::prelude::*;
use crate::rat::Rat;
use crate::datetime::{ClockTime, SimpleDate, SignedDuration, DurationUnit};

verus! {

/// A placeholder inside a rule pattern: a named slot typed by kind.
#[derive(Debug, Clone, PartialEq)]
pub enum FieldType {
    Date(String),
    Time(String),
    Number(String),
    Text(String),
    Money(String),
    Percent(String),
    Month(String),
    Duration(String),
    NumberOrMoney(String),
    Group(String, Vec<String>),
}

impl FieldType {
    /// The name of the captured slot.
    pub open spec fn spec_name(self) -> Seq<char> {
        match self {
            FieldType::Date(n) => n@,
            FieldType::Time(n) => n@,
            FieldType::Number(n) => n@,
            FieldType::Text(n) => n@,
            FieldType::Money(n) => n@,
            FieldType::Percent(n) => n@,
            FieldType::Month(n) => n@,
            FieldType::Duration(n) => n@,
            FieldType::NumberOrMoney(n) => n@,
            FieldType::Group(n, _) => n@,
        }
    }

    /// The name of the captured slot, as the stored text.
    pub open spec fn spec_name_string(self) -> String {
        match self {
            FieldType::Date(n) => n,
            FieldType::Time(n) => n,
            FieldType::Number(n) => n,
            FieldType::Text(n) => n,
            FieldType::Money(n) => n,
            FieldType::Percent(n) => n,
            FieldType::Month(n) => n,
            FieldType::Duration(n) => n,
            FieldType::NumberOrMoney(n) => n,
            FieldType::Group(n, _) => n,
        }
    }

    /// The name of the captured slot.
    pub fn name(&self) -> (r: &String)
        ensures
            r@ == self.spec_name(),
            *r == self.spec_name_string(),
    {
        match self {
            FieldType::Date(n) => n,
            FieldType::Time(n) => n,
            FieldType::Number(n) => n,
            FieldType::Text(n) => n,
            FieldType::Money(n) => n,
            FieldType::Percent(n) => n,
            FieldType::Month(n) => n,
            FieldType::Duration(n) => n,
            FieldType::NumberOrMoney(n) => n,
            FieldType::Group(n, _) => n,
        }
    }
}

/// The atom of the pipeline: one classified token.
#[derive(Debug, Clone, PartialEq)]
pub enum TokenType {
    Number(Rat),
    Percent(Rat),
    Money(Rat, String),
    Time(ClockTime),
    Date(SimpleDate),
    Duration(SignedDuration, i64, DurationUnit),
    Month(u8),
    Timezone(String, i32),
    Operator(char),
    Field(FieldType),
    Variable(usize),
    Text(String),
    Whitespace,
}

/// The numeric payloads of a token are well-formed.
pub open spec fn token_type_wf(t: TokenType) -> bool {
    match t {
        TokenType::Number(r) => r.wf(),
        TokenType::Percent(r) => r.wf(),
        TokenType::Money(r, _) => r.wf(),
        TokenType::Time(c) => c.wf(),
        TokenType::Date(d) => d.wf(),
        TokenType::Duration(d, _, _) => d.wf(),
        _ => true,
    }
}

/// Whether a token stands for a value the parser can take as a primary
/// expression.
pub open spec fn spec_is_value_token(t: TokenType) -> bool {
    match t {
        TokenType::Number(_) => true,
        TokenType::Percent(_) => true,
        TokenType::Money(_, _) => true,
        TokenType::Time(_) => true,
        TokenType::Date(_) => true,
        TokenType::Duration(_, _, _) => true,
        TokenType::Month(_) => true,
        TokenType::Variable(_) => true,
        _ => false,
    }
}

/// Lifecycle of a located token inside the rule engine.
#[derive(Debug, Clone, Copy, PartialEq, Eq, Structural)]
pub enum TokenInfoStatus {
    Active,
    Removed,
}

/// A located token: a span of the line, its classification, and whether the
/// rule engine has consumed it.
#[derive(Debug, Clone, PartialEq)]
pub struct TokenInfo {
    pub start: usize,
    pub end: usize,
    pub token_type: Option<TokenType>,
    pub original_text: String,
    pub status: TokenInfoStatus,
}

impl TokenInfo {
    /// Span is ordered and the payload is well-formed.
    pub open spec fn wf(self) -> bool {
        &&& self.start <= self.end
        &&& match self.token_type {
            Some(t) => token_type_wf(t),
            None => true,
        }
    }

    /// Whether the rule engine still considers the token.
    pub open spec fn is_active(self) -> bool {
        self.status == TokenInfoStatus::Active
    }
}

/// A token handed to the normalizer and parser.
#[derive(Debug, Clone, PartialEq)]
pub struct Token {
    pub start: usize,
    pub end: usize,
    pub token: TokenType,
    pub is_temp: bool,
}

/// A node of the typed syntax tree; also the typed value a line evaluates
/// to.
#[derive(Debug, PartialEq)]
pub enum AstType {
    Empty,
    Number(Rat),
    Percent(Rat),
    Money(Rat, String),
    Time(ClockTime),
    Date(SimpleDate),
    Duration(SignedDuration, i64, DurationUnit),
    Month(u8),
    Variable(usize),
    Assignment(usize, Box<AstType>),
    Binary(Box<AstType>, char, Box<AstType>),
    PrefixUnary(char, Box<AstType>),
}

/// Whether a tree is a plain typed value (what a finished evaluation
/// returns), not a variable, assignment or operation.
pub open spec fn spec_is_value(a: AstType) -> bool {
    match a {
        AstType::Empty => true,
        AstType::Number(_) => true,
        AstType::Percent(_) => true,
        AstType::Money(_, _) => true,
        AstType::Time(_) => true,
        AstType::Date(_) => true,
        AstType::Duration(_, _, _) => true,
        AstType::Month(_) => true,
        _ => false,
    }
}

/// The numeric payloads of a tree node are well-formed; holds recursively.
pub open spec fn ast_wf(a: AstType) -> bool
    decreases a,
{
    match a {
        AstType::Number(r) => r.wf(),
        AstType::Percent(r) => r.wf(),
        AstType::Money(r, _) => r.wf(),
        AstType::Time(t) => t.wf(),
        AstType::Date(d) => d.wf(),
        AstType::Duration(d, _, _) => d.wf(),
        AstType::Assignment(_, e) => ast_wf(*e),
        AstType::Binary(l, _, r) => ast_wf(*l) && ast_wf(*r),
        AstType::PrefixUnary(_, e) => ast_wf(*e),
        _ => true,
    }
}

/// Two value trees denote the same typed value (text compared by its
/// characters).
pub open spec fn value_eqv(a: AstType, b: AstType) -> bool {
    match (a, b) {
        (AstType::Empty, AstType::Empty) => true,
        (AstType::Number(x), AstType::Number(y)) => x == y,
        (AstType::Percent(x), AstType::Percent(y)) => x == y,
        (AstType::Money(x, c), AstType::Money(y, d)) => x == y && c@ == d@,
        (AstType::Time(x), AstType::Time(y)) => x == y,
        (AstType::Date(x), AstType::Date(y)) => x == y,
        (AstType::Duration(x, m, u), AstType::Duration(y, n, v)) => x == y && m == n && u == v,
        (AstType::Month(x), AstType::Month(y)) => x == y,
        (AstType::Variable(x), AstType::Variable(y)) => x == y,
        _ => false,
    }
}

/// A copy of a value tree; compound trees copy as `Empty`.
pub fn dup_value(a: &AstType) -> (r: AstType)
    ensures
        (spec_is_value(*a) || (*a matches AstType::Variable(_))) ==> value_eqv(r, *a),
        !(spec_is_value(*a) || (*a matches AstType::Variable(_))) ==> r == AstType::Empty,
        ast_wf(*a) ==> ast_wf(r),
        spec_is_value(r) || (r matches AstType::Variable(_)),
{
    match a {
        AstType::Empty => AstType::Empty,
        AstType::Number(x) => AstType::Number(*x),
        AstType::Percent(x) => AstType::Percent(*x),
        AstType::Money(x, c) => AstType::Money(*x, c.clone()),
        AstType::Time(x) => AstType::Time(*x),
        AstType::Date(x) => AstType::Date(*x),
        AstType::Duration(x, m, u) => AstType::Duration(*x, *m, *u),
        AstType::Month(x) => AstType::Month(*x),
        AstType::Variable(x) => AstType::Variable(*x),
        AstType::Assignment(_, _) => AstType::Empty,
        AstType::Binary(_, _, _) => AstType::Empty,
        AstType::PrefixUnary(_, _) => AstType::Empty,
    }
}

/// Two field placeholders are alike: same kind, same name, same word group.
pub open spec fn field_eqv(a: FieldType, b: FieldType) -> bool {
    match (a, b) {
        (FieldType::Date(x), FieldType::Date(y)) => x@ == y@,
        (FieldType::Time(x), FieldType::Time(y)) => x@ == y@,
        (FieldType::Number(x), FieldType::Number(y)) => x@ == y@,
        (FieldType::Text(x), FieldType::Text(y)) => x@ == y@,
        (FieldType::Money(x), FieldType::Money(y)) => x@ == y@,
        (FieldType::Percent(x), FieldType::Percent(y)) => x@ == y@,
        (FieldType::Month(x), FieldType::Month(y)) => x@ == y@,
        (FieldType::Duration(x), FieldType::Duration(y)) => x@ == y@,
        (FieldType::NumberOrMoney(x), FieldType::NumberOrMoney(y)) => x@ == y@,
        (FieldType::Group(x, v), FieldType::Group(y, w)) => x@ == y@ && v@.map_values(
            |s: String| s@,
        ) == w@.map_values(|s: String| s@),
        _ => false,
    }
}

/// Two tokens denote the same classification (text compared by its
/// characters).
pub open spec fn tt_eqv(a: TokenType, b: TokenType) -> bool {
    match (a, b) {
        (TokenType::Number(x), TokenType::Number(y)) => x == y,
        (TokenType::Percent(x), TokenType::Percent(y)) => x == y,
        (TokenType::Money(x, c), TokenType::Money(y, d)) => x == y && c@ == d@,
        (TokenType::Time(x), TokenType::Time(y)) => x == y,
        (TokenType::Date(x), TokenType::Date(y)) => x == y,
        (TokenType::Duration(x, m, u), TokenType::Duration(y, n, v)) => x == y && m == n && u
            == v,
        (TokenType::Month(x), TokenType::Month(y)) => x == y,
        (TokenType::Timezone(s, o), TokenType::Timezone(t, p)) => s@ == t@ && o == p,
        (TokenType::Operator(x), TokenType::Operator(y)) => x == y,
        (TokenType::Field(f), TokenType::Field(g)) => field_eqv(f, g),
        (TokenType::Variable(x), TokenType::Variable(y)) => x == y,
        (TokenType::Text(s), TokenType::Text(t)) => s@ == t@,
        (TokenType::Whitespace, TokenType::Whitespace) => true,
        _ => false,
    }
}

/// A copy of a word list, word for word.
pub fn dup_words(v: &Vec<String>) -> (r: Vec<String>)
    ensures
        r@.map_values(|s: String| s@) == v@.map_values(|s: String| s@),
{
    let mut r: Vec<String> = Vec::new();
    let mut i: usize = 0;
    while i < v.len()
        invariant
            i <= v@.len(),
            r@.len() == i,
            forall|k: int| 0 <= k < i ==> #[trigger] r@[k]@ == v@[k]@,
        decreases v@.len() - i,
    {
        r.push(v[i].clone());
        i = i + 1;
    }
    proof {
        assert(r@.map_values(|s: String| s@) =~= v@.map_values(|s: String| s@));
    }
    r
}

/// A copy of a field placeholder.
pub fn dup_field(f: &FieldType) -> (r: FieldType)
    ensures
        field_eqv(r, *f),
{
    match f {
        FieldType::Date(n) => FieldType::Date(n.clone()),
        FieldType::Time(n) => FieldType::Time(n.clone()),
        FieldType::Number(n) => FieldType::Number(n.clone()),
        FieldType::Text(n) => FieldType::Text(n.clone()),
        FieldType::Money(n) => FieldType::Money(n.clone()),
        FieldType::Percent(n) => FieldType::Percent(n.clone()),
        FieldType::Month(n) => FieldType::Month(n.clone()),
        FieldType::Duration(n) => FieldType::Duration(n.clone()),
        FieldType::NumberOrMoney(n) => FieldType::NumberOrMoney(n.clone()),
        FieldType::Group(n, v) => FieldType::Group(n.clone(), dup_words(v)),
    }
}

/// A copy of a token classification.
pub fn dup_token_type(t: &TokenType) -> (r: TokenType)
    ensures
        tt_eqv(r, *t),
        token_type_wf(*t) ==> token_type_wf(r),
        !((*t) matches TokenType::Field(_)) ==> r == *t,
{
    match t {
        TokenType::Number(x) => TokenType::Number(*x),
        TokenType::Percent(x) => TokenType::Percent(*x),
        TokenType::Money(x, c) => TokenType::Money(*x, c.clone()),
        TokenType::Time(x) => TokenType::Time(*x),
        TokenType::Date(x) => TokenType::Date(*x),
        TokenType::Duration(x, m, u) => TokenType::Duration(*x, *m, *u),
        TokenType::Month(x) => TokenType::Month(*x),
        TokenType::Timezone(s, o) => TokenType::Timezone(s.clone(), *o),
        TokenType::Operator(c) => TokenType::Operator(*c),
        TokenType::Field(f) => TokenType::Field(dup_field(f)),
        TokenType::Variable(i) => TokenType::Variable(*i),
        TokenType::Text(s) => TokenType::Text(s.clone()),
        TokenType::Whitespace => TokenType::Whitespace,
    }
}

/// Well-formedness of a compound node follows from its parts.
pub proof fn lemma_ast_wf_parts(a: AstType)
    ensures
        a matches AstType::PrefixUnary(op, e) && ast_wf(*e) ==> ast_wf(a),
        a matches AstType::Binary(l, op, r) && ast_wf(*l) && ast_wf(*r) ==> ast_wf(a),
        a matches AstType::Assignment(i, e) && ast_wf(*e) ==> ast_wf(a),
{
}

} // verus!