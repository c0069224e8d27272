//! The precedence parser.
//!
//! Grammar, from loosest to tightest binding:
//! `line := assignment | add_sub`, `assignment := Variable '=' add_sub`,
//! `add_sub := mul_div (('+'|'-') mul_div)*`,
//! `mul_div := unary (('*'|'/') unary)*`, `unary := ('+'|'-')? primary`,
//! `primary := value | Variable | '(' add_sub ')'`.

use vstd::prelude::*;
use crate::types::{TokenType, AstType, token_type_wf, ast_wf};

verus! {

/// A cursor over the normalized token stream.
pub struct SyntaxParser {
    pub tokens: Vec<TokenType>,
    pub index: usize,
}

/// A grammar production: one parser over the shared cursor.
pub trait SyntaxParserTrait {
    /// Parse one production from the cursor's position.
    fn parse(parser: &mut SyntaxParser) -> Result<AstType, String>;
}

/// The assignment production, `Variable '=' add_sub`.
pub struct AssignmentParser;

/// The sum production, `mul_div (('+'|'-') mul_div)*`.
pub struct AddSubtractParser;

impl SyntaxParserTrait for AssignmentParser {
    fn parse(parser: &mut SyntaxParser) -> Result<AstType, String> {
        parser.parse()
    }
}

impl SyntaxParserTrait for AddSubtractParser {
    fn parse(parser: &mut SyntaxParser) -> Result<AstType, String> {
        if !parser.wf_check() {
            return Err(syntax_error());
        }
        parser.parse_add_sub()
    }
}

/// The error every failed parse reports.
fn syntax_error() -> (r: String) {
    "syntax error".to_owned()
}

/// The value node a token denotes; tokens that denote none read as the
/// empty value.
pub open spec fn spec_token_value(t: TokenType) -> AstType {
    match t {
        TokenType::Number(x) => AstType::Number(x),
        TokenType::Percent(x) => AstType::Percent(x),
        TokenType::Money(x, c) => AstType::Money(x, c),
        TokenType::Time(x) => AstType::Time(x),
        TokenType::Date(x) => AstType::Date(x),
        TokenType::Duration(x, m, u) => AstType::Duration(x, m, u),
        TokenType::Month(x) => AstType::Month(x),
        TokenType::Variable(i) => AstType::Variable(i),
        _ => AstType::Empty,
    }
}

/// Build the value node a token denotes.
fn primary_ast(t: &TokenType) -> (r: Option<AstType>)
    ensures
        r is Some <==> crate::types::spec_is_value_token(*t),
        r is Some && token_type_wf(*t) ==> ast_wf(r->0),
        r matches Some(a) ==> a == spec_token_value(*t),
{
    match t {
        TokenType::Number(x) => Some(AstType::Number(*x)),
        TokenType::Percent(x) => Some(AstType::Percent(*x)),
        TokenType::Money(x, c) => Some(AstType::Money(*x, c.clone())),
        TokenType::Time(x) => Some(AstType::Time(*x)),
        TokenType::Date(x) => Some(AstType::Date(*x)),
        TokenType::Duration(x, m, u) => Some(AstType::Duration(*x, *m, *u)),
        TokenType::Month(x) => Some(AstType::Month(*x)),
        TokenType::Variable(i) => Some(AstType::Variable(*i)),
        _ => None,
    }
}


/// Which of two operators stands at a position, tried in order.
pub open spec fn spec_op2(toks: Seq<TokenType>, i: int, a: char, b: char) -> Option<char> {
    if 0 <= i < toks.len() {
        if toks[i] == TokenType::Operator(a) {
            Some(a)
        } else if toks[i] == TokenType::Operator(b) {
            Some(b)
        } else {
            None
        }
    } else {
        None
    }
}

/// The primary production: a value token, or a parenthesized sum; yields the
/// tree and the position after it.
pub open spec fn spec_parse_primary(toks: Seq<TokenType>, i: int) -> Option<(AstType, int)>
    decreases toks.len() - i, 3int,
    when 0 <= i
{
    if i >= toks.len() {
        None
    } else if toks[i] == TokenType::Operator('(') {
        match spec_parse_add_sub(toks, i + 1) {
            Some((inner, j)) => if 0 <= j < toks.len() && toks[j] == TokenType::Operator(')') {
                Some((inner, j + 1))
            } else {
                None
            },
            None => None,
        }
    } else if crate::types::spec_is_value_token(toks[i]) {
        Some((spec_token_value(toks[i]), i + 1))
    } else {
        None
    }
}

/// The unary production: an optional sign before a primary.
pub open spec fn spec_parse_unary(toks: Seq<TokenType>, i: int) -> Option<(AstType, int)>
    decreases toks.len() - i, 4int,
    when 0 <= i
{
    match spec_op2(toks, i, '+', '-') {
        Some(op) => match spec_parse_primary(toks, i + 1) {
            Some((inner, j)) => Some((AstType::PrefixUnary(op, Box::new(inner)), j)),
            None => None,
        },
        None => spec_parse_primary(toks, i),
    }
}

/// The left-associative tail of a product: `('*'|'/') unary` steps folded
/// onto `left`.
pub open spec fn spec_chain_mul(toks: Seq<TokenType>, i: int, left: AstType) -> Option<
    (AstType, int),
>
    decreases toks.len() - i, 0int,
    when 0 <= i
{
    match spec_op2(toks, i, '*', '/') {
        Some(op) => match spec_parse_unary(toks, i + 1) {
            Some((rhs, j)) => if i + 1 <= j && j <= toks.len() {
                spec_chain_mul(toks, j, AstType::Binary(Box::new(left), op, Box::new(rhs)))
            } else {
                None
            },
            None => None,
        },
        None => Some((left, i)),
    }
}

/// The product production.
pub open spec fn spec_parse_mul_div(toks: Seq<TokenType>, i: int) -> Option<(AstType, int)>
    decreases toks.len() - i, 5int,
    when 0 <= i
{
    match spec_parse_unary(toks, i) {
        Some((a, j)) => if i <= j && j <= toks.len() {
            spec_chain_mul(toks, j, a)
        } else {
            None
        },
        None => None,
    }
}

/// The left-associative tail of a sum: `('+'|'-') mul_div` steps folded
/// onto `left`.
pub open spec fn spec_chain_add(toks: Seq<TokenType>, i: int, left: AstType) -> Option<
    (AstType, int),
>
    decreases toks.len() - i, 1int,
    when 0 <= i
{
    match spec_op2(toks, i, '+', '-') {
        Some(op) => match spec_parse_mul_div(toks, i + 1) {
            Some((rhs, j)) => if i + 1 <= j && j <= toks.len() {
                spec_chain_add(toks, j, AstType::Binary(Box::new(left), op, Box::new(rhs)))
            } else {
                None
            },
            None => None,
        },
        None => Some((left, i)),
    }
}

/// The sum production.
pub open spec fn spec_parse_add_sub(toks: Seq<TokenType>, i: int) -> Option<(AstType, int)>
    decreases toks.len() - i, 6int,
    when 0 <= i
{
    match spec_parse_mul_div(toks, i) {
        Some((a, j)) => if i <= j && j <= toks.len() {
            spec_chain_add(toks, j, a)
        } else {
            None
        },
        None => None,
    }
}

/// The whole line: an assignment when a variable and `=` lead the stream,
/// otherwise a sum; tokens after the parsed tree are ignored.
pub open spec fn spec_parse_line(toks: Seq<TokenType>) -> Option<AstType> {
    if toks.len() >= 2 && (toks[0] matches TokenType::Variable(_)) && toks[1]
        == TokenType::Operator('=') {
        match toks[0] {
            TokenType::Variable(v) => match spec_parse_add_sub(toks, 2) {
                Some((e, _)) => Some(AstType::Assignment(v, Box::new(e))),
                None => None,
            },
            _ => None,
        }
    } else {
        match spec_parse_add_sub(toks, 0) {
            Some((a, _)) => Some(a),
            None => None,
        }
    }
}

impl SyntaxParser {
    /// The cursor is within bounds and every token's payload is well-formed.
    pub open spec fn wf(self) -> bool {
        &&& self.index <= self.tokens@.len()
        &&& forall|i: int| 0 <= i < self.tokens@.len() ==> token_type_wf(#[trigger] self.tokens@[i])
    }

    /// A cursor at the start of a token stream.
    pub fn new(tokens: Vec<TokenType>) -> (p: SyntaxParser)
        ensures
            p.tokens@ == tokens@,
            p.index == 0,
    {
        SyntaxParser { tokens, index: 0 }
    }

    /// Check at run time what `wf` states, so unverified callers can be
    /// turned away.
    pub fn wf_check(&self) -> (b: bool)
        ensures
            b == self.wf(),
    {
        if self.index > self.tokens.len() {
            return false;
        }
        let mut i: usize = 0;
        while i < self.tokens.len()
            invariant
                self.index <= self.tokens@.len(),
                i <= self.tokens@.len(),
                forall|k: int| 0 <= k < i ==> token_type_wf(#[trigger] self.tokens@[k]),
            decreases self.tokens@.len() - i,
        {
            let ok = match &self.tokens[i] {
                TokenType::Number(x) => x.wf_check(),
                TokenType::Percent(x) => x.wf_check(),
                TokenType::Money(x, _) => x.wf_check(),
                TokenType::Time(c) => c.wf_check(),
                TokenType::Date(d) => d.wf_check(),
                TokenType::Duration(d, _, _) => d.wf_check(),
                _ => true,
            };
            if !ok {
                proof {
                    assert(!token_type_wf(self.tokens@[i as int]));
                }
                return false;
            }
            i = i + 1;
        }
        true
    }

    /// Move the cursor.
    pub fn set_index(&mut self, index: usize)
        ensures
            final(self).index == index,
            final(self).tokens@ == old(self).tokens@,
    {
        self.index = index;
    }

    /// Where the cursor stands.
    pub fn get_index(&self) -> (i: usize)
        ensures
            i == self.index,
    {
        self.index
    }

    /// The token under the cursor.
    pub fn peek_token(&self) -> (r: Result<&TokenType, ()>)
        ensures
            r is Ok <==> self.index < self.tokens@.len(),
            r matches Ok(t) ==> *t == self.tokens@[self.index as int],
    {
        if self.index < self.tokens.len() {
            Ok(&self.tokens[self.index])
        } else {
            Err(())
        }
    }

    /// The token after the cursor.
    pub fn next_token(&self) -> (r: Result<&TokenType, ()>)
        ensures
            r is Ok <==> self.index + 1 < self.tokens@.len(),
            r matches Ok(t) ==> *t == self.tokens@[self.index + 1],
    {
        let n = self.tokens.len();
        if self.index < n && self.index + 1 < n {
            Ok(&self.tokens[self.index + 1])
        } else {
            Err(())
        }
    }

    /// Step over the token under the cursor and look at the next one.
    pub fn consume_token(&mut self) -> (r: Option<&TokenType>)
        ensures
            final(self).tokens@ == old(self).tokens@,
            old(self).index < usize::MAX ==> final(self).index == old(self).index + 1,
            old(self).index == usize::MAX ==> final(self).index == old(self).index,
            r is Some <==> final(self).index < final(self).tokens@.len(),
            r matches Some(t) ==> *t == final(self).tokens@[final(self).index as int],
    {
        let n = self.tokens.len();
        if self.index < usize::MAX {
            self.index = self.index + 1;
        }
        if self.index < n {
            Some(&self.tokens[self.index])
        } else {
            None
        }
    }

    /// Whether the token under the cursor is this operator.
    pub fn check_operator(&self, operator: char) -> (b: bool)
        ensures
            b <==> (self.index < self.tokens@.len() && self.tokens@[self.index as int]
                == TokenType::Operator(operator)),
    {
        if self.index >= self.tokens.len() {
            return false;
        }
        match &self.tokens[self.index] {
            TokenType::Operator(c) => *c == operator,
            _ => false,
        }
    }

    /// Step over the first of these operators that stands under the cursor.
    fn match_operator(&mut self, operators: &[char]) -> (r: Option<char>)
        requires
            old(self).wf(),
        ensures
            final(self).wf(),
            final(self).tokens@ == old(self).tokens@,
            r is Some ==> final(self).index == old(self).index + 1 && old(self).index < old(
                self,
            ).tokens@.len() && old(self).tokens@[old(self).index as int] == TokenType::Operator(
                r->0,
            ) && operators@.contains(r->0),
            r is None ==> final(self).index == old(self).index,
            r is None && old(self).index < old(self).tokens@.len() ==> forall|k: int|
                0 <= k < operators@.len() ==> old(self).tokens@[old(self).index as int]
                    != TokenType::Operator(#[trigger] operators@[k]),
    {
        let mut k: usize = 0;
        while k < operators.len()
            invariant
                self.index == old(self).index,
                self.tokens@ == old(self).tokens@,
                old(self).wf(),
                k <= operators@.len(),
                self.index < self.tokens@.len() ==> forall|j: int|
                    0 <= j < k ==> self.tokens@[self.index as int] != TokenType::Operator(
                        #[trigger] operators@[j],
                    ),
            decreases operators@.len() - k,
        {
            if self.check_operator(operators[k]) {
                let n = self.tokens.len();
                proof {
                    assert(self.index < n);
                    assert(operators@.contains(operators@[k as int]));
                }
                self.index = self.index + 1;
                return Some(operators[k]);
            }
            k = k + 1;
        }
        None
    }

    /// Parse a whole line: an assignment when the stream starts with a
    /// variable and `=`, otherwise a sum.
    pub fn parse(&mut self) -> (r: Result<AstType, String>)
        ensures
            final(self).tokens@ == old(self).tokens@,
            r matches Ok(a) ==> ast_wf(a),
            (forall|k: int|
                0 <= k < old(self).tokens@.len() ==> token_type_wf(
                    #[trigger] old(self).tokens@[k],
                )) ==> match spec_parse_line(old(self).tokens@) {
                Some(a) => (r matches Ok(got) && got == a),
                None => r is Err,
            },
    {
        self.set_index(0);
        if !self.wf_check() {
            return Err(syntax_error());
        }
        let is_assignment = if self.tokens.len() >= 2 {
            let first_var = match &self.tokens[0] {
                TokenType::Variable(_) => true,
                _ => false,
            };
            let second_eq = match &self.tokens[1] {
                TokenType::Operator(c) => *c == '=',
                _ => false,
            };
            first_var && second_eq
        } else {
            false
        };
        if is_assignment {
            let var_index = match &self.tokens[0] {
                TokenType::Variable(i) => *i,
                _ => 0,
            };
            self.set_index(2);
            proof {
                assert(self.wf());
            }
            let expression = match self.parse_add_sub() {
                Ok(e) => e,
                Err(e) => {
                    return Err(e);
                },
            };
            Ok(AstType::Assignment(var_index, Box::new(expression)))
        } else {
            match self.parse_add_sub() {
                Ok(a) => Ok(a),
                Err(e) => Err(e),
            }
        }
    }

    /// Parse a sum of products, as `spec_parse_add_sub` reads it.
    fn parse_add_sub(&mut self) -> (r: Result<AstType, String>)
        requires
            old(self).wf(),
        ensures
            final(self).wf(),
            final(self).tokens@ == old(self).tokens@,
            final(self).index >= old(self).index,
            r matches Ok(a) ==> ast_wf(a) && final(self).index > old(self).index,
            match spec_parse_add_sub(old(self).tokens@, old(self).index as int) {
                Some(p) => (r matches Ok(a) && a == p.0 && final(self).index as int == p.1),
                None => r is Err,
            },
        decreases old(self).tokens@.len() - old(self).index, 3int,
    {
        let ghost toks = self.tokens@;
        let ghost i0 = self.index as int;
        let ghost target = spec_parse_add_sub(toks, i0);
        let mut left = match self.parse_mul_div() {
            Ok(v) => v,
            Err(e) => {
                return Err(e);
            },
        };
        proof {
            assert(target == spec_chain_add(toks, self.index as int, left));
        }
        let mut going = true;
        while going
            invariant
                self.wf(),
                self.tokens@ == toks,
                toks == old(self).tokens@,
                i0 == old(self).index as int,
                target == spec_parse_add_sub(toks, i0),
                self.index > old(self).index,
                ast_wf(left),
                going ==> target == spec_chain_add(toks, self.index as int, left),
                !going ==> target == Some((left, self.index as int)),
            decreases self.tokens@.len() - self.index + (if going {
                1int
            } else {
                0int
            }),
        {
            let ghost ie = self.index as int;
            let ops: [char; 2] = ['+', '-'];
            match self.match_operator(ops.as_slice()) {
                Some(op) => {
                    proof {
                        assert(spec_op2(toks, ie, '+', '-') == Some(op));
                    }
                    let right = match self.parse_mul_div() {
                        Ok(v) => v,
                        Err(e) => {
                            return Err(e);
                        },
                    };
                    let combined = AstType::Binary(Box::new(left), op, Box::new(right));
                    proof {
                        crate::types::lemma_ast_wf_parts(combined);
                        assert(target == spec_chain_add(toks, self.index as int, combined));
                    }
                    left = combined;
                },
                None => {
                    proof {
                        assert(spec_op2(toks, ie, '+', '-') is None);
                    }
                    going = false;
                },
            }
        }
        Ok(left)
    }

    /// Parse a product of unary expressions, as `spec_parse_mul_div` reads
    /// it.
    fn parse_mul_div(&mut self) -> (r: Result<AstType, String>)
        requires
            old(self).wf(),
        ensures
            final(self).wf(),
            final(self).tokens@ == old(self).tokens@,
            final(self).index >= old(self).index,
            r matches Ok(a) ==> ast_wf(a) && final(self).index > old(self).index,
            match spec_parse_mul_div(old(self).tokens@, old(self).index as int) {
                Some(p) => (r matches Ok(a) && a == p.0 && final(self).index as int == p.1),
                None => r is Err,
            },
        decreases old(self).tokens@.len() - old(self).index, 2int,
    {
        let ghost toks = self.tokens@;
        let ghost i0 = self.index as int;
        let ghost target = spec_parse_mul_div(toks, i0);
        let mut left = match self.parse_unary() {
            Ok(v) => v,
            Err(e) => {
                return Err(e);
            },
        };
        proof {
            assert(target == spec_chain_mul(toks, self.index as int, left));
        }
        let mut going = true;
        while going
            invariant
                self.wf(),
                self.tokens@ == toks,
                toks == old(self).tokens@,
                i0 == old(self).index as int,
                target == spec_parse_mul_div(toks, i0),
                self.index > old(self).index,
                ast_wf(left),
                going ==> target == spec_chain_mul(toks, self.index as int, left),
                !going ==> target == Some((left, self.index as int)),
            decreases self.tokens@.len() - self.index + (if going {
                1int
            } else {
                0int
            }),
        {
            let ghost ie = self.index as int;
            let ops: [char; 2] = ['*', '/'];
            match self.match_operator(ops.as_slice()) {
                Some(op) => {
                    proof {
                        assert(spec_op2(toks, ie, '*', '/') == Some(op));
                    }
                    let right = match self.parse_unary() {
                        Ok(v) => v,
                        Err(e) => {
                            return Err(e);
                        },
                    };
                    let combined = AstType::Binary(Box::new(left), op, Box::new(right));
                    proof {
                        crate::types::lemma_ast_wf_parts(combined);
                        assert(target == spec_chain_mul(toks, self.index as int, combined));
                    }
                    left = combined;
                },
                None => {
                    proof {
                        assert(spec_op2(toks, ie, '*', '/') is None);
                    }
                    going = false;
                },
            }
        }
        Ok(left)
    }

    /// Parse an optional sign before a primary expression, as
    /// `spec_parse_unary` reads it.
    fn parse_unary(&mut self) -> (r: Result<AstType, String>)
        requires
            old(self).wf(),
        ensures
            final(self).wf(),
            final(self).tokens@ == old(self).tokens@,
            final(self).index >= old(self).index,
            r matches Ok(a) ==> ast_wf(a) && final(self).index > old(self).index,
            match spec_parse_unary(old(self).tokens@, old(self).index as int) {
                Some(p) => (r matches Ok(a) && a == p.0 && final(self).index as int == p.1),
                None => r is Err,
            },
        decreases old(self).tokens@.len() - old(self).index, 1int,
    {
        let ghost toks = self.tokens@;
        let ghost i0 = self.index as int;
        let ops: [char; 2] = ['+', '-'];
        match self.match_operator(ops.as_slice()) {
            Some(op) => {
                proof {
                    assert(spec_op2(toks, i0, '+', '-') == Some(op));
                }
                let inner = match self.parse_primary() {
                    Ok(v) => v,
                    Err(e) => {
                        return Err(e);
                    },
                };
                let wrapped = AstType::PrefixUnary(op, Box::new(inner));
                proof {
                    crate::types::lemma_ast_wf_parts(wrapped);
                }
                Ok(wrapped)
            },
            None => {
                proof {
                    assert(spec_op2(toks, i0, '+', '-') is None);
                }
                self.parse_primary()
            },
        }
    }

    /// Parse a value token or a parenthesized sum, as `spec_parse_primary`
    /// reads it.
    fn parse_primary(&mut self) -> (r: Result<AstType, String>)
        requires
            old(self).wf(),
        ensures
            final(self).wf(),
            final(self).tokens@ == old(self).tokens@,
            final(self).index >= old(self).index,
            r matches Ok(a) ==> ast_wf(a) && final(self).index > old(self).index,
            match spec_parse_primary(old(self).tokens@, old(self).index as int) {
                Some(p) => (r matches Ok(a) && a == p.0 && final(self).index as int == p.1),
                None => r is Err,
            },
        decreases old(self).tokens@.len() - old(self).index, 0int,
    {
        if self.index >= self.tokens.len() {
            return Err(syntax_error());
        }
        if self.check_operator('(') {
            self.index = self.index + 1;
            let inner = match self.parse_add_sub() {
                Ok(v) => v,
                Err(e) => {
                    return Err(e);
                },
            };
            if !self.check_operator(')') {
                return Err(syntax_error());
            }
            self.index = self.index + 1;
            return Ok(inner);
        }
        let made = primary_ast(&self.tokens[self.index]);
        match made {
            Some(a) => {
                self.index = self.index + 1;
                Ok(a)
            },
            None => Err(syntax_error()),
        }
    }
}

} // verus!
