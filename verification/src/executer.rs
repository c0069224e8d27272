//! Per-evaluation storage and the token normalizer.
//!
//! After the rule engine has run, the token stream is cleaned (stray words
//! after an assignment sign are dropped) and filled (implicit zeros around
//! leading and trailing operators, implicit `+` between adjacent values)
//! before the parser consumes it.

use vstd::prelude::*;
use crate::types::{Token, TokenType, TokenInfo, AstType, token_type_wf, tt_eqv, dup_token_type};
use crate::types::{spec_is_value, ast_wf};
use crate::rat::Rat;

verus! {

/// A named variable and its current value.
pub struct VariableInfo {
    pub name: String,
    pub data: AstType,
}

/// Per-evaluation state: one syntax tree per processed line, and the named
/// variables, appended only.
pub struct Storage {
    pub asts: Vec<AstType>,
    pub variables: Vec<VariableInfo>,
}

impl Storage {
    /// Empty storage.
    pub fn new() -> (s: Storage)
        ensures
            s.asts@.len() == 0,
            s.variables@.len() == 0,
    {
        Storage { asts: Vec::new(), variables: Vec::new() }
    }
}

/// Whether the token is the assignment operator.
pub open spec fn spec_is_eq(t: Token) -> bool {
    match t.token {
        TokenType::Operator(c) => c == '=',
        _ => false,
    }
}

/// Whether the token is any operator.
pub open spec fn spec_is_op(t: Token) -> bool {
    t.token matches TokenType::Operator(_)
}

/// Whether the token is an unclassified word.
pub open spec fn spec_is_text(t: Token) -> bool {
    t.token matches TokenType::Text(_)
}

/// The position right after the first assignment operator; 0 when there is
/// none.
pub open spec fn spec_eq_cut(s: Seq<Token>) -> int
    decreases s.len(),
{
    if s.len() == 0 {
        0
    } else if spec_is_eq(s[0]) {
        1
    } else {
        let r = spec_eq_cut(s.drop_first());
        if r == 0 {
            0
        } else {
            r + 1
        }
    }
}

/// The cut lies within the sequence.
pub proof fn lemma_eq_cut_bound(s: Seq<Token>)
    ensures
        0 <= spec_eq_cut(s) <= s.len(),
    decreases s.len(),
{
    if s.len() > 0 && !spec_is_eq(s[0]) {
        lemma_eq_cut_bound(s.drop_first());
    }
}

/// When the first assignment operator stands at `k`, the cut is `k + 1`.
pub proof fn lemma_eq_cut_found(s: Seq<Token>, k: int)
    requires
        0 <= k < s.len(),
        spec_is_eq(s[k]),
        forall|j: int| 0 <= j < k ==> !spec_is_eq(s[j]),
    ensures
        spec_eq_cut(s) == k + 1,
    decreases k,
{
    if k == 0 {
    } else {
        assert(forall|j: int|
            0 <= j < k - 1 ==> s.drop_first()[j] == s[j + 1] && !spec_is_eq(s[j + 1]));
        lemma_eq_cut_found(s.drop_first(), k - 1);
    }
}

/// Without an assignment operator the cut is 0.
pub proof fn lemma_eq_cut_none(s: Seq<Token>)
    requires
        forall|j: int| 0 <= j < s.len() ==> !spec_is_eq(s[j]),
    ensures
        spec_eq_cut(s) == 0,
    decreases s.len(),
{
    if s.len() > 0 {
        assert(forall|j: int|
            0 <= j < s.drop_first().len() ==> s.drop_first()[j] == s[j + 1] && !spec_is_eq(
                s[j + 1],
            ));
        lemma_eq_cut_none(s.drop_first());
    }
}

/// Find the cut position of the live token stream.
fn find_eq_cut(tokens: &Vec<Token>) -> (cut: usize)
    ensures
        cut as int == spec_eq_cut(tokens@),
{
    let mut k: usize = 0;
    while k < tokens.len()
        invariant
            k <= tokens@.len(),
            forall|j: int| 0 <= j < k ==> !spec_is_eq(tokens@[j]),
        decreases tokens@.len() - k,
    {
        let is_eq = match &tokens[k].token {
            TokenType::Operator(c) => *c == '=',
            _ => false,
        };
        if is_eq {
            proof {
                lemma_eq_cut_found(tokens@, k as int);
            }
            return k + 1;
        }
        k = k + 1;
    }
    proof {
        lemma_eq_cut_none(tokens@);
    }
    0
}

/// Appending one token extends the filtered sequence by that token exactly
/// when the predicate keeps it.
pub proof fn lemma_filter_push<A>(s: Seq<A>, t: A, pred: spec_fn(A) -> bool)
    ensures
        pred(t) ==> s.push(t).filter(pred) == s.filter(pred).push(t),
        !pred(t) ==> s.push(t).filter(pred) == s.filter(pred),
{
    reveal(Seq::filter);
    assert(s.push(t).drop_last() =~= s);
    if pred(t) {
        assert(s.push(t).filter(pred) =~= s.filter(pred).push(t));
    } else {
        assert(s.push(t).filter(pred) =~= s.filter(pred));
    }
}

/// The token a located token contributes to the parser stream.
pub open spec fn spec_kept_info(t: TokenInfo) -> bool {
    t.is_active() && t.token_type is Some
}

/// Turn the rule engine's surviving tokens into the linear stream the
/// normalizer and parser consume: active, classified tokens, in order.
pub fn token_generator(token_infos: &Vec<TokenInfo>) -> (r: Vec<Token>)
    ensures
        ({
            let kept = token_infos@.filter(|t: TokenInfo| spec_kept_info(t));
            &&& r@.len() == kept.len()
            &&& forall|i: int|
                0 <= i < kept.len() ==> {
                    &&& (#[trigger] r@[i]).start == kept[i].start
                    &&& r@[i].end == kept[i].end
                    &&& !r@[i].is_temp
                    &&& tt_eqv(r@[i].token, kept[i].token_type->0)
                    &&& (token_type_wf(kept[i].token_type->0) ==> token_type_wf(r@[i].token))
                }
        }),
{
    let ghost pred = |t: TokenInfo| spec_kept_info(t);
    let mut r: Vec<Token> = Vec::new();
    let mut i: usize = 0;
    proof {
        reveal(Seq::filter);
        assert(token_infos@.subrange(0, 0).filter(pred) =~= Seq::<TokenInfo>::empty().filter(
            pred,
        ));
    }
    while i < token_infos.len()
        invariant
            i <= token_infos@.len(),
            pred == (|t: TokenInfo| spec_kept_info(t)),
            ({
                let kept = token_infos@.subrange(0, i as int).filter(pred);
                &&& r@.len() == kept.len()
                &&& forall|k: int|
                    0 <= k < kept.len() ==> {
                        &&& (#[trigger] r@[k]).start == kept[k].start
                        &&& r@[k].end == kept[k].end
                        &&& !r@[k].is_temp
                        &&& tt_eqv(r@[k].token, kept[k].token_type->0)
                        &&& (token_type_wf(kept[k].token_type->0) ==> token_type_wf(r@[k].token))
                    }
            }),
        decreases token_infos@.len() - i,
    {
        proof {
            lemma_filter_push(
                token_infos@.subrange(0, i as int),
                token_infos@[i as int],
                pred,
            );
            assert(token_infos@.subrange(0, i + 1) =~= token_infos@.subrange(0, i as int).push(
                token_infos@[i as int],
            ));
        }
        let info = &token_infos[i];
        let active = match info.status {
            crate::types::TokenInfoStatus::Active => true,
            crate::types::TokenInfoStatus::Removed => false,
        };
        if active {
            match &info.token_type {
                Some(t) => {
                    r.push(
                        Token {
                            start: info.start,
                            end: info.end,
                            token: dup_token_type(t),
                            is_temp: false,
                        },
                    );
                },
                None => (),
            }
        }
        i = i + 1;
    }
    proof {
        assert(token_infos@.subrange(0, token_infos@.len() as int) =~= token_infos@);
    }
    r
}

/// Drop every unclassified word that stands after the first assignment
/// operator; a stream without one loses all its words.
pub fn token_cleaner(tokens: &mut Vec<Token>)
    ensures
        final(tokens)@ == old(tokens)@.subrange(0, spec_eq_cut(old(tokens)@)) + old(
            tokens,
        )@.subrange(spec_eq_cut(old(tokens)@), old(tokens)@.len() as int).filter(
            |t: Token| !spec_is_text(t),
        ),
{
    proof {
        lemma_eq_cut_bound(tokens@);
    }
    let cut = find_eq_cut(tokens);
    let ghost s0 = tokens@;
    let ghost keep = |t: Token| !spec_is_text(t);
    let mut index: usize = cut;
    let ghost mut p: int = cut as int;
    proof {
        assert(s0.subrange(cut as int, cut as int).filter(keep) =~= Seq::<Token>::empty().filter(
            keep,
        ));
        reveal(Seq::filter);
        assert(tokens@ =~= s0.subrange(0, cut as int) + s0.subrange(cut as int, p).filter(keep)
            + s0.subrange(p, s0.len() as int));
    }
    while index < tokens.len()
        invariant
            cut as int == spec_eq_cut(s0),
            cut as int <= p <= s0.len(),
            keep == (|t: Token| !spec_is_text(t)),
            index as int == cut + s0.subrange(cut as int, p).filter(keep).len(),
            tokens@ == s0.subrange(0, cut as int) + s0.subrange(cut as int, p).filter(keep)
                + s0.subrange(p, s0.len() as int),
        decreases s0.len() - p,
    {
        proof {
            s0.subrange(cut as int, p).lemma_filter_len(keep);
            assert(p < s0.len());
            assert(tokens@[index as int] == s0[p]);
            lemma_filter_push(s0.subrange(cut as int, p), s0[p], keep);
            assert(s0.subrange(cut as int, p + 1) =~= s0.subrange(cut as int, p).push(s0[p]));
        }
        let is_text = match &tokens[index].token {
            TokenType::Text(_) => true,
            _ => false,
        };
        if is_text {
            tokens.remove(index);
            proof {
                p = p + 1;
                assert(tokens@ =~= s0.subrange(0, cut as int) + s0.subrange(
                    cut as int,
                    p,
                ).filter(keep) + s0.subrange(p, s0.len() as int));
            }
        } else {
            index = index + 1;
            proof {
                p = p + 1;
                assert(tokens@ =~= s0.subrange(0, cut as int) + s0.subrange(
                    cut as int,
                    p,
                ).filter(keep) + s0.subrange(p, s0.len() as int));
            }
        }
    }
    proof {
        s0.subrange(cut as int, p).lemma_filter_len(keep);
        assert(p == s0.len());
        assert(s0.subrange(p, s0.len() as int) =~= Seq::<Token>::empty());
        assert(tokens@ =~= s0.subrange(0, cut as int) + s0.subrange(
            cut as int,
            s0.len() as int,
        ).filter(keep));
    }
}

/// A filler zero: a temporary `Number(0)` token.
pub open spec fn spec_is_temp_zero(t: Token) -> bool {
    &&& t.start == 0
    &&& t.end == 1
    &&& t.is_temp
    &&& match t.token {
        TokenType::Number(r) => r.n() == 0 && r.d() == 1,
        _ => false,
    }
}

/// A filler operator: a temporary `Operator('+')` token.
pub open spec fn spec_is_temp_plus(t: Token) -> bool {
    &&& t.start == 0
    &&& t.end == 1
    &&& t.is_temp
    &&& t.token == TokenType::Operator('+')
}

/// One sweep of implicit-`+` insertion: walk the stream two positions at a
/// time; where a value stands instead of an operator, put `plus` before it.
pub open spec fn spec_fill_loop(s: Seq<Token>, i: int, plus: Token) -> Seq<Token>
    decreases s.len() - i,
    when 0 <= i
{
    if i >= s.len() {
        s
    } else if spec_is_op(s[i]) {
        spec_fill_loop(
            s,
            if i + 2 <= s.len() {
                i + 2
            } else {
                s.len() as int
            },
            plus,
        )
    } else {
        spec_fill_loop(s.insert(i, plus), i + 2, plus)
    }
}

/// The whole normalization: an implicit zero before a leading operator of
/// the expression part, implicit `+` between adjacent values, and an
/// implicit zero after a trailing operator.
pub open spec fn spec_missing_filled(s: Seq<Token>, zero: Token, plus: Token) -> Seq<Token> {
    let cut = spec_eq_cut(s);
    if s.len() == 0 || cut + 1 >= s.len() {
        s
    } else {
        let s1 = if spec_is_op(s[cut]) {
            s.insert(cut, zero)
        } else {
            s
        };
        let s2 = spec_fill_loop(s1, cut + 1, plus);
        if s2.len() > 0 && spec_is_op(s2[s2.len() - 1]) {
            s2.push(zero)
        } else {
            s2
        }
    }
}

/// Insert the implicit tokens the parser expects: a zero before a leading
/// operator, `+` between adjacent values, a zero after a trailing operator.
pub fn missing_token_adder(tokens: &mut Vec<Token>)
    ensures
        exists|zero: Token, plus: Token|
            spec_is_temp_zero(zero) && spec_is_temp_plus(plus) && final(tokens)@
                == spec_missing_filled(old(tokens)@, zero, plus),
{
    let z = Rat::zero();
    let ghost zero = Token { start: 0, end: 1, token: TokenType::Number(z), is_temp: true };
    let ghost plus = Token { start: 0, end: 1, token: TokenType::Operator('+'), is_temp: true };
    proof {
        lemma_eq_cut_bound(tokens@);
        assert(spec_is_temp_zero(zero) && spec_is_temp_plus(plus));
    }
    let cut = find_eq_cut(tokens);
    let ghost s0 = tokens@;
    if tokens.len() == 0 {
        proof {
            assert(tokens@ == spec_missing_filled(s0, zero, plus));
        }
        return ;
    }
    if cut >= tokens.len() - 1 {
        proof {
            assert(tokens@ == spec_missing_filled(s0, zero, plus));
        }
        return ;
    }
    let leading_op = match &tokens[cut].token {
        TokenType::Operator(_) => true,
        _ => false,
    };
    if leading_op {
        tokens.insert(cut, Token { start: 0, end: 1, token: TokenType::Number(z), is_temp: true });
    }
    let ghost s1 = tokens@;
    proof {
        assert(s1 == if spec_is_op(s0[cut as int]) {
            s0.insert(cut as int, zero)
        } else {
            s0
        });
    }
    let mut index: usize = cut + 1;
    while index < tokens.len()
        invariant
            1 <= index,
            plus == (Token { start: 0, end: 1, token: TokenType::Operator('+'), is_temp: true }),
            spec_fill_loop(
                tokens@,
                vstd::math::min(index as int, tokens@.len() as int),
                plus,
            ) == spec_fill_loop(s1, cut + 1, plus),
        decreases tokens@.len() - vstd::math::min(index as int, tokens@.len() as int),
    {
        let is_op = match &tokens[index].token {
            TokenType::Operator(_) => true,
            _ => false,
        };
        let ghost pre = tokens@;
        if is_op {
            proof {
                assert(spec_fill_loop(pre, index as int, plus) == spec_fill_loop(
                    pre,
                    if index + 2 <= pre.len() {
                        index + 2
                    } else {
                        pre.len() as int
                    },
                    plus,
                ));
            }
            if index <= usize::MAX - 2 {
                index = index + 2;
            } else {
                index = tokens.len();
            }
        } else {
            tokens.insert(
                index,
                Token { start: 0, end: 1, token: TokenType::Operator('+'), is_temp: true },
            );
            proof {
                assert(tokens@ =~= pre.insert(index as int, plus));
                assert(spec_fill_loop(pre, index as int, plus) == spec_fill_loop(
                    pre.insert(index as int, plus),
                    index + 2,
                    plus,
                ));
            }
            if index <= usize::MAX - 2 {
                index = index + 2;
            } else {
                index = tokens.len();
            }
        }
    }
    proof {
        assert(tokens@ == spec_fill_loop(s1, cut + 1, plus));
    }
    if tokens.len() > 0 {
        let last_op = match &tokens[tokens.len() - 1].token {
            TokenType::Operator(_) => true,
            _ => false,
        };
        if last_op {
            tokens.push(Token { start: 0, end: 1, token: TokenType::Number(z), is_temp: true });
        }
    }
    proof {
        assert(tokens@ == spec_missing_filled(s0, zero, plus));
    }
}

/// How many line breaks a text has.
pub open spec fn spec_newlines(s: Seq<char>) -> int
    decreases s.len(),
{
    if s.len() == 0 {
        0
    } else {
        spec_newlines(s.drop_last()) + if s.last() == '\n' {
            1int
        } else {
            0int
        }
    }
}

/// How many lines a text has, as a line reader counts them: one per line
/// break, one more for a final unterminated line, none for the empty text.
pub open spec fn spec_line_count(s: Seq<char>) -> int {
    spec_newlines(s) + if s.len() > 0 && s.last() != '\n' {
        1int
    } else {
        0int
    }
}

/// A successful result of an empty line: no tokens and the empty value.
pub open spec fn spec_empty_line_result(r: Result<(Vec<Token>, AstType), String>) -> bool {
    r matches Ok(p) && p.0@ == Seq::<Token>::empty() && p.1 == AstType::Empty
}

/// Every successful line result carries a well-formed plain value.
pub open spec fn spec_result_ok(r: Result<(Vec<Token>, AstType), String>) -> bool {
    match r {
        Ok((_, v)) => spec_is_value(v) && ast_wf(v),
        Err(_) => true,
    }
}

/// Evaluate a multi-line input: one result per line, each the line's tokens
/// and its typed value, with variables persisting across the lines of one
/// call.
pub fn execute(config: &crate::config::Config, data: &str, language: &str) -> (results: Vec<
    Result<(Vec<Token>, AstType), String>,
>)
    requires
        crate::compiler::rates_wf(config.currency_rate@),
    ensures
        results@.len() == spec_line_count(data@),
        forall|j: int| 0 <= j < results@.len() ==> spec_result_ok(#[trigger] results@[j]),
        (forall|k: int| 0 <= k < data@.len() ==> data@[k] == '\n') ==> forall|j: int|
            0 <= j < results@.len() ==> spec_empty_line_result(#[trigger] results@[j]),
{
    let mut results: Vec<Result<(Vec<Token>, AstType), String>> = Vec::new();
    let mut storage = Storage::new();
    let ul = data.unicode_len();
    let mut line_start: usize = 0;
    let mut i: usize = 0;
    let ghost all_breaks = forall|k: int| 0 <= k < data@.len() ==> data@[k] == '\n';
    proof {
        assert(data@.subrange(0, 0) =~= Seq::<char>::empty());
    }
    while i < ul
        invariant
            line_start <= i <= ul,
            ul == data@.len(),
            crate::compiler::storage_wf(storage),
            crate::compiler::rates_wf(config.currency_rate@),
            results@.len() == spec_newlines(data@.subrange(0, i as int)),
            line_start == i ==> i == 0 || data@[i - 1] == '\n',
            i > 0 && data@[i - 1] == '\n' ==> line_start == i,
            all_breaks == (forall|k: int| 0 <= k < data@.len() ==> data@[k] == '\n'),
            all_breaks ==> line_start == i,
            forall|j: int| 0 <= j < results@.len() ==> spec_result_ok(#[trigger] results@[j]),
            all_breaks ==> forall|j: int|
                0 <= j < results@.len() ==> spec_empty_line_result(#[trigger] results@[j]),
        decreases ul - i,
    {
        proof {
            assert(data@.subrange(0, i + 1).drop_last() =~= data@.subrange(0, i as int));
            assert(data@.subrange(0, i + 1).last() == data@[i as int]);
        }
        if data.get_char(i) == '\n' {
            let line = data.substring_char(line_start, i);
            proof {
                if line_start == i {
                    assert(line@ =~= Seq::<char>::empty());
                }
            }
            process_line(config, line, &mut storage, &mut results);
            line_start = i + 1;
        }
        i = i + 1;
    }
    // a final line without a terminating break
    if line_start < ul {
        let line = data.substring_char(line_start, ul);
        process_line(config, line, &mut storage, &mut results);
    }
    proof {
        assert(data@.subrange(0, ul as int) =~= data@);
        if ul > 0 && data@[ul - 1] != '\n' {
            assert(data@.last() == data@[ul - 1]);
        }
    }
    results
}

/// Run one line through the pipeline: tokenize, resolve aliases, bind
/// variables, rewrite by rules, normalize, parse and interpret. The line's
/// tree is stored even when it fails; its result is appended either way.
fn process_line(
    config: &crate::config::Config,
    line: &str,
    storage: &mut Storage,
    results: &mut Vec<Result<(Vec<Token>, AstType), String>>,
)
    requires
        crate::compiler::rates_wf(config.currency_rate@),
        crate::compiler::storage_wf(*old(storage)),
    ensures
        crate::compiler::storage_wf(*final(storage)),
        final(results)@.len() == old(results)@.len() + 1,
        final(storage).asts@.len() == old(storage).asts@.len() + 1,
        forall|j: int|
            0 <= j < old(results)@.len() ==> final(results)@[j] == old(results)@[j],
        spec_result_ok(final(results)@[old(results)@.len() as int]),
        line@.len() == 0 ==> spec_empty_line_result(
            final(results)@[old(results)@.len() as int],
        ) && final(storage).asts@.last() == AstType::Empty,
{
    if line.unicode_len() == 0 {
        storage.asts.push(AstType::Empty);
        results.push(Ok((Vec::new(), AstType::Empty)));
        return ;
    }
    let mut t = crate::tokinizer::Tokinizer::new(line);
    t.tokinize_with_regex(config);
    t.apply_aliases(config);
    t.update_for_variable(storage);
    let original_tokens = token_generator(&t.token_infos);
    t.apply_rules(config);
    let mut tokens = token_generator(&t.token_infos);
    token_cleaner(&mut tokens);
    missing_token_adder(&mut tokens);
    let mut token_types: Vec<TokenType> = Vec::new();
    let mut k: usize = 0;
    while k < tokens.len()
        invariant
            forall|j: int| 0 <= j < token_types@.len() ==> token_type_wf(#[trigger] token_types@[j]),
        decreases tokens@.len() - k,
    {
        let tt = dup_token_type(&tokens[k].token);
        if crate::tokinizer::atom_wf_check(&tt) {
            token_types.push(tt);
        }
        k = k + 1;
    }
    let mut parser = crate::syntax::SyntaxParser::new(token_types);
    match parser.parse() {
        Ok(ast) => {
            match crate::compiler::Interpreter::execute(config, &ast, storage) {
                Ok(value) => {
                    results.push(Ok((original_tokens, value)));
                },
                Err(error) => {
                    results.push(Err(error));
                },
            }
            storage.asts.push(ast);
        },
        Err(error) => {
            storage.asts.push(AstType::Empty);
            results.push(Err(error));
        },
    }
}

/// A faithful copy of one token.
pub fn dup_token(t: &Token) -> (r: Token)
    ensures
        r.start == t.start,
        r.end == t.end,
        r.is_temp == t.is_temp,
        tt_eqv(r.token, t.token),
        token_type_wf(t.token) ==> token_type_wf(r.token),
        spec_is_text(*t) == spec_is_text(r),
        spec_is_op(*t) == spec_is_op(r),
        spec_is_eq(*t) == spec_is_eq(r),
    {
    Token { start: t.start, end: t.end, token: dup_token_type(&t.token), is_temp: t.is_temp }
}

} // verus!
