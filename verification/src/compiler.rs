//! The type-directed interpreter.
//!
//! Binary dispatch follows the lattice `Money > Date > Time > Duration >
//! Number`; percents combine with the scalar beside them; division by zero
//! yields zero; money converts into the right operand's currency through the
//! exchange-rate table.

use vstd::prelude::*;
use crate::rat::{Rat, spec_add, spec_sub, spec_mul, spec_div, iabs};
use crate::types::{AstType, ast_wf, spec_is_value, value_eqv, dup_value};
use crate::executer::{Storage, VariableInfo};
use crate::datetime::{
    ClockTime,
    SimpleDate,
    SignedDuration,
    DurationUnit,
    spec_days_in_month,
    days_in_month,
    shift_days,
};
use crate::config::{Config, CurrencyRate, spec_rate, find_rate};

verus! {

/// The evaluator over typed syntax trees.
pub struct Interpreter;

/// Every stored variable value is a well-formed plain value.
pub open spec fn storage_wf(s: Storage) -> bool {
    forall|i: int|
        0 <= i < s.variables@.len() ==> ast_wf(#[trigger] s.variables@[i].data) && spec_is_value(
            s.variables@[i].data,
        )
}

/// Follow a variable reference one level; other trees pass through.
pub open spec fn spec_deref(vars: Seq<VariableInfo>, a: AstType) -> AstType {
    match a {
        AstType::Variable(i) => if i < vars.len() {
            vars[i as int].data
        } else {
            AstType::Empty
        },
        _ => a,
    }
}

/// The percent an operand holds, as a fraction pair.
pub open spec fn spec_as_percent(vars: Seq<VariableInfo>, a: AstType) -> Option<(int, int)> {
    match spec_deref(vars, a) {
        AstType::Percent(p) => Some((p.n(), p.d())),
        _ => None,
    }
}

/// The plain number an operand holds, as a fraction pair.
pub open spec fn spec_as_number(vars: Seq<VariableInfo>, a: AstType) -> Option<(int, int)> {
    match spec_deref(vars, a) {
        AstType::Number(n) => Some((n.n(), n.d())),
        _ => None,
    }
}

/// The money price an operand holds, as a fraction pair.
pub open spec fn spec_as_money_price(vars: Seq<VariableInfo>, a: AstType) -> Option<(int, int)> {
    match spec_deref(vars, a) {
        AstType::Money(p, _) => Some((p.n(), p.d())),
        _ => None,
    }
}

/// The currency an operand carries.
pub open spec fn spec_as_currency(vars: Seq<VariableInfo>, a: AstType) -> Option<Seq<char>> {
    match spec_deref(vars, a) {
        AstType::Money(_, c) => Some(c@),
        _ => None,
    }
}

/// The leading figure of a duration: years, else months within a year,
/// else days, else hours within a day, else minutes within an hour, else
/// seconds.
pub open spec fn spec_high_duration(secs: int) -> int {
    let s = iabs(secs);
    if s >= 31536000 {
        s / 31536000
    } else if s >= 2592000 {
        (s / 2592000) % 30
    } else if s >= 86400 {
        s / 86400
    } else if s >= 3600 {
        (s / 3600) % 24
    } else if s >= 60 {
        (s / 60) % 60
    } else {
        s
    }
}

/// What an operand contributes to plain arithmetic: a number, a price, a
/// percent figure, or a duration's leading figure.
pub open spec fn spec_as_scalar(vars: Seq<VariableInfo>, a: AstType) -> Option<(int, int)> {
    match spec_deref(vars, a) {
        AstType::Number(n) => Some((n.n(), n.d())),
        AstType::Money(p, _) => Some((p.n(), p.d())),
        AstType::Percent(p) => Some((p.n(), p.d())),
        AstType::Duration(d, _, _) => Some((spec_high_duration(d.secs()), 1)),
        _ => None,
    }
}

/// The first percent among the operands, left first.
pub open spec fn spec_first_percent(vars: Seq<VariableInfo>, l: AstType, r: AstType) -> Option<
    (int, int),
> {
    match spec_as_percent(vars, l) {
        Some(p) => Some(p),
        None => spec_as_percent(vars, r),
    }
}

/// The first plain number among the operands, left first.
pub open spec fn spec_first_number(vars: Seq<VariableInfo>, l: AstType, r: AstType) -> Option<
    (int, int),
> {
    match spec_as_number(vars, l) {
        Some(n) => Some(n),
        None => spec_as_number(vars, r),
    }
}

/// The first money price among the operands, left first.
pub open spec fn spec_first_money(vars: Seq<VariableInfo>, l: AstType, r: AstType) -> Option<
    (int, int),
> {
    match spec_as_money_price(vars, l) {
        Some(n) => Some(n),
        None => spec_as_money_price(vars, r),
    }
}

/// Plain arithmetic over fraction pairs; division silences a zero divisor.
pub open spec fn spec_arith(op: char, a: (int, int), b: (int, int)) -> Option<(int, int)> {
    if op == '+' {
        Some(spec_add(a.0, a.1, b.0, b.1))
    } else if op == '-' {
        Some(spec_sub(a.0, a.1, b.0, b.1))
    } else if op == '*' {
        Some(spec_mul(a.0, a.1, b.0, b.1))
    } else if op == '/' {
        Some(spec_div(a.0, a.1, b.0, b.1))
    } else {
        None
    }
}

/// Percent arithmetic: the percent's share of the scalar is `n * p / 100`,
/// and the operator combines the scalar with that share.
pub open spec fn spec_pct(op: char, n: (int, int), p: (int, int)) -> Option<(int, int)> {
    let share = {
        let prod = spec_mul(n.0, n.1, p.0, p.1);
        spec_div(prod.0, prod.1, 100, 1)
    };
    if op == '+' {
        Some(spec_add(n.0, n.1, share.0, share.1))
    } else if op == '-' {
        Some(spec_sub(n.0, n.1, share.0, share.1))
    } else if op == '*' {
        Some(spec_mul(n.0, n.1, share.0, share.1))
    } else if op == '/' {
        Some(spec_div(n.0, n.1, share.0, share.1))
    } else {
        None
    }
}

/// The value `calculate_number` owes: percent arithmetic when a percent is
/// present beside a plain number, otherwise plain arithmetic over scalars.
pub open spec fn spec_num_outcome(
    vars: Seq<VariableInfo>,
    op: char,
    l: AstType,
    r: AstType,
) -> Option<(int, int)> {
    match spec_first_percent(vars, l, r) {
        Some(p) => match spec_first_number(vars, l, r) {
            Some(n) => spec_pct(op, n, p),
            None => None,
        },
        None => match (spec_as_scalar(vars, l), spec_as_scalar(vars, r)) {
            (Some(a), Some(b)) => spec_arith(op, a, b),
            _ => None,
        },
    }
}

impl Interpreter {
    /// Read a variable's value; an index outside the table reads as the
    /// empty value.
    pub fn executer_variable(storage: &Storage, index: usize) -> (r: AstType)
        requires
            storage_wf(*storage),
        ensures
            ast_wf(r),
            spec_is_value(r),
            value_eqv(r, spec_deref(storage.variables@, AstType::Variable(index))),
    {
        if index < storage.variables.len() {
            dup_value(&storage.variables[index].data)
        } else {
            AstType::Empty
        }
    }

    /// Follow one level of variable indirection on an operand.
    fn deref_operand(storage: &Storage, a: &AstType) -> (r: AstType)
        requires
            storage_wf(*storage),
            ast_wf(*a),
        ensures
            ast_wf(r),
            spec_is_value(r),
            spec_is_value(spec_deref(storage.variables@, *a)) ==> value_eqv(
                r,
                spec_deref(storage.variables@, *a),
            ),
            !spec_is_value(spec_deref(storage.variables@, *a)) ==> r == AstType::Empty,
    {
        match a {
            AstType::Variable(i) => Self::executer_variable(storage, *i),
            _ => dup_value(a),
        }
    }

    /// The first percent among the operands.
    fn get_first_percent(storage: &Storage, left: &AstType, right: &AstType) -> (r: Option<Rat>)
        requires
            storage_wf(*storage),
            ast_wf(*left),
            ast_wf(*right),
        ensures
            match r {
                Some(q) => q.wf() && spec_first_percent(storage.variables@, *left, *right)
                    == Some((q.n(), q.d())),
                None => spec_first_percent(storage.variables@, *left, *right) is None,
            },
    {
        let dl = Self::deref_operand(storage, left);
        if let AstType::Percent(p) = dl {
            return Some(p);
        }
        let dr = Self::deref_operand(storage, right);
        if let AstType::Percent(p) = dr {
            return Some(p);
        }
        None
    }

    /// The first plain number among the operands.
    fn get_first_number(storage: &Storage, left: &AstType, right: &AstType) -> (r: Option<Rat>)
        requires
            storage_wf(*storage),
            ast_wf(*left),
            ast_wf(*right),
        ensures
            match r {
                Some(q) => q.wf() && spec_first_number(storage.variables@, *left, *right)
                    == Some((q.n(), q.d())),
                None => spec_first_number(storage.variables@, *left, *right) is None,
            },
    {
        let dl = Self::deref_operand(storage, left);
        if let AstType::Number(n) = dl {
            return Some(n);
        }
        let dr = Self::deref_operand(storage, right);
        if let AstType::Number(n) = dr {
            return Some(n);
        }
        None
    }

    /// The first money price among the operands.
    fn get_first_money(storage: &Storage, left: &AstType, right: &AstType) -> (r: Option<Rat>)
        requires
            storage_wf(*storage),
            ast_wf(*left),
            ast_wf(*right),
        ensures
            match r {
                Some(q) => q.wf() && spec_first_money(storage.variables@, *left, *right)
                    == Some((q.n(), q.d())),
                None => spec_first_money(storage.variables@, *left, *right) is None,
            },
    {
        let dl = Self::deref_operand(storage, left);
        if let AstType::Money(p, _) = dl {
            return Some(p);
        }
        let dr = Self::deref_operand(storage, right);
        if let AstType::Money(p, _) = dr {
            return Some(p);
        }
        None
    }

    /// The leading figure of a duration, as in `spec_high_duration`.
    fn get_high_duration_number(duration: SignedDuration) -> (r: i64)
        requires
            duration.wf(),
        ensures
            r as int == spec_high_duration(duration.secs()),
            r >= 0,
    {
        let duration_info = duration.abs_seconds();
        if duration_info >= crate::datetime::YEAR {
            return duration_info / crate::datetime::YEAR;
        }
        if duration_info >= crate::datetime::MONTH {
            return (duration_info / crate::datetime::MONTH) % 30;
        }
        if duration_info >= crate::datetime::DAY {
            return duration_info / crate::datetime::DAY;
        }
        if duration_info >= crate::datetime::HOUR {
            return (duration_info / crate::datetime::HOUR) % 24;
        }
        if duration_info >= crate::datetime::MINUTE {
            return (duration_info / crate::datetime::MINUTE) % 60;
        }
        duration_info
    }

    /// What an operand contributes to plain arithmetic.
    fn get_scalar(storage: &Storage, a: &AstType) -> (r: Option<Rat>)
        requires
            storage_wf(*storage),
            ast_wf(*a),
        ensures
            match r {
                Some(q) => q.wf() && spec_as_scalar(storage.variables@, *a) == Some(
                    (q.n(), q.d()),
                ),
                None => spec_as_scalar(storage.variables@, *a) is None,
            },
    {
        let d = Self::deref_operand(storage, a);
        match d {
            AstType::Number(n) => Some(n),
            AstType::Money(p, _) => Some(p),
            AstType::Percent(p) => Some(p),
            AstType::Duration(dur, _, _) => Some(Rat::from_i64(Self::get_high_duration_number(dur))),
            _ => None,
        }
    }

    /// A division whose degenerate cases (zero divisor, and results out of
    /// range) yield zero.
    fn do_divition(left: Rat, right: Rat) -> (r: Rat)
        requires
            left.wf(),
            right.wf(),
        ensures
            r.wf(),
            (r.n(), r.d()) == spec_div(left.n(), left.d(), right.n(), right.d()),
    {
        left.div(right)
    }

    /// Plain arithmetic on two scalars.
    fn arith(op: char, a: Rat, b: Rat) -> (r: Option<Rat>)
        requires
            a.wf(),
            b.wf(),
        ensures
            match r {
                Some(q) => q.wf() && spec_arith(op, (a.n(), a.d()), (b.n(), b.d())) == Some(
                    (q.n(), q.d()),
                ),
                None => spec_arith(op, (a.n(), a.d()), (b.n(), b.d())) is None,
            },
    {
        if op == '+' {
            Some(a.add(b))
        } else if op == '-' {
            Some(a.sub(b))
        } else if op == '*' {
            Some(a.mul(b))
        } else if op == '/' {
            Some(Self::do_divition(a, b))
        } else {
            None
        }
    }

    /// Percent arithmetic on a scalar and a percent.
    fn pct_arith(op: char, n: Rat, p: Rat) -> (r: Option<Rat>)
        requires
            n.wf(),
            p.wf(),
        ensures
            match r {
                Some(q) => q.wf() && spec_pct(op, (n.n(), n.d()), (p.n(), p.d())) == Some(
                    (q.n(), q.d()),
                ),
                None => spec_pct(op, (n.n(), n.d()), (p.n(), p.d())) is None,
            },
    {
        let hundred = Rat::from_i64(100);
        let share = Self::do_divition(n.mul(p), hundred);
        if op == '+' {
            Some(n.add(share))
        } else if op == '-' {
            Some(n.sub(share))
        } else if op == '*' {
            Some(n.mul(share))
        } else if op == '/' {
            Some(Self::do_divition(n, share))
        } else {
            None
        }
    }

    /// Combine two scalar operands: percent arithmetic when a percent stands
    /// beside a plain number, plain arithmetic otherwise.
    pub fn calculate_number(storage: &Storage, operator: char, left: &AstType, right: &AstType) -> (r:
        Result<AstType, String>)
        requires
            storage_wf(*storage),
            ast_wf(*left),
            ast_wf(*right),
        ensures
            match spec_num_outcome(storage.variables@, operator, *left, *right) {
                Some(pair) => (r matches Ok(v) && v matches AstType::Number(q) && (q.n(), q.d())
                    == pair && ast_wf(v)),
                None => r is Err,
            },
    {
        match Self::get_first_percent(storage, left, right) {
            Some(percent) => {
                let number = match Self::get_first_number(storage, left, right) {
                    Some(n) => n,
                    None => {
                        return Err("Number information not valid".to_owned());
                    },
                };
                match Self::pct_arith(operator, number, percent) {
                    Some(q) => Ok(AstType::Number(q)),
                    None => Err("Unknown operator".to_owned()),
                }
            },
            None => {
                let a = match Self::get_scalar(storage, left) {
                    Some(v) => v,
                    None => {
                        return Err("Unknown calculation".to_owned());
                    },
                };
                let b = match Self::get_scalar(storage, right) {
                    Some(v) => v,
                    None => {
                        return Err("Unknown calculation".to_owned());
                    },
                };
                match Self::arith(operator, a, b) {
                    Some(q) => Ok(AstType::Number(q)),
                    None => Err("Unknown operator".to_owned()),
                }
            },
        }
    }

    /// Identity on `+`; negation of a number, percent or price on `-`;
    /// anything else is a syntax error.
    pub fn executer_unary(operator: char, computed: &AstType) -> (r: Result<AstType, String>)
        requires
            ast_wf(*computed),
            spec_is_value(*computed),
        ensures
            operator == '+' ==> (r matches Ok(v) && value_eqv(v, *computed) && ast_wf(v)),
            operator == '-' ==> match *computed {
                AstType::Number(q) => (r matches Ok(v) && v matches AstType::Number(nq) && nq.n()
                    == -q.n() && nq.d() == q.d() && ast_wf(v)),
                AstType::Percent(q) => (r matches Ok(v) && v matches AstType::Percent(nq) && nq.n()
                    == -q.n() && nq.d() == q.d() && ast_wf(v)),
                AstType::Money(q, _) => (r matches Ok(v) && v matches AstType::Money(nq, c) && nq.n()
                    == -q.n() && nq.d() == q.d() && c@ == spec_money_currency(*computed) && ast_wf(
                    v,
                )),
                _ => r is Err,
            },
            operator != '+' && operator != '-' ==> r is Err,
            spec_is_value(*computed) && (operator == '+' || operator == '-') && !(*computed
                matches AstType::Empty) ==> (r is Ok <==> (operator == '+' || *computed
                matches AstType::Number(_) || *computed matches AstType::Percent(_) || *computed
                matches AstType::Money(_, _))),
    {
        if operator == '+' {
            return Ok(dup_value(computed));
        }
        if operator != '-' {
            return Err("Syntax error".to_owned());
        }
        match computed {
            AstType::Money(money, currency) => Ok(AstType::Money(money.neg(), currency.clone())),
            AstType::Percent(percent) => Ok(AstType::Percent(percent.neg())),
            AstType::Number(number) => Ok(AstType::Number(number.neg())),
            _ => Err("Syntax error".to_owned()),
        }
    }
}

/// The currency characters of a money value; empty otherwise.
pub open spec fn spec_money_currency(a: AstType) -> Seq<char> {
    match a {
        AstType::Money(_, c) => c@,
        _ => Seq::empty(),
    }
}

/// Which handler binary dispatch picks.
#[derive(Clone, Copy, Debug, PartialEq, Eq, Structural)]
pub enum DispatchKind {
    Money,
    Date,
    Time,
    Duration,
    Number,
    Unknown,
}

/// The dispatch order of the type lattice: money first, then dates, times,
/// durations, and plain numbers.
pub open spec fn spec_dispatch(l: AstType, r: AstType) -> DispatchKind {
    if l matches AstType::Money(_, _) || r matches AstType::Money(_, _) {
        DispatchKind::Money
    } else if l matches AstType::Date(_) || r matches AstType::Date(_) {
        DispatchKind::Date
    } else if l matches AstType::Time(_) || r matches AstType::Time(_) {
        DispatchKind::Time
    } else if l matches AstType::Duration(_, _, _) || r matches AstType::Duration(_, _, _) {
        DispatchKind::Duration
    } else if l matches AstType::Number(_) || r matches AstType::Number(_) {
        DispatchKind::Number
    } else {
        DispatchKind::Unknown
    }
}

/// The variant tag of a value, the only thing dispatch may depend on.
#[derive(Clone, Copy, Debug, PartialEq, Eq, Structural)]
pub enum AstKind {
    Empty,
    Number,
    Percent,
    Money,
    Time,
    Date,
    Duration,
    Month,
    Variable,
    Assignment,
    Binary,
    PrefixUnary,
}

/// The variant tag of a tree.
pub open spec fn spec_ast_kind(a: AstType) -> AstKind {
    match a {
        AstType::Empty => AstKind::Empty,
        AstType::Number(_) => AstKind::Number,
        AstType::Percent(_) => AstKind::Percent,
        AstType::Money(_, _) => AstKind::Money,
        AstType::Time(_) => AstKind::Time,
        AstType::Date(_) => AstKind::Date,
        AstType::Duration(_, _, _) => AstKind::Duration,
        AstType::Month(_) => AstKind::Month,
        AstType::Variable(_) => AstKind::Variable,
        AstType::Assignment(_, _) => AstKind::Assignment,
        AstType::Binary(_, _, _) => AstKind::Binary,
        AstType::PrefixUnary(_, _) => AstKind::PrefixUnary,
    }
}

/// Operator dispatch is deterministic in the operand types: operands of the
/// same variants always pick the same handler.
pub proof fn lemma_dispatch_deterministic(l1: AstType, r1: AstType, l2: AstType, r2: AstType)
    requires
        spec_ast_kind(l1) == spec_ast_kind(l2),
        spec_ast_kind(r1) == spec_ast_kind(r2),
    ensures
        spec_dispatch(l1, r1) == spec_dispatch(l2, r2),
{
}

/// Operands that denote the same plain values read alike through every
/// operand helper, so dispatch and all handler outcomes agree on them.
pub proof fn lemma_value_helpers_eqv(vars: Seq<VariableInfo>, a1: AstType, a2: AstType)
    requires
        spec_is_value(a1),
        value_eqv(a1, a2),
    ensures
        spec_ast_kind(a1) == spec_ast_kind(a2),
        spec_as_percent(vars, a1) == spec_as_percent(vars, a2),
        spec_as_number(vars, a1) == spec_as_number(vars, a2),
        spec_as_money_price(vars, a1) == spec_as_money_price(vars, a2),
        spec_as_currency(vars, a1) == spec_as_currency(vars, a2),
        spec_as_scalar(vars, a1) == spec_as_scalar(vars, a2),
        spec_as_duration(vars, a1) == spec_as_duration(vars, a2),
        spec_time_parts(vars, a1) == spec_time_parts(vars, a2),
        spec_deref(vars, a1) matches AstType::Date(x) ==> spec_deref(vars, a2) == AstType::Date(
            x,
        ),
        !(spec_deref(vars, a1) matches AstType::Date(_)) ==> !(spec_deref(
            vars,
            a2,
        ) matches AstType::Date(_)),
{
}

/// The binary contract carries over between operands that denote the same
/// plain values.
pub proof fn lemma_binary_contract_eqv(
    rates: Seq<CurrencyRate>,
    vars: Seq<VariableInfo>,
    operator: char,
    l1: AstType,
    r1: AstType,
    l2: AstType,
    r2: AstType,
    res: Result<AstType, String>,
)
    requires
        spec_is_value(l1),
        spec_is_value(r1),
        value_eqv(l1, l2),
        value_eqv(r1, r2),
        spec_binary_contract(rates, vars, operator, l1, r1, res),
    ensures
        spec_binary_contract(rates, vars, operator, l2, r2, res),
{
    lemma_value_helpers_eqv(vars, l1, l2);
    lemma_value_helpers_eqv(vars, r1, r2);
    lemma_dispatch_deterministic(l1, r1, l2, r2);
    assert(spec_first_percent(vars, l1, r1) == spec_first_percent(vars, l2, r2));
    assert(spec_first_number(vars, l1, r1) == spec_first_number(vars, l2, r2));
    assert(spec_first_money(vars, l1, r1) == spec_first_money(vars, l2, r2));
    assert(spec_target_currency(vars, l1, r1) == spec_target_currency(vars, l2, r2));
    assert(spec_num_outcome(vars, operator, l1, r1) == spec_num_outcome(vars, operator, l2, r2));
    assert(spec_money_outcome(rates, vars, operator, l1, r1) == spec_money_outcome(
        rates,
        vars,
        operator,
        l2,
        r2,
    ));
    assert(spec_time_outcome(vars, operator, l1, r1) == spec_time_outcome(
        vars,
        operator,
        l2,
        r2,
    ));
}

/// Every exchange rate in a table is well-formed.
pub open spec fn rates_wf(rates: Seq<CurrencyRate>) -> bool {
    forall|i: int| 0 <= i < rates.len() ==> (#[trigger] rates[i].rate).wf()
}

/// The target currency of a money operation: the right operand's when it is
/// money, else the left operand's.
pub open spec fn spec_target_currency(vars: Seq<VariableInfo>, l: AstType, r: AstType) -> Option<
    Seq<char>,
> {
    match spec_as_currency(vars, r) {
        Some(c) => Some(c),
        None => spec_as_currency(vars, l),
    }
}

/// The value `calculate_money` owes: percent arithmetic on the first price,
/// or conversion of the left price into the right currency followed by
/// plain arithmetic, or plain arithmetic on scalars priced in the target
/// currency.
pub open spec fn spec_money_outcome(
    rates: Seq<CurrencyRate>,
    vars: Seq<VariableInfo>,
    op: char,
    l: AstType,
    r: AstType,
) -> Option<((int, int), Seq<char>)> {
    match spec_target_currency(vars, l, r) {
        None => None,
        Some(target) => match spec_first_percent(vars, l, r) {
            Some(p) => match spec_first_money(vars, l, r) {
                Some(pm) => match spec_pct(op, pm, p) {
                    Some(pair) => Some((pair, target)),
                    None => None,
                },
                None => None,
            },
            None => match (
                spec_as_money_price(vars, l),
                spec_as_currency(vars, l),
                spec_as_money_price(vars, r),
                spec_as_currency(vars, r),
            ) {
                (Some(lp), Some(lc), Some(rp), Some(rc)) => match (
                    spec_rate(rates, lc),
                    spec_rate(rates, rc),
                ) {
                    (Some(rl), Some(rr)) => {
                        let scaled = spec_mul(lp.0, lp.1, rl.n(), rl.d());
                        let conv = spec_div(scaled.0, scaled.1, rr.n(), rr.d());
                        match spec_arith(op, conv, rp) {
                            Some(pair) => Some((pair, rc)),
                            None => None,
                        }
                    },
                    _ => None,
                },
                _ => match (spec_as_scalar(vars, l), spec_as_scalar(vars, r)) {
                    (Some(a), Some(b)) => match spec_arith(op, a, b) {
                        Some(pair) => Some((pair, target)),
                        None => None,
                    },
                    _ => None,
                },
            },
        },
    }
}

/// The money handler's error messages are pairwise told apart from the
/// missing-currency message.
proof fn lemma_money_messages()
    ensures
        ("Currency rate not found"@) != ("Currency information not valid"@),
        ("Unknown calculation"@) != ("Currency information not valid"@),
        ("Unknown operator"@) != ("Currency information not valid"@),
        ("Price information not valid"@) != ("Currency information not valid"@),
{
    reveal_strlit("Currency information not valid");
    reveal_strlit("Price information not valid");
    reveal_strlit("Unknown operator");
    reveal_strlit("Unknown calculation");
    reveal_strlit("Currency rate not found");
    assert(("Currency information not valid"@).len() == 30);
    assert(("Currency rate not found"@).len() == 23);
    assert(("Unknown calculation"@).len() == 19);
    assert(("Unknown operator"@).len() == 16);
    assert(("Price information not valid"@).len() == 27);
}

/// A time-like operand: its seconds from midnight, and whether it was a
/// negative duration.
pub open spec fn spec_time_parts(vars: Seq<VariableInfo>, a: AstType) -> Option<(int, bool)> {
    match spec_deref(vars, a) {
        AstType::Time(t) => Some((t.secs(), false)),
        AstType::Duration(d, _, _) => Some((iabs(d.secs()) % 86400, d.secs() < 0)),
        _ => None,
    }
}

/// The value `calculate_time` owes: the left time moved by the right
/// operand's seconds from midnight, modulo one day; a negative right
/// duration always moves backward.
pub open spec fn spec_time_outcome(vars: Seq<VariableInfo>, op: char, l: AstType, r: AstType) -> Option<
    int,
> {
    match (spec_time_parts(vars, l), spec_time_parts(vars, r)) {
        (Some((ls, _)), Some((rs, rneg))) => {
            if rneg {
                Some((ls - rs) % 86400)
            } else if op == '+' {
                Some((ls + rs) % 86400)
            } else if op == '-' {
                Some((ls - rs) % 86400)
            } else {
                None
            }
        },
        _ => None,
    }
}

/// The duration an operand holds.
pub open spec fn spec_as_duration(vars: Seq<VariableInfo>, a: AstType) -> Option<int> {
    match spec_deref(vars, a) {
        AstType::Duration(d, _, _) => Some(d.secs()),
        _ => None,
    }
}

/// The month wrap: `delta` months away from month `m` of year `y`.
pub open spec fn spec_month_shift(y: int, m: int, delta: int) -> (int, int) {
    let t = m - 1 + delta;
    (y + t / 12, t % 12 + 1)
}

/// The duration split into years, months and residual days (of thirty-day
/// months and 365-day years): years and months move the calendar fields
/// with wrap-around, the day clamps to the month's length, and the residual
/// days remain for the calendar library.
pub open spec fn spec_date_fields(date: SimpleDate, secs: int, plus: bool) -> (int, int, int, int) {
    let mag = iabs(secs);
    let forward = (plus && secs >= 0) || (!plus && secs < 0);
    let years = mag / 31536000;
    let months = (mag % 31536000) / 2592000;
    let days = ((mag % 31536000) % 2592000) / 86400;
    let sy = if forward {
        date.year + years
    } else {
        date.year - years
    };
    let (y1, m1) = spec_month_shift(
        sy,
        date.month as int,
        if forward {
            months
        } else {
            -months
        },
    );
    let d1 = if date.day as int <= spec_days_in_month(y1, m1) {
        date.day as int
    } else {
        spec_days_in_month(y1, m1)
    };
    (y1, m1, d1, if forward {
        days
    } else {
        -days
    })
}

/// The value `calculate_date` owes: the split fields moved through the
/// calendar library, when the landing year stays in range.
pub open spec fn spec_date_outcome(date: SimpleDate, secs: int, plus: bool) -> Option<
    (int, int, int),
> {
    let f = spec_date_fields(date, secs, plus);
    if -200000 <= f.0 <= 200000 {
        Some(crate::datetime::date_after_days(f.0, f.1, f.2, f.3))
    } else {
        None
    }
}

/// The year the split lands on lies strictly inside the calendar range, so
/// the final day shift (at most a month of days) is sure to succeed.
pub open spec fn spec_date_shift_ready(date: SimpleDate, secs: int, plus: bool) -> bool {
    -199999 <= spec_date_fields(date, secs, plus).0 <= 199999
}

/// Trees that hold only numbers, percents, sums, differences, products,
/// quotients and sign marks: the scalar fragment.
pub open spec fn spec_scalar_only(a: AstType) -> bool
    decreases a,
{
    match a {
        AstType::Number(_) => true,
        AstType::Percent(_) => true,
        AstType::Binary(l, _, r) => spec_scalar_only(*l) && spec_scalar_only(*r),
        AstType::PrefixUnary(_, e) => spec_scalar_only(*e),
        _ => false,
    }
}

/// Trees without assignments leave the variable table untouched.
pub open spec fn spec_no_assign(a: AstType) -> bool
    decreases a,
{
    match a {
        AstType::Assignment(_, _) => false,
        AstType::Binary(l, _, r) => spec_no_assign(*l) && spec_no_assign(*r),
        AstType::PrefixUnary(_, e) => spec_no_assign(*e),
        _ => true,
    }
}

/// A tree that stands directly for an operand: a plain value or a variable
/// reference.
pub open spec fn spec_operand(a: AstType) -> bool {
    spec_is_value(a) || (a matches AstType::Variable(_))
}

/// The mathematical evaluation of a scalar tree: the flag says whether the
/// value is a percent, the pair is the exact rational.
pub open spec fn spec_eval_scalar(a: AstType) -> Option<(bool, (int, int))>
    decreases a,
{
    match a {
        AstType::Number(q) => Some((false, (q.n(), q.d()))),
        AstType::Percent(q) => Some((true, (q.n(), q.d()))),
        AstType::PrefixUnary(op, e) => match spec_eval_scalar(*e) {
            Some((isp, v)) => if op == '+' {
                Some((isp, v))
            } else if op == '-' {
                Some((isp, (-v.0, v.1)))
            } else {
                None
            },
            None => None,
        },
        AstType::Binary(l, op, r) => match (spec_eval_scalar(*l), spec_eval_scalar(*r)) {
            (Some((lp, lv)), Some((rp, rv))) => if lp && rp {
                None
            } else if lp || rp {
                let p = if lp {
                    lv
                } else {
                    rv
                };
                let n = if lp {
                    rv
                } else {
                    lv
                };
                match spec_pct(op, n, p) {
                    Some(pair) => Some((false, pair)),
                    None => None,
                }
            } else {
                match spec_arith(op, lv, rv) {
                    Some(pair) => Some((false, pair)),
                    None => None,
                }
            },
            _ => None,
        },
        _ => None,
    }
}

/// A result value agrees with a scalar evaluation.
pub open spec fn spec_scalar_result(sv: (bool, (int, int)), v: AstType) -> bool {
    if sv.0 {
        v matches AstType::Percent(q) && (q.n(), q.d()) == sv.1
    } else {
        v matches AstType::Number(q) && (q.n(), q.d()) == sv.1
    }
}

impl Interpreter {
    /// The two money operands, prices and currencies.
    fn get_moneys(storage: &Storage, left: &AstType, right: &AstType) -> (r: Option<
        (Rat, String, Rat, String),
    >)
        requires
            storage_wf(*storage),
            ast_wf(*left),
            ast_wf(*right),
        ensures
            match r {
                Some(m) => m.0.wf() && m.2.wf() && spec_as_money_price(
                    storage.variables@,
                    *left,
                ) == Some((m.0.n(), m.0.d())) && spec_as_currency(storage.variables@, *left)
                    == Some(m.1@) && spec_as_money_price(storage.variables@, *right) == Some(
                    (m.2.n(), m.2.d()),
                ) && spec_as_currency(storage.variables@, *right) == Some(m.3@),
                None => spec_as_money_price(storage.variables@, *left) is None
                    || spec_as_money_price(storage.variables@, *right) is None,
            },
    {
        let dl = Self::deref_operand(storage, left);
        let (lp, lc) = match dl {
            AstType::Money(p, c) => (p, c),
            _ => {
                return None;
            },
        };
        let dr = Self::deref_operand(storage, right);
        let (rp, rc) = match dr {
            AstType::Money(p, c) => (p, c),
            _ => {
                return None;
            },
        };
        Some((lp, lc, rp, rc))
    }

    /// The target currency: the right operand's when it is money, else the
    /// left operand's.
    fn detect_target_currency(storage: &Storage, left: &AstType, right: &AstType) -> (r: Option<
        String,
    >)
        requires
            storage_wf(*storage),
            ast_wf(*left),
            ast_wf(*right),
        ensures
            match r {
                Some(c) => spec_target_currency(storage.variables@, *left, *right) == Some(c@),
                None => spec_target_currency(storage.variables@, *left, *right) is None,
            },
    {
        let dr = Self::deref_operand(storage, right);
        if let AstType::Money(_, c) = dr {
            return Some(c);
        }
        let dl = Self::deref_operand(storage, left);
        if let AstType::Money(_, c) = dl {
            return Some(c);
        }
        None
    }

    /// Money arithmetic: pick the target currency, then percent arithmetic,
    /// currency conversion, or plain arithmetic on scalars.
    pub fn calculate_money(
        config: &Config,
        storage: &Storage,
        operator: char,
        left: &AstType,
        right: &AstType,
    ) -> (r: Result<AstType, String>)
        requires
            storage_wf(*storage),
            ast_wf(*left),
            ast_wf(*right),
            rates_wf(config.currency_rate@),
        ensures
            match spec_money_outcome(
                config.currency_rate@,
                storage.variables@,
                operator,
                *left,
                *right,
            ) {
                Some(out) => (r matches Ok(v) && v matches AstType::Money(q, c) && (q.n(), q.d())
                    == out.0 && c@ == out.1 && ast_wf(v)),
                None => r is Err,
            },
            (r matches Err(e) && e@ == "Currency information not valid"@) <==> spec_target_currency(
                storage.variables@,
                *left,
                *right,
            ) is None,
    {
        proof {
            lemma_money_messages();
        }
        let to_currency = match Self::detect_target_currency(storage, left, right) {
            Some(c) => c,
            None => {
                return Err("Currency information not valid".to_owned());
            },
        };
        match Self::get_first_percent(storage, left, right) {
            Some(percent) => {
                let price = match Self::get_first_money(storage, left, right) {
                    Some(p) => p,
                    None => {
                        return Err("Price information not valid".to_owned());
                    },
                };
                match Self::pct_arith(operator, price, percent) {
                    Some(q) => Ok(AstType::Money(q, to_currency)),
                    None => Err("Unknown operator".to_owned()),
                }
            },
            None => {
                match Self::get_moneys(storage, left, right) {
                    Some((lp, lc, rp, rc)) => {
                        let rate_left = match find_rate(&config.currency_rate, &lc) {
                            Some(q) => q,
                            None => {
                                return Err("Currency rate not found".to_owned());
                            },
                        };
                        let rate_right = match find_rate(&config.currency_rate, &rc) {
                            Some(q) => q,
                            None => {
                                return Err("Currency rate not found".to_owned());
                            },
                        };
                        let converted = Self::do_divition(lp.mul(rate_left), rate_right);
                        match Self::arith(operator, converted, rp) {
                            Some(q) => Ok(AstType::Money(q, rc)),
                            None => Err("Unknown operator".to_owned()),
                        }
                    },
                    None => {
                        let a = match Self::get_scalar(storage, left) {
                            Some(v) => v,
                            None => {
                                return Err("Unknown calculation".to_owned());
                            },
                        };
                        let b = match Self::get_scalar(storage, right) {
                            Some(v) => v,
                            None => {
                                return Err("Unknown calculation".to_owned());
                            },
                        };
                        match Self::arith(operator, a, b) {
                            Some(q) => Ok(AstType::Money(q, to_currency)),
                            None => Err("Unknown operator".to_owned()),
                        }
                    },
                }
            },
        }
    }

    /// A duration read as a wall-clock time: its magnitude from midnight,
    /// wrapped modulo one day.
    fn duration_to_time(duration: i64) -> (t: ClockTime)
        requires
            duration != i64::MIN,
        ensures
            t.wf(),
            t.secs() == iabs(duration as int) % 86400,
    {
        let mag: u64 = if duration < 0 {
            ((-(duration + 1)) as u64) + 1
        } else {
            duration as u64
        };
        ClockTime::from_seconds(mag)
    }

    /// The two time-like operands: both as times of day, with the sign of
    /// the right duration.
    fn get_times(storage: &Storage, left: &AstType, right: &AstType) -> (r: Option<
        (ClockTime, ClockTime, bool),
    >)
        requires
            storage_wf(*storage),
            ast_wf(*left),
            ast_wf(*right),
        ensures
            match r {
                Some(m) => m.0.wf() && m.1.wf() && (spec_time_parts(storage.variables@, *left)
                    matches Some(lp) && lp.0 == m.0.secs()) && (spec_time_parts(
                    storage.variables@,
                    *right,
                ) matches Some(rp) && rp.0 == m.1.secs() && rp.1 == m.2),
                None => spec_time_parts(storage.variables@, *left) is None || spec_time_parts(
                    storage.variables@,
                    *right,
                ) is None,
            },
    {
        let dl = Self::deref_operand(storage, left);
        let left_time = match dl {
            AstType::Time(t) => t,
            AstType::Duration(d, _, _) => Self::duration_to_time(d.num_seconds()),
            _ => {
                return None;
            },
        };
        let dr = Self::deref_operand(storage, right);
        let (right_time, is_negative) = match dr {
            AstType::Time(t) => (t, false),
            AstType::Duration(d, _, _) => (Self::duration_to_time(d.num_seconds()), d.is_negative()),
            _ => {
                return None;
            },
        };
        Some((left_time, right_time, is_negative))
    }

    /// Time arithmetic: move the left time by the right operand's seconds
    /// from midnight, modulo one day.
    pub fn calculate_time(storage: &Storage, operator: char, left: &AstType, right: &AstType) -> (r:
        Result<AstType, String>)
        requires
            storage_wf(*storage),
            ast_wf(*left),
            ast_wf(*right),
        ensures
            match spec_time_outcome(storage.variables@, operator, *left, *right) {
                Some(secs) => (r matches Ok(v) && v matches AstType::Time(t) && t.secs() == secs
                    && ast_wf(v)),
                None => r is Err,
            },
    {
        match Self::get_times(storage, left, right) {
            Some((left_time, right_time, is_negative)) => {
                let calculated_right = right_time.num_seconds_from_midnight() as i64;
                if is_negative {
                    return Ok(AstType::Time(left_time.add_seconds(-calculated_right)));
                }
                if operator == '+' {
                    Ok(AstType::Time(left_time.add_seconds(calculated_right)))
                } else if operator == '-' {
                    Ok(AstType::Time(left_time.add_seconds(-calculated_right)))
                } else {
                    Err("Unknown operator".to_owned())
                }
            },
            None => Err("Unknown operator".to_owned()),
        }
    }

    /// The two duration operands.
    fn get_durations(storage: &Storage, left: &AstType, right: &AstType) -> (r: Option<
        (SignedDuration, SignedDuration),
    >)
        requires
            storage_wf(*storage),
            ast_wf(*left),
            ast_wf(*right),
        ensures
            match r {
                Some(m) => m.0.wf() && m.1.wf() && spec_as_duration(storage.variables@, *left)
                    == Some(m.0.secs()) && spec_as_duration(storage.variables@, *right) == Some(
                    m.1.secs(),
                ),
                None => spec_as_duration(storage.variables@, *left) is None || spec_as_duration(
                    storage.variables@,
                    *right,
                ) is None,
            },
    {
        let dl = Self::deref_operand(storage, left);
        let left_time = match dl {
            AstType::Duration(d, _, _) => d,
            _ => {
                return None;
            },
        };
        let dr = Self::deref_operand(storage, right);
        let right_time = match dr {
            AstType::Duration(d, _, _) => d,
            _ => {
                return None;
            },
        };
        Some((left_time, right_time))
    }

    /// Duration arithmetic: the sum or difference of the spans, carried in
    /// seconds.
    pub fn calculate_duration(storage: &Storage, operator: char, left: &AstType, right: &AstType) -> (r:
        Result<AstType, String>)
        requires
            storage_wf(*storage),
            ast_wf(*left),
            ast_wf(*right),
        ensures
            ({
                let dl = spec_as_duration(storage.variables@, *left);
                let dr = spec_as_duration(storage.variables@, *right);
                match (dl, dr) {
                    (Some(a), Some(b)) => {
                        if operator == '+' || operator == '-' {
                            let sum = if operator == '+' {
                                a + b
                            } else {
                                a - b
                            };
                            if (i64::MIN as int) < sum <= i64::MAX as int {
                                r matches Ok(v) && v matches AstType::Duration(d, m, u) && d.secs()
                                    == sum && m as int == sum && u == DurationUnit::Second
                                    && ast_wf(v)
                            } else {
                                r is Err
                            }
                        } else {
                            r is Err
                        }
                    },
                    _ => r is Err,
                }
            }),
    {
        match Self::get_durations(storage, left, right) {
            Some((left_time, right_time)) => {
                let combined = if operator == '+' {
                    left_time.checked_add(right_time)
                } else if operator == '-' {
                    left_time.checked_sub(right_time)
                } else {
                    return Err("Unknown operator".to_owned());
                };
                match combined {
                    Some(d) => Ok(AstType::Duration(d, d.num_seconds(), DurationUnit::Second)),
                    None => Err("Unknown calculation".to_owned()),
                }
            },
            None => Err("Unknown operator".to_owned()),
        }
    }
}

/// Euclidean quotient and remainder of a small figure by twelve.
fn floordiv12(t: i64) -> (r: (i64, i64))
    requires
        -1000000 <= t <= 1000000,
    ensures
        r.0 as int == (t as int) / 12,
        r.1 as int == (t as int) % 12,
{
    if t >= 0 {
        let q = ((t as u64) / 12) as i64;
        let rm = ((t as u64) % 12) as i64;
        (q, rm)
    } else {
        let mt: u64 = (-t) as u64;
        let qm: u64 = (mt + 11) / 12;
        let q: i64 = -(qm as i64);
        let rm: i64 = t + 12 * (qm as i64);
        proof {
            vstd::arithmetic::div_mod::lemma_fundamental_div_mod(mt as int + 11, 12);
            assert(0 <= rm < 12);
            assert(t as int == 12 * (q as int) + rm as int);
            vstd::arithmetic::div_mod::lemma_fundamental_div_mod_converse_div(
                t as int,
                12,
                q as int,
                rm as int,
            );
            vstd::arithmetic::div_mod::lemma_fundamental_div_mod_converse_mod(
                t as int,
                12,
                q as int,
                rm as int,
            );
        }
        (q, rm)
    }
}


/// What binary dispatch owes of its result, by the handler the type lattice
/// picks for the two evaluated operands.
pub open spec fn spec_binary_contract(
    rates: Seq<CurrencyRate>,
    vars: Seq<VariableInfo>,
    operator: char,
    left: AstType,
    right: AstType,
    r: Result<AstType, String>,
) -> bool {
    match spec_dispatch(left, right) {
        DispatchKind::Money => match spec_money_outcome(rates, vars, operator, left, right) {
            Some(out) => (r matches Ok(v) && v matches AstType::Money(q, c) && (q.n(), q.d())
                == out.0 && c@ == out.1),
            None => r is Err,
        },
        DispatchKind::Date => ({
            let ld = spec_deref(vars, left);
            let dr = spec_as_duration(vars, right);
            match ld {
                AstType::Date(date) => match dr {
                    Some(secs) => if operator == '+' || operator == '-' {
                        match spec_date_outcome(date, secs, operator == '+') {
                            Some(triple) => (r matches Ok(v) ==> (v matches AstType::Date(d) && (
                            d.year as int,
                            d.month as int,
                            d.day as int,
                            ) == triple)) && (spec_date_shift_ready(date, secs, operator == '+')
                                ==> r is Ok),
                            None => r is Err,
                        }
                    } else {
                        r is Err
                    },
                    None => r is Err,
                },
                _ => r is Err,
            }
        }),
        DispatchKind::Time => match spec_time_outcome(vars, operator, left, right) {
            Some(secs) => (r matches Ok(v) && v matches AstType::Time(t) && t.secs() == secs),
            None => r is Err,
        },
        DispatchKind::Duration => ({
            let dl = spec_as_duration(vars, left);
            let dr = spec_as_duration(vars, right);
            match (dl, dr) {
                (Some(a), Some(b)) => if operator == '+' || operator == '-' {
                    let sum = if operator == '+' {
                        a + b
                    } else {
                        a - b
                    };
                    if (i64::MIN as int) < sum && sum <= i64::MAX as int {
                        r matches Ok(v) && v matches AstType::Duration(d, m, u) && d.secs() == sum
                            && m as int == sum && u == DurationUnit::Second
                    } else {
                        r is Err
                    }
                } else {
                    r is Err
                },
                _ => r is Err,
            }
        }),
        DispatchKind::Number => match spec_num_outcome(vars, operator, left, right) {
            Some(pair) => (r matches Ok(v) && v matches AstType::Number(q) && (q.n(), q.d())
                == pair),
            None => r is Err,
        },
        DispatchKind::Unknown => r is Err,
    }
}

impl Interpreter {
    /// The date an operand holds.
    fn get_date(storage: &Storage, a: &AstType) -> (r: Option<SimpleDate>)
        requires
            storage_wf(*storage),
            ast_wf(*a),
        ensures
            match r {
                Some(d) => d.wf() && spec_deref(storage.variables@, *a) == AstType::Date(d),
                None => !(spec_deref(storage.variables@, *a) matches AstType::Date(_)),
            },
    {
        let d = Self::deref_operand(storage, a);
        match d {
            AstType::Date(date) => Some(date),
            _ => None,
        }
    }

    /// The duration an operand holds.
    fn get_duration(storage: &Storage, a: &AstType) -> (r: Option<SignedDuration>)
        requires
            storage_wf(*storage),
            ast_wf(*a),
        ensures
            match r {
                Some(d) => d.wf() && spec_as_duration(storage.variables@, *a) == Some(d.secs()),
                None => spec_as_duration(storage.variables@, *a) is None,
            },
    {
        let d = Self::deref_operand(storage, a);
        match d {
            AstType::Duration(dur, _, _) => Some(dur),
            _ => None,
        }
    }

    /// Calendar arithmetic: split the duration into years, months and days,
    /// move the year and month fields with wrap-around, clamp the day to the
    /// month's length, and move the remaining days through the calendar.
    pub fn calculate_date(storage: &Storage, operator: char, left: &AstType, right: &AstType) -> (r:
        Result<AstType, String>)
        requires
            storage_wf(*storage),
            ast_wf(*left),
            ast_wf(*right),
        ensures
            ({
                let ld = spec_deref(storage.variables@, *left);
                let dr = spec_as_duration(storage.variables@, *right);
                match ld {
                    AstType::Date(date) => match dr {
                        Some(secs) => if operator == '+' || operator == '-' {
                            match spec_date_outcome(date, secs, operator == '+') {
                                Some(triple) => (r matches Ok(v) ==> (v matches AstType::Date(d)
                                    && d.wf() && (d.year as int, d.month as int, d.day as int)
                                    == triple)) && (spec_date_shift_ready(
                                    date,
                                    secs,
                                    operator == '+',
                                ) ==> r is Ok),
                                None => r is Err,
                            }
                        } else {
                            r is Err
                        },
                        None => r is Err,
                    },
                    _ => r is Err,
                }
            }),
    {
        let date = match Self::get_date(storage, left) {
            Some(d) => d,
            None => {
                return Err("Unknown operator".to_owned());
            },
        };
        let duration = match Self::get_duration(storage, right) {
            Some(d) => d,
            None => {
                return Err("Unknown operator".to_owned());
            },
        };
        if operator != '+' && operator != '-' {
            return Err("Unknown operator".to_owned());
        }
        let secs = duration.num_seconds();
        let mag: u64 = duration.abs_seconds() as u64;
        let forward: bool = (operator == '+') == (secs >= 0);
        let years: u64 = mag / 31536000;
        let rem1: u64 = mag % 31536000;
        let months: u64 = rem1 / 2592000;
        let days: u64 = (rem1 % 2592000) / 86400;
        proof {
            assert(years as int * 31536000 + rem1 as int == mag as int && years >= 0) by (nonlinear_arith)
                requires
                    years as int == mag as int / 31536000,
                    rem1 as int == mag as int % 31536000,
                    mag >= 0,
            ;
            assert(years as int <= mag as int) by (nonlinear_arith)
                requires
                    years as int * 31536000 + rem1 as int == mag as int,
                    0 <= rem1,
                    0 <= years,
            ;
            assert(months < 13 && days < 30);
        }
        let sy: i64 = if forward {
            date.year as i64 + years as i64
        } else {
            date.year as i64 - years as i64
        };
        let delta_m: i64 = if forward {
            months as i64
        } else {
            -(months as i64)
        };
        let t: i64 = date.month as i64 - 1 + delta_m;
        let (q, rm) = floordiv12(t);
        let y1: i64 = sy + q;
        if y1 < -200000 || y1 > 200000 {
            return Err("Unknown calculation".to_owned());
        }
        let m1: u8 = (rm + 1) as u8;
        let dim = days_in_month(y1 as i32, m1);
        let d1: u8 = if date.day <= dim {
            date.day
        } else {
            dim
        };
        let dd: i64 = if forward {
            days as i64
        } else {
            -(days as i64)
        };
        let shifted = SimpleDate { year: y1 as i32, month: m1, day: d1 };
        match shift_days(shifted, dd) {
            Some(nd) => Ok(AstType::Date(nd)),
            None => Err("Unknown calculation".to_owned()),
        }
    }

    /// Dispatch two evaluated operands by the type lattice and run the
    /// handler it picks.
    pub fn executer_binary(
        config: &Config,
        storage: &Storage,
        left: &AstType,
        operator: char,
        right: &AstType,
    ) -> (r: Result<AstType, String>)
        requires
            storage_wf(*storage),
            ast_wf(*left),
            ast_wf(*right),
            rates_wf(config.currency_rate@),
        ensures
            r matches Ok(v) ==> ast_wf(v) && spec_is_value(v),
            spec_binary_contract(
                config.currency_rate@,
                storage.variables@,
                operator,
                *left,
                *right,
                r,
            ),
    {
        let left_money = match left {
            AstType::Money(_, _) => true,
            _ => false,
        };
        let right_money = match right {
            AstType::Money(_, _) => true,
            _ => false,
        };
        if left_money || right_money {
            return Self::calculate_money(config, storage, operator, left, right);
        }
        let left_date = match left {
            AstType::Date(_) => true,
            _ => false,
        };
        let right_date = match right {
            AstType::Date(_) => true,
            _ => false,
        };
        if left_date || right_date {
            return Self::calculate_date(storage, operator, left, right);
        }
        let left_time = match left {
            AstType::Time(_) => true,
            _ => false,
        };
        let right_time = match right {
            AstType::Time(_) => true,
            _ => false,
        };
        if left_time || right_time {
            return Self::calculate_time(storage, operator, left, right);
        }
        let left_dur = match left {
            AstType::Duration(_, _, _) => true,
            _ => false,
        };
        let right_dur = match right {
            AstType::Duration(_, _, _) => true,
            _ => false,
        };
        if left_dur || right_dur {
            return Self::calculate_duration(storage, operator, left, right);
        }
        let left_num = match left {
            AstType::Number(_) => true,
            _ => false,
        };
        let right_num = match right {
            AstType::Number(_) => true,
            _ => false,
        };
        if left_num || right_num {
            return Self::calculate_number(storage, operator, left, right);
        }
        Err("Unknown calculation".to_owned())
    }

    /// Store an evaluated value in a variable's cell and hand it back.
    pub fn executer_assignment(storage: &mut Storage, index: usize, computed: AstType) -> (r:
        Result<AstType, String>)
        requires
            storage_wf(*old(storage)),
            ast_wf(computed),
            spec_is_value(computed),
        ensures
            storage_wf(*final(storage)),
            final(storage).asts@ == old(storage).asts@,
            final(storage).variables@.len() == old(storage).variables@.len(),
            forall|j: int|
                0 <= j < old(storage).variables@.len() ==> (#[trigger] final(storage).variables@[j]).name == old(storage).variables@[j].name,
            index < old(storage).variables@.len() ==> {
                &&& r matches Ok(v) && value_eqv(v, computed) && value_eqv(
                    final(storage).variables@[index as int].data,
                    computed,
                )
                &&& forall|j: int|
                    0 <= j < old(storage).variables@.len() && j != index ==> #[trigger] final(storage).variables@[j].data == old(storage).variables@[j].data
            },
            index >= old(storage).variables@.len() ==> r is Err && final(storage).variables@ == old(storage).variables@,
    {
        if index >= storage.variables.len() {
            return Err("Unknown calculation".to_owned());
        }
        let stored = dup_value(&computed);
        let mut cell = storage.variables.remove(index);
        cell.data = stored;
        storage.variables.insert(index, cell);
        proof {
            assert(final(storage).variables@ =~= old(storage).variables@.update(
                index as int,
                final(storage).variables@[index as int],
            ));
        }
        Ok(computed)
    }

    /// Evaluate a tree bottom-up: values stand for themselves, variables
    /// read their cell, assignments store, operators dispatch by type.
    pub fn execute_ast(config: &Config, storage: &mut Storage, ast: &AstType) -> (r: Result<
        AstType,
        String,
    >)
        requires
            storage_wf(*old(storage)),
            ast_wf(*ast),
            rates_wf(config.currency_rate@),
        ensures
            storage_wf(*final(storage)),
            final(storage).asts@ == old(storage).asts@,
            final(storage).variables@.len() == old(storage).variables@.len(),
            forall|j: int|
                0 <= j < old(storage).variables@.len() ==> (#[trigger] final(storage).variables@[j]).name == old(storage).variables@[j].name,
            r matches Ok(v) ==> ast_wf(v) && spec_is_value(v),
            spec_is_value(*ast) ==> (r matches Ok(v) && value_eqv(v, *ast)),
            *ast matches AstType::Variable(_) ==> (r matches Ok(v) && value_eqv(
                v,
                spec_deref(old(storage).variables@, *ast),
            )),
            spec_no_assign(*ast) ==> final(storage).variables@ == old(storage).variables@,
            spec_scalar_only(*ast) ==> match spec_eval_scalar(*ast) {
                Some(sv) => (r matches Ok(v) && spec_scalar_result(sv, v)),
                None => r is Err,
            },
            match *ast {
                AstType::Assignment(i, _) => i < old(storage).variables@.len() ==> (r matches Ok(
                    v,
                ) ==> value_eqv(final(storage).variables@[i as int].data, v)),
                _ => true,
            },
            match *ast {
                AstType::Binary(l, op, rr) => (spec_operand(*l) && spec_operand(*rr))
                    ==> spec_binary_contract(
                    config.currency_rate@,
                    old(storage).variables@,
                    op,
                    spec_deref(old(storage).variables@, *l),
                    spec_deref(old(storage).variables@, *rr),
                    r,
                ),
                _ => true,
            },
            match *ast {
                AstType::Assignment(i, e) => (i < old(storage).variables@.len()
                    && spec_scalar_only(*e)) ==> match spec_eval_scalar(*e) {
                    Some(sv) => (r matches Ok(v) && spec_scalar_result(sv, v)),
                    None => r is Err,
                },
                _ => true,
            },
        decreases *ast,
    {
        match ast {
            AstType::Binary(left, op, right) => {
                let cl = match Self::execute_ast(config, storage, left) {
                    Ok(v) => v,
                    Err(e) => {
                        return Err(e);
                    },
                };
                let cr = match Self::execute_ast(config, storage, right) {
                    Ok(v) => v,
                    Err(e) => {
                        return Err(e);
                    },
                };
                let res = Self::executer_binary(config, storage, &cl, *op, &cr);
                proof {
                    if spec_operand(**left) && spec_operand(**right) {
                        lemma_binary_contract_eqv(
                            config.currency_rate@,
                            storage.variables@,
                            *op,
                            cl,
                            cr,
                            spec_deref(storage.variables@, **left),
                            spec_deref(storage.variables@, **right),
                            res,
                        );
                    }
                }
                res
            },
            AstType::Assignment(index, expression) => {
                let computed = match Self::execute_ast(config, storage, expression) {
                    Ok(v) => v,
                    Err(e) => {
                        return Err(e);
                    },
                };
                Self::executer_assignment(storage, *index, computed)
            },
            AstType::Variable(index) => Ok(Self::executer_variable(storage, *index)),
            AstType::PrefixUnary(op, inner) => {
                let computed = match Self::execute_ast(config, storage, inner) {
                    Ok(v) => v,
                    Err(e) => {
                        return Err(e);
                    },
                };
                Self::executer_unary(*op, &computed)
            },
            _ => Ok(dup_value(ast)),
        }
    }

    /// Evaluate one line's tree against the session's storage.
    pub fn execute(config: &Config, ast: &AstType, storage: &mut Storage) -> (r: Result<
        AstType,
        String,
    >)
        requires
            storage_wf(*old(storage)),
            ast_wf(*ast),
            rates_wf(config.currency_rate@),
        ensures
            storage_wf(*final(storage)),
            final(storage).asts@ == old(storage).asts@,
            final(storage).variables@.len() == old(storage).variables@.len(),
            forall|j: int|
                0 <= j < old(storage).variables@.len() ==> (#[trigger] final(storage).variables@[j]).name == old(storage).variables@[j].name,
            r matches Ok(v) ==> ast_wf(v) && spec_is_value(v),
            spec_is_value(*ast) ==> (r matches Ok(v) && value_eqv(v, *ast)),
            *ast matches AstType::Variable(_) ==> (r matches Ok(v) && value_eqv(
                v,
                spec_deref(old(storage).variables@, *ast),
            )),
            spec_no_assign(*ast) ==> final(storage).variables@ == old(storage).variables@,
            spec_scalar_only(*ast) ==> match spec_eval_scalar(*ast) {
                Some(sv) => (r matches Ok(v) && spec_scalar_result(sv, v)),
                None => r is Err,
            },
            match *ast {
                AstType::Assignment(i, _) => i < old(storage).variables@.len() ==> (r matches Ok(
                    v,
                ) ==> value_eqv(final(storage).variables@[i as int].data, v)),
                _ => true,
            },
            match *ast {
                AstType::Binary(l, op, rr) => (spec_operand(*l) && spec_operand(*rr))
                    ==> spec_binary_contract(
                    config.currency_rate@,
                    old(storage).variables@,
                    op,
                    spec_deref(old(storage).variables@, *l),
                    spec_deref(old(storage).variables@, *rr),
                    r,
                ),
                _ => true,
            },
            match *ast {
                AstType::Assignment(i, e) => (i < old(storage).variables@.len()
                    && spec_scalar_only(*e)) ==> match spec_eval_scalar(*e) {
                    Some(sv) => (r matches Ok(v) && spec_scalar_result(sv, v)),
                    None => r is Err,
                },
                _ => true,
            },
    {
        Self::execute_ast(config, storage, ast)
    }
}

} // verus!