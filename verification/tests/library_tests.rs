use smartcalc::rat::Rat;
use smartcalc::types::AstType;
use smartcalc::datetime::{SimpleDate, SignedDuration, DurationUnit, ClockTime, shift_days};
use smartcalc::executer::{Storage, token_cleaner, missing_token_adder};
use smartcalc::types::{Token, TokenType};
use smartcalc::compiler::Interpreter;
use smartcalc::config::initialize;
use smartcalc::syntax::SyntaxParser;

fn rat_f64(q: &Rat) -> f64 {
    let (n, d) = q.parts();
    n as f64 / d as f64
}

#[test]
fn rational_arithmetic_is_exact() {
    let a = Rat::new(1, 3);
    let b = Rat::new(1, 6);
    assert_eq!(a.add(b).parts(), (1, 2));
    assert_eq!(a.sub(b).parts(), (1, 6));
    assert_eq!(a.mul(b).parts(), (1, 18));
    assert_eq!(a.div(b).parts(), (2, 1));
    assert_eq!(a.div(Rat::zero()).parts(), (0, 1));
    assert_eq!(Rat::new(-6, 4).parts(), (-3, 2));
}

#[test]
fn clock_time_wraps_modulo_one_day() {
    let t = ClockTime::from_hms(23, 30, 0);
    assert_eq!(t.add_seconds(3600), ClockTime::from_hms(0, 30, 0));
    assert_eq!(t.add_seconds(-3600), ClockTime::from_hms(22, 30, 0));
    assert_eq!(ClockTime::from_hms(0, 0, 0).add_seconds(-1), ClockTime::from_hms(23, 59, 59));
}

#[test]
fn date_shifts_through_the_calendar() {
    let config = initialize();
    let mut storage = Storage::new();
    let date = SimpleDate::new(2021, 5, 10).unwrap();
    let ten_days = SignedDuration::from_seconds(10 * 86400);
    let ast = AstType::Binary(
        Box::new(AstType::Date(date)),
        '+',
        Box::new(AstType::Duration(ten_days, 10, DurationUnit::Day)),
    );
    match Interpreter::execute(&config, &ast, &mut storage) {
        Ok(AstType::Date(d)) => assert_eq!(d, SimpleDate::new(2021, 5, 20).unwrap()),
        _ => assert!(false),
    }
    // crossing a month boundary
    let date2 = SimpleDate::new(2021, 12, 25).unwrap();
    let ast2 = AstType::Binary(
        Box::new(AstType::Date(date2)),
        '+',
        Box::new(AstType::Duration(ten_days, 10, DurationUnit::Day)),
    );
    match Interpreter::execute(&config, &ast2, &mut storage) {
        Ok(AstType::Date(d)) => assert_eq!(d, SimpleDate::new(2022, 1, 4).unwrap()),
        _ => assert!(false),
    }
}

#[test]
fn month_arithmetic_clamps_the_day() {
    let config = initialize();
    let mut storage = Storage::new();
    let date = SimpleDate::new(2021, 1, 31).unwrap();
    let one_month = SignedDuration::from_seconds(2592000);
    let ast = AstType::Binary(
        Box::new(AstType::Date(date)),
        '+',
        Box::new(AstType::Duration(one_month, 1, DurationUnit::Month)),
    );
    match Interpreter::execute(&config, &ast, &mut storage) {
        Ok(AstType::Date(d)) => assert_eq!(d, SimpleDate::new(2021, 2, 28).unwrap()),
        _ => assert!(false),
    }
}

#[test]
fn month_subtraction_borrows_a_year() {
    let config = initialize();
    let mut storage = Storage::new();
    let date = SimpleDate::new(2020, 3, 15).unwrap();
    let five_months = SignedDuration::from_seconds(5 * 2592000);
    let ast = AstType::Binary(
        Box::new(AstType::Date(date)),
        '-',
        Box::new(AstType::Duration(five_months, 5, DurationUnit::Month)),
    );
    match Interpreter::execute(&config, &ast, &mut storage) {
        Ok(AstType::Date(d)) => assert_eq!(d, SimpleDate::new(2019, 10, 15).unwrap()),
        _ => assert!(false),
    }
}

#[test]
fn money_converts_into_the_right_currency() {
    let config = initialize();
    let mut storage = Storage::new();
    // usd rate 1, try rate 13.5: 27 usd into try is 27 * 1 / 13.5 = 2 try
    let ast = AstType::Binary(
        Box::new(AstType::Money(Rat::from_i64(27), "usd".to_string())),
        '+',
        Box::new(AstType::Money(Rat::zero(), "try".to_string())),
    );
    match Interpreter::execute(&config, &ast, &mut storage) {
        Ok(AstType::Money(price, currency)) => {
            assert_eq!(rat_f64(&price), 2.0);
            assert_eq!(currency, "try".to_string());
        },
        _ => assert!(false),
    }
}

#[test]
fn unary_minus_negates_scalars() {
    let config = initialize();
    let mut storage = Storage::new();
    let ast = AstType::PrefixUnary('-', Box::new(AstType::Number(Rat::new(7, 2))));
    match Interpreter::execute(&config, &ast, &mut storage) {
        Ok(AstType::Number(q)) => assert_eq!(q.parts(), (-7, 2)),
        _ => assert!(false),
    }
    let bad = AstType::PrefixUnary('-', Box::new(AstType::Time(ClockTime::from_hms(1, 0, 0))));
    assert!(Interpreter::execute(&config, &bad, &mut storage).is_err());
}

#[test]
fn assignment_stores_and_returns_the_value() {
    let config = initialize();
    let mut storage = Storage::new();
    storage.variables.push(smartcalc::executer::VariableInfo {
        name: "cost".to_string(),
        data: AstType::Empty,
    });
    let line = AstType::Assignment(
        0,
        Box::new(AstType::Binary(
            Box::new(AstType::Number(Rat::from_i64(120))),
            '+',
            Box::new(AstType::Percent(Rat::from_i64(30))),
        )),
    );
    match Interpreter::execute(&config, &line, &mut storage) {
        Ok(AstType::Number(q)) => assert_eq!(rat_f64(&q), 156.0),
        _ => assert!(false),
    }
    match &storage.variables[0].data {
        AstType::Number(q) => assert_eq!(rat_f64(q), 156.0),
        _ => assert!(false),
    }
    // the same line again stores the same value
    match Interpreter::execute(&config, &line, &mut storage) {
        Ok(AstType::Number(q)) => assert_eq!(rat_f64(&q), 156.0),
        _ => assert!(false),
    }
    match &storage.variables[0].data {
        AstType::Number(q) => assert_eq!(rat_f64(q), 156.0),
        _ => assert!(false),
    }
}

#[test]
fn cleaner_strips_words_after_assignment() {
    let mut tokens = vec![
        Token { start: 0, end: 1, token: TokenType::Variable(0), is_temp: false },
        Token { start: 2, end: 3, token: TokenType::Operator('='), is_temp: false },
        Token { start: 4, end: 7, token: TokenType::Number(Rat::from_i64(5)), is_temp: false },
        Token { start: 8, end: 12, token: TokenType::Text("noise".to_string()), is_temp: false },
    ];
    token_cleaner(&mut tokens);
    assert_eq!(tokens.len(), 3);
    assert_eq!(tokens[2].token, TokenType::Number(Rat::from_i64(5)));
}

#[test]
fn adder_fills_implicit_operators() {
    let mut tokens = vec![
        Token { start: 0, end: 3, token: TokenType::Number(Rat::from_i64(100)), is_temp: false },
        Token { start: 4, end: 7, token: TokenType::Number(Rat::from_i64(200)), is_temp: false },
    ];
    missing_token_adder(&mut tokens);
    assert_eq!(tokens.len(), 3);
    assert_eq!(tokens[1].token, TokenType::Operator('+'));
    assert!(tokens[1].is_temp);
}

#[test]
fn parser_reads_precedence_and_parentheses() {
    let tokens = vec![
        TokenType::Number(Rat::from_i64(2)),
        TokenType::Operator('+'),
        TokenType::Number(Rat::from_i64(3)),
        TokenType::Operator('*'),
        TokenType::Number(Rat::from_i64(4)),
    ];
    let mut parser = SyntaxParser::new(tokens);
    let ast = parser.parse().unwrap();
    match ast {
        AstType::Binary(l, op, _) => {
            assert_eq!(op, '+');
            assert_eq!(*l, AstType::Number(Rat::from_i64(2)));
        },
        _ => assert!(false),
    }
}

#[test]
fn shift_days_moves_through_leap_years() {
    let date = SimpleDate::new(2020, 2, 28).unwrap();
    let next = shift_days(date, 1).unwrap();
    assert_eq!(next, SimpleDate::new(2020, 2, 29).unwrap());
    let after = shift_days(date, 2).unwrap();
    assert_eq!(after, SimpleDate::new(2020, 3, 1).unwrap());
    let back = shift_days(date, -365).unwrap();
    assert_eq!(back, SimpleDate::new(2019, 2, 28).unwrap());
}

#[test]
fn money_error_messages_are_distinct() {
    let config = initialize();
    let storage = Storage::new();
    // no operand carries a currency
    let a = AstType::Number(Rat::from_i64(1));
    let b = AstType::Number(Rat::from_i64(2));
    match Interpreter::calculate_money(&config, &storage, '+', &a, &b) {
        Err(e) => assert_eq!(e, "Currency information not valid"),
        _ => assert!(false),
    }
    // a currency the rate table does not list
    let mut config2 = initialize();
    config2.currency.push(smartcalc::config::CurrencyDef {
        symbol: "xbt".to_string(),
        code: "xbt".to_string(),
    });
    let l = AstType::Money(Rat::from_i64(1), "xbt".to_string());
    let r = AstType::Money(Rat::zero(), "usd".to_string());
    match Interpreter::calculate_money(&config2, &storage, '+', &l, &r) {
        Err(e) => assert_eq!(e, "Currency rate not found"),
        _ => assert!(false),
    }
}
