use smartcalc::config::initialize;
use smartcalc::tokinizer::Tokinizer;
use smartcalc::executer::{token_generator, token_cleaner, Storage};
use smartcalc::types::{TokenType, FieldType};
use smartcalc::rat::Rat;
use smartcalc::datetime::{SignedDuration, DurationUnit};

#[test]
fn alias_test() {
    let config = initialize();
    let mut tokinizer_mut = Tokinizer::new("add 1024 percent");
    tokinizer_mut.tokinize_with_regex(&config);
    tokinizer_mut.apply_aliases(&config);
    let tokens = &tokinizer_mut.token_infos;

    assert_eq!(tokens.len(), 3);
    assert_eq!(tokens[0].start, 0);
    assert_eq!(tokens[0].end, 3);
    assert_eq!(tokens[0].token_type, Some(TokenType::Operator('+')));

    assert_eq!(tokens[1].start, 4);
    assert_eq!(tokens[1].end, 8);
    assert_eq!(tokens[1].token_type, Some(TokenType::Number(Rat::from_i64(1024))));

    assert_eq!(tokens[2].start, 9);
    assert_eq!(tokens[2].end, 16);
}

#[test]
fn field_test() {
    let config = initialize();
    let mut tokinizer_mut = Tokinizer::new("{TEXT:merhaba} {PERCENT:percent}");
    tokinizer_mut.tokinize_with_regex(&config);
    let tokens = &tokinizer_mut.token_infos;

    assert_eq!(tokens.len(), 2);
    assert_eq!(tokens[0].start, 0);
    assert_eq!(tokens[0].end, 14);
    assert_eq!(
        tokens[0].token_type,
        Some(TokenType::Field(FieldType::Text("merhaba".to_string())))
    );
    assert_ne!(
        tokens[0].token_type,
        Some(TokenType::Field(FieldType::Text("test".to_string())))
    );

    assert_eq!(tokens[1].start, 15);
    assert_eq!(tokens[1].end, 32);
    assert_eq!(
        tokens[1].token_type,
        Some(TokenType::Field(FieldType::Percent("percent".to_string())))
    );
}

#[test]
fn timezone_test_1() {
    let config = initialize();
    let mut tokinizer_mut = Tokinizer::new("GMT EST GMT+10:00");
    tokinizer_mut.tokinize_with_regex(&config);
    let tokens = &tokinizer_mut.token_infos;

    assert_eq!(tokens.len(), 3);
    assert_eq!(tokens[0].start, 0);
    assert_eq!(tokens[0].end, 3);
    assert_eq!(tokens[0].token_type, Some(TokenType::Timezone("GMT".to_string(), 0)));

    assert_eq!(tokens[1].start, 4);
    assert_eq!(tokens[1].end, 7);
    assert_eq!(tokens[1].token_type, Some(TokenType::Timezone("EST".to_string(), -300)));

    assert_eq!(tokens[2].start, 8);
    assert_eq!(tokens[2].end, 17);
    assert_eq!(tokens[2].token_type, Some(TokenType::Timezone("GMT+10:00".to_string(), 600)));
}

#[test]
fn timezone_test_2() {
    let config = initialize();
    let mut tokinizer_mut = Tokinizer::new("GMT EST GMT+10:00 GMT-10:00 GMT11:00 GMT+10 GMT-10 GMT11 GMT1");
    tokinizer_mut.tokinize_with_regex(&config);
    let tokens = &tokinizer_mut.token_infos;

    assert_eq!(tokens.len(), 9);
    assert_eq!(tokens[0].start, 0);
    assert_eq!(tokens[0].end, 3);
    assert_eq!(tokens[0].token_type, Some(TokenType::Timezone("GMT".to_string(), 0)));

    assert_eq!(tokens[1].start, 4);
    assert_eq!(tokens[1].end, 7);
    assert_eq!(tokens[1].token_type, Some(TokenType::Timezone("EST".to_string(), -300)));

    assert_eq!(tokens[2].start, 8);
    assert_eq!(tokens[2].end, 17);
    assert_eq!(tokens[2].token_type, Some(TokenType::Timezone("GMT+10:00".to_string(), 600)));

    assert_eq!(tokens[3].start, 18);
    assert_eq!(tokens[3].end, 27);
    assert_eq!(tokens[3].token_type, Some(TokenType::Timezone("GMT-10:00".to_string(), -600)));

    assert_eq!(tokens[4].start, 28);
    assert_eq!(tokens[4].end, 36);
    assert_eq!(tokens[4].token_type, Some(TokenType::Timezone("GMT11:00".to_string(), 660)));

    assert_eq!(tokens[5].start, 37);
    assert_eq!(tokens[5].end, 43);
    assert_eq!(tokens[5].token_type, Some(TokenType::Timezone("GMT+10".to_string(), 600)));

    assert_eq!(tokens[6].start, 44);
    assert_eq!(tokens[6].end, 50);
    assert_eq!(tokens[6].token_type, Some(TokenType::Timezone("GMT-10".to_string(), -600)));

    assert_eq!(tokens[7].start, 51);
    assert_eq!(tokens[7].end, 56);
    assert_eq!(tokens[7].token_type, Some(TokenType::Timezone("GMT11".to_string(), 660)));

    assert_eq!(tokens[8].start, 57);
    assert_eq!(tokens[8].end, 61);
    assert_eq!(tokens[8].token_type, Some(TokenType::Timezone("GMT1".to_string(), 60)));
}

fn rule_tokens(data: &str) -> Vec<smartcalc::types::Token> {
    let config = initialize();
    let mut storage = Storage::new();
    let mut tokinizer_mut = Tokinizer::new(data);
    tokinizer_mut.tokinize_with_regex(&config);
    tokinizer_mut.apply_aliases(&config);
    tokinizer_mut.update_for_variable(&mut storage);
    tokinizer_mut.apply_rules(&config);
    let mut tokens = token_generator(&tokinizer_mut.token_infos);
    token_cleaner(&mut tokens);
    tokens
}

#[test]
fn duration_parse_test_1() {
    let tokens = rule_tokens("10 days");
    assert_eq!(tokens.len(), 1);
    assert_eq!(
        tokens[0].token,
        TokenType::Duration(SignedDuration::from_seconds(864000), 10, DurationUnit::Day)
    );
}

#[test]
fn duration_parse_test_2() {
    let tokens = rule_tokens("10 weeks");
    assert_eq!(tokens.len(), 1);
    assert_eq!(
        tokens[0].token,
        TokenType::Duration(SignedDuration::from_seconds(6048000), 10, DurationUnit::Week)
    );
}

#[test]
fn duration_parse_test_3() {
    let tokens = rule_tokens("60 minutes");
    assert_eq!(tokens.len(), 1);
    assert_eq!(
        tokens[0].token,
        TokenType::Duration(SignedDuration::from_seconds(3600), 60, DurationUnit::Minute)
    );
}

#[test]
fn duration_parse_test_4() {
    let tokens = rule_tokens("5 weeks as seconds");
    assert_eq!(tokens.len(), 1);
    assert_eq!(tokens[0].token, TokenType::Number(Rat::from_i64(3024000)));
}

#[test]
fn duration_parse_test_5() {
    let tokens = rule_tokens("48 weeks as hours");
    assert_eq!(tokens.len(), 1);
    assert_eq!(tokens[0].token, TokenType::Number(Rat::from_i64(8064)));
}

#[test]
fn duration_parse_test_6() {
    let tokens = rule_tokens("11:50 as hour");
    assert_eq!(tokens.len(), 1);
    match &tokens[0].token {
        TokenType::Number(q) => {
            let (n, d) = q.parts();
            assert_eq!(n as f64 / d as f64, 11.833333333333334);
        },
        _ => assert!(false),
    }
}

#[test]
fn duration_parse_accepts_months_and_years() {
    let tokens = rule_tokens("2 months");
    assert_eq!(tokens.len(), 1);
    assert_eq!(
        tokens[0].token,
        TokenType::Duration(SignedDuration::from_seconds(5184000), 2, DurationUnit::Month)
    );
    let tokens2 = rule_tokens("3 years");
    assert_eq!(tokens2.len(), 1);
    assert_eq!(
        tokens2[0].token,
        TokenType::Duration(SignedDuration::from_seconds(94608000), 3, DurationUnit::Year)
    );
}

#[test]
fn one_year_as_days() {
    let tokens = rule_tokens("1 year as days");
    assert_eq!(tokens.len(), 1);
    assert_eq!(tokens[0].token, TokenType::Number(Rat::from_i64(365)));
}
