use smartcalc::config::initialize;
use smartcalc::executer::execute;
use smartcalc::types::AstType;
use smartcalc::datetime::{ClockTime, SignedDuration};

fn as_f64(ast: &AstType) -> f64 {
    match ast {
        AstType::Number(q) => {
            let (n, d) = q.parts();
            n as f64 / d as f64
        },
        _ => panic!("expected a number"),
    }
}

#[test]
fn execute_1() {
    let test_data = "120 + 30% + 10%".to_string();
    let config = initialize();
    let results = execute(&config, &test_data, "en");
    match &results[0].as_ref().unwrap().1 {
        AstType::Number(_) => assert_eq!(as_f64(&results[0].as_ref().unwrap().1), 171.6),
        _ => assert!(false),
    };
}

#[test]
fn execute_2() {
    let test_data = "\nerhan barış = 120\nerhan barış + 120".to_string();
    let config = initialize();
    let results = execute(&config, &test_data, "en");
    assert_eq!(results.len(), 3);
    match &results[1].as_ref().unwrap().1 {
        AstType::Number(_) => assert_eq!(as_f64(&results[1].as_ref().unwrap().1), 120.0),
        _ => assert!(false),
    };
    match &results[2].as_ref().unwrap().1 {
        AstType::Number(_) => assert_eq!(as_f64(&results[2].as_ref().unwrap().1), 240.0),
        _ => assert!(false),
    };
}

#[test]
fn execute_3() {
    let test_data = "\nerhan barış = 120\naysel barış = 200\ntoplam = erhan barış + aysel barış"
        .to_string();
    let config = initialize();
    let results = execute(&config, &test_data, "en");
    assert_eq!(results.len(), 4);
    assert_eq!(as_f64(&results[1].as_ref().unwrap().1), 120.0);
    assert_eq!(as_f64(&results[2].as_ref().unwrap().1), 200.0);
    assert_eq!(as_f64(&results[3].as_ref().unwrap().1), 320.0);
}

#[test]
fn execute_4() {
    let test_data = "erhan barış = 120\naysel barış = 200\ntoplam = erhan barış + test aysel barış"
        .to_string();
    let config = initialize();
    let results = execute(&config, &test_data, "en");
    assert_eq!(results.len(), 3);
    assert_eq!(as_f64(&results[0].as_ref().unwrap().1), 120.0);
    assert_eq!(as_f64(&results[1].as_ref().unwrap().1), 200.0);
    assert_eq!(as_f64(&results[2].as_ref().unwrap().1), 320.0);
}

#[test]
fn execute_5() {
    let test_data = "100 200".to_string();
    let config = initialize();
    let results = execute(&config, &test_data, "en");
    assert_eq!(results.len(), 1);
    assert_eq!(as_f64(&results[0].as_ref().unwrap().1), 300.0);
}

#[test]
fn execute_6() {
    let test_data = "aysel = 10324\nerhan = 5890\nnakit = erhan + aysel\nerhan maaş = 25965,25\naysel maaş = 3500\nsigorta geri ödemesi = 8600\ntoplam nakit = nakit + erhan maaş + aysel maaş + sigorta geri ödemesi".to_string();
    let config = initialize();
    let results = execute(&config, &test_data, "en");
    assert_eq!(results.len(), 7);
    assert_eq!(as_f64(&results[0].as_ref().unwrap().1), 10324.0);
    assert_eq!(as_f64(&results[1].as_ref().unwrap().1), 5890.0);
    assert_eq!(as_f64(&results[2].as_ref().unwrap().1), 16214.0);
    assert_eq!(as_f64(&results[3].as_ref().unwrap().1), 25965.25);
    assert_eq!(as_f64(&results[4].as_ref().unwrap().1), 3500.0);
    assert_eq!(as_f64(&results[5].as_ref().unwrap().1), 8600.0);
    assert_eq!(as_f64(&results[6].as_ref().unwrap().1), 54279.25);
}

#[test]
fn execute_7() {
    let test_data = "tarih = 11:30\ntarih add 12 hour".to_string();
    let config = initialize();
    let results = execute(&config, &test_data, "en");
    assert_eq!(results.len(), 2);
    match &results[0].as_ref().unwrap().1 {
        AstType::Time(time) => assert_eq!(*time, ClockTime::from_hms(11, 30, 0)),
        _ => assert!(false),
    };
    match &results[1].as_ref().unwrap().1 {
        AstType::Time(time) => assert_eq!(*time, ClockTime::from_hms(23, 30, 0)),
        _ => assert!(false),
    };
}

#[test]
fn execute_8() {
    let test_data = "tarih = 11:30\ntarih add -1 hour".to_string();
    let config = initialize();
    let results = execute(&config, &test_data, "en");
    assert_eq!(results.len(), 2);
    match &results[1].as_ref().unwrap().1 {
        AstType::Time(time) => assert_eq!(*time, ClockTime::from_hms(10, 30, 0)),
        _ => assert!(false),
    };
}

#[test]
fn execute_9() {
    let test_data = "2k\n3M\n4G\n5T\n6P\n7Z\n8Y".to_string();
    let config = initialize();
    let results = execute(&config, &test_data, "en");
    assert_eq!(results.len(), 7);
    assert_eq!(as_f64(&results[0].as_ref().unwrap().1), 2_000.0);
    assert_eq!(as_f64(&results[1].as_ref().unwrap().1), 3_000_000.0);
    assert_eq!(as_f64(&results[2].as_ref().unwrap().1), 4_000_000_000.0);
    assert_eq!(as_f64(&results[3].as_ref().unwrap().1), 5_000_000_000_000.0);
    assert_eq!(as_f64(&results[4].as_ref().unwrap().1), 6_000_000_000_000_000.0);
    assert_eq!(as_f64(&results[5].as_ref().unwrap().1), 7_000_000_000_000_000_000.0);
    assert_eq!(as_f64(&results[6].as_ref().unwrap().1), 8_000_000_000_000_000_000_000.0);
}

#[test]
fn execute_10() {
    let test_data = "8 / (45 - 20%)".to_string();
    let config = initialize();
    let results = execute(&config, &test_data, "en");
    assert_eq!(results.len(), 1);
    assert_eq!(as_f64(&results[0].as_ref().unwrap().1), 0.2222222222222222);
}

#[test]
fn execute_11() {
    let test_data = "tarih = 11:30\ntarih add 1 hour 1 minute 30 second".to_string();
    let config = initialize();
    let results = execute(&config, &test_data, "en");
    assert_eq!(results.len(), 2);
    match &results[1].as_ref().unwrap().1 {
        AstType::Time(time) => assert_eq!(*time, ClockTime::from_hms(12, 31, 30)),
        _ => assert!(false),
    };
}

#[test]
fn execute_12() {
    let test_data = "5 hour 21 minute 55 second".to_string();
    let config = initialize();
    let results = execute(&config, &test_data, "en");
    assert_eq!(results.len(), 1);
    match &results[0].as_ref().unwrap().1 {
        AstType::Duration(duration, _, _) => {
            assert_eq!(*duration, SignedDuration::from_seconds(19315))
        },
        _ => assert!(false),
    };
}

#[test]
fn execute_13() {
    let test_data = "$25/hour * 14 hours of work".to_string();
    let config = initialize();
    let results = execute(&config, &test_data, "en");
    assert_eq!(results.len(), 1);
    match &results[0].as_ref().unwrap().1 {
        AstType::Money(price, currency) => {
            let (n, d) = price.parts();
            assert_eq!(n as f64 / d as f64, 350.0);
            assert_eq!(*currency, "usd".to_string());
        },
        _ => assert!(false),
    };
}

#[test]
fn execute_14() {
    let test_data = "100 minutes 1 seconds".to_string();
    let config = initialize();
    let results = execute(&config, &test_data, "en");
    assert_eq!(results.len(), 1);
    match &results[0].as_ref().unwrap().1 {
        AstType::Duration(duration, _, _) => {
            assert_eq!(*duration, SignedDuration::from_seconds(6001));
        },
        _ => assert!(false),
    };
}

#[test]
fn execute_15() {
    let test_data = "11:40  - 10 minute".to_string();
    let config = initialize();
    let results = execute(&config, &test_data, "en");
    assert_eq!(results.len(), 1);
    match &results[0].as_ref().unwrap().1 {
        AstType::Time(time) => {
            assert_eq!(*time, ClockTime::from_hms(11, 30, 0));
        },
        _ => assert!(false),
    };
}

#[test]
fn execute_16() {
    let test_data = "11:40  + 1 hour 1 second".to_string();
    let config = initialize();
    let results = execute(&config, &test_data, "en");
    assert_eq!(results.len(), 1);
    match &results[0].as_ref().unwrap().1 {
        AstType::Time(time) => {
            assert_eq!(*time, ClockTime::from_hms(12, 40, 1));
        },
        _ => assert!(false),
    };
}

#[test]
fn five_weeks_as_seconds() {
    let config = initialize();
    let results = execute(&config, "5 weeks as seconds", "en");
    assert_eq!(results.len(), 1);
    assert_eq!(as_f64(&results[0].as_ref().unwrap().1), 3024000.0);
}

#[test]
fn duration_unit_round_trip() {
    let config = initialize();
    let results = execute(&config, "5 weeks as weeks", "en");
    assert_eq!(as_f64(&results[0].as_ref().unwrap().1), 5.0);
    let results2 = execute(&config, "7 days as days", "en");
    assert_eq!(as_f64(&results2[0].as_ref().unwrap().1), 7.0);
}

#[test]
fn plus_zero_percent_is_identity() {
    let config = initialize();
    let results = execute(&config, "137,5 + 0%", "en");
    assert_eq!(as_f64(&results[0].as_ref().unwrap().1), 137.5);
}

#[test]
fn division_by_zero_is_zero() {
    let config = initialize();
    let results = execute(&config, "5 / 0", "en");
    assert_eq!(as_f64(&results[0].as_ref().unwrap().1), 0.0);
}

#[test]
fn meridiem_noon_wraps_to_midnight() {
    let config = initialize();
    let results = execute(&config, "12:00 pm", "en");
    match &results[0].as_ref().unwrap().1 {
        AstType::Time(time) => assert_eq!(*time, ClockTime::from_hms(0, 0, 0)),
        _ => assert!(false),
    };
}

#[test]
fn unknown_currency_falls_back_to_text() {
    let config = initialize();
    let results = execute(&config, "25 xyz", "en");
    match &results[0].as_ref().unwrap().1 {
        AstType::Number(_) => assert_eq!(as_f64(&results[0].as_ref().unwrap().1), 25.0),
        _ => assert!(false),
    };
}

#[test]
fn percent_beside_percent_is_an_error() {
    let config = initialize();
    let results = execute(&config, "5% + 5%", "en");
    assert!(results[0].is_err());
}

#[test]
fn empty_operators_are_a_syntax_error() {
    let config = initialize();
    let results = execute(&config, "* /", "en");
    assert!(results[0].is_err());
    assert_eq!(results[0].as_ref().err().unwrap(), "syntax error");
}

#[test]
fn percent_multiply_and_divide() {
    let config = initialize();
    // 120 * 10% multiplies by the percent share: 120 * 12
    let results = execute(&config, "120 * 10%", "en");
    assert_eq!(as_f64(&results[0].as_ref().unwrap().1), 1440.0);
    // 120 / 10% divides by the percent share: 120 / 12
    let results2 = execute(&config, "120 / 10%", "en");
    assert_eq!(as_f64(&results2[0].as_ref().unwrap().1), 10.0);
    // 120 - 30% takes the share away
    let results3 = execute(&config, "120 - 30%", "en");
    assert_eq!(as_f64(&results3[0].as_ref().unwrap().1), 84.0);
}

#[test]
fn money_with_percent_keeps_the_currency() {
    let config = initialize();
    let results = execute(&config, "$100 + 10%", "en");
    match &results[0].as_ref().unwrap().1 {
        AstType::Money(price, currency) => {
            let (n, d) = price.parts();
            assert_eq!(n as f64 / d as f64, 110.0);
            assert_eq!(*currency, "usd".to_string());
        },
        _ => assert!(false),
    };
}

#[test]
fn time_refuses_multiplication() {
    let config = initialize();
    let results = execute(&config, "11:40 * 10 minute", "en");
    assert!(results[0].is_err());
}
