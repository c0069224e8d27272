//! The immutable configuration a calculator session evaluates against:
//! currency tables, exchange rates, token regexes, aliases, word groups and
//! the rule pack.

use vstd::prelude::*;
use crate::rat::Rat;
use crate::types::TokenInfo;
use crate::datetime::DurationUnit;
use crate::regexw::Pattern;

verus! {

/// A money symbol or word and the canonical currency code it stands for.
pub struct CurrencyDef {
    pub symbol: String,
    pub code: String,
}

/// The exchange rate of one currency code.
pub struct CurrencyRate {
    pub code: String,
    pub rate: Rat,
}

/// A word that names a duration unit.
pub struct UnitWord {
    pub word: String,
    pub unit: DurationUnit,
}

/// One alias: a word pattern and the canonical replacement it rewrites to.
pub struct AliasDef {
    pub pattern: Pattern,
    pub replacement: String,
}

/// Which handler a rule runs when its pattern matches.
#[derive(Clone, Copy, Debug, PartialEq, Eq, Structural)]
pub enum RuleHandler {
    DurationParse,
    AsDuration,
}

/// A rewrite rule: a name, a handler, and the token patterns that fire it.
pub struct Rule {
    pub name: String,
    pub handler: RuleHandler,
    pub patterns: Vec<Vec<TokenInfo>>,
}

/// A category of token regexes, applied in table order.
pub struct ParseGroup {
    pub category: String,
    pub patterns: Vec<Pattern>,
}

/// The configuration of one evaluation.
pub struct Config {
    pub currency: Vec<CurrencyDef>,
    pub currency_rate: Vec<CurrencyRate>,
    pub token_parse_regex: Vec<ParseGroup>,
    pub alias_regex: Vec<AliasDef>,
    pub constant_pairs: Vec<UnitWord>,
    pub duration_group: Vec<String>,
    pub rule: Vec<Rule>,
}

/// The exchange rate recorded for a currency code, by the first matching
/// table entry.
pub open spec fn spec_rate(rates: Seq<CurrencyRate>, code: Seq<char>) -> Option<Rat>
    decreases rates.len(),
{
    if rates.len() == 0 {
        None
    } else if rates[0].code@ == code {
        Some(rates[0].rate)
    } else {
        spec_rate(rates.drop_first(), code)
    }
}

/// Look an exchange rate up.
pub fn find_rate(rates: &Vec<CurrencyRate>, code: &String) -> (r: Option<Rat>)
    ensures
        r == spec_rate(rates@, code@),
        r matches Some(q) ==> ((forall|i: int|
            0 <= i < rates@.len() ==> (#[trigger] rates@[i].rate).wf()) ==> q.wf()),
{
    let mut i: usize = 0;
    proof {
        assert(rates@.skip(0) =~= rates@);
    }
    while i < rates.len()
        invariant
            i <= rates@.len(),
            spec_rate(rates@, code@) == spec_rate(rates@.skip(i as int), code@),
        decreases rates@.len() - i,
    {
        proof {
            assert(rates@.skip(i as int).len() > 0);
            assert(rates@.skip(i as int)[0] == rates@[i as int]);
            assert(rates@.skip(i as int).drop_first() =~= rates@.skip(i + 1));
        }
        if rates[i].code.eq(code) {
            return Some(rates[i].rate);
        }
        i = i + 1;
    }
    proof {
        assert(rates@.skip(i as int).len() == 0);
    }
    None
}

/// Append one exchange rate.
fn push_rate(v: &mut Vec<CurrencyRate>, code: &str, num: i64, den: i64)
    requires
        den >= 1,
        forall|i: int| 0 <= i < old(v)@.len() ==> (#[trigger] old(v)@[i].rate).wf(),
    ensures
        forall|i: int| 0 <= i < final(v)@.len() ==> (#[trigger] final(v)@[i].rate).wf(),
        final(v)@.len() == old(v)@.len() + 1,
        forall|i: int| 0 <= i < old(v)@.len() ==> final(v)@[i] == old(v)@[i],
        final(v)@.last().code@ == code@,
        final(v)@.last().rate.n() == crate::rat::norm_n(num as int, den as int),
        final(v)@.last().rate.d() == crate::rat::norm_d(num as int, den as int),
{
    v.push(CurrencyRate { code: code.to_owned(), rate: Rat::new(num, den) });
}

/// Append one currency word.
fn push_currency(v: &mut Vec<CurrencyDef>, symbol: &str, code: &str)
    ensures
        final(v)@.len() == old(v)@.len() + 1,
        forall|i: int| 0 <= i < old(v)@.len() ==> final(v)@[i] == old(v)@[i],
        final(v)@.last().symbol@ == symbol@,
        final(v)@.last().code@ == code@,
{
    v.push(CurrencyDef { symbol: symbol.to_owned(), code: code.to_owned() });
}

/// Append one unit word.
fn push_unit(v: &mut Vec<UnitWord>, word: &str, unit: crate::datetime::DurationUnit)
    ensures
        final(v)@.len() == old(v)@.len() + 1,
        forall|i: int| 0 <= i < old(v)@.len() ==> final(v)@[i] == old(v)@[i],
        final(v)@.last().word@ == word@,
        final(v)@.last().unit == unit,
{
    v.push(UnitWord { word: word.to_owned(), unit });
}

/// Append one compiled pattern; an invalid pattern is skipped.
fn push_pattern(v: &mut Vec<Pattern>, src: &str) {
    match Pattern::new(src) {
        Some(p) => {
            v.push(p);
        },
        None => (),
    }
}

/// Append one category of patterns.
fn push_group(groups: &mut Vec<ParseGroup>, category: &str, patterns: Vec<Pattern>) {
    groups.push(ParseGroup { category: category.to_owned(), patterns });
}

/// Append one alias; an invalid pattern is skipped.
fn push_alias(v: &mut Vec<AliasDef>, pattern: &str, replacement: &str) {
    match Pattern::new(pattern) {
        Some(p) => {
            v.push(AliasDef { pattern: p, replacement: replacement.to_owned() });
        },
        None => (),
    }
}

/// The built-in English configuration: token regexes in category order,
/// currency and rate tables, aliases, duration words, and the rule pack.
pub fn initialize() -> (c: Config)
    ensures
        forall|i: int| 0 <= i < c.currency_rate@.len() ==> (#[trigger] c.currency_rate@[i].rate).wf(),
        ({
            let dollar = crate::tokinizer::spec_currency_code(c.currency@, seq![36u8]);
            dollar matches Some(code) && code == "usd"@
        }),
        ({
            let usd = spec_rate(c.currency_rate@, "usd"@);
            usd matches Some(q) && q.n() == 1 && q.d() == 1
        }),
        crate::rules::spec_unit_of(c.constant_pairs@, "second"@) == Some(
            crate::datetime::DurationUnit::Second,
        ),
        crate::rules::spec_unit_of(c.constant_pairs@, "hours"@) == Some(
            crate::datetime::DurationUnit::Hour,
        ),
        crate::rules::spec_unit_of(c.constant_pairs@, "weeks"@) == Some(
            crate::datetime::DurationUnit::Week,
        ),
{
    let mut currency: Vec<CurrencyDef> = Vec::new();
    push_currency(&mut currency, "$", "usd");
    push_currency(&mut currency, "usd", "usd");
    push_currency(&mut currency, "dollar", "usd");
    push_currency(&mut currency, "\u{20ac}", "eur");
    push_currency(&mut currency, "eur", "eur");
    push_currency(&mut currency, "euro", "eur");
    push_currency(&mut currency, "\u{a3}", "gbp");
    push_currency(&mut currency, "gbp", "gbp");
    push_currency(&mut currency, "\u{20ba}", "try");
    push_currency(&mut currency, "try", "try");

    let mut currency_rate: Vec<CurrencyRate> = Vec::new();
    push_rate(&mut currency_rate, "usd", 1, 1);
    push_rate(&mut currency_rate, "eur", 89, 100);
    push_rate(&mut currency_rate, "gbp", 79, 100);
    push_rate(&mut currency_rate, "try", 1350, 100);

    let mut groups: Vec<ParseGroup> = Vec::new();
    let mut comment: Vec<Pattern> = Vec::new();
    push_pattern(&mut comment, "^#.*");
    push_group(&mut groups, "comment", comment);
    let mut field: Vec<Pattern> = Vec::new();
    push_pattern(
        &mut field,
        "\\{(?P<FIELD>[A-Z_]+):(?P<NAME>[^ }:]+)(?::(?P<GROUP>[^ }]+))?\\}",
    );
    push_group(&mut groups, "field", field);
    let mut money: Vec<Pattern> = Vec::new();
    push_pattern(
        &mut money,
        "(?P<CURRENCY>[$\u{20ac}\u{a3}\u{20ba}])(?P<PRICE>[0-9]+(?:[.,][0-9]+)*)(?:/(?:hour|day|week|month|year))?",
    );
    push_pattern(
        &mut money,
        "(?P<PRICE>[0-9]+(?:[.,][0-9]+)*) ?(?P<CURRENCY>usd|eur|gbp|try|dollar|euro)\\b",
    );
    push_group(&mut groups, "money", money);
    let mut atom: Vec<Pattern> = Vec::new();
    push_pattern(&mut atom, "^(?P<OPERATOR>[-+*/%=()])$");
    push_pattern(&mut atom, "^(?P<NUMBER>[0-9]+(?:[.,][0-9]+)*)$");
    push_group(&mut groups, "atom", atom);
    let mut timezone: Vec<Pattern> = Vec::new();
    push_pattern(
        &mut timezone,
        "\\b(?P<name>GMT|UTC|EST|CST|MST|PST)(?:(?P<sign>[+-])?(?P<hh>[0-9]{1,2})(?::(?P<mm>[0-9]{2}))?)?",
    );
    push_group(&mut groups, "timezone", timezone);
    let mut percent: Vec<Pattern> = Vec::new();
    push_pattern(&mut percent, "(?P<NUMBER>[0-9]+(?:[.,][0-9]+)*) ?%");
    push_pattern(&mut percent, "% ?(?P<NUMBER>[0-9]+(?:[.,][0-9]+)*)");
    push_group(&mut groups, "percent", percent);
    let mut time: Vec<Pattern> = Vec::new();
    push_pattern(
        &mut time,
        "(?P<hour>[0-9]{1,2}):(?P<minute>[0-9]{2})(?::(?P<second>[0-9]{2}))?(?: ?(?P<meridiem>am|pm|AM|PM))?",
    );
    push_group(&mut groups, "time", time);
    let mut number: Vec<Pattern> = Vec::new();
    push_pattern(&mut number, "(?P<NUMBER>-?[0-9]+(?:[.,][0-9]+)*)(?P<SUFFIX>[kMGTPZY])?\\b");
    push_group(&mut groups, "number", number);
    let mut text: Vec<Pattern> = Vec::new();
    push_pattern(&mut text, "\\p{L}+");
    push_group(&mut groups, "text", text);
    let mut whitespace: Vec<Pattern> = Vec::new();
    push_pattern(&mut whitespace, "\\s+");
    push_group(&mut groups, "whitespace", whitespace);
    let mut operator: Vec<Pattern> = Vec::new();
    push_pattern(&mut operator, "[-+*/=()]");
    push_group(&mut groups, "operator", operator);

    let mut alias_regex: Vec<AliasDef> = Vec::new();
    push_alias(&mut alias_regex, "^add$", "+");
    push_alias(&mut alias_regex, "^sum$", "+");
    push_alias(&mut alias_regex, "^plus$", "+");
    push_alias(&mut alias_regex, "^minus$", "-");
    push_alias(&mut alias_regex, "^subtract$", "-");
    push_alias(&mut alias_regex, "^times$", "*");
    push_alias(&mut alias_regex, "^multiply$", "*");
    push_alias(&mut alias_regex, "^divide$", "/");
    push_alias(&mut alias_regex, "^percent$", "%");

    let mut constant_pairs: Vec<UnitWord> = Vec::new();
    push_unit(&mut constant_pairs, "second", crate::datetime::DurationUnit::Second);
    push_unit(&mut constant_pairs, "seconds", crate::datetime::DurationUnit::Second);
    push_unit(&mut constant_pairs, "sec", crate::datetime::DurationUnit::Second);
    push_unit(&mut constant_pairs, "minute", crate::datetime::DurationUnit::Minute);
    push_unit(&mut constant_pairs, "minutes", crate::datetime::DurationUnit::Minute);
    push_unit(&mut constant_pairs, "min", crate::datetime::DurationUnit::Minute);
    push_unit(&mut constant_pairs, "hour", crate::datetime::DurationUnit::Hour);
    push_unit(&mut constant_pairs, "hours", crate::datetime::DurationUnit::Hour);
    push_unit(&mut constant_pairs, "day", crate::datetime::DurationUnit::Day);
    push_unit(&mut constant_pairs, "days", crate::datetime::DurationUnit::Day);
    push_unit(&mut constant_pairs, "week", crate::datetime::DurationUnit::Week);
    push_unit(&mut constant_pairs, "weeks", crate::datetime::DurationUnit::Week);
    push_unit(&mut constant_pairs, "month", crate::datetime::DurationUnit::Month);
    push_unit(&mut constant_pairs, "months", crate::datetime::DurationUnit::Month);
    push_unit(&mut constant_pairs, "year", crate::datetime::DurationUnit::Year);
    push_unit(&mut constant_pairs, "years", crate::datetime::DurationUnit::Year);

    let mut duration_group: Vec<String> = Vec::new();
    let mut w: usize = 0;
    while w < constant_pairs.len()
        decreases constant_pairs@.len() - w,
    {
        duration_group.push(constant_pairs[w].word.clone());
        w = w + 1;
    }

    let mut config = Config {
        currency,
        currency_rate,
        token_parse_regex: groups,
        alias_regex,
        constant_pairs,
        duration_group,
        rule: Vec::new(),
    };

    let mut rules: Vec<Rule> = Vec::new();
    let mut dp_patterns: Vec<Vec<TokenInfo>> = Vec::new();
    dp_patterns.push(
        crate::tokinizer::token_infos("{NUMBER:duration} {GROUP:type:duration_group}", &config),
    );
    rules.push(
        Rule {
            name: "duration_parse".to_owned(),
            handler: RuleHandler::DurationParse,
            patterns: dp_patterns,
        },
    );
    let mut ad_patterns: Vec<Vec<TokenInfo>> = Vec::new();
    ad_patterns.push(
        crate::tokinizer::token_infos(
            "{DURATION:source} as {GROUP:type:duration_group}",
            &config,
        ),
    );
    ad_patterns.push(
        crate::tokinizer::token_infos("{TIME:source} as {GROUP:type:duration_group}", &config),
    );
    rules.push(
        Rule {
            name: "as_duration".to_owned(),
            handler: RuleHandler::AsDuration,
            patterns: ad_patterns,
        },
    );
    config.rule = rules;
    proof {
        reveal_strlit("$");
        reveal_strlit("usd");
        reveal_strlit("second");
        reveal_strlit("seconds");
        reveal_strlit("sec");
        reveal_strlit("minute");
        reveal_strlit("minutes");
        reveal_strlit("min");
        reveal_strlit("hour");
        reveal_strlit("hours");
        reveal_strlit("week");
        reveal_strlit("weeks");
        reveal_strlit("day");
        reveal_strlit("days");
        assert(vstd::utf8::encode_utf8("$"@) =~= seq![36u8]) by {
            vstd::utf8::is_ascii_chars_encode_utf8("$"@);
        }
        assert(crate::tokinizer::spec_currency_code(config.currency@, seq![36u8]) matches Some(
            code,
        ) && code == "usd"@);
        crate::rat::lemma_norm_value(1, 1);
        assert(crate::rat::norm_n(1, 1) == 1 && crate::rat::norm_d(1, 1) == 1) by {
            crate::rat::lemma_norm_value(1, 1);
            assert(crate::rat::norm_d(1, 1) == 1);
        }
        assert(spec_rate(config.currency_rate@, "usd"@) matches Some(q) && q.n() == 1 && q.d()
            == 1);
        assert(crate::rules::spec_unit_of(config.constant_pairs@, "second"@) == Some(
            crate::datetime::DurationUnit::Second,
        ));
        assert(crate::rules::spec_unit_of(config.constant_pairs@, "hours"@) == Some(
            crate::datetime::DurationUnit::Hour,
        )) by {
            reveal_strlit("second");
            reveal_strlit("seconds");
            reveal_strlit("sec");
            reveal_strlit("minute");
            reveal_strlit("minutes");
            reveal_strlit("min");
            reveal_strlit("hour");
            reveal_strlit("hours");
            reveal_strlit("day");
            reveal_strlit("days");
            reveal_strlit("week");
            reveal_strlit("weeks");
            assert(config.constant_pairs@[0].word@ == "second"@);
            assert(config.constant_pairs@[1].word@ == "seconds"@);
            assert(config.constant_pairs@[2].word@ == "sec"@);
            assert(config.constant_pairs@[3].word@ == "minute"@);
            assert(config.constant_pairs@[4].word@ == "minutes"@);
            assert(config.constant_pairs@[5].word@ == "min"@);
            assert(config.constant_pairs@[6].word@ == "hour"@);
            assert(config.constant_pairs@[7].word@ == "hours"@);
            assert(("hours"@).len() == 5);
            assert(("second"@).len() == 6 && ("seconds"@).len() == 7 && ("sec"@).len() == 3);
            assert(("minute"@).len() == 6 && ("minutes"@).len() == 7 && ("min"@).len() == 3);
            assert(("hour"@).len() == 4);
            assert forall|k: int|
                0 <= k < 7 implies (#[trigger] config.constant_pairs@[k]).word@ != "hours"@ by {
                if k == 0 {
                    assert(config.constant_pairs@[k].word@.len() == 6);
                } else if k == 1 {
                    assert(config.constant_pairs@[k].word@.len() == 7);
                } else if k == 2 {
                    assert(config.constant_pairs@[k].word@.len() == 3);
                } else if k == 3 {
                    assert(config.constant_pairs@[k].word@.len() == 6);
                } else if k == 4 {
                    assert(config.constant_pairs@[k].word@.len() == 7);
                } else if k == 5 {
                    assert(config.constant_pairs@[k].word@.len() == 3);
                } else {
                    assert(config.constant_pairs@[k].word@.len() == 4);
                }
            }
            crate::rules::lemma_unit_found(config.constant_pairs@, "hours"@, 7);
        }
        assert(crate::rules::spec_unit_of(config.constant_pairs@, "weeks"@) == Some(
            crate::datetime::DurationUnit::Week,
        )) by {
            reveal_strlit("second");
            reveal_strlit("seconds");
            reveal_strlit("sec");
            reveal_strlit("minute");
            reveal_strlit("minutes");
            reveal_strlit("min");
            reveal_strlit("hour");
            reveal_strlit("hours");
            reveal_strlit("day");
            reveal_strlit("days");
            reveal_strlit("week");
            reveal_strlit("weeks");
            assert(config.constant_pairs@[0].word@ == "second"@);
            assert(config.constant_pairs@[1].word@ == "seconds"@);
            assert(config.constant_pairs@[2].word@ == "sec"@);
            assert(config.constant_pairs@[3].word@ == "minute"@);
            assert(config.constant_pairs@[4].word@ == "minutes"@);
            assert(config.constant_pairs@[5].word@ == "min"@);
            assert(config.constant_pairs@[6].word@ == "hour"@);
            assert(config.constant_pairs@[7].word@ == "hours"@);
            assert(config.constant_pairs@[8].word@ == "day"@);
            assert(config.constant_pairs@[9].word@ == "days"@);
            assert(config.constant_pairs@[10].word@ == "week"@);
            assert(config.constant_pairs@[11].word@ == "weeks"@);
            assert(("weeks"@).len() == 5);
            assert(("hours"@)[0] == 'h' && ("weeks"@)[0] == 'w');
            assert(("hours"@) != ("weeks"@));
            assert forall|k: int|
                0 <= k < 11 implies (#[trigger] config.constant_pairs@[k]).word@ != "weeks"@ by {
                if k == 0 {
                    assert(config.constant_pairs@[k].word@.len() == 6);
                } else if k == 1 {
                    assert(config.constant_pairs@[k].word@.len() == 7);
                } else if k == 2 {
                    assert(config.constant_pairs@[k].word@.len() == 3);
                } else if k == 3 {
                    assert(config.constant_pairs@[k].word@.len() == 6);
                } else if k == 4 {
                    assert(config.constant_pairs@[k].word@.len() == 7);
                } else if k == 5 {
                    assert(config.constant_pairs@[k].word@.len() == 3);
                } else if k == 6 {
                    assert(config.constant_pairs@[k].word@.len() == 4);
                } else if k == 7 {
                    assert(config.constant_pairs@[k].word@ == "hours"@);
                } else if k == 8 {
                    assert(config.constant_pairs@[k].word@.len() == 3);
                } else if k == 9 {
                    assert(config.constant_pairs@[k].word@.len() == 4);
                } else {
                    assert(config.constant_pairs@[k].word@.len() == 4);
                }
            }
            crate::rules::lemma_unit_found(config.constant_pairs@, "weeks"@, 11);
        }
    }
    config
}

} // verus!
