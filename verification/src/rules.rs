//! Rule handlers: each consumes the fields a pattern captured and produces
//! one replacement token.

use vstd::prelude::*;
use crate::rat::{Rat, iabs, spec_div};
use crate::types::{TokenType, TokenInfo, token_type_wf};
use crate::datetime::{SignedDuration, DurationUnit, spec_unit_seconds, unit_seconds};
use crate::config::{Config, UnitWord};

verus! {

/// The captured token stored under a name.
pub open spec fn spec_field(fields: Seq<(String, TokenInfo)>, name: Seq<char>) -> Option<TokenInfo>
    decreases fields.len(),
{
    if fields.len() == 0 {
        None
    } else if fields[0].0@ == name {
        Some(fields[0].1)
    } else {
        spec_field(fields.drop_first(), name)
    }
}

/// Find the captured token stored under a name.
pub fn get_field<'a>(fields: &'a Vec<(String, TokenInfo)>, name: &str) -> (r: Option<
    &'a TokenInfo,
>)
    ensures
        match r {
            Some(t) => spec_field(fields@, name@) == Some(*t),
            None => spec_field(fields@, name@) is None,
        },
{
    let mut i: usize = 0;
    proof {
        assert(fields@.skip(0) =~= fields@);
    }
    while i < fields.len()
        invariant
            i <= fields@.len(),
            spec_field(fields@, name@) == spec_field(fields@.skip(i as int), name@),
        decreases fields@.len() - i,
    {
        proof {
            assert(fields@.skip(i as int).len() > 0);
            assert(fields@.skip(i as int)[0] == fields@[i as int]);
            assert(fields@.skip(i as int).drop_first() =~= fields@.skip(i + 1));
        }
        if crate::regexw::str_eq_str(fields[i].0.as_str(), name) {
            return Some(&fields[i].1);
        }
        i = i + 1;
    }
    proof {
        assert(fields@.skip(i as int).len() == 0);
    }
    None
}

/// The number a captured token holds.
pub open spec fn spec_field_number(fields: Seq<(String, TokenInfo)>, name: Seq<char>) -> Option<
    Rat,
> {
    match spec_field(fields, name) {
        Some(t) => match t.token_type {
            Some(TokenType::Number(q)) => Some(q),
            _ => None,
        },
        None => None,
    }
}

/// The word a captured token holds.
pub open spec fn spec_field_text(fields: Seq<(String, TokenInfo)>, name: Seq<char>) -> Option<
    Seq<char>,
> {
    match spec_field(fields, name) {
        Some(t) => match t.token_type {
            Some(TokenType::Text(s)) => Some(s@),
            _ => None,
        },
        None => None,
    }
}

/// The number a captured token holds.
pub fn get_number(name: &str, fields: &Vec<(String, TokenInfo)>) -> (r: Option<Rat>)
    ensures
        r == spec_field_number(fields@, name@),
{
    match get_field(fields, name) {
        Some(t) => match &t.token_type {
            Some(TokenType::Number(q)) => Some(*q),
            _ => None,
        },
        None => None,
    }
}

/// The word a captured token holds.
pub fn get_text(name: &str, fields: &Vec<(String, TokenInfo)>) -> (r: Option<String>)
    ensures
        match r {
            Some(s) => spec_field_text(fields@, name@) == Some(s@),
            None => spec_field_text(fields@, name@) is None,
        },
{
    match get_field(fields, name) {
        Some(t) => match &t.token_type {
            Some(TokenType::Text(s)) => Some(s.clone()),
            _ => None,
        },
        None => None,
    }
}

/// The duration unit a word names.
pub open spec fn spec_unit_of(pairs: Seq<UnitWord>, word: Seq<char>) -> Option<DurationUnit>
    decreases pairs.len(),
{
    if pairs.len() == 0 {
        None
    } else if pairs[0].word@ == word {
        Some(pairs[0].unit)
    } else {
        spec_unit_of(pairs.drop_first(), word)
    }
}

/// Find the duration unit a word names.
pub fn unit_of(pairs: &Vec<UnitWord>, word: &String) -> (r: Option<DurationUnit>)
    ensures
        r == spec_unit_of(pairs@, word@),
{
    let mut i: usize = 0;
    proof {
        assert(pairs@.skip(0) =~= pairs@);
    }
    while i < pairs.len()
        invariant
            i <= pairs@.len(),
            spec_unit_of(pairs@, word@) == spec_unit_of(pairs@.skip(i as int), word@),
        decreases pairs@.len() - i,
    {
        proof {
            assert(pairs@.skip(i as int).len() > 0);
            assert(pairs@.skip(i as int)[0] == pairs@[i as int]);
            assert(pairs@.skip(i as int).drop_first() =~= pairs@.skip(i + 1));
        }
        if pairs[i].word.eq(word) {
            return Some(pairs[i].unit);
        }
        i = i + 1;
    }
    proof {
        assert(pairs@.skip(i as int).len() == 0);
    }
    None
}

/// The first table entry carrying a word decides its unit.
pub proof fn lemma_unit_found(pairs: Seq<UnitWord>, word: Seq<char>, i: int)
    requires
        0 <= i < pairs.len(),
        pairs[i].word@ == word,
        forall|k: int| 0 <= k < i ==> (#[trigger] pairs[k]).word@ != word,
    ensures
        spec_unit_of(pairs, word) == Some(pairs[i].unit),
    decreases i,
{
    if i == 0 {
    } else {
        assert(forall|k: int|
            0 <= k < i - 1 ==> (#[trigger] pairs.drop_first()[k]) == pairs[k + 1]);
        lemma_unit_found(pairs.drop_first(), word, i - 1);
    }
}

/// The token `duration_parse` owes: the captured figure in the captured
/// unit (thirty-day months, 365-day years), when the seconds fit.
pub open spec fn spec_duration_parse_outcome(
    pairs: Seq<UnitWord>,
    fields: Seq<(String, TokenInfo)>,
) -> Option<(int, DurationUnit)> {
    match (spec_field_number(fields, "duration"@), spec_field_text(fields, "type"@)) {
        (Some(q), Some(word)) => match spec_unit_of(pairs, word) {
            Some(u) => if !q.wf() {
                None
            } else {
                let n = clamp_i64(crate::rat::spec_trunc(q.n(), q.d()));
                let total = n * spec_unit_seconds(u);
                if (i64::MIN as int) < total && total <= i64::MAX as int {
                    Some((n, u))
                } else {
                    None
                }
            },
            None => None,
        },
        _ => None,
    }
}

/// A mathematical integer clamped to the `i64` range.
pub open spec fn clamp_i64(x: int) -> int {
    if x < i64::MIN as int {
        i64::MIN as int
    } else if x > i64::MAX as int {
        i64::MAX as int
    } else {
        x
    }
}

/// Fold a figure and a unit word into one duration token:
/// `"10" "days"` becomes ten days. The duration carries
/// `figure * unit_seconds` seconds.
pub fn duration_parse(config: &Config, fields: &Vec<(String, TokenInfo)>) -> (r: Result<
    TokenType,
    String,
>)
    ensures
        match spec_duration_parse_outcome(config.constant_pairs@, fields@) {
            Some(out) => (r matches Ok(t) && t matches TokenType::Duration(d, m, u) && m as int
                == out.0 && u == out.1 && d.secs() == out.0 * spec_unit_seconds(out.1)
                && token_type_wf(t)),
            None => r is Err,
        },
{
    let duration = match get_number("duration", fields) {
        Some(q) => {
            if !q.wf_check() {
                return Err("Duration information not valid".to_owned());
            }
            q.trunc_i64()
        },
        None => {
            return Err("Duration information not valid".to_owned());
        },
    };
    let duration_type = match get_text("type", fields) {
        Some(s) => s,
        None => {
            return Err("Duration type information not valid".to_owned());
        },
    };
    let constant_type = match unit_of(&config.constant_pairs, &duration_type) {
        Some(u) => u,
        None => {
            return Err("Duration type not valid".to_owned());
        },
    };
    let unit = unit_seconds(constant_type);
    let total = match duration.checked_mul(unit) {
        Some(v) => {
            if v == i64::MIN {
                return Err("Duration information not valid".to_owned());
            }
            v
        },
        None => {
            return Err("Duration information not valid".to_owned());
        },
    };
    Ok(TokenType::Duration(SignedDuration::from_seconds(total), duration, constant_type))
}

/// The pair `as_duration` owes: the source's seconds over the target unit's
/// seconds, reduced.
pub open spec fn spec_as_duration_outcome(
    pairs: Seq<UnitWord>,
    fields: Seq<(String, TokenInfo)>,
) -> Option<(int, int)> {
    match spec_field_text(fields, "type"@) {
        Some(word) => match spec_unit_of(pairs, word) {
            Some(u) => match spec_field(fields, "source"@) {
                Some(t) => match t.token_type {
                    Some(TokenType::Duration(d, _, _)) => if !d.wf() {
                        None
                    } else {
                        Some(spec_div(iabs(d.secs()), 1, spec_unit_seconds(u), 1))
                    },
                    Some(TokenType::Time(c)) => if !c.wf() {
                        None
                    } else {
                        Some(spec_div(c.secs(), 1, spec_unit_seconds(u), 1))
                    },
                    _ => None,
                },
                None => None,
            },
            None => None,
        },
        None => None,
    }
}

/// Convert a duration or a time of day into a plain number of the captured
/// unit: `"5 weeks" "as" "seconds"` becomes `3024000`.
pub fn as_duration(config: &Config, fields: &Vec<(String, TokenInfo)>) -> (r: Result<
    TokenType,
    String,
>)
    ensures
        match spec_as_duration_outcome(config.constant_pairs@, fields@) {
            Some(pair) => (r matches Ok(t) && t matches TokenType::Number(q) && (q.n(), q.d())
                == pair && token_type_wf(t)),
            None => r is Err,
        },
{
    let duration_type = match get_text("type", fields) {
        Some(s) => s,
        None => {
            return Err("Duration type information not valid".to_owned());
        },
    };
    let constant_type = match unit_of(&config.constant_pairs, &duration_type) {
        Some(u) => u,
        None => {
            return Err("Duration type not valid".to_owned());
        },
    };
    let source = match get_field(fields, "source") {
        Some(t) => t,
        None => {
            return Err("Source information not valid".to_owned());
        },
    };
    let unit = unit_seconds(constant_type);
    match &source.token_type {
        Some(TokenType::Duration(d, _, _)) => {
            if !d.wf_check() {
                return Err("Source information not valid".to_owned());
            }
            let seconds = Rat::from_i64(d.abs_seconds());
            Ok(TokenType::Number(seconds.div(Rat::from_i64(unit))))
        },
        Some(TokenType::Time(c)) => {
            if !c.wf_check() {
                return Err("Source information not valid".to_owned());
            }
            let seconds = Rat::from_i64(c.num_seconds_from_midnight() as i64);
            Ok(TokenType::Number(seconds.div(Rat::from_i64(unit))))
        },
        _ => Err("Source information not valid".to_owned()),
    }
}

} // verus!
