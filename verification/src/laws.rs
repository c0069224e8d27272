//! The laws the library states of itself, each proved from the public
//! contracts of the functions it speaks about.

use vstd::prelude::*;
use crate::rat::{
    Rat,
    iabs,
    fits_i128,
    spec_div,
    spec_mul,
    spec_add,
    norm_n,
    norm_d,
    lemma_norm_value,
    lemma_rat_ext,
    gcd_nat,
};
use crate::types::{TokenInfo, AstType, value_eqv};
use crate::tokinizer::infos_wf;
use crate::ui_token::{UiToken, ui_tokens_wf};
use crate::datetime::{DurationUnit, spec_unit_seconds};
use crate::compiler::{spec_pct, spec_scalar_only, spec_eval_scalar, spec_scalar_result};

verus! {

/// Active token spans of a well-formed stream are pairwise non-overlapping
/// and sorted by start: a later active token begins at or after the point
/// where an earlier active one ends.
pub proof fn lemma_active_spans_disjoint(s: Seq<TokenInfo>, i: int, j: int)
    requires
        infos_wf(s),
        0 <= i < j < s.len(),
        s[i].is_active(),
        s[j].is_active(),
    ensures
        s[i].start <= s[i].end,
        s[i].end <= s[j].start,
        s[j].start <= s[j].end,
{
}

/// Highlight spans of a well-formed collection are pairwise non-overlapping
/// and sorted by start.
pub proof fn lemma_ui_spans_disjoint(s: Seq<UiToken>, i: int, j: int)
    requires
        ui_tokens_wf(s),
        0 <= i < j < s.len(),
    ensures
        s[i].start <= s[i].end,
        s[i].end <= s[j].start,
        s[j].start <= s[j].end,
{
}

/// Evaluating the same assignment right side twice yields the same stored
/// value: a scalar expression evaluates to one mathematical value, so both
/// evaluations return it and the assignment stores it both times.
pub proof fn lemma_assignment_idempotent(e: AstType, r1: AstType, r2: AstType)
    requires
        spec_scalar_only(e),
        spec_eval_scalar(e) is Some,
        spec_scalar_result(spec_eval_scalar(e)->0, r1),
        spec_scalar_result(spec_eval_scalar(e)->0, r2),
    ensures
        value_eqv(r1, r2),
{
    let sv = spec_eval_scalar(e)->0;
    if sv.0 {
        match (r1, r2) {
            (AstType::Percent(q1), AstType::Percent(q2)) => {
                lemma_rat_ext(q1, q2);
            },
            _ => (),
        }
    } else {
        match (r1, r2) {
            (AstType::Number(q1), AstType::Number(q2)) => {
                lemma_rat_ext(q1, q2);
            },
            _ => (),
        }
    }
}

/// Division by zero yields zero.
pub proof fn lemma_division_by_zero(a: int, b: int, d: int)
    ensures
        spec_div(a, b, 0, d) == (0int, 1int),
{
}

/// Adding zero percent leaves a number unchanged: `n + 0%` denotes the same
/// rational as `n`.
pub proof fn lemma_plus_zero_percent(q: Rat)
    requires
        q.wf(),
    ensures
        spec_pct('+', (q.n(), q.d()), (0, 1)) is Some,
        ({
            let pair = spec_pct('+', (q.n(), q.d()), (0, 1))->0;
            pair.0 * q.d() == q.n() * pair.1
        }),
{
    let n = q.n();
    let d = q.d();
    // the percent share of zero percent is zero
    let prod = spec_mul(n, d, 0, 1);
    assert(n * 0 == 0) by (nonlinear_arith);
    assert(d * 1 == d);
    lemma_norm_value(0, d);
    assert(norm_n(0, d) * d == 0 * norm_d(0, d)) by {
        lemma_norm_value(0, d);
    }
    assert(0 * norm_d(0, d) == 0) by (nonlinear_arith);
    assert(norm_n(0, d) * d == 0);
    assert(norm_n(0, d) == 0) by (nonlinear_arith)
        requires
            norm_n(0, d) * d == 0,
            d >= 1,
    ;
    assert(prod == (0int, norm_d(0, d)));
    let pd = norm_d(0, d);
    assert(1 <= pd) by {
        lemma_norm_value(0, d);
    }
    let share = spec_div(0, pd, 100, 1);
    assert(share == (0int, 1int)) by {
        assert(0 * 1 == 0) by (nonlinear_arith);
        if fits_i128(pd * 100) {
            assert(pd * 100 >= 1) by (nonlinear_arith)
                requires
                    pd >= 1,
            ;
            lemma_norm_value(0, pd * 100);
            assert(norm_n(0, pd * 100) * (pd * 100) == 0 * norm_d(0, pd * 100));
            assert(0 * norm_d(0, pd * 100) == 0) by (nonlinear_arith);
            assert(norm_n(0, pd * 100) == 0) by (nonlinear_arith)
                requires
                    norm_n(0, pd * 100) * (pd * 100) == 0,
                    pd * 100 >= 1,
            ;
            assert(gcd_nat(iabs(0) as nat, (pd * 100) as nat) == (pd * 100) as nat) by {
                assert(iabs(0) == 0);
                assert(gcd_nat(0, (pd * 100) as nat) == gcd_nat(
                    ((pd * 100) as nat),
                    0nat % ((pd * 100) as nat),
                ));
            }
            assert(norm_d(0, pd * 100) == (pd * 100) / (pd * 100 as int));
            assert((pd * 100) / (pd * 100 as int) == 1) by (nonlinear_arith)
                requires
                    pd * 100 >= 1,
            ;
        }
    }
    let total = spec_add(n, d, 0, 1);
    assert(n * 1 == n && 0 * d == 0 && d * 1 == d) by (nonlinear_arith);
    assert(fits_i128(n) && fits_i128(0) && fits_i128(n + 0) && fits_i128(d));
    assert(total == (norm_n(n, d), norm_d(n, d)));
    lemma_norm_value(n, d);
}

/// Parsing a figure in a unit and reading it back in the same unit gives
/// the figure: the seconds of `n` units, divided by the unit's seconds,
/// denote the rational `n`.
pub proof fn lemma_duration_round_trip(n: int, u: DurationUnit)
    requires
        0 <= n,
        fits_i128(n * spec_unit_seconds(u)),
    ensures
        ({
            let pair = spec_div(iabs(n * spec_unit_seconds(u)), 1, spec_unit_seconds(u), 1);
            pair.0 == n * pair.1
        }),
{
    let us = spec_unit_seconds(u);
    assert(1 <= us);
    let secs = n * us;
    assert(secs >= 0) by (nonlinear_arith)
        requires
            n >= 0,
            us >= 1,
            secs == n * us,
    ;
    assert(iabs(secs) == secs);
    assert(fits_i128(secs * 1) && fits_i128(1 * us)) by {
        assert(secs * 1 == secs && 1 * us == us);
    }
    assert(1 * us >= 1);
    let pair = spec_div(secs, 1, us, 1);
    assert(pair == (norm_n(secs * 1, 1 * us), norm_d(secs * 1, 1 * us)));
    assert(secs * 1 == secs && 1 * us == us);
    lemma_norm_value(secs, us);
    assert(norm_n(secs, us) * us == secs * norm_d(secs, us));
    assert(norm_n(secs, us) == n * norm_d(secs, us)) by (nonlinear_arith)
        requires
            norm_n(secs, us) * us == secs * norm_d(secs, us),
            secs == n * us,
            us >= 1,
    ;
}

} // verus!
