//! The trend-score engine: for each error message, the exponentially
//! weighted count of its recent occurrences divided by that of its older
//! occurrences, within two adjacent half-windows of the observation span.
//!
//! Scores are integer fixed point: a weight of one is [`TREND_SCALE`], and a
//! score above `TREND_SCALE` means the message is on the rise. The
//! exponential is a truncated Taylor series evaluated in the same fixed
//! point; every executable step mirrors the spec functions below exactly.

use vstd::prelude::*;
use crate::hist::keys_distinct;

verus! {

/// One unit of trend weight and of trend score.
pub const TREND_SCALE: u64 = 1_000_000;

/// Smallest observation span the engine works with, in milliseconds.
pub const MSG_ERROR_WINDOW_MS: i64 = 15_000;

/// Cap on an accumulated half-window weight; far beyond any reachable value,
/// it only keeps the arithmetic inside `u128`.
pub const WEIGHT_CAP: u128 = 1_000_000_000_000_000_000_000_000_000_000;

/// Division truncating toward zero, as `/` does on the signed machine
/// integers; the divisor must be positive.
pub open spec fn div_trunc(a: int, b: int) -> int {
    if a >= 0 {
        a / b
    } else {
        -((-a) / b)
    }
}

pub open spec fn clamp_i(x: int, lo: int, hi: int) -> int {
    if x < lo {
        lo
    } else if x > hi {
        hi
    } else {
        x
    }
}

/// Tail of the truncated Taylor series for `e^(num/den)` in fixed point:
/// the sum of terms `k` and beyond, where `t` is term `k - 1`. Each term is
/// the previous one times `num / (den * k)`, clamped to one weight unit.
pub open spec fn exp_tail(num: int, den: int, k: int, t: int) -> int
    decreases 13 - k,
{
    if k < 1 || k > 12 {
        0
    } else {
        let t2 = clamp_i(div_trunc(t * num, den * k), -1_000_000, 1_000_000);
        t2 + exp_tail(num, den, k + 1, t2)
    }
}

/// `e^(num/den) * TREND_SCALE`, by twelve Taylor terms, clamped to
/// `[0, 3 * TREND_SCALE]` (the true value for `num/den` in `[-1, 1]` lies
/// well inside).
pub open spec fn spec_exp_fp(num: int, den: int) -> int {
    clamp_i(1_000_000 + exp_tail(num, den, 1, 1_000_000), 0, 3_000_000)
}

/// Which half-window a second bucket falls in: 0 is the newer half, 1 the
/// older half, 2 is out of the observation span.
pub open spec fn bucket_group(now: int, span: int, sec: int) -> int {
    let d2 = 2 * (now - sec * 1000);
    if -span < d2 < span {
        0
    } else if span <= d2 < 2 * span {
        1
    } else {
        2
    }
}

/// Base time of a half-window: the newer half decays from its own start,
/// the older one from `now`.
pub open spec fn base_ms(now: int, span: int, grp: int) -> int {
    if grp == 0 {
        now - span / 2
    } else {
        now
    }
}

/// Exponent numerator for a bucket in a half-window, clamped to the span so
/// the exponent stays within `[-1, 1]`.
pub open spec fn exp_num(now: int, span: int, sec: int, grp: int) -> int {
    clamp_i(base_ms(now, span, grp) - sec * 1000, -span, span)
}

/// Saturating addition, capped at [`WEIGHT_CAP`].
pub open spec fn sat_add(a: int, b: int) -> int {
    if a + b > WEIGHT_CAP {
        WEIGHT_CAP as int
    } else {
        a + b
    }
}

/// The fixed-point weight one per-second entry contributes to its group.
pub open spec fn entry_weight(e: (i64, u64, u64), now: int, span: int, grp: int) -> int {
    spec_exp_fp(exp_num(now, span, e.0 as int, grp), span) * e.2
}

/// Accumulated weight of message `id` over the entries of half-window
/// `grp`, scanned in table order with saturating addition.
pub open spec fn weight_sum(
    s: Seq<(i64, u64, u64)>,
    now: int,
    span: int,
    id: u64,
    grp: int,
) -> int
    decreases s.len(),
{
    if s.len() == 0 {
        0
    } else {
        let rest = weight_sum(s.drop_last(), now, span, id, grp);
        let e = s.last();
        if e.1 == id && bucket_group(now, span, e.0 as int) == grp {
            sat_add(rest, entry_weight(e, now, span, grp))
        } else {
            rest
        }
    }
}

/// The trend score of one message: newer-half weight over older-half
/// weight in fixed point, zero when the older half is empty.
pub open spec fn spec_rate_for(s: Seq<(i64, u64, u64)>, now: int, span: int, id: u64) -> int {
    let newer = weight_sum(s, now, span, id, 0);
    let older = weight_sum(s, now, span, id, 1);
    if older > 0 {
        let r = newer * 1_000_000 / older;
        if r > u64::MAX {
            u64::MAX as int
        } else {
            r
        }
    } else {
        0
    }
}

/// The whole trend table: one score per message in the count histogram, in
/// histogram order.
pub open spec fn spec_trend(
    per_sec: Seq<(i64, u64, u64)>,
    counts: Seq<(u64, u64)>,
    now: int,
    span: int,
) -> Seq<(u64, u64)> {
    Seq::new(
        counts.len(),
        |i: int| (counts[i].0, spec_rate_for(per_sec, now, span, counts[i].0) as u64),
    )
}

/// `e^(num/den) * TREND_SCALE` by the truncated, clamped Taylor series.
fn exp_fp(num: i64, den: i64) -> (r: u64)
    requires
        den >= 1,
        -den <= num <= den,
    ensures
        r as int == spec_exp_fp(num as int, den as int),
        r <= 3_000_000,
{
    let mut t: i128 = 1_000_000;
    let mut acc: i128 = 1_000_000;
    let mut k: i128 = 1;
    while k <= 12
        invariant
            1 <= k <= 13,
            -1_000_000 <= t <= 1_000_000,
            -1_000_000 * k <= acc <= 1_000_000 * k,
            den >= 1,
            -den <= num <= den,
            acc + exp_tail(num as int, den as int, k as int, t as int) == 1_000_000 + exp_tail(
                num as int,
                den as int,
                1,
                1_000_000,
            ),
        decreases 13 - k,
    {
        proof {
            assert(-1_000_000i128 * (den as i128) <= t * (num as i128) <= 1_000_000i128 * (
            den as i128)) by (nonlinear_arith)
                requires
                    -1_000_000 <= t <= 1_000_000,
                    -den <= num <= den,
                    den >= 1,
            ;
            assert((den as i128) * k <= (den as i128) * 13) by (nonlinear_arith)
                requires
                    1 <= k <= 13,
                    den >= 1,
            ;
            assert((den as i128) * k >= den as i128) by (nonlinear_arith)
                requires
                    1 <= k <= 13,
                    den >= 1,
            ;
        }
        let raw = (t * (num as i128)) / ((den as i128) * k);
        let t2: i128 = if raw < -1_000_000 {
            -1_000_000
        } else if raw > 1_000_000 {
            1_000_000
        } else {
            raw
        };
        proof {
            assert(raw == div_trunc(t as int * num as int, den as int * k as int));
            assert(t2 == clamp_i(
                div_trunc(t as int * num as int, den as int * k as int),
                -1_000_000,
                1_000_000,
            ));
        }
        acc = acc + t2;
        t = t2;
        k = k + 1;
    }
    if acc < 0 {
        0
    } else if acc > 3_000_000 {
        3_000_000
    } else {
        acc as u64
    }
}

/// Accumulated weight of `id` in half-window `grp` (0 newer, 1 older).
fn weight_for(per_sec: &Vec<(i64, u64, u64)>, now_ms: i64, span: i64, id: u64, grp: u8) -> (w:
    u128)
    requires
        span >= 1,
        grp == 0 || grp == 1,
    ensures
        w as int == weight_sum(per_sec@, now_ms as int, span as int, id, grp as int),
        w <= WEIGHT_CAP,
{
    let mut acc: u128 = 0;
    let mut i: usize = 0;
    while i < per_sec.len()
        invariant
            i <= per_sec@.len(),
            span >= 1,
            grp == 0 || grp == 1,
            acc <= WEIGHT_CAP,
            acc as int == weight_sum(
                per_sec@.take(i as int),
                now_ms as int,
                span as int,
                id,
                grp as int,
            ),
        decreases per_sec@.len() - i,
    {
        let e = per_sec[i];
        proof {
            assert(per_sec@.take(i as int + 1).drop_last() =~= per_sec@.take(i as int));
            assert(per_sec@.take(i as int + 1).last() == e);
        }
        if e.1 == id {
            let now128 = now_ms as i128;
            let span128 = span as i128;
            let msec = (e.0 as i128) * 1000;
            let d2 = 2 * (now128 - msec);
            let egrp: u8 = if -span128 < d2 && d2 < span128 {
                0
            } else if span128 <= d2 && d2 < 2 * span128 {
                1
            } else {
                2
            };
            proof {
                assert(egrp as int == bucket_group(now_ms as int, span as int, e.0 as int));
            }
            if egrp == grp {
                let base: i128 = if grp == 0 {
                    now128 - span128 / 2
                } else {
                    now128
                };
                let raw_num = base - msec;
                let num: i64 = if raw_num < -span128 {
                    -span
                } else if raw_num > span128 {
                    span
                } else {
                    raw_num as i64
                };
                proof {
                    assert(span as int / 2 == span128 as int / 2);
                    assert(num as int == exp_num(
                        now_ms as int,
                        span as int,
                        e.0 as int,
                        grp as int,
                    ));
                }
                let ew = exp_fp(num, span);
                proof {
                    assert((ew as u128) * (e.2 as u128) <= 3_000_000u128
                        * 18_446_744_073_709_551_615u128) by (nonlinear_arith)
                        requires
                            ew <= 3_000_000,
                            e.2 <= 18_446_744_073_709_551_615u64,
                    ;
                }
                let term: u128 = (ew as u128) * (e.2 as u128);
                proof {
                    assert(term as int == entry_weight(
                        e,
                        now_ms as int,
                        span as int,
                        grp as int,
                    ));
                }
                if acc > WEIGHT_CAP - term {
                    acc = WEIGHT_CAP;
                } else {
                    acc = acc + term;
                }
            }
        }
        i = i + 1;
    }
    proof {
        assert(per_sec@.take(per_sec@.len() as int) =~= per_sec@);
    }
    acc
}

/// Recompute the trend table for every message currently in the count
/// histogram, from the per-second histogram, the wall clock and the
/// observation span.
pub fn compute_trend(
    per_sec: &Vec<(i64, u64, u64)>,
    counts: &Vec<(u64, u64)>,
    now_ms: i64,
    span: i64,
) -> (rates: Vec<(u64, u64)>)
    requires
        span >= 1,
    ensures
        rates@ == spec_trend(per_sec@, counts@, now_ms as int, span as int),
        keys_distinct(counts@) ==> keys_distinct(rates@),
{
    let mut rates: Vec<(u64, u64)> = Vec::new();
    let mut i: usize = 0;
    while i < counts.len()
        invariant
            i <= counts@.len(),
            span >= 1,
            rates@.len() == i,
            forall|j: int| #![trigger rates@[j]]
                0 <= j < i ==> rates@[j] == (
                    counts@[j].0,
                    spec_rate_for(per_sec@, now_ms as int, span as int, counts@[j].0) as u64,
                ),
        decreases counts@.len() - i,
    {
        let id = counts[i].0;
        let newer = weight_for(per_sec, now_ms, span, id, 0);
        let older = weight_for(per_sec, now_ms, span, id, 1);
        let rate: u64 = if older > 0 {
            proof {
                assert(newer * 1_000_000 <= WEIGHT_CAP * 1_000_000) by (nonlinear_arith)
                    requires
                        newer <= WEIGHT_CAP,
                ;
            }
            let q = (newer * 1_000_000u128) / older;
            if q > 0xFFFF_FFFF_FFFF_FFFFu128 {
                u64::MAX
            } else {
                q as u64
            }
        } else {
            0
        };
        rates.push((id, rate));
        i = i + 1;
    }
    proof {
        assert(rates@ =~= spec_trend(per_sec@, counts@, now_ms as int, span as int));
        if keys_distinct(counts@) {
            assert forall|a: int, b: int| #![trigger rates@[a], rates@[b]]
                0 <= a < b < rates@.len() implies rates@[a].0 != rates@[b].0 by {
                assert(counts@[a].0 != counts@[b].0);
            }
        }
    }
    rates
}

} // verus!
