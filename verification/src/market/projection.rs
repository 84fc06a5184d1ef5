//! What funding a route will pay over the next hours.

use crate::models::Leg;
use crate::num::about::{fine, lemma_gap_over, one};
use crate::num::constants::{EPSILON, MILLIS_PER_HOUR, ONE, ZERO};
use crate::num::double::{lemma_order_is_numeric, lemma_sub_self, of_int, size, ONE_EXPONENT};
use crate::num::order::{
    lemma_neg_turns, lemma_one, lemma_one_is_neutral, lemma_quotient_monotone, lemma_quotient_sign,
    lemma_sub_monotone, lemma_sub_tells_the_larger, lemma_sum_monotone, lemma_zero_is_neutral, positive,
};
use crate::num::rounding::{
    lemma_round_at_most, lemma_round_exact, lemma_scaled_is_a_magnitude, lemma_units_at, lemma_units_increase, units,
    BINADE, INFINITE,
};
use crate::num::Double;
use crate::text::same;
use vstd::arithmetic::power2::{lemma_pow2_adds, lemma_pow2_pos, pow2};
use vstd::prelude::*;

verus! {

/// An hour in milliseconds.
pub const HOUR_MILLIS: i128 = 3600000;

/// Eight hours in milliseconds.
pub const EIGHT_HOURS_MILLIS: i128 = 28800000;

/// How far a settlement may be from its time, in milliseconds.
pub const SETTLEMENT_TOLERANCE_MILLIS: i128 = 60000;

/// The beginning of the period of `unit` milliseconds that a time lies in.
pub open spec fn period_start(now: int, unit: int) -> int {
    (now / unit) * unit
}

/// The beginning of the hour that a time lies in.
pub fn hour_start(now: i64) -> (r: i128)
    ensures
        r == period_start(now as int, HOUR_MILLIS as int),
        r <= now < r + HOUR_MILLIS,
{
    let n: i128 = now as i128;
    if n >= 0 {
        (n / HOUR_MILLIS) * HOUR_MILLIS
    } else {
        -((-n + HOUR_MILLIS - 1) / HOUR_MILLIS) * HOUR_MILLIS
    }
}

/// The beginning of the eight hours that a time lies in.
fn shift_start(now: i64) -> (r: i128)
    ensures
        r == period_start(now as int, EIGHT_HOURS_MILLIS as int),
        r <= now < r + EIGHT_HOURS_MILLIS,
{
    let n: i128 = now as i128;
    if n >= 0 {
        (n / EIGHT_HOURS_MILLIS) * EIGHT_HOURS_MILLIS
    } else {
        -((-n + EIGHT_HOURS_MILLIS - 1) / EIGHT_HOURS_MILLIS) * EIGHT_HOURS_MILLIS
    }
}

/// The time between two settlements of a leg, in milliseconds: whole hours, at
/// least one.
pub open spec fn interval_millis(leg: Leg) -> int {
    let hours = leg.interval_hours.round_spec().saturated(BINADE as nat);
    (if hours < 1 {
        1
    } else {
        hours as int
    }) * HOUR_MILLIS
}

/// Whether a leg settles its funding at a time: a whole number of intervals
/// after the next settlement, up to a minute.
pub open spec fn settles(leg: Leg, at: int) -> bool {
    let rest = (at - leg.next_funding_time) % interval_millis(leg);
    &&& leg.market@ == "perpetual"@
    &&& leg.next_funding_time > 0
    &&& at >= leg.next_funding_time - SETTLEMENT_TOLERANCE_MILLIS
    &&& (rest <= SETTLEMENT_TOLERANCE_MILLIS || interval_millis(leg) - rest <= SETTLEMENT_TOLERANCE_MILLIS)
}

/// A time that the library reckons with.
pub open spec fn reckonable(at: int) -> bool {
    -0x1_0000_0000_0000_0000 <= at <= 0x1_0000_0000_0000_0000
}

/// Whether a leg settles its funding at a time.
pub fn settles_at(leg: &Leg, settlement_at: i128) -> (b: bool)
    requires
        reckonable(settlement_at as int),
    ensures
        b == settles(*leg, settlement_at as int),
{
    let next: i128 = leg.next_funding_time as i128;
    if !same(leg.market.as_str(), "perpetual") || next <= 0 || settlement_at < next
        - SETTLEMENT_TOLERANCE_MILLIS {
        return false;
    }
    let whole: u64 = leg.interval_hours.round().to_whole(BINADE);
    let hours: i128 = if whole < 1 {
        1
    } else {
        whole as i128
    };
    let interval: i128 = hours * HOUR_MILLIS;
    let offset: i128 = settlement_at - next;
    let rest: i128 = if offset < 0 {
        proof {
            vstd::arithmetic::div_mod::lemma_mod_add_multiples_vanish(offset as int, interval as int);
            vstd::arithmetic::div_mod::lemma_small_mod((offset + interval) as nat, interval as nat);
        }
        offset + interval
    } else {
        offset % interval
    };
    rest <= SETTLEMENT_TOLERANCE_MILLIS || interval - rest <= SETTLEMENT_TOLERANCE_MILLIS
}

/// The rate that a leg is taken to settle at: the one that is shown for the next
/// settlement, the average of late for those after it, and none between them.
pub open spec fn projected_rate(leg: Leg, at: int, average: Double) -> Double {
    let offset = at - leg.next_funding_time;
    if !settles(leg, at) {
        Double { bits: ZERO }
    } else if -60000 <= offset <= 60000 {
        leg.rate
    } else {
        average
    }
}

/// The rate that a leg is taken to settle at.
pub fn projected_rate_at(leg: &Leg, settlement_at: i128, weighted_average: Double) -> (r: Double)
    requires
        reckonable(settlement_at as int),
    ensures
        r == projected_rate(*leg, settlement_at as int, weighted_average),
{
    if !settles_at(leg, settlement_at) {
        return Double { bits: ZERO };
    }
    let offset: i128 = settlement_at - leg.next_funding_time as i128;
    if -60000 <= offset && offset <= 60000 {
        leg.rate
    } else {
        weighted_average
    }
}

/// What a route pays over some hours, and the best average over hours from now.
pub struct Projection {
    pub cumulative: Double,
    pub best: Option<(Double, u8)>,
}

/// What a route pays over the first `n` settlements from `first` on.
pub open spec fn projected(
    long: Leg,
    short: Leg,
    first: int,
    long_average: Double,
    short_average: Double,
    n: nat,
) -> Projection
    decreases n,
{
    if n == 0 {
        Projection { cumulative: Double { bits: ZERO }, best: None }
    } else {
        let before = projected(long, short, first, long_average, short_average, (n - 1) as nat);
        let at = first + (n - 1) * HOUR_MILLIS;
        let cumulative = before.cumulative.add_spec(
            projected_rate(short, at, short_average).sub_spec(projected_rate(long, at, long_average)),
        );
        let average = cumulative.div_spec(of_int(n as int));
        let better = match before.best {
            Some(best) => best.0.lt_spec(average),
            None => true,
        };
        Projection {
            cumulative,
            best: if better {
                Some((average, n as u8))
            } else {
                before.best
            },
        }
    }
}

/// How many full hours end before the next shift of eight hours does.
pub open spec fn hours_in_shift(now: int) -> nat {
    ((period_start(now, EIGHT_HOURS_MILLIS as int) + EIGHT_HOURS_MILLIS - period_start(
        now,
        HOUR_MILLIS as int,
    )) / (HOUR_MILLIS as int)) as nat
}

/// The best average that a route pays per hour, over the hours up to the end of
/// the eight hours that are running, and over how many of them; nothing where
/// none of them pays.
pub open spec fn best_projection(
    long: Leg,
    short: Leg,
    now: int,
    long_average: Double,
    short_average: Double,
) -> Option<(Double, u8)> {
    let first = period_start(now, HOUR_MILLIS as int) + HOUR_MILLIS;
    match projected(long, short, first, long_average, short_average, hours_in_shift(now)).best {
        Some(best) => if (Double { bits: ZERO }).lt_spec(best.0) {
            Some(best)
        } else {
            None
        },
        None => None,
    }
}

/// The best average that a route pays per hour, and over how many hours.
pub fn cross_funding_projection(
    long: &Leg,
    short: &Leg,
    now_millis: i64,
    long_weighted_average: Double,
    short_weighted_average: Double,
) -> (r: Option<(Double, u8)>)
    ensures
        r == best_projection(
            *long,
            *short,
            now_millis as int,
            long_weighted_average,
            short_weighted_average,
        ),
        r matches Some(best) ==> 1 <= best.1 <= 8 && (Double { bits: ZERO }).lt_spec(best.0),
{
    let hour: i128 = hour_start(now_millis);
    let shift: i128 = shift_start(now_millis);
    let first: i128 = hour + HOUR_MILLIS;
    let hours: i128 = (shift + EIGHT_HOURS_MILLIS - hour) / HOUR_MILLIS;
    proof {
        assert(1 <= hours <= 8);
        assert(hours == hours_in_shift(now_millis as int));
    }
    let mut cumulative = Double { bits: ZERO };
    let mut best: Option<(Double, u8)> = None;
    let mut n: u8 = 0;
    while (n as i128) < hours
        invariant
            n <= hours <= 8,
            first == period_start(now_millis as int, HOUR_MILLIS as int) + HOUR_MILLIS,
            -0x8000_0000_0000_0000 <= first <= 0x8000_0000_0000_0000 + HOUR_MILLIS,
            best matches Some(b) ==> 1 <= b.1 <= 8,
            ({
                let p = projected(
                    *long,
                    *short,
                    first as int,
                    long_weighted_average,
                    short_weighted_average,
                    n as nat,
                );
                p.cumulative == cumulative && p.best == best
            }),
        decreases hours - n,
    {
        let at: i128 = first + (n as i128) * HOUR_MILLIS;
        let step = projected_rate_at(short, at, short_weighted_average).sub(
            projected_rate_at(long, at, long_weighted_average),
        );
        cumulative = cumulative.add(step);
        n = n + 1;
        let average = cumulative.div(Double::from_int(n as i64));
        let better: bool = match best {
            Some(b) => average.gt(b.0),
            None => true,
        };
        if better {
            best = Some((average, n));
        }
    }
    match best {
        Some(b) => {
            if b.0.gt(Double { bits: ZERO }) {
                Some(b)
            } else {
                None
            }
        },
        None => None,
    }
}

/// The average that a route pays per hour over the first `n` hours.
pub open spec fn average_over(
    long: Leg,
    short: Leg,
    first: int,
    long_average: Double,
    short_average: Double,
    n: nat,
) -> Double {
    projected(long, short, first, long_average, short_average, n).cumulative.div_spec(of_int(n as int))
}

/// No number of hours pays more on average than the one that is picked.
pub proof fn lemma_projection_is_best(
    long: Leg,
    short: Leg,
    first: int,
    long_average: Double,
    short_average: Double,
    n: nat,
    k: nat,
)
    requires
        1 <= k <= n,
    ensures
        projected(long, short, first, long_average, short_average, n).best is Some,
        !(projected(long, short, first, long_average, short_average, n).best->0).0.lt_spec(
            average_over(long, short, first, long_average, short_average, k),
        ),
    decreases n,
{
    if k < n {
        lemma_projection_is_best(long, short, first, long_average, short_average, (n - 1) as nat, k);
    }
}

/// A leg that settles takes its shown rate at the next settlement, its average at
/// those that follow by whole intervals, and nothing in between or before.
pub proof fn lemma_rate_follows_the_schedule(leg: Leg, at: int, average: Double, k: int)
    requires
        leg.market@ == "perpetual"@,
        leg.next_funding_time > 0,
        k >= 1,
    ensures
        at == leg.next_funding_time ==> projected_rate(leg, at, average) == leg.rate,
        at == leg.next_funding_time + k * interval_millis(leg) ==> projected_rate(leg, at, average) == average,
        at < leg.next_funding_time - 60000 ==> projected_rate(leg, at, average) == (Double { bits: ZERO }),
        leg.next_funding_time + (k - 1) * interval_millis(leg) + 60000 < at < leg.next_funding_time + k
            * interval_millis(leg) - 60000 ==> projected_rate(leg, at, average) == (Double { bits: ZERO }),
{
    let step = interval_millis(leg);
    assert(step >= 3600000);
    let gap = at - leg.next_funding_time;
    vstd::arithmetic::div_mod::lemma_small_mod(0, step as nat);
    vstd::arithmetic::div_mod::lemma_mod_multiples_basic(k, step);
    assert(k * step >= step) by (nonlinear_arith)
        requires
            k >= 1,
            step > 0,
    ;
    if (k - 1) * step + 60000 < gap < k * step - 60000 {
        let rest = gap - (k - 1) * step;
        assert(k * step == (k - 1) * step + step) by (nonlinear_arith);
        assert((k - 1) * step >= 0) by (nonlinear_arith)
            requires
                k >= 1,
                step > 0,
        ;
        vstd::arithmetic::div_mod::lemma_fundamental_div_mod_converse(gap, step, k - 1, rest);
    }
}

/// What is not a perpetual contract settles nothing.
pub proof fn lemma_only_contracts_settle(leg: Leg, at: int, average: Double)
    requires
        leg.market@ != "perpetual"@,
    ensures
        projected_rate(leg, at, average) == (Double { bits: ZERO }),
{
}

/// The eight hours that are running end on the hour, and so many hours are left of
/// them as are looked at.
pub proof fn lemma_shift_ends_on_the_hour(now: int)
    ensures
        1 <= hours_in_shift(now) <= 8,
        period_start(now, HOUR_MILLIS as int) + hours_in_shift(now) * HOUR_MILLIS == period_start(
            now,
            EIGHT_HOURS_MILLIS as int,
        ) + EIGHT_HOURS_MILLIS,
        period_start(now, HOUR_MILLIS as int) <= now < period_start(now, HOUR_MILLIS as int) + HOUR_MILLIS,
{
    let p = now / (HOUR_MILLIS as int);
    let q = now / (EIGHT_HOURS_MILLIS as int);
    vstd::arithmetic::div_mod::lemma_fundamental_div_mod(now, HOUR_MILLIS as int);
    vstd::arithmetic::div_mod::lemma_fundamental_div_mod(now, EIGHT_HOURS_MILLIS as int);
    assert(8 * q <= p <= 8 * q + 7);
    let n = 8 * q + 8 - p;
    vstd::arithmetic::div_mod::lemma_fundamental_div_mod_converse(n * 3600000, 3600000, n, 0);
}

/// A rate of an ordinary size: at most one.
pub open spec fn modest(x: Double) -> bool {
    x.finite() && size(x.value()) <= one()
}

/// Whether the rates of a leg and its average are of an ordinary size.
pub open spec fn has_modest_rates(leg: Leg, average: Double) -> bool {
    modest(leg.rate) && modest(average)
}

proof fn lemma_projected_rate_is_modest(leg: Leg, at: int, average: Double)
    requires
        has_modest_rates(leg, average),
    ensures
        modest(projected_rate(leg, at, average)),
{
    assert(units(0) == 0);
    lemma_pow2_pos(ONE_EXPONENT as nat);
}

/// What is added up over a few hours stays finite.
proof fn lemma_projection_is_finite(
    long: Leg,
    short: Leg,
    first: int,
    long_average: Double,
    short_average: Double,
    n: nat,
)
    requires
        has_modest_rates(long, long_average),
        has_modest_rates(short, short_average),
        n <= 8,
    ensures
        ({
            let p = projected(long, short, first, long_average, short_average, n);
            &&& p.cumulative.finite()
            &&& size(p.cumulative.value()) <= pow2((1075 + n) as nat)
            &&& n > 0 ==> p.best is Some && !(p.best->0).0.nan()
        }),
    decreases n,
{
    assert(units(0) == 0);
    lemma_pow2_pos((1075 + n) as nat);
    if n > 0 {
        let before = projected(long, short, first, long_average, short_average, (n - 1) as nat);
        lemma_projection_is_finite(long, short, first, long_average, short_average, (n - 1) as nat);
        let at = first + (n - 1) * HOUR_MILLIS;
        let s = projected_rate(short, at, short_average);
        let l = projected_rate(long, at, long_average);
        lemma_projected_rate_is_modest(short, at, short_average);
        lemma_projected_rate_is_modest(long, at, long_average);
        lemma_neg_turns(l);
        lemma_sum_stays(s, l.neg_spec(), 1074);
        let step = s.sub_spec(l);
        lemma_pow2_order(1075, (1074 + n) as nat);
        lemma_sum_stays(before.cumulative, step, (1074 + n) as nat);
        let hours = of_int(n as int);
        lemma_few_hours(n);
        lemma_quotient_sign(before.cumulative.add_spec(step), hours);
    }
}

proof fn lemma_few_hours(n: nat)
    requires
        1 <= n <= 8,
    ensures
        of_int(n as int).finite(),
        positive(of_int(n as int)),
        of_int(n as int).value() == n * one(),
        n == 1 ==> of_int(n as int) == (Double { bits: ONE }),
{
    lemma_one();
    let m = lemma_scaled_is_a_magnitude(n, ONE_EXPONENT as nat);
    lemma_round_exact(m);
    lemma_pow2_adds(4, 1074);
    vstd::arithmetic::power2::lemma2_to64();
    let u = pow2(ONE_EXPONENT as nat);
    assert(n * u <= 16 * u && n * u > 0) by (nonlinear_arith)
        requires
            1 <= n <= 8,
            u > 0,
    ;
    lemma_finite_below(m, 1078);
    if m == 0 {
        assert(units(0) == 0);
    }
}

proof fn lemma_finite_below(m: nat, h: nat)
    requires
        units(m) <= pow2(h),
        h <= 2000,
    ensures
        m < INFINITE,
{
    if m >= INFINITE {
        lemma_units_at(INFINITE as nat, 2046, BINADE as nat);
        vstd::arithmetic::power2::lemma2_to64_rest();
        lemma_pow2_adds(52, 2046);
        vstd::arithmetic::power2::lemma_pow2_strictly_increases(h, 2098);
        if INFINITE < m {
            lemma_units_increase(INFINITE as nat, m);
        }
    }
}

proof fn lemma_pow2_order(a: nat, b: nat)
    requires
        a <= b,
    ensures
        pow2(a) <= pow2(b),
{
    if a < b {
        vstd::arithmetic::power2::lemma_pow2_strictly_increases(a, b);
    }
}

/// The sum of two numbers of a size is at most twice that size.
proof fn lemma_sum_stays(a: Double, b: Double, h: nat)
    requires
        a.finite(),
        b.finite(),
        size(a.value()) <= pow2(h),
        size(b.value()) <= pow2(h),
        h < 2000,
    ensures
        a.add_spec(b).finite(),
        size(a.add_spec(b).value()) <= pow2(h + 1),
{
    vstd::arithmetic::power2::lemma_pow2_unfold(h + 1);
    let m = lemma_scaled_is_a_magnitude(1, h + 1);
    assert(1 * pow2(h + 1) == pow2(h + 1)) by (nonlinear_arith);
    lemma_finite_below(m, h + 1);
    assert(units(0) == 0);
    let k = a.value() + b.value();
    if k != 0 {
        let n = size(k) as nat;
        assert(units(m) * 1 == units(m)) by (nonlinear_arith);
        lemma_round_at_most(n, 1, m);
        let r = crate::num::rounding::round(n, 1);
        if r < m {
            lemma_units_increase(r, m);
        }
    }
}

/// Whether two legs settle at the same times.
pub open spec fn same_schedule(a: Leg, b: Leg) -> bool {
    &&& a.market@ == b.market@
    &&& a.next_funding_time == b.next_funding_time
    &&& a.interval_hours == b.interval_hours
}

proof fn lemma_projection_follows(
    long: Leg,
    short: Leg,
    first: int,
    long_average: Double,
    short_average: Double,
    lower: Leg,
    higher: Leg,
    lower_average: Double,
    higher_average: Double,
    n: nat,
)
    requires
        has_modest_rates(long, long_average),
        has_modest_rates(short, short_average),
        has_modest_rates(lower, lower_average),
        has_modest_rates(higher, higher_average),
        same_schedule(long, lower),
        same_schedule(short, higher),
        lower.rate.le_spec(long.rate),
        lower_average.le_spec(long_average),
        short.rate.le_spec(higher.rate),
        short_average.le_spec(higher_average),
        n <= 8,
    ensures
        ({
            let p = projected(long, short, first, long_average, short_average, n);
            let q = projected(lower, higher, first, lower_average, higher_average, n);
            &&& p.cumulative.le_spec(q.cumulative)
            &&& n > 0 ==> p.best is Some && q.best is Some && (p.best->0).0.le_spec((q.best->0).0)
        }),
    decreases n,
{
    if n > 0 {
        let k = (n - 1) as nat;
        lemma_projection_follows(
            long,
            short,
            first,
            long_average,
            short_average,
            lower,
            higher,
            lower_average,
            higher_average,
            k,
        );
        lemma_projection_is_finite(long, short, first, long_average, short_average, k);
        lemma_projection_is_finite(lower, higher, first, lower_average, higher_average, k);
        lemma_projection_is_finite(long, short, first, long_average, short_average, n);
        lemma_projection_is_finite(lower, higher, first, lower_average, higher_average, n);
        let at = first + (n - 1) * HOUR_MILLIS;
        let s = projected_rate(short, at, short_average);
        let l = projected_rate(long, at, long_average);
        let t = projected_rate(higher, at, higher_average);
        let m = projected_rate(lower, at, lower_average);
        let p = projected(long, short, first, long_average, short_average, k);
        let q = projected(lower, higher, first, lower_average, higher_average, k);
        assert(s.le_spec(t) && m.le_spec(l));
        lemma_sub_monotone(s, t, l, m);
        lemma_sum_monotone(p.cumulative, q.cumulative, s.sub_spec(l), t.sub_spec(m));
        lemma_few_hours(n);
        lemma_quotient_monotone(
            p.cumulative.add_spec(s.sub_spec(l)),
            q.cumulative.add_spec(t.sub_spec(m)),
            of_int(n as int),
        );
    }
}

/// What a route is worth per hour: its best average, or nothing.
pub open spec fn worth(best: Option<(Double, u8)>) -> Double {
    match best {
        Some(b) => b.0,
        None => Double { bits: ZERO },
    }
}

/// A route is worth at least as much where its short leg is paid more or its long
/// leg pays less.
pub proof fn lemma_projection_follows_the_rates(
    long: Leg,
    short: Leg,
    now: int,
    long_average: Double,
    short_average: Double,
    lower: Leg,
    higher: Leg,
    lower_average: Double,
    higher_average: Double,
)
    requires
        has_modest_rates(long, long_average),
        has_modest_rates(short, short_average),
        has_modest_rates(lower, lower_average),
        has_modest_rates(higher, higher_average),
        same_schedule(long, lower),
        same_schedule(short, higher),
        lower.rate.le_spec(long.rate),
        lower_average.le_spec(long_average),
        short.rate.le_spec(higher.rate),
        short_average.le_spec(higher_average),
    ensures
        worth(best_projection(long, short, now, long_average, short_average)).le_spec(
            worth(best_projection(lower, higher, now, lower_average, higher_average)),
        ),
        (Double { bits: ZERO }).le_spec(worth(best_projection(long, short, now, long_average, short_average))),
{
    lemma_shift_ends_on_the_hour(now);
    let first = period_start(now, HOUR_MILLIS as int) + HOUR_MILLIS;
    lemma_projection_follows(
        long,
        short,
        first,
        long_average,
        short_average,
        lower,
        higher,
        lower_average,
        higher_average,
        hours_in_shift(now),
    );
}

proof fn lemma_nothing_is_paid_before(
    long: Leg,
    short: Leg,
    first: int,
    long_average: Double,
    short_average: Double,
    n: nat,
)
    requires
        n <= 8,
        forall|i: int|
            0 <= i < n ==> projected_rate(short, first + i * HOUR_MILLIS, short_average) == (Double { bits: ZERO })
                && projected_rate(long, #[trigger] (first + i * HOUR_MILLIS), long_average) == (Double { bits: ZERO }),
    ensures
        ({
            let p = projected(long, short, first, long_average, short_average, n);
            &&& p.cumulative == (Double { bits: ZERO })
            &&& n > 0 ==> p.best is Some && (p.best->0).0 == (Double { bits: ZERO })
        }),
    decreases n,
{
    let zero = Double { bits: ZERO };
    if n > 0 {
        lemma_nothing_is_paid_before(long, short, first, long_average, short_average, (n - 1) as nat);
        let at = first + (n - 1) * HOUR_MILLIS;
        assert(projected_rate(long, at, long_average) == zero);
        assert(units(0) == 0);
        lemma_sub_self(zero);
        assert(zero.add_spec(zero) == zero);
        lemma_few_hours(n);
        lemma_quotient_sign(zero, of_int(n as int));
    }
}

/// A route whose legs settle once in the eight hours that are running, at their
/// end, is worth what the short leg is paid less what the long leg pays, spread
/// over the hours until then; nothing where that is not positive.
pub proof fn lemma_only_settlement_is_spread(
    long: Leg,
    short: Leg,
    now: int,
    long_average: Double,
    short_average: Double,
)
    requires
        long.market@ == "perpetual"@,
        short.market@ == "perpetual"@,
        long.next_funding_time == period_start(now, EIGHT_HOURS_MILLIS as int) + EIGHT_HOURS_MILLIS,
        short.next_funding_time == long.next_funding_time,
        long.next_funding_time > 0,
        modest(long.rate),
        modest(short.rate),
    ensures
        ({
            let w = worth(best_projection(long, short, now, long_average, short_average));
            let n = hours_in_shift(now);
            let gap = short.rate.value() - long.rate.value();
            &&& short.rate.le_spec(long.rate) ==> w == (Double { bits: ZERO })
            &&& n == 1 && long.rate.lt_spec(short.rate) ==> positive(w)
            &&& long.rate.lt_spec(short.rate) ==> w.finite() && fine() * size(w.value() * (n * one()) - gap * one())
                <= 3 * (gap * one()) + fine() * (n * one())
        }),
{
    let zero = Double { bits: ZERO };
    lemma_shift_ends_on_the_hour(now);
    let n = hours_in_shift(now);
    let first = period_start(now, HOUR_MILLIS as int) + HOUR_MILLIS;
    let k = (n - 1) as nat;
    assert forall|i: int| 0 <= i < k implies projected_rate(short, first + i * HOUR_MILLIS, short_average) == zero
        && projected_rate(long, #[trigger] (first + i * HOUR_MILLIS), long_average) == zero by {
        lemma_rate_follows_the_schedule(short, first + i * HOUR_MILLIS, short_average, 1);
        lemma_rate_follows_the_schedule(long, first + i * HOUR_MILLIS, long_average, 1);
    }
    lemma_nothing_is_paid_before(long, short, first, long_average, short_average, k);
    let at = first + k * HOUR_MILLIS;
    assert(at == long.next_funding_time);
    lemma_rate_follows_the_schedule(short, at, short_average, 1);
    lemma_rate_follows_the_schedule(long, at, long_average, 1);
    let step = short.rate.sub_spec(long.rate);
    lemma_neg_turns(long.rate);
    lemma_pow2_pos(ONE_EXPONENT as nat);
    lemma_sum_stays(short.rate, long.rate.neg_spec(), 1074);
    lemma_sub_tells_the_larger(short.rate, long.rate);
    lemma_zero_is_neutral(step);
    let p = projected(long, short, first, long_average, short_average, n);
    let cumulative = zero.add_spec(step);
    assert(p.cumulative == cumulative);
    lemma_few_hours(n);
    let hours = of_int(n as int);
    let average = cumulative.div_spec(hours);
    lemma_quotient_sign(cumulative, hours);
    lemma_order_is_numeric(long.rate, short.rate);
    if long.rate.lt_spec(short.rate) {
        assert(!step.zero());
        assert(cumulative == step);
        if n == 1 {
            lemma_one_is_neutral(step);
        }
        lemma_hours_keep_finite(step, n);
        lemma_gap_over(short.rate, long.rate, hours);
        assert(zero.le_spec(average));
        if !zero.lt_spec(average) {
            assert(average.zero());
            assert(units(0) == 0);
            assert(average.value() == 0);
            assert(0 * (n * one()) == 0) by (nonlinear_arith);
        }
        let w = worth(best_projection(long, short, now, long_average, short_average));
        assert(w.value() == average.value());
    } else {
        assert(average.le_spec(zero));
    }
}

proof fn lemma_hours_keep_finite(x: Double, n: nat)
    requires
        x.finite(),
        1 <= n <= 8,
    ensures
        x.div_spec(of_int(n as int)).finite(),
{
    lemma_few_hours(n);
    lemma_one();
    let hours = of_int(n as int);
    let u = pow2(ONE_EXPONENT as nat);
    let a = units(x.magnitude());
    let h = units(hours.magnitude());
    assert(a * u <= a * h) by (nonlinear_arith)
        requires
            h == n * u,
            n >= 1,
            a >= 0,
            u > 0,
    ;
    lemma_round_at_most(a * u, h, x.magnitude());
}

/// A route is worth something only where at one of the settlements to come its
/// short leg is paid more than its long leg pays.
pub proof fn lemma_a_route_that_never_pays_is_worth_nothing(
    long: Leg,
    short: Leg,
    now: int,
    long_average: Double,
    short_average: Double,
)
    requires
        has_modest_rates(long, long_average),
        has_modest_rates(short, short_average),
        forall|i: int|
            1 <= i <= hours_in_shift(now) ==> projected_rate(
                short,
                period_start(now, HOUR_MILLIS as int) + i * HOUR_MILLIS,
                short_average,
            ).le_spec(
                projected_rate(
                    long,
                    #[trigger] (period_start(now, HOUR_MILLIS as int) + i * HOUR_MILLIS),
                    long_average,
                ),
            ),
    ensures
        best_projection(long, short, now, long_average, short_average) is None,
{
    lemma_shift_ends_on_the_hour(now);
    let start = period_start(now, HOUR_MILLIS as int);
    let n = hours_in_shift(now);
    lemma_never_paid(long, short, start, long_average, short_average, n);
}

proof fn lemma_never_paid(long: Leg, short: Leg, start: int, long_average: Double, short_average: Double, n: nat)
    requires
        n <= 8,
        has_modest_rates(long, long_average),
        has_modest_rates(short, short_average),
        forall|i: int|
            1 <= i <= n ==> projected_rate(short, start + i * HOUR_MILLIS, short_average).le_spec(
                projected_rate(long, #[trigger] (start + i * HOUR_MILLIS), long_average),
            ),
    ensures
        ({
            let p = projected(long, short, start + HOUR_MILLIS, long_average, short_average, n);
            let zero = Double { bits: ZERO };
            &&& p.cumulative.le_spec(zero)
            &&& n > 0 ==> p.best is Some && (p.best->0).0.le_spec(zero)
        }),
    decreases n,
{
    let zero = Double { bits: ZERO };
    if n > 0 {
        let k = (n - 1) as nat;
        lemma_never_paid(long, short, start, long_average, short_average, k);
        let first = start + HOUR_MILLIS;
        lemma_projection_is_finite(long, short, first, long_average, short_average, k);
        lemma_projection_is_finite(long, short, first, long_average, short_average, n);
        let at = first + (n - 1) * HOUR_MILLIS;
        assert(at == start + n * HOUR_MILLIS) by (nonlinear_arith)
            requires
                at == first + (n - 1) * HOUR_MILLIS,
                first == start + HOUR_MILLIS,
        ;
        let s = projected_rate(short, at, short_average);
        let l = projected_rate(long, at, long_average);
        assert(s.le_spec(l));
        lemma_projected_rate_is_modest(short, at, short_average);
        lemma_projected_rate_is_modest(long, at, long_average);
        lemma_neg_turns(l);
        assert(!s.sub_spec(l).nan());
        lemma_sub_tells_the_larger(s, l);
        let step = s.sub_spec(l);
        assert(step.le_spec(zero));
        let before = projected(long, short, first, long_average, short_average, k);
        assert(zero.add_spec(zero) == zero) by {
            assert(units(0) == 0);
        }
        lemma_sum_monotone(before.cumulative, zero, step, zero);
        lemma_few_hours(n);
        lemma_quotient_sign(before.cumulative.add_spec(step), of_int(n as int));
    }
}

/// The latest of some times.
pub open spec fn latest(points: Seq<(i64, Double)>) -> i64
    decreases points.len(),
{
    if points.len() == 0 {
        i64::MIN
    } else if points.last().0 > latest(points.drop_last()) {
        points.last().0
    } else {
        latest(points.drop_last())
    }
}

/// How many hours a point is older than the latest one.
pub open spec fn age_hours(latest_at: i64, at: i64) -> Double {
    let millis = if latest_at - at < 0 {
        0
    } else if latest_at - at > i64::MAX {
        i64::MAX as int
    } else {
        latest_at - at
    };
    of_int(millis).div_spec(Double { bits: MILLIS_PER_HOUR })
}

/// The power of two that a point weighs: one half for every half-life.
pub open spec fn weight_exponent(latest_at: i64, at: i64, half_life: Double) -> Double {
    age_hours(latest_at, at).neg_spec().div_spec(half_life)
}

/// Whether points can be averaged at all.
pub open spec fn averageable(points: Seq<(i64, Double)>, half_life: Double) -> bool {
    points.len() > 0 && half_life.finite() && (Double { bits: ZERO }).lt_spec(half_life)
}

/// The powers of two that the points of a list weigh.
pub fn weight_exponents(points: &Vec<(i64, Double)>, half_life_hours: Double) -> (r: Option<Vec<Double>>)
    ensures
        if averageable(points@, half_life_hours) {
            &&& r matches Some(v)
            &&& v@.len() == points@.len()
            &&& forall|i: int|
                0 <= i < points@.len() ==> #[trigger] v@[i] == weight_exponent(
                    latest(points@),
                    points@[i].0,
                    half_life_hours,
                )
        } else {
            r is None
        },
{
    if points.len() == 0 || !half_life_hours.is_finite() || half_life_hours.le(Double { bits: ZERO }) {
        return None;
    }
    let mut latest_at: i64 = i64::MIN;
    let mut i: usize = 0;
    proof {
        assert(points@.take(0) =~= Seq::<(i64, Double)>::empty());
    }
    while i < points.len()
        invariant
            i <= points@.len(),
            latest_at == latest(points@.take(i as int)),
        decreases points@.len() - i,
    {
        proof {
            assert(points@.take(i as int + 1).drop_last() =~= points@.take(i as int));
        }
        if points[i].0 > latest_at {
            latest_at = points[i].0;
        }
        i = i + 1;
    }
    proof {
        assert(points@.take(points@.len() as int) =~= points@);
    }
    let mut v: Vec<Double> = Vec::new();
    let mut k: usize = 0;
    while k < points.len()
        invariant
            k <= points@.len(),
            latest_at == latest(points@),
            v@.len() == k,
            forall|j: int|
                0 <= j < k ==> #[trigger] v@[j] == weight_exponent(
                    latest_at,
                    points@[j].0,
                    half_life_hours,
                ),
        decreases points@.len() - k,
    {
        let gap: i128 = latest_at as i128 - points[k].0 as i128;
        let millis: i64 = if gap < 0 {
            0
        } else if gap > i64::MAX as i128 {
            i64::MAX
        } else {
            gap as i64
        };
        let age = Double::from_int(millis).div(Double { bits: MILLIS_PER_HOUR });
        v.push(age.neg().div(half_life_hours));
        k = k + 1;
    }
    Some(v)
}

/// The sum of the points of a list, each times its weight.
pub open spec fn weighted_sum(points: Seq<(i64, Double)>, weights: Seq<Double>) -> Double
    decreases points.len(),
{
    if points.len() == 0 {
        Double { bits: ZERO }
    } else {
        weighted_sum(points.drop_last(), weights.drop_last()).add_spec(
            points.last().1.mul_spec(weights.last()),
        )
    }
}

/// The sum of weights.
pub open spec fn weight_sum(weights: Seq<Double>) -> Double
    decreases weights.len(),
{
    if weights.len() == 0 {
        Double { bits: ZERO }
    } else {
        weight_sum(weights.drop_last()).add_spec(weights.last())
    }
}

/// The average of the points of a list that weigh something.
pub open spec fn weighted_mean(points: Seq<(i64, Double)>, weights: Seq<Double>) -> Option<Double> {
    if (Double { bits: EPSILON }).lt_spec(weight_sum(weights)) {
        Some(weighted_sum(points, weights).div_spec(weight_sum(weights)))
    } else {
        None
    }
}

/// The average of points that weigh less by the half-life.
pub open spec fn average_of(points: Seq<(i64, Double)>, half_life: Double, weights: Seq<Double>) -> Option<Double> {
    if averageable(points, half_life) {
        weighted_mean(points, weights)
    } else {
        None
    }
}

/// The average of points, each weighing half as much for every half-life that it
/// is older than the latest one. `weights` holds two to the power of each of
/// the exponents.
pub fn time_weighted_average(points: &Vec<(i64, Double)>, half_life_hours: Double, weights: &Vec<Double>) -> (r:
    Option<Double>)
    requires
        weights@.len() == points@.len(),
    ensures
        r == average_of(points@, half_life_hours, weights@),
{
    if points.len() == 0 || !half_life_hours.is_finite() || half_life_hours.le(Double { bits: ZERO }) {
        return None;
    }
    let mut sum = Double { bits: ZERO };
    let mut total = Double { bits: ZERO };
    let mut i: usize = 0;
    proof {
        assert(points@.take(0) =~= Seq::<(i64, Double)>::empty());
        assert(weights@.take(0) =~= Seq::<Double>::empty());
    }
    while i < points.len()
        invariant
            i <= points@.len(),
            weights@.len() == points@.len(),
            sum == weighted_sum(points@.take(i as int), weights@.take(i as int)),
            total == weight_sum(weights@.take(i as int)),
        decreases points@.len() - i,
    {
        proof {
            assert(points@.take(i as int + 1).drop_last() =~= points@.take(i as int));
            assert(weights@.take(i as int + 1).drop_last() =~= weights@.take(i as int));
        }
        sum = sum.add(points[i].1.mul(weights[i]));
        total = total.add(weights[i]);
        i = i + 1;
    }
    proof {
        assert(points@.take(points@.len() as int) =~= points@);
        assert(weights@.take(weights@.len() as int) =~= weights@);
    }
    if total.gt(Double { bits: EPSILON }) {
        Some(sum.div(total))
    } else {
        None
    }
}

} // verus!
