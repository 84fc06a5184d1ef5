//! What holds of matched fills: what is booked on them, and that nothing is lost.

use crate::num::about::{
    fine, lemma_difference_is_near, lemma_one_is_fine, lemma_product_is_near, lemma_quotient_is_near,
    lemma_sum_is_near, one,
};
use crate::num::constants::{EPSILON, ZERO};
use crate::num::double::{lemma_order_is_numeric, size};
use crate::num::order::{lemma_neg_turns, lemma_zero_is_neutral, positive};
use crate::num::rounding::{lemma_round_at_least, lemma_round_at_most, lemma_units_at, lemma_units_increase, units, BINADE};
use crate::num::Double;
use crate::trading::fills::{
    common, lemma_one_is_used_up, matched_close, matched_guard, used_up, CloseUnmatchedFill, GuardUnmatchedFill,
};
use vstd::arithmetic::power2::{lemma2_to64_rest, lemma_pow2_adds, lemma_pow2_pos};
use vstd::prelude::*;

verus! {

/// The larger of the sizes of two values.
pub open spec fn larger(a: int, b: int) -> int {
    if size(a) < size(b) {
        size(b)
    } else {
        size(a)
    }
}

/// Whether what is booked on a matched amount lies between two rates of it, up to
/// the rounding of `n` steps, each of which may lose `w` units.
pub open spec fn booked_between(booked: int, matched: int, low: int, high: int, n: int, w: int) -> bool {
    let slack = 16 * n * (matched * larger(low, high) + n * (fine() * w));
    &&& fine() * (booked * one() - matched * high) <= slack
    &&& fine() * (matched * low - booked * one()) <= slack
}

/// How large what is booked can be.
proof fn lemma_booked_size(n: int, m: int, p: int, low: int, high: int, w: int)
    requires
        0 <= n < 0x1_0000_0000_0000,
        m >= 0,
        w > 0,
        booked_between(p, m, low, high, n, w),
    ensures
        size(p * one()) <= 2 * (m * larger(low, high)) + 16 * (n * n * w),
{
    let f = fine();
    let h = larger(low, high);
    let pu = p * one();
    let mh = m * h;
    let fw = f * w;
    let nn = n * n;
    let nnw = n * n * w;
    let s = 16 * n * (mh + n * fw);
    lemma_size_of_product(m, high);
    lemma_size_of_product(m, low);
    assert(m * size(high) <= mh && m * size(low) <= mh && mh >= 0) by (nonlinear_arith)
        requires
            m >= 0,
            mh == m * h,
            0 <= size(high) <= h,
            0 <= size(low) <= h,
    ;
    assert(s <= f * mh + 16 * (f * nnw)) by (nonlinear_arith)
        requires
            s == 16 * n * (mh + n * fw),
            nnw == n * n * w,
            fw == f * w,
            0 <= n < 0x1_0000_0000_0000,
            f == 0x20_0000_0000_0000,
            mh >= 0,
    ;
    lemma_times(f, pu, m * high, s);
    lemma_times(f, m * low, pu, s);
    let b = 2 * mh + 16 * nnw;
    assert(f * b == f * mh + f * mh + 16 * (f * nnw)) by (nonlinear_arith)
        requires
            b == 2 * mh + 16 * nnw,
    ;
    lemma_less_times(f, m * high, mh);
    lemma_less_times(f, -(m * low), mh);
    assert(f * (-(m * low)) == -(f * (m * low)) && f * (-pu) == -(f * pu)) by (nonlinear_arith);
    assert(pu <= b) by (nonlinear_arith)
        requires
            f * pu <= f * b,
            f > 0,
    ;
    assert(-pu <= b) by (nonlinear_arith)
        requires
            f * (-pu) <= f * b,
            f > 0,
    ;
}

/// How large one more term can be.
proof fn lemma_term_size(a: int, tu: int, low: int, high: int, h: int, w: int)
    requires
        a >= 0,
        w > 0,
        size(low) <= h,
        size(high) <= h,
        fine() * (tu - a * high) <= 8 * (a * h) + 4 * (fine() * w),
        fine() * (a * low - tu) <= 8 * (a * h) + 4 * (fine() * w),
    ensures
        size(tu) <= 2 * (a * h) + 4 * w,
{
    let f = fine();
    let ah = a * h;
    let fw = f * w;
    lemma_size_of_product(a, high);
    lemma_size_of_product(a, low);
    assert(a * size(high) <= ah && a * size(low) <= ah && ah >= 0) by (nonlinear_arith)
        requires
            a >= 0,
            ah == a * h,
            0 <= size(high) <= h,
            0 <= size(low) <= h,
    ;
    lemma_times(f, tu, a * high, 8 * ah + 4 * fw);
    lemma_times(f, a * low, tu, 8 * ah + 4 * fw);
    lemma_less_times(f, a * high, ah);
    lemma_less_times(f, -(a * low), ah);
    assert(f * (-(a * low)) == -(f * (a * low)) && f * (-tu) == -(f * tu)) by (nonlinear_arith);
    let b = 2 * ah + 4 * w;
    assert(f * b == f * ah + f * ah + 4 * fw) by (nonlinear_arith)
        requires
            fw == f * w,
            b == 2 * ah + 4 * w,
    ;
    assert(8 * ah <= f * ah) by (nonlinear_arith)
        requires
            ah >= 0,
            f == 0x20_0000_0000_0000,
    ;
    assert(tu <= b) by (nonlinear_arith)
        requires
            f * tu <= f * b,
            f > 0,
    ;
    assert(-tu <= b) by (nonlinear_arith)
        requires
            f * (-tu) <= f * b,
            f > 0,
    ;
}

/// What may be lost after one more match.
proof fn lemma_slack_grows(n: int, tot: int, mh: int, nh: int, fw: int, w: int)
    requires
        0 <= n < 0x1_0000_0000_0000,
        0 <= mh <= tot,
        w > 0,
        fw == fine() * w,
        fine() * nh >= fine() * tot - tot,
    ensures
        16 * n * (mh + n * fw) + 3 * tot + 16 * (n * n * w) + 8 * tot + 4 * fw + 4 * w - 8 * mh <= 16 * (n + 1) * (nh + (n
            + 1) * fw),
{
    let f = fine();
    let k = n + 1;
    let nn = n * n;
    assert(16 * k * nh >= 16 * k * tot - tot) by (nonlinear_arith)
        requires
            f * nh >= f * tot - tot,
            16 * k <= f,
            k >= 1,
            tot >= 0,
            f > 0,
    ;
    assert(16 * k * tot == 16 * (n * tot) + 16 * tot) by (nonlinear_arith)
        requires
            k == n + 1,
    ;
    assert(16 * k * (nh + k * fw) == 16 * k * nh + 16 * (nn * fw) + 32 * (n * fw) + 16 * fw) by (nonlinear_arith)
        requires
            k == n + 1,
            nn == n * n,
    ;
    assert(16 * n * (mh + n * fw) == 16 * (n * mh) + 16 * (nn * fw)) by (nonlinear_arith)
        requires
            nn == n * n,
    ;
    assert(n * tot >= n * mh) by (nonlinear_arith)
        requires
            tot >= mh,
            n >= 0,
    ;
    assert(n * n * w <= n * fw && w <= fw && n * fw >= 0) by (nonlinear_arith)
        requires
            fw == f * w,
            0 <= n <= f,
            f == 0x20_0000_0000_0000,
            w > 0,
    ;
}

/// One more match: how far what is booked lies above a rate of what is matched.
proof fn lemma_booking_above(
    n: int,
    m: int,
    a: int,
    next: int,
    pu: int,
    tu: int,
    su: int,
    c: int,
    h: int,
    w: int,
)
    requires
        0 <= n < 0x1_0000_0000_0000,
        m >= 0,
        a >= 0,
        size(c) <= h,
        w > 0,
        size(pu) <= 2 * (m * h) + 16 * (n * n * w),
        size(tu) <= 2 * (a * h) + 4 * w,
        fine() * (pu - m * c) <= 16 * n * (m * h + n * (fine() * w)),
        fine() * (tu - a * c) <= 8 * (a * h) + 4 * (fine() * w),
        fine() * size(next - (m + a)) <= m + a,
        fine() * size(su - (pu + tu)) <= size(pu + tu),
    ensures
        fine() * (su - next * c) <= 16 * (n + 1) * (next * h + (n + 1) * (fine() * w)),
{
    let f = fine();
    let fw = f * w;
    let mh = m * h;
    let ah = a * h;
    let nh = next * h;
    let tot = mh + ah;
    assert(mh >= 0 && ah >= 0) by (nonlinear_arith)
        requires
            mh == m * h,
            ah == a * h,
            m >= 0,
            a >= 0,
            h >= 0,
    ;
    let gap = next - (m + a);
    lemma_size_of_product(gap, c);
    lemma_scaled_bound(f, gap, m + a, size(c), h);
    assert((m + a) * h == tot) by (nonlinear_arith)
        requires
            mh == m * h,
            ah == a * h,
            tot == mh + ah,
    ;
    let offu = su - (pu + tu);
    let gc = gap * c;
    assert(f * (su - next * c) == f * offu + f * (pu - m * c) + f * (tu - a * c) - f * gc) by (nonlinear_arith)
        requires
            offu == su - (pu + tu),
            gc == gap * c,
            gap == next - (m + a),
    ;
    lemma_both_signs(f, offu);
    lemma_both_signs(f, gc);
    assert(f * nh >= f * tot - tot) by (nonlinear_arith)
        requires
            f * next >= f * (m + a) - (m + a),
            nh == next * h,
            (m + a) * h == tot,
            h >= 0,
    ;
    lemma_slack_grows(n, tot, mh, nh, fw, w);
}

/// One more match: how far what is booked is off.
proof fn lemma_booking_step(
    n: int,
    m: int,
    a: int,
    next: int,
    p: int,
    t: int,
    sum: int,
    low: int,
    high: int,
    w: int,
)
    requires
        0 <= n < 0x1_0000_0000_0000,
        m >= 0,
        a >= 0,
        w > 0,
        booked_between(p, m, low, high, n, w),
        fine() * size(next - (m + a)) <= m + a,
        fine() * size(sum - (p + t)) <= size(p + t),
        fine() * (t * one() - a * high) <= 8 * (a * larger(low, high)) + 4 * (fine() * w),
        fine() * (a * low - t * one()) <= 8 * (a * larger(low, high)) + 4 * (fine() * w),
    ensures
        booked_between(sum, next, low, high, n + 1, w),
        next >= 0,
{
    let f = fine();
    let u = one();
    let h = larger(low, high);
    lemma_one_is_fine();
    let pu = p * u;
    let tu = t * u;
    let su = sum * u;
    lemma_booked_size(n, m, p, low, high, w);
    lemma_term_size(a, tu, low, high, h, w);
    let off = sum - (p + t);
    let offu = su - (pu + tu);
    lemma_size_of_product(off, u);
    lemma_size_of_product(p + t, u);
    assert(off * u == offu && (p + t) * u == pu + tu) by (nonlinear_arith)
        requires
            off == sum - (p + t),
            offu == su - (pu + tu),
            su == sum * u,
            pu == p * u,
            tu == t * u,
    ;
    assert(f * size(offu) <= size(pu + tu)) by (nonlinear_arith)
        requires
            f * size(off) <= size(p + t),
            size(offu) == size(off) * u,
            size(pu + tu) == size(p + t) * u,
            u > 0,
    ;
    lemma_booking_above(n, m, a, next, pu, tu, su, high, h, w);
    assert(m * (-low) == -(m * low) && a * (-low) == -(a * low) && next * (-low) == -(next * low)) by (nonlinear_arith);
    lemma_booking_above(n, m, a, next, -pu, -tu, -su, -low, h, w);
    assert(next >= 0);
}

proof fn lemma_both_signs(f: int, x: int)
    requires
        f > 0,
    ensures
        -(f * size(x)) <= f * x <= f * size(x),
{
    assert(-(f * size(x)) <= f * x <= f * size(x)) by (nonlinear_arith)
        requires
            f > 0,
            size(x) == (if x < 0 {
                -x
            } else {
                x
            }),
    ;
}

proof fn lemma_times(f: int, a: int, b: int, s: int)
    requires
        f * (a - b) <= s,
    ensures
        f * a <= f * b + s,
{
    assert(f * (a - b) == f * a - f * b) by (nonlinear_arith);
}

proof fn lemma_less_times(f: int, a: int, b: int)
    requires
        f > 0,
        a <= b,
    ensures
        f * a <= f * b,
{
    assert(f * a <= f * b) by (nonlinear_arith)
        requires
            f > 0,
            a <= b,
    ;
}

proof fn lemma_scaled_bound(f: int, gap: int, total: int, c: int, h: int)
    requires
        f == fine(),
        f * size(gap) <= total,
        0 <= c <= h,
    ensures
        f * (size(gap) * c) <= total * h,
{
    assert(total >= 0) by (nonlinear_arith)
        requires
            f * size(gap) <= total,
            size(gap) >= 0,
            f == fine(),
            fine() == 0x20_0000_0000_0000,
    ;
    assert(f * (size(gap) * c) <= total * h) by (nonlinear_arith)
        requires
            f * size(gap) <= total,
            0 <= c <= h,
            total >= 0,
    ;
}

proof fn lemma_size_of_product(a: int, b: int)
    ensures
        size(a * b) == size(a) * size(b),
        a >= 0 ==> size(a * b) == a * size(b),
{
    let p = a * b;
    assert(size(p) == size(a) * size(b)) by (nonlinear_arith)
        requires
            p == a * b,
            size(a) == (if a < 0 {
                -a
            } else {
                a
            }),
            size(b) == (if b < 0 {
                -b
            } else {
                b
            }),
            size(p) == (if p < 0 {
                -p
            } else {
                p
            }),
    ;
}

/// More steps may lose more.
proof fn lemma_booked_loosens(p: int, m: int, low: int, high: int, n: int, k: int, w: int)
    requires
        booked_between(p, m, low, high, n, w),
        0 <= n <= k,
        m >= 0,
        w > 0,
    ensures
        booked_between(p, m, low, high, k, w),
{
    let h = larger(low, high);
    let mh = m * h;
    let fw = fine() * w;
    assert(16 * n * (mh + n * fw) <= 16 * k * (mh + k * fw)) by (nonlinear_arith)
        requires
            0 <= n <= k,
            mh >= 0,
            fw >= 0,
    {
        assert(n * fw <= k * fw);
        assert(mh + n * fw <= mh + k * fw);
    }
    assert(mh >= 0) by (nonlinear_arith)
        requires
            mh == m * h,
            m >= 0,
            h >= 0,
    ;
}

/// What is left of a fill.
proof fn lemma_rest(notional: Double, amount: Double)
    requires
        notional.finite(),
        !notional.negative(),
        amount.finite(),
        !amount.negative(),
        amount.le_spec(notional),
    ensures
        notional.sub_spec(amount).finite(),
        !notional.sub_spec(amount).negative(),
        notional.sub_spec(amount).le_spec(notional),
{
    lemma_order_is_numeric(amount, notional);
    lemma_neg_turns(amount);
    let k = notional.value() - amount.value();
    let m = notional.magnitude();
    assert(units(m) * 1 == units(m)) by (nonlinear_arith);
    lemma_round_at_most(k as nat, 1, m);
}

/// The part that two fills have in common is the smaller one of them.
proof fn lemma_common(a: Double, b: Double)
    requires
        a.finite(),
        !a.negative(),
        b.finite(),
        !b.negative(),
    ensures
        ({
            let c = common(a, b);
            &&& c.finite()
            &&& !c.negative()
            &&& c.le_spec(a)
            &&& c.le_spec(b)
            &&& c == a || c == b
        }),
{
}

/// A sum that lies between two numbers is rounded to one that does.
proof fn lemma_sum_between(a: Double, b: Double, low: Double, high: Double)
    requires
        a.finite(),
        b.finite(),
        low.finite(),
        high.finite(),
        low.value() <= a.value() + b.value() <= high.value(),
    ensures
        a.add_spec(b).finite(),
        low.value() <= a.add_spec(b).value() <= high.value(),
{
    let k = a.value() + b.value();
    let r = a.add_spec(b);
    assert(units(0) == 0);
    if k > 0 {
        assert(units(high.magnitude()) * 1 == units(high.magnitude())) by (nonlinear_arith);
        lemma_round_at_most(k as nat, 1, high.magnitude());
        if r.magnitude() < high.magnitude() {
            lemma_units_increase(r.magnitude(), high.magnitude());
        }
        if !low.negative() {
            assert(units(low.magnitude()) * 1 == units(low.magnitude())) by (nonlinear_arith);
            lemma_round_at_least(k as nat, 1, low.magnitude());
            if low.magnitude() < r.magnitude() {
                lemma_units_increase(low.magnitude(), r.magnitude());
            }
        }
    } else if k < 0 {
        let n = (-k) as nat;
        assert(units(low.magnitude()) * 1 == units(low.magnitude())) by (nonlinear_arith);
        lemma_round_at_most(n, 1, low.magnitude());
        if r.magnitude() < low.magnitude() {
            lemma_units_increase(r.magnitude(), low.magnitude());
        }
        if high.negative() {
            assert(units(high.magnitude()) * 1 == units(high.magnitude())) by (nonlinear_arith);
            lemma_round_at_least(n, 1, high.magnitude());
            if high.magnitude() < r.magnitude() {
                lemma_units_increase(high.magnitude(), r.magnitude());
            }
        }
    }
}

/// A term of a profit: an amount times a rate that lies between two others.
proof fn lemma_rate_term(a: int, r: int, tu: int, low: int, high: int)
    requires
        a >= 0,
        low <= r <= high,
        fine() * size(tu - a * r) <= size(a * r) + fine() * one(),
    ensures
        fine() * (tu - a * high) <= 8 * (a * larger(low, high)) + 4 * (fine() * one()),
        fine() * (a * low - tu) <= 8 * (a * larger(low, high)) + 4 * (fine() * one()),
{
    let f = fine();
    let h = larger(low, high);
    let ar = a * r;
    lemma_size_of_product(a, r);
    lemma_one_is_fine();
    assert(size(r) <= h);
    assert(a * size(r) <= a * h && a * r <= a * high && a * low <= a * r && a * h >= 0) by (nonlinear_arith)
        requires
            a >= 0,
            0 <= size(r) <= h,
            low <= r <= high,
    ;
    lemma_both_signs(f, tu - ar);
    assert(f * (tu - a * high) == f * (tu - ar) + f * (ar - a * high)) by (nonlinear_arith);
    assert(f * (a * low - tu) == f * (a * low - ar) - f * (tu - ar)) by (nonlinear_arith);
    assert(f * (ar - a * high) <= 0 && f * (a * low - ar) <= 0 && f * one() >= 0) by (nonlinear_arith)
        requires
            ar <= a * high,
            a * low <= ar,
            f > 0,
            one() > 0,
    ;
}

/// Whether fills of a closing are amounts with finite profits.
pub open spec fn are_close_fills(fills: Seq<CloseUnmatchedFill>) -> bool {
    forall|i: int|
        0 <= i < fills.len() ==> (#[trigger] fills[i]).notional_usdt.finite() && !fills[i].notional_usdt.negative()
            && fills[i].pnl_ratio.finite()
}

/// Whether the profits of any long and any short fill come to a rate between two
/// others.
pub open spec fn profits_between(
    long: Seq<CloseUnmatchedFill>,
    short: Seq<CloseUnmatchedFill>,
    low: int,
    high: int,
) -> bool {
    forall|i: int, j: int|
        0 <= i < long.len() && 0 <= j < short.len() ==> low <= (#[trigger] long[i]).pnl_ratio.value() + (
        #[trigger] short[j]).pnl_ratio.value() <= high
}

/// The open fills after one match.
pub open spec fn close_rest(fills: Seq<CloseUnmatchedFill>, amount: Double) -> Seq<CloseUnmatchedFill> {
    if used_up(fills[0].notional_usdt, amount) {
        fills.drop_first()
    } else {
        fills.update(
            0,
            CloseUnmatchedFill { notional_usdt: fills[0].notional_usdt.sub_spec(amount), ..fills[0] },
        )
    }
}

proof fn lemma_close_rest(fills: Seq<CloseUnmatchedFill>, amount: Double)
    requires
        are_close_fills(fills),
        fills.len() > 0,
        amount.finite(),
        !amount.negative(),
        amount.le_spec(fills[0].notional_usdt),
    ensures
        are_close_fills(close_rest(fills, amount)),
        close_rest(fills, amount).len() <= fills.len(),
        forall|i: int|
            0 <= i < close_rest(fills, amount).len() ==> (#[trigger] close_rest(fills, amount)[i]).pnl_ratio == fills[i
                + fills.len() - close_rest(fills, amount).len()].pnl_ratio && close_rest(fills, amount)[i].price
                == fills[i + fills.len() - close_rest(fills, amount).len()].price,
{
    let rest = close_rest(fills, amount);
    lemma_rest(fills[0].notional_usdt, amount);
    assert forall|i: int| 0 <= i < rest.len() implies (#[trigger] rest[i]).notional_usdt.finite()
        && !rest[i].notional_usdt.negative() && rest[i].pnl_ratio.finite() by {
        if rest.len() < fills.len() {
            assert(rest[i] == fills[i + 1]);
        } else if i > 0 {
            assert(rest[i] == fills[i]);
        }
    }
    assert forall|i: int| 0 <= i < rest.len() implies (#[trigger] rest[i]).pnl_ratio == fills[i + fills.len()
        - rest.len()].pnl_ratio && rest[i].price == fills[i + fills.len() - rest.len()].price by {
        if rest.len() < fills.len() {
            assert(rest[i] == fills[i + 1]);
        } else if i > 0 {
            assert(rest[i] == fills[i]);
        }
    }
}

/// What is summed up stays finite only where it was.
proof fn lemma_close_sums_were_finite(
    long: Seq<CloseUnmatchedFill>,
    short: Seq<CloseUnmatchedFill>,
    matched: Double,
    pnl: Double,
    spread: Double,
)
    ensures
        ({
            let m = matched_close(long, short, matched, pnl, spread);
            &&& m.matched.finite() ==> matched.finite()
            &&& m.pnl.finite() ==> pnl.finite()
            &&& m.spread.finite() ==> spread.finite()
        }),
    decreases long.len() + short.len(),
{
    if long.len() > 0 && short.len() > 0 {
        let l = long[0];
        let s = short[0];
        let amount = common(l.notional_usdt, s.notional_usdt);
        let next_long = close_rest(long, amount);
        let next_short = close_rest(short, amount);
        if next_long.len() + next_short.len() < long.len() + short.len() {
            lemma_close_sums_were_finite(
                next_long,
                next_short,
                matched.add_spec(amount),
                pnl.add_spec(amount.mul_spec(l.pnl_ratio.add_spec(s.pnl_ratio))),
                spread.add_spec(
                    amount.mul_spec(s.price.sub_spec(l.price)).div_spec(l.price.max_spec(Double { bits: EPSILON })),
                ),
            );
        }
    }
}

proof fn lemma_close_profit_from(
    long: Seq<CloseUnmatchedFill>,
    short: Seq<CloseUnmatchedFill>,
    matched: Double,
    pnl: Double,
    spread: Double,
    low: Double,
    high: Double,
    n: int,
)
    requires
        are_close_fills(long),
        are_close_fills(short),
        low.finite(),
        high.finite(),
        profits_between(long, short, low.value(), high.value()),
        matched_close(long, short, matched, pnl, spread).matched.finite(),
        matched_close(long, short, matched, pnl, spread).pnl.finite(),
        !matched.negative(),
        0 <= n,
        n + long.len() + short.len() < 0x1_0000_0000_0000,
        booked_between(pnl.value(), matched.value(), low.value(), high.value(), n, one()),
    ensures
        ({
            let m = matched_close(long, short, matched, pnl, spread);
            &&& booked_between(
                m.pnl.value(),
                m.matched.value(),
                low.value(),
                high.value(),
                n + long.len() + short.len(),
                one(),
            )
            &&& m.matched.value() >= 0
        }),
    decreases long.len() + short.len(),
{
    lemma_one_is_fine();
    lemma_close_sums_were_finite(long, short, matched, pnl, spread);
    if long.len() == 0 || short.len() == 0 {
        lemma_booked_loosens(
            pnl.value(),
            matched.value(),
            low.value(),
            high.value(),
            n,
            n + long.len() + short.len(),
            one(),
        );
    } else {
        let l = long[0];
        let s = short[0];
        assert(l.notional_usdt.finite() && s.notional_usdt.finite());
        let amount = common(l.notional_usdt, s.notional_usdt);
        lemma_common(l.notional_usdt, s.notional_usdt);
        lemma_one_is_used_up(l.notional_usdt, s.notional_usdt);
        let next_long = close_rest(long, amount);
        let next_short = close_rest(short, amount);
        lemma_close_rest(long, amount);
        lemma_close_rest(short, amount);
        let ratio = l.pnl_ratio.add_spec(s.pnl_ratio);
        let term = amount.mul_spec(ratio);
        let next = matched.add_spec(amount);
        let sum = pnl.add_spec(term);
        let value = spread.add_spec(
            amount.mul_spec(s.price.sub_spec(l.price)).div_spec(l.price.max_spec(Double { bits: EPSILON })),
        );
        assert(matched_close(long, short, matched, pnl, spread) == matched_close(
            next_long,
            next_short,
            next,
            sum,
            value,
        ));
        lemma_close_sums_were_finite(next_long, next_short, next, sum, value);
        assert(low.value() <= long[0].pnl_ratio.value() + short[0].pnl_ratio.value() <= high.value());
        lemma_sum_between(l.pnl_ratio, s.pnl_ratio, low, high);
        assert(term.finite());
        lemma_sum_is_near(matched, amount);
        lemma_sum_is_near(pnl, term);
        lemma_product_is_near(amount, ratio);
        lemma_rate_term(
            amount.value(),
            ratio.value(),
            term.value() * one(),
            low.value(),
            high.value(),
        );
        lemma_booking_step(
            n,
            matched.value(),
            amount.value(),
            next.value(),
            pnl.value(),
            term.value(),
            sum.value(),
            low.value(),
            high.value(),
            one(),
        );
        assert(profits_between(next_long, next_short, low.value(), high.value())) by {
            assert forall|i: int, j: int| 0 <= i < next_long.len() && 0 <= j < next_short.len() implies low.value()
                <= (#[trigger] next_long[i]).pnl_ratio.value() + (#[trigger] next_short[j]).pnl_ratio.value()
                <= high.value() by {
                assert(low.value() <= long[i + long.len() - next_long.len()].pnl_ratio.value() + short[j + short.len()
                    - next_short.len()].pnl_ratio.value() <= high.value());
            }
        }
        assert(!next.negative()) by {
            if next.negative() && next.magnitude() > 0 {
                lemma_units_increase(0, next.magnitude());
            }
        }
        lemma_close_profit_from(next_long, next_short, next, sum, value, low, high, n + 1);
        let m = matched_close(long, short, matched, pnl, spread);
        lemma_booked_loosens(
            m.pnl.value(),
            m.matched.value(),
            low.value(),
            high.value(),
            n + 1 + next_long.len() + next_short.len(),
            n + long.len() + short.len(),
            one(),
        );
    }
}

/// The profit that is booked on a closing is that of what was matched, and of
/// nothing else: where the profits of any two fills come to a rate between two
/// others, what is booked lies between those rates of the matched amount, up to
/// rounding. Where they all come to one rate it is that rate of it.
pub proof fn lemma_profit_is_that_of_what_is_matched(
    long: Seq<CloseUnmatchedFill>,
    short: Seq<CloseUnmatchedFill>,
    low: Double,
    high: Double,
)
    requires
        are_close_fills(long),
        are_close_fills(short),
        low.finite(),
        high.finite(),
        profits_between(long, short, low.value(), high.value()),
        long.len() + short.len() < 0x1_0000_0000_0000,
    ensures
        ({
            let zero = Double { bits: ZERO };
            let m = matched_close(long, short, zero, zero, zero);
            m.matched.finite() && m.pnl.finite() ==> booked_between(
                m.pnl.value(),
                m.matched.value(),
                low.value(),
                high.value(),
                (long.len() + short.len()) as int,
                one(),
            ) && m.matched.value() >= 0
        }),
{
    let zero = Double { bits: ZERO };
    let m = matched_close(long, short, zero, zero, zero);
    assert(units(0) == 0);
    assert(0 * one() == 0 && 0 * high.value() == 0 && 0 * low.value() == 0 && 0 * larger(low.value(), high.value()) == 0
        && 16 * 0 * (0 * larger(low.value(), high.value()) + 0 * (fine() * one())) == 0) by (nonlinear_arith);
    if m.matched.finite() && m.pnl.finite() {
        lemma_close_profit_from(long, short, zero, zero, zero, low, high, 0);
    }
}

/// Of one fill on each side the smaller amount is matched, and the profit that is
/// booked is the sum of both ratios on it.
pub proof fn lemma_two_fills_book_the_smaller(long: CloseUnmatchedFill, short: CloseUnmatchedFill)
    requires
        are_close_fills(seq![long]),
        are_close_fills(seq![short]),
        long.pnl_ratio.add_spec(short.pnl_ratio).finite(),
    ensures
        ({
            let zero = Double { bits: ZERO };
            let m = matched_close(seq![long], seq![short], zero, zero, zero);
            let least = if short.notional_usdt.lt_spec(long.notional_usdt) {
                short.notional_usdt
            } else {
                long.notional_usdt
            };
            &&& m.matched == least
            &&& m.pnl.nan() || m.pnl.eq_spec(least.mul_spec(long.pnl_ratio.add_spec(short.pnl_ratio)))
        }),
{
    let zero = Double { bits: ZERO };
    assert(seq![long][0] == long && seq![short][0] == short);
    let amount = common(long.notional_usdt, short.notional_usdt);
    lemma_common(long.notional_usdt, short.notional_usdt);
    lemma_one_is_used_up(long.notional_usdt, short.notional_usdt);
    let a = close_rest(seq![long], amount);
    let b = close_rest(seq![short], amount);
    assert(a.len() == 0 || b.len() == 0);
    let term = amount.mul_spec(long.pnl_ratio.add_spec(short.pnl_ratio));
    lemma_zero_is_neutral(amount);
    assert(!term.nan());
    lemma_zero_is_neutral(term);
    reveal_with_fuel(matched_close, 2);
    let m = matched_close(seq![long], seq![short], zero, zero, zero);
    assert(m.matched == zero.add_spec(amount));
    assert(m.matched.magnitude() == amount.magnitude());
    assert(!m.matched.negative()) by {
        if amount.zero() {
            assert(units(0) == 0);
        }
    }
}

/// A term of a gap: an amount times a difference of prices over the first of them.
proof fn lemma_gap_term(a: int, gap: int, g: int, b: int, t: int, lp: int, low: int, high: int, e: int)
    requires
        a >= 0,
        lp >= e,
        e > 0,
        one() == 0x10_0000_0000_0000 * e,
        low * lp <= gap * one() <= high * lp,
        fine() * size(g - gap) <= size(gap),
        fine() * size(b * one() - a * g) <= size(a * g) + fine() * one(),
        fine() * size(t * lp - b * one()) <= size(b) * one() + fine() * lp,
    ensures
        fine() * (t * one() - a * high) <= 8 * (a * larger(low, high)) + 4 * (fine() * (fine() * one())),
        fine() * (a * low - t * one()) <= 8 * (a * larger(low, high)) + 4 * (fine() * (fine() * one())),
{
    let f = fine();
    let u = one();
    let h = larger(low, high);
    lemma_one_is_fine();
    let gu = gap * u;
    let hl = h * lp;
    assert(size(gu) <= hl) by {
        lemma_size_of_product(lp, high);
        lemma_size_of_product(lp, low);
        assert(lp * size(high) <= hl && lp * size(low) <= hl && high * lp == lp * high && low * lp == lp * low)
            by (nonlinear_arith)
            requires
                hl == h * lp,
                lp > 0,
                size(high) <= h,
                size(low) <= h,
        ;
    }
    lemma_size_of_product(gap, u);
    assert(size(gap) * u == size(gu));
    assert(size(g) <= 2 * size(gap));
    let ag = a * g;
    let agu = size(ag) * u;
    lemma_size_of_product(a, g);
    let ahl = a * hl;
    assert(agu <= 2 * ahl) by (nonlinear_arith)
        requires
            agu == a * size(g) * u,
            ahl == a * hl,
            size(g) <= 2 * size(gap),
            size(gap) * u <= hl,
            a >= 0,
            u > 0,
    {
        assert(size(g) * u <= 2 * hl);
        assert(a * size(g) * u == a * (size(g) * u));
    }
    let bu = b * u;
    lemma_size_of_product(b, u);
    assert(size(bu) <= 2 * size(ag) + u) by {
        let x = size(bu - ag);
        assert(x <= size(ag) + u) by (nonlinear_arith)
            requires
                f * x <= size(ag) + f * u,
                f == 0x20_0000_0000_0000,
                size(ag) >= 0,
                x >= 0,
        ;
    }
    let uu = u * u;
    let buu = size(bu) * u;
    assert(buu <= 4 * ahl + uu) by (nonlinear_arith)
        requires
            buu == size(bu) * u,
            size(bu) <= 2 * size(ag) + u,
            agu == size(ag) * u,
            agu <= 2 * ahl,
            uu == u * u,
            u > 0,
    ;
    // Everything times the first price and one.
    let tlu = t * lp * u;
    let x = t * lp - bu;
    let y = bu - ag;
    let z = g - gap;
    let agapu = a * gu;
    assert(tlu - agapu == x * u + y * u + a * z * u) by (nonlinear_arith)
        requires
            tlu == t * lp * u,
            x == t * lp - bu,
            y == bu - ag,
            z == g - gap,
            ag == a * g,
            agapu == a * gu,
            gu == gap * u,
    ;
    let w1 = buu + f * lp * u;
    let w2 = agu + f * uu;
    let w3 = a * size(gu);
    assert(f * size(x * u) <= w1 && f * size(y * u) <= w2 && f * size(a * z * u) <= w3) by {
        lemma_size_of_product(x, u);
        lemma_size_of_product(y, u);
        lemma_size_of_product(a, z);
        lemma_size_of_product(a * z, u);
        assert(f * (size(x) * u) <= w1) by (nonlinear_arith)
            requires
                f * size(x) <= size(bu) + f * lp,
                w1 == size(bu) * u + f * lp * u,
                u > 0,
        ;
        assert(f * (size(y) * u) <= w2) by (nonlinear_arith)
            requires
                f * size(y) <= size(ag) + f * u,
                w2 == size(ag) * u + f * (u * u),
                u > 0,
        ;
        assert(f * (a * size(z) * u) <= w3) by (nonlinear_arith)
            requires
                f * size(z) <= size(gap),
                w3 == a * (size(gap) * u),
                a >= 0,
                u > 0,
        ;
    }
    assert(w3 <= ahl) by (nonlinear_arith)
        requires
            w3 == a * size(gu),
            ahl == a * hl,
            size(gu) <= hl,
            a >= 0,
    ;
    let q = tlu - agapu;
    let total = 7 * ahl + f * lp * u + (f + 1) * uu;
    assert(f * size(q) <= total) by {
        let xx = x * u;
        let yy = y * u;
        let zz = a * z * u;
        assert(size(q) <= size(xx) + size(yy) + size(zz));
        assert(f * size(q) <= f * size(xx) + f * size(yy) + f * size(zz)) by (nonlinear_arith)
            requires
                size(q) <= size(xx) + size(yy) + size(zz),
                f > 0,
        ;
        assert((f + 1) * uu == f * uu + uu) by (nonlinear_arith);
    }
    // What is lost in units, over the price.
    let fu = f * u;
    let ulp = u * lp;
    assert(uu <= 0x10_0000_0000_0000 * ulp) by (nonlinear_arith)
        requires
            uu == u * u,
            ulp == u * lp,
            u == 0x10_0000_0000_0000 * e,
            lp >= e,
            e > 0,
    ;
    let lose = f * (fu * lp);
    assert(f * lp * u + (f + 1) * uu <= 4 * lose) by (nonlinear_arith)
        requires
            uu <= 0x10_0000_0000_0000 * ulp,
            ulp == u * lp,
            lose == f * (fu * lp),
            fu == f * u,
            f == 0x20_0000_0000_0000,
            ulp >= 0,
    ;
    assert(ulp >= 0) by (nonlinear_arith)
        requires
            ulp == u * lp,
            u > 0,
            lp > 0,
    ;
    lemma_both_signs(f, q);
    let ah = a * h;
    assert(ahl == ah * lp && ah >= 0) by (nonlinear_arith)
        requires
            ahl == a * hl,
            hl == h * lp,
            ah == a * h,
            a >= 0,
            h >= 0,
    ;
    let up = f * (t * u - a * high);
    let down = f * (a * low - t * u);
    let bound = 8 * ah + 4 * (f * fu);
    assert(bound * lp == 8 * (ah * lp) + 4 * lose) by (nonlinear_arith)
        requires
            bound == 8 * ah + 4 * (f * fu),
            lose == f * (fu * lp),
    ;
    assert(agapu <= a * (high * lp) && a * (low * lp) <= agapu) by (nonlinear_arith)
        requires
            agapu == a * gu,
            low * lp <= gu <= high * lp,
            a >= 0,
    ;
    let ahp = a * (high * lp);
    let alp = a * (low * lp);
    assert((t * u - a * high) * lp == tlu - ahp && (a * low - t * u) * lp == alp - tlu) by (nonlinear_arith)
        requires
            tlu == t * lp * u,
            ahp == a * (high * lp),
            alp == a * (low * lp),
    ;
    lemma_factor_out(f, t * u - a * high, lp);
    lemma_factor_out(f, a * low - t * u, lp);
    assert(f * (tlu - ahp) == f * q + f * (agapu - ahp)) by (nonlinear_arith)
        requires
            q == tlu - agapu,
    ;
    assert(f * (alp - tlu) == f * (alp - agapu) - f * q) by (nonlinear_arith)
        requires
            q == tlu - agapu,
    ;
    assert(f * (agapu - a * (high * lp)) <= 0 && f * (a * (low * lp) - agapu) <= 0) by (nonlinear_arith)
        requires
            agapu <= a * (high * lp),
            a * (low * lp) <= agapu,
            f > 0,
    ;
    assert(ah * lp >= 0) by (nonlinear_arith)
        requires
            ah >= 0,
            lp > 0,
    ;
    assert(up * lp <= bound * lp && down * lp <= bound * lp);
    assert(up <= bound && down <= bound) by (nonlinear_arith)
        requires
            up * lp <= bound * lp,
            down * lp <= bound * lp,
            lp > 0,
    ;
}

proof fn lemma_factor_out(f: int, x: int, y: int)
    ensures
        f * x * y == f * (x * y),
{
    assert(f * x * y == f * (x * y)) by (nonlinear_arith);
}

/// What the smallest step above one is worth.
proof fn lemma_epsilon()
    ensures
        (Double { bits: EPSILON }).value() > 0,
        one() == 0x10_0000_0000_0000 * (Double { bits: EPSILON }).value(),
        (Double { bits: EPSILON }).finite(),
{
    lemma_units_at(EPSILON as nat, 970, BINADE as nat);
    lemma2_to64_rest();
    lemma_pow2_adds(52, 970);
    lemma_pow2_adds(52, 1022);
    lemma_pow2_pos(1022);
}

/// The exact numbers behind a term of a gap.
proof fn lemma_gap_value(amount: Double, first: Double, second: Double, low: int, high: int)
    requires
        amount.finite(),
        !amount.negative(),
        first.finite(),
        (Double { bits: EPSILON }).le_spec(first),
        second.finite(),
        low * first.value() <= (second.value() - first.value()) * one() <= high * first.value(),
        amount.mul_spec(second.sub_spec(first)).div_spec(first).finite(),
    ensures
        ({
            let t = amount.mul_spec(second.sub_spec(first)).div_spec(first).value();
            let a = amount.value();
            &&& fine() * (t * one() - a * high) <= 8 * (a * larger(low, high)) + 4 * (fine() * (fine() * one()))
            &&& fine() * (a * low - t * one()) <= 8 * (a * larger(low, high)) + 4 * (fine() * (fine() * one()))
        }),
{
    let e = Double { bits: EPSILON };
    lemma_epsilon();
    lemma_order_is_numeric(e, first);
    let g = second.sub_spec(first);
    let b = amount.mul_spec(g);
    let t = b.div_spec(first);
    lemma_neg_turns(first);
    assert(!b.nan() && b.finite());
    assert(!g.nan());
    assert(g.finite()) by {
        if g.infinite() && amount.zero() {
            assert(b.nan());
        }
    }
    assert(positive(first));
    lemma_difference_is_near(second, first);
    lemma_product_is_near(amount, g);
    lemma_quotient_is_near(b, first);
    lemma_gap_term(
        amount.value(),
        second.value() - first.value(),
        g.value(),
        b.value(),
        t.value(),
        first.value(),
        low,
        high,
        e.value(),
    );
}

/// One match of the fills of a side: what was open of it is open still or matched,
/// up to rounding and to what is too small to be kept.
proof fn lemma_kept_step(n: int, total: int, m: int, a: int, next: int, first: int, rest: int, left: int, e: int)
    requires
        0 <= n < 0x1_0000_0000_0000,
        e > 0,
        m >= 0,
        0 <= a <= first,
        rest >= 0,
        total >= 0,
        left >= 0,
        fine() * size(m + (first + rest) - total) <= 4 * n * (total + fine() * (2 * e)),
        fine() * size(next - (m + a)) <= m + a,
        fine() * size(left - (first - a)) <= first - a || (left == 0 && first - a <= 2 * e),
    ensures
        fine() * size(next + (left + rest) - total) <= 4 * (n + 1) * (total + fine() * (2 * e)),
        next >= 0,
{
    let f = fine();
    let fe = f * (2 * e);
    let s = first + rest;
    let was = m + s - total;
    let bound = 4 * n * (total + fe);
    assert(bound <= f * total + f * fe) by (nonlinear_arith)
        requires
            bound == 4 * n * (total + fe),
            0 <= n < 0x1_0000_0000_0000,
            f == 0x20_0000_0000_0000,
            total >= 0,
            fe >= 0,
    ;
    assert(size(was) <= total + fe) by (nonlinear_arith)
        requires
            f * size(was) <= f * total + f * fe,
            f > 0,
    ;
    let d1 = next - (m + a);
    let d2 = left - (first - a);
    assert(f * size(d2) <= s - a + fe) by {
        if left == 0 && first - a <= 2 * e {
            lemma_less_times(f, size(d2), 2 * e);
        }
    }
    let now = next + (left + rest) - total;
    assert(now == was + d1 + d2);
    assert(f * size(now) <= f * size(was) + f * size(d1) + f * size(d2)) by (nonlinear_arith)
        requires
            size(now) <= size(was) + size(d1) + size(d2),
            f > 0,
    ;
    assert(4 * (n + 1) * (total + fe) == bound + 4 * (total + fe)) by (nonlinear_arith)
        requires
            bound == 4 * n * (total + fe),
    ;
}

/// Whether fills of an opening are amounts.
pub open spec fn are_guard_fills(fills: Seq<GuardUnmatchedFill>) -> bool {
    forall|i: int|
        0 <= i < fills.len() ==> (#[trigger] fills[i]).notional_usdt.finite() && !fills[i].notional_usdt.negative()
}

/// The open fills after one match.
pub open spec fn guard_rest(fills: Seq<GuardUnmatchedFill>, amount: Double) -> Seq<GuardUnmatchedFill> {
    if used_up(fills[0].notional_usdt, amount) {
        fills.drop_first()
    } else {
        fills.update(
            0,
            GuardUnmatchedFill { notional_usdt: fills[0].notional_usdt.sub_spec(amount), price: fills[0].price },
        )
    }
}

proof fn lemma_guard_rest(fills: Seq<GuardUnmatchedFill>, amount: Double)
    requires
        are_guard_fills(fills),
        fills.len() > 0,
        amount.finite(),
        !amount.negative(),
        amount.le_spec(fills[0].notional_usdt),
    ensures
        are_guard_fills(guard_rest(fills, amount)),
        guard_rest(fills, amount).len() <= fills.len(),
        forall|i: int|
            0 <= i < guard_rest(fills, amount).len() ==> (#[trigger] guard_rest(fills, amount)[i]).price == fills[i
                + fills.len() - guard_rest(fills, amount).len()].price,
{
    let rest = guard_rest(fills, amount);
    lemma_rest(fills[0].notional_usdt, amount);
    assert forall|i: int| 0 <= i < rest.len() implies (#[trigger] rest[i]).notional_usdt.finite()
        && !rest[i].notional_usdt.negative() by {
        if rest.len() < fills.len() {
            assert(rest[i] == fills[i + 1]);
        } else if i > 0 {
            assert(rest[i] == fills[i]);
        }
    }
    assert forall|i: int| 0 <= i < rest.len() implies (#[trigger] rest[i]).price == fills[i + fills.len()
        - rest.len()].price by {
        if rest.len() < fills.len() {
            assert(rest[i] == fills[i + 1]);
        } else if i > 0 {
            assert(rest[i] == fills[i]);
        }
    }
}

proof fn lemma_guard_sums_were_finite(
    long: Seq<GuardUnmatchedFill>,
    short: Seq<GuardUnmatchedFill>,
    matched: Double,
    edge: Double,
)
    ensures
        ({
            let m = matched_guard(long, short, matched, edge);
            &&& m.matched.finite() ==> matched.finite()
            &&& m.edge.finite() ==> edge.finite()
        }),
    decreases long.len() + short.len(),
{
    if long.len() > 0 && short.len() > 0 {
        let l = long[0];
        let s = short[0];
        let amount = common(l.notional_usdt, s.notional_usdt);
        let next_long = guard_rest(long, amount);
        let next_short = guard_rest(short, amount);
        if next_long.len() + next_short.len() < long.len() + short.len() {
            lemma_guard_sums_were_finite(
                next_long,
                next_short,
                matched.add_spec(amount),
                edge.add_spec(amount.mul_spec(s.price.sub_spec(l.price)).div_spec(l.price)),
            );
        }
    }
}

/// Whether the prices of fills are not all but nothing.
pub open spec fn are_guard_prices(fills: Seq<GuardUnmatchedFill>) -> bool {
    forall|i: int|
        0 <= i < fills.len() ==> (#[trigger] fills[i]).price.finite() && (Double { bits: EPSILON }).le_spec(
            fills[i].price,
        )
}

/// Whether any short fill was sold above any long one by a share between two others.
pub open spec fn guard_gaps_between(long: Seq<GuardUnmatchedFill>, short: Seq<GuardUnmatchedFill>, low: int, high: int) -> bool {
    forall|i: int, j: int|
        0 <= i < long.len() && 0 <= j < short.len() ==> low * (#[trigger] long[i]).price.value() <= ((
        #[trigger] short[j]).price.value() - long[i].price.value()) * one() <= high * long[i].price.value()
}

proof fn lemma_guard_gap_from(
    long: Seq<GuardUnmatchedFill>,
    short: Seq<GuardUnmatchedFill>,
    matched: Double,
    edge: Double,
    low: int,
    high: int,
    n: int,
)
    requires
        are_guard_fills(long),
        are_guard_fills(short),
        are_guard_prices(long),
        are_guard_prices(short),
        guard_gaps_between(long, short, low, high),
        matched_guard(long, short, matched, edge).matched.finite(),
        matched_guard(long, short, matched, edge).edge.finite(),
        !matched.negative(),
        0 <= n,
        n + long.len() + short.len() < 0x1_0000_0000_0000,
        booked_between(edge.value(), matched.value(), low, high, n, fine() * one()),
    ensures
        ({
            let m = matched_guard(long, short, matched, edge);
            &&& booked_between(
                m.edge.value(),
                m.matched.value(),
                low,
                high,
                n + long.len() + short.len(),
                fine() * one(),
            )
            &&& m.matched.value() >= 0
        }),
    decreases long.len() + short.len(),
{
    lemma_one_is_fine();
    let w = fine() * one();
    assert(w > 0) by (nonlinear_arith)
        requires
            w == fine() * one(),
            fine() == 0x20_0000_0000_0000,
            one() > 0,
    ;
    lemma_guard_sums_were_finite(long, short, matched, edge);
    if long.len() == 0 || short.len() == 0 {
        lemma_booked_loosens(edge.value(), matched.value(), low, high, n, n + long.len() + short.len(), w);
    } else {
        let l = long[0];
        let s = short[0];
        assert(l.notional_usdt.finite() && s.notional_usdt.finite());
        let amount = common(l.notional_usdt, s.notional_usdt);
        lemma_common(l.notional_usdt, s.notional_usdt);
        lemma_one_is_used_up(l.notional_usdt, s.notional_usdt);
        let next_long = guard_rest(long, amount);
        let next_short = guard_rest(short, amount);
        lemma_guard_rest(long, amount);
        lemma_guard_rest(short, amount);
        assert(long[0].price.finite() && short[0].price.finite());
        let term = amount.mul_spec(s.price.sub_spec(l.price)).div_spec(l.price);
        let next = matched.add_spec(amount);
        let sum = edge.add_spec(term);
        assert(matched_guard(long, short, matched, edge) == matched_guard(next_long, next_short, next, sum));
        lemma_guard_sums_were_finite(next_long, next_short, next, sum);
        assert(low * long[0].price.value() <= (short[0].price.value() - long[0].price.value()) * one() <= high
            * long[0].price.value());
        assert(term.finite());
        lemma_sum_is_near(matched, amount);
        lemma_sum_is_near(edge, term);
        lemma_gap_value(amount, l.price, s.price, low, high);
        lemma_booking_step(
            n,
            matched.value(),
            amount.value(),
            next.value(),
            edge.value(),
            term.value(),
            sum.value(),
            low,
            high,
            w,
        );
        assert(guard_gaps_between(next_long, next_short, low, high)) by {
            assert forall|i: int, j: int| 0 <= i < next_long.len() && 0 <= j < next_short.len() implies low * (
            #[trigger] next_long[i]).price.value() <= ((#[trigger] next_short[j]).price.value()
                - next_long[i].price.value()) * one() <= high * next_long[i].price.value() by {
                let x = long[i + long.len() - next_long.len()];
                let y = short[j + short.len() - next_short.len()];
                assert(low * x.price.value() <= (y.price.value() - x.price.value()) * one() <= high
                    * x.price.value());
            }
        }
        assert(are_guard_prices(next_long)) by {
            assert forall|i: int| 0 <= i < next_long.len() implies (#[trigger] next_long[i]).price.finite() && (Double {
                bits: EPSILON,
            }).le_spec(next_long[i].price) by {
                assert(long[i + long.len() - next_long.len()].price.finite());
            }
        }
        assert(are_guard_prices(next_short)) by {
            assert forall|i: int| 0 <= i < next_short.len() implies (#[trigger] next_short[i]).price.finite() && (Double {
                bits: EPSILON,
            }).le_spec(next_short[i].price) by {
                assert(short[i + short.len() - next_short.len()].price.finite());
            }
        }
        assert(!next.negative()) by {
            if next.negative() && next.magnitude() > 0 {
                lemma_units_increase(0, next.magnitude());
            }
        }
        lemma_guard_gap_from(next_long, next_short, next, sum, low, high, n + 1);
        let m = matched_guard(long, short, matched, edge);
        lemma_booked_loosens(
            m.edge.value(),
            m.matched.value(),
            low,
            high,
            n + 1 + next_long.len() + next_short.len(),
            n + long.len() + short.len(),
            w,
        );
    }
}

/// The gap that is booked on an opening is that of what was matched: where any
/// short fill was sold above any long one by a share between two others, what is
/// booked lies between those shares of the matched amount, up to rounding.
pub proof fn lemma_guard_gap_is_that_of_what_is_matched(
    long: Seq<GuardUnmatchedFill>,
    short: Seq<GuardUnmatchedFill>,
    low: int,
    high: int,
)
    requires
        are_guard_fills(long),
        are_guard_fills(short),
        are_guard_prices(long),
        are_guard_prices(short),
        guard_gaps_between(long, short, low, high),
        long.len() + short.len() < 0x1_0000_0000_0000,
    ensures
        ({
            let zero = Double { bits: ZERO };
            let m = matched_guard(long, short, zero, zero);
            m.matched.finite() && m.edge.finite() ==> booked_between(
                m.edge.value(),
                m.matched.value(),
                low,
                high,
                (long.len() + short.len()) as int,
                fine() * one(),
            ) && m.matched.value() >= 0
        }),
{
    let zero = Double { bits: ZERO };
    let m = matched_guard(long, short, zero, zero);
    assert(units(0) == 0);
    assert(0 * one() == 0 && 0 * high == 0 && 0 * low == 0 && 0 * larger(low, high) == 0 && 16 * 0 * (0 * larger(
        low,
        high,
    ) + 0 * (fine() * (fine() * one()))) == 0) by (nonlinear_arith);
    if m.matched.finite() && m.edge.finite() {
        lemma_guard_gap_from(long, short, zero, zero, low, high, 0);
    }
}

/// What is open of fills, exactly.
pub open spec fn guard_open(fills: Seq<GuardUnmatchedFill>) -> int
    decreases fills.len(),
{
    if fills.len() == 0 {
        0
    } else {
        fills[0].notional_usdt.value() + guard_open(fills.drop_first())
    }
}

proof fn lemma_guard_open_is_an_amount(fills: Seq<GuardUnmatchedFill>)
    requires
        are_guard_fills(fills),
    ensures
        guard_open(fills) >= 0,
    decreases fills.len(),
{
    if fills.len() > 0 {
        assert(fills[0].notional_usdt.finite());
        let rest = fills.drop_first();
        assert(are_guard_fills(rest)) by {
            assert forall|i: int| 0 <= i < rest.len() implies (#[trigger] rest[i]).notional_usdt.finite()
                && !rest[i].notional_usdt.negative() by {
                assert(rest[i] == fills[i + 1]);
            }
        }
        lemma_guard_open_is_an_amount(rest);
    }
}

proof fn lemma_guard_kept(fills: Seq<GuardUnmatchedFill>, amount: Double, matched: Double, total: int, n: int)
    requires
        are_guard_fills(fills),
        fills.len() > 0,
        amount.finite(),
        !amount.negative(),
        amount.le_spec(fills[0].notional_usdt),
        matched.finite(),
        !matched.negative(),
        matched.add_spec(amount).finite(),
        total >= 0,
        0 <= n < 0x1_0000_0000_0000,
        fine() * size(matched.value() + guard_open(fills) - total) <= 4 * n * (total + fine() * (2 * (Double {
            bits: EPSILON,
        }).value())),
    ensures
        fine() * size(matched.add_spec(amount).value() + guard_open(guard_rest(fills, amount)) - total) <= 4 * (n + 1) * (
        total + fine() * (2 * (Double { bits: EPSILON }).value())),
        !matched.add_spec(amount).negative(),
{
    let e = Double { bits: EPSILON };
    lemma_epsilon();
    let first = fills[0].notional_usdt;
    let tail = fills.drop_first();
    let left = first.sub_spec(amount);
    lemma_rest(first, amount);
    lemma_order_is_numeric(amount, first);
    lemma_order_is_numeric(left, e);
    lemma_difference_is_near(first, amount);
    lemma_sum_is_near(matched, amount);
    assert(are_guard_fills(tail)) by {
        assert forall|i: int| 0 <= i < tail.len() implies (#[trigger] tail[i]).notional_usdt.finite()
            && !tail[i].notional_usdt.negative() by {
            assert(tail[i] == fills[i + 1]);
        }
    }
    lemma_guard_open_is_an_amount(tail);
    let rest = guard_rest(fills, amount);
    let next = matched.add_spec(amount);
    if used_up(first, amount) {
        assert(rest == tail);
        lemma_kept_step(
            n,
            total,
            matched.value(),
            amount.value(),
            next.value(),
            first.value(),
            guard_open(tail),
            0,
            e.value(),
        );
    } else {
        assert(rest.drop_first() =~= tail);
        lemma_kept_step(
            n,
            total,
            matched.value(),
            amount.value(),
            next.value(),
            first.value(),
            guard_open(tail),
            left.value(),
            e.value(),
        );
    }
    if next.negative() && next.magnitude() > 0 {
        lemma_units_increase(0, next.magnitude());
    }
}

proof fn lemma_guard_kept_from(
    long: Seq<GuardUnmatchedFill>,
    short: Seq<GuardUnmatchedFill>,
    matched: Double,
    edge: Double,
    long_total: int,
    short_total: int,
    n: int,
)
    requires
        are_guard_fills(long),
        are_guard_fills(short),
        matched_guard(long, short, matched, edge).matched.finite(),
        !matched.negative(),
        long_total >= 0,
        short_total >= 0,
        0 <= n,
        n + long.len() + short.len() < 0x1_0000_0000_0000,
        fine() * size(matched.value() + guard_open(long) - long_total) <= 4 * n * (long_total + fine() * (2 * (Double {
            bits: EPSILON,
        }).value())),
        fine() * size(matched.value() + guard_open(short) - short_total) <= 4 * n * (short_total + fine() * (2 * (
        Double { bits: EPSILON }).value())),
    ensures
        ({
            let m = matched_guard(long, short, matched, edge);
            let k = n + long.len() + short.len();
            let small = fine() * (2 * (Double { bits: EPSILON }).value());
            &&& fine() * size(m.matched.value() + guard_open(m.long) - long_total) <= 4 * k * (long_total + small)
            &&& fine() * size(m.matched.value() + guard_open(m.short) - short_total) <= 4 * k * (short_total + small)
            &&& m.long.len() == 0 || m.short.len() == 0
            &&& guard_follows(m.long, long)
            &&& guard_follows(m.short, short)
        }),
    decreases long.len() + short.len(),
{
    lemma_guard_sums_were_finite(long, short, matched, edge);
    lemma_epsilon();
    let small = fine() * (2 * (Double { bits: EPSILON }).value());
    if long.len() == 0 || short.len() == 0 {
        let k = n + long.len() + short.len();
        assert(4 * n * (long_total + small) <= 4 * k * (long_total + small) && 4 * n * (short_total + small) <= 4 * k * (
        short_total + small)) by (nonlinear_arith)
            requires
                n <= k,
                long_total + small >= 0,
                short_total + small >= 0,
        ;
    } else {
        let l = long[0];
        let s = short[0];
        assert(l.notional_usdt.finite() && s.notional_usdt.finite());
        let amount = common(l.notional_usdt, s.notional_usdt);
        lemma_common(l.notional_usdt, s.notional_usdt);
        lemma_one_is_used_up(l.notional_usdt, s.notional_usdt);
        let next_long = guard_rest(long, amount);
        let next_short = guard_rest(short, amount);
        lemma_guard_rest(long, amount);
        lemma_guard_rest(short, amount);
        let next = matched.add_spec(amount);
        let sum = edge.add_spec(amount.mul_spec(s.price.sub_spec(l.price)).div_spec(l.price));
        assert(matched_guard(long, short, matched, edge) == matched_guard(next_long, next_short, next, sum));
        lemma_guard_sums_were_finite(next_long, next_short, next, sum);
        lemma_guard_kept(long, amount, matched, long_total, n);
        lemma_guard_kept(short, amount, matched, short_total, n);
        lemma_guard_kept_from(next_long, next_short, next, sum, long_total, short_total, n + 1);
        let m = matched_guard(long, short, matched, edge);
        let j = n + 1 + next_long.len() + next_short.len();
        let k = n + long.len() + short.len();
        assert(4 * j * (long_total + small) <= 4 * k * (long_total + small) && 4 * j * (short_total + small) <= 4 * k * (
        short_total + small)) by (nonlinear_arith)
            requires
                j <= k,
                long_total + small >= 0,
                short_total + small >= 0,
        ;
        lemma_guard_follows(m.long, long, amount);
        lemma_guard_follows(m.short, short, amount);
    }
}

/// Whether fills are what others come to once the oldest of them are matched: the
/// youngest of them, of which the first may be open in part only.
pub open spec fn guard_follows(new: Seq<GuardUnmatchedFill>, old: Seq<GuardUnmatchedFill>) -> bool {
    &&& new.len() <= old.len()
    &&& forall|i: int| 1 <= i < new.len() ==> #[trigger] new[i] == old[i + old.len() - new.len()]
    &&& new.len() > 0 ==> new[0].price == old[old.len() - new.len()].price && new[0].notional_usdt.le_spec(
        old[old.len() - new.len()].notional_usdt,
    )
}

proof fn lemma_guard_follows(new: Seq<GuardUnmatchedFill>, old: Seq<GuardUnmatchedFill>, amount: Double)
    requires
        are_guard_fills(old),
        old.len() > 0,
        amount.finite(),
        !amount.negative(),
        amount.le_spec(old[0].notional_usdt),
        guard_follows(new, guard_rest(old, amount)),
    ensures
        guard_follows(new, old),
{
    let rest = guard_rest(old, amount);
    lemma_rest(old[0].notional_usdt, amount);
    assert forall|i: int| 1 <= i < new.len() implies #[trigger] new[i] == old[i + old.len() - new.len()] by {
        assert(new[i] == rest[i + rest.len() - new.len()]);
    }
}

/// Matching loses nothing and makes up nothing: on either side what is matched and
/// what stays open come to what was open, up to rounding and to what is too small
/// to be kept. The oldest fills are matched first, until one side has none.
pub proof fn lemma_guard_matching_keeps_every_fill(long: Seq<GuardUnmatchedFill>, short: Seq<GuardUnmatchedFill>)
    requires
        are_guard_fills(long),
        are_guard_fills(short),
        long.len() + short.len() < 0x1_0000_0000_0000,
    ensures
        ({
            let zero = Double { bits: ZERO };
            let m = matched_guard(long, short, zero, zero);
            let k = long.len() + short.len();
            let small = fine() * (2 * (Double { bits: EPSILON }).value());
            m.matched.finite() ==> {
                &&& fine() * size(m.matched.value() + guard_open(m.long) - guard_open(long)) <= 4 * k * (guard_open(long)
                    + small)
                &&& fine() * size(m.matched.value() + guard_open(m.short) - guard_open(short)) <= 4 * k * (guard_open(short)
                    + small)
                &&& m.long.len() == 0 || m.short.len() == 0
                &&& guard_follows(m.long, long)
                &&& guard_follows(m.short, short)
            }
        }),
{
    let zero = Double { bits: ZERO };
    assert(units(0) == 0);
    lemma_guard_open_is_an_amount(long);
    lemma_guard_open_is_an_amount(short);
    let small = fine() * (2 * (Double { bits: EPSILON }).value());
    assert(4 * 0 * (guard_open(long) + small) == 0 && 4 * 0 * (guard_open(short) + small) == 0) by (nonlinear_arith);
    if matched_guard(long, short, zero, zero).matched.finite() {
        lemma_guard_kept_from(long, short, zero, zero, guard_open(long), guard_open(short), 0);
    }
}

/// Whether the prices of fills are not all but nothing.
pub open spec fn are_close_prices(fills: Seq<CloseUnmatchedFill>) -> bool {
    forall|i: int|
        0 <= i < fills.len() ==> (#[trigger] fills[i]).price.finite() && (Double { bits: EPSILON }).le_spec(
            fills[i].price,
        )
}

/// Whether any short fill was sold above any long one by a share between two others.
pub open spec fn close_gaps_between(long: Seq<CloseUnmatchedFill>, short: Seq<CloseUnmatchedFill>, low: int, high: int) -> bool {
    forall|i: int, j: int|
        0 <= i < long.len() && 0 <= j < short.len() ==> low * (#[trigger] long[i]).price.value() <= ((
        #[trigger] short[j]).price.value() - long[i].price.value()) * one() <= high * long[i].price.value()
}

proof fn lemma_close_gap_from(
    long: Seq<CloseUnmatchedFill>,
    short: Seq<CloseUnmatchedFill>,
    matched: Double,
    pnl: Double,
    spread: Double,
    low: int,
    high: int,
    n: int,
)
    requires
        are_close_fills(long),
        are_close_fills(short),
        are_close_prices(long),
        are_close_prices(short),
        close_gaps_between(long, short, low, high),
        matched_close(long, short, matched, pnl, spread).matched.finite(),
        matched_close(long, short, matched, pnl, spread).spread.finite(),
        !matched.negative(),
        0 <= n,
        n + long.len() + short.len() < 0x1_0000_0000_0000,
        booked_between(spread.value(), matched.value(), low, high, n, fine() * one()),
    ensures
        ({
            let m = matched_close(long, short, matched, pnl, spread);
            &&& booked_between(
                m.spread.value(),
                m.matched.value(),
                low,
                high,
                n + long.len() + short.len(),
                fine() * one(),
            )
            &&& m.matched.value() >= 0
        }),
    decreases long.len() + short.len(),
{
    lemma_one_is_fine();
    let w = fine() * one();
    assert(w > 0) by (nonlinear_arith)
        requires
            w == fine() * one(),
            fine() == 0x20_0000_0000_0000,
            one() > 0,
    ;
    lemma_close_sums_were_finite(long, short, matched, pnl, spread);
    if long.len() == 0 || short.len() == 0 {
        lemma_booked_loosens(spread.value(), matched.value(), low, high, n, n + long.len() + short.len(), w);
    } else {
        let l = long[0];
        let s = short[0];
        assert(l.notional_usdt.finite() && s.notional_usdt.finite());
        let amount = common(l.notional_usdt, s.notional_usdt);
        lemma_common(l.notional_usdt, s.notional_usdt);
        lemma_one_is_used_up(l.notional_usdt, s.notional_usdt);
        let next_long = close_rest(long, amount);
        let next_short = close_rest(short, amount);
        lemma_close_rest(long, amount);
        lemma_close_rest(short, amount);
        assert(long[0].price.finite() && short[0].price.finite());
        assert(l.price.max_spec(Double { bits: EPSILON }) == l.price);
        let term = amount.mul_spec(s.price.sub_spec(l.price)).div_spec(l.price);
        let next = matched.add_spec(amount);
        let sum = spread.add_spec(term);
        let profit = pnl.add_spec(amount.mul_spec(l.pnl_ratio.add_spec(s.pnl_ratio)));
        assert(matched_close(long, short, matched, pnl, spread) == matched_close(next_long, next_short, next, profit, sum));
        lemma_close_sums_were_finite(next_long, next_short, next, profit, sum);
        assert(low * long[0].price.value() <= (short[0].price.value() - long[0].price.value()) * one() <= high
            * long[0].price.value());
        assert(term.finite());
        lemma_sum_is_near(matched, amount);
        lemma_sum_is_near(spread, term);
        lemma_gap_value(amount, l.price, s.price, low, high);
        lemma_booking_step(
            n,
            matched.value(),
            amount.value(),
            next.value(),
            spread.value(),
            term.value(),
            sum.value(),
            low,
            high,
            w,
        );
        assert(close_gaps_between(next_long, next_short, low, high)) by {
            assert forall|i: int, j: int| 0 <= i < next_long.len() && 0 <= j < next_short.len() implies low * (
            #[trigger] next_long[i]).price.value() <= ((#[trigger] next_short[j]).price.value()
                - next_long[i].price.value()) * one() <= high * next_long[i].price.value() by {
                let x = long[i + long.len() - next_long.len()];
                let y = short[j + short.len() - next_short.len()];
                assert(low * x.price.value() <= (y.price.value() - x.price.value()) * one() <= high
                    * x.price.value());
            }
        }
        assert(are_close_prices(next_long)) by {
            assert forall|i: int| 0 <= i < next_long.len() implies (#[trigger] next_long[i]).price.finite() && (Double {
                bits: EPSILON,
            }).le_spec(next_long[i].price) by {
                assert(long[i + long.len() - next_long.len()].price.finite());
            }
        }
        assert(are_close_prices(next_short)) by {
            assert forall|i: int| 0 <= i < next_short.len() implies (#[trigger] next_short[i]).price.finite() && (Double {
                bits: EPSILON,
            }).le_spec(next_short[i].price) by {
                assert(short[i + short.len() - next_short.len()].price.finite());
            }
        }
        assert(!next.negative()) by {
            if next.negative() && next.magnitude() > 0 {
                lemma_units_increase(0, next.magnitude());
            }
        }
        lemma_close_gap_from(next_long, next_short, next, profit, sum, low, high, n + 1);
        let m = matched_close(long, short, matched, pnl, spread);
        lemma_booked_loosens(
            m.spread.value(),
            m.matched.value(),
            low,
            high,
            n + 1 + next_long.len() + next_short.len(),
            n + long.len() + short.len(),
            w,
        );
    }
}

/// The gap that is booked on a closing is that of what was matched: where any
/// short fill was sold above any long one by a share between two others, what is
/// booked lies between those shares of the matched amount, up to rounding.
pub proof fn lemma_close_gap_is_that_of_what_is_matched(
    long: Seq<CloseUnmatchedFill>,
    short: Seq<CloseUnmatchedFill>,
    low: int,
    high: int,
)
    requires
        are_close_fills(long),
        are_close_fills(short),
        are_close_prices(long),
        are_close_prices(short),
        close_gaps_between(long, short, low, high),
        long.len() + short.len() < 0x1_0000_0000_0000,
    ensures
        ({
            let zero = Double { bits: ZERO };
            let m = matched_close(long, short, zero, zero, zero);
            m.matched.finite() && m.spread.finite() ==> booked_between(
                m.spread.value(),
                m.matched.value(),
                low,
                high,
                (long.len() + short.len()) as int,
                fine() * one(),
            ) && m.matched.value() >= 0
        }),
{
    let zero = Double { bits: ZERO };
    let m = matched_close(long, short, zero, zero, zero);
    assert(units(0) == 0);
    assert(0 * one() == 0 && 0 * high == 0 && 0 * low == 0 && 0 * larger(low, high) == 0 && 16 * 0 * (0 * larger(
        low,
        high,
    ) + 0 * (fine() * (fine() * one()))) == 0) by (nonlinear_arith);
    if m.matched.finite() && m.spread.finite() {
        lemma_close_gap_from(long, short, zero, zero, zero, low, high, 0);
    }
}

/// What is open of fills, exactly.
pub open spec fn close_open(fills: Seq<CloseUnmatchedFill>) -> int
    decreases fills.len(),
{
    if fills.len() == 0 {
        0
    } else {
        fills[0].notional_usdt.value() + close_open(fills.drop_first())
    }
}

proof fn lemma_close_open_is_an_amount(fills: Seq<CloseUnmatchedFill>)
    requires
        are_close_fills(fills),
    ensures
        close_open(fills) >= 0,
    decreases fills.len(),
{
    if fills.len() > 0 {
        assert(fills[0].notional_usdt.finite());
        let rest = fills.drop_first();
        assert(are_close_fills(rest)) by {
            assert forall|i: int| 0 <= i < rest.len() implies (#[trigger] rest[i]).notional_usdt.finite()
                && !rest[i].notional_usdt.negative() && rest[i].pnl_ratio.finite() by {
                assert(rest[i] == fills[i + 1]);
            }
        }
        lemma_close_open_is_an_amount(rest);
    }
}

proof fn lemma_close_kept(fills: Seq<CloseUnmatchedFill>, amount: Double, matched: Double, total: int, n: int)
    requires
        are_close_fills(fills),
        fills.len() > 0,
        amount.finite(),
        !amount.negative(),
        amount.le_spec(fills[0].notional_usdt),
        matched.finite(),
        !matched.negative(),
        matched.add_spec(amount).finite(),
        total >= 0,
        0 <= n < 0x1_0000_0000_0000,
        fine() * size(matched.value() + close_open(fills) - total) <= 4 * n * (total + fine() * (2 * (Double {
            bits: EPSILON,
        }).value())),
    ensures
        fine() * size(matched.add_spec(amount).value() + close_open(close_rest(fills, amount)) - total) <= 4 * (n + 1) * (
        total + fine() * (2 * (Double { bits: EPSILON }).value())),
        !matched.add_spec(amount).negative(),
{
    let e = Double { bits: EPSILON };
    lemma_epsilon();
    let first = fills[0].notional_usdt;
    let tail = fills.drop_first();
    let left = first.sub_spec(amount);
    lemma_rest(first, amount);
    lemma_order_is_numeric(amount, first);
    lemma_order_is_numeric(left, e);
    lemma_difference_is_near(first, amount);
    lemma_sum_is_near(matched, amount);
    assert(are_close_fills(tail)) by {
        assert forall|i: int| 0 <= i < tail.len() implies (#[trigger] tail[i]).notional_usdt.finite()
            && !tail[i].notional_usdt.negative() && tail[i].pnl_ratio.finite() by {
            assert(tail[i] == fills[i + 1]);
        }
    }
    lemma_close_open_is_an_amount(tail);
    let rest = close_rest(fills, amount);
    let next = matched.add_spec(amount);
    if used_up(first, amount) {
        assert(rest == tail);
        lemma_kept_step(
            n,
            total,
            matched.value(),
            amount.value(),
            next.value(),
            first.value(),
            close_open(tail),
            0,
            e.value(),
        );
    } else {
        assert(rest.drop_first() =~= tail);
        lemma_kept_step(
            n,
            total,
            matched.value(),
            amount.value(),
            next.value(),
            first.value(),
            close_open(tail),
            left.value(),
            e.value(),
        );
    }
    if next.negative() && next.magnitude() > 0 {
        lemma_units_increase(0, next.magnitude());
    }
}

proof fn lemma_close_kept_from(
    long: Seq<CloseUnmatchedFill>,
    short: Seq<CloseUnmatchedFill>,
    matched: Double,
    pnl: Double,
    spread: Double,
    long_total: int,
    short_total: int,
    n: int,
)
    requires
        are_close_fills(long),
        are_close_fills(short),
        matched_close(long, short, matched, pnl, spread).matched.finite(),
        !matched.negative(),
        long_total >= 0,
        short_total >= 0,
        0 <= n,
        n + long.len() + short.len() < 0x1_0000_0000_0000,
        fine() * size(matched.value() + close_open(long) - long_total) <= 4 * n * (long_total + fine() * (2 * (Double {
            bits: EPSILON,
        }).value())),
        fine() * size(matched.value() + close_open(short) - short_total) <= 4 * n * (short_total + fine() * (2 * (
        Double { bits: EPSILON }).value())),
    ensures
        ({
            let m = matched_close(long, short, matched, pnl, spread);
            let k = n + long.len() + short.len();
            let small = fine() * (2 * (Double { bits: EPSILON }).value());
            &&& fine() * size(m.matched.value() + close_open(m.long) - long_total) <= 4 * k * (long_total + small)
            &&& fine() * size(m.matched.value() + close_open(m.short) - short_total) <= 4 * k * (short_total + small)
            &&& m.long.len() == 0 || m.short.len() == 0
            &&& close_follows(m.long, long)
            &&& close_follows(m.short, short)
        }),
    decreases long.len() + short.len(),
{
    lemma_close_sums_were_finite(long, short, matched, pnl, spread);
    lemma_epsilon();
    let small = fine() * (2 * (Double { bits: EPSILON }).value());
    if long.len() == 0 || short.len() == 0 {
        let k = n + long.len() + short.len();
        assert(4 * n * (long_total + small) <= 4 * k * (long_total + small) && 4 * n * (short_total + small) <= 4 * k * (
        short_total + small)) by (nonlinear_arith)
            requires
                n <= k,
                long_total + small >= 0,
                short_total + small >= 0,
        ;
    } else {
        let l = long[0];
        let s = short[0];
        assert(l.notional_usdt.finite() && s.notional_usdt.finite());
        let amount = common(l.notional_usdt, s.notional_usdt);
        lemma_common(l.notional_usdt, s.notional_usdt);
        lemma_one_is_used_up(l.notional_usdt, s.notional_usdt);
        let next_long = close_rest(long, amount);
        let next_short = close_rest(short, amount);
        lemma_close_rest(long, amount);
        lemma_close_rest(short, amount);
        let next = matched.add_spec(amount);
        let profit = pnl.add_spec(amount.mul_spec(l.pnl_ratio.add_spec(s.pnl_ratio)));
        let sum = spread.add_spec(
            amount.mul_spec(s.price.sub_spec(l.price)).div_spec(l.price.max_spec(Double { bits: EPSILON })),
        );
        assert(matched_close(long, short, matched, pnl, spread) == matched_close(next_long, next_short, next, profit, sum));
        lemma_close_sums_were_finite(next_long, next_short, next, profit, sum);
        lemma_close_kept(long, amount, matched, long_total, n);
        lemma_close_kept(short, amount, matched, short_total, n);
        lemma_close_kept_from(next_long, next_short, next, profit, sum, long_total, short_total, n + 1);
        let m = matched_close(long, short, matched, pnl, spread);
        let j = n + 1 + next_long.len() + next_short.len();
        let k = n + long.len() + short.len();
        assert(4 * j * (long_total + small) <= 4 * k * (long_total + small) && 4 * j * (short_total + small) <= 4 * k * (
        short_total + small)) by (nonlinear_arith)
            requires
                j <= k,
                long_total + small >= 0,
                short_total + small >= 0,
        ;
        lemma_close_follows(m.long, long, amount);
        lemma_close_follows(m.short, short, amount);
    }
}

/// Whether fills are what others come to once the oldest of them are matched: the
/// youngest of them, of which the first may be open in part only.
pub open spec fn close_follows(new: Seq<CloseUnmatchedFill>, old: Seq<CloseUnmatchedFill>) -> bool {
    &&& new.len() <= old.len()
    &&& forall|i: int| 1 <= i < new.len() ==> #[trigger] new[i] == old[i + old.len() - new.len()]
    &&& new.len() > 0 ==> new[0].price == old[old.len() - new.len()].price && new[0].notional_usdt.le_spec(
        old[old.len() - new.len()].notional_usdt,
    )
}

proof fn lemma_close_follows(new: Seq<CloseUnmatchedFill>, old: Seq<CloseUnmatchedFill>, amount: Double)
    requires
        are_close_fills(old),
        old.len() > 0,
        amount.finite(),
        !amount.negative(),
        amount.le_spec(old[0].notional_usdt),
        close_follows(new, close_rest(old, amount)),
    ensures
        close_follows(new, old),
{
    let rest = close_rest(old, amount);
    lemma_rest(old[0].notional_usdt, amount);
    assert forall|i: int| 1 <= i < new.len() implies #[trigger] new[i] == old[i + old.len() - new.len()] by {
        assert(new[i] == rest[i + rest.len() - new.len()]);
    }
}

/// Matching loses nothing and makes up nothing: on either side what is matched and
/// what stays open come to what was open, up to rounding and to what is too small
/// to be kept. The oldest fills are matched first, until one side has none.
pub proof fn lemma_close_matching_keeps_every_fill(long: Seq<CloseUnmatchedFill>, short: Seq<CloseUnmatchedFill>)
    requires
        are_close_fills(long),
        are_close_fills(short),
        long.len() + short.len() < 0x1_0000_0000_0000,
    ensures
        ({
            let zero = Double { bits: ZERO };
            let m = matched_close(long, short, zero, zero, zero);
            let k = long.len() + short.len();
            let small = fine() * (2 * (Double { bits: EPSILON }).value());
            m.matched.finite() ==> {
                &&& fine() * size(m.matched.value() + close_open(m.long) - close_open(long)) <= 4 * k * (close_open(long)
                    + small)
                &&& fine() * size(m.matched.value() + close_open(m.short) - close_open(short)) <= 4 * k * (close_open(short)
                    + small)
                &&& m.long.len() == 0 || m.short.len() == 0
                &&& close_follows(m.long, long)
                &&& close_follows(m.short, short)
            }
        }),
{
    let zero = Double { bits: ZERO };
    assert(units(0) == 0);
    lemma_close_open_is_an_amount(long);
    lemma_close_open_is_an_amount(short);
    let small = fine() * (2 * (Double { bits: EPSILON }).value());
    assert(4 * 0 * (close_open(long) + small) == 0 && 4 * 0 * (close_open(short) + small) == 0) by (nonlinear_arith);
    if matched_close(long, short, zero, zero, zero).matched.finite() {
        lemma_close_kept_from(long, short, zero, zero, zero, close_open(long), close_open(short), 0);
    }
}

} // verus!
