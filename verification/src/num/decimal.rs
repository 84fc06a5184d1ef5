//! Decimal text of binary64 numbers with a fixed number of decimals.

use crate::num::double::{split, Double, ONE_EXPONENT};
use crate::num::rounding::{
    cell, lemma_cell_exact, lemma_cell_halve, lemma_cell_rounds, nearest_even, units, BINADE,
};
use crate::text::{digit, digits, digits_text};
use vstd::arithmetic::power2::{lemma2_to64, lemma_pow2_adds, lemma_pow2_pos, lemma_pow2_unfold, pow2};
use vstd::prelude::*;
use vstd::string::StringExecFns;

verus! {

/// Ten to the power of `n`.
pub open spec fn power10(n: nat) -> nat
    decreases n,
{
    if n == 0 {
        1
    } else {
        10 * power10((n - 1) as nat)
    }
}

/// The last `width` decimal digits of `n`.
pub open spec fn padded(n: nat, width: nat) -> Seq<char>
    decreases width,
{
    if width == 0 {
        Seq::empty()
    } else {
        padded(n / 10, (width - 1) as nat).push(digit(n % 10))
    }
}

/// `n` units of the last of `decimals` decimals.
pub open spec fn with_point(n: nat, decimals: nat) -> Seq<char> {
    let whole = digits(n / power10(decimals));
    if decimals == 0 {
        whole
    } else {
        whole + seq!['.'] + padded(n % power10(decimals), decimals)
    }
}

/// The magnitude of a finite number, in units of the last of `decimals`
/// decimals: the nearest whole number, and the even one of two.
pub open spec fn scaled(magnitude: nat, decimals: nat) -> nat {
    nearest_even(units(magnitude) * power10(decimals), pow2(ONE_EXPONENT as nat))
}

/// A number with a fixed number of decimals.
pub open spec fn fixed_text(x: Double, decimals: nat) -> Seq<char> {
    if x.nan() {
        seq!['N', 'a', 'N']
    } else {
        let sign = if x.negative() {
            seq!['-']
        } else {
            Seq::<char>::empty()
        };
        if x.infinite() {
            sign + seq!['i', 'n', 'f']
        } else {
            sign + with_point(scaled(x.magnitude(), decimals), decimals)
        }
    }
}

/// The value of decimal digits, the last one first.
spec fn little(v: Seq<u8>) -> nat
    decreases v.len(),
{
    if v.len() == 0 {
        0
    } else {
        v[0] as nat + 10 * little(v.drop_first())
    }
}

spec fn decimal_digits(v: Seq<u8>) -> bool {
    forall|i: int| 0 <= i < v.len() ==> v[i] < 10
}

spec fn canonical(v: Seq<u8>) -> bool {
    &&& v.len() > 0
    &&& decimal_digits(v)
    &&& v.len() > 1 ==> v.last() > 0
}

spec fn big_endian(v: Seq<u8>) -> Seq<char> {
    Seq::new(v.len(), |i: int| digit(v[v.len() - 1 - i] as nat))
}

proof fn lemma_little_positive(v: Seq<u8>)
    requires
        v.len() > 0,
        v.last() > 0,
    ensures
        little(v) > 0,
    decreases v.len(),
{
    if v.len() > 1 {
        assert(v.drop_first().last() == v.last());
        lemma_little_positive(v.drop_first());
    }
}

/// Canonical digits are the decimal text of their value.
proof fn lemma_canonical(v: Seq<u8>)
    requires
        canonical(v),
    ensures
        digits(little(v)) == big_endian(v),
    decreases v.len(),
{
    let tail = v.drop_first();
    if v.len() == 1 {
        assert(little(tail) == 0);
        assert(big_endian(v) =~= seq![digit(v[0] as nat)]);
    } else {
        assert(tail.last() == v.last());
        lemma_little_positive(tail);
        assert forall|i: int| 0 <= i < tail.len() implies tail[i] < 10 by {
            assert(tail[i] == v[i + 1]);
        }
        lemma_canonical(tail);
        let n = little(v);
        assert(n / 10 == little(tail) && n % 10 == v[0]);
        assert(big_endian(v) =~= big_endian(tail).push(digit(v[0] as nat)));
    }
}

proof fn lemma_little_push(v: Seq<u8>, d: u8)
    ensures
        little(v.push(d)) == little(v) + d * power10(v.len()),
    decreases v.len(),
{
    if v.len() == 0 {
        assert(v.push(d).drop_first() =~= Seq::<u8>::empty());
        assert(little(Seq::<u8>::empty()) == 0);
        assert(little(v) == 0);
        assert(d * power10(0) == d) by (nonlinear_arith)
            requires
                power10(0) == 1,
        ;
    } else {
        assert(v.push(d).drop_first() =~= v.drop_first().push(d));
        lemma_little_push(v.drop_first(), d);
        assert(d * power10(v.len()) == 10 * (d * power10((v.len() - 1) as nat))) by (nonlinear_arith)
            requires
                power10(v.len()) == 10 * power10((v.len() - 1) as nat),
        ;
    }
}

proof fn lemma_little_take(v: Seq<u8>, i: int)
    requires
        0 <= i < v.len(),
    ensures
        little(v.take(i + 1)) == little(v.take(i)) + v[i] * power10(i as nat),
{
    assert(v.take(i + 1) =~= v.take(i).push(v[i]));
    lemma_little_push(v.take(i), v[i]);
}

/// Twice a number, digit by digit.
fn double_digits(v: &Vec<u8>) -> (w: Vec<u8>)
    requires
        canonical(v@),
        little(v@) > 0,
    ensures
        canonical(w@),
        little(w@) == 2 * little(v@),
{
    let mut w: Vec<u8> = Vec::new();
    let mut carry: u8 = 0;
    let mut i: usize = 0;
    proof {
        assert(v@.take(0) =~= Seq::<u8>::empty());
    }
    while i < v.len()
        invariant
            i <= v@.len(),
            w@.len() == i,
            canonical(v@),
            decimal_digits(w@),
            carry <= 1,
            little(w@) + carry * power10(i as nat) == 2 * little(v@.take(i as int)),
            i == v@.len() && v@.len() > 1 ==> (w@[i - 1] > 0 || carry > 0),
        decreases v@.len() - i,
    {
        let t: u8 = 2 * v[i] + carry;
        let next: u8 = if t >= 10 {
            1
        } else {
            0
        };
        let ghost before = w@;
        let d: u8 = t - 10 * next;
        w.push(d);
        proof {
            lemma_little_push(before, d);
            lemma_little_take(v@, i as int);
            let p = power10(i as nat);
            assert(power10((i + 1) as nat) == 10 * p);
            assert(d * p + next * (10 * p) == 2 * (v@[i as int] * p) + carry * p) by (nonlinear_arith)
                requires
                    d + 10 * next == 2 * v@[i as int] + carry,
            ;
        }
        carry = next;
        i = i + 1;
    }
    proof {
        assert(v@.take(v@.len() as int) =~= v@);
    }
    if carry > 0 {
        let ghost before = w@;
        w.push(carry);
        proof {
            lemma_little_push(before, carry);
        }
    } else {
        proof {
            assert(carry * power10(i as nat) == 0) by (nonlinear_arith)
                requires
                    carry == 0,
            ;
        }
    }
    w
}

/// The decimal digits of `m`, the last one first.
fn little_digits(m: u64) -> (v: Vec<u8>)
    requires
        m > 0,
    ensures
        canonical(v@),
        little(v@) == m,
{
    let mut v: Vec<u8> = Vec::new();
    let mut rest: u64 = m;
    proof {
        assert(rest * power10(0) == rest) by (nonlinear_arith)
            requires
                power10(0) == 1,
        ;
    }
    while rest > 0
        invariant
            decimal_digits(v@),
            little(v@) + rest * power10(v@.len()) == m,
            rest == 0 ==> v@.len() > 0 && v@.last() > 0,
            m > 0,
        decreases rest,
    {
        let d: u8 = (rest % 10) as u8;
        let ghost before = v@;
        v.push(d);
        proof {
            lemma_little_push(before, d);
            let p = power10(before.len());
            assert(power10(v@.len()) == 10 * p);
            assert(rest * p == d * p + (rest / 10) * (10 * p)) by (nonlinear_arith)
                requires
                    rest == 10 * (rest / 10) + d,
            ;
        }
        rest = rest / 10;
    }
    proof {
        assert(rest * power10(v@.len()) == 0) by (nonlinear_arith)
            requires
                rest == 0,
        ;
    }
    v
}

/// The decimal text of `m * 2^k`.
fn large_text(m: u64, k: u32) -> (s: String)
    requires
        m > 0,
    ensures
        s@ == digits(m as nat * pow2(k as nat)),
{
    let mut v = little_digits(m);
    let mut i: u32 = 0;
    proof {
        lemma2_to64();
        assert(m as nat * pow2(0) == m) by (nonlinear_arith)
            requires
                pow2(0) == 1,
        ;
    }
    while i < k
        invariant
            i <= k,
            m > 0,
            canonical(v@),
            little(v@) == m as nat * pow2(i as nat),
            little(v@) > 0,
        decreases k - i,
    {
        proof {
            lemma_pow2_unfold((i + 1) as nat);
            assert(m as nat * pow2((i + 1) as nat) == 2 * (m as nat * pow2(i as nat))) by (nonlinear_arith)
                requires
                    pow2((i + 1) as nat) == 2 * pow2(i as nat),
            ;
        }
        v = double_digits(&v);
        i = i + 1;
    }
    let mut s = String::new();
    let n: usize = v.len();
    let mut j: usize = 0;
    while j < n
        invariant
            j <= n == v@.len(),
            canonical(v@),
            s@ == big_endian(v@).take(j as int),
        decreases n - j,
    {
        let d: u8 = v[n - 1 - j];
        proof {
            assert(big_endian(v@).take(j as int + 1) =~= big_endian(v@).take(j as int).push(
                digit(d as nat),
            ));
        }
        s.push((48 + d) as char);
        j = j + 1;
    }
    proof {
        assert(big_endian(v@).take(n as int) =~= big_endian(v@));
        lemma_canonical(v@);
    }
    s
}

fn padded_text(n: u128, width: u32) -> (s: String)
    ensures
        s@ == padded(n as nat, width as nat),
    decreases width,
{
    if width == 0 {
        return String::new();
    }
    let mut s = padded_text(n / 10, width - 1);
    let d: u8 = (n % 10) as u8;
    s.push((48 + d) as char);
    s
}

fn power10_of(n: u32) -> (p: u128)
    requires
        n <= 18,
    ensures
        p == power10(n as nat),
        p <= 1_000_000_000_000_000_000,
        p > 0,
    decreases n,
{
    if n == 0 {
        return 1;
    }
    proof {
        lemma_power10_bound(n as nat);
        lemma_power10_bound((n - 1) as nat);
    }
    10 * power10_of(n - 1)
}

proof fn lemma_power10_bound(n: nat)
    requires
        n <= 18,
    ensures
        power10(n) <= 1_000_000_000_000_000_000,
        power10(n) > 0,
{
    reveal_with_fuel(power10, 20);
}

proof fn lemma_power10_positive(n: nat)
    ensures
        power10(n) > 0,
    decreases n,
{
    if n > 0 {
        lemma_power10_positive((n - 1) as nat);
    }
}

proof fn lemma_padded_zero(width: nat)
    ensures
        padded(0, width) == crate::text::zeros(width),
    decreases width,
{
    if width > 0 {
        lemma_padded_zero((width - 1) as nat);
        assert(crate::text::zeros(width) =~= crate::text::zeros((width - 1) as nat).push('0'));
    } else {
        assert(crate::text::zeros(0) =~= Seq::<char>::empty());
    }
}

/// The magnitude `m * 2^e` units, below `2^1074 * 2^53`, in units of the last decimal.
fn scale_down(m: u64, e: u32, decimals: u32) -> (n: u128)
    requires
        m < 2 * BINADE,
        e <= ONE_EXPONENT,
        decimals <= 18,
    ensures
        n == nearest_even(m as nat * pow2(e as nat) * power10(decimals as nat), pow2(ONE_EXPONENT as nat)),
{
    let p: u128 = power10_of(decimals);
    proof {
        assert(m * p <= 0x20_0000_0000_0000 * 1_000_000_000_000_000_000) by (nonlinear_arith)
            requires
                0 <= m < 0x20_0000_0000_0000,
                0 <= p <= 1_000_000_000_000_000_000,
        ;
    }
    let mut q: u128 = m as u128 * p;
    let mut half: bool = false;
    let mut more: bool = false;
    let mut i: u32 = e;
    let ghost top = q;
    let ghost n = m as nat * pow2(e as nat) * power10(decimals as nat);
    proof {
        lemma_pow2_pos(e as nat);
        assert(n == q * pow2(e as nat)) by (nonlinear_arith)
            requires
                n == m as nat * pow2(e as nat) * power10(decimals as nat),
                q == m * p,
                p == power10(decimals as nat),
        ;
        lemma_cell_exact(q as int, pow2(e as nat) as int);
    }
    while i < ONE_EXPONENT
        invariant
            e <= i <= ONE_EXPONENT,
            q <= top <= 0x20_0000_0000_0000 * 1_000_000_000_000_000_000,
            cell(n as int, pow2(i as nat) as int, q as int, half, more),
        decreases ONE_EXPONENT - i,
    {
        proof {
            lemma_cell_halve(n as int, pow2(i as nat) as int, q as int, half, more);
            lemma_pow2_unfold((i + 1) as nat);
        }
        let bit: bool = q % 2 == 1;
        more = half || more;
        half = bit;
        q = q / 2;
        i = i + 1;
    }
    proof {
        lemma_cell_rounds(n, pow2(ONE_EXPONENT as nat), q as nat, half, more);
    }
    if half && (more || q % 2 == 1) {
        q + 1
    } else {
        q
    }
}

/// A number with a fixed number of decimals.
pub fn fixed(x: Double, decimals: u32) -> (s: String)
    requires
        decimals <= 18,
    ensures
        s@ == fixed_text(x, decimals as nat),
{
    let mut s = String::new();
    if x.is_nan() {
        s.push('N');
        s.push('a');
        s.push('N');
        proof {
            assert(s@ =~= seq!['N', 'a', 'N']);
        }
        return s;
    }
    let ghost sign = if x.negative() {
        seq!['-']
    } else {
        Seq::<char>::empty()
    };
    if x.is_negative() {
        s.push('-');
    }
    proof {
        assert(s@ =~= sign);
    }
    if x.is_infinite() {
        s.push('i');
        s.push('n');
        s.push('f');
        proof {
            assert(s@ =~= sign + seq!['i', 'n', 'f']);
        }
        return s;
    }
    let (m, e) = split(x.magnitude_bits());
    let ghost one = pow2(ONE_EXPONENT as nat);
    let ghost ten = power10(decimals as nat);
    let ghost u = units(x.magnitude());
    proof {
        lemma_power10_positive(decimals as nat);
        lemma_pow2_pos(ONE_EXPONENT as nat);
    }
    if e <= ONE_EXPONENT {
        let n: u128 = scale_down(m, e, decimals);
        let p: u128 = power10_of(decimals);
        let whole = digits_text(n / p);
        s.append(whole.as_str());
        if decimals > 0 {
            s.push('.');
            let rest = padded_text(n % p, decimals);
            s.append(rest.as_str());
            proof {
                assert(s@ =~= sign + (digits((n / p) as nat) + seq!['.'] + padded(
                    (n % p) as nat,
                    decimals as nat,
                )));
            }
        }
        s
    } else {
        let k: u32 = e - ONE_EXPONENT;
        proof {
            lemma_pow2_adds(k as nat, ONE_EXPONENT as nat);
            let i = m as nat * pow2(k as nat);
            assert(u * ten == (i * ten) * one + 0) by (nonlinear_arith)
                requires
                    u == m * pow2(e as nat),
                    pow2(e as nat) == pow2(k as nat) * one,
                    i == m as nat * pow2(k as nat),
            ;
            vstd::arithmetic::div_mod::lemma_fundamental_div_mod_converse(
                (u * ten) as int,
                one as int,
                (i * ten) as int,
                0,
            );
            assert(scaled(x.magnitude(), decimals as nat) == i * ten);
            vstd::arithmetic::div_mod::lemma_fundamental_div_mod_converse(
                (i * ten) as int,
                ten as int,
                i as int,
                0,
            );
        }
        let whole = large_text(m, k);
        s.append(whole.as_str());
        if decimals > 0 {
            s.push('.');
            let rest = padded_text(0, decimals);
            s.append(rest.as_str());
            proof {
                assert(s@ =~= sign + (digits(m as nat * pow2(k as nat)) + seq!['.'] + padded(
                    0,
                    decimals as nat,
                )));
            }
        }
        s
    }
}

/// A number with a sign in front whatever it is, and a fixed number of decimals.
pub open spec fn signed_text(x: Double, decimals: nat) -> Seq<char> {
    if x.nan() || x.negative() {
        fixed_text(x, decimals)
    } else {
        seq!['+'] + fixed_text(x, decimals)
    }
}

pub fn fixed_signed(x: Double, decimals: u32) -> (s: String)
    requires
        decimals <= 18,
    ensures
        s@ == signed_text(x, decimals as nat),
{
    let text = fixed(x, decimals);
    if x.is_nan() || x.is_negative() {
        text
    } else {
        let mut s = String::new();
        s.push('+');
        s.append(text.as_str());
        proof {
            assert(s@ =~= seq!['+'] + text@);
        }
        s
    }
}

} // verus!
