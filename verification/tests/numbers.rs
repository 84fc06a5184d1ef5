use arbiview::num::constants as c;
use arbiview::num::decimal::{fixed, fixed_signed};
use arbiview::num::sums::sum;
use arbiview::num::Double;

fn d(x: f64) -> Double {
    Double::from_bits(x.to_bits())
}

fn f(x: Double) -> f64 {
    f64::from_bits(x.bits)
}

/// Whether two numbers are the same, not told apart by the bits of a NaN.
fn same(x: f64, y: f64) -> bool {
    (x.is_nan() && y.is_nan()) || x.to_bits() == y.to_bits()
}

fn edge_cases() -> Vec<f64> {
    let mut list = vec![
        0.0,
        1.0,
        1.5,
        2.0,
        3.0,
        10.0,
        0.1,
        0.2,
        0.3,
        0.5,
        1e-8,
        1e-300,
        1e300,
        f64::EPSILON,
        f64::MIN_POSITIVE,
        f64::MAX,
        f64::INFINITY,
        f64::NAN,
        5e-324,
        2.5e-323,
        4503599627370495.5,
        4503599627370496.0,
        9007199254740993.0,
        1.7976931348623157e308,
        2.2250738585072009e-308,
    ];
    let negatives: Vec<f64> = list.iter().map(|x| -x).collect();
    list.extend(negatives);
    list
}

fn next(state: &mut u64) -> u64 {
    *state ^= *state << 13;
    *state ^= *state >> 7;
    *state ^= *state << 17;
    *state
}

fn assert_like_hardware(x: f64, y: f64) {
    let (a, b) = (d(x), d(y));
    assert!(same(f(a.add(b)), x + y), "{x:?} + {y:?}");
    assert!(same(f(a.sub(b)), x - y), "{x:?} - {y:?}");
    assert!(same(f(a.mul(b)), x * y), "{x:?} * {y:?}");
    assert!(same(f(a.div(b)), x / y), "{x:?} / {y:?}");
    assert_eq!(a.lt(b), x < y, "{x:?} < {y:?}");
    assert_eq!(a.le(b), x <= y, "{x:?} <= {y:?}");
    assert_eq!(a.gt(b), x > y, "{x:?} > {y:?}");
    assert_eq!(a.ge(b), x >= y, "{x:?} >= {y:?}");
    assert_eq!(a.equals(b), x == y, "{x:?} == {y:?}");
    if !(x == 0.0 && y == 0.0) {
        assert!(same(f(a.max(b)), x.max(y)), "{x:?} max {y:?}");
        assert!(same(f(a.min(b)), x.min(y)), "{x:?} min {y:?}");
    }
}

#[test]
fn arithmetic_on_edge_cases_is_that_of_the_hardware() {
    for x in edge_cases() {
        for y in edge_cases() {
            assert_like_hardware(x, y);
        }
    }
}

#[test]
fn arithmetic_on_arbitrary_bits_is_that_of_the_hardware() {
    let mut state = 0x9e37_79b9_7f4a_7c15u64;
    for _ in 0..20_000 {
        let x = f64::from_bits(next(&mut state));
        let y = f64::from_bits(next(&mut state));
        assert_like_hardware(x, y);
    }
}

#[test]
fn arithmetic_on_near_numbers_is_that_of_the_hardware() {
    let mut state = 0x1234_5678_9abc_def1u64;
    for _ in 0..20_000 {
        let exponent = 1000 + next(&mut state) % 60;
        let sign = next(&mut state) << 63;
        let x = f64::from_bits((exponent << 52) | (next(&mut state) >> 12));
        let y = f64::from_bits(sign | ((exponent + next(&mut state) % 3) << 52) | (next(&mut state) >> 12));
        assert_like_hardware(x, y);
    }
}

#[test]
fn arithmetic_on_tiny_numbers_is_that_of_the_hardware() {
    let mut state = 0xfeed_beef_cafe_f00du64;
    for _ in 0..20_000 {
        let x = f64::from_bits(next(&mut state) >> 11);
        let y = f64::from_bits(next(&mut state) >> (11 + next(&mut state) % 40));
        assert_like_hardware(x, y);
        let small = f64::from_bits((500 + next(&mut state) % 30) << 52 | (next(&mut state) >> 12));
        assert_like_hardware(small, small * 1.1);
    }
}

#[test]
fn signs_and_whole_parts_are_those_of_the_hardware() {
    let mut list = edge_cases();
    let mut state = 77u64;
    for _ in 0..5_000 {
        list.push(f64::from_bits(next(&mut state)));
        list.push((next(&mut state) % 1_000_000) as f64 / 64.0);
        list.push(-((next(&mut state) % 1_000_000) as f64) / 64.0);
    }
    for x in list {
        let a = d(x);
        assert!(same(f(a.neg()), -x), "-{x:?}");
        assert!(same(f(a.abs()), x.abs()), "|{x:?}|");
        assert!(same(f(a.floor()), x.floor()), "floor {x:?}");
        assert!(same(f(a.ceil()), x.ceil()), "ceil {x:?}");
        assert!(same(f(a.round()), x.round()), "round {x:?}");
        assert_eq!(a.is_nan(), x.is_nan());
        assert_eq!(a.is_finite(), x.is_finite());
        assert_eq!(a.is_infinite(), x.is_infinite());
        assert_eq!(a.to_unsigned(255), u32::from(x as u8), "{x:?} as u8");
        assert_eq!(a.to_unsigned(u32::MAX), x as u32, "{x:?} as u32");
    }
}

#[test]
fn the_total_order_is_that_of_the_standard_library() {
    let list = edge_cases();
    for x in &list {
        for y in &list {
            assert_eq!(d(*x).total_lt(d(*y)), x.total_cmp(y).is_lt(), "{x:?} {y:?}");
        }
    }
}

#[test]
fn whole_numbers_are_rounded_to_the_nearest() {
    for k in [0, 1, -1, 8760, i64::MAX, i64::MIN, 9007199254740993, -9007199254740995, 604800000] {
        assert!(same(f(Double::from_int(k)), k as f64), "{k}");
    }
    let mut state = 5u64;
    for _ in 0..5_000 {
        let k = next(&mut state) as i64 >> (next(&mut state) % 60);
        assert!(same(f(Double::from_int(k)), k as f64), "{k}");
    }
}

#[test]
fn constants_have_the_values_of_their_names() {
    let list = [
        (c::ZERO, 0.0),
        (c::MINUS_ZERO, -0.0),
        (c::ONE, 1.0),
        (c::TWO, 2.0),
        (c::THREE, 3.0),
        (c::FOUR, 4.0),
        (c::FIVE, 5.0),
        (c::SIX, 6.0),
        (c::EIGHT, 8.0),
        (c::TEN, 10.0),
        (c::TWENTY_FOUR, 24.0),
        (c::THIRTY, 30.0),
        (c::FIFTY, 50.0),
        (c::SIXTY, 60.0),
        (c::HUNDRED, 100.0),
        (c::EIGHT_HOURS_IN_MINUTES, 480.0),
        (c::THOUSAND, 1_000.0),
        (c::SECONDS_PER_HOUR, 3_600.0),
        (c::FIVE_THOUSAND, 5_000.0),
        (c::YEAR_HOURS, 365.0 * 24.0),
        (c::TEN_THOUSAND, 10_000.0),
        (c::FIFTY_THOUSAND, 50_000.0),
        (c::HUNDRED_THOUSAND, 100_000.0),
        (c::MINUS_HUNDRED_THOUSAND, -100_000.0),
        (c::MILLION, 1_000_000.0),
        (c::MILLIS_PER_HOUR, 3_600_000.0),
        (c::BILLION, 1_000_000_000.0),
        (c::TRILLION, 1_000_000_000_000.0),
        (c::HALF, 0.5),
        (c::QUARTER, 0.25),
        (c::HUNDREDTH, 0.01),
        (c::HALF_PERCENT, 0.005),
        (c::TWO_THOUSANDTHS, 0.002),
        (c::THOUSANDTH, 0.001),
        (c::BINANCE_FEE, 0.0005),
        (c::BYBIT_FEE, 0.00055),
        (c::HUNDRED_MILLIONTH, 1e-8),
        (c::MINUS_HUNDRED_MILLIONTH, -1e-8),
        (c::TRILLIONTH, 1e-12),
        (c::MINUS_TWO_HUNDREDTHS, -0.02),
        (c::MARGIN_RESERVE, 1.05),
        (c::EPSILON, f64::EPSILON),
    ];
    for (bits, x) in list {
        assert_eq!(bits, x.to_bits(), "{x:?}");
    }
}

#[test]
fn decimals_are_those_of_the_standard_library() {
    let mut list = edge_cases();
    list.extend([0.125, 0.375, 2.5, 3.5, 1.005, 99.995, 123456.789, 0.05, 0.0005, 12.3456, 7.0 / 3.0]);
    let mut state = 41u64;
    for _ in 0..2_000 {
        list.push((next(&mut state) % 100_000_000) as f64 / 4096.0);
        list.push(f64::from_bits(((900 + next(&mut state) % 200) << 52) | (next(&mut state) >> 12)));
    }
    for x in list {
        if x.is_nan() || x.abs() > 1e15 {
            continue;
        }
        for decimals in [0u32, 1, 2, 3, 4, 5, 6, 8, 12] {
            let digits = decimals as usize;
            assert_eq!(fixed(d(x), decimals), format!("{x:.digits$}"), "{x:?} to {decimals}");
            assert_eq!(fixed_signed(d(x), decimals), format!("{x:+.digits$}"), "{x:?} to {decimals}");
        }
    }
}

#[test]
fn numbers_that_are_none_are_written_like_the_standard_library_does() {
    assert_eq!(fixed(d(f64::NAN), 2), format!("{:.2}", f64::NAN));
    assert_eq!(fixed(d(f64::INFINITY), 2), format!("{:.2}", f64::INFINITY));
    assert_eq!(fixed(d(f64::NEG_INFINITY), 2), format!("{:.2}", f64::NEG_INFINITY));
    assert_eq!(fixed_signed(d(f64::INFINITY), 2), format!("{:+.2}", f64::INFINITY));
    assert_eq!(fixed(d(1e300), 2), format!("{:.2}", 1e300));
}

#[test]
fn a_sum_is_that_of_the_standard_library() {
    let lists = [vec![], vec![0.1, 0.2, 0.3], vec![1e300, 1e300, -1e300], vec![-0.0], vec![0.1; 10]];
    for list in lists {
        let doubles: Vec<Double> = list.iter().map(|x| d(*x)).collect();
        let expected: f64 = list.iter().sum();
        assert!(same(f(sum(&doubles)), expected), "{list:?}");
    }
}

#[test]
fn sums_and_products_do_not_depend_on_the_order() {
    for x in edge_cases() {
        for y in edge_cases() {
            let (a, b) = (d(x), d(y));
            assert!(same(f(a.add(b)), f(b.add(a))));
            assert!(same(f(a.mul(b)), f(b.mul(a))));
        }
    }
}

#[test]
fn nothing_changes_when_zero_is_added_and_nothing_is_left_of_a_difference_with_itself() {
    for x in edge_cases() {
        if !x.is_finite() {
            continue;
        }
        assert!(d(x).add(d(0.0)).equals(d(x)));
        assert!(d(x).sub(d(x)).equals(d(0.0)));
    }
}
