use maker_bot::double::Double;

fn d(x: f64) -> Double {
    Double::from_bits(x.to_bits())
}

fn back(x: Double) -> f64 {
    f64::from_bits(x.to_bits())
}

fn agree(a: Double, b: f64) -> bool {
    if b.is_nan() {
        a.is_nan()
    } else {
        a.to_bits() == b.to_bits()
    }
}

fn edges() -> Vec<f64> {
    vec![
        0.0,
        -0.0,
        1.0,
        -1.0,
        0.5,
        0.1,
        0.2,
        0.3,
        0.01,
        0.99,
        3.0,
        -7.25,
        1e-5,
        1e10,
        -1e18,
        9007199254740991.0,
        9007199254740992.0,
        9007199254740994.0,
        18446744073709551615.0,
        9223372036854775807.0,
        -9223372036854775808.0,
        1e300,
        -1e300,
        1e308,
        f64::MAX,
        f64::MIN,
        f64::MIN_POSITIVE,
        f64::MIN_POSITIVE / 2.0,
        f64::from_bits(1),
        f64::from_bits(3),
        f64::from_bits(0x000F_FFFF_FFFF_FFFF),
        f64::from_bits(0x3FEF_FFFF_FFFF_FFFF),
        f64::from_bits(0x3FF0_0000_0000_0001),
        f64::EPSILON,
        f64::INFINITY,
        f64::NEG_INFINITY,
        f64::NAN,
    ]
}

fn next(state: &mut u64) -> u64 {
    *state = state.wrapping_mul(6364136223846793005).wrapping_add(1442695040888963407);
    let x = *state;
    (x ^ (x >> 29)).wrapping_mul(0xBF58476D1CE4E5B9) ^ (x >> 32)
}

fn check_pair(x: f64, y: f64) {
    let (a, b) = (d(x), d(y));
    assert!(agree(a.plus(b), x + y), "{x:e} + {y:e}");
    assert!(agree(a.minus(b), x - y), "{x:e} - {y:e}");
    assert!(agree(a.times(b), x * y), "{x:e} * {y:e}");
    assert!(agree(a.over(b), x / y), "{x:e} / {y:e}");
    assert_eq!(a.lt(b), x < y, "{x:e} < {y:e}");
    assert_eq!(a.le(b), x <= y, "{x:e} <= {y:e}");
    assert_eq!(a.same(b), x == y, "{x:e} == {y:e}");
    if x != 0.0 || y != 0.0 {
        assert!(agree(a.min(b), x.min(y)), "min {x:e} {y:e}");
        assert!(agree(a.max(b), x.max(y)), "max {x:e} {y:e}");
    }
}

fn check_single(x: f64) {
    let a = d(x);
    assert!(agree(a.floor(), x.floor()), "floor {x:e}");
    assert!(agree(a.ceil(), x.ceil()), "ceil {x:e}");
    assert!(agree(a.abs(), x.abs()), "abs {x:e}");
    assert!(agree(a.negated(), -x), "neg {x:e}");
    assert!(agree(a.clamp(d(0.01), d(0.99)), x.clamp(0.01, 0.99)), "clamp {x:e}");
    assert_eq!(a.to_int(), x as i64, "as i64 {x:e}");
    assert_eq!(a.to_nat(), x as u64, "as u64 {x:e}");
    assert_eq!(a.is_nan(), x.is_nan());
    assert_eq!(a.fixed(0), format!("{:.0}", x));
    assert_eq!(a.fixed(1), format!("{:.1}", x));
    assert_eq!(a.fixed(2), format!("{:.2}", x));
    assert_eq!(a.fixed(4), format!("{:.4}", x));
}

#[test]
fn arithmetic_of_edge_values() {
    for x in edges() {
        check_single(x);
        for y in edges() {
            check_pair(x, y);
        }
    }
}

#[test]
fn arithmetic_of_arbitrary_patterns() {
    let mut state = 42u64;
    for _ in 0..30_000 {
        let x = f64::from_bits(next(&mut state));
        let y = f64::from_bits(next(&mut state));
        check_pair(x, y);
    }
}

#[test]
fn arithmetic_of_near_magnitudes() {
    let mut state = 7u64;
    for _ in 0..30_000 {
        let x = f64::from_bits(next(&mut state));
        if !x.is_finite() {
            continue;
        }
        let scale = (next(&mut state) % 140) as i32 - 70;
        let y = f64::from_bits(next(&mut state) % 0x10_0000_0000_0000 + 0x3FF0_0000_0000_0000);
        let y = y * x * 2f64.powi(scale);
        check_pair(x, y);
        check_pair(x, -y);
    }
}

#[test]
fn arithmetic_of_prices() {
    let mut state = 99u64;
    for _ in 0..20_000 {
        let x = (next(&mut state) % 10_001) as f64 / 10_000.0;
        let y = (next(&mut state) % 1_000_001) as f64 / 100.0;
        check_pair(x, y);
        check_single(x);
        check_single(y);
        check_single(x - y);
        check_single(y / x);
    }
}

#[test]
fn decimal_fractions_are_the_literals() {
    let pairs: Vec<(u32, u32, f64)> = vec![
        (0, 1, 0.0),
        (1, 100, 0.01),
        (99, 100, 0.99),
        (85, 100, 0.85),
        (5, 1000, 0.005),
        (1, 1000, 0.001),
        (1, 100_000, 0.00001),
        (95, 100, 0.95),
        (75, 100, 0.75),
        (2, 100, 0.02),
        (10_000, 1, 10_000.0),
        (1, 3, 1.0 / 3.0),
        (4_294_967_295, 7, 4294967295.0 / 7.0),
    ];
    for (n, m, x) in pairs {
        assert_eq!(back(Double::ratio(n, m)), x);
    }
}

#[test]
fn integers_convert_like_casts() {
    let mut state = 5u64;
    for i in 0..20_000u32 {
        let n = next(&mut state) >> (i % 64);
        assert_eq!(back(Double::from_nat(n)), n as f64);
        let m = next(&mut state) as i64 >> (i % 64);
        assert_eq!(back(Double::from_int(m)), m as f64);
    }
    for n in [i64::MIN, i64::MAX, 0, -1, 1, 1 << 53, (1 << 53) + 1] {
        assert_eq!(back(Double::from_int(n)), n as f64);
    }
}

#[test]
fn ties_print_to_even() {
    assert_eq!(d(0.5).fixed(0), "0");
    assert_eq!(d(1.5).fixed(0), "2");
    assert_eq!(d(2.5).fixed(0), "2");
    assert_eq!(d(0.125).fixed(2), "0.12");
    assert_eq!(d(0.375).fixed(2), "0.38");
    assert_eq!(d(-0.01).fixed(1), "-0.0");
    assert_eq!(d(1e22).fixed(1), "10000000000000000000000.0");
}

#[test]
fn whole_numbers_stand_for_themselves() {
    for n in [0u32, 1, 2, 3, 10_000, u32::MAX] {
        assert_eq!(Double::ratio(n, 1).to_bits(), (n as f64).to_bits());
        assert_eq!(Double::ratio(n, 1).to_nat(), n as u64);
    }
    assert_eq!(Double::ratio(7, 1).minus(Double::ratio(7, 1)).to_bits(), 0.0f64.to_bits());
    for n in [0i64, -1, 1 << 52, -(1 << 53)] {
        assert_eq!(Double::from_int(n).to_int(), n);
    }
}
