use check_fields::float::{
    bits_are_nan, bits_are_zero, float_bits_equal, float_bits_to_integer, integer_to_float_bits,
};

fn sample_integers() -> Vec<i64> {
    let mut values: Vec<i64> = vec![
        0,
        1,
        -1,
        2,
        3,
        -3,
        10,
        255,
        256,
        1_000_000,
        -1_000_000,
        i64::MAX,
        i64::MIN,
        i64::MAX - 1,
        i64::MIN + 1,
    ];
    for shift in 0..63u32 {
        let base: i64 = 1i64 << shift;
        for delta in [-3i64, -2, -1, 0, 1, 2, 3] {
            if let Some(v) = base.checked_add(delta) {
                values.push(v);
                values.push(v.wrapping_neg());
            }
        }
        if shift >= 2 {
            let below = base + (base >> 1);
            values.push(below);
            values.push(below - 1);
            values.push(below + 1);
            values.push(-below);
        }
    }
    // Numbers around the ties of rounding to 53 bits.
    for top in [53u32, 54, 55, 60, 62] {
        let unit: i64 = 1i64 << (top - 52);
        let half = unit >> 1;
        let base: i64 = 1i64 << top;
        for k in 0..6i64 {
            for delta in [-1i64, 0, 1] {
                let v = base + k * unit + half + delta;
                values.push(v);
                values.push(-v);
            }
        }
    }
    let mut state: u64 = 0x9e37_79b9_7f4a_7c15;
    for _ in 0..2000 {
        state ^= state << 13;
        state ^= state >> 7;
        state ^= state << 17;
        values.push(state as i64);
        values.push((state >> (state % 64)) as i64);
    }
    values
}

fn sample_floats() -> Vec<f64> {
    let mut values: Vec<f64> = vec![
        0.0,
        -0.0,
        0.5,
        -0.5,
        0.999_999_999,
        1.0,
        -1.0,
        1.5,
        -1.5,
        2.0,
        2.5,
        1e10,
        -1e10,
        1e18,
        9.2e18,
        9.3e18,
        -9.2e18,
        -9.3e18,
        1e19,
        -1e19,
        1e300,
        -1e300,
        f64::MAX,
        f64::MIN,
        f64::MIN_POSITIVE,
        f64::EPSILON,
        f64::INFINITY,
        f64::NEG_INFINITY,
        f64::NAN,
        9_223_372_036_854_775_807.0,
        -9_223_372_036_854_775_808.0,
        9_223_372_036_854_774_784.0,
        4_503_599_627_370_496.0,
        4_503_599_627_370_495.5,
        9_007_199_254_740_992.0,
        9_007_199_254_740_993.0,
        5e-324,
    ];
    let mut state: u64 = 0x2545_f491_4f6c_dd1d;
    for _ in 0..4000 {
        state ^= state << 13;
        state ^= state >> 7;
        state ^= state << 17;
        values.push(f64::from_bits(state));
        // An exponent near the range of the 64-bit integers.
        let exponent = 1000 + (state % 100);
        let bits = (state & 0x800f_ffff_ffff_ffff) | (exponent << 52);
        values.push(f64::from_bits(bits));
    }
    values
}

#[test]
fn integer_to_float_agrees_with_the_cast() {
    for i in sample_integers() {
        assert_eq!(integer_to_float_bits(i), (i as f64).to_bits(), "for {}", i);
    }
}

#[test]
fn integer_to_float_exact_values() {
    assert_eq!(integer_to_float_bits(0), 0);
    assert_eq!(integer_to_float_bits(1), 0x3ff0_0000_0000_0000);
    assert_eq!(integer_to_float_bits(-1), 0xbff0_0000_0000_0000);
    assert_eq!(integer_to_float_bits(2), 0x4000_0000_0000_0000);
    assert_eq!(integer_to_float_bits(3), 0x4008_0000_0000_0000);
    assert_eq!(integer_to_float_bits(i64::MIN), 0xc3e0_0000_0000_0000);
    // Rounds up to two to the 63.
    assert_eq!(integer_to_float_bits(i64::MAX), 0x43e0_0000_0000_0000);
    // Two to the 53 plus one is a tie and goes to the even significand.
    assert_eq!(integer_to_float_bits(9_007_199_254_740_993), 0x4340_0000_0000_0000);
    // Two to the 53 plus three is a tie too, and goes up.
    assert_eq!(integer_to_float_bits(9_007_199_254_740_995), 0x4340_0000_0000_0002);
}

#[test]
fn float_to_integer_agrees_with_the_cast() {
    for x in sample_floats() {
        assert_eq!(float_bits_to_integer(x.to_bits()), x as i64, "for {:?}", x);
    }
}

#[test]
fn float_to_integer_exact_values() {
    assert_eq!(float_bits_to_integer((0.0f64).to_bits()), 0);
    assert_eq!(float_bits_to_integer((0.99f64).to_bits()), 0);
    assert_eq!(float_bits_to_integer((1.99f64).to_bits()), 1);
    assert_eq!(float_bits_to_integer((-1.99f64).to_bits()), -1);
    assert_eq!(float_bits_to_integer((-2.0f64).to_bits()), -2);
    assert_eq!(float_bits_to_integer((1e19f64).to_bits()), i64::MAX);
    assert_eq!(float_bits_to_integer((-1e19f64).to_bits()), i64::MIN);
    assert_eq!(float_bits_to_integer(f64::INFINITY.to_bits()), i64::MAX);
    assert_eq!(float_bits_to_integer(f64::NEG_INFINITY.to_bits()), i64::MIN);
    assert_eq!(float_bits_to_integer(f64::NAN.to_bits()), 0);
    assert_eq!(float_bits_to_integer((4_503_599_627_370_495.5f64).to_bits()), 4_503_599_627_370_495);
}

#[test]
fn float_equality_agrees_with_the_operator() {
    let values = sample_floats();
    let step = 37;
    for (i, a) in values.iter().enumerate() {
        assert_eq!(float_bits_equal(a.to_bits(), a.to_bits()), *a == *a, "for {:?}", a);
        let b = values[(i * step + 1) % values.len()];
        assert_eq!(float_bits_equal(a.to_bits(), b.to_bits()), *a == b, "for {:?} and {:?}", a, b);
    }
    assert!(float_bits_equal((0.0f64).to_bits(), (-0.0f64).to_bits()));
    assert!(!float_bits_equal(f64::NAN.to_bits(), f64::NAN.to_bits()));
    assert!(!float_bits_equal((1.0f64).to_bits(), (-1.0f64).to_bits()));
}

#[test]
fn nan_and_zero_are_told_apart() {
    assert!(bits_are_nan(f64::NAN.to_bits()));
    assert!(bits_are_nan(0x7ff0_0000_0000_0001));
    assert!(bits_are_nan(0xfff8_0000_0000_0000));
    assert!(!bits_are_nan(f64::INFINITY.to_bits()));
    assert!(!bits_are_nan(f64::NEG_INFINITY.to_bits()));
    assert!(!bits_are_nan((1.0f64).to_bits()));
    assert!(bits_are_zero(0));
    assert!(bits_are_zero(0x8000_0000_0000_0000));
    assert!(!bits_are_zero(1));
    assert!(!bits_are_zero((1.0f64).to_bits()));
    for x in sample_floats() {
        assert_eq!(bits_are_nan(x.to_bits()), x.is_nan());
        assert_eq!(bits_are_zero(x.to_bits()), x == 0.0);
    }
}
