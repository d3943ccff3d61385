use std::cmp::Ordering;

use snerdmq::double::Double;

fn samples() -> Vec<u64> {
    let mut bits: Vec<u64> = vec![
        0.0f64, -0.0, 1.0, -1.0, 0.95, 0.99, 0.5, 24.0, 1.5, 0.25, 0.0001, 0.00015, 0.0002777,
        1.0 / 3600.0, 2.0 / 3600.0, 1e-10, 1e-300, 1e10, 2.5e15, 2.6e15, 1e18, 1e300,
        2562047788015215.5, -2562047788015215.5, 2562047788015216.0, -2562047788015216.0,
        f64::MAX, f64::MIN, f64::MIN_POSITIVE, f64::EPSILON, f64::INFINITY, f64::NEG_INFINITY,
        f64::NAN, -f64::NAN, 5e-324,
    ]
    .into_iter()
    .map(f64::to_bits)
    .collect();
    let mut state = 0x9e37_79b9_7f4a_7c15u64;
    for i in 0..20_000u64 {
        state = state.wrapping_mul(6_364_136_223_846_793_005).wrapping_add(1_442_695_040_888_963_407);
        bits.push(state);
        // Exponents around those of everyday delays.
        let exponent = 1000 + i % 90;
        bits.push((state & 0x800f_ffff_ffff_ffff) | (exponent << 52));
    }
    bits
}

#[test]
fn hours_become_seconds_as_in_double_arithmetic() {
    for bits in samples() {
        let hours = f64::from_bits(bits);
        assert_eq!(Double { bits }.seconds(), (hours * 3600.0) as i64, "{}", hours);
    }
}

#[test]
fn plain_delays_in_seconds() {
    let seconds = |hours: f64| Double { bits: hours.to_bits() }.seconds();
    assert_eq!(seconds(1.0), 3600);
    assert_eq!(seconds(0.5), 1800);
    assert_eq!(seconds(-2.0), -7200);
    assert_eq!(seconds(0.0001), 0);
    assert_eq!(seconds(f64::NAN), 0);
    assert_eq!(seconds(f64::INFINITY), i64::MAX);
    assert_eq!(seconds(f64::NEG_INFINITY), i64::MIN);
}

#[test]
fn doubles_compare_by_value() {
    let bits = samples();
    for i in 0..bits.len() - 1 {
        for j in [i, i + 1, bits.len() - 1 - i] {
            let a = f64::from_bits(bits[i]);
            let b = f64::from_bits(bits[j]);
            assert_eq!(
                Double { bits: bits[i] }.compare(&Double { bits: bits[j] }),
                a.partial_cmp(&b).unwrap_or(Ordering::Equal)
            );
        }
    }
    assert_eq!(Double::zero(), Double { bits: 0.0f64.to_bits() });
}
