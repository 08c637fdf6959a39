use pathtracer::scalar::{bits, key, lt, INFINITY, SIGN};

fn k(x: f64) -> i64 {
    key(x.to_bits())
}

fn v(key: i64) -> f64 {
    f64::from_bits(bits(key))
}

fn specimens() -> Vec<f64> {
    vec![
        f64::NEG_INFINITY,
        f64::MIN,
        -1e300,
        -2.5,
        -1.0,
        -0.999,
        -0.001,
        -1e-8,
        -f64::MIN_POSITIVE,
        -5e-324,
        -0.0,
        0.0,
        5e-324,
        f64::MIN_POSITIVE,
        1e-8,
        0.001,
        0.999,
        1.0,
        2.5,
        1e300,
        f64::MAX,
        f64::INFINITY,
        f64::NAN,
        -f64::NAN,
        f64::from_bits(0x7FF0_0000_0000_0001),
        f64::from_bits(0xFFFF_FFFF_FFFF_FFFF),
    ]
}

/// A fixed walk through the bit patterns of doubles.
fn walk(steps: usize) -> Vec<u64> {
    let mut state: u64 = 0x9E37_79B9_7F4A_7C15;
    let mut out = Vec::new();
    for _ in 0..steps {
        state = state.wrapping_mul(6364136223846793005).wrapping_add(1442695040888963407);
        out.push(state ^ (state >> 29));
    }
    out
}

#[test]
fn keys_compare_as_doubles_do() {
    for a in specimens() {
        for b in specimens() {
            assert_eq!(lt(k(a), k(b)), a < b);
        }
    }
}

#[test]
fn keys_compare_as_doubles_do_on_a_walk_of_bit_patterns() {
    let patterns = walk(2000);
    for pair in patterns.windows(2) {
        let (a, b) = (f64::from_bits(pair[0]), f64::from_bits(pair[1]));
        assert_eq!(lt(key(pair[0]), key(pair[1])), a < b);
        assert_eq!(lt(key(pair[1]), key(pair[0])), b < a);
        assert_eq!(lt(key(pair[0]), 0), a < 0.0);
        assert_eq!(lt(0, key(pair[0])), 0.0 < a);
    }
}

#[test]
fn equal_keys_are_equal_numbers() {
    for a in specimens() {
        for b in specimens() {
            if !a.is_nan() && !b.is_nan() {
                assert_eq!(k(a) == k(b), a == b);
            }
        }
    }
}

#[test]
fn the_two_zeros_share_the_key_zero() {
    assert_eq!(k(0.0), 0);
    assert_eq!(k(-0.0), 0);
    assert_eq!(key(0), 0);
    assert_eq!(key(SIGN), 0);
    assert_eq!(bits(0), 0);
}

#[test]
fn the_sign_of_a_key_is_the_sign_of_its_number() {
    for x in specimens() {
        if !x.is_nan() {
            assert_eq!(k(x) < 0, x < 0.0);
            assert_eq!(k(x) > 0, x > 0.0);
        }
    }
}

#[test]
fn negation_negates_the_key() {
    for x in specimens() {
        assert_eq!(k(-x), -k(x));
    }
    for pattern in walk(2000) {
        assert_eq!(key(pattern ^ SIGN), -key(pattern));
    }
}

#[test]
fn a_key_reads_back_as_its_double() {
    for x in specimens() {
        if x.is_nan() {
            assert!(v(k(x)).is_nan());
        } else {
            assert_eq!(v(k(x)), x);
        }
        if x.to_bits() != SIGN {
            assert_eq!(bits(k(x)), x.to_bits());
        }
    }
    for pattern in walk(2000) {
        assert_eq!(bits(key(pattern)), pattern);
        assert_eq!(key(bits(pattern as i64)), if pattern as i64 == i64::MIN { -i64::MAX } else { pattern as i64 });
    }
}

#[test]
fn the_ends_of_the_key_range_read_back() {
    assert_eq!(key(u64::MAX), -i64::MAX);
    assert_eq!(key(SIGN - 1), i64::MAX);
    assert_eq!(bits(i64::MAX), SIGN - 1);
    assert_eq!(bits(-i64::MAX), u64::MAX);
    assert_eq!(bits(i64::MIN), u64::MAX);
    assert_eq!(bits(-1), SIGN + 1);
    assert_eq!(bits(1), 1);
}

#[test]
fn what_is_not_a_number_lies_beyond_the_infinities() {
    assert_eq!(SIGN, 1u64 << 63);
    assert_eq!(k(f64::INFINITY), INFINITY);
    assert_eq!(k(f64::NEG_INFINITY), -INFINITY);
    for x in specimens() {
        assert_eq!(x.is_nan(), k(x) > INFINITY || k(x) < -INFINITY);
    }
    for pattern in walk(2000) {
        let x = f64::from_bits(pattern);
        assert_eq!(x.is_nan(), key(pattern) > INFINITY || key(pattern) < -INFINITY);
    }
}

#[test]
fn nothing_compares_with_what_is_not_a_number() {
    let nans = [INFINITY + 1, i64::MAX, -INFINITY - 1, i64::MIN, k(f64::NAN), k(-f64::NAN)];
    for nan in nans {
        for x in specimens() {
            assert!(!lt(nan, k(x)));
            assert!(!lt(k(x), nan));
        }
        assert!(!lt(nan, nan));
    }
}

#[test]
fn a_number_is_not_less_than_itself() {
    for x in specimens() {
        assert!(!lt(k(x), k(x)));
    }
}
