use wowsunpack::arith;
use wowsunpack::single;

/// Patterns with every kind of exponent, and the special ones.
fn patterns() -> Vec<u32> {
    let mut out = vec![
        0, 1, 2, 0x7F_FFFF, 0x80_0000, 0x80_0001, 0x3F80_0000, 0x3F80_0001, 0x3F7F_FFFF,
        0x7F7F_FFFF, 0x7F80_0000, 0x7FC0_0000, 0x4B00_0000, 0x4B80_0001, 0x3A83_126F, 0x3F00_0000,
        0x3FC0_0000, 0x5EFF_FFFF, 0x5F00_0000, 0x5F80_0000, 0x4F80_0000,
    ];
    let mut state: u64 = 88172645463325252;
    for _ in 0..400 {
        state ^= state << 13;
        state ^= state >> 7;
        state ^= state << 17;
        out.push((state >> 16) as u32 & 0x7FFF_FFFF);
        // Numbers near one, where sums cancel.
        out.push(0x3F00_0000 + ((state >> 20) as u32 & 0x00FF_FFFF));
    }
    let negative: Vec<u32> = out.iter().map(|b| b | 0x8000_0000).collect();
    out.extend(negative);
    out
}

fn same(bits: u32, value: f32) -> bool {
    bits == value.to_bits() || (f32::from_bits(bits).is_nan() && value.is_nan())
}

#[test]
fn sums_match_the_processor() {
    for a in patterns() {
        for b in patterns() {
            let (x, y) = (f32::from_bits(a), f32::from_bits(b));
            assert!(same(arith::add_singles(a, b), x + y), "{x:?} + {y:?}");
            assert!(same(arith::subtract_singles(a, b), x - y), "{x:?} - {y:?}");
            assert_eq!(arith::less_than(a, b), x < y, "{x:?} < {y:?}");
        }
    }
}

#[test]
fn products_match_the_processor() {
    for a in patterns() {
        for b in patterns() {
            let (x, y) = (f32::from_bits(a), f32::from_bits(b));
            assert!(same(arith::multiply_singles(a, b), x * y), "{x:?} * {y:?}");
        }
    }
}

#[test]
fn quotients_match_the_processor() {
    for a in patterns() {
        for b in patterns() {
            let (x, y) = (f32::from_bits(a), f32::from_bits(b));
            assert!(same(arith::divide_singles(a, b), x / y), "{x:?} / {y:?}");
        }
    }
}

#[test]
fn roots_and_integers_match_the_processor() {
    for a in patterns() {
        let x = f32::from_bits(a);
        assert!(same(arith::square_root(a), x.sqrt()), "root of {x:?}");
        assert!(same(arith::truncate(a), x.trunc()), "whole part of {x:?}");
        assert_eq!(arith::round_to_i64(a), x.round() as i64, "rounded {x:?}");
        assert_eq!(single::to_u32(a), x as u32, "cut {x:?}");
        assert_eq!(arith::from_u32(a), (a as f32).to_bits(), "from {a}");
    }
}

#[test]
fn halves_are_rounded_away_from_zero() {
    assert_eq!(arith::round_to_i64(0.5f32.to_bits()), 1);
    assert_eq!(arith::round_to_i64((-2.5f32).to_bits()), -3);
    assert_eq!(arith::round_to_i64(f32::NAN.to_bits()), 0);
    assert_eq!(arith::round_to_i64(f32::NEG_INFINITY.to_bits()), i64::MIN);
}

#[test]
fn signs_and_tolerances() {
    assert_eq!(single::negate(single::negate(0x1234_5678)), 0x1234_5678);
    assert_eq!(single::negate(1.5f32.to_bits()), (-1.5f32).to_bits());
    assert!(single::is_near_zero(0.0009f32.to_bits()));
    assert!(!single::is_near_zero(0.001f32.to_bits()));
    assert!(single::is_near_one(1.0009f32.to_bits()));
    assert!(!single::is_near_one(0.998f32.to_bits()));
    for a in patterns() {
        for b in [0, 0x3F80_0000, 0x4000_0000, 0x7F80_0000, a ^ 1, a.wrapping_add(0x4000)] {
            let (x, y) = (f32::from_bits(a), f32::from_bits(b));
            assert_eq!(single::exceeds_milli(a, b), (x - y).abs() > 1e-3, "{x:?} {y:?}");
        }
    }
}
