use ka9q_tci::decimal::{parse_signed, parse_unsigned, signed_string, unsigned_string};
use ka9q_tci::ieee::{double_from, round_double, round_float, scale_sample};
use ka9q_tci::text::{rsplit_once, same, split, split_once, trim};

#[test]
fn numerals() {
    for n in [0u64, 9, 10, 12_345, u64::MAX] {
        assert_eq!(unsigned_string(n), n.to_string());
        assert_eq!(parse_unsigned(&n.to_string(), u64::MAX), Some(n));
    }
    for n in [0i64, -1, 7, i64::MIN, i64::MAX] {
        assert_eq!(signed_string(n), n.to_string());
        assert_eq!(parse_signed(&n.to_string(), i64::MIN, i64::MAX), Some(n));
    }
}

#[test]
fn numerals_are_read_as_std_reads_them() {
    for s in ["", "+", "-", "+5", "-5", "+-5", "-+5", "007", " 5", "5 ", "5x", "-0", "300", "255", "256"] {
        assert_eq!(
            parse_unsigned(s, 255).map(|v| v as u8),
            s.parse::<u8>().ok(),
            "{s:?}"
        );
        assert_eq!(
            parse_signed(s, i32::MIN as i64, i32::MAX as i64).map(|v| v as i32),
            s.parse::<i32>().ok(),
            "{s:?}"
        );
    }
}

#[test]
fn splitting_as_std_does() {
    for s in ["", ",", "a", "a,b", ",a,,b,", "\u{fc},\u{20ac}"] {
        assert_eq!(split(s, ','), s.split(',').collect::<Vec<&str>>());
        assert_eq!(split_once(s, ','), s.split_once(','));
        assert_eq!(rsplit_once(s, ','), s.rsplit_once(','));
        assert_eq!(split(s, ',').join(","), s);
    }
}

#[test]
fn trimming_as_std_does() {
    for s in ["", " ", "\u{3000}a\u{85} ", "a b", "\u{200b}a", "\n\t\u{b}\u{c}\r x", "\u{1680}\u{202f}\u{205f}\u{2028}"] {
        assert_eq!(trim(s), s.trim());
    }
    for u in 0..=0x3100u32 {
        if let Some(c) = char::from_u32(u) {
            let s = c.to_string();
            assert_eq!(trim(&s), s.trim());
        }
    }
    assert!(same("a\u{e4}", "a\u{e4}"));
    assert!(!same("a", "ab"));
}

#[test]
fn doubles_round_as_std_rounds_them() {
    for v in [
        0.0f64, -0.0, 0.49999999999999994, 0.5, 1.5, 2.5, 14_074_000.0, 14_074_000.5, 1e18, 1.8e19,
        1e20, -1.0, -1e300, 5e-324, f64::MIN_POSITIVE, f64::MAX, f64::INFINITY, f64::NEG_INFINITY,
        f64::NAN, 4503599627370495.5, 9007199254740993.0,
    ] {
        assert_eq!(round_double(v.to_bits()), v.round() as u64, "{v}");
    }
    for e in 0..2048u64 {
        for f in [0u64, 1, 0x8_0000_0000_0000, 0xF_FFFF_FFFF_FFFF] {
            let bits = (e << 52) | f;
            assert_eq!(round_double(bits), f64::from_bits(bits).round() as u64);
        }
    }
}

#[test]
fn floats_round_as_std_rounds_them() {
    for v in [0.0f32, 0.5, 0.49999997, 1.5, 7_074_000.0, 1e19, 2e19, -3.0, f32::INFINITY, f32::NAN] {
        assert_eq!(round_float(v.to_bits()), v.round() as u64, "{v}");
    }
    for e in 0..256u32 {
        for f in [0u32, 1, 0x40_0000, 0x7F_FFFF] {
            let bits = (e << 23) | f;
            assert_eq!(round_float(bits), f32::from_bits(bits).round() as u64);
        }
    }
}

#[test]
fn integers_convert_as_std_converts_them() {
    let mut values: Vec<u64> = vec![0, 1, 2, 3, 14_074_000, u64::MAX, u64::MAX - 1];
    for k in 0..64u32 {
        let p = 1u64 << k;
        for d in [0u64, 1, 2, 3, 5, 0x3FF, 0x400, 0x401, 0xC00] {
            values.push(p.wrapping_add(d));
            values.push(p.wrapping_sub(d));
        }
    }
    for v in values {
        assert_eq!(double_from(v), (v as f64).to_bits(), "{v}");
    }
    // Integers of up to 53 bits come back.
    for v in [0u64, 1, 30_000_000, (1 << 53) - 1, 1 << 53] {
        assert_eq!(round_double(double_from(v)), v);
    }
}

#[test]
fn samples_scale_as_std_scales_them() {
    for i in i16::MIN..=i16::MAX {
        let v = i as f32 * (1.0f32 / 32768.0);
        assert_eq!(scale_sample(i), v.to_bits());
        assert!((-1.0..1.0).contains(&v));
    }
}
