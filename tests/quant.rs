use rknpu2_rs::quant::{dequantize, div_trunc, quantize, Ratio, Scale};

#[test]
fn quantize_adds_zero_point() {
    // 0.5 / 0.01 + 3 = 53
    assert_eq!(quantize(Ratio { num: 1, den: 2 }, 3, Scale { num: 1, den: 100 }), 53);
}

#[test]
fn quantize_truncates_toward_zero() {
    // 0.37 / 0.1 = 3.7 -> 3 and -0.37 / 0.1 = -3.7 -> -3
    assert_eq!(quantize(Ratio { num: 37, den: 100 }, 0, Scale { num: 1, den: 10 }), 3);
    assert_eq!(quantize(Ratio { num: -37, den: 100 }, 0, Scale { num: 1, den: 10 }), -3);
}

#[test]
fn quantize_clips_to_int8() {
    assert_eq!(quantize(Ratio { num: 5, den: 1 }, 0, Scale { num: 1, den: 100 }), 127);
    assert_eq!(quantize(Ratio { num: -5, den: 1 }, 0, Scale { num: 1, den: 100 }), -128);
    assert_eq!(quantize(Ratio { num: 0, den: 1 }, i32::MAX, Scale { num: 1, den: 1 }), 127);
    assert_eq!(quantize(Ratio { num: i64::MAX, den: 1 }, i32::MIN, Scale { num: 1, den: u32::MAX }), 127);
}

#[test]
fn dequantize_is_exact() {
    let d = dequantize(10, 2, Scale { num: 1, den: 4 });
    assert_eq!(d, Ratio { num: 8, den: 4 });
    let d = dequantize(-128, 127, Scale { num: 3, den: 7 });
    assert_eq!(d, Ratio { num: -765, den: 7 });
}

#[test]
fn dequantize_extreme_zero_point() {
    let d = dequantize(127, i32::MIN, Scale { num: i32::MAX, den: 1 });
    assert_eq!(d.num, (127i64 - i32::MIN as i64) * i32::MAX as i64);
}

#[test]
fn round_trip_within_one_step() {
    let scale = Scale { num: 1, den: 8 };
    for k in -100i64..100 {
        let v = Ratio { num: k, den: 13 };
        let q = quantize(v, -5, scale);
        let back = dequantize(q, -5, scale);
        // |back - v| <= 1/8, cross-multiplied
        let diff = (back.num as i128 * v.den as i128 - v.num as i128 * back.den as i128).abs();
        assert!(diff * scale.den as i128 <= scale.num as i128 * back.den as i128 * v.den as i128);
    }
}

#[test]
fn truncating_division() {
    assert_eq!(div_trunc(7, 2), 3);
    assert_eq!(div_trunc(-7, 2), -3);
    assert_eq!(div_trunc(0, 5), 0);
}

#[test]
fn scale_validity() {
    assert!(Scale { num: 1, den: 3 }.is_valid());
    assert!(!Scale { num: 0, den: 3 }.is_valid());
    assert!(!Scale { num: -1, den: 3 }.is_valid());
    assert!(!Scale { num: 1, den: 0 }.is_valid());
}
