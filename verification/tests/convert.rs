use ddsd::decode::convert::{
    bc6h_uf16, fp, fp10, fp11, fp16, n1, n10, n16, n2, n4, n5, n6, n8, rgb9995f, s16, s8, xr10,
    yuv10, yuv16, yuv8,
};
use ddsd::decode::convert::{B5G5R5A1, B5G6R5};

/// `2^exponent` as a hardware float.
fn two_powi(exponent: i32) -> f32 {
    f32::from_bits(((exponent + 127) as u32) << 23)
}

/// The conversion of a hardware float to 8 bits.
fn float_n8(x: f32) -> u8 {
    (x * 255.0 + 0.5) as u8
}

/// The conversion of a hardware float to 16 bits.
fn float_n16(x: f32) -> u16 {
    (x * 65535.0 + 0.5) as u16
}

/// A half-precision number as a hardware float.
fn half_to_float(x: u16) -> f32 {
    let exp: u16 = x >> 10 & 0b1_1111;
    let mant: u16 = x & 0b11_1111_1111;
    let val: f32 = if exp == 0 {
        mant as f32 * two_powi(-24)
    } else if exp != 31 {
        (mant as f32 + 1024_f32) * two_powi(exp as i32 - 25)
    } else if mant == 0 {
        f32::INFINITY
    } else {
        f32::NAN
    };
    if x & 0x8000 != 0 {
        -val
    } else {
        val
    }
}

fn same_float(bits: u32, expected: f32) -> bool {
    if expected.is_nan() {
        f32::from_bits(bits).is_nan()
    } else {
        bits == expected.to_bits()
    }
}

#[test]
fn fp_to_n8() {
    assert_eq!(fp::n8(f32::NEG_INFINITY.to_bits()), 0);
    assert_eq!(fp::n8((-1000.0f32).to_bits()), 0);
    assert_eq!(fp::n8((-1.0f32).to_bits()), 0);
    assert_eq!(fp::n8(0.0f32.to_bits()), 0);
    assert_eq!(fp::n8(0.5f32.to_bits()), 128);
    assert_eq!(fp::n8(1.0f32.to_bits()), 255);
    assert_eq!(fp::n8(1000.0f32.to_bits()), 255);
    assert_eq!(fp::n8(f32::INFINITY.to_bits()), 255);

    assert_eq!(fp::n8(f32::NAN.to_bits()), 0);
}

#[test]
fn fp_to_n16() {
    assert_eq!(fp::n16(f32::NEG_INFINITY.to_bits()), 0);
    assert_eq!(fp::n16((-1000.0f32).to_bits()), 0);
    assert_eq!(fp::n16((-1.0f32).to_bits()), 0);
    assert_eq!(fp::n16(0.0f32.to_bits()), 0);
    assert_eq!(fp::n16(0.5f32.to_bits()), 32768);
    assert_eq!(fp::n16(1.0f32.to_bits()), u16::MAX);
    assert_eq!(fp::n16(1000.0f32.to_bits()), u16::MAX);
    assert_eq!(fp::n16(f32::INFINITY.to_bits()), u16::MAX);

    assert_eq!(fp::n16(f32::NAN.to_bits()), 0);
}

#[test]
fn fp16_to_n8() {
    for i in 0..=u16::MAX {
        let expected = fp::n8(fp16::f32_bits(i));
        let actual = fp16::n8(i);
        assert_eq!(actual, expected, "failed for i={}", i);
    }
}

#[test]
fn fp16_to_n16() {
    for i in 0..=u16::MAX {
        let expected = fp::n16(fp16::f32_bits(i));
        let actual = fp16::n16(i);
        assert_eq!(actual, expected, "failed for i={}", i);
    }
}

fn all_bc6h_uf16_values() -> Vec<u16> {
    (0..=u16::MAX)
        .filter(|&x| {
            let value = f32::from_bits(fp16::f32_bits(x));

            if value.is_sign_negative() {
                // BC6H_UF16 cannot negative values
                return false;
            }
            if !value.is_finite() {
                // BC6H_UF16 cannot produce +-Inf or NaN values.
                return false;
            }

            true
        })
        .collect()
}

#[test]
fn bc6h_uf16_to_n8() {
    for i in all_bc6h_uf16_values() {
        let expected = fp16::n8(i);
        let actual = bc6h_uf16::n8(i);
        assert_eq!(actual, expected, "failed for i={}", i);
    }
}

#[test]
fn bc6h_uf16_to_n16() {
    for i in all_bc6h_uf16_values() {
        let expected = fp16::n16(i);
        let actual = bc6h_uf16::n16(i);
        assert_eq!(actual, expected, "failed for i={}", i);
    }
}

#[test]
fn bc6h_uf16_to_f32() {
    for i in all_bc6h_uf16_values() {
        let expected = fp16::f32_bits(i);
        let actual = bc6h_uf16::f32_bits(i);
        assert_eq!(actual, expected, "failed for i={}", i);
    }
}

#[test]
fn fp11_to_n8() {
    for i in 0..2048 {
        let expected = fp::n8(fp11::f32_bits(i));
        let actual = fp11::n8(i);
        assert_eq!(actual, expected, "failed for i={}", i);
    }
}

#[test]
fn fp11_to_n16() {
    for i in 0..2048 {
        let expected = fp::n16(fp11::f32_bits(i));
        let actual = fp11::n16(i);
        assert_eq!(actual, expected, "failed for i={}", i);
    }
}

#[test]
fn fp10_to_n8() {
    for i in 0..1024 {
        let expected = fp::n8(fp10::f32_bits(i));
        let actual = fp10::n8(i);
        assert_eq!(actual, expected, "failed for i={}", i);
    }
}

#[test]
fn fp10_to_n16() {
    for i in 0..1024 {
        let expected = fp::n16(fp10::f32_bits(i));
        let actual = fp10::n16(i);
        assert_eq!(actual, expected, "failed for i={}", i);
    }
}

#[test]
fn xr10_to_n8() {
    for i in 0..1024 {
        let expected = fp::n8(xr10::f32_bits(i));
        let actual = xr10::n8(i);
        assert_eq!(actual, expected, "failed for i={}", i);
    }
}

#[test]
fn xr10_to_n16() {
    for i in 0..1024 {
        let expected = fp::n16(xr10::f32_bits(i));
        let actual = xr10::n16(i);
        assert_eq!(actual, expected, "failed for i={}", i);
    }
}

#[test]
fn rgb9995f_to_n8() {
    // This will exhaustively test all exponent and B mantissa values.
    // R and G won't be tested, since they behave the same as B.
    for e in 0..=31 {
        for b in 0..=255 {
            let i = e << 27 | b << 18;

            let expected = rgb9995f::f32_bits(i).map(fp::n8);
            let actual = rgb9995f::n8(i);
            assert_eq!(actual, expected, "failed for exp={} mant={}", e, b);
        }
    }
}

#[test]
fn rgb9995f_to_n16() {
    // This will exhaustively test all exponent and B mantissa values.
    // R and G won't be tested, since they behave the same as B.
    for e in 0..=31 {
        for b in 0..=255 {
            let i = e << 27 | b << 18;

            let expected = rgb9995f::f32_bits(i).map(fp::n16);
            let actual = rgb9995f::n16(i);
            assert_eq!(actual, expected, "failed for exp={} mant={}", e, b);
        }
    }
}

fn check_to_unorm8(convert: fn(u8) -> u8, max_in: u8) {
    assert_eq!(convert(0), 0);
    assert_eq!(convert(max_in), u8::MAX);
    for x in 0..=max_in {
        let expected = (x as f64 * u8::MAX as f64 / max_in as f64).round() as u8;
        assert_eq!(convert(x), expected);
    }
}

fn check_to_unorm16(convert: fn(u8) -> u16, max_in: u8) {
    assert_eq!(convert(0), 0);
    assert_eq!(convert(max_in), u16::MAX);
    for x in 0..=max_in {
        let expected = (x as f64 * u16::MAX as f64 / max_in as f64).round() as u16;
        assert_eq!(convert(x), expected);
    }
}

#[test]
fn n1_to_n8() {
    check_to_unorm8(n1::n8, 1);
}

#[test]
fn n2_to_n8() {
    check_to_unorm8(n2::n8, 3);
}

#[test]
fn n4_to_n8() {
    check_to_unorm8(n4::n8, 15);
}

#[test]
fn n5_to_n8() {
    check_to_unorm8(n5::n8, 31);
}

#[test]
fn n6_to_n8() {
    check_to_unorm8(n6::n8, 63);
}

#[test]
fn n10_to_n8() {
    assert_eq!(n10::n8(0), 0);
    assert_eq!(n10::n8(1023), u8::MAX);
    for x in 0..=1023u16 {
        let expected = (x as f64 * 255.0 / 1023.0).round() as u8;
        assert_eq!(n10::n8(x), expected);
    }
}

#[test]
fn n16_to_n8() {
    assert_eq!(n16::n8(0), 0);
    assert_eq!(n16::n8(65535), u8::MAX);
    for x in 0..=65535u16 {
        let expected = (x as f64 * 255.0 / 65535.0).round() as u8;
        assert_eq!(n16::n8(x), expected);
    }
}

#[test]
fn n1_to_n16() {
    check_to_unorm16(n1::n16, 1);
}

#[test]
fn n2_to_n16() {
    check_to_unorm16(n2::n16, 3);
}

#[test]
fn n4_to_n16() {
    check_to_unorm16(n4::n16, 15);
}

#[test]
fn n5_to_n16() {
    check_to_unorm16(n5::n16, 31);
}

#[test]
fn n6_to_n16() {
    check_to_unorm16(n6::n16, 63);
}

#[test]
fn n8_to_n16() {
    check_to_unorm16(n8::n16, 255);
}

#[test]
fn n10_to_n16() {
    assert_eq!(n10::n16(0), 0);
    assert_eq!(n10::n16(1023), u16::MAX);
    for x in 0..=1023u16 {
        let expected = (x as f64 * 65535.0 / 1023.0).round() as u16;
        assert_eq!(n10::n16(x), expected);
    }
}

/// The plain conversion to a float multiplies by the rounded reciprocal.
fn check_to_float(convert: fn(u32) -> u32, max_in: u32) {
    assert_eq!(f32::from_bits(convert(0)), 0.0);
    assert_eq!(f32::from_bits(convert(max_in)), 1.0);
    let f: f32 = 1.0 / max_in as f32;
    for x in 0..=max_in {
        let expected = x as f32 * f;
        assert_eq!(convert(x), expected.to_bits(), "failed for x={}", x);
    }
}

/// The exact conversion to a float gives the float nearest to the quotient.
fn check_to_float_exact(convert: fn(u32) -> u32, max_in: u32) {
    assert_eq!(f32::from_bits(convert(0)), 0.0);
    assert_eq!(f32::from_bits(convert(max_in)), 1.0);
    for x in 0..=max_in {
        let expected = (x as f64 / max_in as f64) as f32;
        assert_eq!(f32::from_bits(convert(x)), expected, "failed for x={}", x);
    }
}

#[test]
fn n1_to_f32() {
    check_to_float(|x| n1::f32_bits(x as u8), 1);
}

#[test]
fn n2_to_f32() {
    check_to_float(|x| n2::f32_bits(x as u8), 3);
}

#[test]
fn n4_to_f32() {
    check_to_float(|x| n4::f32_bits(x as u8), 15);
}

#[test]
fn n5_to_f32() {
    check_to_float(|x| n5::f32_bits(x as u8), 31);
}

#[test]
fn n6_to_f32() {
    check_to_float(|x| n6::f32_bits(x as u8), 63);
}

#[test]
fn n8_to_f32() {
    check_to_float(|x| n8::f32_bits(x as u8), 255);
}

#[test]
fn n10_to_f32() {
    check_to_float(|x| n10::f32_bits(x as u16), 1023);
}

#[test]
fn n16_to_f32() {
    check_to_float(|x| n16::f32_bits(x as u16), 65535);
}

#[test]
fn n1_to_f32_exact() {
    check_to_float_exact(|x| n1::f32_bits(x as u8), 1);
}

#[test]
fn n2_to_f32_exact() {
    check_to_float_exact(|x| n2::f32_bits(x as u8), 3);
}

#[test]
fn n4_to_f32_exact() {
    check_to_float_exact(|x| n4::f32_exact_bits(x as u8), 15);
}

#[test]
fn n5_to_f32_exact() {
    check_to_float_exact(|x| n5::f32_exact_bits(x as u8), 31);
}

#[test]
fn n6_to_f32_exact() {
    check_to_float_exact(|x| n6::f32_exact_bits(x as u8), 63);
}

#[test]
fn n8_to_f32_exact() {
    check_to_float_exact(|x| n8::f32_exact_bits(x as u8), 255);
}

#[test]
fn n10_to_f32_exact() {
    check_to_float_exact(|x| n10::f32_exact_bits(x as u16), 1023);
}

#[test]
fn n16_to_f32_exact() {
    check_to_float_exact(|x| n16::f32_exact_bits(x as u16), 65535);
}

#[test]
fn s8_to_n8() {
    assert_eq!(s8::n8(i8::MIN as u8), 0);
    assert_eq!(s8::n8(-i8::MAX as u8), 0);
    assert_eq!(s8::n8(0), u8::MAX / 2 + 1);
    assert_eq!(s8::n8(i8::MAX as u8), u8::MAX);
    for x in 0..=u8::MAX {
        let xi = x as i8;
        let expected =
            ((xi.max(-i8::MAX) as f64 / i8::MAX as f64 + 1.0) / 2.0 * u8::MAX as f64).round() as u8;
        assert_eq!(s8::n8(x), expected, "failed for x={} (u{})", xi, x);
    }
}

#[test]
fn s16_to_n8() {
    assert_eq!(s16::n8(i16::MIN as u16), 0);
    assert_eq!(s16::n8(-i16::MAX as u16), 0);
    assert_eq!(s16::n8(0), u8::MAX / 2 + 1);
    assert_eq!(s16::n8(i16::MAX as u16), u8::MAX);
    for x in 0..=u16::MAX {
        let xi = x as i16;
        let expected = ((xi.max(-i16::MAX) as f64 / i16::MAX as f64 + 1.0) / 2.0
            * u8::MAX as f64)
            .round() as u8;
        assert_eq!(s16::n8(x), expected, "failed for x={} (u{})", xi, x);
    }
}

#[test]
fn s8_to_n16() {
    assert_eq!(s8::n16(i8::MIN as u8), 0);
    assert_eq!(s8::n16(-i8::MAX as u8), 0);
    assert_eq!(s8::n16(0), u16::MAX / 2 + 1);
    assert_eq!(s8::n16(i8::MAX as u8), u16::MAX);
    for x in 0..=u8::MAX {
        let xi = x as i8;
        let expected = ((xi.max(-i8::MAX) as f64 / i8::MAX as f64 + 1.0) / 2.0
            * u16::MAX as f64)
            .round() as u16;
        assert_eq!(s8::n16(x), expected, "failed for x={} (u{})", xi, x);
    }
}

#[test]
fn s16_to_n16() {
    assert_eq!(s16::n16(i16::MIN as u16), 0);
    assert_eq!(s16::n16(-i16::MAX as u16), 0);
    assert_eq!(s16::n16(0), u16::MAX / 2 + 1);
    assert_eq!(s16::n16(i16::MAX as u16), u16::MAX);
    for x in 0..=u16::MAX {
        let xi = x as i16;
        let expected = ((xi.max(-i16::MAX) as f64 / i16::MAX as f64 + 1.0) / 2.0
            * u16::MAX as f64)
            .round() as u16;
        assert_eq!(s16::n16(x), expected, "failed for x={} (u{})", xi, x);
    }
}

#[test]
fn s8_to_uf32() {
    let f: f32 = 1.0 / 254.0;
    for x in 0..=u8::MAX {
        let expected = s8::norm(x) as f32 * f;
        assert_eq!(s8::uf32_bits(x), expected.to_bits(), "failed for x={}", x);
    }
}

#[test]
fn s16_to_uf32() {
    let f: f32 = 1.0 / 65534.0;
    for x in 0..=u16::MAX {
        let expected = s16::norm(x) as f32 * f;
        assert_eq!(s16::uf32_bits(x), expected.to_bits(), "failed for x={}", x);
    }
}

#[test]
fn s8_to_uf32_exact() {
    assert_eq!(f32::from_bits(s8::uf32_exact_bits(i8::MIN as u8)), 0.0);
    assert_eq!(f32::from_bits(s8::uf32_exact_bits(-i8::MAX as u8)), 0.0);
    assert_eq!(f32::from_bits(s8::uf32_exact_bits(0)), 0.5);
    assert_eq!(f32::from_bits(s8::uf32_exact_bits(i8::MAX as u8)), 1.0);
    for x in 0..=u8::MAX {
        let xi = x as i8;
        let expected = ((xi.max(-i8::MAX) as f64 / i8::MAX as f64 + 1.0) / 2.0) as f32;
        assert_eq!(f32::from_bits(s8::uf32_exact_bits(x)), expected, "failed for x={}", xi);
    }
}

#[test]
fn s16_to_uf32_exact() {
    assert_eq!(f32::from_bits(s16::uf32_exact_bits(i16::MIN as u16)), 0.0);
    assert_eq!(f32::from_bits(s16::uf32_exact_bits(-i16::MAX as u16)), 0.0);
    assert_eq!(f32::from_bits(s16::uf32_exact_bits(0)), 0.5);
    assert_eq!(f32::from_bits(s16::uf32_exact_bits(i16::MAX as u16)), 1.0);
    for x in 0..=u16::MAX {
        let xi = x as i16;
        let expected = ((xi.max(-i16::MAX) as f64 / i16::MAX as f64 + 1.0) / 2.0) as f32;
        assert_eq!(f32::from_bits(s16::uf32_exact_bits(x)), expected, "failed for x={}", xi);
    }
}

#[test]
fn snorm_extremes_to_n16() {
    assert_eq!(s8::n16(0x80), 0);
    assert_eq!(s8::n16(0x81), 0);
    assert_eq!(s8::n16(0x7F), 65535);
    assert_eq!(s8::n16(0x00), 32768);
    assert_eq!(s16::n16(0x8000), 0);
    assert_eq!(s16::n16(0x8001), 0);
    assert_eq!(s16::n16(0x7FFF), 65535);
    assert_eq!(s16::n16(0x0000), 32768);
}

#[test]
fn snorm8_normalize() {
    let bytes = [0x80u8, 0x81, 0x00, 0x7F];
    assert_eq!(bytes.map(s8::n8), [0, 0, 128, 255]);
}

#[test]
fn fp16_inf_and_nan() {
    assert_eq!(fp16::n8(0x7C00), 255);
    assert_eq!(fp16::n16(0x7C00), 65535);
    assert_eq!(fp16::n8(0x7E00), 0);
    assert_eq!(fp16::n16(0x7E00), 0);
    assert_eq!(fp16::n8(0xFC00), 0);
    assert_eq!(fp16::n16(0xFC00), 0);
    assert_eq!(fp16::f32_bits(0x7C00), f32::INFINITY.to_bits());
    assert_eq!(fp16::f32_bits(0xFC00), f32::NEG_INFINITY.to_bits());
    assert!(f32::from_bits(fp16::f32_bits(0x7E00)).is_nan());
}

#[test]
fn rgb9995f_half() {
    // exponent 15, all mantissas 256: 256 * 2^(15 - 24) = 0.5
    let rgb: u32 = 15 << 27 | 256 << 18 | 256 << 9 | 256;
    assert_eq!(rgb9995f::f32_bits(rgb).map(f32::from_bits), [0.5, 0.5, 0.5]);
    assert_eq!(rgb9995f::n8(rgb), [128, 128, 128]);
    assert_eq!(rgb9995f::n16(rgb), [32768, 32768, 32768]);
}

#[test]
fn fp16_matches_hardware_floats() {
    for i in 0..=u16::MAX {
        let value = half_to_float(i);
        assert!(same_float(fp16::f32_bits(i), value), "failed for i={}", i);
        assert_eq!(fp16::n8(i), float_n8(value), "failed for i={}", i);
        assert_eq!(fp16::n16(i), float_n16(value), "failed for i={}", i);
    }
}

#[test]
fn fp11_matches_hardware_floats() {
    for i in 0..2048u16 {
        let exp = i >> 6 & 31;
        let mant = i & 63;
        let value: f32 = if exp == 0 {
            mant as f32 * two_powi(-20)
        } else if exp != 31 {
            (mant as f32 + 64_f32) * two_powi(exp as i32 - 21)
        } else if mant == 0 {
            f32::INFINITY
        } else {
            f32::NAN
        };
        assert!(same_float(fp11::f32_bits(i), value), "failed for i={}", i);
        assert_eq!(fp11::n8(i), float_n8(value), "failed for i={}", i);
        assert_eq!(fp11::n16(i), float_n16(value), "failed for i={}", i);
    }
}

#[test]
fn fp10_matches_hardware_floats() {
    for i in 0..1024u16 {
        let exp = i >> 5 & 31;
        let mant = i & 31;
        let value: f32 = if exp == 0 {
            mant as f32 * two_powi(-19)
        } else if exp != 31 {
            (mant as f32 + 32_f32) * two_powi(exp as i32 - 20)
        } else if mant == 0 {
            f32::INFINITY
        } else {
            f32::NAN
        };
        assert!(same_float(fp10::f32_bits(i), value), "failed for i={}", i);
        assert_eq!(fp10::n8(i), float_n8(value), "failed for i={}", i);
        assert_eq!(fp10::n16(i), float_n16(value), "failed for i={}", i);
    }
}

#[test]
fn rgb9995f_matches_hardware_floats() {
    for e in 0..=31u32 {
        for m in 0..512u32 {
            let rgb = e << 27 | m << 18 | m << 9 | m;
            let value: f32 = if e == 0 {
                m as f32 * (1.0 / 8388608.0)
            } else if e != 31 {
                m as f32 * two_powi(e as i32 - 24)
            } else if m == 0 {
                f32::INFINITY
            } else {
                f32::NAN
            };
            let n8 = if e != 31 {
                (m as f32 * (two_powi(e as i32 - 24) * 255.0) + 0.5) as u8
            } else if m == 0 {
                255
            } else {
                0
            };
            let n16 = if e == 0 {
                (m as f32 * ((1.0 / 8388608.0) * 65535.0) + 0.5) as u16
            } else if e != 31 {
                (m as f32 * (two_powi(e as i32 - 24) * 65535.0) + 0.5) as u16
            } else if m == 0 {
                u16::MAX
            } else {
                0
            };
            assert!(same_float(rgb9995f::f32_bits(rgb)[2], value), "exp={} mant={}", e, m);
            assert_eq!(rgb9995f::n8(rgb), [n8; 3], "exp={} mant={}", e, m);
            assert_eq!(rgb9995f::n16(rgb), [n16; 3], "exp={} mant={}", e, m);
        }
    }
}

#[test]
fn xr10_matches_hardware_floats() {
    let f: f32 = 1.0 / 510.0;
    for i in 0..1024u16 {
        let value = (i as i16 - 0x180) as f32 * f;
        assert_eq!(xr10::f32_bits(i), value.to_bits(), "failed for i={}", i);
    }
}

#[test]
fn fp_matches_hardware_floats() {
    // every exponent with mantissas at and around the edges, and the
    // numbers around every rounding boundary of the 8-bit output
    let mut inputs: Vec<u32> = Vec::new();
    for e in 0..256u32 {
        for m in [0u32, 1, 2, 0x3F_FFFF, 0x40_0000, 0x40_0001, 0x7F_FFFE, 0x7F_FFFF] {
            inputs.push(e << 23 | m);
            inputs.push(0x8000_0000 | e << 23 | m);
        }
    }
    for k in 0..=255u32 {
        let boundary = ((k as f32 + 0.5) / 255.0).to_bits();
        for d in 0..16u32 {
            inputs.push(boundary - 8 + d);
        }
    }
    for k in (0..=65535u32).step_by(97) {
        let boundary = ((k as f32 + 0.5) / 65535.0).to_bits();
        for d in 0..16u32 {
            inputs.push(boundary - 8 + d);
        }
    }
    let mut state: u32 = 0x1234_5678;
    for _ in 0..200_000 {
        state = state.wrapping_mul(1664525).wrapping_add(1013904223);
        inputs.push(state);
    }
    for bits in inputs {
        let x = f32::from_bits(bits);
        assert_eq!(fp::n8(bits), float_n8(x), "failed for bits={:#x}", bits);
        assert_eq!(fp::n16(bits), float_n16(x), "failed for bits={:#x}", bits);
    }
}

#[test]
fn b5g6r5_decode() {
    // little-endian 0xF81F: red 31, green 0, blue 31
    let pixel = B5G6R5::from_le_bytes([0x1F, 0xF8]);
    assert_eq!((pixel.r5, pixel.g6, pixel.b5), (31, 0, 31));
    assert_eq!(pixel.to_n8(), [255, 0, 255]);
    assert_eq!(pixel.to_n16(), [65535, 0, 65535]);
    assert_eq!(pixel.to_f32_bits().map(f32::from_bits), [1.0, 0.0, 1.0]);
}

#[test]
fn b5g6r5_interpolation() {
    let black = B5G6R5::from_u16(0x0000);
    let white = B5G6R5::from_u16(0xFFFF);
    assert_eq!(black.mid_color_rgb8(white), [128, 128, 128]);
    assert_eq!(black.one_third_color_rgb8(white), [85, 85, 85]);
    assert_eq!(white.one_third_color_rgb8(black), [170, 170, 170]);
    for a in 0..32u16 {
        for b in 0..32u16 {
            let x = B5G6R5 { r5: a, g6: 2 * a, b5: a };
            let y = B5G6R5 { r5: b, g6: 2 * b + 1, b5: b };
            let third = x.one_third_color_rgb8(y);
            let mid = x.mid_color_rgb8(y);
            let r = ((2 * a + b) as f64 * 255.0 / 93.0).round() as u8;
            let g = ((4 * a + 2 * b + 1) as f64 * 255.0 / 189.0).round() as u8;
            assert_eq!(third, [r, g, r]);
            let r = ((a + b) as f64 * 255.0 / 62.0).round() as u8;
            let g = ((2 * a + 2 * b + 1) as f64 * 255.0 / 126.0).round() as u8;
            assert_eq!(mid, [r, g, r]);
        }
    }
}

#[test]
fn b5g5r5a1_decode() {
    let pixel = B5G5R5A1::from_u16(0b1_11111_00000_10000);
    assert_eq!((pixel.r5, pixel.g5, pixel.b5, pixel.a1), (31, 0, 16, 1));
    assert_eq!(pixel.to_n8(), [255, 0, 132, 255]);
    assert_eq!(pixel.to_n16(), [65535, 0, 33825, 65535]);
    let pixel = B5G5R5A1::from_u16(0);
    assert_eq!(pixel.to_f32_bits(), [0, 0, 0, 0]);
}

/// Red, green and blue of luma and chroma by hardware arithmetic, in the
/// scale of the input.
fn hardware_rgb(c: f32, d: f32, e: f32) -> [f32; 3] {
    [
        1.164383 * c + 1.596027 * e,
        1.164383 * c - 0.391762 * d - 0.812968 * e,
        1.164383 * c + 2.017232 * d,
    ]
}

fn unit(rgb: [f32; 3], f: f32) -> [f32; 3] {
    rgb.map(|x| (x * f).clamp(0.0, 1.0))
}

#[test]
fn yuv8_matches_hardware_floats() {
    const F: f32 = 1.0 / 255.0;
    // all values of luma with chroma in steps that hit both ends
    for y in 0..=255u8 {
        for u in (0..=255u8).step_by(5) {
            for v in (0..=255u8).step_by(3) {
                let rgb = hardware_rgb(y as f32 - 16.0, u as f32 - 128.0, v as f32 - 128.0);
                let yuv = [y, u, v];
                assert_eq!(yuv8::n8(yuv), rgb.map(|x| (x + 0.5) as u8), "{:?}", yuv);
                let single = unit(rgb, F);
                assert_eq!(yuv8::f32_bits(yuv).map(f32::from_bits), single, "{:?}", yuv);
                assert_eq!(yuv8::n16(yuv), single.map(float_n16), "{:?}", yuv);
            }
        }
    }
    assert_eq!(yuv8::n8([16, 128, 128]), [0, 0, 0]);
    assert_eq!(yuv8::n8([235, 128, 128]), [255, 255, 255]);
    assert_eq!(yuv8::f32_bits([16, 128, 128]), [0, 0, 0]);
    assert_eq!(yuv8::n8([0, 0, 0]), [0, 136, 0]);
    assert_eq!(yuv8::n8([255, 255, 255]), [255, 125, 255]);
}

#[test]
fn yuv10_and_yuv16_match_hardware_floats() {
    let mut state: u32 = 99;
    let mut next = move || {
        state = state.wrapping_mul(1664525).wrapping_add(1013904223);
        (state >> 16) as u16
    };
    for i in 0..300_000 {
        let mut yuv = [next(), next(), next()];
        if i % 3 == 0 {
            yuv = yuv.map(|x| x % 1024);
        }
        const F10: f32 = 1.0 / 1023.0;
        let rgb = hardware_rgb(yuv[0] as f32 - 64.0, yuv[1] as f32 - 512.0, yuv[2] as f32 - 512.0);
        let single = unit(rgb, F10);
        assert_eq!(yuv10::f32_bits(yuv).map(f32::from_bits), single, "{:?}", yuv);
        assert_eq!(yuv10::n8(yuv), single.map(float_n8), "{:?}", yuv);
        assert_eq!(yuv10::n16(yuv), single.map(float_n16), "{:?}", yuv);
        const F16: f32 = 1.0 / 65535.0;
        let rgb =
            hardware_rgb(yuv[0] as f32 - 4096.0, yuv[1] as f32 - 32768.0, yuv[2] as f32 - 32768.0);
        let single = unit(rgb, F16);
        assert_eq!(yuv16::f32_bits(yuv).map(f32::from_bits), single, "{:?}", yuv);
        assert_eq!(yuv16::n8(yuv), single.map(float_n8), "{:?}", yuv);
        assert_eq!(yuv16::n16(yuv), single.map(float_n16), "{:?}", yuv);
    }
    for yuv in [[0u16, 0, 0], [65535, 65535, 65535], [4096, 32768, 32768], [64, 512, 512], [0, 65535, 0]] {
        let rgb =
            hardware_rgb(yuv[0] as f32 - 4096.0, yuv[1] as f32 - 32768.0, yuv[2] as f32 - 32768.0);
        assert_eq!(yuv16::f32_bits(yuv).map(f32::from_bits), unit(rgb, 1.0 / 65535.0));
        let rgb = hardware_rgb(yuv[0] as f32 - 64.0, yuv[1] as f32 - 512.0, yuv[2] as f32 - 512.0);
        assert_eq!(yuv10::f32_bits(yuv).map(f32::from_bits), unit(rgb, 1.0 / 1023.0));
    }
}
