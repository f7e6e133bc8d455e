use ddsd::decode::decode;
use ddsd::decode::decoder::DecodeOptions;
use ddsd::encode::mean::{mean_unorm, to_rgbg};
use ddsd::encode::subsample::{encode_block, process_subsample, uncompressed_universal_subsample};
use ddsd::encode::uncompressed::{supported_color_formats, Flags};
use ddsd::encode::{encode, get_encoders};
use ddsd::error::EncodeError;
use ddsd::format::Format;
use ddsd::pixel::{Channels, ColorFormat, Precision, Size};

fn color(channels: Channels, precision: Precision) -> ColorFormat {
    ColorFormat::new(channels, precision)
}

fn floats(values: &[f32]) -> Vec<u8> {
    values.iter().flat_map(|v| v.to_le_bytes()).collect()
}

/// The mean of two numbers as a normalised integer, as hardware computes it.
fn hardware_mean(a: f32, b: f32, max: f32) -> u16 {
    let mean = (a + b) * 0.5;
    if mean.is_nan() {
        0
    } else {
        (mean.clamp(0.0, 1.0) * max + 0.5) as u16
    }
}

fn interesting_bits() -> Vec<u32> {
    let mut bits: Vec<u32> = vec![
        0,
        0x8000_0000,
        1,
        0x8000_0001,
        0x007F_FFFF,
        0x0080_0000,
        0x7F7F_FFFF,
        0xFF7F_FFFF,
        0x7F80_0000,
        0xFF80_0000,
        0x7FC0_0000,
        0xFFC0_0000,
        0x7F80_0001,
        0x3F80_0000,
        0x3F7F_FFFF,
        0x3F80_0001,
        0xBF80_0000,
        0x4000_0000,
        0x3FFF_FFFF,
        0x4000_0001,
        0xC000_0000,
        0x3F00_0000,
        0x3B80_8081,
        0x3B00_8081,
        0x3700_0000,
        0x36FF_FFFF,
    ];
    for e in (0..255u32).step_by(3) {
        for m in [0u32, 1, 0x40_0000, 0x7F_FFFF] {
            bits.push((e << 23) | m);
            bits.push(0x8000_0000 | (e << 23) | m);
        }
    }
    bits
}

#[test]
fn means_are_as_on_hardware() {
    let bits = interesting_bits();
    for &a in &bits {
        for &b in &bits {
            let (fa, fb) = (f32::from_bits(a), f32::from_bits(b));
            assert_eq!(mean_unorm(a, b, 255), hardware_mean(fa, fb, 255.0), "{:#x} {:#x}", a, b);
            assert_eq!(mean_unorm(a, b, 65535), hardware_mean(fa, fb, 65535.0), "{:#x} {:#x}", a, b);
        }
    }
}

#[test]
fn means_of_neighbours_are_as_on_hardware() {
    // numbers that nearly cancel, and numbers whose sum is rounded
    let mut state: u32 = 2024;
    let mut next = || {
        state = state.wrapping_mul(1664525).wrapping_add(1013904223);
        state
    };
    for _ in 0..300_000 {
        let a = next();
        let shift = next() % 64;
        let delta = next() >> (8 + next() % 24);
        // the exponent of the other number lies near that of the first
        let e = ((a >> 23) & 0xFF) as i32 + shift as i32 - 32;
        let e = e.clamp(0, 254) as u32;
        let b = ((next() & 1) << 31) | (e << 23) | ((a & 0x7F_FFFF) ^ (delta & 0x7F_FFFF));
        let (fa, fb) = (f32::from_bits(a), f32::from_bits(b));
        assert_eq!(mean_unorm(a, b, 255), hardware_mean(fa, fb, 255.0), "{:#x} {:#x}", a, b);
    }
    // within the unit interval
    for _ in 0..300_000 {
        let a = 0x3000_0000 + next() % 0x1000_0000;
        let b = 0x3000_0000 + next() % 0x1000_0000;
        let b = if next() % 4 == 0 { b | 0x8000_0000 } else { b };
        let (fa, fb) = (f32::from_bits(a), f32::from_bits(b));
        assert_eq!(mean_unorm(a, b, 255), hardware_mean(fa, fb, 255.0), "{:#x} {:#x}", a, b);
        assert_eq!(mean_unorm(a, b, 31), hardware_mean(fa, fb, 31.0), "{:#x} {:#x}", a, b);
    }
}

#[test]
fn means_of_given_numbers() {
    let m = |a: f32, b: f32| mean_unorm(a.to_bits(), b.to_bits(), 255);
    assert_eq!(m(0.0, 1.0), 128);
    assert_eq!(m(1.0, 1.0), 255);
    assert_eq!(m(0.25, 0.75), 128);
    assert_eq!(m(0.0, 0.0), 0);
    assert_eq!(m(-1.0, 1.0), 0);
    assert_eq!(m(-1.0, 2.0), 128);
    assert_eq!(m(3.0e38, 3.0e38), 255);
    assert_eq!(m(-3.0e38, 3.0e38), 0);
    assert_eq!(m(f32::INFINITY, -3.0e38), 255);
    assert_eq!(m(f32::INFINITY, f32::NEG_INFINITY), 0);
    assert_eq!(m(f32::NEG_INFINITY, 1.0), 0);
    assert_eq!(m(f32::NAN, 1.0), 0);
    assert_eq!(m(1.0, f32::NAN), 0);
    assert_eq!(m(1.0e-40, 1.0e-40), 0);
    assert_eq!(m(1.0e30, -1.0e30), 0);
    // the numbers next to each other leave one unit of the last place
    let big = 1.0e30f32;
    let below = f32::from_bits(big.to_bits() - 1);
    assert_eq!(m(big, -below), 255);
    assert_eq!(m(below, -big), 0);
}

fn numbers(pixels: &[[f32; 4]]) -> [u32; 32] {
    let mut block = [0u32; 32];
    for (k, p) in pixels.iter().enumerate() {
        for c in 0..4 {
            block[4 * k + c] = p[c].to_bits();
        }
    }
    block
}

#[test]
fn two_pixels_share_red_and_blue() {
    let block = numbers(&[[1.0, 0.2, 0.0, 1.0], [0.0, 0.8, 0.5, 0.0]]);
    assert_eq!(to_rgbg(&block), [128, 51, 64, 204]);
    let mut out = [0xEEu8; 6];
    encode_block(Format::R8G8_B8G8_UNORM, &block, &mut out, 1);
    assert_eq!(out, [0xEE, 128, 51, 64, 204, 0xEE]);
    encode_block(Format::G8R8_G8B8_UNORM, &block, &mut out, 2);
    assert_eq!(out, [0xEE, 128, 51, 128, 204, 64]);
}

#[test]
fn eight_pixels_share_a_byte() {
    let pixels: Vec<[f32; 4]> = [0.9f32, 0.1, 0.5, 0.49, 1.5, -1.0, 0.0, 1.0]
        .iter()
        .map(|r| [*r, 1.0 - *r, 0.0, 0.0])
        .collect();
    let block = numbers(&pixels);
    let mut out = [0u8; 1];
    encode_block(Format::R1_UNORM, &block, &mut out, 0);
    assert_eq!(out, [0b1010_1001]);
}

#[test]
fn the_last_block_is_filled_with_the_last_pixel() {
    let one = 1.0f32.to_bits();
    // ten pixels: white, black, white, ...
    let mut pixels = [0u32; 40];
    for x in 0..10 {
        let v = if x % 2 == 0 { one } else { 0 };
        pixels[4 * x..4 * x + 4].copy_from_slice(&[v, v, v, one]);
    }
    let mut out = [0xEEu8; 3];
    process_subsample(Format::R1_UNORM, &pixels, 10, &mut out);
    // the tenth pixel is black
    assert_eq!(out, [0b1010_1010, 0b1000_0000, 0xEE]);
    let mut out = [0xEEu8; 3];
    process_subsample(Format::R1_UNORM, &pixels, 9, &mut out);
    // the ninth pixel is white
    assert_eq!(out, [0b1010_1010, 0b1111_1111, 0xEE]);

    let mut out = [0xEEu8; 9];
    process_subsample(Format::R8G8_B8G8_UNORM, &pixels, 3, &mut out);
    assert_eq!(out, [128, 255, 128, 0, 255, 255, 255, 255, 0xEE]);
}

#[test]
fn lines_are_encoded_one_by_one() {
    let gray8 = color(Channels::Grayscale, Precision::U8);
    // three lines of ten pixels
    let data: Vec<u8> = (0..30u32).map(|i| if (i / 10 + i % 10) % 3 == 0 { 200 } else { 100 }).collect();
    let mut out = vec![7u8];
    assert_eq!(encode(Format::R1_UNORM, &data, Size::new(10, 3), gray8, &mut out), Ok(()));
    assert_eq!(out, [7, 0b1001_0010, 0b0111_1111, 0b0010_0100, 0b1000_0000, 0b0100_1001, 0b0000_0000]);

    let decoded_len = 10 * 3;
    let mut decoded = vec![0u8; decoded_len];
    let options = DecodeOptions { memory_limit: 1 << 20 };
    decode(Format::R1_UNORM, &out[1..], Size::new(10, 3), gray8, &mut decoded, &options).unwrap();
    let expected: Vec<u8> = data.iter().map(|v| if *v >= 128 { 255 } else { 0 }).collect();
    assert_eq!(decoded, expected);
}

#[test]
fn long_lines_are_encoded_in_chunks() {
    let options = DecodeOptions { memory_limit: 1 << 20 };
    let rgb8 = color(Channels::Rgb, Precision::U8);
    let width = 1301u32;
    let height = 3u32;
    // pairs of pixels with the same red and blue survive
    let mut data = Vec::new();
    for y in 0..height {
        for x in 0..width {
            let pair = x / 2;
            data.extend([(pair * 7 + y) as u8, (x * 13 + y) as u8, (pair * 3 + 5 * y) as u8]);
        }
    }
    for format in [Format::R8G8_B8G8_UNORM, Format::G8R8_G8B8_UNORM] {
        let mut out = Vec::new();
        assert_eq!(encode(format, &data, Size::new(width, height), rgb8, &mut out), Ok(()));
        assert_eq!(out.len(), 651 * 4 * 3);
        let mut decoded = vec![0u8; data.len()];
        decode(format, &out, Size::new(width, height), rgb8, &mut decoded, &options).unwrap();
        assert_eq!(decoded, data, "{:?}", format);
    }
    let gray = color(Channels::Grayscale, Precision::F32);
    let values: Vec<f32> =
        (0..width * height).map(|i| if (i * i + i / 7) % 5 < 2 { 1.0 } else { 0.0 }).collect();
    let mut out = Vec::new();
    uncompressed_universal_subsample(
        &floats(&values),
        gray,
        width as usize,
        height as usize,
        Format::R1_UNORM,
        &mut out,
    );
    assert_eq!(out.len(), 163 * 3);
    let mut decoded = vec![0u8; values.len() * 4];
    decode(Format::R1_UNORM, &out, Size::new(width, height), gray, &mut decoded, &options).unwrap();
    assert_eq!(decoded, floats(&values));
}

#[test]
fn block_encoders_take_every_colour() {
    for format in [Format::R1_UNORM, Format::R8G8_B8G8_UNORM, Format::G8R8_G8B8_UNORM] {
        assert!(format.is_universal_subsample());
        assert!(!format.is_universal());
        let encoders = get_encoders(format).unwrap();
        assert_eq!(encoders.len(), 1);
        assert!(supported_color_formats(&encoders).is_all());
    }
    let flags = |format: Format| get_encoders(format).unwrap()[0].flags;
    assert_eq!(flags(Format::R1_UNORM), Flags(0));
    assert_eq!(flags(Format::R8G8_B8G8_UNORM), Flags(Flags::EXACT_U8));
    assert_eq!(flags(Format::G8R8_G8B8_UNORM), Flags(Flags::EXACT_U8));

    let rgba16 = color(Channels::Rgba, Precision::U16);
    let mut out = vec![1u8];
    assert_eq!(
        encode(Format::R1_UNORM, &[0; 15], Size::new(2, 1), rgba16, &mut out),
        Err(EncodeError::UnexpectedBufferSize { expected: 16 })
    );
    assert_eq!(encode(Format::R1_UNORM, &[], Size::new(0, 5), rgba16, &mut out), Ok(()));
    assert_eq!(encode(Format::R1_UNORM, &[], Size::new(5, 0), rgba16, &mut out), Ok(()));
    assert_eq!(out, [1]);
    assert_eq!(encode(Format::R1_UNORM, &[0xFF; 16], Size::new(1, 2), rgba16, &mut out), Ok(()));
    assert_eq!(out, [1, 0xFF, 0xFF]);
}
