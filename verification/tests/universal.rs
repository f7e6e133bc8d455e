use ddsd::decode::channel::Num;
use ddsd::decode::decode;
use ddsd::decode::decoder::DecodeOptions;
use ddsd::encode::uncompressed::{supported_color_formats, Flags};
use ddsd::encode::universal::{
    convert_to_rgba_bits, encode_universal_pixel, process_line, single_to_raw, to_rgba_bits,
    uncompressed_universal,
};
use ddsd::encode::{encode, get_encoders};
use ddsd::format::Format;
use ddsd::pixel::{Channels, ColorFormat, Precision, Size};

const UNIVERSAL: [(Format, usize); 20] = [
    (Format::R8G8B8_UNORM, 3),
    (Format::B8G8R8_UNORM, 3),
    (Format::R8G8B8A8_UNORM, 4),
    (Format::B8G8R8A8_UNORM, 4),
    (Format::B8G8R8X8_UNORM, 4),
    (Format::B5G6R5_UNORM, 2),
    (Format::B5G5R5A1_UNORM, 2),
    (Format::B4G4R4A4_UNORM, 2),
    (Format::A4B4G4R4_UNORM, 2),
    (Format::R8_UNORM, 1),
    (Format::R8G8_UNORM, 2),
    (Format::A8_UNORM, 1),
    (Format::R16_UNORM, 2),
    (Format::R16G16_UNORM, 4),
    (Format::R16G16B16A16_UNORM, 8),
    (Format::R10G10B10A2_UNORM, 4),
    (Format::R32_FLOAT, 4),
    (Format::R32G32_FLOAT, 8),
    (Format::R32G32B32_FLOAT, 12),
    (Format::R32G32B32A32_FLOAT, 16),
];

fn color(channels: Channels, precision: Precision) -> ColorFormat {
    ColorFormat::new(channels, precision)
}

fn floats(values: &[f32]) -> Vec<u8> {
    values.iter().flat_map(|v| v.to_le_bytes()).collect()
}

fn shorts(values: &[u16]) -> Vec<u8> {
    values.iter().flat_map(|v| v.to_le_bytes()).collect()
}

fn encode_all(format: Format, data: &[u8], pixels: u32, color: ColorFormat) -> Vec<u8> {
    let mut out = Vec::new();
    encode(format, data, Size::new(pixels, 1), color, &mut out).unwrap();
    out
}

/// The normalised integer of a number as hardware computes it.
fn hardware_unorm(x: f32, max: f32) -> u32 {
    if x.is_nan() {
        0
    } else {
        (x.clamp(0.0, 1.0) * max + 0.5) as u32
    }
}

fn sample_bits() -> Vec<u32> {
    let mut bits: Vec<u32> = Vec::new();
    // every exponent with mantissas at and around the ends
    for e in 0..=255u32 {
        for m in [0u32, 1, 2, 0x3F_FFFF, 0x40_0000, 0x40_0001, 0x7F_FFFE, 0x7F_FFFF] {
            bits.push((e << 23) | m);
            bits.push(0x8000_0000 | (e << 23) | m);
        }
    }
    // the unit interval in small steps
    let mut b: u32 = 0x3000_0000;
    while b <= 0x4000_0000 {
        bits.push(b);
        b += 4099;
    }
    let mut state: u32 = 77;
    for _ in 0..200_000 {
        state = state.wrapping_mul(1664525).wrapping_add(1013904223);
        bits.push(state);
    }
    bits
}

#[test]
fn numbers_become_normalised_integers_as_on_hardware() {
    let kinds = [
        (Num::N1, 1.0f32),
        (Num::N2, 3.0),
        (Num::N4, 15.0),
        (Num::N5, 31.0),
        (Num::N6, 63.0),
        (Num::N8, 255.0),
        (Num::N10, 1023.0),
        (Num::N16, 65535.0),
    ];
    for bits in sample_bits() {
        let x = f32::from_bits(bits);
        for (num, max) in kinds {
            assert_eq!(single_to_raw(num, bits), hardware_unorm(x, max), "{:?} {:#x}", num, bits);
        }
        assert_eq!(single_to_raw(Num::Fp32, bits), bits);
        assert_eq!(single_to_raw(Num::S8, bits), 0);
    }
}

#[test]
fn halves_round_upwards() {
    // 0.5 / 255 * 255 + 0.5 is 1 on hardware
    for (num, max) in [(Num::N4, 15u32), (Num::N5, 31), (Num::N8, 255), (Num::N10, 1023)] {
        for k in 0..max {
            let tie = (k as f32 + 0.5) / max as f32;
            assert_eq!(
                single_to_raw(num, tie.to_bits()),
                hardware_unorm(tie, max as f32),
                "{:?} {}",
                num,
                k
            );
        }
    }
    assert_eq!(single_to_raw(Num::N8, 1.0f32.to_bits()), 255);
    assert_eq!(single_to_raw(Num::N8, 0.5f32.to_bits()), 128);
    assert_eq!(single_to_raw(Num::N1, 0.5f32.to_bits()), 1);
    assert_eq!(single_to_raw(Num::N1, 0.49f32.to_bits()), 0);
    assert_eq!(single_to_raw(Num::N8, f32::INFINITY.to_bits()), 255);
    assert_eq!(single_to_raw(Num::N8, f32::NEG_INFINITY.to_bits()), 0);
    assert_eq!(single_to_raw(Num::N8, f32::NAN.to_bits()), 0);
    assert_eq!(single_to_raw(Num::N8, (-0.25f32).to_bits()), 0);
    assert_eq!(single_to_raw(Num::N8, 7.5f32.to_bits()), 255);
}

#[test]
fn pixels_become_red_green_blue_and_alpha() {
    let one = 1.0f32.to_bits();
    let gray = to_rgba_bits(color(Channels::Grayscale, Precision::U8), &[51]);
    // the value times the number nearest to 1/255
    let fifth = (51.0f32 * (1.0f32 / 255.0)).to_bits();
    assert_eq!(gray, [fifth, fifth, fifth, one]);
    let alpha = to_rgba_bits(color(Channels::Alpha, Precision::U16), &shorts(&[0xFFFF]));
    assert_eq!(alpha, [0, 0, 0, one]);
    let rgb = to_rgba_bits(color(Channels::Rgb, Precision::U16), &shorts(&[0, 13107, 65535]));
    assert_eq!(rgb, [0, (13107.0f32 * (1.0f32 / 65535.0)).to_bits(), one, one]);
    let rgba = to_rgba_bits(
        color(Channels::Rgba, Precision::F32),
        &floats(&[0.25, -3.0, f32::INFINITY, 1e-40]),
    );
    assert_eq!(
        rgba,
        [0.25f32.to_bits(), (-3.0f32).to_bits(), f32::INFINITY.to_bits(), 1e-40f32.to_bits()]
    );
}

#[test]
fn packed_formats_add_their_channels_up() {
    let rgb8 = color(Channels::Rgb, Precision::U8);
    // red 31, green 0, blue 0
    assert_eq!(encode_all(Format::B5G6R5_UNORM, &[255, 0, 0], 1, rgb8), [0x00, 0xF8]);
    assert_eq!(encode_all(Format::B5G6R5_UNORM, &[0, 255, 0], 1, rgb8), [0xE0, 0x07]);
    assert_eq!(encode_all(Format::B5G6R5_UNORM, &[0, 0, 255], 1, rgb8), [0x1F, 0x00]);
    // 128 / 255 * 31 + 0.5 = 16.06, 128 / 255 * 63 + 0.5 = 32.1
    assert_eq!(
        encode_all(Format::B5G6R5_UNORM, &[128, 128, 128], 1, rgb8),
        (16u16 | (32 << 5) | (16 << 11)).to_le_bytes()
    );
    let rgba = color(Channels::Rgba, Precision::F32);
    let pixel = floats(&[1.0, 0.5, 0.0, 1.0]);
    assert_eq!(
        encode_all(Format::R10G10B10A2_UNORM, &pixel, 1, rgba),
        ((3u32 << 30) | (512 << 10) | 1023).to_le_bytes()
    );
    assert_eq!(
        encode_all(Format::B5G5R5A1_UNORM, &pixel, 1, rgba),
        ((1u16 << 15) | (31 << 10) | (16 << 5)).to_le_bytes()
    );
    assert_eq!(
        encode_all(Format::B4G4R4A4_UNORM, &pixel, 1, rgba),
        ((15u16 << 12) | (15 << 8) | (8 << 4)).to_le_bytes()
    );
    assert_eq!(
        encode_all(Format::A4B4G4R4_UNORM, &pixel, 1, rgba),
        (15u16 | (8 << 8) | (15 << 12)).to_le_bytes()
    );
    assert_eq!(encode_all(Format::B8G8R8X8_UNORM, &floats(&[1.0, 0.5, 0.0, 0.0]), 1, rgba), [
        0, 128, 255, 255
    ]);
    assert_eq!(encode_all(Format::B8G8R8A8_UNORM, &floats(&[1.0, 0.5, 0.0, 0.25]), 1, rgba), [
        0, 128, 255, 64
    ]);
    assert_eq!(encode_all(Format::B8G8R8_UNORM, &floats(&[1.0, 0.5, 0.0, 0.25]), 1, rgba), [
        0, 128, 255
    ]);
    assert_eq!(encode_all(Format::R8G8_UNORM, &floats(&[1.0, 0.5, 0.0, 0.25]), 1, rgba), [255, 128]);
    assert_eq!(
        encode_all(Format::R16G16_UNORM, &floats(&[1.0, 0.5, 0.0, 0.25]), 1, rgba),
        shorts(&[65535, 32768])
    );
    assert_eq!(
        encode_all(Format::R32G32_FLOAT, &floats(&[1.5, -0.5, 0.0, 0.25]), 1, rgba),
        floats(&[1.5, -0.5])
    );
}

#[test]
fn missing_channels_are_filled_in() {
    // a gray value is red, and alpha is 1
    let gray16 = color(Channels::Grayscale, Precision::U16);
    assert_eq!(encode_all(Format::A8_UNORM, &shorts(&[1234]), 1, gray16), [255]);
    assert_eq!(
        encode_all(Format::R8G8B8A8_UNORM, &shorts(&[0x8000]), 1, gray16),
        [128, 128, 128, 255]
    );
    // a pixel of alpha alone has no colour
    let alpha16 = color(Channels::Alpha, Precision::U16);
    assert_eq!(encode_all(Format::R8_UNORM, &shorts(&[0xFFFF]), 1, alpha16), [0]);
    assert_eq!(
        encode_all(Format::R8G8B8A8_UNORM, &shorts(&[0xFFFF]), 1, alpha16),
        [0, 0, 0, 255]
    );
    assert_eq!(
        encode_all(Format::R32G32B32A32_FLOAT, &[51], 1, color(Channels::Grayscale, Precision::U8)),
        floats(&[51.0 * (1.0 / 255.0), 51.0 * (1.0 / 255.0), 51.0 * (1.0 / 255.0), 1.0])
    );
}

#[test]
fn every_format_takes_every_colour() {
    let options = DecodeOptions { memory_limit: 1 << 20 };
    for (format, encoded_bpp) in UNIVERSAL {
        assert!(format.is_universal());
        let encoders = get_encoders(format).unwrap();
        assert!(supported_color_formats(&encoders).is_all());
        for channels in [Channels::Grayscale, Channels::Alpha, Channels::Rgb, Channels::Rgba] {
            for precision in [Precision::U8, Precision::U16, Precision::F32] {
                let c = color(channels, precision);
                let bpp = c.bytes_per_pixel() as usize;
                // whole steps of a fifteenth survive every format but the 1-bit and 2-bit alpha
                let mut data = Vec::new();
                for x in 0..700u32 {
                    for k in 0..channels.count() as u32 {
                        let step = (x + 5 * k) % 16;
                        match precision {
                            Precision::U8 => data.push((step * 17) as u8),
                            Precision::U16 => data.extend((step as u16 * 4369).to_le_bytes()),
                            Precision::F32 => data.extend((step as f32 / 15.0).to_le_bytes()),
                        }
                    }
                }
                assert_eq!(data.len(), 700 * bpp);
                let encoded = encode_all(format, &data, 700, c);
                assert_eq!(encoded.len(), 700 * encoded_bpp, "{:?} {:?}", format, c);
                // what was encoded decodes to what the native colour of the format gives
                let native = format.color();
                let mut direct = vec![0u8; 700 * 4];
                let rgba8 = color(Channels::Rgba, Precision::U8);
                decode(format, &encoded, Size::new(700, 1), rgba8, &mut direct, &options).unwrap();
                for x in 0..700usize {
                    let step = |k: u32| ((x as u32 + 5 * k) % 16 * 17) as u8;
                    let expected: [u8; 4] = match channels {
                        Channels::Grayscale => [step(0), step(0), step(0), 255],
                        Channels::Alpha => [0, 0, 0, step(0)],
                        Channels::Rgb => [step(0), step(1), step(2), 255],
                        Channels::Rgba => [step(0), step(1), step(2), step(3)],
                    };
                    let got = &direct[4 * x..4 * x + 4];
                    let stored: [bool; 4] = match (format, native.channels) {
                        (Format::R8G8_UNORM | Format::R16G16_UNORM | Format::R32G32_FLOAT, _) => {
                            [true, true, false, false]
                        }
                        (_, Channels::Grayscale) => [true, false, false, false],
                        (_, Channels::Alpha) => [false, false, false, true],
                        (_, Channels::Rgb) => [true, true, true, false],
                        (_, Channels::Rgba) => [true, true, true, true],
                    };
                    for k in 0..4 {
                        if !stored[k] {
                            continue;
                        }
                        let coarse = k == 3
                            && matches!(format, Format::B5G5R5A1_UNORM | Format::R10G10B10A2_UNORM);
                        if coarse {
                            continue;
                        }
                        let exact = !matches!(format, Format::B5G6R5_UNORM | Format::B5G5R5A1_UNORM);
                        if exact {
                            assert_eq!(got[k], expected[k], "{:?} {:?} {} {}", format, c, x, k);
                        } else {
                            let d = (got[k] as i32 - expected[k] as i32).abs();
                            assert!(d <= 4, "{:?} {:?} {} {}", format, c, x, k);
                        }
                    }
                }
            }
        }
    }
}

#[test]
fn integers_survive_the_way_through_numbers() {
    // every 8-bit value and every 16-bit value is kept by the encoders
    // that are flagged as exact
    let all8: Vec<u8> = (0..=255u8).flat_map(|x| [x, 255 - x, 7]).collect();
    let encoded = encode_all(Format::R8G8_UNORM, &all8, 256, color(Channels::Rgb, Precision::U8));
    for x in 0..256usize {
        assert_eq!(encoded[2 * x..2 * x + 2], [x as u8, 255 - x as u8]);
    }
    let all16: Vec<u8> = (0..=65535u16).flat_map(|x| shorts(&[x, 65535 - x, 7])).collect();
    let encoded =
        encode_all(Format::R16G16_UNORM, &all16, 65536, color(Channels::Rgb, Precision::U16));
    for x in 0..65536usize {
        assert_eq!(encoded[4 * x..4 * x + 4], shorts(&[x as u16, 65535 - x as u16])[..]);
    }
    // 8-bit values are kept by 16 bits
    let encoded = encode_all(Format::R16G16_UNORM, &all8, 256, color(Channels::Rgb, Precision::U8));
    for x in 0..256usize {
        assert_eq!(encoded[4 * x..4 * x + 4], shorts(&[x as u16 * 257, (255 - x as u16) * 257])[..]);
    }
    let flags = |format: Format| get_encoders(format).unwrap().last().unwrap().flags;
    assert_eq!(flags(Format::R8G8_UNORM), Flags(Flags::EXACT_U8));
    assert_eq!(flags(Format::R16G16_UNORM), Flags(Flags::EXACT_U16));
    assert_eq!(flags(Format::R32G32_FLOAT), Flags(Flags::EXACT_F32));
    assert_eq!(flags(Format::B5G6R5_UNORM), Flags(0));
    assert_eq!(flags(Format::R8G8B8_UNORM), Flags(0));
}

#[test]
fn the_buffers_are_filled_pixel_by_pixel() {
    let rgb8 = color(Channels::Rgb, Precision::U8);
    let line = [255u8, 0, 0, 0, 255, 0, 0, 0, 255];
    let mut numbers = [7u32; 16];
    convert_to_rgba_bits(rgb8, &line, &mut numbers, 3);
    let one = 1.0f32.to_bits();
    assert_eq!(numbers, [one, 0, 0, one, 0, one, 0, one, 0, 0, one, one, 7, 7, 7, 7]);
    let mut encoded = [0xEEu8; 8];
    process_line(Format::B5G6R5_UNORM, &numbers, &mut encoded, 3);
    assert_eq!(encoded, [0x00, 0xF8, 0xE0, 0x07, 0x1F, 0x00, 0xEE, 0xEE]);
    let mut pixel = [0xEEu8; 6];
    encode_universal_pixel(Format::R10G10B10A2_UNORM, &[one, 0, one, 0], &mut pixel, 1);
    assert_eq!(pixel[0], 0xEE);
    assert_eq!(pixel[1..5], (1023u32 | (1023 << 20)).to_le_bytes());
    assert_eq!(pixel[5], 0xEE);
}

#[test]
fn long_lines_pass_through_the_buffers() {
    let rgba = color(Channels::Rgba, Precision::F32);
    let values: Vec<f32> = (0..4 * 1300).map(|i| (i % 256) as f32 / 255.0).collect();
    let data = floats(&values);
    let mut out = vec![9u8];
    uncompressed_universal(&data, rgba, 1300, Format::R8G8B8A8_UNORM, &mut out);
    assert_eq!(out.len(), 1 + 4 * 1300);
    assert_eq!(out[0], 9);
    for (i, byte) in out[1..].iter().enumerate() {
        assert_eq!(*byte, (i % 256) as u8);
    }
}
