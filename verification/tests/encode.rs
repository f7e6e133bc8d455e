use ddsd::decode::decoder::DecodeOptions;
use ddsd::decode::convert::{s16, s8};
use ddsd::decode::decode;
use ddsd::encode::uncompressed::{
    convert_channels_untyped, convert_to_le, copy_directly, simple_color_convert,
    supported_color_formats, Flags, UncompressedEncoder,
};
use ddsd::encode::{encode, get_encoders, supports};
use ddsd::error::EncodeError;
use ddsd::format::Format;
use ddsd::pixel::{Channels, ColorFormat, ColorFormatSet, Precision, Size};

const ALL_CHANNELS: [Channels; 4] =
    [Channels::Grayscale, Channels::Alpha, Channels::Rgb, Channels::Rgba];
const ALL_PRECISIONS: [Precision; 3] = [Precision::U8, Precision::U16, Precision::F32];

const ENCODABLE: [(Format, usize); 16] = [
    (Format::R8G8B8_UNORM, 3),
    (Format::B8G8R8_UNORM, 3),
    (Format::R8G8B8A8_UNORM, 4),
    (Format::R8G8B8A8_SNORM, 4),
    (Format::B8G8R8A8_UNORM, 4),
    (Format::B8G8R8X8_UNORM, 4),
    (Format::R8_UNORM, 1),
    (Format::R8_SNORM, 1),
    (Format::A8_UNORM, 1),
    (Format::R16_UNORM, 2),
    (Format::R16_SNORM, 2),
    (Format::R16G16B16A16_UNORM, 8),
    (Format::R16G16B16A16_SNORM, 8),
    (Format::R32_FLOAT, 4),
    (Format::R32G32B32_FLOAT, 12),
    (Format::R32G32B32A32_FLOAT, 16),
];

fn noise(len: usize, seed: u32) -> Vec<u8> {
    let mut state = seed.wrapping_mul(2654435761).wrapping_add(12345);
    (0..len)
        .map(|_| {
            state = state.wrapping_mul(1664525).wrapping_add(1013904223);
            (state >> 24) as u8
        })
        .collect()
}

fn color(channels: Channels, precision: Precision) -> ColorFormat {
    ColorFormat::new(channels, precision)
}

#[test]
fn flags() {
    assert_eq!(Flags::exact_for(Precision::U8), Flags(Flags::EXACT_U8));
    assert_eq!(Flags::exact_for(Precision::U16), Flags(Flags::EXACT_U16));
    assert_eq!(Flags::exact_for(Precision::F32), Flags(Flags::EXACT_F32));
    assert!(Flags::exact_for(Precision::F32).contains(Flags(Flags::EXACT_U16)));
    assert!(Flags::exact_for(Precision::U16).contains(Flags(Flags::EXACT_U8)));
    assert!(!Flags::exact_for(Precision::U8).contains(Flags(Flags::EXACT_U16)));
    assert_eq!(Flags::empty().union(Flags(Flags::EXACT_U8)), Flags(Flags::EXACT_U8));
    let encoder = UncompressedEncoder::copy(color(Channels::Rgb, Precision::U8));
    assert_eq!(encoder.flags, Flags(Flags::EXACT_U8));
    assert_eq!(encoder.add_flags(Flags(Flags::EXACT_U16)).flags, Flags(Flags::EXACT_U16));
}

#[test]
fn color_format_sets() {
    let single = ColorFormatSet::from_single(color(Channels::Rgb, Precision::U16));
    let of_u8 = ColorFormatSet::from_precision(Precision::U8);
    for channels in ALL_CHANNELS {
        for precision in ALL_PRECISIONS {
            let c = color(channels, precision);
            assert!(!ColorFormatSet::empty().contains(c));
            assert!(ColorFormatSet::all().contains(c));
            assert_eq!(single.contains(c), c == color(Channels::Rgb, Precision::U16));
            assert_eq!(of_u8.contains(c), precision == Precision::U8);
            assert_eq!(single.union(of_u8).contains(c), single.contains(c) || of_u8.contains(c));
        }
    }
    assert!(ColorFormatSet::all().is_all());
    assert!(!of_u8.is_all());
    let all = of_u8
        .union(ColorFormatSet::from_precision(Precision::U16))
        .union(ColorFormatSet::from_precision(Precision::F32));
    assert!(all.is_all());
}

#[test]
fn supported_colors_of_the_encoders() {
    for (format, _) in ENCODABLE {
        let encoders = get_encoders(format).unwrap();
        let set = supported_color_formats(&encoders);
        let native = format.color();
        // the signed formats have no encoder for every colour format
        let signed = matches!(
            format,
            Format::R8G8B8A8_SNORM | Format::R8_SNORM | Format::R16_SNORM | Format::R16G16B16A16_SNORM
        );
        assert_eq!(format.is_universal(), !signed);
        for channels in ALL_CHANNELS {
            for precision in ALL_PRECISIONS {
                assert_eq!(
                    set.contains(color(channels, precision)),
                    !signed || precision == native.precision
                );
            }
        }
    }
    assert!(get_encoders(Format::BC1_UNORM).is_none());
    assert!(get_encoders(Format::R16_FLOAT).is_none());
}

#[test]
fn encoded_pixels_decode_to_themselves() {
    let size = Size::new(37, 41);
    let options = DecodeOptions { memory_limit: 0 };
    for (format, encoded_bpp) in ENCODABLE {
        let native = format.color();
        let data = noise(37 * 41 * native.bytes_per_pixel() as usize, 9);
        let mut encoded = vec![0xABu8];
        assert_eq!(encode(format, &data, size, native, &mut encoded), Ok(()));
        assert_eq!(encoded.len(), 1 + 37 * 41 * encoded_bpp);
        assert_eq!(encoded[0], 0xAB);
        let mut decoded = vec![0u8; data.len()];
        decode(format, &encoded[1..], size, native, &mut decoded, &options).unwrap();
        let signed = matches!(
            format,
            Format::R8G8B8A8_SNORM | Format::R8_SNORM | Format::R16_SNORM | Format::R16G16B16A16_SNORM
        );
        if !signed {
            assert_eq!(decoded, data, "{:?}", format);
        } else if native.precision == Precision::U8 {
            // the two values in the middle fall together
            for (d, x) in decoded.iter().zip(&data) {
                assert_eq!(*d, if *x == 127 { 128 } else { *x });
            }
        } else {
            for (d, x) in decoded.chunks(2).zip(data.chunks(2)) {
                let d = u16::from_le_bytes([d[0], d[1]]);
                let x = u16::from_le_bytes([x[0], x[1]]);
                assert_eq!(d, if x == 32767 { 32768 } else { x });
            }
        }
    }
}

#[test]
fn channels_are_converted_for_the_format() {
    let size = Size::new(2, 1);
    let mut out = Vec::new();
    encode(Format::R8G8B8A8_UNORM, &[1, 2, 3, 4, 5, 6], size, color(Channels::Rgb, Precision::U8), &mut out)
        .unwrap();
    assert_eq!(out, [1, 2, 3, 255, 4, 5, 6, 255]);
    let mut out = Vec::new();
    encode(Format::B8G8R8X8_UNORM, &[1, 2, 3, 4, 5, 6, 7, 8], size, color(Channels::Rgba, Precision::U8), &mut out)
        .unwrap();
    assert_eq!(out, [3, 2, 1, 255, 7, 6, 5, 255]);
    let mut out = Vec::new();
    encode(Format::B8G8R8A8_UNORM, &[9, 8], size, color(Channels::Grayscale, Precision::U8), &mut out)
        .unwrap();
    assert_eq!(out, [9, 9, 9, 255, 8, 8, 8, 255]);
    let mut out = Vec::new();
    encode(Format::B8G8R8_UNORM, &[1, 2, 3, 4, 5, 6, 7, 8], size, color(Channels::Rgba, Precision::U8), &mut out)
        .unwrap();
    assert_eq!(out, [3, 2, 1, 7, 6, 5]);
    let mut out = Vec::new();
    encode(Format::R8_SNORM, &[0, 255], size, color(Channels::Grayscale, Precision::U8), &mut out).unwrap();
    assert_eq!(out, [0x81, 0x7F]);
    let mut out = Vec::new();
    encode(Format::R16_SNORM, &[0, 0, 255, 255], size, color(Channels::Rgb, Precision::U16), &mut [].to_vec())
        .unwrap_err();
    encode(Format::R16_SNORM, &[0, 0, 0xFF, 0xFF], size, color(Channels::Grayscale, Precision::U16), &mut out)
        .unwrap();
    assert_eq!(out, [0x01, 0x80, 0xFF, 0x7F]);
    let mut out = Vec::new();
    let one = 1.0f32.to_le_bytes();
    let data = [one, 0.25f32.to_le_bytes()].concat();
    encode(Format::R32G32B32_FLOAT, &data, size, color(Channels::Grayscale, Precision::F32), &mut out)
        .unwrap();
    let floats: Vec<f32> =
        out.chunks(4).map(|c| f32::from_le_bytes([c[0], c[1], c[2], c[3]])).collect();
    assert_eq!(floats, [1.0, 1.0, 1.0, 0.25, 0.25, 0.25]);
}

#[test]
fn encode_errors() {
    let size = Size::new(2, 2);
    let rgba8 = color(Channels::Rgba, Precision::U8);
    let mut out = vec![1u8, 2, 3];
    assert_eq!(
        encode(Format::R8G8B8A8_UNORM, &[0; 15], size, rgba8, &mut out),
        Err(EncodeError::UnexpectedBufferSize { expected: 16 })
    );
    assert_eq!(
        encode(Format::R8G8B8A8_SNORM, &[0; 32], size, color(Channels::Rgba, Precision::U16), &mut out),
        Err(EncodeError::UnsupportedColorFormat(color(Channels::Rgba, Precision::U16)))
    );
    assert_eq!(
        encode(Format::BC7_UNORM, &[0; 16], size, rgba8, &mut out),
        Err(EncodeError::UnsupportedFormat(Format::BC7_UNORM))
    );
    assert_eq!(out, [1, 2, 3]);
    let encoder = UncompressedEncoder::copy(rgba8);
    assert_eq!(
        encoder.encode(&[0; 12], 4, 1, color(Channels::Rgb, Precision::U8), &mut out),
        Err(EncodeError::UnsupportedColorFormat(color(Channels::Rgb, Precision::U8)))
    );
}

#[test]
fn many_pixels_are_encoded_in_chunks() {
    // more encoded bytes than one buffer holds
    let pixels = 5000;
    let data = noise(pixels, 4);
    let mut out = Vec::new();
    encode(
        Format::R8G8B8A8_UNORM,
        &data,
        Size::new(pixels as u32, 1),
        color(Channels::Grayscale, Precision::U8),
        &mut out,
    )
    .unwrap();
    assert_eq!(out.len(), 4 * pixels);
    for i in 0..pixels {
        assert_eq!(&out[4 * i..4 * i + 4], &[data[i], data[i], data[i], 255]);
    }
}

#[test]
fn line_functions() {
    let rgb8 = color(Channels::Rgb, Precision::U8);
    let mut out = [9u8; 10];
    convert_channels_untyped(Channels::Rgb, Channels::Rgba, Precision::U8, &[1, 2, 3, 4, 5, 6], &mut out, 2);
    assert_eq!(out, [1, 2, 3, 255, 4, 5, 6, 255, 9, 9]);
    let mut out = [9u8; 4];
    simple_color_convert(color(Channels::Grayscale, Precision::U8), true, &[0, 1, 2, 255, 1, 2], rgb8, &mut out, 2);
    assert_eq!(out, [s8::from_n8(0), s8::from_n8(255), 9, 9]);
    let mut out = vec![7u8];
    copy_directly(&[1, 2, 3], rgb8, &mut out);
    assert_eq!(out, [7, 1, 2, 3]);
    let mut buffer = [1u8, 2, 3, 4];
    convert_to_le(Precision::U16, &mut buffer, false);
    assert_eq!(buffer, [1, 2, 3, 4]);
    convert_to_le(Precision::U16, &mut buffer, true);
    assert_eq!(buffer, [2, 1, 4, 3]);
    convert_to_le(Precision::F32, &mut buffer, true);
    assert_eq!(buffer, [3, 4, 1, 2]);
    convert_to_le(Precision::U8, &mut buffer, true);
    assert_eq!(buffer, [3, 4, 1, 2]);
}

#[test]
fn signed_from_unsigned() {
    assert_eq!(s8::from_n8(0), 0x81);
    assert_eq!(s8::from_n8(128), 0x00);
    assert_eq!(s8::from_n8(255), 0x7F);
    assert_eq!(s16::from_n16(0), 0x8001);
    assert_eq!(s16::from_n16(32768), 0x0000);
    assert_eq!(s16::from_n16(65535), 0x7FFF);
    for x in 0..=255u8 {
        let back = s8::n8(s8::from_n8(x));
        assert!(back == x || (x == 127 && back == 128));
    }
}

#[test]
fn colours_that_can_be_encoded() {
    let rgba16 = color(Channels::Rgba, Precision::U16);
    let rgba8 = color(Channels::Rgba, Precision::U8);
    assert!(supports(Format::R8G8B8A8_UNORM, rgba16));
    assert!(supports(Format::R8G8B8A8_SNORM, rgba8));
    assert!(!supports(Format::R8G8B8A8_SNORM, rgba16));
    assert!(supports(Format::R1_UNORM, rgba16));
    assert!(!supports(Format::BC1_UNORM, rgba8));
    assert!(!supports(Format::R16_FLOAT, rgba8));
}
