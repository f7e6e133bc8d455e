use ddsd::decode::decoder::{DecodeOptions, UncompressedDecoder, UncompressedDecoderSet};
use ddsd::decode::read_write::ProcessPixelsFn;
use ddsd::decode::{decode, decode_rect, get_decoders, supported_color_formats, supports};
use ddsd::error::DecodeError;
use ddsd::format::Format;
use ddsd::pixel::{Channels, ColorFormat, Precision, Rect, Size};

const OPTIONS: DecodeOptions = DecodeOptions { memory_limit: 1 << 20 };

const ALL_CHANNELS: [Channels; 4] =
    [Channels::Grayscale, Channels::Alpha, Channels::Rgb, Channels::Rgba];
const ALL_PRECISIONS: [Precision; 3] = [Precision::U8, Precision::U16, Precision::F32];

const DECODABLE: [Format; 52] = [
    Format::R8G8B8_UNORM,
    Format::B8G8R8_UNORM,
    Format::R8G8B8A8_UNORM,
    Format::R8G8B8A8_SNORM,
    Format::B8G8R8A8_UNORM,
    Format::B8G8R8X8_UNORM,
    Format::B5G6R5_UNORM,
    Format::B5G5R5A1_UNORM,
    Format::B4G4R4A4_UNORM,
    Format::A4B4G4R4_UNORM,
    Format::R8_SNORM,
    Format::R8_UNORM,
    Format::R8G8_UNORM,
    Format::R8G8_SNORM,
    Format::A8_UNORM,
    Format::R16_UNORM,
    Format::R16_SNORM,
    Format::R16G16_UNORM,
    Format::R16G16_SNORM,
    Format::R16G16B16A16_UNORM,
    Format::R16G16B16A16_SNORM,
    Format::R10G10B10A2_UNORM,
    Format::R11G11B10_FLOAT,
    Format::R9G9B9E5_SHAREDEXP,
    Format::R16_FLOAT,
    Format::R16G16_FLOAT,
    Format::R16G16B16A16_FLOAT,
    Format::R32_FLOAT,
    Format::R32G32_FLOAT,
    Format::R32G32B32_FLOAT,
    Format::R32G32B32A32_FLOAT,
    Format::R10G10B10_XR_BIAS_A2_UNORM,
    Format::R1_UNORM,
    Format::R8G8_B8G8_UNORM,
    Format::G8R8_G8B8_UNORM,
    Format::AYUV,
    Format::Y410,
    Format::Y416,
    Format::YUY2,
    Format::UYVY,
    Format::Y210,
    Format::Y216,
    Format::BC1_UNORM,
    Format::BC2_UNORM,
    Format::BC2_UNORM_PREMULTIPLIED_ALPHA,
    Format::BC3_UNORM,
    Format::BC3_UNORM_PREMULTIPLIED_ALPHA,
    Format::BC4_UNORM,
    Format::BC4_SNORM,
    Format::BC5_UNORM,
    Format::BC5_SNORM,
    Format::BC3_UNORM_RXGB,
];

/// (block width, block height, block bytes) of the decodable formats.
fn block_shape(format: Format) -> (u32, u32, usize) {
    match format {
        Format::R8G8B8_UNORM | Format::B8G8R8_UNORM => (1, 1, 3),
        Format::R8G8B8A8_UNORM
        | Format::R8G8B8A8_SNORM
        | Format::B8G8R8A8_UNORM
        | Format::B8G8R8X8_UNORM
        | Format::R16G16_UNORM
        | Format::R16G16_SNORM
        | Format::R10G10B10A2_UNORM
        | Format::R11G11B10_FLOAT
        | Format::R9G9B9E5_SHAREDEXP
        | Format::R16G16_FLOAT
        | Format::R32_FLOAT
        | Format::R10G10B10_XR_BIAS_A2_UNORM
        | Format::AYUV
        | Format::Y410 => (1, 1, 4),
        Format::B5G6R5_UNORM
        | Format::B5G5R5A1_UNORM
        | Format::B4G4R4A4_UNORM
        | Format::A4B4G4R4_UNORM
        | Format::R8G8_UNORM
        | Format::R8G8_SNORM
        | Format::R16_UNORM
        | Format::R16_SNORM
        | Format::R16_FLOAT => (1, 1, 2),
        Format::R8_SNORM | Format::R8_UNORM | Format::A8_UNORM => (1, 1, 1),
        Format::R16G16B16A16_UNORM
        | Format::R16G16B16A16_SNORM
        | Format::R16G16B16A16_FLOAT
        | Format::R32G32_FLOAT
        | Format::Y416 => (1, 1, 8),
        Format::R32G32B32_FLOAT => (1, 1, 12),
        Format::R32G32B32A32_FLOAT => (1, 1, 16),
        Format::R1_UNORM => (8, 1, 1),
        Format::R8G8_B8G8_UNORM | Format::G8R8_G8B8_UNORM | Format::YUY2 | Format::UYVY => (2, 1, 4),
        Format::Y210 | Format::Y216 => (2, 1, 8),
        Format::BC1_UNORM | Format::BC4_UNORM | Format::BC4_SNORM => (4, 4, 8),
        _ => (4, 4, 16),
    }
}

fn encoded_len(format: Format, size: Size) -> usize {
    let (bw, bh, bytes) = block_shape(format);
    let columns = (size.width as usize + bw as usize - 1) / bw as usize;
    let rows = (size.height as usize + bh as usize - 1) / bh as usize;
    columns * rows * bytes
}

fn bpp(color: ColorFormat) -> usize {
    color.bytes_per_pixel() as usize
}

/// Bytes that look random and are the same in every run.
fn noise(len: usize, seed: u32) -> Vec<u8> {
    let mut state = seed.wrapping_mul(2654435761).wrapping_add(12345);
    (0..len)
        .map(|_| {
            state = state.wrapping_mul(1664525).wrapping_add(1013904223);
            (state >> 24) as u8
        })
        .collect()
}

fn decode_all(format: Format, encoded: &[u8], size: Size, color: ColorFormat) -> Vec<u8> {
    let mut out = vec![0xCDu8; size.width as usize * size.height as usize * bpp(color)];
    decode(format, encoded, size, color, &mut out, &OPTIONS).unwrap();
    out
}

fn color(channels: Channels, precision: Precision) -> ColorFormat {
    ColorFormat::new(channels, precision)
}

fn floats(bytes: &[u8]) -> Vec<f32> {
    bytes.chunks(4).map(|c| f32::from_le_bytes([c[0], c[1], c[2], c[3]])).collect()
}

fn shorts(bytes: &[u8]) -> Vec<u16> {
    bytes.chunks(2).map(|c| u16::from_le_bytes([c[0], c[1]])).collect()
}

#[test]
fn decode_completes_for_every_format_and_color() {
    for (n, &format) in DECODABLE.iter().enumerate() {
        for (w, h) in [(1u32, 1u32), (3, 2), (4, 4), (5, 7), (9, 3), (17, 5)] {
            let size = Size::new(w, h);
            let encoded = noise(encoded_len(format, size), n as u32 * 31 + w * 7 + h);
            for channels in ALL_CHANNELS {
                for precision in ALL_PRECISIONS {
                    let c = color(channels, precision);
                    assert!(supports(format, c));
                    let out = decode_all(format, &encoded, size, c);
                    assert_eq!(out.len(), (w * h) as usize * bpp(c));
                }
            }
        }
    }
}

#[test]
fn rect_is_part_of_full_decode() {
    for (n, &format) in DECODABLE.iter().enumerate() {
        let size = Size::new(13, 11);
        let encoded = noise(encoded_len(format, size), 1000 + n as u32);
        for channels in ALL_CHANNELS {
            for precision in ALL_PRECISIONS {
                let c = color(channels, precision);
                let full = decode_all(format, &encoded, size, c);
                for rect in [
                    Rect::new(0, 0, 13, 11),
                    Rect::new(1, 2, 5, 3),
                    Rect::new(4, 4, 4, 4),
                    Rect::new(7, 0, 6, 11),
                    Rect::new(12, 10, 1, 1),
                    Rect::new(3, 5, 9, 1),
                ] {
                    let pixel = bpp(c);
                    let pitch = rect.width as usize * pixel + 5;
                    let mut out = vec![0xEEu8; pitch * rect.height as usize];
                    decode_rect(format, &encoded, size, rect, c, &mut out, pitch, &OPTIONS)
                        .unwrap();
                    for ry in 0..rect.height as usize {
                        let row = &out[ry * pitch..(ry + 1) * pitch];
                        let y = rect.y as usize + ry;
                        let from = (y * 13 + rect.x as usize) * pixel;
                        let width = rect.width as usize * pixel;
                        assert_eq!(&row[..width], &full[from..from + width], "{:?} {:?}", format, rect);
                        // the bytes between the rows are untouched
                        assert!(row[width..].iter().all(|&b| b == 0xEE));
                    }
                }
            }
        }
    }
}

#[test]
fn adapter_with_equal_channels_copies() {
    // eight-bit colours decoded to their own layout are the encoded bytes
    let size = Size::new(7, 3);
    for (format, channels) in [
        (Format::R8G8B8A8_UNORM, Channels::Rgba),
        (Format::R8G8B8_UNORM, Channels::Rgb),
        (Format::R8_UNORM, Channels::Grayscale),
        (Format::A8_UNORM, Channels::Alpha),
    ] {
        let encoded = noise(encoded_len(format, size), 77);
        let out = decode_all(format, &encoded, size, color(channels, Precision::U8));
        assert_eq!(out, encoded);
    }
    for (format, channels) in
        [(Format::R16_UNORM, Channels::Grayscale), (Format::R16G16B16A16_UNORM, Channels::Rgba)]
    {
        let encoded = noise(encoded_len(format, size), 78);
        let out = decode_all(format, &encoded, size, color(channels, Precision::U16));
        assert_eq!(out, encoded);
    }
    for (format, channels) in [
        (Format::R32_FLOAT, Channels::Grayscale),
        (Format::R32G32B32_FLOAT, Channels::Rgb),
        (Format::R32G32B32A32_FLOAT, Channels::Rgba),
    ] {
        let encoded = noise(encoded_len(format, size), 79);
        let out = decode_all(format, &encoded, size, color(channels, Precision::F32));
        assert_eq!(out, encoded);
    }
}

#[test]
fn channel_mappings() {
    let size = Size::new(2, 1);
    let rgba = [10u8, 20, 30, 40, 50, 60, 70, 80];
    let f = Format::R8G8B8A8_UNORM;
    assert_eq!(decode_all(f, &rgba, size, color(Channels::Rgb, Precision::U8)), [10, 20, 30, 50, 60, 70]);
    assert_eq!(decode_all(f, &rgba, size, color(Channels::Grayscale, Precision::U8)), [10, 50]);
    assert_eq!(decode_all(f, &rgba, size, color(Channels::Alpha, Precision::U8)), [40, 80]);
    let rgb = [10u8, 20, 30, 50, 60, 70];
    let f = Format::R8G8B8_UNORM;
    assert_eq!(
        decode_all(f, &rgb, size, color(Channels::Rgba, Precision::U8)),
        [10, 20, 30, 255, 50, 60, 70, 255]
    );
    assert_eq!(decode_all(f, &rgb, size, color(Channels::Grayscale, Precision::U8)), [10, 50]);
    assert_eq!(decode_all(f, &rgb, size, color(Channels::Alpha, Precision::U8)), [255, 255]);
    assert_eq!(
        shorts(&decode_all(f, &rgb, size, color(Channels::Alpha, Precision::U16))),
        [65535, 65535]
    );
    assert_eq!(floats(&decode_all(f, &rgb, size, color(Channels::Alpha, Precision::F32))), [1.0, 1.0]);
    let gray = [10u8, 50];
    let f = Format::R8_UNORM;
    assert_eq!(decode_all(f, &gray, size, color(Channels::Rgb, Precision::U8)), [10, 10, 10, 50, 50, 50]);
    assert_eq!(
        decode_all(f, &gray, size, color(Channels::Rgba, Precision::U8)),
        [10, 10, 10, 255, 50, 50, 50, 255]
    );
    assert_eq!(decode_all(f, &gray, size, color(Channels::Alpha, Precision::U8)), [255, 255]);
    let f = Format::A8_UNORM;
    assert_eq!(
        decode_all(f, &gray, size, color(Channels::Rgba, Precision::U8)),
        [0, 0, 0, 10, 0, 0, 0, 50]
    );
    assert_eq!(decode_all(f, &gray, size, color(Channels::Rgb, Precision::U8)), [0; 6]);
    assert_eq!(decode_all(f, &gray, size, color(Channels::Grayscale, Precision::U8)), [0; 2]);
    assert_eq!(
        floats(&decode_all(f, &[255u8, 0], size, color(Channels::Rgba, Precision::F32))),
        [0.0, 0.0, 0.0, 1.0, 0.0, 0.0, 0.0, 0.0]
    );
}

#[test]
fn long_runs_pass_through_the_staging_buffer() {
    // more than 64 pixels make the adapter work in several chunks
    let size = Size::new(200, 1);
    let encoded = noise(200 * 3, 5);
    let out = decode_all(Format::R8G8B8_UNORM, &encoded, size, color(Channels::Rgba, Precision::U8));
    for i in 0..200 {
        assert_eq!(&out[4 * i..4 * i + 3], &encoded[3 * i..3 * i + 3]);
        assert_eq!(out[4 * i + 3], 255);
    }
    let encoded = noise(25, 6);
    let out = decode_all(Format::R1_UNORM, &encoded, size, color(Channels::Rgb, Precision::U8));
    for i in 0..200 {
        let bit = encoded[i / 8] >> (7 - i % 8) & 1;
        assert_eq!(&out[3 * i..3 * i + 3], &[bit * 255; 3]);
    }
}

#[test]
fn b5g6r5_pixel() {
    let out = decode_all(
        Format::B5G6R5_UNORM,
        &[0x1F, 0xF8],
        Size::new(1, 1),
        color(Channels::Rgb, Precision::U8),
    );
    assert_eq!(out, [255, 0, 255]);
}

#[test]
fn snorm8_pixels() {
    let out = decode_all(
        Format::R8_SNORM,
        &[0x80, 0x81, 0x00, 0x7F],
        Size::new(4, 1),
        color(Channels::Grayscale, Precision::U8),
    );
    assert_eq!(out, [0, 0, 128, 255]);
    let out = decode_all(
        Format::R8G8_SNORM,
        &[0x80, 0x7F],
        Size::new(1, 1),
        color(Channels::Rgb, Precision::U8),
    );
    assert_eq!(out, [0, 255, 128]);
    let out = decode_all(
        Format::R8G8_UNORM,
        &[0x80, 0x7F],
        Size::new(1, 1),
        color(Channels::Rgb, Precision::U8),
    );
    assert_eq!(out, [0x80, 0x7F, 0]);
}

#[test]
fn shared_exponent_pixel() {
    let rgb: u32 = 15 << 27 | 256 << 18 | 256 << 9 | 256;
    let out = decode_all(
        Format::R9G9B9E5_SHAREDEXP,
        &rgb.to_le_bytes(),
        Size::new(1, 1),
        color(Channels::Rgb, Precision::F32),
    );
    assert_eq!(floats(&out), [0.5, 0.5, 0.5]);
}

#[test]
fn packed_pixels() {
    let one = Size::new(1, 1);
    let rgba8 = color(Channels::Rgba, Precision::U8);
    // blue 15, green 0, red 8, alpha 15
    let v: u16 = 15 | 0 << 4 | 8 << 8 | 15 << 12;
    assert_eq!(decode_all(Format::B4G4R4A4_UNORM, &v.to_le_bytes(), one, rgba8), [136, 0, 255, 255]);
    // alpha 15, blue 0, green 8, red 15
    let v: u16 = 15 | 0 << 4 | 8 << 8 | 15 << 12;
    assert_eq!(decode_all(Format::A4B4G4R4_UNORM, &v.to_le_bytes(), one, rgba8), [255, 136, 0, 255]);
    let v: u16 = 31 | 0 << 5 | 16 << 10 | 1 << 15;
    assert_eq!(decode_all(Format::B5G5R5A1_UNORM, &v.to_le_bytes(), one, rgba8), [132, 0, 255, 255]);
    let v: u32 = 1023 | 0 << 10 | 512 << 20 | 3 << 30;
    assert_eq!(
        shorts(&decode_all(
            Format::R10G10B10A2_UNORM,
            &v.to_le_bytes(),
            one,
            color(Channels::Rgba, Precision::U16)
        )),
        [65535, 0, 32800, 65535]
    );
    assert_eq!(decode_all(Format::B8G8R8X8_UNORM, &[1, 2, 3, 4], one, rgba8), [3, 2, 1, 255]);
    assert_eq!(decode_all(Format::B8G8R8A8_UNORM, &[1, 2, 3, 4], one, rgba8), [3, 2, 1, 4]);
    assert_eq!(
        decode_all(Format::B8G8R8_UNORM, &[1, 2, 3], one, color(Channels::Rgb, Precision::U8)),
        [3, 2, 1]
    );
    // 1.5 in extended range is 0x180 + 510
    let v: u32 = (0x180 + 510) | 0x180 << 10 | 0 << 20 | 3 << 30;
    assert_eq!(
        decode_all(Format::R10G10B10_XR_BIAS_A2_UNORM, &v.to_le_bytes(), one, rgba8),
        [255, 0, 0, 255]
    );
    // 1.0 as an 11-bit float, 0.5 as an 11-bit float, 2.0 as a 10-bit float
    let v: u32 = (15 << 6) | (14 << 6) << 11 | (16 << 5) << 22;
    assert_eq!(
        floats(&decode_all(
            Format::R11G11B10_FLOAT,
            &v.to_le_bytes(),
            one,
            color(Channels::Rgb, Precision::F32)
        )),
        [1.0, 0.5, 2.0]
    );
    // 1.0 and -2.0 as halves
    assert_eq!(
        floats(&decode_all(
            Format::R16G16_FLOAT,
            &[0x00, 0x3C, 0x00, 0xC0],
            one,
            color(Channels::Rgb, Precision::F32)
        )),
        [1.0, -2.0, 0.0]
    );
    assert_eq!(
        decode_all(
            Format::R32_FLOAT,
            &0.5f32.to_le_bytes(),
            one,
            color(Channels::Grayscale, Precision::U8)
        ),
        [128]
    );
}

#[test]
fn sub_sampled_pixels() {
    let rgb8 = color(Channels::Rgb, Precision::U8);
    // red, green of the first pixel, blue, green of the second pixel
    let out = decode_all(Format::R8G8_B8G8_UNORM, &[1, 2, 3, 4, 5, 6, 7, 8], Size::new(3, 1), rgb8);
    assert_eq!(out, [1, 2, 3, 1, 4, 3, 5, 6, 7]);
    let out = decode_all(Format::G8R8_G8B8_UNORM, &[1, 2, 3, 4, 5, 6, 7, 8], Size::new(3, 1), rgb8);
    assert_eq!(out, [2, 1, 4, 2, 3, 4, 6, 5, 8]);
    // every row starts with a block of its own
    let out = decode_all(
        Format::R1_UNORM,
        &[0b1010_0000, 0b0100_0000],
        Size::new(3, 2),
        color(Channels::Grayscale, Precision::U8),
    );
    assert_eq!(out, [255, 0, 255, 0, 255, 0]);
}

fn bc1_block(c0: u16, c1: u16, indices: u32) -> Vec<u8> {
    let mut block = Vec::new();
    block.extend_from_slice(&c0.to_le_bytes());
    block.extend_from_slice(&c1.to_le_bytes());
    block.extend_from_slice(&indices.to_le_bytes());
    block
}

#[test]
fn bc1_single_block() {
    let rgba8 = color(Channels::Rgba, Precision::U8);
    let size = Size::new(4, 4);
    let out = decode_all(
        Format::BC1_UNORM,
        &[0x00, 0x00, 0xFF, 0xFF, 0x00, 0x00, 0x00, 0x00],
        size,
        rgba8,
    );
    assert_eq!(out, [0, 0, 0, 255].repeat(16));
    // all indices 2 with the first endpoint not the larger one: the colour
    // halfway between the endpoints
    let out = decode_all(Format::BC1_UNORM, &bc1_block(0x0000, 0xFFFF, 0xAAAA_AAAA), size, rgba8);
    assert_eq!(out, [128, 128, 128, 255].repeat(16));
    // index 3 is then transparent black
    let out = decode_all(Format::BC1_UNORM, &bc1_block(0x0000, 0xFFFF, 0xFFFF_FFFF), size, rgba8);
    assert_eq!(out, [0, 0, 0, 0].repeat(16));
    // with the first endpoint the larger one: thirds
    let out = decode_all(Format::BC1_UNORM, &bc1_block(0xFFFF, 0x0000, 0xAAAA_AAAA), size, rgba8);
    assert_eq!(out, [170, 170, 170, 255].repeat(16));
    let out = decode_all(Format::BC1_UNORM, &bc1_block(0xFFFF, 0x0000, 0xFFFF_FFFF), size, rgba8);
    assert_eq!(out, [85, 85, 85, 255].repeat(16));
    // the indices run along the rows, two bits per texel
    let out = decode_all(Format::BC1_UNORM, &bc1_block(0xFFFF, 0x0000, 0b01_00), size, rgba8);
    assert_eq!(&out[..8], &[255, 255, 255, 255, 0, 0, 0, 255]);
    assert_eq!(&out[8..], &[255u8; 56][..]);
}

#[test]
fn bc1_rect_of_one_block() {
    // 16x16 pixels are 4x4 blocks; block (1, 0) is solid red
    let size = Size::new(16, 16);
    let mut encoded = noise(16 * 8, 42);
    encoded[8..16].copy_from_slice(&bc1_block(0xF800, 0xF800, 0));
    let rgba8 = color(Channels::Rgba, Precision::U8);
    let mut out = vec![0u8; 4 * 4 * 4];
    decode_rect(Format::BC1_UNORM, &encoded, size, Rect::new(4, 0, 4, 4), rgba8, &mut out, 16, &OPTIONS)
        .unwrap();
    assert_eq!(out, [255, 0, 0, 255].repeat(16));
}

#[test]
fn bc4_and_bc5_blocks() {
    let gray8 = color(Channels::Grayscale, Precision::U8);
    let size = Size::new(4, 4);
    // endpoints 255 and 0, texels 0..8 use the eight entries in turn
    let indices: u64 = (0..16u64).map(|t| (t % 8) << (3 * t)).sum();
    let mut block = vec![255u8, 0];
    block.extend_from_slice(&indices.to_le_bytes()[..6]);
    let out = decode_all(Format::BC4_UNORM, &block, size, gray8);
    let ramp = [255u8, 0, 219, 182, 146, 109, 73, 36];
    assert_eq!(&out[..8], &ramp);
    assert_eq!(&out[8..], &ramp);
    // endpoints 0 and 255: four values between, then the lowest and highest
    let mut block = vec![0u8, 255];
    block.extend_from_slice(&indices.to_le_bytes()[..6]);
    let out = decode_all(Format::BC4_UNORM, &block, size, gray8);
    assert_eq!(&out[..8], &[0u8, 255, 51, 102, 153, 204, 0, 255]);
    // signed: endpoints +1 and -1
    let mut block = vec![0x7Fu8, 0x81];
    block.extend_from_slice(&indices.to_le_bytes()[..6]);
    let out = decode_all(Format::BC4_SNORM, &block, size, gray8);
    assert_eq!(&out[..8], &[255u8, 0, 219, 182, 146, 109, 73, 36]);
    // two channels side by side, blue is 0
    let mut both = vec![10u8, 10, 0, 0, 0, 0, 0, 0];
    both.extend_from_slice(&[20u8, 20, 0, 0, 0, 0, 0, 0]);
    let out = decode_all(Format::BC5_UNORM, &both, size, color(Channels::Rgb, Precision::U8));
    assert_eq!(out, [10, 20, 0].repeat(16));
    let out = decode_all(Format::BC5_SNORM, &both, size, color(Channels::Rgb, Precision::U8));
    assert_eq!(out, [138, 148, 128].repeat(16));
}

#[test]
fn bc2_and_bc3_blocks() {
    let rgba8 = color(Channels::Rgba, Precision::U8);
    let size = Size::new(4, 4);
    // explicit alpha: texel t has alpha t
    let alpha: u64 = (0..16u64).map(|t| t << (4 * t)).sum();
    let mut block = alpha.to_le_bytes().to_vec();
    // the colour block always has four colours, whatever the order
    block.extend_from_slice(&bc1_block(0x0000, 0xFFFF, 0xFFFF_FFFF));
    let out = decode_all(Format::BC2_UNORM, &block, size, rgba8);
    for t in 0..16 {
        assert_eq!(&out[4 * t..4 * t + 4], &[170, 170, 170, 17 * t as u8]);
    }
    let out = decode_all(Format::BC2_UNORM_PREMULTIPLIED_ALPHA, &block, size, rgba8);
    assert_eq!(&out[0..4], &[0, 0, 0, 0]);
    assert_eq!(&out[4..8], &[255, 255, 255, 17]);
    assert_eq!(&out[60..64], &[170, 170, 170, 255]);
    // interpolated alpha
    let mut block = vec![255u8, 0, 0, 0, 0, 0, 0, 0];
    block.extend_from_slice(&bc1_block(0xF800, 0x001F, 0));
    let out = decode_all(Format::BC3_UNORM, &block, size, rgba8);
    assert_eq!(out, [255, 0, 0, 255].repeat(16));
    // the alpha block holds red; the red of the colour block is dropped
    let mut block = vec![100u8, 100, 0, 0, 0, 0, 0, 0];
    block.extend_from_slice(&bc1_block(0xFFFF, 0xFFFF, 0));
    let out = decode_all(Format::BC3_UNORM_RXGB, &block, size, color(Channels::Rgb, Precision::U8));
    assert_eq!(out, [100, 255, 255].repeat(16));
}

#[test]
fn block_surfaces_need_not_be_multiples_of_four() {
    // 5x6 pixels are 2x2 blocks
    let size = Size::new(5, 6);
    let mut encoded = Vec::new();
    for c in [0xF800u16, 0x07E0, 0x001F, 0xFFFF] {
        encoded.extend_from_slice(&bc1_block(c, c, 0));
    }
    let out = decode_all(Format::BC1_UNORM, &encoded, size, color(Channels::Rgb, Precision::U8));
    for y in 0..6 {
        for x in 0..5 {
            let expected = match (x / 4, y / 4) {
                (0, 0) => [255, 0, 0],
                (1, 0) => [0, 255, 0],
                (0, 1) => [0, 0, 255],
                _ => [255, 255, 255],
            };
            assert_eq!(&out[3 * (5 * y + x)..][..3], &expected);
        }
    }
}

#[test]
fn other_precisions_of_blocks() {
    let size = Size::new(4, 4);
    let mut block = vec![51u8, 51, 0, 0, 0, 0, 0, 0];
    let out = decode_all(Format::BC4_UNORM, &block, size, color(Channels::Grayscale, Precision::U16));
    assert_eq!(shorts(&out), [51 * 257; 16]);
    let out = decode_all(Format::BC4_UNORM, &block, size, color(Channels::Grayscale, Precision::F32));
    assert_eq!(floats(&out), [51.0 * (1.0 / 255.0); 16]);
    block[0] = 255;
    block[1] = 255;
    let out = decode_all(Format::BC4_UNORM, &block, size, color(Channels::Rgba, Precision::F32));
    assert_eq!(floats(&out), [1.0; 64]);
}

#[test]
fn output_length_is_checked_first() {
    let size = Size::new(2, 2);
    let rgba8 = color(Channels::Rgba, Precision::U8);
    let mut out = vec![0u8; 15];
    assert_eq!(
        decode(Format::R8_UNORM, &[], size, rgba8, &mut out, &OPTIONS),
        Err(DecodeError::UnexpectedBufferSize { expected: 16 })
    );
    let mut out = vec![0u8; 17];
    assert_eq!(
        decode(Format::BC1_UNORM, &[0; 8], size, rgba8, &mut out, &OPTIONS),
        Err(DecodeError::UnexpectedBufferSize { expected: 16 })
    );
}

#[test]
fn short_input_is_an_error() {
    let size = Size::new(2, 2);
    let rgba8 = color(Channels::Rgba, Precision::U8);
    let mut out = vec![0u8; 16];
    assert_eq!(
        decode(Format::R8_UNORM, &[1, 2, 3], size, rgba8, &mut out, &OPTIONS),
        Err(DecodeError::UnexpectedEof)
    );
    assert_eq!(decode(Format::R8_UNORM, &[1, 2, 3, 4], size, rgba8, &mut out, &OPTIONS), Ok(()));
    assert_eq!(
        decode(Format::BC1_UNORM, &[0; 7], size, rgba8, &mut out, &OPTIONS),
        Err(DecodeError::UnexpectedEof)
    );
    assert_eq!(decode(Format::BC1_UNORM, &[0; 8], size, rgba8, &mut out, &OPTIONS), Ok(()));
    let mut out = vec![0u8; 4];
    assert_eq!(
        decode_rect(Format::R8_UNORM, &[1, 2, 3], size, Rect::new(0, 0, 1, 1), rgba8, &mut out, 4, &OPTIONS),
        Err(DecodeError::UnexpectedEof)
    );
}

#[test]
fn empty_surfaces_are_not_decoded() {
    let rgba8 = color(Channels::Rgba, Precision::U8);
    let mut out: Vec<u8> = Vec::new();
    assert_eq!(decode(Format::R8_UNORM, &[], Size::new(0, 5), rgba8, &mut out, &OPTIONS), Ok(()));
    assert_eq!(decode(Format::BC1_UNORM, &[], Size::new(5, 0), rgba8, &mut out, &OPTIONS), Ok(()));
    let mut out = vec![7u8; 3];
    assert_eq!(
        decode_rect(Format::R8_UNORM, &[], Size::new(4, 4), Rect::new(1, 1, 0, 2), rgba8, &mut out, 0, &OPTIONS),
        Ok(())
    );
    assert_eq!(out, [7, 7, 7]);
}

#[test]
fn rect_arguments_are_checked() {
    let size = Size::new(4, 4);
    let gray8 = color(Channels::Grayscale, Precision::U8);
    let encoded = [0u8; 16];
    let mut out = vec![0u8; 16];
    let f = Format::R8_UNORM;
    assert_eq!(
        decode_rect(f, &encoded, size, Rect::new(3, 0, 2, 1), gray8, &mut out, 4, &OPTIONS),
        Err(DecodeError::RectOutOfBounds)
    );
    assert_eq!(
        decode_rect(f, &encoded, size, Rect::new(0, 4, 1, 1), gray8, &mut out, 4, &OPTIONS),
        Err(DecodeError::RectOutOfBounds)
    );
    assert_eq!(
        decode_rect(f, &encoded, size, Rect::new(u32::MAX, 0, 2, 1), gray8, &mut out, 4, &OPTIONS),
        Err(DecodeError::RectOutOfBounds)
    );
    assert_eq!(
        decode_rect(f, &encoded, size, Rect::new(0, 0, 4, 4), gray8, &mut out, 3, &OPTIONS),
        Err(DecodeError::RowPitchTooSmall { required_minimum: 4 })
    );
    assert_eq!(
        decode_rect(f, &encoded, size, Rect::new(0, 0, 4, 4), gray8, &mut out, 5, &OPTIONS),
        Err(DecodeError::RectBufferTooSmall { required_minimum: 20 })
    );
    assert_eq!(decode_rect(f, &encoded, size, Rect::new(0, 0, 4, 4), gray8, &mut out, 4, &OPTIONS), Ok(()));
}

#[test]
fn scratch_row_counts_against_the_memory_limit() {
    // a rectangle that starts within a block of two pixels takes a scratch
    // row of one pixel more than its width
    let size = Size::new(8, 2);
    let rgb8 = color(Channels::Rgb, Precision::U8);
    let encoded = noise(32, 3);
    let rect = Rect::new(1, 0, 4, 2);
    let mut out = vec![0u8; 24];
    let tight = DecodeOptions { memory_limit: 15 };
    assert_eq!(decode_rect(Format::R8G8_B8G8_UNORM, &encoded, size, rect, rgb8, &mut out, 12, &tight), Ok(()));
    let tighter = DecodeOptions { memory_limit: 14 };
    assert_eq!(
        decode_rect(Format::R8G8_B8G8_UNORM, &encoded, size, rect, rgb8, &mut out, 12, &tighter),
        Err(DecodeError::MemoryLimitExceeded)
    );
    // a rectangle that starts with a block takes none
    let none = DecodeOptions { memory_limit: 0 };
    let rect = Rect::new(2, 0, 4, 2);
    assert_eq!(decode_rect(Format::R8G8_B8G8_UNORM, &encoded, size, rect, rgb8, &mut out, 12, &none), Ok(()));
}

#[test]
fn formats_without_decoders() {
    let rgba8 = color(Channels::Rgba, Precision::U8);
    for format in [
        Format::NV12,
        Format::P010,
        Format::P016,
        Format::BC6H_UF16,
        Format::BC6H_SF16,
        Format::BC7_UNORM,
    ] {
        assert!(!supports(format, rgba8));
        assert!(get_decoders(format).is_none());
        let mut out = vec![0u8; 4];
        assert_eq!(
            decode(format, &[0; 64], Size::new(1, 1), rgba8, &mut out, &OPTIONS),
            Err(DecodeError::UnsupportedColorFormat { format, color: rgba8 })
        );
    }
}

#[test]
fn native_color_of_the_decoders() {
    for format in DECODABLE {
        let decoders = get_decoders(format).unwrap();
        assert_eq!(decoders.native_color(), format.color());
        assert_eq!(format.channels(), format.color().channels);
        assert_eq!(format.precision(), format.color().precision);
    }
}

/// Red, green and blue of luma and chroma by hardware arithmetic.
fn yuv_to_rgb(c: f32, d: f32, e: f32, scale: f32) -> [f32; 3] {
    let r = 1.164383 * c + 1.596027 * e;
    let g = 1.164383 * c - 0.391762 * d - 0.812968 * e;
    let b = 1.164383 * c + 2.017232 * d;
    [(r * scale).clamp(0.0, 1.0), (g * scale).clamp(0.0, 1.0), (b * scale).clamp(0.0, 1.0)]
}

#[test]
fn yuv_pixels() {
    let one = Size::new(1, 1);
    let two = Size::new(2, 1);
    let rgba32 = color(Channels::Rgba, Precision::F32);
    let rgb32 = color(Channels::Rgb, Precision::F32);
    // black, white and neutral gray
    let rgb8 = color(Channels::Rgb, Precision::U8);
    assert_eq!(decode_all(Format::YUY2, &[16, 128, 235, 128], two, rgb8), [0, 0, 0, 255, 255, 255]);
    assert_eq!(decode_all(Format::UYVY, &[128, 16, 128, 235], two, rgb8), [0, 0, 0, 255, 255, 255]);
    assert_eq!(
        decode_all(Format::AYUV, &[128, 128, 126, 77], one, color(Channels::Rgba, Precision::U8)),
        [128, 128, 128, 77]
    );
    // the bytes are chroma V, chroma U, luma, alpha
    let out = decode_all(Format::AYUV, &[200, 90, 150, 255], one, rgba32);
    let f: f32 = 1.0 / 255.0;
    let mut expected = yuv_to_rgb(150.0 - 16.0, 90.0 - 128.0, 200.0 - 128.0, f).to_vec();
    expected.push(1.0);
    assert_eq!(floats(&out), expected);
    // ten bits each of chroma U, luma, chroma V, and two of alpha
    let v: u32 = 300 | 700 << 10 | 600 << 20 | 1 << 30;
    let out = decode_all(Format::Y410, &v.to_le_bytes(), one, rgba32);
    let f: f32 = 1.0 / 1023.0;
    let mut expected = yuv_to_rgb(700.0 - 64.0, 300.0 - 512.0, 600.0 - 512.0, f).to_vec();
    expected.push(1.0 / 3.0);
    assert_eq!(floats(&out), expected);
    // words of chroma U, luma, chroma V, alpha
    let words: Vec<u8> = [20000u16, 40000, 50000, 65535].iter().flat_map(|w| w.to_le_bytes()).collect();
    let out = decode_all(Format::Y416, &words, one, rgba32);
    let f: f32 = 1.0 / 65535.0;
    let mut expected = yuv_to_rgb(40000.0 - 4096.0, 20000.0 - 32768.0, 50000.0 - 32768.0, f).to_vec();
    expected.push(1.0);
    assert_eq!(floats(&out), expected);
    // words of luma, chroma U, luma, chroma V
    let words: Vec<u8> = [40000u16, 20000, 10000, 50000].iter().flat_map(|w| w.to_le_bytes()).collect();
    for format in [Format::Y216, Format::Y210] {
        let out = decode_all(format, &words, two, rgb32);
        let mut expected = yuv_to_rgb(40000.0 - 4096.0, 20000.0 - 32768.0, 50000.0 - 32768.0, f).to_vec();
        expected.extend(yuv_to_rgb(10000.0 - 4096.0, 20000.0 - 32768.0, 50000.0 - 32768.0, f));
        assert_eq!(floats(&out), expected);
    }
}

#[test]
fn colour_formats_of_the_decoders() {
    for format in DECODABLE {
        assert!(supported_color_formats(format).is_all());
    }
    for format in [Format::NV12, Format::BC7_UNORM, Format::BC6H_SF16] {
        let set = supported_color_formats(format);
        for channels in ALL_CHANNELS {
            for precision in ALL_PRECISIONS {
                assert!(!set.contains(color(channels, precision)));
            }
        }
    }
}

#[test]
fn errors_leave_the_output_as_it_was() {
    let size = Size::new(2, 2);
    let rgba8 = color(Channels::Rgba, Precision::U8);
    let gray8 = color(Channels::Grayscale, Precision::U8);
    // a wrong length of the output
    for len in [0usize, 15, 17] {
        for format in [Format::R8_UNORM, Format::BC1_UNORM, Format::YUY2] {
            let before = noise(len, 5);
            let mut out = before.clone();
            assert_eq!(
                decode(format, &[9; 64], size, rgba8, &mut out, &OPTIONS),
                Err(DecodeError::UnexpectedBufferSize { expected: 16 })
            );
            assert_eq!(out, before);
        }
    }
    // encoded bytes that do not hold the surface
    let before = noise(16, 6);
    for (format, short) in [(Format::R8_UNORM, 3usize), (Format::BC1_UNORM, 7), (Format::YUY2, 7)] {
        let mut out = before.clone();
        assert_eq!(
            decode(format, &vec![9; short], size, rgba8, &mut out, &OPTIONS),
            Err(DecodeError::UnexpectedEof)
        );
        assert_eq!(out, before);
        let mut out = before.clone();
        assert_eq!(
            decode_rect(format, &vec![9; short], size, Rect::new(1, 1, 1, 1), rgba8, &mut out, 4, &OPTIONS),
            Err(DecodeError::UnexpectedEof)
        );
        assert_eq!(out, before);
    }
    // a format without decoders
    let mut out = before.clone();
    assert!(decode(Format::BC7_UNORM, &[0; 16], size, rgba8, &mut out, &OPTIONS).is_err());
    assert_eq!(out, before);
    // wrong arguments of a rectangle
    let encoded = [9u8; 16];
    let size = Size::new(4, 4);
    for (rect, pitch) in [
        (Rect::new(3, 0, 2, 1), 4usize),
        (Rect::new(0, 4, 1, 1), 4),
        (Rect::new(0, 0, 4, 4), 3),
        (Rect::new(0, 0, 4, 4), 5),
    ] {
        let mut out = before.clone();
        assert!(decode_rect(Format::R8_UNORM, &encoded, size, rect, gray8, &mut out, pitch, &OPTIONS)
            .is_err());
        assert_eq!(out, before);
    }
    // a scratch row beyond the memory limit
    let rgb8 = color(Channels::Rgb, Precision::U8);
    let before = noise(24, 7);
    let mut out = before.clone();
    let tight = DecodeOptions { memory_limit: 14 };
    assert_eq!(
        decode_rect(
            Format::R8G8_B8G8_UNORM,
            &noise(32, 3),
            Size::new(8, 2),
            Rect::new(1, 0, 4, 2),
            rgb8,
            &mut out,
            12,
            &tight
        ),
        Err(DecodeError::MemoryLimitExceeded)
    );
    assert_eq!(out, before);
}

fn decoder_of(format: Format, channels: Channels, precision: Precision) -> UncompressedDecoder {
    let c = color(channels, precision);
    UncompressedDecoder::new(c, ProcessPixelsFn { format, precision }, 3, c.bytes_per_pixel())
}

#[test]
fn a_set_holds_one_decoder_for_each_precision() {
    let f = Format::R8G8B8_UNORM;
    let of = |channels: Channels, precision: Precision| decoder_of(f, channels, precision);
    let rgb8 = of(Channels::Rgb, Precision::U8);
    let rgb16 = of(Channels::Rgb, Precision::U16);
    let rgb32 = of(Channels::Rgb, Precision::F32);
    let rgba8 = of(Channels::Rgba, Precision::U8);
    let rgba16 = of(Channels::Rgba, Precision::U16);

    assert!(UncompressedDecoderSet::verify(&vec![rgb8, rgb16, rgb32]));
    assert!(UncompressedDecoderSet::verify(&vec![rgb32, rgb8, rgb16]));
    // two decoders of one precision beside the three
    assert!(!UncompressedDecoderSet::verify(&vec![rgb8, rgba8, rgb16, rgb32]));
    // no decoder at all, or too few
    assert!(!UncompressedDecoderSet::verify(&Vec::new()));
    assert!(!UncompressedDecoderSet::verify(&vec![rgb8]));
    assert!(!UncompressedDecoderSet::verify(&vec![rgb8, rgb16]));
    // a precision twice, and so another one missing
    assert!(!UncompressedDecoderSet::verify(&vec![rgb8, rgb8, rgb32]));
    assert!(!UncompressedDecoderSet::verify(&vec![rgb8, rgba8, rgb32]));
    assert!(!UncompressedDecoderSet::verify(&vec![rgb8, rgb16, rgb8]));
    // other channels than those of the first decoder
    assert!(!UncompressedDecoderSet::verify(&vec![rgb8, rgba16, rgb32]));
    // the sets of the library are valid
    let set = UncompressedDecoderSet::new(vec![rgb16, rgb32, rgb8]);
    assert_eq!(set.decoders.len(), 3);
    assert_eq!(set.native_color(), color(Channels::Rgb, Precision::U16));
}
