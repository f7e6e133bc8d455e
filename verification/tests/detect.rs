use ddsd::detect::{
    dxgi_format_to_supported, dxgi_to_four_cc, four_cc_to_dxgi, four_cc_to_supported,
    known_pixel_format_at, pixel_format_to_supported, special_cases, supported_to_masked,
    PFPattern, KNOWN_PIXEL_FORMATS,
};
use ddsd::error::FormatError;
use ddsd::format::{Dithering, Format};
use ddsd::header::{
    AlphaMode, Dx10Header, Dx9Header, Dx9PixelFormat, DxgiFormat, FourCC, Header, MaskPixelFormat,
    PixelFormatFlags, ResourceDimension,
};
use ddsd::pixel::{Channels, ColorFormat, Precision};

const ALL_FORMATS: [Format; 58] = [
    Format::R8G8B8_UNORM,
    Format::B8G8R8_UNORM,
    Format::R8G8B8A8_UNORM,
    Format::R8G8B8A8_SNORM,
    Format::B8G8R8A8_UNORM,
    Format::B8G8R8X8_UNORM,
    Format::B5G6R5_UNORM,
    Format::B5G5R5A1_UNORM,
    Format::B4G4R4A4_UNORM,
    Format::A4B4G4R4_UNORM,
    Format::R8_SNORM,
    Format::R8_UNORM,
    Format::R8G8_UNORM,
    Format::R8G8_SNORM,
    Format::A8_UNORM,
    Format::R16_UNORM,
    Format::R16_SNORM,
    Format::R16G16_UNORM,
    Format::R16G16_SNORM,
    Format::R16G16B16A16_UNORM,
    Format::R16G16B16A16_SNORM,
    Format::R10G10B10A2_UNORM,
    Format::R11G11B10_FLOAT,
    Format::R9G9B9E5_SHAREDEXP,
    Format::R16_FLOAT,
    Format::R16G16_FLOAT,
    Format::R16G16B16A16_FLOAT,
    Format::R32_FLOAT,
    Format::R32G32_FLOAT,
    Format::R32G32B32_FLOAT,
    Format::R32G32B32A32_FLOAT,
    Format::R10G10B10_XR_BIAS_A2_UNORM,
    Format::AYUV,
    Format::Y410,
    Format::Y416,
    Format::R1_UNORM,
    Format::R8G8_B8G8_UNORM,
    Format::G8R8_G8B8_UNORM,
    Format::UYVY,
    Format::YUY2,
    Format::Y210,
    Format::Y216,
    Format::NV12,
    Format::P010,
    Format::P016,
    Format::BC1_UNORM,
    Format::BC2_UNORM,
    Format::BC2_UNORM_PREMULTIPLIED_ALPHA,
    Format::BC3_UNORM,
    Format::BC3_UNORM_PREMULTIPLIED_ALPHA,
    Format::BC4_UNORM,
    Format::BC4_SNORM,
    Format::BC5_UNORM,
    Format::BC5_SNORM,
    Format::BC6H_UF16,
    Format::BC6H_SF16,
    Format::BC7_UNORM,
    Format::BC3_UNORM_RXGB,
];

fn dx10(dxgi_format: DxgiFormat, alpha_mode: AlphaMode) -> Dx10Header {
    Dx10Header {
        height: 4,
        width: 4,
        depth: None,
        mipmap_count: 1,
        dxgi_format,
        resource_dimension: ResourceDimension::Texture2D,
        cube_map: false,
        array_size: 1,
        alpha_mode,
    }
}

fn dx9(pixel_format: Dx9PixelFormat) -> Header {
    Header::Dx9(Dx9Header {
        height: 4,
        width: 4,
        depth: None,
        mipmap_count: 1,
        pixel_format,
        cube_map: false,
    })
}

#[test]
fn dxgi_values_round_trip() {
    let mut known = 0;
    for v in 0..300u32 {
        if let Some(d) = DxgiFormat::from_value(v) {
            assert_eq!(d.value(), v);
            known += 1;
        }
    }
    assert_eq!(known, 122);
    assert_eq!(DxgiFormat::from_value(28), Some(DxgiFormat::R8G8B8A8_UNORM));
    assert_eq!(DxgiFormat::from_value(71), Some(DxgiFormat::BC1_UNORM));
    assert_eq!(DxgiFormat::from_value(115), Some(DxgiFormat::B4G4R4A4_UNORM));
    assert_eq!(DxgiFormat::from_value(191), Some(DxgiFormat::A4B4G4R4_UNORM));
    assert_eq!(DxgiFormat::from_value(116), None);
    assert!(DxgiFormat::BC7_UNORM_SRGB.is_srgb());
    assert!(!DxgiFormat::BC7_UNORM.is_srgb());
}

#[test]
fn four_cc_and_dxgi_round_trip() {
    for v in 0..300u32 {
        if let Some(d) = DxgiFormat::from_value(v) {
            if let Some(c) = dxgi_to_four_cc(d) {
                assert_eq!(four_cc_to_dxgi(c), Some(d));
            }
        }
    }
    assert_eq!(dxgi_to_four_cc(DxgiFormat::BC1_UNORM), Some(FourCC::from_bytes(*b"DXT1")));
    assert_eq!(dxgi_to_four_cc(DxgiFormat::BC1_UNORM_SRGB), None);
    assert_eq!(four_cc_to_dxgi(FourCC::from_bytes(*b"ATI2")), Some(DxgiFormat::BC5_UNORM));
    assert_eq!(four_cc_to_dxgi(FourCC(116)), Some(DxgiFormat::R32G32B32A32_FLOAT));
    assert_eq!(four_cc_to_dxgi(FourCC(117)), None);
}

#[test]
fn four_cc_tags() {
    assert_eq!(FourCC::from_bytes(*b"DXT1").0, FourCC::DXT1);
    assert_eq!(FourCC::from_bytes(*b"DX10").0, FourCC::DX10);
    assert_eq!(FourCC::from_bytes(*b"RXGB").0, FourCC::RXGB);
    assert_eq!(four_cc_to_supported(FourCC(FourCC::DXT1)), Some(Format::BC1_UNORM));
    assert_eq!(
        four_cc_to_supported(FourCC(FourCC::DXT2)),
        Some(Format::BC2_UNORM_PREMULTIPLIED_ALPHA)
    );
    assert_eq!(four_cc_to_supported(FourCC(FourCC::DXT3)), Some(Format::BC2_UNORM));
    assert_eq!(
        four_cc_to_supported(FourCC(FourCC::DXT4)),
        Some(Format::BC3_UNORM_PREMULTIPLIED_ALPHA)
    );
    assert_eq!(four_cc_to_supported(FourCC(FourCC::DXT5)), Some(Format::BC3_UNORM));
    assert_eq!(four_cc_to_supported(FourCC(FourCC::ATI1)), Some(Format::BC4_UNORM));
    assert_eq!(four_cc_to_supported(FourCC(FourCC::BC4S)), Some(Format::BC4_SNORM));
    assert_eq!(four_cc_to_supported(FourCC(FourCC::RXGB)), Some(Format::BC3_UNORM_RXGB));
    assert_eq!(four_cc_to_supported(FourCC(FourCC::UYVY)), Some(Format::UYVY));
    assert_eq!(four_cc_to_supported(FourCC(FourCC::YUY2)), Some(Format::YUY2));
    assert_eq!(four_cc_to_supported(FourCC(36)), Some(Format::R16G16B16A16_UNORM));
    assert_eq!(four_cc_to_supported(FourCC(111)), Some(Format::R16_FLOAT));
    assert_eq!(four_cc_to_supported(FourCC(FourCC::DX10)), None);
    assert_eq!(Format::from_four_cc(FourCC(FourCC::GRGB)), Some(Format::G8R8_G8B8_UNORM));
}

#[test]
fn formats_round_trip_through_their_names() {
    for format in ALL_FORMATS {
        if let Ok(dxgi) = DxgiFormat::try_from(format) {
            assert_eq!(dxgi_format_to_supported(dxgi), Some(format));
            assert_eq!(Format::from_dxgi(dxgi), Some(format));
        }
        if let Ok(four_cc) = FourCC::try_from(format) {
            assert_eq!(four_cc_to_supported(four_cc), Some(format));
        }
        if let Ok(mask) = MaskPixelFormat::try_from(format) {
            assert_eq!(pixel_format_to_supported(&mask), Some(format));
            assert_eq!(supported_to_masked(format), Some(mask));
        }
        if let Ok(pf) = Dx9PixelFormat::try_from(format) {
            assert_eq!(Format::from_header(&dx9(pf)), Ok(format));
        }
    }
    assert_eq!(DxgiFormat::try_from(Format::BC3_UNORM_RXGB), Err(()));
    assert_eq!(DxgiFormat::try_from(Format::R8G8B8_UNORM), Err(()));
    assert_eq!(FourCC::try_from(Format::R8G8B8A8_UNORM), Err(()));
    assert_eq!(Dx9PixelFormat::try_from(Format::BC7_UNORM), Err(()));
    assert_eq!(
        Dx9PixelFormat::try_from(Format::BC1_UNORM),
        Ok(Dx9PixelFormat::FourCC(FourCC(FourCC::DXT1)))
    );
}

#[test]
fn typeless_and_srgb_variants() {
    for (dxgi, format) in [
        (DxgiFormat::R8G8B8A8_TYPELESS, Format::R8G8B8A8_UNORM),
        (DxgiFormat::R8G8B8A8_UNORM_SRGB, Format::R8G8B8A8_UNORM),
        (DxgiFormat::BC1_TYPELESS, Format::BC1_UNORM),
        (DxgiFormat::BC7_UNORM_SRGB, Format::BC7_UNORM),
        (DxgiFormat::R32_TYPELESS, Format::R32_FLOAT),
        (DxgiFormat::BC6H_TYPELESS, Format::BC6H_UF16),
        (DxgiFormat::R16_TYPELESS, Format::R16_UNORM),
    ] {
        assert_eq!(dxgi_format_to_supported(dxgi), Some(format));
    }
    for dxgi in [DxgiFormat::UNKNOWN, DxgiFormat::R32G32B32A32_UINT, DxgiFormat::D32_FLOAT, DxgiFormat::P8] {
        assert_eq!(dxgi_format_to_supported(dxgi), None);
    }
}

#[test]
fn masks() {
    let pf = MaskPixelFormat {
        flags: PixelFormatFlags(PixelFormatFlags::RGB),
        rgb_bit_count: 16,
        r_bit_mask: 0xF800,
        g_bit_mask: 0x07E0,
        b_bit_mask: 0x001F,
        a_bit_mask: 0,
    };
    assert_eq!(pixel_format_to_supported(&pf), Some(Format::B5G6R5_UNORM));
    let other = MaskPixelFormat { a_bit_mask: 1, ..pf };
    assert_eq!(pixel_format_to_supported(&other), None);
    let luminance_alpha = MaskPixelFormat {
        flags: PixelFormatFlags(PixelFormatFlags::LUMINANCE_ALPHA),
        rgb_bit_count: 16,
        r_bit_mask: 0xFF,
        g_bit_mask: 0,
        b_bit_mask: 0,
        a_bit_mask: 0xFF00,
    };
    assert_eq!(pixel_format_to_supported(&luminance_alpha), Some(Format::R8G8_UNORM));
    assert_eq!(KNOWN_PIXEL_FORMATS, 19);
    for i in 0..KNOWN_PIXEL_FORMATS {
        let (pattern, format) = known_pixel_format_at(i);
        let pf = MaskPixelFormat {
            flags: pattern.flags,
            rgb_bit_count: pattern.rgb_bit_count,
            r_bit_mask: pattern.r_bit_mask,
            g_bit_mask: pattern.g_bit_mask,
            b_bit_mask: pattern.b_bit_mask,
            a_bit_mask: pattern.a_bit_mask,
        };
        assert!(pattern.matches(&pf));
        assert_eq!(pixel_format_to_supported(&pf), Some(format));
        let changed = pattern.with_flags(PixelFormatFlags(PixelFormatFlags::YUV));
        assert!(!changed.matches(&pf));
    }
    assert_eq!(supported_to_masked(Format::BC1_UNORM), None);
}

#[test]
fn format_of_a_header() {
    assert_eq!(
        Format::from_header(&Header::Dx10(dx10(DxgiFormat::BC2_UNORM, AlphaMode::Unknown))),
        Ok(Format::BC2_UNORM)
    );
    assert_eq!(
        Format::from_header(&Header::Dx10(dx10(DxgiFormat::BC2_UNORM_SRGB, AlphaMode::Premultiplied))),
        Ok(Format::BC2_UNORM_PREMULTIPLIED_ALPHA)
    );
    assert_eq!(
        Format::from_header(&Header::Dx10(dx10(DxgiFormat::BC3_TYPELESS, AlphaMode::Premultiplied))),
        Ok(Format::BC3_UNORM_PREMULTIPLIED_ALPHA)
    );
    assert_eq!(
        Format::from_header(&Header::Dx10(dx10(DxgiFormat::BC1_UNORM, AlphaMode::Premultiplied))),
        Ok(Format::BC1_UNORM)
    );
    assert_eq!(special_cases(&dx10(DxgiFormat::BC3_UNORM, AlphaMode::Straight)), None);
    assert_eq!(
        Format::from_header(&Header::Dx10(dx10(DxgiFormat::R32_UINT, AlphaMode::Unknown))),
        Err(FormatError::UnsupportedDxgiFormat(DxgiFormat::R32_UINT))
    );
    assert_eq!(
        Format::from_header(&dx9(Dx9PixelFormat::FourCC(FourCC(0x1234_5678)))),
        Err(FormatError::UnsupportedFourCC(FourCC(0x1234_5678)))
    );
    let nothing = MaskPixelFormat {
        flags: PixelFormatFlags(0),
        rgb_bit_count: 0,
        r_bit_mask: 0,
        g_bit_mask: 0,
        b_bit_mask: 0,
        a_bit_mask: 0,
    };
    assert_eq!(
        Format::from_header(&dx9(Dx9PixelFormat::Mask(nothing))),
        Err(FormatError::UnsupportedPixelFormat)
    );
}

#[test]
fn native_colors() {
    assert_eq!(Format::B5G6R5_UNORM.color(), ColorFormat::new(Channels::Rgb, Precision::U8));
    assert_eq!(Format::R16_SNORM.color(), ColorFormat::new(Channels::Grayscale, Precision::U16));
    assert_eq!(Format::A8_UNORM.channels(), Channels::Alpha);
    assert_eq!(Format::R8G8_UNORM.channels(), Channels::Rgb);
    assert_eq!(Format::R11G11B10_FLOAT.precision(), Precision::F32);
    assert_eq!(Format::BC6H_UF16.color(), ColorFormat::new(Channels::Rgb, Precision::F32));
    assert_eq!(Format::BC3_UNORM_RXGB.channels(), Channels::Rgb);
    assert_eq!(Format::Y410.precision(), Precision::U16);
    for (channels, count) in [
        (Channels::Grayscale, 1),
        (Channels::Alpha, 1),
        (Channels::Rgb, 3),
        (Channels::Rgba, 4),
    ] {
        assert_eq!(channels.count(), count);
    }
    let mut keys = Vec::new();
    for channels in [Channels::Grayscale, Channels::Alpha, Channels::Rgb, Channels::Rgba] {
        for (precision, size) in [(Precision::U8, 1), (Precision::U16, 2), (Precision::F32, 4)] {
            assert_eq!(precision.size(), size);
            let c = ColorFormat::new(channels, precision);
            assert_eq!(c.bytes_per_pixel(), channels.count() * size);
            keys.push(c.key());
        }
    }
    assert_eq!(keys, (0..12).collect::<Vec<u8>>());
}

#[test]
fn encoding_support() {
    for format in ALL_FORMATS {
        let encoders = ddsd::encode::get_encoders(format);
        match format.encoding() {
            None => assert!(encoders.is_none(), "{:?}", format),
            Some(support) => {
                assert!(encoders.is_some(), "{:?}", format);
                assert_eq!(support.dithering, Dithering::Off);
                assert_eq!(support.split_height, 1);
                assert!(!support.local_dithering);
                assert_eq!(support.size_multiple.width_multiple, 1);
                assert_eq!(support.size_multiple.height_multiple, 1);
            }
        }
    }
    assert!(Format::R8G8B8A8_UNORM.encoding().is_some());
    assert!(Format::B5G6R5_UNORM.encoding().is_some());
    assert!(Format::R1_UNORM.encoding().is_some());
    assert!(Format::R8_SNORM.encoding().is_some());
    assert!(Format::BC1_UNORM.encoding().is_none());
    assert!(Format::NV12.encoding().is_none());
    assert!(Format::R16_FLOAT.encoding().is_none());
}

#[test]
fn pattern_constructors() {
    let alpha = PFPattern::alpha_only(8, 0xFF);
    assert_eq!(alpha.flags, PixelFormatFlags(PixelFormatFlags::ALPHA));
    assert_eq!((alpha.rgb_bit_count, alpha.r_bit_mask, alpha.a_bit_mask), (8, 0, 0xFF));
    let gray = PFPattern::grayscale(16, 0xFFFF);
    assert_eq!(gray.flags, PixelFormatFlags(PixelFormatFlags::LUMINANCE));
    assert_eq!((gray.r_bit_mask, gray.g_bit_mask, gray.b_bit_mask, gray.a_bit_mask), (0xFFFF, 0, 0, 0));
    let rgb = PFPattern::rgb(16, 0xF800, 0x07E0, 0x001F);
    assert_eq!(rgb.flags, PixelFormatFlags(PixelFormatFlags::RGB));
    assert_eq!((rgb.r_bit_mask, rgb.g_bit_mask, rgb.b_bit_mask, rgb.a_bit_mask), (0xF800, 0x7E0, 0x1F, 0));
    let rgba = PFPattern::rgba(32, 1, 2, 3, 4);
    assert_eq!(rgba.flags, PixelFormatFlags(PixelFormatFlags::RGBA));
    assert_eq!((rgba.r_bit_mask, rgba.g_bit_mask, rgba.b_bit_mask, rgba.a_bit_mask), (1, 2, 3, 4));
    let snorm = PFPattern::snorm(16, 0xFF, 0xFF00, 0, 0);
    assert_eq!(snorm.flags, PixelFormatFlags(PixelFormatFlags::BUMP_DUDV));
    let both = PFPattern::grayscale(16, 0xFF).with_alpha(0xFF00);
    assert_eq!(both.flags, PixelFormatFlags(PixelFormatFlags::LUMINANCE_ALPHA));
    assert_eq!((both.r_bit_mask, both.a_bit_mask), (0xFF, 0xFF00));
    assert_eq!(known_pixel_format_at(KNOWN_PIXEL_FORMATS - 1), (both, Format::R8G8_UNORM));
    assert_eq!(known_pixel_format_at(4), (rgb, Format::B5G6R5_UNORM));
    let other = gray.with_flags(PixelFormatFlags(PixelFormatFlags::RGB_LUMINANCE));
    assert_eq!(other.flags, PixelFormatFlags(PixelFormatFlags::RGB_LUMINANCE));
    assert_eq!(other.r_bit_mask, 0xFFFF);
}
