use ddsd::error::DecodeError;
use ddsd::format::Format;
use ddsd::header::{
    AlphaMode, Dx9PixelFormat, DxgiFormat, FourCC, Header, HeaderError, MaskPixelFormat,
    PixelFormatFlags, ResourceDimension,
};
use ddsd::{DdsDecoder, Options};

fn put(bytes: &mut [u8], at: usize, value: u32) {
    bytes[at..at + 4].copy_from_slice(&value.to_le_bytes());
}

/// A file with a DX9 header for BC1 and the given size.
fn dx9_file(width: u32, height: u32) -> Vec<u8> {
    let mut bytes = vec![0u8; 128];
    bytes[..4].copy_from_slice(b"DDS ");
    let h = &mut bytes[4..];
    put(h, 0, 124);
    put(h, 4, 0x1007);
    put(h, 8, height);
    put(h, 12, width);
    put(h, 72, 32);
    put(h, 76, 0x4);
    put(h, 80, FourCC::DXT1);
    put(h, 104, 0x1000);
    bytes
}

/// A file with a DX10 header.
fn dx10_file(dxgi: u32, dimension: u32, array_size: u32) -> Vec<u8> {
    let mut bytes = dx9_file(16, 8);
    put(&mut bytes[4..], 80, FourCC::DX10);
    bytes.extend_from_slice(&[0u8; 20]);
    let h = &mut bytes[4..];
    put(h, 124, dxgi);
    put(h, 128, dimension);
    put(h, 136, array_size);
    bytes
}

#[test]
fn read_a_dx9_header() {
    let bytes = dx9_file(16, 8);
    let header = Header::read(&bytes, false, false).unwrap();
    match header {
        Header::Dx9(h) => {
            assert_eq!((h.width, h.height, h.depth, h.mipmap_count), (16, 8, None, 1));
            assert_eq!(h.pixel_format, Dx9PixelFormat::FourCC(FourCC(FourCC::DXT1)));
            assert!(!h.cube_map);
        }
        Header::Dx10(_) => panic!("no extension expected"),
    }
    assert_eq!(header.byte_len(), 124);
    assert_eq!((header.width(), header.height(), header.depth(), header.mipmap_count()), (16, 8, None, 1));
    assert_eq!(Header::read(&bytes[4..], true, false), Ok(header));
    assert_eq!(Header::parse(&bytes, 4, false), Ok(header));
}

#[test]
fn read_flags_of_a_header() {
    let mut bytes = dx9_file(16, 8);
    {
        let h = &mut bytes[4..];
        put(h, 4, 0x1007 | 0x80_0000 | 0x2_0000);
        put(h, 20, 5);
        put(h, 24, 3);
        put(h, 108, 0x200 | 0xFC00);
    }
    match Header::read(&bytes, false, false).unwrap() {
        Header::Dx9(h) => {
            assert_eq!((h.depth, h.mipmap_count, h.cube_map), (Some(5), 3, true));
        }
        Header::Dx10(_) => panic!("no extension expected"),
    }
    // a count of 0 stands for one level
    put(&mut bytes[4..], 24, 0);
    assert_eq!(Header::read(&bytes, false, false).unwrap().mipmap_count(), 1);
}

#[test]
fn read_masks() {
    let mut bytes = dx9_file(4, 4);
    {
        let h = &mut bytes[4..];
        put(h, 76, PixelFormatFlags::RGB);
        put(h, 80, 0);
        put(h, 84, 16);
        put(h, 88, 0xF800);
        put(h, 92, 0x07E0);
        put(h, 96, 0x001F);
    }
    let header = Header::read(&bytes, false, false).unwrap();
    let expected = MaskPixelFormat {
        flags: PixelFormatFlags(PixelFormatFlags::RGB),
        rgb_bit_count: 16,
        r_bit_mask: 0xF800,
        g_bit_mask: 0x07E0,
        b_bit_mask: 0x001F,
        a_bit_mask: 0,
    };
    match header {
        Header::Dx9(h) => assert_eq!(h.pixel_format, Dx9PixelFormat::Mask(expected)),
        Header::Dx10(_) => panic!("no extension expected"),
    }
    assert_eq!(Format::from_header(&header), Ok(Format::B5G6R5_UNORM));
}

#[test]
fn read_a_dx10_header() {
    let mut bytes = dx10_file(98, 3, 6);
    {
        let h = &mut bytes[4..];
        put(h, 132, 0x4);
        put(h, 140, 2);
    }
    let header = Header::read(&bytes, false, false).unwrap();
    match header {
        Header::Dx10(h) => {
            assert_eq!(h.dxgi_format, DxgiFormat::BC7_UNORM);
            assert_eq!(h.resource_dimension, ResourceDimension::Texture2D);
            assert_eq!((h.array_size, h.cube_map), (6, true));
            assert_eq!(h.alpha_mode, AlphaMode::Premultiplied);
        }
        Header::Dx9(_) => panic!("extension expected"),
    }
    assert_eq!(header.byte_len(), 144);
    for (dimension, expected) in [
        (2, ResourceDimension::Texture1D),
        (3, ResourceDimension::Texture2D),
        (4, ResourceDimension::Texture3D),
    ] {
        match Header::read(&dx10_file(28, dimension, 1), false, false).unwrap() {
            Header::Dx10(h) => assert_eq!(h.resource_dimension, expected),
            Header::Dx9(_) => panic!("extension expected"),
        }
    }
}

#[test]
fn header_errors() {
    let bytes = dx9_file(16, 8);
    assert_eq!(Header::read(&bytes[..3], false, false), Err(HeaderError::UnexpectedEof));
    assert_eq!(Header::read(&bytes[..127], false, false), Err(HeaderError::UnexpectedEof));
    assert_eq!(Header::read(&bytes[..123], true, false), Err(HeaderError::UnexpectedEof));
    assert_eq!(Header::read(&bytes[4..], false, false), Err(HeaderError::InvalidMagicBytes));
    let mut wrong = bytes.clone();
    put(&mut wrong[4..], 0, 123);
    assert_eq!(Header::read(&wrong, false, false), Err(HeaderError::InvalidHeaderSize(123)));
    assert!(Header::read(&wrong, false, true).is_ok());
    let mut wrong = bytes.clone();
    put(&mut wrong[4..], 72, 24);
    assert_eq!(Header::read(&wrong, false, false), Err(HeaderError::InvalidPixelFormatSize(24)));
    assert!(Header::read(&wrong, false, true).is_ok());
    let extended = dx10_file(28, 3, 1);
    assert_eq!(Header::read(&extended[..147], false, false), Err(HeaderError::UnexpectedEof));
    assert_eq!(
        Header::read(&dx10_file(120, 3, 1), false, false),
        Err(HeaderError::InvalidDxgiFormat(120))
    );
    assert_eq!(
        Header::read(&dx10_file(28, 1, 1), false, false),
        Err(HeaderError::InvalidResourceDimension(1))
    );
    assert_eq!(
        Header::read(&dx10_file(28, 5, 1), false, false),
        Err(HeaderError::InvalidResourceDimension(5))
    );
}

#[test]
fn decoder_from_the_bytes_of_a_file() {
    let bytes = dx9_file(16, 8);
    let decoder = DdsDecoder::new(&bytes).unwrap();
    assert_eq!(decoder.format(), Format::BC1_UNORM);
    assert_eq!(decoder.layout().data_len(), 4 * 2 * 8);
    assert!(!decoder.is_srgb());
    assert!(matches!(
        DdsDecoder::new(&bytes[4..]),
        Err(DecodeError::Header(HeaderError::InvalidMagicBytes))
    ));
    let mut options = Options::default();
    options.skip_magic_bytes = true;
    assert_eq!(DdsDecoder::new_with(&bytes[4..], &options).unwrap().format(), Format::BC1_UNORM);

    // an array size of 0 is repaired where the options allow it
    let zero = dx10_file(29, 3, 0);
    let decoder = DdsDecoder::new(&zero).unwrap();
    assert!(decoder.is_srgb());
    assert_eq!(decoder.layout().data_len(), 0);
    let mut options = Options::default();
    options.permissive = true;
    options.file_len = Some(148 + 16 * 8 * 4);
    let decoder = DdsDecoder::new_with(&zero, &options).unwrap();
    assert_eq!(decoder.layout().data_len(), 16 * 8 * 4);
    match decoder.header() {
        Header::Dx10(h) => assert_eq!(h.array_size, 1),
        Header::Dx9(_) => panic!("extension expected"),
    }
    assert!(matches!(DdsDecoder::new(&dx10_file(28, 3, 5000)), Err(DecodeError::ArraySizeTooBig(5000))));
}

#[test]
fn length_of_the_extension() {
    let dx9 = dx9_file(16, 8);
    assert_eq!(Header::extension_len(&dx9, 4), 0);
    assert_eq!(Header::extension_len(&dx9[4..], 0), 0);
    let dx10 = dx10_file(71, 3, 1);
    assert_eq!(Header::extension_len(&dx10, 4), 20);
    // the first 124 bytes of the header are enough to tell
    assert_eq!(Header::extension_len(&dx10[4..128], 0), 20);
    // the code counts only where the flags say that it is there
    let mut masked = dx10_file(71, 3, 1);
    put(&mut masked[4..], 76, 0x40);
    assert_eq!(Header::extension_len(&masked, 4), 0);
}
