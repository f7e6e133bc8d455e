use ddsd::error::DecodeError;
use ddsd::format::Format;
use ddsd::header::{AlphaMode, Dx10Header, Dx9Header, Dx9PixelFormat, DxgiFormat, FourCC, Header, ResourceDimension};
use ddsd::layout::{DataLayout, PixelInfo, SurfaceDescriptor, Texture, VolumeDescriptor};
use ddsd::{create_layout_and_fix_header, get_expected_data_len, DdsDecoder, Options};

fn rgba_header(resource_dimension: ResourceDimension, depth: Option<u32>, array_size: u32) -> Header {
    Header::Dx10(Dx10Header {
        height: 128,
        width: 256,
        depth,
        mipmap_count: 5,
        dxgi_format: DxgiFormat::R8G8B8A8_UNORM,
        resource_dimension,
        cube_map: false,
        array_size,
        alpha_mode: AlphaMode::Unknown,
    })
}

#[test]
fn iter_and_get_volume() {
    let header_volume = rgba_header(ResourceDimension::Texture3D, Some(4), 1);

    let layout = DataLayout::from_header(&header_volume).unwrap();
    assert!(matches!(layout, DataLayout::Volume(_)));
    assert!(layout.texture().is_none());
    assert!(layout.texture_array().is_none());

    let volume = layout.volume().unwrap();

    let from_iter: Vec<VolumeDescriptor> = volume.iter_mips();
    let from_get: Vec<VolumeDescriptor> = (0..u8::MAX).map_while(|i| volume.get(i)).collect();
    assert_eq!(from_iter, from_get);

    assert_eq!(volume.main(), volume.get(0).unwrap());

    for volume in volume.iter_mips() {
        let from_iter: Vec<SurfaceDescriptor> = volume.iter_depth_slices();
        let from_get: Vec<SurfaceDescriptor> =
            (0..u32::MAX).map_while(|i| volume.get_depth_slice(i)).collect();
        assert_eq!(from_iter, from_get);
    }
}

#[test]
fn levels_and_slices_of_a_volume() {
    let header_volume = rgba_header(ResourceDimension::Texture3D, Some(4), 1);
    let layout = DataLayout::from_header(&header_volume).unwrap();
    let volume = layout.volume().unwrap();
    // four slices, then two, then one for every further level
    let sizes = [(256u32, 128u32, 4u32), (128, 64, 2), (64, 32, 1), (32, 16, 1), (16, 8, 1)];
    let expected: u64 = sizes.iter().map(|(w, h, d)| *w as u64 * *h as u64 * *d as u64 * 4).sum();
    assert_eq!(volume.data_len(), expected);
    assert_eq!(layout.data_len(), expected);

    let levels = volume.iter_mips();
    assert_eq!(levels.len(), 5);
    let mut offset = 0u64;
    for (level, (w, h, d)) in levels.iter().zip(sizes) {
        assert_eq!((level.width, level.height, level.depth), (w, h, d));
        assert_eq!(level.offset, offset);
        assert_eq!(level.slice_len, w as u64 * h as u64 * 4);
        assert_eq!(level.data_len(), level.slice_len * d as u64);
        let slices = level.iter_depth_slices();
        assert_eq!(slices.len(), d as usize);
        for (i, slice) in slices.iter().enumerate() {
            assert_eq!((slice.width, slice.height), (w, h));
            assert_eq!(slice.offset, offset + i as u64 * level.slice_len);
            assert_eq!(slice.len, level.slice_len);
        }
        assert_eq!(level.get_depth_slice(d), None);
        offset += level.data_len();
    }
    assert_eq!(offset, expected);
    assert_eq!(volume.get(5), None);
}

#[test]
fn iter_and_get_texture_array() {
    let header_texture_array = rgba_header(ResourceDimension::Texture2D, None, 4);

    let layout = DataLayout::from_header(&header_texture_array).unwrap();
    assert!(matches!(layout, DataLayout::TextureArray(_)));
    assert!(layout.texture().is_none());
    assert!(layout.volume().is_none());

    let array = layout.texture_array().unwrap();
    assert!(array.len() == 4);
    assert!(!array.is_empty());

    let from_get: Vec<Texture> = (0..usize::MAX).map_while(|i| array.get(i)).collect();
    assert_eq!(from_get.len(), 4);

    for (i, texture) in from_get.iter().enumerate() {
        let from_iter: Vec<SurfaceDescriptor> = texture.iter_mips();
        let from_get: Vec<SurfaceDescriptor> = (0..u8::MAX).map_while(|i| texture.get(i)).collect();
        assert_eq!(from_iter, from_get);
        assert_eq!(from_iter.len(), 5);

        assert_eq!(texture.main(), texture.get(0).unwrap());
        assert_eq!(array.offset_of(i), Some(i as u64 * texture.data_len()));
    }
    assert_eq!(array.offset_of(4), None);
}

#[test]
fn empty_array() {
    let header_texture_array = rgba_header(ResourceDimension::Texture2D, None, 0);

    let layout = DataLayout::from_header(&header_texture_array).unwrap();
    let array = layout.texture_array().unwrap();

    assert!(array.len() == 0);
    assert!(array.is_empty());
    assert!(array.get(0).is_none());
    assert!(array.data_len() == 0);
}

#[test]
fn mipmap_chain_of_a_texture() {
    let header = rgba_header(ResourceDimension::Texture2D, None, 1);
    let layout = DataLayout::from_header(&header).unwrap();
    let texture = layout.texture().unwrap();
    let mips = texture.iter_mips();
    let sizes: Vec<(u32, u32)> = mips.iter().map(|s| (s.width, s.height)).collect();
    assert_eq!(sizes, [(256, 128), (128, 64), (64, 32), (32, 16), (16, 8)]);
    let mut offset = 0;
    for s in &mips {
        assert_eq!(s.offset, offset);
        assert_eq!(s.len, s.width as u64 * s.height as u64 * 4);
        offset += s.len;
    }
    assert_eq!(texture.data_len(), offset);
    assert_eq!(texture.get(5), None);
}

#[test]
fn block_formats_round_sizes_up() {
    let info = PixelInfo::from_format(Format::BC1_UNORM);
    assert_eq!(info.surface_bytes(16, 16), 16 * 8);
    assert_eq!(info.surface_bytes(5, 6), 4 * 8);
    assert_eq!(info.surface_bytes(1, 1), 8);
    assert_eq!(info.surface_bytes(0, 5), 0);
    // 5x5, 2x2, 1x1 and, as no size goes below 1, 1x1 again
    assert_eq!(info.chain_bytes(5, 5, 1, 4), Some(4 * 8 + 8 + 8 + 8));
    let info = PixelInfo::from_format(Format::R1_UNORM);
    assert_eq!(info.surface_bytes(9, 2), 4);
    let info = PixelInfo::from_format(Format::R32G32B32A32_FLOAT);
    assert_eq!(info.chain_bytes(u32::MAX, u32::MAX, u32::MAX, 1), None);
}

#[test]
fn cube_maps_and_volumes_of_dx9() {
    let with = |depth: Option<u32>, cube_map: bool| {
        Header::Dx9(Dx9Header {
            height: 8,
            width: 8,
            depth,
            mipmap_count: 1,
            pixel_format: Dx9PixelFormat::FourCC(FourCC(FourCC::DXT1)),
            cube_map,
        })
    };
    let layout = DataLayout::from_header(&with(None, true)).unwrap();
    assert_eq!(layout.texture_array().unwrap().len(), 6);
    assert_eq!(layout.data_len(), 6 * 4 * 8);
    let layout = DataLayout::from_header(&with(Some(3), false)).unwrap();
    assert_eq!(layout.volume().unwrap().data_len(), 3 * 4 * 8);
    let layout = DataLayout::from_header(&with(None, false)).unwrap();
    assert_eq!(layout.texture().unwrap().data_len(), 4 * 8);
}

#[test]
fn layout_errors() {
    let mut header = rgba_header(ResourceDimension::Texture2D, None, 1);
    if let Header::Dx10(h) = &mut header {
        h.mipmap_count = 0;
    }
    assert_eq!(DataLayout::from_header(&header), Err(DecodeError::UnsupportedMipmapCount(0)));
    if let Header::Dx10(h) = &mut header {
        h.mipmap_count = 33;
    }
    assert_eq!(DataLayout::from_header(&header), Err(DecodeError::UnsupportedMipmapCount(33)));
    if let Header::Dx10(h) = &mut header {
        h.mipmap_count = 1;
        h.width = u32::MAX;
        h.height = u32::MAX;
        h.array_size = u32::MAX;
    }
    assert_eq!(DataLayout::from_header(&header), Err(DecodeError::DataLayoutTooBig));
}

#[test]
fn decoder_from_a_header() {
    let header = rgba_header(ResourceDimension::Texture2D, None, 1);
    let decoder = DdsDecoder::from_header(header).unwrap();
    assert_eq!(*decoder.header(), header);
    assert_eq!(decoder.format(), Format::R8G8B8A8_UNORM);
    assert_eq!(*decoder.layout(), DataLayout::from_header(&header).unwrap());
    assert!(!decoder.is_srgb());

    let mut srgb = header;
    if let Header::Dx10(h) = &mut srgb {
        h.dxgi_format = DxgiFormat::R8G8B8A8_UNORM_SRGB;
    }
    assert!(DdsDecoder::from_header(srgb).unwrap().is_srgb());

    let many = rgba_header(ResourceDimension::Texture2D, None, 4097);
    assert!(matches!(DdsDecoder::from_header(many), Err(DecodeError::ArraySizeTooBig(4097))));
    let mut options = Options::default();
    options.max_array_size = u32::MAX;
    assert!(DdsDecoder::from_header_with(many, &options).is_ok());
    assert_eq!(
        (options.skip_magic_bytes, options.permissive, options.file_len),
        (false, false, None)
    );
    assert_eq!(Options::default().max_array_size, 4096);
}

fn data_len(width: u32, height: u32, mipmaps: u32) -> u64 {
    (0..mipmaps).map(|i| (width >> i).max(1) as u64 * (height >> i).max(1) as u64 * 4).sum()
}

fn permissive(file_len: u64) -> Options {
    let mut options = Options::default();
    options.permissive = true;
    options.file_len = Some(file_len);
    options
}

#[test]
fn expected_data_length() {
    let dx10 = rgba_header(ResourceDimension::Texture2D, None, 1);
    assert_eq!(get_expected_data_len(&dx10, &permissive(148)), Some(0));
    assert_eq!(get_expected_data_len(&dx10, &permissive(1148)), Some(1000));
    assert_eq!(get_expected_data_len(&dx10, &permissive(147)), None);
    assert_eq!(get_expected_data_len(&dx10, &Options::default()), None);
    let dx9 = Header::Dx9(Dx9Header {
        height: 8,
        width: 8,
        depth: None,
        mipmap_count: 1,
        pixel_format: Dx9PixelFormat::FourCC(FourCC(FourCC::DXT1)),
        cube_map: false,
    });
    assert_eq!(get_expected_data_len(&dx9, &permissive(128)), Some(0));
}

#[test]
fn repairs_of_a_header() {
    let info = PixelInfo::from_format(Format::R8G8B8A8_UNORM);
    let good = rgba_header(ResourceDimension::Texture2D, None, 1);

    // a header that fits stays as it is
    let mut header = good;
    let layout = create_layout_and_fix_header(&mut header, info, &permissive(148 + data_len(256, 128, 5)));
    assert_eq!(header, good);
    assert_eq!(layout.unwrap().data_len(), data_len(256, 128, 5));

    // without a file length nothing is repaired
    let mut header = rgba_header(ResourceDimension::Texture2D, None, 0);
    let mut options = Options::default();
    options.permissive = true;
    let layout = create_layout_and_fix_header(&mut header, info, &options);
    assert_eq!(header, rgba_header(ResourceDimension::Texture2D, None, 0));
    assert_eq!(layout.unwrap().data_len(), 0);

    // an array size of 0 becomes 1
    let mut header = rgba_header(ResourceDimension::Texture2D, None, 0);
    let layout = create_layout_and_fix_header(&mut header, info, &permissive(148 + data_len(256, 128, 5)));
    assert_eq!(header, good);
    assert!(layout.unwrap().texture().is_some());

    // even where the header does not fit afterwards
    let mut header = rgba_header(ResourceDimension::Texture2D, None, 0);
    let layout = create_layout_and_fix_header(&mut header, info, &permissive(148 + 12345));
    assert_eq!(header, good);
    assert_eq!(layout.unwrap().data_len(), data_len(256, 128, 5));

    // a wrong number of mipmap levels is guessed: none, a full chain, one
    // less, one more
    for (wrong, right) in [(5u32, 1u32), (5, 9), (5, 4), (5, 6)] {
        let mut header = good;
        if let Header::Dx10(h) = &mut header {
            h.mipmap_count = wrong;
        }
        let layout =
            create_layout_and_fix_header(&mut header, info, &permissive(148 + data_len(256, 128, right)));
        assert_eq!(header.mipmap_count(), right);
        assert_eq!(layout.unwrap().data_len(), data_len(256, 128, right));
    }

    // a cube map that declares six elements holds one
    let mut cube = good;
    if let Header::Dx10(h) = &mut cube {
        h.cube_map = true;
        h.array_size = 6;
    }
    let mut header = cube;
    let layout =
        create_layout_and_fix_header(&mut header, info, &permissive(148 + 6 * data_len(256, 128, 5)));
    if let Header::Dx10(h) = &header {
        assert_eq!(h.array_size, 1);
    }
    assert_eq!(layout.unwrap().texture_array().unwrap().len(), 6);

    // a header that cannot be repaired keeps its layout
    let mut header = good;
    let layout = create_layout_and_fix_header(&mut header, info, &permissive(148 + 7));
    assert_eq!(header, good);
    assert_eq!(layout.unwrap().data_len(), data_len(256, 128, 5));

    // a decoder repairs the header where the options allow it
    let zero = rgba_header(ResourceDimension::Texture2D, None, 0);
    let decoder = DdsDecoder::from_header_with(zero, &permissive(148 + data_len(256, 128, 5))).unwrap();
    assert_eq!(*decoder.header(), good);
    let decoder = DdsDecoder::from_header(zero).unwrap();
    assert_eq!(*decoder.header(), zero);
}
