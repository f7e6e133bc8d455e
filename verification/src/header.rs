//! The parts of a DDS header that name a pixel format and give the
//! dimensions of the stored surfaces.

use vstd::prelude::*;

verus! {

/// A pixel format as named by the DX10 header extension.
#[derive(Debug, Clone, Copy, PartialEq, Eq, Structural, Hash)]
#[allow(non_camel_case_types)]
pub enum DxgiFormat {
    UNKNOWN,
    R32G32B32A32_TYPELESS,
    R32G32B32A32_FLOAT,
    R32G32B32A32_UINT,
    R32G32B32A32_SINT,
    R32G32B32_TYPELESS,
    R32G32B32_FLOAT,
    R32G32B32_UINT,
    R32G32B32_SINT,
    R16G16B16A16_TYPELESS,
    R16G16B16A16_FLOAT,
    R16G16B16A16_UNORM,
    R16G16B16A16_UINT,
    R16G16B16A16_SNORM,
    R16G16B16A16_SINT,
    R32G32_TYPELESS,
    R32G32_FLOAT,
    R32G32_UINT,
    R32G32_SINT,
    R32G8X24_TYPELESS,
    D32_FLOAT_S8X24_UINT,
    R32_FLOAT_X8X24_TYPELESS,
    X32_TYPELESS_G8X24_UINT,
    R10G10B10A2_TYPELESS,
    R10G10B10A2_UNORM,
    R10G10B10A2_UINT,
    R11G11B10_FLOAT,
    R8G8B8A8_TYPELESS,
    R8G8B8A8_UNORM,
    R8G8B8A8_UNORM_SRGB,
    R8G8B8A8_UINT,
    R8G8B8A8_SNORM,
    R8G8B8A8_SINT,
    R16G16_TYPELESS,
    R16G16_FLOAT,
    R16G16_UNORM,
    R16G16_UINT,
    R16G16_SNORM,
    R16G16_SINT,
    R32_TYPELESS,
    D32_FLOAT,
    R32_FLOAT,
    R32_UINT,
    R32_SINT,
    R24G8_TYPELESS,
    D24_UNORM_S8_UINT,
    R24_UNORM_X8_TYPELESS,
    X24_TYPELESS_G8_UINT,
    R8G8_TYPELESS,
    R8G8_UNORM,
    R8G8_UINT,
    R8G8_SNORM,
    R8G8_SINT,
    R16_TYPELESS,
    R16_FLOAT,
    D16_UNORM,
    R16_UNORM,
    R16_UINT,
    R16_SNORM,
    R16_SINT,
    R8_TYPELESS,
    R8_UNORM,
    R8_UINT,
    R8_SNORM,
    R8_SINT,
    A8_UNORM,
    R1_UNORM,
    R9G9B9E5_SHAREDEXP,
    R8G8_B8G8_UNORM,
    G8R8_G8B8_UNORM,
    BC1_TYPELESS,
    BC1_UNORM,
    BC1_UNORM_SRGB,
    BC2_TYPELESS,
    BC2_UNORM,
    BC2_UNORM_SRGB,
    BC3_TYPELESS,
    BC3_UNORM,
    BC3_UNORM_SRGB,
    BC4_TYPELESS,
    BC4_UNORM,
    BC4_SNORM,
    BC5_TYPELESS,
    BC5_UNORM,
    BC5_SNORM,
    B5G6R5_UNORM,
    B5G5R5A1_UNORM,
    B8G8R8A8_UNORM,
    B8G8R8X8_UNORM,
    R10G10B10_XR_BIAS_A2_UNORM,
    B8G8R8A8_TYPELESS,
    B8G8R8A8_UNORM_SRGB,
    B8G8R8X8_TYPELESS,
    B8G8R8X8_UNORM_SRGB,
    BC6H_TYPELESS,
    BC6H_UF16,
    BC6H_SF16,
    BC7_TYPELESS,
    BC7_UNORM,
    BC7_UNORM_SRGB,
    AYUV,
    Y410,
    Y416,
    NV12,
    P010,
    P016,
    OPAQUE_420,
    YUY2,
    Y210,
    Y216,
    NV11,
    AI44,
    IA44,
    P8,
    A8P8,
    B4G4R4A4_UNORM,
    P208,
    V208,
    V408,
    SAMPLER_FEEDBACK_MIN_MIP_OPAQUE,
    SAMPLER_FEEDBACK_MIP_REGION_USED_OPAQUE,
    A4B4G4R4_UNORM,
}

impl DxgiFormat {
    /// The number that stands for the format in a file.
    pub open spec fn value_spec(self) -> u32 {
        match self {
            DxgiFormat::UNKNOWN => 0,
            DxgiFormat::R32G32B32A32_TYPELESS => 1,
            DxgiFormat::R32G32B32A32_FLOAT => 2,
            DxgiFormat::R32G32B32A32_UINT => 3,
            DxgiFormat::R32G32B32A32_SINT => 4,
            DxgiFormat::R32G32B32_TYPELESS => 5,
            DxgiFormat::R32G32B32_FLOAT => 6,
            DxgiFormat::R32G32B32_UINT => 7,
            DxgiFormat::R32G32B32_SINT => 8,
            DxgiFormat::R16G16B16A16_TYPELESS => 9,
            DxgiFormat::R16G16B16A16_FLOAT => 10,
            DxgiFormat::R16G16B16A16_UNORM => 11,
            DxgiFormat::R16G16B16A16_UINT => 12,
            DxgiFormat::R16G16B16A16_SNORM => 13,
            DxgiFormat::R16G16B16A16_SINT => 14,
            DxgiFormat::R32G32_TYPELESS => 15,
            DxgiFormat::R32G32_FLOAT => 16,
            DxgiFormat::R32G32_UINT => 17,
            DxgiFormat::R32G32_SINT => 18,
            DxgiFormat::R32G8X24_TYPELESS => 19,
            DxgiFormat::D32_FLOAT_S8X24_UINT => 20,
            DxgiFormat::R32_FLOAT_X8X24_TYPELESS => 21,
            DxgiFormat::X32_TYPELESS_G8X24_UINT => 22,
            DxgiFormat::R10G10B10A2_TYPELESS => 23,
            DxgiFormat::R10G10B10A2_UNORM => 24,
            DxgiFormat::R10G10B10A2_UINT => 25,
            DxgiFormat::R11G11B10_FLOAT => 26,
            DxgiFormat::R8G8B8A8_TYPELESS => 27,
            DxgiFormat::R8G8B8A8_UNORM => 28,
            DxgiFormat::R8G8B8A8_UNORM_SRGB => 29,
            DxgiFormat::R8G8B8A8_UINT => 30,
            DxgiFormat::R8G8B8A8_SNORM => 31,
            DxgiFormat::R8G8B8A8_SINT => 32,
            DxgiFormat::R16G16_TYPELESS => 33,
            DxgiFormat::R16G16_FLOAT => 34,
            DxgiFormat::R16G16_UNORM => 35,
            DxgiFormat::R16G16_UINT => 36,
            DxgiFormat::R16G16_SNORM => 37,
            DxgiFormat::R16G16_SINT => 38,
            DxgiFormat::R32_TYPELESS => 39,
            DxgiFormat::D32_FLOAT => 40,
            DxgiFormat::R32_FLOAT => 41,
            DxgiFormat::R32_UINT => 42,
            DxgiFormat::R32_SINT => 43,
            DxgiFormat::R24G8_TYPELESS => 44,
            DxgiFormat::D24_UNORM_S8_UINT => 45,
            DxgiFormat::R24_UNORM_X8_TYPELESS => 46,
            DxgiFormat::X24_TYPELESS_G8_UINT => 47,
            DxgiFormat::R8G8_TYPELESS => 48,
            DxgiFormat::R8G8_UNORM => 49,
            DxgiFormat::R8G8_UINT => 50,
            DxgiFormat::R8G8_SNORM => 51,
            DxgiFormat::R8G8_SINT => 52,
            DxgiFormat::R16_TYPELESS => 53,
            DxgiFormat::R16_FLOAT => 54,
            DxgiFormat::D16_UNORM => 55,
            DxgiFormat::R16_UNORM => 56,
            DxgiFormat::R16_UINT => 57,
            DxgiFormat::R16_SNORM => 58,
            DxgiFormat::R16_SINT => 59,
            DxgiFormat::R8_TYPELESS => 60,
            DxgiFormat::R8_UNORM => 61,
            DxgiFormat::R8_UINT => 62,
            DxgiFormat::R8_SNORM => 63,
            DxgiFormat::R8_SINT => 64,
            DxgiFormat::A8_UNORM => 65,
            DxgiFormat::R1_UNORM => 66,
            DxgiFormat::R9G9B9E5_SHAREDEXP => 67,
            DxgiFormat::R8G8_B8G8_UNORM => 68,
            DxgiFormat::G8R8_G8B8_UNORM => 69,
            DxgiFormat::BC1_TYPELESS => 70,
            DxgiFormat::BC1_UNORM => 71,
            DxgiFormat::BC1_UNORM_SRGB => 72,
            DxgiFormat::BC2_TYPELESS => 73,
            DxgiFormat::BC2_UNORM => 74,
            DxgiFormat::BC2_UNORM_SRGB => 75,
            DxgiFormat::BC3_TYPELESS => 76,
            DxgiFormat::BC3_UNORM => 77,
            DxgiFormat::BC3_UNORM_SRGB => 78,
            DxgiFormat::BC4_TYPELESS => 79,
            DxgiFormat::BC4_UNORM => 80,
            DxgiFormat::BC4_SNORM => 81,
            DxgiFormat::BC5_TYPELESS => 82,
            DxgiFormat::BC5_UNORM => 83,
            DxgiFormat::BC5_SNORM => 84,
            DxgiFormat::B5G6R5_UNORM => 85,
            DxgiFormat::B5G5R5A1_UNORM => 86,
            DxgiFormat::B8G8R8A8_UNORM => 87,
            DxgiFormat::B8G8R8X8_UNORM => 88,
            DxgiFormat::R10G10B10_XR_BIAS_A2_UNORM => 89,
            DxgiFormat::B8G8R8A8_TYPELESS => 90,
            DxgiFormat::B8G8R8A8_UNORM_SRGB => 91,
            DxgiFormat::B8G8R8X8_TYPELESS => 92,
            DxgiFormat::B8G8R8X8_UNORM_SRGB => 93,
            DxgiFormat::BC6H_TYPELESS => 94,
            DxgiFormat::BC6H_UF16 => 95,
            DxgiFormat::BC6H_SF16 => 96,
            DxgiFormat::BC7_TYPELESS => 97,
            DxgiFormat::BC7_UNORM => 98,
            DxgiFormat::BC7_UNORM_SRGB => 99,
            DxgiFormat::AYUV => 100,
            DxgiFormat::Y410 => 101,
            DxgiFormat::Y416 => 102,
            DxgiFormat::NV12 => 103,
            DxgiFormat::P010 => 104,
            DxgiFormat::P016 => 105,
            DxgiFormat::OPAQUE_420 => 106,
            DxgiFormat::YUY2 => 107,
            DxgiFormat::Y210 => 108,
            DxgiFormat::Y216 => 109,
            DxgiFormat::NV11 => 110,
            DxgiFormat::AI44 => 111,
            DxgiFormat::IA44 => 112,
            DxgiFormat::P8 => 113,
            DxgiFormat::A8P8 => 114,
            DxgiFormat::B4G4R4A4_UNORM => 115,
            DxgiFormat::P208 => 130,
            DxgiFormat::V208 => 131,
            DxgiFormat::V408 => 132,
            DxgiFormat::SAMPLER_FEEDBACK_MIN_MIP_OPAQUE => 189,
            DxgiFormat::SAMPLER_FEEDBACK_MIP_REGION_USED_OPAQUE => 190,
            DxgiFormat::A4B4G4R4_UNORM => 191,
        }
    }

    /// The number that stands for the format in a file.
    pub fn value(self) -> (v: u32)
        ensures
            v == self.value_spec(),
    {
        match self {
            DxgiFormat::UNKNOWN => 0,
            DxgiFormat::R32G32B32A32_TYPELESS => 1,
            DxgiFormat::R32G32B32A32_FLOAT => 2,
            DxgiFormat::R32G32B32A32_UINT => 3,
            DxgiFormat::R32G32B32A32_SINT => 4,
            DxgiFormat::R32G32B32_TYPELESS => 5,
            DxgiFormat::R32G32B32_FLOAT => 6,
            DxgiFormat::R32G32B32_UINT => 7,
            DxgiFormat::R32G32B32_SINT => 8,
            DxgiFormat::R16G16B16A16_TYPELESS => 9,
            DxgiFormat::R16G16B16A16_FLOAT => 10,
            DxgiFormat::R16G16B16A16_UNORM => 11,
            DxgiFormat::R16G16B16A16_UINT => 12,
            DxgiFormat::R16G16B16A16_SNORM => 13,
            DxgiFormat::R16G16B16A16_SINT => 14,
            DxgiFormat::R32G32_TYPELESS => 15,
            DxgiFormat::R32G32_FLOAT => 16,
            DxgiFormat::R32G32_UINT => 17,
            DxgiFormat::R32G32_SINT => 18,
            DxgiFormat::R32G8X24_TYPELESS => 19,
            DxgiFormat::D32_FLOAT_S8X24_UINT => 20,
            DxgiFormat::R32_FLOAT_X8X24_TYPELESS => 21,
            DxgiFormat::X32_TYPELESS_G8X24_UINT => 22,
            DxgiFormat::R10G10B10A2_TYPELESS => 23,
            DxgiFormat::R10G10B10A2_UNORM => 24,
            DxgiFormat::R10G10B10A2_UINT => 25,
            DxgiFormat::R11G11B10_FLOAT => 26,
            DxgiFormat::R8G8B8A8_TYPELESS => 27,
            DxgiFormat::R8G8B8A8_UNORM => 28,
            DxgiFormat::R8G8B8A8_UNORM_SRGB => 29,
            DxgiFormat::R8G8B8A8_UINT => 30,
            DxgiFormat::R8G8B8A8_SNORM => 31,
            DxgiFormat::R8G8B8A8_SINT => 32,
            DxgiFormat::R16G16_TYPELESS => 33,
            DxgiFormat::R16G16_FLOAT => 34,
            DxgiFormat::R16G16_UNORM => 35,
            DxgiFormat::R16G16_UINT => 36,
            DxgiFormat::R16G16_SNORM => 37,
            DxgiFormat::R16G16_SINT => 38,
            DxgiFormat::R32_TYPELESS => 39,
            DxgiFormat::D32_FLOAT => 40,
            DxgiFormat::R32_FLOAT => 41,
            DxgiFormat::R32_UINT => 42,
            DxgiFormat::R32_SINT => 43,
            DxgiFormat::R24G8_TYPELESS => 44,
            DxgiFormat::D24_UNORM_S8_UINT => 45,
            DxgiFormat::R24_UNORM_X8_TYPELESS => 46,
            DxgiFormat::X24_TYPELESS_G8_UINT => 47,
            DxgiFormat::R8G8_TYPELESS => 48,
            DxgiFormat::R8G8_UNORM => 49,
            DxgiFormat::R8G8_UINT => 50,
            DxgiFormat::R8G8_SNORM => 51,
            DxgiFormat::R8G8_SINT => 52,
            DxgiFormat::R16_TYPELESS => 53,
            DxgiFormat::R16_FLOAT => 54,
            DxgiFormat::D16_UNORM => 55,
            DxgiFormat::R16_UNORM => 56,
            DxgiFormat::R16_UINT => 57,
            DxgiFormat::R16_SNORM => 58,
            DxgiFormat::R16_SINT => 59,
            DxgiFormat::R8_TYPELESS => 60,
            DxgiFormat::R8_UNORM => 61,
            DxgiFormat::R8_UINT => 62,
            DxgiFormat::R8_SNORM => 63,
            DxgiFormat::R8_SINT => 64,
            DxgiFormat::A8_UNORM => 65,
            DxgiFormat::R1_UNORM => 66,
            DxgiFormat::R9G9B9E5_SHAREDEXP => 67,
            DxgiFormat::R8G8_B8G8_UNORM => 68,
            DxgiFormat::G8R8_G8B8_UNORM => 69,
            DxgiFormat::BC1_TYPELESS => 70,
            DxgiFormat::BC1_UNORM => 71,
            DxgiFormat::BC1_UNORM_SRGB => 72,
            DxgiFormat::BC2_TYPELESS => 73,
            DxgiFormat::BC2_UNORM => 74,
            DxgiFormat::BC2_UNORM_SRGB => 75,
            DxgiFormat::BC3_TYPELESS => 76,
            DxgiFormat::BC3_UNORM => 77,
            DxgiFormat::BC3_UNORM_SRGB => 78,
            DxgiFormat::BC4_TYPELESS => 79,
            DxgiFormat::BC4_UNORM => 80,
            DxgiFormat::BC4_SNORM => 81,
            DxgiFormat::BC5_TYPELESS => 82,
            DxgiFormat::BC5_UNORM => 83,
            DxgiFormat::BC5_SNORM => 84,
            DxgiFormat::B5G6R5_UNORM => 85,
            DxgiFormat::B5G5R5A1_UNORM => 86,
            DxgiFormat::B8G8R8A8_UNORM => 87,
            DxgiFormat::B8G8R8X8_UNORM => 88,
            DxgiFormat::R10G10B10_XR_BIAS_A2_UNORM => 89,
            DxgiFormat::B8G8R8A8_TYPELESS => 90,
            DxgiFormat::B8G8R8A8_UNORM_SRGB => 91,
            DxgiFormat::B8G8R8X8_TYPELESS => 92,
            DxgiFormat::B8G8R8X8_UNORM_SRGB => 93,
            DxgiFormat::BC6H_TYPELESS => 94,
            DxgiFormat::BC6H_UF16 => 95,
            DxgiFormat::BC6H_SF16 => 96,
            DxgiFormat::BC7_TYPELESS => 97,
            DxgiFormat::BC7_UNORM => 98,
            DxgiFormat::BC7_UNORM_SRGB => 99,
            DxgiFormat::AYUV => 100,
            DxgiFormat::Y410 => 101,
            DxgiFormat::Y416 => 102,
            DxgiFormat::NV12 => 103,
            DxgiFormat::P010 => 104,
            DxgiFormat::P016 => 105,
            DxgiFormat::OPAQUE_420 => 106,
            DxgiFormat::YUY2 => 107,
            DxgiFormat::Y210 => 108,
            DxgiFormat::Y216 => 109,
            DxgiFormat::NV11 => 110,
            DxgiFormat::AI44 => 111,
            DxgiFormat::IA44 => 112,
            DxgiFormat::P8 => 113,
            DxgiFormat::A8P8 => 114,
            DxgiFormat::B4G4R4A4_UNORM => 115,
            DxgiFormat::P208 => 130,
            DxgiFormat::V208 => 131,
            DxgiFormat::V408 => 132,
            DxgiFormat::SAMPLER_FEEDBACK_MIN_MIP_OPAQUE => 189,
            DxgiFormat::SAMPLER_FEEDBACK_MIP_REGION_USED_OPAQUE => 190,
            DxgiFormat::A4B4G4R4_UNORM => 191,
        }
    }

    /// The format that a number in a file stands for, if there is one.
    pub fn from_value(v: u32) -> (r: Option<DxgiFormat>)
        ensures
            match r {
                Some(d) => d.value_spec() == v,
                None => forall|d: DxgiFormat| d.value_spec() != v,
            },
    {
        match v {
            0 => Some(DxgiFormat::UNKNOWN),
            1 => Some(DxgiFormat::R32G32B32A32_TYPELESS),
            2 => Some(DxgiFormat::R32G32B32A32_FLOAT),
            3 => Some(DxgiFormat::R32G32B32A32_UINT),
            4 => Some(DxgiFormat::R32G32B32A32_SINT),
            5 => Some(DxgiFormat::R32G32B32_TYPELESS),
            6 => Some(DxgiFormat::R32G32B32_FLOAT),
            7 => Some(DxgiFormat::R32G32B32_UINT),
            8 => Some(DxgiFormat::R32G32B32_SINT),
            9 => Some(DxgiFormat::R16G16B16A16_TYPELESS),
            10 => Some(DxgiFormat::R16G16B16A16_FLOAT),
            11 => Some(DxgiFormat::R16G16B16A16_UNORM),
            12 => Some(DxgiFormat::R16G16B16A16_UINT),
            13 => Some(DxgiFormat::R16G16B16A16_SNORM),
            14 => Some(DxgiFormat::R16G16B16A16_SINT),
            15 => Some(DxgiFormat::R32G32_TYPELESS),
            16 => Some(DxgiFormat::R32G32_FLOAT),
            17 => Some(DxgiFormat::R32G32_UINT),
            18 => Some(DxgiFormat::R32G32_SINT),
            19 => Some(DxgiFormat::R32G8X24_TYPELESS),
            20 => Some(DxgiFormat::D32_FLOAT_S8X24_UINT),
            21 => Some(DxgiFormat::R32_FLOAT_X8X24_TYPELESS),
            22 => Some(DxgiFormat::X32_TYPELESS_G8X24_UINT),
            23 => Some(DxgiFormat::R10G10B10A2_TYPELESS),
            24 => Some(DxgiFormat::R10G10B10A2_UNORM),
            25 => Some(DxgiFormat::R10G10B10A2_UINT),
            26 => Some(DxgiFormat::R11G11B10_FLOAT),
            27 => Some(DxgiFormat::R8G8B8A8_TYPELESS),
            28 => Some(DxgiFormat::R8G8B8A8_UNORM),
            29 => Some(DxgiFormat::R8G8B8A8_UNORM_SRGB),
            30 => Some(DxgiFormat::R8G8B8A8_UINT),
            31 => Some(DxgiFormat::R8G8B8A8_SNORM),
            32 => Some(DxgiFormat::R8G8B8A8_SINT),
            33 => Some(DxgiFormat::R16G16_TYPELESS),
            34 => Some(DxgiFormat::R16G16_FLOAT),
            35 => Some(DxgiFormat::R16G16_UNORM),
            36 => Some(DxgiFormat::R16G16_UINT),
            37 => Some(DxgiFormat::R16G16_SNORM),
            38 => Some(DxgiFormat::R16G16_SINT),
            39 => Some(DxgiFormat::R32_TYPELESS),
            40 => Some(DxgiFormat::D32_FLOAT),
            41 => Some(DxgiFormat::R32_FLOAT),
            42 => Some(DxgiFormat::R32_UINT),
            43 => Some(DxgiFormat::R32_SINT),
            44 => Some(DxgiFormat::R24G8_TYPELESS),
            45 => Some(DxgiFormat::D24_UNORM_S8_UINT),
            46 => Some(DxgiFormat::R24_UNORM_X8_TYPELESS),
            47 => Some(DxgiFormat::X24_TYPELESS_G8_UINT),
            48 => Some(DxgiFormat::R8G8_TYPELESS),
            49 => Some(DxgiFormat::R8G8_UNORM),
            50 => Some(DxgiFormat::R8G8_UINT),
            51 => Some(DxgiFormat::R8G8_SNORM),
            52 => Some(DxgiFormat::R8G8_SINT),
            53 => Some(DxgiFormat::R16_TYPELESS),
            54 => Some(DxgiFormat::R16_FLOAT),
            55 => Some(DxgiFormat::D16_UNORM),
            56 => Some(DxgiFormat::R16_UNORM),
            57 => Some(DxgiFormat::R16_UINT),
            58 => Some(DxgiFormat::R16_SNORM),
            59 => Some(DxgiFormat::R16_SINT),
            60 => Some(DxgiFormat::R8_TYPELESS),
            61 => Some(DxgiFormat::R8_UNORM),
            62 => Some(DxgiFormat::R8_UINT),
            63 => Some(DxgiFormat::R8_SNORM),
            64 => Some(DxgiFormat::R8_SINT),
            65 => Some(DxgiFormat::A8_UNORM),
            66 => Some(DxgiFormat::R1_UNORM),
            67 => Some(DxgiFormat::R9G9B9E5_SHAREDEXP),
            68 => Some(DxgiFormat::R8G8_B8G8_UNORM),
            69 => Some(DxgiFormat::G8R8_G8B8_UNORM),
            70 => Some(DxgiFormat::BC1_TYPELESS),
            71 => Some(DxgiFormat::BC1_UNORM),
            72 => Some(DxgiFormat::BC1_UNORM_SRGB),
            73 => Some(DxgiFormat::BC2_TYPELESS),
            74 => Some(DxgiFormat::BC2_UNORM),
            75 => Some(DxgiFormat::BC2_UNORM_SRGB),
            76 => Some(DxgiFormat::BC3_TYPELESS),
            77 => Some(DxgiFormat::BC3_UNORM),
            78 => Some(DxgiFormat::BC3_UNORM_SRGB),
            79 => Some(DxgiFormat::BC4_TYPELESS),
            80 => Some(DxgiFormat::BC4_UNORM),
            81 => Some(DxgiFormat::BC4_SNORM),
            82 => Some(DxgiFormat::BC5_TYPELESS),
            83 => Some(DxgiFormat::BC5_UNORM),
            84 => Some(DxgiFormat::BC5_SNORM),
            85 => Some(DxgiFormat::B5G6R5_UNORM),
            86 => Some(DxgiFormat::B5G5R5A1_UNORM),
            87 => Some(DxgiFormat::B8G8R8A8_UNORM),
            88 => Some(DxgiFormat::B8G8R8X8_UNORM),
            89 => Some(DxgiFormat::R10G10B10_XR_BIAS_A2_UNORM),
            90 => Some(DxgiFormat::B8G8R8A8_TYPELESS),
            91 => Some(DxgiFormat::B8G8R8A8_UNORM_SRGB),
            92 => Some(DxgiFormat::B8G8R8X8_TYPELESS),
            93 => Some(DxgiFormat::B8G8R8X8_UNORM_SRGB),
            94 => Some(DxgiFormat::BC6H_TYPELESS),
            95 => Some(DxgiFormat::BC6H_UF16),
            96 => Some(DxgiFormat::BC6H_SF16),
            97 => Some(DxgiFormat::BC7_TYPELESS),
            98 => Some(DxgiFormat::BC7_UNORM),
            99 => Some(DxgiFormat::BC7_UNORM_SRGB),
            100 => Some(DxgiFormat::AYUV),
            101 => Some(DxgiFormat::Y410),
            102 => Some(DxgiFormat::Y416),
            103 => Some(DxgiFormat::NV12),
            104 => Some(DxgiFormat::P010),
            105 => Some(DxgiFormat::P016),
            106 => Some(DxgiFormat::OPAQUE_420),
            107 => Some(DxgiFormat::YUY2),
            108 => Some(DxgiFormat::Y210),
            109 => Some(DxgiFormat::Y216),
            110 => Some(DxgiFormat::NV11),
            111 => Some(DxgiFormat::AI44),
            112 => Some(DxgiFormat::IA44),
            113 => Some(DxgiFormat::P8),
            114 => Some(DxgiFormat::A8P8),
            115 => Some(DxgiFormat::B4G4R4A4_UNORM),
            130 => Some(DxgiFormat::P208),
            131 => Some(DxgiFormat::V208),
            132 => Some(DxgiFormat::V408),
            189 => Some(DxgiFormat::SAMPLER_FEEDBACK_MIN_MIP_OPAQUE),
            190 => Some(DxgiFormat::SAMPLER_FEEDBACK_MIP_REGION_USED_OPAQUE),
            191 => Some(DxgiFormat::A4B4G4R4_UNORM),
            _ => None,
        }
    }

    /// Whether the format tags its colours as sRGB.
    pub open spec fn is_srgb_spec(self) -> bool {
        match self {
            DxgiFormat::R8G8B8A8_UNORM_SRGB
            | DxgiFormat::BC1_UNORM_SRGB
            | DxgiFormat::BC2_UNORM_SRGB
            | DxgiFormat::BC3_UNORM_SRGB
            | DxgiFormat::B8G8R8A8_UNORM_SRGB
            | DxgiFormat::B8G8R8X8_UNORM_SRGB
            | DxgiFormat::BC7_UNORM_SRGB => true,
            _ => false,
        }
    }

    /// Whether the format tags its colours as sRGB.
    pub fn is_srgb(self) -> (b: bool)
        ensures
            b == self.is_srgb_spec(),
    {
        match self {
            DxgiFormat::R8G8B8A8_UNORM_SRGB
            | DxgiFormat::BC1_UNORM_SRGB
            | DxgiFormat::BC2_UNORM_SRGB
            | DxgiFormat::BC3_UNORM_SRGB
            | DxgiFormat::B8G8R8A8_UNORM_SRGB
            | DxgiFormat::B8G8R8X8_UNORM_SRGB
            | DxgiFormat::BC7_UNORM_SRGB => true,
            _ => false,
        }
    }
}

/// A four-character code: four bytes read as a little-endian number. Some
/// writers store a small number in its place.
#[derive(Debug, Clone, Copy, PartialEq, Eq, Structural, Hash)]
pub struct FourCC(pub u32);

impl FourCC {
    /// The tag `DXT1` as a number.
    pub const DXT1: u32 = 0x31545844;

    /// The tag `DXT2` as a number.
    pub const DXT2: u32 = 0x32545844;

    /// The tag `DXT3` as a number.
    pub const DXT3: u32 = 0x33545844;

    /// The tag `DXT4` as a number.
    pub const DXT4: u32 = 0x34545844;

    /// The tag `DXT5` as a number.
    pub const DXT5: u32 = 0x35545844;

    /// The tag `RXGB` as a number.
    pub const RXGB: u32 = 0x42475852;

    /// The tag `ATI1` as a number.
    pub const ATI1: u32 = 0x31495441;

    /// The tag `BC4U` as a number.
    pub const BC4U: u32 = 0x55344342;

    /// The tag `BC4S` as a number.
    pub const BC4S: u32 = 0x53344342;

    /// The tag `ATI2` as a number.
    pub const ATI2: u32 = 0x32495441;

    /// The tag `BC5U` as a number.
    pub const BC5U: u32 = 0x55354342;

    /// The tag `BC5S` as a number.
    pub const BC5S: u32 = 0x53354342;

    /// The tag `RGBG` as a number.
    pub const RGBG: u32 = 0x47424752;

    /// The tag `GRGB` as a number.
    pub const GRGB: u32 = 0x42475247;

    /// The tag `YUY2` as a number.
    pub const YUY2: u32 = 0x32595559;

    /// The tag `UYVY` as a number.
    pub const UYVY: u32 = 0x59565955;

    /// The tag `DX10` as a number.
    pub const DX10: u32 = 0x30315844;

    /// The code of four ASCII characters, first character in the low byte.
    pub fn from_bytes(bytes: [u8; 4]) -> (c: FourCC)
        ensures
            c.0 as nat == bytes[0] as nat + 256 * (bytes[1] as nat) + 65536 * (bytes[2] as nat)
                + 16777216 * (bytes[3] as nat),
    {
        FourCC(
            bytes[0] as u32 + 256 * (bytes[1] as u32) + 65536 * (bytes[2] as u32) + 16777216 * (
            bytes[3] as u32),
        )
    }
}

/// The flags of a DX9 pixel format description.
#[derive(Debug, Clone, Copy, PartialEq, Eq, Structural, Hash)]
pub struct PixelFormatFlags(pub u32);

impl PixelFormatFlags {
    pub const ALPHAPIXELS: u32 = 0x1;

    pub const ALPHA: u32 = 0x2;

    pub const FOURCC: u32 = 0x4;

    pub const RGB: u32 = 0x40;

    pub const YUV: u32 = 0x200;

    pub const LUMINANCE: u32 = 0x2_0000;

    pub const BUMP_DUDV: u32 = 0x8_0000;

    /// `RGB` together with `ALPHAPIXELS`.
    pub const RGBA: u32 = 0x41;

    /// `LUMINANCE` together with `ALPHAPIXELS`.
    pub const LUMINANCE_ALPHA: u32 = 0x2_0001;

    /// `RGB` together with `LUMINANCE`.
    pub const RGB_LUMINANCE: u32 = 0x2_0040;
}

/// A DX9 pixel format given by a bit count and one bit mask per channel.
#[derive(Debug, Clone, Copy, PartialEq, Eq, Structural, Hash)]
pub struct MaskPixelFormat {
    pub flags: PixelFormatFlags,
    pub rgb_bit_count: u32,
    pub r_bit_mask: u32,
    pub g_bit_mask: u32,
    pub b_bit_mask: u32,
    pub a_bit_mask: u32,
}

/// The pixel format of a DX9 header.
#[derive(Debug, Clone, Copy, PartialEq, Eq, Structural, Hash)]
pub enum Dx9PixelFormat {
    FourCC(FourCC),
    Mask(MaskPixelFormat),
}

/// How the alpha channel of a DX10 file is meant.
#[derive(Debug, Clone, Copy, PartialEq, Eq, Structural, Hash)]
pub enum AlphaMode {
    Unknown,
    Straight,
    Premultiplied,
    Opaque,
    Custom,
}

/// The kind of resource a DX10 file holds.
#[derive(Debug, Clone, Copy, PartialEq, Eq, Structural, Hash)]
pub enum ResourceDimension {
    Texture1D,
    Texture2D,
    Texture3D,
}

/// A header without the DX10 extension.
#[derive(Debug, Clone, Copy, PartialEq, Eq, Structural, Hash)]
pub struct Dx9Header {
    pub height: u32,
    pub width: u32,
    /// The depth of a volume texture, `None` for a flat one.
    pub depth: Option<u32>,
    /// Number of mipmap levels, at least 1.
    pub mipmap_count: u32,
    pub pixel_format: Dx9PixelFormat,
    /// Whether the file holds the six faces of a cube map.
    pub cube_map: bool,
}

/// A header with the DX10 extension.
#[derive(Debug, Clone, Copy, PartialEq, Eq, Structural, Hash)]
pub struct Dx10Header {
    pub height: u32,
    pub width: u32,
    /// The depth of a volume texture, `None` for a flat one.
    pub depth: Option<u32>,
    /// Number of mipmap levels, at least 1.
    pub mipmap_count: u32,
    pub dxgi_format: DxgiFormat,
    pub resource_dimension: ResourceDimension,
    /// Whether the textures are the faces of cube maps.
    pub cube_map: bool,
    /// Number of textures, or of cube maps where `cube_map` is set.
    pub array_size: u32,
    pub alpha_mode: AlphaMode,
}

/// A parsed DDS header.
#[derive(Debug, Clone, Copy, PartialEq, Eq, Structural, Hash)]
pub enum Header {
    Dx9(Dx9Header),
    Dx10(Dx10Header),
}

impl Header {
    /// Length of the magic bytes `"DDS "` in front of the header.
    pub const MAGIC_LEN: u64 = 4;

    /// Length of the header proper.
    pub const SIZE: u64 = 124;

    /// Length of the DX10 extension.
    pub const DX10_SIZE: u64 = 20;

    pub open spec fn width_spec(self) -> u32 {
        match self {
            Header::Dx9(h) => h.width,
            Header::Dx10(h) => h.width,
        }
    }

    pub open spec fn height_spec(self) -> u32 {
        match self {
            Header::Dx9(h) => h.height,
            Header::Dx10(h) => h.height,
        }
    }

    pub open spec fn depth_spec(self) -> Option<u32> {
        match self {
            Header::Dx9(h) => h.depth,
            Header::Dx10(h) => h.depth,
        }
    }

    pub open spec fn mipmap_count_spec(self) -> u32 {
        match self {
            Header::Dx9(h) => h.mipmap_count,
            Header::Dx10(h) => h.mipmap_count,
        }
    }

    pub fn width(&self) -> (w: u32)
        ensures
            w == self.width_spec(),
    {
        match self {
            Header::Dx9(h) => h.width,
            Header::Dx10(h) => h.width,
        }
    }

    pub fn height(&self) -> (h: u32)
        ensures
            h == self.height_spec(),
    {
        match self {
            Header::Dx9(h) => h.height,
            Header::Dx10(h) => h.height,
        }
    }

    pub fn depth(&self) -> (d: Option<u32>)
        ensures
            d == self.depth_spec(),
    {
        match self {
            Header::Dx9(h) => h.depth,
            Header::Dx10(h) => h.depth,
        }
    }

    pub fn mipmap_count(&self) -> (n: u32)
        ensures
            n == self.mipmap_count_spec(),
    {
        match self {
            Header::Dx9(h) => h.mipmap_count,
            Header::Dx10(h) => h.mipmap_count,
        }
    }
}

/// Why the bytes of a file are no header.
#[derive(Debug, Clone, Copy, PartialEq, Eq, Structural)]
pub enum HeaderError {
    /// The bytes end before the header does.
    UnexpectedEof,
    /// The file does not start with the magic bytes `"DDS "`.
    InvalidMagicBytes,
    /// The header does not give its size as 124.
    InvalidHeaderSize(u32),
    /// The pixel format does not give its size as 32.
    InvalidPixelFormatSize(u32),
    /// The DX10 extension gives a number that names no DXGI format.
    InvalidDxgiFormat(u32),
    /// The DX10 extension gives a number that names no resource dimension.
    InvalidResourceDimension(u32),
}

/// The magic bytes `"DDS "` that a file starts with.
pub open spec fn magic() -> Seq<u8> {
    seq![0x44u8, 0x44, 0x53, 0x20]
}

/// The little-endian number of the four bytes at `at`.
pub open spec fn le32(bytes: Seq<u8>, at: int) -> u32 {
    (bytes[at] as nat + 256 * (bytes[at + 1] as nat) + 65536 * (bytes[at + 2] as nat) + 16777216 * (
    bytes[at + 3] as nat)) as u32
}

/// The number of mipmap levels that the fields of a header give: the count
/// where the flags say that it is there and it is not 0, else 1.
pub open spec fn mipmap_count_of(flags: u32, count: u32) -> u32 {
    if flags & 0x2_0000 != 0 && count != 0 {
        count
    } else {
        1
    }
}

/// The depth that the fields of a header give: the depth where the flags
/// say that it is there.
pub open spec fn depth_of(flags: u32, depth: u32) -> Option<u32> {
    if flags & 0x80_0000 != 0 {
        Some(depth)
    } else {
        None
    }
}

/// The alpha mode that the low three bits of a number name.
pub open spec fn alpha_mode_of(misc_flags2: u32) -> AlphaMode {
    let mode = misc_flags2 & 7;
    if mode == 1 {
        AlphaMode::Straight
    } else if mode == 2 {
        AlphaMode::Premultiplied
    } else if mode == 3 {
        AlphaMode::Opaque
    } else if mode == 4 {
        AlphaMode::Custom
    } else {
        AlphaMode::Unknown
    }
}

/// The header that 124 bytes hold, with the 20 bytes of the DX10 extension
/// behind them where the pixel format names it.
///
/// All fields are little-endian numbers of four bytes: the size of the
/// header at 0, the flags at 4, the height at 8, the width at 12, the depth
/// at 20, the number of mipmap levels at 24, the pixel format at 72 (its
/// size, its flags, its four-character code, its bit count and its four bit
/// masks), and the second capabilities at 108. The extension holds the DXGI
/// format, the resource dimension, the flags that mark a cube map, the
/// array size, and the alpha mode. Unless `permissive` is set the two sizes
/// must be 124 and 32.
pub open spec fn parsed(bytes: Seq<u8>, permissive: bool) -> Result<Header, HeaderError> {
    if bytes.len() < 124 {
        Err(HeaderError::UnexpectedEof)
    } else if !permissive && le32(bytes, 0) != 124 {
        Err(HeaderError::InvalidHeaderSize(le32(bytes, 0)))
    } else if !permissive && le32(bytes, 72) != 32 {
        Err(HeaderError::InvalidPixelFormatSize(le32(bytes, 72)))
    } else {
        let flags = le32(bytes, 4);
        let height = le32(bytes, 8);
        let width = le32(bytes, 12);
        let depth = depth_of(flags, le32(bytes, 20));
        let mipmap_count = mipmap_count_of(flags, le32(bytes, 24));
        let pf_flags = le32(bytes, 76);
        let four_cc = le32(bytes, 80);
        if names_extension(bytes) {
            if bytes.len() < 144 {
                Err(HeaderError::UnexpectedEof)
            } else if forall|d: DxgiFormat| d.value_spec() != le32(bytes, 124) {
                Err(HeaderError::InvalidDxgiFormat(le32(bytes, 124)))
            } else if le32(bytes, 128) < 2 || le32(bytes, 128) > 4 {
                Err(HeaderError::InvalidResourceDimension(le32(bytes, 128)))
            } else {
                Ok(
                    Header::Dx10(
                        Dx10Header {
                            height,
                            width,
                            depth,
                            mipmap_count,
                            dxgi_format: choose|d: DxgiFormat| d.value_spec() == le32(bytes, 124),
                            resource_dimension: if le32(bytes, 128) == 2 {
                                ResourceDimension::Texture1D
                            } else if le32(bytes, 128) == 3 {
                                ResourceDimension::Texture2D
                            } else {
                                ResourceDimension::Texture3D
                            },
                            cube_map: le32(bytes, 132) & 0x4 != 0,
                            array_size: le32(bytes, 136),
                            alpha_mode: alpha_mode_of(le32(bytes, 140)),
                        },
                    ),
                )
            }
        } else {
            Ok(
                Header::Dx9(
                    Dx9Header {
                        height,
                        width,
                        depth,
                        mipmap_count,
                        pixel_format: if pf_flags & 0x4 != 0 {
                            Dx9PixelFormat::FourCC(FourCC(four_cc))
                        } else {
                            Dx9PixelFormat::Mask(
                                MaskPixelFormat {
                                    flags: PixelFormatFlags(pf_flags),
                                    rgb_bit_count: le32(bytes, 84),
                                    r_bit_mask: le32(bytes, 88),
                                    g_bit_mask: le32(bytes, 92),
                                    b_bit_mask: le32(bytes, 96),
                                    a_bit_mask: le32(bytes, 100),
                                },
                            )
                        },
                        cube_map: le32(bytes, 108) & 0x200 != 0,
                    },
                ),
            )
        }
    }
}

/// The header at the start of a file: behind the magic bytes, or at the
/// very start where `skip_magic_bytes` is set.
pub open spec fn read_spec(bytes: Seq<u8>, skip_magic_bytes: bool, permissive: bool) -> Result<
    Header,
    HeaderError,
> {
    if skip_magic_bytes {
        parsed(bytes, permissive)
    } else if bytes.len() < 4 {
        Err(HeaderError::UnexpectedEof)
    } else if bytes.subrange(0, 4) != magic() {
        Err(HeaderError::InvalidMagicBytes)
    } else {
        parsed(bytes.subrange(4, bytes.len() as int), permissive)
    }
}

/// Whether the pixel format of a header names the DX10 extension: it has a
/// four-character code, and the code is `DX10`. The extension then follows
/// the 124 bytes of the header.
pub open spec fn names_extension(bytes: Seq<u8>) -> bool {
    le32(bytes, 76) & 0x4 != 0 && le32(bytes, 80) == FourCC::DX10
}

/// Reads the little-endian number of the four bytes at `at`.
fn read_le32(bytes: &[u8], at: usize) -> (v: u32)
    requires
        at + 4 <= bytes@.len(),
    ensures
        v == le32(bytes@, at as int),
{
    bytes[at] as u32 + 256 * (bytes[at + 1] as u32) + 65536 * (bytes[at + 2] as u32) + 16777216 * (
    bytes[at + 3] as u32)
}

impl Header {
    /// Bytes that the header takes in a file, without the magic bytes.
    pub open spec fn byte_len_spec(self) -> nat {
        match self {
            Header::Dx9(_) => 124,
            Header::Dx10(_) => 144,
        }
    }

    /// Bytes that the header takes in a file, without the magic bytes.
    pub fn byte_len(&self) -> (n: usize)
        ensures
            n == self.byte_len_spec(),
    {
        match self {
            Header::Dx9(_) => 124,
            Header::Dx10(_) => 144,
        }
    }

    /// Bytes of the DX10 extension behind the header that starts at `start`
    /// of the bytes of a file: 20 where the pixel format names the
    /// extension, else 0. The bytes must hold the 124 bytes of the header.
    pub fn extension_len(bytes: &[u8], start: usize) -> (n: usize)
        requires
            start + 124 <= bytes@.len(),
        ensures
            n == if names_extension(bytes@.subrange(start as int, bytes@.len() as int)) {
                20usize
            } else {
                0usize
            },
    {
        let len: usize = bytes.len();
        let ghost rest = bytes@.subrange(start as int, len as int);
        proof {
            assert forall|at: int| 0 <= at && at + 4 <= rest.len() implies le32(bytes@, start + at)
                == #[trigger] le32(rest, at) by {}
        }
        let pf_flags = read_le32(bytes, start + 76);
        let four_cc = read_le32(bytes, start + 80);
        if pf_flags & 0x4 != 0 && four_cc == FourCC::DX10 {
            20
        } else {
            0
        }
    }

    /// Parses the header that starts at `start` of the bytes of a file.
    pub fn parse(bytes: &[u8], start: usize, permissive: bool) -> (r: Result<Header, HeaderError>)
        requires
            start <= bytes@.len(),
        ensures
            r == parsed(bytes@.subrange(start as int, bytes@.len() as int), permissive),
    {
        let len: usize = bytes.len();
        let ghost rest = bytes@.subrange(start as int, len as int);
        if len - start < 124 {
            return Err(HeaderError::UnexpectedEof);
        }
        proof {
            assert forall|at: int| 0 <= at && at + 4 <= rest.len() implies le32(bytes@, start + at)
                == #[trigger] le32(rest, at) by {}
        }
        let size = read_le32(bytes, start);
        if !permissive && size != 124 {
            return Err(HeaderError::InvalidHeaderSize(size));
        }
        let pf_size = read_le32(bytes, start + 72);
        if !permissive && pf_size != 32 {
            return Err(HeaderError::InvalidPixelFormatSize(pf_size));
        }
        let flags = read_le32(bytes, start + 4);
        let height = read_le32(bytes, start + 8);
        let width = read_le32(bytes, start + 12);
        let raw_depth = read_le32(bytes, start + 20);
        let raw_count = read_le32(bytes, start + 24);
        let depth = if flags & 0x80_0000 != 0 {
            Some(raw_depth)
        } else {
            None
        };
        let mipmap_count = if flags & 0x2_0000 != 0 && raw_count != 0 {
            raw_count
        } else {
            1
        };
        let pf_flags = read_le32(bytes, start + 76);
        let four_cc = read_le32(bytes, start + 80);
        if pf_flags & 0x4 != 0 && four_cc == FourCC::DX10 {
            if len - start < 144 {
                return Err(HeaderError::UnexpectedEof);
            }
            let raw_format = read_le32(bytes, start + 124);
            let dxgi_format = match DxgiFormat::from_value(raw_format) {
                Some(d) => d,
                None => {
                    return Err(HeaderError::InvalidDxgiFormat(raw_format));
                },
            };
            proof {
                lemma_value_names_one(dxgi_format, raw_format);
            }
            let raw_dimension = read_le32(bytes, start + 128);
            let resource_dimension = if raw_dimension == 2 {
                ResourceDimension::Texture1D
            } else if raw_dimension == 3 {
                ResourceDimension::Texture2D
            } else if raw_dimension == 4 {
                ResourceDimension::Texture3D
            } else {
                return Err(HeaderError::InvalidResourceDimension(raw_dimension));
            };
            let misc_flag = read_le32(bytes, start + 132);
            let array_size = read_le32(bytes, start + 136);
            let mode = read_le32(bytes, start + 140) & 7;
            let alpha_mode = if mode == 1 {
                AlphaMode::Straight
            } else if mode == 2 {
                AlphaMode::Premultiplied
            } else if mode == 3 {
                AlphaMode::Opaque
            } else if mode == 4 {
                AlphaMode::Custom
            } else {
                AlphaMode::Unknown
            };
            Ok(
                Header::Dx10(
                    Dx10Header {
                        height,
                        width,
                        depth,
                        mipmap_count,
                        dxgi_format,
                        resource_dimension,
                        cube_map: misc_flag & 0x4 != 0,
                        array_size,
                        alpha_mode,
                    },
                ),
            )
        } else {
            let pixel_format = if pf_flags & 0x4 != 0 {
                Dx9PixelFormat::FourCC(FourCC(four_cc))
            } else {
                Dx9PixelFormat::Mask(
                    MaskPixelFormat {
                        flags: PixelFormatFlags(pf_flags),
                        rgb_bit_count: read_le32(bytes, start + 84),
                        r_bit_mask: read_le32(bytes, start + 88),
                        g_bit_mask: read_le32(bytes, start + 92),
                        b_bit_mask: read_le32(bytes, start + 96),
                        a_bit_mask: read_le32(bytes, start + 100),
                    },
                )
            };
            let caps2 = read_le32(bytes, start + 108);
            Ok(
                Header::Dx9(
                    Dx9Header {
                        height,
                        width,
                        depth,
                        mipmap_count,
                        pixel_format,
                        cube_map: caps2 & 0x200 != 0,
                    },
                ),
            )
        }
    }

    /// Reads the header at the start of the bytes of a file: behind the
    /// magic bytes, or at the very start where `skip_magic_bytes` is set.
    pub fn read(bytes: &[u8], skip_magic_bytes: bool, permissive: bool) -> (r: Result<
        Header,
        HeaderError,
    >)
        ensures
            r == read_spec(bytes@, skip_magic_bytes, permissive),
    {
        if skip_magic_bytes {
            assert(bytes@.subrange(0, bytes@.len() as int) =~= bytes@);
            return Self::parse(bytes, 0, permissive);
        }
        if bytes.len() < 4 {
            return Err(HeaderError::UnexpectedEof);
        }
        if bytes[0] != 0x44 || bytes[1] != 0x44 || bytes[2] != 0x53 || bytes[3] != 0x20 {
            assert(bytes@.subrange(0, 4) != magic()) by {
                if bytes@.subrange(0, 4) == magic() {
                    assert(bytes@.subrange(0, 4)[0] == magic()[0]);
                    assert(bytes@.subrange(0, 4)[1] == magic()[1]);
                    assert(bytes@.subrange(0, 4)[2] == magic()[2]);
                    assert(bytes@.subrange(0, 4)[3] == magic()[3]);
                }
            }
            return Err(HeaderError::InvalidMagicBytes);
        }
        assert(bytes@.subrange(0, 4) =~= magic());
        Self::parse(bytes, 4, permissive)
    }
}

/// A number names one DXGI format at most.
pub proof fn lemma_value_names_one(d: DxgiFormat, value: u32)
    requires
        d.value_spec() == value,
    ensures
        (choose|x: DxgiFormat| x.value_spec() == value) == d,
{
    let x = choose|x: DxgiFormat| x.value_spec() == value;
    assert(x.value_spec() == d.value_spec());
}

} // verus!
