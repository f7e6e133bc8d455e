//! Where the surfaces of a DDS file lie in its data section.
//!
//! A texture is a surface followed by its mipmaps, each half the size of
//! the one before. A volume is a stack of depth slices followed by its
//! mipmaps, which halve the depth too. A texture array is a row of textures
//! of one size; the six faces of a cube map are six textures.

use vstd::prelude::*;
use crate::decode::fields::BlockShape;
use crate::error::DecodeError;
use crate::format::Format;
use crate::header::{Header, ResourceDimension};
use crate::util::{get_mipmap_size, mipmap_size_spec};

verus! {

/// The most mipmap levels that a layout takes: a level for every bit of a
/// dimension.
pub const MAX_MIPMAPS: u32 = 32;

/// How the pixels of a format are stored: the shape of its blocks.
#[derive(Debug, Clone, Copy, PartialEq, Eq, Structural)]
pub struct PixelInfo {
    pub block: BlockShape,
}

impl PixelInfo {
    /// The blocks have a width, a height and a size.
    pub open spec fn wf(self) -> bool {
        self.block.width >= 1 && self.block.height >= 1 && self.block.bytes >= 1
    }

    /// How the pixels of a format are stored.
    pub fn from_format(format: Format) -> (info: PixelInfo)
        ensures
            info.block == format.block_shape(),
            info.wf(),
    {
        PixelInfo { block: format.block_shape_of() }
    }

    /// Bytes of a surface: the number of blocks that cover it times the size
    /// of a block.
    pub open spec fn surface_len(self, width: nat, height: nat) -> nat {
        ((width + self.block.width - 1) as nat / (self.block.width as nat)) * ((height
            + self.block.height - 1) as nat / (self.block.height as nat)) * (self.block.bytes as nat)
    }

    /// Bytes of a surface.
    pub fn surface_bytes(&self, width: u32, height: u32) -> (len: u128)
        requires
            self.wf(),
        ensures
            len as nat == self.surface_len(width as nat, height as nat),
            len <= 0xFFFF_FFFF * 0xFFFF_FFFF * 255,
    {
        let columns: u64 = (width as u64 + self.block.width as u64 - 1) / (self.block.width as u64);
        let rows: u64 = (height as u64 + self.block.height as u64 - 1) / (
        self.block.height as u64);
        proof {
            vstd::arithmetic::div_mod::lemma_fundamental_div_mod(
                width + self.block.width - 1,
                self.block.width as int,
            );
            vstd::arithmetic::div_mod::lemma_fundamental_div_mod(
                height + self.block.height - 1,
                self.block.height as int,
            );
            let bw = self.block.width as int;
            let bh = self.block.height as int;
            assert(columns <= 0xFFFF_FFFF) by (nonlinear_arith)
                requires
                    width + bw - 1 == bw * columns + (width + bw - 1) % bw,
                    0 <= (width + bw - 1) % bw,
                    bw >= 1,
                    width <= 0xFFFF_FFFF,
            ;
            assert(rows <= 0xFFFF_FFFF) by (nonlinear_arith)
                requires
                    height + bh - 1 == bh * rows + (height + bh - 1) % bh,
                    0 <= (height + bh - 1) % bh,
                    bh >= 1,
                    height <= 0xFFFF_FFFF,
            ;
            assert(columns * rows <= 0xFFFF_FFFF * 0xFFFF_FFFF) by (nonlinear_arith)
                requires
                    columns <= 0xFFFF_FFFF,
                    rows <= 0xFFFF_FFFF,
            ;
            assert(columns * rows * self.block.bytes <= 0xFFFF_FFFF * 0xFFFF_FFFF * 255)
                by (nonlinear_arith)
                requires
                    columns * rows <= 0xFFFF_FFFF * 0xFFFF_FFFF,
                    self.block.bytes <= 255,
            ;
        }
        (columns as u128 * rows as u128) * self.block.bytes as u128
    }

    /// Bytes of level `level` of a mipmap chain: the surface of the halved
    /// sizes, once for every depth slice of the halved depth.
    pub open spec fn level_len(self, width: nat, height: nat, depth: nat, level: nat) -> nat {
        mipmap_size_spec(depth, level) * self.surface_len(
            mipmap_size_spec(width, level),
            mipmap_size_spec(height, level),
        )
    }

    /// Bytes of the first `levels` levels of a mipmap chain.
    pub open spec fn chain_len(self, width: nat, height: nat, depth: nat, levels: nat) -> nat
        decreases levels,
    {
        if levels == 0 {
            0
        } else {
            self.chain_len(width, height, depth, (levels - 1) as nat) + self.level_len(
                width,
                height,
                depth,
                (levels - 1) as nat,
            )
        }
    }

    /// Bytes of the first `levels` levels of a mipmap chain, `None` where
    /// they are more than 64 bits can count.
    pub fn chain_bytes(&self, width: u32, height: u32, depth: u32, levels: u32) -> (len: Option<u64>)
        requires
            self.wf(),
            levels <= MAX_MIPMAPS,
        ensures
            len matches Some(n) ==> n as nat == self.chain_len(
                width as nat,
                height as nat,
                depth as nat,
                levels as nat,
            ),
            len.is_none() ==> self.chain_len(
                width as nat,
                height as nat,
                depth as nat,
                levels as nat,
            ) > u64::MAX,
    {
        let mut total: u64 = 0;
        let mut level: u32 = 0;
        while level < levels
            invariant
                level <= levels,
                levels <= MAX_MIPMAPS,
                self.wf(),
                total as nat == self.chain_len(
                    width as nat,
                    height as nat,
                    depth as nat,
                    level as nat,
                ),
            decreases levels - level,
        {
            let w = get_mipmap_size(width, level as u8);
            let h = get_mipmap_size(height, level as u8);
            let d = get_mipmap_size(depth, level as u8);
            let surface = self.surface_bytes(w, h);
            assert(d * surface <= 0xFFFF_FFFF * (0xFFFF_FFFF * 0xFFFF_FFFF * 255))
                by (nonlinear_arith)
                requires
                    d <= 0xFFFF_FFFF,
                    surface <= 0xFFFF_FFFF * 0xFFFF_FFFF * 255,
            ;
            let step: u128 = d as u128 * surface;
            let sum: u128 = total as u128 + step;
            proof {
                lemma_chain_grows(
                    *self,
                    width as nat,
                    height as nat,
                    depth as nat,
                    (level + 1) as nat,
                    levels as nat,
                );
            }
            if sum > u64::MAX as u128 {
                return None;
            }
            total = sum as u64;
            level = level + 1;
        }
        Some(total)
    }
}

/// A longer chain is not shorter in bytes.
pub proof fn lemma_chain_grows(info: PixelInfo, width: nat, height: nat, depth: nat, a: nat, b: nat)
    requires
        a <= b,
    ensures
        info.chain_len(width, height, depth, a) <= info.chain_len(width, height, depth, b),
    decreases b,
{
    if a < b {
        lemma_chain_grows(info, width, height, depth, a, (b - 1) as nat);
    }
}

/// A surface with its mipmaps.
#[derive(Debug, Clone, Copy, PartialEq, Eq, Structural)]
pub struct Texture {
    pub width: u32,
    pub height: u32,
    pub mipmaps: u32,
    pub pixel_info: PixelInfo,
    /// Bytes of the surface and its mipmaps.
    pub len: u64,
}

/// A stack of depth slices with its mipmaps.
#[derive(Debug, Clone, Copy, PartialEq, Eq, Structural)]
pub struct Volume {
    pub width: u32,
    pub height: u32,
    pub depth: u32,
    pub mipmaps: u32,
    pub pixel_info: PixelInfo,
    /// Bytes of the slices and their mipmaps.
    pub len: u64,
}

/// What the textures of an array are.
#[derive(Debug, Clone, Copy, PartialEq, Eq, Structural)]
pub enum TextureArrayKind {
    /// Textures of their own.
    Textures,
    /// The faces of cube maps, six to a cube map.
    CubeMaps,
}

/// A row of textures of one size.
#[derive(Debug, Clone, Copy, PartialEq, Eq, Structural)]
pub struct TextureArray {
    pub kind: TextureArrayKind,
    /// Number of textures.
    pub array_len: u32,
    /// The first texture; the others are alike and follow it without gaps.
    pub first: Texture,
    /// Bytes of all textures.
    pub len: u64,
}

/// One surface of a texture: its size, and where its bytes lie from the
/// start of the texture.
#[derive(Debug, Clone, Copy, PartialEq, Eq, Structural)]
pub struct SurfaceDescriptor {
    pub width: u32,
    pub height: u32,
    pub offset: u64,
    pub len: u64,
}

impl Texture {
    /// The length is that of the mipmap chain.
    pub open spec fn wf(self) -> bool {
        &&& self.pixel_info.wf()
        &&& 1 <= self.mipmaps <= MAX_MIPMAPS
        &&& self.len as nat == self.pixel_info.chain_len(
            self.width as nat,
            self.height as nat,
            1,
            self.mipmaps as nat,
        )
    }

    /// Bytes of the texture.
    pub fn data_len(&self) -> (len: u64)
        ensures
            len == self.len,
    {
        self.len
    }

    /// The surface of a mipmap level, `None` where the texture has no such
    /// level.
    pub fn get(&self, level: u8) -> (r: Option<SurfaceDescriptor>)
        requires
            self.wf(),
        ensures
            r.is_some() == (level < self.mipmaps),
            r matches Some(s) ==> s.width as nat == mipmap_size_spec(
                self.width as nat,
                level as nat,
            ) && s.height as nat == mipmap_size_spec(self.height as nat, level as nat)
                && s.offset as nat == self.pixel_info.chain_len(
                self.width as nat,
                self.height as nat,
                1,
                level as nat,
            ) && s.len as nat == self.pixel_info.level_len(
                self.width as nat,
                self.height as nat,
                1,
                level as nat,
            ),
    {
        if level as u32 >= self.mipmaps {
            return None;
        }
        proof {
            lemma_chain_grows(
                self.pixel_info,
                self.width as nat,
                self.height as nat,
                1,
                level as nat,
                self.mipmaps as nat,
            );
            lemma_chain_grows(
                self.pixel_info,
                self.width as nat,
                self.height as nat,
                1,
                (level + 1) as nat,
                self.mipmaps as nat,
            );
        }
        let offset = match self.pixel_info.chain_bytes(self.width, self.height, 1, level as u32) {
            Some(n) => n,
            None => {
                return None;
            },
        };
        let end = match self.pixel_info.chain_bytes(self.width, self.height, 1, level as u32 + 1) {
            Some(n) => n,
            None => {
                return None;
            },
        };
        Some(
            SurfaceDescriptor {
                width: get_mipmap_size(self.width, level),
                height: get_mipmap_size(self.height, level),
                offset,
                len: end - offset,
            },
        )
    }

    /// The surface of full size.
    pub fn main(&self) -> (s: SurfaceDescriptor)
        requires
            self.wf(),
        ensures
            Some(s) == self.get_spec(0),
    {
        match self.get(0) {
            Some(s) => s,
            None => SurfaceDescriptor { width: 0, height: 0, offset: 0, len: 0 },
        }
    }

    /// What `get` gives for a level.
    pub open spec fn get_spec(self, level: nat) -> Option<SurfaceDescriptor> {
        if level < self.mipmaps {
            Some(
                SurfaceDescriptor {
                    width: mipmap_size_spec(self.width as nat, level) as u32,
                    height: mipmap_size_spec(self.height as nat, level) as u32,
                    offset: self.pixel_info.chain_len(self.width as nat, self.height as nat, 1, level) as u64,
                    len: self.pixel_info.level_len(self.width as nat, self.height as nat, 1, level) as u64,
                },
            )
        } else {
            None
        }
    }

    /// The surfaces of all mipmap levels, largest first.
    pub fn iter_mips(&self) -> (v: Vec<SurfaceDescriptor>)
        requires
            self.wf(),
        ensures
            v@.len() == self.mipmaps,
            forall|i: int| 0 <= i < v@.len() ==> Some(#[trigger] v@[i]) == self.get_spec(i as nat),
    {
        let mut v: Vec<SurfaceDescriptor> = Vec::new();
        let mut level: u8 = 0;
        while (level as u32) < self.mipmaps
            invariant
                level <= self.mipmaps,
                self.wf(),
                v@.len() == level,
                forall|i: int| 0 <= i < v@.len() ==> Some(#[trigger] v@[i]) == self.get_spec(i as nat),
            decreases self.mipmaps - level,
        {
            match self.get(level) {
                Some(s) => {
                    v.push(s);
                },
                None => {},
            }
            level = level + 1;
        }
        v
    }
}

impl Volume {
    /// The length is that of the mipmap chain.
    pub open spec fn wf(self) -> bool {
        &&& self.pixel_info.wf()
        &&& 1 <= self.mipmaps <= MAX_MIPMAPS
        &&& self.len as nat == self.pixel_info.chain_len(
            self.width as nat,
            self.height as nat,
            self.depth as nat,
            self.mipmaps as nat,
        )
    }

    /// Bytes of the volume.
    pub fn data_len(&self) -> (len: u64)
        ensures
            len == self.len,
    {
        self.len
    }

    /// What `get` gives for a level.
    pub open spec fn get_spec(self, level: nat) -> Option<VolumeDescriptor> {
        if level < self.mipmaps {
            Some(
                VolumeDescriptor {
                    width: mipmap_size_spec(self.width as nat, level) as u32,
                    height: mipmap_size_spec(self.height as nat, level) as u32,
                    depth: mipmap_size_spec(self.depth as nat, level) as u32,
                    offset: self.pixel_info.chain_len(
                        self.width as nat,
                        self.height as nat,
                        self.depth as nat,
                        level,
                    ) as u64,
                    slice_len: self.pixel_info.surface_len(
                        mipmap_size_spec(self.width as nat, level),
                        mipmap_size_spec(self.height as nat, level),
                    ) as u64,
                },
            )
        } else {
            None
        }
    }

    /// The depth slices of a mipmap level, `None` where the volume has no
    /// such level.
    pub fn get(&self, level: u8) -> (r: Option<VolumeDescriptor>)
        requires
            self.wf(),
        ensures
            r == self.get_spec(level as nat),
            r matches Some(v) ==> v.wf() && v.offset + v.depth * v.slice_len <= self.len,
    {
        if level as u32 >= self.mipmaps {
            return None;
        }
        proof {
            lemma_chain_grows(
                self.pixel_info,
                self.width as nat,
                self.height as nat,
                self.depth as nat,
                level as nat,
                self.mipmaps as nat,
            );
            lemma_chain_grows(
                self.pixel_info,
                self.width as nat,
                self.height as nat,
                self.depth as nat,
                (level + 1) as nat,
                self.mipmaps as nat,
            );
        }
        let offset = match self.pixel_info.chain_bytes(
            self.width,
            self.height,
            self.depth,
            level as u32,
        ) {
            Some(n) => n,
            None => {
                return None;
            },
        };
        let width = get_mipmap_size(self.width, level);
        let height = get_mipmap_size(self.height, level);
        let depth = get_mipmap_size(self.depth, level);
        let slice = self.pixel_info.surface_bytes(width, height);
        proof {
            // the slices of the level are a part of the volume
            let level_len = self.pixel_info.level_len(
                self.width as nat,
                self.height as nat,
                self.depth as nat,
                level as nat,
            );
            assert(level_len == depth * slice);
            assert(slice <= depth * slice) by (nonlinear_arith)
                requires
                    depth >= 1,
                    slice >= 0,
            ;
        }
        Some(VolumeDescriptor { width, height, depth, offset, slice_len: slice as u64 })
    }

    /// The depth slices of full size.
    pub fn main(&self) -> (v: VolumeDescriptor)
        requires
            self.wf(),
        ensures
            Some(v) == self.get_spec(0),
            v.wf(),
    {
        match self.get(0) {
            Some(v) => v,
            None => VolumeDescriptor { width: 0, height: 0, depth: 0, offset: 0, slice_len: 0 },
        }
    }

    /// The depth slices of all mipmap levels, largest first.
    pub fn iter_mips(&self) -> (v: Vec<VolumeDescriptor>)
        requires
            self.wf(),
        ensures
            v@.len() == self.mipmaps,
            forall|i: int|
                0 <= i < v@.len() ==> Some(#[trigger] v@[i]) == self.get_spec(i as nat) && v@[i].wf(),
    {
        let mut v: Vec<VolumeDescriptor> = Vec::new();
        let mut level: u8 = 0;
        while (level as u32) < self.mipmaps
            invariant
                level <= self.mipmaps,
                self.wf(),
                v@.len() == level,
                forall|i: int|
                    0 <= i < v@.len() ==> Some(#[trigger] v@[i]) == self.get_spec(i as nat)
                        && v@[i].wf(),
            decreases self.mipmaps - level,
        {
            match self.get(level) {
                Some(d) => {
                    v.push(d);
                },
                None => {},
            }
            level = level + 1;
        }
        v
    }
}

/// One mipmap level of a volume: the size and the number of its depth
/// slices, where the first slice starts from the start of the volume, and
/// the bytes of one slice. The slices follow each other without gaps.
#[derive(Debug, Clone, Copy, PartialEq, Eq, Structural)]
pub struct VolumeDescriptor {
    pub width: u32,
    pub height: u32,
    pub depth: u32,
    pub offset: u64,
    pub slice_len: u64,
}

impl VolumeDescriptor {
    /// The end of the last slice is a number of 64 bits.
    pub open spec fn wf(self) -> bool {
        self.offset + self.depth * self.slice_len <= u64::MAX
    }

    /// What `get_depth_slice` gives for a slice.
    pub open spec fn slice_spec(self, index: nat) -> Option<SurfaceDescriptor> {
        if index < self.depth {
            Some(
                SurfaceDescriptor {
                    width: self.width,
                    height: self.height,
                    offset: (self.offset + index * self.slice_len) as u64,
                    len: self.slice_len,
                },
            )
        } else {
            None
        }
    }

    /// Bytes of all slices of the level.
    pub fn data_len(&self) -> (len: u64)
        requires
            self.wf(),
        ensures
            len as nat == self.depth * self.slice_len,
    {
        assert(self.depth * self.slice_len <= u64::MAX);
        self.depth as u64 * self.slice_len
    }

    /// Depth slice `index`, `None` where the level has no such slice.
    pub fn get_depth_slice(&self, index: u32) -> (r: Option<SurfaceDescriptor>)
        requires
            self.wf(),
        ensures
            r == self.slice_spec(index as nat),
    {
        if index >= self.depth {
            return None;
        }
        assert(index * self.slice_len <= self.depth * self.slice_len) by (nonlinear_arith)
            requires
                index <= self.depth,
        ;
        Some(
            SurfaceDescriptor {
                width: self.width,
                height: self.height,
                offset: self.offset + index as u64 * self.slice_len,
                len: self.slice_len,
            },
        )
    }

    /// The depth slices of the level, first slice first.
    pub fn iter_depth_slices(&self) -> (v: Vec<SurfaceDescriptor>)
        requires
            self.wf(),
        ensures
            v@.len() == self.depth,
            forall|i: int| 0 <= i < v@.len() ==> Some(#[trigger] v@[i]) == self.slice_spec(i as nat),
    {
        let mut v: Vec<SurfaceDescriptor> = Vec::new();
        let mut index: u32 = 0;
        while index < self.depth
            invariant
                index <= self.depth,
                self.wf(),
                v@.len() == index,
                forall|i: int|
                    0 <= i < v@.len() ==> Some(#[trigger] v@[i]) == self.slice_spec(i as nat),
            decreases self.depth - index,
        {
            match self.get_depth_slice(index) {
                Some(s) => {
                    v.push(s);
                },
                None => {},
            }
            index = index + 1;
        }
        v
    }
}

impl TextureArray {
    /// The first texture is valid and the length is that of all textures.
    pub open spec fn wf(self) -> bool {
        &&& self.first.wf()
        &&& self.len as nat == (self.array_len as nat) * (self.first.len as nat)
    }

    /// Number of textures.
    pub fn len(&self) -> (n: usize)
        ensures
            n == self.array_len,
    {
        self.array_len as usize
    }

    /// Whether the array has no texture.
    pub fn is_empty(&self) -> (b: bool)
        ensures
            b == (self.array_len == 0),
    {
        self.array_len == 0
    }

    /// Bytes of all textures.
    pub fn data_len(&self) -> (len: u64)
        ensures
            len == self.len,
    {
        self.len
    }

    /// Where texture `index` starts in the data section, `None` where the
    /// array has no such texture.
    pub fn offset_of(&self, index: usize) -> (r: Option<u64>)
        requires
            self.wf(),
        ensures
            r.is_some() == (index < self.array_len),
            r matches Some(offset) ==> offset as nat == (index as nat) * (self.first.len as nat),
    {
        if index >= self.array_len as usize {
            return None;
        }
        assert(index * self.first.len <= self.array_len * self.first.len) by (nonlinear_arith)
            requires
                index <= self.array_len,
        ;
        Some(index as u64 * self.first.len)
    }

    /// Texture `index`, `None` where the array has no such texture. The
    /// textures are all alike.
    pub fn get(&self, index: usize) -> (r: Option<Texture>)
        ensures
            r == if index < self.array_len {
                Some(self.first)
            } else {
                None
            },
    {
        if index < self.array_len as usize {
            Some(self.first)
        } else {
            None
        }
    }
}

/// Where the surfaces of a file lie.
#[derive(Debug, Clone, Copy, PartialEq, Eq, Structural)]
pub enum DataLayout {
    Texture(Texture),
    Volume(Volume),
    TextureArray(TextureArray),
}

/// What a header says a file holds.
#[derive(Debug, Clone, Copy, PartialEq, Eq, Structural)]
pub enum Shape {
    /// One texture.
    Single,
    /// A volume of this depth.
    Volume(u32),
    /// An array of this many textures.
    Array(TextureArrayKind, u64),
}

impl Header {
    /// What the header says the file holds.
    ///
    /// A header with a depth describes a volume; so does a DX10 header for a
    /// resource of three dimensions, of depth 1 where it gives none. The
    /// faces of cube maps form an array of six textures per cube map. A DX10
    /// header describes an array unless it holds exactly one texture.
    pub open spec fn shape(self) -> Shape {
        match self {
            Header::Dx9(h) => match h.depth {
                Some(d) => Shape::Volume(d),
                None => if h.cube_map {
                    Shape::Array(TextureArrayKind::CubeMaps, 6)
                } else {
                    Shape::Single
                },
            },
            Header::Dx10(h) => if h.resource_dimension == ResourceDimension::Texture3D {
                Shape::Volume(
                    match h.depth {
                        Some(d) => d,
                        None => 1,
                    },
                )
            } else if h.cube_map {
                Shape::Array(TextureArrayKind::CubeMaps, (h.array_size * 6) as u64)
            } else if h.array_size == 1 {
                Shape::Single
            } else {
                Shape::Array(TextureArrayKind::Textures, h.array_size as u64)
            },
        }
    }

    /// What the header says the file holds.
    pub fn shape_of(&self) -> (s: Shape)
        ensures
            s == self.shape(),
    {
        match self {
            Header::Dx9(h) => match h.depth {
                Some(d) => Shape::Volume(d),
                None => if h.cube_map {
                    Shape::Array(TextureArrayKind::CubeMaps, 6)
                } else {
                    Shape::Single
                },
            },
            Header::Dx10(h) => if h.resource_dimension == ResourceDimension::Texture3D {
                Shape::Volume(
                    match h.depth {
                        Some(d) => d,
                        None => 1,
                    },
                )
            } else if h.cube_map {
                Shape::Array(TextureArrayKind::CubeMaps, h.array_size as u64 * 6)
            } else if h.array_size == 1 {
                Shape::Single
            } else {
                Shape::Array(TextureArrayKind::Textures, h.array_size as u64)
            },
        }
    }
}

impl DataLayout {
    /// The layout is valid.
    pub open spec fn wf(self) -> bool {
        match self {
            DataLayout::Texture(t) => t.wf(),
            DataLayout::Volume(v) => v.wf(),
            DataLayout::TextureArray(a) => a.wf(),
        }
    }

    /// Bytes of the data section.
    pub open spec fn data_len_spec(self) -> u64 {
        match self {
            DataLayout::Texture(t) => t.len,
            DataLayout::Volume(v) => v.len,
            DataLayout::TextureArray(a) => a.len,
        }
    }

    /// The layout that a header describes for pixels stored as `info` says.
    ///
    /// It is an error for the header to give no mipmap level or more than
    /// 32, for an array to have more than `2^32 - 1` textures, and for the
    /// data to be longer than 64 bits can count.
    pub open spec fn from_header_spec(header: Header, info: PixelInfo) -> Result<
        DataLayout,
        DecodeError,
    > {
        let w = header.width_spec();
        let h = header.height_spec();
        let mipmaps = header.mipmap_count_spec();
        if mipmaps == 0 || mipmaps > MAX_MIPMAPS {
            Err(DecodeError::UnsupportedMipmapCount(mipmaps))
        } else {
            match header.shape() {
                Shape::Single => {
                    let len = info.chain_len(w as nat, h as nat, 1, mipmaps as nat);
                    if len > u64::MAX {
                        Err(DecodeError::DataLayoutTooBig)
                    } else {
                        Ok(
                            DataLayout::Texture(
                                Texture {
                                    width: w,
                                    height: h,
                                    mipmaps,
                                    pixel_info: info,
                                    len: len as u64,
                                },
                            ),
                        )
                    }
                },
                Shape::Volume(depth) => {
                    let len = info.chain_len(w as nat, h as nat, depth as nat, mipmaps as nat);
                    if len > u64::MAX {
                        Err(DecodeError::DataLayoutTooBig)
                    } else {
                        Ok(
                            DataLayout::Volume(
                                Volume {
                                    width: w,
                                    height: h,
                                    depth,
                                    mipmaps,
                                    pixel_info: info,
                                    len: len as u64,
                                },
                            ),
                        )
                    }
                },
                Shape::Array(kind, count) => {
                    let len = info.chain_len(w as nat, h as nat, 1, mipmaps as nat);
                    if count > u32::MAX || len > u64::MAX || count * len > u64::MAX {
                        Err(DecodeError::DataLayoutTooBig)
                    } else {
                        Ok(
                            DataLayout::TextureArray(
                                TextureArray {
                                    kind,
                                    array_len: count as u32,
                                    first: Texture {
                                        width: w,
                                        height: h,
                                        mipmaps,
                                        pixel_info: info,
                                        len: len as u64,
                                    },
                                    len: (count * len) as u64,
                                },
                            ),
                        )
                    }
                },
            }
        }
    }

    /// The layout that a header describes for pixels stored as `info` says.
    pub fn from_header_with(header: &Header, info: PixelInfo) -> (r: Result<DataLayout, DecodeError>)
        requires
            info.wf(),
        ensures
            r == Self::from_header_spec(*header, info),
            r matches Ok(layout) ==> layout.wf(),
    {
        let w = header.width();
        let h = header.height();
        let mipmaps = header.mipmap_count();
        if mipmaps == 0 || mipmaps > MAX_MIPMAPS {
            return Err(DecodeError::UnsupportedMipmapCount(mipmaps));
        }
        match header.shape_of() {
            Shape::Single => match info.chain_bytes(w, h, 1, mipmaps) {
                Some(len) => Ok(
                    DataLayout::Texture(
                        Texture { width: w, height: h, mipmaps, pixel_info: info, len },
                    ),
                ),
                None => Err(DecodeError::DataLayoutTooBig),
            },
            Shape::Volume(depth) => match info.chain_bytes(w, h, depth, mipmaps) {
                Some(len) => Ok(
                    DataLayout::Volume(
                        Volume { width: w, height: h, depth, mipmaps, pixel_info: info, len },
                    ),
                ),
                None => Err(DecodeError::DataLayoutTooBig),
            },
            Shape::Array(kind, count) => {
                if count > u32::MAX as u64 {
                    return Err(DecodeError::DataLayoutTooBig);
                }
                let len = match info.chain_bytes(w, h, 1, mipmaps) {
                    Some(len) => len,
                    None => {
                        return Err(DecodeError::DataLayoutTooBig);
                    },
                };
                assert(count * len <= 0xFFFF_FFFF * 0xFFFF_FFFF_FFFF_FFFF) by (nonlinear_arith)
                    requires
                        count <= 0xFFFF_FFFF,
                        len <= 0xFFFF_FFFF_FFFF_FFFF,
                ;
                let total: u128 = count as u128 * len as u128;
                if total > u64::MAX as u128 {
                    return Err(DecodeError::DataLayoutTooBig);
                }
                Ok(
                    DataLayout::TextureArray(
                        TextureArray {
                            kind,
                            array_len: count as u32,
                            first: Texture { width: w, height: h, mipmaps, pixel_info: info, len },
                            len: total as u64,
                        },
                    ),
                )
            },
        }
    }

    /// The layout that a header describes, for the format that it names.
    pub fn from_header(header: &Header) -> (r: Result<DataLayout, DecodeError>)
        ensures
            r == match Format::from_header_spec(*header) {
                Ok(format) => Self::from_header_spec(
                    *header,
                    PixelInfo { block: format.block_shape() },
                ),
                Err(e) => Err(DecodeError::Format(e)),
            },
            r matches Ok(layout) ==> layout.wf(),
    {
        match Format::from_header(header) {
            Ok(format) => Self::from_header_with(header, PixelInfo::from_format(format)),
            Err(e) => Err(DecodeError::Format(e)),
        }
    }

    /// Bytes of the data section.
    pub fn data_len(&self) -> (len: u64)
        ensures
            len == self.data_len_spec(),
    {
        match self {
            DataLayout::Texture(t) => t.len,
            DataLayout::Volume(v) => v.len,
            DataLayout::TextureArray(a) => a.len,
        }
    }

    /// The texture, where the layout is one.
    pub fn texture(&self) -> (r: Option<Texture>)
        ensures
            r == match *self {
                DataLayout::Texture(t) => Some(t),
                _ => None,
            },
    {
        match self {
            DataLayout::Texture(t) => Some(*t),
            _ => None,
        }
    }

    /// The volume, where the layout is one.
    pub fn volume(&self) -> (r: Option<Volume>)
        ensures
            r == match *self {
                DataLayout::Volume(v) => Some(v),
                _ => None,
            },
    {
        match self {
            DataLayout::Volume(v) => Some(*v),
            _ => None,
        }
    }

    /// The texture array, where the layout is one.
    pub fn texture_array(&self) -> (r: Option<TextureArray>)
        ensures
            r == match *self {
                DataLayout::TextureArray(a) => Some(a),
                _ => None,
            },
    {
        match self {
            DataLayout::TextureArray(a) => Some(*a),
            _ => None,
        }
    }
}

} // verus!
