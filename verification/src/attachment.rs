//! Per-channel attachment descriptors.
//!
//! An attachment is one raster channel of the terrain (the heightmap, or an
//! auxiliary channel). Its descriptor is fixed at terrain creation: texel
//! format, texture size and the border width reserved on every edge for the
//! halo that lets filtered sampling cross tile seams.

use vstd::prelude::*;

verus! {

/// The widest texture edge a descriptor may declare; keeps every byte-length
/// computation comfortably inside `u64`.
pub const MAX_TEXTURE_SIZE: u32 = 16384;

/// Texel storage format of one attachment channel.
#[derive(Clone, Copy, PartialEq, Eq, Structural, Debug)]
pub enum TexelFormat {
    /// One 8-bit channel per texel.
    R8,
    /// One 16-bit channel per texel; the usual heightmap format.
    R16,
    /// Two 16-bit channels per texel.
    Rg16,
    /// Four 8-bit channels per texel.
    Rgba8,
}

impl TexelFormat {
    /// Width of one texel in bytes.
    pub open spec fn bytes_per_texel_spec(self) -> u32 {
        match self {
            TexelFormat::R8 => 1,
            TexelFormat::R16 => 2,
            TexelFormat::Rg16 => 4,
            TexelFormat::Rgba8 => 4,
        }
    }

    /// Width of one texel in bytes.
    pub fn bytes_per_texel(self) -> (r: u32)
        ensures
            r == self.bytes_per_texel_spec(),
            1 <= r <= 4,
    {
        match self {
            TexelFormat::R8 => 1,
            TexelFormat::R16 => 2,
            TexelFormat::Rg16 => 4,
            TexelFormat::Rgba8 => 4,
        }
    }
}

/// Static configuration of one attachment channel, immutable after terrain
/// creation.
#[derive(Clone, Debug)]
pub struct AttachmentConfig {
    /// Name under which the backing store files of this channel are found.
    pub label: String,
    /// Texel format of the stored data.
    pub format: TexelFormat,
    /// Edge length of one tile texture in texels, halo included.
    pub texture_size: u32,
    /// Texels reserved on each edge for the neighbor-stitched halo.
    pub border_size: u32,
    /// Number of precomputed mip levels accompanying the base level.
    pub mip_level_count: u32,
}

impl AttachmentConfig {
    /// A descriptor is well formed when the halo leaves a usable interior
    /// and the texture edge stays within the supported maximum.
    pub open spec fn wf(self) -> bool {
        &&& 1 <= self.texture_size <= MAX_TEXTURE_SIZE
        &&& 2 * self.border_size < self.texture_size
        &&& self.mip_level_count >= 1
    }

    /// Usable interior edge length: the texture edge minus the halo on both
    /// sides.
    pub open spec fn center_size_spec(self) -> u32 {
        (self.texture_size - 2 * self.border_size) as u32
    }

    /// Usable interior edge length.
    pub fn center_size(&self) -> (r: u32)
        requires
            self.wf(),
        ensures
            r == self.center_size_spec(),
            1 <= r <= self.texture_size,
    {
        self.texture_size - 2 * self.border_size
    }

    /// Exact byte length a base-level tile payload of this channel must
    /// have: a full square of texels, halo included.
    pub open spec fn expected_byte_len_spec(self) -> u64 {
        (self.texture_size * self.texture_size * self.format.bytes_per_texel_spec()) as u64
    }

    /// Exact byte length a base-level tile payload of this channel must
    /// have.
    pub fn expected_byte_len(&self) -> (r: u64)
        requires
            self.wf(),
        ensures
            r == self.expected_byte_len_spec(),
            r >= 1,
    {
        proof {
            assert(self.texture_size * self.texture_size * self.format.bytes_per_texel_spec()
                <= 16384 * 16384 * 4) by (nonlinear_arith)
                requires
                    1 <= self.texture_size <= 16384,
                    1 <= self.format.bytes_per_texel_spec() <= 4,
            ;
            assert(self.texture_size * self.texture_size * self.format.bytes_per_texel_spec()
                >= 1) by (nonlinear_arith)
                requires
                    1 <= self.texture_size,
                    1 <= self.format.bytes_per_texel_spec(),
            ;
        }
        self.texture_size as u64 * self.texture_size as u64
            * self.format.bytes_per_texel() as u64
    }

    /// Texture edge length at mip level `level`: the base edge, halved
    /// per level (rounding down), to zero once exhausted.
    pub open spec fn mip_edge_spec(self, level: u32) -> int {
        self.texture_size as int / crate::coordinate::grid_size_spec(level as nat) as int
    }

    /// Exact byte length of one precomputed mip payload of this channel.
    /// Level zero is the base level.
    pub fn mip_byte_len(&self, level: u32) -> (r: u64)
        requires
            self.wf(),
            level < crate::coordinate::MAX_LOD_COUNT,
        ensures
            r == self.mip_edge_spec(level) * self.mip_edge_spec(level)
                * self.format.bytes_per_texel_spec(),
    {
        proof {
            crate::coordinate::lemma_grid_is_pow2(level as nat);
            crate::coordinate::lemma_grid_size_bound(level as nat);
            vstd::bits::lemma_u32_shr_is_div(self.texture_size, level);
            vstd::arithmetic::div_mod::lemma_div_is_ordered_by_denominator(
                self.texture_size as int,
                1,
                crate::coordinate::grid_size_spec(level as nat) as int,
            );
            vstd::arithmetic::div_mod::lemma_div_pos_is_pos(
                self.texture_size as int,
                crate::coordinate::grid_size_spec(level as nat) as int,
            );
        }
        let edge = self.texture_size >> level;
        proof {
            assert(edge * edge * self.format.bytes_per_texel_spec() <= 16384 * 16384 * 4)
                by (nonlinear_arith)
                requires
                    0 <= edge <= 16384,
                    1 <= self.format.bytes_per_texel_spec() <= 4,
            ;
        }
        edge as u64 * edge as u64 * self.format.bytes_per_texel() as u64
    }

    /// Whether a decoded payload of `len` bytes matches the declared format
    /// and size. A mismatch makes the load a failure.
    pub fn payload_matches(&self, len: u64) -> (r: bool)
        requires
            self.wf(),
        ensures
            r <==> len == self.expected_byte_len_spec(),
    {
        len == self.expected_byte_len()
    }
}

} // verus!
