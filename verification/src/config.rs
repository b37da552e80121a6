//! Per-terrain configuration and its validation.
//!
//! All fundamental parameters of one terrain are supplied at creation and
//! may only change through an explicit reconfiguration between frames. A
//! malformed configuration is rejected at creation; the rejection is fatal
//! for that terrain only.

use vstd::prelude::*;

use crate::attachment::AttachmentConfig;
use crate::coordinate::MAX_LOD_COUNT;

verus! {

/// The renderer's binding budget: at most this many attachment channels per
/// terrain.
pub const MAX_ATTACHMENTS: usize = 8;

/// Largest number of faces a terrain shape may have (a cube-sphere has six;
/// a plane has one).
pub const MAX_FACE_COUNT: u32 = 6;

/// Largest characteristic face edge length in world units.
pub const MAX_FACE_SIZE: u64 = 0x1_0000_0000;

/// Why a terrain configuration was rejected at creation.
#[derive(Clone, Copy, PartialEq, Eq, Structural, Debug)]
pub enum ConfigError {
    /// The level-of-detail count is zero: no quadtree could exist.
    ZeroLodCount,
    /// The level-of-detail count exceeds the supported maximum.
    LodCountTooLarge,
    /// The face count is zero or above the largest supported shape.
    BadFaceCount,
    /// The face edge length is zero or above the supported maximum.
    BadFaceSize,
    /// The atlas would have no slots at all.
    ZeroAtlasCapacity,
    /// A terrain needs at least one attachment channel.
    NoAttachments,
    /// More attachment channels than the renderer's binding budget.
    TooManyAttachments,
    /// An attachment descriptor is malformed (halo swallows the interior,
    /// oversized texture, or no mip level).
    BadAttachment,
}

/// The configuration of one terrain: quadtree shape, atlas capacity, the
/// attachment channels, and the traversal distance thresholds.
///
/// Every distance threshold is given for level 0 in world units and halves
/// with each finer level, matching the halving node footprint.
#[derive(Clone, Debug)]
pub struct TerrainConfig {
    /// The count of level-of-detail layers.
    pub lod_count: u32,
    /// Number of quadtree root faces of the terrain shape.
    pub face_count: u32,
    /// Characteristic edge length of one face in world units.
    pub face_size: u64,
    /// Number of tile slots the atlas owns, shared by all observers.
    pub atlas_capacity: u32,
    /// The attachment channels of the terrain.
    pub attachments: Vec<AttachmentConfig>,
    /// Observers closer than this to a node subdivide it into its children.
    pub subdivision_distance: u64,
    /// Nodes within this distance are requested even before being selected.
    pub load_distance: u64,
    /// Below this distance a selected node is fully morphed toward the next
    /// finer level.
    pub morph_distance: u64,
    /// Below this distance the cross-fade toward the next finer level
    /// begins.
    pub blend_distance: u64,
    /// Frames a failed tile must rest before an explicit re-request may
    /// retry it.
    pub cooldown_frames: u64,
}

impl TerrainConfig {
    /// A configuration is well formed exactly when creation accepts it.
    pub open spec fn wf(self) -> bool {
        &&& 1 <= self.lod_count <= MAX_LOD_COUNT
        &&& 1 <= self.face_count <= MAX_FACE_COUNT
        &&& 1 <= self.face_size <= MAX_FACE_SIZE
        &&& self.atlas_capacity >= 1
        &&& 1 <= self.attachments@.len() <= MAX_ATTACHMENTS
        &&& forall|i: int|
            0 <= i < self.attachments@.len() ==> (#[trigger] self.attachments@[i]).wf()
    }

    /// The first reason, in a fixed checking order, for which this
    /// configuration is rejected; nothing when it is accepted.
    pub open spec fn first_error_spec(self) -> Option<ConfigError> {
        if self.lod_count == 0 {
            Some(ConfigError::ZeroLodCount)
        } else if self.lod_count > MAX_LOD_COUNT {
            Some(ConfigError::LodCountTooLarge)
        } else if self.face_count == 0 || self.face_count > MAX_FACE_COUNT {
            Some(ConfigError::BadFaceCount)
        } else if self.face_size == 0 || self.face_size > MAX_FACE_SIZE {
            Some(ConfigError::BadFaceSize)
        } else if self.atlas_capacity == 0 {
            Some(ConfigError::ZeroAtlasCapacity)
        } else if self.attachments@.len() == 0 {
            Some(ConfigError::NoAttachments)
        } else if self.attachments@.len() > MAX_ATTACHMENTS {
            Some(ConfigError::TooManyAttachments)
        } else if exists|i: int|
            0 <= i < self.attachments@.len() && !(#[trigger] self.attachments@[i]).wf() {
            Some(ConfigError::BadAttachment)
        } else {
            None
        }
    }

    /// Checks the configuration at terrain creation: accepts it exactly
    /// when it is well formed, and otherwise names the first offending
    /// parameter.
    #[verifier::loop_isolation(false)]
    pub fn validate(&self) -> (r: Result<(), ConfigError>)
        ensures
            r is Ok <==> self.wf(),
            r == match self.first_error_spec() {
                Option::None => Result::<(), ConfigError>::Ok(()),
                Option::Some(e) => Result::<(), ConfigError>::Err(e),
            },
    {
        if self.lod_count == 0 {
            return Err(ConfigError::ZeroLodCount);
        }
        if self.lod_count > MAX_LOD_COUNT {
            return Err(ConfigError::LodCountTooLarge);
        }
        if self.face_count == 0 || self.face_count > MAX_FACE_COUNT {
            return Err(ConfigError::BadFaceCount);
        }
        if self.face_size == 0 || self.face_size > MAX_FACE_SIZE {
            return Err(ConfigError::BadFaceSize);
        }
        if self.atlas_capacity == 0 {
            return Err(ConfigError::ZeroAtlasCapacity);
        }
        if self.attachments.len() == 0 {
            return Err(ConfigError::NoAttachments);
        }
        if self.attachments.len() > MAX_ATTACHMENTS {
            return Err(ConfigError::TooManyAttachments);
        }
        let mut i: usize = 0;
        while i < self.attachments.len()
            invariant
                0 <= i <= self.attachments@.len(),
                forall|j: int| 0 <= j < i ==> (#[trigger] self.attachments@[j]).wf(),
            decreases self.attachments@.len() - i,
        {
            let a = &self.attachments[i];
            if !(1 <= a.texture_size && a.texture_size <= crate::attachment::MAX_TEXTURE_SIZE
                && 2 * (a.border_size as u64) < a.texture_size as u64
                && a.mip_level_count >= 1) {
                proof {
                    assert(!self.attachments@[i as int].wf());
                    assert(exists|j: int|
                        0 <= j < self.attachments@.len()
                            && !(#[trigger] self.attachments@[j]).wf());
                }
                return Err(ConfigError::BadAttachment);
            }
            assert(self.attachments@[i as int].wf());
            i = i + 1;
        }
        Ok(())
    }
}

} // verus!
