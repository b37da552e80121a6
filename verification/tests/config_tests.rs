use terrain_tiles::attachment::{AttachmentConfig, TexelFormat};
use terrain_tiles::config::{ConfigError, TerrainConfig};

fn height_attachment() -> AttachmentConfig {
    AttachmentConfig {
        label: String::from("height"),
        format: TexelFormat::R16,
        texture_size: 512,
        border_size: 2,
        mip_level_count: 4,
    }
}

fn good_config() -> TerrainConfig {
    TerrainConfig {
        lod_count: 8,
        face_count: 6,
        face_size: 1 << 20,
        atlas_capacity: 64,
        attachments: vec![height_attachment()],
        subdivision_distance: 4 << 20,
        load_distance: 8 << 20,
        morph_distance: 1 << 20,
        blend_distance: 2 << 20,
        cooldown_frames: 30,
    }
}

#[test]
fn a_sound_configuration_is_accepted() {
    assert_eq!(good_config().validate(), Ok(()));
}

#[test]
fn zero_lod_count_is_rejected() {
    let mut c = good_config();
    c.lod_count = 0;
    assert_eq!(c.validate(), Err(ConfigError::ZeroLodCount));
}

#[test]
fn oversized_lod_count_is_rejected() {
    let mut c = good_config();
    c.lod_count = 33;
    assert_eq!(c.validate(), Err(ConfigError::LodCountTooLarge));
}

#[test]
fn bad_face_count_is_rejected() {
    let mut c = good_config();
    c.face_count = 0;
    assert_eq!(c.validate(), Err(ConfigError::BadFaceCount));
    c.face_count = 7;
    assert_eq!(c.validate(), Err(ConfigError::BadFaceCount));
}

#[test]
fn bad_face_size_is_rejected() {
    let mut c = good_config();
    c.face_size = 0;
    assert_eq!(c.validate(), Err(ConfigError::BadFaceSize));
}

#[test]
fn zero_capacity_is_rejected() {
    let mut c = good_config();
    c.atlas_capacity = 0;
    assert_eq!(c.validate(), Err(ConfigError::ZeroAtlasCapacity));
}

#[test]
fn missing_attachments_are_rejected() {
    let mut c = good_config();
    c.attachments = Vec::new();
    assert_eq!(c.validate(), Err(ConfigError::NoAttachments));
}

#[test]
fn binding_budget_is_enforced() {
    let mut c = good_config();
    c.attachments = (0..9).map(|_| height_attachment()).collect();
    assert_eq!(c.validate(), Err(ConfigError::TooManyAttachments));
}

#[test]
fn halo_swallowing_the_interior_is_rejected() {
    let mut c = good_config();
    c.attachments = vec![AttachmentConfig { border_size: 256, ..height_attachment() }];
    assert_eq!(c.validate(), Err(ConfigError::BadAttachment));
}

#[test]
fn center_size_excludes_the_halo() {
    let a = height_attachment();
    assert_eq!(a.center_size(), 508);
}

#[test]
fn expected_byte_len_follows_format_and_size() {
    let a = height_attachment();
    assert_eq!(a.expected_byte_len(), 512 * 512 * 2);
    assert!(a.payload_matches(512 * 512 * 2));
    assert!(!a.payload_matches(512 * 512 * 2 - 1));
    let rgba = AttachmentConfig {
        label: String::from("albedo"),
        format: TexelFormat::Rgba8,
        texture_size: 256,
        border_size: 1,
        mip_level_count: 1,
    };
    assert_eq!(rgba.expected_byte_len(), 256 * 256 * 4);
}

#[test]
fn mip_payloads_halve_per_level() {
    let a = height_attachment();
    assert_eq!(a.mip_byte_len(0), 512 * 512 * 2);
    assert_eq!(a.mip_byte_len(1), 256 * 256 * 2);
    assert_eq!(a.mip_byte_len(3), 64 * 64 * 2);
    // far past the pyramid the edge is exhausted
    assert_eq!(a.mip_byte_len(10), 0);
}

#[test]
fn the_largest_texture_still_measures_exactly() {
    let a = AttachmentConfig {
        label: String::from("height"),
        format: TexelFormat::Rg16,
        texture_size: 16384,
        border_size: 8,
        mip_level_count: 1,
    };
    let mut c = good_config();
    c.attachments = vec![a.clone()];
    assert_eq!(c.validate(), Ok(()));
    assert_eq!(a.expected_byte_len(), 16384u64 * 16384 * 4);
}
