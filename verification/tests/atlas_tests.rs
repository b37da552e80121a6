use terrain_tiles::atlas::{CompletionOutcome, SlotState, SlotStatus, TileAtlas};
use terrain_tiles::attachment::{AttachmentConfig, TexelFormat};
use terrain_tiles::config::TerrainConfig;
use terrain_tiles::coordinate::TileCoordinate;

// A tiny attachment: 4x4 texels of 16 bits, 32 bytes per payload.
fn tiny_config(capacity: u32, cooldown: u64) -> TerrainConfig {
    TerrainConfig {
        lod_count: 8,
        face_count: 1,
        face_size: 1024,
        atlas_capacity: capacity,
        attachments: vec![AttachmentConfig {
            label: String::from("height"),
            format: TexelFormat::R16,
            texture_size: 4,
            border_size: 1,
            mip_level_count: 1,
        }],
        subdivision_distance: 600,
        load_distance: 2000,
        morph_distance: 100,
        blend_distance: 400,
        cooldown_frames: cooldown,
    }
}

fn coord(lod: u32, x: u32, y: u32) -> TileCoordinate {
    TileCoordinate { face: 0, lod, x, y }
}

fn good_payload() -> Option<Vec<Vec<u8>>> {
    Some(vec![vec![0u8; 32]])
}

#[test]
fn scenario_four_admissions_then_lru_eviction() {
    let mut atlas = TileAtlas::new(tiny_config(4, 1));
    let four = [coord(2, 0, 0), coord(2, 0, 1), coord(2, 1, 0), coord(2, 1, 1)];

    atlas.begin_frame();
    for c in four {
        assert_eq!(atlas.request(c), SlotStatus::Pending);
    }
    atlas.admit_requests();
    // all four admitted: the table held four free slots, no eviction needed
    for c in four {
        assert!(matches!(atlas.status(c), SlotStatus::Requested { .. }));
    }
    let jobs = atlas.take_load_requests(8);
    assert_eq!(jobs.len(), 4);
    for c in jobs {
        assert!(matches!(atlas.complete_load(c, &good_payload()), CompletionOutcome::Loaded { .. }));
    }

    // refresh three of them, leaving the first least recently used
    atlas.begin_frame();
    for c in &four[1..] {
        assert!(matches!(atlas.request(*c), SlotStatus::Loaded { .. }));
    }
    atlas.admit_requests();

    // a fifth coordinate, with none of the four re-requested: evicts the
    // least recently used of the four and admits the fifth
    let fifth = coord(3, 0, 0);
    atlas.begin_frame();
    assert_eq!(atlas.request(fifth), SlotStatus::Pending);
    atlas.admit_requests();
    assert!(matches!(atlas.status(fifth), SlotStatus::Requested { .. }));
    assert!(atlas.resident(four[0]).is_none());
    for c in &four[1..] {
        assert!(atlas.resident(*c).is_some());
    }
}

#[test]
fn eviction_never_touches_a_requested_coordinate() {
    let mut atlas = TileAtlas::new(tiny_config(1, 1));
    let c1 = coord(1, 0, 0);
    let c2 = coord(1, 1, 1);

    atlas.begin_frame();
    atlas.request(c1);
    atlas.admit_requests();
    atlas.take_load_requests(8);
    atlas.complete_load(c1, &good_payload());

    // both requested this frame; the single slot holds c1, which may not
    // be evicted: c2 stays pending, backpressure rather than an error
    atlas.begin_frame();
    assert!(matches!(atlas.request(c1), SlotStatus::Loaded { .. }));
    assert_eq!(atlas.request(c2), SlotStatus::Pending);
    atlas.admit_requests();
    assert!(atlas.resident(c1).is_some());
    assert_eq!(atlas.status(c2), SlotStatus::Pending);
}

#[test]
fn duplicate_requests_make_one_admission_and_one_load() {
    let mut atlas = TileAtlas::new(tiny_config(4, 1));
    let c = coord(2, 1, 1);

    atlas.begin_frame();
    atlas.request(c);
    atlas.request(c);
    atlas.request(c);
    assert_eq!(atlas.requests.len(), 1);
    atlas.admit_requests();
    let jobs = atlas.take_load_requests(8);
    assert_eq!(jobs, vec![c]);
}

#[test]
fn short_payload_fails_the_slot() {
    let mut atlas = TileAtlas::new(tiny_config(4, 10));
    let c = coord(5, 3, 7);

    atlas.begin_frame();
    atlas.request(c);
    atlas.admit_requests();
    atlas.take_load_requests(8);
    // byte length below texture_size^2 x bytes_per_texel: a failed load
    let outcome = atlas.complete_load(c, &Some(vec![vec![0u8; 31]]));
    assert!(matches!(outcome, CompletionOutcome::Failed { .. }));
    assert!(matches!(atlas.status(c), SlotStatus::Failed { .. }));
    assert!(atlas.resident(c).is_none());
}

#[test]
fn read_error_fails_the_slot() {
    let mut atlas = TileAtlas::new(tiny_config(4, 10));
    let c = coord(1, 0, 1);

    atlas.begin_frame();
    atlas.request(c);
    atlas.admit_requests();
    atlas.take_load_requests(8);
    let outcome = atlas.complete_load(c, &None);
    assert!(matches!(outcome, CompletionOutcome::Failed { .. }));
}

#[test]
fn failed_tile_retries_only_after_the_cooldown() {
    let mut atlas = TileAtlas::new(tiny_config(4, 2));
    let c = coord(2, 3, 3);

    // frame 1: admit, dispatch, fail
    atlas.begin_frame();
    atlas.request(c);
    atlas.admit_requests();
    atlas.take_load_requests(8);
    atlas.complete_load(c, &None);

    // frame 2: re-requested during the cool-down: still failed
    atlas.begin_frame();
    atlas.request(c);
    atlas.admit_requests();
    assert!(matches!(atlas.status(c), SlotStatus::Failed { .. }));

    // frame 3: the cool-down has passed: the re-request retries
    atlas.begin_frame();
    atlas.request(c);
    atlas.admit_requests();
    assert!(matches!(atlas.status(c), SlotStatus::Requested { .. }));
}

#[test]
fn completion_without_a_loading_slot_is_ignored() {
    let mut atlas = TileAtlas::new(tiny_config(4, 1));
    let c = coord(1, 1, 0);
    atlas.begin_frame();
    assert_eq!(atlas.complete_load(c, &good_payload()), CompletionOutcome::Ignored);
}

#[test]
fn loaded_slots_record_the_height_interval() {
    let mut atlas = TileAtlas::new(tiny_config(4, 1));
    let c = coord(0, 0, 0);
    atlas.begin_frame();
    atlas.request(c);
    atlas.admit_requests();
    atlas.take_load_requests(8);
    let mut bytes = vec![0u8; 32];
    // one sample of 3, one of 515, the rest zero
    bytes[0] = 3;
    bytes[2] = 3;
    bytes[3] = 2;
    let outcome = atlas.complete_load(c, &Some(vec![bytes]));
    let slot = match outcome {
        CompletionOutcome::Loaded { slot } => slot,
        _ => panic!("expected a loaded slot"),
    };
    assert_eq!(atlas.slots[slot].height_min, 0);
    assert_eq!(atlas.slots[slot].height_max, 515);
    assert!(matches!(atlas.slots[slot].state, SlotState::Loaded));
}
