use terrain_tiles::atlas::{SlotState, TileAtlas};
use terrain_tiles::attachment::{AttachmentConfig, TexelFormat};
use terrain_tiles::config::TerrainConfig;
use terrain_tiles::pipeline::{process_frame, LoadCompletion};
use terrain_tiles::tree::{ObserverPosition, TileTree};

fn scenario_config(lod_count: u32, capacity: u32) -> TerrainConfig {
    TerrainConfig {
        lod_count,
        face_count: 1,
        face_size: 1024,
        atlas_capacity: capacity,
        attachments: vec![AttachmentConfig {
            label: String::from("height"),
            format: TexelFormat::R16,
            texture_size: 4,
            border_size: 1,
            mip_level_count: 1,
        }],
        subdivision_distance: 600,
        load_distance: 2000,
        morph_distance: 0,
        blend_distance: 0,
        cooldown_frames: 1,
    }
}

fn good_completions(jobs: &[terrain_tiles::coordinate::TileCoordinate]) -> Vec<LoadCompletion> {
    jobs.iter()
        .map(|c| LoadCompletion { coordinate: *c, payloads: Some(vec![vec![0u8; 32]]) })
        .collect()
}

#[test]
fn observer_movement_keeps_the_loaded_ancestor_on_screen() {
    // an observer at height 200 selects level-2 nodes; descending to 100
    // demands their level-3 children while those are still loading, and
    // resolution must keep handing out the loaded level-2 ancestors with
    // no cross-fade until the children arrive
    let cfg = scenario_config(4, 128);
    let mut atlas = TileAtlas::new(cfg.clone());
    let trees = vec![TileTree::new(&cfg)];
    let far = vec![vec![ObserverPosition { x: 512, y: 512, height: 200 }]];
    let near = vec![vec![ObserverPosition { x: 512, y: 512, height: 100 }]];

    // frame 1: nothing resident yet, nothing published, loads dispatched
    let out1 = process_frame(&mut atlas, &trees, &far, &Vec::new(), 256);
    assert_eq!(out1.entries[0].len(), 0);
    assert!(!out1.load_jobs.is_empty());

    // frame 2: completions drained, the level-2 set is published exactly
    let out2 = process_frame(&mut atlas, &trees, &far, &good_completions(&out1.load_jobs), 256);
    assert_eq!(out2.entries[0].len(), 16);
    for e in &out2.entries[0] {
        assert_eq!(e.coordinate.lod, 2);
        assert_eq!(e.resolved_lod, 2);
    }

    // frame 3: the observer descended; the four nearest level-2 nodes
    // subdivide into sixteen level-3 children, which are demanded but
    // still loading, so each such entry falls back to its level-2
    // ancestor with no cross-fade; the twelve outer nodes stay level 2
    let out3 = process_frame(&mut atlas, &trees, &near, &Vec::new(), 256);
    assert_eq!(out3.entries[0].len(), 28);
    let mut children = 0;
    for e in &out3.entries[0] {
        assert_eq!(e.resolved_lod, 2);
        if e.coordinate.lod == 3 {
            assert_eq!(e.blend, 0);
            children += 1;
        } else {
            assert_eq!(e.coordinate.lod, 2);
        }
    }
    assert_eq!(children, 16);

    // every published entry references a loaded slot
    for e in &out3.entries[0] {
        assert!(matches!(atlas.slots[e.slot].state, SlotState::Loaded));
    }
}

#[test]
fn two_observers_produce_one_load_per_coordinate() {
    let cfg = scenario_config(2, 32);
    let mut atlas = TileAtlas::new(cfg.clone());
    let trees = vec![TileTree::new(&cfg), TileTree::new(&cfg)];
    let pos = ObserverPosition { x: 512, y: 512, height: 5000 };
    let observers = vec![vec![pos], vec![pos]];

    let out = process_frame(&mut atlas, &trees, &observers, &Vec::new(), 256);
    // both observers wanted the root; one admission, one load
    assert_eq!(out.load_jobs.len(), 1);
    assert_eq!(atlas.requests.len(), 1);
}

#[test]
fn a_requested_coordinate_becomes_resident_within_two_frames() {
    let cfg = scenario_config(1, 4);
    let mut atlas = TileAtlas::new(cfg.clone());
    let trees = vec![TileTree::new(&cfg)];
    let observers = vec![vec![ObserverPosition { x: 0, y: 0, height: 9000 }]];

    let out1 = process_frame(&mut atlas, &trees, &observers, &Vec::new(), 4);
    assert_eq!(out1.load_jobs.len(), 1);
    let root = out1.load_jobs[0];

    let out2 = process_frame(&mut atlas, &trees, &observers, &good_completions(&out1.load_jobs), 4);
    assert!(atlas.resident(root).is_some());
    assert_eq!(out2.entries[0].len(), 1);
    assert_eq!(out2.entries[0][0].coordinate, root);
    assert_eq!(out2.entries[0][0].resolved_lod, 0);
}

#[test]
fn published_frames_never_reference_unloaded_slots() {
    // drive several frames with mixed good and failing loads and check the
    // fallback invariant on everything published
    let cfg = scenario_config(4, 128);
    let mut atlas = TileAtlas::new(cfg.clone());
    let trees = vec![TileTree::new(&cfg)];
    let observers = vec![vec![ObserverPosition { x: 300, y: 700, height: 150 }]];

    let mut pending: Vec<LoadCompletion> = Vec::new();
    for frame in 0..6 {
        let out = process_frame(&mut atlas, &trees, &observers, &pending, 32);
        for e in &out.entries[0] {
            assert!(matches!(atlas.slots[e.slot].state, SlotState::Loaded));
        }
        // every other job fails with a short payload
        pending = out
            .load_jobs
            .iter()
            .enumerate()
            .map(|(i, c)| LoadCompletion {
                coordinate: *c,
                payloads: if (i + frame) % 2 == 0 {
                    Some(vec![vec![0u8; 32]])
                } else {
                    Some(vec![vec![0u8; 7]])
                },
            })
            .collect();
    }
}
