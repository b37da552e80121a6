use terrain_tiles::attachment::{AttachmentConfig, TexelFormat};
use terrain_tiles::config::{ConfigError, TerrainConfig};
use terrain_tiles::pipeline::LoadCompletion;
use terrain_tiles::registry::TerrainRegistry;
use terrain_tiles::tree::ObserverPosition;

fn registry_config() -> TerrainConfig {
    TerrainConfig {
        lod_count: 1,
        face_count: 1,
        face_size: 1024,
        atlas_capacity: 4,
        attachments: vec![AttachmentConfig {
            label: String::from("height"),
            format: TexelFormat::R16,
            texture_size: 4,
            border_size: 1,
            mip_level_count: 1,
        }],
        subdivision_distance: 600,
        load_distance: 2000,
        morph_distance: 0,
        blend_distance: 0,
        cooldown_frames: 1,
    }
}

#[test]
fn handles_are_issued_in_creation_order() {
    let mut registry = TerrainRegistry::new();
    assert_eq!(registry.create_terrain(registry_config()), Ok(0));
    assert_eq!(registry.create_terrain(registry_config()), Ok(1));
    assert_eq!(registry.add_observer(0), Some(0));
    assert_eq!(registry.add_observer(0), Some(1));
    assert_eq!(registry.add_observer(1), Some(0));
    assert_eq!(registry.add_observer(7), None);
}

#[test]
fn malformed_configurations_are_fatal_for_that_terrain_only() {
    let mut registry = TerrainRegistry::new();
    let mut bad = registry_config();
    bad.lod_count = 0;
    assert_eq!(registry.create_terrain(bad), Err(ConfigError::ZeroLodCount));
    assert_eq!(registry.create_terrain(registry_config()), Ok(0));
}

#[test]
fn reconfiguration_rebuilds_the_atlas_between_frames() {
    let mut registry = TerrainRegistry::new();
    let terrain = registry.create_terrain(registry_config()).unwrap();
    registry.add_observer(terrain).unwrap();
    let observers = vec![vec![ObserverPosition { x: 0, y: 0, height: 9000 }]];
    let out1 = registry.run_frame(terrain, &observers, &Vec::new(), 8);

    let mut wider = registry_config();
    wider.atlas_capacity = 16;
    assert_eq!(registry.reconfigure_terrain(terrain, wider), Ok(()));
    // the rebuilt atlas starts empty; the observer stays registered and
    // the next frame re-requests from scratch
    assert!(registry.resident(terrain, out1.load_jobs[0]).is_none());
    let out2 = registry.run_frame(terrain, &observers, &Vec::new(), 8);
    assert_eq!(out2.load_jobs.len(), 1);

    let mut bad = registry_config();
    bad.atlas_capacity = 0;
    assert_eq!(
        registry.reconfigure_terrain(terrain, bad),
        Err(ConfigError::ZeroAtlasCapacity)
    );
}

#[test]
fn a_registry_frame_loads_and_publishes() {
    let mut registry = TerrainRegistry::new();
    let terrain = registry.create_terrain(registry_config()).unwrap();
    registry.add_observer(terrain).unwrap();
    let observers = vec![vec![ObserverPosition { x: 0, y: 0, height: 9000 }]];

    let out1 = registry.run_frame(terrain, &observers, &Vec::new(), 8);
    assert_eq!(out1.entries.len(), 1);
    assert_eq!(out1.entries[0].len(), 0);
    assert_eq!(out1.load_jobs.len(), 1);
    let root = out1.load_jobs[0];

    let completions = vec![LoadCompletion {
        coordinate: root,
        payloads: Some(vec![vec![0u8; 32]]),
    }];
    let out2 = registry.run_frame(terrain, &observers, &completions, 8);
    assert!(registry.resident(terrain, root).is_some());
    assert_eq!(out2.entries[0].len(), 1);
    assert_eq!(out2.entries[0][0].coordinate, root);
}
