use terrain_tiles::atlas::{CompletionOutcome, TileAtlas};
use terrain_tiles::attachment::{AttachmentConfig, TexelFormat};
use terrain_tiles::config::TerrainConfig;
use terrain_tiles::coordinate::TileCoordinate;
use terrain_tiles::tree::{
    approximate, resolve_entries, ObserverPosition, SelectedNode, TileTree, BLEND_SCALE,
};

fn flat_config() -> TerrainConfig {
    TerrainConfig {
        lod_count: 8,
        face_count: 1,
        face_size: 1024,
        atlas_capacity: 16,
        attachments: vec![AttachmentConfig {
            label: String::from("height"),
            format: TexelFormat::R16,
            texture_size: 4,
            border_size: 1,
            mip_level_count: 1,
        }],
        subdivision_distance: 600,
        load_distance: 2000,
        morph_distance: 200,
        blend_distance: 1000,
        cooldown_frames: 1,
    }
}

fn coord(lod: u32, x: u32, y: u32) -> TileCoordinate {
    TileCoordinate { face: 0, lod, x, y }
}

fn load_tile(atlas: &mut TileAtlas, c: TileCoordinate) {
    atlas.begin_frame();
    atlas.request(c);
    atlas.admit_requests();
    atlas.take_load_requests(64);
    let outcome = atlas.complete_load(c, &Some(vec![vec![0u8; 32]]));
    assert!(matches!(outcome, CompletionOutcome::Loaded { .. }));
}

#[test]
fn node_distance_is_chebyshev_to_the_footprint() {
    let tree = TileTree::new(&flat_config());
    // footprint of lod 1 node (0, 0): the square [0, 512] x [0, 512]
    let pos = ObserverPosition { x: 600, y: 100, height: 50 };
    assert_eq!(tree.node_distance(&pos, coord(1, 0, 0)), 88);
    // inside the footprint only the height counts
    let above = ObserverPosition { x: 100, y: 100, height: 50 };
    assert_eq!(tree.node_distance(&above, coord(1, 0, 0)), 50);
    // negative coordinates measure from the near edge
    let outside = ObserverPosition { x: -40, y: 0, height: 0 };
    assert_eq!(tree.node_distance(&outside, coord(1, 0, 0)), 40);
}

#[test]
fn blend_interpolates_between_morph_and_blend_distance() {
    let tree = TileTree::new(&flat_config());
    // beyond the blend threshold: no cross-fade
    assert_eq!(tree.blend(0, 1500), 0);
    // inside the morph threshold: full cross-fade
    assert_eq!(tree.blend(0, 100), BLEND_SCALE);
    // exactly in between: (1000 - 600) * 1024 / (1000 - 200) = 512
    assert_eq!(tree.blend(0, 600), 512);
}

#[test]
fn traversal_is_deterministic() {
    let tree = TileTree::new(&flat_config());
    let positions = vec![ObserverPosition { x: 512, y: 512, height: 200 }];
    let (sel1, req1) = tree.traverse(&positions);
    let (sel2, req2) = tree.traverse(&positions);
    assert_eq!(sel1, sel2);
    assert_eq!(req1, req2);
}

#[test]
fn distant_observer_selects_the_root_alone() {
    let tree = TileTree::new(&flat_config());
    let positions = vec![ObserverPosition { x: 512, y: 512, height: 5000 }];
    let (sel, req) = tree.traverse(&positions);
    assert_eq!(sel.len(), 1);
    assert_eq!(sel[0].coordinate, coord(0, 0, 0));
    assert_eq!(sel[0].blend, 0);
    assert_eq!(req, vec![coord(0, 0, 0)]);
}

#[test]
fn close_observer_subdivides_and_requests_the_path() {
    let tree = TileTree::new(&flat_config());
    // height 250: below the root threshold 600, above the level-1
    // threshold 300: the root subdivides once, its children are selected
    let positions = vec![ObserverPosition { x: 512, y: 512, height: 350 }];
    let (sel, req) = tree.traverse(&positions);
    assert_eq!(sel.len(), 4);
    for n in &sel {
        assert_eq!(n.coordinate.lod, 1);
    }
    // the root stays requested for the fallback chain
    assert!(req.contains(&coord(0, 0, 0)));
    for n in &sel {
        assert!(req.contains(&n.coordinate));
    }
}

#[test]
fn resolution_falls_back_to_the_nearest_loaded_ancestor() {
    let mut atlas = TileAtlas::new(flat_config());
    load_tile(&mut atlas, coord(4, 1, 3));
    let wanted = SelectedNode { coordinate: coord(5, 3, 7), distance: 10, blend: 77 };
    let entries = resolve_entries(&atlas, &vec![wanted]);
    assert_eq!(entries.len(), 1);
    assert_eq!(entries[0].coordinate, coord(5, 3, 7));
    assert_eq!(entries[0].resolved_lod, 4);
    // no partial blend against unloaded data
    assert_eq!(entries[0].blend, 0);
    assert_eq!(Some(entries[0].slot), atlas.resident(coord(4, 1, 3)));
}

#[test]
fn resolution_keeps_the_blend_at_the_exact_level() {
    let mut atlas = TileAtlas::new(flat_config());
    load_tile(&mut atlas, coord(5, 3, 7));
    let wanted = SelectedNode { coordinate: coord(5, 3, 7), distance: 10, blend: 77 };
    let entries = resolve_entries(&atlas, &vec![wanted]);
    assert_eq!(entries.len(), 1);
    assert_eq!(entries[0].resolved_lod, 5);
    assert_eq!(entries[0].blend, 77);
}

#[test]
fn unresolvable_nodes_are_omitted_not_published() {
    let atlas = TileAtlas::new(flat_config());
    let wanted = SelectedNode { coordinate: coord(5, 3, 7), distance: 10, blend: 77 };
    let entries = resolve_entries(&atlas, &vec![wanted]);
    assert_eq!(entries.len(), 0);
}

#[test]
fn resolution_is_deterministic_in_the_resident_state() {
    let mut atlas = TileAtlas::new(flat_config());
    load_tile(&mut atlas, coord(0, 0, 0));
    load_tile(&mut atlas, coord(2, 1, 1));
    let sel = vec![
        SelectedNode { coordinate: coord(2, 1, 1), distance: 170, blend: 3 },
        SelectedNode { coordinate: coord(3, 0, 0), distance: 400, blend: 0 },
    ];
    let first = resolve_entries(&atlas, &sel);
    let second = resolve_entries(&atlas, &sel);
    assert_eq!(first, second);
}

#[test]
fn approximation_takes_the_coarsest_loaded_ancestor() {
    let mut atlas = TileAtlas::new(flat_config());
    // the root carries samples up to 515
    atlas.begin_frame();
    atlas.request(coord(0, 0, 0));
    atlas.admit_requests();
    atlas.take_load_requests(8);
    let mut bytes = vec![0u8; 32];
    bytes[2] = 3;
    bytes[3] = 2;
    atlas.complete_load(coord(0, 0, 0), &Some(vec![bytes]));

    let node = SelectedNode { coordinate: coord(3, 1, 2), distance: 0, blend: 0 };
    let approx = approximate(&atlas, &vec![node]);
    assert_eq!(approx.len(), 1);
    assert_eq!(approx[0].coordinate, coord(3, 1, 2));
    assert_eq!(approx[0].height_min, 0);
    assert_eq!(approx[0].height_max, 515);

    // with nothing of the chain resident: the full conservative range
    let other = TileAtlas::new(flat_config());
    let approx2 = approximate(&other, &vec![node]);
    assert_eq!(approx2[0].height_min, 0);
    assert_eq!(approx2[0].height_max, 0xffff);
}
