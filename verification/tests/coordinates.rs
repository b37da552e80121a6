use terrain_tiles::coordinate::{grid_size, TileCoordinate};

#[test]
fn grid_size_doubles_per_level() {
    assert_eq!(grid_size(0), 1);
    assert_eq!(grid_size(1), 2);
    assert_eq!(grid_size(5), 32);
    assert_eq!(grid_size(31), 0x8000_0000);
}

#[test]
fn parent_halves_grid_position() {
    let c = TileCoordinate { face: 2, lod: 3, x: 5, y: 6 };
    let p = c.parent();
    assert_eq!(p, TileCoordinate { face: 2, lod: 2, x: 2, y: 3 });
}

#[test]
fn children_cover_the_four_quadrants() {
    let c = TileCoordinate { face: 0, lod: 1, x: 1, y: 0 };
    assert_eq!(c.child(0), TileCoordinate { face: 0, lod: 2, x: 2, y: 0 });
    assert_eq!(c.child(1), TileCoordinate { face: 0, lod: 2, x: 3, y: 0 });
    assert_eq!(c.child(2), TileCoordinate { face: 0, lod: 2, x: 2, y: 1 });
    assert_eq!(c.child(3), TileCoordinate { face: 0, lod: 2, x: 3, y: 1 });
}

#[test]
fn each_child_parent_is_the_node_itself() {
    let c = TileCoordinate { face: 1, lod: 4, x: 9, y: 12 };
    for i in 0..4 {
        assert_eq!(c.child(i).parent(), c);
    }
}

#[test]
fn ancestor_walk_reaches_the_root() {
    let c = TileCoordinate { face: 0, lod: 5, x: 3, y: 7 };
    assert_eq!(c.ancestor_at(5), c);
    assert_eq!(c.ancestor_at(4), TileCoordinate { face: 0, lod: 4, x: 1, y: 3 });
    assert_eq!(c.ancestor_at(0), TileCoordinate { face: 0, lod: 0, x: 0, y: 0 });
}
