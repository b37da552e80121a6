use terrain_tiles::coordinate::TileCoordinate;
use terrain_tiles::records::{decode_record, encode_record, encode_table, RECORD_BYTES};
use terrain_tiles::tree::ResolutionEntry;

fn sample_entry() -> ResolutionEntry {
    ResolutionEntry {
        coordinate: TileCoordinate { face: 1, lod: 2, x: 3, y: 4 },
        resolved_lod: 2,
        slot: 7,
        blend: 512,
        distance: 0x1_0000_0001,
    }
}

#[test]
fn record_layout_is_stable() {
    let mut out = Vec::new();
    encode_record(&mut out, &sample_entry());
    assert_eq!(out.len(), RECORD_BYTES);
    // face, lod, grid position and resolved level at offsets 0..20
    assert_eq!(&out[0..4], &[1, 0, 0, 0]);
    assert_eq!(&out[4..8], &[2, 0, 0, 0]);
    assert_eq!(&out[8..12], &[3, 0, 0, 0]);
    assert_eq!(&out[12..16], &[4, 0, 0, 0]);
    assert_eq!(&out[16..20], &[2, 0, 0, 0]);
    // the atlas slot at offset 20
    assert_eq!(&out[20..24], &[7, 0, 0, 0]);
    // blend 512 = 0x200 at offset 24
    assert_eq!(&out[24..28], &[0, 2, 0, 0]);
    // 64-bit distance at offset 28
    assert_eq!(&out[28..36], &[1, 0, 0, 0, 1, 0, 0, 0]);
}

#[test]
fn record_round_trip_restores_the_entry() {
    let e = sample_entry();
    let mut out = Vec::new();
    encode_record(&mut out, &e);
    assert_eq!(decode_record(&out), Some(e));
}

#[test]
fn extreme_field_values_survive_the_round_trip() {
    let e = ResolutionEntry {
        coordinate: TileCoordinate {
            face: u32::MAX,
            lod: u32::MAX,
            x: u32::MAX,
            y: u32::MAX,
        },
        resolved_lod: 0,
        slot: u32::MAX as usize,
        blend: u32::MAX,
        distance: u64::MAX,
    };
    let mut out = Vec::new();
    encode_record(&mut out, &e);
    assert_eq!(decode_record(&out), Some(e));
}

#[test]
fn wrong_length_records_are_rejected() {
    let mut out = Vec::new();
    encode_record(&mut out, &sample_entry());
    out.pop();
    assert_eq!(decode_record(&out), None);
    assert_eq!(decode_record(&Vec::new()), None);
}

#[test]
fn table_encoding_concatenates_fixed_records() {
    let e1 = sample_entry();
    let mut e2 = sample_entry();
    e2.coordinate.x = 9;
    e2.blend = 1024;
    let bytes = encode_table(&vec![e1, e2]);
    assert_eq!(bytes.len(), 2 * RECORD_BYTES);
    assert_eq!(decode_record(&bytes[0..RECORD_BYTES].to_vec()), Some(e1));
    assert_eq!(decode_record(&bytes[RECORD_BYTES..].to_vec()), Some(e2));
}
