//! Fixed-layout binary records of the published resolution table.
//!
//! The render stage consumes the table as a sequence of fixed-width
//! little-endian records. Field order and widths are fixed: `face`, `lod`,
//! `grid_x`, `grid_y`, `resolved_lod` and `atlas_slot` as 32-bit words at
//! byte offsets 0, 4, 8, 12, 16 and 20, the `blend` factor at offset 24,
//! and the 64-bit view distance at offset 28; 36 bytes in all.

use vstd::prelude::*;

use crate::tree::ResolutionEntry;

verus! {

/// Byte width of one resolution record.
pub const RECORD_BYTES: usize = 36;

/// Little-endian bytes of a 32-bit word.
pub open spec fn u32_le_spec(v: u32) -> Seq<u8> {
    seq![
        (v & 0xff) as u8,
        ((v >> 8) & 0xff) as u8,
        ((v >> 16) & 0xff) as u8,
        ((v >> 24) & 0xff) as u8,
    ]
}

/// The 32-bit word read from four little-endian bytes.
pub open spec fn u32_from_le_spec(b: Seq<u8>) -> u32 {
    (b[0] + b[1] * 0x100 + b[2] * 0x1_0000 + b[3] * 0x100_0000) as u32
}

/// Little-endian bytes of a 64-bit word.
pub open spec fn u64_le_spec(v: u64) -> Seq<u8> {
    u32_le_spec((v & 0xffff_ffff) as u32) + u32_le_spec(((v >> 32) & 0xffff_ffff) as u32)
}

/// The 64-bit word read from eight little-endian bytes.
pub open spec fn u64_from_le_spec(b: Seq<u8>) -> u64 {
    (u32_from_le_spec(b.subrange(0, 4)) + u32_from_le_spec(b.subrange(4, 8)) * 0x1_0000_0000)
        as u64
}

/// Reading back the four bytes of a word yields the word.
pub proof fn lemma_u32_le_round_trip(v: u32)
    ensures
        u32_from_le_spec(u32_le_spec(v)) == v,
{
    assert(v & 0xff < 0x100 && (v >> 8) & 0xff < 0x100 && (v >> 16) & 0xff < 0x100 && (v >> 24)
        & 0xff < 0x100) by (bit_vector);
    assert((v & 0xff) + ((v >> 8) & 0xff) * 0x100 + ((v >> 16) & 0xff) * 0x1_0000 + ((v >> 24)
        & 0xff) * 0x100_0000 == v) by (bit_vector);
    assert(u32_le_spec(v)[0] == (v & 0xff) as u8);
    assert(u32_le_spec(v)[1] == ((v >> 8) & 0xff) as u8);
    assert(u32_le_spec(v)[2] == ((v >> 16) & 0xff) as u8);
    assert(u32_le_spec(v)[3] == ((v >> 24) & 0xff) as u8);
}

/// Reading back the eight bytes of a word yields the word.
pub proof fn lemma_u64_le_round_trip(v: u64)
    ensures
        u64_from_le_spec(u64_le_spec(v)) == v,
{
    assert(v & 0xffff_ffff < 0x1_0000_0000 && (v >> 32) & 0xffff_ffff < 0x1_0000_0000)
        by (bit_vector);
    assert((v & 0xffff_ffff) + ((v >> 32) & 0xffff_ffff) * 0x1_0000_0000 == v) by (bit_vector);
    lemma_u32_le_round_trip((v & 0xffff_ffff) as u32);
    lemma_u32_le_round_trip(((v >> 32) & 0xffff_ffff) as u32);
    assert(u64_le_spec(v).subrange(0, 4) =~= u32_le_spec((v & 0xffff_ffff) as u32));
    assert(u64_le_spec(v).subrange(4, 8) =~= u32_le_spec(((v >> 32) & 0xffff_ffff) as u32));
}

/// The bytes of one resolution record, fields in their documented order.
pub open spec fn record_spec(e: ResolutionEntry) -> Seq<u8> {
    u32_le_spec(e.coordinate.face) + u32_le_spec(e.coordinate.lod) + u32_le_spec(e.coordinate.x)
        + u32_le_spec(e.coordinate.y) + u32_le_spec(e.resolved_lod) + u32_le_spec(e.slot as u32)
        + u32_le_spec(e.blend) + u64_le_spec(e.distance)
}

/// The entry read back from one record's bytes.
pub open spec fn record_from_bytes_spec(b: Seq<u8>) -> ResolutionEntry {
    ResolutionEntry {
        coordinate: crate::coordinate::TileCoordinate {
            face: u32_from_le_spec(b.subrange(0, 4)),
            lod: u32_from_le_spec(b.subrange(4, 8)),
            x: u32_from_le_spec(b.subrange(8, 12)),
            y: u32_from_le_spec(b.subrange(12, 16)),
        },
        resolved_lod: u32_from_le_spec(b.subrange(16, 20)),
        slot: u32_from_le_spec(b.subrange(20, 24)) as usize,
        blend: u32_from_le_spec(b.subrange(24, 28)),
        distance: u64_from_le_spec(b.subrange(28, 36)),
    }
}

/// Round trip: decoding an encoded record restores the entry exactly.
/// (The slot index fits 32 bits: the atlas capacity is declared as one.)
pub proof fn lemma_record_round_trip(e: ResolutionEntry)
    requires
        e.slot <= u32::MAX,
    ensures
        record_spec(e).len() == RECORD_BYTES,
        record_from_bytes_spec(record_spec(e)) == e,
{
    let b = record_spec(e);
    lemma_u32_le_round_trip(e.coordinate.face);
    lemma_u32_le_round_trip(e.coordinate.lod);
    lemma_u32_le_round_trip(e.coordinate.x);
    lemma_u32_le_round_trip(e.coordinate.y);
    lemma_u32_le_round_trip(e.resolved_lod);
    lemma_u32_le_round_trip(e.slot as u32);
    lemma_u32_le_round_trip(e.blend);
    lemma_u64_le_round_trip(e.distance);
    assert(b.subrange(0, 4) =~= u32_le_spec(e.coordinate.face));
    assert(b.subrange(4, 8) =~= u32_le_spec(e.coordinate.lod));
    assert(b.subrange(8, 12) =~= u32_le_spec(e.coordinate.x));
    assert(b.subrange(12, 16) =~= u32_le_spec(e.coordinate.y));
    assert(b.subrange(16, 20) =~= u32_le_spec(e.resolved_lod));
    assert(b.subrange(20, 24) =~= u32_le_spec(e.slot as u32));
    assert(b.subrange(24, 28) =~= u32_le_spec(e.blend));
    assert(b.subrange(28, 36) =~= u64_le_spec(e.distance));
}

/// Appends a 32-bit word in little-endian order.
fn push_u32_le(out: &mut Vec<u8>, v: u32)
    ensures
        final(out)@ == old(out)@ + u32_le_spec(v),
{
    out.push((v & 0xff) as u8);
    out.push(((v >> 8) & 0xff) as u8);
    out.push(((v >> 16) & 0xff) as u8);
    out.push(((v >> 24) & 0xff) as u8);
    proof {
        assert(out@ =~= old(out)@ + u32_le_spec(v));
    }
}

/// Reads the 32-bit word at `off`.
fn read_u32_le(b: &Vec<u8>, off: usize) -> (r: u32)
    requires
        off + 4 <= b@.len(),
    ensures
        r == u32_from_le_spec(b@.subrange(off as int, off as int + 4)),
{
    let n = b.len();
    proof {
        assert(off + 4 <= n);
    }
    let r = b[off] as u32 + b[off + 1] as u32 * 0x100 + b[off + 2] as u32 * 0x1_0000 + b[off
        + 3] as u32 * 0x100_0000;
    proof {
        let s = b@.subrange(off as int, off as int + 4);
        assert(s[0] == b@[off as int]);
        assert(s[1] == b@[off as int + 1]);
        assert(s[2] == b@[off as int + 2]);
        assert(s[3] == b@[off as int + 3]);
    }
    r
}

/// Appends one entry's fixed-layout record to the output buffer.
pub fn encode_record(out: &mut Vec<u8>, e: &ResolutionEntry)
    requires
        e.slot <= u32::MAX,
    ensures
        final(out)@ == old(out)@ + record_spec(*e),
{
    push_u32_le(out, e.coordinate.face);
    push_u32_le(out, e.coordinate.lod);
    push_u32_le(out, e.coordinate.x);
    push_u32_le(out, e.coordinate.y);
    push_u32_le(out, e.resolved_lod);
    push_u32_le(out, e.slot as u32);
    push_u32_le(out, e.blend);
    push_u32_le(out, (e.distance & 0xffff_ffff) as u32);
    push_u32_le(out, ((e.distance >> 32) & 0xffff_ffff) as u32);
    proof {
        assert(out@ =~= old(out)@ + record_spec(*e));
    }
}

/// Reads one entry back from a record of exactly `RECORD_BYTES` bytes;
/// any other length is rejected.
pub fn decode_record(b: &Vec<u8>) -> (r: Option<ResolutionEntry>)
    ensures
        b@.len() == RECORD_BYTES ==> r == Some(record_from_bytes_spec(b@)),
        b@.len() != RECORD_BYTES ==> r is None,
{
    if b.len() != RECORD_BYTES {
        return None;
    }
    let face = read_u32_le(b, 0);
    let lod = read_u32_le(b, 4);
    let x = read_u32_le(b, 8);
    let y = read_u32_le(b, 12);
    let resolved_lod = read_u32_le(b, 16);
    let slot = read_u32_le(b, 20);
    let blend = read_u32_le(b, 24);
    let dist_lo = read_u32_le(b, 28);
    let dist_hi = read_u32_le(b, 32);
    let distance: u64 = dist_lo as u64 + dist_hi as u64 * 0x1_0000_0000;
    proof {
        assert(b@.subrange(28, 36).subrange(0, 4) =~= b@.subrange(28, 32));
        assert(b@.subrange(28, 36).subrange(4, 8) =~= b@.subrange(32, 36));
    }
    Some(
        ResolutionEntry {
            coordinate: crate::coordinate::TileCoordinate { face: face, lod: lod, x: x, y: y },
            resolved_lod: resolved_lod,
            slot: slot as usize,
            blend: blend,
            distance: distance,
        },
    )
}

/// Encodes the whole published table, one record after another.
pub fn encode_table(entries: &Vec<ResolutionEntry>) -> (r: Vec<u8>)
    requires
        forall|k: int| 0 <= k < entries@.len() ==> (#[trigger] entries@[k]).slot <= u32::MAX,
    ensures
        r@.len() == entries@.len() * RECORD_BYTES,
        forall|k: int|
            0 <= k < entries@.len() ==> r@.subrange(k * RECORD_BYTES, (k + 1) * RECORD_BYTES)
                == record_spec(#[trigger] entries@[k]),
{
    let mut out: Vec<u8> = Vec::new();
    let mut i: usize = 0;
    #[verifier::loop_isolation(false)]
    while i < entries.len()
        invariant
            0 <= i <= entries@.len(),
            out@.len() == i * RECORD_BYTES,
            forall|k: int|
                0 <= k < i ==> out@.subrange(k * RECORD_BYTES, (k + 1) * RECORD_BYTES)
                    == record_spec(#[trigger] entries@[k]),
        decreases entries@.len() - i,
    {
        let ghost before = out@;
        encode_record(&mut out, &entries[i]);
        proof {
            assert(record_spec(entries@[i as int]).len() == RECORD_BYTES) by {
                lemma_record_round_trip(entries@[i as int]);
            }
            assert(out@.len() == (i + 1) * RECORD_BYTES) by (nonlinear_arith)
                requires
                    out@.len() == before.len() + RECORD_BYTES,
                    before.len() == i * RECORD_BYTES,
            ;
            assert forall|k: int|
                0 <= k < i + 1 implies out@.subrange(k * RECORD_BYTES, (k + 1) * RECORD_BYTES)
                == record_spec(#[trigger] entries@[k]) by {
                assert(0 <= k * RECORD_BYTES && (k + 1) * RECORD_BYTES <= out@.len())
                    by (nonlinear_arith)
                    requires
                        0 <= k < i + 1,
                        out@.len() == (i + 1) * RECORD_BYTES,
                ;
                if k < i {
                    assert((k + 1) * RECORD_BYTES <= before.len()) by (nonlinear_arith)
                        requires
                            0 <= k < i,
                            before.len() == i * RECORD_BYTES,
                    ;
                    assert(out@.subrange(k * RECORD_BYTES, (k + 1) * RECORD_BYTES)
                        =~= before.subrange(k * RECORD_BYTES, (k + 1) * RECORD_BYTES));
                } else {
                    assert(out@.subrange(k * RECORD_BYTES, (k + 1) * RECORD_BYTES)
                        =~= record_spec(entries@[i as int]));
                }
            }
        }
        i = i + 1;
    }
    out
}

} // verus!
