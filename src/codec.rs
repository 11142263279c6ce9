use vstd::prelude::*;
use crate::block::BlockId;
use crate::chunk::{Chunk, CHUNK_VOLUME};
use crate::coords::ChunkCoordinate;

verus! {

/// Length in bytes of a persisted chunk record.
pub const CHUNK_RECORD_LEN: usize = 131072;

/// Length in bytes of a persisted chunk key.
pub const KEY_LEN: usize = 12;

/// The four bytes of `v`, least significant first.
pub open spec fn le_bytes(v: u32) -> Seq<u8> {
    seq![
        (v & 0xff) as u8,
        ((v >> 8u32) & 0xff) as u8,
        ((v >> 16u32) & 0xff) as u8,
        ((v >> 24u32) & 0xff) as u8,
    ]
}

/// The `u32` whose bytes, least significant first, are `b0 .. b3`.
pub open spec fn u32_from_le(b0: u8, b1: u8, b2: u8, b3: u8) -> u32 {
    (b0 as u32) | ((b1 as u32) << 8u32) | ((b2 as u32) << 16u32) | ((b3 as u32) << 24u32)
}

/// The record of a chunk's voxels: each identifier as four little-endian
/// bytes, in the order of the voxel array, with no header.
pub open spec fn chunk_bytes(c: Seq<BlockId>) -> Seq<u8> {
    Seq::new(4 * c.len(), |j: int| le_bytes(c[j / 4].0)[j % 4])
}

/// The voxels that a record's bytes hold, four bytes each.
pub open spec fn decoded_blocks(b: Seq<u8>) -> Seq<BlockId> {
    Seq::new(
        b.len() / 4,
        |i: int| BlockId(u32_from_le(b[4 * i], b[4 * i + 1], b[4 * i + 2], b[4 * i + 3])),
    )
}

/// The two's-complement bit pattern of `v`.
pub open spec fn bits_of_i32(v: i32) -> u32 {
    if v >= 0 {
        v as u32
    } else {
        (v + 0x1_0000_0000) as u32
    }
}

/// The key of a chunk coordinate: `x`, `y`, `z` in two's complement, four
/// little-endian bytes each.
pub open spec fn key_bytes(c: ChunkCoordinate) -> Seq<u8> {
    le_bytes(bits_of_i32(c.x)) + le_bytes(bits_of_i32(c.y)) + le_bytes(bits_of_i32(c.z))
}

fn i32_bits(v: i32) -> (r: u32)
    ensures
        r == bits_of_i32(v),
{
    if v >= 0 {
        v as u32
    } else {
        (v as i64 + 0x1_0000_0000i64) as u32
    }
}

pub proof fn lemma_le_bytes_round_trip(v: u32)
    ensures
        u32_from_le(le_bytes(v)[0], le_bytes(v)[1], le_bytes(v)[2], le_bytes(v)[3]) == v,
{
    let b0 = (v & 0xff) as u8;
    let b1 = ((v >> 8u32) & 0xff) as u8;
    let b2 = ((v >> 16u32) & 0xff) as u8;
    let b3 = ((v >> 24u32) & 0xff) as u8;
    assert((b0 as u32) | ((b1 as u32) << 8u32) | ((b2 as u32) << 16u32) | ((b3 as u32) << 24u32) == v)
        by (bit_vector)
        requires
            b0 == (v & 0xff) as u8,
            b1 == ((v >> 8u32) & 0xff) as u8,
            b2 == ((v >> 16u32) & 0xff) as u8,
            b3 == ((v >> 24u32) & 0xff) as u8,
    ;
}

/// Decoding a chunk's record gives back every voxel of the chunk.
pub proof fn chunk_record_round_trip(c: Seq<BlockId>)
    ensures
        decoded_blocks(chunk_bytes(c)) == c,
{
    let b = chunk_bytes(c);
    assert forall|i: int| 0 <= i < c.len() implies #[trigger] decoded_blocks(b)[i] == c[i] by {
        assert((4 * i) / 4 == i && (4 * i + 1) / 4 == i && (4 * i + 2) / 4 == i && (4 * i + 3) / 4 == i);
        assert((4 * i) % 4 == 0 && (4 * i + 1) % 4 == 1 && (4 * i + 2) % 4 == 2 && (4 * i + 3) % 4 == 3);
        lemma_le_bytes_round_trip(c[i].0);
    }
    assert(decoded_blocks(b) =~= c);
}

/// Distinct coordinates have distinct keys.
pub proof fn key_bytes_injective(a: ChunkCoordinate, b: ChunkCoordinate)
    ensures
        key_bytes(a) == key_bytes(b) ==> a == b,
{
    if key_bytes(a) == key_bytes(b) {
        let ka = key_bytes(a);
        let kb = key_bytes(b);
        assert(ka.subrange(0, 4) =~= le_bytes(bits_of_i32(a.x)));
        assert(kb.subrange(0, 4) =~= le_bytes(bits_of_i32(b.x)));
        assert(ka.subrange(4, 8) =~= le_bytes(bits_of_i32(a.y)));
        assert(kb.subrange(4, 8) =~= le_bytes(bits_of_i32(b.y)));
        assert(ka.subrange(8, 12) =~= le_bytes(bits_of_i32(a.z)));
        assert(kb.subrange(8, 12) =~= le_bytes(bits_of_i32(b.z)));
        lemma_le_bytes_round_trip(bits_of_i32(a.x));
        lemma_le_bytes_round_trip(bits_of_i32(b.x));
        lemma_le_bytes_round_trip(bits_of_i32(a.y));
        lemma_le_bytes_round_trip(bits_of_i32(b.y));
        lemma_le_bytes_round_trip(bits_of_i32(a.z));
        lemma_le_bytes_round_trip(bits_of_i32(b.z));
    }
}

fn push_le(out: &mut Vec<u8>, v: u32)
    ensures
        final(out)@ == old(out)@ + le_bytes(v),
{
    out.push((v & 0xff) as u8);
    out.push(((v >> 8u32) & 0xff) as u8);
    out.push(((v >> 16u32) & 0xff) as u8);
    out.push(((v >> 24u32) & 0xff) as u8);
    assert(final(out)@ =~= old(out)@ + le_bytes(v));
}

/// The persisted record of `c`.
pub fn encode_chunk(c: &Chunk) -> (r: Vec<u8>)
    requires
        c.wf(),
    ensures
        r@ == chunk_bytes(c@),
        r@.len() == CHUNK_RECORD_LEN,
{
    let mut out: Vec<u8> = Vec::new();
    let mut i: usize = 0;
    while i < CHUNK_VOLUME
        invariant
            c.wf(),
            i <= 32768,
            out@.len() == 4 * i,
            forall|j: int| 0 <= j < 4 * i ==> out@[j] == #[trigger] le_bytes(c@[j / 4].0)[j % 4],
        decreases 32768 - i,
    {
        let v = c.get_index(i).0;
        let ghost before = out@;
        push_le(&mut out, v);
        assert forall|j: int| 0 <= j < 4 * (i + 1) implies out@[j] == #[trigger] le_bytes(
            c@[j / 4].0,
        )[j % 4] by {
            if j >= 4 * i {
                assert(j / 4 == i as int);
                assert(out@[j] == le_bytes(v)[j - 4 * i]);
            } else {
                assert(out@[j] == before[j]);
            }
        }
        i += 1;
    }
    assert(out@ =~= chunk_bytes(c@));
    out
}

/// Ways in which reading or writing persisted chunks fails.
#[derive(Clone, Copy, PartialEq, Eq, Structural, Debug)]
pub enum StoreError {
    /// The storage engine could not be opened.
    StoreUnavailable,
    /// The storage engine failed to read or write a record.
    StoreIoError,
    /// A persisted record does not have the length of a chunk record.
    CorruptRecord,
}

/// The chunk that a persisted record holds; `CorruptRecord` exactly when the
/// record does not have the length of a chunk record.
pub fn decode_chunk(b: &[u8]) -> (r: Result<Chunk, StoreError>)
    ensures
        b@.len() == CHUNK_RECORD_LEN <==> r is Ok,
        r is Err ==> r == Err::<Chunk, StoreError>(StoreError::CorruptRecord),
        r matches Ok(c) ==> c.wf() && c@ == decoded_blocks(b@),
{
    if b.len() != CHUNK_RECORD_LEN {
        return Err(StoreError::CorruptRecord);
    }
    let mut blocks: Vec<BlockId> = Vec::new();
    let mut i: usize = 0;
    while i < CHUNK_VOLUME
        invariant
            b@.len() == 131072,
            i <= 32768,
            blocks@ == decoded_blocks(b@).subrange(0, i as int),
        decreases 32768 - i,
    {
        let k = 4 * i;
        let v = (b[k] as u32) | ((b[k + 1] as u32) << 8u32) | ((b[k + 2] as u32) << 16u32) | ((
        b[k + 3] as u32) << 24u32);
        blocks.push(BlockId(v));
        assert(blocks@ =~= decoded_blocks(b@).subrange(0, i + 1));
        i += 1;
    }
    assert(blocks@ =~= decoded_blocks(b@));
    Ok(Chunk::from_blocks(blocks))
}

/// The persisted key of chunk coordinate `c`.
pub fn encode_key(c: &ChunkCoordinate) -> (r: Vec<u8>)
    ensures
        r@ == key_bytes(*c),
        r@.len() == KEY_LEN,
{
    let mut out: Vec<u8> = Vec::new();
    push_le(&mut out, i32_bits(c.x));
    push_le(&mut out, i32_bits(c.y));
    push_le(&mut out, i32_bits(c.z));
    assert(out@ =~= key_bytes(*c));
    out
}

} // verus!
