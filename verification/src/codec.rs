use vstd::prelude::*;

use vstd::bytes::{
    lemma_auto_spec_u32_to_from_le_bytes, spec_u32_from_le_bytes, spec_u32_to_le_bytes,
    u32_from_le_bytes, u32_to_le_bytes,
};
use vstd::slice::{slice_subrange, slice_to_vec};

use crate::constants::{ID_SIZE, ROW_SIZE, USERNAME_SIZE};
use crate::row::{row_v_wf, Row, RowV};

verus! {

/// Encoded image of a row: four little-endian id bytes, then the two
/// fixed-width field buffers, left-packed and zero-padded by construction.
pub open spec fn encode_row_v(r: RowV) -> Seq<u8> {
    spec_u32_to_le_bytes(r.id) + r.name + r.email
}

/// The row read back from one encoded row buffer.
pub open spec fn decode_row_v(b: Seq<u8>) -> RowV {
    RowV {
        id: spec_u32_from_le_bytes(b.subrange(0, ID_SIZE as int)),
        name: b.subrange(ID_SIZE as int, (ID_SIZE + USERNAME_SIZE) as int),
        email: b.subrange((ID_SIZE + USERNAME_SIZE) as int, ROW_SIZE as int),
    }
}

/// Decoding inverts encoding exactly: the codec is a mechanical byte copy,
/// so a round trip loses nothing within the declared field widths.
pub proof fn lemma_row_round_trip(r: RowV)
    requires
        row_v_wf(r),
    ensures
        encode_row_v(r).len() == ROW_SIZE,
        decode_row_v(encode_row_v(r)) == r,
{
    lemma_auto_spec_u32_to_from_le_bytes();
    let e = encode_row_v(r);
    assert(e.subrange(0, ID_SIZE as int) =~= spec_u32_to_le_bytes(r.id));
    assert(e.subrange(ID_SIZE as int, (ID_SIZE + USERNAME_SIZE) as int) =~= r.name);
    assert(e.subrange((ID_SIZE + USERNAME_SIZE) as int, ROW_SIZE as int) =~= r.email);
}

/// Appends every byte of `src` to `out`, in order.
pub fn append_bytes(out: &mut Vec<u8>, src: &Vec<u8>)
    ensures
        final(out)@ == old(out)@ + src@,
{
    let mut i: usize = 0;
    while i < src.len()
        invariant
            i <= src@.len(),
            out@ == old(out)@ + src@.subrange(0, i as int),
        decreases src@.len() - i,
    {
        out.push(src[i]);
        i = i + 1;
        proof {
            assert(out@ =~= old(out)@ + src@.subrange(0, i as int));
        }
    }
    proof {
        assert(old(out)@ + src@.subrange(0, src@.len() as int) =~= old(out)@ + src@);
    }
}

/// Encodes one row into a fresh buffer of exactly `ROW_SIZE` bytes.
pub fn encode_row(row: &Row) -> (out: Vec<u8>)
    requires
        row.wf(),
    ensures
        out@ == encode_row_v(row@),
        out@.len() == ROW_SIZE,
{
    let mut out = u32_to_le_bytes(row.id);
    append_bytes(&mut out, &row.name);
    append_bytes(&mut out, &row.email);
    out
}

/// Reads one row back from a buffer of exactly `ROW_SIZE` bytes.
pub fn decode_row(buf: &[u8]) -> (row: Row)
    requires
        buf@.len() == ROW_SIZE,
    ensures
        row@ == decode_row_v(buf@),
        row.wf(),
{
    let id = u32_from_le_bytes(slice_subrange(buf, 0, ID_SIZE));
    let name = slice_to_vec(slice_subrange(buf, ID_SIZE, ID_SIZE + USERNAME_SIZE));
    let email = slice_to_vec(slice_subrange(buf, ID_SIZE + USERNAME_SIZE, ROW_SIZE));
    Row { id, name, email }
}

} // verus!
