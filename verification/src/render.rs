use vstd::prelude::*;

use crate::codec::append_bytes;
use crate::number::{dec_digits, u32_to_dec};
use crate::row::{Row, RowV};

verus! {

/// The prefix of `s` before its first zero byte: trailing zeros are padding,
/// not content, when a field is rendered.
pub open spec fn until_zero(s: Seq<u8>) -> Seq<u8>
    decreases s.len(),
{
    if s.len() == 0 || s[0] == 0 {
        Seq::empty()
    } else {
        seq![s[0]] + until_zero(s.drop_first())
    }
}

/// The stable human-readable form of a row: the decimal id and the two
/// field contents, separated by single spaces.
pub open spec fn row_display(r: RowV) -> Seq<u8> {
    dec_digits(r.id as nat) + seq![32u8] + until_zero(r.name) + seq![32u8] + until_zero(r.email)
}

/// The bytes of `v` from `i` up to the first zero byte.
fn prefix_before_zero_from(v: &Vec<u8>, i: usize) -> (out: Vec<u8>)
    requires
        i <= v@.len(),
    ensures
        out@ == until_zero(v@.skip(i as int)),
    decreases v@.len() - i,
{
    if i == v.len() || v[i] == 0 {
        let out: Vec<u8> = Vec::new();
        out
    } else {
        let mut out = prefix_before_zero_from(v, i + 1);
        out.insert(0, v[i]);
        proof {
            assert(v@.skip(i as int).drop_first() =~= v@.skip(i as int + 1));
            assert(out@ =~= until_zero(v@.skip(i as int)));
        }
        out
    }
}

/// The content prefix of a zero-padded field buffer.
pub fn prefix_before_zero(v: &Vec<u8>) -> (out: Vec<u8>)
    ensures
        out@ == until_zero(v@),
{
    proof {
        assert(v@.skip(0) =~= v@);
    }
    prefix_before_zero_from(v, 0)
}

/// Renders one row in its stable human-readable form.
pub fn render_row(row: &Row) -> (out: Vec<u8>)
    ensures
        out@ == row_display(row@),
{
    let mut out = u32_to_dec(row.id);
    out.push(32);
    let name = prefix_before_zero(&row.name);
    append_bytes(&mut out, &name);
    out.push(32);
    let email = prefix_before_zero(&row.email);
    append_bytes(&mut out, &email);
    proof {
        assert(out@ =~= row_display(row@));
    }
    out
}

} // verus!
