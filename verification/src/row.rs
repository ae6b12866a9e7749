use vstd::prelude::*;

use crate::constants::{EMAIL_SIZE, USERNAME_SIZE};

verus! {

/// Mathematical image of one record: the id together with the two
/// fixed-width, zero-padded field buffers.
pub ghost struct RowV {
    pub id: u32,
    pub name: Seq<u8>,
    pub email: Seq<u8>,
}

/// The field buffers have exactly their configured widths.
pub open spec fn row_v_wf(r: RowV) -> bool {
    r.name.len() == USERNAME_SIZE && r.email.len() == EMAIL_SIZE
}

/// One logical record as stored: `name` and `email` are kept at their full
/// encoded widths, left-packed and zero-padded.
#[derive(Debug)]
pub struct Row {
    pub id: u32,
    pub name: Vec<u8>,
    pub email: Vec<u8>,
}

impl View for Row {
    type V = RowV;

    open spec fn view(&self) -> RowV {
        RowV { id: self.id, name: self.name@, email: self.email@ }
    }
}

impl Row {
    /// The stored buffers have their fixed widths.
    pub open spec fn wf(&self) -> bool {
        row_v_wf(self@)
    }

    /// A fresh all-zero record.
    pub fn new() -> (r: Row)
        ensures
            r.wf(),
            r@.id == 0,
            r@.name == Seq::new(USERNAME_SIZE as nat, |i: int| 0u8),
            r@.email == Seq::new(EMAIL_SIZE as nat, |i: int| 0u8),
    {
        let r = Row { id: 0, name: zero_vec(USERNAME_SIZE), email: zero_vec(EMAIL_SIZE) };
        r
    }
}

/// A vector of `n` zero bytes.
pub fn zero_vec(n: usize) -> (v: Vec<u8>)
    ensures
        v@ == Seq::new(n as nat, |i: int| 0u8),
{
    let mut v: Vec<u8> = Vec::new();
    let mut i: usize = 0;
    while i < n
        invariant
            i <= n,
            v@ == Seq::new(i as nat, |j: int| 0u8),
        decreases n - i,
    {
        v.push(0);
        i = i + 1;
        proof {
            assert(v@ =~= Seq::new(i as nat, |j: int| 0u8));
        }
    }
    v
}

} // verus!
