use vstd::prelude::*;

use vstd::arithmetic::div_mod::{
    lemma_fundamental_div_mod, lemma_fundamental_div_mod_converse,
    lemma_mod_division_less_than_divisor, lemma_multiply_divide_lt,
};
use vstd::slice::slice_subrange;

use crate::codec::{decode_row, decode_row_v, encode_row, encode_row_v};
use crate::constants::{
    lemma_config_values, PAGE_SIZE, ROWS_PER_PAGE, ROW_SIZE, TABLE_MAX_PAGES, TABLE_MAX_ROWS,
};
use crate::row::{Row, RowV};

verus! {

/// Page index of the `i`-th row slot.
pub open spec fn slot_page(i: int) -> int {
    i / (ROWS_PER_PAGE as int)
}

/// Byte offset of the `i`-th row slot inside its page.
pub open spec fn slot_offset(i: int) -> int {
    (i % (ROWS_PER_PAGE as int)) * (ROW_SIZE as int)
}

/// Addressing failures of the page store. They mark programming errors, not
/// user-input errors: the execution engine never requests such addresses.
#[derive(Clone, Copy, PartialEq, Eq, Structural, Debug)]
pub enum PageError {
    CapacityExceeded,
    PageNotFound,
}

/// Slots stay within their page and within the page cap: for any row index
/// below `pages * ROWS_PER_PAGE`, the page index is below `pages` and the
/// slot's bytes end at or before `PAGE_SIZE`.
pub proof fn lemma_slot_in_bounds(i: int, pages: int)
    requires
        0 <= i,
        i < pages * ROWS_PER_PAGE,
    ensures
        0 <= slot_page(i) < pages,
        0 <= slot_offset(i),
        slot_offset(i) + ROW_SIZE <= PAGE_SIZE,
{
    lemma_config_values();
    lemma_multiply_divide_lt(i, ROWS_PER_PAGE as int, pages);
    lemma_mod_division_less_than_divisor(i, ROWS_PER_PAGE as int);
}

/// Slot addressing is injective: two row indices with the same page index
/// and the same byte offset are the same index.
pub proof fn lemma_slot_address_injective(i: int, j: int)
    requires
        0 <= i,
        0 <= j,
        slot_page(i) == slot_page(j),
        slot_offset(i) == slot_offset(j),
    ensures
        i == j,
{
    lemma_config_values();
    lemma_fundamental_div_mod(i, ROWS_PER_PAGE as int);
    lemma_fundamental_div_mod(j, ROWS_PER_PAGE as int);
}

/// Consecutive row indices are adjacent: either the next slot sits in the
/// same page exactly `ROW_SIZE` bytes further, or it opens the next page at
/// offset zero, and then only off the last slot of a page.
pub proof fn lemma_slot_address_adjacent(i: int)
    requires
        0 <= i,
    ensures
        i % (ROWS_PER_PAGE as int) < ROWS_PER_PAGE - 1 ==> slot_page(i + 1) == slot_page(i)
            && slot_offset(i + 1) == slot_offset(i) + ROW_SIZE,
        i % (ROWS_PER_PAGE as int) == ROWS_PER_PAGE - 1 ==> slot_page(i + 1) == slot_page(i) + 1
            && slot_offset(i + 1) == 0 && slot_offset(i) + ROW_SIZE <= PAGE_SIZE,
{
    lemma_config_values();
    let d = ROWS_PER_PAGE as int;
    lemma_fundamental_div_mod(i, d);
    lemma_mod_division_less_than_divisor(i, d);
    if i % d < d - 1 {
        lemma_fundamental_div_mod_converse(i + 1, d, i / d, i % d + 1);
    } else {
        lemma_fundamental_div_mod_converse(i + 1, d, i / d + 1, 0);
    }
}

/// Distinct row indices in the same page occupy disjoint byte ranges.
pub proof fn lemma_distinct_slots_disjoint(i: int, j: int)
    requires
        0 <= i,
        0 <= j,
        i != j,
        slot_page(i) == slot_page(j),
    ensures
        slot_offset(i) + ROW_SIZE <= slot_offset(j) || slot_offset(j) + ROW_SIZE <= slot_offset(
            i,
        ),
{
    lemma_config_values();
    let d = ROWS_PER_PAGE as int;
    lemma_fundamental_div_mod(i, d);
    lemma_fundamental_div_mod(j, d);
    lemma_mod_division_less_than_divisor(i, d);
    lemma_mod_division_less_than_divisor(j, d);
}

/// The one table: a growing row count over lazily allocated fixed-size pages.
pub struct Table {
    /// Number of rows stored; rows are only ever appended.
    pub rows_count: u32,
    /// The allocated pages, each exactly `PAGE_SIZE` bytes.
    pub pages: Vec<Vec<u8>>,
}

impl Table {
    /// Structural invariant: the page count and row count respect their
    /// caps, every page has its fixed size, and every stored row has an
    /// allocated slot.
    pub open spec fn wf(&self) -> bool {
        &&& self.pages@.len() <= TABLE_MAX_PAGES
        &&& (forall|p: int|
            0 <= p < self.pages@.len() ==> (#[trigger] self.pages@[p])@.len() == PAGE_SIZE)
        &&& self.rows_count <= TABLE_MAX_ROWS
        &&& self.rows_count as int <= self.pages@.len() * (ROWS_PER_PAGE as int)
    }

    /// The bytes of the `i`-th row slot.
    pub open spec fn slot_bytes(&self, i: int) -> Seq<u8> {
        self.pages@[slot_page(i)]@.subrange(slot_offset(i), slot_offset(i) + ROW_SIZE)
    }

    /// The stored rows, in insertion order.
    pub open spec fn rows(&self) -> Seq<RowV> {
        Seq::new(self.rows_count as nat, |i: int| decode_row_v(self.slot_bytes(i)))
    }

    /// An empty table with no pages allocated yet.
    pub fn new() -> (t: Table)
        ensures
            t.wf(),
            t.rows_count == 0,
            t.rows() == Seq::<RowV>::empty(),
    {
        let t = Table { rows_count: 0, pages: Vec::new() };
        proof {
            assert(t.rows() =~= Seq::<RowV>::empty());
        }
        t
    }

    /// Page index and in-page byte offset of the given row slot.
    pub fn row_slot(&self, row_index: u32) -> (r: (usize, usize))
        requires
            row_index < TABLE_MAX_ROWS,
        ensures
            r.0 as int == slot_page(row_index as int),
            r.1 as int == slot_offset(row_index as int),
            r.0 < TABLE_MAX_PAGES,
            r.1 + ROW_SIZE <= PAGE_SIZE,
    {
        proof {
            lemma_slot_in_bounds(row_index as int, TABLE_MAX_PAGES as int);
        }
        let page_num = (row_index as usize) / ROWS_PER_PAGE;
        let byte_offset = ((row_index as usize) % ROWS_PER_PAGE) * ROW_SIZE;
        (page_num, byte_offset)
    }

    /// Makes the page at `page_index` available for writing, allocating it
    /// and any earlier missing pages zero-initialized, and fails exactly
    /// when the index is at or beyond the page cap.
    pub fn get_page_for_write(&mut self, page_index: usize) -> (r: Result<(), PageError>)
        requires
            old(self).wf(),
        ensures
            final(self).wf(),
            final(self).rows_count == old(self).rows_count,
            r is Ok <==> page_index < TABLE_MAX_PAGES,
            r is Err ==> *final(self) == *old(self) && r == Err::<(), PageError>(
                PageError::CapacityExceeded,
            ),
            r is Ok ==> {
                &&& final(self).pages@.len() == if old(self).pages@.len() >= page_index + 1 {
                    old(self).pages@.len() as int
                } else {
                    page_index + 1
                }
                &&& (forall|q: int|
                    0 <= q < old(self).pages@.len() ==> final(self).pages@[q]
                        == old(self).pages@[q])
                &&& (forall|q: int|
                    old(self).pages@.len() <= q < final(self).pages@.len() ==> (
                    #[trigger] final(self).pages@[q])@ == Seq::new(
                        PAGE_SIZE as nat,
                        |k: int| 0u8,
                    ))
            },
    {
        if page_index >= TABLE_MAX_PAGES {
            return Err(PageError::CapacityExceeded);
        }
        while self.pages.len() <= page_index
            invariant
                page_index < TABLE_MAX_PAGES,
                self.rows_count == old(self).rows_count,
                old(self).pages@.len() <= self.pages@.len(),
                self.pages@.len() <= TABLE_MAX_PAGES,
                self.pages@.len() > page_index ==> self.pages@.len()
                    == if old(self).pages@.len() >= page_index + 1 {
                    old(self).pages@.len() as int
                } else {
                    page_index + 1
                },
                old(self).wf(),
                forall|q: int|
                    0 <= q < old(self).pages@.len() ==> self.pages@[q] == old(self).pages@[q],
                forall|q: int|
                    old(self).pages@.len() <= q < self.pages@.len() ==> (
                    #[trigger] self.pages@[q])@ == Seq::new(PAGE_SIZE as nat, |k: int| 0u8),
            decreases TABLE_MAX_PAGES - self.pages@.len(),
        {
            let page = crate::row::zero_vec(PAGE_SIZE);
            self.pages.push(page);
        }
        proof {
            assert(self.rows_count as int <= self.pages@.len() * (ROWS_PER_PAGE as int)) by {
                vstd::arithmetic::mul::lemma_mul_inequality(
                    old(self).pages@.len() as int,
                    self.pages@.len() as int,
                    ROWS_PER_PAGE as int,
                );
            }
        }
        Ok(())
    }

    /// Read access to an existing page; fails exactly when the page was
    /// never allocated.
    pub fn get_page_for_read(&self, page_index: usize) -> (r: Result<&Vec<u8>, PageError>)
        ensures
            r is Ok <==> page_index < self.pages@.len(),
            r matches Ok(p) ==> p@ == self.pages@[page_index as int]@,
            r is Err ==> r == Err::<&Vec<u8>, PageError>(PageError::PageNotFound),
    {
        if page_index < self.pages.len() {
            Ok(&self.pages[page_index])
        } else {
            Err(PageError::PageNotFound)
        }
    }

    /// Writes the row's encoding into the given page at the given offset;
    /// every other byte of the store is untouched.
    pub fn serialize_row(&mut self, row: &Row, page_num: usize, byte_offset: usize)
        requires
            old(self).wf(),
            row.wf(),
            page_num < old(self).pages@.len(),
            byte_offset + ROW_SIZE <= PAGE_SIZE,
        ensures
            final(self).wf(),
            final(self).rows_count == old(self).rows_count,
            final(self).pages@.len() == old(self).pages@.len(),
            forall|q: int|
                0 <= q < old(self).pages@.len() && q != page_num ==> final(self).pages@[q]
                    == old(self).pages@[q],
            final(self).pages@[page_num as int]@.subrange(
                byte_offset as int,
                byte_offset + ROW_SIZE,
            ) == encode_row_v(row@),
            forall|k: int|
                0 <= k < PAGE_SIZE && !(byte_offset <= k < byte_offset + ROW_SIZE)
                    ==> final(self).pages@[page_num as int]@[k]
                    == old(self).pages@[page_num as int]@[k],
    {
        let buf = encode_row(row);
        write_bytes(&mut self.pages[page_num], byte_offset, &buf);
    }

    /// Reads the row stored in the given page at the given offset.
    pub fn deserialize_row(&self, page_num: usize, byte_offset: usize) -> (row: Row)
        requires
            self.wf(),
            page_num < self.pages@.len(),
            byte_offset + ROW_SIZE <= PAGE_SIZE,
        ensures
            row@ == decode_row_v(
                self.pages@[page_num as int]@.subrange(byte_offset as int, byte_offset + ROW_SIZE),
            ),
            row.wf(),
    {
        let page: &Vec<u8> = &self.pages[page_num];
        let bytes = slice_subrange(page.as_slice(), byte_offset, byte_offset + ROW_SIZE);
        decode_row(bytes)
    }
}

/// Overwrites `page[off .. off + src.len()]` with `src`, byte for byte,
/// leaving every other byte in place.
pub fn write_bytes(page: &mut Vec<u8>, off: usize, src: &Vec<u8>)
    requires
        off + src@.len() <= old(page)@.len(),
    ensures
        final(page)@.len() == old(page)@.len(),
        final(page)@.subrange(off as int, off + src@.len()) == src@,
        forall|k: int|
            0 <= k < old(page)@.len() && !(off <= k < off + src@.len()) ==> final(page)@[k]
                == old(page)@[k],
{
    let n = page.len();
    let mut i: usize = 0;
    while i < src.len()
        invariant
            i <= src@.len(),
            off + src@.len() <= n,
            n == page@.len(),
            page@.len() == old(page)@.len(),
            forall|k: int|
                0 <= k < old(page)@.len() && !(off <= k < off + i) ==> page@[k] == old(page)@[k],
            forall|k: int| 0 <= k < i ==> page@[off + k] == src@[k],
        decreases src@.len() - i,
    {
        page.set(off + i, src[i]);
        i = i + 1;
    }
    proof {
        assert(page@.subrange(off as int, off + src@.len()) =~= src@);
    }
}

} // verus!
