use vstd::prelude::*;

use vstd::bytes::{
    lemma_auto_spec_u32_to_from_le_bytes, spec_u32_from_le_bytes, spec_u32_to_le_bytes,
    u32_from_le_bytes, u32_to_le_bytes,
};
use vstd::arithmetic::div_mod::{lemma_div_by_multiple, lemma_mod_multiples_basic};
use vstd::slice::{slice_subrange, slice_to_vec};

use crate::codec::append_bytes;
use crate::constants::{
    lemma_config_values, PAGE_SIZE, ROWS_PER_PAGE, TABLE_MAX_PAGES, TABLE_MAX_ROWS,
};
use crate::table::{lemma_slot_in_bounds, slot_offset, slot_page, Table};

verus! {

/// The allocated pages laid end to end, in order.
pub open spec fn concat_pages(ps: Seq<Seq<u8>>) -> Seq<u8>
    decreases ps.len(),
{
    if ps.len() == 0 {
        Seq::empty()
    } else {
        ps[0] + concat_pages(ps.drop_first())
    }
}

/// Concatenation distributes over appending one page at the end.
pub proof fn lemma_concat_pages_push(ps: Seq<Seq<u8>>, p: Seq<u8>)
    ensures
        concat_pages(ps.push(p)) == concat_pages(ps) + p,
    decreases ps.len(),
{
    if ps.len() == 0 {
        assert(ps.push(p).drop_first() =~= Seq::<Seq<u8>>::empty());
        assert(concat_pages(Seq::<Seq<u8>>::empty()) == Seq::<u8>::empty());
        assert(concat_pages(ps.push(p)) == p + Seq::<u8>::empty());
        assert(concat_pages(ps.push(p)) =~= concat_pages(ps) + p);
    } else {
        assert(ps.push(p).drop_first() =~= ps.drop_first().push(p));
        lemma_concat_pages_push(ps.drop_first(), p);
        assert(concat_pages(ps.push(p)) =~= concat_pages(ps) + p);
    }
}

/// The page views of a table, in order.
pub open spec fn page_views(t: Table) -> Seq<Seq<u8>> {
    t.pages@.map_values(|p: Vec<u8>| p@)
}

/// The byte image of a whole table: the row count, little-endian, then the
/// allocated pages laid end to end.
pub open spec fn table_image(t: Table) -> Seq<u8> {
    spec_u32_to_le_bytes(t.rows_count) + concat_pages(page_views(t))
}

/// Whether `b` is the image of some well-formed table.
pub open spec fn valid_image(b: Seq<u8>) -> bool {
    &&& b.len() >= 4
    &&& (b.len() - 4) % (PAGE_SIZE as int) == 0
    &&& (b.len() - 4) / (PAGE_SIZE as int) <= TABLE_MAX_PAGES
    &&& spec_u32_from_le_bytes(b.take(4)) <= TABLE_MAX_ROWS
    &&& spec_u32_from_le_bytes(b.take(4)) <= ((b.len() - 4) / (PAGE_SIZE as int)) * (
    ROWS_PER_PAGE as int)
}

/// Pages of the fixed size concatenate to exactly `count * PAGE_SIZE` bytes.
pub proof fn lemma_concat_pages_len(ps: Seq<Seq<u8>>)
    requires
        forall|q: int| 0 <= q < ps.len() ==> (#[trigger] ps[q]).len() == PAGE_SIZE,
    ensures
        concat_pages(ps).len() == ps.len() * (PAGE_SIZE as int),
    decreases ps.len(),
{
    if ps.len() > 0 {
        lemma_concat_pages_len(ps.drop_first());
    }
}

/// A well-formed table's image is a valid image, so closing and reopening
/// always recovers a table with the same bytes and the same row count.
pub proof fn lemma_image_valid(t: Table)
    requires
        t.wf(),
    ensures
        valid_image(table_image(t)),
        spec_u32_from_le_bytes(table_image(t).take(4)) == t.rows_count,
{
    lemma_auto_spec_u32_to_from_le_bytes();
    let n = page_views(t).len() as int;
    lemma_concat_pages_len(page_views(t));
    lemma_mod_multiples_basic(n, PAGE_SIZE as int);
    lemma_div_by_multiple(n, PAGE_SIZE as int);
    assert(table_image(t).take(4) =~= spec_u32_to_le_bytes(t.rows_count));
}

impl Table {
    /// Serializes the table into its byte image, for the persistence hook
    /// to write out on close.
    pub fn to_image(&self) -> (out: Vec<u8>)
        requires
            self.wf(),
        ensures
            out@ == table_image(*self),
    {
        let mut out = u32_to_le_bytes(self.rows_count);
        let mut i: usize = 0;
        while i < self.pages.len()
            invariant
                self.wf(),
                i <= self.pages@.len(),
                out@ == spec_u32_to_le_bytes(self.rows_count) + concat_pages(
                    page_views(*self).take(i as int),
                ),
            decreases self.pages@.len() - i,
        {
            append_bytes(&mut out, &self.pages[i]);
            proof {
                lemma_concat_pages_push(page_views(*self).take(i as int), self.pages@[i as int]@);
                assert(page_views(*self).take(i as int + 1) =~= page_views(*self).take(
                    i as int,
                ).push(self.pages@[i as int]@));
            }
            i = i + 1;
        }
        proof {
            assert(page_views(*self).take(self.pages@.len() as int) =~= page_views(*self));
        }
        out
    }

    /// Rebuilds a table from its byte image, as the persistence hook reads
    /// it back on open. Exactly the valid images are accepted, and the
    /// rebuilt table serializes back to the given bytes.
    pub fn from_image(bytes: &[u8]) -> (r: Option<Table>)
        ensures
            r is Some <==> valid_image(bytes@),
            r matches Some(t) ==> t.wf() && table_image(t) == bytes@,
    {
        proof {
            lemma_config_values();
            lemma_auto_spec_u32_to_from_le_bytes();
        }
        if bytes.len() < 4 {
            return None;
        }
        let body = bytes.len() - 4;
        if body % PAGE_SIZE != 0 {
            return None;
        }
        let npages = body / PAGE_SIZE;
        if npages > TABLE_MAX_PAGES {
            return None;
        }
        let rows_count = u32_from_le_bytes(slice_subrange(bytes, 0, 4));
        proof {
            assert(bytes@.subrange(0, 4) =~= bytes@.take(4));
        }
        if rows_count > TABLE_MAX_ROWS as u32 {
            return None;
        }
        if rows_count as usize > npages * ROWS_PER_PAGE {
            return None;
        }
        let mut pages: Vec<Vec<u8>> = Vec::new();
        let mut i: usize = 0;
        while i < npages
            invariant
                npages <= TABLE_MAX_PAGES,
                4 + npages * PAGE_SIZE == bytes@.len(),
                i <= npages,
                pages@.len() == i,
                forall|q: int|
                    0 <= q < i ==> (#[trigger] pages@[q])@ == bytes@.subrange(
                        4 + q * (PAGE_SIZE as int),
                        4 + (q + 1) * (PAGE_SIZE as int),
                    ),
            decreases npages - i,
        {
            let page = slice_to_vec(slice_subrange(bytes, 4 + i * PAGE_SIZE, 4 + (i + 1)
                * PAGE_SIZE));
            pages.push(page);
            i = i + 1;
        }
        let t = Table { rows_count, pages };
        proof {
            lemma_image_of_chunks(t, bytes@);
        }
        Some(t)
    }
}

/// A table whose pages are consecutive chunks of `b` after the four count
/// bytes serializes to exactly `b`.
proof fn lemma_image_of_chunks(t: Table, b: Seq<u8>)
    requires
        b.len() >= 4,
        b.len() == 4 + page_views(t).len() * (PAGE_SIZE as int),
        spec_u32_to_le_bytes(t.rows_count) == b.take(4),
        forall|q: int|
            0 <= q < page_views(t).len() ==> #[trigger] page_views(t)[q] == b.subrange(
                4 + q * (PAGE_SIZE as int),
                4 + (q + 1) * (PAGE_SIZE as int),
            ),
    ensures
        table_image(t) == b,
{
    lemma_chunk_concat(page_views(t), b, page_views(t).len() as int);
    assert(page_views(t).take(page_views(t).len() as int) =~= page_views(t));
    assert(table_image(t) =~= b);
}

/// Concatenating the first `n` chunks yields the first `n * PAGE_SIZE`
/// body bytes.
proof fn lemma_chunk_concat(ps: Seq<Seq<u8>>, b: Seq<u8>, n: int)
    requires
        0 <= n <= ps.len(),
        b.len() >= 4 + ps.len() * (PAGE_SIZE as int),
        forall|q: int|
            0 <= q < ps.len() ==> #[trigger] ps[q] == b.subrange(
                4 + q * (PAGE_SIZE as int),
                4 + (q + 1) * (PAGE_SIZE as int),
            ),
    ensures
        concat_pages(ps.take(n)) == b.subrange(4, 4 + n * (PAGE_SIZE as int)),
    decreases n,
{
    vstd::arithmetic::mul::lemma_mul_inequality(n, ps.len() as int, PAGE_SIZE as int);
    if n == 0 {
        assert(concat_pages(ps.take(0)) =~= b.subrange(4, 4));
    } else {
        lemma_chunk_concat(ps, b, n - 1);
        lemma_concat_pages_push(ps.take(n - 1), ps[n - 1]);
        assert(ps.take(n) =~= ps.take(n - 1).push(ps[n - 1]));
        assert(concat_pages(ps.take(n)) =~= b.subrange(4, 4 + n * (PAGE_SIZE as int)));
    }
}

/// Concatenation determines the chunks: when every page has the fixed size,
/// the `q`-th page reads back as the `q`-th chunk of the concatenation.
proof fn lemma_concat_chunks_unique(ps: Seq<Seq<u8>>, q: int)
    requires
        forall|k: int| 0 <= k < ps.len() ==> (#[trigger] ps[k]).len() == PAGE_SIZE,
        0 <= q < ps.len(),
    ensures
        ps[q] == concat_pages(ps).subrange(
            q * (PAGE_SIZE as int),
            (q + 1) * (PAGE_SIZE as int),
        ),
    decreases q,
{
    lemma_concat_pages_len(ps);
    vstd::arithmetic::mul::lemma_mul_inequality(q + 1, ps.len() as int, PAGE_SIZE as int);
    if q == 0 {
        assert(ps[0] =~= concat_pages(ps).subrange(0, PAGE_SIZE as int));
    } else {
        lemma_concat_chunks_unique(ps.drop_first(), q - 1);
        lemma_concat_pages_len(ps.drop_first());
        assert(ps[q] =~= concat_pages(ps).subrange(
            q * (PAGE_SIZE as int),
            (q + 1) * (PAGE_SIZE as int),
        ));
    }
}

/// Closing and reopening loses nothing: two well-formed tables with the
/// same byte image hold the same row count and exactly the same rows.
pub proof fn lemma_image_determines_rows(t1: Table, t2: Table)
    requires
        t1.wf(),
        t2.wf(),
        table_image(t1) == table_image(t2),
    ensures
        t2.rows_count == t1.rows_count,
        t2.rows() == t1.rows(),
{
    lemma_config_values();
    lemma_auto_spec_u32_to_from_le_bytes();
    assert(table_image(t1).take(4) =~= spec_u32_to_le_bytes(t1.rows_count));
    assert(table_image(t2).take(4) =~= spec_u32_to_le_bytes(t2.rows_count));
    lemma_concat_pages_len(page_views(t1));
    lemma_concat_pages_len(page_views(t2));
    assert(table_image(t1).skip(4) =~= concat_pages(page_views(t1)));
    assert(table_image(t2).skip(4) =~= concat_pages(page_views(t2)));
    let n = page_views(t1).len() as int;
    assert(page_views(t2).len() == n) by {
        if page_views(t1).len() < page_views(t2).len() {
            vstd::arithmetic::mul::lemma_mul_strict_inequality(
                page_views(t1).len() as int,
                page_views(t2).len() as int,
                PAGE_SIZE as int,
            );
        }
        if page_views(t2).len() < page_views(t1).len() {
            vstd::arithmetic::mul::lemma_mul_strict_inequality(
                page_views(t2).len() as int,
                page_views(t1).len() as int,
                PAGE_SIZE as int,
            );
        }
    }
    assert forall|q: int| 0 <= q < n implies page_views(t1)[q] == page_views(t2)[q] by {
        lemma_concat_chunks_unique(page_views(t1), q);
        lemma_concat_chunks_unique(page_views(t2), q);
    }
    assert(page_views(t1) =~= page_views(t2));
    assert forall|i: int| 0 <= i < t1.rows_count implies t1.slot_bytes(i) == t2.slot_bytes(i) by {
        lemma_slot_in_bounds(i, n);
        assert(t1.pages@[slot_page(i)]@ == page_views(t1)[slot_page(i)]);
        assert(t2.pages@[slot_page(i)]@ == page_views(t2)[slot_page(i)]);
    }
    assert(t1.rows() =~= t2.rows());
}

} // verus!
