use vstd::prelude::*;

verus! {

/// Width in bytes of the encoded `id` field.
pub const ID_SIZE: usize = 4;

/// Maximum length in bytes of a username, and its encoded width.
pub const USERNAME_SIZE: usize = 32;

/// Maximum length in bytes of an email, and its encoded width.
pub const EMAIL_SIZE: usize = 255;

/// Width in bytes of one encoded row.
pub const ROW_SIZE: usize = ID_SIZE + USERNAME_SIZE + EMAIL_SIZE;

/// Width in bytes of one page of the backing store.
pub const PAGE_SIZE: usize = 4096;

/// Number of whole rows that fit in one page; trailing bytes stay unused.
pub const ROWS_PER_PAGE: usize = PAGE_SIZE / ROW_SIZE;

/// Hard cap on the number of pages a table may allocate.
pub const TABLE_MAX_PAGES: usize = 100;

/// Hard cap on the number of rows a table may hold.
pub const TABLE_MAX_ROWS: usize = ROWS_PER_PAGE * TABLE_MAX_PAGES;

/// The concrete values the configuration constants work out to.
pub proof fn lemma_config_values()
    ensures
        ROW_SIZE == 291,
        ROWS_PER_PAGE == 14,
        TABLE_MAX_ROWS == 1400,
{
    assert(ROW_SIZE == 291);
    assert(ROWS_PER_PAGE == 14);
    assert(TABLE_MAX_ROWS == 1400);
}

} // verus!
