use minidb::codec::{decode_row, encode_row};
use minidb::constants::{EMAIL_SIZE, PAGE_SIZE, ROW_SIZE, TABLE_MAX_ROWS, USERNAME_SIZE};
use minidb::engine::{execute_insert, execute_select, ExecuteResult};
use minidb::prepare::pad_field;
use minidb::row::Row;
use minidb::table::{PageError, Table};

fn mk_row(id: u32, name: &[u8], email: &[u8]) -> Row {
    Row {
        id,
        name: pad_field(&name.to_vec(), USERNAME_SIZE),
        email: pad_field(&email.to_vec(), EMAIL_SIZE),
    }
}

#[test]
fn row_codec_round_trip() {
    let row = mk_row(7, b"alice", b"alice@example.com");
    let bytes = encode_row(&row);
    assert_eq!(bytes.len(), ROW_SIZE);
    let back = decode_row(&bytes);
    assert_eq!(back.id, 7);
    assert_eq!(back.name, row.name);
    assert_eq!(back.email, row.email);
    assert_eq!(&back.name[..5], b"alice");
    assert_eq!(back.name[5], 0);
}

#[test]
fn row_codec_round_trip_full_width_fields() {
    let row = mk_row(u32::MAX, &[b'x'; 32], &[b'y'; 255]);
    let back = decode_row(&encode_row(&row));
    assert_eq!(back.id, u32::MAX);
    assert_eq!(back.name, vec![b'x'; 32]);
    assert_eq!(back.email, vec![b'y'; 255]);
}

#[test]
fn slot_addresses_advance_row_by_row() {
    let table = Table::new();
    assert_eq!(table.row_slot(0), (0, 0));
    assert_eq!(table.row_slot(1), (0, ROW_SIZE));
    assert_eq!(table.row_slot(13), (0, 13 * ROW_SIZE));
    assert_eq!(table.row_slot(14), (1, 0));
    assert_eq!(table.row_slot(15), (1, ROW_SIZE));
}

#[test]
fn slot_addresses_are_injective() {
    let table = Table::new();
    let mut last: Option<usize> = None;
    for i in 0..TABLE_MAX_ROWS as u32 {
        let (page, offset) = table.row_slot(i);
        assert!(offset + ROW_SIZE <= PAGE_SIZE);
        let absolute = page * PAGE_SIZE + offset;
        if let Some(prev) = last {
            assert!(absolute > prev);
        }
        last = Some(absolute);
    }
}

#[test]
fn insert_succeeds_to_capacity_and_then_reports_full() {
    let mut table = Table::new();
    for i in 0..TABLE_MAX_ROWS as u32 {
        let row = mk_row(i, b"user", b"user@example.com");
        assert_eq!(execute_insert(&row, &mut table), ExecuteResult::Success);
    }
    assert_eq!(table.rows_count as usize, TABLE_MAX_ROWS);
    let row = mk_row(9999, b"late", b"late@example.com");
    assert_eq!(execute_insert(&row, &mut table), ExecuteResult::TableFull);
    assert_eq!(table.rows_count as usize, TABLE_MAX_ROWS);
}

#[test]
fn select_preserves_insertion_order() {
    let mut table = Table::new();
    for id in [7u32, 3, 9] {
        let row = mk_row(id, b"u", b"e@example.com");
        assert_eq!(execute_insert(&row, &mut table), ExecuteResult::Success);
    }
    let out = execute_select(&table);
    let ids: Vec<u32> = out.iter().map(|r| r.id).collect();
    assert_eq!(ids, vec![7, 3, 9]);
}

#[test]
fn repeated_select_is_identical() {
    let mut table = Table::new();
    for id in [5u32, 1, 22] {
        let row = mk_row(id, b"name", b"mail@example.com");
        execute_insert(&row, &mut table);
    }
    let first = execute_select(&table);
    let second = execute_select(&table);
    assert_eq!(first.len(), second.len());
    for (a, b) in first.iter().zip(second.iter()) {
        assert_eq!(a.id, b.id);
        assert_eq!(a.name, b.name);
        assert_eq!(a.email, b.email);
    }
}

#[test]
fn pages_allocate_lazily_and_cap_out() {
    let mut table = Table::new();
    assert!(matches!(table.get_page_for_read(0), Err(PageError::PageNotFound)));
    assert!(table.get_page_for_write(0).is_ok());
    let page = table.get_page_for_read(0).unwrap();
    assert_eq!(page.len(), PAGE_SIZE);
    assert!(page.iter().all(|b| *b == 0));
    assert!(matches!(table.get_page_for_write(100), Err(PageError::CapacityExceeded)));
}

#[test]
fn image_round_trip_recovers_rows() {
    let mut table = Table::new();
    for id in [11u32, 12] {
        let row = mk_row(id, b"bob", b"bob@example.com");
        execute_insert(&row, &mut table);
    }
    let image = table.to_image();
    let reopened = Table::from_image(&image).unwrap();
    assert_eq!(reopened.rows_count, 2);
    let out = execute_select(&reopened);
    assert_eq!(out.len(), 2);
    assert_eq!(out[0].id, 11);
    assert_eq!(out[1].id, 12);
    assert_eq!(&out[1].name[..3], b"bob");
}

#[test]
fn image_rejects_garbage() {
    assert!(Table::from_image(&[1, 2, 3]).is_none());
    assert!(Table::from_image(&[0, 0, 0, 0, 7]).is_none());
    let empty = Table::new().to_image();
    assert_eq!(empty.len(), 4);
    assert!(Table::from_image(&empty).is_some());
}
