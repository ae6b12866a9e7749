use minidb::engine::{execute_stmt, StatementOutcome};
use minidb::meta::{do_meta_cmd, MetaCmd};
use minidb::number::{parse_u32, u32_to_dec};
use minidb::prepare::{check_stmt, prepare_insert, PrepareInsertResult, PrepareState, Statement, StatementType};
use minidb::render::render_row;
use minidb::row::Row;
use minidb::table::Table;
use minidb::tokenize::tokenize;

#[test]
fn tokenizer_splits_on_whitespace() {
    let toks = tokenize(b"  insert  1\talice  alice@example.com ");
    let words: Vec<&[u8]> = toks.iter().map(|t| t.as_slice()).collect();
    assert_eq!(words, vec![&b"insert"[..], b"1", b"alice", b"alice@example.com"]);
    assert_eq!(tokenize(b"").len(), 0);
    assert_eq!(tokenize(b"   ").len(), 0);
}

#[test]
fn parse_u32_accepts_exactly_fitting_digit_strings() {
    assert_eq!(parse_u32(&b"0".to_vec()), Some(0));
    assert_eq!(parse_u32(&b"1400".to_vec()), Some(1400));
    assert_eq!(parse_u32(&b"4294967295".to_vec()), Some(u32::MAX));
    assert_eq!(parse_u32(&b"4294967296".to_vec()), None);
    assert_eq!(parse_u32(&b"".to_vec()), None);
    assert_eq!(parse_u32(&b"12a".to_vec()), None);
    assert_eq!(parse_u32(&b"-1".to_vec()), None);
    assert_eq!(parse_u32(&b"007".to_vec()), Some(7));
}

#[test]
fn check_stmt_classifies_lines() {
    assert_eq!(check_stmt(b"insert 1 a b"), (PrepareState::Success, StatementType::Insert));
    assert_eq!(check_stmt(b"insert 1 a"), (PrepareState::SyntaxError, StatementType::Insert));
    assert_eq!(check_stmt(b"insert 1 a b c"), (PrepareState::SyntaxError, StatementType::Insert));
    assert_eq!(check_stmt(b"select"), (PrepareState::Success, StatementType::Select));
    assert_eq!(check_stmt(b"select extra"), (PrepareState::Success, StatementType::Select));
    assert_eq!(check_stmt(b"selectx"), (PrepareState::Unrecognized, StatementType::Unknown));
    assert_eq!(check_stmt(b"drop"), (PrepareState::Unrecognized, StatementType::Unknown));
    assert_eq!(check_stmt(b""), (PrepareState::Unrecognized, StatementType::Unknown));
}

#[test]
fn prepare_insert_validates_and_fills_the_row() {
    let mut stmt = Statement::new(StatementType::Insert);
    let r = prepare_insert(&mut stmt.row, b"insert 42 alice alice@example.com");
    assert_eq!(r, PrepareInsertResult::Success);
    assert_eq!(stmt.row.id, 42);
    assert_eq!(&stmt.row.name[..5], b"alice");
    assert!(stmt.row.name[5..].iter().all(|b| *b == 0));
    assert_eq!(&stmt.row.email[..17], b"alice@example.com");
}

#[test]
fn prepare_insert_rejects_bad_arity_and_bad_id() {
    let mut row = Row::new();
    assert_eq!(prepare_insert(&mut row, b"insert 3 onlyonearg"), PrepareInsertResult::SyntaxError);
    assert_eq!(prepare_insert(&mut row, b"insert abc a b"), PrepareInsertResult::SyntaxError);
    assert_eq!(row.id, 0);
}

#[test]
fn prepare_insert_reports_the_over_long_field() {
    let mut row = Row::new();
    let long_name = vec![b'n'; 33];
    let line = [b"insert 1 ".to_vec(), long_name, b" a@b".to_vec()].concat();
    assert_eq!(prepare_insert(&mut row, &line), PrepareInsertResult::UsernameTooLong);
    let long_email = vec![b'e'; 300];
    let line = [b"insert 2 bob ".to_vec(), long_email].concat();
    assert_eq!(prepare_insert(&mut row, &line), PrepareInsertResult::EmailTooLong);
}

#[test]
fn insert_then_select_scenario() {
    let mut table = Table::new();
    let r = execute_stmt(b"insert 1 alice alice@example.com", &mut table);
    assert!(matches!(r, StatementOutcome::Inserted));
    let r = execute_stmt(b"select", &mut table);
    match r {
        StatementOutcome::Selected(rows) => {
            assert_eq!(rows.len(), 1);
            assert_eq!(render_row(&rows[0]), b"1 alice alice@example.com".to_vec());
        },
        other => panic!("expected a select result, got {:?}", other),
    }
}

#[test]
fn oversized_email_scenario_leaves_no_row() {
    let mut table = Table::new();
    let line = [b"insert 2 bob ".to_vec(), vec![b'e'; 300]].concat();
    let r = execute_stmt(&line, &mut table);
    assert!(matches!(r, StatementOutcome::EmailTooLong));
    match execute_stmt(b"select", &mut table) {
        StatementOutcome::Selected(rows) => assert_eq!(rows.len(), 0),
        other => panic!("expected a select result, got {:?}", other),
    }
}

#[test]
fn malformed_arity_scenario_leaves_table_unchanged() {
    let mut table = Table::new();
    let r = execute_stmt(b"insert 3 onlyonearg", &mut table);
    assert!(matches!(r, StatementOutcome::SyntaxError));
    assert_eq!(table.rows_count, 0);
    let r = execute_stmt(b"insert nonnumeric a b", &mut table);
    assert!(matches!(r, StatementOutcome::SyntaxError));
    assert_eq!(table.rows_count, 0);
}

#[test]
fn unknown_statement_is_unrecognized() {
    let mut table = Table::new();
    let r = execute_stmt(b"delete 1", &mut table);
    assert!(matches!(r, StatementOutcome::Unrecognized));
    assert_eq!(table.rows_count, 0);
}

#[test]
fn meta_commands_classify() {
    assert_eq!(do_meta_cmd(b".exit"), MetaCmd::Exit);
    assert_eq!(do_meta_cmd(b".q"), MetaCmd::Exit);
    assert_eq!(do_meta_cmd(b".tables"), MetaCmd::Tables);
    assert_eq!(do_meta_cmd(b".quit"), MetaCmd::Unrecognized);
    assert_eq!(do_meta_cmd(b"exit"), MetaCmd::Unrecognized);
}

#[test]
fn decimal_rendering_matches_expected_text() {
    assert_eq!(u32_to_dec(0), b"0".to_vec());
    assert_eq!(u32_to_dec(42), b"42".to_vec());
    assert_eq!(u32_to_dec(4294967295), b"4294967295".to_vec());
}
