use vstd::prelude::*;

use vstd::arithmetic::div_mod::lemma_fundamental_div_mod;

use crate::codec::{encode_row_v, lemma_row_round_trip};
use crate::constants::{
    lemma_config_values, EMAIL_SIZE, ROWS_PER_PAGE, ROW_SIZE, TABLE_MAX_ROWS, USERNAME_SIZE,
};
use crate::number::id_parseable;
use crate::prepare::{
    check_stmt, insert_kw, insert_row_v, prepare_insert, select_kw, PrepareInsertResult,
    PrepareState, Statement, StatementType,
};
use crate::row::{Row, RowV};
use crate::tokenize::tokens;
use crate::table::{
    lemma_distinct_slots_disjoint, lemma_slot_in_bounds, slot_offset, slot_page, Table,
};

verus! {

/// Outcome of executing one validated statement against the table.
#[derive(Clone, Copy, PartialEq, Eq, Structural, Debug)]
pub enum ExecuteResult {
    Success,
    TableFull,
}

/// Appends one row at the next free slot. At capacity nothing changes and
/// the insert reports the table full; otherwise exactly this row is added
/// at the end of the stored sequence.
pub fn execute_insert(row: &Row, table: &mut Table) -> (r: ExecuteResult)
    requires
        old(table).wf(),
        row.wf(),
    ensures
        final(table).wf(),
        old(table).rows_count >= TABLE_MAX_ROWS ==> r == ExecuteResult::TableFull
            && *final(table) == *old(table),
        old(table).rows_count < TABLE_MAX_ROWS ==> r == ExecuteResult::Success
            && final(table).rows_count == old(table).rows_count + 1
            && final(table).rows() == old(table).rows().push(row@),
{
    proof {
        lemma_config_values();
    }
    if table.rows_count >= TABLE_MAX_ROWS as u32 {
        return ExecuteResult::TableFull;
    }
    let rc = table.rows_count;
    let (page_num, byte_offset) = table.row_slot(rc);
    let ghost t0 = *table;
    let _alloc = table.get_page_for_write(page_num);
    proof {
        assert(_alloc is Ok);  // the slot's page index is always below the page cap
    }
    let ghost t1 = *table;
    table.serialize_row(row, page_num, byte_offset);
    let ghost t2 = *table;
    table.rows_count = rc + 1;
    proof {
        let d = ROWS_PER_PAGE as int;
        lemma_fundamental_div_mod(rc as int, d);
        assert(rc + 1 <= (slot_page(rc as int) + 1) * d);
        vstd::arithmetic::mul::lemma_mul_inequality(
            slot_page(rc as int) + 1,
            table.pages@.len() as int,
            d,
        );
        assert forall|i: int| 0 <= i < rc implies table.slot_bytes(i) == t0.slot_bytes(i) by {
            lemma_slot_in_bounds(i, t0.pages@.len() as int);
            if slot_page(i) == page_num {
                lemma_distinct_slots_disjoint(i, rc as int);
                assert(t2.pages@[slot_page(i)]@.subrange(
                    slot_offset(i),
                    slot_offset(i) + ROW_SIZE,
                ) =~= t1.pages@[slot_page(i)]@.subrange(
                    slot_offset(i),
                    slot_offset(i) + ROW_SIZE,
                ));
            }
            assert(table.slot_bytes(i) =~= t0.slot_bytes(i));
        }
        assert(table.slot_bytes(rc as int) == encode_row_v(row@));
        lemma_row_round_trip(row@);
        assert(table.rows() =~= t0.rows().push(row@));
    }
    ExecuteResult::Success
}

/// Reads every stored row back, oldest first: the result lists exactly the
/// table's rows in insertion order, so with no intervening insert every
/// scan yields the same output.
pub fn execute_select(table: &Table) -> (out: Vec<Row>)
    requires
        table.wf(),
    ensures
        out@.len() == table.rows_count,
        forall|i: int|
            0 <= i < out@.len() ==> (#[trigger] out@[i])@ == table.rows()[i] && out@[i].wf(),
{
    let mut out: Vec<Row> = Vec::new();
    let mut i: u32 = 0;
    while i < table.rows_count
        invariant
            table.wf(),
            i <= table.rows_count,
            out@.len() == i,
            forall|j: int|
                0 <= j < out@.len() ==> (#[trigger] out@[j])@ == table.rows()[j] && out@[j].wf(),
        decreases table.rows_count - i,
    {
        let (page_num, byte_offset) = table.row_slot(i);
        proof {
            lemma_slot_in_bounds(i as int, table.pages@.len() as int);
        }
        let r = table.deserialize_row(page_num, byte_offset);
        out.push(r);
        i = i + 1;
    }
    out
}

/// Reading is idempotent: any two select outputs taken from the same table
/// state, each meeting the select contract, are the same sequence of rows.
pub proof fn lemma_select_idempotent(t: Table, out1: Seq<RowV>, out2: Seq<RowV>)
    requires
        out1.len() == t.rows_count,
        forall|i: int| 0 <= i < out1.len() ==> out1[i] == t.rows()[i],
        out2.len() == t.rows_count,
        forall|i: int| 0 <= i < out2.len() ==> out2[i] == t.rows()[i],
    ensures
        out1 == out2,
{
    assert(out1 =~= out2);
}

/// Everything one line of input can come to once the meta-command path has
/// passed it by.
#[derive(Debug)]
pub enum StatementOutcome {
    /// An insert stored its row.
    Inserted,
    /// A select read the stored rows back, oldest first.
    Selected(Vec<Row>),
    /// An insert found the table at capacity; nothing changed.
    TableFull,
    /// Wrong token count, or an id that is not a fitting decimal number.
    SyntaxError,
    /// The username exceeds its fixed width.
    UsernameTooLong,
    /// The email exceeds its fixed width.
    EmailTooLong,
    /// The first token is no statement keyword.
    Unrecognized,
}

/// What executing one statement line must do to the table and report back,
/// as a relation between the tokens, the table before and after, and the
/// outcome.
pub open spec fn statement_effect(
    ts: Seq<Seq<u8>>,
    pre: Table,
    post: Table,
    r: StatementOutcome,
) -> bool {
    if ts.len() > 0 && ts[0] == insert_kw() {
        if ts.len() != 4 {
            r is SyntaxError && post == pre
        } else if !id_parseable(ts[1]) {
            r is SyntaxError && post == pre
        } else if ts[2].len() > USERNAME_SIZE {
            r is UsernameTooLong && post == pre
        } else if ts[3].len() > EMAIL_SIZE {
            r is EmailTooLong && post == pre
        } else if pre.rows_count >= TABLE_MAX_ROWS {
            r is TableFull && post == pre
        } else {
            &&& r is Inserted
            &&& post.rows_count == pre.rows_count + 1
            &&& post.rows() == pre.rows().push(insert_row_v(ts))
        }
    } else if ts.len() > 0 && ts[0] == select_kw() {
        &&& post == pre
        &&& (r matches StatementOutcome::Selected(v) && v@.len() == pre.rows_count && (forall|
            i: int,
        |
            0 <= i < v@.len() ==> (#[trigger] v@[i])@ == pre.rows()[i]))
    } else {
        r is Unrecognized && post == pre
    }
}

/// Runs one statement line against the table: classification, validation,
/// then insert or select, with every rejection leaving the table as it was.
pub fn execute_stmt(line: &[u8], table: &mut Table) -> (r: StatementOutcome)
    requires
        old(table).wf(),
    ensures
        final(table).wf(),
        statement_effect(tokens(line@), *old(table), *final(table), r),
{
    let (state, stm_type) = check_stmt(line);
    match state {
        PrepareState::Success => {
            match stm_type {
                StatementType::Insert => {
                    let mut stmt = Statement::new(StatementType::Insert);
                    match prepare_insert(&mut stmt.row, line) {
                        PrepareInsertResult::Success => {
                            match execute_insert(&stmt.row, table) {
                                ExecuteResult::Success => StatementOutcome::Inserted,
                                ExecuteResult::TableFull => StatementOutcome::TableFull,
                            }
                        },
                        PrepareInsertResult::SyntaxError => StatementOutcome::SyntaxError,
                        PrepareInsertResult::UsernameTooLong => StatementOutcome::UsernameTooLong,
                        PrepareInsertResult::EmailTooLong => StatementOutcome::EmailTooLong,
                    }
                },
                StatementType::Select => {
                    let rows = execute_select(table);
                    StatementOutcome::Selected(rows)
                },
                StatementType::Unknown => StatementOutcome::Unrecognized,
            }
        },
        PrepareState::SyntaxError => StatementOutcome::SyntaxError,
        PrepareState::Unrecognized => StatementOutcome::Unrecognized,
    }
}

} // verus!
