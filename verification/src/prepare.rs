use vstd::prelude::*;

use crate::codec::append_bytes;
use crate::constants::{EMAIL_SIZE, USERNAME_SIZE};
use crate::number::{dec_value, id_parseable, parse_u32};
use crate::row::{Row, RowV};
use crate::tokenize::{tokenize, tokens};

verus! {

/// The bytes of the `insert` keyword.
pub open spec fn insert_kw() -> Seq<u8> {
    seq![105u8, 110u8, 115u8, 101u8, 114u8, 116u8]
}

/// The bytes of the `select` keyword.
pub open spec fn select_kw() -> Seq<u8> {
    seq![115u8, 101u8, 108u8, 101u8, 99u8, 116u8]
}

/// Classification of one input line's statement keyword.
#[derive(Clone, Copy, PartialEq, Eq, Structural, Debug)]
pub enum StatementType {
    Insert,
    Select,
    Unknown,
}

/// Outcome of the statement-shape check.
#[derive(Clone, Copy, PartialEq, Eq, Structural, Debug)]
pub enum PrepareState {
    Success,
    Unrecognized,
    SyntaxError,
}

/// Outcome of validating an insert statement's arguments.
#[derive(Clone, Copy, PartialEq, Eq, Structural, Debug)]
pub enum PrepareInsertResult {
    Success,
    SyntaxError,
    UsernameTooLong,
    EmailTooLong,
}

/// A classified statement together with the row an insert will carry.
pub struct Statement {
    pub stm_type: StatementType,
    pub row: Row,
}

impl Statement {
    /// A statement of the given kind with a fresh all-zero row.
    pub fn new(stm_type: StatementType) -> (s: Statement)
        ensures
            s.stm_type == stm_type,
            s.row.wf(),
            s.row@.id == 0,
            s.row@.name == Seq::new(USERNAME_SIZE as nat, |i: int| 0u8),
            s.row@.email == Seq::new(EMAIL_SIZE as nat, |i: int| 0u8),
    {
        Statement { stm_type, row: Row::new() }
    }
}

/// True exactly when `t` holds the `insert` keyword.
fn is_insert_token(t: &Vec<u8>) -> (r: bool)
    ensures
        r <==> t@ == insert_kw(),
{
    let r = t.len() == 6 && t[0] == 105 && t[1] == 110 && t[2] == 115 && t[3] == 101 && t[4]
        == 114 && t[5] == 116;
    proof {
        if r {
            assert(t@ =~= insert_kw());
        }
    }
    r
}

/// True exactly when `t` holds the `select` keyword.
fn is_select_token(t: &Vec<u8>) -> (r: bool)
    ensures
        r <==> t@ == select_kw(),
{
    let r = t.len() == 6 && t[0] == 115 && t[1] == 101 && t[2] == 108 && t[3] == 101 && t[4] == 99
        && t[5] == 116;
    proof {
        if r {
            assert(t@ =~= select_kw());
        }
    }
    r
}

/// Classifies one line: an `insert` line must have exactly four tokens, a
/// `select` line is accepted as is, and any other first token (or an empty
/// line) is unrecognized.
pub fn check_stmt(line: &[u8]) -> (r: (PrepareState, StatementType))
    ensures
        ({
            let ts = tokens(line@);
            if ts.len() > 0 && ts[0] == insert_kw() {
                r.1 == StatementType::Insert && if ts.len() == 4 {
                    r.0 == PrepareState::Success
                } else {
                    r.0 == PrepareState::SyntaxError
                }
            } else if ts.len() > 0 && ts[0] == select_kw() {
                r == (PrepareState::Success, StatementType::Select)
            } else {
                r == (PrepareState::Unrecognized, StatementType::Unknown)
            }
        }),
{
    let toks = tokenize(line);
    if toks.len() == 0 {
        return (PrepareState::Unrecognized, StatementType::Unknown);
    }
    if is_insert_token(&toks[0]) {
        if toks.len() != 4 {
            return (PrepareState::SyntaxError, StatementType::Insert);
        }
        return (PrepareState::Success, StatementType::Insert);
    }
    if is_select_token(&toks[0]) {
        return (PrepareState::Success, StatementType::Select);
    }
    (PrepareState::Unrecognized, StatementType::Unknown)
}

/// `s` left-packed into a field of `width` bytes, zero-padded at the end.
pub open spec fn padded(s: Seq<u8>, width: int) -> Seq<u8> {
    s + Seq::new((width - s.len()) as nat, |i: int| 0u8)
}

/// Copies `src` into a fresh buffer of exactly `width` bytes, zero-padded.
pub fn pad_field(src: &Vec<u8>, width: usize) -> (out: Vec<u8>)
    requires
        src@.len() <= width,
    ensures
        out@ == padded(src@, width as int),
        out@.len() == width,
{
    let mut out: Vec<u8> = Vec::new();
    append_bytes(&mut out, src);
    proof {
        assert(out@ =~= src@);
    }
    while out.len() < width
        invariant
            src@.len() <= out@.len() <= width,
            out@ == padded(src@, out@.len() as int),
        decreases width - out@.len(),
    {
        out.push(0);
        proof {
            assert(out@ =~= padded(src@, out@.len() as int));
        }
    }
    out
}

/// The row an insert statement with tokens `ts` asks to store.
pub open spec fn insert_row_v(ts: Seq<Seq<u8>>) -> RowV {
    RowV {
        id: dec_value(ts[1]) as u32,
        name: padded(ts[2], USERNAME_SIZE as int),
        email: padded(ts[3], EMAIL_SIZE as int),
    }
}

/// Validates an insert statement's arguments and, on success, fills `row`
/// with the id and the zero-padded field buffers. On any rejection the row
/// is left exactly as it was: a wrong token count or an id that is not a
/// fitting decimal number is a syntax error, and an over-long field is
/// reported as such, username checked first.
pub fn prepare_insert(row: &mut Row, line: &[u8]) -> (r: PrepareInsertResult)
    requires
        old(row).wf(),
    ensures
        final(row).wf(),
        ({
            let ts = tokens(line@);
            if ts.len() != 4 {
                r == PrepareInsertResult::SyntaxError && *final(row) == *old(row)
            } else if !id_parseable(ts[1]) {
                r == PrepareInsertResult::SyntaxError && *final(row) == *old(row)
            } else if ts[2].len() > USERNAME_SIZE {
                r == PrepareInsertResult::UsernameTooLong && *final(row) == *old(row)
            } else if ts[3].len() > EMAIL_SIZE {
                r == PrepareInsertResult::EmailTooLong && *final(row) == *old(row)
            } else {
                r == PrepareInsertResult::Success && final(row)@ == insert_row_v(ts)
            }
        }),
{
    let toks = tokenize(line);
    if toks.len() != 4 {
        return PrepareInsertResult::SyntaxError;
    }
    let id = match parse_u32(&toks[1]) {
        Option::Some(v) => v,
        Option::None => {
            return PrepareInsertResult::SyntaxError;
        },
    };
    if toks[2].len() > USERNAME_SIZE {
        return PrepareInsertResult::UsernameTooLong;
    }
    if toks[3].len() > EMAIL_SIZE {
        return PrepareInsertResult::EmailTooLong;
    }
    row.id = id;
    row.name = pad_field(&toks[2], USERNAME_SIZE);
    row.email = pad_field(&toks[3], EMAIL_SIZE);
    PrepareInsertResult::Success
}

} // verus!
