//! A minimal single-table record store: fixed-width row codec, paged slot
//! storage, statement preparation and execution, all verified.

pub mod codec;
pub mod constants;
pub mod engine;
pub mod meta;
pub mod number;
pub mod persist;
pub mod prepare;
pub mod render;
pub mod row;
pub mod table;
pub mod tokenize;
