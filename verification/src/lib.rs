//! SQL query text generation for the `Sql*` table derives: attribute values,
//! the shared table model, and one query plan per derive.

pub mod text;
pub mod attrs;
pub mod model;
pub mod select;
pub mod select_many;
pub mod delete;
pub mod select_all;
pub mod insert;
pub mod insert_many;
pub mod table;
pub mod update;
