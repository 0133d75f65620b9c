//! A SQL parser for TiDB: sqlparser's MySQL grammar, extended with the
//! `ADMIN SHOW DDL [JOBS [<count>] [WHERE <predicate>]]` statements.
pub mod sql;
pub mod token;
pub mod admin;
pub mod statement;
pub mod parser;

pub use parser::TiDBParser;
