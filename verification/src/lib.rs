//! Generating SQL statements from the fields of a struct.
pub mod scan;
pub mod scan_laws;
pub mod sql;
pub mod sql_laws;
pub mod statement_laws;
pub mod text;
