//! Data extraction from tokens and content lines: plain text and byte
//! ranges, before any document tree is built.
pub mod table;
pub mod table_block;
pub mod dedent;
pub mod paragraph;
pub mod parameter;
pub mod utilities;
pub mod verbatim;
