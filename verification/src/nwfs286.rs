//! The NetWare 286 file system: the volume information, the directory
//! table, the block-allocation table and the queries over them.

pub mod parser;
pub mod shell;
pub mod types;
