//! The NetWare 386 file system: partition headers, volume segments,
//! directory records, block chains and the queries over them.

pub mod image;
pub mod parser;
pub mod partition;
pub mod shell;
pub mod types;
pub mod volume;
