//! Read-only decoder for the NetWare 286 and NetWare 386 on-disk file systems.
//!
//! A disk image is held in memory as a byte slice. The decoder locates the
//! NetWare partition, parses the volume metadata, the directory tables and
//! the block-allocation tables, and serves directory listings, path lookups
//! and file contents. Nothing is ever written to an image.
//!
//! * [`bytes`] reads fixed-width integers from an image.
//! * [`util`] finds the NetWare partition and decodes text fields.
//! * [`nwfs286`] decodes a NetWare 286 volume and answers queries over it.
//! * [`nwfs386`] decodes the headers of a NetWare 386 partition, binds the
//!   segments of a volume from one or more images together and answers
//!   queries over the volume.
//! * [`shell_cli`] is what both file systems offer to an interactive shell,
//!   and the shell's own bookkeeping.
//!
//! Every function states what it returns for every input, errors
//! included, and is proved to do so; no function panics.

pub mod bytes;
pub mod nwfs286;
pub mod nwfs386;
pub mod shell_cli;
pub mod types;
pub mod util;
