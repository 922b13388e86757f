//! Reading `.mds`/`.mdf` disc images: the `.mds` metadata format, the cooked
//! 2048-byte sector view of a data track, and a small ISO9660 reader.

pub mod args;
pub mod bytes;
pub mod convert;
pub mod cooked;
pub mod cue;
pub mod error;
pub mod extract;
pub mod info;
pub mod iso9660;
pub mod laws;
pub mod mds;
pub mod paths;
pub mod source;
pub mod text;
pub mod unicode;
