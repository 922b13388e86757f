//! The `.mds` metadata format: header, session blocks, track blocks, index
//! blocks and filename blocks.

pub mod filename;
pub mod header;
pub mod index;
pub mod mds;
pub mod session;
pub mod track;

pub use filename::{FilenameBlock, NameFormat, NameFormatError};
pub use header::{Header, MediaType, Version};
pub use index::IndexBlock;
pub use mds::Mds;
pub use session::Session;
pub use track::{DataFile, SubChannels, Track, TrackMode, UnknonwSubChannelFlag, UnknownTrackMode};

use vstd::prelude::*;

verus! {

/// Why a block of the metadata could not be read.
#[derive(Clone, Copy, Debug, PartialEq, Eq, Structural)]
pub enum Fault {
    /// The bytes do not form the expected block (too short, unknown code, missing terminator).
    Malformed,
    /// A block offset points past the end of the file.
    OutOfRange,
}

} // verus!
