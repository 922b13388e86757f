//! Filename blocks: where a track's data file name is stored, and how.

use crate::bytes::{le32, read_u32_le};
use vstd::prelude::*;

verus! {

/// Character width of a stored file name.
#[derive(Clone, Copy, Debug, PartialEq, Eq, Structural)]
pub enum NameFormat {
    EightBit,
    SixteenBit,
}

/// A name-format byte other than 0 or 1.
#[derive(Debug)]
pub struct NameFormatError;

/// The name format that a format byte stands for.
pub open spec fn name_format_of(b: u8) -> Option<NameFormat> {
    if b == 0 {
        Some(NameFormat::EightBit)
    } else if b == 1 {
        Some(NameFormat::SixteenBit)
    } else {
        None
    }
}

impl NameFormat {
    pub fn from_byte(b: u8) -> (r: Result<NameFormat, NameFormatError>)
        ensures
            r matches Ok(f) ==> name_format_of(b) == Some(f),
            r is Err <==> name_format_of(b) is None,
    {
        match b {
            0 => Ok(NameFormat::EightBit),
            1 => Ok(NameFormat::SixteenBit),
            _ => Err(NameFormatError),
        }
    }
}

#[derive(Clone, Copy, Debug, PartialEq, Eq, Structural)]
pub struct FilenameBlock {
    pub filename_offset: u32,
    pub filename_format: NameFormat,
}

/// The filename block at the start of `s`: a little-endian `u32` offset of
/// the name, then the name format byte.
pub open spec fn spec_filename_block(s: Seq<u8>) -> Option<FilenameBlock> {
    if s.len() < 5 {
        None
    } else {
        match name_format_of(s[4]) {
            Some(f) => Some(FilenameBlock { filename_offset: le32(s, 0) as u32, filename_format: f }),
            None => None,
        }
    }
}

/// Reads a filename block from the start of `input`.
pub fn filename_block(input: &[u8]) -> (r: Option<FilenameBlock>)
    ensures
        r == spec_filename_block(input@),
{
    if input.len() < 5 {
        return None;
    }
    let filename_offset = read_u32_le(input, 0);
    match NameFormat::from_byte(input[4]) {
        Ok(filename_format) => Some(FilenameBlock { filename_offset, filename_format }),
        Err(_) => None,
    }
}

} // verus!
