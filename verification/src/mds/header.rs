//! The fixed-size header at the start of every `.mds` file.

use super::Fault;
use crate::bytes::{le16, le32, read_u16_le, read_u32_le};
use vstd::prelude::*;

verus! {

/// Size in bytes of the header.
pub const HEADER_SIZE: usize = 0x58;

/// Format version stored in the header.
#[derive(Clone, Copy, Debug, PartialEq, Eq, Structural)]
pub struct Version {
    pub major: u8,
    pub minor: u8,
}

/// Kind of disc the image was made from.
#[derive(Clone, Copy, Debug, PartialEq, Eq, Structural)]
pub enum MediaType {
    CdRom,
    CdR,
    CdRw,
    DvdRom,
    DvdR,
}

/// The media type that a header media code stands for.
pub open spec fn media_type_of(code: int) -> Option<MediaType> {
    if code == 0x00 {
        Some(MediaType::CdRom)
    } else if code == 0x01 {
        Some(MediaType::CdR)
    } else if code == 0x02 {
        Some(MediaType::CdRw)
    } else if code == 0x10 {
        Some(MediaType::DvdRom)
    } else if code == 0x12 {
        Some(MediaType::DvdR)
    } else {
        None
    }
}

impl MediaType {
    pub fn from_code(code: u16) -> (r: Option<MediaType>)
        ensures
            r == media_type_of(code as int),
    {
        match code {
            0x00 => Some(MediaType::CdRom),
            0x01 => Some(MediaType::CdR),
            0x02 => Some(MediaType::CdRw),
            0x10 => Some(MediaType::DvdRom),
            0x12 => Some(MediaType::DvdR),
            _ => None,
        }
    }
}

#[derive(Clone, Copy, Debug, PartialEq, Eq, Structural)]
pub struct Header {
    pub version: Version,
    pub media_type: MediaType,
    /// Number of session blocks.
    pub num_sessions: u16,
    /// Offset of the first session block.
    pub session_offset: u32,
}

impl Header {
    pub fn num_sessions(&self) -> (r: usize)
        ensures
            r == self.num_sessions,
    {
        self.num_sessions as usize
    }

    pub fn session_offset(&self) -> (r: usize)
        ensures
            r == self.session_offset,
    {
        self.session_offset as usize
    }
}

/// The bytes `MEDIA DESCRIPTOR` that open every `.mds` file.
pub open spec fn mds_signature() -> Seq<u8> {
    seq![0x4Du8, 0x45, 0x44, 0x49, 0x41, 0x20, 0x44, 0x45, 0x53, 0x43, 0x52, 0x49, 0x50, 0x54, 0x4F, 0x52]
}

/// The header at the start of `input`: the signature (16 bytes), version
/// major and minor, media code (u16), number of sessions (u16), and at
/// 0x50 the offset of the session blocks (u32); 0x58 bytes in all.
pub open spec fn spec_header(input: Seq<u8>) -> Result<Header, Fault> {
    if input.len() < 0x58 || input.take(16) != mds_signature() || media_type_of(le16(input, 18))
        is None {
        Err(Fault::Malformed)
    } else {
        Ok(
            Header {
                version: Version { major: input[16], minor: input[17] },
                media_type: media_type_of(le16(input, 18)).unwrap(),
                num_sessions: le16(input, 20) as u16,
                session_offset: le32(input, 0x50) as u32,
            },
        )
    }
}

fn has_signature(input: &[u8]) -> (r: bool)
    requires
        input@.len() >= 16,
    ensures
        r == (input@.take(16) == mds_signature()),
{
    let sig: [u8; 16] = [
        0x4D,
        0x45,
        0x44,
        0x49,
        0x41,
        0x20,
        0x44,
        0x45,
        0x53,
        0x43,
        0x52,
        0x49,
        0x50,
        0x54,
        0x4F,
        0x52,
    ];
    assert(sig@ == mds_signature());
    let mut i: usize = 0;
    while i < 16
        invariant
            i <= 16,
            input@.len() >= 16,
            sig@ == mds_signature(),
            forall|k: int| 0 <= k < i ==> input@[k] == sig@[k],
        decreases 16 - i,
    {
        if input[i] != sig[i] {
            assert(input@.take(16)[i as int] != mds_signature()[i as int]);
            return false;
        }
        i = i + 1;
    }
    assert(input@.take(16) =~= mds_signature());
    true
}

/// Reads the header at the start of `input`.
pub fn header(input: &[u8]) -> (r: Result<Header, Fault>)
    ensures
        r == spec_header(input@),
{
    if input.len() < HEADER_SIZE || !has_signature(input) {
        return Err(Fault::Malformed);
    }
    let media_type = match MediaType::from_code(read_u16_le(input, 18)) {
        Some(m) => m,
        None => return Err(Fault::Malformed),
    };
    Ok(
        Header {
            version: Version { major: input[16], minor: input[17] },
            media_type,
            num_sessions: read_u16_le(input, 20),
            session_offset: read_u32_le(input, 0x50),
        },
    )
}

} // verus!
