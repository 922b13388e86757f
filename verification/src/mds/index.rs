//! Index blocks: the pregap and track lengths of a track, in sectors.

use crate::bytes::{le32, read_u32_le};
use vstd::prelude::*;

verus! {

/// Size in bytes of an index block.
pub const INDEX_BLOCK_SIZE: usize = 8;

#[derive(Clone, Copy, Debug, PartialEq, Eq, Structural)]
pub struct IndexBlock {
    /// Sectors of index 0 (the pregap).
    pub index0_sectors: u32,
    /// Sectors of index 1 (the track proper).
    pub index1_sectors: u32,
}

/// The index block at the start of `s`: two little-endian `u32`.
pub open spec fn spec_index_block(s: Seq<u8>) -> Option<IndexBlock> {
    if s.len() < 8 {
        None
    } else {
        Some(IndexBlock { index0_sectors: le32(s, 0) as u32, index1_sectors: le32(s, 4) as u32 })
    }
}

pub fn index_block(input: &[u8]) -> (r: Option<IndexBlock>)
    ensures
        r == spec_index_block(input@),
{
    if input.len() < 8 {
        return None;
    }
    Some(IndexBlock { index0_sectors: read_u32_le(input, 0), index1_sectors: read_u32_le(input, 4) })
}

} // verus!
