//! Conversion of a single data track into an `.iso` image: the user data of
//! every raw sector, subchannel data and sector headers dropped.

use crate::cooked::{cooked_image, iso_user_data_range, user_data_start};
use crate::error::Error;
use crate::mds::mds::{same_error, spec_single_track, Mds};
use crate::mds::track::{subchannel_bytes, Track, TrackMode, TrackView};
use crate::source::{unexpected_eof, ByteSink, RawSource};
use vstd::prelude::*;

verus! {

/// Where the 2048 bytes of an ISO block start within a raw sector whose main
/// data is `data_size` bytes: the same layouts, at the same places, as the
/// cooked reader that extraction reads through.
pub open spec fn iso_layout(mode: TrackMode, data_size: int) -> Option<int> {
    user_data_start(mode, data_size)
}

/// Offset and length of the ISO data within a raw sector, taken from the
/// user-data range that the cooked reader uses: already cooked sectors are
/// taken whole; raw sectors skip the sync and header bytes (and for MODE2
/// the 8-byte subheader).
pub fn iso_data_layout(mode: TrackMode, sector_data_size: usize) -> (r: Result<(usize, usize), Error>)
    ensures
        r matches Ok((offset, len)) ==> iso_layout(mode, sector_data_size as int) == Some(
            offset as int,
        ) && len == 0x800,
        r matches Err(e) ==> iso_layout(mode, sector_data_size as int) is None && (e matches Error::UnknownIsoTrackSize(m, d) && m == mode && d == sector_data_size),
{
    match iso_user_data_range(mode, sector_data_size) {
        Ok(range) => Ok((range.start, range.end - range.start)),
        Err(e) => Err(e),
    }
}

/// Writes the ISO image of `track` — the ISO data of each of its sectors, in
/// order — reading the raw sectors from `data` (the track's data file, the
/// track starting at its start offset).
pub fn track_to_iso<R: RawSource, W: ByteSink>(track: &Track, data: &mut R, writer: &mut W) -> (r: Result<(), Error>)
    requires
        old(data).ready(),
        track@.sector_size >= subchannel_bytes(track@.num_subchannels),
    ensures
        final(data).ready(),
        final(data).bytes() == old(data).bytes(),
        final(data).modeled() == old(data).modeled(),
        r is Ok ==> iso_layout(track@.mode, track@.sector_size - subchannel_bytes(track@.num_subchannels)) is Some,
        old(data).modeled() && old(writer).modeled() && r is Ok ==> (iso_layout(track@.mode, track@.sector_size - subchannel_bytes(track@.num_subchannels)) matches Some(offset)
            && final(writer).written() == old(writer).written() + cooked_image(
            old(data).bytes(),
            track@.track_start_offset as int,
            track@.sector_size as int,
            offset,
            match track@.index {
                Some(ib) => ib.index1_sectors as int,
                None => 0,
            },
        )),
        iso_layout(track@.mode, track@.sector_size - subchannel_bytes(track@.num_subchannels)) is None ==> (r matches Err(Error::UnknownIsoTrackSize(m, d))
            && m == track@.mode && d == track@.sector_size - subchannel_bytes(track@.num_subchannels)
            && *final(writer) == *old(writer)),
        final(data).reliable() == old(data).reliable(),
        ({
            let n = match track@.index {
                Some(ib) => ib.index1_sectors as int,
                None => 0,
            };
            let end = track@.track_start_offset + n * track@.sector_size;
            old(data).reliable() && old(writer).reliable() && iso_layout(track@.mode, track@.sector_size - subchannel_bytes(track@.num_subchannels)) is Some
                && end <= old(data).bytes().len() && end <= u64::MAX ==> r is Ok
        }),
{
    let sector_size = track.sector_size();
    let (data_offset, data_size) = match iso_data_layout(track.mode(), track.sector_data_size()) {
        Ok(l) => l,
        Err(e) => return Err(e),
    };
    let num_sectors = track.num_sectors();
    let base = track.start_offset();
    let ghost raw = data.bytes();
    let ghost image = cooked_image(raw, base as int, sector_size as int, data_offset as int, num_sectors as int);
    let ghost start = writer.written();
    let mut i: usize = 0;
    assert(image.subrange(0, 0) =~= Seq::<u8>::empty());
    assert(start + Seq::<u8>::empty() == start);
    while i < num_sectors
        invariant
            i <= num_sectors,
            data.ready(),
            data.bytes() == raw,
            old(data).bytes() == raw,
            old(writer).written() == start,
            data_offset + data_size <= sector_size,
            data_size == 0x800,
            iso_layout(track@.mode, track@.sector_size - subchannel_bytes(track@.num_subchannels)) == Some(data_offset as int),
            image == cooked_image(raw, base as int, sector_size as int, data_offset as int, num_sectors as int),
            data.modeled() == old(data).modeled(),
            writer.modeled() == old(writer).modeled(),
            data.modeled() && writer.modeled() ==> writer.written() == start + image.subrange(0, i * 0x800),
            data.reliable() == old(data).reliable(),
            writer.reliable() == old(writer).reliable(),
            sector_size == track@.sector_size,
            base == track@.track_start_offset,
            num_sectors == match track@.index {
                Some(ib) => ib.index1_sectors as int,
                None => 0,
            },
        decreases num_sectors - i,
    {
        proof {
            assert(i * sector_size + sector_size <= num_sectors * sector_size) by (nonlinear_arith)
                requires i < num_sectors;
        }
        let pos = match (i as u64).checked_mul(sector_size as u64) {
            Some(p) => match base.checked_add(p) {
                Some(q) => q,
                None => return Err(Error::Io(unexpected_eof())),
            },
            None => return Err(Error::Io(unexpected_eof())),
        };
        let buf = match data.read_exact_at(pos, sector_size) {
            Ok(b) => b,
            Err(e) => return Err(e),
        };
        // Keep only the main data of each sector: sector headers and the
        // subchannel data stored at the end of the sector are not part of an ISO.
        let ghost before = writer.written();
        match writer.write_all(&buf.as_slice()[data_offset..data_offset + data_size]) {
            Ok(()) => {},
            Err(e) => return Err(e),
        }
        proof {
            if data.modeled() && writer.modeled() {
                assert forall|k: int| 0 <= k < 0x800 implies #[trigger] image[i * 0x800 + k] == buf@[data_offset + k] by {
                    vstd::arithmetic::div_mod::lemma_fundamental_div_mod_converse(i * 0x800 + k, 0x800, i as int, k);
                }
                assert(image.subrange(0, (i + 1) * 0x800) =~= image.subrange(0, i * 0x800) + buf@.subrange(data_offset as int, data_offset + 0x800));
            }
        }
        i = i + 1;
    }
    assert(image.subrange(0, num_sectors * 0x800) == image);
    Ok(())
}

/// Bytes of main data per raw sector of a track.
pub open spec fn main_data_size(t: TrackView) -> int {
    t.sector_size - subchannel_bytes(t.num_subchannels)
}

/// Sectors of a track proper.
pub open spec fn track_sectors(t: TrackView) -> int {
    match t.index {
        Some(ib) => ib.index1_sectors as int,
        None => 0,
    }
}

/// The ISO image of a track read out of its data file `raw`, if its layout converts.
pub open spec fn iso_bytes(t: TrackView, raw: Seq<u8>) -> Option<Seq<u8>> {
    match iso_layout(t.mode, main_data_size(t)) {
        Some(offset) => Some(
            cooked_image(raw, t.track_start_offset as int, t.sector_size as int, offset, track_sectors(t)),
        ),
        None => None,
    }
}

/// Converts an image, whose single data track is read from `data`, into an
/// `.iso` written to `writer`. The image must have one session with one
/// data track, of a layout that converts.
pub fn convert<R: RawSource, W: ByteSink>(mds: &Mds, data: &mut R, writer: &mut W) -> (r: Result<(), Error>)
    requires
        old(data).ready(),
        spec_single_track(mds@) matches Ok(t) ==> t.sector_size >= subchannel_bytes(t.num_subchannels),
    ensures
        final(data).ready(),
        final(data).bytes() == old(data).bytes(),
        final(data).reliable() == old(data).reliable(),
        final(data).modeled() == old(data).modeled(),
        spec_single_track(mds@) matches Err(e) ==> (r matches Err(e2) && same_error(e2, e)
            && *final(writer) == *old(writer) && *final(data) == *old(data)),
        spec_single_track(mds@) matches Ok(t) ==> {
            &&& r is Ok ==> iso_bytes(t, old(data).bytes()) is Some
            &&& old(data).modeled() && old(writer).modeled() && r is Ok ==> (iso_bytes(t, old(data).bytes()) matches Some(b)
                && final(writer).written() == old(writer).written() + b)
            &&& iso_bytes(t, old(data).bytes()) is None ==> (r matches Err(Error::UnknownIsoTrackSize(m, d))
                && m == t.mode && d == main_data_size(t) && *final(writer) == *old(writer))
            &&& ({
                let end = t.track_start_offset + track_sectors(t) * t.sector_size;
                old(data).reliable() && old(writer).reliable() && iso_bytes(t, old(data).bytes()) is Some
                    && end <= old(data).bytes().len() && end <= u64::MAX ==> r is Ok
            })
        },
{
    let track = match mds.single_track() {
        Ok(t) => t,
        Err(e) => return Err(e),
    };
    track_to_iso(track, data, writer)
}

} // verus!
