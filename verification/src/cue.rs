//! Conversion of a session into a `.bin` image and its `.cue` sheet: the
//! main data of every sector of every track, subchannel data dropped.

use crate::error::Error;
use crate::mds::session::{track_ref_views};
use crate::mds::track::{subchannel_bytes, Track, TrackMode, TrackView};
use crate::source::{unexpected_eof, ByteSink, RawSource};
use crate::text::{append_chars, chars_of, dec, decimal_padded, string_from_chars, zero_pad};
use vstd::prelude::*;

verus! {

/// The cue sheet's name for a track's sector layout, given its mode and the
/// bytes of main data per sector.
pub open spec fn cue_mode(mode: TrackMode, data_size: int) -> Option<Seq<char>> {
    match mode {
        TrackMode::Audio => if data_size == 2352 {
            Some("AUDIO"@)
        } else {
            None
        },
        TrackMode::Mode1 => if data_size == 2048 {
            Some("MODE1/2048"@)
        } else if data_size == 2352 {
            Some("MODE1/2352"@)
        } else {
            None
        },
        TrackMode::Mode2 | TrackMode::Mode2Form1 | TrackMode::Mode2Form2 => if data_size == 2336 {
            Some("MODE2/2336"@)
        } else if data_size == 2352 {
            Some("MODE2/2352"@)
        } else {
            None
        },
        TrackMode::Blank => None,
    }
}

/// The cue sheet's name for a track's sector layout.
pub fn cue_track_type(mode: TrackMode, data_size: usize) -> (r: Result<&'static str, Error>)
    ensures
        r matches Ok(s) ==> cue_mode(mode, data_size as int) == Some(s@),
        r matches Err(e) ==> cue_mode(mode, data_size as int) is None && (e matches Error::UnknownCueTrackSize(m, d) && m == mode && d == data_size),
{
    match (mode, data_size) {
        (TrackMode::Audio, 2352) => Ok("AUDIO"),
        (TrackMode::Mode1, 2048) => Ok("MODE1/2048"),
        (TrackMode::Mode1, 2352) => Ok("MODE1/2352"),
        (TrackMode::Mode2, 2336) | (TrackMode::Mode2Form1, 2336) | (TrackMode::Mode2Form2, 2336) => Ok("MODE2/2336"),
        (TrackMode::Mode2, 2352) | (TrackMode::Mode2Form1, 2352) | (TrackMode::Mode2Form2, 2352) => Ok("MODE2/2352"),
        _ => Err(Error::UnknownCueTrackSize(mode, data_size)),
    }
}

/// A sector count as a cue sheet time `mm:ss:ff` (75 frames a second).
pub open spec fn msf(sectors: nat) -> Seq<char> {
    zero_pad(dec(sectors / 4500), 2) + seq![':'] + zero_pad(dec((sectors / 75) % 60), 2) + seq![':']
        + zero_pad(dec(sectors % 75), 2)
}

fn msf_text(sectors: u64) -> (r: Vec<char>)
    ensures
        r@ == msf(sectors as nat),
{
    let mut v = decimal_padded(sectors / 4500, 2);
    v.push(':');
    let s = decimal_padded((sectors / 75) % 60, 2);
    append_chars(&mut v, s.as_slice());
    v.push(':');
    let f = decimal_padded(sectors % 75, 2);
    append_chars(&mut v, f.as_slice());
    v
}

/// Sectors of a track in the `.bin`: its pregap and the track proper.
pub open spec fn bin_sectors(t: TrackView) -> nat {
    match t.index {
        Some(ib) => (ib.index0_sectors + ib.index1_sectors) as nat,
        None => 0,
    }
}

pub open spec fn pregap(t: TrackView) -> nat {
    match t.index {
        Some(ib) => ib.index0_sectors as nat,
        None => 0,
    }
}

/// Bytes of main data per sector of a track.
pub open spec fn data_size(t: TrackView) -> int {
    t.sector_size - subchannel_bytes(t.num_subchannels)
}

/// The cue sheet lines of tracks `ts`, the first starting `pos` sectors into
/// the `.bin`: per track a `TRACK nn TYPE` line, an `INDEX 00` line at the
/// start of a pregap if there is one, and an `INDEX 01` line where the track
/// proper starts. `None` if a track's layout has no cue name.
pub open spec fn track_lines(ts: Seq<TrackView>, pos: nat) -> Option<Seq<Seq<char>>>
    decreases ts.len(),
{
    if ts.len() == 0 {
        Some(Seq::empty())
    } else {
        let t = ts[0];
        match cue_mode(t.mode, data_size(t)) {
            None => None,
            Some(kind) => {
                let head = seq!["  TRACK "@ + zero_pad(dec(t.point as nat), 2) + seq![' '] + kind];
                let idx = if pregap(t) > 0 {
                    seq!["    INDEX 00 "@ + msf(pos), "    INDEX 01 "@ + msf(pos + pregap(t))]
                } else {
                    seq!["    INDEX 01 "@ + msf(pos)]
                };
                match track_lines(ts.subrange(1, ts.len() as int), pos + bin_sectors(t)) {
                    None => None,
                    Some(rest) => Some(head + idx + rest),
                }
            },
        }
    }
}

/// The whole cue sheet for a `.bin` named `bin_name` holding the tracks `ts`.
pub open spec fn cue_lines(bin_name: Seq<char>, ts: Seq<TrackView>) -> Option<Seq<Seq<char>>> {
    match track_lines(ts, 0) {
        None => None,
        Some(lines) => Some(seq!["FILE \""@ + bin_name + "\" BINARY"@] + lines),
    }
}

pub open spec fn string_views(s: Seq<String>) -> Seq<Seq<char>> {
    s.map_values(|x: String| x@)
}

fn push_line(out: &mut Vec<String>, line: Vec<char>)
    ensures
        string_views(final(out)@) == string_views(old(out)@).push(line@),
{
    out.push(string_from_chars(line.as_slice()));
    assert(string_views(out@) =~= string_views(old(out)@).push(line@));
}

fn join(a: &str, b: &[char]) -> (r: Vec<char>)
    ensures
        r@ == a@ + b@,
{
    let mut v = chars_of(a);
    append_chars(&mut v, b);
    v
}

/// The lines of the cue sheet for a `.bin` named `bin_name` holding `tracks`
/// one after the other; an unknown layout gives `UnknownCueTrackSize`.
/// Sectors that the first `i` tracks of `ts` take in the `.bin`.
pub open spec fn sectors_before(ts: Seq<TrackView>, i: int) -> nat
    decreases i,
{
    if i <= 0 {
        0
    } else {
        sectors_before(ts, i - 1) + bin_sectors(ts[i - 1])
    }
}

proof fn lemma_sectors_before_grows(ts: Seq<TrackView>, i: int, j: int)
    requires
        0 <= i <= j,
    ensures
        sectors_before(ts, i) <= sectors_before(ts, j),
    decreases j - i,
{
    if i < j {
        lemma_sectors_before_grows(ts, i, j - 1);
    }
}

/// The cue sheet of a `.bin` named `bin_name` holding `tracks`. Sector
/// positions are counted in a `u64`, so the tracks' sectors together must
/// fit in one.
pub fn cue_sheet(bin_name: &str, tracks: &[&Track]) -> (r: Result<Vec<String>, Error>)
    requires
        sectors_before(track_ref_views(tracks@), tracks@.len() as int) <= u64::MAX,
        forall|i: int| 0 <= i < tracks@.len() ==> #[trigger] tracks@[i]@.sector_size >= subchannel_bytes(tracks@[i]@.num_subchannels),
    ensures
        r matches Ok(lines) ==> cue_lines(bin_name@, track_ref_views(tracks@)) == Some(string_views(lines@)),
        r matches Err(e) ==> cue_lines(bin_name@, track_ref_views(tracks@)) is None && e is UnknownCueTrackSize,
{
    let ghost ts = track_ref_views(tracks@);
    let mut out: Vec<String> = Vec::new();
    let first = join("FILE \"", chars_of(bin_name).as_slice());
    let t = chars_of("\" BINARY");
    let mut first = first;
    append_chars(&mut first, t.as_slice());
    push_line(&mut out, first);
    let ghost head = string_views(out@);
    let mut pos: u64 = 0;
    let mut i: usize = 0;
    assert(ts.subrange(0, ts.len() as int) == ts);
    assert(head + Seq::<Seq<char>>::empty() == head);
    while i < tracks.len()
        invariant
            i <= tracks@.len(),
            ts == track_ref_views(tracks@),
            ts.len() == tracks@.len(),
            sectors_before(ts, ts.len() as int) <= u64::MAX,
            pos == sectors_before(ts, i as int),
            forall|k: int| 0 <= k < tracks@.len() ==> #[trigger] tracks@[k]@.sector_size >= subchannel_bytes(tracks@[k]@.num_subchannels),
            head == seq!["FILE \""@ + bin_name@ + "\" BINARY"@],
            match track_lines(ts, 0) {
                None => track_lines(ts.subrange(i as int, ts.len() as int), pos as nat) is None,
                Some(all) => track_lines(ts.subrange(i as int, ts.len() as int), pos as nat) matches Some(rest) && head + all == string_views(out@) + rest,
            },
        decreases tracks@.len() - i,
    {
        let t = tracks[i];
        proof {
            lemma_sectors_before_grows(ts, i + 1, ts.len() as int);
            assert(ts[i as int] == t@);
        }
        let ghost tail = ts.subrange(i as int, ts.len() as int);
        assert(tail[0] == t@);
        assert(tail.subrange(1, tail.len() as int) == ts.subrange(i + 1, ts.len() as int));
        let kind = match cue_track_type(t.mode(), t.sector_data_size()) {
            Ok(k) => k,
            Err(e) => {
                assert(track_lines(tail, pos as nat) is None);
                return Err(e);
            },
        };
        let ghost before = string_views(out@);
        let mut line = chars_of("  TRACK ");
        let num = decimal_padded(t.number() as u64, 2);
        append_chars(&mut line, num.as_slice());
        line.push(' ');
        append_chars(&mut line, chars_of(kind).as_slice());
        assert(line@ == "  TRACK "@ + zero_pad(dec(t@.point as nat), 2) + seq![' '] + kind@);
        push_line(&mut out, line);
        let gap = t.pregap_sectors() as u64;
        let ghost idx: Seq<Seq<char>>;
        if gap > 0 {
            let a = join("    INDEX 00 ", msf_text(pos).as_slice());
            let b = join("    INDEX 01 ", msf_text(pos + gap).as_slice());
            proof {
                idx = seq![a@, b@];
            }
            push_line(&mut out, a);
            push_line(&mut out, b);
        } else {
            let a = join("    INDEX 01 ", msf_text(pos).as_slice());
            proof {
                idx = seq![a@];
            }
            push_line(&mut out, a);
        }
        let ghost head_line = seq!["  TRACK "@ + zero_pad(dec(t@.point as nat), 2) + seq![' '] + kind@];
        assert(string_views(out@) == before + head_line + idx);
        let ghost old_pos = pos;
        pos = pos + gap + t.num_sectors() as u64;
        assert(pos == old_pos + bin_sectors(t@));
        proof {
            let next = ts.subrange(i + 1, ts.len() as int);
            if let Some(all) = track_lines(ts, 0) {
                let rest = track_lines(next, pos as nat).unwrap();
                assert(track_lines(tail, old_pos as nat) == Some(head_line + idx + rest));
                assert(before + (head_line + idx + rest) == string_views(out@) + rest);
            } else {
                assert(track_lines(tail, old_pos as nat) is None);
            }
        }
        i = i + 1;
    }
    assert(ts.subrange(tracks@.len() as int, ts.len() as int) == Seq::<TrackView>::empty());
    assert(string_views(out@) + Seq::<Seq<char>>::empty() == string_views(out@));
    Ok(out)
}

/// The first `width` bytes at `start` of each of `n` raw sectors of size
/// `raw_size` starting at `base`, one after the other.
pub open spec fn sector_data(raw: Seq<u8>, base: int, raw_size: int, width: int, n: int) -> Seq<u8> {
    Seq::new(
        (n * width) as nat,
        |j: int| raw[base + (j / width) * raw_size + j % width],
    )
}

/// Writes the `.bin` data of `track` — the main data of each of its sectors,
/// pregap included, subchannel data dropped — reading the raw sectors from
/// `data`, the track starting at its start offset.
pub fn track_to_bin<R: RawSource, W: ByteSink>(track: &Track, data: &mut R, writer: &mut W) -> (r: Result<(), Error>)
    requires
        old(data).ready(),
        track@.sector_size >= subchannel_bytes(track@.num_subchannels),
    ensures
        final(data).ready(),
        final(data).bytes() == old(data).bytes(),
        final(data).modeled() == old(data).modeled(),
        old(data).modeled() && old(writer).modeled() && r is Ok ==> final(writer).written() == old(
            writer,
        ).written() + sector_data(
            old(data).bytes(),
            track@.track_start_offset as int,
            track@.sector_size as int,
            data_size(track@),
            bin_sectors(track@) as int,
        ),
        final(data).reliable() == old(data).reliable(),
        ({
            let end = track@.track_start_offset + bin_sectors(track@) * track@.sector_size;
            old(data).reliable() && old(writer).reliable() && end <= old(data).bytes().len() && end
                <= u64::MAX ==> r is Ok
        }),
{
    let sector_size = track.sector_size();
    let width = track.sector_data_size();
    let n: u64 = track.pregap_sectors() as u64 + track.num_sectors() as u64;
    let base = track.start_offset();
    let ghost raw = data.bytes();
    let ghost image = sector_data(raw, base as int, sector_size as int, width as int, n as int);
    let ghost start = writer.written();
    let mut i: u64 = 0;
    assert(start + Seq::<u8>::empty() == start);
    if width == 0 {
        assert(n * width == 0) by (nonlinear_arith)
            requires width == 0;
        assert(image =~= Seq::<u8>::empty());
        return Ok(());
    }
    assert(image.subrange(0, 0) =~= Seq::<u8>::empty());
    while i < n
        invariant
            i <= n,
            n == bin_sectors(track@),
            width > 0,
            width <= sector_size,
            width == data_size(track@),
            sector_size == track@.sector_size,
            base == track@.track_start_offset,
            data.ready(),
            data.bytes() == raw,
            old(data).bytes() == raw,
            old(writer).written() == start,
            image == sector_data(raw, base as int, sector_size as int, width as int, n as int),
            i * width <= n * width,
            data.modeled() == old(data).modeled(),
            writer.modeled() == old(writer).modeled(),
            data.modeled() && writer.modeled() ==> writer.written() == start + image.subrange(0, i * width),
            data.reliable() == old(data).reliable(),
            writer.reliable() == old(writer).reliable(),
        decreases n - i,
    {
        proof {
            assert(i * sector_size + sector_size <= n * sector_size) by (nonlinear_arith)
                requires i < n;
        }
        let pos = match i.checked_mul(sector_size as u64) {
            Some(p) => match base.checked_add(p) {
                Some(q) => q,
                None => return Err(Error::Io(unexpected_eof())),
            },
            None => return Err(Error::Io(unexpected_eof())),
        };
        let buf = match data.read_exact_at(pos, sector_size) {
            Ok(b) => b,
            Err(e) => return Err(e),
        };
        match writer.write_all(&buf.as_slice()[0..width]) {
            Ok(()) => {},
            Err(e) => return Err(e),
        }
        proof {
            assert((i + 1) * width == i * width + width) by (nonlinear_arith);
            assert(i * width + width <= n * width) by (nonlinear_arith)
                requires i < n, width > 0;
            let lo = i * width;
            assert(0 <= i * width) by (nonlinear_arith) requires i >= 0, width > 0;
            if data.modeled() && writer.modeled() {
                assert forall|m: int| lo <= m < lo + width implies #[trigger] image[m] == buf@[m - lo] by {
                    vstd::arithmetic::div_mod::lemma_fundamental_div_mod_converse(m, width as int, i as int, m - lo);
                }
                assert(image.subrange(0, lo + width) =~= image.subrange(0, lo) + buf@.subrange(0, width as int));
            }
        }
        i = i + 1;
    }
    assert(image.subrange(0, n * width) == image);
    Ok(())
}

} // verus!
