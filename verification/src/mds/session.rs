//! Session blocks: one per session, each listing the session's track blocks.

use super::Fault;
use super::track::{spec_track, track, Track, TrackMode, TrackView};
use crate::bytes::{le16, le32, le_i32, read_i32_le, read_u16_le, read_u32_le};
use vstd::prelude::*;

verus! {

/// Size in bytes of a session block.
pub const SESSION_SIZE: usize = 0x18;

/// What a session block says, with its track blocks read.
pub struct SessionView {
    pub start_sector: i32,
    pub end_sector: i32,
    pub number: u16,
    pub num_nontrack_blocks: u8,
    pub first_track: u16,
    pub last_track: u16,
    /// Every track block of the session, lead-in entries included.
    pub blocks: Seq<TrackView>,
}

#[derive(Debug)]
pub struct Session {
    pub start_sector: i32,
    pub end_sector: i32,
    pub number: u16,
    pub first_track: u16,
    pub last_track: u16,
    num_nontrack_blocks: u8,
    blocks: Vec<Track>,
}

pub open spec fn track_views(ts: Seq<Track>) -> Seq<TrackView> {
    ts.map_values(|t: Track| t@)
}

pub open spec fn track_ref_views(ts: Seq<&Track>) -> Seq<TrackView> {
    ts.map_values(|t: &Track| t@)
}

impl View for Session {
    type V = SessionView;

    closed spec fn view(&self) -> SessionView {
        SessionView {
            start_sector: self.start_sector,
            end_sector: self.end_sector,
            number: self.number,
            num_nontrack_blocks: self.num_nontrack_blocks,
            first_track: self.first_track,
            last_track: self.last_track,
            blocks: track_views(self.blocks@),
        }
    }
}

/// Whether a block's point is a track number (1 to 99) rather than a lead-in entry.
pub open spec fn is_track_point(point: u8) -> bool {
    1 <= point <= 99
}

/// Whether a mode carries data sectors (not audio, not blank).
pub open spec fn is_data_mode(mode: TrackMode) -> bool {
    match mode {
        TrackMode::Mode1 | TrackMode::Mode2 | TrackMode::Mode2Form1 | TrackMode::Mode2Form2 => true,
        _ => false,
    }
}

pub open spec fn is_track(t: TrackView) -> bool {
    is_track_point(t.point)
}

pub open spec fn is_data_track(t: TrackView) -> bool {
    is_track_point(t.point) && is_data_mode(t.mode)
}

pub open spec fn track_pred() -> spec_fn(TrackView) -> bool {
    |t: TrackView| is_track(t)
}

pub open spec fn data_track_pred() -> spec_fn(TrackView) -> bool {
    |t: TrackView| is_data_track(t)
}

/// The tracks of a session: its blocks whose point is a track number, in order.
pub open spec fn session_tracks(s: SessionView) -> Seq<TrackView> {
    s.blocks.filter(track_pred())
}

/// The data tracks of a session, in order.
pub open spec fn session_data_tracks(s: SessionView) -> Seq<TrackView> {
    s.blocks.filter(data_track_pred())
}

proof fn lemma_filter_take_step(s: Seq<TrackView>, i: int, p: spec_fn(TrackView) -> bool)
    requires
        0 <= i < s.len(),
    ensures
        s.take(i + 1).filter(p) == if p(s[i]) {
            s.take(i).filter(p).push(s[i])
        } else {
            s.take(i).filter(p)
        },
{
    reveal(Seq::filter);
    let t = s.take(i + 1);
    assert(t.drop_last() == s.take(i));
    assert(t.last() == s[i]);
    assert(t.len() > 0);
    assert(t.filter(p) == if p(t.last()) {
        t.drop_last().filter(p).push(t.last())
    } else {
        t.drop_last().filter(p)
    });
}

proof fn lemma_tracks_step(input: Seq<u8>, base: int, i: int, n: int, done: Seq<TrackView>, t: TrackView)
    requires
        i < n,
        spec_track(input, base + 0x50 * i) == Ok::<TrackView, Fault>(t),
    ensures
        match spec_tracks(input, base, i, n) {
            Ok(ts) => Ok::<Seq<TrackView>, Fault>(done + ts),
            Err(f) => Err(f),
        } == match spec_tracks(input, base, i + 1, n) {
            Ok(ts) => Ok::<Seq<TrackView>, Fault>(done.push(t) + ts),
            Err(f) => Err(f),
        },
{
    if let Ok(ts) = spec_tracks(input, base, i + 1, n) {
        assert(done + (seq![t] + ts) == done.push(t) + ts);
    }
}

/// Track blocks `i..n` of a table of blocks starting at `base`, 0x50 bytes apart.
pub open spec fn spec_tracks(input: Seq<u8>, base: int, i: int, n: int) -> Result<
    Seq<TrackView>,
    Fault,
>
    decreases n - i,
{
    if i >= n {
        Ok(Seq::empty())
    } else {
        match spec_track(input, base + 0x50 * i) {
            Err(f) => Err(f),
            Ok(t) => match spec_tracks(input, base, i + 1, n) {
                Err(f) => Err(f),
                Ok(ts) => Ok(seq![t] + ts),
            },
        }
    }
}

/// The session block at offset `off` of `input`: start sector (i32), end
/// sector (i32), session number (u16), number of track blocks (u8), number
/// of lead-in blocks (u8), first and last track (u16 each), 4 zero, offset
/// of the track blocks (u32); then its track blocks.
#[verifier::opaque]
pub open spec fn spec_session(input: Seq<u8>, off: int) -> Result<SessionView, Fault> {
    if off + 0x18 > input.len() {
        Err(Fault::Malformed)
    } else {
        match spec_tracks(input, le32(input, off + 20), 0, input[off + 10] as int) {
            Err(f) => Err(f),
            Ok(blocks) => Ok(
                SessionView {
                    start_sector: le_i32(input, off) as i32,
                    end_sector: le_i32(input, off + 4) as i32,
                    number: le16(input, off + 8) as u16,
                    num_nontrack_blocks: input[off + 11],
                    first_track: le16(input, off + 12) as u16,
                    last_track: le16(input, off + 14) as u16,
                    blocks,
                },
            ),
        }
    }
}

/// Reads the session block at `session_offset` of the whole file `input`, and its track blocks.
pub fn session(input: &[u8], session_offset: u64) -> (r: Result<Session, Fault>)
    ensures
        r matches Ok(s) ==> spec_session(input@, session_offset as int) == Ok::<
            SessionView,
            Fault,
        >(s@),
        r matches Err(f) ==> spec_session(input@, session_offset as int) == Err::<
            SessionView,
            Fault,
        >(f),
{
    reveal(spec_session);
    let len = input.len();
    if session_offset > len as u64 || len as u64 - session_offset < 0x18 {
        return Err(Fault::Malformed);
    }
    let off = session_offset as usize;
    let n = input[off + 10];
    let base = read_u32_le(input, off + 20) as u64;
    let mut blocks: Vec<Track> = Vec::new();
    let mut i: u8 = 0;
    while i < n
        invariant
            i <= n,
            base < 0x1_0000_0000,
            off == session_offset,
            off + 0x18 <= input@.len(),
            base == le32(input@, off + 20),
            n == input@[off + 10],
            spec_tracks(input@, base as int, 0, n as int) == match spec_tracks(
                input@,
                base as int,
                i as int,
                n as int,
            ) {
                Ok(ts) => Ok(track_views(blocks@) + ts),
                Err(f) => Err(f),
            },
        decreases n - i,
    {
        let t = match track(input, base + 0x50 * (i as u64)) {
            Ok(t) => t,
            Err(f) => {
                assert(spec_tracks(input@, base as int, i as int, n as int) == Err::<
                    Seq<TrackView>,
                    Fault,
                >(f));
                assert(spec_tracks(input@, base as int, 0, n as int) == Err::<
                    Seq<TrackView>,
                    Fault,
                >(f));
                reveal(spec_session);
                return Err(f);
            },
        };
        let ghost prev = blocks@;
        proof {
            lemma_tracks_step(input@, base as int, i as int, n as int, track_views(prev), t@);
        }
        blocks.push(t);
        assert(track_views(blocks@) == track_views(prev).push(t@));
        i = i + 1;
    }
    assert(track_views(blocks@) + Seq::<TrackView>::empty() == track_views(blocks@));
    Ok(
        Session {
            start_sector: read_i32_le(input, off),
            end_sector: read_i32_le(input, off + 4),
            number: read_u16_le(input, off + 8),
            first_track: read_u16_le(input, off + 12),
            last_track: read_u16_le(input, off + 14),
            num_nontrack_blocks: input[off + 11],
            blocks,
        },
    )
}

impl Session {
    /// The session's tracks (blocks numbered 1 to 99), in order.
    pub fn tracks(&self) -> (r: Vec<&Track>)
        ensures
            track_ref_views(r@) == session_tracks(self@),
    {
        let mut r: Vec<&Track> = Vec::new();
        let mut i: usize = 0;
        while i < self.blocks.len()
            invariant
                i <= self.blocks@.len(),
                track_ref_views(r@) == track_views(self.blocks@).take(i as int).filter(
                    track_pred(),
                ),
            decreases self.blocks.len() - i,
        {
            let t = &self.blocks[i];
            let ghost prev = r@;
            proof {
                lemma_filter_take_step(track_views(self.blocks@), i as int, track_pred());
            }
            if 1 <= t.number() && t.number() <= 99 {
                r.push(t);
                assert(track_ref_views(r@) == track_ref_views(prev).push(t@));
            }
            i = i + 1;
        }
        assert(track_views(self.blocks@).take(self.blocks@.len() as int) == track_views(
            self.blocks@,
        ));
        r
    }

    /// The session's data tracks, in order.
    pub fn data_tracks(&self) -> (r: Vec<&Track>)
        ensures
            track_ref_views(r@) == session_data_tracks(self@),
    {
        let mut r: Vec<&Track> = Vec::new();
        let mut i: usize = 0;
        while i < self.blocks.len()
            invariant
                i <= self.blocks@.len(),
                track_ref_views(r@) == track_views(self.blocks@).take(i as int).filter(
                    data_track_pred(),
                ),
            decreases self.blocks.len() - i,
        {
            let t = &self.blocks[i];
            let ghost prev = r@;
            proof {
                lemma_filter_take_step(track_views(self.blocks@), i as int, data_track_pred());
            }
            let data = match t.mode() {
                TrackMode::Mode1 | TrackMode::Mode2 | TrackMode::Mode2Form1
                | TrackMode::Mode2Form2 => true,
                _ => false,
            };
            if 1 <= t.number() && t.number() <= 99 && data {
                r.push(t);
                assert(track_ref_views(r@) == track_ref_views(prev).push(t@));
            }
            i = i + 1;
        }
        assert(track_views(self.blocks@).take(self.blocks@.len() as int) == track_views(
            self.blocks@,
        ));
        r
    }

    /// The session's number.
    pub fn number(&self) -> (r: u16)
        ensures
            r == self@.number,
    {
        self.number
    }

    /// The session's first sector.
    pub fn start_sector(&self) -> (r: i32)
        ensures
            r == self@.start_sector,
    {
        self.start_sector
    }

    /// The session's last sector.
    pub fn end_sector(&self) -> (r: i32)
        ensures
            r == self@.end_sector,
    {
        self.end_sector
    }

    /// Sectors from the session's first to its last sector.
    pub fn num_sectors(&self) -> (r: i64)
        ensures
            r == self@.end_sector - self@.start_sector,
    {
        self.end_sector as i64 - self.start_sector as i64
    }
}

} // verus!
