//! The cooked view of a data track: 2048 bytes of user data per sector, cut
//! out of raw sectors of 2048 to 2448 bytes.

use crate::error::Error;
use crate::mds::TrackMode;
use crate::source::{invalid_input, unexpected_eof, RawSource};
use core::ops::Range;
use vstd::arithmetic::div_mod::{lemma_fundamental_div_mod, lemma_fundamental_div_mod_converse};
use vstd::math::min;
use vstd::prelude::*;

verus! {

/// Cooked logical sector size — the 2048 bytes of user data per ISO9660 block.
pub const COOKED_SECTOR_SIZE: usize = 0x800;

/// Where the 2048 bytes of user data start within a raw sector of a track of
/// the given mode whose main data is `data_size` bytes, if that layout is known.
pub open spec fn user_data_start(mode: TrackMode, data_size: int) -> Option<int> {
    match mode {
        TrackMode::Mode1 => if data_size == 0x800 {
            Some(0)
        } else if data_size == 0x930 {
            Some(16)
        } else {
            None
        },
        TrackMode::Mode2Form1 => if data_size == 0x800 {
            Some(0)
        } else if data_size == 0x930 {
            Some(24)
        } else if data_size == 0x920 {
            Some(8)
        } else {
            None
        },
        TrackMode::Mode2 => if data_size == 0x930 {
            Some(24)
        } else if data_size == 0x920 {
            Some(8)
        } else {
            None
        },
        _ => None,
    }
}

/// The byte range within one raw sector that holds the 2048 bytes of user
/// data, given the track's mode and raw data size (sector size less any
/// subchannel bytes).
pub fn iso_user_data_range(mode: TrackMode, data_size: usize) -> (r: Result<Range<usize>, Error>)
    ensures
        r matches Ok(range) ==> user_data_start(mode, data_size as int) == Some(
            range.start as int,
        ) && range.end == range.start + 0x800,
        r matches Err(e) ==> user_data_start(mode, data_size as int) is None && (e matches Error::UnknownIsoTrackSize(m, d) && m == mode && d == data_size),
{
    match (mode, data_size) {
        (TrackMode::Mode1, 0x800) | (TrackMode::Mode2Form1, 0x800) => Ok(0..0x800),
        (TrackMode::Mode1, 0x930) => Ok(16..16 + 0x800),
        (TrackMode::Mode2, 0x930) | (TrackMode::Mode2Form1, 0x930) => Ok(24..24 + 0x800),
        // MODE2/2336 (XA Form 1): no 16-byte sync+header prefix, but the 8-byte
        // XA subheader still precedes the 2048-byte user data region.
        (TrackMode::Mode2, 0x920) | (TrackMode::Mode2Form1, 0x920) => Ok(8..8 + 0x800),
        (mode, data_size) => Err(Error::UnknownIsoTrackSize(mode, data_size)),
    }
}

/// The cooked byte stream of a track: cooked byte `j` is byte `start + j % 2048`
/// of raw sector `j / 2048`, raw sector `k` occupying `base + k * raw_size ..`
/// of `raw`.
pub open spec fn cooked_image(raw: Seq<u8>, base: int, raw_size: int, start: int, num_sectors: int) -> Seq<u8> {
    Seq::new(
        (num_sectors * 0x800) as nat,
        |j: int| raw[base + (j / 0x800) * raw_size + start + j % 0x800],
    )
}

/// Where to move the position of a cooked reader.
#[derive(Clone, Copy, Debug, PartialEq, Eq, Structural)]
pub enum SeekFrom {
    Start(u64),
    End(i64),
    Current(i64),
}

/// A `u64` value taken as an `i64` (two's complement).
pub open spec fn as_i64(t: int) -> int {
    if t <= i64::MAX {
        t
    } else {
        t - 0x1_0000_0000_0000_0000
    }
}

/// The position that a seek asks for, from the current position and the
/// cooked length, both offsets and the length taken as `i64`.
pub open spec fn seek_target(pos: SeekFrom, current: int, total: int) -> int {
    match pos {
        SeekFrom::Start(n) => as_i64(n as int),
        SeekFrom::End(n) => as_i64(total) + n,
        SeekFrom::Current(n) => as_i64(current) + n,
    }
}

/// What every call of `read` or `seek`, successful or not, keeps from the
/// reader `a` it starts from to the reader `b` it leaves: consistency, the
/// cooked stream, and whether the source is modeled.
pub open spec fn cooked_step<R: RawSource>(a: CookedSectorReader<R>, b: CookedSectorReader<R>) -> bool {
    &&& b.wf()
    &&& b.image() == a.image()
    &&& b.source().modeled() == a.source().modeled()
}

/// The raw sector held in memory and which logical sector it is.
struct SectorCache {
    lba: u64,
    data: Vec<u8>,
}

/// Presents a 2048-byte-per-sector logical view over a source of a track's
/// raw sectors, reading one raw sector at a time and keeping the last one.
/// Logical offset 0 is the first byte of user data of the track's first sector.
pub struct CookedSectorReader<R: RawSource> {
    inner: R,
    /// Absolute offset in `inner` where the track's first raw sector begins.
    base_offset: u64,
    /// Size of one raw sector in `inner`.
    raw_sector_size: usize,
    /// Byte range within each raw sector containing 2048 bytes of user data.
    user_data: Range<usize>,
    /// Number of logical (2048-byte) sectors available.
    num_sectors: u64,
    /// Logical byte position within the cooked stream.
    logical_pos: u64,
    /// The most recently read raw sector, if any.
    cache: Option<SectorCache>,
}

impl<R: RawSource> CookedSectorReader<R> {
    /// The reader's consistency: the user data lies within a raw sector, the
    /// track fits the offset ranges, and a held sector is the raw bytes of
    /// that sector.
    pub closed spec fn wf(&self) -> bool {
        &&& self.user_data.start + 0x800 == self.user_data.end
        &&& self.user_data.end <= self.raw_sector_size
        &&& self.num_sectors * 0x800 <= u64::MAX
        &&& self.base_offset + self.num_sectors * self.raw_sector_size <= u64::MAX
        &&& self.inner.ready()
        &&& self.cache matches Some(c) ==> {
            &&& c.lba < self.num_sectors
            &&& c.data@.len() == self.raw_sector_size
            &&& self.inner.modeled() ==> {
                &&& self.base_offset + (c.lba + 1) * self.raw_sector_size <= self.inner.bytes().len()
                &&& c.data@ == self.inner.bytes().subrange(
                    self.base_offset + c.lba * self.raw_sector_size,
                    self.base_offset + (c.lba + 1) * self.raw_sector_size,
                )
            }
        }
    }

    /// The cooked bytes of the track.
    pub closed spec fn image(&self) -> Seq<u8> {
        cooked_image(
            self.inner.bytes(),
            self.base_offset as int,
            self.raw_sector_size as int,
            self.user_data.start as int,
            self.num_sectors as int,
        )
    }

    /// The source of raw sectors that the reader reads from.
    pub closed spec fn source(&self) -> R {
        self.inner
    }

    /// The logical sector whose raw sector the reader holds, if any.
    pub closed spec fn held(&self) -> Option<int> {
        match self.cache {
            Some(c) => Some(c.lba as int),
            None => None,
        }
    }

    /// The current logical position.
    pub closed spec fn position(&self) -> int {
        self.logical_pos as int
    }

    /// Whether every cooked read succeeds: the raw source is reliable and
    /// holds all the track's raw sectors.
    pub closed spec fn reads_reliably(&self) -> bool {
        self.inner.reliable() && self.base_offset + self.num_sectors * self.raw_sector_size
            <= self.inner.bytes().len()
    }

    /// Builds the cooked view of one data track.
    ///
    /// * `inner`: the raw bytes (e.g. the `.mdf` file).
    /// * `base_offset`: where the track's data starts in `inner`.
    /// * `raw_sector_size`: bytes per raw sector.
    /// * `user_data`: from `iso_user_data_range(track.mode, track.sector_data_size())`.
    /// * `num_sectors`: logical sectors available.
    pub fn new(
        inner: R,
        base_offset: u64,
        raw_sector_size: usize,
        user_data: Range<usize>,
        num_sectors: u64,
    ) -> (r: Self)
        requires
            inner.ready(),
            user_data.start + 0x800 == user_data.end,
            user_data.end <= raw_sector_size,
            num_sectors * 0x800 <= u64::MAX,
            base_offset + num_sectors * raw_sector_size <= u64::MAX,
        ensures
            r.image() == cooked_image(
                inner.bytes(),
                base_offset as int,
                raw_sector_size as int,
                user_data.start as int,
                num_sectors as int,
            ),
            r.image().len() == num_sectors * 0x800,
            r.position() == 0,
            r.source() == inner,
            r.held() is None,
            r.wf(),
            r.ready(),
            r.reliable() == (inner.reliable() && base_offset + num_sectors * raw_sector_size
                <= inner.bytes().len()),
    {
        CookedSectorReader {
            inner,
            base_offset,
            raw_sector_size,
            user_data,
            num_sectors,
            logical_pos: 0,
            cache: None,
        }
    }

    /// The underlying source of raw sectors.
    pub fn inner(&self) -> (r: &R)
        ensures
            *r == self.source(),
    {
        &self.inner
    }

    /// Total number of cooked bytes available (logical EOF).
    pub fn cooked_len(&self) -> (r: u64)
        requires
            self.wf(),
        ensures
            r == self.image().len(),
    {
        self.num_sectors * (COOKED_SECTOR_SIZE as u64)
    }

    /// Makes the cache hold raw sector `lba`, reading it unless it is already held.
    fn load_sector(&mut self, lba: u64) -> (r: Result<(), Error>)
        requires
            old(self).wf(),
            lba < old(self).num_sectors,
        ensures
            final(self).wf(),
            final(self).inner.bytes() == old(self).inner.bytes(),
            final(self).base_offset == old(self).base_offset,
            final(self).raw_sector_size == old(self).raw_sector_size,
            final(self).user_data == old(self).user_data,
            final(self).num_sectors == old(self).num_sectors,
            final(self).logical_pos == old(self).logical_pos,
            final(self).inner.reliable() == old(self).inner.reliable(),
            final(self).inner.modeled() == old(self).inner.modeled(),
            r is Ok ==> (final(self).cache matches Some(c) && c.lba == lba),
            (old(self).cache matches Some(c) && c.lba == lba) ==> *final(self) == *old(self),
            r is Err ==> final(self).cache == old(self).cache,
            r matches Err(e) ==> e is Io,
            old(self).reads_reliably() ==> r is Ok,
    {
        if let Some(c) = &self.cache {
            if c.lba == lba {
                return Ok(());
            }
        }
        let rs = self.raw_sector_size as u64;
        proof {
            assert(lba * rs <= self.num_sectors * rs) by (nonlinear_arith)
                requires
                    lba < self.num_sectors,
                    rs >= 0,
            ;
            assert((lba + 1) * rs <= self.num_sectors * rs) by (nonlinear_arith)
                requires
                    lba < self.num_sectors,
                    rs >= 0,
            ;
            assert((lba + 1) * rs == lba * rs + rs) by (nonlinear_arith);
        }
        let raw_offset = self.base_offset + lba * rs;
        let data = match self.inner.read_exact_at(raw_offset, self.raw_sector_size) {
            Ok(d) => d,
            Err(e) => return Err(e),
        };
        proof {
            assert((lba + 1) * rs == lba * rs + rs) by (nonlinear_arith);
        }
        self.cache = Some(SectorCache { lba, data });
        Ok(())
    }

    /// Reads up to `max_len` cooked bytes at the current position, never
    /// past the end of the current logical sector nor past the end of the
    /// track, and advances the position by as many. At the end of the track,
    /// or for `max_len == 0`, nothing is read.
    pub fn read(&mut self, max_len: usize) -> (r: Result<Vec<u8>, Error>)
        requires
            old(self).wf(),
        ensures
            final(self).wf(),
            final(self).image() == old(self).image(),
            final(self).reads_reliably() == old(self).reads_reliably(),
            final(self).source().modeled() == old(self).source().modeled(),
            cooked_step(*old(self), *final(self)),
            r matches Err(e) ==> e is Io,
            old(self).reads_reliably() ==> r is Ok,
            ({
                let pos = old(self).position();
                let total = old(self).image().len() as int;
                &&& (pos >= total || max_len == 0) ==> final(self).source() == old(self).source()
                    && final(self).held() == old(self).held()
                &&& (pos < total && max_len > 0 && old(self).held() == Some(pos / 0x800))
                    ==> final(self).source() == old(self).source()
                &&& (pos < total && max_len > 0 && r is Ok) ==> final(self).held() == Some(pos / 0x800)
                &&& r is Err ==> final(self).held() == old(self).held()
                &&& r matches Ok(v) ==> v@.len() == 0 || pos + v@.len() <= total
            }),
            ({
                let pos = old(self).position();
                let total = old(self).image().len() as int;
                if pos >= total || max_len == 0 {
                    r matches Ok(v) && v@.len() == 0 && final(self).position() == pos
                } else {
                    let n = min(min(max_len as int, 0x800 - pos % 0x800), total - pos);
                    &&& r matches Ok(v) ==> v@.len() == n && final(self).position() == pos + n
                    &&& old(self).source().modeled() ==> (r matches Ok(v) ==> v@ == old(
                        self,
                    ).image().subrange(pos, pos + n))
                    &&& r is Err ==> final(self).position() == pos
                }
            }),
    {
        let total_cooked = self.cooked_len();
        if self.logical_pos >= total_cooked || max_len == 0 {
            return Ok(Vec::new());
        }
        let lba = self.logical_pos / (COOKED_SECTOR_SIZE as u64);
        let within = (self.logical_pos % (COOKED_SECTOR_SIZE as u64)) as usize;
        proof {
            assert(lba < self.num_sectors) by (nonlinear_arith)
                requires
                    lba == self.logical_pos / 0x800,
                    self.logical_pos < self.num_sectors * 0x800,
            ;
        }
        let ghost old_self = *self;
        match self.load_sector(lba) {
            Ok(()) => {},
            Err(e) => return Err(e),
        }
        let user_start = self.user_data.start + within;
        let available_in_sector = self.user_data.end - user_start;
        let remaining_total = total_cooked - self.logical_pos;
        let mut n = max_len;
        if available_in_sector < n {
            n = available_in_sector;
        }
        if remaining_total < n as u64 {
            n = remaining_total as usize;
        }
        let out = match &self.cache {
            Some(c) => {
                let mut out: Vec<u8> = Vec::new();
                out.extend_from_slice(&c.data.as_slice()[user_start..user_start + n]);
                proof {
                    if self.inner.modeled() {
                        let raw = self.inner.bytes();
                        let base = self.base_offset as int;
                        let rs = self.raw_sector_size as int;
                        let start = self.user_data.start as int;
                        let pos = self.logical_pos as int;
                        lemma_fundamental_div_mod(pos, 0x800);
                        assert(pos == lba * 0x800 + within);
                        assert forall|k: int| 0 <= k < n implies #[trigger] out@[k] == self.image()[pos
                            + k] by {
                            lemma_fundamental_div_mod_converse(
                                pos + k,
                                0x800,
                                lba as int,
                                within + k,
                            );
                            assert(out@[k] == c.data@[user_start + k]);
                            assert((lba + 1) * rs == lba * rs + rs) by (nonlinear_arith);
                            assert(c.data@[user_start + k] == raw[base + lba * rs + user_start + k]);
                        }
                        assert(out@ =~= self.image().subrange(pos, pos + n));
                    }
                }
                out
            },
            None => Vec::new(),
        };
        self.logical_pos = self.logical_pos + n as u64;
        Ok(out)
    }

    /// Moves the position; a target before the start is refused with an
    /// `InvalidInput` I/O error and leaves the position unchanged.
    pub fn seek(&mut self, pos: SeekFrom) -> (r: Result<u64, Error>)
        requires
            old(self).wf(),
            match pos {
                SeekFrom::End(n) => i64::MIN <= as_i64(old(self).image().len() as int) + n <= i64::MAX,
                SeekFrom::Current(n) => i64::MIN <= as_i64(old(self).position()) + n <= i64::MAX,
                _ => true,
            },
        ensures
            final(self).wf(),
            final(self).image() == old(self).image(),
            final(self).reads_reliably() == old(self).reads_reliably(),
            r matches Err(e) ==> e is Io,
            final(self).source() == old(self).source(),
            final(self).held() == old(self).held(),
            cooked_step(*old(self), *final(self)),
            ({
                let target = seek_target(pos, old(self).position(), old(self).image().len() as int);
                &&& r matches Ok(p) ==> target >= 0 && p == target && final(self).position()
                    == target
                &&& r is Err ==> target < 0 && final(self).position() == old(self).position()
                &&& target >= 0 ==> r is Ok
            }),
    {
        let len = self.cooked_len();
        let total: i64 = if len <= i64::MAX as u64 {
            len as i64
        } else {
            -((u64::MAX - len) as i64) - 1
        };
        let new_pos: i64 = match pos {
            SeekFrom::Start(n) => if n <= i64::MAX as u64 {
                n as i64
            } else {
                -((u64::MAX - n) as i64) - 1
            },
            SeekFrom::End(n) => total + n,
            SeekFrom::Current(n) => {
                let cur: i64 = if self.logical_pos <= i64::MAX as u64 {
                    self.logical_pos as i64
                } else {
                    -((u64::MAX - self.logical_pos) as i64) - 1
                };
                cur + n
            },
        };
        if new_pos < 0 {
            return Err(Error::Io(invalid_input("seek before start")));
        }
        self.logical_pos = new_pos as u64;
        Ok(self.logical_pos)
    }
}

impl<R: RawSource> RawSource for CookedSectorReader<R> {
    open spec fn bytes(&self) -> Seq<u8> {
        self.image()
    }

    open spec fn modeled(&self) -> bool {
        self.source().modeled()
    }

    open spec fn ready(&self) -> bool {
        self.wf()
    }

    open spec fn reliable(&self) -> bool {
        self.reads_reliably()
    }

    /// Reads exactly `len` cooked bytes at `pos`, a sector at a time.
    fn read_exact_at(&mut self, pos: u64, len: usize) -> (r: Result<Vec<u8>, Error>) {
        if pos > self.cooked_len() {
            return Err(Error::Io(unexpected_eof()));
        }
        self.logical_pos = pos;
        let mut out: Vec<u8> = Vec::new();
        while out.len() < len
            invariant
                out@.len() <= len,
                self.wf(),
                self.image() == old(self).image(),
                self.reads_reliably() == old(self).reads_reliably(),
                pos + len <= self.image().len() ==> self.position() < self.image().len() || out@.len() == len,
                self.position() == pos + out@.len(),
                self.source().modeled() == old(self).source().modeled(),
                out@.len() == 0 || pos + out@.len() <= self.image().len(),
                out@.len() > 0 && self.source().modeled() ==> out@ == self.image().subrange(
                    pos as int,
                    pos + out@.len(),
                ),
            decreases len - out@.len(),
        {
            let chunk = match self.read(len - out.len()) {
                Ok(c) => c,
                Err(e) => return Err(e),
            };
            if chunk.len() == 0 {
                return Err(Error::Io(unexpected_eof()));
            }
            let ghost before = out@;
            out.extend_from_slice(chunk.as_slice());
            proof {
                if self.source().modeled() {
                    assert(out@ =~= self.image().subrange(pos as int, pos + out@.len()));
                }
            }
        }
        Ok(out)
    }
}

} // verus!
