//! Track blocks: one per track (and per lead-in entry) of a session.

use super::Fault;
use super::filename::{filename_block, spec_filename_block, FilenameBlock, NameFormat};
use super::index::{index_block, spec_index_block, IndexBlock};
use crate::bytes::{le16, le32, le64, le_i32, read_i32_le, read_u16_le, read_u32_le, read_u64_le};
use crate::text::{
    append_chars,
    chars_equal,
    chars_of,
    dec,
    decimal_padded,
    string_from_chars,
    zero_pad,
};
use crate::paths::{
    ends_with,
    file_name_replaced,
    plain_path,
    simple_path,
    single_component,
    with_extension,
};
use crate::unicode::{decode_utf16, decode_utf8_lossy, utf16_decode, utf8_text};
use vstd::prelude::*;

verus! {

/// Size in bytes of a track block.
pub const TRACK_BLOCK_SIZE: usize = 0x50;

/// Sector payload type of a track.
#[derive(Clone, Copy, Debug, PartialEq, Eq, Structural)]
pub enum TrackMode {
    /// Mode byte 0: no payload type recorded (shown as `None`).
    Blank,
    Audio,
    Mode1,
    Mode2,
    Mode2Form1,
    Mode2Form2,
}

/// A track mode byte that names no known mode.
#[derive(Debug)]
pub struct UnknownTrackMode(pub u8);

/// The track mode that a mode byte stands for.
pub open spec fn track_mode_of(b: u8) -> Option<TrackMode> {
    if b == 0x00 {
        Some(TrackMode::Blank)
    } else if b == 0xA9 {
        Some(TrackMode::Audio)
    } else if b == 0xAA {
        Some(TrackMode::Mode1)
    } else if b == 0xAB || b == 0xEC {
        Some(TrackMode::Mode2)
    } else if b == 0xAC {
        Some(TrackMode::Mode2Form1)
    } else if b == 0xAD {
        Some(TrackMode::Mode2Form2)
    } else {
        None
    }
}

impl TrackMode {
    pub fn from_byte(b: u8) -> (r: Result<TrackMode, UnknownTrackMode>)
        ensures
            r matches Ok(m) ==> track_mode_of(b) == Some(m),
            r matches Err(e) ==> track_mode_of(b) is None && e.0 == b,
    {
        match b {
            0x00 => Ok(TrackMode::Blank),
            0xA9 => Ok(TrackMode::Audio),
            0xAA => Ok(TrackMode::Mode1),
            0xAB => Ok(TrackMode::Mode2),
            0xAC => Ok(TrackMode::Mode2Form1),
            0xAD => Ok(TrackMode::Mode2Form2),
            0xEC => Ok(TrackMode::Mode2),
            x => Err(UnknownTrackMode(x)),
        }
    }
}

/// Whether sectors carry subchannel data after the main data.
#[derive(Clone, Copy, Debug, PartialEq, Eq, Structural)]
pub enum SubChannels {
    /// No subchannel data (shown as `None`).
    Zero,
    Eight,
}

/// A subchannel byte that is neither 0 nor 8.
#[derive(Debug)]
pub struct UnknonwSubChannelFlag(pub u8);

pub open spec fn subchannels_of(b: u8) -> Option<SubChannels> {
    if b == 0x00 {
        Some(SubChannels::Zero)
    } else if b == 0x08 {
        Some(SubChannels::Eight)
    } else {
        None
    }
}

impl SubChannels {
    pub fn from_byte(b: u8) -> (r: Result<SubChannels, UnknonwSubChannelFlag>)
        ensures
            r matches Ok(s) ==> subchannels_of(b) == Some(s),
            r matches Err(e) ==> subchannels_of(b) is None && e.0 == b,
    {
        match b {
            0x00 => Ok(SubChannels::Zero),
            0x08 => Ok(SubChannels::Eight),
            x => Err(UnknonwSubChannelFlag(x)),
        }
    }
}

/// Bytes of subchannel data at the end of every sector.
pub open spec fn subchannel_bytes(s: SubChannels) -> nat {
    match s {
        SubChannels::Zero => 0,
        SubChannels::Eight => 0x60,
    }
}

/// What a track block says, with the data file name decoded.
pub struct TrackView {
    pub mode: TrackMode,
    pub num_subchannels: SubChannels,
    pub adr: u8,
    pub track_number: u8,
    pub point: u8,
    pub minute: u8,
    pub second: u8,
    pub frame: u8,
    pub index: Option<IndexBlock>,
    pub sector_size: u16,
    pub track_start_sector: i32,
    pub track_start_offset: u64,
    pub num_filenames: u32,
    pub filename: Option<Seq<char>>,
}

#[derive(Debug)]
pub struct Track {
    pub mode: TrackMode,
    pub num_subchannels: SubChannels,
    _adr: u8,
    _track_number: u8,
    point: u8,
    pub minute: u8,
    pub second: u8,
    pub frame: u8,
    index: Option<IndexBlock>,
    sector_size: u16,
    pub track_start_sector: i32,
    pub track_start_offset: u64,
    _num_filenames: u32,
    filename: Option<String>,
}

impl View for Track {
    type V = TrackView;

    closed spec fn view(&self) -> TrackView {
        TrackView {
            mode: self.mode,
            num_subchannels: self.num_subchannels,
            adr: self._adr,
            track_number: self._track_number,
            point: self.point,
            minute: self.minute,
            second: self.second,
            frame: self.frame,
            index: self.index,
            sector_size: self.sector_size,
            track_start_sector: self.track_start_sector,
            track_start_offset: self.track_start_offset,
            num_filenames: self._num_filenames,
            filename: match self.filename {
                Some(s) => Some(s@),
                None => None,
            },
        }
    }
}

/// Index of the first zero byte of `s` at or after `i`, or `s.len()` if there is none.
pub open spec fn zero_index(s: Seq<u8>, i: int) -> int
    decreases s.len() - i,
{
    if i >= s.len() || i < 0 {
        s.len() as int
    } else if s[i] == 0 {
        i
    } else {
        zero_index(s, i + 1)
    }
}

/// Offset of the first two-byte zero unit of `s` at an even offset from `end`,
/// or `None` when no complete zero unit follows.
pub open spec fn utf16_terminator(s: Seq<u8>, end: int) -> Option<int>
    decreases s.len() - end,
{
    if end < 0 || end + 1 >= s.len() {
        None
    } else if s[end] == 0 && s[end + 1] == 0 {
        Some(end)
    } else {
        utf16_terminator(s, end + 2)
    }
}

/// The little-endian 16-bit units of `s`, a trailing odd byte dropped.
pub open spec fn le_units(s: Seq<u8>) -> Seq<u16> {
    Seq::new(s.len() / 2, |i: int| le16(s, 2 * i) as u16)
}

/// The name stored at the start of `s` in the given format: 8-bit names run
/// to the first zero byte (or the end) and are decoded as lossy UTF-8;
/// 16-bit names run to the first zero unit, which must exist, and are
/// decoded as UTF-16LE.
pub open spec fn spec_name(s: Seq<u8>, format: NameFormat) -> Option<Seq<char>> {
    match format {
        NameFormat::EightBit => Some(utf8_text(s.take(zero_index(s, 0)))),
        NameFormat::SixteenBit => match utf16_terminator(s, 0) {
            Some(e) => Some(utf16_decode(le_units(s.take(e)))),
            None => None,
        },
    }
}

/// The data file name of a track whose filename block is at `fn_off`
/// (0: no name); `None` when it cannot be read.
pub open spec fn spec_track_filename(input: Seq<u8>, fn_off: int) -> Option<Option<Seq<char>>> {
    if fn_off == 0 {
        Some(None)
    } else if fn_off > input.len() {
        None
    } else {
        match spec_filename_block(input.subrange(fn_off, input.len() as int)) {
            None => None,
            Some(fb) => if fb.filename_offset > input.len() {
                None
            } else {
                match spec_name(
                    input.subrange(fb.filename_offset as int, input.len() as int),
                    fb.filename_format,
                ) {
                    Some(n) => Some(Some(n)),
                    None => None,
                }
            },
        }
    }
}

/// The index block of a track whose index block offset is `idx_off` (0: none).
pub open spec fn spec_track_index(input: Seq<u8>, idx_off: int) -> Result<Option<IndexBlock>, Fault> {
    if idx_off == 0 {
        Ok(None)
    } else if idx_off > input.len() {
        Err(Fault::OutOfRange)
    } else {
        match spec_index_block(input.subrange(idx_off, input.len() as int)) {
            Some(ib) => Ok(Some(ib)),
            None => Err(Fault::Malformed),
        }
    }
}

/// The track block at offset `off` of the file `input`. Layout (bytes):
/// mode, subchannels, adr/control, track number, point, 4 zero, minute,
/// second, frame, index block offset (u32), sector size (u16), 18 unknown,
/// start sector (i32), start offset (u64), number of filenames (u32),
/// filename block offset (u32), 24 zero. An offset past the end of the file
/// (of the block or of its index block) is `OutOfRange`.
#[verifier::opaque]
pub open spec fn spec_track(input: Seq<u8>, off: int) -> Result<TrackView, Fault> {
    if off > input.len() {
        Err(Fault::OutOfRange)
    } else if off + 80 > input.len() || track_mode_of(input[off]) is None || subchannels_of(
        input[off + 1],
    ) is None {
        Err(Fault::Malformed)
    } else {
        match spec_track_index(input, le32(input, off + 12)) {
            Err(f) => Err(f),
            Ok(index) => match spec_track_filename(input, le32(input, off + 52)) {
                None => Err(Fault::Malformed),
                Some(filename) => Ok(
                    TrackView {
                        mode: track_mode_of(input[off]).unwrap(),
                        num_subchannels: subchannels_of(input[off + 1]).unwrap(),
                        adr: input[off + 2],
                        track_number: input[off + 3],
                        point: input[off + 4],
                        minute: input[off + 9],
                        second: input[off + 10],
                        frame: input[off + 11],
                        index,
                        sector_size: le16(input, off + 16) as u16,
                        track_start_sector: le_i32(input, off + 36) as i32,
                        track_start_offset: le64(input, off + 40) as u64,
                        num_filenames: le32(input, off + 48) as u32,
                        filename,
                    },
                ),
            },
        }
    }
}

fn find_zero(s: &[u8]) -> (r: usize)
    ensures
        r == zero_index(s@, 0),
        r <= s@.len(),
{
    let mut i: usize = 0;
    while i < s.len()
        invariant
            i <= s@.len(),
            zero_index(s@, 0) == zero_index(s@, i as int),
        decreases s.len() - i,
    {
        if s[i] == 0 {
            return i;
        }
        i = i + 1;
    }
    i
}

fn find_utf16_terminator(s: &[u8]) -> (r: Option<usize>)
    ensures
        r matches Some(e) ==> utf16_terminator(s@, 0) == Some(e as int) && e + 1 < s@.len(),
        r is None ==> utf16_terminator(s@, 0) is None,
{
    let mut end: usize = 0;
    loop
        invariant
            end <= s@.len() + 1,
            utf16_terminator(s@, 0) == utf16_terminator(s@, end as int),
        decreases s@.len() + 2 - end,
    {
        if end >= s.len() || end + 1 >= s.len() {
            return None;
        }
        if s[end] == 0 && s[end + 1] == 0 {
            return Some(end);
        }
        end = end + 2;
    }
}

/// The little-endian 16-bit units of `s`.
fn units_le(s: &[u8]) -> (r: Vec<u16>)
    ensures
        r@ == le_units(s@),
{
    let mut out: Vec<u16> = Vec::new();
    let len = s.len();
    let n = len / 2;
    let mut i: usize = 0;
    while i < n
        invariant
            len == s@.len(),
            n == s@.len() / 2,
            i <= n,
            out@ == le_units(s@).subrange(0, i as int),
        decreases n - i,
    {
        out.push(read_u16_le(s, 2 * i));
        i = i + 1;
        assert(out@ =~= le_units(s@).subrange(0, i as int));
    }
    assert(le_units(s@).subrange(0, n as int) == le_units(s@));
    out
}

/// Reads a file name stored at the start of `input` in the given format.
fn filename(input: &[u8], format: NameFormat) -> (r: Option<String>)
    ensures
        r matches Some(s) ==> spec_name(input@, format) == Some(s@),
        r is None ==> spec_name(input@, format) is None,
{
    match format {
        NameFormat::EightBit => {
            let end = find_zero(input);
            let name = decode_utf8_lossy(&input[0..end]);
            assert(input@.subrange(0, end as int) == input@.take(end as int));
            Some(name)
        },
        NameFormat::SixteenBit => {
            match find_utf16_terminator(input) {
                None => None,
                Some(end) => {
                    let units = units_le(&input[0..end]);
                    assert(input@.subrange(0, end as int) == input@.take(end as int));
                    let chars = decode_utf16(units.as_slice());
                    Some(string_from_chars(chars.as_slice()))
                },
            }
        },
    }
}

fn track_filename(input: &[u8], fn_off: u32) -> (r: Option<Option<String>>)
    ensures
        r matches Some(Some(s)) ==> spec_track_filename(input@, fn_off as int) == Some(Some(s@)),
        r matches Some(None) ==> spec_track_filename(input@, fn_off as int) == Some(
            None::<Seq<char>>,
        ),
        r is None ==> spec_track_filename(input@, fn_off as int) is None,
{
    let len = input.len();
    if fn_off == 0 {
        return Some(None);
    }
    if fn_off as u64 > len as u64 {
        return None;
    }
    let off = fn_off as usize;
    let block = match filename_block(&input[off..len]) {
        Some(b) => b,
        None => return None,
    };
    if block.filename_offset as u64 > len as u64 {
        return None;
    }
    let name_off = block.filename_offset as usize;
    match filename(&input[name_off..len], block.filename_format) {
        Some(name) => Some(Some(name)),
        None => None,
    }
}

fn track_index(input: &[u8], idx_off: u32) -> (r: Result<Option<IndexBlock>, Fault>)
    ensures
        r == spec_track_index(input@, idx_off as int),
{
    let len = input.len();
    if idx_off == 0 {
        return Ok(None);
    }
    if idx_off as u64 > len as u64 {
        return Err(Fault::OutOfRange);
    }
    let off = idx_off as usize;
    match index_block(&input[off..len]) {
        Some(ib) => Ok(Some(ib)),
        None => Err(Fault::Malformed),
    }
}

/// Reads the track block at `track_offset` of the whole file `input`.
pub fn track(input: &[u8], track_offset: u64) -> (r: Result<Track, Fault>)
    ensures
        r matches Ok(t) ==> spec_track(input@, track_offset as int) == Ok::<TrackView, Fault>(t@),
        r matches Err(f) ==> spec_track(input@, track_offset as int) == Err::<TrackView, Fault>(f),
{
    reveal(spec_track);
    let len = input.len();
    if track_offset > len as u64 {
        return Err(Fault::OutOfRange);
    }
    if len as u64 - track_offset < 80 {
        return Err(Fault::Malformed);
    }
    let off = track_offset as usize;
    let mode = match TrackMode::from_byte(input[off]) {
        Ok(m) => m,
        Err(_) => return Err(Fault::Malformed),
    };
    let num_subchannels = match SubChannels::from_byte(input[off + 1]) {
        Ok(s) => s,
        Err(_) => return Err(Fault::Malformed),
    };
    let index = match track_index(input, read_u32_le(input, off + 12)) {
        Ok(i) => i,
        Err(f) => return Err(f),
    };
    let filename = match track_filename(input, read_u32_le(input, off + 52)) {
        Some(n) => n,
        None => return Err(Fault::Malformed),
    };
    let t = Track {
        mode,
        num_subchannels,
        _adr: input[off + 2],
        _track_number: input[off + 3],
        point: input[off + 4],
        minute: input[off + 9],
        second: input[off + 10],
        frame: input[off + 11],
        index,
        sector_size: read_u16_le(input, off + 16),
        track_start_sector: read_i32_le(input, off + 36),
        track_start_offset: read_u64_le(input, off + 40),
        _num_filenames: read_u32_le(input, off + 48),
        filename,
    };
    Ok(t)
}

/// Milliseconds shown for a frame count, a frame being 1/72 s as the track
/// times are displayed.
pub open spec fn frame_millis(frame: u8) -> int {
    frame * 1000 / 72
}

/// `mm:ss.fff`: minute and second zero-padded to two digits, the frame as
/// zero-padded milliseconds.
pub open spec fn time_text(minute: u8, second: u8, frame: u8) -> Seq<char> {
    zero_pad(dec(minute as nat), 2) + seq![':'] + zero_pad(dec(second as nat), 2) + seq!['.']
        + zero_pad(dec(frame_millis(frame) as nat), 3)
}

impl Track {
    pub fn mode(&self) -> (r: TrackMode)
        ensures
            r == self@.mode,
    {
        self.mode
    }

    pub fn subchannels(&self) -> (r: SubChannels)
        ensures
            r == self@.num_subchannels,
    {
        self.num_subchannels
    }

    /// Sector number at which the track starts.
    pub fn start_sector(&self) -> (r: i32)
        ensures
            r == self@.track_start_sector,
    {
        self.track_start_sector
    }

    /// Byte offset of the track's first sector in its data file.
    pub fn start_offset(&self) -> (r: u64)
        ensures
            r == self@.track_start_offset,
    {
        self.track_start_offset
    }

    /// The track's number (the block's point).
    pub fn number(&self) -> (r: usize)
        ensures
            r == self@.point,
    {
        self.point as usize
    }

    /// Bytes per raw sector in the data file.
    pub fn sector_size(&self) -> (r: usize)
        ensures
            r == self@.sector_size,
    {
        self.sector_size as usize
    }

    /// Bytes of main data per raw sector: the sector size less the subchannel bytes.
    pub fn sector_data_size(&self) -> (r: usize)
        requires
            self@.sector_size >= subchannel_bytes(self@.num_subchannels),
        ensures
            r == self@.sector_size - subchannel_bytes(self@.num_subchannels),
    {
        self.sector_size() - self.sector_subchannel_size()
    }

    /// Bytes of subchannel data at the end of every raw sector.
    pub fn sector_subchannel_size(&self) -> (r: usize)
        ensures
            r == subchannel_bytes(self@.num_subchannels),
    {
        match self.num_subchannels {
            SubChannels::Zero => 0x00,
            SubChannels::Eight => 0x60,
        }
    }

    /// Sectors of the track proper (index 1), or 0 without an index block.
    pub fn num_sectors(&self) -> (r: usize)
        ensures
            r == match self@.index {
                Some(ib) => ib.index1_sectors as int,
                None => 0,
            },
    {
        match &self.index {
            Some(idx) => idx.index1_sectors as usize,
            None => 0,
        }
    }

    /// Sectors of the pregap (index 0), or 0 without an index block.
    pub fn pregap_sectors(&self) -> (r: usize)
        ensures
            r == match self@.index {
                Some(ib) => ib.index0_sectors as int,
                None => 0,
            },
    {
        match &self.index {
            Some(idx) => idx.index0_sectors as usize,
            None => 0,
        }
    }

    /// The track's start time, `mm:ss.fff`.
    pub fn time_str(&self) -> (r: String)
        ensures
            r@ == time_text(self@.minute, self@.second, self@.frame),
    {
        let mut v = decimal_padded(self.minute as u64, 2);
        v.push(':');
        let sec = decimal_padded(self.second as u64, 2);
        append_chars(&mut v, sec.as_slice());
        v.push('.');
        let millis: u64 = (self.frame as u64) * 1000 / 72;
        let ms = decimal_padded(millis, 3);
        append_chars(&mut v, ms.as_slice());
        string_from_chars(v.as_slice())
    }

    /// Where the track's data file lies: the `.mds` file's path with
    /// extension `mdf` when the stored name is `*.mdf`, beside the `.mds`
    /// file under the stored name otherwise; `None` when no name is stored.
    pub fn data_file_choice(&self) -> (r: Option<DataFile>)
        ensures
            self@.filename is None ==> r is None,
            self@.filename matches Some(n) ==> if n == "*.mdf"@ {
                r matches Some(DataFile::SameStemMdf)
            } else {
                r matches Some(DataFile::Named(s)) && s@ == n
            },
    {
        match &self.filename {
            None => None,
            Some(name) => {
                let chars = chars_of(name.as_str());
                let pattern = chars_of("*.mdf");
                if chars_equal(chars.as_slice(), pattern.as_slice()) {
                    Some(DataFile::SameStemMdf)
                } else {
                    Some(DataFile::Named(name.clone()))
                }
            },
        }
    }

    /// The path of the track's data file, placed beside `mds_file_name` as
    /// `data_file_choice` says: the `.mds` path with its extension replaced
    /// by `mdf`, or with its file name replaced by the stored name. Exactly
    /// which path std's path operations give depends on the platform's path
    /// syntax; for a `.mds` path that reads the same on every platform
    /// (`plain_path`, resp. `simple_path`) the result is stated in full, up
    /// to the separator the platform writes.
    pub fn data_filename(&self, mds_file_name: &str) -> (r: Option<String>)
        ensures
            r is Some <==> self@.filename is Some,
            self@.filename == Some("*.mdf"@) ==> (r matches Some(p) && (p@ == mds_file_name@
                || ends_with(p@, seq!['.', 'm', 'd', 'f']))),
            self@.filename == Some("*.mdf"@) && plain_path(mds_file_name@) ==> (r matches Some(p)
                && p@ == with_extension(mds_file_name@, seq!['m', 'd', 'f'])),
            self@.filename matches Some(n) ==> (n != "*.mdf"@ && single_component(n) ==> (r matches Some(
                p,
            ) && ends_with(p@, n))),
            self@.filename matches Some(n) ==> (n != "*.mdf"@ && single_component(n) && !n.contains(
                ':',
            ) && simple_path(mds_file_name@) ==> (r matches Some(p) && file_name_replaced(
                mds_file_name@,
                n,
                p@,
            ))),
    {
        match self.data_file_choice() {
            None => None,
            Some(DataFile::SameStemMdf) => {
                proof {
                    reveal_strlit("mdf");
                    assert(seq!['.'] + "mdf"@ =~= seq!['.', 'm', 'd', 'f']);
                    assert("mdf"@ =~= seq!['m', 'd', 'f']);
                }
                Some(path_with_extension(mds_file_name, "mdf"))
            },
            Some(DataFile::Named(name)) => Some(path_with_file_name(mds_file_name, name.as_str())),
        }
    }
}

/// Where a track's data file lies, beside the `.mds` file.
#[derive(Debug)]
pub enum DataFile {
    /// The `.mds` file's path with extension `mdf`.
    SameStemMdf,
    /// The `.mds` file's path with its file name replaced by this name.
    Named(String),
}

/// `path` with its extension set to `ext` (std's `PathBuf::set_extension`),
/// rendered as text. std panics on an extension holding a separator, so
/// `ext` may hold none. The result is `path` itself when it has no file
/// name, and otherwise `path` cut after the stem of its file name, then `.`
/// and `ext`. Which part of the path is the file name depends on the
/// platform; for a `plain_path` it is what follows the last `/`.
#[verifier::external_body]
fn path_with_extension(path: &str, ext: &str) -> (r: String)
    requires
        forall|i: int| 0 <= i < ext@.len() ==> ext@[i] != '/' && ext@[i] != '\\',
    ensures
        ext@.len() > 0 ==> (r@ == path@ || ends_with(r@, seq!['.'] + ext@)),
        ext@.len() > 0 && plain_path(path@) ==> r@ == with_extension(path@, ext@),
{
    let mut p = std::path::PathBuf::from(path);
    p.set_extension(ext);
    p.to_string_lossy().to_string()
}

/// `path` with its last component replaced by `name` (std's
/// `PathBuf::set_file_name`: the parent is kept, then `name` is pushed,
/// after one separator where the parent does not already end in one),
/// rendered as text. A `name` that is one plain component ends the result
/// on every platform; for a `simple_path` the parent is what precedes its
/// last `/`, and a `name` without `:` (no Windows drive) is appended to it.
#[verifier::external_body]
fn path_with_file_name(path: &str, name: &str) -> (r: String)
    ensures
        single_component(name@) ==> ends_with(r@, name@),
        single_component(name@) && !name@.contains(':') && simple_path(path@) ==> file_name_replaced(
            path@,
            name@,
            r@,
        ),
{
    let mut p = std::path::PathBuf::from(path);
    p.set_file_name(name);
    p.to_string_lossy().to_string()
}

} // verus!
