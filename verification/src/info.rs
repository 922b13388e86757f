//! The text of `mds info`: a summary line for the image, then each session
//! and each of its tracks, numbers shown in decimal and in hex.

use crate::convert::track_sectors;
use crate::error::mode_name;
use crate::mds::header::MediaType;
use crate::mds::mds::{Mds, MdsView};
use crate::mds::session::{session_tracks, track_ref_views, Session, SessionView};
use crate::mds::track::{time_text, SubChannels, Track, TrackView};
use crate::text::{
    append_chars,
    chars_of,
    dec,
    decimal,
    hex_upper,
    hexadecimal_upper,
    pad_right,
    pad_with_spaces,
    signed_dec,
    signed_decimal,
    string_from_chars,
};
use vstd::prelude::*;

verus! {

/// How a media type is named.
pub open spec fn media_name(m: MediaType) -> Seq<char> {
    match m {
        MediaType::CdRom => "CD-ROM"@,
        MediaType::CdR => "CD-R"@,
        MediaType::CdRw => "CD-RW"@,
        MediaType::DvdRom => "DVD-ROM"@,
        MediaType::DvdR => "DVD-R"@,
    }
}

pub fn media_type_name(m: MediaType) -> (r: &'static str)
    ensures
        r@ == media_name(m),
{
    match m {
        MediaType::CdRom => "CD-ROM",
        MediaType::CdR => "CD-R",
        MediaType::CdRw => "CD-RW",
        MediaType::DvdRom => "DVD-ROM",
        MediaType::DvdR => "DVD-R",
    }
}

/// How a subchannel setting is named.
pub open spec fn subchannels_name(s: SubChannels) -> Seq<char> {
    match s {
        SubChannels::Zero => "None"@,
        SubChannels::Eight => "Eight"@,
    }
}

/// `n` and `word`, the word in the plural unless `n` is 1.
pub open spec fn counted(n: nat, word: Seq<char>) -> Seq<char> {
    dec(n) + seq![' '] + word + if n == 1 {
        Seq::<char>::empty()
    } else {
        seq!['s']
    }
}

/// The number of tracks of all sessions `ss`.
pub open spec fn total_tracks(ss: Seq<SessionView>) -> nat
    decreases ss.len(),
{
    if ss.len() == 0 {
        0
    } else {
        total_tracks(ss.drop_last()) + session_tracks(ss.last()).len()
    }
}

/// The summary line: version, media, file size, sessions and tracks.
pub open spec fn summary(m: MdsView) -> Seq<char> {
    "MDS v"@ + dec(m.header.version.major as nat) + seq!['.'] + dec(m.header.version.minor as nat)
        + " | "@ + media_name(m.header.media_type) + ", "@ + dec(m.num_bytes) + " bytes, "@
        + counted(m.sessions.len(), "session"@) + ", "@ + counted(
        total_tracks(m.sessions),
        "track"@,
    )
}

/// `label`, then `value` in decimal left-aligned in 10 columns, then in
/// uppercase hex as `(0x..)`; a negative value shows in hex as its two's
/// complement, taken modulo `modulus`.
pub open spec fn numbered(label: Seq<char>, value: int, modulus: int) -> Seq<char> {
    label + pad_right(signed_dec(value), 10) + "(0x"@ + hex_upper(
        (if value < 0 {
            value + modulus
        } else {
            value
        }) as nat,
    ) + seq![')']
}

/// The lines of a session: its number, first and last sector, and the
/// sectors between them.
pub open spec fn session_info(s: SessionView) -> Seq<Seq<char>> {
    seq![
        "Session "@ + dec(s.number as nat),
        numbered("  First sector:   "@, s.start_sector as int, 0x1_0000_0000),
        numbered("  Last sector:    "@, s.end_sector as int, 0x1_0000_0000),
        numbered("  Total sectors:  "@, s.end_sector - s.start_sector, 0x1_0000_0000_0000_0000),
    ]
}

/// The lines of a track whose data file is `data_file`: number, mode,
/// subchannels, data file (if any), start time, first byte and sector,
/// sector count and size, and its size in whole megabytes (10^6 bytes).
pub open spec fn track_info(t: TrackView, data_file: Option<Seq<char>>) -> Seq<Seq<char>> {
    seq![
        "  Track "@ + dec(t.point as nat),
        "    Mode:         "@ + mode_name(t.mode),
        "    Subchannels:  "@ + subchannels_name(t.num_subchannels),
    ] + match data_file {
        Some(f) => seq!["    Data file:    "@ + f],
        None => Seq::empty(),
    } + seq![
        "    Time offset:  "@ + time_text(t.minute, t.second, t.frame),
        numbered("    First byte:   "@, t.track_start_offset as int, 0x1_0000_0000_0000_0000),
        numbered("    First sector: "@, t.track_start_sector as int, 0x1_0000_0000),
        numbered("    Sectors:      "@, track_sectors(t), 0x1_0000_0000_0000_0000),
        numbered("    Sector size:  "@, t.sector_size as int, 0x1_0000_0000_0000_0000),
        "    Approx Size:  "@ + dec(((track_sectors(t) * t.sector_size) / 1_000_000) as nat) + "MB"@,
    ]
}

pub open spec fn string_views(s: Seq<String>) -> Seq<Seq<char>> {
    s.map_values(|x: String| x@)
}

fn numbered_line(label: &str, digits: Vec<char>, hex_value: u64) -> (r: String)
    ensures
        r@ == label@ + pad_right(digits@, 10) + "(0x"@ + hex_upper(hex_value as nat) + seq![')'],
{
    let mut v = chars_of(label);
    let mut d = digits;
    pad_with_spaces(&mut d, 10);
    append_chars(&mut v, d.as_slice());
    let t = chars_of("(0x");
    append_chars(&mut v, t.as_slice());
    let h = hexadecimal_upper(hex_value);
    append_chars(&mut v, h.as_slice());
    v.push(')');
    string_from_chars(v.as_slice())
}

fn numbered_i32(label: &str, value: i32) -> (r: String)
    ensures
        r@ == numbered(label@, value as int, 0x1_0000_0000),
{
    let h: u64 = if value < 0 {
        (value as i64 + 0x1_0000_0000) as u64
    } else {
        value as u64
    };
    numbered_line(label, signed_decimal(value as i64), h)
}

fn numbered_i64(label: &str, value: i64) -> (r: String)
    ensures
        r@ == numbered(label@, value as int, 0x1_0000_0000_0000_0000),
{
    let h: u64 = if value < 0 {
        u64::MAX - ((-(value + 1)) as u64)
    } else {
        value as u64
    };
    numbered_line(label, signed_decimal(value), h)
}

fn numbered_u64(label: &str, value: u64) -> (r: String)
    ensures
        r@ == numbered(label@, value as int, 0x1_0000_0000_0000_0000),
{
    let digits = decimal(value);
    assert(signed_dec(value as int) == dec(value as nat));
    numbered_line(label, digits, value)
}

fn labelled(label: &str, tail: &[char]) -> (r: String)
    ensures
        r@ == label@ + tail@,
{
    let mut v = chars_of(label);
    append_chars(&mut v, tail);
    string_from_chars(v.as_slice())
}

fn push_line(out: &mut Vec<String>, line: String)
    ensures
        string_views(final(out)@) == string_views(old(out)@).push(line@),
{
    out.push(line);
    assert(string_views(out@) =~= string_views(old(out)@).push(line@));
}

/// `n` and `word`, the word in the plural unless `n` is 1.
fn counted_text(n: usize, word: &str) -> (r: Vec<char>)
    ensures
        r@ == counted(n as nat, word@),
{
    let mut v = decimal(n as u64);
    v.push(' ');
    let w = chars_of(word);
    append_chars(&mut v, w.as_slice());
    if n != 1 {
        v.push('s');
    }
    assert(v@ == counted(n as nat, word@));
    v
}

proof fn lemma_total_tracks_prefix(ss: Seq<SessionView>, i: int)
    requires
        0 <= i <= ss.len(),
    ensures
        total_tracks(ss.subrange(0, i)) <= total_tracks(ss),
    decreases ss.len(),
{
    if i < ss.len() {
        assert(ss.subrange(0, i) == ss.drop_last().subrange(0, i));
        lemma_total_tracks_prefix(ss.drop_last(), i);
    } else {
        assert(ss.subrange(0, i) == ss);
    }
}

/// The summary line of an image. The number of its tracks must fit in a
/// `usize`.
pub fn image_summary(mds: &Mds) -> (r: String)
    requires
        total_tracks(mds@.sessions) <= usize::MAX,
    ensures
        r@ == summary(mds@),
{
    let sessions = mds.sessions();
    let ghost views = crate::mds::mds::session_views(sessions@);
    let mut tracks: usize = 0;
    let mut i: usize = 0;
    assert(views.subrange(0, 0) == Seq::<SessionView>::empty());
    while i < sessions.len()
        invariant
            i <= sessions@.len(),
            views == crate::mds::mds::session_views(sessions@),
            views == mds@.sessions,
            total_tracks(views) <= usize::MAX,
            tracks == total_tracks(views.subrange(0, i as int)),
        decreases sessions.len() - i,
    {
        let n = sessions[i].tracks().len();
        assert(views.subrange(0, i + 1).drop_last() == views.subrange(0, i as int));
        assert(views[i as int] == sessions@[i as int]@);
        proof {
            lemma_total_tracks_prefix(views, i + 1);
        }
        tracks = tracks + n;
        i = i + 1;
    }
    assert(views.subrange(0, views.len() as int) == views);
    let version = mds.version();
    let mut v = chars_of("MDS v");
    let d = decimal(version.major as u64);
    append_chars(&mut v, d.as_slice());
    v.push('.');
    let d = decimal(version.minor as u64);
    append_chars(&mut v, d.as_slice());
    let t = chars_of(" | ");
    append_chars(&mut v, t.as_slice());
    let t = chars_of(media_type_name(mds.media_type()));
    append_chars(&mut v, t.as_slice());
    let t = chars_of(", ");
    append_chars(&mut v, t.as_slice());
    let d = decimal(mds.byte_len() as u64);
    append_chars(&mut v, d.as_slice());
    let t = chars_of(" bytes, ");
    append_chars(&mut v, t.as_slice());
    let c = counted_text(sessions.len(), "session");
    append_chars(&mut v, c.as_slice());
    let t = chars_of(", ");
    append_chars(&mut v, t.as_slice());
    let c = counted_text(tracks, "track");
    append_chars(&mut v, c.as_slice());
    string_from_chars(v.as_slice())
}

/// The lines of a session.
pub fn session_info_lines(session: &Session) -> (r: Vec<String>)
    ensures
        string_views(r@) == session_info(session@),
{
    let mut out: Vec<String> = Vec::new();
    let d = decimal(session.number() as u64);
    push_line(&mut out, labelled("Session ", d.as_slice()));
    push_line(&mut out, numbered_i32("  First sector:   ", session.start_sector()));
    push_line(&mut out, numbered_i32("  Last sector:    ", session.end_sector()));
    push_line(&mut out, numbered_i64("  Total sectors:  ", session.num_sectors()));
    assert(string_views(out@) == session_info(session@));
    out
}

/// The lines of a track whose data file is `data_file`.
pub fn track_info_lines(track: &Track, data_file: Option<&str>) -> (r: Vec<String>)
    ensures
        string_views(r@) == track_info(
            track@,
            match data_file {
                Some(f) => Some(f@),
                None => None,
            },
        ),
{
    let mut out: Vec<String> = Vec::new();
    let d = decimal(track.number() as u64);
    push_line(&mut out, labelled("  Track ", d.as_slice()));
    let t = chars_of(track.mode().name());
    push_line(&mut out, labelled("    Mode:         ", t.as_slice()));
    let sub = match track.subchannels() {
        SubChannels::Zero => "None",
        SubChannels::Eight => "Eight",
    };
    let t = chars_of(sub);
    push_line(&mut out, labelled("    Subchannels:  ", t.as_slice()));
    let ghost head = string_views(out@);
    match data_file {
        Some(f) => {
            let t = chars_of(f);
            push_line(&mut out, labelled("    Data file:    ", t.as_slice()));
        },
        None => {},
    }
    let ghost with_file = string_views(out@);
    let t = chars_of(track.time_str().as_str());
    push_line(&mut out, labelled("    Time offset:  ", t.as_slice()));
    push_line(&mut out, numbered_u64("    First byte:   ", track.start_offset()));
    push_line(&mut out, numbered_i32("    First sector: ", track.start_sector()));
    let sectors = track.num_sectors();
    push_line(&mut out, numbered_u64("    Sectors:      ", sectors as u64));
    let size = track.sector_size();
    push_line(&mut out, numbered_u64("    Sector size:  ", size as u64));
    assert(sectors * size <= 0xFFFF_FFFF * 0xFFFF) by (nonlinear_arith)
        requires
            sectors <= 0xFFFF_FFFF,
            size <= 0xFFFF,
    ;
    let mb = (sectors as u64 * size as u64) / 1_000_000;
    let mut v = decimal(mb);
    let t = chars_of("MB");
    append_chars(&mut v, t.as_slice());
    push_line(&mut out, labelled("    Approx Size:  ", v.as_slice()));
    let ghost df = match data_file {
        Some(f) => Some(f@),
        None => None,
    };
    let ghost t = track@;
    let ghost a = seq![
        "  Track "@ + dec(t.point as nat),
        "    Mode:         "@ + mode_name(t.mode),
        "    Subchannels:  "@ + subchannels_name(t.num_subchannels),
    ];
    let ghost b = match df {
        Some(f) => seq!["    Data file:    "@ + f],
        None => Seq::<Seq<char>>::empty(),
    };
    assert(head =~= a);
    assert(with_file =~= a + b);
    let ghost c = seq![
        "    Time offset:  "@ + time_text(t.minute, t.second, t.frame),
        numbered("    First byte:   "@, t.track_start_offset as int, 0x1_0000_0000_0000_0000),
        numbered("    First sector: "@, t.track_start_sector as int, 0x1_0000_0000),
        numbered("    Sectors:      "@, track_sectors(t), 0x1_0000_0000_0000_0000),
        numbered("    Sector size:  "@, t.sector_size as int, 0x1_0000_0000_0000_0000),
        "    Approx Size:  "@ + dec(((track_sectors(t) * t.sector_size) / 1_000_000) as nat) + "MB"@,
    ];
    let ghost n: int = with_file.len() as int;
    assert(string_views(out@).len() == n + 6);
    assert(string_views(out@)[n + 0] == c[0]);
    assert(string_views(out@)[n + 1] == c[1]);
    assert(string_views(out@)[n + 2] == c[2]);
    assert(string_views(out@)[n + 3] == c[3]);
    assert(string_views(out@)[n + 4] == c[4]);
    assert(string_views(out@)[n + 5] == c[5]);
    assert(string_views(out@) =~= with_file + c);
    assert(track_info(t, df) == a + b + c);
    out
}

} // verus!
