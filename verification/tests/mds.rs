use mds::cue::{cue_sheet, cue_track_type};
use mds::error::Error;
use mds::info::{image_summary, session_info_lines, track_info_lines};
use mds::mds::{DataFile, MediaType, Mds, SubChannels, TrackMode};

fn header(sessions: u16, session_offset: u32) -> Vec<u8> {
    let mut b = vec![0u8; 0x58];
    b[..16].copy_from_slice(b"MEDIA DESCRIPTOR");
    b[16] = 1;
    b[17] = 3;
    b[20..22].copy_from_slice(&sessions.to_le_bytes());
    b[0x50..0x54].copy_from_slice(&session_offset.to_le_bytes());
    b
}

fn session(b: &mut Vec<u8>, start: i32, end: i32, blocks: u8, tracks_offset: u32) {
    let mut s = vec![0u8; 0x18];
    s[0..4].copy_from_slice(&start.to_le_bytes());
    s[4..8].copy_from_slice(&end.to_le_bytes());
    s[8] = 1;
    s[10] = blocks;
    s[12] = 1;
    s[14] = 2;
    s[20..24].copy_from_slice(&tracks_offset.to_le_bytes());
    b.extend_from_slice(&s);
}

#[allow(clippy::too_many_arguments)]
fn track(
    b: &mut Vec<u8>,
    mode: u8,
    subch: u8,
    point: u8,
    msf: (u8, u8, u8),
    index_offset: u32,
    sector_size: u16,
    start_sector: i32,
    start_offset: u64,
    filename_offset: u32,
) {
    let mut t = vec![0u8; 0x50];
    t[0] = mode;
    t[1] = subch;
    t[2] = 0x14;
    t[4] = point;
    t[9] = msf.0;
    t[10] = msf.1;
    t[11] = msf.2;
    t[12..16].copy_from_slice(&index_offset.to_le_bytes());
    t[16..18].copy_from_slice(&sector_size.to_le_bytes());
    t[36..40].copy_from_slice(&start_sector.to_le_bytes());
    t[40..48].copy_from_slice(&start_offset.to_le_bytes());
    t[48..52].copy_from_slice(&1u32.to_le_bytes());
    t[52..56].copy_from_slice(&filename_offset.to_le_bytes());
    b.extend_from_slice(&t);
}

/// The two-track disc of the README: a Mode2 data track and an audio track,
/// both 2448-byte sectors with subchannels, data file `*.mdf`.
fn two_track_disc() -> Vec<u8> {
    let mut b = header(1, 0x58);
    session(&mut b, -150, 294066, 2, 0x70);
    // track blocks at 0x70 and 0xC0; index blocks at 0x110, 0x118;
    // filename block at 0x120, name at 0x130.
    track(&mut b, 0xAB, 0x08, 1, (0, 2, 0), 0x110, 2448, 0, 0, 0x120);
    track(&mut b, 0xA9, 0x08, 2, (61, 52, 66), 0x118, 2448, 278316, 680950368, 0x120);
    b.extend_from_slice(&0u32.to_le_bytes());
    b.extend_from_slice(&278166u32.to_le_bytes());
    b.extend_from_slice(&150u32.to_le_bytes());
    b.extend_from_slice(&15750u32.to_le_bytes());
    let mut fb = vec![0u8; 16];
    fb[0..4].copy_from_slice(&0x130u32.to_le_bytes());
    b.extend_from_slice(&fb);
    b.extend_from_slice(b"*.mdf\0");
    b
}

#[test]
fn reads_the_readme_disc() {
    let bytes = two_track_disc();
    let mds = Mds::from_bytes(&bytes).unwrap();
    assert_eq!(mds.version().major, 1);
    assert_eq!(mds.version().minor, 3);
    assert_eq!(mds.media_type(), MediaType::CdRom);
    assert_eq!(mds.byte_len(), bytes.len());
    assert_eq!(mds.sessions().len(), 1);
    let s = mds.single_session().unwrap();
    assert_eq!(s.start_sector, -150);
    assert_eq!(s.end_sector, 294066);
    assert_eq!(s.num_sectors(), 294216);
    let tracks = s.tracks();
    assert_eq!(tracks.len(), 2);
    assert_eq!(tracks[0].number(), 1);
    assert_eq!(tracks[0].mode, TrackMode::Mode2);
    assert_eq!(tracks[0].num_subchannels, SubChannels::Eight);
    assert_eq!(tracks[0].time_str(), "00:02.000");
    assert_eq!(tracks[0].num_sectors(), 278166);
    assert_eq!(tracks[0].sector_size(), 2448);
    assert_eq!(tracks[0].sector_subchannel_size(), 0x60);
    assert_eq!(tracks[0].sector_data_size(), 2352);
    assert_eq!(tracks[1].mode, TrackMode::Audio);
    assert_eq!(tracks[1].number(), 2);
    assert_eq!(tracks[1].time_str(), "61:52.916");
    assert_eq!(tracks[1].track_start_offset, 680950368);
    assert_eq!(tracks[1].track_start_sector, 278316);
    assert_eq!(tracks[1].num_sectors(), 15750);

    let data = mds.single_track().unwrap();
    assert_eq!(data.number(), 1);
    assert_eq!(s.data_tracks().len(), 1);
}

#[test]
fn data_filename_follows_the_mds_file() {
    let bytes = two_track_disc();
    let mds = Mds::from_bytes(&bytes).unwrap();
    let t = mds.single_track().unwrap();
    assert_eq!(
        t.data_filename("/home/sam/my_file.mds"),
        Some("/home/sam/my_file.mdf".to_string())
    );
    assert!(matches!(t.data_file_choice(), Some(DataFile::SameStemMdf)));
}

#[test]
fn sixteen_bit_names_are_decoded() {
    let mut b = header(1, 0x58);
    session(&mut b, 0, 10, 1, 0x70);
    track(&mut b, 0xAA, 0x00, 1, (0, 2, 0), 0, 2048, 0, 0, 0xC0);
    // filename block at 0xC0: name at 0xD0, 16-bit.
    let mut fb = vec![0u8; 16];
    fb[0..4].copy_from_slice(&0xD0u32.to_le_bytes());
    fb[4] = 1;
    b.extend_from_slice(&fb);
    for u in "disc.bin".encode_utf16() {
        b.extend_from_slice(&u.to_le_bytes());
    }
    b.extend_from_slice(&[0, 0]);
    let mds = Mds::from_bytes(&b).unwrap();
    let t = mds.single_track().unwrap();
    assert_eq!(t.num_sectors(), 0);
    assert_eq!(t.data_filename("/x/y.mds"), Some("/x/disc.bin".to_string()));
    assert!(matches!(t.data_file_choice(), Some(DataFile::Named(n)) if n == "disc.bin"));
    assert_eq!(t.data_filename("d/x.mds"), Some("d/disc.bin".to_string()));
    assert_eq!(t.data_filename("x.mds"), Some("disc.bin".to_string()));
    assert_eq!(t.sector_data_size(), 2048);

    // Without a terminating zero unit the name cannot be read.
    let cut = b.len() - 2;
    assert!(matches!(Mds::from_bytes(&b[..cut]), Err(Error::ParseError)));
}

#[test]
fn malformed_files_are_parse_errors() {
    // Wrong signature.
    let mut b = two_track_disc();
    b[0] = b'X';
    assert!(matches!(Mds::from_bytes(&b), Err(Error::ParseError)));
    // Unknown media type.
    let mut b = two_track_disc();
    b[18] = 0x33;
    assert!(matches!(Mds::from_bytes(&b), Err(Error::ParseError)));
    // Unknown track mode.
    let mut b = two_track_disc();
    b[0x70] = 0x42;
    assert!(matches!(Mds::from_bytes(&b), Err(Error::ParseError)));
    // Unknown subchannel flag.
    let mut b = two_track_disc();
    b[0x71] = 0x04;
    assert!(matches!(Mds::from_bytes(&b), Err(Error::ParseError)));
    // Truncated header.
    assert!(matches!(Mds::from_bytes(&two_track_disc()[..40]), Err(Error::ParseError)));
    // Truncated track block.
    assert!(matches!(Mds::from_bytes(&two_track_disc()[..0x100]), Err(Error::ParseError)));
}

#[test]
fn offsets_past_the_end_are_detected() {
    // A track table past the end of the file.
    let mut b = two_track_disc();
    b[0x58 + 20..0x58 + 24].copy_from_slice(&0x10000u32.to_le_bytes());
    assert!(Mds::from_bytes_checked(&b).is_none());
    // An index block past the end of the file.
    let mut b = two_track_disc();
    b[0x70 + 12..0x70 + 16].copy_from_slice(&0x10000u32.to_le_bytes());
    assert!(Mds::from_bytes_checked(&b).is_none());
    // A filename block past the end is a parse error.
    let mut b = two_track_disc();
    b[0x70 + 52..0x70 + 56].copy_from_slice(&0x10000u32.to_le_bytes());
    assert!(matches!(Mds::from_bytes_checked(&b), Some(Err(Error::ParseError))));
    // An ordinary file parses.
    assert!(matches!(Mds::from_bytes_checked(&two_track_disc()), Some(Ok(_))));
}

#[test]
fn single_track_needs_one_session_and_one_data_track() {
    // No sessions.
    let b = header(0, 0x58);
    let mds = Mds::from_bytes(&b).unwrap();
    assert!(matches!(mds.single_session(), Err(Error::NoSessions)));
    assert!(matches!(mds.single_track(), Err(Error::NoSessions)));
    // Two sessions.
    let mut b = header(2, 0x58);
    session(&mut b, 0, 10, 0, 0);
    session(&mut b, 20, 30, 0, 0);
    let mds = Mds::from_bytes(&b).unwrap();
    assert!(matches!(mds.single_track(), Err(Error::TooManySessions)));
    // Two data tracks, plus a lead-in block (point 0xA0) that is no track.
    let mut b = header(1, 0x58);
    session(&mut b, 0, 10, 3, 0x70);
    track(&mut b, 0xAA, 0, 0xA0, (1, 0, 0), 0, 2048, 0, 0, 0);
    track(&mut b, 0xAA, 0, 1, (0, 2, 0), 0, 2048, 0, 0, 0);
    track(&mut b, 0xAC, 0, 2, (0, 4, 0), 0, 2048, 0, 0, 0);
    let mds = Mds::from_bytes(&b).unwrap();
    let s = mds.single_session().unwrap();
    assert_eq!(s.tracks().len(), 2);
    assert!(matches!(mds.single_track(), Err(Error::MultiTrackNotSupported)));
}

#[test]
fn error_messages() {
    assert_eq!(
        Error::UnknownIsoTrackSize(TrackMode::Mode2Form2, 0x914).message(),
        "Cannot convert track type to ISO: Mode2Form2 @ 2324"
    );
    assert_eq!(
        Error::UnknownCueTrackSize(TrackMode::Blank, 2048).message(),
        "Unusual track type: None @ 2048"
    );
    assert_eq!(Error::ParseError.message(), "Error parsing mds file");
    assert_eq!(Error::Iso9660("x".to_string()).message(), "ISO9660: x");
    assert_eq!(
        Error::PathEscape("..".to_string()).message(),
        "Refusing to write file with unsafe path component: '..'"
    );
    assert_eq!(
        Error::OutputExists("out".to_string()).message(),
        "Output directory 'out' is not empty (pass --force to overwrite)"
    );
    assert_eq!(Error::NoSessions.message(), "There are no sessions in the image");
    assert_eq!(Error::TooManySessions.message(), "Cannot convert multi-session images");
    assert_eq!(Error::NoDataTracks.message(), "There are no data tracks in this mdf");
    assert_eq!(
        Error::MultiTrackNotSupported.message(),
        "Multi-track discs are not yet supported"
    );
    assert_eq!(
        Error::MissingInputFile.message(),
        "No input file provided to read data from"
    );
}

#[test]
fn time_str_pads_and_scales_frames() {
    let mut b = header(1, 0x58);
    session(&mut b, 0, 10, 1, 0x70);
    track(&mut b, 0xAA, 0, 1, (123, 5, 71), 0, 2048, 0, 0, 0);
    let mds = Mds::from_bytes(&b).unwrap();
    let t = mds.single_track().unwrap();
    // 71 frames of 1/72 s: 986 ms.
    assert_eq!(t.time_str(), "123:05.986");
    assert_eq!(t.data_filename("a.mds"), None);
}

#[test]
fn cue_sheet_of_the_readme_disc() {
    let image = two_track_disc();
    let mds = Mds::from_bytes(&image).unwrap();
    let session = mds.single_session().unwrap();
    let tracks = session.tracks();
    let lines = cue_sheet("my_file.bin", &tracks).unwrap();
    assert_eq!(
        lines,
        vec![
            "FILE \"my_file.bin\" BINARY".to_string(),
            "  TRACK 01 MODE2/2352".to_string(),
            "    INDEX 01 00:00:00".to_string(),
            "  TRACK 02 AUDIO".to_string(),
            "    INDEX 00 61:48:66".to_string(),
            "    INDEX 01 61:50:66".to_string(),
        ]
    );
}

#[test]
fn cue_track_types_follow_the_main_data_size() {
    assert_eq!(cue_track_type(TrackMode::Audio, 2352).unwrap(), "AUDIO");
    assert_eq!(cue_track_type(TrackMode::Mode1, 2048).unwrap(), "MODE1/2048");
    assert_eq!(cue_track_type(TrackMode::Mode1, 2352).unwrap(), "MODE1/2352");
    assert_eq!(cue_track_type(TrackMode::Mode2Form2, 2336).unwrap(), "MODE2/2336");
    assert_eq!(cue_track_type(TrackMode::Mode2Form1, 2352).unwrap(), "MODE2/2352");
    assert!(matches!(
        cue_track_type(TrackMode::Audio, 2048),
        Err(Error::UnknownCueTrackSize(TrackMode::Audio, 2048))
    ));
}

#[test]
fn info_text_of_the_readme_disc() {
    let image = two_track_disc();
    let mds = Mds::from_bytes(&image).unwrap();
    assert_eq!(
        image_summary(&mds),
        format!("MDS v1.3 | CD-ROM, {} bytes, 1 session, 2 tracks", image.len())
    );
    let session = &mds.sessions()[0];
    assert_eq!(
        session_info_lines(session),
        vec![
            "Session 1".to_string(),
            "  First sector:   -150      (0xFFFFFF6A)".to_string(),
            "  Last sector:    294066    (0x47CB2)".to_string(),
            "  Total sectors:  294216    (0x47D48)".to_string(),
        ]
    );
    let tracks = session.tracks();
    assert_eq!(
        track_info_lines(tracks[0], Some("/home/sam/my_file.mdf")),
        vec![
            "  Track 1".to_string(),
            "    Mode:         Mode2".to_string(),
            "    Subchannels:  Eight".to_string(),
            "    Data file:    /home/sam/my_file.mdf".to_string(),
            "    Time offset:  00:02.000".to_string(),
            "    First byte:   0         (0x0)".to_string(),
            "    First sector: 0         (0x0)".to_string(),
            "    Sectors:      278166    (0x43E96)".to_string(),
            "    Sector size:  2448      (0x990)".to_string(),
            "    Approx Size:  680MB".to_string(),
        ]
    );
    assert_eq!(
        track_info_lines(tracks[1], None),
        vec![
            "  Track 2".to_string(),
            "    Mode:         Audio".to_string(),
            "    Subchannels:  Eight".to_string(),
            "    Time offset:  61:52.916".to_string(),
            "    First byte:   680950368 (0x28967A60)".to_string(),
            "    First sector: 278316    (0x43F2C)".to_string(),
            "    Sectors:      15750     (0x3D86)".to_string(),
            "    Sector size:  2448      (0x990)".to_string(),
            "    Approx Size:  38MB".to_string(),
        ]
    );
}

#[test]
fn info_counts_are_plural_unless_one() {
    let mut b = header(2, 0x58);
    session(&mut b, 0, 10, 0, 0x88);
    session(&mut b, 11, 20, 0, 0x88);
    let mds = Mds::from_bytes(&b).unwrap();
    assert_eq!(
        image_summary(&mds),
        format!("MDS v1.3 | CD-ROM, {} bytes, 2 sessions, 0 tracks", b.len())
    );
}
