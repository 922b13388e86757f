use mds::cooked::COOKED_SECTOR_SIZE;
use mds::error::Error;
use mds::iso9660::{
    copy_file, decode_name, parse_both_endian_u32, parse_primary, parse_supplementary,
    read_directory, read_tree, read_tree_from, EntryKind, NameEncoding, VolDesc, MAX_DIRECTORY_BYTES,
};
use mds::extract::{extract, ExtractOptions, ExtractStep, Extraction};
use mds::mds::{Mds, TrackMode};
use mds::source::MemorySource;
use std::collections::HashSet;

#[test]
fn read_directory_rejects_oversized_extent() {
    // Any reader: the call does not get far enough to read.
    let mut cursor = MemorySource::new(vec![0u8; 4096]);
    let mut visited = HashSet::new();
    let err = read_directory(
        &mut cursor,
        18,
        MAX_DIRECTORY_BYTES + 1,
        NameEncoding::Primary,
        &mut visited,
        0,
    )
    .unwrap_err();
    assert!(matches!(err, Error::Iso9660(_)));
}

#[test]
fn parse_both_endian_u32_matches() {
    let mut buf = [0u8; 8];
    buf[..4].copy_from_slice(&12345u32.to_le_bytes());
    buf[4..].copy_from_slice(&12345u32.to_be_bytes());
    assert_eq!(parse_both_endian_u32(&buf, "test").unwrap(), 12345);
}

#[test]
fn parse_both_endian_u32_rejects_disagreement() {
    let mut buf = [0u8; 8];
    buf[..4].copy_from_slice(&12345u32.to_le_bytes());
    buf[4..].copy_from_slice(&99999u32.to_be_bytes());
    assert!(parse_both_endian_u32(&buf, "test").is_err());
}

#[test]
fn both_endian_messages_name_the_field() {
    let mut buf = [0u8; 8];
    buf[..4].copy_from_slice(&12345u32.to_le_bytes());
    buf[4..].copy_from_slice(&99999u32.to_be_bytes());
    match parse_both_endian_u32(&buf, "root LBA") {
        Err(Error::Iso9660(msg)) => {
            assert_eq!(msg, "root LBA: both-endian halves disagree (12345 LE vs 99999 BE)")
        }
        other => panic!("unexpected {other:?}"),
    }
    match parse_both_endian_u32(&buf[..7], "size") {
        Err(Error::Iso9660(msg)) => assert_eq!(msg, "size: both-endian field truncated"),
        other => panic!("unexpected {other:?}"),
    }
}

#[test]
fn both_endian_roundtrip_values() {
    for v in [0u32, 1, 255, 256, 0x1234_5678, u32::MAX] {
        let mut buf = [0u8; 8];
        buf[..4].copy_from_slice(&v.to_le_bytes());
        buf[4..].copy_from_slice(&v.to_be_bytes());
        assert_eq!(parse_both_endian_u32(&buf, "v").unwrap(), v);
    }
}

#[test]
fn read_directory_rejects_records_crossing_sector_boundary() {
    // Walk pos near the end of the first 2048-byte sector via 8 chained
    // records of length 255 (LEN_FI=0, plain files), then place a bogus
    // 40-byte record at pos=2040 whose length would extend into the next
    // sector. Use a 2-sector extent so the overflow vs. boundary checks are
    // distinguishable.
    let mut buf = vec![0u8; 2 * COOKED_SECTOR_SIZE];
    let mut p = 0usize;
    for _ in 0..8 {
        buf[p] = 255; // LEN_DR; LEN_FI defaults to 0, flags = 0
        p += 255;
    }
    // pos is now 2040; place the boundary-crossing record here.
    buf[p] = 40; // 2040 + 40 = 2080 > 2048

    // Image: 18 zero sectors then our crafted directory at LBA 18.
    let mut img = vec![0u8; 20 * COOKED_SECTOR_SIZE];
    img[18 * COOKED_SECTOR_SIZE..18 * COOKED_SECTOR_SIZE + buf.len()].copy_from_slice(&buf);
    let mut cursor = MemorySource::new(img);

    let mut visited = HashSet::new();
    let err = read_directory(
        &mut cursor,
        18,
        (2 * COOKED_SECTOR_SIZE) as u32,
        NameEncoding::Primary,
        &mut visited,
        0,
    )
    .unwrap_err();
    match err {
        Error::Iso9660(msg) => assert!(msg.contains("sector boundary"), "got: {msg}"),
        _ => panic!("expected Iso9660 error, got {err:?}"),
    }
}

#[test]
fn read_directory_rejects_ancestor_cycle() {
    let mut cursor = MemorySource::new(vec![0u8; 4096]);
    let mut ancestors = HashSet::new();
    ancestors.insert(18); // pretend LBA 18 is on the current path
    let err = read_directory(
        &mut cursor,
        18,
        2048,
        NameEncoding::Primary,
        &mut ancestors,
        1,
    )
    .unwrap_err();
    assert!(matches!(err, Error::Iso9660(_)));
}

#[test]
fn read_directory_ancestors_set_is_popped_on_return() {
    // After read_directory returns, its own LBA must not remain in the
    // ancestors set.
    let mut cursor = MemorySource::new(vec![0u8; 4 * COOKED_SECTOR_SIZE]);
    let mut ancestors = HashSet::new();
    // Empty dir extent (all zeroes) so the body returns with no entries.
    let _ = read_directory(
        &mut cursor,
        1,
        COOKED_SECTOR_SIZE as u32,
        NameEncoding::Primary,
        &mut ancestors,
        0,
    )
    .unwrap();
    assert!(ancestors.is_empty(), "ancestors set should be empty after return");
}

#[test]
fn read_directory_limits_depth_and_reports_truncation() {
    let mut cursor = MemorySource::new(vec![0u8; 4 * COOKED_SECTOR_SIZE]);
    let mut ancestors = HashSet::new();
    match read_directory(&mut cursor, 1, 2048, NameEncoding::Primary, &mut ancestors, 65) {
        Err(Error::Iso9660(msg)) => assert_eq!(msg, "Directory nesting deeper than 64 levels"),
        other => panic!("unexpected {other:?}"),
    }
    // An extent past the end of the image cannot be read.
    assert!(matches!(
        read_directory(&mut cursor, 3, 4096, NameEncoding::Primary, &mut ancestors, 0),
        Err(Error::Io(_))
    ));
    match read_directory(&mut cursor, 7, MAX_DIRECTORY_BYTES + 1, NameEncoding::Primary, &mut ancestors, 0) {
        Err(Error::Iso9660(msg)) => assert_eq!(
            msg,
            "Directory extent at LBA 7 declares 16777217 bytes, exceeds 16777216-byte cap"
        ),
        other => panic!("unexpected {other:?}"),
    }
    assert!(ancestors.is_empty());
}

#[test]
fn decode_primary_strips_version_and_dot() {
    let raw = b"README.TXT;1";
    assert_eq!(decode_name(raw, NameEncoding::Primary, false), "README.TXT");

    let raw = b"FOO.;1";
    assert_eq!(decode_name(raw, NameEncoding::Primary, false), "FOO");

    let raw = b"BAR";
    assert_eq!(decode_name(raw, NameEncoding::Primary, true), "BAR");
}

#[test]
fn decode_names_keep_directory_suffixes_and_latin1() {
    assert_eq!(decode_name(b"DIR.;1", NameEncoding::Primary, true), "DIR.;1");
    assert_eq!(decode_name(b"A;B;2", NameEncoding::Primary, false), "A;B");
    assert_eq!(decode_name(&[0x43, 0xE9], NameEncoding::Primary, false), "C\u{e9}");
    // An unpaired surrogate decodes to U+FFFD.
    assert_eq!(decode_name(&[0xD8, 0x00, 0x00, 0x41], NameEncoding::Joliet, true), "\u{fffd}A");
    // A surrogate pair decodes to one character.
    assert_eq!(decode_name(&[0xD8, 0x3D, 0xDE, 0x00], NameEncoding::Joliet, true), "\u{1F600}");
}

#[test]
fn decode_joliet_ucs2be() {
    // "AB;1" in UCS-2BE.
    let raw: Vec<u8> = "AB;1"
        .encode_utf16()
        .flat_map(|u| u.to_be_bytes())
        .collect();
    assert_eq!(decode_name(&raw, NameEncoding::Joliet, false), "AB");
}

fn put_both(s: &mut [u8], at: usize, v: u32) {
    s[at..at + 4].copy_from_slice(&v.to_le_bytes());
    s[at + 4..at + 8].copy_from_slice(&v.to_be_bytes());
}

/// Writes a directory record at `p` and returns its length.
fn put_record(s: &mut [u8], p: usize, lba: u32, size: u32, flags: u8, id: &[u8]) -> usize {
    let len_dr = 33 + id.len() + if (33 + id.len()) % 2 != 0 { 1 } else { 0 };
    s[p] = len_dr as u8;
    put_both(s, p + 2, lba);
    put_both(s, p + 10, size);
    s[p + 25] = flags;
    s[p + 32] = id.len() as u8;
    s[p + 33..p + 33 + id.len()].copy_from_slice(id);
    len_dr
}

/// Build a synthetic, minimal ISO9660 image with one top-level file. The
/// layout is:
///   LBA 16: PVD pointing at root dir at LBA 18, size 2048
///   LBA 17: VDST (volume descriptor set terminator)
///   LBA 18: root directory data: ".", "..", and one file "README.TXT;1"
///           located at LBA 19, with `payload.len()` bytes
///   LBA 19: payload, padded to a sector
fn make_synthetic_iso(payload: &[u8]) -> Vec<u8> {
    let mut image = vec![0u8; 20 * COOKED_SECTOR_SIZE];

    // ---- PVD at LBA 16 ----
    {
        let s = &mut image[16 * COOKED_SECTOR_SIZE..17 * COOKED_SECTOR_SIZE];
        s[0] = 0x01;
        s[1..6].copy_from_slice(b"CD001");
        // Root directory record at offset 156 (LEN_DR = 34).
        s[156] = 34;
        s[158..162].copy_from_slice(&18u32.to_le_bytes());
        s[162..166].copy_from_slice(&18u32.to_be_bytes());
        s[166..170].copy_from_slice(&2048u32.to_le_bytes());
        s[170..174].copy_from_slice(&2048u32.to_be_bytes());
        s[181] = 0x02;
        s[188] = 1;
        s[189] = 0x00;
    }

    // ---- VDST at LBA 17 ----
    {
        let s = &mut image[17 * COOKED_SECTOR_SIZE..18 * COOKED_SECTOR_SIZE];
        s[0] = 0xFF;
        s[1..6].copy_from_slice(b"CD001");
    }

    // ---- Root directory at LBA 18 ----
    {
        let s = &mut image[18 * COOKED_SECTOR_SIZE..19 * COOKED_SECTOR_SIZE];
        let mut p = 0usize;

        // "." entry: LEN_DR=34, file id length=1, id=0x00
        s[p] = 34;
        s[p + 2..p + 6].copy_from_slice(&18u32.to_le_bytes());
        s[p + 6..p + 10].copy_from_slice(&18u32.to_be_bytes());
        s[p + 10..p + 14].copy_from_slice(&2048u32.to_le_bytes());
        s[p + 14..p + 18].copy_from_slice(&2048u32.to_be_bytes());
        s[p + 25] = 0x02;
        s[p + 32] = 1;
        s[p + 33] = 0x00;
        p += 34;

        // ".." entry: LEN_DR=34, file id length=1, id=0x01
        s[p] = 34;
        s[p + 2..p + 6].copy_from_slice(&18u32.to_le_bytes());
        s[p + 6..p + 10].copy_from_slice(&18u32.to_be_bytes());
        s[p + 10..p + 14].copy_from_slice(&2048u32.to_le_bytes());
        s[p + 14..p + 18].copy_from_slice(&2048u32.to_be_bytes());
        s[p + 25] = 0x02;
        s[p + 32] = 1;
        s[p + 33] = 0x01;
        p += 34;

        // "README.TXT;1" entry. File identifier is 12 chars.
        let id = b"README.TXT;1";
        let len_fi = id.len();
        // len_dr = 33 + len_fi, rounded up to even.
        let len_dr = 33 + len_fi + if (33 + len_fi) % 2 != 0 { 1 } else { 0 };
        s[p] = len_dr as u8;
        s[p + 2..p + 6].copy_from_slice(&19u32.to_le_bytes());
        s[p + 6..p + 10].copy_from_slice(&19u32.to_be_bytes());
        s[p + 10..p + 14].copy_from_slice(&(payload.len() as u32).to_le_bytes());
        s[p + 14..p + 18].copy_from_slice(&(payload.len() as u32).to_be_bytes());
        // flags = 0 (regular file)
        s[p + 32] = len_fi as u8;
        s[p + 33..p + 33 + len_fi].copy_from_slice(id);
    }

    // ---- File payload at LBA 19 ----
    {
        let s = &mut image[19 * COOKED_SECTOR_SIZE..20 * COOKED_SECTOR_SIZE];
        s[..payload.len()].copy_from_slice(payload);
    }

    image
}

#[test]
fn end_to_end_read_tree_and_copy_file() {
    let payload = b"Hello from the ISO9660 reader.";
    let image = make_synthetic_iso(payload);
    let mut cursor = MemorySource::new(image);

    let tree = read_tree(&mut cursor).unwrap();
    assert_eq!(tree.len(), 1, "expected exactly one top-level entry");
    assert_eq!(tree[0].name, "README.TXT");

    let (lba, size) = match &tree[0].kind {
        EntryKind::File { lba, size } => (*lba, *size),
        _ => panic!("expected a file"),
    };
    assert_eq!(size as usize, payload.len());

    let mut out = Vec::new();
    copy_file(&mut cursor, &mut out, lba, size).unwrap();
    assert_eq!(out, payload);
}

#[test]
fn copy_file_spans_sectors_and_refuses_short_images() {
    let mut image = vec![0u8; 6 * COOKED_SECTOR_SIZE];
    for (i, b) in image.iter_mut().enumerate() {
        *b = (i % 251) as u8;
    }
    let mut src = MemorySource::new(image.clone());
    let mut out = vec![7u8];
    copy_file(&mut src, &mut out, 2, 5000).unwrap();
    assert_eq!(out[0], 7);
    assert_eq!(&out[1..], &image[2 * COOKED_SECTOR_SIZE..2 * COOKED_SECTOR_SIZE + 5000]);
    let mut out2: Vec<u8> = Vec::new();
    assert!(matches!(copy_file(&mut src, &mut out2, 5, 4096),
        Err(Error::Io(e)) if e.kind() == std::io::ErrorKind::UnexpectedEof));
    // The one whole chunk available was written before the short read.
    assert_eq!(out2, &image[5 * COOKED_SECTOR_SIZE..6 * COOKED_SECTOR_SIZE]);
    let mut out3: Vec<u8> = Vec::new();
    copy_file(&mut src, &mut out3, 100, 0).unwrap();
    assert!(out3.is_empty());
}

#[test]
fn joliet_escape_sequence_detected() {
    let mut sector = vec![0u8; COOKED_SECTOR_SIZE];
    sector[0] = 0x02; // SVD type
    sector[1..6].copy_from_slice(b"CD001");
    // Joliet level 1 escape: 25 2F 40
    sector[88] = 0x25;
    sector[89] = 0x2F;
    sector[90] = 0x40;
    // Minimal root record at offset 156: LEN_DR=34, LBA=20, size=2048.
    sector[156] = 34;
    sector[158..162].copy_from_slice(&20u32.to_le_bytes());
    sector[162..166].copy_from_slice(&20u32.to_be_bytes());
    sector[166..170].copy_from_slice(&2048u32.to_le_bytes());
    sector[170..174].copy_from_slice(&2048u32.to_be_bytes());
    let vd = parse_supplementary(&sector).unwrap();
    match vd {
        VolDesc::Supplementary {
            joliet,
            root_lba,
            root_size,
        } => {
            assert!(joliet);
            assert_eq!(root_lba, 20);
            assert_eq!(root_size, 2048);
        }
        _ => panic!("expected Supplementary"),
    }
}

#[test]
fn joliet_escape_must_open_the_field() {
    let mut sector = vec![0u8; COOKED_SECTOR_SIZE];
    // `%/E` later in the escape field is not a Joliet marker.
    sector[91] = 0x25;
    sector[92] = 0x2F;
    sector[93] = 0x45;
    put_both(&mut sector, 158, 20);
    put_both(&mut sector, 166, 2048);
    match parse_supplementary(&sector).unwrap() {
        VolDesc::Supplementary { joliet, .. } => assert!(!joliet),
        _ => panic!("expected Supplementary"),
    }
    match parse_primary(&sector).unwrap() {
        VolDesc::Primary { root_lba, root_size } => assert_eq!((root_lba, root_size), (20, 2048)),
        _ => panic!("expected Primary"),
    }
    put_both(&mut sector, 166, 4096);
    sector[170] = 9;
    assert!(matches!(parse_primary(&sector), Err(Error::Iso9660(_))));
}

/// An image with a primary tree (root at 20) and a Joliet tree (root at 21):
/// the Joliet root holds a directory `Sub` (at 22) holding `café.txt;1`.
fn make_joliet_iso() -> Vec<u8> {
    let mut image = vec![0u8; 24 * COOKED_SECTOR_SIZE];
    let sec = |n: usize| n * COOKED_SECTOR_SIZE;
    {
        let s = &mut image[sec(16)..sec(17)];
        s[0] = 0x01;
        s[1..6].copy_from_slice(b"CD001");
        put_both(s, 158, 20);
        put_both(s, 166, 2048);
    }
    {
        let s = &mut image[sec(17)..sec(18)];
        s[0] = 0x02;
        s[1..6].copy_from_slice(b"CD001");
        s[88] = 0x25;
        s[89] = 0x2F;
        s[90] = 0x45;
        put_both(s, 158, 21);
        put_both(s, 166, 2048);
    }
    {
        let s = &mut image[sec(18)..sec(19)];
        s[0] = 0xFF;
        s[1..6].copy_from_slice(b"CD001");
    }
    {
        let s = &mut image[sec(20)..sec(21)];
        put_record(s, 0, 23, 3, 0, b"PRIMARY.TXT;1");
    }
    {
        let s = &mut image[sec(21)..sec(22)];
        let id: Vec<u8> = "Sub".encode_utf16().flat_map(|u| u.to_be_bytes()).collect();
        put_record(s, 0, 22, 2048, 0x02, &id);
    }
    {
        let s = &mut image[sec(22)..sec(23)];
        let id: Vec<u8> = "café.txt;1".encode_utf16().flat_map(|u| u.to_be_bytes()).collect();
        put_record(s, 0, 23, 3, 0, &id);
    }
    image[sec(23)..sec(23) + 3].copy_from_slice(b"abc");
    image
}

#[test]
fn read_tree_prefers_joliet_and_recurses() {
    let mut src = MemorySource::new(make_joliet_iso());
    let tree = read_tree(&mut src).unwrap();
    assert_eq!(tree.len(), 1);
    assert_eq!(tree[0].name, "Sub");
    match &tree[0].kind {
        EntryKind::Dir(children) => {
            assert_eq!(children.len(), 1);
            assert_eq!(children[0].name, "café.txt");
            assert!(matches!(children[0].kind, EntryKind::File { lba: 23, size: 3 }));
        }
        _ => panic!("expected a directory"),
    }
}

#[test]
fn read_tree_reports_bad_descriptors() {
    // No standard identifier at LBA 16.
    let mut src = MemorySource::new(vec![0u8; 20 * COOKED_SECTOR_SIZE]);
    match read_tree(&mut src) {
        Err(Error::Iso9660(msg)) => assert_eq!(msg, "Bad standard ID at LBA 16 (not 'CD001')"),
        other => panic!("unexpected {other:?}"),
    }
    // Only a terminator: no primary volume descriptor.
    let mut image = vec![0u8; 20 * COOKED_SECTOR_SIZE];
    image[16 * COOKED_SECTOR_SIZE] = 0xFF;
    image[16 * COOKED_SECTOR_SIZE + 1..16 * COOKED_SECTOR_SIZE + 6].copy_from_slice(b"CD001");
    let mut src = MemorySource::new(image);
    match read_tree(&mut src) {
        Err(Error::Iso9660(msg)) => assert_eq!(msg, "No primary volume descriptor found"),
        other => panic!("unexpected {other:?}"),
    }
    // Descriptors but no terminator within 32 sectors.
    let mut image = vec![0u8; 50 * COOKED_SECTOR_SIZE];
    for lba in 16..48 {
        image[lba * COOKED_SECTOR_SIZE] = 0x03;
        image[lba * COOKED_SECTOR_SIZE + 1..lba * COOKED_SECTOR_SIZE + 6].copy_from_slice(b"CD001");
    }
    let mut src = MemorySource::new(image);
    match read_tree(&mut src) {
        Err(Error::Iso9660(msg)) => {
            assert_eq!(msg, "No volume descriptor set terminator within 32 sectors")
        }
        other => panic!("unexpected {other:?}"),
    }
    // Image too short to hold the descriptors.
    let mut src = MemorySource::new(vec![0u8; 100]);
    assert!(matches!(read_tree(&mut src), Err(Error::Io(_))));
}

#[test]
fn directory_cycles_and_odd_joliet_names_are_refused() {
    // A directory that lists itself as a subdirectory.
    let mut image = vec![0u8; 4 * COOKED_SECTOR_SIZE];
    put_record(&mut image[COOKED_SECTOR_SIZE..], 0, 1, 2048, 0x02, b"LOOP");
    let mut src = MemorySource::new(image);
    let mut anc = HashSet::new();
    match read_directory(&mut src, 1, 2048, NameEncoding::Primary, &mut anc, 0) {
        Err(Error::Iso9660(msg)) => assert_eq!(msg, "Directory cycle detected at LBA 1"),
        other => panic!("unexpected {other:?}"),
    }
    assert!(anc.is_empty());
    // A Joliet identifier of odd length.
    let mut image = vec![0u8; 4 * COOKED_SECTOR_SIZE];
    put_record(&mut image[COOKED_SECTOR_SIZE..], 0, 2, 10, 0, b"ABC");
    let mut src = MemorySource::new(image);
    match read_directory(&mut src, 1, 2048, NameEncoding::Joliet, &mut anc, 0) {
        Err(Error::Iso9660(msg)) => {
            assert_eq!(msg, "Joliet file identifier length 3 is not a multiple of 2")
        }
        other => panic!("unexpected {other:?}"),
    }
    // A record running past the directory data.
    let mut image = vec![0u8; 4 * COOKED_SECTOR_SIZE];
    image[COOKED_SECTOR_SIZE + 90] = 0;
    image[COOKED_SECTOR_SIZE] = 60;
    let mut src = MemorySource::new(image);
    match read_directory(&mut src, 1, 50, NameEncoding::Primary, &mut anc, 0) {
        Err(Error::Iso9660(msg)) => assert_eq!(msg, "Directory record extends past directory data"),
        other => panic!("unexpected {other:?}"),
    }
}

/// A `.mds` file with one session holding one Mode1 track of `sectors`
/// raw 2352-byte sectors, its data file named `*.mdf`.
fn mode1_raw_mds(sectors: u32) -> Vec<u8> {
    let mut b = vec![0u8; 0xE0];
    b[..16].copy_from_slice(b"MEDIA DESCRIPTOR");
    b[16] = 1;
    b[17] = 3;
    b[20] = 1;
    b[0x50..0x54].copy_from_slice(&0x58u32.to_le_bytes());
    b[0x58..0x5C].copy_from_slice(&(-150i32).to_le_bytes());
    b[0x5C..0x60].copy_from_slice(&(sectors as i32).to_le_bytes());
    b[0x60] = 1;
    b[0x62] = 1;
    b[0x64] = 1;
    b[0x66] = 1;
    b[0x6C..0x70].copy_from_slice(&0x70u32.to_le_bytes());
    b[0x70] = 0xAA;
    b[0x72] = 0x14;
    b[0x74] = 1;
    b[0x7A] = 2;
    b[0x7C..0x80].copy_from_slice(&0xC0u32.to_le_bytes());
    b[0x80..0x82].copy_from_slice(&2352u16.to_le_bytes());
    b[0xA0..0xA4].copy_from_slice(&1u32.to_le_bytes());
    b[0xA4..0xA8].copy_from_slice(&0xC8u32.to_le_bytes());
    b[0xC4..0xC8].copy_from_slice(&sectors.to_le_bytes());
    b[0xC8..0xCC].copy_from_slice(&0xD8u32.to_le_bytes());
    b[0xD8..0xDD].copy_from_slice(b"*.mdf");
    b
}

/// The raw Mode1 sectors holding the cooked image `iso`: 16 bytes of sync
/// and header, the 2048 bytes of user data, 288 bytes of EDC/ECC.
fn raw_mode1_sectors(iso: &[u8]) -> Vec<u8> {
    let mut raw = Vec::new();
    for block in iso.chunks(COOKED_SECTOR_SIZE) {
        raw.extend_from_slice(&[0xFFu8; 16]);
        raw.extend_from_slice(block);
        raw.extend_from_slice(&[0xEEu8; 288]);
    }
    raw
}

#[test]
fn extract_lists_the_tree_of_the_single_track() {
    let payload = b"Hello from the ISO9660 reader.";
    let iso = make_synthetic_iso(payload);
    let mds = Mds::from_bytes(&mode1_raw_mds(20)).unwrap();
    let opts = ExtractOptions { list: true, force: false };
    match extract(&mds, MemorySource::new(raw_mode1_sectors(&iso)), &opts).unwrap() {
        Extraction::Listing(lines) => assert_eq!(lines, vec!["README.TXT  (30 bytes)".to_string()]),
        Extraction::Plan { .. } => panic!("expected a listing"),
    }
}

#[test]
fn extract_plans_the_files_and_reads_them_back() {
    let payload = b"Hello from the ISO9660 reader.";
    let iso = make_synthetic_iso(payload);
    let mds = Mds::from_bytes(&mode1_raw_mds(20)).unwrap();
    let opts = ExtractOptions { list: false, force: false };
    match extract(&mds, MemorySource::new(raw_mode1_sectors(&iso)), &opts).unwrap() {
        Extraction::Plan { steps, mut reader } => {
            assert_eq!(steps.len(), 1);
            match &steps[0] {
                ExtractStep::WriteFile { path, lba, size } => {
                    assert_eq!(path, &vec!["README.TXT".to_string()]);
                    let mut out = Vec::new();
                    copy_file(&mut reader, &mut out, *lba, *size).unwrap();
                    assert_eq!(out, payload);
                }
                _ => panic!("expected a file"),
            }
        }
        Extraction::Listing(_) => panic!("expected a plan"),
    }
}

#[test]
fn extract_needs_a_known_layout_and_readable_data() {
    let payload = b"x";
    let iso = make_synthetic_iso(payload);
    let opts = ExtractOptions { list: true, force: false };
    // Too few raw sectors for the volume descriptors: an I/O error.
    let mds = Mds::from_bytes(&mode1_raw_mds(20)).unwrap();
    let short = raw_mode1_sectors(&iso[..10 * COOKED_SECTOR_SIZE]);
    assert!(matches!(extract(&mds, MemorySource::new(short), &opts), Err(Error::Io(_))));
    // Mode1 with 2336-byte sectors has no cooked layout.
    let mut image = mode1_raw_mds(20);
    image[0x80..0x82].copy_from_slice(&2336u16.to_le_bytes());
    let mds = Mds::from_bytes(&image).unwrap();
    assert!(matches!(
        extract(&mds, MemorySource::new(raw_mode1_sectors(&iso)), &opts),
        Err(Error::UnknownIsoTrackSize(TrackMode::Mode1, 2336))
    ));
}

#[test]
fn multi_extent_files_are_refused() {
    // A file record whose flags mark it as one extent of several.
    let mut image = vec![0u8; 4 * COOKED_SECTOR_SIZE];
    put_record(&mut image[COOKED_SECTOR_SIZE..], 0, 2, 10, 0x80, b"PART.BIN;1");
    let mut src = MemorySource::new(image);
    let mut anc = HashSet::new();
    match read_directory(&mut src, 1, 2048, NameEncoding::Primary, &mut anc, 0) {
        Err(Error::Iso9660(msg)) => assert_eq!(msg, "Multi-extent file records are not supported"),
        other => panic!("unexpected {other:?}"),
    }
    // The same record as the final extent of its file is read.
    let mut image = vec![0u8; 4 * COOKED_SECTOR_SIZE];
    put_record(&mut image[COOKED_SECTOR_SIZE..], 0, 2, 10, 0x00, b"PART.BIN;1");
    let mut src = MemorySource::new(image);
    let tree = read_directory(&mut src, 1, 2048, NameEncoding::Primary, &mut anc, 0).unwrap();
    assert_eq!(tree.len(), 1);
    assert_eq!(tree[0].name, "PART.BIN");
}

#[test]
fn read_tree_from_without_a_primary_reads_nothing() {
    let mut src = MemorySource::new(vec![0u8; 4 * COOKED_SECTOR_SIZE]);
    let descriptors = vec![VolDesc::Other];
    match read_tree_from(&mut src, &descriptors) {
        Err(Error::Iso9660(m)) => assert_eq!(m, "No primary volume descriptor found"),
        other => panic!("unexpected {other:?}"),
    }
}
