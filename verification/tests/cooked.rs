use mds::cooked::{iso_user_data_range, CookedSectorReader, SeekFrom, COOKED_SECTOR_SIZE};
use mds::error::Error;
use mds::mds::TrackMode;
use mds::source::{MemorySource, RawSource};

#[test]
fn mode1_2352_extracts_2048_user_data() {
    assert_eq!(
        iso_user_data_range(TrackMode::Mode1, 0x930).unwrap(),
        16..16 + 0x800
    );
}

#[test]
fn mode2_2352_extracts_2048_user_data() {
    assert_eq!(
        iso_user_data_range(TrackMode::Mode2, 0x930).unwrap(),
        24..24 + 0x800
    );
}

#[test]
fn mode2_2336_extracts_2048_user_data() {
    assert_eq!(
        iso_user_data_range(TrackMode::Mode2, 0x920).unwrap(),
        8..8 + 0x800
    );
}

#[test]
fn mode2form1_2336_extracts_2048_user_data() {
    assert_eq!(
        iso_user_data_range(TrackMode::Mode2Form1, 0x920).unwrap(),
        8..8 + 0x800
    );
}

#[test]
fn cooked_sectors_need_no_offset() {
    assert_eq!(iso_user_data_range(TrackMode::Mode1, 0x800).unwrap(), 0..0x800);
    assert_eq!(iso_user_data_range(TrackMode::Mode2Form1, 0x800).unwrap(), 0..0x800);
    assert_eq!(
        iso_user_data_range(TrackMode::Mode2Form1, 0x930).unwrap(),
        24..24 + 0x800
    );
}

#[test]
fn unknown_layouts_are_refused() {
    assert!(matches!(
        iso_user_data_range(TrackMode::Mode2, 0x800),
        Err(Error::UnknownIsoTrackSize(TrackMode::Mode2, 0x800))
    ));
    assert!(matches!(
        iso_user_data_range(TrackMode::Audio, 0x930),
        Err(Error::UnknownIsoTrackSize(TrackMode::Audio, 0x930))
    ));
    assert!(matches!(
        iso_user_data_range(TrackMode::Mode1, 0x920),
        Err(Error::UnknownIsoTrackSize(TrackMode::Mode1, 0x920))
    ));
}

/// Build a synthetic raw image: `pregap` bytes of 0xFF, then `n_sectors`
/// raw sectors of `raw_size` bytes each. Each sector is laid out as
/// `header_size` bytes of header (filled with 0xEE), then 2048 bytes of
/// user data (filled with a per-sector pattern), then `trailer_size`
/// trailer bytes (filled with 0xCC). The user-data pattern for sector
/// `i` is `i as u8` repeated.
fn synth_image(
    pregap: usize,
    n_sectors: usize,
    raw_size: usize,
    header_size: usize,
    trailer_size: usize,
) -> Vec<u8> {
    assert_eq!(header_size + COOKED_SECTOR_SIZE + trailer_size, raw_size);
    let mut buf = vec![0xFFu8; pregap];
    for i in 0..n_sectors {
        buf.extend(std::iter::repeat(0xEE).take(header_size));
        buf.extend(std::iter::repeat(i as u8).take(COOKED_SECTOR_SIZE));
        buf.extend(std::iter::repeat(0xCC).take(trailer_size));
    }
    buf
}

fn read_to_end<R: RawSource>(reader: &mut CookedSectorReader<R>) -> Vec<u8> {
    let mut all = Vec::new();
    loop {
        let chunk = reader.read(8192).unwrap();
        if chunk.is_empty() {
            return all;
        }
        all.extend_from_slice(&chunk);
    }
}

#[test]
fn reads_user_data_sequentially_mode1_2352() {
    let pregap = 256;
    let n = 4;
    let raw = 0x930;
    let img = synth_image(pregap, n, raw, 16, 288);
    let reader = CookedSectorReader::new(
        MemorySource::new(img),
        pregap as u64,
        raw,
        16..16 + 0x800,
        n as u64,
    );
    let mut reader = reader;
    let all = read_to_end(&mut reader);
    assert_eq!(all.len(), n * COOKED_SECTOR_SIZE);
    for i in 0..n {
        let start = i * COOKED_SECTOR_SIZE;
        assert!(all[start..start + COOKED_SECTOR_SIZE]
            .iter()
            .all(|&b| b == i as u8));
    }
}

#[test]
fn reads_user_data_sequentially_mode2_2336() {
    // XA Form 1, MODE2/2336: 8 subheader + 2048 user + 280 EDC/ECC = 2336.
    let n = 3;
    let raw = 0x920;
    let img = synth_image(0, n, raw, 8, 0x920 - 8 - COOKED_SECTOR_SIZE);
    let reader = CookedSectorReader::new(MemorySource::new(img), 0, raw, 8..8 + 0x800, n as u64);
    let mut reader = reader;
    let all = read_to_end(&mut reader);
    for i in 0..n {
        let start = i * COOKED_SECTOR_SIZE;
        assert_eq!(all[start], i as u8);
        assert_eq!(all[start + COOKED_SECTOR_SIZE - 1], i as u8);
    }
}

#[test]
fn handles_subchannel_trailers_2448() {
    // 2448 = 2352 + 96 subchannel bytes. For an iso-style Mode1 layout we
    // use header=16 + 2048 user + 288 EDC/ECC + 96 subchannel = 2448.
    let n = 2;
    let raw = 2448;
    let img = synth_image(0, n, raw, 16, 288 + 96);
    let reader = CookedSectorReader::new(MemorySource::new(img), 0, raw, 16..16 + 0x800, n as u64);
    let mut reader = reader;
    let all = read_to_end(&mut reader);
    assert_eq!(all.len(), n * COOKED_SECTOR_SIZE);
    assert!(all[0..COOKED_SECTOR_SIZE].iter().all(|&b| b == 0));
    assert!(all[COOKED_SECTOR_SIZE..].iter().all(|&b| b == 1));
}

#[test]
fn cross_sector_read_returns_partial_then_continues() {
    // A single read call returns at most one sector's worth of data; the
    // caller is responsible for re-issuing.
    let n = 2;
    let raw = 0x930;
    let img = synth_image(0, n, raw, 16, 288);
    let mut reader = CookedSectorReader::new(MemorySource::new(img), 0, raw, 16..16 + 0x800, n as u64);
    // Seek to 100 bytes before the second sector boundary.
    reader
        .seek(SeekFrom::Start(COOKED_SECTOR_SIZE as u64 - 100))
        .unwrap();
    let mut buf = [0u8; 200];
    let first = reader.read(200).unwrap();
    let n1 = first.len();
    buf[..n1].copy_from_slice(&first);
    assert_eq!(n1, 100, "should stop at the sector boundary");
    assert!(buf[..100].iter().all(|&b| b == 0));
    let second = reader.read(100).unwrap();
    let n2 = second.len();
    buf[100..100 + n2].copy_from_slice(&second);
    assert_eq!(n2, 100);
    assert!(buf[100..200].iter().all(|&b| b == 1));
}

/// A raw source that counts how often it is read.
struct Counting {
    inner: MemorySource,
    reads: usize,
}

impl RawSource for Counting {
    fn read_exact_at(&mut self, pos: u64, len: usize) -> Result<Vec<u8>, Error> {
        self.reads += 1;
        self.inner.read_exact_at(pos, len)
    }
}

#[test]
fn seek_within_sector_uses_cache() {
    let raw = 0x930;
    let img = synth_image(0, 1, raw, 16, 288);
    let counting = Counting {
        inner: MemorySource::new(img),
        reads: 0,
    };
    let mut reader = CookedSectorReader::new(counting, 0, raw, 16..16 + 0x800, 1);

    // The first read loads the sector — one read of the underlying source.
    let first = reader.read(10).unwrap();
    assert_eq!(first.len(), 10);

    let after_first_reads = reader.inner().reads;
    // Seek to a different offset within the same logical sector.
    reader.seek(SeekFrom::Start(1000)).unwrap();
    let second = reader.read(10).unwrap();
    assert_eq!(second.len(), 10);
    // No new underlying read should have happened.
    assert_eq!(reader.inner().reads, after_first_reads);
}

#[test]
fn read_at_eof_returns_zero() {
    let raw = 0x930;
    let img = synth_image(0, 1, raw, 16, 288);
    let mut reader = CookedSectorReader::new(MemorySource::new(img), 0, raw, 16..16 + 0x800, 1);
    reader.seek(SeekFrom::End(0)).unwrap();
    assert_eq!(reader.read(16).unwrap().len(), 0);
}

#[test]
fn seek_before_start_is_refused() {
    let raw = 0x930;
    let img = synth_image(0, 1, raw, 16, 288);
    let mut reader = CookedSectorReader::new(MemorySource::new(img), 0, raw, 16..16 + 0x800, 1);
    assert_eq!(reader.seek(SeekFrom::Start(5)).unwrap(), 5);
    assert!(matches!(reader.seek(SeekFrom::Current(-6)),
        Err(Error::Io(e)) if e.kind() == std::io::ErrorKind::InvalidInput));
    assert_eq!(reader.seek(SeekFrom::Current(-5)).unwrap(), 0);
    assert_eq!(reader.seek(SeekFrom::End(-48)).unwrap(), 2000);
    assert_eq!(reader.cooked_len(), 2048);
}

#[test]
fn truncated_raw_data_fails_to_read() {
    let raw = 0x930;
    // Two sectors announced, one present.
    let img = synth_image(0, 1, raw, 16, 288);
    let mut reader = CookedSectorReader::new(MemorySource::new(img), 0, raw, 16..16 + 0x800, 2);
    assert_eq!(reader.read(4096).unwrap().len(), 2048);
    assert!(matches!(reader.read(4096), Err(Error::Io(_))));
}

#[test]
fn positional_reads_cross_sectors() {
    let raw = 0x920;
    let img = synth_image(0, 3, raw, 8, 280);
    let mut reader = CookedSectorReader::new(MemorySource::new(img), 0, raw, 8..8 + 0x800, 3);
    let bytes = reader.read_exact_at(2000, 3000).unwrap();
    assert_eq!(bytes.len(), 3000);
    assert!(bytes[..48].iter().all(|&b| b == 0));
    assert!(bytes[48..48 + 2048].iter().all(|&b| b == 1));
    assert!(bytes[48 + 2048..].iter().all(|&b| b == 2));
    assert!(reader.read_exact_at(6000, 1000).is_err());
}
