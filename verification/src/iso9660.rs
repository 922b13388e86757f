//! Minimal ISO9660 reader.
//!
//! Just enough to walk a Joliet-or-primary directory tree and stream file
//! contents back, over a source of 2048-byte logical sectors (see
//! [`crate::cooked::CookedSectorReader`]). Hardened against malformed
//! images: bounded directory extents, bounded depth, ancestor cycle
//! detection, both-endian field checks, sector-boundary checks, refusal of
//! multi-extent files and even-length Joliet identifiers.

use crate::bytes::{be16, be32, le32, read_u16_be, read_u32_be, read_u32_le};
use crate::error::Error;
use crate::source::{ByteSink, RawSource};
use crate::text::{append_chars, chars_of, dec, decimal, string_from_chars};
use crate::unicode::{decode_latin1, decode_utf16, latin1_decode, utf16_decode};
use std::collections::HashSet;
use vstd::prelude::*;

verus! {

/// First volume descriptor lives at LBA 16 — the "system area" is LBAs 0..16.
pub const VD_START_LBA: u64 = 16;

/// Cap on bytes read for a single directory extent (16 MiB).
pub const MAX_DIRECTORY_BYTES: u32 = 0x100_0000;

/// Limit on directory nesting.
pub const MAX_DIRECTORY_DEPTH: usize = 64;

/// Bytes per logical sector.
pub const SECTOR: u64 = 0x800;

/// A directory entry of the tree: a file or a directory with its children.
#[derive(Debug)]
pub struct DirEntry {
    pub name: String,
    pub kind: EntryKind,
}

#[derive(Debug)]
pub enum EntryKind {
    File { lba: u32, size: u32 },
    Dir(Vec<DirEntry>),
}

/// What a directory entry holds, as values.
pub struct EntryView {
    pub name: Seq<char>,
    pub kind: KindView,
}

pub enum KindView {
    File { lba: u32, size: u32 },
    Dir(Seq<EntryView>),
}

impl DirEntry {
    pub open spec fn view(&self) -> EntryView
        decreases self,
    {
        EntryView {
            name: self.name@,
            kind: match &self.kind {
                EntryKind::File { lba, size } => KindView::File { lba: *lba, size: *size },
                EntryKind::Dir(children) => KindView::Dir(entries_view(children@)),
            },
        }
    }
}

/// The views of a sequence of entries.
pub open spec fn entries_view(s: Seq<DirEntry>) -> Seq<EntryView>
    decreases s,
{
    if s.len() == 0 {
        Seq::empty()
    } else {
        seq![s[0].view()] + entries_view(s.subrange(1, s.len() as int))
    }
}

proof fn lemma_entries_view_push(s: Seq<DirEntry>, e: DirEntry)
    ensures
        entries_view(s.push(e)) == entries_view(s).push(e.view()),
    decreases s.len(),
{
    if s.len() == 0 {
        assert(s.push(e).subrange(1, 1) == Seq::<DirEntry>::empty());
        assert(entries_view(s.push(e)) == seq![e.view()] + entries_view(Seq::<DirEntry>::empty()));
        assert(entries_view(Seq::<DirEntry>::empty()) == Seq::<EntryView>::empty());
        assert(seq![e.view()] + Seq::<EntryView>::empty() == seq![e.view()]);
    } else {
        let t = s.subrange(1, s.len() as int);
        assert(s.push(e).subrange(1, s.len() as int + 1) == t.push(e));
        lemma_entries_view_push(t, e);
        assert(seq![s[0].view()] + entries_view(t).push(e.view()) == (seq![s[0].view()]
            + entries_view(t)).push(e.view()));
    }
}

pub proof fn lemma_entries_view_index(s: Seq<DirEntry>)
    ensures
        entries_view(s).len() == s.len(),
        forall|i: int| 0 <= i < s.len() ==> #[trigger] entries_view(s)[i] == s[i].view(),
    decreases s.len(),
{
    if s.len() > 0 {
        let t = s.subrange(1, s.len() as int);
        lemma_entries_view_index(t);
        assert forall|i: int| 0 <= i < s.len() implies #[trigger] entries_view(s)[i] == s[i].view() by {
            if i > 0 {
                assert(entries_view(s)[i] == entries_view(t)[i - 1]);
                assert(t[i - 1] == s[i]);
            }
        }
    }
}

/// Why reading the directory tree fails: a message about the image, or a
/// read past the end of the source.
pub enum IsoFailure {
    Message(Seq<char>),
    Unreadable,
}

/// `prefix`, the decimal digits of `n`, then `suffix`.
pub open spec fn with_number(prefix: Seq<char>, n: nat, suffix: Seq<char>) -> Seq<char> {
    prefix + dec(n) + suffix
}

fn message(s: &str) -> (r: String)
    ensures
        r@ == s@,
{
    s.to_owned()
}

fn message_with_number(prefix: &str, n: u64, suffix: &str) -> (r: String)
    ensures
        r@ == with_number(prefix@, n as nat, suffix@),
{
    let mut v = chars_of(prefix);
    let d = decimal(n);
    append_chars(&mut v, d.as_slice());
    let t = chars_of(suffix);
    append_chars(&mut v, t.as_slice());
    string_from_chars(v.as_slice())
}

/// One of ISO9660's "both-endian" u32 fields: 4 bytes little-endian then 4
/// bytes big-endian holding the same value; the two halves must agree.
pub open spec fn spec_both_endian(field: Seq<u8>, context: Seq<char>) -> Result<u32, Seq<char>> {
    if field.len() < 8 {
        Err(context + ": both-endian field truncated"@)
    } else if le32(field, 0) != be32(field, 4) {
        Err(
            context + ": both-endian halves disagree ("@ + dec(le32(field, 0) as nat)
                + " LE vs "@ + dec(be32(field, 4) as nat) + " BE)"@,
        )
    } else {
        Ok(le32(field, 0) as u32)
    }
}

/// Parses one "both-endian" u32 field, naming `context` in the error.
pub fn parse_both_endian_u32(field: &[u8], context: &str) -> (r: Result<u32, Error>)
    ensures
        r matches Ok(v) ==> spec_both_endian(field@, context@) == Ok::<u32, Seq<char>>(v),
        r matches Err(e) ==> (e matches Error::Iso9660(m) && spec_both_endian(field@, context@)
            == Err::<u32, Seq<char>>(m@)),
{
    if field.len() < 8 {
        let mut v = chars_of(context);
        let t = chars_of(": both-endian field truncated");
        append_chars(&mut v, t.as_slice());
        return Err(Error::Iso9660(string_from_chars(v.as_slice())));
    }
    let le = read_u32_le(field, 0);
    let be = read_u32_be(field, 4);
    if le != be {
        let mut v = chars_of(context);
        let t = chars_of(": both-endian halves disagree (");
        append_chars(&mut v, t.as_slice());
        let d = decimal(le as u64);
        append_chars(&mut v, d.as_slice());
        let t = chars_of(" LE vs ");
        append_chars(&mut v, t.as_slice());
        let d = decimal(be as u64);
        append_chars(&mut v, d.as_slice());
        let t = chars_of(" BE)");
        append_chars(&mut v, t.as_slice());
        return Err(Error::Iso9660(string_from_chars(v.as_slice())));
    }
    Ok(le)
}

/// Extent location and data length of a directory record (ECMA-119 §9.1:
/// both-endian fields at 2..10 and 10..18).
pub open spec fn spec_root_record(rec: Seq<u8>) -> Result<(u32, u32), Seq<char>> {
    if rec.len() < 18 {
        Err("Root directory record truncated"@)
    } else {
        match spec_both_endian(rec.subrange(2, 10), "root LBA"@) {
            Err(m) => Err(m),
            Ok(lba) => match spec_both_endian(rec.subrange(10, 18), "root size"@) {
                Err(m) => Err(m),
                Ok(size) => Ok((lba, size)),
            },
        }
    }
}

fn parse_root_record(rec: &[u8]) -> (r: Result<(u32, u32), Error>)
    ensures
        r matches Ok(v) ==> spec_root_record(rec@) == Ok::<(u32, u32), Seq<char>>(v),
        r matches Err(e) ==> (e matches Error::Iso9660(m) && spec_root_record(rec@) == Err::<
            (u32, u32),
            Seq<char>,
        >(m@)),
{
    if rec.len() < 18 {
        return Err(Error::Iso9660(message("Root directory record truncated")));
    }
    let lba = match parse_both_endian_u32(&rec[2..10], "root LBA") {
        Ok(v) => v,
        Err(e) => return Err(e),
    };
    let size = match parse_both_endian_u32(&rec[10..18], "root size") {
        Ok(v) => v,
        Err(e) => return Err(e),
    };
    Ok((lba, size))
}

/// A volume descriptor, as far as the tree walk needs it.
#[derive(Clone, Copy, Debug, PartialEq, Eq, Structural)]
pub enum VolDesc {
    Primary { root_lba: u32, root_size: u32 },
    Supplementary { joliet: bool, root_lba: u32, root_size: u32 },
    Other,
}

/// The root directory record of a primary or supplementary descriptor (at 156, 34 bytes).
pub open spec fn spec_descriptor_root(sector: Seq<u8>) -> Result<(u32, u32), Seq<char>> {
    spec_root_record(sector.subrange(156, 190))
}

/// Whether the escape sequences field (at 88) opens with a Joliet escape:
/// `%/` followed by `@`, `C` or `E`.
pub open spec fn is_joliet_escape(sector: Seq<u8>) -> bool {
    sector[88] == 0x25 && sector[89] == 0x2F && (sector[90] == 0x40 || sector[90] == 0x43
        || sector[90] == 0x45)
}

pub fn parse_primary(sector: &[u8]) -> (r: Result<VolDesc, Error>)
    requires
        sector@.len() >= 190,
    ensures
        r matches Ok(d) ==> (spec_descriptor_root(sector@) matches Ok((lba, size)) && d
            == VolDesc::Primary { root_lba: lba, root_size: size }),
        r matches Err(e) ==> (e matches Error::Iso9660(m) && spec_descriptor_root(sector@)
            == Err::<(u32, u32), Seq<char>>(m@)),
{
    // ECMA-119 §8.4: the root directory record sits at offset 156, 34 bytes long.
    match parse_root_record(&sector[156..156 + 34]) {
        Ok((root_lba, root_size)) => Ok(VolDesc::Primary { root_lba, root_size }),
        Err(e) => Err(e),
    }
}

pub fn parse_supplementary(sector: &[u8]) -> (r: Result<VolDesc, Error>)
    requires
        sector@.len() >= 190,
    ensures
        r matches Ok(d) ==> (spec_descriptor_root(sector@) matches Ok((lba, size)) && d
            == VolDesc::Supplementary {
            joliet: is_joliet_escape(sector@),
            root_lba: lba,
            root_size: size,
        }),
        r matches Err(e) ==> (e matches Error::Iso9660(m) && spec_descriptor_root(sector@)
            == Err::<(u32, u32), Seq<char>>(m@)),
{
    let (root_lba, root_size) = match parse_root_record(&sector[156..156 + 34]) {
        Ok(v) => v,
        Err(e) => return Err(e),
    };
    // Per the Joliet spec the escape sequence sits at the start of the field.
    let joliet = sector[88] == 0x25 && sector[89] == 0x2F && (sector[90] == 0x40 || sector[90]
        == 0x43 || sector[90] == 0x45);
    Ok(VolDesc::Supplementary { joliet, root_lba, root_size })
}

/// How file identifiers are encoded.
#[derive(Clone, Copy, Debug, PartialEq, Eq, Structural)]
pub enum NameEncoding {
    Primary,
    Joliet,
}

/// The big-endian 16-bit units of `s`, a trailing odd byte dropped.
pub open spec fn be_units(s: Seq<u8>) -> Seq<u16> {
    Seq::new(s.len() / 2, |i: int| be16(s, 2 * i) as u16)
}

/// The characters of a raw file identifier: UCS-2BE for Joliet, ISO-8859-1 otherwise.
pub open spec fn identifier_chars(raw: Seq<u8>, encoding: NameEncoding) -> Seq<char> {
    match encoding {
        NameEncoding::Joliet => utf16_decode(be_units(raw)),
        NameEncoding::Primary => latin1_decode(raw),
    }
}

/// Index of the last `;` among the first `i` characters of `s`.
pub open spec fn last_semicolon(s: Seq<char>, i: int) -> Option<int>
    decreases i,
{
    if i <= 0 {
        None
    } else if s[i - 1] == ';' {
        Some(i - 1)
    } else {
        last_semicolon(s, i - 1)
    }
}

/// A file name without its `;version` suffix and without a trailing `.`.
pub open spec fn strip_file_suffixes(s: Seq<char>) -> Seq<char> {
    let t = match last_semicolon(s, s.len() as int) {
        Some(k) => s.take(k),
        None => s,
    };
    if t.len() > 0 && t.last() == '.' {
        t.drop_last()
    } else {
        t
    }
}

/// The name of a directory record: the decoded identifier, and for files
/// without the `;version` suffix and the separator `.` that ends it.
pub open spec fn spec_decode_name(raw: Seq<u8>, encoding: NameEncoding, is_dir: bool) -> Seq<char> {
    if is_dir {
        identifier_chars(raw, encoding)
    } else {
        strip_file_suffixes(identifier_chars(raw, encoding))
    }
}

fn units_be(s: &[u8]) -> (r: Vec<u16>)
    ensures
        r@ == be_units(s@),
{
    let mut out: Vec<u16> = Vec::new();
    let len = s.len();
    let n = len / 2;
    let mut i: usize = 0;
    while i < n
        invariant
            len == s@.len(),
            n == s@.len() / 2,
            i <= n,
            out@ == be_units(s@).subrange(0, i as int),
        decreases n - i,
    {
        out.push(read_u16_be(s, 2 * i));
        i = i + 1;
        assert(out@ =~= be_units(s@).subrange(0, i as int));
    }
    assert(be_units(s@).subrange(0, n as int) == be_units(s@));
    out
}

/// Decodes a directory record's file identifier.
pub fn decode_name(raw: &[u8], encoding: NameEncoding, is_dir: bool) -> (r: String)
    ensures
        r@ == spec_decode_name(raw@, encoding, is_dir),
{
    let mut s = match encoding {
        NameEncoding::Joliet => {
            let units = units_be(raw);
            decode_utf16(units.as_slice())
        },
        NameEncoding::Primary => decode_latin1(raw),
    };
    if !is_dir {
        let ghost full = s@;
        let mut i = s.len();
        let mut found = false;
        while i > 0 && !found
            invariant
                i <= s@.len(),
                s@ == full,
                found ==> i > 0 && last_semicolon(full, full.len() as int) == Some(i - 1),
                !found ==> last_semicolon(full, full.len() as int) == last_semicolon(full, i as int),
            decreases i, if found { 0int } else { 1int },
        {
            if s[i - 1] == ';' {
                found = true;
            } else {
                i = i - 1;
            }
        }
        if found {
            s.truncate(i - 1);
            assert(s@ == full.take(i - 1));
        }
        let ghost t = s@;
        if s.len() > 0 && s[s.len() - 1] == '.' {
            s.pop();
            assert(s@ == t.drop_last());
        }
    }
    string_from_chars(s.as_slice())
}

/// The standard identifier `CD001`.
pub open spec fn cd001() -> Seq<u8> {
    seq![0x43u8, 0x44, 0x30, 0x30, 0x31]
}

/// The volume descriptors from `lba` on, after those in `acc` (ECMA-119
/// §8.4): one per sector until a set terminator (type 0xFF), at most up to
/// LBA 48; each must carry the standard identifier.
pub open spec fn spec_descriptors(img: Seq<u8>, lba: int, acc: Seq<VolDesc>) -> Result<
    Seq<VolDesc>,
    IsoFailure,
>
    decreases 48 - lba,
{
    if lba >= 48 {
        Err(IsoFailure::Message("No volume descriptor set terminator within 32 sectors"@))
    } else if (lba + 1) * 0x800 > img.len() || lba < 0 {
        Err(IsoFailure::Unreadable)
    } else {
        let buf = img.subrange(lba * 0x800, (lba + 1) * 0x800);
        if buf.subrange(1, 6) != cd001() {
            Err(
                IsoFailure::Message(
                    with_number("Bad standard ID at LBA "@, lba as nat, " (not 'CD001')"@),
                ),
            )
        } else if buf[0] == 0x01 {
            match spec_descriptor_root(buf) {
                Err(m) => Err(IsoFailure::Message(m)),
                Ok((root_lba, root_size)) => spec_descriptors(
                    img,
                    lba + 1,
                    acc.push(VolDesc::Primary { root_lba, root_size }),
                ),
            }
        } else if buf[0] == 0x02 {
            match spec_descriptor_root(buf) {
                Err(m) => Err(IsoFailure::Message(m)),
                Ok((root_lba, root_size)) => spec_descriptors(
                    img,
                    lba + 1,
                    acc.push(
                        VolDesc::Supplementary { joliet: is_joliet_escape(buf), root_lba, root_size },
                    ),
                ),
            }
        } else if buf[0] == 0xFF {
            Ok(acc)
        } else {
            spec_descriptors(img, lba + 1, acc.push(VolDesc::Other))
        }
    }
}

fn has_standard_id(buf: &[u8]) -> (r: bool)
    requires
        buf@.len() >= 6,
    ensures
        r == (buf@.subrange(1, 6) == cd001()),
{
    let r = buf[1] == 0x43 && buf[2] == 0x44 && buf[3] == 0x30 && buf[4] == 0x30 && buf[5] == 0x31;
    if r {
        assert(buf@.subrange(1, 6) =~= cd001());
    } else {
        assert(buf@.subrange(1, 6) != cd001()) by {
            if buf@.subrange(1, 6) == cd001() {
                assert(buf@.subrange(1, 6)[0] == buf@[1]);
            }
        }
    }
    r
}

/// Reads the volume descriptors, from LBA 16 up to the set terminator.
pub fn read_volume_descriptors<R: RawSource>(reader: &mut R) -> (r: Result<Vec<VolDesc>, Error>)
    requires
        old(reader).ready(),
    ensures
        final(reader).ready(),
        final(reader).bytes() == old(reader).bytes(),
        final(reader).modeled() == old(reader).modeled(),
        r matches Err(e) ==> (e is Io || e is Iso9660),
        old(reader).modeled() ==> ({
            let s = spec_descriptors(old(reader).bytes(), 16, Seq::empty());
            &&& r matches Ok(ds) ==> s == Ok::<Seq<VolDesc>, IsoFailure>(ds@)
            &&& r matches Err(e) ==> (e is Io || (e matches Error::Iso9660(m) && s == Err::<
                Seq<VolDesc>,
                IsoFailure,
            >(IsoFailure::Message(m@))))
            &&& s == Err::<Seq<VolDesc>, IsoFailure>(IsoFailure::Unreadable) ==> (r matches Err(
                e,
            ) && e is Io)
            &&& (old(reader).reliable() && (r matches Err(e) && e is Io)) ==> s == Err::<
                Seq<VolDesc>,
                IsoFailure,
            >(IsoFailure::Unreadable)
        }),
        final(reader).reliable() == old(reader).reliable(),
{
    let ghost img = reader.bytes();
    let mut out: Vec<VolDesc> = Vec::new();
    let mut lba: u64 = VD_START_LBA;
    while lba < VD_START_LBA + 32
        invariant
            16 <= lba <= 48,
            reader.ready(),
            reader.bytes() == img,
            old(reader).bytes() == img,
            reader.reliable() == old(reader).reliable(),
            reader.modeled() == old(reader).modeled(),
            reader.modeled() ==> spec_descriptors(img, 16, Seq::empty()) == spec_descriptors(
                img,
                lba as int,
                out@,
            ),
        decreases 48 - lba,
    {
        let buf = match reader.read_exact_at(lba * SECTOR, 0x800) {
            Ok(b) => b,
            Err(e) => return Err(e),
        };
        assert(reader.modeled() ==> buf@ == img.subrange(lba * 0x800, (lba + 1) * 0x800));
        // Standard ID must be "CD001" at offset 1..6.
        if !has_standard_id(buf.as_slice()) {
            return Err(
                Error::Iso9660(message_with_number("Bad standard ID at LBA ", lba, " (not 'CD001')")),
            );
        }
        let vd_type = buf[0];
        if vd_type == 0x01 {
            match parse_primary(buf.as_slice()) {
                Ok(d) => out.push(d),
                Err(e) => return Err(e),
            }
        } else if vd_type == 0x02 {
            match parse_supplementary(buf.as_slice()) {
                Ok(d) => out.push(d),
                Err(e) => return Err(e),
            }
        } else if vd_type == 0xFF {
            return Ok(out);
        } else {
            out.push(VolDesc::Other);
        }
        lba = lba + 1;
    }
    Err(Error::Iso9660(message("No volume descriptor set terminator within 32 sectors")))
}

/// Root of the tree a descriptor list offers: the first Joliet supplementary
/// descriptor from index `i` on.
pub open spec fn first_joliet(ds: Seq<VolDesc>, i: int) -> Option<(u32, u32)>
    decreases ds.len() - i,
{
    if i < 0 || i >= ds.len() {
        None
    } else {
        match ds[i] {
            VolDesc::Supplementary { joliet: true, root_lba, root_size } => Some((root_lba, root_size)),
            _ => first_joliet(ds, i + 1),
        }
    }
}

/// The first primary descriptor from index `i` on.
pub open spec fn first_primary(ds: Seq<VolDesc>, i: int) -> Option<(u32, u32)>
    decreases ds.len() - i,
{
    if i < 0 || i >= ds.len() {
        None
    } else {
        match ds[i] {
            VolDesc::Primary { root_lba, root_size } => Some((root_lba, root_size)),
            _ => first_primary(ds, i + 1),
        }
    }
}

/// The root directory to walk: a Joliet tree when there is one, else the primary tree.
pub open spec fn root_choice(ds: Seq<VolDesc>) -> Option<(u32, u32, NameEncoding)> {
    match first_joliet(ds, 0) {
        Some((l, s)) => Some((l, s, NameEncoding::Joliet)),
        None => match first_primary(ds, 0) {
            Some((l, s)) => Some((l, s, NameEncoding::Primary)),
            None => None,
        },
    }
}

/// Chooses the root directory among the volume descriptors, preferring Joliet.
pub fn choose_root(ds: &[VolDesc]) -> (r: Option<(u32, u32, NameEncoding)>)
    ensures
        r == root_choice(ds@),
{
    let mut i: usize = 0;
    while i < ds.len()
        invariant
            i <= ds@.len(),
            first_joliet(ds@, 0) == first_joliet(ds@, i as int),
        decreases ds.len() - i,
    {
        match ds[i] {
            VolDesc::Supplementary { joliet: true, root_lba, root_size } => {
                return Some((root_lba, root_size, NameEncoding::Joliet));
            },
            _ => {},
        }
        i = i + 1;
    }
    let mut j: usize = 0;
    while j < ds.len()
        invariant
            j <= ds@.len(),
            first_joliet(ds@, 0) is None,
            first_primary(ds@, 0) == first_primary(ds@, j as int),
        decreases ds.len() - j,
    {
        match ds[j] {
            VolDesc::Primary { root_lba, root_size } => {
                return Some((root_lba, root_size, NameEncoding::Primary));
            },
            _ => {},
        }
        j = j + 1;
    }
    None
}

/// The entries of the directory whose extent is at `lba`, `size` bytes long,
/// read with `anc` the directories on the current path and `depth` its
/// nesting. Extents larger than `MAX_DIRECTORY_BYTES`, nesting past
/// `MAX_DIRECTORY_DEPTH`, and an extent already on the path are refused.
pub open spec fn spec_read_dir(
    img: Seq<u8>,
    lba: u32,
    size: u32,
    encoding: NameEncoding,
    anc: Set<u32>,
    depth: nat,
) -> Result<Seq<EntryView>, IsoFailure>
    decreases 65 - depth, 0x100_0001int,
{
    if depth > 64 {
        Err(IsoFailure::Message("Directory nesting deeper than 64 levels"@))
    } else if size > 0x100_0000 {
        Err(
            IsoFailure::Message(
                "Directory extent at LBA "@ + dec(lba as nat) + " declares "@ + dec(size as nat)
                    + " bytes, exceeds 16777216-byte cap"@,
            ),
        )
    } else if anc.contains(lba) {
        Err(IsoFailure::Message(with_number("Directory cycle detected at LBA "@, lba as nat, ""@)))
    } else if lba * 0x800 + size > img.len() {
        Err(IsoFailure::Unreadable)
    } else {
        spec_records(
            img,
            img.subrange(lba * 0x800, lba * 0x800 + size),
            0,
            encoding,
            anc.insert(lba),
            depth,
        )
    }
}

/// Whether a directory record's file flags mark a directory.
pub open spec fn flags_is_dir(flags: u8) -> bool {
    (flags / 2) % 2 == 1
}

/// Whether a directory record's file flags mark a record that is not the
/// last of its file (a file recorded in several extents).
pub open spec fn flags_is_multi_extent(flags: u8) -> bool {
    flags >= 0x80
}

/// What the directory record at `pos` of a directory extent amounts to.
pub enum RecordAt {
    /// No further records.
    End,
    /// Nothing to report; records continue at the given offset.
    Skip(int),
    /// The extent is malformed, with this message.
    Fail(Seq<char>),
    /// A file or directory entry; records continue at `next`.
    Entry { next: int, name: Seq<char>, lba: u32, size: u32, is_dir: bool },
}

/// The directory record at `pos` of `raw` (ECMA-119 §9.1). A zero length
/// byte pads out the rest of its 2048-byte block; a record may neither run
/// past the data nor cross a block; records under 33 bytes, records whose
/// identifier overruns them, and the `.` and `..` records are skipped;
/// Joliet identifiers must have even length; files recorded in several
/// extents are refused. Layout: 0 length, 2..10 extent LBA, 10..18 data
/// length (both-endian), 25 flags, 32 identifier length, 33.. identifier.
pub open spec fn record_at(raw: Seq<u8>, pos: int, encoding: NameEncoding) -> RecordAt {
    if pos < 0 || pos >= raw.len() {
        RecordAt::End
    } else {
        let len_dr = raw[pos] as int;
        if len_dr == 0 {
            let next = (pos / 0x800 + 1) * 0x800;
            if next >= raw.len() {
                RecordAt::End
            } else {
                RecordAt::Skip(next)
            }
        } else if pos + len_dr > raw.len() {
            RecordAt::Fail("Directory record extends past directory data"@)
        } else if pos % 0x800 + len_dr > 0x800 {
            RecordAt::Fail("Directory record crosses sector boundary"@)
        } else if len_dr < 33 {
            RecordAt::Skip(pos + len_dr)
        } else {
            let rec = raw.subrange(pos, pos + len_dr);
            match spec_both_endian(rec.subrange(2, 10), "directory entry LBA"@) {
                Err(m) => RecordAt::Fail(m),
                Ok(lba) => match spec_both_endian(rec.subrange(10, 18), "directory entry size"@) {
                    Err(m) => RecordAt::Fail(m),
                    Ok(size) => {
                        let flags = rec[25];
                        let len_fi = rec[32] as int;
                        if 33 + len_fi > len_dr {
                            RecordAt::Skip(pos + len_dr)
                        } else {
                            let raw_name = rec.subrange(33, 33 + len_fi);
                            if len_fi == 1 && (raw_name[0] == 0 || raw_name[0] == 1) {
                                RecordAt::Skip(pos + len_dr)
                            } else if encoding == NameEncoding::Joliet && len_fi % 2 != 0 {
                                RecordAt::Fail(
                                    with_number(
                                        "Joliet file identifier length "@,
                                        len_fi as nat,
                                        " is not a multiple of 2"@,
                                    ),
                                )
                            } else if flags_is_multi_extent(flags) {
                                RecordAt::Fail("Multi-extent file records are not supported"@)
                            } else {
                                RecordAt::Entry {
                                    next: pos + len_dr,
                                    name: spec_decode_name(raw_name, encoding, flags_is_dir(flags)),
                                    lba,
                                    size,
                                    is_dir: flags_is_dir(flags),
                                }
                            }
                        }
                    },
                },
            }
        }
    }
}

pub proof fn lemma_record_at_advances(raw: Seq<u8>, pos: int, encoding: NameEncoding)
    ensures
        record_at(raw, pos, encoding) matches RecordAt::Skip(n) ==> pos < n,
        record_at(raw, pos, encoding) matches RecordAt::Entry { next, .. } ==> pos < next,
{
}

/// The entries described by the directory records of `raw` from `pos` on;
/// directories are read recursively, one level deeper.
pub open spec fn spec_records(
    img: Seq<u8>,
    raw: Seq<u8>,
    pos: int,
    encoding: NameEncoding,
    anc: Set<u32>,
    depth: nat,
) -> Result<Seq<EntryView>, IsoFailure>
    decreases 65 - depth, raw.len() - pos,
    when 0 <= pos && depth <= 64
{
    proof {
        lemma_record_at_advances(raw, pos, encoding);
    }
    match record_at(raw, pos, encoding) {
        RecordAt::End => Ok(Seq::empty()),
        RecordAt::Skip(next) => spec_records(img, raw, next, encoding, anc, depth),
        RecordAt::Fail(m) => Err(IsoFailure::Message(m)),
        RecordAt::Entry { next, name, lba, size, is_dir } => {
            let kind = if is_dir {
                match spec_read_dir(img, lba, size, encoding, anc, depth + 1) {
                    Err(f) => Err(f),
                    Ok(children) => Ok(KindView::Dir(children)),
                }
            } else {
                Ok(KindView::File { lba, size })
            };
            match kind {
                Err(f) => Err(f),
                Ok(kind) => match spec_records(img, raw, next, encoding, anc, depth) {
                    Err(f) => Err(f),
                    Ok(rest) => Ok(seq![EntryView { name, kind }] + rest),
                },
            }
        },
    }
}

/// A directory record read out of an extent.
pub enum RecordStep {
    End,
    Skip(usize),
    Entry { next: usize, name: String, lba: u32, size: u32, is_dir: bool },
}

/// Reads the directory record at `pos` of the extent `raw`.
pub fn parse_record(raw: &[u8], pos: usize, encoding: NameEncoding) -> (r: Result<RecordStep, Error>)
    ensures
        r matches Ok(RecordStep::End) ==> record_at(raw@, pos as int, encoding) == RecordAt::End,
        r matches Ok(RecordStep::Skip(n)) ==> record_at(raw@, pos as int, encoding)
            == RecordAt::Skip(n as int),
        r matches Ok(RecordStep::Entry { next, name, lba, size, is_dir }) ==> record_at(
            raw@,
            pos as int,
            encoding,
        ) == (RecordAt::Entry { next: next as int, name: name@, lba, size, is_dir }),
        r matches Err(e) ==> (e matches Error::Iso9660(m) && record_at(raw@, pos as int, encoding)
            == RecordAt::Fail(m@)),
{
    if pos >= raw.len() {
        return Ok(RecordStep::End);
    }
    let len_dr = raw[pos] as usize;
    if len_dr == 0 {
        let to_block_end = 0x800 - pos % 0x800;
        if to_block_end >= raw.len() - pos {
            return Ok(RecordStep::End);
        }
        return Ok(RecordStep::Skip(pos + to_block_end));
    }
    if len_dr > raw.len() - pos {
        return Err(Error::Iso9660(message("Directory record extends past directory data")));
    }
    if (pos % 0x800) + len_dr > 0x800 {
        return Err(Error::Iso9660(message("Directory record crosses sector boundary")));
    }
    let next = pos + len_dr;
    if len_dr < 33 {
        return Ok(RecordStep::Skip(next));
    }
    let rec = &raw[pos..next];
    let lba = match parse_both_endian_u32(&rec[2..10], "directory entry LBA") {
        Ok(v) => v,
        Err(e) => return Err(e),
    };
    let size = match parse_both_endian_u32(&rec[10..18], "directory entry size") {
        Ok(v) => v,
        Err(e) => return Err(e),
    };
    let flags = rec[25];
    let len_fi = rec[32] as usize;
    if 33 + len_fi > len_dr {
        return Ok(RecordStep::Skip(next));
    }
    let raw_name = &rec[33..33 + len_fi];
    // Skip the '.' (0x00) and '..' (0x01) self/parent entries.
    if len_fi == 1 && (raw_name[0] == 0x00 || raw_name[0] == 0x01) {
        return Ok(RecordStep::Skip(next));
    }
    // Joliet identifiers are UCS-2BE: an odd length cannot be decoded faithfully.
    if encoding == NameEncoding::Joliet && len_fi % 2 != 0 {
        return Err(
            Error::Iso9660(
                message_with_number(
                    "Joliet file identifier length ",
                    len_fi as u64,
                    " is not a multiple of 2",
                ),
            ),
        );
    }
    // Only files recorded in a single extent are read.
    if flags & 0x80 != 0 {
        assert(flags_is_multi_extent(flags)) by {
            assert((flags & 0x80u8 != 0) == (flags >= 0x80)) by (bit_vector);
        }
        return Err(Error::Iso9660(message("Multi-extent file records are not supported")));
    }
    assert(!flags_is_multi_extent(flags)) by {
        assert((flags & 0x80u8 != 0) == (flags >= 0x80)) by (bit_vector);
    }
    let is_dir = flags & 0x02 != 0;
    assert(is_dir == flags_is_dir(flags)) by {
        assert((flags & 0x02u8 != 0) == ((flags / 2) % 2 == 1)) by (bit_vector);
    }
    let name = decode_name(raw_name, encoding, is_dir);
    Ok(RecordStep::Entry { next, name, lba, size, is_dir })
}

/// How an attempt to read entries relates to what the image says: a
/// failure is an I/O error of the source or an ISO9660 message; and where
/// the source is `modeled`, a success gives exactly the entries, a message
/// is exactly the one the image calls for, where the image runs out the
/// source fails, and a reliable source fails only there.
pub open spec fn dir_outcome(
    r: Result<Vec<DirEntry>, Error>,
    s: Result<Seq<EntryView>, IsoFailure>,
    modeled: bool,
    reliable: bool,
) -> bool {
    &&& r matches Err(e) ==> (e is Io || e is Iso9660)
    &&& modeled ==> {
        &&& r matches Ok(es) ==> s == Ok::<Seq<EntryView>, IsoFailure>(entries_view(es@))
        &&& r matches Err(e) ==> (e is Io || (e matches Error::Iso9660(m) && s == Err::<
            Seq<EntryView>,
            IsoFailure,
        >(IsoFailure::Message(m@))))
        &&& s == Err::<Seq<EntryView>, IsoFailure>(IsoFailure::Unreadable) ==> (r matches Err(e)
            && e is Io)
        &&& (reliable && (r matches Err(e) && e is Io)) ==> s == Err::<Seq<EntryView>, IsoFailure>(
            IsoFailure::Unreadable,
        )
    }
}

/// `done` followed by what `s` gives, or the failure of `s`.
pub open spec fn after(done: Seq<EntryView>, s: Result<Seq<EntryView>, IsoFailure>) -> Result<
    Seq<EntryView>,
    IsoFailure,
> {
    match s {
        Ok(rest) => Ok(done + rest),
        Err(f) => Err(f),
    }
}

proof fn lemma_after_push(done: Seq<EntryView>, e: EntryView, rest: Result<Seq<EntryView>, IsoFailure>)
    ensures
        after(done, match rest {
            Ok(r) => Ok(seq![e] + r),
            Err(f) => Err(f),
        }) == after(done.push(e), rest),
{
    if let Ok(r) = rest {
        assert(done + (seq![e] + r) == done.push(e) + r);
    }
}

/// The entries of the directory at `lba`, `size_bytes` long, read
/// recursively; `ancestors` holds the directories on the current path and
/// is as it was on return.
pub fn read_directory<R: RawSource>(
    reader: &mut R,
    lba: u32,
    size_bytes: u32,
    encoding: NameEncoding,
    ancestors: &mut HashSet<u32>,
    depth: usize,
) -> (r: Result<Vec<DirEntry>, Error>)
    requires
        old(reader).ready(),
    ensures
        final(reader).ready(),
        final(reader).bytes() == old(reader).bytes(),
        final(reader).reliable() == old(reader).reliable(),
        final(reader).modeled() == old(reader).modeled(),
        final(ancestors)@ == old(ancestors)@,
        dir_outcome(
            r,
            spec_read_dir(old(reader).bytes(), lba, size_bytes, encoding, old(ancestors)@, depth as nat),
            old(reader).modeled(),
            old(reader).reliable(),
        ),
        depth > MAX_DIRECTORY_DEPTH || size_bytes > MAX_DIRECTORY_BYTES || old(ancestors)@.contains(lba)
            ==> (r matches Err(Error::Iso9660(m)) && spec_read_dir(
            old(reader).bytes(),
            lba,
            size_bytes,
            encoding,
            old(ancestors)@,
            depth as nat,
        ) == Err::<Seq<EntryView>, IsoFailure>(IsoFailure::Message(m@)) && *final(reader) == *old(reader)),
    decreases 65 - depth, 1int,
{
    broadcast use vstd::std_specs::hash::group_hash_axioms;

    if depth > MAX_DIRECTORY_DEPTH {
        return Err(Error::Iso9660(message("Directory nesting deeper than 64 levels")));
    }
    if size_bytes > MAX_DIRECTORY_BYTES {
        let mut v = chars_of("Directory extent at LBA ");
        let d = decimal(lba as u64);
        append_chars(&mut v, d.as_slice());
        let t = chars_of(" declares ");
        append_chars(&mut v, t.as_slice());
        let d = decimal(size_bytes as u64);
        append_chars(&mut v, d.as_slice());
        let t = chars_of(" bytes, exceeds 16777216-byte cap");
        append_chars(&mut v, t.as_slice());
        return Err(Error::Iso9660(string_from_chars(v.as_slice())));
    }
    // Track only the current recursion path: a directory whose LBA is on it is a cycle.
    let ghost before = ancestors@;
    if !ancestors.insert(lba) {
        assert(ancestors@ =~= before);
        return Err(
            Error::Iso9660(message_with_number("Directory cycle detected at LBA ", lba as u64, "")),
        );
    }
    let result = read_directory_body(reader, lba, size_bytes, encoding, ancestors, depth);
    ancestors.remove(&lba);
    assert(ancestors@ =~= before);
    result
}

fn read_directory_body<R: RawSource>(
    reader: &mut R,
    lba: u32,
    size_bytes: u32,
    encoding: NameEncoding,
    ancestors: &mut HashSet<u32>,
    depth: usize,
) -> (r: Result<Vec<DirEntry>, Error>)
    requires
        old(reader).ready(),
        depth <= 64,
        size_bytes <= 0x100_0000,
    ensures
        final(reader).ready(),
        final(reader).bytes() == old(reader).bytes(),
        final(reader).reliable() == old(reader).reliable(),
        final(reader).modeled() == old(reader).modeled(),
        final(ancestors)@ == old(ancestors)@,
        dir_outcome(
            r,
            if lba * 0x800 + size_bytes > old(reader).bytes().len() {
                Err(IsoFailure::Unreadable)
            } else {
                spec_records(
                    old(reader).bytes(),
                    old(reader).bytes().subrange(lba * 0x800, lba * 0x800 + size_bytes),
                    0,
                    encoding,
                    old(ancestors)@,
                    depth as nat,
                )
            },
            old(reader).modeled(),
            old(reader).reliable(),
        ),
    decreases 65 - depth, 0int,
{
    let ghost img = reader.bytes();
    let ghost anc = ancestors@;
    let raw = match reader.read_exact_at(lba as u64 * SECTOR, size_bytes as usize) {
        Ok(v) => v,
        Err(e) => return Err(e),
    };
    let ghost spec_all = spec_records(img, raw@, 0, encoding, anc, depth as nat);
    let mut entries: Vec<DirEntry> = Vec::new();
    let mut pos: usize = 0;
    loop
        invariant
            reader.ready(),
            reader.bytes() == img,
            old(reader).bytes() == img,
            reader.reliable() == old(reader).reliable(),
            ancestors@ == anc,
            old(ancestors)@ == anc,
            depth <= 64,
            reader.modeled() == old(reader).modeled(),
            raw@.len() == size_bytes,
            pos <= raw@.len(),
            reader.modeled() ==> raw@ == img.subrange(lba * 0x800, lba * 0x800 + size_bytes),
            reader.modeled() ==> lba * 0x800 + size_bytes <= img.len(),
            spec_all == spec_records(img, raw@, 0, encoding, anc, depth as nat),
            reader.modeled() ==> spec_all == after(
                entries_view(entries@),
                spec_records(img, raw@, pos as int, encoding, anc, depth as nat),
            ),
        decreases raw@.len() - pos,
    {
        match parse_record(raw.as_slice(), pos, encoding) {
            Err(e) => return Err(e),
            Ok(RecordStep::End) => {
                assert(entries_view(entries@) + Seq::<EntryView>::empty() == entries_view(entries@));
                return Ok(entries);
            },
            Ok(RecordStep::Skip(next)) => {
                proof {
                    lemma_record_at_advances(raw@, pos as int, encoding);
                }
                pos = next;
            },
            Ok(RecordStep::Entry { next, name, lba: entry_lba, size: entry_size, is_dir }) => {
                proof {
                    lemma_record_at_advances(raw@, pos as int, encoding);
                }
                let kind = if is_dir {
                    match read_directory(reader, entry_lba, entry_size, encoding, ancestors, depth + 1) {
                        Ok(children) => EntryKind::Dir(children),
                        Err(e) => return Err(e),
                    }
                } else {
                    EntryKind::File { lba: entry_lba, size: entry_size }
                };
                let entry = DirEntry { name, kind };
                let ghost prev = entries@;
                proof {
                    lemma_after_push(
                        entries_view(prev),
                        entry.view(),
                        spec_records(img, raw@, next as int, encoding, anc, depth as nat),
                    );
                    lemma_entries_view_push(prev, entry);
                }
                entries.push(entry);
                pos = next;
            },
        }
    }
}

/// The directory tree of the image `img`: the volume descriptors are read,
/// a Joliet tree is preferred over the primary one, and the root's entries
/// are returned (the root itself has no name).
pub open spec fn spec_read_tree(img: Seq<u8>) -> Result<Seq<EntryView>, IsoFailure> {
    match spec_descriptors(img, 16, Seq::empty()) {
        Err(f) => Err(f),
        Ok(ds) => match root_choice(ds) {
            None => Err(IsoFailure::Message("No primary volume descriptor found"@)),
            Some((lba, size, encoding)) => spec_read_dir(img, lba, size, encoding, Set::empty(), 0),
        },
    }
}

/// Reads the directory tree that the volume descriptors `descriptors` lead
/// to, preferring Joliet over the primary tree. Without either, nothing
/// more is read: the source is left as it was.
pub fn read_tree_from<R: RawSource>(reader: &mut R, descriptors: &[VolDesc]) -> (r: Result<Vec<DirEntry>, Error>)
    requires
        old(reader).ready(),
    ensures
        final(reader).ready(),
        final(reader).bytes() == old(reader).bytes(),
        final(reader).reliable() == old(reader).reliable(),
        final(reader).modeled() == old(reader).modeled(),
        root_choice(descriptors@) is None ==> (r matches Err(Error::Iso9660(m)) && m@
            == "No primary volume descriptor found"@ && *final(reader) == *old(reader)),
        root_choice(descriptors@) matches Some((lba, size, encoding)) ==> dir_outcome(
            r,
            spec_read_dir(old(reader).bytes(), lba, size, encoding, Set::empty(), 0),
            old(reader).modeled(),
            old(reader).reliable(),
        ),
{
    let (root_lba, root_size, encoding) = match choose_root(descriptors) {
        Some(c) => c,
        None => {
            return Err(Error::Iso9660(message("No primary volume descriptor found")));
        },
    };
    let mut ancestors: HashSet<u32> = HashSet::new();
    assert(ancestors@ == Set::<u32>::empty());
    read_directory(reader, root_lba, root_size, encoding, &mut ancestors, 0)
}

/// Reads the disc's directory tree, choosing Joliet if available and falling
/// back to the primary volume descriptor otherwise. Returns the root
/// directory's children.
pub fn read_tree<R: RawSource>(reader: &mut R) -> (r: Result<Vec<DirEntry>, Error>)
    requires
        old(reader).ready(),
    ensures
        final(reader).ready(),
        final(reader).bytes() == old(reader).bytes(),
        final(reader).reliable() == old(reader).reliable(),
        final(reader).modeled() == old(reader).modeled(),
        dir_outcome(r, spec_read_tree(old(reader).bytes()), old(reader).modeled(), old(reader).reliable()),
{
    let descriptors = match read_volume_descriptors(reader) {
        Ok(d) => d,
        Err(e) => return Err(e),
    };
    read_tree_from(reader, descriptors.as_slice())
}

/// The `size` bytes of the file whose extent starts at `lba`.
pub open spec fn file_bytes(img: Seq<u8>, lba: u32, size: u32) -> Seq<u8> {
    if size == 0 {
        Seq::empty()
    } else {
        img.subrange(lba * 0x800, lba * 0x800 + size)
    }
}

/// Streams the `size` bytes of the file whose extent starts at `lba` into
/// `writer`, a sector at a time.
pub fn copy_file<R: RawSource, W: ByteSink>(reader: &mut R, writer: &mut W, lba: u32, size: u32) -> (r: Result<(), Error>)
    requires
        old(reader).ready(),
    ensures
        final(reader).ready(),
        final(reader).bytes() == old(reader).bytes(),
        final(reader).modeled() == old(reader).modeled(),
        old(reader).modeled() ==> (r is Ok && size > 0 ==> lba * 0x800 + size <= old(
            reader,
        ).bytes().len()),
        old(reader).modeled() && old(writer).modeled() ==> (r is Ok ==> final(writer).written()
            == old(writer).written() + file_bytes(old(reader).bytes(), lba, size)),
        old(reader).modeled() ==> (lba * 0x800 + size > old(reader).bytes().len() && size > 0
            ==> r is Err),
        final(reader).reliable() == old(reader).reliable(),
        old(reader).reliable() && old(writer).reliable() && (size == 0 || lba * 0x800 + size
            <= old(reader).bytes().len()) ==> r is Ok,
        r matches Err(e) ==> e is Io,
        r is Err && old(reader).modeled() && old(writer).modeled() && old(writer).reliable() ==> ({
            let k = final(writer).written().len() - old(writer).written().len();
            &&& 0 <= k < size
            &&& k % 0x800 == 0
            &&& final(writer).written() == old(writer).written() + (if k == 0 {
                Seq::empty()
            } else {
                old(reader).bytes().subrange(lba * 0x800, lba * 0x800 + k)
            })
        }),
        r is Err && old(reader).modeled() && old(reader).reliable() && old(writer).modeled() && old(
            writer,
        ).reliable() ==> ({
            let k = final(writer).written().len() - old(writer).written().len();
            let want = if size - k < 0x800 {
                size - k
            } else {
                0x800
            };
            &&& k > 0 ==> lba * 0x800 + k <= old(reader).bytes().len()
            &&& lba * 0x800 + k + want > old(reader).bytes().len()
        }),
{
    let ghost img = reader.bytes();
    let ghost start = lba * 0x800;
    let mut pos: u64 = lba as u64 * SECTOR;
    let mut remaining: u64 = size as u64;
    assert(writer.written() + Seq::<u8>::empty() == writer.written());
    while remaining > 0
        invariant
            reader.ready(),
            reader.bytes() == img,
            old(reader).bytes() == img,
            start == lba * 0x800,
            pos == start + (size - remaining),
            remaining <= size,
            reader.modeled() == old(reader).modeled(),
            writer.modeled() == old(writer).modeled(),
            reader.modeled() ==> (remaining < size ==> pos <= img.len()),
            reader.reliable() == old(reader).reliable(),
            writer.reliable() == old(writer).reliable(),
            remaining > 0 ==> (size - remaining) % 0x800 == 0,
            reader.modeled() && writer.modeled() ==> writer.written() == old(writer).written() + (if remaining == size {
                Seq::empty()
            } else {
                img.subrange(start, pos as int)
            }),
        decreases remaining,
    {
        let want: u64 = if remaining < SECTOR {
            remaining
        } else {
            SECTOR
        };
        let data = match reader.read_exact_at(pos, want as usize) {
            Ok(d) => d,
            Err(e) => return Err(e),
        };
        let ghost before = writer.written();
        match writer.write_all(data.as_slice()) {
            Ok(()) => {},
            Err(e) => return Err(e),
        }
        proof {
            if reader.modeled() && writer.modeled() {
                assert(img.subrange(start, pos + want) =~= (if remaining == size {
                    Seq::empty()
                } else {
                    img.subrange(start, pos as int)
                }) + data@);
            }
        }
        pos = pos + want;
        remaining = remaining - want;
    }
    Ok(())
}

} // verus!
