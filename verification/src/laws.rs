//! Properties of the library that span several functions.

use crate::bytes::{be32, le32};
use crate::convert::iso_layout;
use crate::cooked::{cooked_image, cooked_step, user_data_start, CookedSectorReader};
use crate::extract::{
    entry_listing,
    entry_plan,
    escape_control,
    is_control_char,
    listing,
    plan,
    safe_name,
    shown_char,
    StepView,
};
use crate::iso9660::{
    cd001,
    flags_is_dir,
    spec_descriptors,
    first_joliet,
    first_primary,
    lemma_record_at_advances,
    record_at,
    root_choice,
    spec_both_endian,
    spec_read_dir,
    spec_read_tree,
    spec_records,
    IsoFailure,
    RecordAt,
    strip_file_suffixes,
    last_semicolon,
    EntryView,
    KindView,
    NameEncoding,
    VolDesc,
};
use crate::mds::header::mds_signature;
use crate::mds::mds::{spec_mds, MdsView};
use crate::mds::Fault;
use crate::mds::track::{
    spec_track,
    spec_track_filename,
    spec_track_index,
    subchannels_of,
    track_mode_of,
    TrackMode,
};
use crate::source::RawSource;
use crate::text::{dec, digit, hex, hex_digit};
use crate::unicode::{is_lead_surrogate, is_trail_surrogate, utf16_decode};
use vstd::prelude::*;

verus! {

/// The 2048 bytes of user data always lie within a raw sector's main data.
pub proof fn lemma_user_data_within_sector(mode: TrackMode, data_size: int)
    ensures
        user_data_start(mode, data_size) matches Some(start) ==> 0 <= start && start + 0x800
            <= data_size,
{
}

/// ISO conversion and the cooked reader accept exactly the same track
/// layouts, and take the user data from the same place in each raw sector.
pub proof fn lemma_iso_layout_agrees_with_cooked(mode: TrackMode, data_size: int)
    ensures
        iso_layout(mode, data_size) == user_data_start(mode, data_size),
{
}

/// So for every track that converts, the `.iso` that conversion writes is
/// byte for byte the cooked stream that extraction reads the ISO9660 tree from.
pub proof fn lemma_iso_output_is_cooked_view(
    raw: Seq<u8>,
    base: int,
    raw_size: int,
    mode: TrackMode,
    data_size: int,
    num_sectors: int,
)
    requires
        iso_layout(mode, data_size) is Some,
    ensures
        user_data_start(mode, data_size) is Some,
        cooked_image(raw, base, raw_size, iso_layout(mode, data_size).unwrap(), num_sectors)
            == cooked_image(raw, base, raw_size, user_data_start(mode, data_size).unwrap(), num_sectors),
{
    lemma_iso_layout_agrees_with_cooked(mode, data_size);
}

/// The little-endian bytes of `v`.
pub open spec fn le_bytes(v: u32) -> Seq<u8> {
    seq![(v % 0x100) as u8, ((v / 0x100) % 0x100) as u8, ((v / 0x1_0000) % 0x100) as u8, (v / 0x100_0000) as u8]
}

/// The big-endian bytes of `v`.
pub open spec fn be_bytes(v: u32) -> Seq<u8> {
    seq![(v / 0x100_0000) as u8, ((v / 0x1_0000) % 0x100) as u8, ((v / 0x100) % 0x100) as u8, (v % 0x100) as u8]
}

/// A both-endian field written for a value reads back as that value.
pub proof fn lemma_both_endian_roundtrip(v: u32, context: Seq<char>)
    ensures
        spec_both_endian(le_bytes(v) + be_bytes(v), context) == Ok::<u32, Seq<char>>(v),
{
    let f = le_bytes(v) + be_bytes(v);
    let b0 = v % 0x100;
    let b1 = (v / 0x100) % 0x100;
    let b2 = (v / 0x1_0000) % 0x100;
    let b3 = v / 0x100_0000;
    assert(v == b0 + b1 * 0x100 + b2 * 0x1_0000 + b3 * 0x100_0000 && b3 < 0x100) by (nonlinear_arith)
        requires
            b0 == v % 0x100,
            b1 == (v / 0x100) % 0x100,
            b2 == (v / 0x1_0000) % 0x100,
            b3 == v / 0x100_0000,
            0 <= v < 0x1_0000_0000,
    ;
    assert(f[0] == b0 && f[1] == b1 && f[2] == b2 && f[3] == b3);
    assert(f[4] == b3 && f[5] == b2 && f[6] == b1 && f[7] == b0);
    assert(le32(f, 0) == v);
    assert(be32(f, 4) == v);
}

/// A file identifier `name;version` loses its version suffix, and nothing
/// else, when the name has no `;` and does not end in `.`.
pub proof fn lemma_version_suffix_stripped(name: Seq<char>, version: Seq<char>)
    requires
        !name.contains(';'),
        !version.contains(';'),
        name.len() > 0 ==> name.last() != '.',
    ensures
        strip_file_suffixes(name + seq![';'] + version) == name,
{
    let s = name + seq![';'] + version;
    let k = name.len() as int;
    assert(s[k] == ';');
    assert forall|j: int| k < j <= s.len() implies last_semicolon(s, j) == Some(k) by {
        lemma_last_semicolon_from(s, k, j);
    }
    assert(last_semicolon(s, s.len() as int) == Some(k));
    assert(s.take(k) == name);
}

proof fn lemma_last_semicolon_from(s: Seq<char>, k: int, j: int)
    requires
        0 <= k < j <= s.len(),
        s[k] == ';',
        forall|m: int| k < m < s.len() ==> s[m] != ';',
    ensures
        last_semicolon(s, j) == Some(k),
    decreases j,
{
    if j - 1 > k {
        lemma_last_semicolon_from(s, k, j - 1);
    }
}

/// Whenever the volume descriptors include a Joliet supplementary
/// descriptor, the tree is read with Joliet names.
pub proof fn lemma_joliet_preferred(ds: Seq<VolDesc>, i: int)
    requires
        0 <= i < ds.len(),
        ds[i] matches VolDesc::Supplementary { joliet, .. } && joliet,
    ensures
        root_choice(ds) matches Some((_, _, e)) && e == NameEncoding::Joliet,
{
    lemma_first_joliet_found(ds, 0, i);
}

proof fn lemma_first_joliet_found(ds: Seq<VolDesc>, from: int, i: int)
    requires
        0 <= from <= i < ds.len(),
        ds[i] matches VolDesc::Supplementary { joliet, .. } && joliet,
    ensures
        first_joliet(ds, from) is Some,
    decreases i - from,
{
    if from < i {
        match ds[from] {
            VolDesc::Supplementary { joliet: true, .. } => {},
            _ => lemma_first_joliet_found(ds, from + 1, i),
        }
    }
}

/// Without a Joliet descriptor, the tree is read with primary names
/// whenever there is a primary descriptor.
pub proof fn lemma_primary_fallback(ds: Seq<VolDesc>, i: int)
    requires
        0 <= i < ds.len(),
        ds[i] is Primary,
        forall|k: int| 0 <= k < ds.len() ==> !(#[trigger] ds[k] matches VolDesc::Supplementary { joliet, .. } && joliet),
    ensures
        root_choice(ds) matches Some((_, _, e)) && e == NameEncoding::Primary,
{
    lemma_no_joliet_from(ds, 0);
    lemma_first_primary_found(ds, 0, i);
}

proof fn lemma_no_joliet_from(ds: Seq<VolDesc>, from: int)
    requires
        0 <= from <= ds.len(),
        forall|k: int| 0 <= k < ds.len() ==> !(#[trigger] ds[k] matches VolDesc::Supplementary { joliet, .. } && joliet),
    ensures
        first_joliet(ds, from) is None,
    decreases ds.len() - from,
{
    if from < ds.len() {
        assert(!(ds[from] matches VolDesc::Supplementary { joliet, .. } && joliet));
        lemma_no_joliet_from(ds, from + 1);
    }
}

proof fn lemma_first_primary_found(ds: Seq<VolDesc>, from: int, i: int)
    requires
        0 <= from <= i < ds.len(),
        ds[i] is Primary,
    ensures
        first_primary(ds, from) is Some,
    decreases i - from,
{
    if from < i {
        match ds[from] {
            VolDesc::Primary { .. } => {},
            _ => lemma_first_primary_found(ds, from + 1, i),
        }
    }
}

/// UTF-16 text without surrogates decodes to one character per unit.
pub proof fn lemma_utf16_without_surrogates(u: Seq<u16>)
    requires
        forall|i: int| 0 <= i < u.len() ==> !is_lead_surrogate(#[trigger] u[i]) && !is_trail_surrogate(u[i]),
    ensures
        utf16_decode(u) == Seq::new(u.len(), |i: int| u[i] as char),
    decreases u.len(),
{
    if u.len() > 0 {
        let t = u.drop_first();
        assert forall|i: int| 0 <= i < t.len() implies !is_lead_surrogate(#[trigger] t[i]) && !is_trail_surrogate(t[i]) by {
            assert(t[i] == u[i + 1]);
        }
        lemma_utf16_without_surrogates(t);
        assert(seq![u[0] as char] + Seq::new(t.len(), |i: int| t[i] as char) =~= Seq::new(u.len(), |i: int| u[i] as char));
    }
}

/// A file that does not open with `MEDIA DESCRIPTOR` is not read as an image.
pub proof fn lemma_signature_required(input: Seq<u8>)
    requires
        input.len() >= 16,
        input.take(16) != mds_signature(),
    ensures
        spec_mds(input) == Err::<MdsView, Fault>(Fault::Malformed),
{
}

/// Every path that extraction writes to is made only of safe names below the
/// output directory: no component is empty, `.`, `..`, or holds a separator
/// or other forbidden character.
pub proof fn lemma_plan_paths_safe(es: Seq<EntryView>, prefix: Seq<Seq<char>>)
    requires
        forall|k: int| 0 <= k < prefix.len() ==> safe_name(#[trigger] prefix[k]),
    ensures
        forall|i: int| 0 <= i < plan(es, prefix).0.len() ==> step_is_safe(#[trigger] plan(es, prefix).0[i]),
    decreases es,
{
    if es.len() > 0 {
        lemma_entry_plan_safe(es[0], prefix);
        let (a, stop) = entry_plan(es[0], prefix);
        if !stop {
            let rest = es.subrange(1, es.len() as int);
            lemma_plan_paths_safe(rest, prefix);
            let (b, _) = plan(rest, prefix);
            assert forall|i: int| 0 <= i < (a + b).len() implies step_is_safe(#[trigger] (a + b)[i]) by {
                if i >= a.len() {
                    assert((a + b)[i] == b[i - a.len()]);
                }
            }
        }
    }
}

/// A step's path, if it has one, is made only of safe names.
pub open spec fn step_is_safe(s: StepView) -> bool {
    match s {
        StepView::MakeDir(p) => forall|k: int| 0 <= k < p.len() ==> safe_name(#[trigger] p[k]),
        StepView::WriteFile { path, .. } => forall|k: int| 0 <= k < path.len() ==> safe_name(#[trigger] path[k]),
        StepView::Reject(_) => true,
    }
}

proof fn lemma_entry_plan_safe(e: EntryView, prefix: Seq<Seq<char>>)
    requires
        forall|k: int| 0 <= k < prefix.len() ==> safe_name(#[trigger] prefix[k]),
    ensures
        forall|i: int| 0 <= i < entry_plan(e, prefix).0.len() ==> step_is_safe(#[trigger] entry_plan(e, prefix).0[i]),
    decreases e,
{
    if safe_name(e.name) {
        let p = prefix.push(e.name);
        assert forall|k: int| 0 <= k < p.len() implies safe_name(#[trigger] p[k]) by {
            if k < prefix.len() {
                assert(p[k] == prefix[k]);
            }
        }
        match e.kind {
            KindView::Dir(children) => {
                lemma_plan_paths_safe(children, p);
                let (b, _) = plan(children, p);
                let a = seq![StepView::MakeDir(p)];
                assert forall|i: int| 0 <= i < (a + b).len() implies step_is_safe(#[trigger] (a + b)[i]) by {
                    if i >= 1 {
                        assert((a + b)[i] == b[i - 1]);
                    }
                }
            },
            KindView::File { .. } => {},
        }
    }
}

/// Text without control characters.
pub open spec fn free_of_control(s: Seq<char>) -> bool {
    forall|i: int| 0 <= i < s.len() ==> !is_control_char(#[trigger] s[i])
}

proof fn lemma_concat_free(a: Seq<char>, b: Seq<char>)
    requires
        free_of_control(a),
        free_of_control(b),
    ensures
        free_of_control(a + b),
{
    assert forall|i: int| 0 <= i < (a + b).len() implies !is_control_char(#[trigger] (a + b)[i]) by {
        if i >= a.len() {
            assert((a + b)[i] == b[i - a.len()]);
        } else {
            assert((a + b)[i] == a[i]);
        }
    }
}

proof fn lemma_hex_free(n: nat)
    ensures
        free_of_control(hex(n)),
    decreases n,
{
    if n >= 16 {
        lemma_hex_free(n / 16);
        lemma_concat_free(hex(n / 16), seq![hex_digit((n % 16) as int)]);
        assert(hex(n) == hex(n / 16) + seq![hex_digit((n % 16) as int)]);
    }
}

proof fn lemma_dec_free(n: nat)
    ensures
        free_of_control(dec(n)),
    decreases n,
{
    if n >= 10 {
        lemma_dec_free(n / 10);
        lemma_concat_free(dec(n / 10), seq![digit((n % 10) as int)]);
        assert(dec(n) == dec(n / 10) + seq![digit((n % 10) as int)]);
    }
}

proof fn lemma_escape_free(s: Seq<char>)
    ensures
        free_of_control(escape_control(s)),
    decreases s.len(),
{
    if s.len() > 0 {
        lemma_escape_free(s.drop_last());
        let c = s.last();
        if is_control_char(c) {
            lemma_hex_free(c as u32 as nat);
            lemma_concat_free(seq!['\\', 'u', '{'], hex(c as u32 as nat));
            lemma_concat_free(seq!['\\', 'u', '{'] + hex(c as u32 as nat), seq!['}']);
        }
        lemma_concat_free(escape_control(s.drop_last()), shown_char(c));
    }
}

/// No line of the `--list` view holds a control character, whatever the
/// names on the disc: control characters in names are shown escaped.
pub proof fn lemma_listing_free_of_control(es: Seq<EntryView>, indent: Seq<char>)
    requires
        free_of_control(indent),
    ensures
        forall|i: int| 0 <= i < listing(es, indent).len() ==> free_of_control(#[trigger] listing(es, indent)[i]),
    decreases es,
{
    if es.len() > 0 {
        lemma_entry_listing_free(es[0], indent);
        let rest = es.subrange(1, es.len() as int);
        lemma_listing_free_of_control(rest, indent);
        let a = entry_listing(es[0], indent);
        let b = listing(rest, indent);
        assert forall|i: int| 0 <= i < (a + b).len() implies free_of_control(#[trigger] (a + b)[i]) by {
            if i >= a.len() {
                assert((a + b)[i] == b[i - a.len()]);
            } else {
                assert((a + b)[i] == a[i]);
            }
        }
    }
}

proof fn lemma_entry_listing_free(e: EntryView, indent: Seq<char>)
    requires
        free_of_control(indent),
    ensures
        forall|i: int| 0 <= i < entry_listing(e, indent).len() ==> free_of_control(#[trigger] entry_listing(e, indent)[i]),
    decreases e,
{
    reveal_strlit("/");
    reveal_strlit("  ");
    reveal_strlit("  (");
    reveal_strlit(" bytes)");
    lemma_escape_free(e.name);
    lemma_concat_free(indent, escape_control(e.name));
    match e.kind {
        KindView::Dir(children) => {
            lemma_concat_free(indent + escape_control(e.name), "/"@);
            lemma_concat_free(indent, "  "@);
            lemma_listing_free_of_control(children, indent + "  "@);
            let a = seq![indent + escape_control(e.name) + "/"@];
            let b = listing(children, indent + "  "@);
            assert forall|i: int| 0 <= i < (a + b).len() implies free_of_control(#[trigger] (a + b)[i]) by {
                if i >= 1 {
                    assert((a + b)[i] == b[i - 1]);
                } else {
                    assert((a + b)[i] == a[0]);
                }
            }
        },
        KindView::File { size, .. } => {
            lemma_dec_free(size as nat);
            let x = indent + escape_control(e.name);
            lemma_concat_free(x, "  ("@);
            lemma_concat_free(x + "  ("@, dec(size as nat));
            lemma_concat_free(x + "  ("@ + dec(size as nat), " bytes)"@);
        },
    }
}

/// How many levels a tree spans: a file counts one level, a directory one
/// more than its contents.
pub open spec fn nesting(es: Seq<EntryView>) -> nat
    decreases es,
{
    if es.len() == 0 {
        0
    } else {
        let a = entry_nesting(es[0]);
        let b = nesting(es.subrange(1, es.len() as int));
        if a >= b {
            a
        } else {
            b
        }
    }
}

pub open spec fn entry_nesting(e: EntryView) -> nat
    decreases e,
{
    match e.kind {
        KindView::Dir(children) => 1 + nesting(children),
        KindView::File { .. } => 1,
    }
}

/// Whatever an image holds, a tree read from it spans at most 65 levels:
/// the root's entries, and directories nested no deeper than the limit of
/// 64, cycles included.
pub proof fn lemma_tree_nesting_bounded(img: Seq<u8>)
    ensures
        spec_read_tree(img) matches Ok(es) ==> nesting(es) <= 65,
{
    match root_choice_of(img) {
        Some((lba, size, encoding)) => {
            lemma_read_dir_nesting(img, lba, size, encoding, Set::empty(), 0);
        },
        None => {},
    }
}

/// The root that `spec_read_tree` walks, when the descriptors can be read.
spec fn root_choice_of(img: Seq<u8>) -> Option<(u32, u32, NameEncoding)> {
    match crate::iso9660::spec_descriptors(img, 16, Seq::empty()) {
        Ok(ds) => root_choice(ds),
        Err(_) => None,
    }
}

proof fn lemma_read_dir_nesting(
    img: Seq<u8>,
    lba: u32,
    size: u32,
    encoding: NameEncoding,
    anc: Set<u32>,
    depth: nat,
)
    ensures
        spec_read_dir(img, lba, size, encoding, anc, depth) matches Ok(es) ==> nesting(es) + depth <= 65,
    decreases 65 - depth, 0x100_0001int,
{
    if depth <= 64 && size <= 0x100_0000 && !anc.contains(lba) && lba * 0x800 + size <= img.len() {
        let raw = img.subrange(lba * 0x800, lba * 0x800 + size);
        lemma_records_nesting(img, raw, 0, encoding, anc.insert(lba), depth);
    }
}

#[verifier::spinoff_prover]
proof fn lemma_records_nesting(
    img: Seq<u8>,
    raw: Seq<u8>,
    pos: int,
    encoding: NameEncoding,
    anc: Set<u32>,
    depth: nat,
)
    requires
        0 <= pos,
        depth <= 64,
        raw.len() <= 0x100_0000,
    ensures
        spec_records(img, raw, pos, encoding, anc, depth) matches Ok(es) ==> nesting(es) + depth <= 65,
    decreases 65 - depth, raw.len() - pos,
{
    lemma_record_at_advances(raw, pos, encoding);
    match record_at(raw, pos, encoding) {
        RecordAt::Skip(next) => {
            if next <= raw.len() {
                lemma_records_nesting(img, raw, next, encoding, anc, depth);
            } else {
                lemma_records_past_end(img, raw, next, encoding, anc, depth);
            }
        },
        RecordAt::Entry { next, name, lba, size, is_dir } => {
            if next <= raw.len() {
                lemma_records_nesting(img, raw, next, encoding, anc, depth);
            } else {
                lemma_records_past_end(img, raw, next, encoding, anc, depth);
            }
            if is_dir {
                lemma_read_dir_nesting(img, lba, size, encoding, anc, depth + 1);
            }
            if let Ok(es) = spec_records(img, raw, pos, encoding, anc, depth) {
                let rest = spec_records(img, raw, next, encoding, anc, depth)->Ok_0;
                let kind = if is_dir {
                    KindView::Dir(spec_read_dir(img, lba, size, encoding, anc, depth + 1)->Ok_0)
                } else {
                    KindView::File { lba, size }
                };
                let e = EntryView { name, kind };
                assert(es == seq![e] + rest);
                assert(es[0] == e);
                assert(es.subrange(1, es.len() as int) == rest);
                assert(nesting(rest) + depth <= 65);
                assert(entry_nesting(e) + depth <= 65);
                assert(nesting(es) + depth <= 65);
            }
        },
        _ => {},
    }
}

proof fn lemma_records_past_end(
    img: Seq<u8>,
    raw: Seq<u8>,
    pos: int,
    encoding: NameEncoding,
    anc: Set<u32>,
    depth: nat,
)
    requires
        raw.len() < pos,
        depth <= 64,
    ensures
        spec_records(img, raw, pos, encoding, anc, depth) == Ok::<Seq<EntryView>, IsoFailure>(Seq::empty()),
{
}

/// Over any sequence of `read` and `seek` calls on a cooked reader,
/// successful or failed, the reader stays consistent, its cooked stream
/// (and so `cooked_len`) stays the one `new` set up, and whether its source
/// is modeled stays as it was. Since `read` gives, in every consistent
/// state of a modeled source, only bytes of that stream below its length, no
/// read after a failed load serves stale data or reads past the end.
pub proof fn lemma_cooked_reader_fixed<R: RawSource>(states: Seq<CookedSectorReader<R>>)
    requires
        states.len() > 0,
        states[0].wf(),
        forall|i: int| 0 <= i < states.len() - 1 ==> #[trigger] cooked_step(states[i], states[i + 1]),
    ensures
        forall|i: int| 0 <= i < states.len() ==> {
            &&& (#[trigger] states[i]).wf()
            &&& states[i].image() == states[0].image()
            &&& states[i].image().len() == states[0].image().len()
            &&& states[i].source().modeled() == states[0].source().modeled()
        },
    decreases states.len(),
{
    if states.len() > 1 {
        let front = states.drop_last();
        assert forall|i: int| 0 <= i < front.len() - 1 implies #[trigger] cooked_step(front[i], front[i + 1]) by {
            assert(front[i] == states[i] && front[i + 1] == states[i + 1]);
            assert(cooked_step(states[i], states[i + 1]));
        }
        lemma_cooked_reader_fixed(front);
        let n = states.len() - 1;
        let j = n - 1;
        assert(cooked_step(states[j], states[j + 1]));
        assert forall|i: int| 0 <= i < states.len() implies {
            &&& (#[trigger] states[i]).wf()
            &&& states[i].image() == states[0].image()
            &&& states[i].image().len() == states[0].image().len()
            &&& states[i].source().modeled() == states[0].source().modeled()
        } by {
            if i < n {
                assert(front[i] == states[i]);
                assert(front[0] == states[0]);
            } else {
                assert(front[n - 1] == states[n - 1]);
                assert(front[0] == states[0]);
            }
        }
    }
}

/// A zero length byte in a directory extent only pads out its 2048-byte
/// block: the records read from there are exactly those read from the next
/// block boundary, so a directory spanning several blocks yields the
/// entries of every block; at the last block the directory ends.
pub proof fn lemma_zero_length_pads_to_next_block(
    img: Seq<u8>,
    raw: Seq<u8>,
    pos: int,
    encoding: NameEncoding,
    anc: Set<u32>,
    depth: nat,
)
    requires
        0 <= pos < raw.len(),
        raw[pos] == 0,
        depth <= 64,
    ensures
        ({
            let b = (pos / 0x800 + 1) * 0x800;
            &&& b < raw.len() ==> spec_records(img, raw, pos, encoding, anc, depth) == spec_records(
                img,
                raw,
                b,
                encoding,
                anc,
                depth,
            )
            &&& b >= raw.len() ==> spec_records(img, raw, pos, encoding, anc, depth) == Ok::<
                Seq<EntryView>,
                IsoFailure,
            >(Seq::empty())
        }),
{
}

/// Only a set terminator (type 0xFF) ends the volume descriptors: a
/// sector with the standard identifier and any other type than primary or
/// supplementary (a boot record, a partition descriptor) is kept as `Other`
/// and the descriptors after it are read as well.
pub proof fn lemma_only_terminator_ends_descriptors(img: Seq<u8>, lba: int, acc: Seq<VolDesc>)
    requires
        0 <= lba < 48,
        (lba + 1) * 0x800 <= img.len(),
        img.subrange(lba * 0x800, (lba + 1) * 0x800).subrange(1, 6) == cd001(),
        img[lba * 0x800] != 0x01,
        img[lba * 0x800] != 0x02,
        img[lba * 0x800] != 0xFF,
    ensures
        spec_descriptors(img, lba, acc) == spec_descriptors(img, lba + 1, acc.push(VolDesc::Other)),
{
    assert(img.subrange(lba * 0x800, (lba + 1) * 0x800)[0] == img[lba * 0x800]);
}

/// The mode bytes of track blocks: 0x00 no recorded mode, 0xA9 audio,
/// 0xAA Mode 1, 0xAB and 0xEC Mode 2, 0xAC Mode 2 Form 1, 0xAD Mode 2
/// Form 2; every other byte names no mode.
pub proof fn lemma_mode_bytes(b: u8)
    ensures
        track_mode_of(b) == Some(TrackMode::Blank) <==> b == 0x00,
        track_mode_of(b) == Some(TrackMode::Audio) <==> b == 0xA9,
        track_mode_of(b) == Some(TrackMode::Mode1) <==> b == 0xAA,
        track_mode_of(b) == Some(TrackMode::Mode2) <==> (b == 0xAB || b == 0xEC),
        track_mode_of(b) == Some(TrackMode::Mode2Form1) <==> b == 0xAC,
        track_mode_of(b) == Some(TrackMode::Mode2Form2) <==> b == 0xAD,
        track_mode_of(b) is None <==> !(b == 0x00 || b == 0xA9 || b == 0xAA || b == 0xAB || b == 0xEC
            || b == 0xAC || b == 0xAD),
{
}

/// A track block whose mode byte is 0xEC is a Mode 2 track: it is read
/// whenever the rest of it is (its subchannel byte, index and file name
/// blocks), and then its mode is Mode 2.
pub proof fn lemma_mode_byte_ec_reads_as_mode2(input: Seq<u8>, off: int)
    requires
        0 <= off,
        off + 80 <= input.len(),
        input[off] == 0xEC,
        subchannels_of(input[off + 1]) is Some,
        spec_track_index(input, crate::bytes::le32(input, off + 12)) is Ok,
        spec_track_filename(input, crate::bytes::le32(input, off + 52)) is Some,
    ensures
        spec_track(input, off) matches Ok(t) && t.mode == TrackMode::Mode2,
{
    reveal(spec_track);
}

/// A directory record stands for a directory exactly when bit 1 (0x02) of
/// its file flags is set; the other bits (hidden, associated, record
/// format, protection, multi-extent) do not change that.
pub proof fn lemma_directory_flag_is_bit_1(f: u8, g: u8)
    ensures
        flags_is_dir(f) <==> f & 0x02 == 0x02,
        f & 0x02 == g & 0x02 ==> flags_is_dir(f) == flags_is_dir(g),
{
    assert(((f / 2) % 2 == 1) <==> f & 0x02 == 0x02) by (bit_vector);
    assert(((g / 2) % 2 == 1) <==> g & 0x02 == 0x02) by (bit_vector);
}

/// So a record read as an entry is a directory exactly when its flags
/// byte (offset 25 of the record) has bit 1 set.
pub proof fn lemma_record_directory_flag(raw: Seq<u8>, pos: int, encoding: NameEncoding)
    ensures
        record_at(raw, pos, encoding) matches RecordAt::Entry { is_dir, .. } ==> (is_dir <==> raw[pos
            + 25] & 0x02 == 0x02),
{
    if record_at(raw, pos, encoding) is Entry {
        let len_dr = raw[pos] as int;
        let rec = raw.subrange(pos, pos + len_dr);
        assert(rec[25] == raw[pos + 25]);
        lemma_directory_flag_is_bit_1(raw[pos + 25], raw[pos + 25]);
    }
}

/// Whether a step's path (if it has one) lies under `q`: it starts with all
/// of `q`.
pub open spec fn step_under(s: StepView, q: Seq<Seq<char>>) -> bool {
    match s {
        StepView::MakeDir(p) => p.len() >= q.len() && p.subrange(0, q.len() as int) == q,
        StepView::WriteFile { path, .. } => path.len() >= q.len() && path.subrange(0, q.len() as int) == q,
        StepView::Reject(_) => true,
    }
}

/// Every directory made and file written for an entry `e` planned under the
/// directory `prefix` lies under `prefix` followed by `e`'s name: a file
/// goes into the directory that holds it, at every depth, and a directory's
/// contents go under that directory.
pub proof fn lemma_entry_plan_under_its_name(e: EntryView, prefix: Seq<Seq<char>>)
    ensures
        forall|i: int| 0 <= i < entry_plan(e, prefix).0.len() ==> step_under(
            #[trigger] entry_plan(e, prefix).0[i],
            prefix.push(e.name),
        ),
        e.kind is File ==> forall|i: int| 0 <= i < entry_plan(e, prefix).0.len() ==> (
        #[trigger] entry_plan(e, prefix).0[i] matches StepView::WriteFile { path, .. } ==> path
            == prefix.push(e.name)),
    decreases e,
{
    let q = prefix.push(e.name);
    if safe_name(e.name) {
        match e.kind {
            KindView::Dir(children) => {
                lemma_plan_under_prefix(children, q);
                let (b, _) = plan(children, q);
                let a = seq![StepView::MakeDir(q)];
                assert(q.subrange(0, q.len() as int) == q);
                assert forall|i: int| 0 <= i < (a + b).len() implies step_under(#[trigger] (a + b)[i], q) by {
                    if i >= 1 {
                        assert((a + b)[i] == b[i - 1]);
                    }
                }
            },
            KindView::File { .. } => {
                assert(q.subrange(0, q.len() as int) == q);
                assert(entry_plan(e, prefix).0 == seq![
                    StepView::WriteFile { path: q, lba: e.kind->lba, size: e.kind->size },
                ]);
            },
        }
    }
}

/// Every directory made and file written when planning entries under the
/// directory `prefix` lies strictly below it.
pub proof fn lemma_plan_under_prefix(es: Seq<EntryView>, prefix: Seq<Seq<char>>)
    ensures
        forall|i: int| 0 <= i < plan(es, prefix).0.len() ==> step_under(#[trigger] plan(es, prefix).0[i], prefix)
            && step_deeper(plan(es, prefix).0[i], prefix.len() as int),
    decreases es,
{
    if es.len() > 0 {
        lemma_entry_plan_under_its_name(es[0], prefix);
        let q = prefix.push(es[0].name);
        assert(q.subrange(0, prefix.len() as int) =~= prefix);
        let (a, stop) = entry_plan(es[0], prefix);
        assert forall|i: int| 0 <= i < a.len() implies step_under(#[trigger] a[i], prefix) && step_deeper(
            a[i],
            prefix.len() as int,
        ) by {
            lemma_under_longer(a[i], q, prefix);
        }
        if !stop {
            let rest = es.subrange(1, es.len() as int);
            lemma_plan_under_prefix(rest, prefix);
            let (b, _) = plan(rest, prefix);
            assert forall|i: int| 0 <= i < (a + b).len() implies step_under(#[trigger] (a + b)[i], prefix)
                && step_deeper((a + b)[i], prefix.len() as int) by {
                if i >= a.len() {
                    assert((a + b)[i] == b[i - a.len()]);
                } else {
                    assert((a + b)[i] == a[i]);
                }
            }
        }
    }
}

/// Whether a step's path (if it has one) is longer than `n` components.
pub open spec fn step_deeper(s: StepView, n: int) -> bool {
    match s {
        StepView::MakeDir(p) => p.len() > n,
        StepView::WriteFile { path, .. } => path.len() > n,
        StepView::Reject(_) => true,
    }
}

proof fn lemma_under_longer(s: StepView, q: Seq<Seq<char>>, prefix: Seq<Seq<char>>)
    requires
        q.len() == prefix.len() + 1,
        q.subrange(0, prefix.len() as int) == prefix,
        step_under(s, q),
    ensures
        step_under(s, prefix),
        step_deeper(s, prefix.len() as int),
{
    match s {
        StepView::MakeDir(p) => {
            assert(p.subrange(0, prefix.len() as int) == p.subrange(0, q.len() as int).subrange(0, prefix.len() as int));
        },
        StepView::WriteFile { path, .. } => {
            assert(path.subrange(0, prefix.len() as int) == path.subrange(0, q.len() as int).subrange(0, prefix.len() as int));
        },
        StepView::Reject(_) => {},
    }
}

} // verus!
