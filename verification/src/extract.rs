//! Extraction of the files of a data track's ISO9660 tree: which names are
//! safe to write, where they go by default, and the `--list` view.

use crate::convert::{main_data_size, track_sectors};
use crate::cooked::{cooked_image, iso_user_data_range, user_data_start, CookedSectorReader};
use crate::error::Error;
use crate::iso9660::{
    entries_view,
    read_tree,
    spec_read_tree,
    DirEntry,
    EntryKind,
    EntryView,
    IsoFailure,
    KindView,
};
use crate::mds::mds::{same_error, spec_single_track, Mds};
use crate::mds::track::{subchannel_bytes, TrackView};
use crate::source::RawSource;
use crate::paths::{is_part_of, last_piece, plain_path, stem_of};
use crate::text::{append_chars, chars_of, dec, decimal, hex, hexadecimal, string_from_chars};
use vstd::prelude::*;

verus! {

pub struct ExtractOptions {
    /// If `true`, print the tree to stdout and write nothing.
    pub list: bool,
    /// Overwrite a non-empty output directory.
    pub force: bool,
}

/// Characters that may not appear in a name written to disk: path separators,
/// characters Windows forbids in file names, and ASCII control characters.
pub open spec fn is_forbidden_char(c: char) -> bool {
    c == '/' || c == '\\' || c == ':' || c == '\0' || c == '*' || c == '?' || c == '"' || c == '<'
        || c == '>' || c == '|' || (1 <= (c as u32) <= 0x1F) || (c as u32) == 0x7F
}

pub open spec fn has_forbidden_char(s: Seq<char>) -> bool {
    exists|i: int| 0 <= i < s.len() && is_forbidden_char(#[trigger] s[i])
}

fn forbidden(c: char) -> (r: bool)
    ensures
        r == is_forbidden_char(c),
{
    let n = c as u32;
    c == '/' || c == '\\' || c == ':' || c == '\0' || c == '*' || c == '?' || c == '"' || c == '<'
        || c == '>' || c == '|' || (1 <= n && n <= 0x1F) || n == 0x7F
}

/// Whether a name may be written as one file or directory under the output
/// directory: not empty, no forbidden character, and neither `.` nor `..`.
/// (ISO9660 d-characters and Joliet d1-characters forbid all of these, so a
/// legitimately-authored disc never trips the check.)
pub open spec fn safe_name(s: Seq<char>) -> bool {
    s.len() > 0 && !has_forbidden_char(s) && s != seq!['.'] && s != seq!['.', '.']
}

/// Whether an ISO-supplied name may be used as a single file or directory
/// name under the output directory. Windows reserved device names (CON, NUL,
/// ...) are not rejected.
pub fn is_safe_component(name: &str) -> (r: bool)
    ensures
        r == safe_name(name@),
{
    let chars = chars_of(name);
    if chars.len() == 0 {
        return false;
    }
    let mut i: usize = 0;
    while i < chars.len()
        invariant
            chars@ == name@,
            i <= chars@.len(),
            forall|k: int| 0 <= k < i ==> !is_forbidden_char(#[trigger] chars@[k]),
        decreases chars.len() - i,
    {
        if forbidden(chars[i]) {
            return false;
        }
        i = i + 1;
    }
    if chars.len() == 1 && chars[0] == '.' {
        assert(chars@ == seq!['.']);
        return false;
    }
    if chars.len() == 2 && chars[0] == '.' && chars[1] == '.' {
        assert(chars@ == seq!['.', '.']);
        return false;
    }
    assert(chars@ != seq!['.']) by {
        if chars@ == seq!['.'] {
            assert(chars@[0] == '.');
        }
    }
    assert(chars@ != seq!['.', '.']) by {
        if chars@ == seq!['.', '.'] {
            assert(chars@[0] == '.' && chars@[1] == '.');
        }
    }
    true
}

/// The last component of `path` without its extension (std's
/// `Path::file_stem`, rendered as text), if it has one. Which component is
/// last depends on the platform's path syntax. On every platform a stem is
/// a nonempty run of the characters of `path` (the final component is a
/// nonempty slice of the path, and the stem is that name or its part before
/// the final `.`); for a `plain_path` the final component is what follows
/// the last `/`, so the stem is `stem_of` it.
#[verifier::external_body]
fn file_stem(path: &str) -> (r: Option<String>)
    ensures
        r matches Some(s) ==> s@.len() > 0 && is_part_of(s@, path@),
        r is None ==> !plain_path(path@),
        r matches Some(s) ==> (plain_path(path@) ==> s@ == stem_of(last_piece(path@))),
{
    std::path::Path::new(path).file_stem().map(|s| s.to_string_lossy().into_owned())
}

/// The default output directory for an `.mds` file: its basename without
/// extension (`PMagic_8` for `PMagic_8.mds` and for `images/PMagic_8.mds`),
/// or the path itself when it has no file name. It is always a run of the
/// path's characters, empty only for an empty path.
pub fn default_output_dir(mds_file: &str) -> (r: String)
    ensures
        is_part_of(r@, mds_file@),
        r@.len() == 0 <==> mds_file@.len() == 0,
        plain_path(mds_file@) ==> r@ == stem_of(last_piece(mds_file@)),
{
    match file_stem(mds_file) {
        Some(stem) => stem,
        None => {
            let r = mds_file.to_owned();
            assert(r@ == mds_file@);
            assert(mds_file@.subrange(0int, 0int + r@.len()) == r@);
            r
        },
    }
}

/// Control characters (Unicode general category Cc).
pub open spec fn is_control_char(c: char) -> bool {
    (c as u32) <= 0x1F || (0x7F <= (c as u32) && (c as u32) <= 0x9F)
}

/// How a character of a name is shown in the `--list` view: a control
/// character as the escape `\u{..}` of its code in lowercase hex, any other
/// character as itself.
pub open spec fn shown_char(c: char) -> Seq<char> {
    if is_control_char(c) {
        seq!['\\', 'u', '{'] + hex(c as u32 as nat) + seq!['}']
    } else {
        seq![c]
    }
}

/// A name as the `--list` view shows it, its control characters escaped.
pub open spec fn escape_control(s: Seq<char>) -> Seq<char>
    decreases s.len(),
{
    if s.len() == 0 {
        Seq::empty()
    } else {
        escape_control(s.drop_last()) + shown_char(s.last())
    }
}

/// `name` with each control character replaced by its `\u{..}` escape.
pub fn escape_control_chars(name: &[char]) -> (r: Vec<char>)
    ensures
        r@ == escape_control(name@),
{
    let mut out: Vec<char> = Vec::new();
    let mut i: usize = 0;
    while i < name.len()
        invariant
            i <= name@.len(),
            out@ == escape_control(name@.subrange(0, i as int)),
        decreases name.len() - i,
    {
        let c = name[i];
        let n = c as u32;
        assert(name@.subrange(0, i + 1).drop_last() == name@.subrange(0, i as int));
        assert(name@.subrange(0, i + 1).last() == c);
        if n <= 0x1F || (0x7F <= n && n <= 0x9F) {
            out.push('\\');
            out.push('u');
            out.push('{');
            let h = hexadecimal(n);
            append_chars(&mut out, h.as_slice());
            out.push('}');
        } else {
            out.push(c);
        }
        i = i + 1;
    }
    assert(name@.subrange(0, name@.len() as int) == name@);
    out
}

/// The lines of the `--list` view of a tree: one per entry, depth-first, each
/// indented by `indent` plus two spaces per level; directories end in `/`,
/// files show their size. Names are shown with their control characters
/// escaped.
pub open spec fn listing(es: Seq<EntryView>, indent: Seq<char>) -> Seq<Seq<char>>
    decreases es,
{
    if es.len() == 0 {
        Seq::empty()
    } else {
        entry_listing(es[0], indent) + listing(es.subrange(1, es.len() as int), indent)
    }
}

pub open spec fn entry_listing(e: EntryView, indent: Seq<char>) -> Seq<Seq<char>>
    decreases e,
{
    match e.kind {
        KindView::Dir(children) => seq![indent + escape_control(e.name) + "/"@] + listing(
            children,
            indent + "  "@,
        ),
        KindView::File { size, .. } => seq![
            indent + escape_control(e.name) + "  ("@ + dec(size as nat) + " bytes)"@,
        ],
    }
}

pub open spec fn string_views(s: Seq<String>) -> Seq<Seq<char>> {
    s.map_values(|x: String| x@)
}

/// Appends all of `b` to `a`.
fn append_lines(a: &mut Vec<String>, b: Vec<String>)
    ensures
        string_views(final(a)@) == string_views(old(a)@) + string_views(b@),
{
    let ghost start = a@;
    let mut j: usize = 0;
    while j < b.len()
        invariant
            j <= b@.len(),
            string_views(a@) == string_views(start) + string_views(b@).subrange(0, j as int),
        decreases b.len() - j,
    {
        let ghost before = a@;
        a.push(b[j].clone());
        assert(string_views(a@) == string_views(before).push(b@[j as int]@));
        j = j + 1;
        assert(string_views(b@).subrange(0, j as int) == string_views(b@).subrange(0, j - 1).push(
            b@[j - 1]@,
        ));
    }
    assert(string_views(b@).subrange(0, b@.len() as int) == string_views(b@));
}

fn join3(a: &[char], b: &[char], c: &str) -> (r: String)
    ensures
        r@ == a@ + b@ + c@,
{
    let mut v: Vec<char> = Vec::new();
    append_chars(&mut v, a);
    append_chars(&mut v, b);
    let t = chars_of(c);
    append_chars(&mut v, t.as_slice());
    string_from_chars(v.as_slice())
}

fn file_line(indent: &[char], name: &[char], size: u32) -> (r: String)
    ensures
        r@ == indent@ + name@ + "  ("@ + dec(size as nat) + " bytes)"@,
{
    let mut v: Vec<char> = Vec::new();
    append_chars(&mut v, indent);
    append_chars(&mut v, name);
    let t = chars_of("  (");
    append_chars(&mut v, t.as_slice());
    let d = decimal(size as u64);
    append_chars(&mut v, d.as_slice());
    let t = chars_of(" bytes)");
    append_chars(&mut v, t.as_slice());
    string_from_chars(v.as_slice())
}

/// The lines of the `--list` view of one entry.
fn entry_lines(e: &DirEntry, indent: &str) -> (r: Vec<String>)
    ensures
        string_views(r@) == entry_listing(e.view(), indent@),
    decreases e,
{
    let indent_chars = chars_of(indent);
    let raw_name = chars_of(e.name.as_str());
    let name = escape_control_chars(raw_name.as_slice());
    let mut out: Vec<String> = Vec::new();
    match &e.kind {
        EntryKind::Dir(children) => {
            out.push(join3(indent_chars.as_slice(), name.as_slice(), "/"));
            let deeper = join3(indent_chars.as_slice(), &[], "  ");
            assert(indent@ + Seq::<char>::empty() == indent@);
            let sub = tree_listing(children.as_slice(), deeper.as_str());
            append_lines(&mut out, sub);
        },
        EntryKind::File { size, .. } => {
            out.push(file_line(indent_chars.as_slice(), name.as_slice(), *size));
        },
    }
    out
}

/// The lines of the `--list` view of `entries`, each starting with `indent`.
pub fn tree_listing(entries: &[DirEntry], indent: &str) -> (r: Vec<String>)
    ensures
        string_views(r@) == listing(entries_view(entries@), indent@),
    decreases entries@,
{
    let ghost ev = entries_view(entries@);
    proof {
        crate::iso9660::lemma_entries_view_index(entries@);
    }
    let n = entries.len();
    let mut out: Vec<String> = Vec::new();
    let mut i: usize = 0;
    assert(ev.subrange(0, n as int) == ev);
    assert(string_views(out@) + listing(ev, indent@) == listing(ev, indent@));
    while i < n
        invariant
            n == entries@.len(),
            i <= n,
            ev == entries_view(entries@),
            ev.len() == n,
            forall|k: int| 0 <= k < n ==> #[trigger] ev[k] == entries@[k].view(),
            string_views(out@) + listing(ev.subrange(i as int, n as int), indent@) == listing(
                ev,
                indent@,
            ),
        decreases n - i,
    {
        let ghost tail = ev.subrange(i as int, n as int);
        assert(tail[0] == ev[i as int]);
        assert(tail.subrange(1, tail.len() as int) == ev.subrange(i + 1, n as int));
        let ghost prev = out@;
        let lines = entry_lines(&entries[i], indent);
        append_lines(&mut out, lines);
        assert(string_views(prev) + (entry_listing(ev[i as int], indent@) + listing(
            ev.subrange(i + 1, n as int),
            indent@,
        )) == string_views(out@) + listing(ev.subrange(i + 1, n as int), indent@));
        i = i + 1;
    }
    out
}

/// One step of writing a tree to disk, paths relative to the output directory.
pub enum ExtractStep {
    /// Create this directory (after refusing to follow a symlink there).
    MakeDir(Vec<String>),
    /// Create this file (after refusing to follow a symlink there) and copy
    /// the file's bytes into it.
    WriteFile { path: Vec<String>, lba: u32, size: u32 },
    /// Stop: the image supplies a name that is not safe to write.
    Reject(String),
}

pub enum StepView {
    MakeDir(Seq<Seq<char>>),
    WriteFile { path: Seq<Seq<char>>, lba: u32, size: u32 },
    Reject(Seq<char>),
}

impl ExtractStep {
    pub open spec fn view(&self) -> StepView {
        match self {
            ExtractStep::MakeDir(p) => StepView::MakeDir(string_views(p@)),
            ExtractStep::WriteFile { path, lba, size } => StepView::WriteFile {
                path: string_views(path@),
                lba: *lba,
                size: *size,
            },
            ExtractStep::Reject(n) => StepView::Reject(n@),
        }
    }
}

pub open spec fn step_views(s: Seq<ExtractStep>) -> Seq<StepView> {
    s.map_values(|x: ExtractStep| x.view())
}

/// The steps that write the entries `es` under the directory `prefix`,
/// depth-first, and whether they end in a refusal (after which nothing more
/// is written).
pub open spec fn plan(es: Seq<EntryView>, prefix: Seq<Seq<char>>) -> (Seq<StepView>, bool)
    decreases es,
{
    if es.len() == 0 {
        (Seq::empty(), false)
    } else {
        let (a, stop) = entry_plan(es[0], prefix);
        if stop {
            (a, true)
        } else {
            let (b, stop2) = plan(es.subrange(1, es.len() as int), prefix);
            (a + b, stop2)
        }
    }
}

pub open spec fn entry_plan(e: EntryView, prefix: Seq<Seq<char>>) -> (Seq<StepView>, bool)
    decreases e,
{
    if !safe_name(e.name) {
        (seq![StepView::Reject(e.name)], true)
    } else {
        match e.kind {
            KindView::Dir(children) => {
                let p = prefix.push(e.name);
                let (b, stop) = plan(children, p);
                (seq![StepView::MakeDir(p)] + b, stop)
            },
            KindView::File { lba, size } => (
                seq![StepView::WriteFile { path: prefix.push(e.name), lba, size }],
                false,
            ),
        }
    }
}

fn copy_strings(p: &Vec<String>) -> (r: Vec<String>)
    ensures
        string_views(r@) == string_views(p@),
{
    let mut out: Vec<String> = Vec::new();
    let mut i: usize = 0;
    while i < p.len()
        invariant
            i <= p@.len(),
            string_views(out@) == string_views(p@).subrange(0, i as int),
        decreases p.len() - i,
    {
        let ghost before = out@;
        out.push(p[i].clone());
        assert(string_views(out@) == string_views(before).push(p@[i as int]@));
        i = i + 1;
        assert(string_views(p@).subrange(0, i as int) == string_views(p@).subrange(0, i - 1).push(
            p@[i - 1]@,
        ));
    }
    assert(string_views(p@).subrange(0, p@.len() as int) == string_views(p@));
    out
}

fn push_step(out: &mut Vec<ExtractStep>, step: ExtractStep)
    ensures
        step_views(final(out)@) == step_views(old(out)@).push(step.view()),
{
    out.push(step);
    assert(step_views(out@) =~= step_views(old(out)@).push(step.view()));
}

fn entry_steps(e: &DirEntry, prefix: &Vec<String>, out: &mut Vec<ExtractStep>) -> (stop: bool)
    ensures
        step_views(final(out)@) == step_views(old(out)@) + entry_plan(e.view(), string_views(prefix@)).0,
        stop == entry_plan(e.view(), string_views(prefix@)).1,
    decreases e,
{
    // Every component the image supplies must be a plain file or directory name.
    if !is_safe_component(e.name.as_str()) {
        let name = e.name.clone();
        push_step(out, ExtractStep::Reject(name));
        return true;
    }
    let mut path = copy_strings(prefix);
    let ghost before = string_views(path@);
    path.push(e.name.clone());
    assert(string_views(path@) == before.push(e.name@));
    match &e.kind {
        EntryKind::Dir(children) => {
            let p2 = copy_strings(&path);
            push_step(out, ExtractStep::MakeDir(path));
            let ghost mid = out@;
            let stop = plan_steps(children.as_slice(), &p2, out);
            assert(step_views(mid) == step_views(old(out)@).push(StepView::MakeDir(string_views(p2@))));
            assert(step_views(out@) == step_views(old(out)@) + entry_plan(e.view(), string_views(prefix@)).0);
            stop
        },
        EntryKind::File { lba, size } => {
            push_step(out, ExtractStep::WriteFile { path, lba: *lba, size: *size });
            assert(step_views(out@) == step_views(old(out)@) + entry_plan(e.view(), string_views(prefix@)).0);
            false
        },
    }
}

/// Appends the steps that write `entries` under `prefix`; returns whether
/// they end in a refusal.
fn plan_steps(entries: &[DirEntry], prefix: &Vec<String>, out: &mut Vec<ExtractStep>) -> (stop: bool)
    ensures
        step_views(final(out)@) == step_views(old(out)@) + plan(entries_view(entries@), string_views(prefix@)).0,
        stop == plan(entries_view(entries@), string_views(prefix@)).1,
    decreases entries@,
{
    let ghost ev = entries_view(entries@);
    let ghost pv = string_views(prefix@);
    proof {
        crate::iso9660::lemma_entries_view_index(entries@);
    }
    let n = entries.len();
    let mut i: usize = 0;
    assert(ev.subrange(0, n as int) == ev);
    assert(step_views(out@) + plan(ev, pv).0 == step_views(old(out)@) + plan(ev, pv).0);
    while i < n
        invariant
            n == entries@.len(),
            i <= n,
            ev == entries_view(entries@),
            pv == string_views(prefix@),
            ev.len() == n,
            forall|k: int| 0 <= k < n ==> #[trigger] ev[k] == entries@[k].view(),
            step_views(out@) + plan(ev.subrange(i as int, n as int), pv).0 == step_views(old(out)@)
                + plan(ev, pv).0,
            plan(ev.subrange(i as int, n as int), pv).1 == plan(ev, pv).1,
        decreases n - i,
    {
        let ghost tail = ev.subrange(i as int, n as int);
        assert(tail[0] == ev[i as int]);
        assert(tail.subrange(1, tail.len() as int) == ev.subrange(i + 1, n as int));
        let ghost prev = step_views(out@);
        let stop = entry_steps(&entries[i], prefix, out);
        if stop {
            assert(plan(tail, pv) == entry_plan(ev[i as int], pv));
            return true;
        }
        assert(step_views(out@) + plan(ev.subrange(i + 1, n as int), pv).0 == prev + plan(tail, pv).0);
        i = i + 1;
    }
    assert(ev.subrange(n as int, n as int) == Seq::<EntryView>::empty());
    assert(step_views(out@) + Seq::<StepView>::empty() == step_views(out@));
    false
}

/// The steps that write a tree to disk, depth-first; the last one is a
/// refusal when the tree holds a name that is not safe to write.
pub fn extraction_plan(entries: &[DirEntry]) -> (r: Vec<ExtractStep>)
    ensures
        step_views(r@) == plan(entries_view(entries@), Seq::empty()).0,
{
    let mut out: Vec<ExtractStep> = Vec::new();
    let root: Vec<String> = Vec::new();
    assert(string_views(root@) == Seq::<Seq<char>>::empty());
    let _ = plan_steps(entries, &root, &mut out);
    assert(step_views(Seq::<ExtractStep>::empty()) + plan(entries_view(entries@), Seq::empty()).0 == plan(entries_view(entries@), Seq::empty()).0);
    out
}

/// Which prefixes of the output directory to check for symlinks before
/// using it, each given as its number of leading components. For a relative
/// path every prefix is checked, so that `out/sub` is refused where `out`
/// links elsewhere; for an absolute path only the path itself, since its
/// leading part was typed by the user and platform links such as `/tmp` are
/// not an attacker's.
pub fn symlink_check_prefixes(is_absolute: bool, n_components: usize) -> (r: Vec<usize>)
    ensures
        is_absolute ==> r@ == seq![n_components],
        !is_absolute ==> r@ == Seq::new(n_components as nat, |i: int| (i + 1) as usize),
{
    let mut r: Vec<usize> = Vec::new();
    if is_absolute {
        r.push(n_components);
        assert(r@ == seq![n_components]);
        return r;
    }
    let mut i: usize = 0;
    while i < n_components
        invariant
            i <= n_components,
            r@ == Seq::new(i as nat, |k: int| (k + 1) as usize),
        decreases n_components - i,
    {
        r.push(i + 1);
        i = i + 1;
        assert(r@ =~= Seq::new(i as nat, |k: int| (k + 1) as usize));
    }
    r
}

/// What the output directory holds before extraction.
#[derive(Clone, Copy, Debug, PartialEq, Eq, Structural)]
pub enum DirState {
    Missing,
    Empty,
    NonEmpty,
}

/// What to do with the output directory.
#[derive(Clone, Copy, Debug, PartialEq, Eq, Structural)]
pub enum DirAction {
    /// Extract into it as it is.
    Use,
    /// Create it (and its parents) first.
    Create,
    /// Refuse: it holds files and `--force` was not given.
    RefuseNonEmpty,
}

/// A missing output directory is created; a non-empty one is used only with
/// `--force`.
pub fn output_dir_action(state: DirState, force: bool) -> (a: DirAction)
    ensures
        a == match state {
            DirState::Missing => DirAction::Create,
            DirState::Empty => DirAction::Use,
            DirState::NonEmpty => if force {
                DirAction::Use
            } else {
                DirAction::RefuseNonEmpty
            },
        },
{
    match state {
        DirState::Missing => DirAction::Create,
        DirState::Empty => DirAction::Use,
        DirState::NonEmpty => if force {
            DirAction::Use
        } else {
            DirAction::RefuseNonEmpty
        },
    }
}

/// Whether a step may write at `path`: where a symlink already stands there
/// it is refused (a link is never followed), the error naming the path's
/// last component.
pub fn step_target_check(path: &[String], is_symlink: bool) -> (r: Result<(), Error>)
    ensures
        !is_symlink ==> r is Ok,
        is_symlink ==> (r matches Err(Error::PathEscape(n)) && n@ == (if path@.len() > 0 {
            path@.last()@
        } else {
            Seq::<char>::empty()
        })),
{
    if !is_symlink {
        return Ok(());
    }
    if path.len() > 0 {
        Err(Error::PathEscape(path[path.len() - 1].clone()))
    } else {
        Err(Error::PathEscape(string_from_chars(&[])))
    }
}

/// What extraction comes to: the lines to print, or the steps to carry out
/// with the cooked reader of the track to copy file contents from.
pub enum Extraction<R: RawSource> {
    Listing(Vec<String>),
    Plan { steps: Vec<ExtractStep>, reader: CookedSectorReader<R> },
}

/// The cooked stream of a track, read out of its data file `raw`, if its layout is known.
pub open spec fn track_image(t: TrackView, raw: Seq<u8>) -> Option<Seq<u8>> {
    match user_data_start(t.mode, main_data_size(t)) {
        Some(start) => Some(
            cooked_image(raw, t.track_start_offset as int, t.sector_size as int, start, track_sectors(t)),
        ),
        None => None,
    }
}

/// What extraction from the cooked stream `img` comes to: a listing only
/// for `--list`, a plan with a reader of `img` otherwise, or an I/O error or
/// ISO9660 message; and where the source is `modeled`, the listing or the
/// plan of the tree that `img` holds, or the failure that reading it meets.
pub open spec fn extraction_outcome<R: RawSource>(
    r: Result<Extraction<R>, Error>,
    img: Seq<u8>,
    list: bool,
    modeled: bool,
    reliable: bool,
) -> bool {
    &&& r matches Ok(Extraction::Listing(_)) ==> list
    &&& r matches Ok(Extraction::Plan { reader, .. }) ==> !list && reader.image() == img
        && reader.wf() && reader.modeled() == modeled
    &&& r matches Err(e) ==> (e is Io || e is Iso9660)
    &&& modeled ==> {
        &&& r matches Ok(Extraction::Listing(lines)) ==> (spec_read_tree(img) matches Ok(es)
            && string_views(lines@) == listing(es, Seq::empty()))
        &&& r matches Ok(Extraction::Plan { steps, reader }) ==> (spec_read_tree(img) matches Ok(es)
            && step_views(steps@) == plan(es, Seq::empty()).0)
        &&& r matches Err(e) ==> (e is Io || (e matches Error::Iso9660(m) && spec_read_tree(img)
            == Err::<Seq<EntryView>, IsoFailure>(IsoFailure::Message(m@))))
        &&& spec_read_tree(img) == Err::<Seq<EntryView>, IsoFailure>(IsoFailure::Unreadable) ==> (r matches Err(e)
            && e is Io)
        &&& reliable ==> (r is Ok <==> spec_read_tree(img) is Ok)
    }
}

fn extraction_from<R: RawSource>(cooked: CookedSectorReader<R>, list: bool) -> (r: Result<Extraction<R>, Error>)
    requires
        cooked.wf(),
    ensures
        extraction_outcome(r, cooked.image(), list, cooked.modeled(), cooked.reads_reliably()),
{
    let mut cooked = cooked;
    let tree = match read_tree(&mut cooked) {
        Ok(t) => t,
        Err(e) => return Err(e),
    };
    if list {
        let empty = crate::text::string_from_chars(&[]);
        assert(empty@ == Seq::<char>::empty());
        let lines = tree_listing(tree.as_slice(), empty.as_str());
        return Ok(Extraction::Listing(lines));
    }
    let steps = extraction_plan(tree.as_slice());
    Ok(Extraction::Plan { steps, reader: cooked })
}

/// Reads the ISO9660 tree of an image's single data track, whose data file
/// is `raw`, and says what to print (`--list`) or what to write.
pub fn extract<R: RawSource>(mds: &Mds, raw: R, opts: &ExtractOptions) -> (r: Result<Extraction<R>, Error>)
    requires
        raw.ready(),
        spec_single_track(mds@) matches Ok(t) ==> t.sector_size >= subchannel_bytes(t.num_subchannels)
            && t.track_start_offset + track_sectors(t) * t.sector_size <= u64::MAX,
    ensures
        spec_single_track(mds@) matches Err(e) ==> (r matches Err(e2) && same_error(e2, e)),
        spec_single_track(mds@) matches Ok(t) ==> {
            &&& track_image(t, raw.bytes()) is None ==> (r matches Err(e) && e is UnknownIsoTrackSize)
            &&& track_image(t, raw.bytes()) matches Some(img) ==> extraction_outcome(
                r,
                img,
                opts.list,
                raw.modeled(),
                raw.reliable() && t.track_start_offset + track_sectors(t) * t.sector_size <= raw.bytes().len(),
            )
        },
{
    let track = match mds.single_track() {
        Ok(t) => t,
        Err(e) => return Err(e),
    };
    let ghost t = track@;
    let user_data = match iso_user_data_range(track.mode(), track.sector_data_size()) {
        Ok(u) => u,
        Err(e) => return Err(e),
    };
    let num_sectors = track.num_sectors() as u64;
    assert(num_sectors * 0x800 <= u64::MAX) by (nonlinear_arith)
        requires num_sectors <= u32::MAX;
    let cooked = CookedSectorReader::new(
        raw,
        track.start_offset(),
        track.sector_size(),
        user_data,
        num_sectors,
    );
    extraction_from(cooked, opts.list)
}

} // verus!
