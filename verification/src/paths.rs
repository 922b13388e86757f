//! Path text that reads the same on every platform, and the parts of such
//! paths that std's path operations pick out.

use vstd::prelude::*;

verus! {

/// Whether `s` ends with `t`.
pub open spec fn ends_with(s: Seq<char>, t: Seq<char>) -> bool {
    t.len() <= s.len() && s.subrange(s.len() - t.len(), s.len() as int) == t
}

/// Whether `n` is one plain path component on every platform: no `/` or
/// `\` separator, and neither `.` nor `..`.
pub open spec fn single_component(n: Seq<char>) -> bool {
    !n.contains('/') && !n.contains('\\') && n != seq!['.'] && n != seq!['.', '.']
}

/// Whether `s` occurs in `t` as a run of consecutive characters.
pub open spec fn is_part_of(s: Seq<char>, t: Seq<char>) -> bool {
    exists|i: int| 0 <= i && i + s.len() <= t.len() && #[trigger] t.subrange(i, i + s.len()) == s
}

/// The index of the last `c` among the first `j` characters of `s`.
pub open spec fn last_index_of(s: Seq<char>, c: char, j: int) -> Option<int>
    decreases j,
{
    if j <= 0 {
        None
    } else if s[j - 1] == c {
        Some(j - 1)
    } else {
        last_index_of(s, c, j - 1)
    }
}

/// What follows the last `/` of a path (the whole path when it has none).
pub open spec fn last_piece(p: Seq<char>) -> Seq<char> {
    match last_index_of(p, '/', p.len() as int) {
        Some(k) => p.subrange(k + 1, p.len() as int),
        None => p,
    }
}

/// Whether a path has the same last component on every platform: it holds
/// no `\` and no `:` (no Windows separator, drive or verbatim prefix), does
/// not open with `//` (a Windows network share), and what follows its last
/// `/` is a name: not empty, `.` or `..`.
pub open spec fn plain_path(p: Seq<char>) -> bool {
    &&& !p.contains('\\')
    &&& !p.contains(':')
    &&& !(p.len() >= 2 && p[0] == '/' && p[1] == '/')
    &&& last_piece(p).len() > 0
    &&& last_piece(p) != seq!['.']
    &&& last_piece(p) != seq!['.', '.']
}

/// The stem of a file name: the name cut before its last `.`, or the whole
/// name when it has no `.` or the cut would leave nothing.
pub open spec fn stem_of(name: Seq<char>) -> Seq<char> {
    match last_index_of(name, '.', name.len() as int) {
        Some(k) => if k > 0 {
            name.subrange(0, k)
        } else {
            name
        },
        None => name,
    }
}

/// The part of a path up to and including its last `/` (empty when it has
/// none): the directory that holds its last component.
pub open spec fn dir_part(p: Seq<char>) -> Seq<char> {
    p.subrange(0, p.len() - last_piece(p).len())
}

/// A `plain_path` whose components after the first are names: no `//`
/// and no `/./`, so that its parent is exactly `dir_part` without the
/// final `/`.
pub open spec fn simple_path(p: Seq<char>) -> bool {
    &&& plain_path(p)
    &&& forall|i: int| 0 <= i < p.len() - 1 ==> !(p[i] == '/' && #[trigger] p[i + 1] == '/')
    &&& forall|i: int| 0 <= i < p.len() - 2 ==> !(p[i] == '/' && #[trigger] p[i + 1] == '.' && p[i + 2] == '/')
}

/// `p` with the extension of its last component set to `ext`: its
/// directory, the stem of its last component, `.` and `ext`.
pub open spec fn with_extension(p: Seq<char>, ext: Seq<char>) -> Seq<char> {
    dir_part(p) + stem_of(last_piece(p)) + seq!['.'] + ext
}

/// Whether `r` is `p` with its last component replaced by `name`: `name`
/// alone when `p` has no directory, else the directory without its final
/// `/`, one separator (`/`, or `\` where the platform writes that), and
/// `name`.
pub open spec fn file_name_replaced(p: Seq<char>, name: Seq<char>, r: Seq<char>) -> bool {
    if dir_part(p).len() == 0 {
        r == name
    } else {
        r == dir_part(p).drop_last() + seq!['/'] + name || r == dir_part(p).drop_last() + seq![
            '\\',
        ] + name
    }
}

} // verus!
