//! Windows paths: their conversion into the `/cygdrive/...` form that
//! Cygwin programs (Borg running under Cygwin) understand, and their parent
//! directory.
//!
//! A Windows path is read the way the Windows path rules read it: an optional
//! prefix (`C:`, `\\?\C:`, `\\server\share`, `\\.\device`, `\\?\name`,
//! `\\?\UNC\server\share`), an optional root separator, and then components
//! separated by `\` or `/` (only `\` after a verbatim `\\?\` prefix). Empty
//! components and `.` components are dropped (except a leading `.` of a
//! relative path, and `.` after a verbatim prefix), `..` is kept. A drive
//! prefix `X:` becomes `/cygdrive/x`; the other prefixes and the root are
//! dropped; the remaining components are joined with `/`.

use vstd::prelude::*;
use crate::text::{chars_of, push_char, push_chars, push_str};

verus! {

/// The prefix of a Windows path.
#[derive(Clone, Copy, PartialEq, Eq, Debug)]
pub enum PathPrefix {
    /// `\\?\name`
    Verbatim,
    /// `\\?\UNC\server\share`
    VerbatimUnc,
    /// `\\?\C:`, with the drive letter in upper case.
    VerbatimDisk(char),
    /// `\\.\device`
    DeviceNs,
    /// `\\server\share`
    Unc,
    /// `C:`, with the drive letter in upper case.
    Disk(char),
}

/// Both `\` and `/` separate components in a Windows path.
pub open spec fn is_sep(c: char) -> bool {
    c == '\\' || c == '/'
}

/// After a verbatim prefix only `\` separates components.
pub open spec fn is_sep_for(verbatim: bool, c: char) -> bool {
    if verbatim {
        c == '\\'
    } else {
        is_sep(c)
    }
}

/// `/` read as `\`, as the prefix recognition does.
pub open spec fn norm_sep(c: char) -> char {
    if c == '/' {
        '\\'
    } else {
        c
    }
}

pub open spec fn is_ascii_alpha(c: char) -> bool {
    ('a' <= c && c <= 'z') || ('A' <= c && c <= 'Z')
}

pub open spec fn ascii_upper(c: char) -> char {
    if 'a' <= c && c <= 'z' {
        ((c as u8) - 32) as u8 as char
    } else {
        c
    }
}

pub open spec fn ascii_lower(c: char) -> char {
    if 'A' <= c && c <= 'Z' {
        ((c as u8) + 32) as u8 as char
    } else {
        c
    }
}

/// The index of the first separator at or after `i`, or the length of `p`.
pub open spec fn next_sep(p: Seq<char>, i: int, verbatim: bool) -> int
    decreases p.len() - i,
{
    if i >= p.len() {
        p.len() as int
    } else if i >= 0 && is_sep_for(verbatim, p[i]) {
        i
    } else {
        next_sep(p, i + 1, verbatim)
    }
}

/// The prefix of `p` and its length in characters (`None` and 0 when `p` has
/// no prefix).
pub open spec fn parse_prefix(p: Seq<char>) -> (Option<PathPrefix>, int) {
    let n = p.len() as int;
    if n >= 2 && norm_sep(p[0]) == '\\' && norm_sep(p[1]) == '\\' {
        if n >= 4 && p[0] == '\\' && p[1] == '\\' && p[2] == '?' && p[3] == '\\' {
            if n >= 8 && p[4] == 'U' && p[5] == 'N' && p[6] == 'C' && norm_sep(p[7]) == '\\' {
                let server_end = next_sep(p, 8, true);
                let share_start = if server_end < n {
                    server_end + 1
                } else {
                    n
                };
                let share_end = next_sep(p, share_start, true);
                (
                    Some(PathPrefix::VerbatimUnc),
                    if share_end > share_start {
                        share_end
                    } else {
                        server_end
                    },
                )
            } else if n >= 6 && is_ascii_alpha(p[4]) && p[5] == ':' && (n == 6 || p[6] == '\\') {
                (Some(PathPrefix::VerbatimDisk(ascii_upper(p[4]))), 6)
            } else {
                (Some(PathPrefix::Verbatim), next_sep(p, 4, true))
            }
        } else if n >= 4 && p[2] == '.' && norm_sep(p[3]) == '\\' {
            (Some(PathPrefix::DeviceNs), next_sep(p, 4, false))
        } else {
            let server_end = next_sep(p, 2, false);
            let share_start = if server_end < n {
                server_end + 1
            } else {
                n
            };
            let share_end = next_sep(p, share_start, false);
            if server_end > 2 && share_end > share_start {
                (Some(PathPrefix::Unc), share_end)
            } else {
                (None, 0)
            }
        }
    } else if n >= 2 && is_ascii_alpha(p[0]) && p[1] == ':' {
        (Some(PathPrefix::Disk(ascii_upper(p[0]))), 2)
    } else {
        (None, 0)
    }
}

pub open spec fn is_verbatim(pre: Option<PathPrefix>) -> bool {
    match pre {
        Some(PathPrefix::Verbatim) => true,
        Some(PathPrefix::VerbatimUnc) => true,
        Some(PathPrefix::VerbatimDisk(_)) => true,
        _ => false,
    }
}

/// Whether a separator follows the prefix.
pub open spec fn has_physical_root(p: Seq<char>) -> bool {
    let plen = parse_prefix(p).1;
    plen < p.len() && is_sep(p[plen])
}

/// Whether `p` is a relative path without prefix that starts with a `.`
/// component.
pub open spec fn leading_cur_dir(p: Seq<char>) -> bool {
    &&& parse_prefix(p).0 is None
    &&& !has_physical_root(p)
    &&& p.len() >= 1
    &&& p[0] == '.'
    &&& (p.len() == 1 || is_sep(p[1]))
}

/// Where the components after prefix, root and leading `.` start.
pub open spec fn body_start(p: Seq<char>) -> int {
    parse_prefix(p).1 + (if has_physical_root(p) {
        1int
    } else {
        0
    }) + (if leading_cur_dir(p) {
        1int
    } else {
        0
    })
}

/// Whether a piece between separators of the body is kept as a component.
pub open spec fn kept_piece(piece: Seq<char>, verbatim: bool) -> bool {
    piece.len() > 0 && (verbatim || piece != seq!['.'])
}

pub open spec fn keep_piece(piece: Seq<char>, verbatim: bool) -> Seq<Seq<char>> {
    if kept_piece(piece, verbatim) {
        seq![piece]
    } else {
        seq![]
    }
}

/// The kept pieces of `p[i..]`, where the current piece started at `start`.
pub open spec fn body_parts(p: Seq<char>, i: int, start: int, verbatim: bool) -> Seq<Seq<char>>
    decreases p.len() - i,
{
    if i >= p.len() {
        keep_piece(p.subrange(start, p.len() as int), verbatim)
    } else if is_sep_for(verbatim, p[i]) {
        keep_piece(p.subrange(start, i), verbatim) + body_parts(p, i + 1, i + 1, verbatim)
    } else {
        body_parts(p, i + 1, start, verbatim)
    }
}

/// What the prefix contributes to the Cygwin path.
pub open spec fn prefix_parts(pre: Option<PathPrefix>) -> Seq<Seq<char>> {
    match pre {
        Some(PathPrefix::Disk(d)) => seq![seq![], seq!['c', 'y', 'g', 'd', 'r', 'i', 'v', 'e'], seq![ascii_lower(d)]],
        _ => seq![],
    }
}

/// The components of the Cygwin path for the Windows path `p`.
pub open spec fn cygwin_parts(p: Seq<char>) -> Seq<Seq<char>> {
    let pre = parse_prefix(p).0;
    let bs = body_start(p);
    prefix_parts(pre) + (if leading_cur_dir(p) {
        seq![seq!['.']]
    } else {
        seq![]
    }) + body_parts(p, bs, bs, is_verbatim(pre))
}

/// `parts` joined with `/`.
pub open spec fn join_slash(parts: Seq<Seq<char>>) -> Seq<char>
    decreases parts.len(),
{
    if parts.len() == 0 {
        seq![]
    } else if parts.len() == 1 {
        parts[0]
    } else {
        join_slash(parts.drop_last()) + seq!['/'] + parts.last()
    }
}

/// The Cygwin path for the Windows path `p`.
pub open spec fn cygwin_path(p: Seq<char>) -> Seq<char> {
    join_slash(cygwin_parts(p))
}

proof fn lemma_join_push(parts: Seq<Seq<char>>, x: Seq<char>)
    ensures
        join_slash(parts.push(x)) == if parts.len() == 0 {
            x
        } else {
            join_slash(parts) + seq!['/'] + x
        },
{
    assert(parts.push(x).drop_last() =~= parts);
}



proof fn lemma_next_sep_bounds(p: Seq<char>, i: int, verbatim: bool)
    requires
        0 <= i <= p.len(),
    ensures
        i <= next_sep(p, i, verbatim) <= p.len(),
    decreases p.len() - i,
{
    if i < p.len() && !is_sep_for(verbatim, p[i]) {
        lemma_next_sep_bounds(p, i + 1, verbatim);
    }
}

/// The prefix and the root and leading `.` that follow it lie within `p`.
proof fn lemma_body_start_bounds(p: Seq<char>)
    ensures
        0 <= parse_prefix(p).1 <= body_start(p) <= p.len(),
{
    let n = p.len() as int;
    if n >= 8 {
        lemma_next_sep_bounds(p, 8, true);
        let server_end = next_sep(p, 8, true);
        let share_start = if server_end < n { server_end + 1 } else { n };
        lemma_next_sep_bounds(p, share_start, true);
    }
    if n >= 4 {
        lemma_next_sep_bounds(p, 4, true);
        lemma_next_sep_bounds(p, 4, false);
    }
    if n >= 2 {
        lemma_next_sep_bounds(p, 2, false);
        let server_end = next_sep(p, 2, false);
        let share_start = if server_end < n { server_end + 1 } else { n };
        lemma_next_sep_bounds(p, share_start, false);
    }
}

/// No character of `s` is a backslash.
pub open spec fn no_backslash(s: Seq<char>) -> bool {
    forall|k: int| 0 <= k < s.len() ==> s[k] != '\\'
}

/// Every part in `parts` is free of backslashes.
pub open spec fn all_free_of_backslash(parts: Seq<Seq<char>>) -> bool {
    forall|k: int| 0 <= k < parts.len() ==> no_backslash(#[trigger] parts[k])
}

proof fn lemma_join_free(parts: Seq<Seq<char>>)
    requires
        all_free_of_backslash(parts),
    ensures
        no_backslash(join_slash(parts)),
    decreases parts.len(),
{
    if parts.len() > 1 {
        assert(all_free_of_backslash(parts.drop_last()));
        lemma_join_free(parts.drop_last());
        assert(no_backslash(parts.last()));
        let j = join_slash(parts.drop_last()) + seq!['/'] + parts.last();
        assert forall|k: int| 0 <= k < j.len() implies j[k] != '\\' by {
            if k < join_slash(parts.drop_last()).len() {
            } else if k == join_slash(parts.drop_last()).len() {
            } else {
                assert(j[k] == parts.last()[k - join_slash(parts.drop_last()).len() - 1]);
            }
        }
    } else if parts.len() == 1 {
        assert(no_backslash(parts[0]));
    }
}

proof fn lemma_body_parts_free(p: Seq<char>, i: int, start: int, verbatim: bool)
    requires
        0 <= start <= i <= p.len(),
        forall|k: int| start <= k < i ==> !is_sep_for(verbatim, #[trigger] p[k]),
    ensures
        all_free_of_backslash(body_parts(p, i, start, verbatim)),
    decreases p.len() - i,
{
    if i >= p.len() {
        let piece = p.subrange(start, p.len() as int);
        assert(no_backslash(piece)) by {
            assert forall|k: int| 0 <= k < piece.len() implies piece[k] != '\\' by {
                assert(piece[k] == p[start + k]);
            }
        }
    } else if is_sep_for(verbatim, p[i]) {
        let piece = p.subrange(start, i);
        assert(no_backslash(piece)) by {
            assert forall|k: int| 0 <= k < piece.len() implies piece[k] != '\\' by {
                assert(piece[k] == p[start + k]);
            }
        }
        lemma_body_parts_free(p, i + 1, i + 1, verbatim);
        let rest = body_parts(p, i + 1, i + 1, verbatim);
        let all = keep_piece(piece, verbatim) + rest;
        assert forall|k: int| 0 <= k < all.len() implies no_backslash(#[trigger] all[k]) by {
            if k >= keep_piece(piece, verbatim).len() {
                assert(all[k] == rest[k - keep_piece(piece, verbatim).len()]);
            }
        }
    } else {
        lemma_body_parts_free(p, i + 1, start, verbatim);
    }
}

/// A Cygwin path made by `from_win` never holds a backslash: every `\` of the
/// Windows path is a separator, and separators become `/`.
pub proof fn law_no_backslash(p: Seq<char>)
    ensures
        no_backslash(cygwin_path(p)),
{
    let pre = parse_prefix(p).0;
    let bs = body_start(p);
    lemma_body_start_bounds(p);
    lemma_body_parts_free(p, bs, bs, is_verbatim(pre));
    let a = prefix_parts(pre);
    let b: Seq<Seq<char>> = if leading_cur_dir(p) {
        seq![seq!['.']]
    } else {
        seq![]
    };
    let c = body_parts(p, bs, bs, is_verbatim(pre));
    assert(all_free_of_backslash(a)) by {
        match pre {
            Some(PathPrefix::Disk(d)) => {
                assert forall|k: int| 0 <= k < a.len() implies no_backslash(#[trigger] a[k]) by {
                    if k == 2 {
                        assert(a[2] =~= seq![ascii_lower(d)]);
                        assert(ascii_lower(d) != '\\');
                    }
                }
            },
            _ => {},
        }
    }
    let all = a + b + c;
    assert forall|k: int| 0 <= k < all.len() implies no_backslash(#[trigger] all[k]) by {
        if k < a.len() {
            assert(all[k] == a[k]);
        } else if k < a.len() + b.len() {
            assert(all[k] == b[k - a.len()]);
        } else {
            assert(all[k] == c[k - a.len() - b.len()]);
        }
    }
    lemma_join_free(all);
}

proof fn lemma_join_append(a: Seq<Seq<char>>, b: Seq<Seq<char>>)
    requires
        a.len() >= 1,
    ensures
        join_slash(a + b) == join_slash(a) + (if b.len() == 0 {
            Seq::<char>::empty()
        } else {
            seq!['/'] + join_slash(b)
        }),
    decreases b.len(),
{
    if b.len() == 0 {
        assert(a + b =~= a);
    } else {
        lemma_join_append(a, b.drop_last());
        assert((a + b).drop_last() =~= a + b.drop_last());
        assert((a + b).last() == b.last());
        if b.len() == 1 {
            assert(b.drop_last().len() == 0);
            assert(join_slash(a + b) =~= join_slash(a) + seq!['/'] + b.last());
        } else {
            assert(join_slash(a + b) =~= join_slash(a) + seq!['/'] + join_slash(b));
        }
    }
}

/// The Cygwin spelling of a drive: `/cygdrive/` and the lower-case letter.
pub open spec fn cygdrive_root(letter: char) -> Seq<char> {
    seq!['/', 'c', 'y', 'g', 'd', 'r', 'i', 'v', 'e', '/', ascii_lower(letter)]
}

/// A Windows path on a drive `X:` lands under `/cygdrive/x`: the converted
/// path starts with `/cygdrive/x`, whatever the case of the letter.
pub proof fn law_drive_maps_under_cygdrive(p: Seq<char>)
    requires
        p.len() >= 2,
        is_ascii_alpha(p[0]),
        p[1] == ':',
    ensures
        cygwin_path(p).len() >= 11,
        cygwin_path(p).subrange(0, 11) == cygdrive_root(p[0]),
{
    let pre = parse_prefix(p).0;
    assert(pre == Some(PathPrefix::Disk(ascii_upper(p[0]))));
    assert(ascii_lower(ascii_upper(p[0])) == ascii_lower(p[0]));
    let a = prefix_parts(pre);
    let rest = (if leading_cur_dir(p) {
        seq![seq!['.']]
    } else {
        Seq::<Seq<char>>::empty()
    }) + body_parts(p, body_start(p), body_start(p), is_verbatim(pre));
    assert(cygwin_parts(p) =~= a + rest);
    lemma_join_append(a, rest);
    let a2 = a.drop_last();
    assert(a2.len() == 2);
    assert(a2.drop_last() =~= seq![Seq::<char>::empty()]);
    assert(join_slash(a2.drop_last()) =~= Seq::<char>::empty());
    assert(a2.last() =~= seq!['c', 'y', 'g', 'd', 'r', 'i', 'v', 'e']);
    assert(join_slash(a.drop_last()) =~= seq!['/', 'c', 'y', 'g', 'd', 'r', 'i', 'v', 'e']);
    assert(join_slash(a) =~= cygdrive_root(p[0]));
}

/// `p` with every `/` written as `\`.
pub open spec fn backslashed(p: Seq<char>) -> Seq<char> {
    p.map_values(|c: char| norm_sep(c))
}

proof fn lemma_body_parts_backslashed(p: Seq<char>, i: int, start: int)
    requires
        0 <= start <= i <= p.len(),
        forall|k: int| start <= k < i ==> !is_sep(#[trigger] p[k]),
    ensures
        body_parts(p, i, start, false) == body_parts(backslashed(p), i, start, false),
    decreases p.len() - i,
{
    let q = backslashed(p);
    if i >= p.len() {
        assert(p.subrange(start, p.len() as int) =~= q.subrange(start, q.len() as int));
    } else if is_sep(p[i]) {
        assert(is_sep(q[i]));
        assert(p.subrange(start, i) =~= q.subrange(start, i));
        lemma_body_parts_backslashed(p, i + 1, i + 1);
    } else {
        assert(!is_sep(q[i]));
        lemma_body_parts_backslashed(p, i + 1, start);
    }
}

/// On a path with a drive letter, `/` and `\` are the same separator: writing
/// every `/` as `\` does not change the Cygwin path.
pub proof fn law_drive_separators_interchangeable(p: Seq<char>)
    requires
        p.len() >= 2,
        is_ascii_alpha(p[0]),
        p[1] == ':',
    ensures
        cygwin_path(backslashed(p)) == cygwin_path(p),
{
    let q = backslashed(p);
    assert(q[0] == p[0] && q[1] == p[1]);
    assert(parse_prefix(q) == parse_prefix(p));
    if p.len() > 2 {
        assert(q[2] == norm_sep(p[2]));
    }
    assert(has_physical_root(q) == has_physical_root(p));
    assert(body_start(q) == body_start(p));
    lemma_body_start_bounds(p);
    lemma_body_parts_backslashed(p, body_start(p), body_start(p));
    assert(cygwin_parts(q) =~= cygwin_parts(p));
}

/// The pieces of `p + [c] + q` from index `off + i` on (`off` being where `q`
/// starts) are the pieces of `q` from `i` on.
proof fn lemma_body_parts_shift(p: Seq<char>, c: char, q: Seq<char>, i: int, start: int)
    requires
        0 <= start <= i <= q.len(),
    ensures
        body_parts(p + seq![c] + q, p.len() + 1 + i, p.len() + 1 + start, false) == body_parts(
            q,
            i,
            start,
            false,
        ),
    decreases q.len() - i,
{
    let s = p + seq![c] + q;
    let off = p.len() + 1;
    if i < q.len() {
        assert(s[off + i] == q[i]);
        if is_sep(q[i]) {
            assert(s.subrange(off + start, off + i) =~= q.subrange(start, i));
            lemma_body_parts_shift(p, c, q, i + 1, i + 1);
        } else {
            lemma_body_parts_shift(p, c, q, i + 1, start);
        }
    } else {
        assert(s.subrange(off + start, s.len() as int) =~= q.subrange(start, q.len() as int));
    }
}

/// The pieces of `p + [c] + q` (with `c` a separator) from index `i` within
/// `p` on are those of `p` followed by those of `q`.
proof fn lemma_body_parts_split(p: Seq<char>, c: char, q: Seq<char>, i: int, start: int)
    requires
        0 <= start <= i <= p.len(),
        is_sep(c),
    ensures
        body_parts(p + seq![c] + q, i, start, false) == body_parts(p, i, start, false) + body_parts(
            q,
            0,
            0,
            false,
        ),
    decreases p.len() - i,
{
    let s = p + seq![c] + q;
    if i < p.len() {
        assert(s[i] == p[i]);
        if is_sep(p[i]) {
            assert(s.subrange(start, i) =~= p.subrange(start, i));
            lemma_body_parts_split(p, c, q, i + 1, i + 1);
            assert(keep_piece(p.subrange(start, i), false) + (body_parts(p, i + 1, i + 1, false)
                + body_parts(q, 0, 0, false)) =~= keep_piece(p.subrange(start, i), false)
                + body_parts(p, i + 1, i + 1, false) + body_parts(q, 0, 0, false));
        } else {
            lemma_body_parts_split(p, c, q, i + 1, start);
        }
    } else {
        assert(s[i] == c);
        assert(s.subrange(start, i) =~= p.subrange(start, p.len() as int));
        lemma_body_parts_shift(p, c, q, 0, 0);
    }
}

/// A path on a drive, a separator, and any text: the components are those
/// of the drive path followed by the pieces of the text.
proof fn lemma_drive_join_parts(p: Seq<char>, c: char, q: Seq<char>)
    requires
        p.len() >= 2,
        is_ascii_alpha(p[0]),
        p[1] == ':',
        is_sep(c),
    ensures
        cygwin_parts(p + seq![c] + q) == cygwin_parts(p) + body_parts(q, 0, 0, false),
{
    let s = p + seq![c] + q;
    assert(s[0] == p[0] && s[1] == p[1]);
    assert(parse_prefix(s) == parse_prefix(p));
    lemma_body_start_bounds(p);
    if p.len() > 2 {
        assert(s[2] == p[2]);
        assert(body_start(s) == body_start(p));
        lemma_body_parts_split(p, c, q, body_start(p), body_start(p));
        assert(cygwin_parts(s) =~= cygwin_parts(p) + body_parts(q, 0, 0, false));
    } else {
        assert(s[2] == c);
        assert(body_start(s) == 3);
        assert(body_start(p) == 2);
        assert(body_parts(p, 2, 2, false) =~= Seq::<Seq<char>>::empty()) by {
            assert(p.subrange(2, 2) =~= Seq::<char>::empty());
        }
        lemma_body_parts_shift(p, c, q, 0, 0);
        assert(cygwin_parts(s) =~= cygwin_parts(p) + body_parts(q, 0, 0, false));
    }
}

/// A relative path that can be appended to another: no prefix, no root, no
/// leading `.`, and at least one component.
pub open spec fn relative_tail(q: Seq<char>) -> bool {
    &&& parse_prefix(q).0 is None
    &&& !has_physical_root(q)
    &&& !leading_cur_dir(q)
    &&& cygwin_parts(q).len() > 0
}

proof fn lemma_relative_tail_parts(q: Seq<char>)
    requires
        relative_tail(q),
    ensures
        cygwin_parts(q) == body_parts(q, 0, 0, false),
{
    assert(body_start(q) == 0);
    assert(cygwin_parts(q) =~= body_parts(q, 0, 0, false));
}

/// Joining a relative path `q` to a path on a drive with a separator
/// between them converts to the two converted paths joined with `/`.
pub proof fn law_join_drive_path(p: Seq<char>, q: Seq<char>)
    requires
        p.len() >= 2,
        is_ascii_alpha(p[0]),
        p[1] == ':',
        relative_tail(q),
    ensures
        cygwin_path(p + seq!['\\'] + q) == cygwin_path(p) + seq!['/'] + cygwin_path(q),
{
    lemma_drive_join_parts(p, '\\', q);
    lemma_relative_tail_parts(q);
    assert(cygwin_parts(p).len() >= 3);
    lemma_join_append(cygwin_parts(p), cygwin_parts(q));
}

/// Joining a relative path `q` to a path on a drive that already ends with a
/// separator (the join then adds none) converts to the two converted paths
/// joined with `/`.
pub proof fn law_join_after_separator(p: Seq<char>, q: Seq<char>)
    requires
        p.len() >= 3,
        is_ascii_alpha(p[0]),
        p[1] == ':',
        is_sep(p.last()),
        relative_tail(q),
    ensures
        cygwin_path(p + q) == cygwin_path(p) + seq!['/'] + cygwin_path(q),
{
    let p0 = p.drop_last();
    let c = p.last();
    assert(p0 + seq![c] =~= p);
    assert(p0 + seq![c] + q =~= p + q);
    lemma_drive_join_parts(p0, c, q);
    lemma_drive_join_parts(p0, c, Seq::<char>::empty());
    assert(p0 + seq![c] + Seq::<char>::empty() =~= p);
    assert(body_parts(Seq::<char>::empty(), 0, 0, false) =~= Seq::<Seq<char>>::empty()) by {
        assert(Seq::<char>::empty().subrange(0, 0) =~= Seq::<char>::empty());
    }
    assert(cygwin_parts(p) =~= cygwin_parts(p0));
    lemma_relative_tail_parts(q);
    assert(cygwin_parts(p).len() >= 3);
    lemma_join_append(cygwin_parts(p), cygwin_parts(q));
}

// ---------------------------------------------------------------------------
// Drive paths of plain names
// ---------------------------------------------------------------------------

/// No separator occurs in `n`.
pub open spec fn sep_free(n: Seq<char>) -> bool {
    forall|k: int| 0 <= k < n.len() ==> !is_sep(#[trigger] n[k])
}

/// A plain component name: not empty, no separator in it, and not `.`.
pub open spec fn plain_name(n: Seq<char>) -> bool {
    &&& n.len() > 0
    &&& n != seq!['.']
    &&& sep_free(n)
}

/// The Windows path `X:\n1\...\nk` on drive `x` with the names `names`
/// (`X:` alone when there is none).
pub open spec fn drive_path(x: char, names: Seq<Seq<char>>) -> Seq<char>
    decreases names.len(),
{
    if names.len() == 0 {
        seq![x, ':']
    } else {
        drive_path(x, names.drop_last()) + seq!['\\'] + names.last()
    }
}

/// Each name preceded by `/`: `/n1/.../nk`.
pub open spec fn slash_prefixed(names: Seq<Seq<char>>) -> Seq<char>
    decreases names.len(),
{
    if names.len() == 0 {
        seq![]
    } else {
        slash_prefixed(names.drop_last()) + seq!['/'] + names.last()
    }
}

proof fn lemma_drive_path_shape(x: char, names: Seq<Seq<char>>)
    ensures
        drive_path(x, names).len() >= 2,
        drive_path(x, names)[0] == x,
        drive_path(x, names)[1] == ':',
        names.len() >= 1 ==> drive_path(x, names).len() >= 3 && drive_path(x, names)[2] == '\\',
    decreases names.len(),
{
    if names.len() > 0 {
        lemma_drive_path_shape(x, names.drop_last());
    }
}

/// The plain names among `names`, in their order.
pub open spec fn plain_names(names: Seq<Seq<char>>) -> Seq<Seq<char>>
    decreases names.len(),
{
    if names.len() == 0 {
        seq![]
    } else {
        plain_names(names.drop_last()) + (if plain_name(names.last()) {
            seq![names.last()]
        } else {
            seq![]
        })
    }
}

proof fn lemma_sep_free_body_parts(q: Seq<char>, i: int)
    requires
        sep_free(q),
        0 <= i <= q.len(),
    ensures
        body_parts(q, i, 0, false) == (if plain_name(q) {
            seq![q]
        } else {
            Seq::<Seq<char>>::empty()
        }),
    decreases q.len() - i,
{
    if i < q.len() {
        assert(!is_sep(q[i]));
        lemma_sep_free_body_parts(q, i + 1);
    } else {
        assert(q.subrange(0, q.len() as int) =~= q);
    }
}

proof fn lemma_drive_path_parts(x: char, names: Seq<Seq<char>>)
    requires
        is_ascii_alpha(x),
        forall|i: int| 0 <= i < names.len() ==> sep_free(#[trigger] names[i]),
    ensures
        cygwin_parts(drive_path(x, names)) == prefix_parts(Some(PathPrefix::Disk(ascii_upper(x))))
            + plain_names(names),
    decreases names.len(),
{
    let p = drive_path(x, names);
    if names.len() == 0 {
        assert(p =~= seq![x, ':']);
        assert(parse_prefix(p) == (Some(PathPrefix::Disk(ascii_upper(x))), 2int));
        assert(body_start(p) == 2);
        assert(body_parts(p, 2, 2, false) =~= Seq::<Seq<char>>::empty()) by {
            assert(p.subrange(2, 2) =~= Seq::<char>::empty());
        }
        assert(cygwin_parts(p) =~= prefix_parts(Some(PathPrefix::Disk(ascii_upper(x))))
            + plain_names(names));
    } else {
        let rest = names.drop_last();
        assert forall|i: int| 0 <= i < rest.len() implies sep_free(#[trigger] rest[i]) by {
            assert(rest[i] == names[i]);
        }
        lemma_drive_path_parts(x, rest);
        lemma_drive_path_shape(x, rest);
        assert(sep_free(names[names.len() - 1]));
        lemma_drive_join_parts(drive_path(x, rest), '\\', names.last());
        lemma_sep_free_body_parts(names.last(), 0);
        assert(cygwin_parts(p) =~= prefix_parts(Some(PathPrefix::Disk(ascii_upper(x))))
            + plain_names(names));
    }
}

proof fn lemma_plain_names_all(names: Seq<Seq<char>>)
    requires
        forall|i: int| 0 <= i < names.len() ==> plain_name(#[trigger] names[i]),
    ensures
        plain_names(names) == names,
    decreases names.len(),
{
    if names.len() > 0 {
        let rest = names.drop_last();
        assert forall|i: int| 0 <= i < rest.len() implies plain_name(#[trigger] rest[i]) by {
            assert(rest[i] == names[i]);
        }
        lemma_plain_names_all(rest);
        assert(plain_name(names[names.len() - 1]));
        assert(rest.push(names.last()) =~= names);
        assert(plain_names(names) =~= names);
    }
}

proof fn lemma_slash_prefixed(names: Seq<Seq<char>>)
    ensures
        slash_prefixed(names) == if names.len() == 0 {
            Seq::<char>::empty()
        } else {
            seq!['/'] + join_slash(names)
        },
    decreases names.len(),
{
    if names.len() > 1 {
        let dl = names.drop_last();
        lemma_slash_prefixed(dl);
        assert(slash_prefixed(dl) == seq!['/'] + join_slash(dl));
        assert(join_slash(names) == join_slash(dl) + seq!['/'] + names.last());
        assert(slash_prefixed(names) == slash_prefixed(dl) + seq!['/'] + names.last());
        let a = seq!['/'];
        let b = join_slash(dl);
        let c = names.last();
        assert((a + b) + a + c =~= a + (b + a + c));
    } else if names.len() == 1 {
        let dl = names.drop_last();
        assert(dl.len() == 0);
        assert(slash_prefixed(dl) =~= Seq::<char>::empty());
        assert(join_slash(names) == names[0]);
        assert(names.last() == names[0]);
        assert(slash_prefixed(names) =~= seq!['/'] + join_slash(names));
    }
}

/// A path `X:\n1\...\nk` whose names hold no separator converts to
/// `/cygdrive/x` followed by `/` and each name that is not empty and not `.`,
/// in order and unchanged: the empty and `.` names are dropped, every other
/// name is kept, whatever it starts with.
pub proof fn law_drive_path_drops_empty_and_dot_names(x: char, names: Seq<Seq<char>>)
    requires
        is_ascii_alpha(x),
        forall|i: int| 0 <= i < names.len() ==> sep_free(#[trigger] names[i]),
    ensures
        cygwin_path(drive_path(x, names)) == cygdrive_root(x) + slash_prefixed(plain_names(names)),
{
    let a = prefix_parts(Some(PathPrefix::Disk(ascii_upper(x))));
    let kept = plain_names(names);
    lemma_drive_path_parts(x, names);
    lemma_join_append(a, kept);
    assert(ascii_lower(ascii_upper(x)) == ascii_lower(x));
    let a2 = a.drop_last();
    assert(a2.drop_last() =~= seq![Seq::<char>::empty()]);
    assert(join_slash(a2.drop_last()) =~= Seq::<char>::empty());
    assert(a2.last() =~= seq!['c', 'y', 'g', 'd', 'r', 'i', 'v', 'e']);
    assert(join_slash(a2) =~= seq!['/', 'c', 'y', 'g', 'd', 'r', 'i', 'v', 'e']);
    assert(join_slash(a) =~= cygdrive_root(x));
    lemma_slash_prefixed(kept);
    assert(cygwin_path(drive_path(x, names)) =~= cygdrive_root(x) + slash_prefixed(kept));
}

/// A path `X:\n1\...\nk` of plain names (non-empty, without separators, not
/// `.`) converts to `/cygdrive/x/n1/.../nk`: every name is kept, in order
/// and unchanged, whatever it starts with.
pub proof fn law_drive_path_keeps_every_name(x: char, names: Seq<Seq<char>>)
    requires
        is_ascii_alpha(x),
        forall|i: int| 0 <= i < names.len() ==> plain_name(#[trigger] names[i]),
    ensures
        cygwin_path(drive_path(x, names)) == cygdrive_root(x) + slash_prefixed(names),
{
    assert forall|i: int| 0 <= i < names.len() implies sep_free(#[trigger] names[i]) by {
        assert(plain_name(names[i]));
    }
    law_drive_path_drops_empty_and_dot_names(x, names);
    lemma_plain_names_all(names);
}

fn ascii_upper_exec(c: char) -> (r: char)
    ensures
        r == ascii_upper(c),
{
    if 'a' <= c && c <= 'z' {
        ((c as u8) - 32) as char
    } else {
        c
    }
}

fn ascii_lower_exec(c: char) -> (r: char)
    ensures
        r == ascii_lower(c),
{
    if 'A' <= c && c <= 'Z' {
        ((c as u8) + 32) as char
    } else {
        c
    }
}

fn is_sep_exec(verbatim: bool, c: char) -> (r: bool)
    ensures
        r == is_sep_for(verbatim, c),
{
    if verbatim {
        c == '\\'
    } else {
        c == '\\' || c == '/'
    }
}

fn is_backslash_like(c: char) -> (r: bool)
    ensures
        r == (norm_sep(c) == '\\'),
{
    c == '\\' || c == '/'
}

fn is_ascii_alpha_exec(c: char) -> (r: bool)
    ensures
        r == is_ascii_alpha(c),
{
    ('a' <= c && c <= 'z') || ('A' <= c && c <= 'Z')
}

fn next_sep_exec(p: &Vec<char>, i: usize, verbatim: bool) -> (j: usize)
    requires
        i <= p.len(),
    ensures
        j as int == next_sep(p@, i as int, verbatim),
        i <= j <= p.len(),
{
    let mut j = i;
    while j < p.len() && !is_sep_exec(verbatim, p[j])
        invariant
            i <= j <= p.len(),
            next_sep(p@, i as int, verbatim) == next_sep(p@, j as int, verbatim),
        decreases p.len() - j,
    {
        j = j + 1;
    }
    j
}

fn parse_prefix_exec(p: &Vec<char>) -> (r: (Option<PathPrefix>, usize))
    ensures
        r.0 == parse_prefix(p@).0,
        r.1 as int == parse_prefix(p@).1,
        r.1 <= p.len(),
{
    let n = p.len();
    if n >= 2 && is_backslash_like(p[0]) && is_backslash_like(p[1]) {
        if n >= 4 && p[0] == '\\' && p[1] == '\\' && p[2] == '?' && p[3] == '\\' {
            if n >= 8 && p[4] == 'U' && p[5] == 'N' && p[6] == 'C' && is_backslash_like(p[7]) {
                let server_end = next_sep_exec(p, 8, true);
                let share_start = if server_end < n {
                    server_end + 1
                } else {
                    n
                };
                let share_end = next_sep_exec(p, share_start, true);
                (
                    Some(PathPrefix::VerbatimUnc),
                    if share_end > share_start {
                        share_end
                    } else {
                        server_end
                    },
                )
            } else if n >= 6 && is_ascii_alpha_exec(p[4]) && p[5] == ':' && (n == 6 || p[6]
                == '\\') {
                (Some(PathPrefix::VerbatimDisk(ascii_upper_exec(p[4]))), 6)
            } else {
                (Some(PathPrefix::Verbatim), next_sep_exec(p, 4, true))
            }
        } else if n >= 4 && p[2] == '.' && is_backslash_like(p[3]) {
            (Some(PathPrefix::DeviceNs), next_sep_exec(p, 4, false))
        } else {
            let server_end = next_sep_exec(p, 2, false);
            let share_start = if server_end < n {
                server_end + 1
            } else {
                n
            };
            let share_end = next_sep_exec(p, share_start, false);
            if server_end > 2 && share_end > share_start {
                (Some(PathPrefix::Unc), share_end)
            } else {
                (None, 0)
            }
        }
    } else if n >= 2 && is_ascii_alpha_exec(p[0]) && p[1] == ':' {
        (Some(PathPrefix::Disk(ascii_upper_exec(p[0]))), 2)
    } else {
        (None, 0)
    }
}

/// The prefix of `p`, whether it is verbatim, whether `p` starts with a `.`
/// component, and where the body of `p` starts.
fn layout(p: &Vec<char>) -> (r: (Option<PathPrefix>, bool, bool, usize))
    ensures
        r.0 == parse_prefix(p@).0,
        r.1 == is_verbatim(r.0),
        r.2 == leading_cur_dir(p@),
        r.3 as int == body_start(p@),
        r.3 <= p.len(),
{
    let n = p.len();
    let (pre, plen) = parse_prefix_exec(p);
    let verbatim = match pre {
        Some(PathPrefix::Verbatim) => true,
        Some(PathPrefix::VerbatimUnc) => true,
        Some(PathPrefix::VerbatimDisk(_)) => true,
        _ => false,
    };
    let phys = plen < n && (p[plen] == '\\' || p[plen] == '/');
    let curdir = pre.is_none() && !phys && n >= 1 && p[0] == '.' && (n == 1 || p[1] == '\\' || p[1]
        == '/');
    assert(phys == has_physical_root(p@));
    assert(curdir == leading_cur_dir(p@));
    let bs = plen + (if phys {
        1usize
    } else {
        0
    }) + (if curdir {
        1usize
    } else {
        0
    });
    (pre, verbatim, curdir, bs)
}

/// Appends the component `p[from..to]` to the path being built.
fn push_part(
    res: &mut String,
    any: &mut bool,
    p: &Vec<char>,
    from: usize,
    to: usize,
    Ghost(done): Ghost<Seq<Seq<char>>>,
)
    requires
        from <= to <= p.len(),
        old(res)@ == join_slash(done),
        *old(any) == (done.len() > 0),
    ensures
        final(res)@ == join_slash(done.push(p@.subrange(from as int, to as int))),
        *final(any),
{
    proof {
        lemma_join_push(done, p@.subrange(from as int, to as int));
    }
    if *any {
        push_char(res, '/');
    }
    push_chars(res, p, from, to);
    *any = true;
}

/// Converts a Windows path into the path under which Cygwin programs see the
/// same file: `C:\Programming\Some stuff` becomes
/// `/cygdrive/c/Programming/Some stuff`.
pub fn from_win(path: &str) -> (res: String)
    ensures
        res@ == cygwin_path(path@),
        forall|x: char, names: Seq<Seq<char>>|
            is_ascii_alpha(x) && (forall|i: int| 0 <= i < names.len() ==> plain_name(#[trigger] names[i]))
                && path@ == #[trigger] drive_path(x, names) ==> res@ == cygdrive_root(x)
                + slash_prefixed(names),
{
    let p = chars_of(path);
    let n = p.len();
    let (pre, verbatim, curdir, bs) = layout(&p);
    let mut res = String::new();
    let mut any = false;
    let ghost mut done: Seq<Seq<char>> = seq![];
    match pre {
        Some(PathPrefix::Disk(d)) => {
            push_part(&mut res, &mut any, &p, 0, 0, Ghost(done));
            proof {
                done = done.push(p@.subrange(0, 0));
            }
            let w = vec!['c', 'y', 'g', 'd', 'r', 'i', 'v', 'e'];
            push_part(&mut res, &mut any, &w, 0, w.len(), Ghost(done));
            proof {
                done = done.push(w@.subrange(0, w@.len() as int));
                assert(w@.subrange(0, w@.len() as int) =~= seq!['c', 'y', 'g', 'd', 'r', 'i', 'v', 'e']);
            }
            let l = vec![ascii_lower_exec(d)];
            push_part(&mut res, &mut any, &l, 0, 1, Ghost(done));
            proof {
                done = done.push(l@.subrange(0, 1));
                assert(l@.subrange(0, 1) =~= seq![ascii_lower(d)]);
                assert(p@.subrange(0, 0) =~= Seq::<char>::empty());
                assert(done =~= prefix_parts(pre));
            }
        },
        _ => {
            assert(done =~= prefix_parts(pre));
        },
    }
    if curdir {
        push_part(&mut res, &mut any, &p, 0, 1, Ghost(done));
        proof {
            done = done.push(p@.subrange(0, 1));
            assert(p@.subrange(0, 1) =~= seq!['.']);
        }
    }
    assert(done =~= prefix_parts(pre) + (if leading_cur_dir(p@) {
        seq![seq!['.']]
    } else {
        seq![]
    }));
    let mut i = bs;
    let mut start = bs;
    while i < n
        invariant
            n == p.len(),
            bs <= start <= i <= n,
            res@ == join_slash(done),
            any == (done.len() > 0),
            cygwin_parts(p@) =~= done + body_parts(p@, i as int, start as int, verbatim),
            verbatim == is_verbatim(pre),
            pre == parse_prefix(p@).0,
        decreases n - i,
    {
        if is_sep_exec(verbatim, p[i]) {
            let piece_len = i - start;
            let is_dot = piece_len == 1 && p[start] == '.';
            proof {
                assert(p@.subrange(start as int, i as int).len() == piece_len);
                if piece_len == 1 {
                    assert(p@.subrange(start as int, i as int)[0] == p@[start as int]);
                    if p@[start as int] == '.' {
                        assert(p@.subrange(start as int, i as int) =~= seq!['.']);
                    }
                }
            }
            if piece_len > 0 && (verbatim || !is_dot) {
                push_part(&mut res, &mut any, &p, start, i, Ghost(done));
                proof {
                    done = done.push(p@.subrange(start as int, i as int));
                }
            }
            start = i + 1;
        }
        i = i + 1;
    }
    let piece_len = n - start;
    let is_dot = piece_len == 1 && p[start] == '.';
    proof {
        assert(p@.subrange(start as int, n as int).len() == piece_len);
        if piece_len == 1 {
            assert(p@.subrange(start as int, n as int)[0] == p@[start as int]);
            if p@[start as int] == '.' {
                assert(p@.subrange(start as int, n as int) =~= seq!['.']);
            }
        }
    }
    if piece_len > 0 && (verbatim || !is_dot) {
        push_part(&mut res, &mut any, &p, start, n, Ghost(done));
        proof {
            done = done.push(p@.subrange(start as int, n as int));
        }
    }
    assert(done =~= cygwin_parts(p@));
    assert forall|x: char, names: Seq<Seq<char>>|
        is_ascii_alpha(x) && (forall|i: int| 0 <= i < names.len() ==> plain_name(#[trigger] names[i]))
            && path@ == #[trigger] drive_path(x, names) implies res@ == cygdrive_root(x)
            + slash_prefixed(names) by {
        law_drive_path_keeps_every_name(x, names);
    }
    res
}

// ---------------------------------------------------------------------------
// The parent directory of a Windows path
// ---------------------------------------------------------------------------

/// The index of the last separator in `p[lo..e]`, or `lo - 1` when there is
/// none.
pub open spec fn last_sep(p: Seq<char>, lo: int, e: int, verbatim: bool) -> int
    decreases e - lo,
{
    if e <= lo {
        lo - 1
    } else if is_sep_for(verbatim, p[e - 1]) {
        e - 1
    } else {
        last_sep(p, lo, e - 1, verbatim)
    }
}

/// Where the last piece of `p[lo..e]` starts.
pub open spec fn last_piece_start(p: Seq<char>, lo: int, e: int, verbatim: bool) -> int {
    let j = last_sep(p, lo, e, verbatim);
    if j >= lo {
        j + 1
    } else {
        lo
    }
}

/// Where `p[lo..e]` ends once its last piece and the separator before it are
/// cut off.
pub open spec fn last_piece_cut(p: Seq<char>, lo: int, e: int, verbatim: bool) -> int {
    let j = last_sep(p, lo, e, verbatim);
    if j >= lo {
        j
    } else {
        lo
    }
}

pub proof fn lemma_last_sep_bounds(p: Seq<char>, lo: int, e: int, verbatim: bool)
    ensures
        lo - 1 <= last_sep(p, lo, e, verbatim) < e || (e <= lo && last_sep(p, lo, e, verbatim) == lo - 1),
        last_sep(p, lo, e, verbatim) >= lo ==> is_sep_for(verbatim, p[last_sep(p, lo, e, verbatim)]),
        forall|k: int| last_sep(p, lo, e, verbatim) < k < e && lo <= k ==> !is_sep_for(verbatim, #[trigger] p[k]),
    decreases e - lo,
{
    if e > lo && !is_sep_for(verbatim, p[e - 1]) {
        lemma_last_sep_bounds(p, lo, e - 1, verbatim);
    }
}

/// `p[..e]` with the trailing pieces that are not components (empty ones, and
/// `.` outside verbatim paths) cut off, never below `lo`.
pub open spec fn trim_end(p: Seq<char>, lo: int, e: int, verbatim: bool) -> int
    decreases e - lo,
{
    if e <= lo {
        e
    } else if kept_piece(p.subrange(last_piece_start(p, lo, e, verbatim), e), verbatim) {
        e
    } else {
        proof {
            lemma_last_sep_bounds(p, lo, e, verbatim);
        }
        trim_end(p, lo, last_piece_cut(p, lo, e, verbatim), verbatim)
    }
}

/// The parent of the Windows path `p`: `p` without its last component (and
/// the separators before it); none when `p` has no component after its
/// prefix and root. A relative path of a single component has the empty
/// path as parent.
pub open spec fn parent_path(p: Seq<char>) -> Option<Seq<char>> {
    let bs = body_start(p);
    let vb = is_verbatim(parse_prefix(p).0);
    let e0 = trim_end(p, bs, p.len() as int, vb);
    if e0 > bs {
        Some(p.subrange(0, trim_end(p, bs, last_piece_cut(p, bs, e0, vb), vb)))
    } else if leading_cur_dir(p) {
        Some(seq![])
    } else {
        None
    }
}

proof fn lemma_trim_end_bounds(p: Seq<char>, lo: int, e: int, verbatim: bool)
    requires
        0 <= lo <= e <= p.len(),
    ensures
        lo <= trim_end(p, lo, e, verbatim) <= e,
    decreases e - lo,
{
    if e > lo && !kept_piece(p.subrange(last_piece_start(p, lo, e, verbatim), e), verbatim) {
        lemma_last_sep_bounds(p, lo, e, verbatim);
        lemma_trim_end_bounds(p, lo, last_piece_cut(p, lo, e, verbatim), verbatim);
    }
}

proof fn lemma_last_sep_at(p: Seq<char>, lo: int, e: int, k: int, verbatim: bool)
    requires
        0 <= lo <= k < e <= p.len(),
        is_sep_for(verbatim, p[k]),
        forall|m: int| k < m < e ==> !is_sep_for(verbatim, #[trigger] p[m]),
    ensures
        last_sep(p, lo, e, verbatim) == k,
    decreases e - k,
{
    if e - 1 > k {
        assert(!is_sep_for(verbatim, p[e - 1]));
        lemma_last_sep_at(p, lo, e - 1, k, verbatim);
    }
}

proof fn lemma_last_sep_none(p: Seq<char>, lo: int, e: int, verbatim: bool)
    requires
        0 <= lo <= e <= p.len(),
        forall|m: int| lo <= m < e ==> !is_sep_for(verbatim, #[trigger] p[m]),
    ensures
        last_sep(p, lo, e, verbatim) == lo - 1,
    decreases e - lo,
{
    if e > lo {
        assert(!is_sep_for(verbatim, p[e - 1]));
        lemma_last_sep_none(p, lo, e - 1, verbatim);
    }
}

/// Read inside any `p` that starts with the drive path `X:\n1\...\nk`, the
/// last piece of that drive path is `nk`, it is kept, and cutting it off
/// leaves `X:\n1\...\n(k-1)` (or the root `X:\` when `k` is 1).
proof fn lemma_drive_last_piece(x: char, names: Seq<Seq<char>>, p: Seq<char>)
    requires
        names.len() >= 1,
        plain_name(names.last()),
        drive_path(x, names).len() <= p.len(),
        p.subrange(0, drive_path(x, names).len() as int) == drive_path(x, names),
    ensures
        ({
            let e = drive_path(x, names).len() as int;
            let d = drive_path(x, names.drop_last()).len() as int;
            &&& last_piece_start(p, 3, e, false) == d + 1
            &&& p.subrange(d + 1, e) == names.last()
            &&& trim_end(p, 3, e, false) == e
            &&& last_piece_cut(p, 3, e, false) == (if names.len() >= 2 {
                d
            } else {
                3
            })
        }),
{
    let dd = drive_path(x, names);
    let dl = names.drop_last();
    let dp = drive_path(x, dl);
    let c = names.last();
    let e = dd.len() as int;
    let d = dp.len() as int;
    assert(dd == dp + seq!['\\'] + c);
    lemma_drive_path_shape(x, dl);
    assert forall|m: int| 0 <= m < e implies p[m] == #[trigger] dd[m] by {
        assert(p.subrange(0, e)[m] == p[m]);
    }
    assert(p[d] == '\\') by {
        assert(dd[d] == '\\');
    }
    assert forall|m: int| d < m < e implies !is_sep_for(false, #[trigger] p[m]) by {
        assert(p[m] == dd[m]);
        assert(dd[m] == c[m - d - 1]);
    }
    if names.len() >= 2 {
        lemma_drive_path_shape(x, dl.drop_last());
        assert(d >= 3);
        lemma_last_sep_at(p, 3, e, d, false);
    } else {
        assert(dl.len() == 0);
        assert(d == 2);
        lemma_last_sep_none(p, 3, e, false);
    }
    assert(p.subrange(d + 1, e) =~= c) by {
        assert forall|m: int| 0 <= m < c.len() implies p.subrange(d + 1, e)[m] == c[m] by {
            assert(p[d + 1 + m] == dd[d + 1 + m]);
        }
    }
    assert(c != seq!['.']);
    assert(kept_piece(c, false));
}

/// The parent of a path `X:\n1\...\nk` of plain names is the path without its
/// last name: `X:\n1\...\n(k-1)`, or the root `X:\` when `k` is 1.
pub proof fn law_parent_of_drive_path(x: char, names: Seq<Seq<char>>)
    requires
        is_ascii_alpha(x),
        names.len() >= 1,
        forall|i: int| 0 <= i < names.len() ==> plain_name(#[trigger] names[i]),
    ensures
        parent_path(drive_path(x, names)) == Some(
            if names.len() >= 2 {
                drive_path(x, names.drop_last())
            } else {
                seq![x, ':', '\\']
            },
        ),
{
    let p = drive_path(x, names);
    let dl = names.drop_last();
    lemma_drive_path_shape(x, names);
    assert(norm_sep(p[0]) != '\\');
    assert(parse_prefix(p) == (Some(PathPrefix::Disk(ascii_upper(x))), 2int));
    assert(has_physical_root(p));
    assert(!leading_cur_dir(p));
    assert(body_start(p) == 3);
    assert(plain_name(names[names.len() - 1]));
    assert(p.subrange(0, p.len() as int) =~= p);
    lemma_drive_last_piece(x, names, p);
    assert(trim_end(p, 3, p.len() as int, false) == p.len());
    if names.len() >= 2 {
        let dp = drive_path(x, dl);
        assert(p == dp + seq!['\\'] + names.last());
        assert(p.subrange(0, dp.len() as int) =~= dp);
        assert(plain_name(names[names.len() - 2]));
        assert(dl.last() == names[names.len() - 2]);
        lemma_drive_last_piece(x, dl, p);
        assert(parent_path(p) == Some(p.subrange(0, dp.len() as int)));
    } else {
        assert(trim_end(p, 3, 3, false) == 3);
        assert(p.subrange(0, 3) =~= seq![x, ':', '\\']);
    }
}

fn last_sep_exec(p: &Vec<char>, lo: usize, e: usize, verbatim: bool) -> (r: (bool, usize))
    requires
        lo <= e <= p.len(),
    ensures
        r.0 == (last_sep(p@, lo as int, e as int, verbatim) >= lo),
        r.0 ==> r.1 as int == last_sep(p@, lo as int, e as int, verbatim),
{
    proof {
        lemma_last_sep_bounds(p@, lo as int, e as int, verbatim);
    }
    let mut k = e;
    while k > lo
        invariant
            lo <= k <= e <= p.len(),
            last_sep(p@, lo as int, e as int, verbatim) == last_sep(p@, lo as int, k as int, verbatim),
        decreases k - lo,
    {
        if is_sep_exec(verbatim, p[k - 1]) {
            return (true, k - 1);
        }
        k = k - 1;
    }
    (false, 0)
}

fn kept_piece_exec(p: &Vec<char>, from: usize, to: usize, verbatim: bool) -> (r: bool)
    requires
        from <= to <= p.len(),
    ensures
        r == kept_piece(p@.subrange(from as int, to as int), verbatim),
{
    let len = to - from;
    proof {
        assert(p@.subrange(from as int, to as int).len() == len);
        if len == 1 {
            assert(p@.subrange(from as int, to as int)[0] == p@[from as int]);
            if p@[from as int] == '.' {
                assert(p@.subrange(from as int, to as int) =~= seq!['.']);
            }
        }
    }
    len > 0 && (verbatim || !(len == 1 && p[from] == '.'))
}

fn trim_end_exec(p: &Vec<char>, lo: usize, e: usize, verbatim: bool) -> (r: usize)
    requires
        lo <= e <= p.len(),
    ensures
        r as int == trim_end(p@, lo as int, e as int, verbatim),
{
    let mut end = e;
    while end > lo
        invariant
            lo <= end <= e <= p.len(),
            trim_end(p@, lo as int, e as int, verbatim) == trim_end(p@, lo as int, end as int, verbatim),
        decreases end - lo,
    {
        let (found, j) = last_sep_exec(p, lo, end, verbatim);
        proof {
            lemma_last_sep_bounds(p@, lo as int, end as int, verbatim);
        }
        let start = if found {
            j + 1
        } else {
            lo
        };
        if kept_piece_exec(p, start, end, verbatim) {
            return end;
        }
        end = if found {
            j
        } else {
            lo
        };
    }
    end
}

/// The parent directory of the Windows path `path`, as `Path::parent` reads
/// it on Windows: `C:\dir\app.exe` has the parent `C:\dir`; `C:\` has none.
pub fn parent_dir(path: &str) -> (r: Option<String>)
    ensures
        match parent_path(path@) {
            Some(q) => r matches Some(s) && s@ == q,
            None => r is None,
        },
        forall|x: char, names: Seq<Seq<char>>|
            is_ascii_alpha(x) && names.len() >= 2 && (forall|i: int|
                0 <= i < names.len() ==> plain_name(#[trigger] names[i])) && path@
                == #[trigger] drive_path(x, names) ==> (r is Some && r->0@ == drive_path(
                x,
                names.drop_last(),
            )),
{
    assert forall|x: char, names: Seq<Seq<char>>|
        is_ascii_alpha(x) && names.len() >= 2 && (forall|i: int|
            0 <= i < names.len() ==> plain_name(#[trigger] names[i])) && path@
            == #[trigger] drive_path(x, names) implies parent_path(path@) == Some(
        drive_path(x, names.drop_last()),
    ) by {
        law_parent_of_drive_path(x, names);
    }
    let p = chars_of(path);
    let n = p.len();
    let (pre, verbatim, curdir, bs) = layout(&p);
    let e0 = trim_end_exec(&p, bs, n, verbatim);
    proof {
        lemma_trim_end_bounds(p@, bs as int, n as int, verbatim);
    }
    if e0 > bs {
        let (found, j) = last_sep_exec(&p, bs, e0, verbatim);
        proof {
            lemma_last_sep_bounds(p@, bs as int, e0 as int, verbatim);
        }
        let cut = if found {
            j
        } else {
            bs
        };
        let end = trim_end_exec(&p, bs, cut, verbatim);
        proof {
            lemma_trim_end_bounds(p@, bs as int, cut as int, verbatim);
        }
        let mut s = String::new();
        push_chars(&mut s, &p, 0, end);
        assert(s@ =~= p@.subrange(0, end as int));
        Some(s)
    } else if curdir {
        let s = String::new();
        assert(s@ =~= Seq::<char>::empty());
        Some(s)
    } else {
        None
    }
}

} // verus!
