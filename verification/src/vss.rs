//! Volume shadow copies of the drives that hold the backup sources.
//!
//! Each drive letter that the sources name is shadowed by `vshadow`, and its
//! shadow device is mounted on a drive letter that is free, so that Borg reads
//! a consistent snapshot. The decisions live here; the Windows calls
//! (`GetLogicalDrives`, `DefineDosDeviceW`) and the runs of `vshadow` are made
//! by the caller, which reports their outcomes back.

use vstd::prelude::*;
use crate::config::Create;
use crate::cygpath::{cygdrive_root, cygwin_path, from_win, is_ascii_alpha, law_drive_maps_under_cygdrive};
use crate::text::{chars_of, push_char, push_chars, push_str, to_owned_string, views};

verus! {

// ---------------------------------------------------------------------------
// Drive letters named by the sources
// ---------------------------------------------------------------------------

/// A source names a drive when its second character is `:`.
pub open spec fn names_drive(s: Seq<char>) -> bool {
    s.len() >= 2 && s[1] == ':'
}

/// A source of a single character that takes more than one byte in UTF-8:
/// its byte length is above one, yet it has no second character to compare
/// with `:`, so the drive letter check cannot be made on it.
pub open spec fn lone_wide_char(s: Seq<char>) -> bool {
    s.len() == 1 && (s[0] as u32) >= 128
}

/// The drive letters of the first `n` sources, each once, in the order in
/// which they first occur.
pub open spec fn drive_letters_upto(sources: Seq<Seq<char>>, n: int) -> Seq<char>
    decreases n,
{
    if n <= 0 {
        seq![]
    } else {
        let prev = drive_letters_upto(sources, n - 1);
        let s = sources[n - 1];
        if names_drive(s) && !prev.contains(s[0]) {
            prev.push(s[0])
        } else {
            prev
        }
    }
}

/// The drive letters that the sources name, each once.
pub open spec fn drive_letters(sources: Seq<Seq<char>>) -> Seq<char> {
    drive_letters_upto(sources, sources.len() as int)
}

fn contains_char(v: &Vec<char>, c: char) -> (r: bool)
    ensures
        r == v@.contains(c),
{
    let mut i: usize = 0;
    while i < v.len()
        invariant
            i <= v.len(),
            forall|k: int| 0 <= k < i ==> v@[k] != c,
        decreases v.len() - i,
    {
        if v[i] == c {
            return true;
        }
        i = i + 1;
    }
    false
}

/// The drive letters (the first character of a source whose second is `:`)
/// of the sources, each once, in the order of first occurrence.
pub fn extract_drive_letters(sources: &Vec<String>) -> (r: Vec<char>)
    requires
        forall|i: int| 0 <= i < sources.len() ==> !lone_wide_char(#[trigger] sources@[i]@),
    ensures
        r@ == drive_letters(views(sources@)),
        r@.no_duplicates(),
        forall|i: int|
            0 <= i < sources.len() && (#[trigger] sources@[i]@).len() >= 2 && sources@[i]@[1]
                == ':' ==> r@.contains(sources@[i]@[0]),
        forall|k: int|
            0 <= k < r@.len() ==> exists|i: int|
                0 <= i < sources.len() && (#[trigger] sources@[i]@).len() >= 2 && sources@[i]@[1]
                    == ':' && sources@[i]@[0] == #[trigger] r@[k],
{
    let ghost srcs = views(sources@);
    let mut out: Vec<char> = Vec::new();
    let mut i: usize = 0;
    while i < sources.len()
        invariant
            i <= sources.len(),
            srcs == views(sources@),
            out@ == drive_letters_upto(srcs, i as int),
        decreases sources.len() - i,
    {
        let s = &sources[i];
        assert(srcs[i as int] == s@);
        let n = s.unicode_len();
        if n >= 2 && s.get_char(1) == ':' {
            let c = s.get_char(0);
            if !contains_char(&out, c) {
                out.push(c);
            }
        }
        i = i + 1;
    }
    proof {
        law_drive_letters_distinct_and_complete(srcs);
        assert(srcs.len() == sources.len());
        assert forall|i: int|
            0 <= i < sources.len() && (#[trigger] sources@[i]@).len() >= 2 && sources@[i]@[1]
                == ':' implies out@.contains(sources@[i]@[0]) by {
            assert(srcs[i] == sources@[i]@);
            assert(names_drive(srcs[i]));
        }
        assert forall|k: int| 0 <= k < out@.len() implies exists|i: int|
            0 <= i < sources.len() && (#[trigger] sources@[i]@).len() >= 2 && sources@[i]@[1]
                == ':' && sources@[i]@[0] == #[trigger] out@[k] by {
            assert(out@.contains(out@[k]));
            let i = choose|i: int|
                0 <= i < srcs.len() && names_drive(#[trigger] srcs[i]) && srcs[i][0] == out@[k];
            assert(srcs[i] == sources@[i]@);
        }
    }
    out
}

// ---------------------------------------------------------------------------
// Free drive letters
// ---------------------------------------------------------------------------

/// The drive letter with index `i` (0 is `A`).
pub open spec fn drive_letter(i: u32) -> char {
    ((65 + i) as u8) as char
}

/// Bit `i` of the mask of drives in use is clear.
pub open spec fn drive_free(mask: u32, i: u32) -> bool {
    (mask >> i) & 1u32 == 0u32
}

/// The letters among the first `n` drive letters whose bit in `mask` is clear,
/// in alphabetical order.
pub open spec fn free_letters_upto(mask: u32, n: u32) -> Seq<char>
    decreases n,
{
    if n == 0 {
        seq![]
    } else {
        let prev = free_letters_upto(mask, (n - 1) as u32);
        if drive_free(mask, (n - 1) as u32) {
            prev.push(drive_letter((n - 1) as u32))
        } else {
            prev
        }
    }
}

/// The drive letters `A` to `Z` whose bit in the mask of drives in use is
/// clear, in alphabetical order.
pub open spec fn free_letters(mask: u32) -> Seq<char> {
    free_letters_upto(mask, 26)
}

/// The free drive letters in the bit mask of drives in use that
/// `GetLogicalDrives` reports (bit 0 is `A`).
pub fn available_drive_letters(mask: u32) -> (r: Vec<char>)
    ensures
        r@ == free_letters(mask),
{
    let mut out: Vec<char> = Vec::new();
    let mut i: u32 = 0;
    while i < 26
        invariant
            i <= 26,
            out@ == free_letters_upto(mask, i),
        decreases 26 - i,
    {
        if (mask >> i) & 1 == 0 {
            out.push((65u8 + i as u8) as char);
        }
        i = i + 1;
    }
    out
}

// ---------------------------------------------------------------------------
// The vshadow run and the variables of its script
// ---------------------------------------------------------------------------

/// `c:` as a sequence.
pub open spec fn device_name(c: char) -> Seq<char> {
    seq![c, ':']
}

/// `vshadow -p -nw -script=vss-vars.cmd C: D: ...`: persistent shadow copies
/// without writers, with their variables written to `vss-vars.cmd`.
pub open spec fn vshadow_create_args(letters: Seq<char>) -> Seq<Seq<char>> {
    seq!["-p"@, "-nw"@, "-script=vss-vars.cmd"@] + letters.map_values(|c: char| device_name(c))
}

fn device_name_exec(c: char) -> (r: String)
    ensures
        r@ == device_name(c),
{
    let mut s = String::new();
    push_char(&mut s, c);
    push_char(&mut s, ':');
    assert(s@ =~= device_name(c));
    s
}

/// The arguments of the `vshadow` run that shadows the drives `letters`.
pub fn vshadow_args(letters: &Vec<char>) -> (r: Vec<String>)
    ensures
        views(r@) == vshadow_create_args(letters@),
{
    let mut out: Vec<String> = Vec::new();
    out.push(to_owned_string("-p"));
    out.push(to_owned_string("-nw"));
    out.push(to_owned_string("-script=vss-vars.cmd"));
    let mut i: usize = 0;
    while i < letters.len()
        invariant
            i <= letters.len(),
            views(out@) == seq!["-p"@, "-nw"@, "-script=vss-vars.cmd"@] + letters@.subrange(
                0,
                i as int,
            ).map_values(|c: char| device_name(c)),
        decreases letters.len() - i,
    {
        let ghost prev = out@;
        let d = device_name_exec(letters[i]);
        out.push(d);
        proof {
            assert(out@ =~= prev.push(d));
            assert(views(out@) =~= views(prev).push(d@));
            assert(letters@.subrange(0, i + 1) =~= letters@.subrange(0, i as int).push(
                letters@[i as int],
            ));
            assert(letters@.subrange(0, i + 1).map_values(|c: char| device_name(c))
                =~= letters@.subrange(0, i as int).map_values(|c: char| device_name(c)).push(d@));
            assert(views(out@) =~= seq!["-p"@, "-nw"@, "-script=vss-vars.cmd"@]
                + letters@.subrange(0, i + 1).map_values(|c: char| device_name(c)));
        }
        i = i + 1;
    }
    assert(letters@.subrange(0, letters@.len() as int) =~= letters@);
    out
}

/// The index of the first `c` in `s` at or after `i`, or the length of `s`.
pub open spec fn find_char(s: Seq<char>, c: char, i: int) -> int
    decreases s.len() - i,
{
    if i >= s.len() {
        s.len() as int
    } else if i >= 0 && s[i] == c {
        i
    } else {
        find_char(s, c, i + 1)
    }
}

/// A line of the script that sets a variable: it starts with `SET`.
pub open spec fn is_set_line(l: Seq<char>) -> bool {
    l.len() >= 3 && l[0] == 'S' && l[1] == 'E' && l[2] == 'T'
}

/// What follows the first four characters (`SET `) of a line.
pub open spec fn assignment(l: Seq<char>) -> Seq<char> {
    if l.len() >= 4 {
        l.subrange(4, l.len() as int)
    } else {
        seq![]
    }
}

/// A `SET` line whose assignment holds an `=`.
pub open spec fn well_formed_set_line(l: Seq<char>) -> bool {
    find_char(assignment(l), '=', 0) < assignment(l).len()
}

/// The name and value of a `SET name=value` line: the text before the first
/// `=`, and the text between it and the next `=` (or the end).
pub open spec fn variable_of(l: Seq<char>) -> (Seq<char>, Seq<char>) {
    let a = assignment(l);
    let e1 = find_char(a, '=', 0);
    let e2 = find_char(a, '=', e1 + 1);
    (a.subrange(0, e1), a.subrange(e1 + 1, e2))
}

/// The variables set by the first `n` lines.
pub open spec fn variables_upto(lines: Seq<Seq<char>>, n: int) -> Seq<(Seq<char>, Seq<char>)>
    decreases n,
{
    if n <= 0 {
        seq![]
    } else if is_set_line(lines[n - 1]) {
        variables_upto(lines, n - 1).push(variable_of(lines[n - 1]))
    } else {
        variables_upto(lines, n - 1)
    }
}

/// The variables that the lines of a vshadow script set, in order.
pub open spec fn variables(lines: Seq<Seq<char>>) -> Seq<(Seq<char>, Seq<char>)> {
    variables_upto(lines, lines.len() as int)
}

/// Every `SET` line of the script names a variable with `=`.
pub open spec fn script_well_formed(lines: Seq<Seq<char>>) -> bool {
    forall|i: int| 0 <= i < lines.len() && is_set_line(#[trigger] lines[i]) ==> well_formed_set_line(lines[i])
}

/// The view of a list of variables.
pub open spec fn pair_views(v: Seq<(String, String)>) -> Seq<(Seq<char>, Seq<char>)> {
    v.map_values(|p: (String, String)| (p.0@, p.1@))
}

proof fn lemma_find_char_bounds(s: Seq<char>, c: char, i: int)
    requires
        0 <= i <= s.len(),
    ensures
        i <= find_char(s, c, i) <= s.len(),
        find_char(s, c, i) < s.len() ==> s[find_char(s, c, i)] == c,
    decreases s.len() - i,
{
    if i < s.len() && s[i] != c {
        lemma_find_char_bounds(s, c, i + 1);
    }
}

fn find_char_exec(s: &Vec<char>, c: char, i: usize) -> (r: usize)
    requires
        i <= s.len(),
    ensures
        r as int == find_char(s@, c, i as int),
        i <= r <= s.len(),
{
    let mut j = i;
    while j < s.len() && s[j] != c
        invariant
            i <= j <= s.len(),
            find_char(s@, c, i as int) == find_char(s@, c, j as int),
        decreases s.len() - j,
    {
        j = j + 1;
    }
    j
}

fn string_of(cs: &Vec<char>, from: usize, to: usize) -> (r: String)
    requires
        from <= to <= cs.len(),
    ensures
        r@ == cs@.subrange(from as int, to as int),
{
    let mut s = String::new();
    push_chars(&mut s, cs, from, to);
    assert(s@ =~= cs@.subrange(from as int, to as int));
    s
}

/// The variables that the lines of the vshadow script set: for each line
/// that starts with `SET`, the name before the first `=` of what follows
/// `SET ` and the value up to the next `=`.
pub fn parse_vars(lines: &Vec<String>) -> (r: Vec<(String, String)>)
    requires
        script_well_formed(views(lines@)),
    ensures
        pair_views(r@) == variables(views(lines@)),
{
    let ghost ls = views(lines@);
    let mut out: Vec<(String, String)> = Vec::new();
    let mut i: usize = 0;
    while i < lines.len()
        invariant
            i <= lines.len(),
            ls == views(lines@),
            script_well_formed(ls),
            pair_views(out@) == variables_upto(ls, i as int),
        decreases lines.len() - i,
    {
        let l = chars_of(lines[i].as_str());
        assert(ls[i as int] == l@);
        if l.len() >= 3 && l[0] == 'S' && l[1] == 'E' && l[2] == 'T' {
            let start: usize = if l.len() >= 4 {
                4
            } else {
                l.len()
            };
            let ghost a = assignment(l@);
            assert(a =~= l@.subrange(start as int, l@.len() as int));
            let e1 = find_char_exec(&l, '=', start);
            proof {
                assert(well_formed_set_line(l@));
                lemma_find_char_bounds(a, '=', 0);
                lemma_find_char_offset(l@, '=', start as int, 0);
            }
            let e2 = find_char_exec(&l, '=', e1 + 1);
            proof {
                lemma_find_char_offset(l@, '=', start as int, e1 - start + 1);
            }
            let name = string_of(&l, start, e1);
            let value = string_of(&l, e1 + 1, e2);
            proof {
                assert(name@ =~= variable_of(l@).0);
                assert(value@ =~= variable_of(l@).1);
            }
            let ghost prev = out@;
            out.push((name, value));
            assert(pair_views(out@) =~= pair_views(prev).push((name@, value@)));
        }
        i = i + 1;
    }
    out
}

/// Searching `l[start..]` from its index `k` is searching `l` from
/// `start + k`, shifted by `start`.
proof fn lemma_find_char_offset(l: Seq<char>, c: char, start: int, k: int)
    requires
        0 <= start <= l.len(),
        0 <= k <= l.len() - start,
    ensures
        find_char(l.subrange(start, l.len() as int), c, k) + start == find_char(l, c, start + k),
    decreases l.len() - start - k,
{
    if k < l.len() - start {
        assert(l.subrange(start, l.len() as int)[k] == l[start + k]);
        if l[start + k] != c {
            lemma_find_char_offset(l, c, start, k + 1);
        }
    }
}

/// `SHADOW_DEVICE_`, the name prefix of the variables that hold shadow
/// devices.
pub open spec fn shadow_device_prefix() -> Seq<char> {
    seq!['S', 'H', 'A', 'D', 'O', 'W', '_', 'D', 'E', 'V', 'I', 'C', 'E', '_']
}

pub open spec fn is_shadow_device_var(name: Seq<char>) -> bool {
    name.len() >= 14 && name.subrange(0, 14) == shadow_device_prefix()
}

/// The values of the first `n` variables whose name starts with
/// `SHADOW_DEVICE_`.
pub open spec fn shadow_devices_upto(vars: Seq<(Seq<char>, Seq<char>)>, n: int) -> Seq<Seq<char>>
    decreases n,
{
    if n <= 0 {
        seq![]
    } else if is_shadow_device_var(vars[n - 1].0) {
        shadow_devices_upto(vars, n - 1).push(vars[n - 1].1)
    } else {
        shadow_devices_upto(vars, n - 1)
    }
}

/// The shadow devices that the script's variables name, in order.
pub open spec fn shadow_devices_of(vars: Seq<(Seq<char>, Seq<char>)>) -> Seq<Seq<char>> {
    shadow_devices_upto(vars, vars.len() as int)
}

fn is_shadow_device_name(name: &String) -> (r: bool)
    ensures
        r == is_shadow_device_var(name@),
{
    let p = vec!['S', 'H', 'A', 'D', 'O', 'W', '_', 'D', 'E', 'V', 'I', 'C', 'E', '_'];
    assert(p@ =~= shadow_device_prefix());
    let cs = chars_of(name.as_str());
    if cs.len() < 14 {
        return false;
    }
    let mut i: usize = 0;
    while i < 14
        invariant
            i <= 14 <= cs.len(),
            cs@ == name@,
            p@ == shadow_device_prefix(),
            forall|k: int| 0 <= k < i ==> cs@[k] == p@[k],
        decreases 14 - i,
    {
        if cs[i] != p[i] {
            assert(cs@.subrange(0, 14)[i as int] != shadow_device_prefix()[i as int]);
            assert(cs@.subrange(0, 14) != shadow_device_prefix());
            return false;
        }
        i = i + 1;
    }
    assert(cs@.subrange(0, 14) =~= shadow_device_prefix());
    true
}

/// The shadow devices among the script's variables: the values of the
/// variables whose name starts with `SHADOW_DEVICE_`, in order.
pub fn shadow_devices(vars: &Vec<(String, String)>) -> (r: Vec<String>)
    ensures
        views(r@) == shadow_devices_of(pair_views(vars@)),
{
    let ghost vs = pair_views(vars@);
    let mut out: Vec<String> = Vec::new();
    let mut i: usize = 0;
    while i < vars.len()
        invariant
            i <= vars.len(),
            vs == pair_views(vars@),
            views(out@) == shadow_devices_upto(vs, i as int),
        decreases vars.len() - i,
    {
        assert(vs[i as int] == (vars@[i as int].0@, vars@[i as int].1@));
        if is_shadow_device_name(&vars[i].0) {
            let ghost prev = out@;
            let v = vars[i].1.clone();
            out.push(v);
            assert(views(out@) =~= views(prev).push(v@));
        }
        i = i + 1;
    }
    out
}

// ---------------------------------------------------------------------------
// The mapping of shadowed drives
// ---------------------------------------------------------------------------

/// No drive letter is mapped twice.
pub open spec fn keys_distinct(v: Seq<(char, char)>) -> bool {
    forall|i: int, j: int| 0 <= i < j < v.len() ==> v[i].0 != v[j].0
}

/// The index of the first entry for drive `d` at or after `i`, or -1.
pub open spec fn key_index(v: Seq<(char, char)>, d: char, i: int) -> int
    decreases v.len() - i,
{
    if i >= v.len() || i < 0 {
        -1
    } else if v[i].0 == d {
        i
    } else {
        key_index(v, d, i + 1)
    }
}

/// The drive letter that drive `d` is mapped to, if any.
pub open spec fn lookup(v: Seq<(char, char)>, d: char) -> Option<char> {
    let k = key_index(v, d, 0);
    if k >= 0 {
        Some(v[k].1)
    } else {
        None
    }
}

/// The mapping `v` with drive `d` mapped to `t`, replacing an earlier mapping
/// of `d`.
pub open spec fn with_mapping(v: Seq<(char, char)>, d: char, t: char) -> Seq<(char, char)> {
    let k = key_index(v, d, 0);
    if k >= 0 {
        v.update(k, (d, t))
    } else {
        v.push((d, t))
    }
}

proof fn lemma_key_index(v: Seq<(char, char)>, d: char, i: int)
    requires
        0 <= i <= v.len(),
    ensures
        key_index(v, d, i) == -1 || (i <= key_index(v, d, i) < v.len() && v[key_index(v, d, i)].0
            == d),
        key_index(v, d, i) == -1 ==> forall|k: int| i <= k < v.len() ==> v[k].0 != d,
        key_index(v, d, i) >= 0 ==> forall|k: int| i <= k < key_index(v, d, i) ==> v[k].0 != d,
    decreases v.len() - i,
{
    if i < v.len() && v[i].0 != d {
        lemma_key_index(v, d, i + 1);
    }
}

/// With distinct keys, an entry for `d` at index `k` is what `key_index`
/// finds.
proof fn lemma_key_index_at(v: Seq<(char, char)>, d: char, k: int)
    requires
        keys_distinct(v),
        0 <= k < v.len(),
        v[k].0 == d,
    ensures
        key_index(v, d, 0) == k,
{
    lemma_key_index(v, d, 0);
}

/// Mapping a drive keeps the keys distinct, maps that drive to its new
/// letter, and leaves every other drive's mapping as it was.
pub proof fn law_mapping_read_after_write(v: Seq<(char, char)>, d: char, t: char, e: char)
    requires
        keys_distinct(v),
    ensures
        keys_distinct(with_mapping(v, d, t)),
        lookup(with_mapping(v, d, t), d) == Some(t),
        e != d ==> lookup(with_mapping(v, d, t), e) == lookup(v, e),
{
    let w = with_mapping(v, d, t);
    lemma_key_index(v, d, 0);
    lemma_key_index(v, e, 0);
    let k = key_index(v, d, 0);
    if k >= 0 {
        assert forall|i: int, j: int| 0 <= i < j < w.len() implies w[i].0 != w[j].0 by {
            assert(w[i].0 == v[i].0 && w[j].0 == v[j].0);
        }
        lemma_key_index_at(w, d, k);
        if e != d {
            let ke = key_index(v, e, 0);
            if ke >= 0 {
                lemma_key_index_at(w, e, ke);
            } else {
                lemma_key_index(w, e, 0);
            }
        }
    } else {
        assert forall|i: int, j: int| 0 <= i < j < w.len() implies w[i].0 != w[j].0 by {
            if j == v.len() {
                assert(v[i].0 != d);
            }
        }
        lemma_key_index_at(w, d, v.len() as int);
        if e != d {
            let ke = key_index(v, e, 0);
            if ke >= 0 {
                lemma_key_index_at(w, e, ke);
            } else {
                lemma_key_index(w, e, 0);
            }
        }
    }
}

/// Where drive `d` is in the mapping, if it is there.
fn find_key(v: &Vec<(char, char)>, d: char) -> (r: Option<usize>)
    ensures
        match r {
            Some(k) => k as int == key_index(v@, d, 0),
            None => key_index(v@, d, 0) == -1,
        },
{
    proof {
        lemma_key_index(v@, d, 0);
    }
    let mut i: usize = 0;
    while i < v.len()
        invariant
            i <= v.len(),
            forall|k: int| 0 <= k < i ==> v@[k].0 != d,
        decreases v.len() - i,
    {
        if v[i].0 == d {
            proof {
                lemma_key_index(v@, d, 0);
            }
            return Some(i);
        }
        i = i + 1;
    }
    None
}

/// The drives shadowed so far, each with the drive letter that its shadow
/// copy is mounted on.
pub struct Vss {
    mapped_drives: Vec<(char, char)>,
}

impl View for Vss {
    type V = Seq<(char, char)>;

    closed spec fn view(&self) -> Seq<(char, char)> {
        self.mapped_drives@
    }
}

impl Vss {
    #[verifier::type_invariant]
    spec fn inv(self) -> bool {
        keys_distinct(self.mapped_drives@)
    }

    /// No drive shadowed yet.
    pub fn new() -> (r: Vss)
        ensures
            r@ == Seq::<(char, char)>::empty(),
    {
        Vss { mapped_drives: Vec::new() }
    }

    /// The shadowed drives: each source drive letter with the drive letter
    /// that its shadow copy is mounted on.
    pub fn get_mapped_drives(&self) -> (r: Vec<(char, char)>)
        ensures
            r@ == self@,
            keys_distinct(r@),
    {
        proof {
            use_type_invariant(self);
        }
        let mut out: Vec<(char, char)> = Vec::new();
        let mut i: usize = 0;
        while i < self.mapped_drives.len()
            invariant
                i <= self.mapped_drives.len(),
                out@ == self.mapped_drives@.subrange(0, i as int),
            decreases self.mapped_drives.len() - i,
        {
            out.push(self.mapped_drives[i]);
            assert(out@ =~= self.mapped_drives@.subrange(0, i + 1));
            i = i + 1;
        }
        assert(out@ =~= self.mapped_drives@);
        out
    }

    /// Records that drive `d` is shadowed on drive letter `t`.
    fn insert(&mut self, d: char, t: char)
        ensures
            final(self)@ == with_mapping(old(self)@, d, t),
    {
        proof {
            use_type_invariant(&*self);
            law_mapping_read_after_write(self.mapped_drives@, d, t, d);
            lemma_key_index(self.mapped_drives@, d, 0);
        }
        let found = find_key(&self.mapped_drives, d);
        let ghost before = self.mapped_drives@;
        let mut v: Vec<(char, char)> = Vec::new();
        std::mem::swap(&mut v, &mut self.mapped_drives);
        match found {
            Some(k) => v.set(k, (d, t)),
            None => v.push((d, t)),
        }
        assert(v@ =~= with_mapping(before, d, t));
        self.mapped_drives = v;
    }

    /// The DOS device names (`X:`) of the drive letters that shadow copies are
    /// mounted on, to be removed.
    pub fn removal_devices(&self) -> (r: Vec<String>)
        ensures
            views(r@) == self@.map_values(|p: (char, char)| device_name(p.1)),
    {
        let mut out: Vec<String> = Vec::new();
        let mut i: usize = 0;
        while i < self.mapped_drives.len()
            invariant
                i <= self.mapped_drives.len(),
                views(out@) == self.mapped_drives@.subrange(0, i as int).map_values(
                    |p: (char, char)| device_name(p.1),
                ),
            decreases self.mapped_drives.len() - i,
        {
            let ghost prev = out@;
            let d = device_name_exec(self.mapped_drives[i].1);
            out.push(d);
            proof {
                assert(views(out@) =~= views(prev).push(d@));
                assert(self.mapped_drives@.subrange(0, i + 1) =~= self.mapped_drives@.subrange(
                    0,
                    i as int,
                ).push(self.mapped_drives@[i as int]));
                assert(views(out@) =~= self.mapped_drives@.subrange(0, i + 1).map_values(
                    |p: (char, char)| device_name(p.1),
                ));
            }
            i = i + 1;
        }
        assert(self.mapped_drives@.subrange(0, self.mapped_drives@.len() as int)
            =~= self.mapped_drives@);
        out
    }
}

/// The argument of the `vshadow` run that deletes the shadow set of an
/// earlier run: `-dx=` and the value of the script's first variable (the
/// shadow set's id).
pub fn shadow_set_delete_arg(vars: &Vec<(String, String)>) -> (r: String)
    requires
        vars.len() > 0,
    ensures
        r@ == "-dx="@ + vars@[0].1@,
{
    let mut s = to_owned_string("-dx=");
    push_str(&mut s, vars[0].1.as_str());
    s
}

// ---------------------------------------------------------------------------
// Laws of the drive letter lists
// ---------------------------------------------------------------------------

proof fn lemma_drive_letters_upto(sources: Seq<Seq<char>>, n: int)
    requires
        0 <= n <= sources.len(),
    ensures
        drive_letters_upto(sources, n).no_duplicates(),
        forall|c: char|
            drive_letters_upto(sources, n).contains(c) <==> exists|i: int|
                0 <= i < n && names_drive(#[trigger] sources[i]) && sources[i][0] == c,
    decreases n,
{
    if n > 0 {
        lemma_drive_letters_upto(sources, n - 1);
        let prev = drive_letters_upto(sources, n - 1);
        let s = sources[n - 1];
        assert forall|c: char|
            drive_letters_upto(sources, n).contains(c) <==> exists|i: int|
                0 <= i < n && names_drive(#[trigger] sources[i]) && sources[i][0] == c by {
            if drive_letters_upto(sources, n).contains(c) {
                if prev.contains(c) {
                    let i = choose|i: int|
                        0 <= i < n - 1 && names_drive(#[trigger] sources[i]) && sources[i][0] == c;
                    assert(0 <= i < n && names_drive(sources[i]) && sources[i][0] == c);
                } else {
                    assert(names_drive(s) && s[0] == c);
                    assert(0 <= n - 1 < n && names_drive(sources[n - 1]) && sources[n - 1][0] == c);
                }
            }
            if exists|i: int| 0 <= i < n && names_drive(#[trigger] sources[i]) && sources[i][0] == c {
                let i = choose|i: int|
                    0 <= i < n && names_drive(#[trigger] sources[i]) && sources[i][0] == c;
                if i < n - 1 {
                    assert(prev.contains(c));
                    if names_drive(s) && !prev.contains(s[0]) {
                        assert(prev.push(s[0])[prev.index_of(c)] == c);
                    }
                } else {
                    if !prev.contains(c) {
                        assert(drive_letters_upto(sources, n) == prev.push(c));
                        assert(prev.push(c)[prev.len() as int] == c);
                    }
                }
            }
        }
    }
}

/// The drive letters taken from the sources are each listed once, and they
/// are exactly the first characters of the sources whose second character is
/// `:`.
pub proof fn law_drive_letters_distinct_and_complete(sources: Seq<Seq<char>>)
    ensures
        drive_letters(sources).no_duplicates(),
        forall|c: char|
            drive_letters(sources).contains(c) <==> exists|i: int|
                0 <= i < sources.len() && names_drive(#[trigger] sources[i]) && sources[i][0] == c,
{
    lemma_drive_letters_upto(sources, sources.len() as int);
}

proof fn lemma_free_letters_upto(mask: u32, n: u32)
    requires
        n <= 26,
    ensures
        free_letters_upto(mask, n).no_duplicates(),
        forall|c: char|
            free_letters_upto(mask, n).contains(c) <==> exists|i: u32|
                i < n && drive_free(mask, i) && #[trigger] drive_letter(i) == c,
        forall|k: int|
            0 <= k < free_letters_upto(mask, n).len() ==> 'A' <= #[trigger] free_letters_upto(
                mask,
                n,
            )[k] < drive_letter(n),
    decreases n,
{
    if n > 0 {
        let m = (n - 1) as u32;
        lemma_free_letters_upto(mask, m);
        let prev = free_letters_upto(mask, m);
        assert(drive_letter(m) as int == 65 + m);
        assert(drive_letter(n) as int == 65 + n);
        assert forall|c: char|
            free_letters_upto(mask, n).contains(c) <==> exists|i: u32|
                i < n && drive_free(mask, i) && #[trigger] drive_letter(i) == c by {
            if free_letters_upto(mask, n).contains(c) {
                if prev.contains(c) {
                    let i = choose|i: u32| i < m && drive_free(mask, i) && #[trigger] drive_letter(i) == c;
                    assert(i < n && drive_free(mask, i) && drive_letter(i) == c);
                } else {
                    assert(drive_free(mask, m) && drive_letter(m) == c);
                }
            }
            if exists|i: u32| i < n && drive_free(mask, i) && #[trigger] drive_letter(i) == c {
                let i = choose|i: u32| i < n && drive_free(mask, i) && #[trigger] drive_letter(i) == c;
                if i < m {
                    assert(prev.contains(c));
                    if drive_free(mask, m) {
                        assert(prev.push(drive_letter(m))[prev.index_of(c)] == c);
                    }
                } else {
                    assert(free_letters_upto(mask, n) == prev.push(c));
                    assert(prev.push(c)[prev.len() as int] == c);
                }
            }
        }
        if drive_free(mask, m) {
            assert forall|k: int| 0 <= k < prev.len() implies prev[k] != drive_letter(m) by {
                assert(prev[k] < drive_letter(m));
            }
            assert(!prev.contains(drive_letter(m)));
        }
    }
}

/// The free drive letters are listed once each, and they are exactly the
/// letters `A` to `Z` whose bit in the mask of drives in use is clear.
pub proof fn law_free_letters_are_free_and_distinct(mask: u32)
    ensures
        free_letters(mask).no_duplicates(),
        forall|c: char|
            free_letters(mask).contains(c) <==> exists|i: u32|
                i < 26 && drive_free(mask, i) && #[trigger] drive_letter(i) == c,
        forall|k: int| 0 <= k < free_letters(mask).len() ==> 'A' <= #[trigger] free_letters(mask)[k] <= 'Z',
{
    lemma_free_letters_upto(mask, 26);
    assert(drive_letter(26) as int == 91);
}

// ---------------------------------------------------------------------------
// Setting up the shadow copies, step by step
// ---------------------------------------------------------------------------

/// Why the shadow copies could not be set up.
#[derive(Clone, Copy, PartialEq, Eq, Debug)]
pub enum VssError {
    /// Fewer free drive letters than drives to shadow.
    NotEnoughDriveLetters,
    /// `vshadow` reported fewer shadow devices than drives to shadow.
    MissingShadowDevices,
    /// A shadow device could not be mounted on its drive letter.
    DefineFailed,
}

impl VssError {
    pub open spec fn spec_message(self) -> Seq<char> {
        match self {
            VssError::NotEnoughDriveLetters => "Not enough available drive letters to map to shadow drives."@,
            VssError::MissingShadowDevices => "Could not create shadow devices for all drives."@,
            VssError::DefineFailed => "Could not create drive letter for shadow device."@,
        }
    }

    /// The message that reports the error.
    pub fn message(&self) -> (r: String)
        ensures
            r@ == self.spec_message(),
    {
        match self {
            VssError::NotEnoughDriveLetters => to_owned_string(
                "Not enough available drive letters to map to shadow drives.",
            ),
            VssError::MissingShadowDevices => to_owned_string(
                "Could not create shadow devices for all drives.",
            ),
            VssError::DefineFailed => to_owned_string(
                "Could not create drive letter for shadow device.",
            ),
        }
    }
}

/// Where the setting up of shadow copies stands.
#[derive(Clone, Copy, PartialEq, Eq, Debug)]
pub enum Stage {
    /// The drives mapped before and the earlier shadow set are being removed.
    RemovingPrevious,
    /// The mask of drive letters in use is awaited.
    AwaitingDrives,
    /// `vshadow` runs; the lines of its script are awaited.
    AwaitingScript,
    /// The shadow device of drive `next` is being mounted.
    Defining,
    /// Nothing more to do.
    Done,
}

/// The state of a setup of shadow copies.
pub struct ShadowSetup {
    pub stage: Stage,
    /// The drives to shadow.
    pub letters: Vec<char>,
    /// The mask of drive letters in use, once known.
    pub mask: u32,
    /// The free drive letters, once known.
    pub available: Vec<char>,
    /// The shadow devices, once known.
    pub devices: Vec<String>,
    /// How many drives are mounted.
    pub next: usize,
}

impl ShadowSetup {
    /// The state is consistent with its stage.
    pub open spec fn wf(self) -> bool {
        &&& self.letters@.no_duplicates()
        &&& self.next <= self.letters@.len()
        &&& (self.stage == Stage::AwaitingScript || self.stage == Stage::Defining) ==> {
            &&& self.available@ == free_letters(self.mask)
            &&& self.available@.len() >= self.letters@.len()
        }
        &&& self.stage == Stage::Defining ==> {
            &&& self.next < self.letters@.len()
            &&& self.devices@.len() >= self.letters@.len()
        }
        &&& (self.stage == Stage::RemovingPrevious || self.stage == Stage::AwaitingDrives
            || self.stage == Stage::AwaitingScript) ==> self.next == 0
        &&& self.stage == Stage::Done ==> self.next == 0 || self.next == self.letters@.len()
    }
}

/// Each of the first `setup.next` drives is mapped to its free drive letter.
pub open spec fn mounted_so_far(m: Seq<(char, char)>, setup: ShadowSetup) -> bool {
    forall|k: int|
        0 <= k < setup.next ==> lookup(m, #[trigger] setup.letters@[k]) == Some(
            setup.available@[k],
        )
}

/// What the caller is asked to do next.
pub enum VssAction {
    /// Stop: the shadow copies are set up (or were not asked for), or the
    /// error says why they could not be.
    Finished(Result<(), VssError>),
    /// Remove the drives mapped before and the earlier shadow set, then report
    /// `PreviousRemoved`.
    RemovePrevious,
    /// Read the mask of drive letters in use and report it with
    /// `LogicalDrives`.
    QueryLogicalDrives,
    /// Run `vshadow` with these arguments, then report the lines of the
    /// script it wrote with `ShadowScript`.
    RunVshadow(Vec<String>),
    /// Mount the shadow device (second) on the DOS device name (first), then
    /// report whether that succeeded with `DriveDefined`.
    DefineDrive(String, String),
}

/// What the caller reports back.
pub enum VssEvent {
    PreviousRemoved,
    LogicalDrives(u32),
    ShadowScript(Vec<String>),
    DriveDefined(bool),
}

/// The event is the one that the stage awaits (and a script is well formed).
pub open spec fn awaited(stage: Stage, ev: VssEvent) -> bool {
    match ev {
        VssEvent::PreviousRemoved => stage == Stage::RemovingPrevious,
        VssEvent::LogicalDrives(_) => stage == Stage::AwaitingDrives,
        VssEvent::ShadowScript(lines) => stage == Stage::AwaitingScript && script_well_formed(
            views(lines@),
        ),
        VssEvent::DriveDefined(_) => stage == Stage::Defining,
    }
}

/// Shadow copies are asked for: `volume_shadow_copy` is `true`.
pub open spec fn shadow_copy_requested(create: Create) -> bool {
    create.volume_shadow_copy == Some(true)
}

/// The request to mount drive `k` of the setup.
pub open spec fn define_request(setup: ShadowSetup, k: int, device: String, target: String) -> bool {
    &&& device@ == device_name(setup.available@[k])
    &&& target@ == setup.devices@[k]@
}

impl Vss {
    /// Begins setting up shadow copies for the sources of `create`: when they
    /// are asked for, the earlier ones are removed first; otherwise there is
    /// nothing to do.
    pub fn start_create(&self, create: &Create) -> (r: (ShadowSetup, VssAction))
        requires
            shadow_copy_requested(*create) ==> forall|i: int|
                0 <= i < create.sources.len() ==> !lone_wide_char(#[trigger] create.sources@[i]@),
        ensures
            r.0.wf(),
            r.0.next == 0,
            mounted_so_far(self@, r.0),
            if shadow_copy_requested(*create) {
                &&& r.0.stage == Stage::RemovingPrevious
                &&& r.0.letters@ == drive_letters(views(create.sources@))
                &&& r.1 is RemovePrevious
            } else {
                &&& r.0.stage == Stage::Done
                &&& r.0.letters@.len() == 0
                &&& r.1 matches VssAction::Finished(Ok(()))
            },
    {
        let requested = match create.volume_shadow_copy {
            Some(b) => b,
            None => false,
        };
        if requested {
            let letters = extract_drive_letters(&create.sources);
            proof {
                law_drive_letters_distinct_and_complete(views(create.sources@));
            }
            (
                ShadowSetup {
                    stage: Stage::RemovingPrevious,
                    letters,
                    mask: 0,
                    available: Vec::new(),
                    devices: Vec::new(),
                    next: 0,
                },
                VssAction::RemovePrevious,
            )
        } else {
            let setup = ShadowSetup {
                stage: Stage::Done,
                letters: Vec::new(),
                mask: 0,
                available: Vec::new(),
                devices: Vec::new(),
                next: 0,
            };
            assert(setup.letters@.no_duplicates());
            (setup, VssAction::Finished(Ok(())))
        }
    }

    /// Takes the outcome `ev` of the last action and says what to do next.
    pub fn step(&mut self, setup: &mut ShadowSetup, ev: VssEvent) -> (r: VssAction)
        requires
            old(setup).wf(),
            mounted_so_far(old(self)@, *old(setup)),
            awaited(old(setup).stage, ev),
        ensures
            final(setup).wf(),
            mounted_so_far(final(self)@, *final(setup)),
            final(setup).letters == old(setup).letters,
            final(setup).stage == Stage::Done <==> r is Finished,
            r matches VssAction::Finished(Ok(())) ==> final(setup).next == final(setup).letters@.len(),
            r matches VssAction::Finished(Ok(())) && final(setup).letters@.len() > 0 ==> {
                &&& final(setup).available@ == free_letters(final(setup).mask)
                &&& final(setup).available@.len() >= final(setup).letters@.len()
            },
            match ev {
                VssEvent::PreviousRemoved => {
                    &&& r is QueryLogicalDrives
                    &&& final(setup).stage == Stage::AwaitingDrives
                    &&& final(self)@ == old(self)@
                },
                VssEvent::LogicalDrives(mask) => {
                    &&& final(self)@ == old(self)@
                    &&& if free_letters(mask).len() < old(setup).letters@.len() {
                        r == VssAction::Finished(Err(VssError::NotEnoughDriveLetters))
                    } else {
                        &&& r matches VssAction::RunVshadow(args) && views(args@)
                            == vshadow_create_args(old(setup).letters@)
                        &&& final(setup).stage == Stage::AwaitingScript
                        &&& final(setup).mask == mask
                        &&& final(setup).available@ == free_letters(mask)
                    }
                },
                VssEvent::ShadowScript(lines) => {
                    let devs = shadow_devices_of(variables(views(lines@)));
                    &&& final(self)@ == old(self)@
                    &&& if devs.len() < old(setup).letters@.len() {
                        r == VssAction::Finished(Err(VssError::MissingShadowDevices))
                    } else if old(setup).letters@.len() == 0 {
                        r == VssAction::Finished(Ok(()))
                    } else {
                        &&& final(setup).stage == Stage::Defining
                        &&& final(setup).next == 0
                        &&& views(final(setup).devices@) == devs
                        &&& final(setup).available == old(setup).available
                        &&& r matches VssAction::DefineDrive(device, target) && define_request(
                            *final(setup),
                            0,
                            device,
                            target,
                        )
                    }
                },
                VssEvent::DriveDefined(ok) => if !ok {
                    &&& r == VssAction::Finished(Err(VssError::DefineFailed))
                    &&& final(self)@ == old(self)@
                } else {
                    &&& final(self)@ == with_mapping(
                        old(self)@,
                        old(setup).letters@[old(setup).next as int],
                        old(setup).available@[old(setup).next as int],
                    )
                    &&& final(setup).next == old(setup).next + 1
                    &&& final(setup).available == old(setup).available
                    &&& final(setup).devices == old(setup).devices
                    &&& if final(setup).next == old(setup).letters@.len() {
                        r == VssAction::Finished(Ok(()))
                    } else {
                        &&& final(setup).stage == Stage::Defining
                        &&& r matches VssAction::DefineDrive(device, target) && define_request(
                            *final(setup),
                            final(setup).next as int,
                            device,
                            target,
                        )
                    }
                },
            },
    {
        match ev {
            VssEvent::PreviousRemoved => {
                setup.stage = Stage::AwaitingDrives;
                VssAction::QueryLogicalDrives
            },
            VssEvent::LogicalDrives(mask) => {
                let available = available_drive_letters(mask);
                if available.len() < setup.letters.len() {
                    setup.stage = Stage::Done;
                    VssAction::Finished(Err(VssError::NotEnoughDriveLetters))
                } else {
                    let args = vshadow_args(&setup.letters);
                    setup.mask = mask;
                    setup.available = available;
                    setup.stage = Stage::AwaitingScript;
                    VssAction::RunVshadow(args)
                }
            },
            VssEvent::ShadowScript(lines) => {
                let vars = parse_vars(&lines);
                let devices = shadow_devices(&vars);
                if devices.len() < setup.letters.len() {
                    setup.stage = Stage::Done;
                    VssAction::Finished(Err(VssError::MissingShadowDevices))
                } else if setup.letters.len() == 0 {
                    setup.stage = Stage::Done;
                    VssAction::Finished(Ok(()))
                } else {
                    setup.devices = devices;
                    setup.next = 0;
                    setup.stage = Stage::Defining;
                    let device = device_name_exec(setup.available[0]);
                    let target = setup.devices[0].clone();
                    VssAction::DefineDrive(device, target)
                }
            },
            VssEvent::DriveDefined(ok) => {
                if !ok {
                    setup.stage = Stage::Done;
                    setup.next = 0;
                    return VssAction::Finished(Err(VssError::DefineFailed));
                }
                let count = setup.letters.len();
                let k = setup.next;
                let d = setup.letters[k];
                let t = setup.available[k];
                proof {
                    use_type_invariant(&*self);
                    assert forall|j: int| 0 <= j < k implies lookup(
                        with_mapping(self@, d, t),
                        #[trigger] setup.letters@[j],
                    ) == Some(setup.available@[j]) by {
                        assert(setup.letters@[j] != d);
                        law_mapping_read_after_write(self@, d, t, setup.letters@[j]);
                    }
                    law_mapping_read_after_write(self@, d, t, d);
                }
                self.insert(d, t);
                setup.next = k + 1;
                if setup.next == count {
                    setup.stage = Stage::Done;
                    VssAction::Finished(Ok(()))
                } else {
                    let n = setup.next;
                    let device = device_name_exec(setup.available[n]);
                    let target = setup.devices[n].clone();
                    VssAction::DefineDrive(device, target)
                }
            },
        }
    }
}

/// Once a setup finishes without error, every drive it was to shadow is
/// mapped, each to a different drive letter that was free when it started.
pub proof fn law_finished_setup_shadows_every_drive(m: Seq<(char, char)>, setup: ShadowSetup)
    requires
        setup.wf(),
        mounted_so_far(m, setup),
        setup.next == setup.letters@.len(),
        setup.letters@.len() > 0 ==> {
            &&& setup.available@ == free_letters(setup.mask)
            &&& setup.available@.len() >= setup.letters@.len()
        },
    ensures
        forall|k: int|
            0 <= k < setup.letters@.len() ==> (#[trigger] lookup(m, setup.letters@[k])) is Some
                && free_letters(setup.mask).contains(lookup(m, setup.letters@[k])->Some_0),
        forall|j: int, k: int|
            0 <= j < k < setup.letters@.len() ==> #[trigger] lookup(m, setup.letters@[j]) != #[trigger] lookup(
                m,
                setup.letters@[k],
            ),
{
    if setup.letters@.len() > 0 {
        law_free_letters_are_free_and_distinct(setup.mask);
        assert forall|k: int| 0 <= k < setup.letters@.len() implies (#[trigger] lookup(
            m,
            setup.letters@[k],
        )) is Some && free_letters(setup.mask).contains(lookup(m, setup.letters@[k])->Some_0) by {
            assert(lookup(m, setup.letters@[k]) == Some(setup.available@[k]));
            assert(setup.available@.len() >= setup.letters@.len());
        }
        assert forall|j: int, k: int| 0 <= j < k < setup.letters@.len() implies #[trigger] lookup(
            m,
            setup.letters@[j],
        ) != #[trigger] lookup(m, setup.letters@[k]) by {
            assert(lookup(m, setup.letters@[j]) == Some(setup.available@[j]));
            assert(lookup(m, setup.letters@[k]) == Some(setup.available@[k]));
            assert(setup.available@[j] != setup.available@[k]);
        }
    }
}

// ---------------------------------------------------------------------------
// Reading the sources from their shadow copies
// ---------------------------------------------------------------------------

/// The Cygwin path under which the backup reads the source `s`: when drives
/// are shadowed and the drive of `s` (its first character) is one of them,
/// that character is replaced by the shadow copy's drive letter; the result is
/// converted to a Cygwin path.
pub open spec fn shadowed_source(s: Seq<char>, mapped: Seq<(char, char)>) -> Seq<char> {
    if mapped.len() > 0 && lookup(mapped, s[0]) is Some {
        cygwin_path(seq![lookup(mapped, s[0])->Some_0] + s.subrange(1, s.len() as int))
    } else {
        cygwin_path(s)
    }
}

/// The source can be rewritten: when drives are shadowed it is not empty,
/// and when its first character is a shadowed drive, that character is one
/// byte long (the rest of the source is taken from its second byte on).
pub open spec fn rewritable(s: Seq<char>, mapped: Seq<(char, char)>) -> bool {
    mapped.len() > 0 ==> s.len() > 0 && (lookup(mapped, s[0]) is Some ==> (s[0] as u32) < 128)
}

fn lookup_exec(v: &Vec<(char, char)>, d: char) -> (r: Option<char>)
    ensures
        r == lookup(v@, d),
{
    match find_key(v, d) {
        Some(k) => {
            proof {
                lemma_key_index(v@, d, 0);
            }
            Some(v[k].1)
        },
        None => None,
    }
}

/// The source `s` as the backup reads it, given the shadowed drives.
pub fn shadowed_source_path(s: &String, mapped: &Vec<(char, char)>) -> (r: String)
    requires
        rewritable(s@, mapped@),
    ensures
        r@ == shadowed_source(s@, mapped@),
{
    if mapped.len() > 0 {
        let cs = chars_of(s.as_str());
        match lookup_exec(mapped, cs[0]) {
            Some(l) => {
                let mut t = String::new();
                push_char(&mut t, l);
                push_chars(&mut t, &cs, 1, cs.len());
                assert(t@ =~= seq![l] + s@.subrange(1, s@.len() as int));
                return from_win(t.as_str());
            },
            None => {},
        }
    }
    from_win(s.as_str())
}

/// Every source as the backup reads it, given the shadowed drives.
pub fn shadowed_sources(sources: &Vec<String>, mapped: &Vec<(char, char)>) -> (r: Vec<String>)
    requires
        forall|i: int| 0 <= i < sources.len() ==> rewritable(#[trigger] sources@[i]@, mapped@),
    ensures
        r@.len() == sources@.len(),
        forall|i: int| 0 <= i < sources.len() ==> (#[trigger] r@[i])@ == shadowed_source(sources@[i]@, mapped@),
{
    let mut out: Vec<String> = Vec::new();
    let mut i: usize = 0;
    while i < sources.len()
        invariant
            i <= sources.len(),
            out@.len() == i,
            forall|k: int| 0 <= k < sources.len() ==> rewritable(#[trigger] sources@[k]@, mapped@),
            forall|k: int| 0 <= k < i ==> (#[trigger] out@[k])@ == shadowed_source(sources@[k]@, mapped@),
        decreases sources.len() - i,
    {
        out.push(shadowed_source_path(&sources[i], mapped));
        i = i + 1;
    }
    out
}

/// A source on a shadowed drive is read from under the Cygwin root of the
/// drive letter that its shadow copy is mounted on.
pub proof fn law_shadowed_source_under_shadow_drive(s: Seq<char>, mapped: Seq<(char, char)>, t: char)
    requires
        names_drive(s),
        lookup(mapped, s[0]) == Some(t),
        is_ascii_alpha(t),
    ensures
        shadowed_source(s, mapped).len() >= 11,
        shadowed_source(s, mapped).subrange(0, 11) == cygdrive_root(t),
{
    lemma_key_index(mapped, s[0], 0);
    let p = seq![t] + s.subrange(1, s.len() as int);
    assert(p[0] == t && p[1] == ':');
    law_drive_maps_under_cygdrive(p);
}

/// After a setup that finished without error, a source on one of the drives
/// it shadowed is read from under the Cygwin root of a drive letter that was
/// free when the setup started.
pub proof fn law_sources_read_from_free_shadow_drives(
    m: Seq<(char, char)>,
    setup: ShadowSetup,
    s: Seq<char>,
)
    requires
        setup.wf(),
        mounted_so_far(m, setup),
        setup.next == setup.letters@.len(),
        setup.letters@.len() > 0 ==> {
            &&& setup.available@ == free_letters(setup.mask)
            &&& setup.available@.len() >= setup.letters@.len()
        },
        names_drive(s),
        setup.letters@.contains(s[0]),
    ensures
        exists|t: char|
            #![trigger cygdrive_root(t)]
            free_letters(setup.mask).contains(t) && shadowed_source(s, m).len() >= 11
                && shadowed_source(s, m).subrange(0, 11) == cygdrive_root(t),
{
    let k = setup.letters@.index_of(s[0]);
    law_finished_setup_shadows_every_drive(m, setup);
    law_free_letters_are_free_and_distinct(setup.mask);
    let t = lookup(m, setup.letters@[k])->Some_0;
    assert(free_letters(setup.mask).contains(t));
    let i = free_letters(setup.mask).index_of(t);
    assert('A' <= free_letters(setup.mask)[i] <= 'Z');
    law_shadowed_source_under_shadow_drive(s, m, t);
    assert(free_letters(setup.mask).contains(t) && shadowed_source(s, m).len() >= 11
        && shadowed_source(s, m).subrange(0, 11) == cygdrive_root(t));
}

} // verus!
