//! The backup configuration (`config.toml`) and the reading of its TOML text.
//!
//! The TOML text is parsed by the `toml` crate; when it is rejected, every
//! parser error becomes one diagnostic line
//! `<path>:<line>:<col>-<line>:<col> error: <description>`, with the 0-based
//! line and column that `toml` computes for the error's byte span.

use vstd::prelude::*;
use crate::text::{decimal, push_char, push_decimal, push_str};

verus! {

/// What to do once the backup is done.
#[derive(Debug, Clone)]
pub struct Post {
    /// Suspend the machine when the backup is finished.
    pub sleep: Option<bool>,
}

/// The `borg check` step.
#[derive(Debug, Clone)]
pub struct Check {
    /// Extra arguments handed to `borg check`.
    pub args: Option<Vec<String>>,
}

/// The `borg prune` step.
#[derive(Debug, Clone)]
pub struct Purge {
    /// Extra arguments handed to `borg prune`.
    pub args: Option<Vec<String>>,
}

/// The `borg create` step.
#[derive(Debug, Clone)]
pub struct Create {
    /// The Windows paths to back up.
    pub sources: Vec<String>,
    /// Back up from volume shadow copies of the sources' drives.
    pub volume_shadow_copy: Option<bool>,
    /// Extra arguments handed to `borg create`.
    pub args: Option<Vec<String>>,
}

/// The `borg init` step.
#[derive(Debug, Clone)]
pub struct Init {
    /// Extra arguments handed to `borg init`.
    pub args: Option<Vec<String>>,
}

/// Settings shared by every step.
#[derive(Debug, Clone)]
pub struct General {
    /// The Borg repository.
    pub repo: String,
    /// Environment variables set for every Borg run, as the (name, value)
    /// pairs of the `[general.env]` table; a table names each variable once
    /// (see `env_names_distinct`).
    pub env: Option<Vec<(String, String)>>,
}

/// No environment variable is named twice, as in the table it was read from.
pub open spec fn env_names_distinct(env: Option<Vec<(String, String)>>) -> bool {
    match env {
        Some(v) => forall|i: int, j: int|
            0 <= i < j < v@.len() ==> (#[trigger] v@[i]).0@ != (#[trigger] v@[j]).0@,
        None => true,
    }
}

/// The whole configuration file.
#[derive(Debug)]
pub struct Config {
    pub general: General,
    pub init: Option<Init>,
    pub create: Create,
    pub purge: Option<Purge>,
    pub check: Option<Check>,
    pub post: Option<Post>,
}

impl Default for Post {
    fn default() -> (r: Post)
        ensures
            r.sleep is None,
    {
        Post { sleep: None }
    }
}

impl Default for Check {
    fn default() -> (r: Check)
        ensures
            r.args is None,
    {
        Check { args: None }
    }
}

impl Default for Purge {
    fn default() -> (r: Purge)
        ensures
            r.args is None,
    {
        Purge { args: None }
    }
}

impl Default for Create {
    fn default() -> (r: Create)
        ensures
            r.sources@.len() == 0,
            r.volume_shadow_copy is None,
            r.args is None,
    {
        Create { sources: Vec::new(), volume_shadow_copy: None, args: None }
    }
}

impl Default for Init {
    fn default() -> (r: Init)
        ensures
            r.args is None,
    {
        Init { args: None }
    }
}

impl Default for General {
    fn default() -> (r: General)
        ensures
            r.repo@.len() == 0,
            r.env is None,
    {
        General { repo: String::new(), env: None }
    }
}

impl Default for Config {
    /// An empty configuration: no repository, no sources, no optional step.
    fn default() -> (r: Config)
        ensures
            r.general.repo@.len() == 0,
            r.general.env is None,
            r.init is None,
            r.create.sources@.len() == 0,
            r.create.volume_shadow_copy is None,
            r.create.args is None,
            r.purge is None,
            r.check is None,
            r.post is None,
    {
        Config {
            general: General::default(),
            init: None,
            create: Create::default(),
            purge: None,
            check: None,
            post: None,
        }
    }
}

/// The machine is to be suspended after the backup: `[post]` is present and
/// its `sleep` is `true` (a missing `sleep` means `false`).
pub open spec fn spec_sleep_after(post: Option<Post>) -> bool {
    match post {
        Some(p) => p.sleep == Some(true),
        None => false,
    }
}

impl Config {
    /// Whether the machine is suspended once the backup is done.
    pub fn sleep_after_backup(&self) -> (r: bool)
        ensures
            r == spec_sleep_after(self.post),
    {
        match &self.post {
            Some(p) => match p.sleep {
                Some(b) => b,
                None => false,
            },
            None => false,
        }
    }
}

#[verifier::external_type_specification]
#[verifier::external_body]
pub struct ExTomlValue(toml::Value);

/// One error reported by the TOML parser: the byte span `lo..hi` of the
/// input it points at, and its description.
#[derive(Debug, Clone)]
pub struct TomlError {
    pub lo: usize,
    pub hi: usize,
    pub desc: String,
}

impl View for TomlError {
    type V = (usize, usize, Seq<char>);

    open spec fn view(&self) -> (usize, usize, Seq<char>) {
        (self.lo, self.hi, self.desc@)
    }
}

/// What `toml::Parser::parse` makes of `text`: the table it returns (none
/// when it rejects the text), and the errors it records, in order.
pub uninterp spec fn toml_parse_outcome(text: Seq<char>) -> (
    Option<Map<String, toml::Value>>,
    Seq<(usize, usize, Seq<char>)>,
);

/// The errors that `toml::Parser::parse` records for `text`, in order.
pub open spec fn toml_parse_errors(text: Seq<char>) -> Seq<(usize, usize, Seq<char>)> {
    toml_parse_outcome(text).1
}

/// The table that `toml::Parser::parse` returns for `text`, if any.
pub open spec fn toml_table(text: Seq<char>) -> Option<Map<String, toml::Value>> {
    toml_parse_outcome(text).0
}

/// The index of the first newline of `t` at or after `i`, or the length of
/// `t`.
pub open spec fn newline_index(t: Seq<char>, i: int) -> int
    decreases t.len() - i,
{
    if i >= t.len() {
        t.len() as int
    } else if i >= 0 && t[i] == '\n' {
        i
    } else {
        newline_index(t, i + 1)
    }
}

pub proof fn lemma_newline_index_bounds(t: Seq<char>, i: int)
    requires
        0 <= i <= t.len(),
    ensures
        i <= newline_index(t, i) <= t.len(),
    decreases t.len() - i,
{
    if i < t.len() && t[i] != '\n' {
        lemma_newline_index_bounds(t, i + 1);
    }
}

/// A line ended by `\r\n` loses its `\r`.
pub open spec fn without_cr(l: Seq<char>) -> Seq<char> {
    if l.len() > 0 && l.last() == '\r' {
        l.drop_last()
    } else {
        l
    }
}

/// The lines of `t` as `str::lines` documents them: split at `\n` or
/// `\r\n`, without the line endings; a final line ending adds no empty
/// line, and a `\r` not followed by `\n` stays in its line.
pub open spec fn text_lines(t: Seq<char>) -> Seq<Seq<char>>
    decreases t.len(),
{
    if t.len() == 0 {
        seq![]
    } else {
        let k = newline_index(t, 0);
        if k >= t.len() {
            seq![t]
        } else {
            proof {
                lemma_newline_index_bounds(t, 0);
            }
            seq![without_cr(t.subrange(0, k))] + text_lines(t.subrange(k + 1, t.len() as int))
        }
    }
}

/// The (line, column) of byte `offset`, counted from line `i`, which starts
/// at byte `cur`: each line counts its UTF-8 length plus one for its ending.
pub open spec fn line_col_from(lines: Seq<Seq<char>>, i: int, cur: int, offset: int) -> (int, int)
    decreases lines.len() - i,
{
    if i < 0 || i >= lines.len() {
        (lines.len() as int, 0)
    } else {
        let l = vstd::utf8::encode_utf8(lines[i]).len() as int;
        if cur + l + 1 > offset {
            (i, offset - cur)
        } else {
            line_col_from(lines, i + 1, cur + l + 1, offset)
        }
    }
}

/// The 0-based (line, column) that `toml::Parser::to_linecol` gives to the
/// byte `offset` of `text`: the first line whose end (one past its last
/// byte, counting one byte for its line ending) lies beyond `offset`, and
/// the distance of `offset` from that line's start; past the last line, the
/// number of lines and column 0.
pub open spec fn toml_line_col(text: Seq<char>, offset: usize) -> (usize, usize) {
    let lc = line_col_from(text_lines(text), 0, 0, offset as int);
    (lc.0 as usize, lc.1 as usize)
}

/// Parses `text` with `toml::Parser::parse` and hands back the table and the
/// parser's `errors` (span and description of each). The contract names both
/// by `toml_parse_outcome(text)` (the parser is deterministic in its input);
/// it states that a table comes back exactly when the error list is empty
/// (the source returns a table only when no error was recorded; its
/// documentation guarantees errors when it returns none). The table's
/// contents are only named, not stated.
#[verifier::external_body]
fn toml_parse(text: &str) -> (r: (Option<toml::Table>, Vec<TomlError>))
    ensures
        r.1@.map_values(|e: TomlError| e@) == toml_parse_outcome(text@).1,
        match r.0 {
            Some(t) => toml_parse_outcome(text@).0 == Some(t@),
            None => toml_parse_outcome(text@).0 is None,
        },
        r.0.is_some() <==> r.1@.len() == 0,
{
    let mut parser = toml::Parser::new(text);
    let table = parser.parse();
    let errors = parser.errors.iter().map(
        |e| TomlError { lo: e.lo, hi: e.hi, desc: e.desc.clone() },
    ).collect();
    (table, errors)
}

/// The (line, column) of byte `offset` of `text`, from
/// `toml::Parser::to_linecol` on a parser over `text`. The source walks
/// `text.lines()`, adding each line's byte length plus one, and stops at the
/// first line that reaches past `offset`; the contract states that as
/// `toml_line_col(text, offset)`.
#[verifier::external_body]
fn toml_linecol(text: &str, offset: usize) -> (r: (usize, usize))
    ensures
        r == toml_line_col(text@, offset),
{
    toml::Parser::new(text).to_linecol(offset)
}

/// The diagnostic line for an error of the file `path` that spans from `lo`
/// to `hi` (each a 0-based line and column).
pub open spec fn diagnostic_text(
    path: Seq<char>,
    lo: (usize, usize),
    hi: (usize, usize),
    desc: Seq<char>,
) -> Seq<char> {
    path + seq![':'] + decimal(lo.0 as nat) + seq![':'] + decimal(lo.1 as nat) + seq!['-']
        + decimal(hi.0 as nat) + seq![':'] + decimal(hi.1 as nat)
        + seq![' ', 'e', 'r', 'r', 'o', 'r', ':', ' '] + desc
}

/// Formats one parser diagnostic: `<path>:<line>:<col>-<line>:<col> error: <desc>`.
pub fn format_diagnostic(path: &str, lo: (usize, usize), hi: (usize, usize), desc: &str) -> (r:
    String)
    ensures
        r@ == diagnostic_text(path@, lo, hi, desc@),
{
    let mut s = String::new();
    push_str(&mut s, path);
    push_char(&mut s, ':');
    push_decimal(&mut s, lo.0);
    push_char(&mut s, ':');
    push_decimal(&mut s, lo.1);
    push_char(&mut s, '-');
    push_decimal(&mut s, hi.0);
    push_char(&mut s, ':');
    push_decimal(&mut s, hi.1);
    push_char(&mut s, ' ');
    push_char(&mut s, 'e');
    push_char(&mut s, 'r');
    push_char(&mut s, 'r');
    push_char(&mut s, 'o');
    push_char(&mut s, 'r');
    push_char(&mut s, ':');
    push_char(&mut s, ' ');
    push_str(&mut s, desc);
    assert(s@ =~= diagnostic_text(path@, lo, hi, desc@));
    s
}

/// The diagnostic line of each error, for errors that `toml` reported on
/// `text`.
pub open spec fn diagnostics_of(
    path: Seq<char>,
    text: Seq<char>,
    errors: Seq<(usize, usize, Seq<char>)>,
) -> Seq<Seq<char>> {
    errors.map_values(
        |e: (usize, usize, Seq<char>)|
            diagnostic_text(path, toml_line_col(text, e.0), toml_line_col(text, e.1), e.2),
    )
}

/// The diagnostic lines for the parser errors `errors` found in `text`, which
/// was read from `path`.
pub fn toml_diagnostics(path: &str, text: &str, errors: &Vec<TomlError>) -> (r: Vec<String>)
    ensures
        r@.map_values(|s: String| s@) == diagnostics_of(
            path@,
            text@,
            errors@.map_values(|e: TomlError| e@),
        ),
{
    let mut out: Vec<String> = Vec::new();
    let mut i: usize = 0;
    while i < errors.len()
        invariant
            i <= errors.len(),
            out@.len() == i,
            forall|k: int|
                0 <= k < i ==> (#[trigger] out@[k])@ == diagnostic_text(
                    path@,
                    toml_line_col(text@, errors@[k].lo),
                    toml_line_col(text@, errors@[k].hi),
                    errors@[k].desc@,
                ),
        decreases errors.len() - i,
    {
        let e = &errors[i];
        let lo = toml_linecol(text, e.lo);
        let hi = toml_linecol(text, e.hi);
        out.push(format_diagnostic(path, lo, hi, e.desc.as_str()));
        i = i + 1;
    }
    assert(out@.map_values(|s: String| s@) =~= diagnostics_of(
        path@,
        text@,
        errors@.map_values(|e: TomlError| e@),
    ));
    out
}

/// Parses the configuration text `text`, read from the file `path`, as TOML.
/// On success the TOML table comes back, to be decoded into a [`Config`];
/// when the parser rejects the text, the diagnostic line of every parser
/// error comes back, in the parser's order.
pub fn parse_config_toml(path: &str, text: &str) -> (r: Result<toml::Table, Vec<String>>)
    ensures
        r is Ok <==> toml_parse_errors(text@).len() == 0,
        r matches Ok(t) ==> toml_table(text@) == Some(t@),
        r matches Err(lines) ==> lines@.map_values(|s: String| s@) == diagnostics_of(
            path@,
            text@,
            toml_parse_errors(text@),
        ),
{
    let (table, errors) = toml_parse(text);
    match table {
        Some(t) => {
            assert(errors@.map_values(|e: TomlError| e@).len() == 0);
            Ok(t)
        },
        None => Err(toml_diagnostics(path, text, &errors)),
    }
}

} // verus!
