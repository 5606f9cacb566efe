//! The Borg command lines of the four backup steps (`init`, `create`,
//! `prune`, `check`), and the Cygwin `bash` invocation that runs one of them.

use vstd::prelude::*;
use crate::config::{env_names_distinct, Config, Create};
use crate::text::{append_copies, join_sep, lemma_join_sep_push, push_char, push_str, to_owned_string, decimal, decimal2, views};

verus! {

/// A Borg command: the program and its arguments.
#[derive(Debug, Clone)]
pub struct BorgCommand {
    pub program: String,
    pub args: Vec<String>,
}

impl View for BorgCommand {
    type V = (Seq<char>, Seq<Seq<char>>);

    open spec fn view(&self) -> (Seq<char>, Seq<Seq<char>>) {
        (self.program@, views(self.args@))
    }
}

/// A program to start: its path, its arguments and the environment variables
/// set for it.
#[derive(Debug, Clone)]
pub struct ShellCommand {
    pub program: String,
    pub args: Vec<String>,
    pub env: Vec<(String, String)>,
}

/// The Borg executable inside the Cygwin installation.
pub open spec fn borg_program() -> Seq<char> {
    "/bin/borg"@
}

/// The extra arguments of a step, none when the step gives none.
pub open spec fn extra_args(args: Option<Vec<String>>) -> Seq<Seq<char>> {
    match args {
        Some(v) => views(v@),
        None => seq![],
    }
}

/// `borg <verb> <repo> <extra arguments...>`
pub open spec fn repo_step(verb: Seq<char>, repo: Seq<char>, args: Option<Vec<String>>) -> (
    Seq<char>,
    Seq<Seq<char>>,
) {
    (borg_program(), seq![verb, repo] + extra_args(args))
}

/// `borg create <repo>::<timestamp> <sources...> <extra arguments...>`
pub open spec fn create_step(repo: Seq<char>, timestamp: Seq<char>, create: Create) -> (
    Seq<char>,
    Seq<Seq<char>>,
) {
    (
        borg_program(),
        seq!["create"@, repo + "::"@ + timestamp] + views(create.sources@) + extra_args(
            create.args,
        ),
    )
}

fn copy_extra(out: &mut Vec<String>, args: &Option<Vec<String>>)
    ensures
        views(final(out)@) == views(old(out)@) + extra_args(*args),
{
    match args {
        Some(v) => append_copies(out, v),
        None => {
            assert(views(out@) =~= views(out@) + extra_args(*args));
        },
    }
}

fn repo_step_command(verb: &str, repo: &String, args: &Option<Vec<String>>) -> (r: BorgCommand)
    ensures
        r@ == repo_step(verb@, repo@, *args),
{
    let mut a: Vec<String> = Vec::new();
    a.push(to_owned_string(verb));
    a.push(repo.clone());
    assert(views(a@) =~= seq![verb@, repo@]);
    copy_extra(&mut a, args);
    BorgCommand { program: to_owned_string("/bin/borg"), args: a }
}

/// The `borg init` command, when the configuration has an `[init]` step.
pub fn init_command(cfg: &Config) -> (r: Option<BorgCommand>)
    ensures
        match cfg.init {
            None => r is None,
            Some(init) => r matches Some(c) && c@ == repo_step("init"@, cfg.general.repo@, init.args),
        },
{
    match &cfg.init {
        Some(init) => Some(repo_step_command("init", &cfg.general.repo, &init.args)),
        None => None,
    }
}

/// The `borg prune` command, when the configuration has a `[purge]` step.
pub fn purge_command(cfg: &Config) -> (r: Option<BorgCommand>)
    ensures
        match cfg.purge {
            None => r is None,
            Some(purge) => r matches Some(c) && c@ == repo_step("prune"@, cfg.general.repo@, purge.args),
        },
{
    match &cfg.purge {
        Some(purge) => Some(repo_step_command("prune", &cfg.general.repo, &purge.args)),
        None => None,
    }
}

/// The `borg check` command, when the configuration has a `[check]` step.
pub fn check_command(cfg: &Config) -> (r: Option<BorgCommand>)
    ensures
        match cfg.check {
            None => r is None,
            Some(check) => r matches Some(c) && c@ == repo_step("check"@, cfg.general.repo@, check.args),
        },
{
    match &cfg.check {
        Some(check) => Some(repo_step_command("check", &cfg.general.repo, &check.args)),
        None => None,
    }
}

/// The `borg create` command that stores the sources in the archive named
/// after `timestamp`.
pub fn create_command(cfg: &Config, timestamp: &str) -> (r: BorgCommand)
    ensures
        r@ == create_step(cfg.general.repo@, timestamp@, cfg.create),
{
    let mut archive = cfg.general.repo.clone();
    push_str(&mut archive, "::");
    push_str(&mut archive, timestamp);
    let mut a: Vec<String> = Vec::new();
    a.push(to_owned_string("create"));
    a.push(archive);
    assert(views(a@) =~= seq!["create"@, cfg.general.repo@ + "::"@ + timestamp@]);
    append_copies(&mut a, &cfg.create.sources);
    copy_extra(&mut a, &cfg.create.args);
    BorgCommand { program: to_owned_string("/bin/borg"), args: a }
}

/// A broken-down time, with the fields of `time::Tm`.
#[derive(Debug, Clone, Copy)]
pub struct UtcTime {
    /// Seconds after the minute, 0 to 60.
    pub sec: i32,
    /// Minutes after the hour, 0 to 59.
    pub min: i32,
    /// Hours after midnight, 0 to 23.
    pub hour: i32,
    /// Day of the month, 1 to 31.
    pub mday: i32,
    /// Months since January, 0 to 11.
    pub mon: i32,
    /// Years since 1900.
    pub year: i32,
    /// Days since Sunday, 0 to 6.
    pub wday: i32,
    /// Days since January 1, 0 to 365.
    pub yday: i32,
    /// Daylight saving time flag.
    pub isdst: i32,
    /// Seconds east of UTC.
    pub utcoff: i32,
    /// Nanoseconds after the second.
    pub nsec: i32,
}

/// The fields lie in the ranges that `time::Tm` documents, and the time is
/// in UTC.
pub open spec fn utc_time_in_range(t: UtcTime) -> bool {
    &&& 0 <= t.sec <= 60
    &&& 0 <= t.min <= 59
    &&& 0 <= t.hour <= 23
    &&& 1 <= t.mday <= 31
    &&& 0 <= t.mon <= 11
    &&& t.utcoff == 0
}

/// `n` in decimal, with a `-` before it when it is negative.
pub open spec fn signed_decimal(n: int) -> Seq<char> {
    if n < 0 {
        seq!['-'] + decimal((-n) as nat)
    } else {
        decimal(n as nat)
    }
}

/// RFC 3339 text of a UTC time: `YYYY-MM-DDTHH:MM:SSZ`, the year written in
/// decimal with its sign when it lies before year 0.
pub open spec fn rfc3339_utc(t: UtcTime) -> Seq<char> {
    signed_decimal(t.year + 1900) + seq!['-'] + decimal2((t.mon + 1) as nat) + seq!['-']
        + decimal2(t.mday as nat) + seq!['T'] + decimal2(t.hour as nat) + seq![':'] + decimal2(
        t.min as nat,
    ) + seq![':'] + decimal2(t.sec as nat) + seq!['Z']
}

/// The current time from `time::now_utc`. The time itself is not stated; the
/// contract states the field ranges that `time::Tm` documents and that the
/// offset from UTC is zero (the source builds the value with offset 0).
#[verifier::external_body]
fn now_utc() -> (t: UtcTime)
    ensures
        0 <= t.sec <= 60,
        0 <= t.min <= 59,
        0 <= t.hour <= 23,
        1 <= t.mday <= 31,
        0 <= t.mon <= 11,
        t.utcoff == 0,
{
    let tm = time::now_utc();
    UtcTime {
        sec: tm.tm_sec,
        min: tm.tm_min,
        hour: tm.tm_hour,
        mday: tm.tm_mday,
        mon: tm.tm_mon,
        year: tm.tm_year,
        wday: tm.tm_wday,
        yday: tm.tm_yday,
        isdst: tm.tm_isdst,
        utcoff: tm.tm_utcoff,
        nsec: tm.tm_nsec,
    }
}

/// `time::Tm::rfc3339` of the time `t`, as text. For a UTC time the source
/// writes `%Y-%m-%dT%H:%M:%SZ`: the year (`tm_year + 1900`) with `{}`, so in
/// decimal with a `-` when it is negative, the
/// other fields as two-digit numbers; the contract states that text for a
/// time whose fields are in range. The source's arithmetic overflows (and
/// panics in a debug build) when `year` exceeds `i32::MAX - 1900` (`year +
/// 1900`), when `mon` is `i32::MAX` (`mon + 1`), and when `utcoff` is
/// `i32::MIN` (its absolute value, for a time that is not in UTC), so those
/// are excluded.
#[verifier::external_body]
fn rfc3339(t: &UtcTime) -> (r: String)
    requires
        formattable(*t),
    ensures
        utc_time_in_range(*t) ==> r@ == rfc3339_utc(*t),
{
    let tm = time::Tm {
        tm_sec: t.sec,
        tm_min: t.min,
        tm_hour: t.hour,
        tm_mday: t.mday,
        tm_mon: t.mon,
        tm_year: t.year,
        tm_wday: t.wday,
        tm_yday: t.yday,
        tm_isdst: t.isdst,
        tm_utcoff: t.utcoff,
        tm_nsec: t.nsec,
    };
    tm.rfc3339().to_string()
}

/// The fields of `t` can be written as RFC 3339 text without overflow: the
/// year plus 1900, the month plus one and the absolute value of the offset
/// all fit in an `i32`.
pub open spec fn formattable(t: UtcTime) -> bool {
    &&& t.year <= i32::MAX - 1900
    &&& t.mon < i32::MAX
    &&& t.utcoff != i32::MIN
}

/// The RFC 3339 timestamp of `t`, when its fields can be written without
/// overflow.
pub fn timestamp_of(t: &UtcTime) -> (r: Option<String>)
    ensures
        r is Some <==> formattable(*t),
        r matches Some(s) ==> (utc_time_in_range(*t) ==> s@ == rfc3339_utc(*t)),
{
    if t.year <= i32::MAX - 1900 && t.mon < i32::MAX && t.utcoff != i32::MIN {
        Some(rfc3339(t))
    } else {
        None
    }
}

/// `c` is the `borg create` command of `cfg` for an archive named after the
/// RFC 3339 text of the UTC time `t`, whose fields are in the documented
/// ranges.
pub open spec fn created_at(c: (Seq<char>, Seq<Seq<char>>), cfg: Config, t: UtcTime) -> bool {
    &&& 0 <= t.sec <= 60
    &&& 0 <= t.min <= 59
    &&& 0 <= t.hour <= 23
    &&& 1 <= t.mday <= 31
    &&& 0 <= t.mon <= 11
    &&& t.utcoff == 0
    &&& c == create_step(cfg.general.repo@, rfc3339_utc(t), cfg.create)
}

/// The `borg create` command for an archive named after the current UTC time
/// in RFC 3339 form. `None` only when the clock's year is too large to be
/// written.
pub fn create_command_now(cfg: &Config) -> (r: Option<BorgCommand>)
    ensures
        r is Some ==> exists|ts: Seq<char>|
            r->Some_0@ == #[trigger] create_step(cfg.general.repo@, ts, cfg.create),
        r is Some ==> exists|t: UtcTime| #[trigger] created_at(r->Some_0@, *cfg, t),
{
    let t = now_utc();
    match timestamp_of(&t) {
        Some(ts) => {
            let c = create_command(cfg, ts.as_str());
            assert(created_at(c@, *cfg, t));
            let r = Some(c);
            assert(r->Some_0@ == c@);
            assert(created_at(r->Some_0@, *cfg, t));
            assert(r->Some_0@ == create_step(cfg.general.repo@, ts@, cfg.create));
            r
        },
        None => None,
    }
}

/// A program and its arguments as one line for `bash -c`: each of them in
/// the quoted form in which `Command`'s `Debug` prints its words (that of an
/// OS string), separated by spaces.
pub open spec fn command_line(cmd: (Seq<char>, Seq<Seq<char>>)) -> Seq<char> {
    join_sep(
        seq![debug_quoted(cmd.0)] + cmd.1.map_values(|a: Seq<char>| debug_quoted(a)),
        seq![' '],
    )
}

/// What `Debug` prints for the string `s` taken as an OS string (as a
/// path): the form in which a command's words are printed.
pub uninterp spec fn debug_quoted(s: Seq<char>) -> Seq<char>;

/// The `Debug` text of `s` as an OS string (quoted, with escapes), from
/// `format!("{:?}", Path::new(s))`; a `Command` prints its program and
/// arguments in that form. The contract only names the result
/// `debug_quoted(s)`.
#[verifier::external_body]
fn debug_quote(s: &str) -> (r: String)
    ensures
        r@ == debug_quoted(s@),
{
    format!("{:?}", std::path::Path::new(s))
}

/// The line that `bash -c` runs for the command `cmd`.
pub fn borg_command_line(cmd: &BorgCommand) -> (r: String)
    ensures
        r@ == command_line(cmd@),
{
    let ghost parts = seq![debug_quoted(cmd.program@)] + views(cmd.args@).map_values(
        |a: Seq<char>| debug_quoted(a),
    );
    let mut line = debug_quote(cmd.program.as_str());
    let mut i: usize = 0;
    proof {
        assert(parts.subrange(0, 1) =~= seq![debug_quoted(cmd.program@)]);
    }
    while i < cmd.args.len()
        invariant
            i <= cmd.args.len(),
            parts == seq![debug_quoted(cmd.program@)] + views(cmd.args@).map_values(
                |a: Seq<char>| debug_quoted(a),
            ),
            line@ == join_sep(parts.subrange(0, i + 1), seq![' ']),
        decreases cmd.args.len() - i,
    {
        let q = debug_quote(cmd.args[i].as_str());
        proof {
            lemma_join_sep_push(parts.subrange(0, i + 1), seq![' '], q@);
            assert(parts.subrange(0, i + 2) =~= parts.subrange(0, i + 1).push(q@));
        }
        push_char(&mut line, ' ');
        push_str(&mut line, q.as_str());
        i = i + 1;
    }
    assert(parts.subrange(0, cmd.args.len() + 1) =~= parts);
    line
}

/// The environment variables of the configuration, as (name, value) pairs.
pub open spec fn env_pairs(cfg: Config) -> Seq<(Seq<char>, Seq<char>)> {
    match cfg.general.env {
        Some(v) => v@.map_values(|p: (String, String)| (p.0@, p.1@)),
        None => seq![],
    }
}

/// The view of a list of environment variables.
pub open spec fn env_view(env: Seq<(String, String)>) -> Seq<(Seq<char>, Seq<char>)> {
    env.map_values(|p: (String, String)| (p.0@, p.1@))
}

fn copy_env(cfg: &Config) -> (r: Vec<(String, String)>)
    ensures
        env_view(r@) == env_pairs(*cfg),
{
    let mut out: Vec<(String, String)> = Vec::new();
    match &cfg.general.env {
        Some(v) => {
            let mut i: usize = 0;
            while i < v.len()
                invariant
                    i <= v.len(),
                    env_view(out@) == env_view(v@.subrange(0, i as int)),
                decreases v.len() - i,
            {
                let ghost prev = out@;
                let k = v[i].0.clone();
                let val = v[i].1.clone();
                out.push((k, val));
                proof {
                    assert(out@ =~= prev.push((k, val)));
                    assert(env_view(out@) =~= env_view(prev).push((k@, val@)));
                    assert(v@.subrange(0, i + 1) =~= v@.subrange(0, i as int).push(v@[i as int]));
                    assert(env_view(v@.subrange(0, i + 1)) =~= env_view(v@.subrange(0, i as int)).push((k@, val@)));
                    assert(env_view(out@) =~= env_view(v@.subrange(0, i + 1)));
                }
                i = i + 1;
            }
            assert(v@.subrange(0, v@.len() as int) =~= v@);
        },
        None => {
            assert(env_view(out@) =~= env_pairs(*cfg));
        },
    }
    out
}

/// Every variable of the configuration's environment table is set, in the
/// order of the table, with its name and value unchanged; none is added.
pub proof fn law_env_copied_in_order(env: Seq<(String, String)>, cfg: Config)
    requires
        env_view(env) == env_pairs(cfg),
    ensures
        match cfg.general.env {
            Some(v) => {
                &&& env.len() == v@.len()
                &&& forall|i: int|
                    0 <= i < v@.len() ==> (#[trigger] env[i]).0@ == v@[i].0@ && env[i].1@
                        == v@[i].1@
            },
            None => env.len() == 0,
        },
{
    assert(env_view(env).len() == env.len());
    match cfg.general.env {
        Some(v) => {
            assert(env_pairs(cfg).len() == v@.len());
            assert forall|i: int| 0 <= i < v@.len() implies (#[trigger] env[i]).0@ == v@[i].0@
                && env[i].1@ == v@[i].1@ by {
                assert(env_view(env)[i] == (env[i].0@, env[i].1@));
                assert(env_pairs(cfg)[i] == (v@[i].0@, v@[i].1@));
            }
        },
        None => {},
    }
}

/// How a Borg command is run: Cygwin's `bash` of the installation under
/// `<exe_dir>\vendor\borg` runs it as a login shell (`--login -c <line>`),
/// with the configuration's environment variables set.
pub fn borg_invocation(cfg: &Config, exe_dir: &str, cmd: &BorgCommand) -> (r: ShellCommand)
    requires
        env_names_distinct(cfg.general.env),
    ensures
        r.program@ == exe_dir@ + "\\vendor\\borg\\bin\\bash"@,
        views(r.args@) == seq!["--login"@, "-c"@, command_line(cmd@)],
        env_view(r.env@) == env_pairs(*cfg),        match cfg.general.env {
            Some(v) => {
                &&& r.env@.len() == v@.len()
                &&& forall|i: int|
                    0 <= i < v@.len() ==> (#[trigger] r.env@[i]).0@ == v@[i].0@ && r.env@[i].1@
                        == v@[i].1@
            },
            None => r.env@.len() == 0,
        },
{
    let mut program = to_owned_string(exe_dir);
    push_str(&mut program, "\\vendor\\borg\\bin\\bash");
    let mut args: Vec<String> = Vec::new();
    args.push(to_owned_string("--login"));
    args.push(to_owned_string("-c"));
    args.push(borg_command_line(cmd));
    assert(views(args@) =~= seq!["--login"@, "-c"@, command_line(cmd@)]);
    let env = copy_env(cfg);
    proof {
        law_env_copied_in_order(env@, *cfg);
    }
    ShellCommand { program, args, env }
}

} // verus!
