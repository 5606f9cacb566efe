use ckbackup::backup::{
    borg_command_line, borg_invocation, check_command, create_command, create_command_now,
    init_command, purge_command, timestamp_of, BorgCommand, UtcTime,
};
use ckbackup::config::{Check, Config, Create, General, Init, Purge};

fn config_with_steps() -> Config {
    Config {
        general: General {
            repo: "ssh://host/repo".to_string(),
            env: Some(vec![("BORG_PASSPHRASE".to_string(), "secret".to_string())]),
        },
        init: Some(Init { args: Some(vec!["--encryption=repokey".to_string()]) }),
        create: Create {
            sources: vec!["/cygdrive/c/data".to_string(), "/cygdrive/d/x".to_string()],
            volume_shadow_copy: Some(true),
            args: Some(vec!["--stats".to_string()]),
        },
        purge: Some(Purge { args: Some(vec!["--keep-daily=7".to_string(), "--keep-weekly=4".to_string()]) }),
        check: Some(Check { args: None }),
        post: None,
    }
}

fn config_without_steps() -> Config {
    Config {
        general: General { repo: "r".to_string(), env: None },
        init: None,
        create: Create { sources: vec![], volume_shadow_copy: None, args: None },
        purge: None,
        check: None,
        post: None,
    }
}

fn utc(year: i32, mon: i32, mday: i32, hour: i32, min: i32, sec: i32) -> UtcTime {
    UtcTime { sec, min, hour, mday, mon, year, wday: 0, yday: 0, isdst: 0, utcoff: 0, nsec: 0 }
}

#[test]
fn optional_steps_are_skipped_when_absent() {
    let cfg = config_without_steps();
    assert!(init_command(&cfg).is_none());
    assert!(purge_command(&cfg).is_none());
    assert!(check_command(&cfg).is_none());
}

#[test]
fn step_commands_name_the_repository_then_the_extra_arguments() {
    let cfg = config_with_steps();
    let init = init_command(&cfg).unwrap();
    assert_eq!(init.program, "/bin/borg");
    assert_eq!(init.args, vec!["init", "ssh://host/repo", "--encryption=repokey"]);
    let purge = purge_command(&cfg).unwrap();
    assert_eq!(purge.args, vec!["prune", "ssh://host/repo", "--keep-daily=7", "--keep-weekly=4"]);
    let check = check_command(&cfg).unwrap();
    assert_eq!(check.args, vec!["check", "ssh://host/repo"]);
}

#[test]
fn create_command_names_the_archive_after_the_timestamp() {
    let cfg = config_with_steps();
    let c = create_command(&cfg, "2017-01-02T03:04:05Z");
    assert_eq!(c.program, "/bin/borg");
    assert_eq!(
        c.args,
        vec!["create", "ssh://host/repo::2017-01-02T03:04:05Z", "/cygdrive/c/data", "/cygdrive/d/x", "--stats"]
    );
}

#[test]
fn timestamps_are_rfc3339_in_utc() {
    assert_eq!(timestamp_of(&utc(112, 1, 22, 14, 53, 18)).unwrap(), "2012-02-22T14:53:18Z");
    assert_eq!(timestamp_of(&utc(100, 0, 1, 0, 0, 0)).unwrap(), "2000-01-01T00:00:00Z");
    assert!(timestamp_of(&utc(i32::MAX, 0, 1, 0, 0, 0)).is_none());
    assert!(timestamp_of(&utc(100, i32::MAX, 1, 0, 0, 0)).is_none());
    assert_eq!(timestamp_of(&utc(-6900, 11, 31, 23, 59, 60)).unwrap(), "-5000-12-31T23:59:60Z");
    let mut off = utc(100, 0, 1, 0, 0, 0);
    off.utcoff = i32::MIN;
    assert!(timestamp_of(&off).is_none());
    off.utcoff = 3600;
    assert_eq!(timestamp_of(&off).unwrap(), "2000-01-01T00:00:00+01:00");
}

#[test]
fn create_command_now_uses_a_timestamp() {
    let cfg = config_with_steps();
    let c = create_command_now(&cfg).unwrap();
    assert_eq!(c.args[0], "create");
    let archive = &c.args[1];
    assert!(archive.starts_with("ssh://host/repo::"));
    let ts = &archive["ssh://host/repo::".len()..];
    assert_eq!(ts.len(), 20);
    assert!(ts.ends_with('Z'));
    assert_eq!(&ts[4..5], "-");
    assert_eq!(&ts[10..11], "T");
}

#[test]
fn command_line_quotes_each_word() {
    let c = BorgCommand {
        program: "/bin/borg".to_string(),
        args: vec!["init".to_string(), "my repo".to_string(), "a\"b".to_string()],
    };
    assert_eq!(borg_command_line(&c), "\"/bin/borg\" \"init\" \"my repo\" \"a\\\"b\"");
}

#[test]
fn borg_runs_in_a_cygwin_login_shell() {
    let cfg = config_with_steps();
    let init = init_command(&cfg).unwrap();
    let inv = borg_invocation(&cfg, "C:\\ckbackup", &init);
    assert_eq!(inv.program, "C:\\ckbackup\\vendor\\borg\\bin\\bash");
    assert_eq!(
        inv.args,
        vec![
            "--login".to_string(),
            "-c".to_string(),
            "\"/bin/borg\" \"init\" \"ssh://host/repo\" \"--encryption=repokey\"".to_string()
        ]
    );
    assert_eq!(inv.env, vec![("BORG_PASSPHRASE".to_string(), "secret".to_string())]);
    let bare = borg_invocation(&config_without_steps(), ".", &init);
    assert!(bare.env.is_empty());
}
