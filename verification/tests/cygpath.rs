use ckbackup::cygpath::{from_win, parent_dir};

#[test]
fn test_from_win() {
    assert_eq!(from_win("C:\\Programming\\Some stuff\\hErE"),
               "/cygdrive/c/Programming/Some stuff/hErE");
    assert_eq!(from_win("d:\\a_B_cccc\\.\\..\\..\\hey"),
               "/cygdrive/d/a_B_cccc/../../hey");
    assert_eq!(from_win("k:\\//\\/"), "/cygdrive/k");
}

#[test]
fn from_win_empty_path() {
    assert_eq!(from_win(""), "");
}

#[test]
fn from_win_bare_drive() {
    assert_eq!(from_win("C:"), "/cygdrive/c");
    assert_eq!(from_win("c:rel\\x"), "/cygdrive/c/rel/x");
}

#[test]
fn from_win_forward_slashes() {
    assert_eq!(from_win("C:/x/y"), "/cygdrive/c/x/y");
    assert_eq!(from_win("C:/x/y"), from_win("C:\\x\\y"));
}

#[test]
fn from_win_relative_paths() {
    assert_eq!(from_win(".\\a"), "./a");
    assert_eq!(from_win("a\\.\\b"), "a/b");
    assert_eq!(from_win("..\\x"), "../x");
    assert_eq!(from_win("\\a\\b"), "a/b");
}

#[test]
fn from_win_network_and_verbatim_prefixes() {
    assert_eq!(from_win("\\\\server\\share\\x\\y"), "x/y");
    assert_eq!(from_win("\\\\?\\C:\\a\\.\\b"), "a/./b");
    assert_eq!(from_win("\\\\.\\COM1\\x"), "x");
    assert_eq!(from_win("\\\\?\\UNC\\server\\share\\x"), "x");
    assert_eq!(from_win("\\\\?\\pipe/name\\x"), "x");
}

#[test]
fn from_win_never_yields_backslash() {
    for p in ["C:\\a\\b", "\\\\?\\x/y\\z", "a\\\\b", "\\\\server\\share"] {
        assert!(!from_win(p).contains('\\'));
    }
}

#[test]
fn parent_dir_of_module_paths() {
    assert_eq!(parent_dir("C:\\dir\\app.exe").as_deref(), Some("C:\\dir"));
    assert_eq!(parent_dir("C:\\app.exe").as_deref(), Some("C:\\"));
    assert_eq!(parent_dir("C:\\dir\\\\app.exe\\").as_deref(), Some("C:\\dir"));
    assert_eq!(parent_dir("C:\\dir\\.\\app.exe").as_deref(), Some("C:\\dir"));
    assert_eq!(parent_dir("C:\\"), None);
    assert_eq!(parent_dir("C:"), None);
    assert_eq!(parent_dir("C:foo").as_deref(), Some("C:"));
    assert_eq!(parent_dir("foo").as_deref(), Some(""));
    assert_eq!(parent_dir(".").as_deref(), Some(""));
    assert_eq!(parent_dir(""), None);
    assert_eq!(parent_dir("\\\\server\\share\\x").as_deref(), Some("\\\\server\\share\\"));
    assert_eq!(parent_dir("app.exe\0\0\0").as_deref(), Some(""));
}

#[test]
fn exe_dir_in_debug_builds() {
    assert_eq!(ckbackup::get_exe_dir(), ".");
}

#[test]
fn from_win_of_a_join_joins_the_conversions() {
    let cases = [("C:\\Users\\me", "docs\\x"), ("d:\\", "a\\..\\b"), ("E:\\a\\b", "c")];
    for (p, q) in cases {
        let joined = if p.ends_with('\\') { format!("{}{}", p, q) } else { format!("{}\\{}", p, q) };
        assert_eq!(from_win(&joined), format!("{}/{}", from_win(p), from_win(q)));
    }
}
