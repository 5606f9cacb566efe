use ckbackup::bootstrap::{install_steps, InstallStep, SETUP_FILE_NAME, SETUP_URL};

#[test]
fn install_runs_setup_then_pip_then_writes_nsswitch() {
    let steps = install_steps("C:\\ck", "C:\\Temp\\setup-x86_64.exe", "C:\\Temp");
    assert_eq!(steps.len(), 4);
    match &steps[0] {
        InstallStep::Run(p, args) => {
            assert_eq!(p, "C:\\Temp\\setup-x86_64.exe");
            assert_eq!(
                args,
                &vec![
                    "-q", "-B", "-o", "-n", "-R", "C:\\ck\\vendor\\borg", "-L", "-l", "C:\\Temp", "-D", "-s",
                    "ftp://ftp.funet.fi/pub/mirrors/cygwin.com/pub/cygwin/", "-P",
                    "python3,python3-setuptools,binutils,gcc-g++,libopenssl,openssl-devel,git,make,openssh,liblz4-devel,liblz4_1",
                ]
            );
        }
        _ => panic!("run expected"),
    }
    match &steps[1] {
        InstallStep::Run(p, args) => {
            assert_eq!(p, "C:\\ck\\vendor\\borg\\bin\\bash");
            assert_eq!(args, &vec!["--login", "-c", "easy_install-3.4 --upgrade pip"]);
        }
        _ => panic!("run expected"),
    }
    match &steps[2] {
        InstallStep::Run(p, args) => {
            assert_eq!(p, "C:\\ck\\vendor\\borg\\bin\\bash");
            assert_eq!(args, &vec!["--login", "-c", "pip install --upgrade borgbackup"]);
        }
        _ => panic!("run expected"),
    }
    match &steps[3] {
        InstallStep::WriteFile(path, text) => {
            assert_eq!(path, "C:\\ck\\vendor\\borg\\etc\\nsswitch.conf");
            assert!(text.starts_with("# /etc/nsswitch.conf\n"));
            assert!(text.contains("\ndb_home: windows\n"));
            assert!(text.ends_with("# db_gecos: <empty>\n"));
        }
        _ => panic!("write expected"),
    }
}

#[test]
fn installer_source() {
    assert_eq!(SETUP_URL, "https://cygwin.com/setup-x86_64.exe");
    assert_eq!(SETUP_FILE_NAME, "setup-x86_64.exe");
}
