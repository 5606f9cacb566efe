//! Installing Cygwin and Borg next to the executable: what is downloaded,
//! which programs are run with which arguments, and which file is written.

use vstd::prelude::*;
use crate::text::{push_str, to_owned_string, views};

verus! {

/// Where the Cygwin installer is downloaded from.
pub const SETUP_URL: &'static str = "https://cygwin.com/setup-x86_64.exe";

/// The name under which the installer is saved in the temporary directory.
pub const SETUP_FILE_NAME: &'static str = "setup-x86_64.exe";

/// One step of the installation.
pub enum InstallStep {
    /// Run the program (first) with the arguments (second), its output going
    /// to the console.
    Run(String, Vec<String>),
    /// Write the text (second) to the file (first).
    WriteFile(String, String),
}

/// The Cygwin installation that holds Borg: `<exe_dir>\vendor\borg`.
pub open spec fn cygbuild_dir(exe_dir: Seq<char>) -> Seq<char> {
    exe_dir + "\\vendor\\borg"@
}

/// The mirror that Cygwin packages are fetched from.
pub open spec fn cygwin_mirror() -> Seq<char> {
    "ftp://ftp.funet.fi/pub/mirrors/cygwin.com/pub/cygwin/"@
}

/// The Cygwin packages needed to build and run Borg.
pub open spec fn build_packages() -> Seq<char> {
    "python3,python3-setuptools,binutils,gcc-g++,libopenssl,openssl-devel,git,make,openssh,liblz4-devel,liblz4_1"@
}

/// The installer's arguments: quiet, no admin, local packages only, no
/// shortcuts, into `cygbuild`, with `temp_dir` as package directory, the
/// mirror, and the build packages.
pub open spec fn setup_args(cygbuild: Seq<char>, temp_dir: Seq<char>) -> Seq<Seq<char>> {
    seq![
        "-q"@,
        "-B"@,
        "-o"@,
        "-n"@,
        "-R"@,
        cygbuild,
        "-L"@,
        "-l"@,
        temp_dir,
        "-D"@,
        "-s"@,
        cygwin_mirror(),
        "-P"@,
        build_packages(),
    ]
}

/// The `nsswitch.conf` written into the Cygwin installation, so that Cygwin
/// takes home directories from Windows.
pub open spec fn nsswitch_conf() -> Seq<char> {
    "# /etc/nsswitch.conf\n#\n#    This file is read once by the first process in a Cygwin process tree.\n#    To pick up changes, restart all Cygwin processes.  For a description\n#    see https://cygwin.com/cygwin-ug-net/ntsec.html#ntsec-mapping-nsswitch\n#\n# Defaults:\n# passwd:   files db\n# group:    files db\n# db_enum:  cache builtin\n# db_home:  /home/%U\ndb_home: windows\n# db_shell: /bin/bash\n# db_gecos: <empty>\n"@
}

/// `bash --login -c <script>` of the Cygwin installation.
pub open spec fn bash_run(cygbuild: Seq<char>, script: Seq<char>) -> (Seq<char>, Seq<Seq<char>>) {
    (cygbuild + "\\bin\\bash"@, seq!["--login"@, "-c"@, script])
}

/// The step runs `program` with `args`.
pub open spec fn runs(step: InstallStep, program: Seq<char>, args: Seq<Seq<char>>) -> bool {
    step matches InstallStep::Run(p, a) && p@ == program && views(a@) == args
}

/// The step writes `text` to `path`.
pub open spec fn writes(step: InstallStep, path: Seq<char>, text: Seq<char>) -> bool {
    step matches InstallStep::WriteFile(p, t) && p@ == path && t@ == text
}

fn push_owned(v: &mut Vec<String>, s: &str)
    ensures
        views(final(v)@) == views(old(v)@).push(s@),
{
    let ghost prev = v@;
    let t = to_owned_string(s);
    v.push(t);
    assert(views(v@) =~= views(prev).push(s@));
}

/// The steps that install Cygwin and Borg under `<exe_dir>\vendor\borg`,
/// given the downloaded installer `setup` and the temporary directory: run
/// the installer, upgrade pip, install Borg with pip, write `nsswitch.conf`.
pub fn install_steps(exe_dir: &str, setup: &str, temp_dir: &str) -> (r: Vec<InstallStep>)
    ensures
        r@.len() == 4,
        runs(r@[0], setup@, setup_args(cygbuild_dir(exe_dir@), temp_dir@)),
        runs(
            r@[1],
            bash_run(cygbuild_dir(exe_dir@), "easy_install-3.4 --upgrade pip"@).0,
            bash_run(cygbuild_dir(exe_dir@), "easy_install-3.4 --upgrade pip"@).1,
        ),
        runs(
            r@[2],
            bash_run(cygbuild_dir(exe_dir@), "pip install --upgrade borgbackup"@).0,
            bash_run(cygbuild_dir(exe_dir@), "pip install --upgrade borgbackup"@).1,
        ),
        writes(r@[3], cygbuild_dir(exe_dir@) + "\\etc\\nsswitch.conf"@, nsswitch_conf()),
{
    let mut cygbuild = to_owned_string(exe_dir);
    push_str(&mut cygbuild, "\\vendor\\borg");
    let mut args: Vec<String> = Vec::new();
    push_owned(&mut args, "-q");
    push_owned(&mut args, "-B");
    push_owned(&mut args, "-o");
    push_owned(&mut args, "-n");
    push_owned(&mut args, "-R");
    push_owned(&mut args, cygbuild.as_str());
    push_owned(&mut args, "-L");
    push_owned(&mut args, "-l");
    push_owned(&mut args, temp_dir);
    push_owned(&mut args, "-D");
    push_owned(&mut args, "-s");
    push_owned(&mut args, "ftp://ftp.funet.fi/pub/mirrors/cygwin.com/pub/cygwin/");
    push_owned(&mut args, "-P");
    push_owned(
        &mut args,
        "python3,python3-setuptools,binutils,gcc-g++,libopenssl,openssl-devel,git,make,openssh,liblz4-devel,liblz4_1",
    );
    assert(views(args@) =~= setup_args(cygbuild_dir(exe_dir@), temp_dir@));
    let mut bash = cygbuild.clone();
    push_str(&mut bash, "\\bin\\bash");
    let mut pip: Vec<String> = Vec::new();
    push_owned(&mut pip, "--login");
    push_owned(&mut pip, "-c");
    push_owned(&mut pip, "easy_install-3.4 --upgrade pip");
    assert(views(pip@) =~= seq!["--login"@, "-c"@, "easy_install-3.4 --upgrade pip"@]);
    let mut borg: Vec<String> = Vec::new();
    push_owned(&mut borg, "--login");
    push_owned(&mut borg, "-c");
    push_owned(&mut borg, "pip install --upgrade borgbackup");
    assert(views(borg@) =~= seq!["--login"@, "-c"@, "pip install --upgrade borgbackup"@]);
    let mut conf = cygbuild.clone();
    push_str(&mut conf, "\\etc\\nsswitch.conf");
    let text = to_owned_string(
        "# /etc/nsswitch.conf\n#\n#    This file is read once by the first process in a Cygwin process tree.\n#    To pick up changes, restart all Cygwin processes.  For a description\n#    see https://cygwin.com/cygwin-ug-net/ntsec.html#ntsec-mapping-nsswitch\n#\n# Defaults:\n# passwd:   files db\n# group:    files db\n# db_enum:  cache builtin\n# db_home:  /home/%U\ndb_home: windows\n# db_shell: /bin/bash\n# db_gecos: <empty>\n",
    );
    let mut steps: Vec<InstallStep> = Vec::new();
    steps.push(InstallStep::Run(to_owned_string(setup), args));
    steps.push(InstallStep::Run(bash.clone(), pip));
    steps.push(InstallStep::Run(bash, borg));
    steps.push(InstallStep::WriteFile(conf, text));
    steps
}

} // verus!
