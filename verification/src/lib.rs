//! Building blocks of an automated Borg backup runner for Windows: turning
//! Windows paths into Cygwin paths, building the Borg and Cygwin command lines
//! from the configuration, and deciding how volume shadow copies are mounted
//! on free drive letters.

use vstd::prelude::*;

pub mod text;
pub mod cygpath;
pub mod config;
pub mod backup;
pub mod vss;
pub mod bootstrap;

verus! {

/// The directory that holds the executable and its `vendor` directory, in a
/// debug build: the working directory. (A release build asks Windows for the
/// executable's path and takes its parent, see `cygpath::parent_dir`.)
pub fn get_exe_dir() -> (r: String)
    ensures
        r@ == "."@,
{
    text::to_owned_string(".")
}

} // verus!
