//! How the commands that open or unmount a mount point are put together.

use vstd::prelude::*;
use vstd::string::*;

verus! {

/// The broker that runs a command on the host for a sandboxed process.
pub open spec fn broker() -> Seq<char> {
    "flatpak-spawn"@
}

/// The broker's option that asks for the host.
pub open spec fn host_option() -> Seq<char> {
    "--host"@
}

/// The words of the command that runs `cmd` on `mountpoint`: the program
/// first, then its arguments. In a sandbox the broker goes in front.
pub open spec fn command_words(cmd: Seq<char>, mountpoint: Seq<char>, sandboxed: bool) -> Seq<
    Seq<char>,
> {
    if sandboxed {
        seq![broker(), host_option(), cmd, mountpoint]
    } else {
        seq![cmd, mountpoint]
    }
}

/// The program that unmounts a mount point.
pub open spec fn unmount_program() -> Seq<char> {
    "umount"@
}

/// The file manager that opens a mount point.
pub open spec fn open_program() -> Seq<char> {
    "cosmic-files"@
}

/// The views of a list of strings, in order.
pub open spec fn word_views(words: Seq<String>) -> Seq<Seq<char>> {
    words.map_values(|w: String| w@)
}

/// Whether this build runs inside an application sandbox. It does not.
pub fn is_flatpak() -> (r: bool)
    ensures
        !r,
{
    false
}

/// Composes the command line that applies `cmd` to `mountpoint`.
pub fn command_line(cmd: &str, mountpoint: &str, sandboxed: bool) -> (r: Vec<String>)
    ensures
        word_views(r@) == command_words(cmd@, mountpoint@, sandboxed),
        r@.len() == (if sandboxed { 4int } else { 2int }),
        forall|i: int|
            0 <= i < r@.len() ==> (#[trigger] r@[i])@ == command_words(cmd@, mountpoint@, sandboxed)[i],
{
    let mut words: Vec<String> = Vec::new();
    if sandboxed {
        words.push(String::from_str("flatpak-spawn"));
        words.push(String::from_str("--host"));
    }
    words.push(String::from_str(cmd));
    words.push(String::from_str(mountpoint));
    assert(word_views(words@) =~= command_words(cmd@, mountpoint@, sandboxed));
    words
}

/// Composes the command line that unmounts `mountpoint`.
pub fn unmount_command(mountpoint: &str, sandboxed: bool) -> (r: Vec<String>)
    ensures
        word_views(r@) == command_words(unmount_program(), mountpoint@, sandboxed),
        r@.len() == (if sandboxed { 4int } else { 2int }),
        forall|i: int|
            0 <= i < r@.len() ==> (#[trigger] r@[i])@ == command_words(
                unmount_program(),
                mountpoint@,
                sandboxed,
            )[i],
{
    command_line("umount", mountpoint, sandboxed)
}

/// Composes the command line that opens `mountpoint` in the file manager.
pub fn open_command(mountpoint: &str, sandboxed: bool) -> (r: Vec<String>)
    ensures
        word_views(r@) == command_words(open_program(), mountpoint@, sandboxed),
        r@.len() == (if sandboxed { 4int } else { 2int }),
        forall|i: int|
            0 <= i < r@.len() ==> (#[trigger] r@[i])@ == command_words(
                open_program(),
                mountpoint@,
                sandboxed,
            )[i],
{
    command_line("cosmic-files", mountpoint, sandboxed)
}

} // verus!
