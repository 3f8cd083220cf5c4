//! File modes: the type of a file and its permissions.

use nix::sys::stat::{Mode, SFlag};
use vstd::prelude::*;

verus! {

/// The bits of a file mode that say what type the file is of.
pub const S_IFMT: u32 = 0o170000;

/// The bits of a file mode that mark a directory.
pub const S_IFDIR: u32 = 0o040000;

/// The bits of a file mode that mark a symbolic link.
pub const S_IFLNK: u32 = 0o120000;

/// The bits of a file mode that say what may be done with the file.
pub const PERMISSION_BITS: u32 = 0o7777;

/// The file type that a mode holds.
///
/// Calls nix's `SFlag::from_bits_truncate`, which keeps the bits of the file type and drops all
/// others.
#[verifier::external_body]
pub(crate) fn file_type(mode: u32) -> (bits: u32)
    ensures
        bits == mode & S_IFMT,
{
    SFlag::from_bits_truncate(mode).bits()
}

/// The permissions that a mode holds.
///
/// Calls nix's `Mode::from_bits_truncate`, which keeps the permission bits, with those for setting
/// the user and the group and the sticky bit, and drops all others.
#[verifier::external_body]
pub(crate) fn permissions(mode: u32) -> (bits: u32)
    ensures
        bits == mode & PERMISSION_BITS,
{
    Mode::from_bits_truncate(mode).bits()
}

/// Whether a mode has all bits that mark a file type.
pub open spec fn has_type_bits(mode: u32, file_type: u32) -> bool {
    mode & S_IFMT & file_type == file_type
}

/// Whether a mode has all bits that mark a directory.
pub fn is_directory(mode: u32) -> (result: bool)
    ensures
        result == has_type_bits(mode, S_IFDIR),
{
    file_type(mode) & S_IFDIR == S_IFDIR
}

/// Whether a mode has all bits that mark a symbolic link.
pub fn is_symlink(mode: u32) -> (result: bool)
    ensures
        result == has_type_bits(mode, S_IFLNK),
{
    file_type(mode) & S_IFLNK == S_IFLNK
}

/// A mode is that of a directory where it has the directory bit among those of the file type, and
/// that of a symbolic link where it has both bits that mark one.
pub proof fn law_modes_tell_directories_and_links(mode: u32, directory: bool, link: bool)
    requires
        call_ensures(is_directory, (mode,), directory),
        call_ensures(is_symlink, (mode,), link),
    ensures
        directory <==> mode & 0o040000 == 0o040000,
        link <==> mode & 0o120000 == 0o120000,
        directory <==> has_type_bits(mode, 0o040000),
        link <==> has_type_bits(mode, 0o120000),
{
    assert(mode & 0o170000 & 0o040000 == mode & 0o040000) by (bit_vector);
    assert(mode & 0o170000 & 0o120000 == mode & 0o120000) by (bit_vector);
}

} // verus!
