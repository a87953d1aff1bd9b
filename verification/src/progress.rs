//! The numbers of a progress bar.

use vstd::prelude::*;

verus! {

/// How many bytes one step of a progress bar stands for.
pub const BAR_STEP: u64 = 100_000_000;

/// The length of the progress bar for a file.
pub fn bar_length(file_len: u64) -> (length: u64)
    ensures
        length == file_len as int / 100_000_000,
{
    file_len / BAR_STEP
}

/// The position of the progress bar after so many bytes of a file: the part of
/// the file that has been read, in percent. An empty file counts as one byte.
pub fn bar_position(bytes_read: u64, file_len: u64) -> (position: u64)
    requires
        bytes_read <= u64::MAX / 100,
    ensures
        position == bytes_read * 100 / (if file_len == 0 {
            1int
        } else {
            file_len as int
        }),
{
    let whole: u64 = if file_len == 0 {
        1
    } else {
        file_len
    };
    bytes_read * 100 / whole
}

} // verus!
