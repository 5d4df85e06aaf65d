//! Human-readable sizes for listings.

use vstd::prelude::*;
use crate::text::{decimal, decimal_digits};

verus! {

/// Bytes in a mebibyte.
pub const MIB: u64 = 1024 * 1024;

/// Bytes in a gibibyte.
pub const GIB: u64 = 1024 * 1024 * 1024;

/// A size in the largest unit it exceeds: whole mebibytes ("MB") above one
/// mebibyte, whole kibibytes ("KB") above one kibibyte, else bytes.
pub open spec fn spec_size_label(size: u64) -> Seq<char> {
    if size > 1048576 {
        decimal_digits((size / 1048576) as nat) + " MB"@
    } else if size > 1024 {
        decimal_digits((size / 1024) as nat) + " KB"@
    } else {
        decimal_digits(size as nat) + " bytes"@
    }
}

/// Writes a file size for a directory listing.
pub fn size_label(size: u64) -> (r: String)
    ensures
        r@ == spec_size_label(size),
{
    if size > MIB {
        decimal(size / MIB).concat(" MB")
    } else if size > 1024 {
        decimal(size / 1024).concat(" KB")
    } else {
        decimal(size).concat(" bytes")
    }
}

/// A size in whole gibibytes, rounded down.
pub fn gigabytes(size: u64) -> (r: u64)
    ensures
        r == size / 1073741824,
{
    size / GIB
}

} // verus!
