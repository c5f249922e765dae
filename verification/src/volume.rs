//! Sizes in bytes as short text.

use vstd::prelude::*;
use vstd::string::StringExecFns;
use crate::text::{decimal, digits_of};

verus! {

/// Above this many bytes a size is given in GB, as multiples of this number.
pub const GIGA: usize = 1073742000;

/// Above this many bytes a size is given in MB, as multiples of this number.
pub const MEGA: usize = 1048576;

/// Above this many bytes a size is given in kB, as multiples of this number.
pub const KILO: usize = 1024;

/// A size as text: whole multiples of the largest unit that the size exceeds,
/// rounded down, or plain bytes up to 1024.
pub open spec fn volume_text(num_bytes: nat) -> Seq<char> {
    if num_bytes > GIGA {
        digits_of(num_bytes / (GIGA as nat)) + " GB"@
    } else if num_bytes > MEGA {
        digits_of(num_bytes / (MEGA as nat)) + " MB"@
    } else if num_bytes > KILO {
        digits_of(num_bytes / (KILO as nat)) + " kB"@
    } else {
        digits_of(num_bytes) + " Byte"@
    }
}

/// A size in bytes as short text, such as `3 MB` or `17 Byte`.
pub fn data_volume_str(num_bytes: usize) -> (text: String)
    ensures
        text@ == volume_text(num_bytes as nat),
{
    if num_bytes > GIGA {
        let mut text = decimal(num_bytes / GIGA);
        text.append(" GB");
        text
    } else if num_bytes > MEGA {
        let mut text = decimal(num_bytes / MEGA);
        text.append(" MB");
        text
    } else if num_bytes > KILO {
        let mut text = decimal(num_bytes / KILO);
        text.append(" kB");
        text
    } else {
        let mut text = decimal(num_bytes);
        text.append(" Byte");
        text
    }
}

} // verus!
