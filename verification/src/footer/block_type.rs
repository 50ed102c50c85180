//! Standard control block type codes.

use vstd::prelude::*;

verus! {

pub const DESCR: u8 = 0;
pub const HEADER: u8 = 1;
pub const DATA: u8 = 2;
pub const DIR: u8 = 3;
pub const FOOTER: u8 = 4;
pub const RECOVERY: u8 = 5;

/// Upper-case name of a block type code, `"?"` for unknown codes.
pub open spec fn block_type_name(b: u8) -> Seq<char> {
    if b == 0 {
        "DESCR"@
    } else if b == 1 {
        "HEADER"@
    } else if b == 2 {
        "DATA"@
    } else if b == 3 {
        "DIR"@
    } else if b == 4 {
        "FOOTER"@
    } else if b == 5 {
        "RECOVERY"@
    } else {
        "?"@
    }
}

/// Name of a block type code, for display.
pub fn name(b: u8) -> (s: &'static str)
    ensures
        s@ == block_type_name(b),
{
    match b {
        0 => "DESCR",
        1 => "HEADER",
        2 => "DATA",
        3 => "DIR",
        4 => "FOOTER",
        5 => "RECOVERY",
        _ => "?",
    }
}

} // verus!
