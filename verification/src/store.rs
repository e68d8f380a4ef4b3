//! Values as they are written into the result table.

use vstd::prelude::*;

verus! {

/// A `u64` as an SQLite integer (a signed 64-bit value): the same 64 bits,
/// so the stored value reads back as exactly the same `u64`.
pub fn to_sqlite_integer(x: u64) -> (r: i64)
    ensures
        r == x as i64,
        r as u64 == x,
        x <= i64::MAX ==> r == x,
{
    let r = x as i64;
    assert(r as u64 == x) by (bit_vector)
        requires
            r == x as i64,
    ;
    r
}

} // verus!
