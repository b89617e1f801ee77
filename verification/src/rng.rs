//! The library's only source of randomness, behind one trusted wrapper.

use vstd::prelude::*;

verus! {

/// Relies on `fastrand::u64`: a draw from the thread-local generator, always
/// inside the given range; the range here is `0..65536`, so the result is a
/// fixed-point value in `[0, 1)`. Nothing more is assumed of the draw.
#[verifier::external_body]
pub(crate) fn rand_unit() -> (r: i64)
    ensures
        0 <= r < 65536,
{
    fastrand::u64(0..65536) as i64
}

} // verus!
