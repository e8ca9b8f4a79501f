//! Checked narrowing of machine integers, performed by `num_traits::cast`.

use vstd::prelude::*;

verus! {

/// Calls `num_traits::cast::<usize, u8>`, which yields the same number as a
/// `u8` when it is at most 255 and `None` otherwise.
#[verifier::external_body]
pub(crate) fn usize_to_u8(n: usize) -> (r: Option<u8>)
    ensures
        n <= 255 ==> r == Some(n as u8),
        n > 255 ==> r.is_none(),
{
    num_traits::cast(n)
}

/// Calls `num_traits::cast::<usize, u16>`, which yields the same number as a
/// `u16` when it is at most 65535 and `None` otherwise.
#[verifier::external_body]
pub(crate) fn usize_to_u16(n: usize) -> (r: Option<u16>)
    ensures
        n <= 65535 ==> r == Some(n as u16),
        n > 65535 ==> r.is_none(),
{
    num_traits::cast(n)
}

/// Calls `num_traits::cast::<usize, i16>`, which yields the same number as an
/// `i16` when it is at most 32767 and `None` otherwise.
#[verifier::external_body]
pub(crate) fn usize_to_i16(n: usize) -> (r: Option<i16>)
    ensures
        n <= 32767 ==> r == Some(n as i16),
        n > 32767 ==> r.is_none(),
{
    num_traits::cast(n)
}

/// Calls `num_traits::cast::<u16, u8>`, which yields the same number as a
/// `u8` when it is at most 255 and `None` otherwise.
#[verifier::external_body]
pub(crate) fn u16_to_u8(n: u16) -> (r: Option<u8>)
    ensures
        n <= 255 ==> r == Some(n as u8),
        n > 255 ==> r.is_none(),
{
    num_traits::cast(n)
}

} // verus!
