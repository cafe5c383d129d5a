//! Constants of the kernel.

use vstd::prelude::*;

verus! {

/// Bytes of a page.
pub const PAGE_SIZE: usize = 4096;

/// What a system call that fails returns.
pub const FAILURE: isize = -1;

/// A failure is told from every result that is not negative by its sign, and a page is two to the
/// power of twelve bytes.
pub proof fn law_constants()
    ensures
        FAILURE + 1 == 0,
        PAGE_SIZE == vstd::arithmetic::power2::pow2(12),
{
    vstd::arithmetic::power2::lemma2_to64();
}

} // verus!
