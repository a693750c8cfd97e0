//! Borrowing a range of a byte vector for writing.

use vstd::prelude::*;

verus! {

/// Mutable range indexing on a vector, `&mut buf[from..to]`, which is
/// `IndexMut<Range<usize>>` of the standard library. Not proved: the slice
/// handed out holds the bytes at `from..to`; it keeps its length for as long
/// as it is borrowed; and once the borrow ends the vector holds whatever the
/// slice then holds at `from..to`, with every other byte as it was. The
/// bounds demanded are those outside which the indexing panics.
#[verifier::external_body]
pub(crate) fn range_mut(buf: &mut Vec<u8>, from: usize, to: usize) -> (slice: &mut [u8])
    requires
        from <= to <= old(buf)@.len(),
    ensures
        slice@ == old(buf)@.subrange(from as int, to as int),
        final(slice)@.len() == slice@.len(),
        final(buf)@ == old(buf)@.take(from as int) + final(slice)@ + old(buf)@.skip(to as int),
{
    &mut buf[from..to]
}

} // verus!
