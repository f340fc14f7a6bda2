//! Suffix handling for `&str` and `&[T]`.

use vstd::prelude::*;

mod iter;
pub mod laws;
pub mod utf8;

pub use iter::SuffixIter;

verus! {

/// Returns an enumerator over the suffixes of a `&str` or `&[T]`, treating
/// the input itself as the first suffix if it is non-empty.
pub fn iter<'a, S: ?Sized>(s: &'a S) -> (r: SuffixIter<'a, S>)
    ensures
        r.remaining() == s,
{
    SuffixIter::new(s)
}

} // verus!
