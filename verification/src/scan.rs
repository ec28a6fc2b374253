//! Byte-scanning helpers: the trusted contract for the `memchr` crate's
//! two-needle search, and a small verified buffer-append routine.

use vstd::prelude::*;

verus! {

/// Relies on memchr::memchr2: returns the index of the first occurrence of
/// either needle byte in the haystack, or `None` when neither occurs.
pub assume_specification [ memchr::memchr2 ](
    needle1: u8,
    needle2: u8,
    haystack: &[u8],
) -> (r: Option<usize>)
    ensures
        (match r {
            Some(i) => i < haystack@.len() && (haystack@[i as int] == needle1
                || haystack@[i as int] == needle2) && (forall|j: int|
                0 <= j < i ==> haystack@[j] != needle1 && haystack@[j] != needle2),
            None => forall|j: int|
                0 <= j < haystack@.len() ==> haystack@[j] != needle1 && haystack@[j] != needle2,
        }),
;

/// Append every byte of `src` to `dst`.
pub fn append_slice(dst: &mut Vec<u8>, src: &[u8])
    ensures
        final(dst)@ == old(dst)@ + src@,
{
    let mut k: usize = 0;
    while k < src.len()
        invariant
            k <= src.len(),
            dst@ == old(dst)@ + src@.take(k as int),
        decreases src.len() - k,
    {
        let b = src[k];
        dst.push(b);
        proof {
            assert((old(dst)@ + src@.take(k as int)).push(src@[k as int]) =~= old(dst)@
                + src@.take(k + 1 as int));
        }
        k += 1;
    }
    proof {
        assert(src@.take(k as int) =~= src@);
    }
}

} // verus!
