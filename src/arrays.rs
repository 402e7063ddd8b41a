//! Byte-array helpers.
use vstd::prelude::*;

verus! {

/// The bytes of `src` from `start_pos` up to, not including, `end_pos`.
pub fn extract_vector(src: &[u8], start_pos: usize, end_pos: usize) -> (r: Vec<u8>)
    requires
        start_pos <= end_pos <= src@.len(),
    ensures
        r@ == src@.subrange(start_pos as int, end_pos as int),
{
    let mut dest: Vec<u8> = Vec::with_capacity(end_pos - start_pos);
    let mut x = start_pos;
    while x < end_pos
        invariant
            start_pos <= x <= end_pos <= src@.len(),
            dest@ == src@.subrange(start_pos as int, x as int),
        decreases end_pos - x,
    {
        dest.push(src[x]);
        x = x + 1;
        assert(dest@ =~= src@.subrange(start_pos as int, x as int));
    }
    dest
}

/// Copies `src` over the front of `dest`.
pub fn array_copy(src: Vec<u8>, dest: &mut [u8])
    requires
        src@.len() <= old(dest)@.len(),
    ensures
        final(dest)@ == src@ + old(dest)@.skip(src@.len() as int),
{
    let mut x: usize = 0;
    while x < src.len()
        invariant
            x <= src@.len() <= dest@.len(),
            dest@.len() == old(dest)@.len(),
            dest@ == src@.take(x as int) + old(dest)@.skip(x as int),
        decreases src@.len() - x,
    {
        dest[x] = src[x];
        x = x + 1;
        assert(dest@ =~= src@.take(x as int) + old(dest)@.skip(x as int));
    }
    assert(src@.take(x as int) =~= src@);
}

} // verus!
