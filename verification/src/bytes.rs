//! Small verified helpers on byte slices and byte vectors.

use vstd::prelude::*;

verus! {

/// True exactly when the two byte slices hold the same byte sequence.
pub fn bytes_eq(a: &[u8], b: &[u8]) -> (r: bool)
    ensures
        r == (a@ == b@),
{
    if a.len() != b.len() {
        return false;
    }
    let mut i: usize = 0;
    while i < a.len()
        invariant
            a@.len() == b@.len(),
            i <= a@.len(),
            forall|j: int| 0 <= j < i ==> a@[j] == b@[j],
        decreases a@.len() - i,
    {
        if a[i] != b[i] {
            return false;
        }
        i += 1;
    }
    proof {
        assert(a@ =~= b@);
    }
    true
}

/// Appends every byte of `src`, in order, to the end of `dst`.
pub fn push_all(dst: &mut Vec<u8>, src: &[u8])
    ensures
        final(dst)@ == old(dst)@ + src@,
{
    let mut i: usize = 0;
    while i < src.len()
        invariant
            i <= src@.len(),
            dst@ == old(dst)@ + src@.take(i as int),
        decreases src@.len() - i,
    {
        dst.push(src[i]);
        proof {
            assert(old(dst)@ + src@.take(i + 1) =~= (old(dst)@ + src@.take(i as int)).push(
                src@[i as int],
            ));
        }
        i += 1;
    }
    proof {
        assert(src@.take(src@.len() as int) =~= src@);
    }
}

/// Returns a fresh vector holding the same bytes as `src`.
pub fn copy_bytes(src: &[u8]) -> (r: Vec<u8>)
    ensures
        r@ == src@,
{
    let mut v: Vec<u8> = Vec::new();
    push_all(&mut v, src);
    proof {
        assert(Seq::<u8>::empty() + src@ =~= src@);
    }
    v
}

} // verus!
