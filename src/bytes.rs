use vstd::prelude::*;

verus! {

/// Appends every byte of `src` to `out`.
pub fn append_bytes(out: &mut Vec<u8>, src: &[u8])
    ensures
        final(out)@ == old(out)@ + src@,
{
    let ghost start = out@;
    let mut i: usize = 0;
    while i < src.len()
        invariant
            i <= src@.len(),
            out@ == start + src@.subrange(0, i as int),
        decreases src@.len() - i,
    {
        out.push(src[i]);
        i = i + 1;
        proof {
            assert(out@ =~= start + src@.subrange(0, i as int));
        }
    }
    assert(src@.subrange(0, i as int) =~= src@);
}

/// Whether the bytes of `a` from `lo` up to `hi` are those of `b`.
pub fn range_eq(a: &[u8], lo: usize, hi: usize, b: &[u8]) -> (r: bool)
    requires
        lo <= hi <= a@.len(),
    ensures
        r == (a@.subrange(lo as int, hi as int) == b@),
{
    if hi - lo != b.len() {
        proof {
            assert(a@.subrange(lo as int, hi as int).len() != b@.len());
        }
        return false;
    }
    let mut i: usize = 0;
    while i < b.len()
        invariant
            hi - lo == b@.len(),
            lo <= hi <= a@.len(),
            i <= b@.len(),
            forall|j: int| 0 <= j < i ==> a@[lo + j] == b@[j],
        decreases b@.len() - i,
    {
        if a[lo + i] != b[i] {
            proof {
                assert(a@.subrange(lo as int, hi as int)[i as int] != b@[i as int]);
            }
            return false;
        }
        i = i + 1;
    }
    assert(a@.subrange(lo as int, hi as int) =~= b@);
    true
}

} // verus!
