//! Small verified helpers on byte buffers.

use vstd::prelude::*;

verus! {

/// Append `s` to the end of `v`.
pub fn append_bytes(v: &mut Vec<u8>, s: &[u8])
    ensures
        final(v)@ == old(v)@ + s@,
{
    v.extend_from_slice(s);
    assert(v@ =~= old(v)@ + s@);
}

/// A copy of `s` as an owned vector.
pub fn to_vec(s: &[u8]) -> (v: Vec<u8>)
    ensures
        v@ == s@,
{
    let mut v: Vec<u8> = Vec::new();
    append_bytes(&mut v, s);
    assert(v@ =~= s@);
    v
}

} // verus!
