use vstd::prelude::*;

verus! {

/// Append every byte of `s` to `out`.
pub fn push_all(out: &mut Vec<u8>, s: &[u8])
    ensures
        final(out)@ == old(out)@ + s@,
{
    let ghost before = out@;
    out.extend_from_slice(s);
    assert(out@ =~= before + s@);
}

/// A new vector holding the bytes of `s`.
pub fn copy_bytes(s: &[u8]) -> (r: Vec<u8>)
    ensures
        r@ == s@,
{
    let mut v: Vec<u8> = Vec::new();
    push_all(&mut v, s);
    v
}

} // verus!
