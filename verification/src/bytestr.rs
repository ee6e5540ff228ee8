//! Helpers for byte strings: the protocol carries its textual fields (system
//! ids, routing paths, host names, register names) as plain byte vectors.

use vstd::prelude::*;

verus! {

/// A copy of `v`, equal to it element for element.
pub fn clone_bytes(v: &Vec<u8>) -> (r: Vec<u8>)
    ensures
        r@ == v@,
{
    let mut r: Vec<u8> = Vec::new();
    let mut i: usize = 0;
    while i < v.len()
        invariant
            i <= v@.len(),
            r@ == v@.take(i as int),
        decreases v@.len() - i,
    {
        r.push(v[i]);
        i += 1;
    }
    proof {
        assert(r@ =~= v@);
    }
    r
}

/// Whether two byte strings hold the same bytes.
pub fn bytes_eq(a: &Vec<u8>, b: &Vec<u8>) -> (r: bool)
    ensures
        r == (a@ == b@),
{
    if a.len() != b.len() {
        proof {
            assert(a@ != b@);
        }
        return false;
    }
    let mut i: usize = 0;
    while i < a.len()
        invariant
            i <= a@.len(),
            a@.len() == b@.len(),
            forall|j: int| 0 <= j < i ==> a@[j] == b@[j],
        decreases a@.len() - i,
    {
        if a[i] != b[i] {
            return false;
        }
        i += 1;
    }
    proof {
        assert(a@ =~= b@);
    }
    true
}

/// Whether `prefix` is a prefix of `v`.
pub fn starts_with(v: &Vec<u8>, prefix: &Vec<u8>) -> (r: bool)
    ensures
        r == (prefix@.len() <= v@.len() && v@.take(prefix@.len() as int) == prefix@),
{
    if v.len() < prefix.len() {
        return false;
    }
    let mut i: usize = 0;
    while i < prefix.len()
        invariant
            i <= prefix@.len(),
            prefix@.len() <= v@.len(),
            forall|j: int| 0 <= j < i ==> v@[j] == prefix@[j],
        decreases prefix@.len() - i,
    {
        if v[i] != prefix[i] {
            proof {
                assert(v@.take(prefix@.len() as int)[i as int] != prefix@[i as int]);
            }
            return false;
        }
        i += 1;
    }
    proof {
        assert(v@.take(prefix@.len() as int) =~= prefix@);
    }
    true
}

/// Appends every byte of `suffix` to `dst`.
pub fn append_bytes(dst: &mut Vec<u8>, suffix: &Vec<u8>)
    ensures
        final(dst)@ == old(dst)@ + suffix@,
{
    let mut i: usize = 0;
    while i < suffix.len()
        invariant
            i <= suffix@.len(),
            dst@ == old(dst)@ + suffix@.take(i as int),
        decreases suffix@.len() - i,
    {
        proof {
            assert(old(dst)@ + suffix@.take(i as int + 1) =~= (old(dst)@ + suffix@.take(
                i as int,
            )).push(suffix@[i as int]));
        }
        dst.push(suffix[i]);
        i += 1;
    }
    proof {
        assert(suffix@.take(suffix@.len() as int) =~= suffix@);
    }
}

} // verus!
