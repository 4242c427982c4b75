//! Small verified helpers over byte buffers.

use vstd::prelude::*;

verus! {

/// `p` starts with the byte sequence `pre`.
pub open spec fn starts_with(p: Seq<u8>, pre: Seq<u8>) -> bool {
    p.len() >= pre.len() && p.take(pre.len() as int) == pre
}

/// Do two byte buffers hold the same bytes?
pub fn bytes_eq(a: &Vec<u8>, b: &Vec<u8>) -> (r: bool)
    ensures
        r == (a@ == b@),
{
    if a.len() != b.len() {
        return false;
    }
    let mut i: usize = 0;
    while i < a.len()
        invariant
            a@.len() == b@.len(),
            0 <= i <= a@.len(),
            forall|k: int| 0 <= k < i ==> a@[k] == b@[k],
        decreases a@.len() - i,
    {
        if a[i] != b[i] {
            return false;
        }
        i = i + 1;
    }
    proof {
        assert(a@ =~= b@);
    }
    true
}

/// A fresh copy of the bytes of `v`.
pub fn copy_bytes(v: &Vec<u8>) -> (r: Vec<u8>)
    ensures
        r@ == v@,
{
    let mut r: Vec<u8> = Vec::new();
    r.extend_from_slice(v.as_slice());
    proof {
        assert(r@ =~= v@);
    }
    r
}

/// The bytes of `v` from `a` (inclusive) to `b` (exclusive).
pub fn copy_range(v: &Vec<u8>, a: usize, b: usize) -> (r: Vec<u8>)
    requires
        a <= b <= v@.len(),
    ensures
        r@ == v@.subrange(a as int, b as int),
{
    let mut r: Vec<u8> = Vec::new();
    let mut i: usize = a;
    while i < b
        invariant
            a <= i <= b <= v@.len(),
            r@ == v@.subrange(a as int, i as int),
        decreases b - i,
    {
        r.push(v[i]);
        proof {
            assert(v@.subrange(a as int, i + 1) =~= v@.subrange(a as int, i as int).push(
                v@[i as int],
            ));
        }
        i = i + 1;
    }
    r
}

/// Does `pat` occur in `p` at position `pos`?
pub fn matches_at(p: &Vec<u8>, pos: usize, pat: &Vec<u8>) -> (r: bool)
    requires
        pos + pat@.len() <= p@.len(),
    ensures
        r == (p@.subrange(pos as int, pos as int + pat@.len()) == pat@),
{
    let plen = p.len();
    let mut k: usize = 0;
    while k < pat.len()
        invariant
            pos + pat@.len() <= p@.len(),
            p@.len() == plen,
            0 <= k <= pat@.len(),
            forall|j: int| 0 <= j < k ==> p@[pos + j] == pat@[j],
        decreases pat@.len() - k,
    {
        if p[pos + k] != pat[k] {
            proof {
                let sub = p@.subrange(pos as int, pos as int + pat@.len());
                assert(sub[k as int] != pat@[k as int]);
            }
            return false;
        }
        k = k + 1;
    }
    proof {
        assert(p@.subrange(pos as int, pos as int + pat@.len()) =~= pat@);
    }
    true
}

/// Does `p` start with `pre`?
pub fn has_prefix(p: &Vec<u8>, pre: &Vec<u8>) -> (r: bool)
    ensures
        r == starts_with(p@, pre@),
{
    if p.len() < pre.len() {
        return false;
    }
    let r = matches_at(p, 0, pre);
    proof {
        assert(p@.subrange(0, pre@.len() as int) =~= p@.take(pre@.len() as int));
    }
    r
}

} // verus!
