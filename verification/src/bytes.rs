//! Copying and comparing byte slices.

use vstd::prelude::*;

verus! {

/// The bytes in a vector of their own.
pub fn copy_of(data: &[u8]) -> (v: Vec<u8>)
    ensures
        v@ == data@,
{
    let mut v: Vec<u8> = Vec::new();
    v.extend_from_slice(data);
    assert(v@ =~= data@);
    v
}

/// The bytes from `start` to `end` in a vector of their own.
pub fn part_of(data: &[u8], start: usize, end: usize) -> (v: Vec<u8>)
    requires
        start <= end <= data@.len(),
    ensures
        v@ == data@.subrange(start as int, end as int),
{
    copy_of(vstd::slice::slice_subrange(data, start, end))
}

/// Whether two slices hold the same bytes.
pub fn same_bytes(a: &[u8], b: &[u8]) -> (same: bool)
    ensures
        same == (a@ == b@),
{
    if a.len() != b.len() {
        return false;
    }
    let mut i: usize = 0;
    while i < a.len()
        invariant
            i <= a@.len(),
            a@.len() == b@.len(),
            forall|j: int| 0 <= j < i ==> a@[j] == b@[j],
        decreases a@.len() - i,
    {
        if a[i] != b[i] {
            return false;
        }
        i = i + 1;
    }
    assert(a@ =~= b@);
    true
}

} // verus!
