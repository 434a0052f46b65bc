//! Executable helpers over byte strings. Paths, request lines and response
//! bodies all travel through the host as `Vec<u8>`, so these few loops carry
//! most of the data movement.

use vstd::prelude::*;

verus! {

/// Copies a byte string.
pub fn clone_bytes(v: &Vec<u8>) -> (r: Vec<u8>)
    ensures
        r@ == v@,
{
    let mut r: Vec<u8> = Vec::new();
    let mut i: usize = 0;
    while i < v.len()
        invariant
            i <= v.len(),
            r@ == v@.take(i as int),
        decreases v.len() - i,
    {
        r.push(v[i]);
        proof {
            assert(v@.take(i + 1) =~= v@.take(i as int).push(v@[i as int]));
        }
        i += 1;
    }
    proof {
        assert(v@.take(v.len() as int) =~= v@);
    }
    r
}

/// Appends `src` to `dst`.
pub fn append_bytes(dst: &mut Vec<u8>, src: &Vec<u8>)
    ensures
        final(dst)@ == old(dst)@ + src@,
{
    proof {
        assert(dst@ + src@.take(0) =~= dst@);
    }
    let mut i: usize = 0;
    while i < src.len()
        invariant
            i <= src.len(),
            dst@ == old(dst)@ + src@.take(i as int),
        decreases src.len() - i,
    {
        dst.push(src[i]);
        proof {
            assert(old(dst)@ + src@.take(i + 1) =~= (old(dst)@ + src@.take(i as int)).push(
                src@[i as int],
            ));
        }
        i += 1;
    }
    proof {
        assert(old(dst)@ + src@.take(src.len() as int) =~= old(dst)@ + src@);
    }
}

/// Whether two byte strings hold the same bytes.
pub fn bytes_eq(a: &Vec<u8>, b: &Vec<u8>) -> (r: bool)
    ensures
        r == (a@ == b@),
{
    if a.len() != b.len() {
        return false;
    }
    let mut i: usize = 0;
    while i < a.len()
        invariant
            i <= a.len(),
            a.len() == b.len(),
            forall|k: int| 0 <= k < i ==> a@[k] == b@[k],
        decreases a.len() - i,
    {
        if a[i] != b[i] {
            return false;
        }
        i += 1;
    }
    proof {
        assert(a@ =~= b@);
    }
    true
}

/// Copies `v[start..end]`.
pub fn copy_range(v: &Vec<u8>, start: usize, end: usize) -> (r: Vec<u8>)
    requires
        start <= end <= v.len(),
    ensures
        r@ == v@.subrange(start as int, end as int),
{
    let mut r: Vec<u8> = Vec::new();
    let mut i: usize = start;
    while i < end
        invariant
            start <= i <= end <= v.len(),
            r@ == v@.subrange(start as int, i as int),
        decreases end - i,
    {
        r.push(v[i]);
        proof {
            assert(v@.subrange(start as int, i + 1) =~= v@.subrange(start as int, i as int).push(
                v@[i as int],
            ));
        }
        i += 1;
    }
    r
}

/// The first `amount` bytes of `buf`: the slice of a read buffer that one
/// streaming write hands on to the connection.
pub fn sent_prefix(buf: &Vec<u8>, amount: usize) -> (r: Vec<u8>)
    requires
        amount <= buf.len(),
    ensures
        r@ == buf@.take(amount as int),
{
    let r = copy_range(buf, 0, amount);
    proof {
        assert(buf@.subrange(0, amount as int) =~= buf@.take(amount as int));
    }
    r
}

/// The position of the first `x` in `v[start..end]`, scanning left to right.
pub fn find_byte(v: &Vec<u8>, start: usize, end: usize, x: u8) -> (r: Option<usize>)
    requires
        start <= end <= v.len(),
    ensures
        match r {
            Some(i) => start <= i < end && v@[i as int] == x && forall|k: int|
                start <= k < i ==> v@[k] != x,
            None => forall|k: int| start <= k < end ==> v@[k] != x,
        },
{
    let mut i: usize = start;
    while i < end
        invariant
            start <= i <= end <= v.len(),
            forall|k: int| start <= k < i ==> v@[k] != x,
        decreases end - i,
    {
        if v[i] == x {
            return Some(i);
        }
        i += 1;
    }
    None
}

} // verus!
