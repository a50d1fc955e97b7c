use vstd::prelude::*;

verus! {

/// Copies `src[from..to]` into a fresh vector.
pub fn copy_range(src: &Vec<i16>, from: usize, to: usize) -> (r: Vec<i16>)
    requires
        from <= to <= src@.len(),
    ensures
        r@ == src@.subrange(from as int, to as int),
{
    let mut r: Vec<i16> = Vec::new();
    let mut i: usize = from;
    while i < to
        invariant
            from <= i <= to <= src@.len(),
            r@.len() == i - from,
            forall|j: int| 0 <= j < i - from ==> r@[j] == src@[j + from],
        decreases to - i,
    {
        r.push(src[i]);
        i += 1;
    }
    proof {
        assert(r@ =~= src@.subrange(from as int, to as int));
    }
    r
}

/// Removes the first `k` elements, keeping the rest in order.
pub fn drop_front(v: &mut Vec<i16>, k: usize)
    requires
        k <= old(v)@.len(),
    ensures
        final(v)@ == old(v)@.subrange(k as int, old(v)@.len() as int),
{
    let len = v.len();
    let mut i: usize = k;
    while i < len
        invariant
            k <= i <= len,
            v@.len() == len,
            forall|j: int| i <= j < len ==> v@[j] == old(v)@[j],
            forall|j: int| 0 <= j < i - k ==> v@[j] == old(v)@[j + k],
        decreases len - i,
    {
        let x = v[i];
        v[i - k] = x;
        i += 1;
    }
    v.truncate(len - k);
    proof {
        assert(v@ =~= old(v)@.subrange(k as int, old(v)@.len() as int));
    }
}

/// Appends every element of `src` to `dst`, in order.
pub fn append_all(dst: &mut Vec<i16>, src: &Vec<i16>)
    ensures
        final(dst)@ == old(dst)@ + src@,
{
    let mut i: usize = 0;
    while i < src.len()
        invariant
            i <= src@.len(),
            dst@.len() == old(dst)@.len() + i,
            forall|j: int| 0 <= j < old(dst)@.len() ==> dst@[j] == old(dst)@[j],
            forall|j: int| 0 <= j < i ==> dst@[old(dst)@.len() + j] == src@[j],
        decreases src@.len() - i,
    {
        dst.push(src[i]);
        i += 1;
    }
    proof {
        assert(dst@ =~= old(dst)@ + src@);
    }
}

/// A vector of `n` silent samples.
pub fn zeros(n: usize) -> (r: Vec<i16>)
    ensures
        r@ == Seq::<i16>::new(n as nat, |i: int| 0i16),
{
    let mut r: Vec<i16> = Vec::new();
    let mut i: usize = 0;
    while i < n
        invariant
            i <= n,
            r@.len() == i,
            forall|j: int| 0 <= j < i ==> r@[j] == 0i16,
        decreases n - i,
    {
        r.push(0i16);
        i += 1;
    }
    proof {
        assert(r@ =~= Seq::<i16>::new(n as nat, |i: int| 0i16));
    }
    r
}

} // verus!
