//! Splitting a NAL unit into byte-contiguous slices.

use vstd::prelude::*;

verus! {

/// Size of slice `i` when `len` bytes are cut into `n` slices: the
/// remainder bytes go one each to the first slices.
pub open spec fn slice_size(len: nat, n: nat, i: nat) -> nat {
    len / n + if i < len % n { 1nat } else { 0nat }
}

/// Offset of slice `i`.
pub open spec fn slice_start(len: nat, n: nat, i: nat) -> nat {
    i * (len / n) + if i < len % n { i } else { len % n }
}

/// Concatenation of a sequence of byte strings.
pub open spec fn concat_all(parts: Seq<Seq<u8>>) -> Seq<u8>
    decreases parts.len(),
{
    if parts.len() == 0 {
        Seq::empty()
    } else {
        concat_all(parts.drop_last()) + parts.last()
    }
}

/// The byte strings behind a sequence of slices.
pub open spec fn slices_view(s: Seq<&[u8]>) -> Seq<Seq<u8>> {
    s.map_values(|x: &[u8]| x@)
}

pub proof fn lemma_slice_start_step(len: nat, n: nat, i: nat)
    requires
        n > 0,
    ensures
        slice_start(len, n, i + 1) == slice_start(len, n, i) + slice_size(len, n, i),
{
    let b = len / n;
    assert((i + 1) * b == i * b + b) by (nonlinear_arith);
}

pub proof fn lemma_slice_start_bound(len: nat, n: nat, i: nat)
    requires
        n > 0,
        i <= n,
    ensures
        slice_start(len, n, i) <= len,
        i == n ==> slice_start(len, n, i) == len,
{
    let b = len / n;
    let r = len % n;
    assert(len == n * b + r) by {
        vstd::arithmetic::div_mod::lemma_fundamental_div_mod(len as int, n as int);
    }
    assert(i * b <= n * b) by (nonlinear_arith)
        requires
            i <= n,
    ;
    assert(r < n) by {
        vstd::arithmetic::div_mod::lemma_mod_bound(len as int, n as int);
    }
}

/// Cuts NAL units into slices for per-slice FEC.
pub struct SliceSplitter;

impl SliceSplitter {
    /// Split `data` into `count` slices. With `count == 0` or empty data the
    /// result is the single slice `data`. Otherwise slice `i` is
    /// `data[slice_start(i) .. slice_start(i) + slice_size(i)]`: sizes differ
    /// by at most one byte, the larger ones first, and slices past the end
    /// of short data are empty.
    pub fn split(data: &[u8], count: u8) -> (r: Vec<&[u8]>)
        ensures
            (count == 0 || data@.len() == 0) ==> r@.len() == 1 && r@[0]@ == data@,
            (count != 0 && data@.len() != 0) ==> {
                &&& r@.len() == count as nat
                &&& forall|i: int|
                    0 <= i < count ==> (#[trigger] r@[i])@ == data@.subrange(
                        slice_start(data@.len(), count as nat, i as nat) as int,
                        (slice_start(data@.len(), count as nat, i as nat) + slice_size(
                            data@.len(),
                            count as nat,
                            i as nat,
                        )) as int,
                    )
            },
            concat_all(slices_view(r@)) == data@,
    {
        let count = count as usize;
        if count == 0 || data.len() == 0 {
            let mut v: Vec<&[u8]> = Vec::new();
            v.push(data);
            proof {
                assert(slices_view(v@) =~= seq![data@]);
                assert(seq![data@].drop_last() =~= Seq::<Seq<u8>>::empty());
                assert(concat_all(Seq::<Seq<u8>>::empty()) =~= Seq::<u8>::empty());
                assert(Seq::<u8>::empty() + data@ =~= data@);
            }
            return v;
        }
        let base_size = data.len() / count;
        let remainder = data.len() % count;
        let mut slices: Vec<&[u8]> = Vec::with_capacity(count);
        let mut offset: usize = 0;
        let ghost len = data@.len();
        let dlen = data.len();
        let mut i: usize = 0;
        assert(concat_all(Seq::<Seq<u8>>::empty()) =~= data@.subrange(0, 0));
        while i < count
            invariant
                count > 0,
                dlen == len,
                len == data@.len(),
                base_size == len / (count as nat),
                remainder == len % (count as nat),
                i <= count,
                offset == slice_start(len, count as nat, i as nat),
                slices@.len() == i,
                forall|k: int|
                    0 <= k < i ==> (#[trigger] slices@[k])@ == data@.subrange(
                        slice_start(len, count as nat, k as nat) as int,
                        (slice_start(len, count as nat, k as nat) + slice_size(
                            len,
                            count as nat,
                            k as nat,
                        )) as int,
                    ),
                concat_all(slices_view(slices@)) == data@.subrange(0, offset as int),
            decreases count - i,
        {
            proof {
                lemma_slice_start_step(len, count as nat, i as nat);
                lemma_slice_start_bound(len, count as nat, (i + 1) as nat);
            }
            proof {
                vstd::arithmetic::div_mod::lemma_fundamental_div_mod(len as int, count as int);
                assert(base_size * count >= base_size) by (nonlinear_arith)
                    requires
                        count >= 1,
                ;
            }
            let size = if i < remainder {
                base_size + 1
            } else {
                base_size
            };
            assert(size == slice_size(len, count as nat, i as nat));
            assert(offset + size <= len);
            let ghost prev = slices@;
            if offset + size <= dlen {
                let s = vstd::slice::slice_subrange(data, offset, offset + size);
                slices.push(s);
            } else if offset < dlen {
                let s = vstd::slice::slice_subrange(data, offset, dlen);
                slices.push(s);
            } else {
                let s = vstd::slice::slice_subrange(data, 0, 0);
                slices.push(s);
            }
            proof {
                assert(slices_view(slices@).drop_last() =~= slices_view(prev));
                assert(data@.subrange(0, offset as int) + data@.subrange(
                    offset as int,
                    (offset + size) as int,
                ) =~= data@.subrange(0, (offset + size) as int));
            }
            offset = offset + size;
            i = i + 1;
        }
        proof {
            lemma_slice_start_bound(len, count as nat, count as nat);
            assert(data@.subrange(0, len as int) =~= data@);
        }
        slices
    }
}

} // verus!
