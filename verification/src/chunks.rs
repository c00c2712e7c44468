//! Splitting a sequence into fixed-size groups.  Every batched call the
//! engine makes — history, raw transactions, block headers — goes out in
//! such groups.

use vstd::prelude::*;

verus! {

/// How many groups of `size` items cover `n` items (the last group may be
/// shorter); zero groups cover zero items.
pub open spec fn spec_num_chunks(n: int, size: int) -> int
    decreases n,
{
    if size <= 0 || n <= 0 {
        0
    } else if n <= size {
        1
    } else {
        1 + spec_num_chunks(n - size, size)
    }
}

/// The `i`-th group of `s`: a full window of `size` items, or the shorter
/// tail.
pub open spec fn spec_chunk<T>(s: Seq<T>, size: int, i: int) -> Seq<T> {
    s.subrange(
        i * size,
        if (i + 1) * size <= s.len() {
            (i + 1) * size
        } else {
            s.len() as int
        },
    )
}

/// A group index is in range exactly when its window starts inside the
/// sequence.
pub proof fn lemma_num_chunks(n: int, size: int, i: int)
    requires
        size >= 1,
        i >= 0,
    ensures
        (i < spec_num_chunks(n, size)) <==> (i * size < n),
    decreases i + (if n > 0 { n } else { 0 }),
{
    if n <= 0 {
        assert(i * size >= 0) by (nonlinear_arith)
            requires
                i >= 0,
                size >= 1,
        ;
    } else if n <= size {
        if i >= 1 {
            assert(i * size >= size) by (nonlinear_arith)
                requires
                    i >= 1,
                    size >= 1,
            ;
        }
    } else {
        if i == 0 {
            lemma_num_chunks(n - size, size, 0);
        } else {
            lemma_num_chunks(n - size, size, i - 1);
            assert((i - 1) * size == i * size - size) by (nonlinear_arith);
        }
    }
}

/// Splits `v` into successive groups of `size` items; the last group may be
/// shorter.
pub fn chunks<T: Copy>(v: &Vec<T>, size: usize) -> (r: Vec<Vec<T>>)
    requires
        size >= 1,
    ensures
        r@.len() == spec_num_chunks(v@.len() as int, size as int),
        forall|i: int|
            0 <= i < r@.len() ==> (#[trigger] r@[i])@ == spec_chunk(v@, size as int, i),
{
    let n = v.len();
    let mut r: Vec<Vec<T>> = Vec::new();
    let mut start: usize = 0;
    while start < n
        invariant
            size >= 1,
            n == v@.len(),
            start <= n,
            r@.len() == spec_num_chunks(start as int, size as int),
            start < n ==> start == r@.len() * (size as int),
            forall|i: int|
                0 <= i < r@.len() ==> (#[trigger] r@[i])@ == spec_chunk(v@, size as int, i),
        decreases n - start,
    {
        let end = if n - start < size {
            n
        } else {
            start + size
        };
        let mut chunk: Vec<T> = Vec::new();
        let mut j = start;
        while j < end
            invariant
                start <= j <= end <= n,
                n == v@.len(),
                chunk@ == v@.subrange(start as int, j as int),
            decreases end - j,
        {
            chunk.push(v[j]);
            j += 1;
            proof {
                assert(chunk@ =~= v@.subrange(start as int, j as int));
            }
        }
        let ghost c = r@.len() as int;
        r.push(chunk);
        proof {
            let sz = size as int;
            assert((c + 1) * sz == c * sz + sz) by (nonlinear_arith);
            assert(chunk@ =~= spec_chunk(v@, sz, c));
            lemma_num_chunks(end as int, sz, c);
            lemma_num_chunks(end as int, sz, c + 1);
            assert(r@.len() == spec_num_chunks(end as int, sz));
        }
        start = end;
    }
    r
}

} // verus!
