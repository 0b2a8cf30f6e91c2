//! Mini-batching of encoded trigram pairs for the training loop.
use vstd::prelude::*;
use vstd::slice::slice_to_vec;

verus! {

/// Number of codes in each context of the trigram models.
pub const TRIGRAM_WIDTH: usize = 3;

/// Batch `i` holds targets `i * size .. (i + 1) * size` and their contexts.
pub open spec fn is_batch(
    xs: Seq<u32>,
    ys: Seq<u32>,
    size: int,
    i: int,
    b: (Vec<u32>, Vec<u32>),
) -> bool {
    &&& b.1@ == ys.subrange(i * size, (i + 1) * size)
    &&& b.0@ == xs.subrange(
        TRIGRAM_WIDTH * (i * size),
        TRIGRAM_WIDTH * ((i + 1) * size),
    )
}

/// Cuts flattened trigram contexts `xs` and targets `ys` into consecutive
/// batches of `batch_size` targets each; a last, shorter remainder is dropped.
pub fn make_batches(xs: &[u32], ys: &[u32], batch_size: usize) -> (r: Vec<(Vec<u32>, Vec<u32>)>)
    requires
        batch_size > 0,
        TRIGRAM_WIDTH * ((ys@.len() as int / batch_size as int) * batch_size) <= xs@.len(),
    ensures
        r@.len() == ys@.len() as int / batch_size as int,
        forall|i: int|
            0 <= i < r@.len() ==> is_batch(xs@, ys@, batch_size as int, i, #[trigger] r@[i]),
{
    let mut batches: Vec<(Vec<u32>, Vec<u32>)> = Vec::new();
    let n = ys.len();
    let m = xs.len();
    let num_batches = n / batch_size;
    let ghost bs = batch_size as int;
    proof {
        assert(num_batches * bs <= ys@.len()) by (nonlinear_arith)
            requires num_batches == ys@.len() as int / bs, bs > 0;
    }
    let mut i: usize = 0;
    while i < num_batches
        invariant
            0 <= i <= num_batches,
            bs == batch_size,
            n == ys@.len(),
            m == xs@.len(),
            bs > 0,
            num_batches == ys@.len() as int / bs,
            num_batches * bs <= ys@.len(),
            TRIGRAM_WIDTH * (num_batches * bs) <= xs@.len(),
            batches@.len() == i,
            forall|k: int| 0 <= k < i ==> is_batch(xs@, ys@, bs, k, #[trigger] batches@[k]),
        decreases num_batches - i,
    {
        proof {
            assert((i + 1) * bs <= num_batches * bs) by (nonlinear_arith)
                requires i < num_batches, bs > 0;
            assert(i * bs + bs == (i + 1) * bs) by (nonlinear_arith);
            assert(i * bs + bs <= ys@.len());
            assert(TRIGRAM_WIDTH * (i * bs + bs) <= xs@.len()) by (nonlinear_arith)
                requires
                    i * bs + bs <= num_batches * bs,
                    TRIGRAM_WIDTH * (num_batches * bs) <= xs@.len();
        }
        let start_y = i * batch_size;
        let end_y = start_y + batch_size;
        let ys_batch = slice_to_vec(&ys[start_y..end_y]);
        let start_x = start_y * TRIGRAM_WIDTH;
        let end_x = end_y * TRIGRAM_WIDTH;
        let xs_batch = slice_to_vec(&xs[start_x..end_x]);
        batches.push((xs_batch, ys_batch));
        i += 1;
    }
    batches
}

} // verus!
