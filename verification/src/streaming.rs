//! The streaming service: the sequence of squares it streams to a caller.

use vstd::prelude::*;

verus! {

/// The largest count for which every streamed square fits in a 32-bit value.
pub const MAX_SQUARE_COUNT: i32 = 46341;

/// The streaming service.
#[derive(Debug, Default)]
pub struct StreamingService {}

impl StreamingService {
    /// The squares of 0 up to (excluding) `n`, in order; a count that is not
    /// positive yields nothing.
    pub fn squares(&self, n: i32) -> (r: Vec<i32>)
        requires
            n <= MAX_SQUARE_COUNT,
        ensures
            r@.len() == (if n <= 0 { 0int } else { n as int }),
            forall|k: int| 0 <= k < r@.len() ==> r@[k] == k * k,
    {
        let mut out: Vec<i32> = Vec::new();
        if n <= 0 {
            return out;
        }
        let mut i: i32 = 0;
        while i < n
            invariant
                0 <= i <= n,
                n <= MAX_SQUARE_COUNT,
                out@.len() == i as int,
                forall|k: int| 0 <= k < i ==> out@[k] == k * k,
            decreases n - i,
        {
            assert(i * i <= 46340 * 46340) by (nonlinear_arith)
                requires
                    0 <= i <= 46340,
            ;
            out.push(i * i);
            i = i + 1;
        }
        out
    }
}

} // verus!
