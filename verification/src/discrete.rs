use vstd::prelude::*;

use crate::validate::DepError;

verus! {

/// Largest supported bin count; a joint histogram then has at most
/// `MAX_BINS * MAX_BINS` cells.
pub const MAX_BINS: usize = 128;

/// A time-major matrix of discretized samples: entry `(t, ch)` is the bin
/// index of channel `ch` at time step `t`, stored row by row in one flat
/// buffer. Every index lies below `bins`.
pub struct IndexMatrix {
    pub data: Vec<usize>,
    /// Number of time steps.
    pub rows: usize,
    /// Number of channels.
    pub cols: usize,
    /// Bin count the indices were discretized with.
    pub bins: usize,
}

impl IndexMatrix {
    /// The flat buffer exactly fills the stated shape, the bin count is in
    /// range, and every stored index lies below it.
    pub open spec fn wf(self) -> bool {
        &&& 1 <= self.bins <= MAX_BINS
        &&& self.data@.len() == self.rows * self.cols
        &&& forall|k: int| 0 <= k < self.data@.len() ==> self.data@[k] < self.bins
    }

    /// Bin index of channel `ch` at time step `t`.
    pub open spec fn index_at(self, t: int, ch: int) -> usize {
        self.data@[t * self.cols + ch]
    }

    /// Channel `ch` as the sequence of its bin indices over time.
    pub open spec fn channel(self, ch: int) -> Seq<usize> {
        Seq::new(self.rows as nat, |t: int| self.index_at(t, ch))
    }
}

/// Where the value-to-index map overshoots (the maximum sample lands exactly
/// on `bins`), the index is pulled back into `[0, bins-1]`.
pub open spec fn clamp_index(raw: usize, bins: usize) -> usize {
    if raw < bins {
        raw
    } else {
        (bins - 1) as usize
    }
}

/// The exact half of the discretizer: clamp every raw bin index into
/// `[0, bins-1]` and package the result with its shape.
///
/// `raw[t * cols + ch]` is the unclamped index `floor((v - min) * delta)`
/// that the caller computed for the sample of channel `ch` at time `t` from
/// the matrix-global value range; a zero-range matrix gives raw index 0
/// everywhere, which is the stated policy for degenerate ranges.
pub fn from_raw(raw: Vec<usize>, rows: usize, cols: usize, bins: usize) -> (r: Result<
    IndexMatrix,
    DepError,
>)
    ensures
        !(1 <= bins <= MAX_BINS) ==> r === Err(DepError::InvalidBinCount),
        1 <= bins <= MAX_BINS && raw@.len() != rows * cols ==> r === Err(DepError::InvalidShape),
        1 <= bins <= MAX_BINS && raw@.len() == rows * cols ==> (r matches Ok(m) && {
            &&& m.rows == rows
            &&& m.cols == cols
            &&& m.bins == bins
            &&& m.data@.len() == raw@.len()
            &&& forall|k: int| 0 <= k < raw@.len() ==> m.data@[k] == clamp_index(raw@[k], bins)
            &&& m.wf()
        }),
{
    if bins == 0 || bins > MAX_BINS {
        return Err(DepError::InvalidBinCount);
    }
    let n = raw.len();
    let shape_ok = match rows.checked_mul(cols) {
        Some(need) => n == need,
        None => false,
    };
    if !shape_ok {
        return Err(DepError::InvalidShape);
    }
    let mut data: Vec<usize> = Vec::new();
    let mut k: usize = 0;
    while k < n
        invariant
            n == raw@.len(),
            1 <= bins <= MAX_BINS,
            k <= n,
            data@.len() == k,
            forall|j: int| 0 <= j < k ==> data@[j] == clamp_index(raw@[j], bins),
        decreases n - k,
    {
        let v: usize = raw[k];
        if v < bins {
            data.push(v);
        } else {
            data.push(bins - 1);
        }
        k = k + 1;
    }
    Ok(IndexMatrix { data, rows, cols, bins })
}

} // verus!
