use vstd::prelude::*;

use crate::validate::DepError;

verus! {

/// One entry of the lag plan: compare the leading window `x[0 .. len]`
/// against the lagged window `y[tau .. tau + len]`, where `len = t - tau`
/// is the number of paired samples left after clipping.
#[derive(Clone, Copy, Debug, PartialEq, Eq, Structural)]
pub struct LagWindow {
    /// The lag applied to the lagged series.
    pub tau: usize,
    /// Number of paired samples in the clipped window.
    pub len: usize,
}

/// The lag bounds the correlation engine accepts for a series of `t` time
/// steps: lags are positive, the range is non-empty, and even the largest
/// lag leaves more than two paired samples.
pub open spec fn lag_params_ok(t: int, tau_min: int, tau_max: int) -> bool {
    &&& tau_min > 0
    &&& tau_max > tau_min
    &&& t > tau_max + 2
}

/// The lag plan for a series of `t` time steps: one window description per
/// lag in `[tau_min, tau_max)`, in lag order. The mean / standard-deviation
/// precomputation fills one column per entry, and the correlation engine
/// scans exactly these windows for every output cell.
pub fn lag_windows(t: usize, tau_min: isize, tau_max: isize) -> (r: Result<
    Vec<LagWindow>,
    DepError,
>)
    ensures
        r is Ok <==> lag_params_ok(t as int, tau_min as int, tau_max as int),
        r is Err ==> r === Err(DepError::InvalidLagRange),
        r matches Ok(w) ==> {
            &&& w@.len() == tau_max as int - tau_min as int
            &&& forall|q: int|
                0 <= q < w@.len() ==> (#[trigger] w@[q]).tau as int == tau_min as int + q
            &&& forall|q: int|
                0 <= q < w@.len() ==> (#[trigger] w@[q]).len as int == t as int - (tau_min as int
                    + q)
        },
{
    if !(tau_min > 0 && tau_max > tau_min && (t as i128) > (tau_max as i128) + 2) {
        return Err(DepError::InvalidLagRange);
    }
    let count: usize = (tau_max - tau_min) as usize;
    let base: usize = tau_min as usize;
    let mut w: Vec<LagWindow> = Vec::new();
    let mut k: usize = 0;
    while k < count
        invariant
            lag_params_ok(t as int, tau_min as int, tau_max as int),
            count == tau_max as int - tau_min as int,
            base == tau_min as int,
            k <= count,
            w@.len() == k,
            forall|q: int| 0 <= q < k ==> (#[trigger] w@[q]).tau as int == tau_min as int + q,
            forall|q: int|
                0 <= q < k ==> (#[trigger] w@[q]).len as int == t as int - (tau_min as int + q),
        decreases count - k,
    {
        let tau: usize = base + k;
        let len: usize = t - tau;
        w.push(LagWindow { tau, len });
        k = k + 1;
    }
    Ok(w)
}

} // verus!
