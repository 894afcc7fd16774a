use chaotic_carbon_networks::discrete::from_raw;
use chaotic_carbon_networks::discrete::IndexMatrix;
use chaotic_carbon_networks::hist::joint_counts;
use chaotic_carbon_networks::hist::marginal_counts_all;
use chaotic_carbon_networks::lag::lag_windows;

// Deterministic pseudo-noise so the scenarios are reproducible.
fn lcg_next(state: &mut u64) -> f32 {
    *state = state
        .wrapping_mul(6364136223846793005)
        .wrapping_add(1442695040888963407);
    ((*state >> 40) as f32) / ((1u64 << 24) as f32)
}

fn noise_matrix(t: usize, v: usize, seed: u64) -> Vec<Vec<f32>> {
    let mut state = seed;
    (0..t)
        .map(|_| (0..v).map(|_| lcg_next(&mut state)).collect())
        .collect()
}

// The floating-point half of the discretizer: a single global value range,
// raw index floor((v - lo) * delta). A zero-range matrix gives raw index 0
// for every entry (the cast of the undefined product saturates to 0).
fn discretize(x: &[Vec<f32>], bins: usize) -> IndexMatrix {
    let rows = x.len();
    let cols = if rows == 0 { 0 } else { x[0].len() };
    let mut lo = f32::MAX;
    let mut hi = f32::MIN;
    for row in x {
        for &val in row {
            lo = lo.min(val);
            hi = hi.max(val);
        }
    }
    let delta = bins as f32 / (hi - lo);
    let mut raw = Vec::with_capacity(rows * cols);
    for row in x {
        for &val in row {
            raw.push(((val - lo) * delta) as usize);
        }
    }
    from_raw(raw, rows, cols, bins).unwrap()
}

fn entropy(counts: &[usize], t: usize) -> f32 {
    let mut h = 0.0f32;
    for &c in counts {
        if c > 0 {
            let p = c as f32 / t as f32;
            h -= p * p.ln();
        }
    }
    h
}

fn mutual_information_single(x: &[Vec<f32>], bins: usize) -> Vec<Vec<f32>> {
    let xm = discretize(x, bins);
    let t = xm.rows;
    let hx: Vec<f32> = marginal_counts_all(&xm)
        .iter()
        .map(|c| entropy(c, t))
        .collect();
    (0..xm.cols)
        .map(|i| {
            (0..xm.cols)
                .map(|j| hx[i] + hx[j] - entropy(&joint_counts(&xm, &xm, i, j), t))
                .collect()
        })
        .collect()
}

fn mutual_information_double(x: &[Vec<f32>], y: &[Vec<f32>], bins: usize) -> Vec<Vec<f32>> {
    let xm = discretize(x, bins);
    let ym = discretize(y, bins);
    assert_eq!(xm.rows, ym.rows);
    let t = xm.rows;
    let hx: Vec<f32> = marginal_counts_all(&xm)
        .iter()
        .map(|c| entropy(c, t))
        .collect();
    let hy: Vec<f32> = marginal_counts_all(&ym)
        .iter()
        .map(|c| entropy(c, t))
        .collect();
    (0..xm.cols)
        .map(|i| {
            (0..ym.cols)
                .map(|j| hx[i] + hy[j] - entropy(&joint_counts(&xm, &ym, i, j), t))
                .collect()
        })
        .collect()
}

fn window_mean_std(m: &[Vec<f32>], ch: usize, start: usize, len: usize) -> (f32, f32) {
    let mut s = 0.0f32;
    for k in 0..len {
        s += m[start + k][ch];
    }
    let mean = s / len as f32;
    let mut q = 0.0f32;
    for k in 0..len {
        let d = m[start + k][ch] - mean;
        q += d * d;
    }
    (mean, (q / len as f32).sqrt())
}

// The floating-point half of the correlation engine. Policy for degenerate
// windows: a lag whose ratio is undefined (zero variance) is skipped, and a
// cell whose every lag is degenerate stays the not-a-number sentinel.
fn max_lagged_correlation(
    x: &[Vec<f32>],
    y: &[Vec<f32>],
    tau_min: isize,
    tau_max: isize,
) -> Vec<Vec<f32>> {
    let t = x.len();
    assert_eq!(y.len(), t);
    let vx = x[0].len();
    let vy = y[0].len();
    let windows = lag_windows(t, tau_min, tau_max).unwrap();
    let mut out = vec![vec![0.0f32; vy]; vx];
    for i in 0..vx {
        for j in 0..vy {
            let mut best = f32::NAN;
            for w in &windows {
                let (mx, sx) = window_mean_std(x, i, 0, w.len);
                let (my, sy) = window_mean_std(y, j, w.tau, w.len);
                let mut cov = 0.0f32;
                for k in 0..w.len {
                    cov += (x[k][i] - mx) * (y[w.tau + k][j] - my);
                }
                cov /= w.len as f32;
                let r = (cov / (sx * sy)).abs();
                if r.is_finite() && (best.is_nan() || r > best) {
                    best = r;
                }
            }
            out[i][j] = best;
        }
    }
    out
}

#[test]
fn mi_of_all_ones_is_zero() {
    let x = vec![vec![1.0f32; 20]; 48];
    let mi = mutual_information_single(&x, 64);
    assert_eq!(mi.len(), 20);
    for row in &mi {
        assert_eq!(row.len(), 20);
        for &cell in row {
            assert_eq!(cell, 0.0);
        }
    }
}

#[test]
fn mi_of_noise_is_symmetric_nonnegative_diagonal_dominant() {
    let x = noise_matrix(48, 20, 7);
    let mi = mutual_information_single(&x, 64);
    let xm = discretize(&x, 64);
    let hx: Vec<f32> = marginal_counts_all(&xm)
        .iter()
        .map(|c| entropy(c, xm.rows))
        .collect();
    for i in 0..20 {
        // the diagonal collapses to the marginal entropy
        assert!((mi[i][i] - hx[i]).abs() <= 1e-4);
    }
    for i in 0..20 {
        for j in 0..20 {
            // non-negative within floating tolerance
            assert!(mi[i][j] >= -1e-4, "negative cell {} {}: {}", i, j, mi[i][j]);
            // symmetric within floating tolerance
            assert!((mi[i][j] - mi[j][i]).abs() <= 1e-4);
            if i != j {
                // self-information dominates cross-channel information
                assert!(mi[i][i] + 1e-4 >= mi[i][j]);
            }
        }
    }
    let diag_mean: f32 = (0..20).map(|i| mi[i][i]).sum::<f32>() / 20.0;
    let mut off_sum = 0.0f32;
    for i in 0..20 {
        for j in 0..20 {
            if i != j {
                off_sum += mi[i][j];
            }
        }
    }
    let off_mean = off_sum / (20.0 * 19.0);
    assert!(diag_mean > off_mean + 0.1);
}

#[test]
fn mi_single_matches_dual_on_same_source() {
    let x = noise_matrix(48, 20, 11);
    let single = mutual_information_single(&x, 64);
    let double = mutual_information_double(&x, &x, 64);
    assert_eq!(single, double);
}

#[test]
fn correlation_of_all_ones_is_nan() {
    let x = vec![vec![1.0f32; 20]; 48];
    let rho = max_lagged_correlation(&x, &x, 2, 20);
    assert_eq!(rho.len(), 20);
    for row in &rho {
        assert_eq!(row.len(), 20);
        for &cell in row {
            assert!(cell.is_nan());
        }
    }
}

#[test]
fn correlation_peaks_for_shifted_copy() {
    let t = 60;
    let v = 3;
    let shift = 5;
    let x = noise_matrix(t, v, 21);
    let head = noise_matrix(shift, v, 23);
    let mut y = Vec::with_capacity(t);
    for k in 0..shift {
        y.push(head[k].clone());
    }
    for k in shift..t {
        y.push(x[k - shift].clone());
    }
    let rho = max_lagged_correlation(&x, &y, 2, 20);
    for i in 0..v {
        for j in 0..v {
            let cell = rho[i][j];
            // Pearson magnitude is bounded by 1 (within floating tolerance)
            assert!(cell.is_nan() || (0.0..=1.0001).contains(&cell));
        }
        // the matching pair attains (numerically) perfect correlation at the
        // lag that reproduces the shift
        assert!(rho[i][i] > 0.99, "channel {}: {}", i, rho[i][i]);
    }
}

#[test]
fn dual_source_mi_has_requested_shape_and_bounds() {
    let x = noise_matrix(48, 4, 41);
    let y = noise_matrix(48, 5, 43);
    let mi = mutual_information_double(&x, &y, 64);
    assert_eq!(mi.len(), 4);
    for row in &mi {
        assert_eq!(row.len(), 5);
        for &cell in row {
            assert!(cell.is_finite());
            assert!(cell >= -1e-4);
        }
    }
}

#[test]
fn repeated_runs_are_identical() {
    let x = noise_matrix(48, 8, 31);
    let mi_a = mutual_information_single(&x, 64);
    let mi_b = mutual_information_single(&x, 64);
    assert_eq!(mi_a, mi_b);
    let rho_a = max_lagged_correlation(&x, &x, 2, 20);
    let rho_b = max_lagged_correlation(&x, &x, 2, 20);
    assert_eq!(rho_a, rho_b);
}
