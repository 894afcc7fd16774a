use vstd::prelude::*;

use crate::discrete::IndexMatrix;
use crate::grid::lemma_flat_cell_injective;
use crate::grid::lemma_flat_index_bound;

verus! {

/// How many entries of `s` hold the value `v`. A histogram cell is exactly
/// such a count; the empirical probability the entropy estimator works with
/// is this count divided by the series length.
pub open spec fn count_eq(s: Seq<usize>, v: int) -> nat
    decreases s.len(),
{
    if s.len() == 0 {
        0
    } else {
        count_eq(s.drop_last(), v) + (if s.last() as int == v {
            1nat
        } else {
            0nat
        })
    }
}

proof fn lemma_count_eq_le_len(s: Seq<usize>, v: int)
    ensures
        count_eq(s, v) <= s.len(),
    decreases s.len(),
{
    if s.len() > 0 {
        lemma_count_eq_le_len(s.drop_last(), v);
    }
}

proof fn lemma_count_eq_take_step(s: Seq<usize>, v: int, t: int)
    requires
        0 <= t < s.len(),
    ensures
        count_eq(s.take(t + 1), v) == count_eq(s.take(t), v) + (if s[t] as int == v {
            1nat
        } else {
            0nat
        }),
{
    assert(s.take(t + 1).drop_last() =~= s.take(t));
    assert(s.take(t + 1).last() == s[t]);
}

proof fn lemma_count_eq_pointwise(s1: Seq<usize>, v1: int, s2: Seq<usize>, v2: int)
    requires
        s1.len() == s2.len(),
        forall|t: int|
            0 <= t < s1.len() ==> (((#[trigger] s1[t]) as int == v1) <==> ((#[trigger] s2[t]) as int
                == v2)),
    ensures
        count_eq(s1, v1) == count_eq(s2, v2),
    decreases s1.len(),
{
    if s1.len() > 0 {
        assert forall|t: int| 0 <= t < s1.drop_last().len() implies (((#[trigger] s1.drop_last()[t])
            as int == v1) <==> (((#[trigger] s2.drop_last()[t]) as int == v2))) by {
            assert(s1.drop_last()[t] == s1[t]);
            assert(s2.drop_last()[t] == s2[t]);
        }
        lemma_count_eq_pointwise(s1.drop_last(), v1, s2.drop_last(), v2);
        assert(s1.last() == s1[s1.len() - 1]);
        assert(s2.last() == s2[s2.len() - 1]);
    }
}

proof fn lemma_count_eq_none(s: Seq<usize>, v: int)
    requires
        forall|t: int| 0 <= t < s.len() ==> (#[trigger] s[t]) as int != v,
    ensures
        count_eq(s, v) == 0,
    decreases s.len(),
{
    if s.len() > 0 {
        assert forall|t: int| 0 <= t < s.drop_last().len() implies (#[trigger] s.drop_last()[t])
            as int != v by {
            assert(s.drop_last()[t] == s[t]);
        }
        lemma_count_eq_none(s.drop_last(), v);
        assert(s.last() == s[s.len() - 1]);
    }
}

proof fn lemma_count_eq_all(s: Seq<usize>, v: int)
    requires
        forall|t: int| 0 <= t < s.len() ==> (#[trigger] s[t]) as int == v,
    ensures
        count_eq(s, v) == s.len(),
    decreases s.len(),
{
    if s.len() > 0 {
        assert forall|t: int| 0 <= t < s.drop_last().len() implies (#[trigger] s.drop_last()[t])
            as int == v by {
            assert(s.drop_last()[t] == s[t]);
        }
        lemma_count_eq_all(s.drop_last(), v);
        assert(s.last() == s[s.len() - 1]);
    }
}

/// Total mass of the cells `0 .. b` of the histogram of `s`: the sum of
/// `count_eq(s, v)` over `0 <= v < b`.
pub open spec fn count_below(s: Seq<usize>, b: int) -> nat
    decreases b,
{
    if b <= 0 {
        0
    } else {
        count_below(s, b - 1) + count_eq(s, b - 1)
    }
}

proof fn lemma_count_below_empty(s: Seq<usize>, b: int)
    requires
        s.len() == 0,
    ensures
        count_below(s, b) == 0,
    decreases b,
{
    if b > 0 {
        lemma_count_below_empty(s, b - 1);
    }
}

proof fn lemma_count_below_drop(s: Seq<usize>, b: int)
    requires
        s.len() > 0,
    ensures
        count_below(s, b) == count_below(s.drop_last(), b) + (if ((s.last() as int) < b) {
            1nat
        } else {
            0nat
        }),
    decreases b,
{
    if b > 0 {
        lemma_count_below_drop(s, b - 1);
    }
}

proof fn lemma_count_below_total(s: Seq<usize>, b: int)
    requires
        forall|t: int| 0 <= t < s.len() ==> ((#[trigger] s[t]) as int) < b,
    ensures
        count_below(s, b) == s.len(),
    decreases s.len(),
{
    if s.len() == 0 {
        lemma_count_below_empty(s, b);
    } else {
        assert forall|t: int| 0 <= t < s.drop_last().len() implies ((#[trigger] s.drop_last()[t])
            as int) < b by {
            assert(s.drop_last()[t] == s[t]);
        }
        lemma_count_below_total(s.drop_last(), b);
        lemma_count_below_drop(s, b);
        assert(s.last() == s[s.len() - 1]);
    }
}

/// Every sample lands in exactly one cell of its channel's histogram: the
/// marginal counts sum to the number of time steps, so dividing them by it
/// yields an empirical distribution whose mass is one.
pub proof fn lemma_marginal_counts_total(x: IndexMatrix, i: int)
    requires
        x.wf(),
        0 <= i < x.cols,
    ensures
        count_below(x.channel(i), x.bins as int) == x.rows,
{
    let chan = x.channel(i);
    assert forall|t: int| 0 <= t < chan.len() implies ((#[trigger] chan[t]) as int) < x.bins by {
        lemma_flat_index_bound(t, i, x.rows as int, x.cols as int);
    }
    lemma_count_below_total(chan, x.bins as int);
}

/// Every paired sample lands in exactly one cell of the joint histogram:
/// the joint counts sum to the number of time steps, so the flattened joint
/// histogram is an empirical distribution as well.
pub proof fn lemma_joint_counts_total(x: IndexMatrix, y: IndexMatrix, i: int, j: int)
    requires
        x.wf(),
        y.wf(),
        x.bins == y.bins,
        x.rows == y.rows,
        0 <= i < x.cols,
        0 <= j < y.cols,
    ensures
        count_below(joint_seq(x, y, i, j), x.bins * x.bins) == x.rows,
{
    let bins = x.bins as int;
    let js = joint_seq(x, y, i, j);
    assert forall|t: int| 0 <= t < js.len() implies ((#[trigger] js[t]) as int) < bins * bins by {
        lemma_flat_index_bound(t, i, x.rows as int, x.cols as int);
        lemma_flat_index_bound(t, j, y.rows as int, y.cols as int);
        let xa = x.index_at(t, i);
        let yb = y.index_at(t, j);
        lemma_flat_index_bound(xa as int, yb as int, bins, bins);
        assert(bins * bins <= 16384) by (nonlinear_arith)
            requires
                0 <= bins <= 128,
        ;
    }
    lemma_count_below_total(js, bins * bins);
}

/// The histogram contract pins its result completely: any two count vectors
/// that both satisfy it for the same sequence are equal. Repeated runs of
/// the counting stage on identical input — under any worker schedule —
/// therefore produce identical output.
pub proof fn lemma_counts_deterministic(r1: Seq<usize>, r2: Seq<usize>, s: Seq<usize>, bins: int)
    requires
        r1.len() == bins,
        r2.len() == bins,
        forall|v: int| 0 <= v < bins ==> (#[trigger] r1[v]) == count_eq(s, v),
        forall|v: int| 0 <= v < bins ==> (#[trigger] r2[v]) == count_eq(s, v),
    ensures
        r1 =~= r2,
{
}

/// The marginal histogram of one channel: cell `v` holds how often the
/// channel's discretized value equals `v` over all time steps. Dividing each
/// cell by the number of time steps gives the empirical distribution whose
/// Shannon entropy is the channel's marginal entropy.
pub fn marginal_counts(m: &IndexMatrix, ch: usize) -> (r: Vec<usize>)
    requires
        m.wf(),
        ch < m.cols,
    ensures
        r@.len() == m.bins,
        forall|v: int| 0 <= v < m.bins ==> (#[trigger] r@[v]) == count_eq(m.channel(ch as int), v),
{
    let bins: usize = m.bins;
    let rows: usize = m.rows;
    let cols: usize = m.cols;
    let ghost chan = m.channel(ch as int);
    let mut counts: Vec<usize> = Vec::new();
    let mut k: usize = 0;
    while k < bins
        invariant
            k <= bins,
            counts@.len() == k,
            forall|v: int| 0 <= v < k ==> (#[trigger] counts@[v]) == 0,
        decreases bins - k,
    {
        counts.push(0);
        k = k + 1;
    }
    let dlen: usize = m.data.len();
    let mut t: usize = 0;
    while t < rows
        invariant
            m.wf(),
            ch < m.cols,
            bins == m.bins,
            rows == m.rows,
            cols == m.cols,
            dlen == m.data@.len(),
            chan == m.channel(ch as int),
            t <= rows,
            counts@.len() == bins,
            forall|v: int|
                0 <= v < bins ==> (#[trigger] counts@[v]) == count_eq(chan.take(t as int), v),
        decreases rows - t,
    {
        proof {
            lemma_flat_index_bound(t as int, ch as int, rows as int, cols as int);
        }
        let idx: usize = m.data[t * cols + ch];
        assert(idx < bins);
        assert(chan[t as int] == idx);
        let c: usize = counts[idx];
        proof {
            lemma_count_eq_le_len(chan.take(t as int), idx as int);
        }
        counts[idx] = c + 1;
        proof {
            assert forall|v: int| 0 <= v < bins implies (#[trigger] counts@[v]) == count_eq(
                chan.take(t as int + 1),
                v,
            ) by {
                lemma_count_eq_take_step(chan, v, t as int);
            }
        }
        t = t + 1;
    }
    proof {
        assert(chan.take(rows as int) =~= chan);
    }
    counts
}

/// Marginal histograms for every channel of the matrix, in channel order.
/// This is the precomputation pass that runs once before the pairwise
/// joint-entropy stage.
pub fn marginal_counts_all(m: &IndexMatrix) -> (r: Vec<Vec<usize>>)
    requires
        m.wf(),
    ensures
        r@.len() == m.cols,
        forall|ch: int| 0 <= ch < m.cols ==> (#[trigger] r@[ch])@.len() == m.bins,
        forall|ch: int, v: int|
            0 <= ch < m.cols && 0 <= v < m.bins ==> (#[trigger] r@[ch]@[v]) == count_eq(
                m.channel(ch),
                v,
            ),
{
    let mut r: Vec<Vec<usize>> = Vec::new();
    let mut ch: usize = 0;
    while ch < m.cols
        invariant
            m.wf(),
            ch <= m.cols,
            r@.len() == ch,
            forall|c: int| 0 <= c < ch ==> (#[trigger] r@[c])@.len() == m.bins,
            forall|c: int, v: int|
                0 <= c < ch && 0 <= v < m.bins ==> (#[trigger] r@[c]@[v]) == count_eq(
                    m.channel(c),
                    v,
                ),
        decreases m.cols - ch,
    {
        let counts = marginal_counts(m, ch);
        r.push(counts);
        ch = ch + 1;
    }
    r
}

/// The sequence of flat joint cells of two paired channels: at each time
/// step the pair `(a, b)` of bin indices is encoded as `a * bins + b`, the
/// cell numbering of the flattened two-dimensional histogram.
pub open spec fn joint_seq(x: IndexMatrix, y: IndexMatrix, i: int, j: int) -> Seq<usize> {
    Seq::new(
        x.rows as nat,
        |t: int| ((x.index_at(t, i) * x.bins + y.index_at(t, j)) as usize),
    )
}

/// The joint histogram of channel `i` of `x` paired with channel `j` of `y`:
/// cell `a * bins + b` holds how often the pair of discretized values
/// `(a, b)` occurs at matching time steps. Dividing by the number of time
/// steps gives the joint distribution whose Shannon entropy is the joint
/// entropy of the two channels.
pub fn joint_counts(x: &IndexMatrix, y: &IndexMatrix, i: usize, j: usize) -> (r: Vec<usize>)
    requires
        x.wf(),
        y.wf(),
        x.bins == y.bins,
        x.rows == y.rows,
        i < x.cols,
        j < y.cols,
    ensures
        r@.len() == x.bins * x.bins,
        forall|c: int|
            0 <= c < x.bins * x.bins ==> (#[trigger] r@[c]) == count_eq(
                joint_seq(*x, *y, i as int, j as int),
                c,
            ),
{
    let bins: usize = x.bins;
    let rows: usize = x.rows;
    let xcols: usize = x.cols;
    let ycols: usize = y.cols;
    let ghost js = joint_seq(*x, *y, i as int, j as int);
    let xdlen: usize = x.data.len();
    let ydlen: usize = y.data.len();
    proof {
        assert(bins * bins <= 16384) by (nonlinear_arith)
            requires
                bins <= 128,
        ;
    }
    let ncells: usize = bins * bins;
    let mut counts: Vec<usize> = Vec::new();
    let mut k: usize = 0;
    while k < ncells
        invariant
            k <= ncells,
            counts@.len() == k,
            forall|v: int| 0 <= v < k ==> (#[trigger] counts@[v]) == 0,
        decreases ncells - k,
    {
        counts.push(0);
        k = k + 1;
    }
    let mut t: usize = 0;
    while t < rows
        invariant
            x.wf(),
            y.wf(),
            x.bins == y.bins,
            x.rows == y.rows,
            i < x.cols,
            j < y.cols,
            bins == x.bins,
            rows == x.rows,
            xcols == x.cols,
            ycols == y.cols,
            ncells == bins * bins,
            xdlen == x.data@.len(),
            ydlen == y.data@.len(),
            js == joint_seq(*x, *y, i as int, j as int),
            t <= rows,
            counts@.len() == ncells,
            forall|v: int|
                0 <= v < ncells ==> (#[trigger] counts@[v]) == count_eq(js.take(t as int), v),
        decreases rows - t,
    {
        proof {
            lemma_flat_index_bound(t as int, i as int, rows as int, xcols as int);
            lemma_flat_index_bound(t as int, j as int, rows as int, ycols as int);
        }
        let ix: usize = x.data[t * xcols + i];
        let iy: usize = y.data[t * ycols + j];
        assert(ix < bins);
        assert(iy < bins);
        proof {
            lemma_flat_index_bound(ix as int, iy as int, bins as int, bins as int);
        }
        let cell: usize = ix * bins + iy;
        assert(js[t as int] == cell);
        let c: usize = counts[cell];
        proof {
            lemma_count_eq_le_len(js.take(t as int), cell as int);
        }
        counts[cell] = c + 1;
        proof {
            assert forall|v: int| 0 <= v < ncells implies (#[trigger] counts@[v]) == count_eq(
                js.take(t as int + 1),
                v,
            ) by {
                lemma_count_eq_take_step(js, v, t as int);
            }
        }
        t = t + 1;
    }
    proof {
        assert(js.take(rows as int) =~= js);
    }
    counts
}

/// Transposed cells of swapped pairings hold the same count: the joint
/// histogram of `(i, j)` read at cell `(a, b)` equals the joint histogram of
/// `(j, i)` read at cell `(b, a)`. Every statistic that depends only on the
/// multiset of joint cell counts — joint entropy in particular — is
/// therefore invariant under swapping its two operands, which is what makes
/// the single-source mutual-information matrix symmetric.
pub proof fn lemma_joint_counts_symmetric(
    x: IndexMatrix,
    y: IndexMatrix,
    i: int,
    j: int,
    a: int,
    b: int,
)
    requires
        x.wf(),
        y.wf(),
        x.bins == y.bins,
        x.rows == y.rows,
        0 <= i < x.cols,
        0 <= j < y.cols,
        0 <= a < x.bins,
        0 <= b < x.bins,
    ensures
        count_eq(joint_seq(x, y, i, j), a * x.bins + b) == count_eq(
            joint_seq(y, x, j, i),
            b * x.bins + a,
        ),
{
    let bins = x.bins as int;
    let s1 = joint_seq(x, y, i, j);
    let s2 = joint_seq(y, x, j, i);
    assert forall|t: int| 0 <= t < s1.len() implies (((#[trigger] s1[t]) as int == a * bins + b)
        <==> (((#[trigger] s2[t]) as int == b * bins + a))) by {
        lemma_flat_index_bound(t, i, x.rows as int, x.cols as int);
        lemma_flat_index_bound(t, j, y.rows as int, y.cols as int);
        let xa = x.index_at(t, i);
        let yb = y.index_at(t, j);
        assert(xa < x.bins);
        assert(yb < x.bins);
        lemma_flat_index_bound(xa as int, yb as int, bins, bins);
        lemma_flat_index_bound(yb as int, xa as int, bins, bins);
        assert(bins * bins <= 16384) by (nonlinear_arith)
            requires
                0 <= bins <= 128,
        ;
        assert(s1[t] as int == xa * bins + yb);
        assert(s2[t] as int == yb * bins + xa);
        if s1[t] as int == a * bins + b {
            lemma_flat_cell_injective(xa as int, yb as int, a, b, bins);
        }
        if s2[t] as int == b * bins + a {
            lemma_flat_cell_injective(yb as int, xa as int, b, a, bins);
        }
    }
    lemma_count_eq_pointwise(s1, a * bins + b, s2, b * bins + a);
}

/// A channel paired with itself puts all joint mass on the diagonal: cell
/// `(a, b)` of the self-joint histogram holds the marginal count of `a` when
/// `a == b` and is empty otherwise. The joint distribution of a channel with
/// itself is thus its marginal distribution relabeled, its joint entropy
/// equals the marginal entropy, and the diagonal of the single-source
/// mutual-information matrix collapses to the marginal entropy.
pub proof fn lemma_self_joint_diagonal(x: IndexMatrix, i: int, a: int, b: int)
    requires
        x.wf(),
        0 <= i < x.cols,
        0 <= a < x.bins,
        0 <= b < x.bins,
    ensures
        count_eq(joint_seq(x, x, i, i), a * x.bins + b) == if a == b {
            count_eq(x.channel(i), a)
        } else {
            0nat
        },
{
    let bins = x.bins as int;
    let s1 = joint_seq(x, x, i, i);
    let chan = x.channel(i);
    assert forall|t: int| 0 <= t < s1.len() implies ((#[trigger] s1[t]) as int == x.index_at(t, i)
        * bins + x.index_at(t, i) && x.index_at(t, i) < x.bins) by {
        lemma_flat_index_bound(t, i, x.rows as int, x.cols as int);
        let xa = x.index_at(t, i);
        lemma_flat_index_bound(xa as int, xa as int, bins, bins);
        assert(bins * bins <= 16384) by (nonlinear_arith)
            requires
                0 <= bins <= 128,
        ;
    }
    if a == b {
        assert forall|t: int| 0 <= t < s1.len() implies (((#[trigger] s1[t]) as int == a * bins + a)
            <==> (((#[trigger] chan[t]) as int == a))) by {
            let xa = x.index_at(t, i);
            if s1[t] as int == a * bins + a {
                lemma_flat_cell_injective(xa as int, xa as int, a, a, bins);
            }
        }
        lemma_count_eq_pointwise(s1, a * bins + a, chan, a);
    } else {
        assert forall|t: int| 0 <= t < s1.len() implies (#[trigger] s1[t]) as int != a * bins
            + b by {
            let xa = x.index_at(t, i);
            if s1[t] as int == a * bins + b {
                lemma_flat_cell_injective(xa as int, xa as int, a, b, bins);
            }
        }
        lemma_count_eq_none(s1, a * bins + b);
    }
}

/// A constant discretized channel occupies a single histogram bin: the
/// marginal count is the full series length at the constant's bin and zero
/// everywhere else. The empirical distribution is then a point mass, whose
/// entropy is zero, so an all-constant matrix yields an all-zero
/// mutual-information matrix.
pub proof fn lemma_constant_channel(s: Seq<usize>, c: int, v: int)
    requires
        forall|t: int| 0 <= t < s.len() ==> (#[trigger] s[t]) as int == c,
    ensures
        count_eq(s, v) == if v == c {
            s.len()
        } else {
            0nat
        },
{
    if v == c {
        lemma_count_eq_all(s, v);
    } else {
        assert forall|t: int| 0 <= t < s.len() implies (#[trigger] s[t]) as int != v by {
            assert(s[t] as int == c);
        }
        lemma_count_eq_none(s, v);
    }
}

} // verus!
