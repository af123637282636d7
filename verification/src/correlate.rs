use vstd::prelude::*;
use vstd::arithmetic::div_mod::lemma_div_nonincreasing;
use vstd::slice::slice_subrange;
use crate::pcm::{all_samples_in_range, ints, PcmBuffer};
use crate::window::WindowDesc;

verus! {

/// A tempo estimate for one analysis window: the position of the window on
/// the time axis, in milliseconds, and the estimated tempo, in thousandths
/// of a beat per minute.
#[derive(Clone, Copy, PartialEq, Eq, Structural, Debug)]
pub struct BPM {
    pub time_ms: u64,
    pub bpm_milli: u64,
}

/// The sliding dot product of the first `k` samples of `a` against `b`
/// shifted by `t`: the correlation energy of one candidate offset.
pub open spec fn dot(a: Seq<int>, b: Seq<int>, t: int, k: nat) -> int
    decreases k,
{
    if k == 0 {
        0
    } else {
        dot(a, b, t, (k - 1) as nat) + a[k - 1] * b[t + k - 1]
    }
}

/// The index of the greatest value of `s`; the smallest such index where
/// the greatest value appears more than once.
pub open spec fn argmax(s: Seq<int>) -> int
    decreases s.len(),
{
    if s.len() <= 1 {
        0
    } else {
        let p = argmax(s.drop_last());
        if s.last() > s[p] {
            s.len() - 1
        } else {
            p
        }
    }
}

pub proof fn lemma_argmax_properties(s: Seq<int>)
    requires
        s.len() >= 1,
    ensures
        0 <= argmax(s) < s.len(),
        forall|j: int| 0 <= j < s.len() ==> #[trigger] s[j] <= s[argmax(s)],
        forall|j: int| 0 <= j < argmax(s) ==> #[trigger] s[j] < s[argmax(s)],
    decreases s.len(),
{
    if s.len() > 1 {
        lemma_argmax_properties(s.drop_last());
        assert(forall|j: int| 0 <= j < s.len() - 1 ==> s[j] == s.drop_last()[j]);
    }
}

/// An index that carries the greatest value and strictly exceeds every
/// earlier value is the argmax: the estimator's tie-break is deterministic.
pub proof fn lemma_argmax_unique(s: Seq<int>, idx: int)
    requires
        0 <= idx < s.len(),
        forall|j: int| 0 <= j < s.len() ==> s[j] <= s[idx],
        forall|j: int| 0 <= j < idx ==> s[j] < s[idx],
    ensures
        idx == argmax(s),
{
    lemma_argmax_properties(s);
    let p = argmax(s);
    if p < idx {
        assert(s[p] < s[idx]);
        assert(s[idx] <= s[p]);
    } else if idx < p {
        assert(s[idx] < s[p]);
        assert(s[p] <= s[idx]);
    }
}

proof fn lemma_dot_bounds(a: Seq<int>, b: Seq<int>, t: int, k: nat)
    requires
        0 <= t,
        k <= a.len(),
        t + k <= b.len(),
        all_samples_in_range(a),
        all_samples_in_range(b),
    ensures
        -0x4000_0000 * k <= dot(a, b, t, k) <= 0x4000_0000 * k,
    decreases k,
{
    if k > 0 {
        lemma_dot_bounds(a, b, t, (k - 1) as nat);
        assert(-0x4000_0000 <= a[k - 1] * b[t + k - 1] <= 0x4000_0000) by (nonlinear_arith)
            requires
                -0x8000 <= a[k - 1] <= 0x7fff,
                -0x8000 <= b[t + k - 1] <= 0x7fff,
        ;
    }
}

/// The correlation vector of one window: for each candidate offset `t`,
/// the dot product of the base segment against the search segment shifted
/// by `t`. Exactly as many entries as there are candidate offsets.
#[verifier::loop_isolation(false)]
pub fn get_correlation(win_a: &[i32], win_b: &[i32]) -> (r: Vec<i128>)
    requires
        win_a@.len() <= win_b@.len(),
        all_samples_in_range(ints(win_a@)),
        all_samples_in_range(ints(win_b@)),
    ensures
        r@.len() == win_b@.len() - win_a@.len(),
        forall|t: int| 0 <= t < r@.len() ==> r@[t] == dot(
            ints(win_a@),
            ints(win_b@),
            t,
            win_a@.len(),
        ),
{
    let w: usize = win_a.len();
    let size: usize = win_b.len() - w;
    let mut correlation: Vec<i128> = Vec::with_capacity(size);
    let mut t: usize = 0;
    while t < size
        invariant
            correlation@.len() == t,
            t <= size,
            forall|u: int| 0 <= u < t ==> correlation@[u] == dot(
                ints(win_a@),
                ints(win_b@),
                u,
                win_a@.len(),
            ),
        decreases size - t,
    {
        let mut value: i128 = 0;
        let mut i: usize = 0;
        while i < w
            invariant
                t < size,
                i <= w,
                value == dot(ints(win_a@), ints(win_b@), t as int, i as nat),
                -0x4000_0000 * i <= value <= 0x4000_0000 * i,
            decreases w - i,
        {
            proof {
                lemma_dot_bounds(ints(win_a@), ints(win_b@), t as int, (i + 1) as nat);
                assert(crate::pcm::sample_in_range(ints(win_a@)[i as int]));
                assert(crate::pcm::sample_in_range(ints(win_b@)[t + i]));
                assert(-0x4000_0000 <= (win_a@[i as int] as int) * (win_b@[t + i] as int)
                    <= 0x4000_0000) by (nonlinear_arith)
                    requires
                        -0x8000 <= win_a@[i as int] as int <= 0x7fff,
                        -0x8000 <= win_b@[t + i] as int <= 0x7fff,
                ;
            }
            let p: i64 = (win_a[i] as i64) * (win_b[t + i] as i64);
            value = value + (p as i128);
            i = i + 1;
        }
        correlation.push(value);
        t = t + 1;
    }
    correlation
}

/// The greatest correlation energy and the offset it stands at. An earlier
/// offset with the same energy always wins: every value before the
/// returned offset is strictly smaller.
#[verifier::loop_isolation(false)]
pub fn get_max(data: &Vec<i128>) -> (r: (i128, usize))
    requires
        data@.len() >= 1,
    ensures
        r.1 < data@.len(),
        r.0 == data@[r.1 as int],
        forall|j: int| 0 <= j < data@.len() ==> data@[j] <= r.0,
        forall|j: int| 0 <= j < r.1 ==> data@[j] < r.0,
{
    let mut value: i128 = data[0];
    let mut index: usize = 0;
    let mut i: usize = 1;
    while i < data.len()
        invariant
            1 <= i <= data@.len(),
            index < i,
            value == data@[index as int],
            forall|j: int| 0 <= j < i ==> data@[j] <= value,
            forall|j: int| 0 <= j < index ==> data@[j] < value,
        decreases data@.len() - i,
    {
        let x: i128 = data[i];
        if x > value {
            value = x;
            index = i;
        }
        i = i + 1;
    }
    (value, index)
}

/// The correlation scores of one window, over the whole signal: candidate
/// offset `t` compares the base range against the search range shifted
/// by `t`.
pub open spec fn window_scores(s: Seq<int>, d: WindowDesc) -> Seq<int> {
    Seq::new(
        d.span() as nat,
        |t: int| dot(
            s.subrange(d.base_start as int, d.base_start + d.base_len),
            s.subrange(d.search_start as int, d.search_start + d.search_len),
            t,
            d.base_len as nat,
        ),
    )
}

/// The winning candidate offset of one window: the smallest offset with
/// maximal correlation energy.
pub open spec fn best_offset(s: Seq<int>, d: WindowDesc) -> int {
    argmax(window_scores(s, d))
}

/// What the estimator returns for one window: the window's position on the
/// time axis, and the tempo whose beat period is the winning absolute lag
/// `lag_min + t*`, converted by `bpm = 60 * rate / lag` and scaled to
/// thousandths.
pub open spec fn estimate_spec(
    s: Seq<int>,
    d: WindowDesc,
    lag_min: int,
    rate: int,
    time_interval: int,
) -> BPM {
    let t = best_offset(s, d);
    BPM {
        time_ms: (d.index * time_interval) as u64,
        bpm_milli: (60000 * rate / (lag_min + t)) as u64,
    }
}

/// Estimates the tempo of one window: builds the window's correlation
/// vector, takes the smallest offset with maximal energy, and converts the
/// winning lag to a tempo.
pub fn estimate_window(
    buf: &PcmBuffer,
    desc: &WindowDesc,
    lag_min: usize,
    time_interval: usize,
) -> (r: BPM)
    requires
        buf.wf(),
        desc.wf(buf.samples@.len() as int),
        desc.span() >= 1,
        lag_min >= 1,
        desc.index * time_interval <= u64::MAX,
    ensures
        r == estimate_spec(
            ints(buf.samples@),
            *desc,
            lag_min as int,
            buf.sample_rate as int,
            time_interval as int,
        ),
{
    let ghost s = ints(buf.samples@);
    let n: usize = buf.samples.len();
    proof {
        assert(desc.base_start + desc.base_len <= n);
        assert(desc.search_start + desc.search_len <= n);
    }
    let base = slice_subrange(
        buf.samples.as_slice(),
        desc.base_start,
        desc.base_start + desc.base_len,
    );
    let search = slice_subrange(
        buf.samples.as_slice(),
        desc.search_start,
        desc.search_start + desc.search_len,
    );
    proof {
        assert(ints(base@) =~= s.subrange(desc.base_start as int, desc.base_start + desc.base_len));
        assert(ints(search@) =~= s.subrange(
            desc.search_start as int,
            desc.search_start + desc.search_len,
        ));
        assert(all_samples_in_range(ints(base@)));
        assert(all_samples_in_range(ints(search@)));
    }
    let correlation = get_correlation(base, search);
    let (_value, t) = get_max(&correlation);
    proof {
        let sc = window_scores(s, *desc);
        assert(forall|u: int| 0 <= u < sc.len() ==> sc[u] == correlation@[u]);
        lemma_argmax_unique(sc, t as int);
    }
    let lag: u128 = (lag_min as u128) + (t as u128);
    proof {
        lemma_div_nonincreasing(60000 * (buf.sample_rate as int), lag as int);
    }
    let bpm_milli: u64 = (60000 * (buf.sample_rate as u128) / lag) as u64;
    let time_ms: u64 = (desc.index as u64) * (time_interval as u64);
    BPM { time_ms, bpm_milli }
}

} // verus!
