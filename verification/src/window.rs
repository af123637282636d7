use vstd::prelude::*;
use vstd::arithmetic::div_mod::{
    lemma_basic_div, lemma_div_is_ordered_by_denominator, lemma_div_nonincreasing,
    lemma_fundamental_div_mod,
};
use vstd::arithmetic::mul::{lemma_mul_inequality, lemma_mul_upper_bound};
use crate::config::{Configuration, ConfigurationError, EngineError};

verus! {

/// One analysis window: two half-open index ranges into the mono signal.
/// `base_start .. base_start + base_len` is the segment being analysed;
/// `search_start .. search_start + search_len` is the same segment shifted
/// by the smallest candidate lag and extended to the largest, so that
/// candidate offset `t` compares the base against the signal `lag_min + t`
/// samples later.
#[derive(Clone, Copy, PartialEq, Eq, Structural, Debug)]
pub struct WindowDesc {
    pub index: usize,
    pub base_start: usize,
    pub base_len: usize,
    pub search_start: usize,
    pub search_len: usize,
}

impl WindowDesc {
    /// Both ranges lie inside a signal of `n` samples and the search range
    /// is at least as long as the base range.
    pub open spec fn wf(self, n: int) -> bool {
        &&& self.base_len <= self.search_len
        &&& self.base_start + self.base_len <= n
        &&& self.search_start + self.search_len <= n
    }

    /// How many candidate offsets this window is scored at.
    pub open spec fn span(self) -> int {
        self.search_len - self.base_len
    }
}

/// Samples per analysis segment.
pub open spec fn window_size_spec(rate: int, analysis_interval: int) -> int {
    rate * analysis_interval / 1000
}

/// Samples between the starts of consecutive windows.
pub open spec fn stride_spec(rate: int, time_interval: int) -> int {
    rate * time_interval / 1000
}

/// The smallest candidate lag, in samples: the beat period of the fastest
/// sought tempo. Higher tempo means smaller lag.
pub open spec fn lag_min_spec(rate: int, max_bpm: int) -> int {
    60 * rate / max_bpm
}

/// The largest candidate lag, in samples: the beat period of the slowest
/// sought tempo.
pub open spec fn lag_max_spec(rate: int, min_bpm: int) -> int {
    60 * rate / min_bpm
}

/// How many candidate lags are searched per window.
pub open spec fn span_spec(rate: int, min_bpm: int, max_bpm: int) -> int {
    lag_max_spec(rate, min_bpm) - lag_min_spec(rate, max_bpm)
}

/// How many windows a signal of `n` samples yields: every window must fit
/// together with its largest-lag extension, and too short a signal yields
/// none at all rather than an error.
pub open spec fn window_count_spec(n: int, rate: int, conf: Configuration) -> int {
    let ws = window_size_spec(rate, conf.analysis_interval as int);
    let lmax = lag_max_spec(rate, conf.min_bpm as int);
    let stride = stride_spec(rate, conf.time_interval as int);
    if n >= ws + lmax {
        (n - ws - lmax) / stride
    } else {
        0
    }
}

/// The descriptor of window `i`: the window starts `i` strides into the
/// signal; its search range starts `lag_min` samples later and is `span`
/// samples longer than the base range.
pub open spec fn desc_spec(conf: Configuration, rate: int, i: int) -> WindowDesc {
    let ws = window_size_spec(rate, conf.analysis_interval as int);
    let stride = stride_spec(rate, conf.time_interval as int);
    let lmin = lag_min_spec(rate, conf.max_bpm as int);
    let span = span_spec(rate, conf.min_bpm as int, conf.max_bpm as int);
    WindowDesc {
        index: i as usize,
        base_start: (i * stride) as usize,
        base_len: ws as usize,
        search_start: (i * stride + lmin) as usize,
        search_len: (ws + span) as usize,
    }
}

/// The degenerate-geometry error a valid configuration can still raise
/// once the stream's sample rate is known, or `None` where partitioning
/// succeeds. The checks run in this order.
pub open spec fn partition_error(conf: Configuration, rate: int, n: int) -> Option<
    ConfigurationError,
> {
    let ws = window_size_spec(rate, conf.analysis_interval as int);
    let stride = stride_spec(rate, conf.time_interval as int);
    let lmin = lag_min_spec(rate, conf.max_bpm as int);
    let span = span_spec(rate, conf.min_bpm as int, conf.max_bpm as int);
    let count = window_count_spec(n, rate, conf);
    if ws <= 0 {
        Some(ConfigurationError::ZeroWindowSize)
    } else if stride <= 0 {
        Some(ConfigurationError::ZeroStride)
    } else if lmin <= 0 {
        Some(ConfigurationError::MaxBpmTooHigh)
    } else if span <= 0 {
        Some(ConfigurationError::EmptyLagRange)
    } else if count >= 1 && (count - 1) * (conf.time_interval as int) > u64::MAX {
        Some(ConfigurationError::TimeOverflow)
    } else {
        None
    }
}

/// Cuts the signal into its ordered sequence of window descriptors.
/// Window `i` starts `i` strides into the signal; its search range starts
/// `lag_min` samples later and is `span` samples longer. A signal too short
/// for even one window yields `Ok` of an empty sequence.
#[verifier::loop_isolation(false)]
pub fn get_windows(conf: &Configuration, sample_rate: u32, n: usize) -> (r: Result<
    Vec<WindowDesc>,
    EngineError,
>)
    requires
        conf.valid(),
    ensures
        r is Ok <==> partition_error(*conf, sample_rate as int, n as int) is None,
        partition_error(*conf, sample_rate as int, n as int) matches Some(e) ==> r == Err::<
            Vec<WindowDesc>,
            EngineError,
        >(EngineError::Configuration(e)),
        r matches Ok(v) ==> {
            let rate = sample_rate as int;
            let ws = window_size_spec(rate, conf.analysis_interval as int);
            let stride = stride_spec(rate, conf.time_interval as int);
            let lmin = lag_min_spec(rate, conf.max_bpm as int);
            let span = span_spec(rate, conf.min_bpm as int, conf.max_bpm as int);
            &&& v@.len() == window_count_spec(n as int, rate, *conf)
            &&& forall|i: int| 0 <= i < v@.len() ==> {
                let d = #[trigger] v@[i];
                &&& d.index == i
                &&& d.base_start == i * stride
                &&& d.base_len == ws
                &&& d.search_start == i * stride + lmin
                &&& d.search_len == ws + span
                &&& d.wf(n as int)
                &&& d.index * conf.time_interval <= u64::MAX
                &&& d == desc_spec(*conf, rate, i)
            }
        },
{
    let rate: u128 = sample_rate as u128;
    proof {
        lemma_mul_upper_bound(rate as int, u32::MAX as int, conf.analysis_interval as int, usize::MAX as int);
        lemma_mul_upper_bound(rate as int, u32::MAX as int, conf.time_interval as int, usize::MAX as int);
    }
    let ws: u128 = rate * (conf.analysis_interval as u128) / 1000;
    let stride: u128 = rate * (conf.time_interval as u128) / 1000;
    let lmin: u128 = 60 * rate / (conf.max_bpm as u128);
    let lmax: u128 = 60 * rate / (conf.min_bpm as u128);
    if ws == 0 {
        return Err(EngineError::Configuration(ConfigurationError::ZeroWindowSize));
    }
    if stride == 0 {
        return Err(EngineError::Configuration(ConfigurationError::ZeroStride));
    }
    if lmin == 0 {
        return Err(EngineError::Configuration(ConfigurationError::MaxBpmTooHigh));
    }
    proof {
        lemma_div_is_ordered_by_denominator(60 * rate as int, conf.min_bpm as int, conf.max_bpm as int);
    }
    if lmax <= lmin {
        return Err(EngineError::Configuration(ConfigurationError::EmptyLagRange));
    }
    let nn: u128 = n as u128;
    let count: u128 = if nn >= ws + lmax {
        (nn - ws - lmax) / stride
    } else {
        0
    };
    proof {
        if nn >= ws + lmax {
            lemma_fundamental_div_mod((nn - ws - lmax) as int, stride as int);
        }
    }
    proof {
        if count >= 1 {
            lemma_mul_upper_bound(count as int - 1, u64::MAX as int, conf.time_interval as int, u64::MAX as int);
        }
    }
    if count >= 1 && (count - 1) * (conf.time_interval as u128) > (u64::MAX as u128) {
        return Err(EngineError::Configuration(ConfigurationError::TimeOverflow));
    }
    let mut v: Vec<WindowDesc> = Vec::new();
    if count == 0 {
        return Ok(v);
    }
    proof {
        lemma_div_nonincreasing((nn - ws - lmax) as int, stride as int);
        if stride > nn - ws - lmax {
            lemma_basic_div((nn - ws - lmax) as int, stride as int);
        }
    }
    let count_us: usize = count as usize;
    let ws_us: usize = ws as usize;
    let stride_us: usize = stride as usize;
    let lmin_us: usize = lmin as usize;
    let span_us: usize = (lmax - lmin) as usize;
    let mut i: usize = 0;
    while i < count_us
        invariant
            v@.len() == i,
            i <= count_us,
            forall|j: int| 0 <= j < i ==> {
                let d = #[trigger] v@[j];
                &&& d.index == j
                &&& d.base_start == j * stride_us
                &&& d.base_len == ws_us
                &&& d.search_start == j * stride_us + lmin_us
                &&& d.search_len == ws_us + span_us
                &&& d.wf(n as int)
                &&& d.index * conf.time_interval <= u64::MAX
                &&& d == desc_spec(*conf, sample_rate as int, j)
            },
        decreases count_us - i,
    {
        proof {
            lemma_mul_inequality(i as int, count as int - 1, stride as int);
            assert((count - 1) * stride <= count * stride - stride) by (nonlinear_arith)
                requires
                    count >= 1,
                    stride >= 1,
            ;
            assert(count * stride <= nn - ws - lmax) by (nonlinear_arith)
                requires
                    count == ((nn - ws - lmax) as int) / (stride as int),
                    nn >= ws + lmax,
                    stride >= 1,
                    (nn - ws - lmax) as int == stride * count + (nn - ws - lmax) as int % stride as int,
            ;
            lemma_mul_inequality(i as int, count as int - 1, conf.time_interval as int);
        }
        let base_start: usize = i * stride_us;
        v.push(
            WindowDesc {
                index: i,
                base_start,
                base_len: ws_us,
                search_start: base_start + lmin_us,
                search_len: ws_us + span_us,
            },
        );
        i = i + 1;
    }
    Ok(v)
}

} // verus!
