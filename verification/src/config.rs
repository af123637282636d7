use vstd::prelude::*;

verus! {

/// What one analysis run is asked to do: which file to analyse, how the
/// signal is cut into windows, and which tempo range is searched.
///
/// `time_interval` is the spacing, in milliseconds, between successive
/// estimates; `analysis_interval` is the length, in milliseconds, of each
/// analysis segment. The estimator searches tempos from `min_bpm` to
/// `max_bpm` beats per minute. `verbose` is 0 (quiet) or 1 (report progress).
#[derive(Clone)]
pub struct Configuration {
    pub file_path: String,
    pub time_interval: usize,
    pub analysis_interval: usize,
    pub min_bpm: usize,
    pub max_bpm: usize,
    pub verbose: usize,
}

/// A configuration rejected before any decoding or analysis work begins.
#[derive(Clone, Copy, PartialEq, Eq, Structural, Debug)]
pub enum ConfigurationError {
    /// `time_interval` is zero.
    ZeroTimeInterval,
    /// `analysis_interval` is shorter than `time_interval`.
    AnalysisIntervalTooShort,
    /// The tempo bounds do not satisfy `0 < min_bpm < max_bpm`.
    InvalidBpmRange,
    /// `verbose` is neither 0 nor 1.
    InvalidVerbosity,
    /// The analysis segment spans no sample at the stream's sample rate.
    ZeroWindowSize,
    /// Successive windows would start at the same sample.
    ZeroStride,
    /// Even the fastest sought tempo has a beat period of zero samples.
    MaxBpmTooHigh,
    /// The sought tempo range rounds to an empty set of candidate lags.
    EmptyLagRange,
    /// A window's position on the time axis would not fit in a `u64`
    /// count of milliseconds.
    TimeOverflow,
}

/// The input file cannot be used at all; reported by a front end before
/// decoding is attempted.
#[derive(Clone, Copy, PartialEq, Eq, Structural, Debug)]
pub enum InputError {
    /// The file does not exist.
    FileNotFound,
    /// The file exists but cannot be read.
    FileNotReadable,
}

/// The audio stream cannot be decoded into PCM frames.
#[derive(Clone, Copy, PartialEq, Eq, Structural, Debug)]
pub enum DecodeError {
    /// A decoded frame declares zero channels, so it holds no samples
    /// to downmix.
    NoChannels,
    /// The decoder rejected the stream as corrupt or unsupported.
    CorruptStream,
}

/// Everything that can abort a run. No partial results are ever returned:
/// each of these is raised before any window's estimate is delivered.
#[derive(Clone, Copy, PartialEq, Eq, Structural, Debug)]
pub enum EngineError {
    Configuration(ConfigurationError),
    Input(InputError),
    Decode(DecodeError),
}

impl Configuration {
    /// The constraints a configuration must meet before any decode or
    /// compute work begins.
    pub open spec fn valid(self) -> bool {
        &&& self.time_interval >= 1
        &&& self.analysis_interval >= self.time_interval
        &&& 0 < self.min_bpm < self.max_bpm
        &&& self.verbose <= 1
    }

    /// The error reported for an invalid configuration: the first violated
    /// constraint, in the order the constraints are stated.
    pub open spec fn first_config_error(self) -> ConfigurationError {
        if self.time_interval < 1 {
            ConfigurationError::ZeroTimeInterval
        } else if self.analysis_interval < self.time_interval {
            ConfigurationError::AnalysisIntervalTooShort
        } else if !(0 < self.min_bpm < self.max_bpm) {
            ConfigurationError::InvalidBpmRange
        } else {
            ConfigurationError::InvalidVerbosity
        }
    }

    /// Checks the constraints of `valid`, reporting the first violation.
    pub fn validate(&self) -> (r: Result<(), EngineError>)
        ensures
            r is Ok <==> self.valid(),
            !self.valid() ==> r == Err::<(), EngineError>(
                EngineError::Configuration(self.first_config_error()),
            ),
    {
        if self.time_interval < 1 {
            Err(EngineError::Configuration(ConfigurationError::ZeroTimeInterval))
        } else if self.analysis_interval < self.time_interval {
            Err(EngineError::Configuration(ConfigurationError::AnalysisIntervalTooShort))
        } else if !(0 < self.min_bpm && self.min_bpm < self.max_bpm) {
            Err(EngineError::Configuration(ConfigurationError::InvalidBpmRange))
        } else if self.verbose > 1 {
            Err(EngineError::Configuration(ConfigurationError::InvalidVerbosity))
        } else {
            Ok(())
        }
    }
}

} // verus!
