use vstd::prelude::*;
use vstd::arithmetic::mul::lemma_mul_inequality;
use rayon::iter::{IndexedParallelIterator, IntoParallelRefIterator, ParallelIterator};
use crate::config::{Configuration, DecodeError, EngineError};
use crate::correlate::{estimate_window, estimate_spec, BPM};
use crate::pcm::{frames_decodable, get_music, ints, music_of, rate_of, Frame, PcmBuffer};
use crate::window::{
    desc_spec, get_windows, lag_max_spec, lag_min_spec, partition_error, window_count_spec,
    window_size_spec, WindowDesc,
};

verus! {

/// One event of the streaming result protocol: exactly one `Start` with
/// the window count, then one `Step` per analysed window, then exactly
/// one `End`.
#[derive(Clone, Copy, PartialEq, Eq, Structural, Debug)]
pub enum State {
    Start(usize),
    Step(BPM),
    End,
}

/// What a consumer of the streaming protocol provides: something that
/// takes one event at a time, in the order the engine emits them.
pub trait EventSink {
    /// The events this sink has taken so far, in arrival order.
    spec fn events(&self) -> Seq<State>;

    fn handle(&mut self, event: State)
        ensures
            final(self).events() == old(self).events().push(event),
    ;
}

/// A sink that records every event it is handed, in arrival order.
pub struct VecSink {
    pub events: Vec<State>,
}

impl VecSink {
    pub fn new() -> (r: VecSink)
        ensures
            r.events@ == Seq::<State>::empty(),
    {
        VecSink { events: Vec::new() }
    }
}

impl EventSink for VecSink {
    open spec fn events(&self) -> Seq<State> {
        self.events@
    }

    fn handle(&mut self, event: State) {
        self.events.push(event);
    }
}

/// The `Step` events of a run's estimates, in order.
pub open spec fn steps_of(estimates: Seq<BPM>) -> Seq<State> {
    estimates.map_values(|b: BPM| State::Step(b))
}

/// The full event stream of a run that produced `estimates`: `Start` with
/// the count, the estimates in order, `End`.
pub open spec fn protocol_events(estimates: Seq<BPM>) -> Seq<State> {
    seq![State::Start(estimates.len() as usize)] + steps_of(estimates) + seq![State::End]
}

/// How many `Step` events a stream holds.
pub open spec fn count_steps(events: Seq<State>) -> int
    decreases events.len(),
{
    if events.len() == 0 {
        0
    } else {
        count_steps(events.drop_last()) + if events.last() is Step {
            1int
        } else {
            0int
        }
    }
}

proof fn lemma_count_steps_push(events: Seq<State>, e: State)
    ensures
        count_steps(events.push(e)) == count_steps(events) + if e is Step {
            1int
        } else {
            0int
        },
{
    assert(events.push(e).drop_last() =~= events);
    assert(events.push(e).last() == e);
}

proof fn lemma_count_steps_start_steps(start: State, estimates: Seq<BPM>)
    requires
        !(start is Step),
    ensures
        count_steps(seq![start] + steps_of(estimates)) == estimates.len(),
    decreases estimates.len(),
{
    let s = seq![start] + steps_of(estimates);
    if estimates.len() == 0 {
        reveal_with_fuel(count_steps, 3);
        assert(s =~= seq![start]);
        assert(s.drop_last() =~= Seq::<State>::empty());
        assert(count_steps(s) == count_steps(s.drop_last()));
    } else {
        let prev = seq![start] + steps_of(estimates.drop_last());
        assert(s =~= prev.push(State::Step(estimates.last())));
        lemma_count_steps_push(prev, State::Step(estimates.last()));
        lemma_count_steps_start_steps(start, estimates.drop_last());
    }
}

/// The streaming protocol's shape: the stream of a run with `estimates`
/// opens with `Start` declaring exactly as many windows as there are
/// estimates, carries exactly one `Step` per estimate, in order, and
/// closes with `End`.
pub proof fn lemma_stream_protocol(estimates: Seq<BPM>)
    ensures
        protocol_events(estimates).len() == estimates.len() + 2,
        protocol_events(estimates)[0] == State::Start(estimates.len() as usize),
        protocol_events(estimates).last() == State::End,
        forall|i: int| 1 <= i <= estimates.len() ==> protocol_events(estimates)[i]
            == State::Step(estimates[i - 1]),
        count_steps(protocol_events(estimates)) == estimates.len(),
{
    let opening = seq![State::Start(estimates.len() as usize)] + steps_of(estimates);
    assert(protocol_events(estimates) =~= opening.push(State::End));
    lemma_count_steps_push(opening, State::End);
    lemma_count_steps_start_steps(State::Start(estimates.len() as usize), estimates);
}

/// Exactly one `Step` per window: for a run that succeeds, the count that
/// `Start` declares, the number of `Step` events in the stream, and the
/// window-count formula all agree.
pub proof fn lemma_step_count_matches_windows(conf: Configuration, frames: Seq<Frame>)
    requires
        analyse_error(conf, frames) is None,
    ensures
        count_steps(protocol_events(analyse_spec(conf, frames))) == window_count_spec(
            music_of(frames).len() as int,
            rate_of(frames) as int,
            conf,
        ),
        protocol_events(analyse_spec(conf, frames))[0] == State::Start(
            analyse_spec(conf, frames).len() as usize,
        ),
{
    lemma_stream_protocol(analyse_spec(conf, frames));
}

/// What aborts a run, checked in this order: an invalid configuration, an
/// undecodable stream, then window geometry that degenerates at the
/// stream's sample rate. `None` means the run returns estimates.
pub open spec fn analyse_error(conf: Configuration, frames: Seq<Frame>) -> Option<EngineError> {
    if !conf.valid() {
        Some(EngineError::Configuration(conf.first_config_error()))
    } else if !frames_decodable(frames) {
        Some(EngineError::Decode(DecodeError::NoChannels))
    } else {
        match partition_error(conf, rate_of(frames) as int, music_of(frames).len() as int) {
            Some(e) => Some(EngineError::Configuration(e)),
            None => None,
        }
    }
}

/// The estimates of a whole run, in window order: window `i`'s estimate is
/// the correlation estimator's result on window `i` of the downmixed
/// signal.
pub open spec fn analyse_spec(conf: Configuration, frames: Seq<Frame>) -> Seq<BPM> {
    let rate = rate_of(frames) as int;
    let music = music_of(frames);
    let count = window_count_spec(music.len() as int, rate, conf);
    Seq::new(
        count as nat,
        |i: int| estimate_spec(
            music,
            desc_spec(conf, rate, i),
            lag_min_spec(rate, conf.max_bpm as int),
            rate,
            conf.time_interval as int,
        ),
    )
}

/// Determinism: any two result sequences that `analyse_sync`'s contract
/// allows for the same configuration and the same decoded input are equal.
pub proof fn lemma_analyse_deterministic(
    conf: Configuration,
    frames: Seq<Frame>,
    r1: Seq<BPM>,
    r2: Seq<BPM>,
)
    requires
        r1 == analyse_spec(conf, frames),
        r2 == analyse_spec(conf, frames),
    ensures
        r1 == r2,
{
}

/// The time axis: window `i`'s estimate sits at `i * time_interval`
/// milliseconds, so the sequence is sorted by time. The signal must fit in
/// memory for the window indices to be representable.
pub proof fn lemma_time_axis(conf: Configuration, frames: Seq<Frame>)
    requires
        analyse_error(conf, frames) is None,
        music_of(frames).len() <= usize::MAX,
    ensures
        forall|i: int| 0 <= i < analyse_spec(conf, frames).len()
            ==> (#[trigger] analyse_spec(conf, frames)[i]).time_ms == i * conf.time_interval,
        forall|i: int, j: int| 0 <= i <= j < analyse_spec(conf, frames).len()
            ==> (#[trigger] analyse_spec(conf, frames)[i]).time_ms
                <= (#[trigger] analyse_spec(conf, frames)[j]).time_ms,
{
    let rate = rate_of(frames) as int;
    let music = music_of(frames);
    let count = window_count_spec(music.len() as int, rate, conf);
    assert forall|i: int| 0 <= i < analyse_spec(conf, frames).len()
        implies (#[trigger] analyse_spec(conf, frames)[i]).time_ms
            == i * conf.time_interval by {
        lemma_mul_inequality(i, count - 1, conf.time_interval as int);
        assert(desc_spec(conf, rate, i).index == i as usize);
        assert(i * conf.time_interval >= 0) by (nonlinear_arith)
            requires
                i >= 0,
                conf.time_interval >= 0,
        ;
    }
    assert forall|i: int, j: int| 0 <= i <= j < analyse_spec(conf, frames).len()
        implies (#[trigger] analyse_spec(conf, frames)[i]).time_ms
            <= (#[trigger] analyse_spec(conf, frames)[j]).time_ms by {
        lemma_mul_inequality(i, j, conf.time_interval as int);
    }
}

/// Relies on rayon's `IndexedParallelIterator::collect_into_vec` over
/// `par_iter().map(..)`: a parallel map over the descriptors collects its
/// results into the vector in the descriptors' order, one result per
/// descriptor. Each result itself comes from this crate's verified
/// `estimate_window`, whose contract the clauses below restate.
#[verifier::external_body]
fn par_estimate_windows(
    buf: &PcmBuffer,
    descs: &Vec<WindowDesc>,
    lag_min: usize,
    time_interval: usize,
) -> (r: Vec<BPM>)
    requires
        buf.wf(),
        lag_min >= 1,
        forall|i: int| 0 <= i < descs@.len() ==> {
            let d = #[trigger] descs@[i];
            &&& d.wf(buf.samples@.len() as int)
            &&& d.span() >= 1
            &&& d.index * time_interval <= u64::MAX
        },
    ensures
        r@.len() == descs@.len(),
        forall|i: int| 0 <= i < descs@.len() ==> r@[i] == estimate_spec(
            ints(buf.samples@),
            descs@[i],
            lag_min as int,
            buf.sample_rate as int,
            time_interval as int,
        ),
{
    let mut out: Vec<BPM> = Vec::new();
    descs
        .par_iter()
        .map(|d| estimate_window(buf, d, lag_min, time_interval))
        .collect_into_vec(&mut out);
    out
}

/// Analyses a decoded stream and blocks until every window is done:
/// validates the configuration, downmixes, partitions, estimates every
/// window, and returns the estimates sorted by their position on the time
/// axis. A stream too short for even one window yields `Ok` of an empty
/// sequence; every failure aborts before any estimate is produced.
pub fn analyse_sync(conf: &Configuration, frames: &Vec<Frame>) -> (r: Result<Vec<BPM>, EngineError>)
    ensures
        r is Ok <==> analyse_error(*conf, frames@) is None,
        analyse_error(*conf, frames@) matches Some(e) ==> r == Err::<Vec<BPM>, EngineError>(e),
        r matches Ok(v) ==> {
            let rate = rate_of(frames@) as int;
            let music = music_of(frames@);
            &&& v@ == analyse_spec(*conf, frames@)
            &&& v@.len() == window_count_spec(music.len() as int, rate, *conf)
            &&& (music.len() < window_size_spec(rate, conf.analysis_interval as int)
                + lag_max_spec(rate, conf.min_bpm as int) ==> v@.len() == 0)
            &&& forall|i: int| 0 <= i < v@.len() ==> (#[trigger] v@[i]).time_ms
                == i * conf.time_interval
            &&& forall|i: int, j: int| 0 <= i <= j < v@.len() ==> (#[trigger] v@[i]).time_ms
                <= (#[trigger] v@[j]).time_ms
        },
{
    match conf.validate() {
        Err(e) => {
            return Err(e);
        },
        Ok(()) => {},
    }
    let buf = match get_music(frames) {
        Err(e) => {
            return Err(e);
        },
        Ok(b) => b,
    };
    let n: usize = buf.samples.len();
    let descs = match get_windows(conf, buf.sample_rate, n) {
        Err(e) => {
            return Err(e);
        },
        Ok(d) => d,
    };
    proof {
        lemma_time_axis(*conf, frames@);
    }
    if descs.len() == 0 {
        let empty: Vec<BPM> = Vec::new();
        proof {
            assert(empty@ =~= analyse_spec(*conf, frames@));
        }
        return Ok(empty);
    }
    let lag_min: usize = (60u128 * (buf.sample_rate as u128) / (conf.max_bpm as u128)) as usize;
    let est = par_estimate_windows(&buf, &descs, lag_min, conf.time_interval);
    proof {
        assert(est@ =~= analyse_spec(*conf, frames@));
    }
    Ok(est)
}

/// Analyses a decoded stream and hands the sink the full result protocol:
/// one `Start` with the window count, one `Step` per window in time-axis
/// order, one `End`. On failure the sink sees no event at all.
pub fn analyse<S: EventSink>(sink: &mut S, conf: &Configuration, frames: &Vec<Frame>) -> (r:
    Result<(), EngineError>)
    ensures
        r is Ok <==> analyse_error(*conf, frames@) is None,
        analyse_error(*conf, frames@) matches Some(e) ==> r == Err::<(), EngineError>(e),
        r is Ok ==> final(sink).events() == old(sink).events() + protocol_events(
            analyse_spec(*conf, frames@),
        ),
        r is Err ==> final(sink).events() == old(sink).events(),
{
    let est = match analyse_sync(conf, frames) {
        Err(e) => {
            return Err(e);
        },
        Ok(v) => v,
    };
    let events = make_events(&est);
    let mut i: usize = 0;
    while i < events.len()
        invariant
            i <= events@.len(),
            sink.events() == old(sink).events() + events@.take(i as int),
        decreases events@.len() - i,
    {
        sink.handle(events[i]);
        proof {
            assert(events@.take(i + 1) =~= events@.take(i as int).push(events@[i as int]));
        }
        i = i + 1;
    }
    proof {
        assert(events@.take(events@.len() as int) =~= events@);
    }
    Ok(())
}

/// The event stream for a finished run: exactly `protocol_events` of its
/// estimates.
pub fn make_events(estimates: &Vec<BPM>) -> (events: Vec<State>)
    ensures
        events@ == protocol_events(estimates@),
{
    let mut events: Vec<State> = Vec::new();
    events.push(State::Start(estimates.len()));
    let mut i: usize = 0;
    while i < estimates.len()
        invariant
            i <= estimates@.len(),
            events@ =~= seq![State::Start(estimates@.len() as usize)]
                + steps_of(estimates@.take(i as int)),
        decreases estimates@.len() - i,
    {
        events.push(State::Step(estimates[i]));
        proof {
            assert(steps_of(estimates@.take(i + 1))
                =~= steps_of(estimates@.take(i as int)).push(State::Step(estimates@[i as int])));
        }
        i = i + 1;
    }
    events.push(State::End);
    proof {
        assert(estimates@.take(estimates@.len() as int) =~= estimates@);
        assert(events@ =~= protocol_events(estimates@));
    }
    events
}

} // verus!
