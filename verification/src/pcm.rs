use vstd::prelude::*;
use vstd::arithmetic::div_mod::{
    lemma_div_is_ordered, lemma_div_multiples_vanish, lemma_div_multiples_vanish_fancy,
    lemma_fundamental_div_mod, lemma_hoist_over_denominator,
};
use crate::config::{DecodeError, EngineError};

verus! {

/// One decoded PCM frame, as the decoder adapter hands it over: the
/// samples of all channels interleaved, the channel count, and the sample
/// rate the decoder discovered in the stream.
pub struct Frame {
    pub data: Vec<i16>,
    pub channels: usize,
    pub sample_rate: u32,
}

/// The downmixed signal of a whole run: one normalized mono sample per
/// input frame group, and the sample rate they were decoded at. Built once,
/// then only read.
pub struct PcmBuffer {
    pub samples: Vec<i32>,
    pub sample_rate: u32,
}

/// A mono sample stays within the range of the 16-bit samples it averages.
pub open spec fn sample_in_range(s: int) -> bool {
    -0x8000 <= s <= 0x7fff
}

pub open spec fn all_samples_in_range(s: Seq<int>) -> bool {
    forall|i: int| 0 <= i < s.len() ==> sample_in_range(#[trigger] s[i])
}

/// A buffer's samples read as mathematical integers.
pub open spec fn ints(s: Seq<i32>) -> Seq<int> {
    s.map_values(|x: i32| x as int)
}

impl PcmBuffer {
    pub open spec fn wf(self) -> bool {
        all_samples_in_range(ints(self.samples@))
    }
}

/// The sum of the `k` samples starting at `base`.
pub open spec fn group_sum(data: Seq<i16>, base: int, k: nat) -> int
    decreases k,
{
    if k == 0 {
        0
    } else {
        group_sum(data, base, (k - 1) as nat) + data[base + k - 1]
    }
}

/// The mono sample for frame group `g`: the average of its `channels`
/// samples, rounded toward negative infinity.
pub open spec fn group_avg(data: Seq<i16>, channels: nat, g: int) -> int {
    group_sum(data, g * channels, channels as nat) / channels as int
}

/// The downmix of an interleaved sample sequence: one averaged sample per
/// complete group of `channels` samples; a trailing incomplete group is
/// dropped. With one channel this is the identity.
pub open spec fn downmix(data: Seq<i16>, channels: nat) -> Seq<int> {
    Seq::new(data.len() / channels, |g: int| group_avg(data, channels, g))
}

proof fn lemma_group_sum_bounds(data: Seq<i16>, base: int, k: nat)
    requires
        0 <= base,
        base + k <= data.len(),
    ensures
        -0x8000 * k <= group_sum(data, base, k) <= 0x7fff * k,
    decreases k,
{
    if k > 0 {
        lemma_group_sum_bounds(data, base, (k - 1) as nat);
    }
}

/// Collapses interleaved multi-channel samples into one mono sample per
/// group: the per-group average, exactly as `downmix` states it.
#[verifier::loop_isolation(false)]
pub fn get_mono(data: &Vec<i16>, channels: usize) -> (mono: Vec<i32>)
    requires
        channels >= 1,
    ensures
        ints(mono@) == downmix(data@, channels as nat),
        all_samples_in_range(ints(mono@)),
{
    let groups: usize = data.len() / channels;
    let mut mono: Vec<i32> = Vec::new();
    let mut g: usize = 0;
    proof {
        lemma_fundamental_div_mod(data@.len() as int, channels as int);
    }
    while g < groups
        invariant
            channels >= 1,
            groups == data@.len() as int / channels as int,
            channels * groups <= data@.len(),
            g <= groups,
            mono@.len() == g,
            forall|j: int| 0 <= j < g ==> #[trigger] mono@[j] as int
                == group_avg(data@, channels as nat, j),
            forall|j: int| 0 <= j < g ==> sample_in_range(#[trigger] mono@[j] as int),
        decreases groups - g,
    {
        proof {
            assert(g * channels + channels <= data@.len()) by (nonlinear_arith)
                requires
                    g < groups,
                    channels >= 1,
                    channels * groups <= data@.len(),
            ;
        }
        let base: usize = g * channels;
        let mut sum: i128 = 0;
        let mut j: usize = 0;
        while j < channels
            invariant
                channels >= 1,
                base == g * channels,
                base + channels <= data@.len(),
                j <= channels,
                sum == group_sum(data@, base as int, j as nat),
                -0x8000 * j <= sum <= 0x7fff * j,
            decreases channels - j,
        {
            proof {
                lemma_group_sum_bounds(data@, base as int, (j + 1) as nat);
            }
            sum = sum + (data[base + j] as i128);
            j = j + 1;
        }
        let num: u128 = (sum + 0x8000 * (channels as i128)) as u128;
        let q: u128 = num / (channels as u128);
        proof {
            lemma_hoist_over_denominator(sum as int, 0x8000, channels as nat);
            assert(q == sum as int / channels as int + 0x8000);
            lemma_div_is_ordered(-0x8000 * channels, sum as int, channels as int);
            lemma_div_is_ordered(sum as int, 0x7fff * channels, channels as int);
            lemma_div_multiples_vanish(-0x8000, channels as int);
            lemma_div_multiples_vanish(0x7fff, channels as int);
        }
        let avg: i32 = ((q as i64) - 0x8000) as i32;
        proof {
            assert(avg as int == group_avg(data@, channels as nat, g as int));
        }
        mono.push(avg);
        g = g + 1;
    }
    proof {
        assert(ints(mono@) =~= downmix(data@, channels as nat));
    }
    mono
}

/// The whole run's mono signal: the downmixes of all frames, in decoding
/// order, joined into one sequence.
pub open spec fn music_of(frames: Seq<Frame>) -> Seq<int>
    decreases frames.len(),
{
    if frames.len() == 0 {
        Seq::empty()
    } else {
        music_of(frames.drop_last())
            + downmix(frames.last().data@, frames.last().channels as nat)
    }
}

/// The sample rate of a decoded stream: the rate the decoder reported
/// last, or 0 where no frame was decoded.
pub open spec fn rate_of(frames: Seq<Frame>) -> u32 {
    if frames.len() == 0 {
        0
    } else {
        frames.last().sample_rate
    }
}

/// Every frame carries at least one channel, so each can be downmixed.
pub open spec fn frames_decodable(frames: Seq<Frame>) -> bool {
    forall|i: int| 0 <= i < frames.len() ==> #[trigger] frames[i].channels >= 1
}

/// Ingests a decoded stream: downmixes each frame and joins the results
/// into one shared, read-only signal. A frame that declares zero channels
/// makes the whole stream undecodable.
#[verifier::loop_isolation(false)]
pub fn get_music(frames: &Vec<Frame>) -> (r: Result<PcmBuffer, EngineError>)
    ensures
        r is Ok <==> frames_decodable(frames@),
        r matches Ok(b) ==> {
            &&& ints(b.samples@) == music_of(frames@)
            &&& b.sample_rate == rate_of(frames@)
            &&& b.wf()
        },
        !frames_decodable(frames@) ==> r == Err::<PcmBuffer, EngineError>(
            EngineError::Decode(DecodeError::NoChannels),
        ),
{
    let mut music: Vec<i32> = Vec::new();
    let mut rate: u32 = 0;
    let mut i: usize = 0;
    while i < frames.len()
        invariant
            i <= frames@.len(),
            ints(music@) == music_of(frames@.take(i as int)),
            rate == rate_of(frames@.take(i as int)),
            all_samples_in_range(ints(music@)),
            forall|k: int| 0 <= k < i ==> #[trigger] frames@[k].channels >= 1,
        decreases frames@.len() - i,
    {
        let frame = &frames[i];
        if frame.channels == 0 {
            return Err(EngineError::Decode(DecodeError::NoChannels));
        }
        let mut mono = get_mono(&frame.data, frame.channels);
        proof {
            assert(frames@.take(i + 1).drop_last() =~= frames@.take(i as int));
            assert(ints(music@ + mono@) =~= ints(music@) + ints(mono@));
        }
        music.append(&mut mono);
        rate = frame.sample_rate;
        i = i + 1;
    }
    proof {
        assert(frames@.take(frames@.len() as int) =~= frames@);
    }
    Ok(PcmBuffer { samples: music, sample_rate: rate })
}

/// A stereo signal whose left and right channels are the same sequence:
/// every sample appears twice in a row.
pub open spec fn interleave_stereo(mono: Seq<i16>) -> Seq<i16> {
    Seq::new(2 * mono.len(), |i: int| mono[i / 2])
}

/// Downmix identity: a stereo signal with identical left and right
/// channels downmixes to the same sample sequence as the mono signal
/// itself, sample for sample.
pub proof fn lemma_downmix_identity(mono: Seq<i16>)
    ensures
        downmix(interleave_stereo(mono), 2) == downmix(mono, 1),
{
    let st = interleave_stereo(mono);
    lemma_div_multiples_vanish(mono.len() as int, 2);
    assert(st.len() / 2 == mono.len());
    assert forall|g: int| 0 <= g < mono.len() implies group_avg(st, 2, g)
        == group_avg(mono, 1, g) by {
        reveal_with_fuel(group_sum, 3);
        lemma_div_multiples_vanish(g, 2);
        lemma_div_multiples_vanish_fancy(g, 1, 2);
        assert(st[2 * g] == mono[g]);
        assert(st[2 * g + 1] == mono[g]);
        assert(group_sum(st, 2 * g, 2) == st[2 * g] + st[2 * g + 1]);
        assert(group_sum(mono, g, 1) == mono[g]);
        lemma_div_multiples_vanish(mono[g] as int, 2);
        assert((mono[g] + mono[g]) / 2 == mono[g] as int);
    };
    assert(downmix(st, 2) =~= downmix(mono, 1));
}

} // verus!
