// Streams as the backend offers them: what a device supports, what a stream
// is configured with, and what a stream can be asked to do.

use vstd::prelude::*;

verus! {

/// The two ends of a connection: the capturing stream and the playing one.
#[derive(Clone, Copy, Debug, PartialEq, Eq, Structural)]
pub enum StreamSide {
    Source,
    Sink,
}

/// What the backend can be asked to do with a constructed stream.
#[derive(Clone, Copy, Debug, PartialEq, Eq, Structural)]
pub enum StreamOp {
    Play,
    Pause,
}

/// One request to the audio backend.
#[derive(Clone, Copy, Debug, PartialEq, Eq, Structural)]
pub struct StreamCommand {
    pub side: StreamSide,
    pub op: StreamOp,
}

/// A range of configurations that a device supports for one direction.
#[derive(Clone, Copy, Debug, PartialEq, Eq, Structural)]
pub struct SupportedConfigRange {
    pub channels: u16,
    pub min_sample_rate: u32,
    pub max_sample_rate: u32,
}

/// A concrete configuration to build a stream with.
#[derive(Clone, Copy, Debug, PartialEq, Eq, Structural)]
pub struct StreamConfig {
    pub channels: u16,
    pub sample_rate: u32,
}

impl SupportedConfigRange {
    /// Whether the range reaches `sample_rate`.
    pub open spec fn contains_rate(self, sample_rate: u32) -> bool {
        self.min_sample_rate <= sample_rate <= self.max_sample_rate
    }

    /// Whether a stream of this range can carry channel `channel` at
    /// `sample_rate`: the channel index lies below the channel count and the
    /// rate within the range.
    pub open spec fn supports(self, channel: u16, sample_rate: u32) -> bool {
        self.channels > channel && self.contains_rate(sample_rate)
    }

    /// The configuration of this range at `sample_rate`.
    pub open spec fn at_rate(self, sample_rate: u32) -> StreamConfig {
        StreamConfig { channels: self.channels, sample_rate }
    }

    /// The configuration of this range at `sample_rate`.
    pub fn with_sample_rate(&self, sample_rate: u32) -> (config: StreamConfig)
        ensures
            config == self.at_rate(sample_rate),
    {
        StreamConfig { channels: self.channels, sample_rate }
    }
}

/// `i` is the first range of `ranges` that supports `channel` at `sample_rate`.
pub open spec fn is_first_fit(
    ranges: Seq<SupportedConfigRange>,
    channel: u16,
    sample_rate: u32,
    i: int,
) -> bool {
    &&& 0 <= i < ranges.len()
    &&& ranges[i].supports(channel, sample_rate)
    &&& forall|j: int| 0 <= j < i ==> !(#[trigger] ranges[j]).supports(channel, sample_rate)
}

/// No range of `ranges` supports `channel` at `sample_rate`.
pub open spec fn none_fits(ranges: Seq<SupportedConfigRange>, channel: u16, sample_rate: u32) -> bool {
    forall|j: int| 0 <= j < ranges.len() ==> !(#[trigger] ranges[j]).supports(channel, sample_rate)
}

/// First fit: the earliest enumerated range that supports `channel` at
/// `sample_rate` decides the configuration; later ranges are never looked at.
pub fn first_fit(ranges: &Vec<SupportedConfigRange>, channel: u16, sample_rate: u32) -> (found:
    Option<StreamConfig>)
    ensures
        match found {
            Some(config) => exists|i: int|
                is_first_fit(ranges@, channel, sample_rate, i) && config == (
                #[trigger] ranges@[i]).at_rate(sample_rate),
            None => none_fits(ranges@, channel, sample_rate),
        },
{
    let mut i: usize = 0;
    while i < ranges.len()
        invariant
            i <= ranges.len(),
            forall|j: int| 0 <= j < i ==> !(#[trigger] ranges@[j]).supports(channel, sample_rate),
        decreases ranges.len() - i,
    {
        let range = &ranges[i];
        if range.channels > channel && range.min_sample_rate <= sample_rate && sample_rate
            <= range.max_sample_rate {
            assert(is_first_fit(ranges@, channel, sample_rate, i as int));
            return Some(range.with_sample_rate(sample_rate));
        }
        i += 1;
    }
    None
}

/// A channel index that no range reaches finds no configuration, whatever
/// the sample rate.
pub proof fn lemma_channel_beyond_every_range(
    ranges: Seq<SupportedConfigRange>,
    channel: u16,
    sample_rate: u32,
)
    requires
        forall|i: int| 0 <= i < ranges.len() ==> channel >= (#[trigger] ranges[i]).channels,
    ensures
        none_fits(ranges, channel, sample_rate),
        forall|i: int| !is_first_fit(ranges, channel, sample_rate, i),
{
}

/// At most one range is the first fit.
pub proof fn lemma_first_fit_unique(
    ranges: Seq<SupportedConfigRange>,
    channel: u16,
    sample_rate: u32,
    i: int,
    j: int,
)
    requires
        is_first_fit(ranges, channel, sample_rate, i),
        is_first_fit(ranges, channel, sample_rate, j),
    ensures
        i == j,
{
    if i < j {
        assert(!ranges[i].supports(channel, sample_rate));
    } else if j < i {
        assert(!ranges[j].supports(channel, sample_rate));
    }
}

} // verus!
