// Choosing hosts, devices and configurations by name and by width, with the
// backend's defaults.

use crate::error::PatchbayError;
use crate::stream::{StreamConfig, StreamSide, SupportedConfigRange};
use crate::system::{is_first_named, none_named, position_of};
use crate::text::same_text;
use vstd::prelude::*;

verus! {

/// The host that a name stands for.
#[derive(Clone, Copy, Debug, PartialEq, Eq, Structural)]
pub enum HostChoice {
    /// The host that the backend picks by default.
    Default,
    /// The host at this place among the available ones.
    Listed(usize),
}

/// The device that a name stands for.
#[derive(Clone, Copy, Debug, PartialEq, Eq, Structural)]
pub enum DeviceChoice {
    /// The input device that the host picks by default.
    DefaultInput,
    /// The output device that the host picks by default.
    DefaultOutput,
    /// The device at this place among the host's output devices.
    Listed(usize),
}

/// Resolves a host name: `default` stands for the backend's default host,
/// any other name for the first available host that is called so.
pub fn find_host(hosts: &Vec<Option<String>>, host_name: &str) -> (found: Result<
    HostChoice,
    PatchbayError,
>)
    ensures
        host_name@ == "default"@ ==> found == Ok::<HostChoice, PatchbayError>(HostChoice::Default),
        host_name@ != "default"@ ==> match found {
            Ok(choice) => choice matches HostChoice::Listed(i) && is_first_named(
                hosts@,
                host_name@,
                i as int,
            ),
            Err(e) => e == PatchbayError::HostNotFound && none_named(hosts@, host_name@),
        },
{
    if same_text(host_name, "default") {
        Ok(HostChoice::Default)
    } else {
        match position_of(hosts, host_name) {
            Some(i) => Ok(HostChoice::Listed(i)),
            None => Err(PatchbayError::HostNotFound),
        }
    }
}

/// Resolves a device name: `default.in` and `default.out` stand for the
/// host's default devices, any other name for the first output device that
/// is called so.
pub fn find_device(output_devices: &Vec<Option<String>>, device_name: &str) -> (found: Result<
    DeviceChoice,
    PatchbayError,
>)
    ensures
        device_name@ == "default.in"@ ==> found == Ok::<DeviceChoice, PatchbayError>(
            DeviceChoice::DefaultInput,
        ),
        device_name@ != "default.in"@ && device_name@ == "default.out"@ ==> found == Ok::<
            DeviceChoice,
            PatchbayError,
        >(DeviceChoice::DefaultOutput),
        device_name@ != "default.in"@ && device_name@ != "default.out"@ ==> match found {
            Ok(choice) => choice matches DeviceChoice::Listed(i) && is_first_named(
                output_devices@,
                device_name@,
                i as int,
            ),
            Err(e) => e == PatchbayError::DeviceNotFound(StreamSide::Sink) && none_named(
                output_devices@,
                device_name@,
            ),
        },
{
    if same_text(device_name, "default.in") {
        Ok(DeviceChoice::DefaultInput)
    } else if same_text(device_name, "default.out") {
        Ok(DeviceChoice::DefaultOutput)
    } else {
        match position_of(output_devices, device_name) {
            Some(i) => Ok(DeviceChoice::Listed(i)),
            None => Err(PatchbayError::DeviceNotFound(StreamSide::Sink)),
        }
    }
}

/// `channels` is the largest channel count among `ranges`.
pub open spec fn is_widest(ranges: Seq<SupportedConfigRange>, channels: u16) -> bool {
    &&& exists|i: int| 0 <= i < ranges.len() && (#[trigger] ranges[i]).channels == channels
    &&& forall|j: int| 0 <= j < ranges.len() ==> (#[trigger] ranges[j]).channels <= channels
}

/// The range at `i` has the largest channel count and reaches `sample_rate`.
pub open spec fn is_widest_at_rate(
    ranges: Seq<SupportedConfigRange>,
    sample_rate: u32,
    i: int,
) -> bool {
    &&& 0 <= i < ranges.len()
    &&& is_widest(ranges, ranges[i].channels)
    &&& ranges[i].contains_rate(sample_rate)
}

/// `i` is the first range with the largest channel count that reaches
/// `sample_rate`.
pub open spec fn is_first_widest_at_rate(
    ranges: Seq<SupportedConfigRange>,
    sample_rate: u32,
    i: int,
) -> bool {
    &&& is_widest_at_rate(ranges, sample_rate, i)
    &&& forall|j: int| 0 <= j < i ==> !#[trigger] is_widest_at_rate(ranges, sample_rate, j)
}

/// No range with the largest channel count reaches `sample_rate`.
pub open spec fn no_widest_at_rate(ranges: Seq<SupportedConfigRange>, sample_rate: u32) -> bool {
    forall|j: int| 0 <= j < ranges.len() ==> !#[trigger] is_widest_at_rate(ranges, sample_rate, j)
}

/// The largest channel count among `ranges`, if there is a range at all.
pub fn widest(ranges: &Vec<SupportedConfigRange>) -> (found: Option<u16>)
    ensures
        match found {
            Some(channels) => is_widest(ranges@, channels),
            None => ranges@.len() == 0,
        },
{
    if ranges.len() == 0 {
        return None;
    }
    let mut most: u16 = ranges[0].channels;
    let mut i: usize = 1;
    while i < ranges.len()
        invariant
            1 <= i <= ranges.len(),
            exists|k: int| 0 <= k < i && (#[trigger] ranges@[k]).channels == most,
            forall|j: int| 0 <= j < i ==> (#[trigger] ranges@[j]).channels <= most,
        decreases ranges.len() - i,
    {
        if ranges[i].channels > most {
            most = ranges[i].channels;
        }
        i += 1;
    }
    Some(most)
}

/// The configuration of the widest range of a device at `sample_rate`: of
/// the ranges with the largest channel count, the first that reaches the
/// rate.
pub fn widest_config(ranges: &Vec<SupportedConfigRange>, sample_rate: u32) -> (found: Option<
    StreamConfig,
>)
    ensures
        match found {
            Some(config) => exists|i: int|
                is_first_widest_at_rate(ranges@, sample_rate, i) && config == (
                #[trigger] ranges@[i]).at_rate(sample_rate),
            None => no_widest_at_rate(ranges@, sample_rate),
        },
{
    let most = match widest(ranges) {
        Some(most) => most,
        None => {
            return None;
        },
    };
    let mut i: usize = 0;
    while i < ranges.len()
        invariant
            i <= ranges.len(),
            is_widest(ranges@, most),
            forall|j: int| 0 <= j < i ==> !#[trigger] is_widest_at_rate(ranges@, sample_rate, j),
        decreases ranges.len() - i,
    {
        let range = &ranges[i];
        if range.channels == most && range.min_sample_rate <= sample_rate && sample_rate
            <= range.max_sample_rate {
            assert(is_first_widest_at_rate(ranges@, sample_rate, i as int));
            return Some(range.with_sample_rate(sample_rate));
        }
        proof {
            if is_widest_at_rate(ranges@, sample_rate, i as int) {
                lemma_widest_is_unique(ranges@, most, ranges@[i as int].channels);
            }
        }
        i += 1;
    }
    None
}

/// There is one largest channel count.
pub proof fn lemma_widest_is_unique(ranges: Seq<SupportedConfigRange>, a: u16, b: u16)
    requires
        is_widest(ranges, a),
        is_widest(ranges, b),
    ensures
        a == b,
{
    let i = choose|i: int| 0 <= i < ranges.len() && (#[trigger] ranges[i]).channels == a;
    let j = choose|j: int| 0 <= j < ranges.len() && (#[trigger] ranges[j]).channels == b;
    assert(ranges[i].channels <= b);
    assert(ranges[j].channels <= a);
}

/// Picks for both devices the configuration with the most channels that
/// runs at `sample_rate`. The source is looked at before the sink, and
/// that a device has a range at all before the rate.
pub fn find_compatible_stream_configs(
    source_ranges: &Vec<SupportedConfigRange>,
    sink_ranges: &Vec<SupportedConfigRange>,
    sample_rate: u32,
) -> (found: Result<(StreamConfig, StreamConfig), PatchbayError>)
    ensures
        match found {
            Ok(configs) => {
                &&& exists|i: int|
                    is_first_widest_at_rate(source_ranges@, sample_rate, i) && configs.0 == (
                    #[trigger] source_ranges@[i]).at_rate(sample_rate)
                &&& exists|i: int|
                    is_first_widest_at_rate(sink_ranges@, sample_rate, i) && configs.1 == (
                    #[trigger] sink_ranges@[i]).at_rate(sample_rate)
            },
            Err(e) => {
                ||| e == PatchbayError::NoSupportedConfig(StreamSide::Source) && (
                source_ranges@.len() == 0 || (sink_ranges@.len() > 0 && no_widest_at_rate(
                    source_ranges@,
                    sample_rate,
                )))
                ||| e == PatchbayError::NoSupportedConfig(StreamSide::Sink) && source_ranges@.len()
                    > 0 && (sink_ranges@.len() == 0 || (!no_widest_at_rate(
                    source_ranges@,
                    sample_rate,
                ) && no_widest_at_rate(sink_ranges@, sample_rate)))
            },
        },
{
    if source_ranges.len() == 0 {
        return Err(PatchbayError::NoSupportedConfig(StreamSide::Source));
    }
    if sink_ranges.len() == 0 {
        return Err(PatchbayError::NoSupportedConfig(StreamSide::Sink));
    }
    let source_config = match widest_config(source_ranges, sample_rate) {
        Some(config) => config,
        None => {
            return Err(PatchbayError::NoSupportedConfig(StreamSide::Source));
        },
    };
    let sink_config = match widest_config(sink_ranges, sample_rate) {
        Some(config) => config,
        None => {
            return Err(PatchbayError::NoSupportedConfig(StreamSide::Sink));
        },
    };
    Ok((source_config, sink_config))
}

} // verus!
