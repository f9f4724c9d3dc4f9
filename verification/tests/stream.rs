use patchbay::connection::{Connection, SAMPLE_RATE};
use patchbay::error::PatchbayError;
use patchbay::helpers::{
    find_compatible_stream_configs, find_device, widest, widest_config, DeviceChoice, HostChoice,
};
use patchbay::stream::{first_fit, StreamConfig, StreamSide, SupportedConfigRange};
use patchbay::system::{find_host, find_input_device, find_output_device, position_of};
use patchbay::text::same_text;

fn range(channels: u16, min: u32, max: u32) -> SupportedConfigRange {
    SupportedConfigRange { channels, min_sample_rate: min, max_sample_rate: max }
}

fn names(listed: &[Option<&str>]) -> Vec<Option<String>> {
    listed.iter().map(|n| n.map(|s| s.to_string())).collect()
}

#[test]
fn first_fit_takes_the_earliest_range_not_the_best() {
    let ranges = vec![range(1, 44100, 48000), range(2, 44100, 96000), range(8, 48000, 48000)];
    assert_eq!(first_fit(&ranges, 1, 48000), Some(StreamConfig { channels: 2, sample_rate: 48000 }));
    assert_eq!(first_fit(&ranges, 0, 48000), Some(StreamConfig { channels: 1, sample_rate: 48000 }));
    assert_eq!(first_fit(&ranges, 2, 48000), Some(StreamConfig { channels: 8, sample_rate: 48000 }));
}

#[test]
fn first_fit_needs_the_rate_within_the_range() {
    let ranges = vec![range(2, 8000, 44100), range(2, 48001, 96000)];
    assert_eq!(first_fit(&ranges, 0, 48000), None);
    assert_eq!(first_fit(&ranges, 0, 44100), Some(StreamConfig { channels: 2, sample_rate: 44100 }));
    assert_eq!(first_fit(&ranges, 0, 48001), Some(StreamConfig { channels: 2, sample_rate: 48001 }));
}

#[test]
fn a_channel_index_equal_to_the_channel_count_does_not_fit() {
    let ranges = vec![range(2, 44100, 48000)];
    assert_eq!(first_fit(&ranges, 2, 48000), None);
    assert_eq!(first_fit(&ranges, 1, 48000), Some(StreamConfig { channels: 2, sample_rate: 48000 }));
    assert_eq!(first_fit(&Vec::new(), 0, 48000), None);
}

#[test]
fn negotiation_fails_for_a_source_channel_beyond_every_range() {
    let source = vec![range(1, 44100, 48000), range(2, 44100, 48000)];
    let sink = vec![range(2, 44100, 48000)];
    assert_eq!(
        Connection::find_matching_configs(&source, &sink, 2, 0),
        Err(PatchbayError::NoSupportedConfig(StreamSide::Source))
    );
    assert_eq!(
        Connection::find_matching_configs(&source, &sink, 7, 9),
        Err(PatchbayError::NoSupportedConfig(StreamSide::Source))
    );
}

#[test]
fn negotiation_fails_for_the_sink_only_after_the_source_fits() {
    let source = vec![range(2, 44100, 48000)];
    let sink = vec![range(2, 44100, 48000)];
    assert_eq!(
        Connection::find_matching_configs(&source, &sink, 1, 2),
        Err(PatchbayError::NoSupportedConfig(StreamSide::Sink))
    );
}

#[test]
fn negotiation_settles_both_sides_at_the_sample_rate() {
    let source = vec![range(1, 8000, 16000), range(4, 44100, 48000)];
    let sink = vec![range(2, 48000, 48000), range(6, 44100, 192000)];
    assert_eq!(
        Connection::find_matching_configs(&source, &sink, 0, 1),
        Ok((
            StreamConfig { channels: 4, sample_rate: SAMPLE_RATE },
            StreamConfig { channels: 2, sample_rate: SAMPLE_RATE }
        ))
    );
}

#[test]
fn widest_is_the_largest_channel_count() {
    assert_eq!(widest(&Vec::new()), None);
    assert_eq!(widest(&vec![range(2, 1, 2), range(8, 1, 2), range(4, 1, 2)]), Some(8));
}

#[test]
fn widest_config_looks_only_at_the_ranges_with_most_channels() {
    let ranges = vec![range(2, 44100, 48000), range(8, 8000, 16000), range(8, 44100, 96000)];
    assert_eq!(widest_config(&ranges, 48000), Some(StreamConfig { channels: 8, sample_rate: 48000 }));
    assert_eq!(widest_config(&ranges, 8000), Some(StreamConfig { channels: 8, sample_rate: 8000 }));
    let narrow_only = vec![range(2, 44100, 48000), range(8, 8000, 16000)];
    assert_eq!(widest_config(&narrow_only, 48000), None);
}

#[test]
fn compatible_configs_look_at_the_source_first() {
    let some = vec![range(2, 44100, 48000)];
    let none: Vec<SupportedConfigRange> = Vec::new();
    let off_rate = vec![range(2, 8000, 16000)];
    assert_eq!(
        find_compatible_stream_configs(&none, &none, 48000),
        Err(PatchbayError::NoSupportedConfig(StreamSide::Source))
    );
    assert_eq!(
        find_compatible_stream_configs(&off_rate, &none, 48000),
        Err(PatchbayError::NoSupportedConfig(StreamSide::Sink))
    );
    assert_eq!(
        find_compatible_stream_configs(&off_rate, &off_rate, 48000),
        Err(PatchbayError::NoSupportedConfig(StreamSide::Source))
    );
    assert_eq!(
        find_compatible_stream_configs(&some, &off_rate, 48000),
        Err(PatchbayError::NoSupportedConfig(StreamSide::Sink))
    );
    assert_eq!(
        find_compatible_stream_configs(&some, &some, 44100),
        Ok((
            StreamConfig { channels: 2, sample_rate: 44100 },
            StreamConfig { channels: 2, sample_rate: 44100 }
        ))
    );
}

#[test]
fn texts_are_compared_character_by_character() {
    assert!(same_text("", ""));
    assert!(same_text("default", "default"));
    assert!(!same_text("default", "default.in"));
    assert!(!same_text("default.in", "default"));
    assert!(!same_text("ä", "a"));
    assert!(same_text("Gerät ä", "Gerät ä"));
}

#[test]
fn the_first_device_of_a_name_is_found() {
    let listed = names(&[Some("a"), None, Some("b"), Some("a"), Some("b")]);
    assert_eq!(position_of(&listed, "b"), Some(2));
    assert_eq!(position_of(&listed, "a"), Some(0));
    assert_eq!(position_of(&listed, "c"), None);
    assert_eq!(position_of(&listed, ""), None);
}

#[test]
fn lookups_name_what_is_missing() {
    let listed = names(&[Some("ALSA"), Some("JACK")]);
    assert_eq!(find_host(&listed, "JACK"), Ok(1));
    assert_eq!(find_host(&listed, "jack"), Err(PatchbayError::HostNotFound));
    assert_eq!(find_input_device(&listed, "JACK"), Ok(1));
    assert_eq!(
        find_input_device(&listed, "mic"),
        Err(PatchbayError::DeviceNotFound(StreamSide::Source))
    );
    assert_eq!(find_output_device(&listed, "ALSA"), Ok(0));
    assert_eq!(
        find_output_device(&listed, "speaker"),
        Err(PatchbayError::DeviceNotFound(StreamSide::Sink))
    );
}

#[test]
fn default_names_stand_for_the_default_host_and_devices() {
    let listed = names(&[Some("default"), Some("default.in"), Some("hw:0")]);
    assert_eq!(patchbay::helpers::find_host(&listed, "default"), Ok(HostChoice::Default));
    assert_eq!(patchbay::helpers::find_host(&listed, "hw:0"), Ok(HostChoice::Listed(2)));
    assert_eq!(patchbay::helpers::find_host(&listed, "hw:1"), Err(PatchbayError::HostNotFound));
    assert_eq!(find_device(&listed, "default.in"), Ok(DeviceChoice::DefaultInput));
    assert_eq!(find_device(&listed, "default.out"), Ok(DeviceChoice::DefaultOutput));
    assert_eq!(find_device(&listed, "default"), Ok(DeviceChoice::Listed(0)));
    assert_eq!(
        find_device(&listed, "hw:1"),
        Err(PatchbayError::DeviceNotFound(StreamSide::Sink))
    );
}

#[test]
fn a_range_gives_its_channels_to_the_configuration() {
    assert_eq!(
        range(6, 8000, 96000).with_sample_rate(22050),
        StreamConfig { channels: 6, sample_rate: 22050 }
    );
}
