use patchbay::connection::{Connection, ConnectionMetadata, Devices, LATENCY_MS, SAMPLE_RATE};
use patchbay::text::{bool_text, decimal_text};
use patchbay::error::PatchbayError;
use patchbay::identity::ConnectionId;
use patchbay::stream::{StreamCommand, StreamConfig, StreamOp, StreamSide, SupportedConfigRange};
use patchbay::transfer::{playback, split, take_samples, wire};

fn range(channels: u16) -> SupportedConfigRange {
    SupportedConfigRange { channels, min_sample_rate: 44100, max_sample_rate: 96000 }
}

fn devices(source: u16, sink: u16) -> Devices {
    Devices { source: Some(vec![range(source)]), sink: Some(vec![range(sink)]) }
}

fn connect(source_channel: u16, sink_channel: u16) -> Connection {
    Connection::new(
        "host".to_string(),
        "mic".to_string(),
        "speaker".to_string(),
        source_channel,
        sink_channel,
        Some(&devices(2, 6)),
    )
    .ok()
    .unwrap()
    .0
}

#[test]
fn a_new_connection_carries_its_metadata_and_what_was_negotiated() {
    let connection = connect(1, 4);
    assert_eq!(
        *connection.metadata(),
        ConnectionMetadata {
            host_name: "host".to_string(),
            source_name: "mic".to_string(),
            sink_name: "speaker".to_string(),
            source_channel: 1,
            sink_channel: 4,
        }
    );
    assert_eq!(
        connection.config(StreamSide::Source),
        StreamConfig { channels: 2, sample_rate: SAMPLE_RATE }
    );
    assert_eq!(
        connection.config(StreamSide::Sink),
        StreamConfig { channels: 6, sample_rate: SAMPLE_RATE }
    );
    assert!(connection.is_halted());
    assert!(!connection.is_running());
}

#[test]
fn a_new_connection_is_not_made_without_a_configuration() {
    let made = Connection::new(
        "host".to_string(),
        "mic".to_string(),
        "speaker".to_string(),
        2,
        0,
        Some(&devices(2, 6)),
    );
    assert!(matches!(made, Err(PatchbayError::NoSupportedConfig(StreamSide::Source))));
    let made = Connection::new(
        "host".to_string(),
        "mic".to_string(),
        "speaker".to_string(),
        0,
        6,
        Some(&devices(2, 6)),
    );
    assert!(matches!(made, Err(PatchbayError::NoSupportedConfig(StreamSide::Sink))));
}

#[test]
fn the_buffer_of_a_new_connection_is_sized_for_the_wider_stream() {
    let (_connection, _producer, mut consumer) = Connection::new(
        "host".to_string(),
        "mic".to_string(),
        "speaker".to_string(),
        0,
        0,
        Some(&devices(2, 6)),
    )
    .ok()
    .unwrap();
    let frames = (LATENCY_MS * SAMPLE_RATE / 1000) as usize;
    let half = frames * 6;
    let taken = take_samples(&mut consumer, half + 1);
    assert_eq!(taken[..half], vec![Some(0); half][..]);
    assert_eq!(taken[half], None);
}

#[test]
fn the_first_sink_callback_after_construction_plays_silence() {
    let (_connection, _producer, mut consumer) = Connection::new(
        "host".to_string(),
        "mic".to_string(),
        "speaker".to_string(),
        0,
        5,
        Some(&devices(2, 6)),
    )
    .ok()
    .unwrap();
    let mut block = vec![5u32; 6 * 96];
    assert_eq!(playback(&mut consumer, &mut block, 5, 6), 0);
    assert!(block.iter().enumerate().all(|(i, s)| *s == if i % 6 == 5 { 0 } else { 5 }));
}

#[test]
fn a_connection_is_rebuilt_from_its_metadata() {
    let metadata = ConnectionMetadata {
        host_name: "h".to_string(),
        source_name: "a".to_string(),
        sink_name: "b".to_string(),
        source_channel: 0,
        sink_channel: 1,
    };
    let (connection, _, _) =
        Connection::from_metadata(metadata.clone(), Some(&devices(1, 2))).ok().unwrap();
    assert_eq!(*connection.metadata(), metadata);
    assert!(connection.is_halted());
    let without_ranges = Devices { source: Some(vec![]), sink: Some(vec![range(2)]) };
    assert!(matches!(
        Connection::from_metadata(metadata, Some(&without_ranges)),
        Err(PatchbayError::NoSupportedConfig(StreamSide::Source))
    ));
}

#[test]
fn the_sink_is_asked_before_the_source() {
    assert_eq!(
        Connection::sequence(StreamOp::Play),
        (
            StreamCommand { side: StreamSide::Sink, op: StreamOp::Play },
            StreamCommand { side: StreamSide::Source, op: StreamOp::Play }
        )
    );
    assert_eq!(
        Connection::sequence(StreamOp::Pause),
        (
            StreamCommand { side: StreamSide::Sink, op: StreamOp::Pause },
            StreamCommand { side: StreamSide::Source, op: StreamOp::Pause }
        )
    );
}

#[test]
fn halting_a_new_connection_leaves_both_streams_paused() {
    let mut connection = connect(0, 0);
    assert_eq!(connection.halt(None), Ok(()));
    assert!(connection.is_halted());
}

#[test]
fn halting_twice_is_halting_once() {
    let mut connection = connect(0, 0);
    assert_eq!(connection.run(None), Ok(()));
    assert!(connection.is_running());
    assert_eq!(connection.halt(None), Ok(()));
    assert!(connection.is_halted());
    assert_eq!(connection.halt(None), Ok(()));
    assert!(connection.is_halted());
}

#[test]
fn a_refusing_sink_leaves_the_connection_as_it_was() {
    let mut connection = connect(0, 0);
    assert_eq!(
        connection.run(Some(StreamSide::Sink)),
        Err(PatchbayError::StreamStartError(StreamSide::Sink))
    );
    assert!(connection.is_halted());
    assert_eq!(connection.run(None), Ok(()));
    assert_eq!(
        connection.halt(Some(StreamSide::Sink)),
        Err(PatchbayError::StreamStopError(StreamSide::Sink))
    );
    assert!(connection.is_running());
}

#[test]
fn a_refusing_source_leaves_the_sink_changed() {
    let mut connection = connect(0, 0);
    assert_eq!(
        connection.run(Some(StreamSide::Source)),
        Err(PatchbayError::StreamStartError(StreamSide::Source))
    );
    assert!(!connection.is_halted());
    assert!(!connection.is_running());
    assert_eq!(connection.halt(None), Ok(()));
    assert!(connection.is_halted());
    assert_eq!(connection.run(None), Ok(()));
    assert_eq!(
        connection.halt(Some(StreamSide::Source)),
        Err(PatchbayError::StreamStopError(StreamSide::Source))
    );
    assert!(!connection.is_halted());
    assert!(!connection.is_running());
}

#[test]
fn a_connection_is_shown_with_rate_and_latency() {
    assert_eq!(connect(1, 4).to_string(), "mic(1) -> speaker(4) [host; 48000Hz; 2ms] ");
}

#[test]
fn numbers_are_written_in_decimal() {
    for n in [0u32, 1, 9, 10, 11, 99, 100, 101, 48000, 65535, 1_000_000, u32::MAX] {
        assert_eq!(decimal_text(n), format!("{}", n));
    }
    assert_eq!(bool_text(true), "true");
    assert_eq!(bool_text(false), "false");
}

fn failure(made: Result<(Connection, patchbay::transfer::SampleProducer, patchbay::transfer::SampleConsumer), PatchbayError>) -> PatchbayError {
    match made {
        Ok(_) => panic!("a connection was made"),
        Err(e) => e,
    }
}

fn open(source_channel: u16, sink_channel: u16, found: Option<&Devices>) -> PatchbayError {
    failure(Connection::new(
        "host".to_string(),
        "mic".to_string(),
        "speaker".to_string(),
        source_channel,
        sink_channel,
        found,
    ))
}

#[test]
fn what_is_missing_is_reported_before_anything_is_negotiated() {
    let neither = Devices { source: None, sink: None };
    let no_source = Devices { source: None, sink: Some(vec![]) };
    let no_sink = Devices { source: Some(vec![]), sink: None };
    assert_eq!(open(9, 9, None), PatchbayError::HostNotFound);
    assert_eq!(open(9, 9, Some(&neither)), PatchbayError::DeviceNotFound(StreamSide::Source));
    assert_eq!(open(9, 9, Some(&no_source)), PatchbayError::DeviceNotFound(StreamSide::Source));
    assert_eq!(open(9, 9, Some(&no_sink)), PatchbayError::DeviceNotFound(StreamSide::Sink));
    assert_eq!(
        open(9, 9, Some(&devices(2, 6))),
        PatchbayError::NoSupportedConfig(StreamSide::Source)
    );
    assert_eq!(open(1, 9, Some(&devices(2, 6))), PatchbayError::NoSupportedConfig(StreamSide::Sink));
}

#[test]
fn a_connection_is_assembled_around_the_buffer_that_was_wired() {
    let metadata = || ConnectionMetadata {
        host_name: "h".to_string(),
        source_name: "a".to_string(),
        sink_name: "b".to_string(),
        source_channel: 1,
        sink_channel: 0,
    };
    let configs = (
        StreamConfig { channels: 2, sample_rate: 44100 },
        StreamConfig { channels: 1, sample_rate: 44100 },
    );
    let (connection, _producer, mut consumer) =
        Connection::assemble(metadata(), configs, wire(1000, 2, 2)).ok().unwrap();
    assert_eq!(*connection.metadata(), metadata());
    assert_eq!(connection.config(StreamSide::Source), configs.0);
    assert_eq!(connection.config(StreamSide::Sink), configs.1);
    assert!(connection.is_halted());
    assert_eq!(take_samples(&mut consumer, 5), vec![Some(0), Some(0), Some(0), Some(0), None]);
    assert_eq!(
        failure(Connection::assemble(metadata(), configs, wire(1000, 0, 2))),
        PatchbayError::InvalidCapacity
    );
    assert_eq!(
        failure(Connection::assemble(
            metadata(),
            configs,
            split(Err(PatchbayError::BufferUnavailable))
        )),
        PatchbayError::BufferUnavailable
    );
}

#[test]
fn a_connection_that_cannot_be_restored_tells_what_stood_in_the_way() {
    let metadata = || ConnectionMetadata {
        host_name: "h".to_string(),
        source_name: "a".to_string(),
        sink_name: "b".to_string(),
        source_channel: 1,
        sink_channel: 1,
    };
    let id = ConnectionId(9);
    let because =
        |cause: PatchbayError| PatchbayError::SerializationError(ConnectionId(9), Box::new(cause));
    let restore = |found: Option<&Devices>| failure(Connection::restore(id, metadata(), found));
    assert_eq!(restore(None), because(PatchbayError::HostNotFound));
    assert_eq!(
        restore(Some(&Devices { source: None, sink: Some(vec![range(2)]) })),
        because(PatchbayError::DeviceNotFound(StreamSide::Source))
    );
    assert_eq!(
        restore(Some(&Devices { source: Some(vec![range(2)]), sink: None })),
        because(PatchbayError::DeviceNotFound(StreamSide::Sink))
    );
    assert_eq!(
        restore(Some(&devices(1, 2))),
        because(PatchbayError::NoSupportedConfig(StreamSide::Source))
    );
    assert_eq!(
        restore(Some(&devices(2, 1))),
        because(PatchbayError::NoSupportedConfig(StreamSide::Sink))
    );
    assert_eq!(
        failure(Connection::restored(id, Err(PatchbayError::BufferUnavailable))),
        because(PatchbayError::BufferUnavailable)
    );
    let (restored, _, _) = Connection::restore(id, metadata(), Some(&devices(2, 2))).ok().unwrap();
    assert_eq!(*restored.metadata(), metadata());
    assert!(restored.is_halted());
}
