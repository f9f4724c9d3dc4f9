// One connection: its metadata, the configurations negotiated for its two
// streams, and which of the streams has been started.

use crate::error::PatchbayError;
use crate::identity::ConnectionId;
use crate::stream::{
    first_fit, is_first_fit, none_fits, StreamCommand, StreamConfig, StreamOp, StreamSide,
    SupportedConfigRange,
};
use crate::text::{decimal_digits, decimal_text};
use crate::transfer::{
    capacity_for, is_valid_capacity, pushed, queued, room, silence, wire, SampleConsumer,
    SampleProducer,
};
use vstd::prelude::*;
use vstd::string::*;

verus! {

/// The sample rate, in hertz, that every connection runs at.
pub const SAMPLE_RATE: u32 = 48000;

/// The latency, in milliseconds, that the transfer buffer is sized for.
pub const LATENCY_MS: u32 = 2;

/// What is written down of a connection: where it leads from and to.
#[derive(Debug, PartialEq, Eq)]
pub struct ConnectionMetadata {
    pub host_name: String,
    pub source_name: String,
    pub sink_name: String,
    pub source_channel: u16,
    pub sink_channel: u16,
}

/// The mathematical content of a `ConnectionMetadata`.
pub struct MetadataView {
    pub host_name: Seq<char>,
    pub source_name: Seq<char>,
    pub sink_name: Seq<char>,
    pub source_channel: u16,
    pub sink_channel: u16,
}

impl View for ConnectionMetadata {
    type V = MetadataView;

    open spec fn view(&self) -> MetadataView {
        MetadataView {
            host_name: self.host_name@,
            source_name: self.source_name@,
            sink_name: self.sink_name@,
            source_channel: self.source_channel,
            sink_channel: self.sink_channel,
        }
    }
}

impl Clone for ConnectionMetadata {
    fn clone(&self) -> (copy: ConnectionMetadata)
        ensures
            copy@ == self@,
    {
        ConnectionMetadata {
            host_name: self.host_name.clone(),
            source_name: self.source_name.clone(),
            sink_name: self.sink_name.clone(),
            source_channel: self.source_channel,
            sink_channel: self.sink_channel,
        }
    }
}

/// The mathematical content of a `Connection`: its metadata, what was
/// negotiated for its two streams, and which of them has been started.
pub struct ConnectionView {
    pub metadata: MetadataView,
    pub source_config: StreamConfig,
    pub sink_config: StreamConfig,
    pub source_playing: bool,
    pub sink_playing: bool,
}

impl ConnectionView {
    /// The routed channels exist in the negotiated configurations, and both
    /// streams run at one sample rate.
    pub open spec fn wf(self) -> bool {
        &&& self.metadata.source_channel < self.source_config.channels
        &&& self.metadata.sink_channel < self.sink_config.channels
        &&& self.source_config.sample_rate == self.sink_config.sample_rate
    }

    /// Both streams play.
    pub open spec fn is_running(self) -> bool {
        self.source_playing && self.sink_playing
    }

    /// Both streams are paused.
    pub open spec fn is_halted(self) -> bool {
        !self.source_playing && !self.sink_playing
    }

    /// The connection with the stream of `side` set to play or not.
    pub open spec fn with_stream(self, side: StreamSide, playing: bool) -> ConnectionView {
        match side {
            StreamSide::Source => ConnectionView { source_playing: playing, ..self },
            StreamSide::Sink => ConnectionView { sink_playing: playing, ..self },
        }
    }

    /// The connection after its streams were asked for `op`, the sink first
    /// and then the source, up to the first that refused. A refusing sink
    /// leaves the source unasked.
    pub open spec fn after(self, op: StreamOp, refused: Option<StreamSide>) -> ConnectionView {
        let playing = op == StreamOp::Play;
        match refused {
            Some(StreamSide::Sink) => self,
            Some(StreamSide::Source) => self.with_stream(StreamSide::Sink, playing),
            None => self.with_stream(StreamSide::Sink, playing).with_stream(
                StreamSide::Source,
                playing,
            ),
        }
    }
}

/// The two requests of `op`, in the order in which they are made.
pub open spec fn sequence_of(op: StreamOp) -> (StreamCommand, StreamCommand) {
    (
        StreamCommand { side: StreamSide::Sink, op },
        StreamCommand { side: StreamSide::Source, op },
    )
}

/// One route from a channel of a capturing device to a channel of a playing
/// device. The streams themselves live with the audio backend; this is what
/// the patchbay knows and decides about them.
pub struct Connection {
    metadata: ConnectionMetadata,
    source_config: StreamConfig,
    sink_config: StreamConfig,
    source_playing: bool,
    sink_playing: bool,
}

impl Connection {
    /// What holds of every connection: see `ConnectionView::wf`.
    #[verifier::type_invariant]
    spec fn well_formed(&self) -> bool {
        &&& self.metadata.source_channel < self.source_config.channels
        &&& self.metadata.sink_channel < self.sink_config.channels
        &&& self.source_config.sample_rate == self.sink_config.sample_rate
    }
}

impl View for Connection {
    type V = ConnectionView;

    closed spec fn view(&self) -> ConnectionView {
        ConnectionView {
            metadata: self.metadata@,
            source_config: self.source_config,
            sink_config: self.sink_config,
            source_playing: self.source_playing,
            sink_playing: self.sink_playing,
        }
    }
}

/// How a connection is shown to the operator: source and channel, sink and
/// channel, then host, sample rate and latency.
pub open spec fn description_of(connection: ConnectionView) -> Seq<char> {
    connection.metadata.source_name + "("@ + decimal_digits(
        connection.metadata.source_channel as nat,
    ) + ") -> "@ + connection.metadata.sink_name + "("@ + decimal_digits(
        connection.metadata.sink_channel as nat,
    ) + ") ["@ + connection.metadata.host_name + "; "@ + decimal_digits(SAMPLE_RATE as nat)
        + "Hz; "@ + decimal_digits(LATENCY_MS as nat) + "ms] "@
}

/// What looking for the two devices of a connection on its host found: for
/// each side the ranges that the device supports, or nothing where the host
/// has no device of that name.
pub struct Devices {
    pub source: Option<Vec<SupportedConfigRange>>,
    pub sink: Option<Vec<SupportedConfigRange>>,
}

/// What stands in the way of a connection before its buffer is wired, if
/// anything does: a host that was not found, then a source and a sink that
/// were not found, then a source and a sink without a configuration that
/// carries the channel.
pub open spec fn obstacle(found: Option<&Devices>, source_channel: u16, sink_channel: u16) -> Option<
    PatchbayError,
> {
    match found {
        None => Some(PatchbayError::HostNotFound),
        Some(devices) => match (devices.source, devices.sink) {
            (None, _) => Some(PatchbayError::DeviceNotFound(StreamSide::Source)),
            (Some(_), None) => Some(PatchbayError::DeviceNotFound(StreamSide::Sink)),
            (Some(source_ranges), Some(sink_ranges)) => if none_fits(
                source_ranges@,
                source_channel,
                SAMPLE_RATE,
            ) {
                Some(PatchbayError::NoSupportedConfig(StreamSide::Source))
            } else if none_fits(sink_ranges@, sink_channel, SAMPLE_RATE) {
                Some(PatchbayError::NoSupportedConfig(StreamSide::Sink))
            } else {
                None
            },
        },
    }
}

/// The configurations that negotiation settles on, if both devices offer one.
pub open spec fn negotiated(
    source_ranges: Seq<SupportedConfigRange>,
    sink_ranges: Seq<SupportedConfigRange>,
    source_channel: u16,
    sink_channel: u16,
    configs: (StreamConfig, StreamConfig),
) -> bool {
    &&& exists|i: int|
        is_first_fit(source_ranges, source_channel, SAMPLE_RATE, i) && configs.0 == (
        #[trigger] source_ranges[i]).at_rate(SAMPLE_RATE)
    &&& exists|i: int|
        is_first_fit(sink_ranges, sink_channel, SAMPLE_RATE, i) && configs.1 == (
        #[trigger] sink_ranges[i]).at_rate(SAMPLE_RATE)
}

/// The larger of two channel counts.
pub open spec fn max_channels(a: StreamConfig, b: StreamConfig) -> u16 {
    if a.channels >= b.channels {
        a.channels
    } else {
        b.channels
    }
}

/// The capacity of the transfer buffer of a connection: sized for the
/// wider of its two streams.
pub open spec fn buffer_size(connection: ConnectionView) -> int {
    capacity_for(
        SAMPLE_RATE,
        LATENCY_MS,
        max_channels(connection.source_config, connection.sink_config),
    )
}

impl Connection {
    /// Negotiates the configurations of both streams, first fit on either
    /// side: the earliest range of the source device that carries
    /// `source_channel` at the sample rate, and likewise for the sink.
    pub fn find_matching_configs(
        source_ranges: &Vec<SupportedConfigRange>,
        sink_ranges: &Vec<SupportedConfigRange>,
        source_channel: u16,
        sink_channel: u16,
    ) -> (found: Result<(StreamConfig, StreamConfig), PatchbayError>)
        ensures
            match found {
                Ok(configs) => negotiated(
                    source_ranges@,
                    sink_ranges@,
                    source_channel,
                    sink_channel,
                    configs,
                ),
                Err(e) => {
                    ||| e == PatchbayError::NoSupportedConfig(StreamSide::Source) && none_fits(
                        source_ranges@,
                        source_channel,
                        SAMPLE_RATE,
                    )
                    ||| e == PatchbayError::NoSupportedConfig(StreamSide::Sink) && !none_fits(
                        source_ranges@,
                        source_channel,
                        SAMPLE_RATE,
                    ) && none_fits(sink_ranges@, sink_channel, SAMPLE_RATE)
                },
            },
            (forall|i: int|
                0 <= i < source_ranges@.len() ==> source_channel >= (
                #[trigger] source_ranges@[i]).channels) ==> found == Err::<
                (StreamConfig, StreamConfig),
                PatchbayError,
            >(PatchbayError::NoSupportedConfig(StreamSide::Source)),
    {
        let source_config = match first_fit(source_ranges, source_channel, SAMPLE_RATE) {
            Some(config) => config,
            None => {
                return Err(PatchbayError::NoSupportedConfig(StreamSide::Source));
            },
        };
        let sink_config = match first_fit(sink_ranges, sink_channel, SAMPLE_RATE) {
            Some(config) => config,
            None => {
                return Err(PatchbayError::NoSupportedConfig(StreamSide::Sink));
            },
        };
        Ok((source_config, sink_config))
    }

    /// Puts a connection together from what was negotiated and from the
    /// buffer that was wired for it: with a buffer there is a connection,
    /// neither stream started, that comes with the buffer's two ends; without
    /// one, the error of the wiring is the outcome.
    pub fn assemble(
        metadata: ConnectionMetadata,
        configs: (StreamConfig, StreamConfig),
        wired: Result<(SampleProducer, SampleConsumer), PatchbayError>,
    ) -> (made: Result<(Connection, SampleProducer, SampleConsumer), PatchbayError>)
        requires
            metadata.source_channel < configs.0.channels,
            metadata.sink_channel < configs.1.channels,
            configs.0.sample_rate == configs.1.sample_rate,
        ensures
            match wired {
                Ok((producer, consumer)) => made matches Ok((connection, writing, reading))
                    && writing == producer && reading == consumer && connection@
                    == (ConnectionView {
                    metadata: metadata@,
                    source_config: configs.0,
                    sink_config: configs.1,
                    source_playing: false,
                    sink_playing: false,
                }),
                Err(e) => made == Err::<(Connection, SampleProducer, SampleConsumer), PatchbayError>(
                    e,
                ),
            },
    {
        match wired {
            Ok((producer, consumer)) => {
                let connection = Connection {
                    metadata,
                    source_config: configs.0,
                    sink_config: configs.1,
                    source_playing: false,
                    sink_playing: false,
                };
                Ok((connection, producer, consumer))
            },
            Err(e) => Err(e),
        }
    }

    /// Makes a connection between a channel of a source device and a channel
    /// of a sink device, given what looking for the two devices found. What
    /// is missing is reported first, the host before the source before the
    /// sink; then the configurations are negotiated, source before sink; then
    /// the transfer buffer is wired. The connection comes with the two ends
    /// of its buffer, one for each callback, and with neither stream started.
    pub fn new(
        host_name: String,
        source_name: String,
        sink_name: String,
        source_channel: u16,
        sink_channel: u16,
        found: Option<&Devices>,
    ) -> (made: Result<(Connection, SampleProducer, SampleConsumer), PatchbayError>)
        ensures
            obstacle(found, source_channel, sink_channel) matches Some(e) ==> made == Err::<
                (Connection, SampleProducer, SampleConsumer),
                PatchbayError,
            >(e),
            obstacle(found, source_channel, sink_channel) is None ==> match made {
                Ok((connection, producer, consumer)) => {
                    &&& connection@.wf()
                    &&& connection@.is_halted()
                    &&& connection@.metadata == (MetadataView {
                        host_name: host_name@,
                        source_name: source_name@,
                        sink_name: sink_name@,
                        source_channel,
                        sink_channel,
                    })
                    &&& negotiated(
                        found->0.source->0@,
                        found->0.sink->0@,
                        source_channel,
                        sink_channel,
                        (connection@.source_config, connection@.sink_config),
                    )
                    &&& queued(consumer) == silence((buffer_size(connection@) / 2) as nat)
                    &&& room(producer) == buffer_size(connection@) - buffer_size(connection@) / 2
                    &&& pushed(producer).len() == 0
                },
                Err(e) => e == PatchbayError::BufferUnavailable,
            },
    {
        let devices = match found {
            Some(devices) => devices,
            None => {
                return Err(PatchbayError::HostNotFound);
            },
        };
        let source_ranges = match &devices.source {
            Some(ranges) => ranges,
            None => {
                return Err(PatchbayError::DeviceNotFound(StreamSide::Source));
            },
        };
        let sink_ranges = match &devices.sink {
            Some(ranges) => ranges,
            None => {
                return Err(PatchbayError::DeviceNotFound(StreamSide::Sink));
            },
        };
        let configs = match Connection::find_matching_configs(
            source_ranges,
            sink_ranges,
            source_channel,
            sink_channel,
        ) {
            Ok(configs) => configs,
            Err(e) => {
                return Err(e);
            },
        };
        let widest = if configs.0.channels >= configs.1.channels {
            configs.0.channels
        } else {
            configs.1.channels
        };
        assert(is_valid_capacity(capacity_for(SAMPLE_RATE, LATENCY_MS, widest))) by {
            let frames = (LATENCY_MS as int * SAMPLE_RATE as int) / 1000;
            assert(frames == 96);
            assert(2 * frames * widest as int == 192 * widest) by (nonlinear_arith)
                requires
                    frames == 96,
            ;
        }
        let wired = wire(SAMPLE_RATE, LATENCY_MS, widest);
        let metadata = ConnectionMetadata {
            host_name,
            source_name,
            sink_name,
            source_channel,
            sink_channel,
        };
        Connection::assemble(metadata, configs, wired)
    }

    /// Makes the connection that `metadata` describes, given what looking
    /// for its two devices found.
    pub fn from_metadata(metadata: ConnectionMetadata, found: Option<&Devices>) -> (made: Result<
        (Connection, SampleProducer, SampleConsumer),
        PatchbayError,
    >)
        ensures
            obstacle(found, metadata.source_channel, metadata.sink_channel) matches Some(e)
                ==> made == Err::<(Connection, SampleProducer, SampleConsumer), PatchbayError>(e),
            obstacle(found, metadata.source_channel, metadata.sink_channel) is None ==> match made {
                Ok((connection, producer, consumer)) => {
                    &&& connection@.wf()
                    &&& connection@.is_halted()
                    &&& connection@.metadata == metadata@
                    &&& negotiated(
                        found->0.source->0@,
                        found->0.sink->0@,
                        metadata.source_channel,
                        metadata.sink_channel,
                        (connection@.source_config, connection@.sink_config),
                    )
                    &&& queued(consumer) == silence((buffer_size(connection@) / 2) as nat)
                    &&& room(producer) == buffer_size(connection@) - buffer_size(connection@) / 2
                    &&& pushed(producer).len() == 0
                },
                Err(e) => e == PatchbayError::BufferUnavailable,
            },
    {
        Connection::new(
            metadata.host_name,
            metadata.source_name,
            metadata.sink_name,
            metadata.source_channel,
            metadata.sink_channel,
            found,
        )
    }

    /// Tells of the persisted connection `id` what became of making it
    /// again: the connection, or that it could not be restored and what
    /// stood in the way.
    pub fn restored(
        id: ConnectionId,
        made: Result<(Connection, SampleProducer, SampleConsumer), PatchbayError>,
    ) -> (r: Result<(Connection, SampleProducer, SampleConsumer), PatchbayError>)
        ensures
            match made {
                Ok(parts) => r == Ok::<(Connection, SampleProducer, SampleConsumer), PatchbayError>(
                    parts,
                ),
                Err(cause) => r == Err::<(Connection, SampleProducer, SampleConsumer), PatchbayError>(
                    PatchbayError::SerializationError(id, Box::new(cause)),
                ),
            },
    {
        match made {
            Ok(parts) => Ok(parts),
            Err(cause) => Err(PatchbayError::SerializationError(id, Box::new(cause))),
        }
    }

    /// Brings back the persisted connection `id` from its metadata, given
    /// what looking for its two devices found now. Whatever stands in the
    /// way, a missing host or device, a failed negotiation or a buffer that
    /// could not be allocated, is reported as the failure to restore this
    /// connection, together with what it was.
    pub fn restore(id: ConnectionId, metadata: ConnectionMetadata, found: Option<&Devices>) -> (made:
        Result<(Connection, SampleProducer, SampleConsumer), PatchbayError>)
        ensures
            obstacle(found, metadata.source_channel, metadata.sink_channel) matches Some(e)
                ==> made == Err::<(Connection, SampleProducer, SampleConsumer), PatchbayError>(
                PatchbayError::SerializationError(id, Box::new(e)),
            ),
            obstacle(found, metadata.source_channel, metadata.sink_channel) is None ==> match made {
                Ok((connection, producer, consumer)) => {
                    &&& connection@.wf()
                    &&& connection@.is_halted()
                    &&& connection@.metadata == metadata@
                    &&& negotiated(
                        found->0.source->0@,
                        found->0.sink->0@,
                        metadata.source_channel,
                        metadata.sink_channel,
                        (connection@.source_config, connection@.sink_config),
                    )
                    &&& queued(consumer) == silence((buffer_size(connection@) / 2) as nat)
                    &&& room(producer) == buffer_size(connection@) - buffer_size(connection@) / 2
                    &&& pushed(producer).len() == 0
                },
                Err(e) => e == PatchbayError::SerializationError(
                    id,
                    Box::new(PatchbayError::BufferUnavailable),
                ),
            },
    {
        Connection::restored(id, Connection::from_metadata(metadata, found))
    }

    /// What is written down of the connection.
    pub fn metadata(&self) -> (metadata: &ConnectionMetadata)
        ensures
            metadata@ == self@.metadata,
            self@.wf(),
    {
        proof {
            use_type_invariant(self);
        }
        &self.metadata
    }

    /// The configuration negotiated for the stream of `side`.
    pub fn config(&self, side: StreamSide) -> (config: StreamConfig)
        ensures
            config == match side {
                StreamSide::Source => self@.source_config,
                StreamSide::Sink => self@.sink_config,
            },
            self@.wf(),
            config.channels > 0,
    {
        proof {
            use_type_invariant(self);
        }
        match side {
            StreamSide::Source => self.source_config,
            StreamSide::Sink => self.sink_config,
        }
    }

    /// Shows the connection to the operator.
    pub fn to_string(&self) -> (text: String)
        ensures
            text@ == description_of(self@),
    {
        let mut text = self.metadata.source_name.clone();
        text.append("(");
        text.append(decimal_text(self.metadata.source_channel as u32).as_str());
        text.append(") -> ");
        text.append(self.metadata.sink_name.as_str());
        text.append("(");
        text.append(decimal_text(self.metadata.sink_channel as u32).as_str());
        text.append(") [");
        text.append(self.metadata.host_name.as_str());
        text.append("; ");
        text.append(decimal_text(SAMPLE_RATE).as_str());
        text.append("Hz; ");
        text.append(decimal_text(LATENCY_MS).as_str());
        text.append("ms] ");
        text
    }

    /// Whether both streams have been started.
    pub fn is_running(&self) -> (running: bool)
        ensures
            running == self@.is_running(),
    {
        self.source_playing && self.sink_playing
    }

    /// Whether both streams are paused.
    pub fn is_halted(&self) -> (halted: bool)
        ensures
            halted == self@.is_halted(),
    {
        !self.source_playing && !self.sink_playing
    }

    /// The requests that start or halt a connection, in the order in which
    /// the backend is to be asked: the sink first, then the source. For a
    /// start nothing is captured before something consumes it; for a halt
    /// the sink is silenced before capture ends.
    pub fn sequence(op: StreamOp) -> (commands: (StreamCommand, StreamCommand))
        ensures
            commands == sequence_of(op),
    {
        (StreamCommand { side: StreamSide::Sink, op }, StreamCommand { side: StreamSide::Source, op })
    }

    /// Records the outcome of `op`: the backend was asked the requests of
    /// `sequence(op)` in order until one was refused, and `refused` names the
    /// stream that did.
    pub(crate) fn record(&mut self, op: StreamOp, refused: Option<StreamSide>)
        ensures
            final(self)@ == old(self)@.after(op, refused),
            final(self)@.wf(),
    {
        proof {
            use_type_invariant(&*self);
        }
        let playing = match op {
            StreamOp::Play => true,
            StreamOp::Pause => false,
        };
        match refused {
            Some(StreamSide::Sink) => {},
            Some(StreamSide::Source) => {
                self.sink_playing = playing;
            },
            None => {
                self.sink_playing = playing;
                self.source_playing = playing;
            },
        }
    }

    /// Records the outcome of starting the connection: the backend was asked
    /// to play the sink and then the source, and `refused` names the stream
    /// that refused, if one did. Nothing is rolled back: after a refusal by
    /// the source the sink plays on until the connection is halted.
    pub fn run(&mut self, refused: Option<StreamSide>) -> (r: Result<(), PatchbayError>)
        ensures
            final(self)@ == old(self)@.after(StreamOp::Play, refused),
            final(self)@.wf(),
            match refused {
                None => r is Ok && final(self)@.is_running(),
                Some(side) => r == Err::<(), PatchbayError>(PatchbayError::StreamStartError(side)),
            },
    {
        self.record(StreamOp::Play, refused);
        match refused {
            None => Ok(()),
            Some(side) => Err(PatchbayError::StreamStartError(side)),
        }
    }

    /// Records the outcome of halting the connection: the backend was asked
    /// to pause the sink and then the source, and `refused` names the stream
    /// that refused, if one did.
    pub fn halt(&mut self, refused: Option<StreamSide>) -> (r: Result<(), PatchbayError>)
        ensures
            final(self)@ == old(self)@.after(StreamOp::Pause, refused),
            final(self)@.wf(),
            match refused {
                None => r is Ok && final(self)@.is_halted(),
                Some(side) => r == Err::<(), PatchbayError>(PatchbayError::StreamStopError(side)),
            },
    {
        self.record(StreamOp::Pause, refused);
        match refused {
            None => Ok(()),
            Some(side) => Err(PatchbayError::StreamStopError(side)),
        }
    }
}

/// Halting a connection that is halted changes nothing: a second halt
/// leaves what the first one left.
pub proof fn lemma_halt_is_idempotent(connection: ConnectionView)
    ensures
        connection.after(StreamOp::Pause, None).after(StreamOp::Pause, None) == connection.after(
            StreamOp::Pause,
            None,
        ),
        connection.after(StreamOp::Pause, None).is_halted(),
{
}

/// A connection that was just made and then halted has both streams paused,
/// whatever it was negotiated to.
pub proof fn lemma_halted_after_construction(connection: ConnectionView)
    requires
        connection.is_halted(),
    ensures
        connection.after(StreamOp::Pause, None).is_halted(),
        connection.after(StreamOp::Pause, None) == connection,
{
}

} // verus!
