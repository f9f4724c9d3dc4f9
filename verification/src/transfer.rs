// The transfer buffer between the capturing and the playing stream of a
// connection, and the work of the two callbacks on interleaved blocks.

use crate::error::PatchbayError;
use vstd::arithmetic::div_mod::{lemma_fundamental_div_mod, lemma_fundamental_div_mod_converse};
use vstd::prelude::*;

verus! {

/// The sample that stands for silence.
pub const SILENCE: u32 = 0;

/// The capacity of the transfer buffer for a latency in milliseconds, a
/// sample rate in hertz and the larger of the two channel counts: twice the
/// whole frames that fit in the latency, times the channel count.
pub open spec fn capacity_for(sample_rate: u32, latency_ms: u32, max_channels: u16) -> int {
    2 * ((latency_ms as int * sample_rate as int) / 1000) * max_channels as int
}

/// Computes the capacity of the transfer buffer, unless it exceeds what the
/// machine can address.
pub fn buffer_capacity(sample_rate: u32, latency_ms: u32, max_channels: u16) -> (capacity: Option<
    usize,
>)
    ensures
        match capacity {
            Some(c) => c == capacity_for(sample_rate, latency_ms, max_channels),
            None => capacity_for(sample_rate, latency_ms, max_channels) > usize::MAX,
        },
{
    assert(latency_ms as int * sample_rate as int <= 0xffff_ffff * 0xffff_ffff) by (nonlinear_arith)
        requires
            latency_ms <= 0xffff_ffff,
            sample_rate <= 0xffff_ffff,
    ;
    let frames: u64 = (latency_ms as u64 * sample_rate as u64) / 1000;
    assert(2 * frames as int * max_channels as int <= 2 * 0xffff_ffff_ffff_ffff * 0xffff)
        by (nonlinear_arith)
        requires
            frames <= 0xffff_ffff_ffff_ffff,
            max_channels <= 0xffff,
    ;
    let total: u128 = 2 * (frames as u128) * (max_channels as u128);
    if total <= usize::MAX as u128 {
        Some(total as usize)
    } else {
        None
    }
}

/// The index in an interleaved block of the sample of `channel` in frame
/// `frame`, frames being `channels` samples wide.
pub open spec fn slot(frame: int, channel: u16, channels: u16) -> int {
    channel + frame * channels
}

/// The number of frames of a block of `len` samples that reach `channel`.
pub open spec fn frame_count(len: nat, channel: u16, channels: u16) -> nat {
    if len <= channel {
        0
    } else {
        ((len - channel - 1) / channels as int + 1) as nat
    }
}

/// Whether index `j` of an interleaved block holds a sample of `channel`.
pub open spec fn is_slot(j: int, channel: u16, channels: u16) -> bool {
    j >= channel && (j - channel) % channels as int == 0
}

/// The frame that index `j` of an interleaved block belongs to, counted from
/// where `channel` first occurs.
pub open spec fn frame_of(j: int, channel: u16, channels: u16) -> int {
    (j - channel) / channels as int
}

/// The samples of `channel` in an interleaved block, one per frame.
pub open spec fn channel_samples(block: Seq<u32>, channel: u16, channels: u16) -> Seq<u32> {
    Seq::new(
        frame_count(block.len(), channel, channels),
        |frame: int| block[slot(frame, channel, channels)],
    )
}

/// The sample that is played for what the buffer handed out: silence where
/// it had nothing.
pub open spec fn sample_or_silence(taken: Option<u32>) -> u32 {
    match taken {
        Some(sample) => sample,
        None => SILENCE,
    }
}

/// An interleaved block after the samples `taken` were written to `channel`,
/// one per frame: every other index keeps what it held.
pub open spec fn played(block: Seq<u32>, channel: u16, channels: u16, taken: Seq<Option<u32>>) -> Seq<
    u32,
> {
    Seq::new(
        block.len(),
        |j: int|
            if is_slot(j, channel, channels) && frame_of(j, channel, channels) < taken.len() {
                sample_or_silence(taken[frame_of(j, channel, channels)])
            } else {
                block[j]
            },
    )
}

/// How often the buffer had nothing to hand out.
pub open spec fn misses(taken: Seq<Option<u32>>) -> nat
    decreases taken.len(),
{
    if taken.len() == 0 {
        0
    } else {
        misses(taken.drop_last()) + if taken.last() is None {
            1nat
        } else {
            0nat
        }
    }
}

/// The frames of a block are those whose slot lies within it.
pub proof fn lemma_frames_are_slots_within(len: nat, channel: u16, channels: u16, frame: int)
    requires
        channels > 0,
        0 <= frame,
    ensures
        slot(frame, channel, channels) < len <==> frame < frame_count(len, channel, channels),
{
    let step = channels as int;
    if len > channel {
        let d = len - channel - 1;
        lemma_fundamental_div_mod(d, step);
        let q = d / step;
        assert(0 <= d % step < step);
        if frame <= q {
            assert(frame * step <= q * step) by (nonlinear_arith)
                requires
                    frame <= q,
                    step > 0,
            ;
            assert(step * q == q * step) by (nonlinear_arith);
        } else {
            assert(frame * step >= (q + 1) * step) by (nonlinear_arith)
                requires
                    frame >= q + 1,
                    step > 0,
            ;
            assert((q + 1) * step == step * q + step) by (nonlinear_arith);
        }
    } else {
        assert(frame * step >= 0) by (nonlinear_arith)
            requires
                frame >= 0,
                step > 0,
        ;
    }
}

/// An index is the slot of a frame exactly if it holds a sample of the
/// channel and belongs to that frame.
pub proof fn lemma_slot_of_frame(j: int, channel: u16, channels: u16, frame: int)
    requires
        channels > 0,
        0 <= frame,
    ensures
        j == slot(frame, channel, channels) <==> is_slot(j, channel, channels) && frame_of(
            j,
            channel,
            channels,
        ) == frame,
{
    let step = channels as int;
    if j == slot(frame, channel, channels) {
        assert(frame * step >= 0) by (nonlinear_arith)
            requires
                frame >= 0,
                step > 0,
        ;
        lemma_fundamental_div_mod_converse(j - channel, step, frame, 0);
    }
    if is_slot(j, channel, channels) && frame_of(j, channel, channels) == frame {
        lemma_fundamental_div_mod(j - channel, step);
        assert(step * frame == frame * step) by (nonlinear_arith);
    }
}

/// Counts the frames of a block of `len` samples that reach `channel`.
pub fn count_frames(len: usize, channel: u16, channels: u16) -> (frames: usize)
    requires
        channels > 0,
    ensures
        frames == frame_count(len as nat, channel, channels),
{
    if len <= channel as usize {
        0
    } else {
        (len - channel as usize - 1) / (channels as usize) + 1
    }
}

/// Takes the samples of `channel` out of an interleaved block.
pub fn select_channel(block: &[u32], channel: u16, channels: u16) -> (samples: Vec<u32>)
    requires
        channels > 0,
    ensures
        samples@ == channel_samples(block@, channel, channels),
{
    let mut samples: Vec<u32> = Vec::new();
    let frames = count_frames(block.len(), channel, channels);
    let mut frame: usize = 0;
    let mut pos: usize = channel as usize;
    while frame < frames
        invariant
            channels > 0,
            frames == frame_count(block@.len(), channel, channels),
            frame <= frames,
            samples@.len() == frame,
            pos == slot(frame as int, channel, channels) || frame == frames,
            forall|k: int|
                0 <= k < frame ==> #[trigger] samples@[k] == block@[slot(k, channel, channels)],
        decreases frames - frame,
    {
        proof {
            lemma_frames_are_slots_within(block@.len(), channel, channels, frame as int);
            lemma_frames_are_slots_within(block@.len(), channel, channels, frame + 1);
            assert(slot(frame + 1, channel, channels) == slot(frame as int, channel, channels)
                + channels) by (nonlinear_arith);
        }
        samples.push(block[pos]);
        frame += 1;
        if frame < frames {
            pos += channels as usize;
        }
    }
    assert(samples@ =~= channel_samples(block@, channel, channels));
    samples
}

/// Where nothing is missing, nothing is counted.
pub proof fn lemma_no_misses(taken: Seq<Option<u32>>)
    requires
        forall|i: int| 0 <= i < taken.len() ==> (#[trigger] taken[i]) is Some,
    ensures
        misses(taken) == 0,
    decreases taken.len(),
{
    if taken.len() > 0 {
        lemma_no_misses(taken.drop_last());
    }
}

/// Writes the samples `taken` to `channel` of an interleaved block, one per
/// frame and silence for a missing one, and counts the missing ones. Frames
/// beyond `taken` and samples beyond the block's frames are left alone.
pub fn write_channel(
    block: &mut Vec<u32>,
    channel: u16,
    channels: u16,
    taken: &Vec<Option<u32>>,
) -> (underruns: usize)
    requires
        channels > 0,
    ensures
        final(block)@ == played(old(block)@, channel, channels, taken@),
        underruns == misses(
            taken@.take(
                if taken@.len() <= frame_count(old(block)@.len(), channel, channels) {
                    taken@.len() as int
                } else {
                    frame_count(old(block)@.len(), channel, channels) as int
                },
            ),
        ),
{
    let frames = count_frames(block.len(), channel, channels);
    let used = if taken.len() <= frames {
        taken.len()
    } else {
        frames
    };
    let mut underruns: usize = 0;
    let mut frame: usize = 0;
    let mut pos: usize = channel as usize;
    assert(block@ =~= played(block@, channel, channels, taken@.take(0)));
    while frame < used
        invariant
            channels > 0,
            block@.len() == old(block)@.len(),
            block@.len() <= usize::MAX,
            frames == frame_count(block@.len(), channel, channels),
            used <= frames,
            used <= taken@.len(),
            frame <= used,
            pos == slot(frame as int, channel, channels) || frame == used,
            block@ == played(old(block)@, channel, channels, taken@.take(frame as int)),
            underruns == misses(taken@.take(frame as int)),
            underruns <= frame,
        decreases used - frame,
    {
        let ghost before = block@;
        proof {
            lemma_frames_are_slots_within(block@.len(), channel, channels, frame as int);
            lemma_frames_are_slots_within(block@.len(), channel, channels, frame + 1);
            assert(slot(frame + 1, channel, channels) == slot(frame as int, channel, channels)
                + channels) by (nonlinear_arith);
        }
        let sample = match taken[frame] {
            Some(sample) => sample,
            None => {
                underruns += 1;
                SILENCE
            },
        };
        block.set(pos, sample);
        proof {
            let shorter = taken@.take(frame as int);
            let longer = taken@.take(frame + 1);
            assert(longer.drop_last() =~= shorter);
            assert(longer.last() == taken@[frame as int]);
            assert forall|j: int| 0 <= j < block@.len() implies block@[j] == played(
                old(block)@,
                channel,
                channels,
                longer,
            )[j] by {
                lemma_slot_of_frame(j, channel, channels, frame as int);
                if j != pos {
                    assert(block@[j] == before[j]);
                }
            }
            assert(block@ =~= played(old(block)@, channel, channels, longer));
        }
        frame += 1;
        if frame < used {
            pos += channels as usize;
        }
    }
    proof {
        assert forall|j: int| 0 <= j < block@.len() implies played(
            old(block)@,
            channel,
            channels,
            taken@.take(used as int),
        )[j] == played(old(block)@, channel, channels, taken@)[j] by {
            if is_slot(j, channel, channels) && frame_of(j, channel, channels) < taken@.len() {
                let f = frame_of(j, channel, channels);
                assert(f >= 0) by {
                    lemma_fundamental_div_mod(j - channel, channels as int);
                    assert(f * channels >= 0 ==> f >= 0) by (nonlinear_arith)
                        requires
                            channels > 0,
                    ;
                    assert(channels * f == f * channels) by (nonlinear_arith);
                }
                lemma_slot_of_frame(j, channel, channels, f);
                lemma_frames_are_slots_within(block@.len(), channel, channels, f);
            }
        }
        assert(block@ =~= played(old(block)@, channel, channels, taken@));
    }
    underruns
}

/// The transfer buffer before it is split: a `ringbuf::HeapRb` of samples.
#[verifier::external_body]
pub struct SampleRing {
    inner: ringbuf::HeapRb<u32>,
}

/// The writing end of a transfer buffer: a `ringbuf::HeapProducer`.
#[verifier::external_body]
pub struct SampleProducer {
    inner: ringbuf::HeapProducer<u32>,
}

/// The reading end of a transfer buffer: a `ringbuf::HeapConsumer`.
#[verifier::external_body]
pub struct SampleConsumer {
    inner: ringbuf::HeapConsumer<u32>,
}

/// The samples that an unsplit buffer holds, oldest first.
pub uninterp spec fn ring_contents(ring: SampleRing) -> Seq<u32>;

/// The number of samples that an unsplit buffer was made for.
pub uninterp spec fn ring_capacity(ring: SampleRing) -> nat;

/// The samples that wait for the reading end whatever the writing end does
/// meanwhile: those that the buffer held when it was split and that have not
/// been taken since, oldest first.
pub uninterp spec fn queued(consumer: SampleConsumer) -> Seq<u32>;

/// The places that are free for the writing end whatever the reading end
/// does meanwhile: those that the buffer had free when it was split and
/// that have not been filled since.
pub uninterp spec fn room(producer: SampleProducer) -> nat;

/// The samples that the writing end has appended since the buffer was
/// split, oldest first, whether or not the reading end has taken them.
pub uninterp spec fn pushed(producer: SampleProducer) -> Seq<u32>;

/// The places of an unsplit buffer that hold no sample.
pub open spec fn free_places(ring: SampleRing) -> nat {
    if ring_contents(ring).len() >= ring_capacity(ring) {
        0
    } else {
        (ring_capacity(ring) - ring_contents(ring).len()) as nat
    }
}

/// The smaller of two numbers.
pub open spec fn least(a: nat, b: nat) -> nat {
    if a <= b {
        a
    } else {
        b
    }
}

/// `ringbuf::HeapRb::try_new`: an empty buffer of the given capacity, or
/// nothing where the allocation fails. A capacity of zero, which panics, and
/// one whose double overflows are left out.
#[verifier::external_body]
fn new_ring(capacity: usize) -> (made: Option<SampleRing>)
    requires
        0 < capacity <= usize::MAX / 2,
    ensures
        made matches Some(ring) ==> ring_contents(ring).len() == 0 && ring_capacity(ring)
            == capacity,
{
    ringbuf::HeapRb::<u32>::try_new(capacity).ok().map(|inner| SampleRing { inner })
}

/// `ringbuf::Rb::push` on an unsplit buffer: the sample is appended unless
/// the buffer is full, in which case it comes back and nothing changes.
#[verifier::external_body]
fn push_to_ring(ring: &mut SampleRing, sample: u32) -> (pushed: Result<(), u32>)
    ensures
        ring_capacity(*final(ring)) == ring_capacity(*old(ring)),
        ring_contents(*old(ring)).len() < ring_capacity(*old(ring)) ==> pushed is Ok
            && ring_contents(*final(ring)) == ring_contents(*old(ring)).push(sample),
        ring_contents(*old(ring)).len() >= ring_capacity(*old(ring)) ==> pushed is Err
            && pushed->Err_0 == sample && ring_contents(*final(ring)) == ring_contents(*old(ring)),
{
    ringbuf::Rb::push(&mut ring.inner, sample)
}

/// `ringbuf::HeapRb::split`: the two ends of the buffer. What the buffer
/// held waits for the reading end, and what it had free is free for the
/// writing end, which has appended nothing yet.
#[verifier::external_body]
fn split_ring(ring: SampleRing) -> (ends: (SampleProducer, SampleConsumer))
    ensures
        queued(ends.1) == ring_contents(ring),
        room(ends.0) == free_places(ring),
        pushed(ends.0).len() == 0,
{
    let (producer, consumer) = ring.inner.split();
    (SampleProducer { inner: producer }, SampleConsumer { inner: consumer })
}

/// `ringbuf::Producer::push_iter` over the samples of a vector: appends the
/// first of them, in order, as far as there is room and returns how many.
/// There is at least the room that the writing end knows of; how much more
/// depends on the reading end.
#[verifier::external_body]
fn push_samples(producer: &mut SampleProducer, samples: &Vec<u32>) -> (accepted: usize)
    ensures
        least(samples@.len(), room(*old(producer))) <= accepted <= samples@.len(),
        pushed(*final(producer)) == pushed(*old(producer)) + samples@.take(accepted as int),
        room(*final(producer)) == room(*old(producer)) - least(
            samples@.len(),
            room(*old(producer)),
        ),
{
    producer.inner.push_iter(&mut samples.iter().copied())
}

/// `ringbuf::Consumer::pop`: takes the oldest sample. A sample that waits is
/// handed out; where none is known to wait, the outcome depends on the
/// writing end.
#[verifier::external_body]
fn pop_sample(consumer: &mut SampleConsumer) -> (taken: Option<u32>)
    ensures
        queued(*old(consumer)).len() > 0 ==> taken == Some(queued(*old(consumer))[0]) && queued(
            *final(consumer),
        ) == queued(*old(consumer)).drop_first(),
        queued(*old(consumer)).len() == 0 ==> queued(*final(consumer)).len() == 0,
{
    consumer.inner.pop()
}

/// `n` samples of silence.
pub open spec fn silence(n: nat) -> Seq<u32> {
    Seq::new(n, |i: int| SILENCE)
}

/// Whether a buffer can be made for `capacity` samples: it has to hold at
/// least one, and twice its capacity has to be a number of the machine.
pub open spec fn is_valid_capacity(capacity: int) -> bool {
    0 < capacity <= usize::MAX / 2
}

/// Fills a buffer that was just allocated with silence to half of
/// `capacity`, as far as it has room. A buffer that could not be allocated
/// is reported as unavailable.
pub fn prefilled(made: Option<SampleRing>, capacity: usize) -> (r: Result<SampleRing, PatchbayError>)
    ensures
        made is None ==> r == Err::<SampleRing, PatchbayError>(PatchbayError::BufferUnavailable),
        made matches Some(ring) ==> r matches Ok(filled) && ring_capacity(filled) == ring_capacity(
            ring,
        ) && ring_contents(filled) == ring_contents(ring) + silence(
            least((capacity / 2) as nat, free_places(ring)),
        ),
{
    let mut ring = match made {
        Some(ring) => ring,
        None => {
            return Err(PatchbayError::BufferUnavailable);
        },
    };
    let ghost fresh = ring;
    let half = capacity / 2;
    let mut filled: usize = 0;
    assert(ring_contents(ring) =~= ring_contents(fresh) + silence(0));
    while filled < half
        invariant
            made == Some(fresh),
            half == capacity / 2,
            filled <= half,
            filled <= free_places(fresh),
            ring_capacity(ring) == ring_capacity(fresh),
            ring_contents(ring) == ring_contents(fresh) + silence(filled as nat),
        decreases half - filled,
    {
        match push_to_ring(&mut ring, SILENCE) {
            Ok(()) => {
                assert((ring_contents(fresh) + silence(filled as nat)).push(SILENCE) =~= ring_contents(
                    fresh,
                ) + silence((filled + 1) as nat));
                filled += 1;
            },
            Err(_) => {
                assert(filled == free_places(fresh));
                return Ok(ring);
            },
        }
    }
    Ok(ring)
}

/// Allocates the transfer buffer for a latency, a sample rate and a channel
/// count, and fills it with silence to half its capacity. A capacity that
/// no buffer can have is refused before anything is allocated.
pub fn create_ringbuf(sample_rate: u32, latency_ms: u32, max_channels: u16) -> (made: Result<
    SampleRing,
    PatchbayError,
>)
    ensures
        !is_valid_capacity(capacity_for(sample_rate, latency_ms, max_channels)) <==> made == Err::<
            SampleRing,
            PatchbayError,
        >(PatchbayError::InvalidCapacity),
        match made {
            Ok(ring) => {
                &&& ring_capacity(ring) == capacity_for(sample_rate, latency_ms, max_channels)
                &&& ring_contents(ring) == silence(
                    (capacity_for(sample_rate, latency_ms, max_channels) / 2) as nat,
                )
            },
            Err(e) => e == PatchbayError::InvalidCapacity || e == PatchbayError::BufferUnavailable,
        },
{
    let capacity = match buffer_capacity(sample_rate, latency_ms, max_channels) {
        Some(capacity) => capacity,
        None => {
            return Err(PatchbayError::InvalidCapacity);
        },
    };
    if capacity == 0 || capacity > usize::MAX / 2 {
        return Err(PatchbayError::InvalidCapacity);
    }
    let made = new_ring(capacity);
    proof {
        if made is Some {
            assert(ring_contents(made->0) + silence((capacity / 2) as nat) =~= silence(
                (capacity / 2) as nat,
            ));
        }
    }
    prefilled(made, capacity)
}

/// Splits a buffer that was made into its two ends: what it holds waits for
/// the reading end, what it has free is free for the writing end. A buffer
/// that was not made is passed on as the error it is.
pub fn split(made: Result<SampleRing, PatchbayError>) -> (ends: Result<
    (SampleProducer, SampleConsumer),
    PatchbayError,
>)
    ensures
        match made {
            Ok(ring) => ends matches Ok((producer, consumer)) && queued(consumer) == ring_contents(
                ring,
            ) && room(producer) == free_places(ring) && pushed(producer).len() == 0,
            Err(e) => ends == Err::<(SampleProducer, SampleConsumer), PatchbayError>(e),
        },
{
    match made {
        Ok(ring) => Ok(split_ring(ring)),
        Err(e) => Err(e),
    }
}

/// Allocates the transfer buffer, fills it with silence to half its
/// capacity and splits it into its two ends.
pub fn wire(sample_rate: u32, latency_ms: u32, max_channels: u16) -> (made: Result<
    (SampleProducer, SampleConsumer),
    PatchbayError,
>)
    ensures
        !is_valid_capacity(capacity_for(sample_rate, latency_ms, max_channels)) <==> made == Err::<
            (SampleProducer, SampleConsumer),
            PatchbayError,
        >(PatchbayError::InvalidCapacity),
        match made {
            Ok((producer, consumer)) => {
                &&& queued(consumer) == silence(
                    (capacity_for(sample_rate, latency_ms, max_channels) / 2) as nat,
                )
                &&& room(producer) == capacity_for(sample_rate, latency_ms, max_channels)
                    - capacity_for(sample_rate, latency_ms, max_channels) / 2
                &&& pushed(producer).len() == 0
            },
            Err(e) => e == PatchbayError::InvalidCapacity || e == PatchbayError::BufferUnavailable,
        },
{
    split(create_ringbuf(sample_rate, latency_ms, max_channels))
}

/// How many of `offered` samples are lost where `accepted` of them found room.
pub open spec fn lost(offered: nat, accepted: nat) -> nat {
    (offered - accepted) as nat
}

/// The work of the capturing callback: offers the samples of `channel` in a
/// captured block to the buffer, in order, and returns how many of them it
/// had no room for. Those are the last of them, and they are lost: nothing
/// is retried. Nothing is lost while the block has no more frames than the
/// buffer is known to have room for.
pub fn capture(producer: &mut SampleProducer, block: &[u32], channel: u16, channels: u16) -> (overruns:
    usize)
    requires
        channels > 0,
    ensures
        overruns <= lost(
            frame_count(block@.len(), channel, channels),
            least(frame_count(block@.len(), channel, channels), room(*old(producer))),
        ),
        pushed(*final(producer)) == pushed(*old(producer)) + channel_samples(
            block@,
            channel,
            channels,
        ).take(frame_count(block@.len(), channel, channels) - overruns),
        room(*final(producer)) == room(*old(producer)) - least(
            frame_count(block@.len(), channel, channels),
            room(*old(producer)),
        ),
{
    let samples = select_channel(block, channel, channels);
    let accepted = push_samples(producer, &samples);
    samples.len() - accepted
}

/// What the reading end hands out over `frames` takes, given what was known
/// to wait for it: those samples first, in order.
pub open spec fn begins_with_queued(taken: Seq<Option<u32>>, waiting: Seq<u32>) -> bool {
    forall|i: int|
        0 <= i < taken.len() && i < waiting.len() ==> #[trigger] taken[i] == Some(waiting[i])
}

/// Takes `frames` times from the buffer.
pub fn take_samples(consumer: &mut SampleConsumer, frames: usize) -> (taken: Vec<Option<u32>>)
    ensures
        taken@.len() == frames,
        begins_with_queued(taken@, queued(*old(consumer))),
        queued(*final(consumer)) == queued(*old(consumer)).skip(
            if frames <= queued(*old(consumer)).len() {
                frames as int
            } else {
                queued(*old(consumer)).len() as int
            },
        ),
{
    let ghost waiting = queued(*consumer);
    let mut taken: Vec<Option<u32>> = Vec::new();
    let mut frame: usize = 0;
    assert(waiting.skip(0) =~= waiting);
    while frame < frames
        invariant
            frame <= frames,
            taken@.len() == frame,
            begins_with_queued(taken@, waiting),
            queued(*consumer) == waiting.skip(
                if frame <= waiting.len() {
                    frame as int
                } else {
                    waiting.len() as int
                },
            ),
        decreases frames - frame,
    {
        let ghost before = queued(*consumer);
        let sample = pop_sample(consumer);
        proof {
            if frame < waiting.len() {
                assert(before[0] == waiting[frame as int]);
                assert(before.drop_first() =~= waiting.skip(frame + 1));
            } else {
                assert(queued(*consumer) =~= waiting.skip(waiting.len() as int));
            }
        }
        taken.push(sample);
        frame += 1;
    }
    taken
}

/// A buffer filled with silence feeds the first block: while no more frames
/// are asked for than samples wait, nothing is missed and the mapped
/// channel plays silence.
pub proof fn lemma_prefill_feeds_playback(
    block: Seq<u32>,
    channel: u16,
    channels: u16,
    taken: Seq<Option<u32>>,
    waiting: nat,
)
    requires
        channels > 0,
        taken.len() == frame_count(block.len(), channel, channels),
        begins_with_queued(taken, silence(waiting)),
        taken.len() <= waiting,
    ensures
        misses(taken) == 0,
        forall|frame: int|
            0 <= frame < taken.len() ==> played(block, channel, channels, taken)[#[trigger] slot(
                frame,
                channel,
                channels,
            )] == SILENCE,
{
    assert forall|i: int| 0 <= i < taken.len() implies (#[trigger] taken[i]) is Some by {
        assert(taken[i] == Some(silence(waiting)[i]));
    }
    lemma_no_misses(taken);
    assert forall|frame: int| 0 <= frame < taken.len() implies played(
        block,
        channel,
        channels,
        taken,
    )[#[trigger] slot(frame, channel, channels)] == SILENCE by {
        let j = slot(frame, channel, channels);
        lemma_frames_are_slots_within(block.len(), channel, channels, frame);
        lemma_slot_of_frame(j, channel, channels, frame);
        assert(frame * channels >= 0) by (nonlinear_arith)
            requires
                frame >= 0,
                channels > 0,
        ;
        assert(taken[frame] == Some(silence(waiting)[frame]));
    }
}

/// The work of the playing callback: for every frame of the block takes one
/// sample from the buffer and writes it to `channel`, silence where the
/// buffer had none, and returns how often it had none. The other channels
/// keep what the backend delivered.
pub fn playback(consumer: &mut SampleConsumer, block: &mut Vec<u32>, channel: u16, channels: u16) -> (underruns:
    usize)
    requires
        channels > 0,
    ensures
        exists|taken: Seq<Option<u32>>|
            {
                &&& taken.len() == frame_count(old(block)@.len(), channel, channels)
                &&& begins_with_queued(taken, queued(*old(consumer)))
                &&& #[trigger] played(old(block)@, channel, channels, taken) == final(block)@
                &&& underruns == misses(taken)
            },
        frame_count(old(block)@.len(), channel, channels) <= queued(*old(consumer)).len()
            ==> underruns == 0,
        queued(*final(consumer)) == queued(*old(consumer)).skip(
            if frame_count(old(block)@.len(), channel, channels) <= queued(*old(consumer)).len() {
                frame_count(old(block)@.len(), channel, channels) as int
            } else {
                queued(*old(consumer)).len() as int
            },
        ),
{
    let frames = count_frames(block.len(), channel, channels);
    let taken = take_samples(consumer, frames);
    let underruns = write_channel(block, channel, channels, &taken);
    proof {
        assert(taken@.take(taken@.len() as int) =~= taken@);
        if frames <= queued(*old(consumer)).len() {
            lemma_no_misses(taken@);
        }
    }
    underruns
}

} // verus!
