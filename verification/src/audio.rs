//! The audio path between the microphone and the server: which device is used, how captured samples
//! are grouped for the resampler, and the ring buffer whose samples go out as bytes.

use crate::text;
use crate::text::{contains, same_text};
use ringbuf::traits::{Consumer, Observer, Producer, Split};
use vstd::prelude::*;

verus! {

/// The sample rate that the server takes, in Hertz.
pub const TARGET_SAMPLE_RATE: usize = 16_000;

/// The number of samples that the ring buffer holds, about half a minute of them.
pub const RING_BUFFER_CAPACITY: usize = 524_288;

/// The number of samples that the resampler is asked to work on at a time.
pub const RESAMPLER_CHUNK_SIZE: usize = 1024;

/// The number of parts that the resampler splits its work into.
pub const RESAMPLER_SUB_CHUNKS: usize = 2;

/// An input device.
#[derive(Debug, Clone, Copy, PartialEq, Eq, Structural)]
pub enum DeviceChoice {
    /// The default device of the system.
    SystemDefault,
    /// The device at this place in the list of devices.
    Listed(usize),
    /// None of the devices.
    NotFound,
}

/// Whether `choice` is the device that `wanted` asks for among devices of these names.
pub open spec fn asked_for(choice: DeviceChoice, wanted: Seq<char>, names: Seq<Seq<char>>) -> bool {
    match choice {
        DeviceChoice::SystemDefault => wanted == "default"@,
        DeviceChoice::Listed(i) => {
            &&& wanted != "default"@
            &&& i < names.len()
            &&& text::occurs_in(names[i as int], wanted)
            &&& forall|j: int| 0 <= j < i ==> !text::occurs_in(#[trigger] names[j], wanted)
        },
        DeviceChoice::NotFound => {
            &&& wanted != "default"@
            &&& forall|j: int|
                0 <= j < names.len() ==> !text::occurs_in(#[trigger] names[j], wanted)
        },
    }
}

/// Picks the input device that `wanted` asks for: the default one by the name "default", else the
/// first whose name contains `wanted`.
pub fn choose_device(wanted: &str, names: &[String]) -> (choice: DeviceChoice)
    ensures
        asked_for(choice, wanted@, text::texts(names@)),
        match choice {
            DeviceChoice::SystemDefault => wanted@ == "default"@,
            DeviceChoice::Listed(i) => {
                &&& wanted@ != "default"@
                &&& i < names@.len()
                &&& text::occurs_in(names@[i as int]@, wanted@)
                &&& forall|j: int|
                    0 <= j < i ==> !text::occurs_in((#[trigger] names@[j])@, wanted@)
            },
            DeviceChoice::NotFound => {
                &&& wanted@ != "default"@
                &&& forall|j: int|
                    0 <= j < names@.len() ==> !text::occurs_in((#[trigger] names@[j])@, wanted@)
            },
        },
{
    if same_text(wanted, "default") {
        return DeviceChoice::SystemDefault;
    }
    let mut i: usize = 0;
    while i < names.len()
        invariant
            i <= names@.len(),
            wanted@ != "default"@,
            forall|j: int| 0 <= j < i ==> !text::occurs_in((#[trigger] names@[j])@, wanted@),
        decreases names@.len() - i,
    {
        if contains(names[i].as_str(), wanted) {
            assert forall|j: int| 0 <= j < i implies !text::occurs_in(
                #[trigger] text::texts(names@)[j],
                wanted@,
            ) by {
                assert(!text::occurs_in(names@[j]@, wanted@));
            }
            return DeviceChoice::Listed(i);
        }
        i = i + 1;
    }
    assert forall|j: int| 0 <= j < names@.len() implies !text::occurs_in(
        #[trigger] text::texts(names@)[j],
        wanted@,
    ) by {
        assert(!text::occurs_in(names@[j]@, wanted@));
    }
    DeviceChoice::NotFound
}

/// Whether audio at this rate and in this many channels has to be resampled.
pub open spec fn resampling_is_due(sample_rate: int, channels: int) -> bool {
    sample_rate != TARGET_SAMPLE_RATE || channels > 1
}

/// Whether captured audio has to be resampled: it comes at another rate than the server takes, or
/// in more than one channel.
pub fn needs_resample(sample_rate: usize, channels: u16) -> (r: bool)
    ensures
        r == (sample_rate != TARGET_SAMPLE_RATE || channels > 1),
        r == resampling_is_due(sample_rate as int, channels as int),
{
    sample_rate != TARGET_SAMPLE_RATE || channels > 1
}

/// The samples of `chunks`, one chunk after the other.
pub open spec fn flattened<T>(chunks: Seq<Vec<T>>) -> Seq<T>
    decreases chunks.len(),
{
    if chunks.len() == 0 {
        Seq::empty()
    } else {
        flattened(chunks.drop_last()) + chunks.last()@
    }
}

/// Groups samples into chunks of one size. What does not fill a chunk waits for more.
pub struct ChunkBuffer<T> {
    pub waiting: Vec<T>,
    pub chunk_size: usize,
}

impl<T: Copy> ChunkBuffer<T> {
    /// Less than a chunk is waiting.
    pub open spec fn well_formed(&self) -> bool {
        self.waiting@.len() < self.chunk_size
    }

    pub fn new(chunk_size: usize) -> (buffer: Self)
        requires
            chunk_size > 0,
        ensures
            buffer.well_formed(),
            buffer.chunk_size == chunk_size,
            buffer.waiting@ == Seq::<T>::empty(),
    {
        ChunkBuffer { waiting: Vec::new(), chunk_size }
    }

    /// Takes in `samples` and returns the chunks that are full. No sample is lost, repeated or
    /// moved.
    pub fn take_chunks(&mut self, samples: &[T]) -> (chunks: Vec<Vec<T>>)
        requires
            old(self).well_formed(),
        ensures
            final(self).well_formed(),
            final(self).chunk_size == old(self).chunk_size,
            forall|i: int|
                0 <= i < chunks@.len() ==> (#[trigger] chunks@[i])@.len() == old(self).chunk_size,
            flattened(chunks@) + final(self).waiting@ == old(self).waiting@ + samples@,
    {
        let mut chunks: Vec<Vec<T>> = Vec::new();
        let mut i: usize = 0;
        proof {
            assert(flattened(chunks@) + self.waiting@ =~= old(self).waiting@ + samples@.take(0));
        }
        while i < samples.len()
            invariant
                i <= samples@.len(),
                self.well_formed(),
                self.chunk_size == old(self).chunk_size,
                forall|k: int|
                    0 <= k < chunks@.len() ==> (#[trigger] chunks@[k])@.len() == old(
                        self,
                    ).chunk_size,
                flattened(chunks@) + self.waiting@ == old(self).waiting@ + samples@.take(i as int),
            decreases samples@.len() - i,
        {
            let ghost done = flattened(chunks@);
            let ghost waiting = self.waiting@;
            let mut filled: Vec<T> = Vec::new();
            proof {
                assert(old(self).waiting@ + samples@.take(i + 1) =~= (old(self).waiting@
                    + samples@.take(i as int)).push(samples@[i as int]));
                assert(done + waiting.push(samples@[i as int]) =~= (done + waiting).push(
                    samples@[i as int],
                ));
            }
            self.waiting.push(samples[i]);
            if self.waiting.len() == self.chunk_size {
                filled.append(&mut self.waiting);
                let ghost before = chunks@;
                chunks.push(filled);
                proof {
                    assert(chunks@.drop_last() =~= before);
                    assert(filled@ =~= waiting.push(samples@[i as int]));
                    assert(flattened(chunks@) + self.waiting@ =~= done + filled@);
                }
            }
            i = i + 1;
        }
        proof {
            assert(samples@.take(i as int) =~= samples@);
        }
        chunks
    }
}

/// The two bytes of `sample` in two's complement, the low one first.
pub open spec fn le_bytes(sample: i16) -> Seq<u8> {
    let bits = sample as int % 65536;
    seq![(bits % 256) as u8, (bits / 256) as u8]
}

/// `samples` as signed 16-bit little-endian bytes.
pub open spec fn s16le(samples: Seq<i16>) -> Seq<u8>
    decreases samples.len(),
{
    if samples.len() == 0 {
        Seq::empty()
    } else {
        s16le(samples.drop_last()) + le_bytes(samples.last())
    }
}

/// Writes `samples` as signed 16-bit little-endian bytes.
pub fn encode_s16le(samples: &[i16]) -> (bytes: Vec<u8>)
    ensures
        bytes@ == s16le(samples@),
{
    let mut bytes: Vec<u8> = Vec::new();
    let mut i: usize = 0;
    while i < samples.len()
        invariant
            i <= samples@.len(),
            bytes@ == s16le(samples@.take(i as int)),
        decreases samples@.len() - i,
    {
        let sample: i32 = samples[i] as i32;
        let bits: i32 = if sample < 0 {
            sample + 65536
        } else {
            sample
        };
        let ghost before = bytes@;
        bytes.push((bits % 256) as u8);
        bytes.push((bits / 256) as u8);
        proof {
            assert(samples@.take(i + 1).drop_last() =~= samples@.take(i as int));
            assert(bits == samples@[i as int] as int % 65536);
            assert(bytes@ =~= before + le_bytes(samples@[i as int]));
        }
        i = i + 1;
    }
    proof {
        assert(samples@.take(i as int) =~= samples@);
    }
    bytes
}

/// The sample that two bytes stand for.
pub open spec fn sample_of(low: u8, high: u8) -> int {
    let bits = low as int + 256 * high;
    if bits < 32768 {
        bits
    } else {
        bits - 65536
    }
}

/// Each sample takes two bytes, and can be read back from them.
pub proof fn law_samples_can_be_read_back(samples: Seq<i16>)
    ensures
        s16le(samples).len() == 2 * samples.len(),
        forall|i: int|
            0 <= i < samples.len() ==> #[trigger] samples[i] == sample_of(
                s16le(samples)[2 * i],
                s16le(samples)[2 * i + 1],
            ),
    decreases samples.len(),
{
    if samples.len() > 0 {
        law_samples_can_be_read_back(samples.drop_last());
        let before = s16le(samples.drop_last());
        assert forall|i: int| 0 <= i < samples.len() implies #[trigger] samples[i] == sample_of(
            s16le(samples)[2 * i],
            s16le(samples)[2 * i + 1],
        ) by {
            if i < samples.len() - 1 {
                assert(samples.drop_last()[i] == samples[i]);
                assert(s16le(samples)[2 * i] == before[2 * i]);
                assert(s16le(samples)[2 * i + 1] == before[2 * i + 1]);
            } else {
                assert(s16le(samples)[2 * i] == le_bytes(samples[i])[0]);
                assert(s16le(samples)[2 * i + 1] == le_bytes(samples[i])[1]);
            }
        }
    }
}

/// Samples that go out in two parts go out as the same bytes.
pub proof fn law_bytes_go_on_across_drains(earlier: Seq<i16>, later: Seq<i16>)
    ensures
        s16le(earlier + later) == s16le(earlier) + s16le(later),
    decreases later.len(),
{
    if later.len() == 0 {
        assert(earlier + later =~= earlier);
        assert(s16le(earlier) + s16le(later) =~= s16le(earlier));
    } else {
        law_bytes_go_on_across_drains(earlier, later.drop_last());
        assert((earlier + later).drop_last() =~= earlier + later.drop_last());
        assert(s16le(earlier + later) =~= s16le(earlier) + s16le(later));
    }
}

/// The writing end of a ring buffer of samples, ringbuf's `HeapProd`.
#[verifier::external_body]
pub struct SampleProducer {
    inner: ringbuf::HeapProd<i16>,
}

/// The reading end of a ring buffer of samples, ringbuf's `HeapCons`.
#[verifier::external_body]
pub struct SampleConsumer {
    inner: ringbuf::HeapCons<i16>,
}

/// How many samples the writing end has room for, as far as it knows what was read.
pub uninterp spec fn room(producer: SampleProducer) -> nat;

/// The samples that have been written through the writing end since its ring buffer was made, the
/// oldest first.
pub uninterp spec fn written(producer: SampleProducer) -> Seq<i16>;

/// The samples that the reading end knows of and has not handed out, the oldest first.
pub uninterp spec fn pending(consumer: SampleConsumer) -> Seq<i16>;

/// The samples that the reading end has handed out since its ring buffer was made, the oldest
/// first.
pub uninterp spec fn taken(consumer: SampleConsumer) -> Seq<i16>;

/// Whether the two are the ends of one ring buffer, each at whatever moment of its life.
pub uninterp spec fn same_ring(producer: SampleProducer, consumer: SampleConsumer) -> bool;

/// All the samples that have reached the reading end, the oldest first.
pub open spec fn received(consumer: SampleConsumer) -> Seq<i16> {
    taken(consumer) + pending(consumer)
}

/// Whether what was written and what was received agree as far as both go.
pub open spec fn one_stream(producer: SampleProducer, consumer: SampleConsumer) -> bool {
    received(consumer).is_prefix_of(written(producer)) || written(producer).is_prefix_of(
        received(consumer),
    )
}

/// `HeapRb::new` and `Split::split`. The ring buffer is empty and takes `capacity` samples.
#[verifier::external_body]
fn ring_of(capacity: usize) -> (ends: (SampleProducer, SampleConsumer))
    requires
        0 < capacity <= RING_BUFFER_CAPACITY,
    ensures
        room(ends.0) == capacity,
        written(ends.0) == Seq::<i16>::empty(),
        pending(ends.1) == Seq::<i16>::empty(),
        taken(ends.1) == Seq::<i16>::empty(),
        same_ring(ends.0, ends.1),
{
    let (producer, consumer) = ringbuf::HeapRb::<i16>::new(capacity).split();
    (SampleProducer { inner: producer }, SampleConsumer { inner: consumer })
}

/// `Producer::push_slice`. Samples are appended from the front of `samples` until there is no more
/// room; before that the writing end may learn of room that the reading end has made. The buffer
/// is first in, first out, so that what is written agrees with what the reading end receives.
#[verifier::external_body]
fn push_slice(producer: &mut SampleProducer, samples: &[i16]) -> (pushed: usize)
    ensures
        pushed <= samples@.len(),
        written(*final(producer)) == written(*old(producer)) + samples@.take(pushed as int),
        pushed < samples@.len() ==> room(*final(producer)) == 0,
        room(*final(producer)) + pushed >= room(*old(producer)),
        forall|c: SampleConsumer| #[trigger]
            same_ring(*old(producer), c) ==> same_ring(*final(producer), c) && one_stream(
                *final(producer),
                c,
            ),
{
    producer.inner.push_slice(samples)
}

/// `Observer::occupied_len`, which first learns what was written since. That comes behind what was
/// known; the length is that of all that is known then. Nothing is handed out, and what is known
/// is what was written, in the order of writing.
#[verifier::external_body]
fn occupied_len(consumer: &mut SampleConsumer) -> (len: usize)
    ensures
        pending(*old(consumer)).is_prefix_of(pending(*final(consumer))),
        len == pending(*final(consumer)).len(),
        taken(*final(consumer)) == taken(*old(consumer)),
        forall|p: SampleProducer| #[trigger]
            same_ring(p, *old(consumer)) ==> same_ring(p, *final(consumer)) && one_stream(
                p,
                *final(consumer),
            ),
{
    consumer.inner.occupied_len()
}

/// `Consumer::pop_slice`, which first learns what was written since. The oldest samples are moved
/// to the front of `samples`, as many as there are or as it takes, and the rest of it is kept.
/// Those samples are handed out; they are what was written, in the order of writing.
#[verifier::external_body]
fn pop_slice(consumer: &mut SampleConsumer, samples: &mut Vec<i16>) -> (popped: usize)
    ensures
        popped <= old(samples)@.len(),
        final(samples)@.len() == old(samples)@.len(),
        final(samples)@.skip(popped as int) == old(samples)@.skip(popped as int),
        popped < old(samples)@.len() ==> pending(*final(consumer)).len() == 0,
        pending(*old(consumer)).is_prefix_of(
            final(samples)@.take(popped as int) + pending(*final(consumer)),
        ),
        taken(*final(consumer)) == taken(*old(consumer)) + final(samples)@.take(popped as int),
        forall|p: SampleProducer| #[trigger]
            same_ring(p, *old(consumer)) ==> same_ring(p, *final(consumer)) && one_stream(
                p,
                *final(consumer),
            ),
{
    consumer.inner.pop_slice(samples)
}

/// Makes a ring buffer for captured samples and returns its two ends.
pub fn sample_ring() -> (ends: (SampleProducer, SampleConsumer))
    ensures
        room(ends.0) == RING_BUFFER_CAPACITY,
        written(ends.0) == Seq::<i16>::empty(),
        pending(ends.1) == Seq::<i16>::empty(),
        taken(ends.1) == Seq::<i16>::empty(),
        same_ring(ends.0, ends.1),
{
    ring_of(RING_BUFFER_CAPACITY)
}

impl SampleProducer {
    /// Appends as many of `samples` as there is room for, from the front and in order, and returns
    /// how many. The rest is lost.
    pub fn push(&mut self, samples: &[i16]) -> (pushed: usize)
        ensures
            pushed <= samples@.len(),
            written(*final(self)) == written(*old(self)) + samples@.take(pushed as int),
            pushed < samples@.len() ==> room(*final(self)) == 0,
            room(*final(self)) + pushed >= room(*old(self)),
            room(*old(self)) >= samples@.len() ==> written(*final(self)) == written(*old(self))
                + samples@,
            forall|c: SampleConsumer| #[trigger]
                same_ring(*old(self), c) ==> same_ring(*final(self), c) && one_stream(
                    *final(self),
                    c,
                ),
    {
        let pushed = push_slice(self, samples);
        proof {
            assert(samples@.take(samples@.len() as int) =~= samples@);
        }
        pushed
    }
}

impl SampleConsumer {
    /// Learns what was written, and returns how many samples are there to be read.
    pub fn fetch(&mut self) -> (available: usize)
        ensures
            pending(*old(self)).is_prefix_of(pending(*final(self))),
            available == pending(*final(self)).len(),
            taken(*final(self)) == taken(*old(self)),
            forall|p: SampleProducer| #[trigger]
                same_ring(p, *old(self)) ==> same_ring(p, *final(self)) && one_stream(
                    p,
                    *final(self),
                ),
    {
        occupied_len(self)
    }

    /// Reads the oldest `count` samples.
    pub fn read(&mut self, count: usize) -> (samples: Vec<i16>)
        requires
            count <= pending(*old(self)).len(),
        ensures
            samples@ == pending(*old(self)).take(count as int),
            pending(*old(self)).skip(count as int).is_prefix_of(pending(*final(self))),
            taken(*final(self)) == taken(*old(self)) + samples@,
            forall|p: SampleProducer| #[trigger]
                same_ring(p, *old(self)) ==> same_ring(p, *final(self)) && one_stream(
                    p,
                    *final(self),
                ),
    {
        let mut samples: Vec<i16> = Vec::new();
        let mut i: usize = 0;
        while i < count
            invariant
                i <= count,
                samples@.len() == i,
            decreases count - i,
        {
            samples.push(0);
            i = i + 1;
        }
        let popped = pop_slice(self, &mut samples);
        proof {
            let known = pending(*old(self));
            let left = pending(*self);
            assert(known =~= (samples@.take(popped as int) + left).take(known.len() as int));
            assert(popped == count);
            assert(samples@.take(popped as int) =~= samples@);
            assert(samples@ =~= known.take(count as int));
            assert(known.skip(count as int) =~= left.take(known.len() - count));
        }
        samples
    }
}

/// The samples that were handed out between two moments of a reading end.
pub open spec fn handed_out(earlier: SampleConsumer, later: SampleConsumer) -> Seq<i16> {
    taken(later).skip(taken(earlier).len() as int)
}

/// Reads all samples that have been written, and returns them as signed 16-bit little-endian bytes.
/// Each sample that leaves the ring buffer is among them, and no other. Those that the reading end
/// knew of come first; how many follow is up to the thread that writes.
pub fn drain_s16le(consumer: &mut SampleConsumer) -> (bytes: Vec<u8>)
    ensures
        taken(*old(consumer)).is_prefix_of(taken(*final(consumer))),
        bytes@ == s16le(handed_out(*old(consumer), *final(consumer))),
        pending(*old(consumer)).is_prefix_of(handed_out(*old(consumer), *final(consumer))),
        forall|p: SampleProducer| #[trigger]
            same_ring(p, *old(consumer)) ==> same_ring(p, *final(consumer)) && one_stream(
                p,
                *final(consumer),
            ),
{
    let available = consumer.fetch();
    let ghost known = pending(*consumer);
    if available == 0 {
        proof {
            assert(handed_out(*old(consumer), *consumer) =~= known);
        }
        return Vec::new();
    }
    let samples = consumer.read(available);
    proof {
        assert(known.take(available as int) =~= known);
        assert(handed_out(*old(consumer), *consumer) =~= known);
    }
    encode_s16le(samples.as_slice())
}

/// What is read is what was written: the samples that the reading end has handed out are the first
/// ones that the writing end of the same ring buffer has taken in, each once and in order, and so
/// are the bytes made of them.
pub proof fn law_reads_give_back_writes(producer: SampleProducer, consumer: SampleConsumer)
    requires
        one_stream(producer, consumer),
    ensures
        forall|i: int|
            0 <= i < taken(consumer).len() && i < written(producer).len() ==> #[trigger] taken(
                consumer,
            )[i] == written(producer)[i],
        taken(consumer).len() <= written(producer).len() ==> taken(consumer) == written(
            producer,
        ).take(taken(consumer).len() as int) && s16le(taken(consumer)).is_prefix_of(
            s16le(written(producer)),
        ),
{
    let (out, all) = (taken(consumer), received(consumer));
    assert forall|i: int| 0 <= i < out.len() && i < written(producer).len() implies #[trigger] out[i]
        == written(producer)[i] by {
        assert(out[i] == all[i]);
    }
    if out.len() <= written(producer).len() {
        let n = out.len() as int;
        assert(out =~= written(producer).take(n));
        assert(out + written(producer).skip(n) =~= written(producer));
        law_bytes_go_on_across_drains(out, written(producer).skip(n));
    }
}

/// The samples of chunks come one chunk after the other, each in its own order.
pub proof fn law_chunks_are_read_in_order<T>(chunks: Seq<Vec<T>>, chunk: Vec<T>)
    ensures
        flattened(Seq::<Vec<T>>::empty()) == Seq::<T>::empty(),
        flattened(chunks.push(chunk)) == flattened(chunks) + chunk@,
{
    assert(chunks.push(chunk).drop_last() =~= chunks);
}

/// What was handed out before and what was handed out since make up all that was handed out.
pub proof fn law_handed_out_is_what_came_since(earlier: SampleConsumer, later: SampleConsumer)
    requires
        taken(earlier).is_prefix_of(taken(later)),
    ensures
        taken(earlier) + handed_out(earlier, later) == taken(later),
{
    assert(taken(earlier) + handed_out(earlier, later) =~= taken(later));
}

/// Audio goes through as it is exactly at sixteen thousand samples a second and in one channel at
/// most.
pub proof fn law_only_mono_at_the_server_rate_goes_through(sample_rate: int, channels: int)
    ensures
        resampling_is_due(sample_rate, channels) <==> sample_rate != 16000 || channels >= 2,
{
}

/// The word "default" asks for the default device and for no other; any other word asks for the
/// first device whose name can be written with the word in the middle, and for none where there is
/// no such device.
pub proof fn law_devices_are_asked_for_by_a_part_of_their_name(
    choice: DeviceChoice,
    wanted: Seq<char>,
    names: Seq<Seq<char>>,
    i: int,
    before: Seq<char>,
    after: Seq<char>,
)
    requires
        asked_for(choice, wanted, names),
    ensures
        choice == DeviceChoice::SystemDefault <==> wanted == "default"@,
        0 <= i < names.len() && names[i] == before + wanted + after && wanted != "default"@ ==> (
        choice matches DeviceChoice::Listed(first) && first <= i),
        choice matches DeviceChoice::Listed(first) ==> first < names.len() && exists|
            front: Seq<char>,
            back: Seq<char>,
        |
            names[first as int] == #[trigger] (front + wanted + back),
{
    if 0 <= i < names.len() {
        text::law_a_part_has_a_text_around_it(names[i], wanted);
    }
    if let DeviceChoice::Listed(first) = choice {
        text::law_a_part_has_a_text_around_it(names[first as int], wanted);
    }
}

} // verus!
