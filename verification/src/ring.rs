use vstd::prelude::*;
use rtrb::{Consumer, Producer, RingBuffer};
use crate::config::Config;

verus! {

#[verifier::external_type_specification]
#[verifier::external_body]
#[verifier::reject_recursive_types(T)]
pub struct ExProducer<T>(Producer<T>);

#[verifier::external_type_specification]
#[verifier::external_body]
#[verifier::reject_recursive_types(T)]
pub struct ExConsumer<T>(Consumer<T>);

/// The samples that have entered the ring through this producer, in the
/// order in which they entered.
pub uninterp spec fn pushed(p: Producer<u32>) -> Seq<u32>;

/// The number of slots of the ring that this producer writes to.
pub uninterp spec fn ring_capacity(p: Producer<u32>) -> nat;

/// The samples that have left the ring through this consumer, in the order
/// in which they left.
pub uninterp spec fn popped(c: Consumer<u32>) -> Seq<u32>;

/// How many times a push has been tried through this producer.
pub uninterp spec fn push_calls(p: Producer<u32>) -> nat;

/// How many times a pop has been tried through this consumer.
pub uninterp spec fn pop_calls(c: Consumer<u32>) -> nat;

/// The producer writes into the ring that the consumer reads from.
pub uninterp spec fn same_ring(p: Producer<u32>, c: Consumer<u32>) -> bool;

/// `rtrb::RingBuffer::new`: a ring with `capacity` slots, its producer and
/// its consumer, both over that one ring, through which nothing has passed
/// yet.  The crate panics
/// when `2 * capacity` or `capacity * size_of::<u32>()` bytes do not fit,
/// which the bound on `capacity` rules out.
#[verifier::external_body]
fn ring_new(capacity: usize) -> (r: (Producer<u32>, Consumer<u32>))
    requires
        capacity <= usize::MAX / 8,
    ensures
        pushed(r.0) == Seq::<u32>::empty(),
        ring_capacity(r.0) == capacity,
        popped(r.1) == Seq::<u32>::empty(),
        same_ring(r.0, r.1),
{
    RingBuffer::<u32>::new(capacity)
}

/// `rtrb::Producer::push`: on success the value enters the ring; when the
/// ring is full it is handed back.  The ring holds at most what this
/// producer has pushed, so while fewer samples than the capacity have ever
/// been pushed the ring cannot be full.  Whether it is full otherwise
/// depends on how far the consumer, on another thread, has read.
#[verifier::external_body]
fn ring_push(p: &mut Producer<u32>, value: u32) -> (r: Result<(), u32>)
    ensures
        r is Ok ==> pushed(*final(p)) == pushed(*old(p)).push(value),
        r is Err ==> pushed(*final(p)) == pushed(*old(p)),
        r matches Err(v) ==> v == value,
        pushed(*old(p)).len() < ring_capacity(*old(p)) ==> r is Ok,
        ring_capacity(*final(p)) == ring_capacity(*old(p)),
        forall|c: Consumer<u32>| same_ring(*old(p), c) ==> #[trigger] same_ring(*final(p), c),
        push_calls(*final(p)) == push_calls(*old(p)) + 1,
{
    match p.push(value) {
        Ok(()) => Ok(()),
        Err(rtrb::PushError::Full(v)) => Err(v),
    }
}

/// `rtrb::Consumer::pop`: the oldest sample in the ring, or nothing when the
/// ring is empty.  Whether it is empty depends on the producer, on another
/// thread; which sample comes out does not: the ring hands samples over in
/// the order they were pushed, so the n-th sample popped is the n-th sample
/// pushed into the same ring.
#[verifier::external_body]
fn ring_pop(c: &mut Consumer<u32>) -> (r: Option<u32>)
    ensures
        r matches Some(v) ==> popped(*final(c)) == popped(*old(c)).push(v),
        r is None ==> popped(*final(c)) == popped(*old(c)),
        forall|p: Producer<u32>| same_ring(p, *old(c)) ==> #[trigger] same_ring(p, *final(c)),
        r matches Some(v) ==> forall|p: Producer<u32>|
            same_ring(p, *old(c)) && popped(*old(c)).len() < #[trigger] pushed(p).len() ==> pushed(
                p,
            )[popped(*old(c)).len() as int] == v,
        pop_calls(*final(c)) == pop_calls(*old(c)) + 1,
{
    match c.pop() {
        Ok(v) => Some(v),
        Err(rtrb::PopError::Empty) => None,
    }
}

/// What a consumer has taken out agrees with what a producer has put in,
/// as far as both go.
pub open spec fn agrees(out: Seq<u32>, into: Seq<u32>) -> bool {
    forall|i: int| 0 <= i < out.len() && i < into.len() ==> out[i] == into[i]
}

/// The bit pattern of a silent sample.
pub const SILENCE: u32 = 0;

/// The latency between input and output, in milliseconds.
pub const LATENCY_MS: u32 = 100;

/// The largest capacity for which a ring can be allocated.
pub open spec fn max_ring_capacity() -> int {
    (usize::MAX / 8) as int
}

/// The samples of `s` whose entry in `mask` is true, in order.
pub open spec fn kept(s: Seq<u32>, mask: Seq<bool>) -> Seq<u32>
    decreases s.len(),
{
    if s.len() == 0 || mask.len() == 0 {
        Seq::empty()
    } else {
        kept(s.drop_last(), mask.drop_last()) + if mask.last() {
            seq![s.last()]
        } else {
            Seq::empty()
        }
    }
}

/// The number of false entries in `mask`.
pub open spec fn count_false(mask: Seq<bool>) -> nat
    decreases mask.len(),
{
    if mask.len() == 0 {
        0
    } else {
        count_false(mask.drop_last()) + if mask.last() {
            0nat
        } else {
            1nat
        }
    }
}

proof fn lemma_kept_step(s: Seq<u32>, mask: Seq<bool>, i: int, b: bool)
    requires
        0 <= i < s.len(),
        mask.len() == i,
    ensures
        kept(s.take(i + 1), mask.push(b)) == kept(s.take(i), mask) + if b {
            seq![s[i]]
        } else {
            Seq::empty()
        },
        count_false(mask.push(b)) == count_false(mask) + if b {
            0nat
        } else {
            1nat
        },
{
    assert(s.take(i + 1).drop_last() =~= s.take(i));
    assert(mask.push(b).drop_last() =~= mask);
}

proof fn lemma_kept_len(s: Seq<u32>, mask: Seq<bool>)
    requires
        mask.len() == s.len(),
    ensures
        kept(s, mask).len() + count_false(mask) == s.len(),
    decreases s.len(),
{
    if s.len() > 0 {
        lemma_kept_len(s.drop_last(), mask.drop_last());
    }
}

proof fn lemma_no_false_is_all_true(mask: Seq<bool>)
    requires
        count_false(mask) == 0,
    ensures
        forall|i: int| 0 <= i < mask.len() ==> mask[i],
    decreases mask.len(),
{
    if mask.len() > 0 {
        lemma_no_false_is_all_true(mask.drop_last());
        assert forall|i: int| 0 <= i < mask.len() implies mask[i] by {
            if i < mask.len() - 1 {
                assert(mask[i] == mask.drop_last()[i]);
            }
        }
    }
}

proof fn lemma_kept_all(s: Seq<u32>, mask: Seq<bool>)
    requires
        mask.len() == s.len(),
        forall|i: int| 0 <= i < mask.len() ==> mask[i],
    ensures
        kept(s, mask) == s,
        count_false(mask) == 0,
    decreases s.len(),
{
    if s.len() > 0 {
        lemma_kept_all(s.drop_last(), mask.drop_last());
        assert(s.drop_last().push(s.last()) =~= s);
    }
}

/// Samples of latency for a stream: `LATENCY_MS` of frames at `sample_rate`,
/// each frame holding `channels` samples.
pub open spec fn latency_samples_spec(sample_rate: u32, channels: u16) -> int {
    (sample_rate * LATENCY_MS / 1000) * channels
}

/// The latency is a tenth of a second of frames, rounded down.
pub proof fn lemma_latency_is_a_tenth_of_a_second(sample_rate: u32, channels: u16)
    ensures
        latency_samples_spec(sample_rate, channels) == (sample_rate / 10) * channels,
{
    assert(sample_rate * 100 / 1000 == sample_rate / 10) by (nonlinear_arith);
}

/// Samples that the ring holds for a configuration: the latency, and room
/// for ten input blocks on top of it.
pub open spec fn ring_capacity_spec(config: Config) -> int {
    latency_samples_spec(config.sample_rate, config.num_input_channels) + 10 * (
    config.num_input_channels * config.num_frames)
}

/// The ring holds a tenth of a second of input frames and, on top of it,
/// ten full input blocks of every input channel.
pub proof fn lemma_ring_holds_latency_and_ten_blocks(config: Config)
    ensures
        latency_samples_spec(config.sample_rate, config.num_input_channels) == (config.sample_rate
            / 10) * config.num_input_channels,
        ring_capacity_spec(config) == (config.sample_rate / 10) * config.num_input_channels + 10
            * config.num_input_channels * config.num_frames,
{
    lemma_latency_is_a_tenth_of_a_second(config.sample_rate, config.num_input_channels);
    let ch = config.num_input_channels as int;
    let fr = config.num_frames as int;
    assert(10 * (ch * fr) == 10 * ch * fr) by (nonlinear_arith);
}

/// How the ring between the input and the output stream is laid out.
#[derive(Debug, Clone, Copy, PartialEq, Eq)]
pub struct RingLayout {
    /// Slots of the ring.
    pub capacity: usize,
    /// Silent samples written before the streams start, which delay the
    /// input by the latency.
    pub prefill: usize,
}

/// The ring layout for `config`, or nothing when its capacity cannot be
/// allocated.
pub fn ring_layout(config: &Config) -> (r: Option<RingLayout>)
    ensures
        r is Some <==> ring_capacity_spec(*config) <= max_ring_capacity(),
        r matches Some(l) ==> l.capacity == ring_capacity_spec(*config) && l.prefill
            == latency_samples_spec(config.sample_rate, config.num_input_channels),
        r is Some <==> (config.sample_rate / 10) * config.num_input_channels + 10
            * config.num_input_channels * config.num_frames <= usize::MAX / 8,
        r matches Some(l) ==> l.prefill == (config.sample_rate / 10) * config.num_input_channels
            && l.capacity == l.prefill + 10 * config.num_input_channels * config.num_frames,
{
    proof {
        lemma_ring_holds_latency_and_ten_blocks(*config);
    }
    let rate = config.sample_rate as u128;
    let channels = config.num_input_channels as u128;
    let frames = config.num_frames as u128;
    assert(rate * 100 <= 0xffff_ffff * 100) by (nonlinear_arith)
        requires rate <= 0xffff_ffff;
    let frames_of_latency = rate * (LATENCY_MS as u128) / 1000;
    assert(frames_of_latency * channels <= 0xffff_ffff * 0xffff) by (nonlinear_arith)
        requires frames_of_latency <= 0xffff_ffff, channels <= 0xffff;
    let latency = frames_of_latency * channels;
    assert(channels * frames <= 0xffff * 0xffff_ffff_ffff_ffff) by (nonlinear_arith)
        requires frames <= 0xffff_ffff_ffff_ffff, channels <= 0xffff;
    let block = channels * frames;
    let capacity = latency + 10 * block;
    let limit = (usize::MAX / 8) as u128;
    if capacity <= limit {
        Some(RingLayout { capacity: capacity as usize, prefill: latency as usize })
    } else {
        None
    }
}

/// Opens the ring and fills it with the latency's worth of silence.
pub fn open_latency_ring(layout: &RingLayout) -> (r: (Producer<u32>, Consumer<u32>))
    requires
        layout.prefill <= layout.capacity,
        layout.capacity <= max_ring_capacity(),
    ensures
        pushed(r.0) == Seq::new(layout.prefill as nat, |i: int| SILENCE),
        ring_capacity(r.0) == layout.capacity,
        popped(r.1) == Seq::<u32>::empty(),
        same_ring(r.0, r.1),
{
    let (mut producer, consumer) = ring_new(layout.capacity);
    let mut i: usize = 0;
    while i < layout.prefill
        invariant
            i <= layout.prefill <= layout.capacity,
            ring_capacity(producer) == layout.capacity,
            pushed(producer) == Seq::new(i as nat, |k: int| SILENCE),
            same_ring(producer, consumer),
        decreases layout.prefill - i,
    {
        let r = ring_push(&mut producer, SILENCE);
        assert(r is Ok);
        assert(pushed(producer) =~= Seq::new((i + 1) as nat, |k: int| SILENCE));
        i = i + 1;
    }
    (producer, consumer)
}

/// Offers each sample of `data` to the ring, in order, and returns how many
/// did not fit.  The samples that fit enter the ring in their order; while
/// the ring has never been offered more than its capacity, all of them fit.
pub fn push_samples(producer: &mut Producer<u32>, data: &[u32]) -> (dropped: usize)
    ensures
        ring_capacity(*final(producer)) == ring_capacity(*old(producer)),
        forall|c: Consumer<u32>| same_ring(*old(producer), c) ==> #[trigger] same_ring(*final(producer), c),
        push_calls(*final(producer)) == push_calls(*old(producer)) + data@.len(),
        exists|mask: Seq<bool>|
            {
                &&& mask.len() == data@.len()
                &&& pushed(*final(producer)) == pushed(*old(producer)) + #[trigger] kept(data@, mask)
                &&& dropped == count_false(mask)
            },
        pushed(*final(producer)).len() + dropped == pushed(*old(producer)).len() + data@.len(),
        dropped == 0 ==> pushed(*final(producer)) == pushed(*old(producer)) + data@,
        pushed(*old(producer)).len() + data@.len() <= ring_capacity(*old(producer)) ==> dropped == 0
            && pushed(*final(producer)) == pushed(*old(producer)) + data@,
{
    let ghost start = pushed(*producer);
    let ghost mut mask: Seq<bool> = Seq::empty();
    let mut dropped: usize = 0;
    let mut i: usize = 0;
    while i < data.len()
        invariant
            i <= data@.len(),
            mask.len() == i,
            ring_capacity(*producer) == ring_capacity(*old(producer)),
            forall|c: Consumer<u32>| same_ring(*old(producer), c) ==> #[trigger] same_ring(*producer, c),
            push_calls(*producer) == push_calls(*old(producer)) + i,
            start == pushed(*old(producer)),
            pushed(*producer) == start + kept(data@.take(i as int), mask),
            dropped == count_false(mask),
            dropped <= i,
            start.len() + data@.len() <= ring_capacity(*old(producer)) ==> forall|k: int|
                0 <= k < i ==> mask[k],
        decreases data@.len() - i,
    {
        let r = ring_push(producer, data[i]);
        proof {
            lemma_kept_step(data@, mask, i as int, r is Ok);
            if start.len() + data@.len() <= ring_capacity(*old(producer)) {
                lemma_kept_all(data@.take(i as int), mask);
                assert(r is Ok);
            }
            mask = mask.push(r is Ok);
        }
        if r.is_err() {
            dropped = dropped + 1;
        }
        i = i + 1;
    }
    proof {
        assert(data@.take(i as int) =~= data@);
        lemma_kept_len(data@, mask);
        if dropped == 0 {
            lemma_no_false_is_all_true(mask);
            lemma_kept_all(data@, mask);
        }
        if start.len() + data@.len() <= ring_capacity(*old(producer)) {
            lemma_kept_all(data@, mask);
        }
    }
    dropped
}

/// Fills every slot of `block`, in order, with the next sample of the ring,
/// or with silence where the ring is empty, and returns how many slots were
/// silenced.  The samples taken from the ring are the unsilenced slots, in
/// order.
pub fn pop_samples(consumer: &mut Consumer<u32>, block: &mut Vec<u32>) -> (missing: usize)
    ensures
        final(block)@.len() == old(block)@.len(),
        forall|p: Producer<u32>| same_ring(p, *old(consumer)) ==> #[trigger] same_ring(p, *final(consumer)),
        forall|p: Producer<u32>|
            same_ring(p, *old(consumer)) && agrees(popped(*old(consumer)), pushed(p)) ==> #[trigger] agrees(
                popped(*final(consumer)),
                pushed(p),
            ),
        pop_calls(*final(consumer)) == pop_calls(*old(consumer)) + old(block)@.len(),
        missing == 0 ==> popped(*final(consumer)) == popped(*old(consumer)) + final(block)@,
        popped(*final(consumer)).len() + missing == popped(*old(consumer)).len() + old(block)@.len(),
        exists|mask: Seq<bool>|
            {
                &&& mask.len() == final(block)@.len()
                &&& popped(*final(consumer)) == popped(*old(consumer)) + #[trigger] kept(
                    final(block)@,
                    mask,
                )
                &&& forall|k: int| 0 <= k < mask.len() && !mask[k] ==> final(block)@[k] == SILENCE
                &&& missing == count_false(mask)
            },
{
    let ghost start = popped(*consumer);
    let ghost mut mask: Seq<bool> = Seq::empty();
    let mut missing: usize = 0;
    let n = block.len();
    let mut i: usize = 0;
    while i < n
        invariant
            n == block@.len(),
            n == old(block)@.len(),
            i <= n,
            mask.len() == i,
            start == popped(*old(consumer)),
            forall|p: Producer<u32>| same_ring(p, *old(consumer)) ==> #[trigger] same_ring(p, *consumer),
            forall|p: Producer<u32>|
                same_ring(p, *old(consumer)) && agrees(start, pushed(p)) ==> #[trigger] agrees(
                    popped(*consumer),
                    pushed(p),
                ),
            pop_calls(*consumer) == pop_calls(*old(consumer)) + i,
            popped(*consumer) == start + kept(block@.take(i as int), mask),
            forall|k: int| 0 <= k < i && !mask[k] ==> block@[k] == SILENCE,
            missing == count_false(mask),
            missing <= i,
        decreases n - i,
    {
        let ghost before = block@;
        let ghost before_popped = popped(*consumer);
        let ghost before_consumer = *consumer;
        let got = ring_pop(consumer);
        proof {
            assert forall|p: Producer<u32>|
                same_ring(p, *old(consumer)) && agrees(start, pushed(p)) implies #[trigger] agrees(
                    popped(*consumer),
                    pushed(p),
                ) by {
                assert(same_ring(p, before_consumer));
                assert(agrees(before_popped, pushed(p)));
                if let Some(v) = got {
                    if before_popped.len() < pushed(p).len() {
                        assert(pushed(p)[before_popped.len() as int] == v);
                    }
                    assert(popped(*consumer) == before_popped.push(v));
                }
            }
        }
        let sample = match got {
            Some(v) => v,
            None => SILENCE,
        };
        block.set(i, sample);
        proof {
            assert(block@.take(i as int) =~= before.take(i as int));
            lemma_kept_step(block@, mask, i as int, got is Some);
            mask = mask.push(got is Some);
        }
        if got.is_none() {
            missing = missing + 1;
        }
        i = i + 1;
    }
    proof {
        assert(block@.take(i as int) =~= block@);
        lemma_kept_len(block@, mask);
        if missing == 0 {
            lemma_no_false_is_all_true(mask);
            lemma_kept_all(block@, mask);
        }
    }
    missing
}

/// A consumer whose takings agree with a ring that was opened with
/// `prefill` samples of silence and then fed `input` reads, within what was
/// pushed, that silence first and then the input in its order.
pub proof fn lemma_ring_output_is_delayed_input(out: Seq<u32>, prefill: nat, input: Seq<u32>)
    requires
        agrees(out, Seq::new(prefill, |i: int| SILENCE) + input),
    ensures
        forall|i: int| 0 <= i < out.len() && i < prefill ==> out[i] == SILENCE,
        forall|i: int|
            prefill <= i < out.len() && i < prefill + input.len() ==> out[i] == input[i - prefill],
{
    let into = Seq::new(prefill, |i: int| SILENCE) + input;
    assert forall|i: int| 0 <= i < out.len() && i < prefill implies out[i] == SILENCE by {
        assert(out[i] == into[i]);
    }
    assert forall|i: int| prefill <= i < out.len() && i < prefill + input.len() implies out[i]
        == input[i - prefill] by {
        assert(out[i] == into[i]);
    }
}

} // verus!
