//! The sample tap: a bounded single-producer / single-consumer channel from
//! the real-time audio callback to the display. The writer never blocks and
//! keeps the newest part of a batch that does not fit; the reader always takes
//! the freshest samples and skips any older backlog.
//!
//! A sample travels through the tap as the bit pattern of its `f32` value.
//!
//! `push` and `get_latest` are for the two ends running concurrently: what
//! each finds in the channel depends on the other side, so their contracts
//! say what holds whatever it found. `push_with_reader` and
//! `get_latest_with_writer` borrow the other end for the call, so nothing
//! happens on that side meanwhile; their results are then exactly `pushed`
//! and `latest` of the queued samples, and the laws below apply to them.
use vstd::prelude::*;

verus! {

#[verifier::external_type_specification]
#[verifier::external_body]
#[verifier::reject_recursive_types(T)]
pub struct ExProducer<T>(rtrb::Producer<T>);

#[verifier::external_type_specification]
#[verifier::external_body]
#[verifier::reject_recursive_types(T)]
pub struct ExConsumer<T>(rtrb::Consumer<T>);

/// Every sample committed through this producer, oldest first.
pub uninterp spec fn producer_log(p: rtrb::Producer<u32>) -> Seq<u32>;

/// Every sample released through this consumer, oldest first.
pub uninterp spec fn consumer_log(c: rtrb::Consumer<u32>) -> Seq<u32>;

/// The capacity the ring buffer behind this producer was made with.
pub uninterp spec fn producer_capacity(p: rtrb::Producer<u32>) -> nat;

/// The capacity the ring buffer behind this consumer was made with.
pub uninterp spec fn consumer_capacity(c: rtrb::Consumer<u32>) -> nat;

/// Whether the two ends belong to the same ring buffer.
pub uninterp spec fn same_channel(p: rtrb::Producer<u32>, c: rtrb::Consumer<u32>) -> bool;

/// `a` is where `b` begins.
pub open spec fn starts(b: Seq<u32>, a: Seq<u32>) -> bool {
    a.len() <= b.len() && b.subrange(0, a.len() as int) == a
}

/// The two ends of one channel agree: everything released was committed
/// before, in the same order, and no more than `capacity` samples wait.
pub open spec fn in_step(committed: Seq<u32>, released: Seq<u32>, capacity: nat) -> bool {
    starts(committed, released) && committed.len() - released.len() <= capacity
}

/// The samples waiting in a channel: committed but not yet released.
pub open spec fn waiting(committed: Seq<u32>, released: Seq<u32>) -> Seq<u32> {
    committed.subrange(released.len() as int, committed.len() as int)
}

/// Relies on `rtrb::RingBuffer::new`: both ends of a fresh, empty buffer of
/// `capacity` slots (the storage is allocated at once, so its size in bytes
/// must fit an `isize`).
#[verifier::external_body]
fn ring_buffer(capacity: usize) -> (r: (rtrb::Producer<u32>, rtrb::Consumer<u32>))
    requires
        capacity <= usize::MAX / 8,
    ensures
        producer_log(r.0) == Seq::<u32>::empty(),
        consumer_log(r.1) == Seq::<u32>::empty(),
        producer_capacity(r.0) == capacity,
        consumer_capacity(r.1) == capacity,
        same_channel(r.0, r.1),
{
    rtrb::RingBuffer::new(capacity)
}

/// Relies on `rtrb::Producer::slots`: the free slots, that is the capacity
/// less what was committed and not yet released; so never fewer than the
/// capacity less all that this producer committed. When the caller also
/// holds the consumer, nothing is released meanwhile and the count is exact.
#[verifier::external_body]
fn free_slots(p: &rtrb::Producer<u32>, reader: Option<&rtrb::Consumer<u32>>) -> (r: usize)
    ensures
        r <= producer_capacity(*p),
        r + producer_log(*p).len() >= producer_capacity(*p),
        reader matches Some(c) ==> (same_channel(*p, *c) && in_step(
            producer_log(*p),
            consumer_log(*c),
            producer_capacity(*p),
        ) ==> r == producer_capacity(*p) - (producer_log(*p).len() - consumer_log(*c).len())),
{
    let _ = reader;
    p.slots()
}

/// Relies on `rtrb::Producer::write_chunk_uninit` and
/// `WriteChunkUninit::fill_from_iter`: when `items.len()` slots are free, all
/// of `items` is committed in order; otherwise nothing is written and the
/// error holds the free slots, fewer than asked for (and never fewer than the
/// capacity less all that this producer committed).
#[verifier::external_body]
fn write_all(p: &mut rtrb::Producer<u32>, items: &[u32], reader: Option<&rtrb::Consumer<u32>>) -> (r:
    Result<(), usize>)
    requires
        items@.len() >= 1,
    ensures
        producer_capacity(*final(p)) == producer_capacity(*old(p)),
        forall|c: rtrb::Consumer<u32>| #[trigger]
            same_channel(*old(p), c) ==> same_channel(*final(p), c),
        r is Ok ==> producer_log(*final(p)) == producer_log(*old(p)) + items@,
        r matches Err(s) ==> producer_log(*final(p)) == producer_log(*old(p)) && s < items@.len()
            && s + producer_log(*old(p)).len() >= producer_capacity(*old(p)),
        reader matches Some(c) ==> (same_channel(*old(p), *c) && in_step(
            producer_log(*old(p)),
            consumer_log(*c),
            producer_capacity(*old(p)),
        ) ==> (r is Ok <==> items@.len() + (producer_log(*old(p)).len() - consumer_log(*c).len())
            <= producer_capacity(*old(p)))),
{
    let _ = reader;
    match p.write_chunk_uninit(items.len()) {
        Ok(chunk) => {
            chunk.fill_from_iter(items.iter().copied());
            Ok(())
        },
        Err(rtrb::chunks::ChunkError::TooFewSlots(s)) => Err(s),
    }
}

/// Relies on `rtrb::Consumer::slots`: the number of queued samples, never
/// more than the capacity. When the caller also holds the producer, nothing
/// is committed meanwhile and the count is exact.
#[verifier::external_body]
fn queued_slots(c: &rtrb::Consumer<u32>, writer: Option<&rtrb::Producer<u32>>) -> (r: usize)
    ensures
        r <= consumer_capacity(*c),
        writer matches Some(p) ==> (same_channel(*p, *c) && in_step(
            producer_log(*p),
            consumer_log(*c),
            consumer_capacity(*c),
        ) ==> r == producer_log(*p).len() - consumer_log(*c).len()),
{
    let _ = writer;
    c.slots()
}

/// Relies on `rtrb::Consumer::read_chunk` and `ReadChunk::commit_all`: when
/// `n` samples are queued, the oldest `n` are released without being copied;
/// otherwise nothing is released. What was released is always the start of
/// what any producer of the channel committed.
#[verifier::external_body]
fn drop_oldest(c: &mut rtrb::Consumer<u32>, n: usize, writer: Option<&rtrb::Producer<u32>>) -> (r:
    bool)
    requires
        n >= 1,
    ensures
        consumer_capacity(*final(c)) == consumer_capacity(*old(c)),
        forall|p: rtrb::Producer<u32>| #[trigger]
            same_channel(p, *old(c)) ==> same_channel(p, *final(c)),
        r ==> exists|s: Seq<u32>|
            s.len() == n && consumer_log(*final(c)) == consumer_log(*old(c)) + s,
        !r ==> consumer_log(*final(c)) == consumer_log(*old(c)),
        forall|p: rtrb::Producer<u32>|
            same_channel(p, *final(c)) && producer_log(p).len() >= consumer_log(*final(c)).len()
                ==> #[trigger] starts(producer_log(p), consumer_log(*final(c))),
        writer matches Some(p) ==> (same_channel(*p, *old(c)) && in_step(
            producer_log(*p),
            consumer_log(*old(c)),
            consumer_capacity(*old(c)),
        ) ==> (r <==> n <= producer_log(*p).len() - consumer_log(*old(c)).len())),
{
    let _ = writer;
    match c.read_chunk(n) {
        Ok(chunk) => {
            chunk.commit_all();
            true
        },
        Err(_) => false,
    }
}

/// Relies on `rtrb::Consumer::read_chunk`, `ReadChunk::as_slices` and
/// `ReadChunk::commit_all`: when `n` samples are queued, the oldest `n` are
/// copied out in order and released; otherwise nothing is taken. What was
/// released is always the start of what any producer of the channel
/// committed.
#[verifier::external_body]
fn take_oldest(c: &mut rtrb::Consumer<u32>, n: usize, writer: Option<&rtrb::Producer<u32>>) -> (r:
    Option<Vec<u32>>)
    requires
        n >= 1,
    ensures
        consumer_capacity(*final(c)) == consumer_capacity(*old(c)),
        forall|p: rtrb::Producer<u32>| #[trigger]
            same_channel(p, *old(c)) ==> same_channel(p, *final(c)),
        r matches Some(v) ==> v@.len() == n && consumer_log(*final(c)) == consumer_log(*old(c))
            + v@,
        r is None ==> consumer_log(*final(c)) == consumer_log(*old(c)),
        forall|p: rtrb::Producer<u32>|
            same_channel(p, *final(c)) && producer_log(p).len() >= consumer_log(*final(c)).len()
                ==> #[trigger] starts(producer_log(p), consumer_log(*final(c))),
        writer matches Some(p) ==> (same_channel(*p, *old(c)) && in_step(
            producer_log(*p),
            consumer_log(*old(c)),
            consumer_capacity(*old(c)),
        ) ==> (r is Some <==> n <= producer_log(*p).len() - consumer_log(*old(c)).len())),
{
    let _ = writer;
    let chunk = c.read_chunk(n).ok()?;
    let (first, second) = chunk.as_slices();
    let mut out = Vec::with_capacity(n);
    out.extend_from_slice(first);
    out.extend_from_slice(second);
    chunk.commit_all();
    Some(out)
}

/// The smaller of two integers.
pub open spec fn min_of(a: int, b: int) -> int {
    if a <= b { a } else { b }
}

/// How many of a batch of `len` samples fit into `free` slots.
pub open spec fn fitting(len: int, free: int) -> int {
    min_of(len, free)
}

/// The channel after a batch is offered to it: the newest samples of the
/// batch that fit into the free slots are appended, the older ones of the
/// batch are dropped.
pub open spec fn pushed(queued: Seq<u32>, capacity: nat, batch: Seq<u32>) -> Seq<u32> {
    let n = fitting(batch.len() as int, capacity - queued.len());
    queued + batch.subrange(batch.len() - n, batch.len() as int)
}

/// How many samples a read of `amount` hands out when `queued` are waiting.
pub open spec fn latest_count(queued: int, capacity: int, amount: int) -> int {
    min_of(queued, min_of(amount, capacity))
}

/// What a read of `amount` from the channel hands out: its freshest samples,
/// at most `amount` and at most the capacity of them, in order.
pub open spec fn latest(queued: Seq<u32>, capacity: nat, amount: nat) -> Seq<u32> {
    let k = latest_count(queued.len() as int, capacity as int, amount as int);
    queued.subrange(queued.len() - k, queued.len() as int)
}

/// A batch that fits into the free slots is kept whole, and a read of at least
/// its length from an otherwise empty channel returns exactly that batch, in
/// order.
pub proof fn law_fitting_batch_round_trip(capacity: nat, batch: Seq<u32>, amount: nat)
    requires
        batch.len() <= capacity,
        batch.len() <= amount,
    ensures
        pushed(Seq::empty(), capacity, batch) == batch,
        latest(pushed(Seq::empty(), capacity, batch), capacity, amount) == batch,
{
    assert(pushed(Seq::empty(), capacity, batch) =~= batch);
    assert(latest(batch, capacity, amount) =~= batch);
}

/// A batch larger than the free space keeps its newest `free` samples and
/// drops its oldest `len - free`; the channel then holds no more than its
/// capacity.
pub proof fn law_overflowing_batch(queued: Seq<u32>, capacity: nat, batch: Seq<u32>)
    requires
        queued.len() <= capacity,
        batch.len() > capacity - queued.len(),
    ensures
        pushed(queued, capacity, batch) == queued + batch.subrange(
            batch.len() - (capacity - queued.len()),
            batch.len() as int,
        ),
        pushed(queued, capacity, batch).len() == capacity,
{
}

/// Offering a batch never leaves more than the capacity queued.
pub proof fn law_push_bounded(queued: Seq<u32>, capacity: nat, batch: Seq<u32>)
    requires
        queued.len() <= capacity,
    ensures
        pushed(queued, capacity, batch).len() <= capacity,
{
}

/// Asking for more than is queued returns just what is queued: shorter than
/// asked, never padded.
pub proof fn law_short_read(queued: Seq<u32>, capacity: nat, amount: nat)
    requires
        queued.len() <= capacity,
        amount > queued.len(),
    ensures
        latest(queued, capacity, amount) == queued,
        latest(queued, capacity, amount).len() < amount,
{
    assert(latest(queued, capacity, amount) =~= queued);
}

/// Offering each batch in turn, with no read in between.
pub open spec fn pushed_all(queued: Seq<u32>, capacity: nat, batches: Seq<Seq<u32>>) -> Seq<u32>
    decreases batches.len(),
{
    if batches.len() == 0 {
        queued
    } else {
        pushed_all(pushed(queued, capacity, batches[0]), capacity, batches.drop_first())
    }
}

/// All samples of a run of batches, in the order they were produced.
pub open spec fn stream(batches: Seq<Seq<u32>>) -> Seq<u32>
    decreases batches.len(),
{
    if batches.len() == 0 {
        Seq::empty()
    } else {
        batches[0] + stream(batches.drop_first())
    }
}

proof fn lemma_pushed_all_fits(queued: Seq<u32>, capacity: nat, batches: Seq<Seq<u32>>)
    requires
        queued.len() + stream(batches).len() <= capacity,
    ensures
        pushed_all(queued, capacity, batches) == queued + stream(batches),
    decreases batches.len(),
{
    if batches.len() > 0 {
        let b = batches[0];
        assert(stream(batches) == b + stream(batches.drop_first()));
        assert(pushed(queued, capacity, b) =~= queued + b);
        lemma_pushed_all_fits(queued + b, capacity, batches.drop_first());
        assert(queued + b + stream(batches.drop_first()) =~= queued + stream(batches));
    } else {
        assert(queued + stream(batches) =~= queued);
    }
}

/// However much unread backlog a burst of writes has built up, a read of
/// `amount` returns the most recently produced `amount` samples (all of them
/// when fewer were produced), in order.
pub proof fn law_read_after_burst(
    queued: Seq<u32>,
    capacity: nat,
    batches: Seq<Seq<u32>>,
    amount: nat,
)
    requires
        queued.len() + stream(batches).len() <= capacity,
    ensures
        ({
            let all = queued + stream(batches);
            let k = min_of(amount as int, all.len() as int);
            latest(pushed_all(queued, capacity, batches), capacity, amount) == all.subrange(
                all.len() - k,
                all.len() as int,
            )
        }),
{
    lemma_pushed_all_fits(queued, capacity, batches);
}

/// The part of a batch of `len` samples that is written into `free` slots, as
/// `(skipped, written)`: the oldest `skipped` samples are dropped, the next
/// `written` ones (the newest of the batch) are written.
pub fn write_span(len: usize, free: usize) -> (r: (usize, usize))
    ensures
        r.1 == fitting(len as int, free as int),
        r.0 + r.1 == len,
{
    let to_write = if len <= free { len } else { free };
    (len - to_write, to_write)
}

/// How a read of `amount` from a channel of `capacity` with `available`
/// queued samples proceeds, as `(discarded, read)`: the oldest `discarded`
/// samples are released unread, then `read` samples are copied out.
pub fn read_span(amount: usize, capacity: usize, available: usize) -> (r: (usize, usize))
    ensures
        r.1 == latest_count(available as int, capacity as int, amount as int),
        r.0 + r.1 == available,
{
    let output_len = if amount <= capacity { amount } else { capacity };
    if available > output_len {
        (available - output_len, output_len)
    } else {
        (0, available)
    }
}

/// The producer end of a tap.
pub struct TapWriter {
    producer: rtrb::Producer<u32>,
}

/// The consumer end of a tap, with the capacity it was made with.
pub struct TapReader {
    consumer: rtrb::Consumer<u32>,
    capacity: usize,
}

/// The two ends of one tap, in step (see `in_step`).
pub open spec fn paired(w: &TapWriter, r: &TapReader) -> bool {
    &&& w.linked_to(r)
    &&& r.wf()
    &&& w.capacity() == r.capacity()
    &&& in_step(w.log(), r.log(), r.capacity())
}

/// The samples waiting in the tap between a writer and its reader.
pub open spec fn queued(w: &TapWriter, r: &TapReader) -> Seq<u32> {
    waiting(w.log(), r.log())
}

proof fn lemma_waiting_append(committed: Seq<u32>, released: Seq<u32>, t: Seq<u32>)
    requires
        starts(committed, released),
    ensures
        waiting(committed + t, released) == waiting(committed, released) + t,
        starts(committed + t, released),
{
    assert(waiting(committed + t, released) =~= waiting(committed, released) + t);
    assert((committed + t).subrange(0, released.len() as int) =~= committed.subrange(
        0,
        released.len() as int,
    ));
}

impl TapWriter {
    /// Every sample this writer has committed to the channel, oldest first.
    pub closed spec fn log(&self) -> Seq<u32> {
        producer_log(self.producer)
    }

    /// The number of slots of the channel.
    pub closed spec fn capacity(&self) -> nat {
        producer_capacity(self.producer)
    }

    /// This writer feeds the channel that `reader` drains.
    pub closed spec fn linked_to(&self, reader: &TapReader) -> bool {
        same_channel(self.producer, reader.consumer)
    }

    /// Writes the newest samples of the batch that fit. Should the channel
    /// turn out to hold fewer free slots than first seen, the newest samples
    /// that fit then are written instead.
    fn offer(&mut self, samples: &[u32], reader: Option<&rtrb::Consumer<u32>>)
        requires
            reader matches Some(c) ==> same_channel(old(self).producer, *c) && in_step(
                old(self).log(),
                consumer_log(*c),
                old(self).capacity(),
            ),
        ensures
            final(self).capacity() == old(self).capacity(),
            forall|r: TapReader| #[trigger] old(self).linked_to(&r) ==> final(self).linked_to(&r),
            exists|free: int|
                old(self).capacity() - old(self).log().len() <= free <= old(self).capacity()
                    && final(self).log() == old(self).log() + samples@.subrange(
                    samples@.len() - fitting(samples@.len() as int, free),
                    samples@.len() as int,
                ),
            reader matches Some(c) ==> final(self).log() == old(self).log() + samples@.subrange(
                samples@.len() - fitting(
                    samples@.len() as int,
                    old(self).capacity() - (old(self).log().len() - consumer_log(*c).len()),
                ),
                samples@.len() as int,
            ),
    {
        let ghost start = self.log();
        let ghost cap = self.capacity();
        let ghost len = samples@.len() as int;
        let mut free = free_slots(&self.producer, reader);
        let ghost first = free;
        loop
            invariant
                len == samples@.len(),
                self.log() == start,
                self.capacity() == cap,
                cap == old(self).capacity(),
                start == old(self).log(),
                free <= cap,
                free + start.len() >= cap,
                reader matches Some(c) ==> same_channel(self.producer, *c) && in_step(
                    start,
                    consumer_log(*c),
                    cap,
                ) && free == cap - (start.len() - consumer_log(*c).len()),
                forall|r: TapReader| #[trigger] old(self).linked_to(&r) ==> self.linked_to(&r),
            decreases free,
        {
            let (skip, to_write) = write_span(samples.len(), free);
            if to_write == 0 {
                assert(fitting(len, free as int) == 0);
                assert(samples@.subrange(len - fitting(len, free as int), len) =~= Seq::<
                    u32,
                >::empty());
                assert(self.log() =~= start + samples@.subrange(
                    len - fitting(len, free as int),
                    len,
                ));
                return;
            }
            let tail = vstd::slice::slice_subrange(samples, skip, samples.len());
            let ghost before = self.producer;
            match write_all(&mut self.producer, tail, reader) {
                Ok(()) => {
                    assert(forall|r: TapReader|
                        old(self).linked_to(&r) ==> same_channel(before, r.consumer));
                    return;
                },
                Err(now) => {
                    assert(forall|r: TapReader|
                        old(self).linked_to(&r) ==> same_channel(before, r.consumer));
                    free = now;
                },
            }
        }
    }

    /// Offers a batch of samples to the channel without blocking. The newest
    /// samples of the batch that fit into the free slots are committed in
    /// order and the older ones of this batch are dropped; the backlog is
    /// never touched. The free slots are at least the capacity less what this
    /// writer ever committed (a concurrent reader may have freed more), so a
    /// batch that fits that bound is committed whole.
    pub fn push(&mut self, samples: &[u32])
        ensures
            final(self).capacity() == old(self).capacity(),
            forall|r: TapReader| #[trigger] old(self).linked_to(&r) ==> final(self).linked_to(&r),
            exists|free: int|
                old(self).capacity() - old(self).log().len() <= free <= old(self).capacity()
                    && final(self).log() == old(self).log() + samples@.subrange(
                    samples@.len() - fitting(samples@.len() as int, free),
                    samples@.len() as int,
                ),
    {
        self.offer(samples, None);
    }

    /// `push`, while holding the reader so that nothing is read meanwhile:
    /// the queued samples become exactly `pushed` of the queued ones before.
    pub fn push_with_reader(&mut self, reader: &TapReader, samples: &[u32])
        requires
            paired(old(self), reader),
        ensures
            paired(final(self), reader),
            queued(final(self), reader) == pushed(
                queued(old(self), reader),
                reader.capacity(),
                samples@,
            ),
    {
        let ghost q = queued(self, reader);
        let ghost len = samples@.len() as int;
        let ghost free = self.capacity() - (self.log().len() - reader.log().len());
        self.offer(samples, Some(&reader.consumer));
        let ghost t = samples@.subrange(len - fitting(len, free), len);
        proof {
            lemma_waiting_append(old(self).log(), reader.log(), t);
            assert(q.len() == old(self).log().len() - reader.log().len());
        }
    }
}

impl TapReader {
    /// Every sample this reader has taken from the channel (handed out or
    /// skipped), oldest first.
    pub closed spec fn log(&self) -> Seq<u32> {
        consumer_log(self.consumer)
    }

    /// The capacity the tap was made with.
    pub closed spec fn capacity(&self) -> nat {
        self.capacity as nat
    }

    /// The recorded capacity is the one the channel was made with, and what
    /// was released is the start of what any producer of the channel
    /// committed, whenever that producer committed at least as much.
    pub closed spec fn wf(&self) -> bool {
        &&& self.capacity as nat == consumer_capacity(self.consumer)
        &&& forall|p: rtrb::Producer<u32>|
            same_channel(p, self.consumer) && producer_log(p).len() >= consumer_log(
                self.consumer,
            ).len() ==> #[trigger] starts(producer_log(p), consumer_log(self.consumer))
    }

    /// What this reader released is the start of what `w` committed, when
    /// `w` feeds its channel and committed at least as much.
    pub open spec fn follows(&self, w: &TapWriter) -> bool {
        w.linked_to(self) && w.log().len() >= self.log().len() ==> starts(w.log(), self.log())
    }

    /// Releases the backlog beyond the freshest `amount` samples, then copies
    /// those out.
    fn drain(&mut self, amount: usize, writer: Option<&rtrb::Producer<u32>>) -> (r: Vec<u32>)
        requires
            old(self).wf(),
            writer matches Some(p) ==> same_channel(*p, old(self).consumer) && in_step(
                producer_log(*p),
                old(self).log(),
                old(self).capacity(),
            ),
        ensures
            final(self).wf(),
            final(self).capacity() == old(self).capacity(),
            forall|w: TapWriter| #[trigger] w.linked_to(old(self)) ==> w.linked_to(final(self)),
            r@.len() <= min_of(amount as int, old(self).capacity() as int),
            exists|skipped: Seq<u32>| final(self).log() == old(self).log() + skipped + r@,
            writer matches Some(p) ==> {
                let q = waiting(producer_log(*p), old(self).log());
                &&& r@ == latest(q, old(self).capacity(), amount as nat)
                &&& final(self).log() == producer_log(*p)
            },
    {
        let ghost start = self.log();
        let ghost cap = self.capacity();
        let available = queued_slots(&self.consumer, writer);
        if available == 0 {
            assert(self.log() =~= start + Seq::<u32>::empty() + Seq::<u32>::empty());
            proof {
                if let Some(p) = writer {
                    let q = waiting(producer_log(*p), start);
                    assert(q =~= Seq::<u32>::empty());
                    assert(latest(q, cap, amount as nat) =~= Seq::<u32>::empty());
                    assert(producer_log(*p) =~= start);
                }
            }
            return Vec::new();
        }
        let (discard, _) = read_span(amount, self.capacity, available);
        if discard > 0 {
            drop_oldest(&mut self.consumer, discard, writer);
        }
        let ghost mid = self.log();
        assert(exists|s: Seq<u32>| mid == start + s) by {
            if mid == start {
                assert(mid =~= start + Seq::<u32>::empty());
            }
        }
        let ghost skipped = choose|s: Seq<u32>| mid == start + s;
        proof {
            if let Some(p) = writer {
                assert(mid.len() == start.len() + discard);
                assert(starts(producer_log(*p), mid));
            }
        }
        let now = queued_slots(&self.consumer, writer);
        let (_, to_read) = read_span(amount, self.capacity, now);
        if to_read == 0 {
            assert(self.log() =~= start + skipped + Seq::<u32>::empty());
            proof {
                if let Some(p) = writer {
                    let pl = producer_log(*p);
                    let q = waiting(pl, start);
                    assert(now == 0);
                    assert(mid =~= pl);
                    assert(latest(q, cap, amount as nat) =~= Seq::<u32>::empty());
                }
            }
            return Vec::new();
        }
        match take_oldest(&mut self.consumer, to_read, writer) {
            Some(v) => {
                assert(self.log() =~= start + skipped + v@);
                proof {
                    if let Some(p) = writer {
                        let pl = producer_log(*p);
                        let q = waiting(pl, start);
                        assert(self.log().len() == pl.len());
                        assert(starts(pl, self.log()));
                        assert(self.log() =~= pl);
                        let k = latest_count(q.len() as int, cap as int, amount as int);
                        assert(v@ =~= self.log().subrange(mid.len() as int, pl.len() as int));
                        assert(latest(q, cap, amount as nat) =~= pl.subrange(
                            pl.len() - k,
                            pl.len() as int,
                        ));
                    }
                }
                v
            },
            None => {
                assert(self.log() =~= start + skipped + Seq::<u32>::empty());
                Vec::new()
            },
        }
    }

    /// Takes the freshest samples: at most `amount` and at most the capacity
    /// of them. When more are queued, the older excess is released unread, so
    /// that a slow reader catches up instead of falling behind; when fewer are
    /// queued, only those come back. What leaves the channel is the next run
    /// of what the writer committed, in order: the skipped backlog, then the
    /// result. How much is queued is decided by the concurrent writer.
    pub fn get_latest(&mut self, amount: usize) -> (r: Vec<u32>)
        requires
            old(self).wf(),
        ensures
            final(self).wf(),
            final(self).capacity() == old(self).capacity(),
            forall|w: TapWriter| #[trigger] w.linked_to(old(self)) ==> w.linked_to(final(self)),
            r@.len() <= min_of(amount as int, old(self).capacity() as int),
            exists|skipped: Seq<u32>| final(self).log() == old(self).log() + skipped + r@,
            forall|w: TapWriter| #[trigger] final(self).follows(&w),
    {
        self.drain(amount, None)
    }

    /// `get_latest`, while holding the writer so that nothing is written
    /// meanwhile: the result is exactly `latest` of the queued samples, and
    /// nothing stays queued.
    pub fn get_latest_with_writer(&mut self, writer: &TapWriter, amount: usize) -> (r: Vec<u32>)
        requires
            paired(writer, old(self)),
        ensures
            paired(writer, final(self)),
            r@ == latest(queued(writer, old(self)), old(self).capacity(), amount as nat),
            queued(writer, final(self)) == Seq::<u32>::empty(),
    {
        let r = self.drain(amount, Some(&writer.producer));
        assert(waiting(writer.log(), self.log()) =~= Seq::<u32>::empty());
        assert(starts(writer.log(), self.log())) by {
            assert(writer.log().subrange(0, self.log().len() as int) =~= self.log());
        }
        r
    }
}

/// Makes the two ends of a tap with room for `capacity` samples; both start
/// empty and in step.
pub fn new_tap(capacity: usize) -> (r: (TapWriter, TapReader))
    requires
        capacity <= usize::MAX / 8,
    ensures
        r.0.log() == Seq::<u32>::empty(),
        r.1.log() == Seq::<u32>::empty(),
        r.0.capacity() == capacity,
        r.1.capacity() == capacity,
        paired(&r.0, &r.1),
{
    let (producer, consumer) = ring_buffer(capacity);
    let r = (TapWriter { producer }, TapReader { consumer, capacity });
    assert(starts(r.0.log(), r.1.log())) by {
        assert(r.0.log().subrange(0, 0) =~= r.1.log());
    }
    assert forall|p: rtrb::Producer<u32>|
        same_channel(p, r.1.consumer) && producer_log(p).len() >= consumer_log(r.1.consumer).len()
            implies #[trigger] starts(producer_log(p), consumer_log(r.1.consumer)) by {
        assert(producer_log(p).subrange(0, 0) =~= consumer_log(r.1.consumer));
    }
    r
}

} // verus!
