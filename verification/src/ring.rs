//! The bridge between the decode thread and the audio callback.
//!
//! [`RingSource`] pops interleaved samples from a ring buffer with one producer and one consumer.
//! It never blocks: on underrun it emits silence and counts the event. This keeps blocking
//! network reads and decoding off the real-time thread entirely.
//!
//! A sample is carried as its 32 bits; silence is the sample whose bits are all zero.

use rtrb::{Consumer, Producer, RingBuffer};
use vstd::prelude::*;

verus! {

/// Seconds of audio the ring can hold.
pub const RING_SECONDS: usize = 2;

/// The sample that is heard as nothing.
pub const SILENCE: u32 = 0;

/// The writing end of a ring of the crate `rtrb`.
#[verifier::external_type_specification]
#[verifier::external_body]
#[verifier::reject_recursive_types(T)]
pub struct ExProducer<T>(Producer<T>);

/// The reading end of a ring of the crate `rtrb`.
#[verifier::external_type_specification]
#[verifier::external_body]
#[verifier::reject_recursive_types(T)]
pub struct ExConsumer<T>(Consumer<T>);

/// Every sample that was pushed through this end, in order.
pub uninterp spec fn sent(p: Producer<u32>) -> Seq<u32>;

/// How many samples the ring of this end holds at most.
pub uninterp spec fn room(p: Producer<u32>) -> usize;

/// Every sample that was popped through this end, in order.
pub uninterp spec fn taken(c: Consumer<u32>) -> Seq<u32>;

/// `rtrb::RingBuffer::new`: the two ends of an empty ring of the given capacity. That what is
/// taken from one end is what was sent through the other is left unsaid: no single call sees
/// both.
#[verifier::external_body]
fn new_ring(capacity: usize) -> (r: (Producer<u32>, Consumer<u32>))
    requires
        capacity * 4 <= isize::MAX,
    ensures
        sent(r.0) == Seq::<u32>::empty(),
        room(r.0) == capacity,
        taken(r.1) == Seq::<u32>::empty(),
{
    RingBuffer::new(capacity)
}

/// `rtrb::Producer::push`: whether there was room for the sample. Where there was none, nothing
/// is sent. There is room as long as fewer samples were sent than the ring can hold, for it holds
/// no sample that was not sent; a ring without any capacity never has room. Otherwise it depends
/// on how much the thread at the other end has taken.
#[verifier::external_body]
fn push(p: &mut Producer<u32>, sample: u32) -> (sent_it: bool)
    ensures
        room(*final(p)) == room(*old(p)),
        sent(*old(p)).len() < room(*old(p)) ==> sent_it,
        room(*old(p)) == 0 ==> !sent_it,
        sent_it ==> sent(*final(p)) == sent(*old(p)).push(sample),
        !sent_it ==> sent(*final(p)) == sent(*old(p)),
{
    match p.push(sample) {
        Ok(()) => true,
        Err(_) => false,
    }
}

/// `rtrb::Producer::slots`: how many samples there is room for, never more than the capacity. At
/// most what was sent is not free, for the ring holds no other sample. The number between the two
/// depends on how much the thread at the other end has taken.
#[verifier::external_body]
fn slots(p: &Producer<u32>) -> (n: usize)
    ensures
        n <= room(*p),
        room(*p) <= n + sent(*p).len(),
{
    p.slots()
}

/// `rtrb::Consumer::pop`: the next sample, or nothing when the ring is empty. Which it is
/// depends on the thread at the other end.
#[verifier::external_body]
fn pop(c: &mut Consumer<u32>) -> (r: Option<u32>)
    ensures
        match r {
            Some(s) => taken(*final(c)) == taken(*old(c)).push(s),
            None => taken(*final(c)) == taken(*old(c)),
        },
{
    c.pop().ok()
}

/// `rtrb::Consumer::is_abandoned`: whether the other end is gone. That depends on the thread at
/// the other end.
#[verifier::external_body]
fn is_abandoned(c: &Consumer<u32>) -> (r: bool) {
    c.is_abandoned()
}

/// One ring's occupancy, as each end knows it.
#[derive(Debug, Clone, Copy, PartialEq, Eq, Structural)]
pub struct RingStats {
    /// Count of underrun *events* (contiguous silent runs), not silent samples. Never reset; the
    /// engine derives "did anything new happen" by comparing, not by clearing this.
    pub underruns: u64,
    /// How many samples the ring holds, as last reported.
    pub fill: usize,
    /// How many samples were pushed, in steps of the check.
    pub pushed: u64,
    pub capacity: usize,
}

/// The writing end, on the decode thread.
pub struct RingHandle {
    pub producer: Producer<u32>,
    pub capacity: usize,
}

/// The reading end, on the audio callback.
pub struct RingSource {
    pub consumer: Consumer<u32>,
    pub stats: RingStats,
    pub sample_rate: u32,
    pub channels: u16,
    /// Whether the current silent run has already been counted, so that a contiguous run of
    /// underrun samples counts exactly once, not once per silent sample.
    pub in_underrun: bool,
    /// Once the producer is gone and the ring is drained, the source ends.
    pub finished: bool,
}

/// A ring for two seconds of sound.
pub fn ring(sample_rate: u32, channels: u16) -> (r: (RingHandle, RingSource))
    requires
        sample_rate > 0,
        channels > 0,
        sample_rate * channels * RING_SECONDS * 4 <= isize::MAX,
    ensures
        r.0.wf(),
        r.0.capacity == sample_rate * channels * RING_SECONDS,
        sent(r.0.producer) == Seq::<u32>::empty(),
        taken(r.1.consumer) == Seq::<u32>::empty(),
        r.1.stats == (RingStats { underruns: 0, fill: 0, pushed: 0, capacity: r.0.capacity }),
        r.1.sample_rate == sample_rate,
        r.1.channels == channels,
        !r.1.in_underrun,
        !r.1.finished,
{
    assert(0 <= sample_rate * channels <= sample_rate * channels * RING_SECONDS * 4)
        by (nonlinear_arith)
        requires
            RING_SECONDS == 2,
            sample_rate > 0,
            channels > 0,
    ;
    let capacity: usize = sample_rate as usize * channels as usize * RING_SECONDS;
    let (producer, consumer) = new_ring(capacity);
    (
        RingHandle { producer, capacity },
        RingSource {
            consumer,
            stats: RingStats { underruns: 0, fill: 0, pushed: 0, capacity },
            sample_rate,
            channels,
            in_underrun: false,
            finished: false,
        },
    )
}

impl RingHandle {
    pub open spec fn wf(&self) -> bool {
        room(self.producer) == self.capacity
    }

    /// Pushes a sample; `false` when the ring is full and the sample must be offered again. The
    /// ring cannot be full before as many samples were sent as it has room for; after that it
    /// depends on the reading end.
    pub fn push(&mut self, sample: u32) -> (sent_it: bool)
        requires
            old(self).wf(),
        ensures
            final(self).wf(),
            final(self).capacity == old(self).capacity,
            sent(old(self).producer).len() < old(self).capacity ==> sent_it,
            old(self).capacity == 0 ==> !sent_it,
            sent(final(self).producer) == (if sent_it {
                sent(old(self).producer).push(sample)
            } else {
                sent(old(self).producer)
            }),
    {
        push(&mut self.producer, sample)
    }

    /// How many samples the ring holds: of those that were sent, as many as the reading end has
    /// left there.
    pub fn filled(&self) -> (n: usize)
        requires
            self.wf(),
        ensures
            n <= self.capacity,
            n <= sent(self.producer).len(),
    {
        self.filled_beside(slots(&self.producer))
    }

    /// How many samples the ring holds when there is room for `free` more.
    pub fn filled_beside(&self, free: usize) -> (n: usize)
        requires
            free <= self.capacity,
        ensures
            n == self.capacity - free,
    {
        self.capacity - free
    }
}

/// The underrun count and the fill after a pop, and whether a silent run goes on.
pub open spec fn after_pop(
    stats: RingStats,
    in_underrun: bool,
    popped: Option<u32>,
    abandoned: bool,
) -> (RingStats, bool, Option<u32>) {
    match popped {
        Some(s) => (stats, false, Some(s)),
        None => if abandoned {
            (stats, in_underrun, None)
        } else if in_underrun {
            (stats, true, Some(SILENCE))
        } else {
            (
                RingStats {
                    underruns: if stats.underruns < u64::MAX {
                        (stats.underruns + 1) as u64
                    } else {
                        0
                    },
                    fill: 0,
                    ..stats
                },
                true,
                Some(SILENCE),
            )
        },
    }
}

impl RingSource {
    /// The next sample: one from the ring; silence while it is empty; nothing once it is drained
    /// and the producer is gone.
    pub fn next(&mut self) -> (sample: Option<u32>)
        ensures
            final(self).sample_rate == old(self).sample_rate,
            final(self).channels == old(self).channels,
            old(self).finished ==> sample is None && *final(self) == *old(self),
            !old(self).finished ==> {
                &&& final(self).finished == (sample is None)
                &&& exists|popped: Option<u32>, abandoned: bool|
                    taken(final(self).consumer) == (match popped {
                        Some(s) => taken(old(self).consumer).push(s),
                        None => taken(old(self).consumer),
                    }) && (final(self).stats, final(self).in_underrun, sample)
                        == #[trigger] after_pop(
                        old(self).stats,
                        old(self).in_underrun,
                        popped,
                        abandoned,
                    )
            },
    {
        if self.finished {
            return None;
        }
        let popped = pop(&mut self.consumer);
        let abandoned = if popped.is_none() {
            is_abandoned(&self.consumer)
        } else {
            false
        };
        self.popped(popped, abandoned)
    }

    /// Takes what a pop gave, and, where it gave nothing, whether the producer is gone.
    pub fn popped(&mut self, popped: Option<u32>, abandoned: bool) -> (sample: Option<u32>)
        requires
            !old(self).finished,
        ensures
            final(self).consumer == old(self).consumer,
            final(self).sample_rate == old(self).sample_rate,
            final(self).channels == old(self).channels,
            (final(self).stats, final(self).in_underrun, sample) == after_pop(
                old(self).stats,
                old(self).in_underrun,
                popped,
                abandoned,
            ),
            final(self).finished == (sample is None),
    {
        match popped {
            Some(s) => {
                self.in_underrun = false;
                Some(s)
            },
            None => {
                if abandoned {
                    self.finished = true;
                    return None;
                }
                if !self.in_underrun {
                    self.in_underrun = true;
                    self.stats.underruns = self.stats.underruns.wrapping_add(1);
                    // The decode thread only reports the fill from time to time and may be
                    // blocked on a stalled network read for many seconds; setting it to 0 here,
                    // where the ring was just seen empty, stops the engine from reading a stale
                    // high fill and "recovering" while nothing has changed.
                    self.stats.fill = 0;
                }
                Some(SILENCE)
            },
        }
    }
}

/// The underruns counted over a run of pops that gave what `pops` says, with the producer alive.
pub open spec fn after_pops(stats: RingStats, in_underrun: bool, pops: Seq<Option<u32>>) -> (
    RingStats,
    bool,
)
    decreases pops.len(),
{
    if pops.len() == 0 {
        (stats, in_underrun)
    } else {
        let (s, u) = after_pops(stats, in_underrun, pops.drop_last());
        let (s, u, _) = after_pop(s, u, pops.last(), false);
        (s, u)
    }
}

/// A contiguous run of empty pops counts as one underrun, however long it is, and leaves the fill
/// at nothing.
pub proof fn a_silent_run_counts_once(stats: RingStats, pops: Seq<Option<u32>>)
    requires
        stats.underruns < u64::MAX,
        pops.len() > 0,
        forall|i: int| 0 <= i < pops.len() ==> (#[trigger] pops[i]) is None,
    ensures
        after_pops(stats, false, pops).0.underruns == stats.underruns + 1,
        after_pops(stats, false, pops).0.fill == 0,
        after_pops(stats, false, pops).1,
    decreases pops.len(),
{
    assert(pops[pops.len() - 1] is None);
    if pops.len() > 1 {
        let before = pops.drop_last();
        assert forall|i: int| 0 <= i < before.len() implies (#[trigger] before[i]) is None by {
            assert(before[i] == pops[i]);
        }
        a_silent_run_counts_once(stats, before);
    } else {
        assert(pops.drop_last() =~= Seq::<Option<u32>>::empty());
        assert(after_pops(stats, false, pops.drop_last()) == (stats, false));
    }
}

/// A sample that was popped is heard, and ends a silent run. Where none was, silence is heard for as
/// long as the other end is there, and nothing once it is gone; only the first silence of a run is
/// counted, and it leaves the fill at nothing.
pub proof fn what_a_pop_gives(stats: RingStats, in_underrun: bool, s: u32, abandoned: bool)
    requires
        stats.underruns < u64::MAX,
    ensures
        after_pop(stats, in_underrun, Some(s), abandoned) == (stats, false, Some(s)),
        after_pop(stats, in_underrun, None, true).2 is None,
        after_pop(stats, in_underrun, None, true).0 == stats,
        after_pop(stats, in_underrun, None, false).2 == Some(0u32),
        after_pop(stats, in_underrun, None, false).1,
        after_pop(stats, true, None, false).0 == stats,
        after_pop(stats, false, None, false).0 == (RingStats {
            underruns: (stats.underruns + 1) as u64,
            fill: 0,
            ..stats
        }),
{
}

} // verus!
