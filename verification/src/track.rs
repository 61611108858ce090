//! The clock of a video track, and what is noted of its packets.

use crate::time::{group_durations, JsonDuration};
use vstd::prelude::*;

verus! {

broadcast use group_durations;

/// Tells how far into a track its samples are. `P` makes packets of them for a
/// connection.
#[derive(Debug)]
pub struct TrackLocalStaticSample<P> {
    /// What makes the packets, once the track is bound to a connection.
    pub packetizer: Option<P>,
    /// The time of the sample that the others are counted from.
    pub base: Option<JsonDuration>,
}

impl<P> TrackLocalStaticSample<P> {
    /// A track that is bound to no connection.
    pub fn new() -> (r: TrackLocalStaticSample<P>)
        ensures
            r.packetizer is None,
            r.base is None,
    {
        TrackLocalStaticSample { packetizer: None, base: None }
    }

    /// Whether the track is bound to a connection.
    pub open spec fn is_bound(self) -> bool {
        self.packetizer is Some
    }

    /// The track after it was bound to one more connection.
    pub open spec fn after_bind(self, packetizer: P) -> TrackLocalStaticSample<P> {
        if self.is_bound() {
            self
        } else {
            TrackLocalStaticSample { packetizer: Some(packetizer), ..self }
        }
    }

    /// Binds the track to a connection, and tells whether it was not bound before.
    /// Only the first connection brings what makes the packets.
    pub fn bind(&mut self, packetizer: P) -> (r: bool)
        ensures
            r == !old(self).is_bound(),
            *final(self) == old(self).after_bind(packetizer),
    {
        let fresh: bool = self.packetizer.is_none();
        if fresh {
            self.packetizer = Some(packetizer);
        }
        fresh
    }

    /// The track when it counts from the next sample on.
    pub open spec fn after_rebase(self) -> TrackLocalStaticSample<P> {
        TrackLocalStaticSample { base: None, ..self }
    }

    /// Counts from the next sample on.
    pub fn rebase(&mut self)
        ensures
            *final(self) == old(self).after_rebase(),
    {
        self.base = None;
    }

    /// Whether the sample can be written: it is not earlier than the one that is
    /// counted from.
    pub open spec fn can_write(self, time: JsonDuration) -> bool {
        self.is_bound() ==> (self.base matches Some(base) ==> base@ <= time@)
    }

    /// Whether the sample can be written.
    pub fn may_write(&self, time: JsonDuration) -> (r: bool)
        ensures
            r == self.can_write(time),
    {
        match self.base {
            Some(base) => self.packetizer.is_none() || base <= time,
            None => true,
        }
    }

    /// The track after a sample.
    pub open spec fn after_sample(self, time: JsonDuration) -> TrackLocalStaticSample<P> {
        if self.is_bound() && self.base is None {
            TrackLocalStaticSample { base: Some(time), ..self }
        } else {
            self
        }
    }

    /// How far the sample is, in nanoseconds, from the one that is counted from.
    pub open spec fn offset(self, time: JsonDuration) -> int {
        match self.base {
            Some(base) => time@ - base@,
            None => 0,
        }
    }

    /// How far the sample is from the one that is counted from. Without a
    /// connection samples are dropped.
    pub fn write_sample(&mut self, time: JsonDuration) -> (r: Option<JsonDuration>)
        requires
            old(self).can_write(time),
        ensures
            *final(self) == old(self).after_sample(time),
            r is Some <==> old(self).is_bound(),
            r matches Some(offset) ==> offset@ == old(self).offset(time),
    {
        if self.packetizer.is_none() {
            return None;
        }
        let base: JsonDuration = match self.base {
            Some(base) => base,
            None => {
                self.base = Some(time);
                time
            },
        };
        Some(time - base)
    }

    /// The time that the last packet bore, where `timestamp` is that of the
    /// connection. Without a connection it is zero.
    pub fn get_timestamp(&self, timestamp: u32) -> (r: u32)
        ensures
            r == if self.is_bound() {
                timestamp
            } else {
                0
            },
    {
        if self.packetizer.is_some() {
            timestamp
        } else {
            0
        }
    }

    /// The track after some samples.
    pub open spec fn after_samples(self, times: Seq<JsonDuration>) -> TrackLocalStaticSample<P>
        decreases times.len(),
    {
        if times.len() == 0 {
            self
        } else {
            self.after_samples(times.drop_last()).after_sample(times.last())
        }
    }
}

/// A track that starts to count anew counts from its next sample: that one is at
/// zero, and each one after it, if it is not earlier, can be written and is as far
/// on as its time is later.
pub proof fn samples_count_from_the_first<P>(
    track: TrackLocalStaticSample<P>,
    times: Seq<JsonDuration>,
    i: int,
)
    requires
        track.is_bound(),
        0 <= i < times.len(),
        times[0]@ <= times[i]@,
    ensures
        track.after_rebase().after_samples(times.take(i)).can_write(times[i]),
        track.after_rebase().after_samples(times.take(i)).offset(times[i]) == times[i]@ - times[0]@,
{
    lemma_base_is_first(track.after_rebase(), times.take(i));
}

proof fn lemma_base_is_first<P>(track: TrackLocalStaticSample<P>, times: Seq<JsonDuration>)
    requires
        track.is_bound(),
        track.base is None,
    ensures
        track.after_samples(times) == (if times.len() == 0 {
            track
        } else {
            TrackLocalStaticSample { base: Some(times[0]), ..track }
        }),
    decreases times.len(),
{
    if times.len() > 0 {
        lemma_base_is_first(track, times.drop_last());
    }
}

/// Only distances count: samples that are all later by the same time are as far
/// into a track that starts to count anew.
pub proof fn offsets_do_not_move<P>(
    track: TrackLocalStaticSample<P>,
    times: Seq<JsonDuration>,
    later: Seq<JsonDuration>,
    by: int,
    i: int,
)
    requires
        track.is_bound(),
        times.len() == later.len(),
        forall|k: int| 0 <= k < times.len() ==> (#[trigger] later[k])@ == times[k]@ + by,
        0 <= i < times.len(),
        times[0]@ <= times[i]@,
    ensures
        track.after_rebase().after_samples(later.take(i)).offset(later[i])
            == track.after_rebase().after_samples(times.take(i)).offset(times[i]),
{
    assert(later[0]@ == times[0]@ + by);
    assert(later[i]@ == times[i]@ + by);
    samples_count_from_the_first(track, times, i);
    samples_count_from_the_first(track, later, i);
}

/// A track that is bound stays as it is when it is bound once more: what makes
/// its packets is what the first connection brought, and samples are counted on.
pub proof fn first_bind_lasts<P>(
    track: TrackLocalStaticSample<P>,
    first: P,
    times: Seq<JsonDuration>,
    second: P,
)
    requires
        !track.is_bound(),
    ensures
        ({
            let used = track.after_bind(first).after_samples(times);
            &&& used.packetizer == Some(first)
            &&& used.after_bind(second) == used
        }),
{
    lemma_samples_keep_packetizer(track.after_bind(first), times);
}

proof fn lemma_samples_keep_packetizer<P>(
    track: TrackLocalStaticSample<P>,
    times: Seq<JsonDuration>,
)
    ensures
        track.after_samples(times).packetizer == track.packetizer,
    decreases times.len(),
{
    if times.len() > 0 {
        lemma_samples_keep_packetizer(track, times.drop_last());
    }
}

/// The packets of a sample on their way, and what went wrong with them. `E` is an
/// error.
#[derive(Debug)]
pub struct Sending<E> {
    /// How many packets are still to be sent.
    pub left: usize,
    /// What went wrong, in order.
    pub failed: Vec<E>,
}

/// What went wrong, in order.
pub open spec fn errors_of<E>(outcomes: Seq<Result<(), E>>) -> Seq<E>
    decreases outcomes.len(),
{
    if outcomes.len() == 0 {
        Seq::empty()
    } else {
        let before = errors_of(outcomes.drop_last());
        match outcomes.last() {
            Ok(_) => before,
            Err(error) => before.push(error),
        }
    }
}

impl<E> Sending<E> {
    /// So many packets are to be sent.
    pub fn new(packets: usize) -> (r: Sending<E>)
        ensures
            r.left == packets,
            r.failed@ == errors_of(Seq::<Result<(), E>>::empty()),
    {
        Sending { left: packets, failed: Vec::new() }
    }

    /// Takes note of what became of the next packet. Whatever it is, the others
    /// are sent.
    pub fn note(&mut self, outcome: Result<(), E>)
        requires
            old(self).left > 0,
        ensures
            final(self).left == old(self).left - 1,
            final(self).failed@ == match outcome {
                Ok(_) => old(self).failed@,
                Err(error) => old(self).failed@.push(error),
            },
    {
        self.left = self.left - 1;
        if let Err(error) = outcome {
            self.failed.push(error);
        }
    }
}

/// Every packet is sent, whatever became of those before it, and every failure is
/// told, in order. `states` is what is noted before each packet and at the end.
pub proof fn every_packet_is_sent<E>(
    states: Seq<Sending<E>>,
    outcomes: Seq<Result<(), E>>,
    packets: usize,
)
    requires
        outcomes.len() <= packets,
        states.len() == outcomes.len() + 1,
        states[0].left == packets,
        states[0].failed@ == errors_of(Seq::<Result<(), E>>::empty()),
        forall|i: int|
            0 <= i < outcomes.len() ==> {
                &&& states[i + 1].left == states[i].left - 1
                &&& states[i + 1].failed@ == match #[trigger] outcomes[i] {
                    Ok(_) => states[i].failed@,
                    Err(error) => states[i].failed@.push(error),
                }
            },
    ensures
        states.last().left == packets - outcomes.len(),
        states.last().failed@ == errors_of(outcomes),
    decreases outcomes.len(),
{
    if outcomes.len() > 0 {
        let rest = outcomes.drop_last();
        let before = states.drop_last();
        assert forall|i: int| 0 <= i < rest.len() implies {
            &&& before[i + 1].left == before[i].left - 1
            &&& before[i + 1].failed@ == match #[trigger] rest[i] {
                Ok(_) => before[i].failed@,
                Err(error) => before[i].failed@.push(error),
            }
        } by {
            assert(rest[i] == outcomes[i]);
        }
        every_packet_is_sent(before, rest, packets);
        let last = outcomes.len() - 1;
        assert(outcomes[last] == outcomes.last());
        assert(states[last] == before.last());
        assert(states[last + 1] == states.last());
    } else {
        assert(outcomes == Seq::<Result<(), E>>::empty());
    }
}

/// A sample of a bound track is as far on as it is later than the one that is counted
/// from, which is itself if there is none, and only then becomes that one. It can be
/// written unless it is earlier. A track that is not bound takes no sample, and is not
/// changed by one.
pub proof fn sample_is_counted_from_the_base<P>(track: TrackLocalStaticSample<P>, time: JsonDuration)
    ensures
        ({
            let after = track.after_sample(time);
            &&& after.packetizer == track.packetizer
            &&& if track.packetizer is None {
                after.base == track.base && track.can_write(time)
            } else {
                match track.base {
                    Some(base) => {
                        &&& after.base == track.base
                        &&& track.offset(time) == time@ - base@
                        &&& track.can_write(time) <==> base@ <= time@
                    },
                    None => {
                        &&& after.base == Some(time)
                        &&& track.offset(time) == 0
                        &&& track.can_write(time)
                    },
                }
            }
        }),
{
}

/// Binding a track and counting anew leave each other alone: a track that is bound
/// keeps the time from which it counts, and one that counts anew keeps its connection.
pub proof fn binding_and_counting_are_apart<P>(track: TrackLocalStaticSample<P>, packetizer: P)
    ensures
        track.is_bound() <==> track.packetizer is Some,
        track.after_bind(packetizer).base == track.base,
        track.after_bind(packetizer).packetizer == match track.packetizer {
            Some(first) => Some(first),
            None => Some(packetizer),
        },
        track.after_rebase().base is None,
        track.after_rebase().packetizer == track.packetizer,
{
}

/// What went wrong is told outcome by outcome: a failure adds its error, a success
/// nothing, and what went wrong in two runs comes one after the other.
pub proof fn errors_come_one_by_one<E>(
    first: Seq<Result<(), E>>,
    second: Seq<Result<(), E>>,
    outcome: Result<(), E>,
)
    ensures
        errors_of(seq![outcome]) == match outcome {
            Ok(_) => Seq::empty(),
            Err(error) => seq![error],
        },
        errors_of(first + second) == errors_of(first) + errors_of(second),
    decreases second.len(),
{
    assert(seq![outcome].drop_last() == Seq::<Result<(), E>>::empty());
    assert(errors_of(Seq::<Result<(), E>>::empty()) == Seq::<E>::empty());
    if second.len() == 0 {
        assert(first + second == first);
        assert(errors_of(first) + errors_of(second) == errors_of(first));
    } else {
        errors_come_one_by_one(first, second.drop_last(), outcome);
        assert((first + second).drop_last() == first + second.drop_last());
        assert((first + second).last() == second.last());
        assert(errors_of(first + second) =~= errors_of(first) + errors_of(second));
    }
    assert(errors_of(seq![outcome]) =~= match outcome {
        Ok(_) => Seq::empty(),
        Err(error) => seq![error],
    });
}

} // verus!
