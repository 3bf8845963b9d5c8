//! Sampling the keyboard: which samples are reported as events.

use vstd::prelude::*;
use crate::key::Key;

verus! {

/// The time between two samples, in milliseconds.
pub const POLL_MILLIS: u64 = 45;

/// Whether `sample` is reported when `last` was the sample before it: some
/// key is held, and the chord is another one than before.
pub open spec fn reports(last: Key, sample: Key) -> bool {
    sample.repr != 0 && sample != last
}

/// The sample to hold the next one against: the one just seen, whether it was
/// reported or not. So a release is remembered, and the chord that is pressed
/// after it is a new one.
pub open spec fn after(last: Key, sample: Key) -> Key {
    sample
}

/// The chords reported for a run of samples, when `last` was the sample
/// before the run.
pub open spec fn reported(last: Key, samples: Seq<Key>) -> Seq<Key>
    decreases samples.len(),
{
    if samples.len() == 0 {
        Seq::empty()
    } else if reports(last, samples.first()) {
        seq![samples.first()] + reported(after(last, samples.first()), samples.drop_first())
    } else {
        reported(after(last, samples.first()), samples.drop_first())
    }
}

/// The sample that a run of samples leaves to hold the next one against.
pub open spec fn last_of(last: Key, samples: Seq<Key>) -> Key {
    if samples.len() == 0 {
        last
    } else {
        samples.last()
    }
}

/// One more sample at the end of a run is reported, or not, by the sample
/// before it alone.
pub proof fn lemma_reported_push(last: Key, samples: Seq<Key>, next: Key)
    ensures
        reported(last, samples.push(next)) == if reports(last_of(last, samples), next) {
            reported(last, samples).push(next)
        } else {
            reported(last, samples)
        },
    decreases samples.len(),
{
    let run = samples.push(next);
    if samples.len() == 0 {
        assert(run.first() == next);
        assert(run.drop_first() == Seq::<Key>::empty());
        assert(reported(next, run.drop_first()) == Seq::<Key>::empty());
        assert(seq![next] + Seq::<Key>::empty() == Seq::<Key>::empty().push(next));
    } else {
        let rest = samples.drop_first();
        assert(run.first() == samples.first());
        assert(run.drop_first() == rest.push(next));
        lemma_reported_push(samples.first(), rest, next);
        assert(last_of(samples.first(), rest) == last_of(last, samples));
        if reports(last_of(last, samples), next) {
            assert(seq![samples.first()] + reported(samples.first(), rest).push(next) == (seq![
                samples.first(),
            ] + reported(samples.first(), rest)).push(next));
        }
    }
}

/// A chord that is held over two samples is reported once.
pub proof fn lemma_held_chord_reported_once(last: Key, chord: Key)
    requires
        reports(last, chord),
    ensures
        reported(last, seq![chord, chord]) == seq![chord],
{
    assert(seq![chord, chord] == seq![chord].push(chord));
    assert(seq![chord] == Seq::<Key>::empty().push(chord));
    lemma_reported_push(last, Seq::empty(), chord);
    lemma_reported_push(last, seq![chord], chord);
}

/// A sample with no key held is never reported, and the chord that is held
/// after it is reported, the same chord as before the release too.
pub proof fn lemma_press_after_release_is_reported(last: Key, chord: Key)
    requires
        reports(last, chord),
    ensures
        reported(last, seq![chord, Key { repr: 0 }]) == seq![chord],
        reported(last, seq![chord, Key { repr: 0 }, chord]) == seq![chord, chord],
{
    let release = Key { repr: 0 };
    assert(seq![chord] == Seq::<Key>::empty().push(chord));
    assert(seq![chord, release] == seq![chord].push(release));
    assert(seq![chord, release, chord] == seq![chord, release].push(chord));
    lemma_reported_push(last, Seq::empty(), chord);
    lemma_reported_push(last, seq![chord], release);
    lemma_reported_push(last, seq![chord, release], chord);
    assert(seq![chord].push(chord) == seq![chord, chord]);
}

/// What the sampler keeps between two samples.
#[derive(Debug, Clone, Copy)]
pub struct Sampler {
    /// The sample that was seen last; no key before the first sample.
    pub last: Key,
}

impl Sampler {
    /// A sampler that has seen nothing.
    pub fn new() -> (sampler: Sampler)
        ensures
            sampler.last.repr == 0,
    {
        Sampler { last: Key { repr: 0 } }
    }

    /// Takes one sample, and returns it if it is to be reported.
    pub fn observe(&mut self, sample: Key) -> (event: Option<Key>)
        ensures
            event == if reports(old(self).last, sample) {
                Some(sample)
            } else {
                None
            },
            final(self).last == after(old(self).last, sample),
            final(self).last == sample,
    {
        let event = if sample.repr != 0 && sample != self.last {
            Some(sample)
        } else {
            None
        };
        self.last = sample;
        event
    }

    /// Takes a run of samples, and returns those that are to be reported.
    pub fn observe_all(&mut self, samples: &Vec<Key>) -> (events: Vec<Key>)
        ensures
            events@ == reported(old(self).last, samples@),
            final(self).last == last_of(old(self).last, samples@),
    {
        let mut events: Vec<Key> = Vec::new();
        let mut i: usize = 0;
        assert(samples@.take(0) == Seq::<Key>::empty());
        while i < samples.len()
            invariant
                i <= samples.len(),
                events@ == reported(old(self).last, samples@.take(i as int)),
                self.last == last_of(old(self).last, samples@.take(i as int)),
            decreases samples.len() - i,
        {
            proof {
                assert(samples@.take(i + 1) == samples@.take(i as int).push(samples@[i as int]));
                lemma_reported_push(old(self).last, samples@.take(i as int), samples@[i as int]);
            }
            match self.observe(samples[i]) {
                Some(event) => events.push(event),
                None => {},
            }
            i += 1;
        }
        assert(samples@.take(i as int) == samples@);
        events
    }
}

} // verus!
