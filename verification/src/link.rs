//! Where live video goes from the source that receives it to those who watch.

use vstd::prelude::*;

verus! {

/// What a link keeps after one more sample. `starts` tells that the sample can be
/// shown without any before it.
pub open spec fn pushed<T>(kept: Seq<T>, sample: T, starts: bool) -> Seq<T> {
    if starts {
        seq![sample]
    } else {
        kept.push(sample)
    }
}

/// What a link keeps after all the samples of its history.
pub open spec fn kept_of<T>(history: Seq<(T, bool)>) -> Seq<T>
    decreases history.len(),
{
    if history.len() == 0 {
        Seq::empty()
    } else {
        pushed(kept_of(history.drop_last()), history.last().0, history.last().1)
    }
}

/// A live stream: the samples that a new watcher needs to begin.
#[derive(Debug)]
pub struct SourceLink<T> {
    buffer: Vec<T>,
}

impl<T> View for SourceLink<T> {
    type V = Seq<T>;

    closed spec fn view(&self) -> Seq<T> {
        self.buffer@
    }
}

impl<T> SourceLink<T> {
    /// A stream of which nothing was seen.
    pub fn new() -> (r: SourceLink<T>)
        ensures
            r@ == Seq::<T>::empty(),
    {
        SourceLink { buffer: Vec::new() }
    }

    /// Takes the next sample. A sample that can be shown by itself takes the place
    /// of all before it.
    pub fn push(&mut self, sample: T, starts: bool)
        ensures
            final(self)@ == pushed(old(self)@, sample, starts),
    {
        if starts {
            self.buffer.clear();
        }
        self.buffer.push(sample);
        assert(self@ =~= pushed(old(self)@, sample, starts));
    }

    /// The samples for a new watcher, in order.
    pub fn add(&self) -> (r: &Vec<T>)
        ensures
            r@ == self@,
    {
        &self.buffer
    }
}

/// A new watcher gets every sample since the last one that can be shown by
/// itself, that one first, and no other; or every sample, if none can.
pub proof fn watcher_begins_at_last_start<T>(history: Seq<(T, bool)>, from: int)
    requires
        0 <= from <= history.len(),
        forall|i: int| from < i < history.len() ==> !(#[trigger] history[i]).1,
        from < history.len() ==> history[from].1 || from == 0,
        from == history.len() ==> from == 0,
    ensures
        kept_of(history) == Seq::new((history.len() - from) as nat, |i: int| history[from + i].0),
    decreases history.len(),
{
    if history.len() > 0 {
        let rest = history.drop_last();
        let last = history.last();
        let expected = Seq::new((history.len() - from) as nat, |i: int| history[from + i].0);
        if from == history.len() - 1 {
            if !last.1 {
                assert(kept_of(rest) == Seq::<T>::empty());
            }
            assert(kept_of(history) == Seq::<T>::empty().push(last.0));
            assert(kept_of(history) =~= expected);
        } else {
            watcher_begins_at_last_start(rest, from);
            let before = Seq::new((rest.len() - from) as nat, |i: int| rest[from + i].0);
            assert(kept_of(rest) == before);
            assert(before.push(last.0) =~= expected);
        }
    }
}

/// The samples of a history.
pub open spec fn samples_of<T>(history: Seq<(T, bool)>) -> Seq<T> {
    Seq::new(history.len(), |i: int| history[i].0)
}

/// A new watcher misses nothing and gets nothing twice: what they begin with when
/// they come after `n` samples, followed by the samples that are pushed from then
/// on, is every sample from `from` on, in order, where `from` is the last of the
/// first `n` that can be shown by itself, or the first one if none can.
pub proof fn backlog_meets_later_samples<T>(history: Seq<(T, bool)>, n: int, from: int)
    requires
        0 <= from <= n <= history.len(),
        forall|i: int| from < i < n ==> !(#[trigger] history[i]).1,
        from < n ==> history[from].1 || from == 0,
        from == n ==> from == 0,
    ensures
        kept_of(history.take(n)) + samples_of(history.skip(n)) == samples_of(history.skip(from)),
{
    let before = history.take(n);
    assert forall|i: int| from < i < before.len() implies !(#[trigger] before[i]).1 by {
        assert(before[i] == history[i]);
    }
    watcher_begins_at_last_start(before, from);
    assert(kept_of(before) + samples_of(history.skip(n)) =~= samples_of(history.skip(from)));
}

/// Finds the link of a stream by its name. Links are numbered in the order in
/// which they were first asked for.
#[derive(Debug)]
pub struct Links {
    names: Vec<String>,
}

impl View for Links {
    type V = Seq<Seq<char>>;

    closed spec fn view(&self) -> Seq<Seq<char>> {
        Seq::new(self.names@.len(), |i: int| self.names@[i]@)
    }
}

impl Links {
    #[verifier::type_invariant]
    spec fn well_formed(self) -> bool {
        forall|i: int, j: int|
            0 <= i < j < self.names@.len() ==> #[trigger] self.names@[i]@ != #[trigger] self.names@[j]@
    }

    proof fn lemma_no_duplicates(self)
        requires
            self.well_formed(),
        ensures
            self@.no_duplicates(),
    {
        assert forall|i: int, j: int| 0 <= i < self@.len() && 0 <= j < self@.len() && i != j implies #[trigger] self@[i]
            != #[trigger] self@[j] by {
            assert(self@[i] == self.names@[i]@);
            assert(self@[j] == self.names@[j]@);
        }
    }

    /// No link was asked for yet.
    pub fn new() -> (r: Links)
        ensures
            r@ == Seq::<Seq<char>>::empty(),
    {
        let r: Links = Links { names: Vec::new() };
        assert(r@ =~= Seq::<Seq<char>>::empty());
        r
    }

    /// The number of the link of that name. A link that was not asked for before
    /// gets the next number.
    pub fn get_link(&mut self, id: String) -> (r: usize)
        ensures
            r < final(self)@.len(),
            final(self)@[r as int] == id@,
            old(self)@.contains(id@) ==> final(self)@ == old(self)@,
            !old(self)@.contains(id@) ==> final(self)@ == old(self)@.push(id@),
            old(self)@.is_prefix_of(final(self)@),
            final(self)@.no_duplicates(),
    {
        proof {
            use_type_invariant(&*self);
        }
        let mut i: usize = 0;
        while i < self.names.len()
            invariant
                i <= self.names@.len(),
                *self == *old(self),
                self.well_formed(),
                forall|j: int| 0 <= j < i ==> #[trigger] self.names@[j]@ != id@,
            decreases self.names@.len() - i,
        {
            if self.names[i] == id {
                proof {
                    self.lemma_no_duplicates();
                    assert(self@[i as int] == id@);
                }
                return i;
            }
            i += 1;
        }
        assert(!self@.contains(id@)) by {
            if self@.contains(id@) {
                let j = choose|j: int| 0 <= j < self@.len() && self@[j] == id@;
                assert(self.names@[j]@ == id@);
            }
        }
        let ghost before = self@;
        let mut names: Vec<String> = Vec::new();
        std::mem::swap(&mut names, &mut self.names);
        names.push(id);
        self.names = names;
        proof {
            assert(self@ =~= before.push(id@));
            self.lemma_no_duplicates();
        }
        i
    }
}

/// Asking twice for a link gives the same one, and another one for another name,
/// whatever was asked for in between.
pub proof fn one_link_for_each_name(
    first: Seq<Seq<char>>,
    second: Seq<Seq<char>>,
    i: int,
    j: int,
)
    requires
        0 <= i < first.len(),
        first.is_prefix_of(second),
        0 <= j < second.len(),
        second.no_duplicates(),
    ensures
        i == j <==> first[i] == second[j],
{
    assert(second[i] == first[i]);
}

/// A sample that can be shown by itself is all that is kept; any other one is kept
/// behind what was kept before, however much that is.
pub proof fn whole_sample_takes_the_place<T>(kept: Seq<T>, sample: T)
    ensures
        pushed(kept, sample, true).len() == 1,
        pushed(kept, sample, true)[0] == sample,
        pushed(kept, sample, false).len() == kept.len() + 1,
        pushed(kept, sample, false).last() == sample,
        pushed(kept, sample, false).drop_last() == kept,
{
}

} // verus!
