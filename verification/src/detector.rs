//! Feeding pictures to the detector: the newest picture of each source, and the
//! surfaces that carry them.

use vstd::prelude::*;
use vstd::utf8::encode_utf8;

verus! {

/// A source of pictures. `I` is a picture that waits for the detector.
#[derive(Debug)]
pub struct Source<I> {
    pub my_id: u64,
    pub image: Option<I>,
}

/// The sources of a detector.
#[derive(Debug)]
pub struct Detector<I> {
    sources: Vec<Source<I>>,
    next_source_id: u64,
}

/// The pictures that wait, in the order of their sources.
pub open spec fn waiting<I>(sources: Seq<Source<I>>) -> Seq<I>
    decreases sources.len(),
{
    if sources.len() == 0 {
        Seq::empty()
    } else {
        match sources.last().image {
            Some(image) => waiting(sources.drop_last()).push(image),
            None => waiting(sources.drop_last()),
        }
    }
}

/// Whether a source of that number is there.
pub open spec fn has_source<I>(sources: Seq<Source<I>>, id: u64) -> bool {
    exists|i: int| 0 <= i < sources.len() && (#[trigger] sources[i]).my_id == id
}

/// No number is used twice.
pub open spec fn all_differ<I>(sources: Seq<Source<I>>) -> bool {
    forall|i: int, j: int|
        0 <= i < j < sources.len() ==> (#[trigger] sources[i]).my_id != (
        #[trigger] sources[j]).my_id
}

impl<I> View for Detector<I> {
    type V = Seq<Source<I>>;

    closed spec fn view(&self) -> Seq<Source<I>> {
        self.sources@
    }
}

impl<I> Detector<I> {
    #[verifier::type_invariant]
    spec fn well_formed(self) -> bool {
        &&& all_differ(self.sources@)
        &&& forall|i: int|
            0 <= i < self.sources@.len() ==> (#[trigger] self.sources@[i]).my_id
                < self.next_source_id
    }

    /// The number that the next source gets.
    pub closed spec fn next_id(self) -> u64 {
        self.next_source_id
    }

    /// A detector without sources.
    pub fn new() -> (r: Detector<I>)
        ensures
            r@ == Seq::<Source<I>>::empty(),
            r.next_id() == 0,
    {
        Detector { sources: Vec::new(), next_source_id: 0 }
    }

    /// Whether there is a number for one more source.
    pub fn may_add_source(&self) -> (r: bool)
        ensures
            r == (self.next_id() < u64::MAX),
    {
        self.next_source_id < u64::MAX
    }

    /// Adds a source, and gives its number, which no source had before.
    pub fn add_source(&mut self) -> (r: u64)
        requires
            old(self).next_id() < u64::MAX,
        ensures
            r == old(self).next_id(),
            !has_source(old(self)@, r),
            final(self).next_id() == r + 1,
            final(self)@ == old(self)@.push(Source { my_id: r, image: None }),
    {
        proof {
            use_type_invariant(&*self);
        }
        let id: u64 = self.next_source_id;
        let mut sources: Vec<Source<I>> = Vec::new();
        std::mem::swap(&mut sources, &mut self.sources);
        sources.push(Source { my_id: id, image: None });
        self.next_source_id = id + 1;
        self.sources = sources;
        id
    }

    fn position(&self, id: u64) -> (r: Option<usize>)
        ensures
            match r {
                Some(i) => i < self@.len() && self@[i as int].my_id == id,
                None => !has_source(self@, id),
            },
    {
        let mut i: usize = 0;
        while i < self.sources.len()
            invariant
                i <= self.sources@.len(),
                forall|j: int| 0 <= j < i ==> (#[trigger] self.sources@[j]).my_id != id,
            decreases self.sources@.len() - i,
        {
            if self.sources[i].my_id == id {
                return Some(i);
            }
            i += 1;
        }
        None
    }

    /// Removes a source.
    pub fn remove_source(&mut self, id: u64) -> (r: Option<Source<I>>)
        ensures
            final(self).next_id() == old(self).next_id(),
            match r {
                Some(source) => exists|i: int|
                    0 <= i < old(self)@.len() && #[trigger] old(self)@[i] == source && source.my_id
                        == id && final(self)@ == old(self)@.remove(i),
                None => !has_source(old(self)@, id) && final(self)@ == old(self)@,
            },
    {
        proof {
            use_type_invariant(&*self);
        }
        match self.position(id) {
            Some(i) => {
                let ghost before = self.sources@;
                let mut sources: Vec<Source<I>> = Vec::new();
                std::mem::swap(&mut sources, &mut self.sources);
                let gone: Source<I> = sources.remove(i);
                proof {
                    assert(before[i as int] == gone);
                    assert forall|a: int| 0 <= a < sources@.len() implies (#[trigger] sources@[a])
                        == before[if a < i {
                        a
                    } else {
                        a + 1
                    }] by {}
                }
                self.sources = sources;
                Some(gone)
            },
            None => None,
        }
    }

    /// Puts a picture of a source up for the detector, in the place of one that
    /// still waits, which is given back. The picture of a source that is gone is
    /// given back itself.
    pub fn send_frame(&mut self, id: u64, image: I) -> (r: Option<I>)
        ensures
            final(self).next_id() == old(self).next_id(),
            !has_source(old(self)@, id) ==> final(self)@ == old(self)@ && r == Some(image),
            has_source(old(self)@, id) ==> exists|i: int|
                0 <= i < old(self)@.len() && (#[trigger] old(self)@[i]).my_id == id && final(self)@
                    == old(self)@.update(i, (Source { my_id: id, image: Some(image) })) && r
                    == old(self)@[i].image,
    {
        proof {
            use_type_invariant(&*self);
        }
        match self.position(id) {
            Some(i) => {
                let ghost before = self.sources@;
                let mut sources: Vec<Source<I>> = Vec::new();
                std::mem::swap(&mut sources, &mut self.sources);
                let mut source: Source<I> = Source { my_id: id, image: Some(image) };
                std::mem::swap(&mut source, &mut sources[i]);
                proof {
                    assert(before[i as int] == source);
                    assert(sources@ == before.update(
                        i as int,
                        Source { my_id: id, image: Some(image) },
                    ));
                    assert(forall|a: int| 0 <= a < sources@.len() ==> (#[trigger] sources@[a]).my_id
                        == before[a].my_id);
                }
                self.sources = sources;
                source.image
            },
            None => Some(image),
        }
    }

    /// Takes all pictures that wait, one from each source at most.
    pub fn take_batch(&mut self) -> (r: Vec<I>)
        ensures
            final(self).next_id() == old(self).next_id(),
            r@ == waiting(old(self)@),
            final(self)@.len() == old(self)@.len(),
            forall|i: int|
                0 <= i < final(self)@.len() ==> #[trigger] final(self)@[i] == (Source {
                    my_id: old(self)@[i].my_id,
                    image: None::<I>,
                }),
    {
        proof {
            use_type_invariant(&*self);
        }
        let ghost before = self.sources@;
        let mut sources: Vec<Source<I>> = Vec::new();
        std::mem::swap(&mut sources, &mut self.sources);
        let mut batch: Vec<I> = Vec::new();
        let mut i: usize = 0;
        while i < sources.len()
            invariant
                i <= sources@.len(),
                sources@.len() == before.len(),
                forall|j: int| i <= j < sources@.len() ==> #[trigger] sources@[j] == before[j],
                forall|j: int|
                    0 <= j < i ==> #[trigger] sources@[j] == (Source {
                        my_id: before[j].my_id,
                        image: None::<I>,
                    }),
                batch@ == waiting(before.take(i as int)),
            decreases sources@.len() - i,
        {
            assert(before.take(i + 1).drop_last() == before.take(i as int));
            assert(sources@[i as int] == before[i as int]);
            let mut source: Source<I> = Source { my_id: sources[i].my_id, image: None };
            std::mem::swap(&mut source, &mut sources[i]);
            if let Some(image) = source.image {
                batch.push(image);
            }
            i += 1;
        }
        assert(before.take(i as int) == before);
        assert(forall|a: int| 0 <= a < sources@.len() ==> (#[trigger] sources@[a]).my_id
            == before[a].my_id);
        self.sources = sources;
        batch
    }
}

/// No picture goes to the detector twice: once a batch was taken, nothing waits.
pub proof fn batch_is_taken_once<I>(sources: Seq<Source<I>>)
    requires
        forall|i: int| 0 <= i < sources.len() ==> (#[trigger] sources[i]).image is None,
    ensures
        waiting(sources).len() == 0,
    decreases sources.len(),
{
    if sources.len() > 0 {
        batch_is_taken_once(sources.drop_last());
    }
}

/// A batch holds one picture at most for each source.
pub proof fn batch_fits_sources<I>(sources: Seq<Source<I>>)
    ensures
        waiting(sources).len() <= sources.len(),
    decreases sources.len(),
{
    if sources.len() > 0 {
        batch_fits_sources(sources.drop_last());
    }
}

/// The surfaces that are free to carry a picture to the detector.
#[derive(Debug)]
pub struct Pool<S> {
    free: Vec<S>,
    capacity: usize,
}

/// How many surfaces there are.
pub const POOL_SIZE: usize = 20;

impl<S> View for Pool<S> {
    type V = Seq<S>;

    closed spec fn view(&self) -> Seq<S> {
        self.free@
    }
}

impl<S> Pool<S> {
    #[verifier::type_invariant]
    spec fn well_formed(self) -> bool {
        self.free@.len() <= self.capacity
    }

    /// How many surfaces can be free at once.
    pub closed spec fn room(self) -> nat {
        self.capacity as nat
    }

    /// A pool without free surfaces.
    pub fn new(capacity: usize) -> (r: Pool<S>)
        ensures
            r@ == Seq::<S>::empty(),
            r.room() == capacity,
    {
        Pool { free: Vec::new(), capacity }
    }

    /// Gives a surface back, last in line. A surface for which there is no room is
    /// dropped; the result tells whether there was.
    pub fn give(&mut self, surface: S) -> (r: bool)
        ensures
            final(self).room() == old(self).room(),
            r == (old(self)@.len() < old(self).room()),
            final(self)@ == if r {
                old(self)@.push(surface)
            } else {
                old(self)@
            },
    {
        proof {
            use_type_invariant(&*self);
        }
        if self.free.len() < self.capacity {
            let mut free: Vec<S> = Vec::new();
            std::mem::swap(&mut free, &mut self.free);
            free.push(surface);
            self.free = free;
            true
        } else {
            false
        }
    }

    /// Takes the first surface in line. Without one, a picture is not looked at.
    pub fn take(&mut self) -> (r: Option<S>)
        ensures
            final(self).room() == old(self).room(),
            match r {
                Some(surface) => old(self)@.len() > 0 && surface == old(self)@[0] && final(self)@
                    == old(self)@.skip(1),
                None => old(self)@.len() == 0 && final(self)@ == old(self)@,
            },
            final(self)@.len() <= final(self).room(),
    {
        proof {
            use_type_invariant(&*self);
        }
        if self.free.len() > 0 {
            let ghost before = self.free@;
            let mut free: Vec<S> = Vec::new();
            std::mem::swap(&mut free, &mut self.free);
            let surface: S = free.remove(0);
            assert(free@ =~= before.skip(1));
            self.free = free;
            Some(surface)
        } else {
            None
        }
    }
}

/// The addresses of the pictures of a batch that have one, in order.
pub open spec fn addresses<P>(frames: Seq<(Option<P>, u32)>) -> Seq<P>
    decreases frames.len(),
{
    if frames.len() == 0 {
        Seq::empty()
    } else {
        match frames.last().0 {
            Some(address) => addresses(frames.drop_last()).push(address),
            None => addresses(frames.drop_last()),
        }
    }
}

/// What is handed to the detector for a batch of pictures, given as their address
/// and the length of a line of theirs: the addresses, and the length of the lines
/// of the last one.
pub fn queue_batch<P: Copy>(frames: &Vec<(Option<P>, u32)>) -> (r: (Vec<P>, u32))
    ensures
        r.0@ == addresses(frames@),
        r.1 == if frames@.len() > 0 {
            frames@.last().1
        } else {
            0
        },
{
    let mut out: Vec<P> = Vec::new();
    let mut pitch: u32 = 0;
    let mut i: usize = 0;
    while i < frames.len()
        invariant
            i <= frames@.len(),
            out@ == addresses(frames@.take(i as int)),
            pitch == if i > 0 {
                frames@[i - 1].1
            } else {
                0
            },
        decreases frames@.len() - i,
    {
        assert(frames@.take(i + 1).drop_last() == frames@.take(i as int));
        if let Some(address) = frames[i].0 {
            out.push(address);
        }
        pitch = frames[i].1;
        i += 1;
    }
    assert(frames@.take(i as int) == frames@);
    (out, pitch)
}

/// The name of a class of things.
pub fn class_key(class_keys: &Vec<String>, index: usize) -> (r: String)
    requires
        index < class_keys@.len(),
    ensures
        r@ == class_keys@[index as int]@,
{
    class_keys[index].clone()
}

/// The bytes of a text in a field of a fixed size, filled up with zeros.
pub fn fixed_text(text: &str, size: usize) -> (r: Vec<u8>)
    requires
        encode_utf8(text@).len() <= size,
    ensures
        r@ == encode_utf8(text@) + Seq::new((size - encode_utf8(text@).len()) as nat, |i: int| 0u8),
{
    let bytes: &[u8] = text.as_bytes();
    let mut out: Vec<u8> = Vec::new();
    let mut i: usize = 0;
    while i < bytes.len()
        invariant
            i <= bytes@.len(),
            out@ == bytes@.take(i as int),
        decreases bytes@.len() - i,
    {
        out.push(bytes[i]);
        assert(bytes@.take(i + 1) == bytes@.take(i as int).push(bytes@[i as int]));
        i += 1;
    }
    assert(bytes@.take(i as int) == bytes@);
    let ghost used = bytes@.len();
    while out.len() < size
        invariant
            used == bytes@.len(),
            used <= out@.len() <= size,
            out@ == bytes@ + Seq::new((out@.len() - used) as nat, |i: int| 0u8),
        decreases size - out@.len(),
    {
        let ghost before = out@;
        out.push(0);
        assert(out@ =~= bytes@ + Seq::new((out@.len() - used) as nat, |i: int| 0u8));
    }
    out
}

/// A batch is made source by source: a source adds its picture if it has one, and
/// nothing if not, and what two groups of sources hold comes one after the other.
pub proof fn batch_is_made_source_by_source<I>(
    first: Seq<Source<I>>,
    second: Seq<Source<I>>,
    source: Source<I>,
)
    ensures
        waiting(seq![source]) == match source.image {
            Some(image) => seq![image],
            None => Seq::empty(),
        },
        waiting(first + second) == waiting(first) + waiting(second),
    decreases second.len(),
{
    assert(seq![source].drop_last() == Seq::<Source<I>>::empty());
    assert(waiting(Seq::<Source<I>>::empty()) == Seq::<I>::empty());
    if second.len() == 0 {
        assert(first + second == first);
        assert(waiting(first) + waiting(second) == waiting(first));
    } else {
        batch_is_made_source_by_source(first, second.drop_last(), source);
        assert((first + second).drop_last() == first + second.drop_last());
        assert((first + second).last() == second.last());
        assert(waiting(first + second) =~= waiting(first) + waiting(second));
    }
    assert(waiting(seq![source]) =~= match source.image {
        Some(image) => seq![image],
        None => Seq::empty(),
    });
}

/// The addresses of a batch are those of its pictures, one after the other, without
/// those that have none.
pub proof fn addresses_come_picture_by_picture<P>(
    first: Seq<(Option<P>, u32)>,
    second: Seq<(Option<P>, u32)>,
    frame: (Option<P>, u32),
)
    ensures
        addresses(seq![frame]) == match frame.0 {
            Some(address) => seq![address],
            None => Seq::empty(),
        },
        addresses(first + second) == addresses(first) + addresses(second),
    decreases second.len(),
{
    assert(seq![frame].drop_last() == Seq::<(Option<P>, u32)>::empty());
    assert(addresses(Seq::<(Option<P>, u32)>::empty()) == Seq::<P>::empty());
    if second.len() == 0 {
        assert(first + second == first);
        assert(addresses(first) + addresses(second) == addresses(first));
    } else {
        addresses_come_picture_by_picture(first, second.drop_last(), frame);
        assert((first + second).drop_last() == first + second.drop_last());
        assert((first + second).last() == second.last());
        assert(addresses(first + second) =~= addresses(first) + addresses(second));
    }
    assert(addresses(seq![frame]) =~= match frame.0 {
        Some(address) => seq![address],
        None => Seq::empty(),
    });
}

/// A source is there exactly if one of the sources has its number.
pub proof fn source_is_there_by_number<I>(sources: Seq<Source<I>>, id: u64)
    ensures
        has_source(sources, id) <==> exists|i: int|
            0 <= i < sources.len() && (#[trigger] sources[i]).my_id == id,
{
}

} // verus!
