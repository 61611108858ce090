//! Pictures in video memory, and their encoded form.

use vstd::prelude::*;

verus! {

/// A picture in encoded form.
#[derive(Debug)]
pub struct EncodedImage {
    pub data: Vec<u8>,
}

/// A part of a picture.
#[derive(Clone, Copy, PartialEq, Eq, Structural, Debug)]
pub struct Rect {
    pub left: u32,
    pub top: u32,
    pub width: u32,
    pub height: u32,
}

/// A place in video memory for a picture of a fixed size. `I` is the encoded
/// form of the picture.
#[derive(Debug)]
pub struct Surface<I> {
    pub width: u32,
    pub height: u32,
    /// The encoded form of the picture that is there now, once it was asked for.
    pub encoded: Option<I>,
}

impl<I> Surface<I> {
    /// A place for a picture.
    pub fn new(width: u32, height: u32) -> (r: Surface<I>)
        ensures
            r.width == width,
            r.height == height,
            r.encoded is None,
    {
        Surface { width, height, encoded: None }
    }

    /// The encoded form, if it is known. If not, the picture has to be encoded.
    pub fn encode(&self) -> (r: Option<&I>)
        ensures
            match r {
                Some(image) => self.encoded == Some(*image),
                None => self.encoded is None,
            },
    {
        match &self.encoded {
            Some(image) => Some(image),
            None => None,
        }
    }

    /// Keeps the encoded form of the picture.
    pub fn keep(&mut self, image: I)
        ensures
            *final(self) == (Surface { encoded: Some(image), ..*old(self) }),
    {
        self.encoded = Some(image);
    }

    /// The encoded form that is known after a picture was copied here, or could
    /// not be.
    pub open spec fn after_copy(self, ok: bool) -> Surface<I> {
        if ok {
            Surface { encoded: None, ..self }
        } else {
            self
        }
    }

    /// Takes note of a copy to this surface. If it went well there is another
    /// picture, whose encoded form is not known; if not, the picture is what it
    /// was.
    pub fn copied(&mut self, ok: bool)
        ensures
            *final(self) == old(self).after_copy(ok),
            final(self).encoded == if ok {
                None
            } else {
                old(self).encoded
            },
    {
        if ok {
            self.encoded = None;
        }
    }

    /// All of the picture.
    pub open spec fn whole(self) -> Rect {
        Rect { left: 0, top: 0, width: self.width, height: self.height }
    }

    /// What is copied where when this picture is put on another surface: all of
    /// it, stretched over all of the other. Whether that went well is then noted
    /// by `copied` on the other.
    pub fn place<J>(&self, other: &Surface<J>) -> (r: (Rect, Rect))
        ensures
            r == (self.whole(), other.whole()),
    {
        (
            Rect { left: 0, top: 0, width: self.width, height: self.height },
            Rect { left: 0, top: 0, width: other.width, height: other.height },
        )
    }

    /// What is copied where when a part of this picture is put on another surface:
    /// that part, stretched over all of the other. Whether that went well is then
    /// noted by `copied` on the other.
    pub fn crop<J>(&self, other: &Surface<J>, part: Rect) -> (r: (Rect, Rect))
        ensures
            r == (part, other.whole()),
    {
        (part, Rect { left: 0, top: 0, width: other.width, height: other.height })
    }
}

/// A surface after some copies to it, for each of which `copies` tells whether it
/// went well.
pub open spec fn after_copies<I>(surface: Surface<I>, copies: Seq<bool>) -> Surface<I>
    decreases copies.len(),
{
    if copies.len() == 0 {
        surface
    } else {
        after_copies(surface, copies.drop_last()).after_copy(copies.last())
    }
}

/// A picture is encoded once: its encoded form stays known until another picture
/// is copied over it, whatever copies fail in between, and not longer.
pub proof fn encoded_form_lasts_until_a_copy<I>(surface: Surface<I>, copies: Seq<bool>)
    ensures
        !copies.contains(true) ==> after_copies(surface, copies) == surface,
        copies.contains(true) ==> after_copies(surface, copies).encoded is None,
    decreases copies.len(),
{
    if copies.len() > 0 {
        let rest = copies.drop_last();
        encoded_form_lasts_until_a_copy(surface, rest);
        if copies.contains(true) && !copies.last() {
            let i = choose|i: int| 0 <= i < copies.len() && copies[i];
            assert(rest[i]);
        }
        if copies.last() {
            assert(copies[copies.len() - 1]);
        }
        if rest.contains(true) {
            let i = choose|i: int| 0 <= i < rest.len() && rest[i];
            assert(copies[i]);
        }
    }
}

/// A copy changes nothing of a surface but its encoded form, and that only if it went
/// well. A picture is put on all of a surface, from its first corner on.
pub proof fn copy_keeps_the_size<I>(surface: Surface<I>, ok: bool)
    ensures
        surface.after_copy(ok).width == surface.width,
        surface.after_copy(ok).height == surface.height,
        ok ==> surface.after_copy(ok).encoded is None,
        !ok ==> surface.after_copy(ok).encoded == surface.encoded,
        surface.whole().left == 0 && surface.whole().top == 0,
        surface.whole().width == surface.width && surface.whole().height == surface.height,
{
}

} // verus!
