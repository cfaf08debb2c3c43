//! Small ownership examples: moving a value out from behind a mutable
//! reference, and a borrowing struct with two independent lifetimes.
use vstd::prelude::*;

verus! {

/// Relies on std::mem::take: it hands back the value that was behind `dest`
/// and leaves `T::default()` in its place.
pub assume_specification<T: Default>[ std::mem::take::<T> ](dest: &mut T) -> (r: T)
    ensures
        r == *old(dest),
        call_ensures(T::default, (), *final(dest)),
;

/// A value with no contents; its default is the only value there is.
#[derive(Debug, PartialEq, Eq, Structural)]
pub struct Marker;

impl Default for Marker {
    fn default() -> (r: Marker)
        ensures
            r == Marker,
    {
        Marker
    }
}

/// Moves the value out from behind a mutable reference: `*b` cannot be moved
/// out as it is borrowed, so a default is left in its place.
pub fn move_by_mutable_reference_inner(b: &mut Box<Marker>) -> (r: Box<Marker>)
    ensures
        r == *old(b),
        *final(b) == Marker,
{
    std::mem::take(b)
}

/// Takes a value out of a local and out of a box, through mutable references.
pub fn move_by_mutable_reference() -> (r: (Marker, Box<Marker>))
    ensures
        r.0 == Marker,
        *r.1 == Marker,
{
    let mut a = Marker;
    let taken = std::mem::take(&mut a);
    let mut b = Box::new(Marker);
    let boxed = move_by_mutable_reference_inner(&mut b);
    (taken, boxed)
}

/// A view of `document` cut at `delimiter`. The document and the delimiter
/// carry separate lifetimes, so a piece of the document can outlive a
/// delimiter that was built on the spot.
pub struct StrSplit<'s, 'p> {
    pub delimiter: &'p str,
    pub document: &'s str,
}

impl<'s, 'p> StrSplit<'s, 'p> {
    pub fn new(document: &'s str, delimiter: &'p str) -> (r: StrSplit<'s, 'p>)
        ensures
            r.document@ == document@,
            r.delimiter@ == delimiter@,
    {
        StrSplit { delimiter, document }
    }

    /// The document, which lives as long as the document and not as long as
    /// the delimiter.
    pub fn document(&self) -> (r: &'s str)
        ensures
            r@ == self.document@,
    {
        self.document
    }
}

/// Keeps the document of a split after its delimiter, a string made within
/// this function, is gone: only possible because the two lifetimes differ.
pub fn two_lifetime_annotations(s: &str) -> (r: &str)
    ensures
        r@ == s@,
{
    let delimiter = String::new();
    let split = StrSplit::new(s, delimiter.as_str());
    split.document()
}

} // verus!
