//! The elements that can be matched, and the records that matching emits.
use vstd::prelude::*;

verus! {

/// What the matching engine needs of an element: a key that is compared by
/// edit distance, and a form in which the element is shown.
pub trait Fuzippable {
    type Inner;

    /// The key of this element, as a sequence of bytes.
    spec fn key_view(&self) -> Seq<u8>;

    /// The text under which this element is shown.
    spec fn display_view(&self) -> Seq<char>;

    /// Access the inner value.
    fn get(&self) -> &Self::Inner;

    /// The value used for fuzzy comparison.
    fn key(&self) -> (r: &[u8])
        ensures
            r@ == self.key_view(),
    ;

    /// How the element is shown.
    fn display(&self) -> (r: String)
        ensures
            r@ == self.display_view(),
    ;
}

/// A file, given by the text of its path and the bytes of its file stem.
#[derive(Debug, Clone)]
pub struct FuzipPath {
    path: String,
    stem: Vec<u8>,
}

impl FuzipPath {
    /// The file whose path reads `path` and whose file stem is `stem`.
    pub fn new(path: String, stem: Vec<u8>) -> (r: FuzipPath)
        ensures
            r.display_view() == path@,
            r.key_view() == stem@,
    {
        FuzipPath { path, stem }
    }
}

impl Fuzippable for FuzipPath {
    type Inner = String;

    closed spec fn key_view(&self) -> Seq<u8> {
        self.stem@
    }

    closed spec fn display_view(&self) -> Seq<char> {
        self.path@
    }

    fn get(&self) -> &String {
        &self.path
    }

    fn key(&self) -> (r: &[u8]) {
        self.stem.as_slice()
    }

    fn display(&self) -> (r: String) {
        self.path.clone()
    }
}

/// Why a slot of a record holds no value.
#[derive(Debug, Clone, Copy, PartialEq, Eq, Structural)]
pub enum FuzipMissing {
    /// The slot exists, but its side had no partner for the other side.
    NoMatch,
    /// The record has no slot at that index.
    OutOfBounds,
}

/// One record of a matching: one slot per side, each holding a value or
/// nothing.
#[derive(Debug)]
pub struct Fuzip<T>(Vec<Option<T>>);

impl<T> View for Fuzip<T> {
    type V = Seq<Option<T>>;

    closed spec fn view(&self) -> Seq<Option<T>> {
        self.0@
    }
}

impl<T> Fuzip<T> {
    /// The record whose slots are `slots`, in order.
    pub fn new(slots: Vec<Option<T>>) -> (r: Fuzip<T>)
        ensures
            r@ == slots@,
    {
        Fuzip(slots)
    }

    /// The value in slot `index`, or why there is none.
    pub fn get(&self, index: usize) -> (r: Result<&T, FuzipMissing>)
        ensures
            match r {
                Ok(t) => index < self@.len() && self@[index as int] == Some(*t),
                Err(FuzipMissing::NoMatch) => index < self@.len() && self@[index as int] is None,
                Err(FuzipMissing::OutOfBounds) => index >= self@.len(),
            },
    {
        if index < self.0.len() {
            match &self.0[index] {
                Some(t) => Ok(t),
                None => Err(FuzipMissing::NoMatch),
            }
        } else {
            Err(FuzipMissing::OutOfBounds)
        }
    }

    /// The number of slots.
    pub fn width(&self) -> (r: usize)
        ensures
            r == self@.len(),
    {
        self.0.len()
    }

    /// Whether every slot holds a value.
    pub fn complete(&self) -> (r: bool)
        ensures
            r == forall|i: int| 0 <= i < self@.len() ==> self@[i] is Some,
    {
        let mut i: usize = 0;
        while i < self.0.len()
            invariant
                i <= self@.len(),
                forall|k: int| 0 <= k < i ==> self@[k] is Some,
            decreases self@.len() - i,
        {
            if self.0[i].is_none() {
                return false;
            }
            i = i + 1;
        }
        true
    }
}

} // verus!
