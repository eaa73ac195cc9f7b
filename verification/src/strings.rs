//! A growable string of characters backed by a `Vec<char>`, indexable and
//! mutable character by character. Its view is the sequence of characters it
//! holds.

use vstd::prelude::*;

verus! {

/// A mutable string: a growable vector of characters.
#[derive(Clone, Default, Eq, Hash, PartialOrd, Ord, PartialEq, Debug)]
pub struct MutableString {
    vec: Vec<char>,
}

impl View for MutableString {
    type V = Seq<char>;

    closed spec fn view(&self) -> Seq<char> {
        self.vec@
    }
}

impl MutableString {
    /// Creates an empty string.
    pub fn new() -> (s: MutableString)
        ensures
            s@ == Seq::<char>::empty(),
    {
        MutableString { vec: Vec::new() }
    }

    /// Creates an empty string with at least the given capacity preallocated.
    pub fn with_capacity(capacity: usize) -> (s: MutableString)
        ensures
            s@ == Seq::<char>::empty(),
    {
        MutableString { vec: Vec::with_capacity(capacity) }
    }

    /// Wraps an existing character vector without copying it.
    pub fn from_vec(vec: Vec<char>) -> (s: MutableString)
        ensures
            s@ == vec@,
    {
        MutableString { vec }
    }

    /// Unwraps the string into its character vector without copying it.
    pub fn into_chars(self) -> (v: Vec<char>)
        ensures
            v@ == self@,
    {
        self.vec
    }

    /// Number of characters the string can hold without reallocating.
    /// Relies on std's `Vec::capacity`, which is documented to be at least
    /// the length.
    #[verifier::external_body]
    pub fn capacity(&self) -> (c: usize)
        ensures
            c >= self@.len(),
    {
        self.vec.capacity()
    }

    /// Reserves capacity for at least `additional` more characters; the
    /// contents are unchanged.
    pub fn reserve(&mut self, additional: usize)
        ensures
            final (self)@ == old(self)@,
    {
        self.vec.reserve(additional)
    }

    /// Reserves the minimum capacity for exactly `additional` more
    /// characters. Relies on std's `Vec::reserve_exact`, which leaves the
    /// contents unchanged.
    #[verifier::external_body]
    pub fn reserve_exact(&mut self, additional: usize)
        ensures
            final (self)@ == old(self)@,
    {
        self.vec.reserve_exact(additional)
    }

    /// Shrinks the capacity towards the length. Relies on std's
    /// `Vec::shrink_to_fit`, which leaves the contents unchanged.
    #[verifier::external_body]
    pub fn shrink_to_fit(&mut self)
        ensures
            final (self)@ == old(self)@,
    {
        self.vec.shrink_to_fit()
    }

    /// Appends a character.
    pub fn push(&mut self, ch: char)
        ensures
            final (self)@ == old(self)@.push(ch),
    {
        self.vec.push(ch)
    }

    /// The characters as a slice.
    pub fn as_chars(&self) -> (r: &[char])
        ensures
            r@ == self@,
    {
        self.vec.as_slice()
    }

    /// Shortens the string to `new_len` characters; does nothing when
    /// `new_len` exceeds the current length.
    pub fn truncate(&mut self, new_len: usize)
        ensures
            new_len <= old(self)@.len() ==> final (self)@ == old(self)@.subrange(
                0,
                new_len as int,
            ),
            new_len > old(self)@.len() ==> final (self)@ == old(self)@,
    {
        if new_len <= self.len() {
            self.vec.truncate(new_len)
        }
    }

    /// Removes and returns the last character, or `None` when empty.
    pub fn pop(&mut self) -> (r: Option<char>)
        ensures
            old(self)@.len() > 0 ==> r == Some(old(self)@.last()) && final (self)@ == old(
                self,
            )@.drop_last(),
            old(self)@.len() == 0 ==> r is None && final (self)@ == old(self)@,
    {
        self.vec.pop()
    }

    /// The character at the given index.
    pub fn char_at(&self, idx: usize) -> (c: char)
        requires
            idx < self@.len(),
        ensures
            c == self@[idx as int],
    {
        self.vec[idx]
    }

    /// Replaces the character at the given index.
    pub fn set_char(&mut self, idx: usize, ch: char)
        requires
            idx < old(self)@.len(),
        ensures
            final (self)@ == old(self)@.update(idx as int, ch),
    {
        self.vec[idx] = ch;
    }

    /// Number of characters.
    pub fn len(&self) -> (n: usize)
        ensures
            n == self@.len(),
    {
        self.vec.len()
    }

    /// True when the string holds no characters.
    pub fn is_empty(&self) -> (r: bool)
        ensures
            r == (self@.len() == 0),
    {
        self.len() == 0
    }

    /// Removes every character.
    pub fn clear(&mut self)
        ensures
            final (self)@ == Seq::<char>::empty(),
    {
        self.vec.clear()
    }
}

} // verus!
