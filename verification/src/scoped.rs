//! A scoped owner for a file's text buffer.
//!
//! The extractor walks a syntax tree whose spans borrow the file's text, so
//! the text must outlive the whole walk. `ScopedStaticStr` owns the buffer
//! for one such scope: it takes the string once, keeps it alive as long as
//! the owner itself lives, and hands out borrows of it. Holding the owner
//! beside whatever uses the borrow keeps the buffer valid for exactly that
//! scope, and the memory is reclaimed when the owner is dropped.

use vstd::prelude::*;

verus! {

/// Owns a string buffer for the scope of this value.
pub struct ScopedStaticStr {
    inner: String,
}

impl View for ScopedStaticStr {
    type V = Seq<char>;

    closed spec fn view(&self) -> Seq<char> {
        self.inner@
    }
}

impl ScopedStaticStr {
    /// Takes ownership of the buffer.
    pub fn new(s: String) -> (r: Self)
        ensures
            r@ == s@,
    {
        ScopedStaticStr { inner: s }
    }

    /// A borrow of the owned buffer, valid while the owner lives.
    pub fn as_static_str(&self) -> (r: &str)
        ensures
            r@ == self@,
    {
        self.inner.as_str()
    }
}

} // verus!
