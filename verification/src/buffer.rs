//! Buffer handles: the capabilities a cursor needs from the buffer it
//! wraps, as a read-only contiguous byte view and a mutable one.

use vstd::prelude::*;

verus! {

/// A read-only contiguous byte view: a buffer handle whose length is known
/// and whose bytes can be inspected one at a time.
pub trait ByteSource {
    /// The bytes the handle gives a view of.
    spec fn contents(&self) -> Seq<u8>;

    /// The view describes bytes held in memory, so its length fits in a
    /// machine word.
    proof fn len_fits(&self)
        ensures
            self.contents().len() <= usize::MAX,
    ;

    /// The buffer's length in bytes.
    fn byte_len(&self) -> (n: usize)
        ensures
            n == self.contents().len(),
    ;

    /// The byte at index i.
    fn byte_at(&self, i: usize) -> (b: u8)
        requires
            i < self.contents().len(),
        ensures
            b == self.contents()[i as int],
    ;
}

/// A mutable contiguous byte view: bytes can also be replaced in place.
/// Replacing a byte never changes the buffer's length.
pub trait ByteSink: ByteSource {
    /// Replaces the byte at index i with b.
    fn put_byte(&mut self, i: usize, b: u8)
        requires
            i < old(self).contents().len(),
        ensures
            final(self).contents() == old(self).contents().update(i as int, b),
    ;
}

impl ByteSource for Vec<u8> {
    open spec fn contents(&self) -> Seq<u8> {
        self@
    }

    proof fn len_fits(&self) {
        assert(self@.len() == vstd::std_specs::vec::spec_vec_len(self));
    }

    fn byte_len(&self) -> (n: usize) {
        self.len()
    }

    fn byte_at(&self, i: usize) -> (b: u8) {
        self[i]
    }
}

impl ByteSink for Vec<u8> {
    fn put_byte(&mut self, i: usize, b: u8) {
        self.set(i, b);
    }
}

impl<const N: usize> ByteSource for [u8; N] {
    open spec fn contents(&self) -> Seq<u8> {
        self@
    }

    proof fn len_fits(&self) {
    }

    fn byte_len(&self) -> (n: usize) {
        N
    }

    fn byte_at(&self, i: usize) -> (b: u8) {
        self[i]
    }
}

impl<const N: usize> ByteSink for [u8; N] {
    fn put_byte(&mut self, i: usize, b: u8) {
        self[i] = b;
    }
}

impl<'a> ByteSource for &'a [u8] {
    open spec fn contents(&self) -> Seq<u8> {
        self@
    }

    proof fn len_fits(&self) {
        assert(self@.len() == vstd::slice::spec_slice_len(*self));
    }

    fn byte_len(&self) -> (n: usize) {
        self.len()
    }

    fn byte_at(&self, i: usize) -> (b: u8) {
        self[i]
    }
}

} // verus!
