//! The cursor: a position-tracking wrapper around a byte buffer, with
//! sequential and random-offset reads and writes of fixed-width integers.

use vstd::prelude::*;

use crate::buffer::ByteSink;
use crate::buffer::ByteSource;
use crate::codec::ByteOrder;
use crate::codec::be_bytes;
use crate::codec::be_value;
use crate::codec::bytes_of;
use crate::codec::le_bytes;
use crate::codec::le_value;
use crate::codec::lemma_be_bytes_len;
use crate::codec::lemma_le_bytes_len;
use crate::codec::lemma_pow256_monotone;
use crate::codec::lemma_pow256_values;
use crate::codec::pow256;
use crate::codec::value_of;
use crate::error::BufferTooSmall;

verus! {

/// Numeric value of the width bytes at start, least significant first.
fn load_le<T: ByteSource>(buffer: &T, start: usize, width: usize) -> (r: u64)
    requires
        start + width <= buffer.contents().len(),
        width <= 8,
    ensures
        r as nat == le_value(buffer.contents().subrange(start as int, start + width)),
        (r as nat) < pow256(width as nat),
    decreases width,
{
    proof {
        buffer.len_fits();
        lemma_pow256_values();
    }
    if width == 0 {
        0
    } else {
        let b: u8 = buffer.byte_at(start);
        let rest: u64 = load_le(buffer, start + 1, width - 1);
        proof {
            lemma_pow256_monotone((width - 1) as nat, 7);
            assert(pow256(width as nat) == 256 * pow256((width - 1) as nat));
            let s = buffer.contents().subrange(start as int, start + width);
            assert(s.drop_first() =~= buffer.contents().subrange(start + 1, start + width));
            assert(le_value(s) == s[0] as nat + 256 * le_value(s.drop_first()));
        }
        b as u64 + 256 * rest
    }
}

/// Numeric value of the width bytes at start, most significant first.
fn load_be<T: ByteSource>(buffer: &T, start: usize, width: usize) -> (r: u64)
    requires
        start + width <= buffer.contents().len(),
        width <= 8,
    ensures
        r as nat == be_value(buffer.contents().subrange(start as int, start + width)),
        (r as nat) < pow256(width as nat),
    decreases width,
{
    proof {
        buffer.len_fits();
        lemma_pow256_values();
    }
    if width == 0 {
        0
    } else {
        let rest: u64 = load_be(buffer, start, width - 1);
        let b: u8 = buffer.byte_at(start + width - 1);
        proof {
            lemma_pow256_monotone((width - 1) as nat, 7);
            assert(pow256(width as nat) == 256 * pow256((width - 1) as nat));
            let s = buffer.contents().subrange(start as int, start + width);
            assert(s.drop_last() =~= buffer.contents().subrange(start as int, start + width - 1));
            assert(be_value(s) == 256 * be_value(s.drop_last()) + s.last() as nat);
        }
        256 * rest + b as u64
    }
}

/// Numeric value of the width bytes at start, in the given byte order.
fn load<T: ByteSource>(buffer: &T, start: usize, width: usize, order: ByteOrder) -> (r: u64)
    requires
        start + width <= buffer.contents().len(),
        width <= 8,
    ensures
        r as nat == value_of(order, buffer.contents().subrange(start as int, start + width)),
        (r as nat) < pow256(width as nat),
{
    match order {
        ByteOrder::BigEndian => load_be(buffer, start, width),
        ByteOrder::LittleEndian => load_le(buffer, start, width),
    }
}

/// Writes the width little-endian bytes of v at start.
fn store_le<T: ByteSink>(buffer: &mut T, start: usize, width: usize, v: u64)
    requires
        start + width <= old(buffer).contents().len(),
        (v as nat) < pow256(width as nat),
    ensures
        final(buffer).contents().len() == old(buffer).contents().len(),
        final(buffer).contents().subrange(start as int, start + width) == le_bytes(
            v as nat,
            width as nat,
        ),
        forall|i: int|
            0 <= i < old(buffer).contents().len() && !(start <= i < start + width)
                ==> final(buffer).contents()[i] == old(buffer).contents()[i],
    decreases width,
{
    proof {
        buffer.len_fits();
    }
    if width == 0 {
        proof {
            assert(buffer.contents().subrange(start as int, start as int) =~= le_bytes(
                v as nat,
                0,
            ));
        }
    } else {
        proof {
            vstd::arithmetic::div_mod::lemma_fundamental_div_mod(v as int, 256);
            assert(pow256(width as nat) == 256 * pow256((width - 1) as nat));
            assert(((v / 256) as nat) < pow256((width - 1) as nat));
        }
        let b: u8 = (v % 256) as u8;
        buffer.put_byte(start, b);
        store_le(buffer, start + 1, width - 1, v / 256);
        proof {
            lemma_le_bytes_len((v / 256) as nat, (width - 1) as nat);
            assert(buffer.contents().subrange(start as int, start + width) =~= seq![b]
                + le_bytes((v / 256) as nat, (width - 1) as nat));
            assert(le_bytes(v as nat, width as nat) == seq![b] + le_bytes(
                (v / 256) as nat,
                (width - 1) as nat,
            ));
        }
    }
}

/// Writes the width big-endian bytes of v at start.
fn store_be<T: ByteSink>(buffer: &mut T, start: usize, width: usize, v: u64)
    requires
        start + width <= old(buffer).contents().len(),
        (v as nat) < pow256(width as nat),
    ensures
        final(buffer).contents().len() == old(buffer).contents().len(),
        final(buffer).contents().subrange(start as int, start + width) == be_bytes(
            v as nat,
            width as nat,
        ),
        forall|i: int|
            0 <= i < old(buffer).contents().len() && !(start <= i < start + width)
                ==> final(buffer).contents()[i] == old(buffer).contents()[i],
    decreases width,
{
    proof {
        buffer.len_fits();
    }
    if width == 0 {
        proof {
            assert(buffer.contents().subrange(start as int, start as int) =~= be_bytes(
                v as nat,
                0,
            ));
        }
    } else {
        proof {
            vstd::arithmetic::div_mod::lemma_fundamental_div_mod(v as int, 256);
            assert(pow256(width as nat) == 256 * pow256((width - 1) as nat));
            assert(((v / 256) as nat) < pow256((width - 1) as nat));
        }
        let b: u8 = (v % 256) as u8;
        buffer.put_byte(start + width - 1, b);
        store_be(buffer, start, width - 1, v / 256);
        proof {
            lemma_be_bytes_len((v / 256) as nat, (width - 1) as nat);
            assert(buffer.contents().subrange(start as int, start + width) =~= be_bytes(
                (v / 256) as nat,
                (width - 1) as nat,
            ) + seq![b]);
            assert(be_bytes(v as nat, width as nat) == be_bytes((v / 256) as nat, (width - 1) as nat)
                + seq![b]);
        }
    }
}

/// Writes the width bytes of v at start, in the given byte order.
fn store<T: ByteSink>(buffer: &mut T, start: usize, width: usize, v: u64, order: ByteOrder)
    requires
        start + width <= old(buffer).contents().len(),
        (v as nat) < pow256(width as nat),
    ensures
        final(buffer).contents().len() == old(buffer).contents().len(),
        final(buffer).contents().subrange(start as int, start + width) == bytes_of(
            order,
            v as nat,
            width as nat,
        ),
        forall|i: int|
            0 <= i < old(buffer).contents().len() && !(start <= i < start + width)
                ==> final(buffer).contents()[i] == old(buffer).contents()[i],
{
    match order {
        ByteOrder::BigEndian => store_be(buffer, start, width, v),
        ByteOrder::LittleEndian => store_le(buffer, start, width, v),
    }
}

/// A cursor over a buffer handle T: a byte offset into the buffer,
/// advanced by every sequential read and write.
///
/// The offset is not kept within bounds: set_position and skip may move it
/// past the end of the buffer.  Every operation that touches bytes instead
/// demands the room it needs as a precondition; check_remaining is the
/// recoverable way for a caller to establish that room first.
#[derive(Debug)]
pub struct Cursor<T> {
    buffer: T,
    pos: usize,
}

impl<T: ByteSource> Cursor<T> {
    /// The bytes of the underlying buffer.
    pub closed spec fn contents(&self) -> Seq<u8> {
        self.buffer.contents()
    }

    /// The current byte offset into the buffer.
    pub closed spec fn spec_pos(&self) -> int {
        self.pos as int
    }

    /// Constructs a new cursor on top of a buffer handle, at offset zero.
    pub fn new(buffer: T) -> (cursor: Self)
        ensures
            cursor.contents() == buffer.contents(),
            cursor.spec_pos() == 0,
    {
        Self { buffer, pos: 0 }
    }

    /// Returns the length of the underlying buffer.
    pub fn len(&self) -> (n: usize)
        ensures
            n == self.contents().len(),
    {
        self.buffer.byte_len()
    }

    /// Returns the remaining length in bytes of the underlying buffer.
    pub fn remaining(&self) -> (n: usize)
        requires
            self.spec_pos() <= self.contents().len(),
        ensures
            n == self.contents().len() - self.spec_pos(),
    {
        self.buffer.byte_len() - self.pos
    }

    /// Checks if the underlying buffer has the expected amount of space
    /// left.  This is the only recoverable failure in the library: the
    /// error carries the buffer's length and the least length that would
    /// have sufficed.
    pub fn check_remaining(&self, expected: usize) -> (r: Result<(), BufferTooSmall>)
        requires
            self.spec_pos() <= self.contents().len(),
            self.spec_pos() + expected <= usize::MAX,
        ensures
            r is Ok <==> self.contents().len() - self.spec_pos() >= expected,
            r matches Err(e) ==> e.size == self.contents().len() && e.expected == self.spec_pos()
                + expected,
    {
        if self.remaining() < expected {
            return Err(BufferTooSmall { size: self.len(), expected: self.pos + expected });
        }
        Ok(())
    }

    /// Returns the cursor position in the underlying buffer.
    pub fn position(&self) -> (p: usize)
        ensures
            p == self.spec_pos(),
    {
        self.pos
    }

    /// Sets the cursor position in the underlying buffer, with no bounds
    /// check: the position may land past the end of the buffer.
    pub fn set_position(&mut self, position: usize)
        ensures
            final(self).contents() == old(self).contents(),
            final(self).spec_pos() == position,
    {
        self.pos = position;
    }

    /// Advances the cursor position by the given amount of bytes, with no
    /// bounds check: the position may land past the end of the buffer.
    pub fn skip(&mut self, count: usize)
        requires
            old(self).spec_pos() + count <= usize::MAX,
        ensures
            final(self).contents() == old(self).contents(),
            final(self).spec_pos() == old(self).spec_pos() + count,
    {
        self.pos = self.pos + count;
    }

    /// Reads data from the underlying buffer into the given vector, filling
    /// it whole, and advances the cursor position by its length.
    pub fn read_bytes(&mut self, dst: &mut Vec<u8>)
        requires
            old(self).spec_pos() + old(dst)@.len() <= old(self).contents().len(),
        ensures
            final(dst)@ == old(self).contents().subrange(
                old(self).spec_pos(),
                old(self).spec_pos() + old(dst)@.len(),
            ),
            final(self).contents() == old(self).contents(),
            final(self).spec_pos() == old(self).spec_pos() + old(dst)@.len(),
    {
        proof {
            self.buffer.len_fits();
        }
        let n: usize = dst.len();
        let mut i: usize = 0;
        while i < n
            invariant
                n == dst@.len(),
                i <= n,
                self == old(self),
                old(self).spec_pos() + n <= old(self).contents().len(),
                old(self).contents().len() <= usize::MAX,
                forall|j: int|
                    0 <= j < i ==> dst@[j] == old(self).contents()[old(self).spec_pos() + j],
            decreases n - i,
        {
            let b: u8 = self.buffer.byte_at(self.pos + i);
            dst.set(i, b);
            i = i + 1;
        }
        self.pos = self.pos + n;
        proof {
            assert(dst@ =~= old(self).contents().subrange(
                old(self).spec_pos(),
                old(self).spec_pos() + n,
            ));
        }
    }

    /// Reads an 8 bit integer value from the underlying buffer and advances
    /// the cursor position by one byte.
    pub fn read_u8(&mut self) -> (val: u8)
        requires
            old(self).spec_pos() + 1 <= old(self).contents().len(),
        ensures
            val == old(self).contents()[old(self).spec_pos()],
            final(self).contents() == old(self).contents(),
            final(self).spec_pos() == old(self).spec_pos() + 1,
    {
        proof {
            self.buffer.len_fits();
        }
        let val: u8 = self.buffer.byte_at(self.pos);
        self.pos = self.pos + 1;
        val
    }

    /// Reads a 16 bit integer value from the underlying buffer in the given
    /// byte order and advances the cursor position by two bytes.
    pub fn read_u16(&mut self, order: ByteOrder) -> (val: u16)
        requires
            old(self).spec_pos() + 2 <= old(self).contents().len(),
        ensures
            val as nat == value_of(
                order,
                old(self).contents().subrange(
                    old(self).spec_pos(),
                    old(self).spec_pos() + 2,
                ),
            ),
            final(self).contents() == old(self).contents(),
            final(self).spec_pos() == old(self).spec_pos() + 2,
    {
        proof {
            self.buffer.len_fits();
            lemma_pow256_values();
        }
        let v: u64 = load(&self.buffer, self.pos, 2, order);
        self.pos = self.pos + 2;
        v as u16
    }

    /// Reads a 24 bit integer value from the underlying buffer in the given
    /// byte order, zero-filling the high byte of the result, and advances
    /// the cursor position by three bytes.
    pub fn read_u24(&mut self, order: ByteOrder) -> (val: u32)
        requires
            old(self).spec_pos() + 3 <= old(self).contents().len(),
        ensures
            val as nat == value_of(
                order,
                old(self).contents().subrange(
                    old(self).spec_pos(),
                    old(self).spec_pos() + 3,
                ),
            ),
            val < 0x1000000,
            final(self).contents() == old(self).contents(),
            final(self).spec_pos() == old(self).spec_pos() + 3,
    {
        proof {
            self.buffer.len_fits();
            lemma_pow256_values();
        }
        let v: u64 = load(&self.buffer, self.pos, 3, order);
        self.pos = self.pos + 3;
        v as u32
    }

    /// Reads a 32 bit integer value from the underlying buffer in the given
    /// byte order and advances the cursor position by four bytes.
    pub fn read_u32(&mut self, order: ByteOrder) -> (val: u32)
        requires
            old(self).spec_pos() + 4 <= old(self).contents().len(),
        ensures
            val as nat == value_of(
                order,
                old(self).contents().subrange(
                    old(self).spec_pos(),
                    old(self).spec_pos() + 4,
                ),
            ),
            final(self).contents() == old(self).contents(),
            final(self).spec_pos() == old(self).spec_pos() + 4,
    {
        proof {
            self.buffer.len_fits();
            lemma_pow256_values();
        }
        let v: u64 = load(&self.buffer, self.pos, 4, order);
        self.pos = self.pos + 4;
        v as u32
    }

    /// Reads a 64 bit integer value from the underlying buffer in the given
    /// byte order and advances the cursor position by eight bytes.
    pub fn read_u64(&mut self, order: ByteOrder) -> (val: u64)
        requires
            old(self).spec_pos() + 8 <= old(self).contents().len(),
        ensures
            val as nat == value_of(
                order,
                old(self).contents().subrange(
                    old(self).spec_pos(),
                    old(self).spec_pos() + 8,
                ),
            ),
            final(self).contents() == old(self).contents(),
            final(self).spec_pos() == old(self).spec_pos() + 8,
    {
        proof {
            self.buffer.len_fits();
        }
        let v: u64 = load(&self.buffer, self.pos, 8, order);
        self.pos = self.pos + 8;
        v
    }

    /// Reads an 8 bit integer value at the given offset from the cursor
    /// position, without advancing the cursor position.
    pub fn peek_u8(&self, offset: usize) -> (val: u8)
        requires
            self.spec_pos() + offset + 1 <= self.contents().len(),
        ensures
            val == self.contents()[self.spec_pos() + offset],
    {
        proof {
            self.buffer.len_fits();
        }
        self.buffer.byte_at(self.pos + offset)
    }

    /// Reads a 16 bit integer value in the given byte order at the given
    /// offset from the cursor position, without advancing the cursor
    /// position.
    pub fn peek_u16(&self, offset: usize, order: ByteOrder) -> (val: u16)
        requires
            self.spec_pos() + offset + 2 <= self.contents().len(),
        ensures
            val as nat == value_of(
                order,
                self.contents().subrange(
                    self.spec_pos() + offset,
                    self.spec_pos() + offset + 2,
                ),
            ),
    {
        proof {
            self.buffer.len_fits();
            lemma_pow256_values();
        }
        let v: u64 = load(&self.buffer, self.pos + offset, 2, order);
        v as u16
    }

    /// Reads a 24 bit integer value in the given byte order at the given
    /// offset from the cursor position, zero-filling the high byte of the
    /// result, without advancing the cursor position.
    pub fn peek_u24(&self, offset: usize, order: ByteOrder) -> (val: u32)
        requires
            self.spec_pos() + offset + 3 <= self.contents().len(),
        ensures
            val as nat == value_of(
                order,
                self.contents().subrange(
                    self.spec_pos() + offset,
                    self.spec_pos() + offset + 3,
                ),
            ),
            val < 0x1000000,
    {
        proof {
            self.buffer.len_fits();
            lemma_pow256_values();
        }
        let v: u64 = load(&self.buffer, self.pos + offset, 3, order);
        v as u32
    }

    /// Reads a 32 bit integer value in the given byte order at the given
    /// offset from the cursor position, without advancing the cursor
    /// position.
    pub fn peek_u32(&self, offset: usize, order: ByteOrder) -> (val: u32)
        requires
            self.spec_pos() + offset + 4 <= self.contents().len(),
        ensures
            val as nat == value_of(
                order,
                self.contents().subrange(
                    self.spec_pos() + offset,
                    self.spec_pos() + offset + 4,
                ),
            ),
    {
        proof {
            self.buffer.len_fits();
            lemma_pow256_values();
        }
        let v: u64 = load(&self.buffer, self.pos + offset, 4, order);
        v as u32
    }

    /// Consumes the cursor and hands the underlying buffer handle back.
    pub fn into_inner(self) -> (buffer: T)
        ensures
            buffer.contents() == self.contents(),
    {
        self.buffer
    }
}

impl<T: ByteSink> Cursor<T> {
    /// Writes the given slice to the underlying buffer and advances the
    /// cursor position by its length.
    pub fn write_bytes(&mut self, src: &[u8])
        requires
            old(self).spec_pos() + src@.len() <= old(self).contents().len(),
        ensures
            final(self).contents().len() == old(self).contents().len(),
            final(self).contents().subrange(
                old(self).spec_pos(),
                old(self).spec_pos() + src@.len(),
            ) == src@,
            forall|i: int|
                0 <= i < old(self).contents().len() && !(old(self).spec_pos() <= i < old(
                    self,
                ).spec_pos() + src@.len()) ==> final(self).contents()[i] == old(
                    self,
                ).contents()[i],
            final(self).spec_pos() == old(self).spec_pos() + src@.len(),
    {
        proof {
            self.buffer.len_fits();
        }
        let n: usize = src.len();
        let mut i: usize = 0;
        while i < n
            invariant
                n == src@.len(),
                i <= n,
                self.spec_pos() == old(self).spec_pos(),
                self.contents().len() == old(self).contents().len(),
                old(self).spec_pos() + n <= old(self).contents().len(),
                old(self).contents().len() <= usize::MAX,
                forall|j: int|
                    0 <= j < i ==> self.contents()[old(self).spec_pos() + j] == src@[j],
                forall|j: int|
                    0 <= j < old(self).contents().len() && !(old(self).spec_pos() <= j < old(
                        self,
                    ).spec_pos() + i) ==> self.contents()[j] == old(self).contents()[j],
            decreases n - i,
        {
            let b: u8 = src[i];
            self.buffer.put_byte(self.pos + i, b);
            i = i + 1;
        }
        self.pos = self.pos + n;
        proof {
            assert(self.contents().subrange(
                old(self).spec_pos(),
                old(self).spec_pos() + n,
            ) =~= src@);
        }
    }

    /// Writes an 8 bit integer value to the underlying buffer and advances
    /// the cursor position by one byte.
    pub fn write_u8(&mut self, val: u8)
        requires
            old(self).spec_pos() + 1 <= old(self).contents().len(),
        ensures
            final(self).contents() == old(self).contents().update(
                old(self).spec_pos(),
                val,
            ),
            final(self).spec_pos() == old(self).spec_pos() + 1,
    {
        proof {
            self.buffer.len_fits();
        }
        self.buffer.put_byte(self.pos, val);
        self.pos = self.pos + 1;
    }

    /// Writes a 16 bit integer value to the underlying buffer in the given
    /// byte order and advances the cursor position by two bytes.
    pub fn write_u16(&mut self, val: u16, order: ByteOrder)
        requires
            old(self).spec_pos() + 2 <= old(self).contents().len(),
        ensures
            final(self).contents().len() == old(self).contents().len(),
            final(self).contents().subrange(
                old(self).spec_pos(),
                old(self).spec_pos() + 2,
            ) == bytes_of(order, val as nat, 2),
            forall|i: int|
                0 <= i < old(self).contents().len() && !(old(self).spec_pos() <= i < old(
                    self,
                ).spec_pos() + 2) ==> final(self).contents()[i] == old(self).contents()[i],
            final(self).spec_pos() == old(self).spec_pos() + 2,
    {
        proof {
            self.buffer.len_fits();
            lemma_pow256_values();
        }
        store(&mut self.buffer, self.pos, 2, val as u64, order);
        self.pos = self.pos + 2;
    }

    /// Writes a 24 bit integer value to the underlying buffer in the given
    /// byte order and advances the cursor position by three bytes.  The
    /// value must fit in three bytes.
    pub fn write_u24(&mut self, val: u32, order: ByteOrder)
        requires
            old(self).spec_pos() + 3 <= old(self).contents().len(),
            val < 0x1000000,
        ensures
            final(self).contents().len() == old(self).contents().len(),
            final(self).contents().subrange(
                old(self).spec_pos(),
                old(self).spec_pos() + 3,
            ) == bytes_of(order, val as nat, 3),
            forall|i: int|
                0 <= i < old(self).contents().len() && !(old(self).spec_pos() <= i < old(
                    self,
                ).spec_pos() + 3) ==> final(self).contents()[i] == old(self).contents()[i],
            final(self).spec_pos() == old(self).spec_pos() + 3,
    {
        proof {
            self.buffer.len_fits();
            lemma_pow256_values();
        }
        store(&mut self.buffer, self.pos, 3, val as u64, order);
        self.pos = self.pos + 3;
    }

    /// Writes a 32 bit integer value to the underlying buffer in the given
    /// byte order and advances the cursor position by four bytes.
    pub fn write_u32(&mut self, val: u32, order: ByteOrder)
        requires
            old(self).spec_pos() + 4 <= old(self).contents().len(),
        ensures
            final(self).contents().len() == old(self).contents().len(),
            final(self).contents().subrange(
                old(self).spec_pos(),
                old(self).spec_pos() + 4,
            ) == bytes_of(order, val as nat, 4),
            forall|i: int|
                0 <= i < old(self).contents().len() && !(old(self).spec_pos() <= i < old(
                    self,
                ).spec_pos() + 4) ==> final(self).contents()[i] == old(self).contents()[i],
            final(self).spec_pos() == old(self).spec_pos() + 4,
    {
        proof {
            self.buffer.len_fits();
            lemma_pow256_values();
        }
        store(&mut self.buffer, self.pos, 4, val as u64, order);
        self.pos = self.pos + 4;
    }

    /// Writes a 64 bit integer value to the underlying buffer in the given
    /// byte order and advances the cursor position by eight bytes.
    pub fn write_u64(&mut self, val: u64, order: ByteOrder)
        requires
            old(self).spec_pos() + 8 <= old(self).contents().len(),
        ensures
            final(self).contents().len() == old(self).contents().len(),
            final(self).contents().subrange(
                old(self).spec_pos(),
                old(self).spec_pos() + 8,
            ) == bytes_of(order, val as nat, 8),
            forall|i: int|
                0 <= i < old(self).contents().len() && !(old(self).spec_pos() <= i < old(
                    self,
                ).spec_pos() + 8) ==> final(self).contents()[i] == old(self).contents()[i],
            final(self).spec_pos() == old(self).spec_pos() + 8,
    {
        proof {
            self.buffer.len_fits();
            lemma_pow256_values();
        }
        store(&mut self.buffer, self.pos, 8, val, order);
        self.pos = self.pos + 8;
    }
}

} // verus!

