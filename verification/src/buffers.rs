//! Byte cursor pair: a writer and a reader over the same arena-backed
//! bytes.
//!
//! The two cursors are independent; both encode multi-byte integers in one
//! fixed byte order agreed on at construction. The writer appends at its
//! cursor through the arena's allocation primitives and can patch an
//! already-written 8-byte field in place; the reader walks the written
//! region and can also read at an explicit offset without moving.
//!
//! Reading past the logically-written region (the arena's current offset)
//! is excluded by contract at this layer: boundary enforcement against a
//! record's declared payload length is the command-log reader's job.

use crate::allocator::RegionAllocator;
use vstd::bytes::{
    spec_u32_from_le_bytes, spec_u32_to_le_bytes, spec_u64_from_le_bytes, spec_u64_to_le_bytes,
    u32_from_le_bytes, u32_to_le_bytes, u64_from_le_bytes, u64_to_le_bytes,
};
use vstd::prelude::*;
use vstd::string::StringSliceAdditionalSpecFns;

verus! {

/// Byte order used for every multi-byte integer of one writer/reader pair.
#[derive(Clone, Copy, Debug, PartialEq, Eq, Structural)]
pub enum ByteOrder {
    /// Least significant byte first (the default for command logs).
    LittleEndian,
    /// Most significant byte first.
    BigEndian,
}

/// The 8-byte encoding of `value` in byte order `byte_order`.
pub open spec fn enc_u64(byte_order: ByteOrder, value: u64) -> Seq<u8> {
    match byte_order {
        ByteOrder::LittleEndian => spec_u64_to_le_bytes(value),
        ByteOrder::BigEndian => spec_u64_to_le_bytes(value).reverse(),
    }
}

/// The value encoded by 8 bytes in byte order `byte_order`.
pub open spec fn dec_u64(byte_order: ByteOrder, s: Seq<u8>) -> u64
    recommends
        s.len() == 8,
{
    match byte_order {
        ByteOrder::LittleEndian => spec_u64_from_le_bytes(s),
        ByteOrder::BigEndian => spec_u64_from_le_bytes(s.reverse()),
    }
}

/// The 4-byte encoding of `value` in byte order `byte_order`.
pub open spec fn enc_u32(byte_order: ByteOrder, value: u32) -> Seq<u8> {
    match byte_order {
        ByteOrder::LittleEndian => spec_u32_to_le_bytes(value),
        ByteOrder::BigEndian => spec_u32_to_le_bytes(value).reverse(),
    }
}

/// The value encoded by 4 bytes in byte order `byte_order`.
pub open spec fn dec_u32(byte_order: ByteOrder, s: Seq<u8>) -> u32
    recommends
        s.len() == 4,
{
    match byte_order {
        ByteOrder::LittleEndian => spec_u32_from_le_bytes(s),
        ByteOrder::BigEndian => spec_u32_from_le_bytes(s.reverse()),
    }
}

/// A length-prefixed string: the byte length as a u64, then the raw bytes.
pub open spec fn enc_str(byte_order: ByteOrder, bytes: Seq<u8>) -> Seq<u8>
    recommends
        bytes.len() <= u64::MAX,
{
    enc_u64(byte_order, bytes.len() as u64) + bytes
}

/// Reversing twice gives the sequence back.
proof fn lemma_reverse_reverse(s: Seq<u8>)
    ensures
        s.reverse().reverse() == s,
{
    assert(s.reverse().reverse() =~= s);
}

/// Encoding a u64 yields 8 bytes, and decoding them in the same byte order
/// gives the value back.
pub proof fn lemma_u64_round_trip(byte_order: ByteOrder, value: u64)
    ensures
        enc_u64(byte_order, value).len() == 8,
        dec_u64(byte_order, enc_u64(byte_order, value)) == value,
{
    vstd::bytes::lemma_auto_spec_u64_to_from_le_bytes();
    match byte_order {
        ByteOrder::LittleEndian => {},
        ByteOrder::BigEndian => {
            lemma_reverse_reverse(spec_u64_to_le_bytes(value));
        },
    }
}

/// Any 8 bytes are the encoding of the value they decode to.
pub proof fn lemma_dec_enc_u64(byte_order: ByteOrder, s: Seq<u8>)
    requires
        s.len() == 8,
    ensures
        enc_u64(byte_order, dec_u64(byte_order, s)) == s,
{
    vstd::bytes::lemma_auto_spec_u64_to_from_le_bytes();
    match byte_order {
        ByteOrder::LittleEndian => {},
        ByteOrder::BigEndian => {
            assert(s.reverse().len() == 8);
            lemma_reverse_reverse(s);
        },
    }
}

/// Encoding a u32 yields 4 bytes, and decoding them in the same byte order
/// gives the value back.
pub proof fn lemma_u32_round_trip(byte_order: ByteOrder, value: u32)
    ensures
        enc_u32(byte_order, value).len() == 4,
        dec_u32(byte_order, enc_u32(byte_order, value)) == value,
{
    vstd::bytes::lemma_auto_spec_u32_to_from_le_bytes();
    assert(spec_u32_to_le_bytes(value).len() == 4);
    match byte_order {
        ByteOrder::LittleEndian => {},
        ByteOrder::BigEndian => {
            lemma_reverse_reverse(spec_u32_to_le_bytes(value));
        },
    }
}

/// Copy of `v` in reverse order.
fn reverse_bytes(v: Vec<u8>) -> (r: Vec<u8>)
    ensures
        r@ == v@.reverse(),
{
    let n = v.len();
    let mut r: Vec<u8> = Vec::new();
    let mut i: usize = 0;
    while i < n
        invariant
            0 <= i <= n,
            n == v@.len(),
            r@.len() == i,
            forall|k: int| 0 <= k < i ==> r@[k] == v@[n - 1 - k],
        decreases n - i,
    {
        r.push(v[n - 1 - i]);
        i = i + 1;
    }
    proof {
        assert(r@ =~= v@.reverse());
    }
    r
}

/// The bytes of `value` in byte order `byte_order`.
pub fn encode_u64(byte_order: ByteOrder, value: u64) -> (r: Vec<u8>)
    ensures
        r@ == enc_u64(byte_order, value),
        r@.len() == 8,
{
    proof {
        lemma_u64_round_trip(byte_order, value);
    }
    let le = u64_to_le_bytes(value);
    match byte_order {
        ByteOrder::LittleEndian => le,
        ByteOrder::BigEndian => reverse_bytes(le),
    }
}

/// The bytes of `value` in byte order `byte_order`.
pub fn encode_u32(byte_order: ByteOrder, value: u32) -> (r: Vec<u8>)
    ensures
        r@ == enc_u32(byte_order, value),
        r@.len() == 4,
{
    proof {
        lemma_u32_round_trip(byte_order, value);
    }
    let le = u32_to_le_bytes(value);
    match byte_order {
        ByteOrder::LittleEndian => le,
        ByteOrder::BigEndian => reverse_bytes(le),
    }
}

/// The value encoded by 8 bytes in byte order `byte_order`.
fn decode_u64(byte_order: ByteOrder, bytes: Vec<u8>) -> (r: u64)
    requires
        bytes@.len() == 8,
    ensures
        r == dec_u64(byte_order, bytes@),
{
    match byte_order {
        ByteOrder::LittleEndian => u64_from_le_bytes(bytes.as_slice()),
        ByteOrder::BigEndian => {
            let rb = reverse_bytes(bytes);
            u64_from_le_bytes(rb.as_slice())
        },
    }
}

/// The value encoded by 4 bytes in byte order `byte_order`.
fn decode_u32(byte_order: ByteOrder, bytes: Vec<u8>) -> (r: u32)
    requires
        bytes@.len() == 4,
    ensures
        r == dec_u32(byte_order, bytes@),
{
    match byte_order {
        ByteOrder::LittleEndian => u32_from_le_bytes(bytes.as_slice()),
        ByteOrder::BigEndian => {
            let rb = reverse_bytes(bytes);
            u32_from_le_bytes(rb.as_slice())
        },
    }
}

/// Copy `count` allocated bytes starting at `start` out of the arena.
fn take_bytes(a: &RegionAllocator, start: usize, count: usize) -> (r: Vec<u8>)
    requires
        a.wf(),
        start + count <= a.offset(),
    ensures
        r@ == a.contents().subrange(start as int, start + count),
{
    let mut r: Vec<u8> = Vec::new();
    let mut i: usize = 0;
    while i < count
        invariant
            0 <= i <= count,
            start + count <= a.offset(),
            a.wf(),
            r@.len() == i,
            forall|k: int| 0 <= k < i ==> r@[k] == a.contents()[start + k],
        decreases count - i,
    {
        r.push(a.get_byte(start + i));
        i = i + 1;
    }
    proof {
        assert(r@ =~= a.contents().subrange(start as int, start + count));
    }
    r
}

/// Appending byte cursor with write permission over an arena.
pub struct BytesWriter {
    byte_order: ByteOrder,
    cursor: u64,
}

impl BytesWriter {
    /// The byte order every multi-byte write uses; fixed at construction.
    pub closed spec fn byte_order(self) -> ByteOrder {
        self.byte_order
    }

    /// Position of the next appended byte.
    pub closed spec fn cursor(self) -> nat {
        self.cursor as nat
    }

    /// An appending writer is positioned exactly at the arena's allocation
    /// offset: everything before its cursor is written, everything after
    /// is not yet allocated.
    pub open spec fn paired(self, a: RegionAllocator) -> bool {
        &&& a.wf()
        &&& self.cursor() == a.offset()
    }

    /// Create a writer over `a`, positioned at the arena's current offset.
    pub fn new(byte_order: ByteOrder, a: &RegionAllocator) -> (r: Self)
        requires
            a.wf(),
        ensures
            r.byte_order() == byte_order,
            r.paired(*a),
    {
        BytesWriter { byte_order, cursor: a.current_offset() as u64 }
    }

    /// Position of the next appended byte.
    pub fn current_offset(&self) -> (r: u64)
        ensures
            r == self.cursor(),
    {
        self.cursor
    }

    /// The byte order this writer encodes in.
    pub fn current_byte_order(&self) -> (r: ByteOrder)
        ensures
            r == self.byte_order(),
    {
        self.byte_order
    }

    /// Reset the cursor to the start of the arena (used together with
    /// [`RegionAllocator::clear`] when a log is rebuilt from scratch).
    pub fn clear(&mut self)
        ensures
            final(self).cursor() == 0,
            final(self).byte_order() == old(self).byte_order(),
    {
        self.cursor = 0;
    }

    /// Append raw bytes at the cursor.
    pub fn write_bytes(&mut self, a: &mut RegionAllocator, data: &[u8])
        requires
            old(self).paired(*old(a)),
            old(a).offset() + data@.len() <= old(a).capacity(),
        ensures
            final(self).paired(*final(a)),
            final(self).byte_order() == old(self).byte_order(),
            final(self).cursor() == old(self).cursor() + data@.len(),
            final(a).capacity() == old(a).capacity(),
            final(a).offset() == old(a).offset() + data@.len(),
            final(a).written() == old(a).written() + data@,
    {
        let res = a.emplace_buffer(data);
        match res {
            Ok(_) => {},
            Err(_) => {
                proof {
                    assert(false);
                }
            },
        }
        self.cursor = self.cursor + data.len() as u64;
        proof {
            assert(a.written() =~= old(a).written() + data@);
        }
    }

    /// Append the 8-byte encoding of `value` at the cursor.
    pub fn write_u64(&mut self, a: &mut RegionAllocator, value: u64)
        requires
            old(self).paired(*old(a)),
            old(a).offset() + 8 <= old(a).capacity(),
        ensures
            final(self).paired(*final(a)),
            final(self).byte_order() == old(self).byte_order(),
            final(self).cursor() == old(self).cursor() as int + 8,
            final(a).capacity() == old(a).capacity(),
            final(a).offset() == old(a).offset() + 8,
            final(a).written() == old(a).written() + enc_u64(old(self).byte_order(), value),
    {
        proof {
            lemma_u64_round_trip(self.byte_order, value);
        }
        let bytes = encode_u64(self.byte_order, value);
        self.write_bytes(a, bytes.as_slice());
    }

    /// Append the 4-byte encoding of `value` at the cursor.
    pub fn write_u32(&mut self, a: &mut RegionAllocator, value: u32)
        requires
            old(self).paired(*old(a)),
            old(a).offset() + 4 <= old(a).capacity(),
        ensures
            final(self).paired(*final(a)),
            final(self).byte_order() == old(self).byte_order(),
            final(self).cursor() == old(self).cursor() + 4,
            final(a).capacity() == old(a).capacity(),
            final(a).offset() == old(a).offset() + 4,
            final(a).written() == old(a).written() + enc_u32(old(self).byte_order(), value),
    {
        proof {
            lemma_u32_round_trip(self.byte_order, value);
        }
        let bytes = encode_u32(self.byte_order, value);
        self.write_bytes(a, bytes.as_slice());
    }

    /// Append one byte at the cursor.
    pub fn write_byte(&mut self, a: &mut RegionAllocator, value: u8)
        requires
            old(self).paired(*old(a)),
            old(a).offset() + 1 <= old(a).capacity(),
        ensures
            final(self).paired(*final(a)),
            final(self).byte_order() == old(self).byte_order(),
            final(self).cursor() == old(self).cursor() + 1,
            final(a).capacity() == old(a).capacity(),
            final(a).offset() == old(a).offset() + 1,
            final(a).written() == old(a).written() + seq![value],
    {
        let bytes: [u8; 1] = [value];
        proof {
            assert(bytes@ =~= seq![value]);
        }
        self.write_bytes(a, bytes.as_slice());
    }

    /// Append a length-prefixed string at the cursor: the byte length as a
    /// u64, then the raw bytes.
    pub fn write_string(&mut self, a: &mut RegionAllocator, s: &str)
        requires
            old(self).paired(*old(a)),
            old(a).offset() + 8 + s.spec_bytes().len() <= old(a).capacity(),
        ensures
            final(self).paired(*final(a)),
            final(self).byte_order() == old(self).byte_order(),
            final(self).cursor() == old(self).cursor() + 8 + s.spec_bytes().len(),
            final(a).capacity() == old(a).capacity(),
            final(a).offset() == old(a).offset() + 8 + s.spec_bytes().len(),
            final(a).written() == old(a).written() + enc_str(
                old(self).byte_order(),
                s.spec_bytes(),
            ),
    {
        let bytes = s.as_bytes();
        self.write_u64(a, bytes.len() as u64);
        self.write_bytes(a, bytes);
        proof {
            assert(a.written() =~= old(a).written() + enc_str(
                old(self).byte_order(),
                s.spec_bytes(),
            ));
        }
    }

    /// Overwrite 8 already-written bytes at an arbitrary offset with the
    /// encoding of `value`, without moving the cursor (patch-back of a
    /// reserved length field).
    pub fn write_u64_at(&self, a: &mut RegionAllocator, offset: u64, value: u64)
        requires
            old(a).wf(),
            offset + 8 <= old(a).offset(),
        ensures
            final(a).wf(),
            final(a).capacity() == old(a).capacity(),
            final(a).offset() == old(a).offset(),
            final(a).contents() == old(a).contents().take(offset as int) + enc_u64(
                self.byte_order(),
                value,
            ) + old(a).contents().skip(offset + 8),
    {
        proof {
            lemma_u64_round_trip(self.byte_order, value);
        }
        let bytes = encode_u64(self.byte_order, value);
        a.write_bytes_at(offset as usize, bytes.as_slice());
    }
}

/// Reading byte cursor over an arena, independent of the writer.
pub struct BytesReader {
    byte_order: ByteOrder,
    cursor: u64,
}

impl BytesReader {
    /// The byte order every multi-byte read uses; fixed at construction.
    pub closed spec fn byte_order(self) -> ByteOrder {
        self.byte_order
    }

    /// Position of the next byte to read.
    pub closed spec fn cursor(self) -> nat {
        self.cursor as nat
    }

    /// Create a reader over `a`, positioned at offset 0.
    pub fn new(byte_order: ByteOrder, a: &RegionAllocator) -> (r: Self)
        ensures
            r.byte_order() == byte_order,
            r.cursor() == 0,
    {
        let _ = a;
        BytesReader { byte_order, cursor: 0 }
    }

    /// Position of the next byte to read.
    pub fn current_offset(&self) -> (r: u64)
        ensures
            r == self.cursor(),
    {
        self.cursor
    }


    /// Move the cursor back to offset 0.
    pub fn reset(&mut self)
        ensures
            final(self).cursor() == 0,
            final(self).byte_order() == old(self).byte_order(),
    {
        self.cursor = 0;
    }

    /// Advance the cursor by `n` bytes without reading them.
    pub fn skip(&mut self, n: u64)
        requires
            old(self).cursor() + n <= u64::MAX,
        ensures
            final(self).cursor() == old(self).cursor() + n,
            final(self).byte_order() == old(self).byte_order(),
    {
        self.cursor = self.cursor + n;
    }

    /// Read a u64 at the cursor and advance past it.
    pub fn read_u64(&mut self, a: &RegionAllocator) -> (r: u64)
        requires
            a.wf(),
            old(self).cursor() + 8 <= a.offset(),
        ensures
            final(self).cursor() == old(self).cursor() as int + 8,
            final(self).byte_order() == old(self).byte_order(),
            r == dec_u64(
                old(self).byte_order(),
                a.contents().subrange(old(self).cursor() as int, old(self).cursor() as int + 8),
            ),
    {
        let bytes = take_bytes(a, self.cursor as usize, 8);
        let r = decode_u64(self.byte_order, bytes);
        self.cursor = self.cursor + 8;
        r
    }

    /// Read a u32 at the cursor and advance past it.
    pub fn read_u32(&mut self, a: &RegionAllocator) -> (r: u32)
        requires
            a.wf(),
            old(self).cursor() + 4 <= a.offset(),
        ensures
            final(self).cursor() == old(self).cursor() + 4,
            final(self).byte_order() == old(self).byte_order(),
            r == dec_u32(
                old(self).byte_order(),
                a.contents().subrange(old(self).cursor() as int, old(self).cursor() as int + 4),
            ),
    {
        let bytes = take_bytes(a, self.cursor as usize, 4);
        let r = decode_u32(self.byte_order, bytes);
        self.cursor = self.cursor + 4;
        r
    }

    /// Read one byte at the cursor and advance past it.
    pub fn read_byte(&mut self, a: &RegionAllocator) -> (r: u8)
        requires
            a.wf(),
            old(self).cursor() + 1 <= a.offset(),
        ensures
            final(self).cursor() == old(self).cursor() + 1,
            final(self).byte_order() == old(self).byte_order(),
            r == a.contents()[old(self).cursor() as int],
    {
        let r = a.get_byte(self.cursor as usize);
        self.cursor = self.cursor + 1;
        r
    }

    /// Read a u64 at an arbitrary written offset without moving the
    /// cursor.
    pub fn read_u64_at(&self, a: &RegionAllocator, offset: u64) -> (r: u64)
        requires
            a.wf(),
            offset + 8 <= a.offset(),
        ensures
            r == dec_u64(
                self.byte_order(),
                a.contents().subrange(offset as int, offset + 8),
            ),
    {
        let bytes = take_bytes(a, offset as usize, 8);
        decode_u64(self.byte_order, bytes)
    }

    /// Read a length-prefixed string at the cursor and advance past it;
    /// returns the raw bytes.
    pub fn read_string(&mut self, a: &RegionAllocator) -> (r: Vec<u8>)
        requires
            a.wf(),
            old(self).cursor() + 8 <= a.offset(),
            old(self).cursor() + 8 + dec_u64(
                old(self).byte_order(),
                a.contents().subrange(old(self).cursor() as int, old(self).cursor() as int + 8),
            ) <= a.offset(),
        ensures
            final(self).byte_order() == old(self).byte_order(),
            final(self).cursor() == old(self).cursor() + 8 + r@.len(),
            r@ == a.contents().subrange(
                old(self).cursor() as int + 8,
                old(self).cursor() + 8 + dec_u64(
                    old(self).byte_order(),
                    a.contents().subrange(old(self).cursor() as int, old(self).cursor() as int + 8),
                ),
            ),
    {
        let len = self.read_u64(a);
        let bytes = take_bytes(a, self.cursor as usize, len as usize);
        self.cursor = self.cursor + len;
        bytes
    }
}

} // verus!
