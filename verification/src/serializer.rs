//! A growable byte writer and a consuming byte reader over the `bytes` crate's
//! buffers. Integers are laid out little-endian.
use vstd::prelude::*;
use bytes::{Buf, BufMut, Bytes, BytesMut};
use crate::topics::{self, Topic};
use crate::wire;
use vstd::utf8::*;
use vstd::string::*;

verus! {

#[verifier::external_type_specification]
#[verifier::external_body]
pub struct ExBytesMut(BytesMut);

#[verifier::external_type_specification]
#[verifier::external_body]
pub struct ExBytes(Bytes);

/// The bytes that a `BytesMut` holds, in order.
pub uninterp spec fn bytes_mut_contents(b: BytesMut) -> Seq<u8>;

/// The bytes that a `Bytes` holds (from its current position on), in order.
pub uninterp spec fn bytes_contents(b: Bytes) -> Seq<u8>;

/// Calls `BytesMut::with_capacity`: the new buffer holds no bytes.
#[verifier::external_body]
fn bytes_mut_with_capacity(capacity: usize) -> (b: BytesMut)
    ensures
        bytes_mut_contents(b) == Seq::<u8>::empty(),
{
    BytesMut::with_capacity(capacity)
}

/// Calls `BufMut::put_u8` on a `BytesMut`: the byte is appended. The buffer
/// grows by reallocation; its length stays below `isize::MAX`.
#[verifier::external_body]
fn bytes_mut_put_u8(b: &mut BytesMut, v: u8)
    requires
        bytes_mut_contents(*old(b)).len() + 1 <= isize::MAX,
    ensures
        bytes_mut_contents(*final(b)) == bytes_mut_contents(*old(b)).push(v),
{
    b.put_u8(v)
}

/// Calls `BufMut::put_u16_le` on a `BytesMut`: `v.to_le_bytes()` is appended.
#[verifier::external_body]
fn bytes_mut_put_u16_le(b: &mut BytesMut, v: u16)
    requires
        bytes_mut_contents(*old(b)).len() + 2 <= isize::MAX,
    ensures
        bytes_mut_contents(*final(b)) == bytes_mut_contents(*old(b)) + wire::le16(v),
{
    b.put_u16_le(v)
}

/// Calls `BufMut::put_u32_le` on a `BytesMut`: `v.to_le_bytes()` is appended.
#[verifier::external_body]
fn bytes_mut_put_u32_le(b: &mut BytesMut, v: u32)
    requires
        bytes_mut_contents(*old(b)).len() + 4 <= isize::MAX,
    ensures
        bytes_mut_contents(*final(b)) == bytes_mut_contents(*old(b)) + wire::le32(v),
{
    b.put_u32_le(v)
}

/// Calls `BufMut::put_i32_le` on a `BytesMut`: `v.to_le_bytes()` is appended.
#[verifier::external_body]
fn bytes_mut_put_i32_le(b: &mut BytesMut, v: i32)
    requires
        bytes_mut_contents(*old(b)).len() + 4 <= isize::MAX,
    ensures
        bytes_mut_contents(*final(b)) == bytes_mut_contents(*old(b)) + wire::le_i32(v),
{
    b.put_i32_le(v)
}

/// Calls `BytesMut::extend_from_slice`: the slice is appended.
#[verifier::external_body]
fn bytes_mut_extend(b: &mut BytesMut, s: &[u8])
    requires
        bytes_mut_contents(*old(b)).len() + s@.len() <= isize::MAX,
    ensures
        bytes_mut_contents(*final(b)) == bytes_mut_contents(*old(b)) + s@,
{
    b.extend_from_slice(s)
}

/// Calls `BytesMut::freeze`: the frozen buffer holds the same bytes.
#[verifier::external_body]
fn bytes_mut_freeze(b: BytesMut) -> (r: Bytes)
    ensures
        bytes_contents(r) == bytes_mut_contents(b),
{
    b.freeze()
}

/// Calls `Buf::remaining` on a `Bytes`: the number of bytes it holds.
#[verifier::external_body]
fn bytes_remaining(b: &Bytes) -> (r: usize)
    ensures
        r == bytes_contents(*b).len(),
{
    b.remaining()
}

/// Calls `Buf::get_u8` on a `Bytes`: the first byte, which is consumed. It
/// panics on an empty buffer, which `requires` leaves out.
#[verifier::external_body]
fn bytes_get_u8(b: &mut Bytes) -> (r: u8)
    requires
        bytes_contents(*old(b)).len() >= 1,
    ensures
        r == bytes_contents(*old(b))[0],
        bytes_contents(*final(b)) == bytes_contents(*old(b)).skip(1),
{
    b.get_u8()
}

/// Calls `Buf::get_u16_le` on a `Bytes`: the first two bytes read least
/// significant first, which are consumed. It panics on fewer than two bytes.
#[verifier::external_body]
fn bytes_get_u16_le(b: &mut Bytes) -> (r: u16)
    requires
        bytes_contents(*old(b)).len() >= 2,
    ensures
        r == wire::from_le16(bytes_contents(*old(b))),
        bytes_contents(*final(b)) == bytes_contents(*old(b)).skip(2),
{
    b.get_u16_le()
}

/// Calls `Buf::get_u32_le` on a `Bytes`: the first four bytes read least
/// significant first, which are consumed. It panics on fewer than four bytes.
#[verifier::external_body]
fn bytes_get_u32_le(b: &mut Bytes) -> (r: u32)
    requires
        bytes_contents(*old(b)).len() >= 4,
    ensures
        r == wire::from_le32(bytes_contents(*old(b))),
        bytes_contents(*final(b)) == bytes_contents(*old(b)).skip(4),
{
    b.get_u32_le()
}

/// Calls `Buf::get_i32_le` on a `Bytes`: the first four bytes read as a
/// signed little-endian integer, which are consumed. It panics on fewer than four.
#[verifier::external_body]
fn bytes_get_i32_le(b: &mut Bytes) -> (r: i32)
    requires
        bytes_contents(*old(b)).len() >= 4,
    ensures
        r == wire::from_le_i32(bytes_contents(*old(b))),
        bytes_contents(*final(b)) == bytes_contents(*old(b)).skip(4),
{
    b.get_i32_le()
}

/// Calls `Buf::copy_to_bytes` on a `Bytes`: the first `len` bytes, which are
/// consumed. It panics when fewer than `len` bytes remain.
#[verifier::external_body]
fn bytes_copy_to_bytes(b: &mut Bytes, len: usize) -> (r: Bytes)
    requires
        bytes_contents(*old(b)).len() >= len,
    ensures
        bytes_contents(r) == bytes_contents(*old(b)).take(len as int),
        bytes_contents(*final(b)) == bytes_contents(*old(b)).skip(len as int),
{
    b.copy_to_bytes(len)
}

/// Calls `Bytes::clone`: the clone holds the same bytes.
#[verifier::external_body]
pub(crate) fn bytes_clone(b: &Bytes) -> (r: Bytes)
    ensures
        bytes_contents(r) == bytes_contents(*b),
{
    b.clone()
}

/// Calls `<[u8]>::to_vec` on the bytes of a `Bytes`.
#[verifier::external_body]
pub(crate) fn bytes_to_vec(b: &Bytes) -> (r: Vec<u8>)
    ensures
        r@ == bytes_contents(*b),
{
    b.to_vec()
}

/// Calls `String::from_utf8`: `Some` exactly when the bytes are valid UTF-8,
/// holding the characters that they encode.
#[verifier::external_body]
fn string_from_utf8(v: Vec<u8>) -> (r: Option<String>)
    ensures
        r is Some <==> valid_utf8(v@),
        r matches Some(s) ==> s@ == decode_utf8(v@),
{
    String::from_utf8(v).ok()
}

/// Writes values into a growing byte buffer.
pub struct Serializer {
    buffer: BytesMut,
}

impl View for Serializer {
    type V = Seq<u8>;

    closed spec fn view(&self) -> Seq<u8> {
        bytes_mut_contents(self.buffer)
    }
}

/// A writer can grow by `n` more bytes.
pub open spec fn has_room(written: Seq<u8>, n: int) -> bool {
    written.len() + n <= isize::MAX
}

impl Serializer {
    pub fn new() -> (s: Self)
        ensures
            s@ == Seq::<u8>::empty(),
    {
        Self { buffer: bytes_mut_with_capacity(256) }
    }

    /// Gives up the writer, handing back what was written.
    pub fn into_bytes(self) -> (b: Bytes)
        ensures
            bytes_contents(b) == self@,
    {
        bytes_mut_freeze(self.buffer)
    }

    pub fn write_u8(&mut self, value: u8)
        requires
            has_room(old(self)@, 1),
        ensures
            final(self)@ == old(self)@.push(value),
    {
        bytes_mut_put_u8(&mut self.buffer, value);
    }

    /// A `bool` is written as the byte 1 or 0.
    pub fn write_bool(&mut self, value: bool)
        requires
            has_room(old(self)@, 1),
        ensures
            final(self)@ == old(self)@.push(if value { 1u8 } else { 0u8 }),
    {
        self.write_u8(if value { 1u8 } else { 0u8 });
    }

    pub fn write_u16(&mut self, value: u16)
        requires
            has_room(old(self)@, 2),
        ensures
            final(self)@ == old(self)@ + wire::le16(value),
    {
        bytes_mut_put_u16_le(&mut self.buffer, value);
    }

    pub fn write_u32(&mut self, value: u32)
        requires
            has_room(old(self)@, 4),
        ensures
            final(self)@ == old(self)@ + wire::le32(value),
    {
        bytes_mut_put_u32_le(&mut self.buffer, value);
    }

    pub fn write_i32(&mut self, value: i32)
        requires
            has_room(old(self)@, 4),
        ensures
            final(self)@ == old(self)@ + wire::le_i32(value),
    {
        bytes_mut_put_i32_le(&mut self.buffer, value);
    }

    /// Writes the length of the string's UTF-8 bytes as a `u16` (cut to its
    /// low 16 bits), then the bytes themselves.
    pub fn write_string(&mut self, value: &str)
        requires
            has_room(old(self)@, 2 + value.spec_bytes().len() as int),
        ensures
            final(self)@ == old(self)@ + wire::le16(value.spec_bytes().len() as u16) + value.spec_bytes(),
    {
        let bytes = value.as_bytes();
        self.write_u16(bytes.len() as u16);
        bytes_mut_extend(&mut self.buffer, bytes);
    }

    pub fn write_topic(&mut self, topic: &Topic)
        requires
            has_room(old(self)@, 5),
        ensures
            final(self)@ == old(self)@ + topics::topic_wire(*topic),
    {
        self.write_u8(topic.tag());
        self.write_u32(topic.number());
        assert(self@ =~= old(self)@ + topics::topic_wire(*topic));
    }

    pub fn write_bytes(&mut self, bytes: &[u8])
        requires
            has_room(old(self)@, bytes@.len() as int),
        ensures
            final(self)@ == old(self)@ + bytes@,
    {
        bytes_mut_extend(&mut self.buffer, bytes);
    }
}

/// Reads values from the front of a byte buffer, consuming them.
pub struct Deserializer {
    buffer: Bytes,
}

impl View for Deserializer {
    type V = Seq<u8>;

    closed spec fn view(&self) -> Seq<u8> {
        bytes_contents(self.buffer)
    }
}

impl Deserializer {
    pub fn new(buffer: Bytes) -> (d: Self)
        ensures
            d@ == bytes_contents(buffer),
    {
        Self { buffer }
    }

    pub fn read_u8(&mut self) -> (r: u8)
        requires
            old(self)@.len() >= 1,
        ensures
            r == old(self)@[0],
            final(self)@ == old(self)@.skip(1),
    {
        bytes_get_u8(&mut self.buffer)
    }

    /// Any byte but 0 reads as `true`.
    pub fn read_bool(&mut self) -> (r: bool)
        requires
            old(self)@.len() >= 1,
        ensures
            r == (old(self)@[0] != 0),
            final(self)@ == old(self)@.skip(1),
    {
        self.read_u8() != 0
    }

    pub fn read_u16(&mut self) -> (r: u16)
        requires
            old(self)@.len() >= 2,
        ensures
            r == wire::from_le16(old(self)@),
            final(self)@ == old(self)@.skip(2),
    {
        bytes_get_u16_le(&mut self.buffer)
    }

    pub fn read_u32(&mut self) -> (r: u32)
        requires
            old(self)@.len() >= 4,
        ensures
            r == wire::from_le32(old(self)@),
            final(self)@ == old(self)@.skip(4),
    {
        bytes_get_u32_le(&mut self.buffer)
    }

    pub fn read_i32(&mut self) -> (r: i32)
        requires
            old(self)@.len() >= 4,
        ensures
            r == wire::from_le_i32(old(self)@),
            final(self)@ == old(self)@.skip(4),
    {
        bytes_get_i32_le(&mut self.buffer)
    }

    /// Reads a `u16` length, then that many bytes as UTF-8. The bytes must be
    /// there and must be valid UTF-8.
    pub fn read_string(&mut self) -> (r: String)
        requires
            old(self)@.len() >= 2,
            old(self)@.len() >= 2 + wire::from_le16(old(self)@),
            valid_utf8(old(self)@.subrange(2, 2 + wire::from_le16(old(self)@))),
        ensures
            r@ == decode_utf8(old(self)@.subrange(2, 2 + wire::from_le16(old(self)@))),
            final(self)@ == old(self)@.skip(2 + wire::from_le16(old(self)@)),
    {
        let ghost before = self@;
        let len = self.read_u16() as usize;
        let bytes = bytes_copy_to_bytes(&mut self.buffer, len);
        assert(before.skip(2).take(len as int) =~= before.subrange(2, 2 + len));
        assert(before.skip(2).skip(len as int) =~= before.skip(2 + len));
        let v = bytes_to_vec(&bytes);
        match string_from_utf8(v) {
            Some(s) => s,
            None => {
                assert(false);
                String::new()
            },
        }
    }

    /// Reads a topic: its tag byte, then its number. The tag must be known.
    pub fn read_topic(&mut self) -> (r: Topic)
        requires
            old(self)@.len() >= 5,
            topics::topic_of(old(self)@[0], wire::from_le32(old(self)@.skip(1))) is Some,
        ensures
            Some(r) == topics::topic_of(old(self)@[0], wire::from_le32(old(self)@.skip(1))),
            final(self)@ == old(self)@.skip(5),
    {
        let ghost before = self@;
        let tag = self.read_u8();
        let n = self.read_u32();
        assert(before.skip(1).skip(4) =~= before.skip(5));
        match Topic::from_parts(tag, n) {
            Some(t) => t,
            None => {
                assert(false);
                Topic::Input(0)
            },
        }
    }

    /// The number of bytes left to read.
    pub fn remaining(&self) -> (r: usize)
        ensures
            r == self@.len(),
    {
        bytes_remaining(&self.buffer)
    }
}

} // verus!
