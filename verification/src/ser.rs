//! Writing values to the wire.

use crate::bits::{
    bits_of_i16, bits_of_i32, bits_of_i64, bits_of_i8, unsigned16, unsigned32, unsigned64,
    unsigned8,
};
use crate::error::Error;
use crate::format::{be_bytes, bool_bytes, string_bytes, string_fits};
use crate::types::{VarInt, VarLong};
use crate::varint::{varint_bytes, varlong_bytes, write_varint_in_place, write_varlong_in_place};
use vstd::prelude::*;

verus! {

/// The name under which a map is refused.
pub const MAP: &'static str = "map";

/// The name under which a value that is one of several variants is refused.
pub const ENUM: &'static str = "enum";

/// The name under which a string too long for its length prefix is refused.
pub const OVERLONG_STRING: &'static str = "string longer than 2147483647 bytes";

/// Whether `r` is the refusal of the construct called `name`.
pub open spec fn unsupported<T>(r: Result<T, Error>, name: Seq<char>) -> bool {
    r matches Err(Error::NotSupported(n)) && n@ == name
}

/// Collects the bytes of the values written to it, in the order written.
pub struct Serializer {
    output: Vec<u8>,
}

impl View for Serializer {
    type V = Seq<u8>;

    /// The bytes written so far.
    closed spec fn view(&self) -> Seq<u8> {
        self.output@
    }
}

impl Serializer {
    /// A serializer that has written nothing.
    pub fn new() -> (r: Self)
        ensures
            r@ == Seq::<u8>::empty(),
    {
        Serializer { output: Vec::new() }
    }

    /// The bytes written.
    pub fn into_vec(self) -> (r: Vec<u8>)
        ensures
            r@ == self@,
    {
        self.output
    }

    fn put_be(&mut self, n: u64, width: usize)
        requires
            width <= 8,
        ensures
            final(self)@ == old(self)@ + be_bytes(n as nat, width as nat),
        decreases width,
    {
        if width > 0 {
            self.put_be(n / 256, width - 1);
            self.output.push((n % 256) as u8);
        }
    }

    /// Writes a boolean as one byte, `1` for true and `0` for false.
    pub fn write_bool(&mut self, v: bool)
        ensures
            final(self)@ == old(self)@ + bool_bytes(v),
    {
        self.output.push(if v { 1 } else { 0 });
    }

    /// Writes one byte.
    pub fn write_u8(&mut self, v: u8)
        ensures
            final(self)@ == old(self)@ + be_bytes(v as nat, 1),
    {
        self.put_be(v as u64, 1);
    }

    /// Writes two bytes, big-endian.
    pub fn write_u16(&mut self, v: u16)
        ensures
            final(self)@ == old(self)@ + be_bytes(v as nat, 2),
    {
        self.put_be(v as u64, 2);
    }

    /// Writes four bytes, big-endian.
    pub fn write_u32(&mut self, v: u32)
        ensures
            final(self)@ == old(self)@ + be_bytes(v as nat, 4),
    {
        self.put_be(v as u64, 4);
    }

    /// Writes eight bytes, big-endian.
    pub fn write_u64(&mut self, v: u64)
        ensures
            final(self)@ == old(self)@ + be_bytes(v as nat, 8),
    {
        self.put_be(v, 8);
    }

    /// Writes one byte, the two's complement of `v`.
    pub fn write_i8(&mut self, v: i8)
        ensures
            final(self)@ == old(self)@ + be_bytes(unsigned8(v), 1),
    {
        self.put_be(bits_of_i8(v) as u64, 1);
    }

    /// Writes two bytes, the two's complement of `v`, big-endian.
    pub fn write_i16(&mut self, v: i16)
        ensures
            final(self)@ == old(self)@ + be_bytes(unsigned16(v), 2),
    {
        self.put_be(bits_of_i16(v) as u64, 2);
    }

    /// Writes four bytes, the two's complement of `v`, big-endian.
    pub fn write_i32(&mut self, v: i32)
        ensures
            final(self)@ == old(self)@ + be_bytes(unsigned32(v), 4),
    {
        self.put_be(bits_of_i32(v) as u64, 4);
    }

    /// Writes eight bytes, the two's complement of `v`, big-endian.
    pub fn write_i64(&mut self, v: i64)
        ensures
            final(self)@ == old(self)@ + be_bytes(unsigned64(v), 8),
    {
        self.put_be(bits_of_i64(v), 8);
    }

    /// Writes a VarInt.
    pub fn write_varint(&mut self, v: VarInt)
        ensures
            final(self)@ == old(self)@ + varint_bytes(v.0),
    {
        write_varint_in_place(&mut self.output, v.0);
    }

    /// Writes a VarLong.
    pub fn write_varlong(&mut self, v: VarLong)
        ensures
            final(self)@ == old(self)@ + varlong_bytes(v.0),
    {
        write_varlong_in_place(&mut self.output, v.0);
    }

    /// Writes a string: its length in bytes as a VarInt, then its UTF-8
    /// bytes. A string of more bytes than a VarInt can count is refused, and
    /// nothing is written.
    pub fn write_str(&mut self, v: &str) -> (r: Result<(), Error>)
        ensures
            string_fits(v@) ==> r is Ok && final(self)@ == old(self)@ + string_bytes(v@),
            !string_fits(v@) ==> final(self)@ == old(self)@ && unsupported(r, OVERLONG_STRING@),
    {
        let bytes: &[u8] = v.as_bytes();
        let len: usize = bytes.len();
        if len > 0x7fff_ffff {
            return Err(Error::NotSupported(OVERLONG_STRING.to_owned()));
        }
        write_varint_in_place(&mut self.output, len as i32);
        self.output.extend_from_slice(bytes);
        assert(self.output@ =~= old(self).output@ + string_bytes(v@));
        Ok(())
    }

    /// A map has no encoding: the call fails and writes nothing.
    pub fn begin_map(&mut self) -> (r: Result<(), Error>)
        ensures
            final(self)@ == old(self)@,
            unsupported(r, MAP@),
    {
        Err(Error::NotSupported(MAP.to_owned()))
    }

    /// A value that is one of several variants has no encoding: the call
    /// fails and writes nothing.
    pub fn begin_variant(&mut self) -> (r: Result<(), Error>)
        ensures
            final(self)@ == old(self)@,
            unsupported(r, ENUM@),
    {
        Err(Error::NotSupported(ENUM.to_owned()))
    }
}

} // verus!
