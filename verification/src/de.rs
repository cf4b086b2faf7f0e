//! Reading values from the wire.

use crate::bits::{
    i16_of_bits, i32_of_bits, i64_of_bits, i8_of_bits, signed16, signed32, signed64, signed8,
};
use crate::error::Error;
use crate::format::{
    be_value, bool_decoding, fixed_decoding, lemma_be_value_bound, lemma_radix, string_decoding,
};
use crate::ser::{unsupported, ENUM, MAP};
use crate::types::{VarInt, VarLong};
use crate::varint::{read_varint, read_varlong, varint_decoding, varlong_decoding};
use vstd::prelude::*;
use vstd::slice::{slice_subrange, slice_to_vec};
use vstd::utf8::{encode_utf8, encode_utf8_decode_utf8, valid_utf8};

verus! {

/// `String::from_utf8`: the string whose UTF-8 bytes are `bytes`, or nothing
/// where `bytes` are not UTF-8.
#[verifier::external_body]
fn string_from_utf8(bytes: Vec<u8>) -> (r: Option<String>)
    ensures
        r is Some <==> valid_utf8(bytes@),
        r matches Some(s) ==> encode_utf8(s@) == bytes@,
{
    String::from_utf8(bytes).ok()
}

/// Reads values from the front of a slice of bytes, one after the other.
#[derive(Clone, Copy)]
pub struct Deserializer<'de> {
    input: &'de [u8],
    pos: usize,
}

impl<'de> View for Deserializer<'de> {
    type V = Seq<u8>;

    /// The bytes not yet read.
    closed spec fn view(&self) -> Seq<u8> {
        self.input@.skip(self.pos as int)
    }
}

impl<'de> Deserializer<'de> {
    #[verifier::type_invariant]
    spec fn well_formed(self) -> bool {
        self.pos <= self.input@.len()
    }

    /// A deserializer with all of `input` still to read.
    pub fn from_slice(input: &'de [u8]) -> (r: Self)
        ensures
            r@ == input@,
    {
        assert(input@.skip(0) =~= input@);
        Deserializer { input, pos: 0 }
    }

    /// Whether all input has been read: `TrailingBytes` where some is left.
    pub fn end(&self) -> (r: Result<(), Error>)
        ensures
            r == if self@.len() == 0 {
                Ok::<(), Error>(())
            } else {
                Err::<(), Error>(Error::TrailingBytes)
            },
    {
        proof {
            use_type_invariant(self);
        }
        if self.pos == self.input.len() {
            Ok(())
        } else {
            Err(Error::TrailingBytes)
        }
    }

    fn rest(&self) -> (r: &'de [u8])
        ensures
            r@ == self@,
    {
        proof {
            use_type_invariant(self);
        }
        slice_subrange(self.input, self.pos, self.input.len())
    }

    fn advance(&mut self, n: usize)
        requires
            n <= old(self)@.len(),
        ensures
            final(self)@ == old(self)@.skip(n as int),
    {
        let total: usize = self.input.len();
        proof {
            use_type_invariant(&*self);
            assert(self.input@.skip(self.pos as int).len() == total - self.pos);
            assert(self.input@.skip(self.pos as int).skip(n as int) =~= self.input@.skip(
                self.pos + n,
            ));
        }
        *self = Deserializer { input: self.input, pos: self.pos + n };
    }

    fn take_be(&mut self, width: usize) -> (r: Result<u64, Error>)
        requires
            width <= 8,
        ensures
            match fixed_decoding(old(self)@, width as nat) {
                Ok((n, taken)) => r == Ok::<u64, Error>(n as u64) && n <= u64::MAX && final(self)@
                    == old(self)@.skip(taken as int),
                Err(e) => r == Err::<u64, Error>(e) && final(self)@ == old(self)@,
            },
    {
        let rest: &[u8] = self.rest();
        if rest.len() < width {
            return Err(Error::Eof);
        }
        let mut value: u64 = 0;
        let mut i: usize = 0;
        proof {
            lemma_radix();
        }
        while i < width
            invariant
                i <= width <= 8,
                width <= rest@.len(),
                value == be_value(rest@.take(i as int)),
            decreases width - i,
        {
            proof {
                let more: Seq<u8> = rest@.take(i + 1);
                assert(more.drop_last() =~= rest@.take(i as int));
                assert(more.last() == rest@[i as int]);
                lemma_be_value_bound(rest@.take(i as int));
                lemma_radix_grows(i as nat + 1, 8);
                lemma_radix();
                assert(crate::format::radix(i as nat + 1) == 256 * crate::format::radix(i as nat));
            }
            value = value * 256 + rest[i] as u64;
            i += 1;
        }
        self.advance(width);
        Ok(value)
    }

    /// Reads a boolean from one byte.
    pub fn read_bool(&mut self) -> (r: Result<bool, Error>)
        ensures
            match bool_decoding(old(self)@) {
                Ok((v, taken)) => r == Ok::<bool, Error>(v) && final(self)@ == old(self)@.skip(
                    taken as int,
                ),
                Err(e) => r == Err::<bool, Error>(e) && final(self)@ == old(self)@,
            },
    {
        let rest: &[u8] = self.rest();
        if rest.len() < 1 {
            return Err(Error::Eof);
        }
        let byte: u8 = rest[0];
        if byte == 0 {
            self.advance(1);
            Ok(false)
        } else if byte == 1 {
            self.advance(1);
            Ok(true)
        } else {
            Err(Error::ExpectedBoolean)
        }
    }

    /// Reads one byte.
    pub fn read_u8(&mut self) -> (r: Result<u8, Error>)
        ensures
            match fixed_decoding(old(self)@, 1) {
                Ok((n, taken)) => r == Ok::<u8, Error>(n as u8) && n <= u8::MAX && final(self)@
                    == old(self)@.skip(taken as int),
                Err(e) => r == Err::<u8, Error>(e) && final(self)@ == old(self)@,
            },
    {
        proof {
            lemma_radix();
            lemma_be_value_bound(self@.take(1));
        }
        match self.take_be(1) {
            Ok(n) => Ok(n as u8),
            Err(e) => Err(e),
        }
    }

    /// Reads two bytes, big-endian.
    pub fn read_u16(&mut self) -> (r: Result<u16, Error>)
        ensures
            match fixed_decoding(old(self)@, 2) {
                Ok((n, taken)) => r == Ok::<u16, Error>(n as u16) && n <= u16::MAX && final(self)@
                    == old(self)@.skip(taken as int),
                Err(e) => r == Err::<u16, Error>(e) && final(self)@ == old(self)@,
            },
    {
        proof {
            lemma_radix();
            lemma_be_value_bound(self@.take(2));
        }
        match self.take_be(2) {
            Ok(n) => Ok(n as u16),
            Err(e) => Err(e),
        }
    }

    /// Reads four bytes, big-endian.
    pub fn read_u32(&mut self) -> (r: Result<u32, Error>)
        ensures
            match fixed_decoding(old(self)@, 4) {
                Ok((n, taken)) => r == Ok::<u32, Error>(n as u32) && n <= u32::MAX && final(self)@
                    == old(self)@.skip(taken as int),
                Err(e) => r == Err::<u32, Error>(e) && final(self)@ == old(self)@,
            },
    {
        proof {
            lemma_radix();
            lemma_be_value_bound(self@.take(4));
        }
        match self.take_be(4) {
            Ok(n) => Ok(n as u32),
            Err(e) => Err(e),
        }
    }

    /// Reads eight bytes, big-endian.
    pub fn read_u64(&mut self) -> (r: Result<u64, Error>)
        ensures
            match fixed_decoding(old(self)@, 8) {
                Ok((n, taken)) => r == Ok::<u64, Error>(n as u64) && n <= u64::MAX && final(self)@
                    == old(self)@.skip(taken as int),
                Err(e) => r == Err::<u64, Error>(e) && final(self)@ == old(self)@,
            },
    {
        self.take_be(8)
    }

    /// Reads one byte as a two's-complement integer.
    pub fn read_i8(&mut self) -> (r: Result<i8, Error>)
        ensures
            match fixed_decoding(old(self)@, 1) {
                Ok((n, taken)) => r == Ok::<i8, Error>(signed8(n)) && final(self)@ == old(
                    self,
                )@.skip(taken as int),
                Err(e) => r == Err::<i8, Error>(e) && final(self)@ == old(self)@,
            },
    {
        match self.read_u8() {
            Ok(n) => Ok(i8_of_bits(n)),
            Err(e) => Err(e),
        }
    }

    /// Reads two bytes, big-endian, as a two's-complement integer.
    pub fn read_i16(&mut self) -> (r: Result<i16, Error>)
        ensures
            match fixed_decoding(old(self)@, 2) {
                Ok((n, taken)) => r == Ok::<i16, Error>(signed16(n)) && final(self)@ == old(
                    self,
                )@.skip(taken as int),
                Err(e) => r == Err::<i16, Error>(e) && final(self)@ == old(self)@,
            },
    {
        match self.read_u16() {
            Ok(n) => Ok(i16_of_bits(n)),
            Err(e) => Err(e),
        }
    }

    /// Reads four bytes, big-endian, as a two's-complement integer.
    pub fn read_i32(&mut self) -> (r: Result<i32, Error>)
        ensures
            match fixed_decoding(old(self)@, 4) {
                Ok((n, taken)) => r == Ok::<i32, Error>(signed32(n)) && final(self)@ == old(
                    self,
                )@.skip(taken as int),
                Err(e) => r == Err::<i32, Error>(e) && final(self)@ == old(self)@,
            },
    {
        match self.read_u32() {
            Ok(n) => Ok(i32_of_bits(n)),
            Err(e) => Err(e),
        }
    }

    /// Reads eight bytes, big-endian, as a two's-complement integer.
    pub fn read_i64(&mut self) -> (r: Result<i64, Error>)
        ensures
            match fixed_decoding(old(self)@, 8) {
                Ok((n, taken)) => r == Ok::<i64, Error>(signed64(n)) && final(self)@ == old(
                    self,
                )@.skip(taken as int),
                Err(e) => r == Err::<i64, Error>(e) && final(self)@ == old(self)@,
            },
    {
        match self.read_u64() {
            Ok(n) => Ok(i64_of_bits(n)),
            Err(e) => Err(e),
        }
    }

    /// Reads a VarInt.
    pub fn read_varint(&mut self) -> (r: Result<VarInt, Error>)
        ensures
            match varint_decoding(old(self)@) {
                Ok((v, taken)) => r == Ok::<VarInt, Error>(VarInt(v)) && final(self)@ == old(
                    self,
                )@.skip(taken as int),
                Err(e) => r == Err::<VarInt, Error>(e) && final(self)@ == old(self)@,
            },
    {
        match read_varint(self.rest()) {
            Ok((v, taken)) => {
                self.advance(taken);
                Ok(VarInt(v))
            },
            Err(e) => Err(e),
        }
    }

    /// Reads a VarLong.
    pub fn read_varlong(&mut self) -> (r: Result<VarLong, Error>)
        ensures
            match varlong_decoding(old(self)@) {
                Ok((v, taken)) => r == Ok::<VarLong, Error>(VarLong(v)) && final(self)@ == old(
                    self,
                )@.skip(taken as int),
                Err(e) => r == Err::<VarLong, Error>(e) && final(self)@ == old(self)@,
            },
    {
        match read_varlong(self.rest()) {
            Ok((v, taken)) => {
                self.advance(taken);
                Ok(VarLong(v))
            },
            Err(e) => Err(e),
        }
    }

    /// Reads a string: its length in bytes as a VarInt, then that many bytes
    /// of UTF-8.
    pub fn read_string(&mut self) -> (r: Result<String, Error>)
        ensures
            match string_decoding(old(self)@) {
                Ok((text, taken)) => r matches Ok(s) && s@ == text && final(self)@ == old(
                    self,
                )@.skip(taken as int),
                Err(e) => r == Err::<String, Error>(e) && final(self)@ == old(self)@,
            },
    {
        let rest: &[u8] = self.rest();
        match read_varint(rest) {
            Err(e) => Err(e),
            Ok((len, taken)) => {
                if len < 0 || rest.len() - taken < len as usize {
                    return Err(Error::Eof);
                }
                let body: &[u8] = slice_subrange(rest, taken, taken + len as usize);
                match string_from_utf8(slice_to_vec(body)) {
                    None => Err(Error::MalformedUTF8),
                    Some(s) => {
                        proof {
                            encode_utf8_decode_utf8(s@);
                        }
                        self.advance(taken + len as usize);
                        Ok(s)
                    },
                }
            },
        }
    }

    /// A map has no encoding: the call fails and reads nothing.
    pub fn begin_map(&mut self) -> (r: Result<(), Error>)
        ensures
            final(self)@ == old(self)@,
            unsupported(r, MAP@),
    {
        Err(Error::NotSupported(MAP.to_owned()))
    }

    /// A value that is one of several variants has no encoding: the call
    /// fails and reads nothing.
    pub fn begin_variant(&mut self) -> (r: Result<(), Error>)
        ensures
            final(self)@ == old(self)@,
            unsupported(r, ENUM@),
    {
        Err(Error::NotSupported(ENUM.to_owned()))
    }
}

proof fn lemma_radix_grows(a: nat, b: nat)
    requires
        a <= b,
    ensures
        crate::format::radix(a) <= crate::format::radix(b),
    decreases b,
{
    if a < b {
        lemma_radix_grows(a, (b - 1) as nat);
    }
}

} // verus!
