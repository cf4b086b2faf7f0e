//! Values that have a place on the wire.
//!
//! A type takes part in the format by saying, over its view, which bytes a
//! value is written as and what reading gives, and by proving that reading
//! undoes writing. A record is written as its fields in declared order; a
//! pair stands for two fields in a row, and the empty tuple for none.

use crate::bits::{
    signed16, signed32, signed64, signed8, unsigned16, unsigned32, unsigned64, unsigned8,
};
use crate::de::Deserializer;
use crate::error::Error;
use crate::format::{
    be_bytes, bool_bytes, bool_decoding, fixed_decoding, lemma_be_bytes_len, lemma_bool_round_trip,
    lemma_fixed_round_trip, lemma_radix, lemma_string_round_trip, string_bytes, string_decoding,
    string_fits, Parsed,
};
use crate::ser::{unsupported, Serializer, OVERLONG_STRING};
use crate::types::{VarInt, VarLong};
use crate::varint::{
    lemma_varint_len, lemma_varint_round_trip, lemma_varlong_len, lemma_varlong_round_trip,
    varint_bytes, varint_decoding, varlong_bytes, varlong_decoding,
};
use vstd::prelude::*;

verus! {

/// A type whose values can be written to and read from the wire.
pub trait Wire: Sized + View {
    /// Whether the format can express the value. Of the values of the types
    /// below, only a string of more bytes than a VarInt can count cannot be
    /// expressed.
    spec fn fits(m: Self::V) -> bool;

    /// The bytes that the value is written as.
    spec fn bytes(m: Self::V) -> Seq<u8>;

    /// What reading a value from the front of `input` gives.
    spec fn decoding(input: Seq<u8>) -> Parsed<Self::V>;

    /// Reading the bytes of a value gives the value back and takes exactly
    /// those bytes, whatever follows them.
    proof fn lemma_round_trip(m: Self::V, rest: Seq<u8>)
        requires
            Self::fits(m),
        ensures
            Self::decoding(Self::bytes(m) + rest) == Ok::<(Self::V, nat), Error>(
                (m, Self::bytes(m).len()),
            ),
    ;

    /// Reading takes no more bytes than there are.
    proof fn lemma_taken(input: Seq<u8>)
        ensures
            Self::decoding(input) matches Ok((_, taken)) ==> taken <= input.len(),
    ;

    /// Writes the value after what `ser` holds. A value that the format
    /// cannot express is refused.
    fn serialize(&self, ser: &mut Serializer) -> (r: Result<(), Error>)
        ensures
            old(ser)@.is_prefix_of(final(ser)@),
            Self::fits(self@) ==> r is Ok && final(ser)@ == old(ser)@ + Self::bytes(self@),
            !Self::fits(self@) ==> unsupported(r, OVERLONG_STRING@),
    ;

    /// Reads a value from the front of what `de` has left. On failure `de`
    /// is left as it was.
    fn deserialize<'de>(de: &mut Deserializer<'de>) -> (r: Result<Self, Error>)
        ensures
            match Self::decoding(old(de)@) {
                Ok((m, taken)) => r matches Ok(v) && v@ == m && final(de)@ == old(de)@.skip(
                    taken as int,
                ),
                Err(e) => r == Err::<Self, Error>(e) && final(de)@ == old(de)@,
            },
    ;
}

impl Wire for bool {
    open spec fn fits(m: bool) -> bool {
        true
    }

    open spec fn bytes(m: bool) -> Seq<u8> {
        bool_bytes(m)
    }

    open spec fn decoding(input: Seq<u8>) -> Parsed<bool> {
        bool_decoding(input)
    }

    proof fn lemma_round_trip(m: bool, rest: Seq<u8>) {
        lemma_bool_round_trip(m, rest);
    }

    proof fn lemma_taken(input: Seq<u8>) {
    }

    fn serialize(&self, ser: &mut Serializer) -> (r: Result<(), Error>) {
        ser.write_bool(*self);
        Ok(())
    }

    fn deserialize<'de>(de: &mut Deserializer<'de>) -> (r: Result<Self, Error>) {
        de.read_bool()
    }
}

impl Wire for u8 {
    open spec fn fits(m: u8) -> bool {
        true
    }

    open spec fn bytes(m: u8) -> Seq<u8> {
        be_bytes(m as nat, 1)
    }

    open spec fn decoding(input: Seq<u8>) -> Parsed<u8> {
        match fixed_decoding(input, 1) {
            Ok((n, taken)) => Ok((n as u8, taken)),
            Err(e) => Err(e),
        }
    }

    proof fn lemma_round_trip(m: u8, rest: Seq<u8>) {
        lemma_radix();
        lemma_be_bytes_len(m as nat, 1);
        lemma_fixed_round_trip(m as nat, 1, rest);
    }

    proof fn lemma_taken(input: Seq<u8>) {
    }

    fn serialize(&self, ser: &mut Serializer) -> (r: Result<(), Error>) {
        ser.write_u8(*self);
        Ok(())
    }

    fn deserialize<'de>(de: &mut Deserializer<'de>) -> (r: Result<Self, Error>) {
        de.read_u8()
    }
}

impl Wire for u16 {
    open spec fn fits(m: u16) -> bool {
        true
    }

    open spec fn bytes(m: u16) -> Seq<u8> {
        be_bytes(m as nat, 2)
    }

    open spec fn decoding(input: Seq<u8>) -> Parsed<u16> {
        match fixed_decoding(input, 2) {
            Ok((n, taken)) => Ok((n as u16, taken)),
            Err(e) => Err(e),
        }
    }

    proof fn lemma_round_trip(m: u16, rest: Seq<u8>) {
        lemma_radix();
        lemma_be_bytes_len(m as nat, 2);
        lemma_fixed_round_trip(m as nat, 2, rest);
    }

    proof fn lemma_taken(input: Seq<u8>) {
    }

    fn serialize(&self, ser: &mut Serializer) -> (r: Result<(), Error>) {
        ser.write_u16(*self);
        Ok(())
    }

    fn deserialize<'de>(de: &mut Deserializer<'de>) -> (r: Result<Self, Error>) {
        de.read_u16()
    }
}

impl Wire for u32 {
    open spec fn fits(m: u32) -> bool {
        true
    }

    open spec fn bytes(m: u32) -> Seq<u8> {
        be_bytes(m as nat, 4)
    }

    open spec fn decoding(input: Seq<u8>) -> Parsed<u32> {
        match fixed_decoding(input, 4) {
            Ok((n, taken)) => Ok((n as u32, taken)),
            Err(e) => Err(e),
        }
    }

    proof fn lemma_round_trip(m: u32, rest: Seq<u8>) {
        lemma_radix();
        lemma_be_bytes_len(m as nat, 4);
        lemma_fixed_round_trip(m as nat, 4, rest);
    }

    proof fn lemma_taken(input: Seq<u8>) {
    }

    fn serialize(&self, ser: &mut Serializer) -> (r: Result<(), Error>) {
        ser.write_u32(*self);
        Ok(())
    }

    fn deserialize<'de>(de: &mut Deserializer<'de>) -> (r: Result<Self, Error>) {
        de.read_u32()
    }
}

impl Wire for u64 {
    open spec fn fits(m: u64) -> bool {
        true
    }

    open spec fn bytes(m: u64) -> Seq<u8> {
        be_bytes(m as nat, 8)
    }

    open spec fn decoding(input: Seq<u8>) -> Parsed<u64> {
        match fixed_decoding(input, 8) {
            Ok((n, taken)) => Ok((n as u64, taken)),
            Err(e) => Err(e),
        }
    }

    proof fn lemma_round_trip(m: u64, rest: Seq<u8>) {
        lemma_radix();
        lemma_be_bytes_len(m as nat, 8);
        lemma_fixed_round_trip(m as nat, 8, rest);
    }

    proof fn lemma_taken(input: Seq<u8>) {
    }

    fn serialize(&self, ser: &mut Serializer) -> (r: Result<(), Error>) {
        ser.write_u64(*self);
        Ok(())
    }

    fn deserialize<'de>(de: &mut Deserializer<'de>) -> (r: Result<Self, Error>) {
        de.read_u64()
    }
}

impl Wire for i8 {
    open spec fn fits(m: i8) -> bool {
        true
    }

    open spec fn bytes(m: i8) -> Seq<u8> {
        be_bytes(unsigned8(m), 1)
    }

    open spec fn decoding(input: Seq<u8>) -> Parsed<i8> {
        match fixed_decoding(input, 1) {
            Ok((n, taken)) => Ok((signed8(n), taken)),
            Err(e) => Err(e),
        }
    }

    proof fn lemma_round_trip(m: i8, rest: Seq<u8>) {
        lemma_radix();
        lemma_be_bytes_len(unsigned8(m), 1);
        lemma_fixed_round_trip(unsigned8(m), 1, rest);
    }

    proof fn lemma_taken(input: Seq<u8>) {
    }

    fn serialize(&self, ser: &mut Serializer) -> (r: Result<(), Error>) {
        ser.write_i8(*self);
        Ok(())
    }

    fn deserialize<'de>(de: &mut Deserializer<'de>) -> (r: Result<Self, Error>) {
        de.read_i8()
    }
}

impl Wire for i16 {
    open spec fn fits(m: i16) -> bool {
        true
    }

    open spec fn bytes(m: i16) -> Seq<u8> {
        be_bytes(unsigned16(m), 2)
    }

    open spec fn decoding(input: Seq<u8>) -> Parsed<i16> {
        match fixed_decoding(input, 2) {
            Ok((n, taken)) => Ok((signed16(n), taken)),
            Err(e) => Err(e),
        }
    }

    proof fn lemma_round_trip(m: i16, rest: Seq<u8>) {
        lemma_radix();
        lemma_be_bytes_len(unsigned16(m), 2);
        lemma_fixed_round_trip(unsigned16(m), 2, rest);
    }

    proof fn lemma_taken(input: Seq<u8>) {
    }

    fn serialize(&self, ser: &mut Serializer) -> (r: Result<(), Error>) {
        ser.write_i16(*self);
        Ok(())
    }

    fn deserialize<'de>(de: &mut Deserializer<'de>) -> (r: Result<Self, Error>) {
        de.read_i16()
    }
}

impl Wire for i32 {
    open spec fn fits(m: i32) -> bool {
        true
    }

    open spec fn bytes(m: i32) -> Seq<u8> {
        be_bytes(unsigned32(m), 4)
    }

    open spec fn decoding(input: Seq<u8>) -> Parsed<i32> {
        match fixed_decoding(input, 4) {
            Ok((n, taken)) => Ok((signed32(n), taken)),
            Err(e) => Err(e),
        }
    }

    proof fn lemma_round_trip(m: i32, rest: Seq<u8>) {
        lemma_radix();
        lemma_be_bytes_len(unsigned32(m), 4);
        lemma_fixed_round_trip(unsigned32(m), 4, rest);
    }

    proof fn lemma_taken(input: Seq<u8>) {
    }

    fn serialize(&self, ser: &mut Serializer) -> (r: Result<(), Error>) {
        ser.write_i32(*self);
        Ok(())
    }

    fn deserialize<'de>(de: &mut Deserializer<'de>) -> (r: Result<Self, Error>) {
        de.read_i32()
    }
}

impl Wire for i64 {
    open spec fn fits(m: i64) -> bool {
        true
    }

    open spec fn bytes(m: i64) -> Seq<u8> {
        be_bytes(unsigned64(m), 8)
    }

    open spec fn decoding(input: Seq<u8>) -> Parsed<i64> {
        match fixed_decoding(input, 8) {
            Ok((n, taken)) => Ok((signed64(n), taken)),
            Err(e) => Err(e),
        }
    }

    proof fn lemma_round_trip(m: i64, rest: Seq<u8>) {
        lemma_radix();
        lemma_be_bytes_len(unsigned64(m), 8);
        lemma_fixed_round_trip(unsigned64(m), 8, rest);
    }

    proof fn lemma_taken(input: Seq<u8>) {
    }

    fn serialize(&self, ser: &mut Serializer) -> (r: Result<(), Error>) {
        ser.write_i64(*self);
        Ok(())
    }

    fn deserialize<'de>(de: &mut Deserializer<'de>) -> (r: Result<Self, Error>) {
        de.read_i64()
    }
}

impl Wire for VarInt {
    open spec fn fits(m: i32) -> bool {
        true
    }

    open spec fn bytes(m: i32) -> Seq<u8> {
        varint_bytes(m)
    }

    open spec fn decoding(input: Seq<u8>) -> Parsed<i32> {
        match varint_decoding(input) {
            Ok((v, taken)) => Ok((v, taken as nat)),
            Err(e) => Err(e),
        }
    }

    proof fn lemma_round_trip(m: i32, rest: Seq<u8>) {
        lemma_varint_len(m);
        lemma_varint_round_trip(m, rest);
    }

    proof fn lemma_taken(input: Seq<u8>) {
    }

    fn serialize(&self, ser: &mut Serializer) -> (r: Result<(), Error>) {
        ser.write_varint(*self);
        Ok(())
    }

    fn deserialize<'de>(de: &mut Deserializer<'de>) -> (r: Result<Self, Error>) {
        de.read_varint()
    }
}

impl Wire for VarLong {
    open spec fn fits(m: i64) -> bool {
        true
    }

    open spec fn bytes(m: i64) -> Seq<u8> {
        varlong_bytes(m)
    }

    open spec fn decoding(input: Seq<u8>) -> Parsed<i64> {
        match varlong_decoding(input) {
            Ok((v, taken)) => Ok((v, taken as nat)),
            Err(e) => Err(e),
        }
    }

    proof fn lemma_round_trip(m: i64, rest: Seq<u8>) {
        lemma_varlong_len(m);
        lemma_varlong_round_trip(m, rest);
    }

    proof fn lemma_taken(input: Seq<u8>) {
    }

    fn serialize(&self, ser: &mut Serializer) -> (r: Result<(), Error>) {
        ser.write_varlong(*self);
        Ok(())
    }

    fn deserialize<'de>(de: &mut Deserializer<'de>) -> (r: Result<Self, Error>) {
        de.read_varlong()
    }
}

impl Wire for String {
    open spec fn fits(m: Seq<char>) -> bool {
        string_fits(m)
    }

    open spec fn bytes(m: Seq<char>) -> Seq<u8> {
        string_bytes(m)
    }

    open spec fn decoding(input: Seq<u8>) -> Parsed<Seq<char>> {
        string_decoding(input)
    }

    proof fn lemma_round_trip(m: Seq<char>, rest: Seq<u8>) {
        lemma_string_round_trip(m, rest);
    }

    proof fn lemma_taken(input: Seq<u8>) {
    }

    fn serialize(&self, ser: &mut Serializer) -> (r: Result<(), Error>) {
        ser.write_str(self.as_str())
    }

    fn deserialize<'de>(de: &mut Deserializer<'de>) -> (r: Result<Self, Error>) {
        de.read_string()
    }
}

/// The record without fields: no bytes.
impl Wire for () {
    open spec fn fits(m: ()) -> bool {
        true
    }

    open spec fn bytes(m: ()) -> Seq<u8> {
        Seq::empty()
    }

    open spec fn decoding(input: Seq<u8>) -> Parsed<()> {
        Ok(((), 0))
    }

    proof fn lemma_round_trip(m: (), rest: Seq<u8>) {
    }

    proof fn lemma_taken(input: Seq<u8>) {
    }

    fn serialize(&self, ser: &mut Serializer) -> (r: Result<(), Error>) {
        assert(ser@ + Seq::<u8>::empty() =~= ser@);
        Ok(())
    }

    fn deserialize<'de>(de: &mut Deserializer<'de>) -> (r: Result<Self, Error>) {
        assert(de@.skip(0) =~= de@);
        Ok(())
    }
}

/// Two fields in a row: the first, then the second, with nothing between.
impl<A: Wire, B: Wire> Wire for (A, B) {
    open spec fn fits(m: (A::V, B::V)) -> bool {
        A::fits(m.0) && B::fits(m.1)
    }

    open spec fn bytes(m: (A::V, B::V)) -> Seq<u8> {
        A::bytes(m.0) + B::bytes(m.1)
    }

    open spec fn decoding(input: Seq<u8>) -> Parsed<(A::V, B::V)> {
        match A::decoding(input) {
            Err(e) => Err(e),
            Ok((a, taken)) => match B::decoding(input.skip(taken as int)) {
                Err(e) => Err(e),
                Ok((b, more)) => Ok(((a, b), taken + more)),
            },
        }
    }

    proof fn lemma_round_trip(m: (A::V, B::V), rest: Seq<u8>) {
        let first: Seq<u8> = A::bytes(m.0);
        let second: Seq<u8> = B::bytes(m.1);
        A::lemma_round_trip(m.0, second + rest);
        B::lemma_round_trip(m.1, rest);
        assert((first + second) + rest =~= first + (second + rest));
        assert((first + (second + rest)).skip(first.len() as int) =~= second + rest);
    }

    proof fn lemma_taken(input: Seq<u8>) {
        A::lemma_taken(input);
        if let Ok((_, taken)) = A::decoding(input) {
            B::lemma_taken(input.skip(taken as int));
        }
    }

    fn serialize(&self, ser: &mut Serializer) -> (r: Result<(), Error>) {
        match self.0.serialize(ser) {
            Err(e) => Err(e),
            Ok(()) => {
                let ghost mid: Seq<u8> = ser@;
                let r = self.1.serialize(ser);
                proof {
                    if r is Ok {
                        assert(ser@ =~= old(ser)@ + (A::bytes(self.0@) + B::bytes(self.1@)));
                    }
                }
                r
            },
        }
    }

    fn deserialize<'de>(de: &mut Deserializer<'de>) -> (r: Result<Self, Error>) {
        let start: Deserializer<'de> = *de;
        proof {
            A::lemma_taken(de@);
        }
        match A::deserialize(de) {
            Err(e) => Err(e),
            Ok(a) => {
                proof {
                    B::lemma_taken(de@);
                }
                match B::deserialize(de) {
                    Err(e) => {
                        *de = start;
                        Err(e)
                    },
                    Ok(b) => {
                        proof {
                            vstd::seq_lib::lemma_seq_skip_of_skip(
                                old(de)@,
                                A::decoding(old(de)@)->Ok_0.1 as int,
                                B::decoding(
                                    old(de)@.skip(A::decoding(old(de)@)->Ok_0.1 as int),
                                )->Ok_0.1 as int,
                            );
                        }
                        Ok((a, b))
                    },
                }
            },
        }
    }
}

/// What reading one value from the whole of `input` gives: the value, or
/// `TrailingBytes` where input is left after it, or the failure of reading.
pub open spec fn whole_decoding<T: Wire>(input: Seq<u8>) -> Result<T::V, Error> {
    match T::decoding(input) {
        Ok((m, taken)) => if taken == input.len() {
            Ok(m)
        } else {
            Err(Error::TrailingBytes)
        },
        Err(e) => Err(e),
    }
}

/// The bytes of `value`.
pub fn to_vec<T: Wire>(value: &T) -> (r: Result<Vec<u8>, Error>)
    ensures
        T::fits(value@) ==> (r matches Ok(v) && v@ == T::bytes(value@)),
        !T::fits(value@) ==> unsupported(r, OVERLONG_STRING@),
{
    let mut ser = Serializer::new();
    match value.serialize(&mut ser) {
        Ok(()) => {
            assert(ser@ =~= T::bytes(value@));
            Ok(ser.into_vec())
        },
        Err(e) => Err(e),
    }
}

/// The value that the whole of `bytes` spells.
pub fn from_slice<T: Wire>(bytes: &[u8]) -> (r: Result<T, Error>)
    ensures
        match whole_decoding::<T>(bytes@) {
            Ok(m) => r matches Ok(v) && v@ == m,
            Err(e) => r == Err::<T, Error>(e),
        },
{
    let mut de = Deserializer::from_slice(bytes);
    proof {
        T::lemma_taken(bytes@);
    }
    match T::deserialize(&mut de) {
        Err(e) => Err(e),
        Ok(v) => match de.end() {
            Ok(()) => Ok(v),
            Err(e) => Err(e),
        },
    }
}

/// The value that the whole of `bytes` spells.
pub fn from_vec<T: Wire>(bytes: &Vec<u8>) -> (r: Result<T, Error>)
    ensures
        match whole_decoding::<T>(bytes@) {
            Ok(m) => r matches Ok(v) && v@ == m,
            Err(e) => r == Err::<T, Error>(e),
        },
{
    from_slice(bytes.as_slice())
}

/// Reading the bytes of a value, and nothing else, gives the value back and
/// leaves no byte over.
pub proof fn lemma_whole_round_trip<T: Wire>(m: T::V)
    requires
        T::fits(m),
    ensures
        whole_decoding::<T>(T::bytes(m)) == Ok::<T::V, Error>(m),
{
    T::lemma_round_trip(m, Seq::empty());
    assert(T::bytes(m) + Seq::<u8>::empty() =~= T::bytes(m));
}

/// Two values with the same bytes are the same value.
pub proof fn lemma_bytes_distinct<T: Wire>(a: T::V, b: T::V)
    requires
        T::fits(a),
        T::fits(b),
        T::bytes(a) == T::bytes(b),
    ensures
        a == b,
{
    T::lemma_round_trip(a, Seq::empty());
    T::lemma_round_trip(b, Seq::empty());
}

} // verus!
