//! The wire format, stated over sequences of bytes.
//!
//! Fixed-width integers are big-endian, signed ones in two's complement. A
//! boolean is one byte, `0` or `1`. A string is the VarInt of its length in
//! bytes, then its UTF-8 bytes. A record is its fields in declared order,
//! with nothing between or around them.

use crate::error::Error;
use crate::varint::{lemma_varint_len, lemma_varint_round_trip, varint_bytes, varint_decoding};
use vstd::prelude::*;
use vstd::utf8::{
    decode_utf8, encode_utf8, encode_utf8_decode_utf8, encode_utf8_valid_utf8, valid_utf8,
};

verus! {

/// What reading one value from the front of some input gives: the value and
/// the number of bytes it took, or why there is none.
pub type Parsed<T> = Result<(T, nat), Error>;

/// The number of values that `width` bytes can tell apart: 256 to the power
/// `width`.
pub open spec fn radix(width: nat) -> nat
    decreases width,
{
    if width == 0 {
        1
    } else {
        256 * radix((width - 1) as nat)
    }
}

/// The `width` low bytes of `n`, most significant first.
pub open spec fn be_bytes(n: nat, width: nat) -> Seq<u8>
    decreases width,
{
    if width == 0 {
        Seq::empty()
    } else {
        be_bytes(n / 256, (width - 1) as nat).push((n % 256) as u8)
    }
}

/// The number that `bytes` spell, most significant byte first.
pub open spec fn be_value(bytes: Seq<u8>) -> nat
    decreases bytes.len(),
{
    if bytes.len() == 0 {
        0
    } else {
        256 * be_value(bytes.drop_last()) + bytes.last() as nat
    }
}

/// Reading a fixed-width integer of `width` bytes: `Eof` where fewer bytes
/// are left.
pub open spec fn fixed_decoding(bytes: Seq<u8>, width: nat) -> Parsed<nat> {
    if bytes.len() < width {
        Err(Error::Eof)
    } else {
        Ok((be_value(bytes.take(width as int)), width))
    }
}

/// The byte of a boolean.
pub open spec fn bool_bytes(v: bool) -> Seq<u8> {
    seq![if v { 1u8 } else { 0u8 }]
}

/// Reading a boolean: `Eof` on empty input, `ExpectedBoolean` on a byte
/// other than `0` and `1`.
pub open spec fn bool_decoding(bytes: Seq<u8>) -> Parsed<bool> {
    if bytes.len() < 1 {
        Err(Error::Eof)
    } else if bytes[0] == 0 {
        Ok((false, 1))
    } else if bytes[0] == 1 {
        Ok((true, 1))
    } else {
        Err(Error::ExpectedBoolean)
    }
}

/// Whether the length of `text` in UTF-8 can be written as a VarInt.
pub open spec fn string_fits(text: Seq<char>) -> bool {
    encode_utf8(text).len() <= i32::MAX
}

/// The bytes of a string: its length in bytes as a VarInt, then its UTF-8
/// bytes.
pub open spec fn string_bytes(text: Seq<char>) -> Seq<u8> {
    varint_bytes(encode_utf8(text).len() as i32) + encode_utf8(text)
}

/// Reading a string: the failure of the length prefix where it has one,
/// `Eof` where the length is negative or more bytes than are left,
/// `MalformedUTF8` where the bytes are not UTF-8.
pub open spec fn string_decoding(bytes: Seq<u8>) -> Parsed<Seq<char>> {
    match varint_decoding(bytes) {
        Err(e) => Err(e),
        Ok((len, taken)) => {
            if len < 0 || bytes.len() - taken < len {
                Err(Error::Eof)
            } else {
                let body: Seq<u8> = bytes.subrange(taken as int, taken + len);
                if valid_utf8(body) {
                    Ok((decode_utf8(body), (taken + len) as nat))
                } else {
                    Err(Error::MalformedUTF8)
                }
            }
        },
    }
}

pub proof fn lemma_radix()
    ensures
        radix(0) == 1,
        radix(1) == 0x100,
        radix(2) == 0x1_0000,
        radix(4) == 0x1_0000_0000,
        radix(8) == 0x1_0000_0000_0000_0000,
{
    reveal_with_fuel(radix, 9);
}

/// A fixed-width integer takes exactly its width.
pub proof fn lemma_be_bytes_len(n: nat, width: nat)
    ensures
        be_bytes(n, width).len() == width,
    decreases width,
{
    if width > 0 {
        lemma_be_bytes_len(n / 256, (width - 1) as nat);
    }
}

/// The bytes of a fixed-width integer spell a number below the radix of
/// their count.
pub proof fn lemma_be_value_bound(bytes: Seq<u8>)
    ensures
        be_value(bytes) < radix(bytes.len()),
    decreases bytes.len(),
{
    if bytes.len() > 0 {
        lemma_be_value_bound(bytes.drop_last());
    }
}

/// Reading the bytes of a fixed-width integer gives the number back,
/// whatever follows them.
pub proof fn lemma_fixed_round_trip(n: nat, width: nat, rest: Seq<u8>)
    requires
        n < radix(width),
    ensures
        fixed_decoding(be_bytes(n, width) + rest, width) == Ok::<(nat, nat), Error>((n, width)),
{
    lemma_be_bytes_len(n, width);
    lemma_be_value_of_bytes(n, width);
    assert((be_bytes(n, width) + rest).take(width as int) =~= be_bytes(n, width));
}

proof fn lemma_be_value_of_bytes(n: nat, width: nat)
    requires
        n < radix(width),
    ensures
        be_value(be_bytes(n, width)) == n,
    decreases width,
{
    if width > 0 {
        let front: Seq<u8> = be_bytes(n / 256, (width - 1) as nat);
        lemma_be_value_of_bytes(n / 256, (width - 1) as nat);
        assert(be_bytes(n, width).drop_last() =~= front);
        assert(be_bytes(n, width).last() == n % 256);
    }
}

/// Writing the number that fixed-width bytes spell gives the bytes back.
pub proof fn lemma_be_bytes_of_value(bytes: Seq<u8>)
    ensures
        be_bytes(be_value(bytes), bytes.len()) == bytes,
    decreases bytes.len(),
{
    if bytes.len() > 0 {
        lemma_be_bytes_of_value(bytes.drop_last());
        assert(be_bytes(be_value(bytes), bytes.len()) =~= bytes);
    }
}

/// Reading the byte of a boolean gives the boolean back, whatever follows.
pub proof fn lemma_bool_round_trip(v: bool, rest: Seq<u8>)
    ensures
        bool_decoding(bool_bytes(v) + rest) == Ok::<(bool, nat), Error>((v, 1)),
{
    assert((bool_bytes(v) + rest)[0] == bool_bytes(v)[0]);
}

/// Reading the bytes of a string gives the string back and takes exactly
/// those bytes, whatever follows them.
pub proof fn lemma_string_round_trip(text: Seq<char>, rest: Seq<u8>)
    requires
        string_fits(text),
    ensures
        string_decoding(string_bytes(text) + rest) == Ok::<(Seq<char>, nat), Error>(
            (text, string_bytes(text).len()),
        ),
{
    let body: Seq<u8> = encode_utf8(text);
    let len: i32 = body.len() as i32;
    let prefix: Seq<u8> = varint_bytes(len);
    let input: Seq<u8> = string_bytes(text) + rest;
    lemma_varint_len(len);
    lemma_varint_round_trip(len, body + rest);
    assert(input =~= prefix + (body + rest));
    assert(input.subrange(prefix.len() as int, prefix.len() + len) =~= body);
    encode_utf8_valid_utf8(text);
    encode_utf8_decode_utf8(text);
}

/// A string whose length prefix announces more bytes than follow it ends
/// early, and so does one whose length prefix is negative.
pub proof fn lemma_string_cut_short(len: i32, rest: Seq<u8>)
    requires
        len < 0 || rest.len() < len,
    ensures
        string_decoding(varint_bytes(len) + rest) == Err::<(Seq<char>, nat), Error>(Error::Eof),
{
    lemma_varint_len(len);
    lemma_varint_round_trip(len, rest);
}

/// A string whose bytes are all there and are not UTF-8 is malformed,
/// whatever follows them.
pub proof fn lemma_string_malformed(body: Seq<u8>, rest: Seq<u8>)
    requires
        body.len() <= i32::MAX,
        !valid_utf8(body),
    ensures
        string_decoding(varint_bytes(body.len() as i32) + body + rest) == Err::<
            (Seq<char>, nat),
            Error,
        >(Error::MalformedUTF8),
{
    let len: i32 = body.len() as i32;
    let prefix: Seq<u8> = varint_bytes(len);
    let input: Seq<u8> = prefix + body + rest;
    lemma_varint_len(len);
    lemma_varint_round_trip(len, body + rest);
    assert(input =~= prefix + (body + rest));
    assert(input.subrange(prefix.len() as int, prefix.len() + len) =~= body);
}

} // verus!
