//! The variable-length integer codec.
//!
//! An integer is written as its two's-complement bit pattern in groups of
//! seven bits, least significant group first. Every byte but the last has its
//! high bit set.

use crate::bits::{
    bits_of_i32, bits_of_i64, i32_of_bits, i64_of_bits, signed32, signed64, unsigned32, unsigned64,
};
use crate::error::Error;
use vstd::prelude::*;

verus! {

/// The groups of seven bits of `n`, least significant first, each but the
/// last with the continuation bit set.
pub open spec fn groups(n: nat) -> Seq<u8>
    decreases n,
{
    if n < 128 {
        seq![n as u8]
    } else {
        seq![(n % 128 + 128) as u8] + groups(n / 128)
    }
}

/// The bytes of a VarInt.
pub open spec fn varint_bytes(v: i32) -> Seq<u8> {
    groups(unsigned32(v))
}

/// The bytes of a VarLong.
pub open spec fn varlong_bytes(v: i64) -> Seq<u8> {
    groups(unsigned64(v))
}

/// How many bytes at the front of `bytes` have the continuation bit set.
pub open spec fn continued(bytes: Seq<u8>) -> nat
    decreases bytes.len(),
{
    if bytes.len() > 0 && bytes[0] >= 0x80 {
        1 + continued(bytes.drop_first())
    } else {
        0
    }
}

/// The number spelled by the low seven bits of each byte, least significant
/// group first.
pub open spec fn payload(bytes: Seq<u8>) -> nat
    decreases bytes.len(),
{
    if bytes.len() == 0 {
        0
    } else {
        (bytes[0] % 128) as nat + 128 * payload(bytes.drop_first())
    }
}

/// What reading a VarInt from the front of `bytes` gives: the value and the
/// number of bytes it took, `VarIntOverflow` where five bytes in a row ask
/// for more, `Eof` where the bytes end first. The value has the low 32 bits
/// of what the groups spell: the bits that a fifth group holds above them are
/// dropped.
pub open spec fn varint_decoding(bytes: Seq<u8>) -> Result<(i32, usize), Error> {
    let k: int = continued(bytes) as int;
    if k >= 5 {
        Err(Error::VarIntOverflow)
    } else if k >= bytes.len() {
        Err(Error::Eof)
    } else {
        Ok((signed32(payload(bytes.take(k + 1))), (k + 1) as usize))
    }
}

/// What reading a VarLong from the front of `bytes` gives: the value and the
/// number of bytes it took, `VarLongOverflow` where ten bytes in a row ask
/// for more, `Eof` where the bytes end first. The value has the low 64 bits
/// of what the groups spell: the bits that a tenth group holds above them are
/// dropped.
pub open spec fn varlong_decoding(bytes: Seq<u8>) -> Result<(i64, usize), Error> {
    let k: int = continued(bytes) as int;
    if k >= 10 {
        Err(Error::VarLongOverflow)
    } else if k >= bytes.len() {
        Err(Error::Eof)
    } else {
        Ok((signed64(payload(bytes.take(k + 1))), (k + 1) as usize))
    }
}

/// The weight of the group at place `n`: 128 to the power `n`.
spec fn weight(n: nat) -> nat
    decreases n,
{
    if n == 0 {
        1
    } else {
        128 * weight((n - 1) as nat)
    }
}

proof fn lemma_weights()
    ensures
        weight(0) == 1,
        weight(1) == 0x80,
        weight(2) == 0x4000,
        weight(3) == 0x20_0000,
        weight(4) == 0x1000_0000,
        weight(5) == 0x8_0000_0000,
        weight(6) == 0x400_0000_0000,
        weight(7) == 0x2_0000_0000_0000,
        weight(8) == 0x100_0000_0000_0000,
        weight(9) == 0x8000_0000_0000_0000,
        weight(10) == 0x40_0000_0000_0000_0000,
{
    reveal_with_fuel(weight, 11);
}

proof fn lemma_payload_push(s: Seq<u8>, b: u8)
    ensures
        payload(s.push(b)) == payload(s) + (b % 128) * weight(s.len()),
    decreases s.len(),
{
    let g: int = (b % 128) as int;
    if s.len() == 0 {
        assert(s.push(b).drop_first() =~= Seq::<u8>::empty());
        assert(payload(s.push(b).drop_first()) == 0);
        assert(g * 1 == g);
    } else {
        let w: int = weight((s.len() - 1) as nat) as int;
        assert(s.push(b).drop_first() =~= s.drop_first().push(b));
        lemma_payload_push(s.drop_first(), b);
        assert(payload(s.push(b)) == (s[0] % 128) + 128 * payload(s.drop_first().push(b)));
        assert(payload(s.drop_first().push(b)) == payload(s.drop_first()) + g * w);
        assert(weight(s.len()) == 128 * w);
        assert(128 * (g * w) == g * (128 * w)) by (nonlinear_arith);
    }
}

proof fn lemma_continued_prefix(bytes: Seq<u8>, i: int)
    requires
        0 <= i <= bytes.len(),
        forall|j: int| 0 <= j < i ==> bytes[j] >= 0x80,
    ensures
        continued(bytes) == i + continued(bytes.skip(i)),
    decreases i,
{
    if i > 0 {
        let rest = bytes.drop_first();
        assert forall|j: int| 0 <= j < i - 1 implies rest[j] >= 0x80 by {
            assert(rest[j] == bytes[j + 1]);
        }
        lemma_continued_prefix(rest, i - 1);
        assert(rest.skip(i - 1) =~= bytes.skip(i));
    } else {
        assert(bytes.skip(0) =~= bytes);
    }
}

proof fn lemma_or_group_32(value: u32, g: u32, pos: u32)
    by (bit_vector)
    requires
        g < 128,
    ensures
        pos == 0 && value < 1 ==> (value | (g << pos)) == value + g,
        pos == 7 && value < 0x80 ==> (value | (g << pos)) == value + g * 0x80,
        pos == 14 && value < 0x4000 ==> (value | (g << pos)) == value + g * 0x4000,
        pos == 21 && value < 0x20_0000 ==> (value | (g << pos)) == value + g * 0x20_0000,
        pos == 28 && value < 0x1000_0000 ==> (value | (g << pos)) == (value + g * 0x1000_0000)
            % 0x1_0000_0000,
{
}

/// Puts the low seven bits of `byte` above the `pos` bits that `value` holds.
fn with_group_32(value: u32, pos: u32, byte: u8) -> (r: u32)
    requires
        pos % 7 == 0,
        pos <= 28,
        value < weight((pos / 7) as nat),
    ensures
        r == (value + (byte % 128) * weight((pos / 7) as nat)) % 0x1_0000_0000,
        pos < 28 ==> r == value + (byte % 128) * weight((pos / 7) as nat),
        pos < 28 ==> r < weight((pos / 7 + 1) as nat),
{
    let g: u32 = (byte & 0x7F) as u32;
    proof {
        assert(byte & 0x7F == byte % 128) by (bit_vector);
        lemma_weights();
        lemma_or_group_32(value, g, pos);
    }
    value | (g << pos)
}

/// Reads a VarInt from the front of `vec`: the value and the number of bytes
/// it took.
pub fn read_varint(vec: &[u8]) -> (r: Result<(i32, usize), Error>)
    ensures
        r == varint_decoding(vec@),
{
    let mut value: u32 = 0;
    let mut i: usize = 0;
    let mut pos: u32 = 0;
    proof {
        lemma_weights();
    }
    loop
        invariant
            i <= 4,
            i <= vec@.len(),
            pos == 7 * i,
            forall|j: int| 0 <= j < i ==> vec@[j] >= 0x80,
            value == payload(vec@.take(i as int)),
            value < weight(i as nat),
        decreases 5 - i,
    {
        proof {
            lemma_continued_prefix(vec@, i as int);
        }
        if i >= vec.len() {
            return Err(Error::Eof);
        }
        let current_byte: u8 = vec[i];
        proof {
            assert(vec@.take(i + 1) =~= vec@.take(i as int).push(current_byte));
            lemma_payload_push(vec@.take(i as int), current_byte);
            assert(current_byte & 0x80 == 0 <==> current_byte < 0x80) by (bit_vector);
            assert(vec@.skip(i as int)[0] == current_byte);
        }
        value = with_group_32(value, pos, current_byte);
        i += 1;
        if (current_byte & 0x80) == 0 {
            return Ok((i32_of_bits(value), i));
        }
        pos += 7;
        if pos >= 32 {
            proof {
                lemma_continued_prefix(vec@, 5);
            }
            return Err(Error::VarIntOverflow);
        }
    }
}

proof fn lemma_or_group_64(value: u64, g: u64, pos: u64)
    by (bit_vector)
    requires
        g < 128,
    ensures
        pos == 0 && value < 1 ==> (value | (g << pos)) == value + g,
        pos == 7 && value < 0x80 ==> (value | (g << pos)) == value + g * 0x80,
        pos == 14 && value < 0x4000 ==> (value | (g << pos)) == value + g * 0x4000,
        pos == 21 && value < 0x20_0000 ==> (value | (g << pos)) == value + g * 0x20_0000,
        pos == 28 && value < 0x1000_0000 ==> (value | (g << pos)) == value + g * 0x1000_0000,
        pos == 35 && value < 0x8_0000_0000 ==> (value | (g << pos)) == value + g
            * 0x8_0000_0000,
        pos == 42 && value < 0x400_0000_0000 ==> (value | (g << pos)) == value + g
            * 0x400_0000_0000,
        pos == 49 && value < 0x2_0000_0000_0000 ==> (value | (g << pos)) == value + g
            * 0x2_0000_0000_0000,
        pos == 56 && value < 0x100_0000_0000_0000 ==> (value | (g << pos)) == value + g
            * 0x100_0000_0000_0000,
        pos == 63 && value < 0x8000_0000_0000_0000 ==> (value | (g << pos)) == (value + g
            * 0x8000_0000_0000_0000) % 0x1_0000_0000_0000_0000,
{
}

/// Puts the low seven bits of `byte` above the `pos` bits that `value` holds.
fn with_group_64(value: u64, pos: u64, byte: u8) -> (r: u64)
    requires
        pos % 7 == 0,
        pos <= 63,
        value < weight((pos / 7) as nat),
    ensures
        r == (value + (byte % 128) * weight((pos / 7) as nat)) % 0x1_0000_0000_0000_0000,
        pos < 63 ==> r == value + (byte % 128) * weight((pos / 7) as nat),
        pos < 63 ==> r < weight((pos / 7 + 1) as nat),
{
    let g: u64 = (byte & 0x7F) as u64;
    proof {
        assert(byte & 0x7F == byte % 128) by (bit_vector);
        lemma_weights();
        lemma_or_group_64(value, g, pos);
    }
    value | (g << pos)
}

/// Reads a VarLong from the front of `vec`: the value and the number of bytes
/// it took.
pub fn read_varlong(vec: &[u8]) -> (r: Result<(i64, usize), Error>)
    ensures
        r == varlong_decoding(vec@),
{
    let mut value: u64 = 0;
    let mut i: usize = 0;
    let mut pos: u64 = 0;
    proof {
        lemma_weights();
    }
    loop
        invariant
            i <= 9,
            i <= vec@.len(),
            pos == 7 * i,
            forall|j: int| 0 <= j < i ==> vec@[j] >= 0x80,
            value == payload(vec@.take(i as int)),
            value < weight(i as nat),
        decreases 10 - i,
    {
        proof {
            lemma_continued_prefix(vec@, i as int);
        }
        if i >= vec.len() {
            return Err(Error::Eof);
        }
        let current_byte: u8 = vec[i];
        proof {
            assert(vec@.take(i + 1) =~= vec@.take(i as int).push(current_byte));
            lemma_payload_push(vec@.take(i as int), current_byte);
            assert(current_byte & 0x80 == 0 <==> current_byte < 0x80) by (bit_vector);
            assert(vec@.skip(i as int)[0] == current_byte);
        }
        value = with_group_64(value, pos, current_byte);
        i += 1;
        if (current_byte & 0x80) == 0 {
            return Ok((i64_of_bits(value), i));
        }
        pos += 7;
        if pos >= 64 {
            proof {
                lemma_continued_prefix(vec@, 10);
            }
            return Err(Error::VarLongOverflow);
        }
    }
}

proof fn lemma_low_group_32(x: u32)
    ensures
        (x & !0x7Fu32) == 0 <==> x < 128,
        ((x & 0x7F) | 0x80) == x % 128 + 128,
        x >> 7 == x / 128,
{
    assert((x & !0x7Fu32) == 0 <==> x < 128) by (bit_vector);
    assert(((x & 0x7F) | 0x80) == x % 128 + 128) by (bit_vector);
    assert(x >> 7 == x / 128) by (bit_vector);
}

proof fn lemma_low_group_64(x: u64)
    ensures
        (x & !0x7Fu64) == 0 <==> x < 128,
        ((x & 0x7F) | 0x80) == x % 128 + 128,
        x >> 7 == x / 128,
{
    assert((x & !0x7Fu64) == 0 <==> x < 128) by (bit_vector);
    assert(((x & 0x7F) | 0x80) == x % 128 + 128) by (bit_vector);
    assert(x >> 7 == x / 128) by (bit_vector);
}

/// Appends the bytes of the VarInt `x` to `vec`.
pub fn write_varint_in_place(vec: &mut Vec<u8>, x: i32)
    ensures
        final(vec)@ == old(vec)@ + varint_bytes(x),
{
    let mut rest: u32 = bits_of_i32(x);
    loop
        invariant_except_break
            vec@ + groups(rest as nat) == old(vec)@ + varint_bytes(x),
        ensures
            vec@ == old(vec)@ + varint_bytes(x),
        decreases rest,
    {
        proof {
            lemma_low_group_32(rest);
        }
        if (rest & !0x7F) == 0 {
            vec.push(#[verifier::truncate] (rest as u8));
            break ;
        }
        vec.push(#[verifier::truncate] (((rest & 0x7F) | 0x80) as u8));
        rest = rest >> 7;
    }
}

/// The bytes of the VarInt `x`.
pub fn write_varint(x: i32) -> (vec: Vec<u8>)
    ensures
        vec@ == varint_bytes(x),
{
    let mut vec: Vec<u8> = Vec::new();
    write_varint_in_place(&mut vec, x);
    vec
}

/// Appends the bytes of the VarLong `x` to `vec`.
pub fn write_varlong_in_place(vec: &mut Vec<u8>, x: i64)
    ensures
        final(vec)@ == old(vec)@ + varlong_bytes(x),
{
    let mut rest: u64 = bits_of_i64(x);
    loop
        invariant_except_break
            vec@ + groups(rest as nat) == old(vec)@ + varlong_bytes(x),
        ensures
            vec@ == old(vec)@ + varlong_bytes(x),
        decreases rest,
    {
        proof {
            lemma_low_group_64(rest);
        }
        if (rest & !0x7F) == 0 {
            vec.push(#[verifier::truncate] (rest as u8));
            break ;
        }
        vec.push(#[verifier::truncate] (((rest & 0x7F) | 0x80) as u8));
        rest = rest >> 7;
    }
}

/// The bytes of the VarLong `x`.
pub fn write_varlong(x: i64) -> (vec: Vec<u8>)
    ensures
        vec@ == varlong_bytes(x),
{
    let mut vec: Vec<u8> = Vec::new();
    write_varlong_in_place(&mut vec, x);
    vec
}

/// What the bytes taken from a stream so far amount to: nothing yet while
/// the VarInt goes on, else its value or `VarIntOverflow`.
pub open spec fn varint_progress(bytes: Seq<u8>) -> Option<Result<i32, Error>> {
    match varint_decoding(bytes) {
        Ok((value, _)) => Some(Ok(value)),
        Err(Error::Eof) => None,
        Err(e) => Some(Err(e)),
    }
}

/// What the bytes taken from a stream so far amount to: nothing yet while
/// the VarLong goes on, else its value or `VarLongOverflow`.
pub open spec fn varlong_progress(bytes: Seq<u8>) -> Option<Result<i64, Error>> {
    match varlong_decoding(bytes) {
        Ok((value, _)) => Some(Ok(value)),
        Err(Error::Eof) => None,
        Err(e) => Some(Err(e)),
    }
}

/// Reads a VarInt that arrives one byte at a time.
pub struct VarIntAccumulator {
    value: u32,
    pos: u32,
    seen: Ghost<Seq<u8>>,
}

impl View for VarIntAccumulator {
    type V = Seq<u8>;

    /// The bytes taken since the last value was completed.
    closed spec fn view(&self) -> Seq<u8> {
        self.seen@
    }
}

impl VarIntAccumulator {
    #[verifier::type_invariant]
    spec fn well_formed(self) -> bool {
        &&& self.seen@.len() <= 4
        &&& self.pos == 7 * self.seen@.len()
        &&& forall|j: int| 0 <= j < self.seen@.len() ==> self.seen@[j] >= 0x80
        &&& self.value == payload(self.seen@)
        &&& self.value < weight(self.seen@.len())
    }

    /// An accumulator that has taken no byte.
    pub fn new() -> (r: Self)
        ensures
            r@ == Seq::<u8>::empty(),
    {
        proof {
            lemma_weights();
        }
        VarIntAccumulator { value: 0, pos: 0, seen: Ghost(Seq::empty()) }
    }

    /// Takes the next byte of the stream. Gives the value, or
    /// `VarIntOverflow`, once the bytes taken decide it, and starts afresh;
    /// gives nothing while the VarInt goes on.
    pub fn push(&mut self, byte: u8) -> (r: Option<Result<i32, Error>>)
        ensures
            r == varint_progress(old(self)@.push(byte)),
            r is None ==> final(self)@ == old(self)@.push(byte),
            r is Some ==> final(self)@ == Seq::<u8>::empty(),
    {
        let ghost taken: Seq<u8> = self.seen@.push(byte);
        proof {
            use_type_invariant(&*self);
            lemma_weights();
            lemma_payload_push(self.seen@, byte);
            lemma_continued_prefix(taken, self.seen@.len() as int);
            assert(taken.skip(self.seen@.len() as int) =~= seq![byte]);
            assert(seq![byte].drop_first() =~= Seq::<u8>::empty());
            assert(continued(Seq::<u8>::empty()) == 0);
            assert(continued(seq![byte]) == if byte >= 0x80 { 1nat } else { 0nat });
            assert(taken.take(taken.len() as int) =~= taken);
            assert(byte & 0x80 == 0 <==> byte < 0x80) by (bit_vector);
        }
        let value: u32 = with_group_32(self.value, self.pos, byte);
        if (byte & 0x80) == 0 {
            *self = VarIntAccumulator { value: 0, pos: 0, seen: Ghost(Seq::empty()) };
            return Some(Ok(i32_of_bits(value)));
        }
        if self.pos + 7 >= 32 {
            *self = VarIntAccumulator { value: 0, pos: 0, seen: Ghost(Seq::empty()) };
            return Some(Err(Error::VarIntOverflow));
        }
        *self = VarIntAccumulator { value, pos: self.pos + 7, seen: Ghost(taken) };
        None
    }
}

/// Reads a VarLong that arrives one byte at a time.
pub struct VarLongAccumulator {
    value: u64,
    pos: u64,
    seen: Ghost<Seq<u8>>,
}

impl View for VarLongAccumulator {
    type V = Seq<u8>;

    /// The bytes taken since the last value was completed.
    closed spec fn view(&self) -> Seq<u8> {
        self.seen@
    }
}

impl VarLongAccumulator {
    #[verifier::type_invariant]
    spec fn well_formed(self) -> bool {
        &&& self.seen@.len() <= 9
        &&& self.pos == 7 * self.seen@.len()
        &&& forall|j: int| 0 <= j < self.seen@.len() ==> self.seen@[j] >= 0x80
        &&& self.value == payload(self.seen@)
        &&& self.value < weight(self.seen@.len())
    }

    /// An accumulator that has taken no byte.
    pub fn new() -> (r: Self)
        ensures
            r@ == Seq::<u8>::empty(),
    {
        proof {
            lemma_weights();
        }
        VarLongAccumulator { value: 0, pos: 0, seen: Ghost(Seq::empty()) }
    }

    /// Takes the next byte of the stream. Gives the value, or
    /// `VarLongOverflow`, once the bytes taken decide it, and starts afresh;
    /// gives nothing while the VarLong goes on.
    pub fn push(&mut self, byte: u8) -> (r: Option<Result<i64, Error>>)
        ensures
            r == varlong_progress(old(self)@.push(byte)),
            r is None ==> final(self)@ == old(self)@.push(byte),
            r is Some ==> final(self)@ == Seq::<u8>::empty(),
    {
        let ghost taken: Seq<u8> = self.seen@.push(byte);
        proof {
            use_type_invariant(&*self);
            lemma_weights();
            lemma_payload_push(self.seen@, byte);
            lemma_continued_prefix(taken, self.seen@.len() as int);
            assert(taken.skip(self.seen@.len() as int) =~= seq![byte]);
            assert(seq![byte].drop_first() =~= Seq::<u8>::empty());
            assert(continued(Seq::<u8>::empty()) == 0);
            assert(continued(seq![byte]) == if byte >= 0x80 { 1nat } else { 0nat });
            assert(taken.take(taken.len() as int) =~= taken);
            assert(byte & 0x80 == 0 <==> byte < 0x80) by (bit_vector);
        }
        let value: u64 = with_group_64(self.value, self.pos, byte);
        if (byte & 0x80) == 0 {
            *self = VarLongAccumulator { value: 0, pos: 0, seen: Ghost(Seq::empty()) };
            return Some(Ok(i64_of_bits(value)));
        }
        if self.pos + 7 >= 64 {
            *self = VarLongAccumulator { value: 0, pos: 0, seen: Ghost(Seq::empty()) };
            return Some(Err(Error::VarLongOverflow));
        }
        *self = VarLongAccumulator { value, pos: self.pos + 7, seen: Ghost(taken) };
        None
    }
}

proof fn lemma_groups(n: nat, rest: Seq<u8>)
    ensures
        groups(n).len() >= 1,
        payload(groups(n)) == n,
        continued(groups(n) + rest) == groups(n).len() - 1,
    decreases n,
{
    let first: u8 = groups(n)[0];
    if n < 128 {
        assert(groups(n).drop_first() =~= Seq::<u8>::empty());
        assert(payload(groups(n).drop_first()) == 0);
        assert(first == n);
        assert((groups(n) + rest)[0] == first);
    } else {
        lemma_groups(n / 128, rest);
        assert(groups(n).drop_first() =~= groups(n / 128));
        assert((groups(n) + rest).drop_first() =~= groups(n / 128) + rest);
        assert(first == n % 128 + 128);
        assert(first % 128 == n % 128);
        assert((groups(n) + rest)[0] == first);
        assert(payload(groups(n)) == (first % 128) + 128 * payload(groups(n).drop_first()));
    }
}

proof fn lemma_groups_len(n: nat, k: nat)
    requires
        k >= 1,
    ensures
        weight(k) >= 128,
        n < weight(k) <==> groups(n).len() <= k,
    decreases k,
{
    if k == 1 {
        reveal_with_fuel(weight, 2);
        if n >= 128 {
            lemma_groups(n / 128, Seq::<u8>::empty());
        }
    } else {
        lemma_groups_len(n / 128, (k - 1) as nat);
    }
}

/// A VarInt takes one to five bytes, and five where the value is negative.
pub proof fn lemma_varint_len(v: i32)
    ensures
        1 <= varint_bytes(v).len() <= 5,
        v < 0 ==> varint_bytes(v).len() == 5,
{
    lemma_weights();
    lemma_groups(unsigned32(v), Seq::<u8>::empty());
    lemma_groups_len(unsigned32(v), 5);
    lemma_groups_len(unsigned32(v), 4);
}

/// A VarLong takes one to ten bytes, and ten where the value is negative.
pub proof fn lemma_varlong_len(v: i64)
    ensures
        1 <= varlong_bytes(v).len() <= 10,
        v < 0 ==> varlong_bytes(v).len() == 10,
{
    lemma_weights();
    lemma_groups(unsigned64(v), Seq::<u8>::empty());
    lemma_groups_len(unsigned64(v), 10);
    lemma_groups_len(unsigned64(v), 9);
}

/// Reading the bytes of a VarInt gives the value back and takes exactly those
/// bytes, whatever follows them.
pub proof fn lemma_varint_round_trip(v: i32, rest: Seq<u8>)
    ensures
        varint_decoding(varint_bytes(v) + rest) == Ok::<(i32, usize), Error>(
            (v, varint_bytes(v).len() as usize),
        ),
{
    let n: nat = unsigned32(v);
    lemma_varint_len(v);
    lemma_groups(n, rest);
    assert((groups(n) + rest).take(groups(n).len() as int) =~= groups(n));
}

/// Reading the bytes of a VarLong gives the value back and takes exactly
/// those bytes, whatever follows them.
pub proof fn lemma_varlong_round_trip(v: i64, rest: Seq<u8>)
    ensures
        varlong_decoding(varlong_bytes(v) + rest) == Ok::<(i64, usize), Error>(
            (v, varlong_bytes(v).len() as usize),
        ),
{
    let n: nat = unsigned64(v);
    lemma_varlong_len(v);
    lemma_groups(n, rest);
    assert((groups(n) + rest).take(groups(n).len() as int) =~= groups(n));
}

/// Two integers with the same bytes as VarInts are the same integer.
pub proof fn lemma_varint_distinct(a: i32, b: i32)
    requires
        varint_bytes(a) == varint_bytes(b),
    ensures
        a == b,
{
    lemma_varint_round_trip(a, Seq::empty());
    lemma_varint_round_trip(b, Seq::empty());
}

/// Two integers with the same bytes as VarLongs are the same integer.
pub proof fn lemma_varlong_distinct(a: i64, b: i64)
    requires
        varlong_bytes(a) == varlong_bytes(b),
    ensures
        a == b,
{
    lemma_varlong_round_trip(a, Seq::empty());
    lemma_varlong_round_trip(b, Seq::empty());
}

/// A VarInt is refused as too long exactly where the first five bytes all
/// have the continuation bit set.
pub proof fn lemma_varint_overflow(bytes: Seq<u8>)
    ensures
        varint_decoding(bytes) == Err::<(i32, usize), Error>(Error::VarIntOverflow) <==> (
        bytes.len() >= 5 && forall|j: int| 0 <= j < 5 ==> bytes[j] >= 0x80),
{
    lemma_leading(bytes, 5);
}

/// A VarLong is refused as too long exactly where the first ten bytes all
/// have the continuation bit set.
pub proof fn lemma_varlong_overflow(bytes: Seq<u8>)
    ensures
        varlong_decoding(bytes) == Err::<(i64, usize), Error>(Error::VarLongOverflow) <==> (
        bytes.len() >= 10 && forall|j: int| 0 <= j < 10 ==> bytes[j] >= 0x80),
{
    lemma_leading(bytes, 10);
}

proof fn lemma_leading(bytes: Seq<u8>, k: nat)
    ensures
        continued(bytes) <= bytes.len(),
        continued(bytes) >= k <==> (bytes.len() >= k && forall|j: int|
            0 <= j < k ==> bytes[j] >= 0x80),
    decreases k,
{
    lemma_continued_bound(bytes);
    if k > 0 {
        if bytes.len() > 0 && bytes[0] >= 0x80 {
            let rest = bytes.drop_first();
            lemma_leading(rest, (k - 1) as nat);
            if rest.len() >= k - 1 && forall|j: int| 0 <= j < k - 1 ==> rest[j] >= 0x80 {
                assert forall|j: int| 0 <= j < k implies bytes[j] >= 0x80 by {
                    if j > 0 {
                        assert(rest[j - 1] == bytes[j]);
                    }
                }
            }
            if bytes.len() >= k && forall|j: int| 0 <= j < k ==> bytes[j] >= 0x80 {
                assert forall|j: int| 0 <= j < k - 1 implies rest[j] >= 0x80 by {
                    assert(rest[j] == bytes[j + 1]);
                }
            }
        }
    }
}

proof fn lemma_continued_bound(bytes: Seq<u8>)
    ensures
        continued(bytes) <= bytes.len(),
    decreases bytes.len(),
{
    if bytes.len() > 0 && bytes[0] >= 0x80 {
        lemma_continued_bound(bytes.drop_first());
    }
}

/// Reading stops at the first byte without a continuation bit: once a front
/// part of the input decides the outcome, what follows does not change it.
/// So a VarInt taken from a stream byte by byte is the one read from a buffer
/// that begins with the same bytes.
pub proof fn lemma_varint_prefix(front: Seq<u8>, rest: Seq<u8>)
    requires
        varint_decoding(front) != Err::<(i32, usize), Error>(Error::Eof),
    ensures
        varint_decoding(front + rest) == varint_decoding(front),
{
    lemma_decided(front, rest);
}

/// Reading stops at the first byte without a continuation bit: once a front
/// part of the input decides the outcome, what follows does not change it.
/// So a VarLong taken from a stream byte by byte is the one read from a
/// buffer that begins with the same bytes.
pub proof fn lemma_varlong_prefix(front: Seq<u8>, rest: Seq<u8>)
    requires
        varlong_decoding(front) != Err::<(i64, usize), Error>(Error::Eof),
    ensures
        varlong_decoding(front + rest) == varlong_decoding(front),
{
    lemma_decided(front, rest);
}

proof fn lemma_decided(front: Seq<u8>, rest: Seq<u8>)
    ensures
        continued(front) <= front.len(),
        continued(front) < front.len() ==> continued(front + rest) == continued(front) && (front
            + rest).take(continued(front) as int + 1) == front.take(continued(front) as int + 1),
        continued(front) == front.len() ==> continued(front + rest) >= front.len(),
    decreases front.len(),
{
    if front.len() > 0 && front[0] >= 0x80 {
        lemma_decided(front.drop_first(), rest);
        assert((front + rest).drop_first() =~= front.drop_first() + rest);
        assert((front + rest)[0] == front[0]);
        let k: int = continued(front) as int;
        if k < front.len() {
            assert((front + rest).take(k + 1) =~= front.take(k + 1));
        }
    } else if front.len() > 0 {
        assert((front + rest)[0] == front[0]);
        assert((front + rest).take(1) =~= front.take(1));
    }
}

} // verus!
