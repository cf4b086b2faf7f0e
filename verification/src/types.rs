//! Integers that go on the wire in the variable-length encoding.

use crate::text::{decimal, decimal_text};
use vstd::prelude::*;
use vstd::std_specs::convert::FromSpecImpl;

verus! {

/// A 32-bit integer written as a VarInt.
#[derive(Clone, Copy, PartialEq, Eq, Structural, Debug)]
pub struct VarInt(pub i32);

impl View for VarInt {
    type V = i32;

    open spec fn view(&self) -> i32 {
        self.0
    }
}

impl VarInt {
    /// The value in decimal.
    pub fn to_string(&self) -> (r: String)
        ensures
            r@ == decimal_text(self.0 as int),
    {
        decimal(self.0 as i64)
    }
}

impl From<VarInt> for i32 {
    fn from(x: VarInt) -> (r: i32) {
        x.0
    }
}

impl FromSpecImpl<VarInt> for i32 {
    open spec fn obeys_from_spec() -> bool {
        true
    }

    open spec fn from_spec(x: VarInt) -> i32 {
        x.0
    }
}

impl From<i32> for VarInt {
    fn from(x: i32) -> (r: VarInt) {
        VarInt(x)
    }
}

impl FromSpecImpl<i32> for VarInt {
    open spec fn obeys_from_spec() -> bool {
        true
    }

    open spec fn from_spec(x: i32) -> VarInt {
        VarInt(x)
    }
}

/// A 64-bit integer written as a VarLong.
#[derive(Clone, Copy, PartialEq, Eq, Structural, Debug)]
pub struct VarLong(pub i64);

impl View for VarLong {
    type V = i64;

    open spec fn view(&self) -> i64 {
        self.0
    }
}

impl VarLong {
    /// The value in decimal.
    pub fn to_string(&self) -> (r: String)
        ensures
            r@ == decimal_text(self.0 as int),
    {
        decimal(self.0)
    }
}

impl From<VarLong> for i64 {
    fn from(x: VarLong) -> (r: i64) {
        x.0
    }
}

impl FromSpecImpl<VarLong> for i64 {
    open spec fn obeys_from_spec() -> bool {
        true
    }

    open spec fn from_spec(x: VarLong) -> i64 {
        x.0
    }
}

impl From<i64> for VarLong {
    fn from(x: i64) -> (r: VarLong) {
        VarLong(x)
    }
}

impl FromSpecImpl<i64> for VarLong {
    open spec fn obeys_from_spec() -> bool {
        true
    }

    open spec fn from_spec(x: i64) -> VarLong {
        VarLong(x)
    }
}

} // verus!
