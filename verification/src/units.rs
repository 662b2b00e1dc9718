//! Addresses, slots and amounts.

use crate::fixed::array_eq;
use crate::keyed::KeyEq;
use vstd::prelude::*;

verus! {

/// Number of bytes of an address.
pub const ADDRESS_SIZE_BYTES: usize = 32;

/// The address of an account, as the bytes that stand for it.
#[derive(Clone, Copy, Debug, PartialEq, Eq, Hash)]
pub struct Address {
    /// The bytes of the address.
    pub bytes: [u8; 32],
}

impl View for Address {
    type V = Seq<u8>;

    open spec fn view(&self) -> Seq<u8> {
        self.bytes@
    }
}

impl KeyEq for Address {
    fn key_eq(&self, other: &Self) -> (r: bool) {
        array_eq(&self.bytes, &other.bytes)
    }
}

/// A slot: a period and a thread in it.
#[derive(Clone, Copy, Debug, PartialEq, Eq, Hash)]
pub struct Slot {
    /// The period.
    pub period: u64,
    /// The thread.
    pub thread: u8,
}

impl View for Slot {
    type V = Slot;

    open spec fn view(&self) -> Slot {
        *self
    }
}

impl KeyEq for Slot {
    fn key_eq(&self, other: &Self) -> (r: bool) {
        self.period == other.period && self.thread == other.thread
    }
}

impl Slot {
    /// The slot of `period` and `thread`.
    pub fn new(period: u64, thread: u8) -> (r: Slot)
        ensures
            r.period == period,
            r.thread == thread,
    {
        Slot { period, thread }
    }
}

/// An amount of coins, in its smallest unit.
#[derive(Clone, Copy, Debug, PartialEq, Eq, Hash)]
pub struct Amount {
    /// The number of smallest units.
    pub raw: u64,
}

/// `a` times `b`, or the largest 64-bit number if the product is above it.
pub open spec fn spec_saturating_mul(a: u64, b: u64) -> u64 {
    if a * b > u64::MAX {
        u64::MAX
    } else {
        (a * b) as u64
    }
}

impl Amount {
    /// The amount of `raw` smallest units.
    pub fn from_raw(raw: u64) -> (r: Amount)
        ensures
            r.raw == raw,
    {
        Amount { raw }
    }

    /// The amount `factor` times, or the largest amount if the product is
    /// above it.
    pub fn saturating_mul_u64(self, factor: u64) -> (r: Amount)
        ensures
            r.raw == spec_saturating_mul(self.raw, factor),
    {
        match self.raw.checked_mul(factor) {
            Some(raw) => Amount { raw },
            None => Amount { raw: u64::MAX },
        }
    }
}

} // verus!
