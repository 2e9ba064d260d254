//! A 256-bit unsigned integer made of two 128-bit words.
//!
//! The value of a [`U256`] is its view, a natural number below 2^256.
//! Wrapping arithmetic and division are done by `ethnum`; comparison,
//! parity and halving work on the two words directly.

use vstd::prelude::*;

verus! {

/// 2^128, the weight of the high word.
pub open spec fn word_base() -> nat {
    0x1_0000_0000_0000_0000_0000_0000_0000_0000nat
}

/// 2^256, one more than the largest value a [`U256`] holds.
pub open spec fn range_256() -> nat {
    0x1_0000_0000_0000_0000_0000_0000_0000_0000_0000_0000_0000_0000_0000_0000_0000_0000nat
}

/// The number that `bytes` spell with the most significant byte first.
pub open spec fn be_value(bytes: Seq<u8>) -> nat
    decreases bytes.len(),
{
    if bytes.len() == 0 {
        0
    } else {
        be_value(bytes.drop_last()) * 256 + bytes.last() as nat
    }
}

/// The `count` lowest bytes of `value`, the least significant first.
pub open spec fn le_bytes(value: nat, count: nat) -> Seq<u8>
    decreases count,
{
    if count == 0 {
        Seq::empty()
    } else {
        seq![(value % 256) as u8] + le_bytes(value / 256, (count - 1) as nat)
    }
}

#[derive(Clone, Copy, Debug, PartialEq, Eq, Structural, Hash)]
pub struct U256 {
    pub hi: u128,
    pub lo: u128,
}

/// An account, held as a number.
pub type Address = U256;

impl View for U256 {
    type V = nat;

    open spec fn view(&self) -> nat {
        self.hi as nat * word_base() + self.lo as nat
    }
}

/// The value with the given number below 2^256.
pub open spec fn u256(value: nat) -> U256 {
    U256 { hi: (value / word_base()) as u128, lo: (value % word_base()) as u128 }
}

impl U256 {
    /// The value of a single word.
    pub fn new(value: u128) -> (r: U256)
        ensures
            r@ == value,
            r == (U256 { hi: 0, lo: value }),
    {
        U256 { hi: 0, lo: value }
    }

    /// The value `hi * 2^128 + lo`.
    pub fn from_words(hi: u128, lo: u128) -> (r: U256)
        ensures
            r == (U256 { hi, lo }),
    {
        U256 { hi, lo }
    }

    /// The high and the low word.
    pub fn into_words(self) -> (r: (u128, u128))
        ensures
            r == (self.hi, self.lo),
    {
        (self.hi, self.lo)
    }

    pub fn is_zero(&self) -> (r: bool)
        ensures
            r == (self@ == 0),
    {
        self.hi == 0 && self.lo == 0
    }

    pub fn lt(&self, other: &U256) -> (r: bool)
        ensures
            r == (self@ < other@),
    {
        self.hi < other.hi || (self.hi == other.hi && self.lo < other.lo)
    }

    pub fn le(&self, other: &U256) -> (r: bool)
        ensures
            r == (self@ <= other@),
    {
        !other.lt(self)
    }

    pub fn gt(&self, other: &U256) -> (r: bool)
        ensures
            r == (self@ > other@),
    {
        other.lt(self)
    }

    pub fn ge(&self, other: &U256) -> (r: bool)
        ensures
            r == (self@ >= other@),
    {
        !self.lt(other)
    }

    /// Whether the lowest bit is set.
    pub fn is_odd(&self) -> (r: bool)
        ensures
            r == (self@ % 2 == 1),
    {
        let lo = self.lo;
        assert(lo & 1 == lo % 2) by (bit_vector);
        (lo & 1) == 1
    }

    /// The value shifted right by one bit.
    pub fn half(&self) -> (r: U256)
        ensures
            r@ == self@ / 2,
    {
        let hi = self.hi;
        let lo = self.lo;
        assert(hi >> 1 == hi / 2) by (bit_vector);
        assert((lo >> 1) | ((hi & 1) << 127) == lo / 2 + (hi % 2) * 0x8000_0000_0000_0000_0000_0000_0000_0000)
            by (bit_vector);
        U256 { hi: hi >> 1, lo: (lo >> 1) | ((hi & 1) << 127) }
    }
}

/// `ethnum::U256::overflowing_add`: the sum modulo 2^256, and whether the
/// exact sum reached 2^256.
#[verifier::external_body]
pub(crate) fn overflowing_add(x: U256, y: U256) -> (r: (U256, bool))
    ensures
        r.0@ == (x@ + y@) % range_256(),
        r.1 == (x@ + y@ >= range_256()),
{
    let a = ethnum::U256::from_words(x.hi, x.lo);
    let (sum, carry) = a.overflowing_add(ethnum::U256::from_words(y.hi, y.lo));
    (U256 { hi: *sum.high(), lo: *sum.low() }, carry)
}

/// `ethnum::U256::wrapping_add`: the sum modulo 2^256.
#[verifier::external_body]
pub(crate) fn wrapping_add(x: U256, y: U256) -> (r: U256)
    ensures
        r@ == (x@ + y@) % range_256(),
{
    let a = ethnum::U256::from_words(x.hi, x.lo);
    let sum = a.wrapping_add(ethnum::U256::from_words(y.hi, y.lo));
    U256 { hi: *sum.high(), lo: *sum.low() }
}

/// `ethnum::U256::wrapping_sub`: the difference modulo 2^256.
#[verifier::external_body]
pub(crate) fn wrapping_sub(x: U256, y: U256) -> (r: U256)
    ensures
        r@ == (x@ - y@) % (range_256() as int),
{
    let a = ethnum::U256::from_words(x.hi, x.lo);
    let difference = a.wrapping_sub(ethnum::U256::from_words(y.hi, y.lo));
    U256 { hi: *difference.high(), lo: *difference.low() }
}

/// The `%` of `ethnum::U256`: the remainder of `x` divided by `m`. The
/// operator panics on a zero divisor, which `requires` leaves out.
#[verifier::external_body]
pub(crate) fn rem(x: U256, m: U256) -> (r: U256)
    requires
        m@ != 0,
    ensures
        r@ == x@ % m@,
{
    let remainder = ethnum::U256::from_words(x.hi, x.lo) % ethnum::U256::from_words(m.hi, m.lo);
    U256 { hi: *remainder.high(), lo: *remainder.low() }
}

/// `ethnum::U256::from_be_bytes`: the value that 32 bytes spell with the
/// most significant byte first.
#[verifier::external_body]
pub(crate) fn from_be_bytes(bytes: &[u8]) -> (r: U256)
    requires
        bytes@.len() == 32,
    ensures
        r@ == be_value(bytes@),
{
    let mut buffer = [0u8; 32];
    buffer.copy_from_slice(bytes);
    let value = ethnum::U256::from_be_bytes(buffer);
    U256 { hi: *value.high(), lo: *value.low() }
}

/// `ethnum::U256::to_le_bytes`: the 32 bytes of the value, the least
/// significant first.
#[verifier::external_body]
pub(crate) fn to_le_bytes(x: U256) -> (bytes: Vec<u8>)
    ensures
        bytes@ == le_bytes(x@, 32),
{
    ethnum::U256::from_words(x.hi, x.lo).to_le_bytes().to_vec()
}

} // verus!
