//! Token amounts as fixed-point integers, their decoding from a log's
//! payload, and an accumulator that adds them up without loss.
//!
//! An amount is a `u128` count of the token's smallest unit. One whole token
//! is `AMOUNT_SCALE` of them, so `1_500_000` stands for 1.5 tokens.

use vstd::prelude::*;
use vstd::slice::slice_subrange;

verus! {

/// Number of smallest units in one whole token (six decimal places).
pub const AMOUNT_SCALE: u128 = 1_000_000;

/// Length in bytes of the one field that a transfer's payload consists of.
pub const PAYLOAD_LEN: usize = 32;

/// Offset of the 16 low-order bytes within the payload field.
pub const AMOUNT_OFFSET: usize = 16;

/// The number that a byte string denotes when read most significant byte
/// first.
pub open spec fn be_value(bytes: Seq<u8>) -> nat
    decreases bytes.len(),
{
    if bytes.len() == 0 {
        0
    } else {
        be_value(bytes.drop_last()) * 256 + bytes.last() as nat
    }
}

/// What a payload decodes to: the low-order 16 bytes of a 32-byte field, read
/// as an unsigned integer. A payload of any other length carries no amount.
pub open spec fn decoded_amount(payload: Seq<u8>) -> Option<nat> {
    if payload.len() == PAYLOAD_LEN {
        Some(be_value(payload.subrange(AMOUNT_OFFSET as int, PAYLOAD_LEN as int)))
    } else {
        None
    }
}

/// 2 to the power 128: one more than the largest `u128`.
pub open spec fn two_pow_128() -> nat {
    0x1_0000_0000_0000_0000_0000_0000_0000_0000nat
}

/// 256 to the power `n`.
pub open spec fn pow256(n: nat) -> nat
    decreases n,
{
    if n == 0 {
        1
    } else {
        256 * pow256((n - 1) as nat)
    }
}

/// A string of `n` bytes denotes a number below 256 to the power `n`.
pub proof fn lemma_be_value_bound(bytes: Seq<u8>)
    ensures
        be_value(bytes) < pow256(bytes.len()),
    decreases bytes.len(),
{
    if bytes.len() > 0 {
        lemma_be_value_bound(bytes.drop_last());
        let rest = be_value(bytes.drop_last());
        let below = pow256((bytes.len() - 1) as nat);
        assert(rest * 256 + bytes.last() as nat <= (below - 1) * 256 + 255);
    }
}

/// What a payload decodes to always fits a `u128`: sixteen bytes denote a
/// number below 2^128.
pub proof fn lemma_decoded_amount_fits(payload: Seq<u8>)
    ensures
        decoded_amount(payload) matches Some(units) ==> units < two_pow_128(),
{
    if payload.len() == PAYLOAD_LEN {
        let low_half = payload.subrange(AMOUNT_OFFSET as int, PAYLOAD_LEN as int);
        lemma_be_value_bound(low_half);
        assert(pow256(16) == two_pow_128()) by {
            reveal_with_fuel(pow256, 17);
        }
    }
}

/// Calls `web3::types::U256::from_big_endian` on the bytes and converts the
/// result with `U256::as_u128`.
///
/// Trusted: the first pads the bytes on the left to 32 and reads them most
/// significant byte first; it is defined for at most 32 bytes. The second
/// hands the number back unchanged where it is below 2^128, which at most 16
/// bytes always are.
#[verifier::external_body]
fn be_bytes_to_u128(bytes: &[u8]) -> (value: u128)
    requires
        bytes@.len() <= 16,
    ensures
        value == be_value(bytes@),
{
    web3::types::U256::from_big_endian(bytes).as_u128()
}

/// Decodes the amount that a log's payload carries.
///
/// The payload is one 32-byte big-endian field; the amount is the number in
/// its low-order 16 bytes, the high-order half being ignored. A payload of
/// another length is malformed and yields `None`.
pub fn decode_amount(payload: &[u8]) -> (amount: Option<u128>)
    ensures
        amount is Some <==> payload@.len() == PAYLOAD_LEN,
        amount matches Some(units) ==> decoded_amount(payload@) == Some(units as nat),
        amount is None ==> decoded_amount(payload@) is None,
{
    if payload.len() != PAYLOAD_LEN {
        return None;
    }
    let low_half = slice_subrange(payload, AMOUNT_OFFSET, PAYLOAD_LEN);
    Some(be_bytes_to_u128(low_half))
}

/// A running total of amounts, wide enough never to overflow: the value is
/// `high * 2^128 + low`.
#[derive(Clone, Copy, Debug, PartialEq, Eq)]
pub struct WideSum {
    /// How many times the low part has wrapped around.
    pub high: u64,
    /// The total modulo 2^128.
    pub low: u128,
}

impl View for WideSum {
    type V = nat;

    open spec fn view(&self) -> nat {
        self.high as nat * two_pow_128() + self.low as nat
    }
}

impl WideSum {
    /// The empty total.
    pub fn zero() -> (sum: WideSum)
        ensures
            sum@ == 0,
            sum.high == 0,
    {
        WideSum { high: 0, low: 0 }
    }

    /// Adds one amount to the total.
    pub fn add_amount(&mut self, amount: u128)
        requires
            old(self).high < u64::MAX,
        ensures
            final(self)@ == old(self)@ + amount,
            final(self).high == old(self).high || final(self).high == old(self).high + 1,
    {
        match self.low.checked_add(amount) {
            Some(low) => {
                self.low = low;
            },
            None => {
                self.low = self.low - (u128::MAX - amount) - 1;
                self.high = self.high + 1;
            },
        }
    }
}

} // verus!
