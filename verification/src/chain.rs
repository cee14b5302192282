//! Plain-value model of what a node reports: addresses, hashes,
//! transactions and the log entries of their receipts.

use vstd::prelude::*;
use vstd::std_specs::cmp::PartialEqSpecImpl;

verus! {

/// A 20-byte account or contract address.
#[derive(Clone, Copy, Debug, Eq)]
pub struct Address {
    pub bytes: [u8; 20],
}

/// A 32-byte value: a transaction hash or a log topic.
#[derive(Clone, Copy, Debug, Eq)]
pub struct Hash32 {
    pub bytes: [u8; 32],
}

impl PartialEq for Address {
    /// Byte-wise comparison.
    fn eq(&self, other: &Address) -> (equal: bool) {
        let mut i: usize = 0;
        while i < 20
            invariant
                i <= 20,
                forall|k: int| 0 <= k < i ==> self.bytes@[k] == other.bytes@[k],
            decreases 20 - i,
        {
            if self.bytes[i] != other.bytes[i] {
                return false;
            }
            i += 1;
        }
        assert(self.bytes =~= other.bytes);
        true
    }
}

impl PartialEqSpecImpl for Address {
    open spec fn obeys_eq_spec() -> bool {
        true
    }

    open spec fn eq_spec(&self, other: &Address) -> bool {
        *self == *other
    }
}

impl PartialEq for Hash32 {
    /// Byte-wise comparison.
    fn eq(&self, other: &Hash32) -> (equal: bool) {
        let mut i: usize = 0;
        while i < 32
            invariant
                i <= 32,
                forall|k: int| 0 <= k < i ==> self.bytes@[k] == other.bytes@[k],
            decreases 32 - i,
        {
            if self.bytes[i] != other.bytes[i] {
                return false;
            }
            i += 1;
        }
        assert(self.bytes =~= other.bytes);
        true
    }
}

impl PartialEqSpecImpl for Hash32 {
    open spec fn obeys_eq_spec() -> bool {
        true
    }

    open spec fn eq_spec(&self, other: &Hash32) -> bool {
        *self == *other
    }
}

impl Address {
    /// The address that a 32-byte topic carries: its low-order 20 bytes.
    pub open spec fn of_topic(topic: Hash32) -> Address {
        Address { bytes: topic_tail(topic) }
    }

    /// Reads the address out of an indexed topic, dropping the 12 bytes of
    /// padding in front of it.
    pub fn from_topic(topic: &Hash32) -> (address: Address)
        ensures
            address == Address::of_topic(*topic),
            address.bytes@ == topic.bytes@.subrange(12, 32),
    {
        let mut bytes = [0u8; 20];
        let mut i: usize = 0;
        while i < 20
            invariant
                i <= 20,
                forall|k: int| 0 <= k < i ==> bytes@[k] == topic.bytes@[12 + k],
            decreases 20 - i,
        {
            bytes[i] = topic.bytes[12 + i];
            i += 1;
        }
        proof {
            lemma_topic_tail(*topic);
            assert(bytes@ =~= topic.bytes@.subrange(12, 32));
            assert(bytes =~= topic_tail(*topic));
        }
        Address { bytes }
    }
}

/// The last 20 bytes of a topic, as an array.
pub closed spec fn topic_tail(topic: Hash32) -> [u8; 20] {
    choose|tail: [u8; 20]| (#[trigger] tail@) == topic.bytes@.subrange(12, 32)
}

/// `topic_tail` is the array whose bytes are bytes 12 to 31 of the topic.
pub proof fn lemma_topic_tail(topic: Hash32)
    ensures
        topic_tail(topic)@ == topic.bytes@.subrange(12, 32),
        Address::of_topic(topic).bytes@ == topic.bytes@.subrange(12, 32),
{
    let wanted = topic.bytes@.subrange(12, 32);
    let witness = array_from_seq(arbitrary(), wanted, 20);
    lemma_array_from_seq(arbitrary(), wanted, 20);
    assert(witness@ =~= wanted);
}

/// `base` with its first `n` bytes replaced by those of `bytes`.
spec fn array_from_seq(base: [u8; 20], bytes: Seq<u8>, n: nat) -> [u8; 20]
    decreases n,
{
    if n == 0 {
        base
    } else {
        vstd::array::spec_array_update(
            array_from_seq(base, bytes, (n - 1) as nat),
            n - 1,
            bytes[n - 1],
        )
    }
}

proof fn lemma_array_from_seq(base: [u8; 20], bytes: Seq<u8>, n: nat)
    requires
        n <= 20,
        bytes.len() == 20,
    ensures
        forall|k: int| 0 <= k < n ==> array_from_seq(base, bytes, n)@[k] == bytes[k],
    decreases n,
{
    if n > 0 {
        lemma_array_from_seq(base, bytes, (n - 1) as nat);
        vstd::array::axiom_spec_array_update(
            array_from_seq(base, bytes, (n - 1) as nat),
            n - 1,
            bytes[n - 1],
        );
    }
}

/// A transaction as a block lists it.
#[derive(Clone, Copy, Debug, PartialEq, Eq)]
pub struct Transaction {
    /// The transaction's hash.
    pub hash: Hash32,
    /// The destination; `None` for a transaction that creates a contract.
    pub to: Option<Address>,
}

/// One log entry of a transaction's receipt.
#[derive(Clone, Debug, PartialEq, Eq)]
pub struct LogEntry {
    /// The contract that emitted the entry.
    pub address: Address,
    /// The indexed fields; the first names the event.
    pub topics: Vec<Hash32>,
    /// The payload that is not indexed.
    pub data: Vec<u8>,
}

} // verus!
