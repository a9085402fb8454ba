//! Identifiers of chains and of the accounts that own them.

use vstd::prelude::*;
use crate::hex::{decode_hex, encode_hex, hex_bytes, hex_text};

verus! {

/// The identifier of a chain: a 32-byte hash value.
#[derive(Clone, Copy, Debug, PartialEq, Eq, Hash)]
pub struct ChainId(pub [u8; 32]);

/// The account that signs blocks on a chain.
#[derive(Clone, Copy, Debug, PartialEq, Eq, Hash)]
pub enum Owner {
    /// A short address reserved for the protocol.
    Reserved(u8),
    /// A 32-byte account address.
    Address32([u8; 32]),
    /// A 20-byte account address.
    Address20([u8; 20]),
}

impl View for ChainId {
    type V = Seq<u8>;

    open spec fn view(&self) -> Seq<u8> {
        self.0@
    }
}

/// Two identifiers with the same bytes are the same identifier.
pub proof fn lemma_chain_id_by_bytes(a: ChainId, b: ChainId)
    requires
        a@ == b@,
    ensures
        a == b,
{
    assert(a.0@ =~= b.0@);
    assert(a.0 == b.0);
}

/// The array that holds `bytes`, where there are 32 of them.
pub open spec fn spec_array32(bytes: Seq<u8>) -> [u8; 32] {
    choose|array: [u8; 32]| array@ == bytes
}

/// The array that holds `bytes`, where there are 20 of them.
pub open spec fn spec_array20(bytes: Seq<u8>) -> [u8; 20] {
    choose|array: [u8; 20]| array@ == bytes
}

/// An array is the one array that holds its bytes.
pub proof fn lemma_array32(array: [u8; 32])
    ensures
        spec_array32(array@) == array,
{
    assert(spec_array32(array@)@ =~= array@);
}

/// An array is the one array that holds its bytes.
pub proof fn lemma_array20(array: [u8; 20])
    ensures
        spec_array20(array@) == array,
{
    assert(spec_array20(array@)@ =~= array@);
}

/// Copies the first 32 bytes of `bytes` into an array.
pub fn array32(bytes: &[u8]) -> (array: [u8; 32])
    requires
        bytes@.len() >= 32,
    ensures
        array@ == bytes@.subrange(0, 32),
        array == spec_array32(bytes@.subrange(0, 32)),
{
    let mut array: [u8; 32] = [0u8; 32];
    let mut i: usize = 0;
    while i < 32
        invariant
            0 <= i <= 32,
            bytes@.len() >= 32,
            forall|j: int| 0 <= j < i ==> array@[j] == bytes@[j],
        decreases 32 - i,
    {
        array[i] = bytes[i];
        i += 1;
    }
    assert(array@ =~= bytes@.subrange(0, 32));
    proof {
        lemma_array32(array);
    }
    array
}

/// Copies the first 20 bytes of `bytes` into an array.
pub fn array20(bytes: &[u8]) -> (array: [u8; 20])
    requires
        bytes@.len() >= 20,
    ensures
        array@ == bytes@.subrange(0, 20),
        array == spec_array20(bytes@.subrange(0, 20)),
{
    let mut array: [u8; 20] = [0u8; 20];
    let mut i: usize = 0;
    while i < 20
        invariant
            0 <= i <= 20,
            bytes@.len() >= 20,
            forall|j: int| 0 <= j < i ==> array@[j] == bytes@[j],
        decreases 20 - i,
    {
        array[i] = bytes[i];
        i += 1;
    }
    assert(array@ =~= bytes@.subrange(0, 20));
    proof {
        lemma_array20(array);
    }
    array
}

impl ChainId {
    /// The identifier that `text` spells in hexadecimal, if it spells 32 bytes.
    pub open spec fn from_hex_spec(text: Seq<u8>) -> Option<ChainId> {
        match hex_bytes(text) {
            Some(bytes) => if bytes.len() == 32 {
                Some(ChainId::of_bytes(bytes))
            } else {
                None
            },
            None => None,
        }
    }

    /// The identifier whose bytes are the first 32 of `bytes`.
    pub open spec fn of_bytes(bytes: Seq<u8>) -> ChainId {
        ChainId(spec_array32(bytes.subrange(0, 32)))
    }

    /// The identifier with the given bytes.
    pub fn new(bytes: [u8; 32]) -> (id: ChainId)
        ensures
            id == ChainId(bytes),
            id@ == bytes@,
    {
        ChainId(bytes)
    }

    /// The bytes of the identifier.
    pub fn as_bytes(&self) -> (bytes: &[u8; 32])
        ensures
            bytes@ == self@,
    {
        &self.0
    }

    /// Whether `self` and `other` are the same identifier.
    pub fn equals(&self, other: &ChainId) -> (same: bool)
        ensures
            same == (*self == *other),
    {
        let mut i: usize = 0;
        while i < 32
            invariant
                0 <= i <= 32,
                forall|j: int| 0 <= j < i ==> self.0@[j] == other.0@[j],
            decreases 32 - i,
        {
            if self.0[i] != other.0[i] {
                return false;
            }
            i += 1;
        }
        proof {
            assert(self@ =~= other@);
            lemma_chain_id_by_bytes(*self, *other);
        }
        true
    }

    /// Reads the identifier from the first 32 bytes of `bytes`.
    pub fn from_slice(bytes: &[u8]) -> (id: ChainId)
        requires
            bytes@.len() >= 32,
        ensures
            id@ == bytes@.subrange(0, 32),
            id == ChainId::of_bytes(bytes@),
    {
        ChainId(array32(bytes))
    }

    /// The identifier as 64 lower-case hexadecimal digits.
    pub fn to_hex(&self) -> (text: Vec<u8>)
        ensures
            text@ == hex_text(self@),
    {
        encode_hex(self.0.as_slice())
    }

    /// Reads an identifier from 64 hexadecimal digits of either case.
    pub fn from_hex(text: &[u8]) -> (id: Option<ChainId>)
        ensures
            id == ChainId::from_hex_spec(text@),
    {
        match decode_hex(text) {
            Some(bytes) => {
                if bytes.len() == 32 {
                    Some(ChainId::from_slice(bytes.as_slice()))
                } else {
                    None
                }
            },
            None => None,
        }
    }
}

/// Reading back the hexadecimal form of an identifier gives the identifier.
pub proof fn lemma_chain_id_hex_round_trip(id: ChainId)
    ensures
        hex_text(id@).len() == 64,
        ChainId::from_hex_spec(hex_text(id@)) == Some(id),
{
    crate::hex::lemma_hex_round_trip(id@);
    assert(id@.subrange(0, 32) =~= id@);
    lemma_array32(id.0);
}

} // verus!
