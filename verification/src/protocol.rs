use vstd::prelude::*;

use crate::error::Error;
use crate::types::Item;
use crate::types::Tag;

verus! {

/// The little-endian byte rendering of a 64-bit value, least significant
/// byte first.
pub open spec fn u64_le_bytes(x: u64) -> Seq<u8> {
    seq![
        (x & 0xff) as u8,
        ((x >> 8) & 0xff) as u8,
        ((x >> 16) & 0xff) as u8,
        ((x >> 24) & 0xff) as u8,
        ((x >> 32) & 0xff) as u8,
        ((x >> 40) & 0xff) as u8,
        ((x >> 48) & 0xff) as u8,
        ((x >> 56) & 0xff) as u8,
    ]
}

/// Serialises a 64-bit value into its eight little-endian bytes.
pub fn u64_to_le_bytes(x: u64) -> (r: Vec<u8>)
    ensures
        r@ == u64_le_bytes(x),
        r@.len() == 8,
{
    proof {
        assert((x & 0xff) <= 0xff && ((x >> 8) & 0xff) <= 0xff && ((x >> 16) & 0xff) <= 0xff
            && ((x >> 24) & 0xff) <= 0xff && ((x >> 32) & 0xff) <= 0xff
            && ((x >> 40) & 0xff) <= 0xff && ((x >> 48) & 0xff) <= 0xff
            && ((x >> 56) & 0xff) <= 0xff) by (bit_vector);
    }
    let mut r: Vec<u8> = Vec::new();
    r.push((x & 0xff) as u8);
    r.push(((x >> 8) & 0xff) as u8);
    r.push(((x >> 16) & 0xff) as u8);
    r.push(((x >> 24) & 0xff) as u8);
    r.push(((x >> 32) & 0xff) as u8);
    r.push(((x >> 40) & 0xff) as u8);
    r.push(((x >> 48) & 0xff) as u8);
    r.push(((x >> 56) & 0xff) as u8);
    proof {
        assert(r@ =~= u64_le_bytes(x));
    }
    r
}

/// The 64-bit value that eight little-endian bytes spell, least significant
/// byte first.
pub open spec fn u64_of_le_bytes(bytes: Seq<u8>) -> u64
    recommends
        bytes.len() == 8,
{
    (bytes[0] as u64) | ((bytes[1] as u64) << 8) | ((bytes[2] as u64) << 16) | ((bytes[3] as u64)
        << 24) | ((bytes[4] as u64) << 32) | ((bytes[5] as u64) << 40) | ((bytes[6] as u64) << 48)
        | ((bytes[7] as u64) << 56)
}

/// Deserialises a 64-bit value from its eight little-endian bytes; fails
/// exactly when the input is not eight bytes long.
pub fn u64_from_le_bytes(bytes: &Vec<u8>) -> (r: Option<u64>)
    ensures
        match r {
            Some(x) => bytes@.len() == 8 && x == u64_of_le_bytes(bytes@),
            None => bytes@.len() != 8,
        },
{
    if bytes.len() != 8 {
        return None;
    }
    let x = (bytes[0] as u64) | ((bytes[1] as u64) << 8) | ((bytes[2] as u64) << 16) | ((bytes[3]
        as u64) << 24) | ((bytes[4] as u64) << 32) | ((bytes[5] as u64) << 40) | ((bytes[6] as u64)
        << 48) | ((bytes[7] as u64) << 56);
    Some(x)
}

/// Serialising a 64-bit value and deserialising the bytes gives the value
/// back: the little-endian codec is a round trip.
pub proof fn lemma_u64_le_round_trip(x: u64)
    ensures
        u64_le_bytes(x).len() == 8,
        u64_of_le_bytes(u64_le_bytes(x)) == x,
{
    let bytes = u64_le_bytes(x);
    assert(bytes[0] == (x & 0xff) as u8);
    assert(bytes[1] == ((x >> 8) & 0xff) as u8);
    assert(bytes[2] == ((x >> 16) & 0xff) as u8);
    assert(bytes[3] == ((x >> 24) & 0xff) as u8);
    assert(bytes[4] == ((x >> 32) & 0xff) as u8);
    assert(bytes[5] == ((x >> 40) & 0xff) as u8);
    assert(bytes[6] == ((x >> 48) & 0xff) as u8);
    assert(bytes[7] == ((x >> 56) & 0xff) as u8);
    assert((((x & 0xff) as u8 as u64) | ((((x >> 8) & 0xff) as u8 as u64) << 8) | ((((x >> 16)
        & 0xff) as u8 as u64) << 16) | ((((x >> 24) & 0xff) as u8 as u64) << 24) | ((((x >> 32)
        & 0xff) as u8 as u64) << 32) | ((((x >> 40) & 0xff) as u8 as u64) << 40) | ((((x >> 48)
        & 0xff) as u8 as u64) << 48) | ((((x >> 56) & 0xff) as u8 as u64) << 56)) == x)
        by (bit_vector);
}

/// A peer-to-peer protocol message.  The fetcher constructs only the
/// get-request shape; responses arrive pre-dissected as fetcher events.
#[derive(PartialEq, Eq, Debug)]
pub enum Message {
    /// Asks a peer for the item of the tagged kind whose identifier has the
    /// given serialisation.
    GetRequest {
        /// The kind of item requested.
        tag: Tag,
        /// The wire serialisation of the item identifier.
        serialized_id: Vec<u8>,
    },
}

impl Message {
    /// Constructs a get-request for an item of type `T` with identifier
    /// `id`.  Fails exactly when the identifier has no wire encoding.
    pub fn new_get_request<T: Item>(id: &T::Id) -> (r: Result<Message, Error>)
        ensures
            match r {
                Ok(m) => {
                    &&& T::spec_encode(*id) is Some
                    &&& m matches Message::GetRequest { tag, serialized_id }
                        && tag == T::spec_tag() && Some(serialized_id@) == T::spec_encode(*id)
                },
                Err(_) => T::spec_encode(*id) is None,
            },
    {
        match T::encode_id(id) {
            Ok(bytes) => Ok(Message::GetRequest { tag: T::tag(), serialized_id: bytes }),
            Err(error) => Err(error),
        }
    }
}

} // verus!
