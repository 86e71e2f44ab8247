use vstd::prelude::*;

use crate::error::Error;
use crate::protocol::lemma_u64_le_round_trip;
use crate::protocol::u64_from_le_bytes;
use crate::protocol::u64_le_bytes;
use crate::protocol::u64_of_le_bytes;
use crate::protocol::u64_to_le_bytes;

verus! {

/// Identifier of a remote node (a peer) on the network.  Opaque to the
/// fetcher: it is only stored, compared and handed back.
#[derive(Clone, Copy, PartialEq, Eq, Hash, Debug, Structural)]
pub struct NodeId(pub u64);

/// Wire tag naming an item kind inside a get-request message.
#[derive(Clone, Copy, PartialEq, Eq, Hash, Debug, Structural)]
pub enum Tag {
    /// A deploy, addressed by its hash.
    Deploy,
    /// A block, addressed by its hash.
    Block,
    /// A block, addressed by its height in the linear chain.
    BlockByHeight,
}

/// Hash identifying a deploy.
#[derive(Clone, Copy, PartialEq, Eq, Hash, Debug, Structural)]
pub struct DeployHash(pub u64);

/// Hash identifying a block.
#[derive(Clone, Copy, PartialEq, Eq, Hash, Debug, Structural)]
pub struct BlockHash(pub u64);

/// A deploy, reduced to what the fetcher needs: its identifier.  Validation
/// of deploy contents happens elsewhere, on ingest.
#[derive(Clone, Copy, PartialEq, Eq, Debug, Structural)]
pub struct Deploy {
    /// The hash that identifies this deploy.
    pub hash: DeployHash,
}

/// A block, reduced to what the fetcher needs: its identifying hash and its
/// height in the linear chain.
#[derive(Clone, Copy, PartialEq, Eq, Debug, Structural)]
pub struct Block {
    /// The hash that identifies this block.
    pub hash: BlockHash,
    /// The height of this block in the linear chain.
    pub height: u64,
}

/// A block addressed by its height rather than by its hash.  Storage answers
/// a height lookup with a `Block`, which is wrapped into this shape before it
/// is folded back into the fetcher.
#[derive(PartialEq, Eq, Debug)]
pub enum BlockByHeight {
    /// No block at this height is known.
    Absent(u64),
    /// The block found at its height.
    Found(Box<Block>),
}

impl BlockByHeight {
    /// Wraps a block retrieved from storage into the by-height shape.
    pub fn from_block(block: Block) -> (r: BlockByHeight)
        ensures
            r == BlockByHeight::Found(Box::new(block)),
    {
        BlockByHeight::Found(Box::new(block))
    }
}

/// The polymorphism boundary of the fetcher: one item kind, with its
/// identifier type and its wire encoding.  The same controller logic serves
/// every implementor.
pub trait Item: Sized {
    /// The identifier: cheap to copy, totally comparable.
    type Id: Copy;

    /// The identifier of this item, at the specification level.
    spec fn spec_id(&self) -> Self::Id;

    /// The wire tag of this item kind, at the specification level.
    spec fn spec_tag() -> Tag;

    /// The wire encoding of an identifier, where one exists.
    spec fn spec_encode(id: Self::Id) -> Option<Seq<u8>>;

    /// The identifier that a wire serialisation spells, where it is well
    /// formed.
    spec fn spec_decode(bytes: Seq<u8>) -> Option<Self::Id>;

    /// Returns the identifier of this item.
    fn id(&self) -> (id: Self::Id)
        ensures
            id == self.spec_id();

    /// Decides equality of two identifiers.
    fn id_eq(a: &Self::Id, b: &Self::Id) -> (r: bool)
        ensures
            r <==> *a == *b;

    /// Clones an item; the clone equals the original.
    fn clone_item(&self) -> (c: Self)
        ensures
            c == *self;

    /// Returns the wire tag of this item kind.
    fn tag() -> (t: Tag)
        ensures
            t == Self::spec_tag();

    /// Serialises an identifier for the wire; fails exactly when the
    /// identifier has no wire encoding.
    fn encode_id(id: &Self::Id) -> (r: Result<Vec<u8>, Error>)
        ensures
            match r {
                Ok(bytes) => Self::spec_encode(*id) == Some(bytes@),
                Err(_) => Self::spec_encode(*id) is None,
            };

    /// Recovers an identifier from its wire serialisation, as the peer side
    /// of a get-request does; fails exactly on malformed input.
    fn decode_id(bytes: &Vec<u8>) -> (r: Result<Self::Id, Error>)
        ensures
            match r {
                Ok(id) => Self::spec_decode(bytes@) == Some(id),
                Err(_) => Self::spec_decode(bytes@) is None,
            };

    /// The decoder is symmetric to the encoder: whatever serialisation the
    /// encoder produces, the decoder recovers the identifier from it.
    proof fn lemma_codec_round_trip(id: Self::Id)
        ensures
            Self::spec_encode(id) matches Some(bytes) ==> Self::spec_decode(bytes) == Some(id);
}

impl Item for Deploy {
    type Id = DeployHash;

    open spec fn spec_id(&self) -> DeployHash {
        self.hash
    }

    open spec fn spec_tag() -> Tag {
        Tag::Deploy
    }

    open spec fn spec_encode(id: DeployHash) -> Option<Seq<u8>> {
        Some(u64_le_bytes(id.0))
    }

    open spec fn spec_decode(bytes: Seq<u8>) -> Option<DeployHash> {
        if bytes.len() == 8 {
            Some(DeployHash(u64_of_le_bytes(bytes)))
        } else {
            None
        }
    }

    fn id(&self) -> DeployHash {
        self.hash
    }

    fn id_eq(a: &DeployHash, b: &DeployHash) -> bool {
        a.0 == b.0
    }

    fn clone_item(&self) -> Deploy {
        *self
    }

    fn tag() -> Tag {
        Tag::Deploy
    }

    fn encode_id(id: &DeployHash) -> Result<Vec<u8>, Error> {
        Ok(u64_to_le_bytes(id.0))
    }

    fn decode_id(bytes: &Vec<u8>) -> Result<DeployHash, Error> {
        match u64_from_le_bytes(bytes) {
            Some(raw) => Ok(DeployHash(raw)),
            None => Err(Error::IdSerialization),
        }
    }

    proof fn lemma_codec_round_trip(id: DeployHash) {
        lemma_u64_le_round_trip(id.0);
    }
}

impl Item for Block {
    type Id = BlockHash;

    open spec fn spec_id(&self) -> BlockHash {
        self.hash
    }

    open spec fn spec_tag() -> Tag {
        Tag::Block
    }

    open spec fn spec_encode(id: BlockHash) -> Option<Seq<u8>> {
        Some(u64_le_bytes(id.0))
    }

    open spec fn spec_decode(bytes: Seq<u8>) -> Option<BlockHash> {
        if bytes.len() == 8 {
            Some(BlockHash(u64_of_le_bytes(bytes)))
        } else {
            None
        }
    }

    fn id(&self) -> BlockHash {
        self.hash
    }

    fn id_eq(a: &BlockHash, b: &BlockHash) -> bool {
        a.0 == b.0
    }

    fn clone_item(&self) -> Block {
        *self
    }

    fn tag() -> Tag {
        Tag::Block
    }

    fn encode_id(id: &BlockHash) -> Result<Vec<u8>, Error> {
        Ok(u64_to_le_bytes(id.0))
    }

    fn decode_id(bytes: &Vec<u8>) -> Result<BlockHash, Error> {
        match u64_from_le_bytes(bytes) {
            Some(raw) => Ok(BlockHash(raw)),
            None => Err(Error::IdSerialization),
        }
    }

    proof fn lemma_codec_round_trip(id: BlockHash) {
        lemma_u64_le_round_trip(id.0);
    }
}

impl Item for BlockByHeight {
    type Id = u64;

    open spec fn spec_id(&self) -> u64 {
        match self {
            BlockByHeight::Absent(height) => *height,
            BlockByHeight::Found(block) => block.height,
        }
    }

    open spec fn spec_tag() -> Tag {
        Tag::BlockByHeight
    }

    open spec fn spec_encode(id: u64) -> Option<Seq<u8>> {
        Some(u64_le_bytes(id))
    }

    open spec fn spec_decode(bytes: Seq<u8>) -> Option<u64> {
        if bytes.len() == 8 {
            Some(u64_of_le_bytes(bytes))
        } else {
            None
        }
    }

    fn id(&self) -> u64 {
        match self {
            BlockByHeight::Absent(height) => *height,
            BlockByHeight::Found(block) => block.height,
        }
    }

    fn id_eq(a: &u64, b: &u64) -> bool {
        *a == *b
    }

    fn clone_item(&self) -> BlockByHeight {
        match self {
            BlockByHeight::Absent(height) => BlockByHeight::Absent(*height),
            BlockByHeight::Found(block) => BlockByHeight::Found(Box::new(**block)),
        }
    }

    fn tag() -> Tag {
        Tag::BlockByHeight
    }

    fn encode_id(id: &u64) -> Result<Vec<u8>, Error> {
        Ok(u64_to_le_bytes(*id))
    }

    fn decode_id(bytes: &Vec<u8>) -> Result<u64, Error> {
        match u64_from_le_bytes(bytes) {
            Some(raw) => Ok(raw),
            None => Err(Error::IdSerialization),
        }
    }

    proof fn lemma_codec_round_trip(id: u64) {
        lemma_u64_le_round_trip(id);
    }
}

} // verus!
