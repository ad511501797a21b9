//! Events: fixed layout, a deterministic canonical encoding, and the material
//! from which an event's identity is hashed.
use vstd::prelude::*;
use vstd::bytes::*;
use crate::PROTOCOL_VERSION;

verus! {

pub type Hash = [u8; 32];

pub type PublicKey = [u8; 32];

pub type Signature = [u8; 64];

/// Genesis marker (no parent).
pub const ZERO_HASH: Hash = [
    0, 0, 0, 0, 0, 0, 0, 0, 0, 0, 0, 0, 0, 0, 0, 0, 0, 0, 0, 0, 0, 0, 0, 0, 0, 0, 0, 0, 0, 0, 0, 0,
];

/// Whether two hashes hold the same bytes.
pub fn hash_eq(a: &Hash, b: &Hash) -> (same: bool)
    ensures
        same == (a@ == b@),
        same == (*a == *b),
{
    let mut i: usize = 0;
    while i < 32
        invariant
            i <= 32,
            forall|k: int| 0 <= k < i ==> a@[k] == b@[k],
        decreases 32 - i,
    {
        if a[i] != b[i] {
            return false;
        }
        i += 1;
    }
    assert(a@ =~= b@);
    assert(*a =~= *b);
    true
}

#[derive(Debug, Clone, Copy)]
pub struct Event {
    pub version: u8,
    pub prev_hash: Hash,
    pub author: PublicKey,
    pub timestamp: u64,
    pub payload_hash: Hash,
    pub signature: Signature,
}

/// The fields that the canonical encoding carries.
pub struct CanonicalFields {
    pub version: u8,
    pub prev_hash: Seq<u8>,
    pub author: Seq<u8>,
    pub timestamp: u64,
    pub payload_hash: Seq<u8>,
}

/// Reads the fields back out of a canonical encoding of 105 bytes.
pub open spec fn decode_canonical(bytes: Seq<u8>) -> CanonicalFields {
    CanonicalFields {
        version: bytes[0],
        prev_hash: bytes.subrange(1, 33),
        author: bytes.subrange(33, 65),
        timestamp: spec_u64_from_le_bytes(bytes.subrange(65, 73)),
        payload_hash: bytes.subrange(73, 105),
    }
}

impl Event {
    /// version (1) ‖ prev_hash (32) ‖ author (32) ‖ timestamp (8, little-endian) ‖ payload_hash (32).
    pub open spec fn spec_canonical_bytes(&self) -> Seq<u8> {
        seq![self.version] + self.prev_hash@ + self.author@ + spec_u64_to_le_bytes(self.timestamp)
            + self.payload_hash@
    }

    /// The canonical bytes followed by the signature.
    pub open spec fn spec_hash_material(&self) -> Seq<u8> {
        self.spec_canonical_bytes() + self.signature@
    }

    /// Construct from trusted local inputs; validity remains a separate check.
    pub fn new(
        prev_hash: Hash,
        author: PublicKey,
        timestamp: u64,
        payload_hash: Hash,
        signature: Signature,
    ) -> (ev: Self)
        ensures
            ev == (Event {
                version: PROTOCOL_VERSION,
                prev_hash,
                author,
                timestamp,
                payload_hash,
                signature,
            }),
    {
        Event { version: PROTOCOL_VERSION, prev_hash, author, timestamp, payload_hash, signature }
    }

    /// Construct from raw fields (e.g., network/replay); no validation performed.
    pub fn from_raw(
        version: u8,
        prev_hash: Hash,
        author: PublicKey,
        timestamp: u64,
        payload_hash: Hash,
        signature: Signature,
    ) -> (ev: Self)
        ensures
            ev == (Event { version, prev_hash, author, timestamp, payload_hash, signature }),
    {
        Event { version, prev_hash, author, timestamp, payload_hash, signature }
    }

    /// Canonical byte encoding (hash/sign input).
    pub fn canonical_bytes(&self) -> (out: Vec<u8>)
        ensures
            out@ == self.spec_canonical_bytes(),
            out@.len() == 105,
    {
        let mut out: Vec<u8> = Vec::with_capacity(105);
        out.push(self.version);
        out.extend_from_slice(self.prev_hash.as_slice());
        out.extend_from_slice(self.author.as_slice());
        let ts = u64_to_le_bytes(self.timestamp);
        out.extend_from_slice(ts.as_slice());
        out.extend_from_slice(self.payload_hash.as_slice());
        proof {
            lemma_auto_spec_u64_to_from_le_bytes();
            assert(out@ =~= self.spec_canonical_bytes());
        }
        out
    }

    /// Identity material: canonical bytes concatenated with signature.
    pub fn hash_material(&self) -> (out: Vec<u8>)
        ensures
            out@ == self.spec_hash_material(),
            out@.len() == 169,
    {
        let mut out = self.canonical_bytes();
        out.extend_from_slice(self.signature.as_slice());
        out
    }

    /// Reading a canonical encoding back gives the fields it was made from.
    pub proof fn lemma_canonical_round_trip(self)
        ensures
            self.spec_canonical_bytes().len() == 105,
            decode_canonical(self.spec_canonical_bytes()) == (CanonicalFields {
                version: self.version,
                prev_hash: self.prev_hash@,
                author: self.author@,
                timestamp: self.timestamp,
                payload_hash: self.payload_hash@,
            }),
    {
        lemma_auto_spec_u64_to_from_le_bytes();
        let b = self.spec_canonical_bytes();
        assert(b.subrange(1, 33) =~= self.prev_hash@);
        assert(b.subrange(33, 65) =~= self.author@);
        assert(b.subrange(65, 73) =~= spec_u64_to_le_bytes(self.timestamp));
        assert(b.subrange(73, 105) =~= self.payload_hash@);
    }

    /// Two events with the same identity material are the same event, field
    /// by field: identities can only collide where SHA-256 does.
    pub proof fn lemma_hash_material_injective(self, other: Event)
        requires
            self.spec_hash_material() == other.spec_hash_material(),
        ensures
            self == other,
    {
        self.lemma_canonical_round_trip();
        other.lemma_canonical_round_trip();
        let a = self.spec_hash_material();
        assert(a.subrange(0, 105) =~= self.spec_canonical_bytes());
        assert(a.subrange(0, 105) =~= other.spec_canonical_bytes());
        assert(a.subrange(105, 169) =~= self.signature@);
        assert(a.subrange(105, 169) =~= other.signature@);
        assert(self.prev_hash@ == other.prev_hash@);
        assert(self.prev_hash == other.prev_hash);
        assert(self.author == other.author);
        assert(self.payload_hash == other.payload_hash);
        assert(self.signature == other.signature);
    }
}

} // verus!
