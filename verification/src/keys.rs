//! secp256k1 public keys, held as their serializations.
use vstd::prelude::*;

verus! {

/// What `secp256k1::PublicKey::from_slice` makes of `data`: the compressed
/// serialization of the key it parses, or `None` where it refuses `data`.
pub uninterp spec fn parsed_public_key(data: Seq<u8>) -> Option<Seq<u8>>;

/// The serialization of the x-only key of the key whose compressed
/// serialization is `key`: its x coordinate, which follows the parity byte.
pub open spec fn x_only_of(key: Seq<u8>) -> Seq<u8> {
    key.subrange(1, 33)
}

/// Whether `secp256k1::XOnlyPublicKey::from_slice` accepts `data`.
pub uninterp spec fn is_x_only_key(data: Seq<u8>) -> bool;

/// Calls `secp256k1::PublicKey::from_slice` and, on success, serializes the
/// key in compressed form (`PublicKey::serialize`). Claimed: the outcome is
/// `parsed_public_key(data)`, and a compressed serialization parses back to
/// itself.
#[verifier::external_body]
fn secp_parse_public_key(data: &[u8]) -> (r: Option<[u8; 33]>)
    ensures
        match r {
            Some(s) => parsed_public_key(data@) == Some(s@) && parsed_public_key(s@) == Some(s@),
            None => parsed_public_key(data@) is None,
        },
{
    match bitcoin::secp256k1::PublicKey::from_slice(data) {
        Ok(key) => Some(key.serialize()),
        Err(_) => None,
    }
}

/// Parses `key` back into a `secp256k1::PublicKey` and calls its
/// `x_only_public_key`, serializing the x-only key (`XOnlyPublicKey::serialize`).
/// Claimed: the bytes are the x coordinate, that is bytes 1..33 of the
/// compressed serialization `key` (after the parity byte), and
/// `XOnlyPublicKey::from_slice` accepts them (the x coordinate of a point of
/// the curve).
#[verifier::external_body]
fn secp_x_only_public_key(key: &[u8; 33]) -> (r: [u8; 32])
    requires
        parsed_public_key(key@) == Some(key@),
    ensures
        r@ == key@.subrange(1, 33),
        is_x_only_key(r@),
{
    let parsed = bitcoin::secp256k1::PublicKey::from_slice(key).expect("a parsed key");
    parsed.x_only_public_key().0.serialize()
}

/// A secp256k1 public key, held as its compressed serialization.
#[derive(Clone, Copy, PartialEq, Eq, Debug)]
pub struct PublicKey {
    bytes: [u8; 33],
}

impl View for PublicKey {
    type V = Seq<u8>;

    closed spec fn view(&self) -> Seq<u8> {
        self.bytes@
    }
}

/// A public key's compressed serialization is 33 bytes long.
pub proof fn lemma_public_key_len(key: PublicKey)
    ensures
        key@.len() == 33,
{
}

impl PublicKey {
    #[verifier::type_invariant]
    closed spec fn well_formed(self) -> bool {
        parsed_public_key(self.bytes@) == Some(self.bytes@)
    }

    /// Parses a serialized public key (compressed or uncompressed).
    pub fn from_slice(data: &[u8]) -> (r: Option<PublicKey>)
        ensures
            match r {
                Some(key) => parsed_public_key(data@) == Some(key@),
                None => parsed_public_key(data@) is None,
            },
    {
        match secp_parse_public_key(data) {
            Some(bytes) => Some(PublicKey { bytes }),
            None => None,
        }
    }

    /// The compressed serialization of the key.
    pub fn serialize(&self) -> (r: [u8; 33])
        ensures
            r@ == self@,
            r@.len() == 33,
    {
        self.bytes
    }

    /// The x-only key of this key.
    pub fn x_only_public_key(&self) -> (r: XOnlyPublicKey)
        ensures
            r@ == x_only_of(self@),
            r@.len() == 32,
    {
        proof {
            use_type_invariant(self);
        }
        let bytes = secp_x_only_public_key(&self.bytes);
        XOnlyPublicKey { bytes }
    }
}

/// A BIP340 x-only public key, held as its 32-byte serialization.
#[derive(Clone, Copy, PartialEq, Eq, Debug)]
pub struct XOnlyPublicKey {
    bytes: [u8; 32],
}

impl View for XOnlyPublicKey {
    type V = Seq<u8>;

    closed spec fn view(&self) -> Seq<u8> {
        self.bytes@
    }
}

impl XOnlyPublicKey {
    #[verifier::type_invariant]
    closed spec fn well_formed(self) -> bool {
        is_x_only_key(self.bytes@)
    }

    /// The 32-byte serialization of the key.
    pub fn serialize(&self) -> (r: [u8; 32])
        ensures
            r@ == self@,
            r@.len() == 32,
            is_x_only_key(r@),
    {
        proof {
            use_type_invariant(self);
        }
        self.bytes
    }
}

} // verus!
