//! From an OpenSSH Ed25519 key to the age identity that stands for it.

use vstd::prelude::*;
use curve25519_dalek::edwards::CompressedEdwardsY;
use curve25519_dalek::traits::IsIdentity;
use sha2::Digest;

verus! {

/// An age identity as text: the recipient and the secret key.
#[derive(Debug, Clone, PartialEq, Eq)]
pub struct AgeKey {
    pub public_key: String,
    pub private_key: String,
}

/// Why a key gives no age identity.
#[derive(Debug, Clone, Copy, PartialEq, Eq, Structural)]
pub enum Error {
    /// The key is of another kind than Ed25519.
    UnsupportedKeyType,
    /// The public key is no curve point, or is the identity point.
    InvalidKey,
    /// The text is no OpenSSH private key.
    InvalidFormat,
}

/// What an OpenSSH private key holds, as far as the derivation reads it.
#[derive(Debug, Clone, Copy, PartialEq, Eq)]
pub enum KeypairData {
    Ed25519 { public: [u8; 32], private: [u8; 32] },
    Other,
}

/// A parsed OpenSSH private key.
#[derive(Debug, Clone, Copy, PartialEq, Eq)]
pub struct PrivateKey {
    pub key_data: KeypairData,
}

/// What a decompressed Edwards point is to the derivation: whether it is the
/// identity, and the u-coordinate of its Montgomery form.
#[derive(Debug, Clone, Copy, PartialEq, Eq)]
pub struct EdwardsPoint {
    pub is_identity: bool,
    pub montgomery: [u8; 32],
}

/// The key data of the OpenSSH private key that `pem` is, if it is one.
pub uninterp spec fn openssh_key_data(pem: Seq<u8>) -> Option<KeypairData>;

/// `ssh_key::PrivateKey::from_openssh`, with the key data of an Ed25519 key
/// copied out: its public key and its 32-byte seed. Every other kind of key
/// data is `Other`. The result depends on `pem` alone.
#[verifier::external_body]
fn parse_openssh(pem: &[u8]) -> (key: Option<PrivateKey>)
    ensures
        match key {
            Some(key) => openssh_key_data(pem@) == Some(key.key_data),
            None => openssh_key_data(pem@).is_none(),
        },
{
    let key = ssh_key::PrivateKey::from_openssh(pem).ok()?;
    let key_data = match key.key_data() {
        ssh_key::private::KeypairData::Ed25519(pair) => KeypairData::Ed25519 {
            public: pair.public.0,
            private: pair.private.to_bytes(),
        },
        _ => KeypairData::Other,
    };
    Some(PrivateKey { key_data })
}

impl PrivateKey {
    /// Parses an OpenSSH private key.
    pub fn from_openssh(pem: &[u8]) -> (key: Result<PrivateKey, Error>)
        ensures
            match key {
                Ok(key) => openssh_key_data(pem@) == Some(key.key_data),
                Err(error) => openssh_key_data(pem@).is_none() && error == Error::InvalidFormat,
            },
    {
        match parse_openssh(pem) {
            Some(key) => Ok(key),
            None => Err(Error::InvalidFormat),
        }
    }
}

/// The SHA-512 digest of `data`, 64 bytes.
pub uninterp spec fn sha512(data: Seq<u8>) -> Seq<u8>;

/// `sha2::Sha512::digest`: the 64 bytes of the digest, which depend on
/// `data` alone.
#[verifier::external_body]
fn sha512_digest(data: &[u8]) -> (digest: [u8; 64])
    ensures
        digest@ == sha512(data@),
{
    sha2::Sha512::digest(data).into()
}

/// The point that the 32 bytes `key` are the Edwards-y encoding of, if they
/// are that of a curve point.
pub uninterp spec fn edwards_decompressed(key: Seq<u8>) -> Option<EdwardsPoint>;

/// `decompress` of `curve25519_dalek::edwards::CompressedEdwardsY`, and of
/// the point that comes out `is_identity` and the bytes of `to_montgomery`.
/// The result depends on `key` alone.
#[verifier::external_body]
fn decompress(key: &[u8; 32]) -> (point: Option<EdwardsPoint>)
    ensures
        point == edwards_decompressed(key@),
{
    let point = CompressedEdwardsY(*key).decompress()?;
    Some(EdwardsPoint { is_identity: point.is_identity(), montgomery: point.to_montgomery().0 })
}

/// The bech32 text, in lower case, of `data` under the prefix `hrp`, where
/// the prefix is admissible and the text not too long.
pub uninterp spec fn bech32_lower(hrp: Seq<char>, data: Seq<u8>) -> Option<Seq<char>>;

/// The same text in upper case.
pub uninterp spec fn bech32_upper(hrp: Seq<char>, data: Seq<u8>) -> Option<Seq<char>>;

/// `bech32::encode` with the checksum `Bech32`, the prefix being parsed by
/// `bech32::Hrp::parse`. The result depends on the arguments alone.
#[verifier::external_body]
fn bech32_encode(hrp: &str, data: &[u8]) -> (text: Option<String>)
    ensures
        text.deep_view() == bech32_lower(hrp@, data@),
{
    bech32::encode::<bech32::Bech32>(bech32::Hrp::parse(hrp).ok()?, data).ok()
}

/// `bech32::encode_upper` with the checksum `Bech32`, the prefix being
/// parsed by `bech32::Hrp::parse`. The result depends on the arguments alone.
#[verifier::external_body]
fn bech32_encode_upper(hrp: &str, data: &[u8]) -> (text: Option<String>)
    ensures
        text.deep_view() == bech32_upper(hrp@, data@),
{
    bech32::encode_upper::<bech32::Bech32>(bech32::Hrp::parse(hrp).ok()?, data).ok()
}

/// The X25519 scalar of an Ed25519 seed: the first half of its SHA-512
/// digest, as it is, without clamping.
pub open spec fn curve25519_scalar(seed: Seq<u8>) -> Seq<u8> {
    sha512(seed).take(32)
}

/// The age secret key of an Ed25519 seed.
pub open spec fn age_secret(seed: Seq<u8>) -> Result<Seq<char>, Error> {
    match bech32_upper("AGE-SECRET-KEY-"@, curve25519_scalar(seed)) {
        Some(text) => Ok(text),
        None => Err(Error::InvalidKey),
    }
}

/// The Montgomery u-coordinate of an Ed25519 public key; the identity point
/// and what is no point at all are refused.
pub open spec fn curve25519_point(public: Seq<u8>) -> Result<Seq<u8>, Error> {
    match edwards_decompressed(public) {
        Some(point) => if point.is_identity {
            Err(Error::InvalidKey)
        } else {
            Ok(point.montgomery@)
        },
        None => Err(Error::InvalidKey),
    }
}

/// The age recipient of an Ed25519 public key.
pub open spec fn age_recipient(public: Seq<u8>) -> Result<Seq<char>, Error> {
    match curve25519_point(public) {
        Ok(point) => match bech32_lower("age"@, point) {
            Some(text) => Ok(text),
            None => Err(Error::InvalidKey),
        },
        Err(error) => Err(error),
    }
}

/// The recipient and the secret key that a private key gives.
pub open spec fn age_key(key: KeypairData) -> Result<(Seq<char>, Seq<char>), Error> {
    match key {
        KeypairData::Ed25519 { public, private } => match age_recipient(public@) {
            Ok(recipient) => match age_secret(private@) {
                Ok(secret) => Ok((recipient, secret)),
                Err(error) => Err(error),
            },
            Err(error) => Err(error),
        },
        KeypairData::Other => Err(Error::UnsupportedKeyType),
    }
}

/// What a derived identity holds, as a mathematical value.
pub open spec fn identity_of(key: Result<AgeKey, Error>) -> Result<(Seq<char>, Seq<char>), Error> {
    match key {
        Ok(key) => Ok((key.public_key@, key.private_key@)),
        Err(error) => Err(error),
    }
}

/// A text, or the error in its place, as a mathematical value.
pub open spec fn text_result(text: Result<String, Error>) -> Result<Seq<char>, Error> {
    match text {
        Ok(text) => Ok(text@),
        Err(error) => Err(error),
    }
}

/// A key, or the error in its place, as a mathematical value.
pub open spec fn key_result(key: Result<[u8; 32], Error>) -> Result<Seq<u8>, Error> {
    match key {
        Ok(key) => Ok(key@),
        Err(error) => Err(error),
    }
}

/// The X25519 scalar of an Ed25519 seed.
pub fn ed25519_private_key_to_curve25519(seed: &[u8; 32]) -> (scalar: [u8; 32])
    ensures
        scalar@ == curve25519_scalar(seed@),
{
    let digest = sha512_digest(seed.as_slice());
    let mut scalar = [0u8; 32];
    let mut i: usize = 0;
    while i < 32
        invariant
            i <= 32,
            forall|j: int| 0 <= j < i ==> scalar@[j] == digest@[j],
        decreases 32 - i,
    {
        scalar[i] = digest[i];
        i += 1;
    }
    assert(scalar@ =~= digest@.take(32));
    scalar
}

/// Takes a decompressed point for the Montgomery form of a public key,
/// unless it is the identity.
pub fn montgomery_of(point: Option<EdwardsPoint>) -> (u: Result<[u8; 32], Error>)
    ensures
        key_result(u) == match point {
            Some(point) => if point.is_identity {
                Err(Error::InvalidKey)
            } else {
                Ok(point.montgomery@)
            },
            None => Err(Error::InvalidKey),
        },
{
    match point {
        Some(point) => {
            if point.is_identity {
                Err(Error::InvalidKey)
            } else {
                Ok(point.montgomery)
            }
        },
        None => Err(Error::InvalidKey),
    }
}

/// The Montgomery u-coordinate of an Ed25519 public key.
pub fn ed25519_public_key_to_curve25519(public: &[u8; 32]) -> (u: Result<[u8; 32], Error>)
    ensures
        key_result(u) == curve25519_point(public@),
{
    montgomery_of(decompress(public))
}

/// The age recipient of an Ed25519 public key.
pub fn encode_public_key(public: &[u8; 32]) -> (recipient: Result<String, Error>)
    ensures
        text_result(recipient) == age_recipient(public@),
{
    let point = ed25519_public_key_to_curve25519(public)?;
    match bech32_encode("age", point.as_slice()) {
        Some(text) => Ok(text),
        None => Err(Error::InvalidKey),
    }
}

/// The age recipient of the public key of an SSH key.
pub fn ssh_public_key_to_age(public: &[u8; 32]) -> (recipient: Result<String, Error>)
    ensures
        text_result(recipient) == age_recipient(public@),
{
    encode_public_key(public)
}

/// The age secret key of the seed of an SSH key.
pub fn ssh_private_key_to_age(seed: &[u8; 32]) -> (secret: Result<String, Error>)
    ensures
        text_result(secret) == age_secret(seed@),
{
    let scalar = ed25519_private_key_to_curve25519(seed);
    match bech32_encode_upper("AGE-SECRET-KEY-", scalar.as_slice()) {
        Some(text) => Ok(text),
        None => Err(Error::InvalidKey),
    }
}

impl AgeKey {
    /// Derives the age identity of an OpenSSH private key.
    pub fn try_from(key: PrivateKey) -> (derived: Result<AgeKey, Error>)
        ensures
            identity_of(derived) == age_key(key.key_data),
    {
        match key.key_data {
            KeypairData::Ed25519 { public, private } => {
                let public_key = ssh_public_key_to_age(&public)?;
                let private_key = ssh_private_key_to_age(&private)?;
                Ok(AgeKey { public_key, private_key })
            },
            KeypairData::Other => Err(Error::UnsupportedKeyType),
        }
    }
}

/// The derivation is a function of the key: whatever two runs on the same
/// key return, they return the same recipient and the same secret, or the
/// same error.
pub proof fn lemma_derivation_is_deterministic(
    key: PrivateKey,
    first: Result<AgeKey, Error>,
    second: Result<AgeKey, Error>,
)
    requires
        identity_of(first) == age_key(key.key_data),
        identity_of(second) == age_key(key.key_data),
    ensures
        identity_of(first) == identity_of(second),
{
}

} // verus!
