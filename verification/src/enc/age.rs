//! Unwrapping the data key with age identities, and opening single values
//! with it.

use vstd::prelude::*;
use vstd::utf8::{decode_utf8, encode_utf8, valid_utf8};
use aes_gcm::aead::consts::U32;
use aes_gcm::aead::{Aead, KeyInit, Payload};
use aes_gcm::aes::Aes256;
use aes_gcm::{AesGcm, Key, Nonce};
use age::armor::ArmoredReader;
use age::{Decryptor, Identity, IdentityFile, IdentityFileEntry};
use std::io::Read;
use crate::enc::envelope::{parsed, Aes256GcmData, Aes256GcmType, ParseError};
use crate::number::{decimal_i64, is_float, is_float_text, parse_i64};
use crate::text::{bytes_of, join, joined, range_is, to_chars};

verus! {

/// Why a value could not be decrypted.
#[derive(Debug, Clone, Copy, PartialEq, Eq, Structural)]
pub enum Error {
    /// The wrapped key is protected by a passphrase, not by recipients.
    InvalidKeyFile,
    /// age could not unwrap the key with the identities at hand.
    DecryptionError,
    /// The identity file holds a line that is no identity.
    InvalidIdentities,
    /// The unwrapped key is not 32 bytes long.
    InvalidKeyLength,
    /// The value is not a well-formed envelope.
    InvalidEnvelope(ParseError),
    /// The nonce of the envelope is not 32 bytes long.
    InvalidNonce,
    /// The authentication tag does not match.
    AeadFailure,
    /// The plaintext is not UTF-8 where its type asks for text.
    InvalidUtf8,
    /// The plaintext does not read as a value of its type.
    TypedDecodeFailure,
    /// The envelope names a type that is not known.
    UnknownType,
}

/// A decrypted value, by the type its envelope announced.
#[derive(Debug, PartialEq, Eq)]
pub enum DecryptedValue {
    String(String),
    Int(i64),
    /// A floating-point number, kept as the text that writes it.
    Float(String),
    Bytes(Vec<u8>),
    Bool(bool),
    Comment(()),
}

/// A decrypted value as a mathematical value.
pub enum Plain {
    String(Seq<char>),
    Int(i64),
    Float(Seq<char>),
    Bytes(Seq<u8>),
    Bool(bool),
    Comment,
}

impl View for DecryptedValue {
    type V = Plain;

    open spec fn view(&self) -> Plain {
        match self {
            DecryptedValue::String(text) => Plain::String(text@),
            DecryptedValue::Int(number) => Plain::Int(*number),
            DecryptedValue::Float(text) => Plain::Float(text@),
            DecryptedValue::Bytes(bytes) => Plain::Bytes(bytes@),
            DecryptedValue::Bool(flag) => Plain::Bool(*flag),
            DecryptedValue::Comment(_) => Plain::Comment,
        }
    }
}

/// What a result holds, as a mathematical value.
pub open spec fn plain_of(value: Result<DecryptedValue, Error>) -> Result<Plain, Error> {
    match value {
        Ok(value) => Ok(value@),
        Err(error) => Err(error),
    }
}

/// The text that a plaintext of the types stored as text must be.
pub open spec fn text_of(plaintext: Seq<u8>) -> Result<Seq<char>, Error> {
    if valid_utf8(plaintext) {
        Ok(decode_utf8(plaintext))
    } else {
        Err(Error::InvalidUtf8)
    }
}

/// The value that a plaintext stands for under the type of its envelope.
pub open spec fn decoded(plaintext: Seq<u8>, data_type: Aes256GcmType) -> Result<Plain, Error> {
    match data_type {
        Aes256GcmType::Bytes => Ok(Plain::Bytes(plaintext)),
        Aes256GcmType::Comment => Ok(Plain::Comment),
        Aes256GcmType::Unknown => Err(Error::UnknownType),
        Aes256GcmType::String => match text_of(plaintext) {
            Ok(text) => Ok(Plain::String(text)),
            Err(error) => Err(error),
        },
        Aes256GcmType::Float => match text_of(plaintext) {
            Ok(text) => if is_float(text) {
                Ok(Plain::Float(text))
            } else {
                Err(Error::TypedDecodeFailure)
            },
            Err(error) => Err(error),
        },
        Aes256GcmType::Int => match text_of(plaintext) {
            Ok(text) => match decimal_i64(text) {
                Some(number) => Ok(Plain::Int(number)),
                None => Err(Error::TypedDecodeFailure),
            },
            Err(error) => Err(error),
        },
        Aes256GcmType::Bool => match text_of(plaintext) {
            Ok(text) => if text == "true"@ {
                Ok(Plain::Bool(true))
            } else if text == "false"@ {
                Ok(Plain::Bool(false))
            } else {
                Err(Error::TypedDecodeFailure)
            },
            Err(error) => Err(error),
        },
    }
}

/// `String::from_utf8` of std: the text that `bytes` encode where they are
/// valid UTF-8, and nothing where they are not.
#[verifier::external_body]
fn string_from_utf8(bytes: Vec<u8>) -> (text: Option<String>)
    ensures
        match text {
            Some(text) => valid_utf8(bytes@) && text@ == decode_utf8(bytes@),
            None => !valid_utf8(bytes@),
        },
{
    match String::from_utf8(bytes) {
        Ok(text) => Some(text),
        Err(_) => None,
    }
}

/// Reads a plaintext as a value of the type that its envelope announced.
pub fn decode(plaintext: Vec<u8>, data_type: Aes256GcmType) -> (value: Result<
    DecryptedValue,
    Error,
>)
    ensures
        plain_of(value) == decoded(plaintext@, data_type),
{
    match data_type {
        Aes256GcmType::Bytes => Ok(DecryptedValue::Bytes(plaintext)),
        Aes256GcmType::Comment => Ok(DecryptedValue::Comment(())),
        Aes256GcmType::Unknown => Err(Error::UnknownType),
        Aes256GcmType::String => match string_from_utf8(plaintext) {
            Some(text) => Ok(DecryptedValue::String(text)),
            None => Err(Error::InvalidUtf8),
        },
        Aes256GcmType::Float => match string_from_utf8(plaintext) {
            Some(text) => {
                if is_float_text(to_chars(text.as_str()).as_slice()) {
                    Ok(DecryptedValue::Float(text))
                } else {
                    Err(Error::TypedDecodeFailure)
                }
            },
            None => Err(Error::InvalidUtf8),
        },
        Aes256GcmType::Int => match string_from_utf8(plaintext) {
            Some(text) => match parse_i64(to_chars(text.as_str()).as_slice()) {
                Some(number) => Ok(DecryptedValue::Int(number)),
                None => Err(Error::TypedDecodeFailure),
            },
            None => Err(Error::InvalidUtf8),
        },
        Aes256GcmType::Bool => match string_from_utf8(plaintext) {
            Some(text) => {
                let chars = to_chars(text.as_str());
                let n = chars.len();
                assert(chars@.subrange(0, n as int) =~= chars@);
                if range_is(chars.as_slice(), 0, n, to_chars("true").as_slice()) {
                    Ok(DecryptedValue::Bool(true))
                } else if range_is(chars.as_slice(), 0, n, to_chars("false").as_slice()) {
                    Ok(DecryptedValue::Bool(false))
                } else {
                    Err(Error::TypedDecodeFailure)
                }
            },
            None => Err(Error::InvalidUtf8),
        },
    }
}

/// What AES-256-GCM with a 32-byte nonce and a 16-byte tag recovers from
/// `sealed`, the ciphertext followed by its tag, under `key`, `nonce` and the
/// associated data `aad`; nothing where the tag does not match.
pub uninterp spec fn aes256_gcm_opened(
    key: Seq<u8>,
    nonce: Seq<u8>,
    aad: Seq<u8>,
    sealed: Seq<u8>,
) -> Option<Seq<u8>>;

/// `decrypt` of `aes_gcm::AesGcm<Aes256, U32>`: the plaintext where the tag
/// at the end of `sealed` authenticates ciphertext and associated data, and
/// nothing where it does not. The nonce has to be 32 bytes long: with
/// another length the crate panics.
#[verifier::external_body]
fn aes256_gcm_open(key: &[u8; 32], nonce: &[u8], aad: &[u8], sealed: &[u8]) -> (plaintext: Option<
    Vec<u8>,
>)
    requires
        nonce@.len() == 32,
    ensures
        bytes_of(plaintext) == aes256_gcm_opened(key@, nonce@, aad@, sealed@),
{
    let cipher = AesGcm::<Aes256, U32>::new(Key::<AesGcm<Aes256, U32>>::from_slice(key));
    match cipher.decrypt(Nonce::from_slice(nonce), Payload { msg: sealed, aad }) {
        Ok(plaintext) => Some(plaintext),
        Err(_) => None,
    }
}

/// The associated data under which the value at `path` is sealed: the
/// components of the path, joined by colons, and one more colon.
pub open spec fn associated_data(path: Seq<Seq<char>>) -> Seq<char> {
    joined(path, ":"@) + ":"@
}

/// The associated data under which the value at `path` is sealed.
pub fn associated_data_of(path: &Vec<String>) -> (aad: String)
    ensures
        aad@ == associated_data(path.deep_view()),
{
    let mut aad = join(path, ":");
    aad.append(":");
    aad
}

/// The value that the cipher recovered, read by the type `data_type`; a
/// failed tag where it recovered nothing.
pub open spec fn opened(data_type: Aes256GcmType, recovered: Option<Seq<u8>>) -> Result<
    Plain,
    Error,
> {
    match recovered {
        Some(plaintext) => decoded(plaintext, data_type),
        None => Err(Error::AeadFailure),
    }
}

/// What decrypting the envelope `data` gives under `key` at `path`: the
/// envelope has to parse and to have a nonce of 32 bytes; the cipher opens
/// the data followed by the tag, with the path as associated data; and what
/// it recovers is read by the type of the envelope.
pub open spec fn decrypted(data: Seq<char>, key: Seq<u8>, path: Seq<Seq<char>>) -> Result<
    Plain,
    Error,
> {
    match parsed(data) {
        Err(error) => Err(Error::InvalidEnvelope(error)),
        Ok(envelope) => if envelope.iv.len() != 32 {
            Err(Error::InvalidNonce)
        } else {
            opened(
                envelope.data_type,
                aes256_gcm_opened(
                    key,
                    envelope.iv,
                    encode_utf8(associated_data(path)),
                    envelope.data + envelope.tag,
                ),
            )
        },
    }
}

/// Reads what the cipher recovered as a value of the envelope's type.
pub fn open(data_type: Aes256GcmType, recovered: Option<Vec<u8>>) -> (value: Result<
    DecryptedValue,
    Error,
>)
    ensures
        plain_of(value) == opened(data_type, bytes_of(recovered)),
{
    match recovered {
        Some(plaintext) => decode(plaintext, data_type),
        None => Err(Error::AeadFailure),
    }
}

/// Decrypts one envelope with the data key, the path of the value serving
/// as associated data.
pub fn decrypt(data: String, key: &[u8; 32], path: Vec<String>) -> (value: Result<
    DecryptedValue,
    Error,
>)
    ensures
        plain_of(value) == decrypted(data@, key@, path.deep_view()),
{
    let envelope = match Aes256GcmData::try_from(data.as_str()) {
        Ok(envelope) => envelope,
        Err(error) => return Err(Error::InvalidEnvelope(error)),
    };
    if envelope.iv.len() != 32 {
        return Err(Error::InvalidNonce);
    }
    let aad = associated_data_of(&path);
    let Aes256GcmData { data: mut sealed, iv, tag: mut tag, data_type } = envelope;
    sealed.append(&mut tag);
    let recovered = aes256_gcm_open(
        key,
        iv.as_slice(),
        aad.as_str().as_bytes(),
        sealed.as_slice(),
    );
    open(data_type, recovered)
}

/// How age fails to decrypt a file.
#[derive(Debug, Clone, Copy, PartialEq, Eq, Structural)]
pub enum AgeFailure {
    /// The file is protected by a passphrase.
    Passphrase,
    /// The file is no age file.
    Header,
    /// The list of identities does not parse.
    Identities,
    /// No identity unwraps the file key, or the header is not authentic.
    FileKey,
    /// The payload does not decrypt.
    Payload,
}

/// What age recovers from the armored file `armored` with the identities
/// listed in `identities`, or how it fails.
pub uninterp spec fn age_decrypted(armored: Seq<char>, identities: Seq<char>) -> Result<
    Seq<u8>,
    AgeFailure,
>;

/// Decrypts an armored age file: `age::Decryptor::new` reads the header,
/// `age::IdentityFile::from_buffer` the identities, `decrypt` of the
/// decryptor unwraps the file key, and the stream it gives is read to its
/// end. Each failure names the call that failed, and a decryptor for a
/// passphrase is `Passphrase`. The result depends on the two texts alone.
#[verifier::external_body]
fn age_decrypt(armored: &str, identities: &str) -> (key: Result<Vec<u8>, AgeFailure>)
    ensures
        unwrapped_bytes(key) == age_decrypted(armored@, identities@),
{
    let decryptor = match Decryptor::new(ArmoredReader::new(armored.as_bytes())) {
        Ok(Decryptor::Recipients(decryptor)) => decryptor,
        Ok(Decryptor::Passphrase(_)) => return Err(AgeFailure::Passphrase),
        Err(_) => return Err(AgeFailure::Header),
    };
    let Ok(file) = IdentityFile::from_buffer(identities.as_bytes()) else {
        return Err(AgeFailure::Identities);
    };
    let keys = file.into_identities();
    let keys = keys.iter().map(|IdentityFileEntry::Native(key)| key as &dyn Identity);
    let Ok(mut stream) = decryptor.decrypt(keys) else { return Err(AgeFailure::FileKey) };
    let mut plain = Vec::new();
    stream.read_to_end(&mut plain).map(|_| plain).map_err(|_| AgeFailure::Payload)
}

/// What age handed back, as a mathematical value.
pub open spec fn unwrapped_bytes(unwrapped: Result<Vec<u8>, AgeFailure>) -> Result<
    Seq<u8>,
    AgeFailure,
> {
    match unwrapped {
        Ok(bytes) => Ok(bytes@),
        Err(failure) => Err(failure),
    }
}

/// A key, or the error in its place, as a mathematical value.
pub open spec fn key_bytes(key: Result<[u8; 32], Error>) -> Result<Seq<u8>, Error> {
    match key {
        Ok(key) => Ok(key@),
        Err(error) => Err(error),
    }
}

/// The data key that an unwrapped stanza holds: exactly 32 bytes. A stanza
/// for a passphrase is an invalid key file, identities that do not parse
/// are invalid identities, and every other failure of age is a decryption
/// error.
pub open spec fn data_key(unwrapped: Result<Seq<u8>, AgeFailure>) -> Result<Seq<u8>, Error> {
    match unwrapped {
        Ok(key) => if key.len() == 32 {
            Ok(key)
        } else {
            Err(Error::InvalidKeyLength)
        },
        Err(AgeFailure::Passphrase) => Err(Error::InvalidKeyFile),
        Err(AgeFailure::Identities) => Err(Error::InvalidIdentities),
        Err(_) => Err(Error::DecryptionError),
    }
}

/// Accepts what age recovered as a data key if it is 32 bytes long.
pub fn data_key_of(unwrapped: Result<Vec<u8>, AgeFailure>) -> (key: Result<[u8; 32], Error>)
    ensures
        key_bytes(key) == data_key(unwrapped_bytes(unwrapped)),
{
    let bytes = match unwrapped {
        Ok(bytes) => bytes,
        Err(AgeFailure::Passphrase) => return Err(Error::InvalidKeyFile),
        Err(AgeFailure::Identities) => return Err(Error::InvalidIdentities),
        Err(_) => return Err(Error::DecryptionError),
    };
    if bytes.len() != 32 {
        return Err(Error::InvalidKeyLength);
    }
    let mut key = [0u8; 32];
    let mut i: usize = 0;
    while i < 32
        invariant
            i <= 32,
            bytes@.len() == 32,
            forall|j: int| 0 <= j < i ==> key@[j] == bytes@[j],
        decreases 32 - i,
    {
        key[i] = bytes[i];
        i += 1;
    }
    assert(key@ =~= bytes@);
    Ok(key)
}

/// Recovers the data key of a document from the armored stanza `kek`, with
/// the identities that the identity file `keyfile` lists.
pub fn decrypt_kek(kek: &str, keyfile: &str) -> (key: Result<[u8; 32], Error>)
    ensures
        key_bytes(key) == data_key(age_decrypted(kek@, keyfile@)),
{
    data_key_of(age_decrypt(kek, keyfile))
}

/// The recipients of the identities that the identity file `identities`
/// lists, in the order of the file; nothing where a line is no identity.
pub uninterp spec fn age_recipients(identities: Seq<char>) -> Option<Seq<Seq<char>>>;

/// Reads identities with `age::IdentityFile::from_buffer` and writes the
/// recipient of each, from `age::x25519::Identity::to_public`, as text. The
/// result depends on `identities` alone.
#[verifier::external_body]
fn age_recipients_of(identities: &str) -> (recipients: Option<Vec<String>>)
    ensures
        recipients.deep_view() == age_recipients(identities@),
{
    let file = IdentityFile::from_buffer(identities.as_bytes()).ok()?;
    let keys = file.into_identities();
    Some(keys.iter().map(|IdentityFileEntry::Native(key)| key.to_public().to_string()).collect())
}

/// The recipients to which the identities of the identity file `keyfile`
/// belong.
pub fn get_public_keys(keyfile: &str) -> (recipients: Result<Vec<String>, Error>)
    ensures
        match recipients {
            Ok(recipients) => age_recipients(keyfile@) == Some(recipients.deep_view()),
            Err(error) => age_recipients(keyfile@).is_none() && error == Error::InvalidIdentities,
        },
{
    match age_recipients_of(keyfile) {
        Some(recipients) => Ok(recipients),
        None => Err(Error::InvalidIdentities),
    }
}

} // verus!
