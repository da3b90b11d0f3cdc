use secnix::enc::age::get_public_keys;
use secnix::ssh::{
    ed25519_private_key_to_curve25519, ed25519_public_key_to_curve25519, encode_public_key,
    montgomery_of, ssh_private_key_to_age, ssh_public_key_to_age, AgeKey, EdwardsPoint, Error,
    KeypairData, PrivateKey,
};
use sha2::Digest;
use ssh_key::private::{Ed25519Keypair, KeypairData as SshKeypairData, OpaqueKeypair};
use ssh_key::public::OpaquePublicKey;
use ssh_key::{Algorithm, AlgorithmName};
use ssh_key::LineEnding;

fn openssh(seed: &[u8; 32]) -> String {
    let pair = Ed25519Keypair::from_seed(seed);
    let key = ssh_key::PrivateKey::new(SshKeypairData::Ed25519(pair), "test").unwrap();
    key.to_openssh(LineEnding::LF).unwrap().to_string()
}

fn public_of(seed: &[u8; 32]) -> [u8; 32] {
    Ed25519Keypair::from_seed(seed).public.0
}

#[test]
fn parses_an_openssh_key() {
    let seed = [5u8; 32];
    let key = PrivateKey::from_openssh(openssh(&seed).as_bytes()).unwrap();
    match key.key_data {
        KeypairData::Ed25519 { public, private } => {
            assert_eq!(private, seed);
            assert_eq!(public, public_of(&seed));
        }
        KeypairData::Other => panic!("not an Ed25519 key"),
    }
}

#[test]
fn what_is_no_key_is_refused() {
    assert_eq!(PrivateKey::from_openssh(b"").unwrap_err(), Error::InvalidFormat);
    assert_eq!(PrivateKey::from_openssh(b"ssh-ed25519 AAAA").unwrap_err(), Error::InvalidFormat);
    let text = openssh(&[5u8; 32]);
    assert_eq!(
        PrivateKey::from_openssh(text[..text.len() / 2].as_bytes()).unwrap_err(),
        Error::InvalidFormat
    );
}

#[test]
fn a_key_of_another_kind_is_unsupported() {
    let key = PrivateKey { key_data: KeypairData::Other };
    assert_eq!(AgeKey::try_from(key).unwrap_err(), Error::UnsupportedKeyType);
}

#[test]
fn the_scalar_is_the_first_half_of_the_digest() {
    let seed = [5u8; 32];
    let digest = sha2::Sha512::digest(seed);
    let scalar = ed25519_private_key_to_curve25519(&seed);
    assert_eq!(&scalar[..], &digest[..32]);
    // Nothing is clamped: the bits that X25519 clears and sets stay.
    let mut clamped = scalar;
    clamped[0] &= 248;
    clamped[31] &= 127;
    clamped[31] |= 64;
    let seeds = (0u8..64).map(|byte| [byte; 32]);
    assert!(seeds
        .map(|seed| {
            let scalar = ed25519_private_key_to_curve25519(&seed);
            scalar[0] & 7 != 0 || scalar[31] & 128 != 0 || scalar[31] & 64 == 0
        })
        .any(|unclamped| unclamped));
    assert_eq!(clamped[0] & 7, 0);
}

#[test]
fn the_identity_is_written_as_age_writes_it() {
    let seed = [5u8; 32];
    let key = AgeKey::try_from(PrivateKey::from_openssh(openssh(&seed).as_bytes()).unwrap())
        .unwrap();
    assert!(key.public_key.starts_with("age1"));
    assert_eq!(key.public_key, key.public_key.to_lowercase());
    assert!(key.private_key.starts_with("AGE-SECRET-KEY-1"));
    assert_eq!(key.private_key, key.private_key.to_uppercase());
    assert_eq!(key.public_key, ssh_public_key_to_age(&public_of(&seed)).unwrap());
    assert_eq!(key.public_key, encode_public_key(&public_of(&seed)).unwrap());
    assert_eq!(key.private_key, ssh_private_key_to_age(&seed).unwrap());
}

#[test]
fn the_recipient_belongs_to_the_secret() {
    // age works the recipient out from the secret key alone; it has to be
    // the one that was derived from the public key.
    for byte in [0u8, 1, 5, 77, 200, 255] {
        let seed = [byte; 32];
        let key = AgeKey::try_from(PrivateKey::from_openssh(openssh(&seed).as_bytes()).unwrap())
            .unwrap();
        let keyfile = format!("# {}\n{}\n", key.public_key, key.private_key);
        assert_eq!(get_public_keys(&keyfile).unwrap(), vec![key.public_key.clone()]);
    }
}

#[test]
fn the_derivation_is_deterministic() {
    let text = openssh(&[42u8; 32]);
    let first = AgeKey::try_from(PrivateKey::from_openssh(text.as_bytes()).unwrap()).unwrap();
    let second = AgeKey::try_from(PrivateKey::from_openssh(text.as_bytes()).unwrap()).unwrap();
    assert_eq!(first.public_key, second.public_key);
    assert_eq!(first.private_key, second.private_key);
    let other =
        AgeKey::try_from(PrivateKey::from_openssh(openssh(&[43u8; 32]).as_bytes()).unwrap())
            .unwrap();
    assert_ne!(first.public_key, other.public_key);
    assert_ne!(first.private_key, other.private_key);
}

#[test]
fn the_identity_point_is_refused() {
    let mut identity = [0u8; 32];
    identity[0] = 1;
    assert_eq!(ed25519_public_key_to_curve25519(&identity).unwrap_err(), Error::InvalidKey);
    assert_eq!(ssh_public_key_to_age(&identity).unwrap_err(), Error::InvalidKey);
    let key = PrivateKey {
        key_data: KeypairData::Ed25519 { public: identity, private: [5u8; 32] },
    };
    assert_eq!(AgeKey::try_from(key).unwrap_err(), Error::InvalidKey);
}

#[test]
fn what_is_no_point_is_refused() {
    // y = 2 is not the coordinate of a point of the curve.
    let mut bytes = [0u8; 32];
    bytes[0] = 2;
    assert_eq!(ed25519_public_key_to_curve25519(&bytes).unwrap_err(), Error::InvalidKey);
}

#[test]
fn the_base_point_becomes_nine() {
    // The Edwards base point has y = 4/5; its Montgomery form is u = 9.
    let mut base = [0x66u8; 32];
    base[0] = 0x58;
    let mut nine = [0u8; 32];
    nine[0] = 9;
    assert_eq!(ed25519_public_key_to_curve25519(&base).unwrap(), nine);
}

#[test]
fn a_point_is_taken_unless_it_is_the_identity() {
    let point = EdwardsPoint { is_identity: false, montgomery: [9u8; 32] };
    assert_eq!(montgomery_of(Some(point)).unwrap(), [9u8; 32]);
    let point = EdwardsPoint { is_identity: true, montgomery: [0u8; 32] };
    assert_eq!(montgomery_of(Some(point)).unwrap_err(), Error::InvalidKey);
    assert_eq!(montgomery_of(None).unwrap_err(), Error::InvalidKey);
}

#[test]
fn a_parsed_key_of_another_kind_is_unsupported() {
    let name = AlgorithmName::new("custom@example.com").unwrap();
    let public = OpaquePublicKey::new(vec![1, 2, 3, 4], Algorithm::Other(name));
    let pair = OpaqueKeypair::new(vec![5, 6, 7, 8], public);
    let key = ssh_key::PrivateKey::new(SshKeypairData::Other(pair), "test").unwrap();
    let text = key.to_openssh(LineEnding::LF).unwrap().to_string();
    let parsed = PrivateKey::from_openssh(text.as_bytes()).unwrap();
    assert_eq!(parsed.key_data, KeypairData::Other);
    assert_eq!(AgeKey::try_from(parsed).unwrap_err(), Error::UnsupportedKeyType);
}
