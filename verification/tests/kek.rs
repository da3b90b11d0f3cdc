use std::io::Write;

use age::secrecy::ExposeSecret;
use secnix::enc::age::{data_key_of, decrypt_kek, get_public_keys, AgeFailure, Error};

fn wrap(recipients: &[&age::x25519::Identity], plaintext: &[u8]) -> String {
    let recipients = recipients
        .iter()
        .map(|identity| Box::new(identity.to_public()) as Box<dyn age::Recipient + Send>)
        .collect();
    let encryptor = age::Encryptor::with_recipients(recipients).unwrap();
    let armor =
        age::armor::ArmoredWriter::wrap_output(Vec::new(), age::armor::Format::AsciiArmor)
            .unwrap();
    let mut writer = encryptor.wrap_output(armor).unwrap();
    writer.write_all(plaintext).unwrap();
    String::from_utf8(writer.finish().unwrap().finish().unwrap()).unwrap()
}

fn identity_file(identities: &[&age::x25519::Identity]) -> String {
    let mut text = String::new();
    for identity in identities {
        text.push_str(&format!("# {}\n", identity.to_public()));
        text.push_str(&format!("{}\n", identity.to_string().expose_secret()));
    }
    text
}

#[test]
fn unwraps_the_data_key() {
    let identity = age::x25519::Identity::generate();
    let key: Vec<u8> = (100u8..132).collect();
    let armored = wrap(&[&identity], &key);
    assert!(armored.starts_with("-----BEGIN AGE ENCRYPTED FILE-----"));
    let found = decrypt_kek(&armored, &identity_file(&[&identity])).unwrap();
    assert_eq!(found.to_vec(), key);
}

#[test]
fn unwraps_with_any_identity_of_the_file() {
    let first = age::x25519::Identity::generate();
    let second = age::x25519::Identity::generate();
    let armored = wrap(&[&second], &[9u8; 32]);
    assert_eq!(decrypt_kek(&armored, &identity_file(&[&first, &second])).unwrap(), [9u8; 32]);
}

#[test]
fn a_key_of_another_length_is_refused() {
    let identity = age::x25519::Identity::generate();
    let keyfile = identity_file(&[&identity]);
    for length in [0usize, 16, 31, 33, 64] {
        let armored = wrap(&[&identity], &vec![1u8; length]);
        assert_eq!(decrypt_kek(&armored, &keyfile).unwrap_err(), Error::InvalidKeyLength);
    }
}

#[test]
fn a_foreign_identity_does_not_unwrap() {
    let owner = age::x25519::Identity::generate();
    let stranger = age::x25519::Identity::generate();
    let armored = wrap(&[&owner], &[9u8; 32]);
    assert_eq!(
        decrypt_kek(&armored, &identity_file(&[&stranger])).unwrap_err(),
        Error::DecryptionError
    );
    assert_eq!(decrypt_kek(&armored, "").unwrap_err(), Error::DecryptionError);
}

#[test]
fn what_is_no_age_file_does_not_unwrap() {
    let identity = age::x25519::Identity::generate();
    let keyfile = identity_file(&[&identity]);
    assert_eq!(decrypt_kek("", &keyfile).unwrap_err(), Error::DecryptionError);
    assert_eq!(decrypt_kek("not armored", &keyfile).unwrap_err(), Error::DecryptionError);
    let armored = wrap(&[&identity], &[9u8; 32]);
    let cut = &armored[..armored.len() / 2];
    assert_eq!(decrypt_kek(cut, &keyfile).unwrap_err(), Error::DecryptionError);
}

#[test]
fn a_passphrase_file_is_refused() {
    let identity = age::x25519::Identity::generate();
    let encryptor =
        age::Encryptor::with_user_passphrase(age::secrecy::SecretString::new("pw".to_string()));
    let armor =
        age::armor::ArmoredWriter::wrap_output(Vec::new(), age::armor::Format::AsciiArmor)
            .unwrap();
    let mut writer = encryptor.wrap_output(armor).unwrap();
    writer.write_all(&[9u8; 32]).unwrap();
    let armored = String::from_utf8(writer.finish().unwrap().finish().unwrap()).unwrap();
    assert_eq!(
        decrypt_kek(&armored, &identity_file(&[&identity])).unwrap_err(),
        Error::InvalidKeyFile
    );
    // The kind of file is looked at before the identities are.
    assert_eq!(decrypt_kek(&armored, "no identity").unwrap_err(), Error::InvalidKeyFile);
}

#[test]
fn an_identity_file_with_other_lines_is_refused() {
    let identity = age::x25519::Identity::generate();
    let armored = wrap(&[&identity], &[9u8; 32]);
    let keyfile = format!("{}garbage\n", identity_file(&[&identity]));
    assert_eq!(decrypt_kek(&armored, &keyfile).unwrap_err(), Error::InvalidIdentities);
    assert_eq!(get_public_keys(&keyfile).unwrap_err(), Error::InvalidIdentities);
}

#[test]
fn lists_the_recipients_of_an_identity_file() {
    let first = age::x25519::Identity::generate();
    let second = age::x25519::Identity::generate();
    let keyfile = identity_file(&[&first, &second]);
    assert_eq!(
        get_public_keys(&keyfile).unwrap(),
        vec![first.to_public().to_string(), second.to_public().to_string()]
    );
    assert_eq!(get_public_keys("").unwrap(), Vec::<String>::new());
    assert_eq!(get_public_keys("# only a comment\n\n").unwrap(), Vec::<String>::new());
}

#[test]
fn reads_a_known_identity() {
    let keyfile = "AGE-SECRET-KEY-1GQ9778VQXMMJVE8SK7J6VT8UJ4HDQAJUVSFCWCM02D8GEWQ72PVQ2Y5J33\n";
    assert_eq!(
        get_public_keys(keyfile).unwrap(),
        vec!["age1t7rxyev2z3rw82stdlrrepyc39nvn86l5078zqkf5uasdy86jp6svpy7pa".to_string()]
    );
}

#[test]
fn only_thirty_two_bytes_are_a_data_key() {
    assert_eq!(data_key_of(Ok(vec![3u8; 32])).unwrap(), [3u8; 32]);
    assert_eq!(data_key_of(Ok(vec![3u8; 31])).unwrap_err(), Error::InvalidKeyLength);
    assert_eq!(data_key_of(Ok(vec![3u8; 33])).unwrap_err(), Error::InvalidKeyLength);
    assert_eq!(data_key_of(Ok(Vec::new())).unwrap_err(), Error::InvalidKeyLength);
}

#[test]
fn the_failures_of_age_are_told_apart() {
    assert_eq!(data_key_of(Err(AgeFailure::Passphrase)).unwrap_err(), Error::InvalidKeyFile);
    assert_eq!(data_key_of(Err(AgeFailure::Identities)).unwrap_err(), Error::InvalidIdentities);
    assert_eq!(data_key_of(Err(AgeFailure::Header)).unwrap_err(), Error::DecryptionError);
    assert_eq!(data_key_of(Err(AgeFailure::FileKey)).unwrap_err(), Error::DecryptionError);
    assert_eq!(data_key_of(Err(AgeFailure::Payload)).unwrap_err(), Error::DecryptionError);
}
