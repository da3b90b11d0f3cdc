use std::io::Write;

use aes_gcm::aead::consts::U32;
use aes_gcm::aead::{Aead, KeyInit, Payload};
use aes_gcm::aes::Aes256;
use aes_gcm::AesGcm;
use age::secrecy::ExposeSecret;
use base64::engine::general_purpose::STANDARD;
use base64::Engine;
use secnix::enc::age::{DecryptedValue, Error as ValueError};
use secnix::sops::{
    decrypt, find_entry, leaf_of, select_recipient, Age, DecryptionError, Entry, Error,
    JsonSopsFile, SopsData, SopsDocument, SopsFile, Value, YamlSopsFile,
};

fn leaf(key: &str, text: &str) -> Entry {
    Entry { key: key.to_string(), value: Value::String(text.to_string()) }
}

fn mapping(key: &str, entries: Vec<Entry>) -> Entry {
    Entry { key: key.to_string(), value: Value::Mapping(entries) }
}

fn other(key: &str) -> Entry {
    Entry { key: key.to_string(), value: Value::Other }
}

fn metadata(age: Vec<Age>) -> SopsData {
    SopsData {
        age,
        last_modified: "2024-01-01T00:00:00Z".to_string(),
        mac: "ENC[AES256_GCM,data:,iv:,tag:,type:str]".to_string(),
        unencrypted_suffix: "_unencrypted".to_string(),
        version: "3.8.1".to_string(),
    }
}

fn tree() -> Vec<Entry> {
    vec![
        leaf("api_token", "A"),
        mapping(
            "db",
            vec![
                mapping("primary", vec![leaf("password", "P"), leaf("user", "U")]),
                leaf("name", "N"),
                other("port"),
                mapping("empty", vec![]),
            ],
        ),
        other("list"),
        leaf("", "E"),
        leaf("api_token", "shadowed"),
    ]
}

fn wrap(identity: &age::x25519::Identity, key: &[u8]) -> String {
    let recipients = vec![Box::new(identity.to_public()) as Box<dyn age::Recipient + Send>];
    let encryptor = age::Encryptor::with_recipients(recipients).unwrap();
    let armor =
        age::armor::ArmoredWriter::wrap_output(Vec::new(), age::armor::Format::AsciiArmor)
            .unwrap();
    let mut writer = encryptor.wrap_output(armor).unwrap();
    writer.write_all(key).unwrap();
    String::from_utf8(writer.finish().unwrap().finish().unwrap()).unwrap()
}

fn stanza(identity: &age::x25519::Identity, key: &[u8]) -> Age {
    Age { recipient: identity.to_public().to_string(), enc: wrap(identity, key) }
}

fn keyfile(identity: &age::x25519::Identity) -> String {
    format!("# {}\n{}\n", identity.to_public(), identity.to_string().expose_secret())
}

fn seal(key: &[u8; 32], aad: &str, plaintext: &[u8], tag: &str) -> String {
    let nonce = [3u8; 32];
    let cipher = AesGcm::<Aes256, U32>::new(key.into());
    let sealed = cipher
        .encrypt((&nonce).into(), Payload { msg: plaintext, aad: aad.as_bytes() })
        .unwrap();
    let (data, mac) = sealed.split_at(sealed.len() - 16);
    format!(
        "ENC[AES256_GCM,data:{},iv:{},tag:{},type:{}]",
        STANDARD.encode(data),
        STANDARD.encode(nonce),
        STANDARD.encode(mac),
        tag
    )
}

#[test]
fn a_leaf_at_the_top_is_found_by_one_component() {
    let entries = tree();
    assert_eq!(leaf_of(&entries, &["api_token"]), Some(&"A".to_string()));
    assert_eq!(leaf_of(&entries, &[""]), Some(&"E".to_string()));
    assert_eq!(leaf_of(&entries, &["api_token", "more"]), None);
    assert_eq!(leaf_of(&entries, &["missing"]), None);
    assert_eq!(leaf_of(&entries, &[]), None);
}

#[test]
fn a_path_walks_down_the_mappings() {
    let entries = tree();
    assert_eq!(leaf_of(&entries, &["db", "primary", "password"]), Some(&"P".to_string()));
    assert_eq!(leaf_of(&entries, &["db", "primary", "user"]), Some(&"U".to_string()));
    assert_eq!(leaf_of(&entries, &["db", "name"]), Some(&"N".to_string()));
    assert_eq!(leaf_of(&entries, &["db"]), None);
    assert_eq!(leaf_of(&entries, &["db", "primary"]), None);
    assert_eq!(leaf_of(&entries, &["db", "primary", "password", "x"]), None);
    assert_eq!(leaf_of(&entries, &["db", "secondary", "password"]), None);
    assert_eq!(leaf_of(&entries, &["db", "empty", "x"]), None);
    assert_eq!(leaf_of(&entries, &["db.primary.password"]), None);
}

#[test]
fn what_is_neither_text_nor_mapping_ends_the_walk() {
    let entries = tree();
    assert_eq!(leaf_of(&entries, &["list"]), None);
    assert_eq!(leaf_of(&entries, &["list", "0"]), None);
    assert_eq!(leaf_of(&entries, &["db", "port"]), None);
    assert_eq!(leaf_of(&entries, &["db", "port", "x"]), None);
}

#[test]
fn the_nodes_answer_for_themselves() {
    assert!(Value::String("x".to_string()).is_leaf());
    assert!(Value::Other.is_leaf());
    assert!(!Value::Mapping(vec![]).is_leaf());
    let text = Value::String("x".to_string());
    assert_eq!(text.get_nested(&[]), Some(&"x".to_string()));
    assert_eq!(text.get_nested(&["a"]), None);
    let node = Value::Mapping(vec![leaf("a", "1"), leaf("a", "2")]);
    assert_eq!(node.get_nested(&["a"]), Some(&"1".to_string()));
    assert_eq!(node.get_nested(&[]), None);
    assert_eq!(Value::Other.get_nested(&[]), None);
    let entries = vec![leaf("a", "1"), other("b")];
    assert!(matches!(find_entry(&entries, "a"), Some(Value::String(text)) if text == "1"));
    assert!(matches!(find_entry(&entries, "b"), Some(Value::Other)));
    assert!(find_entry(&entries, "c").is_none());
}

#[test]
fn both_flavours_answer_alike() {
    let yaml = YamlSopsFile { sops: metadata(vec![]), other: tree() };
    let json = JsonSopsFile { sops: metadata(vec![]), other: tree() };
    assert_eq!(yaml.get_key(&["db", "name"]), Some(&"N".to_string()));
    assert_eq!(json.get_key(&["db", "name"]), Some(&"N".to_string()));
    assert_eq!(yaml.sops_metadata().version, "3.8.1");
    assert_eq!(json.sops_metadata().unencrypted_suffix, "_unencrypted");
    let document = SopsDocument::Json(json);
    assert_eq!(document.get_key(&["api_token"]), Some(&"A".to_string()));
    assert_eq!(document.get_key(&["sops"]), None);
    assert!(document.sops_metadata().age.is_empty());
}

#[test]
fn the_first_stanza_for_an_identity_at_hand_is_chosen() {
    let stanzas = vec![
        Age { recipient: "age1a".to_string(), enc: "first".to_string() },
        Age { recipient: "age1b".to_string(), enc: "second".to_string() },
        Age { recipient: "age1c".to_string(), enc: "third".to_string() },
        Age { recipient: "age1b".to_string(), enc: "fourth".to_string() },
    ];
    let pick = |known: &[&str]| {
        let known: Vec<String> = known.iter().map(|text| text.to_string()).collect();
        select_recipient(&stanzas, &known).map(|stanza| stanza.enc.clone())
    };
    assert_eq!(pick(&["age1b"]), Some("second".to_string()));
    assert_eq!(pick(&["age1c", "age1b"]), Some("second".to_string()));
    assert_eq!(pick(&["age1c", "age1x"]), Some("third".to_string()));
    assert_eq!(pick(&["age1x"]), None);
    assert_eq!(pick(&[]), None);
    assert!(select_recipient(&Vec::new(), &vec!["age1a".to_string()]).is_none());
}

#[test]
fn a_value_is_decrypted_through_the_document() {
    let identity = age::x25519::Identity::generate();
    let key = [11u8; 32];
    let document = YamlSopsFile {
        sops: metadata(vec![stanza(&identity, &key)]),
        other: vec![
            leaf("api_token", &seal(&key, "api_token:", b"s3cr3t", "str")),
            mapping(
                "db",
                vec![mapping(
                    "primary",
                    vec![leaf("password", &seal(&key, "db:primary:password:", b"hunter2", "str"))],
                )],
            ),
            leaf("data", &seal(&key, "data:", &[0, 1, 254, 255], "bytes")),
            leaf("count", &seal(&key, "count:", b"12", "int")),
        ],
    };
    let keyfile = keyfile(&identity);
    match document.decrypt(&["api_token"], &keyfile).unwrap() {
        DecryptedValue::String(text) => assert_eq!(text, "s3cr3t"),
        other => panic!("{:?}", other),
    }
    match document.decrypt(&["db", "primary", "password"], &keyfile).unwrap() {
        DecryptedValue::String(text) => assert_eq!(text, "hunter2"),
        other => panic!("{:?}", other),
    }
    match document.decrypt(&["data"], &keyfile).unwrap() {
        DecryptedValue::Bytes(bytes) => assert_eq!(bytes, vec![0, 1, 254, 255]),
        other => panic!("{:?}", other),
    }
    assert!(matches!(document.decrypt(&["count"], &keyfile).unwrap(), DecryptedValue::Int(12)));
    match document.decrypt(&["db", "primary"], &keyfile).unwrap_err() {
        Error::MissingData(path) => assert_eq!(path, "db.primary"),
        other => panic!("{:?}", other),
    }
    match document.decrypt(&["nothing"], &keyfile).unwrap_err() {
        Error::MissingData(path) => assert_eq!(path, "nothing"),
        other => panic!("{:?}", other),
    }
}

#[test]
fn a_value_moved_to_another_path_does_not_open() {
    let identity = age::x25519::Identity::generate();
    let key = [11u8; 32];
    let sops = metadata(vec![stanza(&identity, &key)]);
    let data = seal(&key, "a:b:", b"x", "str");
    assert!(decrypt(&["a", "b"], &data, &keyfile(&identity), &sops).is_ok());
    assert!(matches!(
        decrypt(&["a", "c"], &data, &keyfile(&identity), &sops).unwrap_err(),
        Error::InvalidValue(ValueError::AeadFailure)
    ));
}

#[test]
fn without_a_stanza_for_the_identity_nothing_is_tried() {
    let owner = age::x25519::Identity::generate();
    let stranger = age::x25519::Identity::generate();
    let key = [11u8; 32];
    let data = seal(&key, "a:", b"x", "str");
    let sops = metadata(vec![stanza(&owner, &key)]);
    assert!(matches!(
        decrypt(&["a"], &data, &keyfile(&stranger), &sops).unwrap_err(),
        Error::DecryptionError(DecryptionError::NoRecipients)
    ));
    assert!(matches!(
        decrypt(&["a"], &data, &keyfile(&owner), &metadata(vec![])).unwrap_err(),
        Error::DecryptionError(DecryptionError::NoRecipients)
    ));
    assert!(matches!(
        decrypt(&["a"], &data, "", &sops).unwrap_err(),
        Error::DecryptionError(DecryptionError::NoRecipients)
    ));
}

#[test]
fn an_identity_file_that_does_not_parse_gives_no_key() {
    let owner = age::x25519::Identity::generate();
    let key = [11u8; 32];
    let data = seal(&key, "a:", b"x", "str");
    let sops = metadata(vec![stanza(&owner, &key)]);
    assert!(matches!(
        decrypt(&["a"], &data, "garbage\n", &sops).unwrap_err(),
        Error::DecryptionError(DecryptionError::NoKey)
    ));
}

#[test]
fn only_the_first_matching_stanza_is_unwrapped() {
    let identity = age::x25519::Identity::generate();
    let key = [11u8; 32];
    let data = seal(&key, "a:", b"x", "str");
    let broken = Age { recipient: identity.to_public().to_string(), enc: "broken".to_string() };
    let sops = metadata(vec![broken, stanza(&identity, &key)]);
    assert!(matches!(
        decrypt(&["a"], &data, &keyfile(&identity), &sops).unwrap_err(),
        Error::DecryptionError(DecryptionError::KekDecryptionError(ValueError::DecryptionError))
    ));
    let short = Age { recipient: identity.to_public().to_string(), enc: wrap(&identity, &[1u8; 16]) };
    let sops = metadata(vec![short, stanza(&identity, &key)]);
    assert!(matches!(
        decrypt(&["a"], &data, &keyfile(&identity), &sops).unwrap_err(),
        Error::DecryptionError(DecryptionError::KekDecryptionError(ValueError::InvalidKeyLength))
    ));
}

#[test]
fn a_stanza_for_another_recipient_is_passed_over() {
    let owner = age::x25519::Identity::generate();
    let stranger = age::x25519::Identity::generate();
    let key = [11u8; 32];
    let data = seal(&key, "a:", b"x", "str");
    let sops = metadata(vec![stanza(&stranger, &[0u8; 32]), stanza(&owner, &key)]);
    match decrypt(&["a"], &data, &keyfile(&owner), &sops).unwrap() {
        DecryptedValue::String(text) => assert_eq!(text, "x"),
        other => panic!("{:?}", other),
    }
}

#[test]
fn a_leaf_that_is_no_envelope_is_an_invalid_value() {
    let identity = age::x25519::Identity::generate();
    let sops = metadata(vec![stanza(&identity, &[11u8; 32])]);
    assert!(matches!(
        decrypt(&["a"], "plain", &keyfile(&identity), &sops).unwrap_err(),
        Error::InvalidValue(ValueError::InvalidEnvelope(_))
    ));
}
