use std::io::Write;

use aes_gcm::aead::consts::U32;
use aes_gcm::aead::{Aead, KeyInit, Payload};
use aes_gcm::aes::Aes256;
use aes_gcm::AesGcm;
use age::secrecy::ExposeSecret;
use base64::engine::general_purpose::STANDARD;
use base64::Engine;
use secnix::cli::{
    check, check_secret, decrypt_secret, decrypt_secrets, find_duplicate, get_secret_directory,
    install, load_manifest, uses_runtime_directory, write_identity, write_ssh_keys, Cli,
    Commands, Error, Reason,
};
use secnix::enc::age::{get_public_keys, DecryptedValue};
use secnix::generation::{Error as PlanError, FileSystemMetadata, Generation, Step};
use secnix::manifest::{FileType, SecnixManifest, SecretFile, Template, MAX_SUPPORTED_VERSION};
use secnix::sops::{Age, Entry, SopsData, SopsDocument, Value, YamlSopsFile};
use secnix::ssh::{AgeKey, Error as KeyError};
use ssh_key::private::{Ed25519Keypair, KeypairData, OpaqueKeypair};
use ssh_key::public::OpaquePublicKey;
use ssh_key::{Algorithm, AlgorithmName};
use ssh_key::LineEnding;

fn secret(name: &str, key: Option<&str>) -> SecretFile {
    SecretFile {
        file_type: FileType::Yaml,
        name: name.to_string(),
        source: format!("{}.yaml", name),
        key: key.map(|key| key.to_string()),
        link: None,
        mode: None,
        owner: None,
        group: None,
    }
}

fn manifest(version: u64, secrets: Vec<SecretFile>) -> SecnixManifest {
    SecnixManifest::new(version, secrets, Vec::new(), "/b".to_string(), Vec::new())
}

fn args() -> Cli {
    Cli { manifest: "secrets.json".to_string(), command: None }
}

fn stanza() -> Age {
    Age { recipient: "age1x".to_string(), enc: "wrapped".to_string() }
}

fn document(age: Vec<Age>, other: Vec<Entry>) -> Option<SopsDocument> {
    Some(SopsDocument::Yaml(YamlSopsFile {
        sops: SopsData {
            age,
            last_modified: String::new(),
            mac: String::new(),
            unencrypted_suffix: String::new(),
            version: String::new(),
        },
        other,
    }))
}

fn leaf(key: &str, text: &str) -> Entry {
    Entry { key: key.to_string(), value: Value::String(text.to_string()) }
}

fn failed(subject: &str, reason: Reason) -> Error {
    Error::CheckFailed(subject.to_string(), reason)
}

fn seal(key: &[u8; 32], aad: &str, plaintext: &[u8], tag: &str) -> String {
    let nonce = [3u8; 32];
    let cipher = AesGcm::<Aes256, U32>::new(key.into());
    let sealed = cipher
        .encrypt((&nonce).into(), Payload { msg: plaintext, aad: aad.as_bytes() })
        .unwrap();
    let (data, mac) = sealed.split_at(sealed.len() - 16);
    format!(
        "ENC[AES256_GCM,data:{},iv:{},tag:{},type:{}]",
        STANDARD.encode(data),
        STANDARD.encode(nonce),
        STANDARD.encode(mac),
        tag
    )
}

fn wrap(identity: &age::x25519::Identity, key: &[u8]) -> Age {
    let recipients = vec![Box::new(identity.to_public()) as Box<dyn age::Recipient + Send>];
    let encryptor = age::Encryptor::with_recipients(recipients).unwrap();
    let armor =
        age::armor::ArmoredWriter::wrap_output(Vec::new(), age::armor::Format::AsciiArmor)
            .unwrap();
    let mut writer = encryptor.wrap_output(armor).unwrap();
    writer.write_all(key).unwrap();
    let enc = String::from_utf8(writer.finish().unwrap().finish().unwrap()).unwrap();
    Age { recipient: identity.to_public().to_string(), enc }
}

fn openssh(seed: &[u8; 32]) -> Vec<u8> {
    let pair = Ed25519Keypair::from_seed(seed);
    let key = ssh_key::PrivateKey::new(KeypairData::Ed25519(pair), "test").unwrap();
    key.to_openssh(LineEnding::LF).unwrap().as_bytes().to_vec()
}

#[test]
fn without_a_command_secrets_are_installed() {
    assert_eq!(args().command(), Commands::Install);
    let args = Cli { manifest: String::new(), command: Some(Commands::Check) };
    assert_eq!(args.command(), Commands::Check);
    let args = Cli { manifest: String::new(), command: Some(Commands::Install) };
    assert_eq!(args.command(), Commands::Install);
}

#[test]
fn a_newer_manifest_is_not_understood() {
    assert_eq!(MAX_SUPPORTED_VERSION, 1);
    assert_eq!(load_manifest(manifest(2, vec![])).unwrap_err(), Error::UnsupportedVersion(2, 1));
    assert_eq!(
        load_manifest(manifest(u64::MAX, vec![])).unwrap_err(),
        Error::UnsupportedVersion(u64::MAX, 1)
    );
    assert_eq!(load_manifest(manifest(1, vec![])).unwrap(), manifest(1, vec![]));
    assert_eq!(load_manifest(manifest(0, vec![])).unwrap(), manifest(0, vec![]));
    assert_eq!(check(&args(), &manifest(2, vec![]), &vec![]).unwrap_err(), Error::UnsupportedVersion(2, 1));
}

#[test]
fn the_key_of_a_secret_is_the_configured_one_or_data() {
    let mut file = secret("a", Some("db.password"));
    assert_eq!(file.get_key(), Some("db.password".to_string()));
    file.file_type = FileType::Binary;
    assert_eq!(file.get_key(), Some("db.password".to_string()));
    file.key = None;
    assert_eq!(file.get_key(), Some("data".to_string()));
    file.file_type = FileType::Json;
    assert_eq!(file.get_key(), None);
    file.file_type = FileType::Yaml;
    assert_eq!(file.get_key(), None);
}

#[test]
fn the_first_repeated_name_is_reported() {
    let names = |list: &[&str]| -> Vec<SecretFile> { list.iter().map(|name| secret(name, Some("k"))).collect() };
    assert_eq!(find_duplicate(&names(&[])), None);
    assert_eq!(find_duplicate(&names(&["a", "b", "c"])), None);
    assert_eq!(find_duplicate(&names(&["a", "b", "a"])), Some("a".to_string()));
    assert_eq!(find_duplicate(&names(&["a", "b", "b", "a"])), Some("b".to_string()));
    assert_eq!(find_duplicate(&names(&["a", "b", "a", "b"])), Some("a".to_string()));
    assert_eq!(find_duplicate(&names(&["", ""])), Some("".to_string()));
    let both = names(&["x", "y", "x"]);
    assert_eq!(
        check(&args(), &manifest(1, both), &vec![None, None, None]).unwrap_err(),
        failed("secrets.json", Reason::DuplicateName("x".to_string()))
    );
}

#[test]
fn a_document_without_recipients_fails_the_check() {
    let file = secret("a", Some("a"));
    let found = check_secret(&file, &document(vec![], vec![leaf("a", "x")])).unwrap_err();
    assert_eq!(found, failed("a.yaml", Reason::NoAgeKeys));
    let found = check(
        &args(),
        &manifest(1, vec![file]),
        &vec![document(vec![], vec![leaf("a", "x")])],
    )
    .unwrap_err();
    assert_eq!(found, failed("a.yaml", Reason::NoAgeKeys));
}

#[test]
fn a_secret_is_checked_against_its_document() {
    let entries = || {
        vec![
            leaf("token", "x"),
            leaf("data", "y"),
            Entry { key: "db".to_string(), value: Value::Mapping(vec![leaf("password", "z")]) },
        ]
    };
    let good = document(vec![stanza()], entries());
    assert_eq!(check_secret(&secret("a", Some("token")), &good), Ok(()));
    assert_eq!(check_secret(&secret("a", Some("db.password")), &good), Ok(()));
    let mut binary = secret("blob", None);
    binary.file_type = FileType::Binary;
    assert_eq!(check_secret(&binary, &good), Ok(()));
    assert_eq!(
        check_secret(&secret("a", None), &good).unwrap_err(),
        failed("a.yaml", Reason::KeyNotInManifest)
    );
    assert_eq!(
        check_secret(&secret("a", Some("db.user")), &good).unwrap_err(),
        failed("a.yaml", Reason::KeyNotInFile("db.user".to_string()))
    );
    assert_eq!(
        check_secret(&secret("a", Some("db")), &good).unwrap_err(),
        failed("a.yaml", Reason::KeyNotInFile("db".to_string()))
    );
    assert_eq!(
        check_secret(&secret("a", Some("")), &good).unwrap_err(),
        failed("a.yaml", Reason::KeyNotInFile("".to_string()))
    );
    assert_eq!(
        check_secret(&secret("a", Some("token")), &None).unwrap_err(),
        Error::Unreadable("a.yaml".to_string())
    );
    // Recipients are looked at before the key is.
    assert_eq!(
        check_secret(&secret("a", None), &document(vec![], entries())).unwrap_err(),
        failed("a.yaml", Reason::NoAgeKeys)
    );
}

#[test]
fn the_check_stops_at_the_first_secret_that_fails() {
    let files = vec![secret("a", Some("a")), secret("b", Some("b")), secret("c", Some("c"))];
    let good = |key: &str| document(vec![stanza()], vec![leaf(key, "x")]);
    assert_eq!(
        check(&args(), &manifest(1, files.clone()), &vec![good("a"), good("b"), good("c")]),
        Ok(())
    );
    assert_eq!(check(&args(), &manifest(1, vec![]), &vec![]), Ok(()));
    assert_eq!(
        check(&args(), &manifest(1, files.clone()), &vec![good("a"), good("x"), None]).unwrap_err(),
        failed("b.yaml", Reason::KeyNotInFile("b".to_string()))
    );
    assert_eq!(
        check(&args(), &manifest(1, files.clone()), &vec![good("a"), None, good("x")]).unwrap_err(),
        Error::Unreadable("b.yaml".to_string())
    );
    assert_eq!(
        check(&args(), &manifest(1, files.clone()), &vec![good("a"), good("b")]).unwrap_err(),
        Error::Inputs
    );
    // A repeated name is found before any document is looked at.
    let twice = vec![secret("a", Some("a")), secret("a", Some("a"))];
    assert_eq!(
        check(&args(), &manifest(1, twice), &vec![None]).unwrap_err(),
        failed("secrets.json", Reason::DuplicateName("a".to_string()))
    );
}

#[test]
fn the_runtime_directory_takes_the_place_of_its_mark() {
    let with = |directory: &str| {
        let mut manifest = manifest(1, vec![]);
        manifest.secret_directory = directory.to_string();
        manifest
    };
    let runtime = Some("/run/u1000".to_string());
    assert_eq!(get_secret_directory(&with("%r/sub"), &runtime).unwrap(), "/run/u1000/sub");
    assert_eq!(get_secret_directory(&with("/a/%r/%r"), &runtime).unwrap(), "/a//run/u1000//run/u1000");
    assert_eq!(get_secret_directory(&with("/plain"), &runtime).unwrap(), "/plain");
    assert_eq!(get_secret_directory(&with("/plain"), &None).unwrap(), "/plain");
    assert_eq!(get_secret_directory(&with("/100%/r"), &None).unwrap(), "/100%/r");
    assert_eq!(get_secret_directory(&with("%r/sub"), &None).unwrap_err(), Error::NoRuntimeDirectory);
    assert_eq!(get_secret_directory(&with("%r"), &Some(String::new())).unwrap(), "");
    assert!(uses_runtime_directory(&with("%r/sub")));
    assert!(uses_runtime_directory(&with("/a/%r")));
    assert!(!uses_runtime_directory(&with("/a/%R")));
    assert!(!uses_runtime_directory(&with("")));
}

#[test]
fn an_identity_is_two_lines() {
    let mut file = "before\n".to_string();
    let key = AgeKey { public_key: "age1abc".to_string(), private_key: "AGE-SECRET-KEY-1XYZ".to_string() };
    write_identity(&mut file, &key);
    assert_eq!(file, "before\n# age1abc\nAGE-SECRET-KEY-1XYZ\n");
}

#[test]
fn the_identity_file_lists_the_keys_in_their_order() {
    let keys = vec![openssh(&[1u8; 32]), openssh(&[2u8; 32])];
    let file = write_ssh_keys(&keys).unwrap();
    let lines: Vec<&str> = file.lines().collect();
    assert_eq!(lines.len(), 4);
    assert!(file.ends_with('\n'));
    assert!(lines[0].starts_with("# age1"));
    assert!(lines[1].starts_with("AGE-SECRET-KEY-1"));
    assert!(lines[2].starts_with("# age1"));
    assert!(lines[3].starts_with("AGE-SECRET-KEY-1"));
    assert_ne!(lines[1], lines[3]);
    assert_eq!(
        get_public_keys(&file).unwrap(),
        vec![lines[0][2..].to_string(), lines[2][2..].to_string()]
    );
    assert_eq!(write_ssh_keys(&vec![openssh(&[1u8; 32])]).unwrap(), lines[..2].join("\n") + "\n");
    assert_eq!(write_ssh_keys(&Vec::new()).unwrap(), "");
}

#[test]
fn a_key_of_another_kind_gives_no_identity() {
    let name = AlgorithmName::new("custom@example.com").unwrap();
    let public = OpaquePublicKey::new(vec![1, 2, 3, 4], Algorithm::Other(name));
    let pair = OpaqueKeypair::new(vec![5, 6, 7, 8], public);
    let key = ssh_key::PrivateKey::new(KeypairData::Other(pair), "test").unwrap();
    let other = key.to_openssh(LineEnding::LF).unwrap().as_bytes().to_vec();
    assert_eq!(
        write_ssh_keys(&vec![openssh(&[1u8; 32]), openssh(&[2u8; 32]), other]).unwrap_err(),
        Error::InvalidSshKey(2, KeyError::UnsupportedKeyType)
    );
}

#[test]
fn a_key_that_gives_no_identity_is_named_by_its_position() {
    let keys = vec![openssh(&[1u8; 32]), b"not a key".to_vec(), b"neither".to_vec()];
    assert_eq!(write_ssh_keys(&keys).unwrap_err(), Error::InvalidSshKey(1, KeyError::InvalidFormat));
    assert_eq!(
        write_ssh_keys(&vec![Vec::new()]).unwrap_err(),
        Error::InvalidSshKey(0, KeyError::InvalidFormat)
    );
}

#[test]
fn secrets_are_decrypted_in_the_order_of_the_manifest() {
    let identity = age::x25519::Identity::generate();
    let keyfile = format!("{}\n", identity.to_string().expose_secret());
    let key = [11u8; 32];
    let loaded = |entries: Vec<Entry>| document(vec![wrap(&identity, &key)], entries);
    let mut blob = secret("blob", None);
    blob.file_type = FileType::Binary;
    let files = vec![
        secret("api_token", Some("api_token")),
        blob,
        secret("nested", Some("db.primary.password")),
        secret("keyless", None),
    ];
    let nested = Entry {
        key: "db".to_string(),
        value: Value::Mapping(vec![Entry {
            key: "primary".to_string(),
            value: Value::Mapping(vec![leaf(
                "password",
                &seal(&key, "db:primary:password:", b"hunter2", "str"),
            )]),
        }]),
    };
    let documents = vec![
        loaded(vec![leaf("api_token", &seal(&key, "api_token:", b"s3cr3t", "str"))]),
        loaded(vec![leaf("data", &seal(&key, "data:", &[0, 255], "bytes"))]),
        loaded(vec![nested]),
        None,
    ];
    assert_eq!(
        decrypt_secret(&files[0], &documents[0], &keyfile).unwrap(),
        Some(DecryptedValue::String("s3cr3t".to_string()))
    );
    assert_eq!(
        decrypt_secret(&files[1], &documents[1], &keyfile).unwrap(),
        Some(DecryptedValue::Bytes(vec![0, 255]))
    );
    assert_eq!(
        decrypt_secret(&files[3], &documents[3], &keyfile).unwrap_err(),
        Error::Unreadable("keyless.yaml".to_string())
    );
    assert_eq!(decrypt_secret(&files[3], &documents[0], &keyfile).unwrap(), None);
    let mut all = documents;
    all[3] = loaded(vec![]);
    assert_eq!(
        decrypt_secrets(&files, &all, &keyfile).unwrap(),
        vec![
            Some(DecryptedValue::String("s3cr3t".to_string())),
            Some(DecryptedValue::Bytes(vec![0, 255])),
            Some(DecryptedValue::String("hunter2".to_string())),
            None,
        ]
    );
    all[1] = loaded(vec![]);
    all[2] = None;
    assert_eq!(
        decrypt_secrets(&files, &all, &keyfile).unwrap_err(),
        Error::Decryption("blob".to_string(), secnix::sops::Error::MissingData("data".to_string()))
    );
    all.pop();
    assert_eq!(decrypt_secrets(&files, &all, &keyfile).unwrap_err(), Error::Inputs);
    assert_eq!(decrypt_secrets(&Vec::new(), &Vec::new(), &keyfile).unwrap(), Vec::new());
}

#[test]
fn an_installation_is_planned_with_its_clean_up() {
    let mut files = vec![secret("api_token", Some("api_token"))];
    files[0].link = Some("/run/s/api_token".to_string());
    let mut manifest = manifest(1, files);
    manifest.secret_directory = "%r/secrets".to_string();
    manifest.templates = vec![Template {
        name: "cfg".to_string(),
        source: "cfg.tpl".to_string(),
        destination: "/etc/app.conf".to_string(),
        copy: Some(true),
        mode: None,
        owner: None,
        group: None,
    }];
    let before = FileSystemMetadata {
        generations: vec![
            Generation { timestamp: 10, id: "OLDER".to_string() },
            Generation { timestamp: 20, id: "OLD".to_string() },
        ],
        active_generation: Some("OLD".to_string()),
    };
    let planned = install(
        &manifest,
        &Some("/run/u1000".to_string()),
        &vec![Some(DecryptedValue::String("s3cr3t".to_string()))],
        &vec!["t=$$SECNIX::api_token::SECNIX$$".to_string()],
        before,
        &None,
        30,
    )
    .unwrap();
    assert_eq!(planned.directory, "/run/u1000/secrets");
    let id = planned.activation.generation_id.clone();
    assert_eq!(planned.activation.metadata.generations.len(), 3);
    assert_eq!(planned.activation.metadata.active_generation, Some(id.clone()));
    assert_eq!(
        planned.cleanup.metadata,
        FileSystemMetadata {
            generations: vec![Generation { timestamp: 30, id: id.clone() }],
            active_generation: Some(id.clone()),
        }
    );
    assert_eq!(
        planned.cleanup.steps,
        vec![
            Step::RemoveDirAll { path: "/run/u1000/secrets/generations/OLDER".to_string() },
            Step::RemoveDirAll { path: "/run/u1000/secrets/generations/OLD".to_string() },
            Step::WriteFleetMetadata {
                path: "/run/u1000/secrets/metadata.json".to_string(),
                lenient: false,
            },
        ]
    );
    assert!(planned.activation.steps.contains(&Step::WriteFile {
        path: format!("/run/u1000/secrets/generations/{}/rendered/cfg", id),
        content: b"t=s3cr3t".to_vec(),
    }));
    assert!(planned.activation.steps.contains(&Step::Rename {
        from: format!("/run/u1000/secrets/{}", planned.activation.pointer_id),
        to: "/run/u1000/secrets/secrets".to_string(),
    }));
}

#[test]
fn an_installation_that_cannot_be_planned_says_why() {
    let plan = |version: u64, directory: &str, values: usize, generations: Vec<Generation>| {
        let mut manifest = manifest(version, vec![secret("a", Some("a"))]);
        manifest.secret_directory = directory.to_string();
        install(
            &manifest,
            &None,
            &(0..values).map(|_| None).collect(),
            &Vec::new(),
            FileSystemMetadata { generations, active_generation: None },
            &None,
            1,
        )
    };
    assert_eq!(plan(2, "%r", 0, vec![]).unwrap_err(), Error::UnsupportedVersion(2, 1));
    assert_eq!(plan(1, "%r", 0, vec![]).unwrap_err(), Error::NoRuntimeDirectory);
    assert_eq!(plan(1, "/b", 0, vec![]).unwrap_err(), Error::Plan(PlanError::Inputs));
    let unordered = vec![
        Generation { timestamp: 2, id: "A".to_string() },
        Generation { timestamp: 1, id: "B".to_string() },
    ];
    assert_eq!(plan(1, "/b", 1, unordered).unwrap_err(), Error::Plan(PlanError::Metadata));
    assert!(plan(1, "/b", 1, vec![]).is_ok());
}
