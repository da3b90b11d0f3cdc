use aes_gcm::aead::consts::U32;
use aes_gcm::aead::{Aead, KeyInit, Payload};
use aes_gcm::aes::Aes256;
use aes_gcm::AesGcm;
use base64::engine::general_purpose::STANDARD;
use base64::Engine;
use secnix::enc::age::{associated_data_of, decode, decrypt, open, DecryptedValue, Error};
use secnix::enc::envelope::{Aes256GcmType, Field, ParseError};

const KEY: [u8; 32] = [7u8; 32];

fn nonce() -> Vec<u8> {
    (0u8..32).collect()
}

fn seal(key: &[u8; 32], nonce: &[u8], aad: &str, plaintext: &[u8], tag: &str) -> String {
    let cipher = AesGcm::<Aes256, U32>::new(key.into());
    let sealed = cipher
        .encrypt(nonce.into(), Payload { msg: plaintext, aad: aad.as_bytes() })
        .unwrap();
    let (data, mac) = sealed.split_at(sealed.len() - 16);
    format!(
        "ENC[AES256_GCM,data:{},iv:{},tag:{},type:{}]",
        STANDARD.encode(data),
        STANDARD.encode(nonce),
        STANDARD.encode(mac),
        tag
    )
}

fn path(parts: &[&str]) -> Vec<String> {
    parts.iter().map(|part| part.to_string()).collect()
}

#[test]
fn opens_a_string() {
    let data = seal(&KEY, &nonce(), "api_token:", b"s3cr3t", "str");
    match decrypt(data, &KEY, path(&["api_token"])).unwrap() {
        DecryptedValue::String(text) => assert_eq!(text, "s3cr3t"),
        other => panic!("{:?}", other),
    }
}

#[test]
fn opens_every_type() {
    let data = seal(&KEY, &nonce(), "a:", b"-42", "int");
    assert!(matches!(decrypt(data, &KEY, path(&["a"])).unwrap(), DecryptedValue::Int(-42)));
    let data = seal(&KEY, &nonce(), "a:", b"1.50", "float");
    match decrypt(data, &KEY, path(&["a"])).unwrap() {
        DecryptedValue::Float(text) => assert_eq!(text, "1.50"),
        other => panic!("{:?}", other),
    }
    let data = seal(&KEY, &nonce(), "a:", b"one and a half", "float");
    assert_eq!(decrypt(data, &KEY, path(&["a"])).unwrap_err(), Error::TypedDecodeFailure);
    let data = seal(&KEY, &nonce(), "a:", b"true", "bool");
    assert!(matches!(decrypt(data, &KEY, path(&["a"])).unwrap(), DecryptedValue::Bool(true)));
    let data = seal(&KEY, &nonce(), "a:", b"false", "bool");
    assert!(matches!(decrypt(data, &KEY, path(&["a"])).unwrap(), DecryptedValue::Bool(false)));
    let data = seal(&KEY, &nonce(), "a:", &[0, 159, 255], "bytes");
    match decrypt(data, &KEY, path(&["a"])).unwrap() {
        DecryptedValue::Bytes(bytes) => assert_eq!(bytes, vec![0, 159, 255]),
        other => panic!("{:?}", other),
    }
    let data = seal(&KEY, &nonce(), "a:", b"# note", "comment");
    assert!(matches!(decrypt(data, &KEY, path(&["a"])).unwrap(), DecryptedValue::Comment(())));
}

#[test]
fn the_path_is_the_associated_data() {
    assert_eq!(associated_data_of(&path(&["db", "primary", "password"])), "db:primary:password:");
    assert_eq!(associated_data_of(&path(&["a", "b"])), "a:b:");
    assert_eq!(associated_data_of(&path(&["data"])), "data:");
    assert_eq!(associated_data_of(&path(&[])), ":");
    let data = seal(&KEY, &nonce(), "db:primary:password:", b"hunter2", "str");
    match decrypt(data.clone(), &KEY, path(&["db", "primary", "password"])).unwrap() {
        DecryptedValue::String(text) => assert_eq!(text, "hunter2"),
        other => panic!("{:?}", other),
    }
    assert_eq!(
        decrypt(data.clone(), &KEY, path(&["db", "primary"])).unwrap_err(),
        Error::AeadFailure
    );
    assert_eq!(
        decrypt(data, &KEY, path(&["db.primary.password"])).unwrap_err(),
        Error::AeadFailure
    );
}

#[test]
fn a_wrong_key_or_a_changed_value_does_not_open() {
    let data = seal(&KEY, &nonce(), "a:", b"s3cr3t", "str");
    assert_eq!(decrypt(data.clone(), &[8u8; 32], path(&["a"])).unwrap_err(), Error::AeadFailure);
    let other = seal(&KEY, &nonce(), "a:", b"s3cr3T", "str");
    let mixed = format!(
        "{},iv:{}",
        other.split(",iv:").next().unwrap(),
        data.split(",iv:").nth(1).unwrap()
    );
    assert_eq!(decrypt(mixed, &KEY, path(&["a"])).unwrap_err(), Error::AeadFailure);
}

#[test]
fn a_nonce_of_another_length_is_refused() {
    let short: Vec<u8> = (0u8..12).collect();
    let data = format!(
        "ENC[AES256_GCM,data:{},iv:{},tag:{},type:str]",
        STANDARD.encode(b"abc"),
        STANDARD.encode(&short),
        STANDARD.encode([0u8; 16])
    );
    assert_eq!(decrypt(data, &KEY, path(&["a"])).unwrap_err(), Error::InvalidNonce);
}

#[test]
fn a_value_without_a_tag_does_not_open() {
    let data = format!(
        "ENC[AES256_GCM,data:,iv:{},tag:,type:str]",
        STANDARD.encode(nonce())
    );
    assert_eq!(decrypt(data, &KEY, path(&["a"])).unwrap_err(), Error::AeadFailure);
}

#[test]
fn what_is_no_envelope_is_refused() {
    assert_eq!(
        decrypt("plain".to_string(), &KEY, path(&["a"])).unwrap_err(),
        Error::InvalidEnvelope(ParseError::InvalidDataFormat)
    );
    assert_eq!(
        decrypt("ENC[AES256_GCM,data:AAEC,iv:AAEC,tag:?,type:str]".to_string(), &KEY, path(&["a"]))
            .unwrap_err(),
        Error::InvalidEnvelope(ParseError::DataDecodeError(Field::Tag))
    );
}

#[test]
fn an_unknown_type_is_an_error_after_the_value_opened() {
    let data = seal(&KEY, &nonce(), "a:", b"x", "timestamp");
    assert_eq!(decrypt(data, &KEY, path(&["a"])).unwrap_err(), Error::UnknownType);
    let data = seal(&KEY, &nonce(), "b:", b"x", "timestamp");
    assert_eq!(decrypt(data, &KEY, path(&["a"])).unwrap_err(), Error::AeadFailure);
}

#[test]
fn a_plaintext_is_read_by_its_type() {
    assert!(matches!(decode(b"0".to_vec(), Aes256GcmType::Int), Ok(DecryptedValue::Int(0))));
    assert!(matches!(decode(b"+17".to_vec(), Aes256GcmType::Int), Ok(DecryptedValue::Int(17))));
    assert!(matches!(decode(b"-0".to_vec(), Aes256GcmType::Int), Ok(DecryptedValue::Int(0))));
    assert!(matches!(decode(b"007".to_vec(), Aes256GcmType::Int), Ok(DecryptedValue::Int(7))));
    assert!(matches!(
        decode(b"9223372036854775807".to_vec(), Aes256GcmType::Int),
        Ok(DecryptedValue::Int(i64::MAX))
    ));
    assert!(matches!(
        decode(b"-9223372036854775808".to_vec(), Aes256GcmType::Int),
        Ok(DecryptedValue::Int(i64::MIN))
    ));
    for text in ["", "-", "+", "1.5", " 1", "1 ", "12a", "9223372036854775808", "-9223372036854775809", "99999999999999999999999999", "--1", "+-1", "١"] {
        assert_eq!(
            decode(text.as_bytes().to_vec(), Aes256GcmType::Int).unwrap_err(),
            Error::TypedDecodeFailure,
            "{:?}",
            text
        );
        assert_eq!(text.parse::<i64>().ok(), None);
    }
    for text in ["", "True", "1", "yes", "true ", "falsee"] {
        assert_eq!(
            decode(text.as_bytes().to_vec(), Aes256GcmType::Bool).unwrap_err(),
            Error::TypedDecodeFailure
        );
    }
}

#[test]
fn integers_are_read_as_std_reads_them() {
    let texts = [
        "0", "1", "-1", "+1", "10", "0010", "-0010", "+0", "123456789012345678",
        "9223372036854775806", "9223372036854775807", "9223372036854775808",
        "-9223372036854775807", "-9223372036854775808", "-9223372036854775809",
        "18446744073709551616", "1e3", "0x10", "1_000", "", "+", "-", "٣",
    ];
    for text in texts {
        let found = match decode(text.as_bytes().to_vec(), Aes256GcmType::Int) {
            Ok(DecryptedValue::Int(number)) => Some(number),
            Ok(other) => panic!("{:?}", other),
            Err(error) => {
                assert_eq!(error, Error::TypedDecodeFailure);
                None
            }
        };
        assert_eq!(found, text.parse::<i64>().ok(), "{:?}", text);
    }
}

#[test]
fn text_has_to_be_utf8_and_bytes_need_not() {
    let broken = vec![b'a', 0xff, b'b'];
    for kind in [
        Aes256GcmType::String,
        Aes256GcmType::Int,
        Aes256GcmType::Float,
        Aes256GcmType::Bool,
    ] {
        assert_eq!(decode(broken.clone(), kind).unwrap_err(), Error::InvalidUtf8);
    }
    assert!(matches!(
        decode(broken.clone(), Aes256GcmType::Bytes),
        Ok(DecryptedValue::Bytes(bytes)) if bytes == broken
    ));
    assert!(matches!(
        decode(broken.clone(), Aes256GcmType::Comment),
        Ok(DecryptedValue::Comment(()))
    ));
    assert_eq!(decode(broken, Aes256GcmType::Unknown).unwrap_err(), Error::UnknownType);
    match decode("grüße".as_bytes().to_vec(), Aes256GcmType::String).unwrap() {
        DecryptedValue::String(text) => assert_eq!(text, "grüße"),
        other => panic!("{:?}", other),
    }
}

#[test]
fn nothing_recovered_is_a_failed_tag() {
    assert_eq!(open(Aes256GcmType::String, None).unwrap_err(), Error::AeadFailure);
    assert_eq!(open(Aes256GcmType::Unknown, None).unwrap_err(), Error::AeadFailure);
    assert!(matches!(
        open(Aes256GcmType::Bool, Some(b"true".to_vec())),
        Ok(DecryptedValue::Bool(true))
    ));
    assert_eq!(
        open(Aes256GcmType::Bool, Some(b"maybe".to_vec())).unwrap_err(),
        Error::TypedDecodeFailure
    );
}

#[test]
fn floats_are_accepted_as_std_reads_them() {
    let accepted = [
        "0", "1", "-1", "+1", "1.5", "1.", ".5", "-.5", "+.5", "1e5", "1E5", "1e+5", "1e-5",
        "1.e5", ".5e5", "1.5e10", "0.000001", "123456789012345678901234567890", "1e400",
        "inf", "-inf", "+inf", "INF", "Infinity", "-infinity", "nan", "NaN", "-nan", "+NAN",
        "007", "00.00",
    ];
    for text in accepted {
        assert!(text.parse::<f64>().is_ok(), "{:?}", text);
        match decode(text.as_bytes().to_vec(), Aes256GcmType::Float).unwrap() {
            DecryptedValue::Float(kept) => assert_eq!(kept, text),
            other => panic!("{:?}", other),
        }
    }
    let refused = [
        "", "+", "-", ".", "+.", "e5", ".e5", "1e", "1e+", "1e-", "1e5.5", "1.5.5", "1..5",
        "1 ", " 1", "1_000", "0x10", "1f", "1.5f64", "in", "infinit", "infinityy", "na", "nann",
        "+-1", "--1", "1e++5", "1ee5", "١", "1,5", "i nf", "1e5e5",
    ];
    for text in refused {
        assert!(text.parse::<f64>().is_err(), "{:?}", text);
        assert_eq!(
            decode(text.as_bytes().to_vec(), Aes256GcmType::Float).unwrap_err(),
            Error::TypedDecodeFailure,
            "{:?}",
            text
        );
    }
}

#[test]
fn floats_are_told_from_other_text_as_std_tells_them() {
    let pieces = ["0", "7", ".", "e", "E", "+", "-", "inf", "nan", "infinity", "N", "x", " "];
    let mut texts: Vec<String> = vec![String::new()];
    let mut floats = 0;
    for _ in 0..4 {
        let mut longer = Vec::new();
        for text in &texts {
            for piece in pieces {
                longer.push(format!("{}{}", text, piece));
            }
        }
        for text in &longer {
            let expected = text.parse::<f64>().is_ok();
            let found = decode(text.as_bytes().to_vec(), Aes256GcmType::Float).is_ok();
            assert_eq!(found, expected, "{:?}", text);
            if expected {
                floats += 1;
            }
        }
        texts = longer;
    }
    assert!(floats > 100);
}
