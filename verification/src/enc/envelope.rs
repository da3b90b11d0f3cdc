//! The envelope in which SOPS stores one encrypted value:
//! `ENC[AES256_GCM,data:<b64>,iv:<b64>,tag:<b64>,type:<tag>]`.

use vstd::prelude::*;
use base64::Engine;
use crate::text::{bytes_of, contains_char, find_last, has_at, occurs_at, range_is, to_chars};

verus! {

/// The kind of plaintext that an envelope announces.
#[derive(Debug, Clone, Copy, PartialEq, Eq, Structural)]
pub enum Aes256GcmType {
    String,
    Int,
    Float,
    Bytes,
    Bool,
    Comment,
    Unknown,
}

/// The base64 fields of an envelope.
#[derive(Debug, Clone, Copy, PartialEq, Eq, Structural)]
pub enum Field {
    Data,
    Iv,
    Tag,
}

/// Why a text is no envelope that can be opened.
#[derive(Debug, Clone, Copy, PartialEq, Eq, Structural)]
pub enum ParseError {
    /// The text is not an envelope.
    InvalidDataFormat,
    /// The named field is not base64.
    DataDecodeError(Field),
}

/// An envelope with its fields decoded.
#[derive(Debug, Clone, PartialEq, Eq)]
pub struct Aes256GcmData {
    pub data: Vec<u8>,
    pub iv: Vec<u8>,
    pub tag: Vec<u8>,
    pub data_type: Aes256GcmType,
}

/// What the fields of an envelope hold, as mathematical values.
pub struct EnvelopeView {
    pub data: Seq<u8>,
    pub iv: Seq<u8>,
    pub tag: Seq<u8>,
    pub data_type: Aes256GcmType,
}

impl View for Aes256GcmData {
    type V = EnvelopeView;

    open spec fn view(&self) -> EnvelopeView {
        EnvelopeView { data: self.data@, iv: self.iv@, tag: self.tag@, data_type: self.data_type }
    }
}

/// What an envelope begins with.
pub open spec fn opening() -> Seq<char> {
    "ENC[AES256_GCM,data:"@
}

/// What parts the data from the nonce.
pub open spec fn iv_mark() -> Seq<char> {
    ",iv:"@
}

/// What parts the nonce from the tag.
pub open spec fn tag_mark() -> Seq<char> {
    ",tag:"@
}

/// What parts the tag from the type.
pub open spec fn type_mark() -> Seq<char> {
    ",type:"@
}

/// Where the three inner separators of an envelope begin.
pub struct Split {
    pub iv: int,
    pub tag: int,
    pub kind: int,
}

/// `text` reads as an envelope whose separators begin at the positions of
/// `at`: the opening, four fields parted by the three separators, and the
/// closing bracket, with no line feed anywhere.
pub open spec fn is_split(text: Seq<char>, at: Split) -> bool {
    &&& occurs_at(text, 0, opening())
    &&& opening().len() <= at.iv
    &&& occurs_at(text, at.iv, iv_mark())
    &&& at.iv + iv_mark().len() <= at.tag
    &&& occurs_at(text, at.tag, tag_mark())
    &&& at.tag + tag_mark().len() <= at.kind
    &&& occurs_at(text, at.kind, type_mark())
    &&& at.kind + type_mark().len() < text.len()
    &&& text.last() == ']'
    &&& !text.contains('\n')
}

/// Among the ways to read `text` as an envelope, `at` is the one in which
/// every separator stands as far to the right as in any of them, so that each
/// field is as long as it can be, the earlier field first.
pub open spec fn is_greedy_split(text: Seq<char>, at: Split) -> bool {
    &&& is_split(text, at)
    &&& forall|other: Split| #[trigger]
        is_split(text, other) ==> other.iv <= at.iv && other.tag <= at.tag && other.kind
            <= at.kind
}

/// The reading of `text` as an envelope, if it has one.
pub open spec fn greedy_split(text: Seq<char>) -> Option<Split> {
    if exists|at: Split| is_split(text, at) {
        Some(choose|at: Split| is_greedy_split(text, at))
    } else {
        None
    }
}

/// The field of the data, still in base64.
pub open spec fn data_field(text: Seq<char>, at: Split) -> Seq<char> {
    text.subrange(opening().len() as int, at.iv)
}

/// The field of the nonce, still in base64.
pub open spec fn iv_field(text: Seq<char>, at: Split) -> Seq<char> {
    text.subrange(at.iv + iv_mark().len(), at.tag)
}

/// The field of the tag, still in base64.
pub open spec fn tag_field(text: Seq<char>, at: Split) -> Seq<char> {
    text.subrange(at.tag + tag_mark().len(), at.kind)
}

/// The field that names the type.
pub open spec fn type_field(text: Seq<char>, at: Split) -> Seq<char> {
    text.subrange(at.kind + type_mark().len(), text.len() - 1)
}

/// The kind of plaintext that the tag `name` stands for.
pub open spec fn type_of_tag(name: Seq<char>) -> Aes256GcmType {
    if name == "str"@ {
        Aes256GcmType::String
    } else if name == "int"@ {
        Aes256GcmType::Int
    } else if name == "float"@ {
        Aes256GcmType::Float
    } else if name == "bytes"@ {
        Aes256GcmType::Bytes
    } else if name == "bool"@ {
        Aes256GcmType::Bool
    } else if name == "comment"@ {
        Aes256GcmType::Comment
    } else {
        Aes256GcmType::Unknown
    }
}

/// How long the fixed parts of an envelope are.
pub proof fn lemma_marks()
    ensures
        opening().len() == 20,
        iv_mark().len() == 4,
        tag_mark().len() == 5,
        type_mark().len() == 6,
{
    reveal_strlit("ENC[AES256_GCM,data:");
    reveal_strlit(",iv:");
    reveal_strlit(",tag:");
    reveal_strlit(",type:");
}

/// A text has at most one greedy reading.
pub proof fn lemma_greedy_split_unique(text: Seq<char>, at: Split)
    requires
        is_greedy_split(text, at),
    ensures
        greedy_split(text) == Some(at),
{
    let chosen = choose|other: Split| is_greedy_split(text, other);
    assert(is_split(text, chosen));
    assert(is_split(text, at));
}

/// Finds the separators of an envelope.
pub fn split_envelope(text: &[char]) -> (found: Option<(usize, usize, usize)>)
    ensures
        match found {
            Some((iv, tag, kind)) => {
                let at = Split { iv: iv as int, tag: tag as int, kind: kind as int };
                is_greedy_split(text@, at) && greedy_split(text@) == Some(at)
            },
            None => greedy_split(text@).is_none(),
        },
{
    proof {
        lemma_marks();
    }
    let n = text.len();
    let opening = to_chars("ENC[AES256_GCM,data:");
    let iv_mark = to_chars(",iv:");
    let tag_mark = to_chars(",tag:");
    let type_mark = to_chars(",type:");
    if n < 36 || !has_at(text, 0, opening.as_slice()) || text[n - 1] != ']' || contains_char(
        text,
        '\n',
    ) {
        assert(forall|at: Split| !is_split(text@, at));
        return None;
    }
    let kind = match find_last(text, type_mark.as_slice(), 29, n - 7) {
        Some(kind) => kind,
        None => {
            assert(forall|at: Split| !is_split(text@, at));
            return None;
        },
    };
    let tag = match find_last(text, tag_mark.as_slice(), 24, kind - 5) {
        Some(tag) => tag,
        None => {
            assert forall|at: Split| !is_split(text@, at) by {
                if is_split(text@, at) {
                    assert(at.kind <= kind);
                }
            }
            return None;
        },
    };
    let iv = match find_last(text, iv_mark.as_slice(), 20, tag - 4) {
        Some(iv) => iv,
        None => {
            assert forall|at: Split| !is_split(text@, at) by {
                if is_split(text@, at) {
                    assert(at.kind <= kind);
                    assert(at.tag <= tag);
                }
            }
            return None;
        },
    };
    proof {
        let at = Split { iv: iv as int, tag: tag as int, kind: kind as int };
        assert(is_split(text@, at));
        assert forall|other: Split| #[trigger] is_split(text@, other) implies other.iv <= at.iv
            && other.tag <= at.tag && other.kind <= at.kind by {
            assert(other.kind <= kind);
            assert(other.tag <= tag);
        }
        lemma_greedy_split_unique(text@, at);
    }
    Some((iv, tag, kind))
}

/// The kind of plaintext that the tag between `from` and `to` stands for.
pub fn data_type_of(text: &[char], from: usize, to: usize) -> (data_type: Aes256GcmType)
    requires
        from <= to <= text.len(),
    ensures
        data_type == type_of_tag(text@.subrange(from as int, to as int)),
{
    if range_is(text, from, to, to_chars("str").as_slice()) {
        Aes256GcmType::String
    } else if range_is(text, from, to, to_chars("int").as_slice()) {
        Aes256GcmType::Int
    } else if range_is(text, from, to, to_chars("float").as_slice()) {
        Aes256GcmType::Float
    } else if range_is(text, from, to, to_chars("bytes").as_slice()) {
        Aes256GcmType::Bytes
    } else if range_is(text, from, to, to_chars("bool").as_slice()) {
        Aes256GcmType::Bool
    } else if range_is(text, from, to, to_chars("comment").as_slice()) {
        Aes256GcmType::Comment
    } else {
        Aes256GcmType::Unknown
    }
}

/// What the standard base64 alphabet with padding decodes `text` to, and
/// whether it decodes at all.
pub uninterp spec fn base64_decoded(text: Seq<char>) -> Option<Seq<u8>>;

/// `base64::DecodeError`, of which nothing is read.
#[verifier::external_type_specification]
#[verifier::external_body]
pub struct ExDecodeError(base64::DecodeError);

/// `decode` of `base64::engine::general_purpose::STANDARD`: the bytes that
/// `text` encodes, or the crate's error where `text` is not padded base64 in
/// the standard alphabet. The result depends on `text` alone.
#[verifier::external_body]
fn base64_decode(text: &str) -> (decoded: Result<Vec<u8>, base64::DecodeError>)
    ensures
        match decoded {
            Ok(bytes) => base64_decoded(text@) == Some(bytes@),
            Err(_) => base64_decoded(text@).is_none(),
        },
{
    base64::engine::general_purpose::STANDARD.decode(text)
}

/// The envelope made of three decoded fields, or the error of the first
/// field that did not decode.
pub open spec fn assembled(
    data: Option<Seq<u8>>,
    iv: Option<Seq<u8>>,
    tag: Option<Seq<u8>>,
    data_type: Aes256GcmType,
) -> Result<EnvelopeView, ParseError> {
    if data.is_none() {
        Err(ParseError::DataDecodeError(Field::Data))
    } else if iv.is_none() {
        Err(ParseError::DataDecodeError(Field::Iv))
    } else if tag.is_none() {
        Err(ParseError::DataDecodeError(Field::Tag))
    } else {
        Ok(EnvelopeView { data: data.unwrap(), iv: iv.unwrap(), tag: tag.unwrap(), data_type })
    }
}

/// What `text` parses to.
pub open spec fn parsed(text: Seq<char>) -> Result<EnvelopeView, ParseError> {
    match greedy_split(text) {
        None => Err(ParseError::InvalidDataFormat),
        Some(at) => assembled(
            base64_decoded(data_field(text, at)),
            base64_decoded(iv_field(text, at)),
            base64_decoded(tag_field(text, at)),
            type_of_tag(type_field(text, at)),
        ),
    }
}

impl Aes256GcmData {
    /// Puts an envelope together from its decoded fields.
    pub fn assemble(
        data: Option<Vec<u8>>,
        iv: Option<Vec<u8>>,
        tag: Option<Vec<u8>>,
        data_type: Aes256GcmType,
    ) -> (envelope: Result<Aes256GcmData, ParseError>)
        ensures
            match envelope {
                Ok(envelope) => assembled(bytes_of(data), bytes_of(iv), bytes_of(tag), data_type)
                    == Ok::<EnvelopeView, ParseError>(envelope@),
                Err(error) => assembled(bytes_of(data), bytes_of(iv), bytes_of(tag), data_type)
                    == Err::<EnvelopeView, ParseError>(error),
            },
    {
        let data = match data {
            Some(data) => data,
            None => return Err(ParseError::DataDecodeError(Field::Data)),
        };
        let iv = match iv {
            Some(iv) => iv,
            None => return Err(ParseError::DataDecodeError(Field::Iv)),
        };
        let tag = match tag {
            Some(tag) => tag,
            None => return Err(ParseError::DataDecodeError(Field::Tag)),
        };
        Ok(Aes256GcmData { data, iv, tag, data_type })
    }

    /// Parses an envelope and decodes its fields.
    pub fn try_from(value: &str) -> (envelope: Result<Aes256GcmData, ParseError>)
        ensures
            match envelope {
                Ok(envelope) => parsed(value@) == Ok::<EnvelopeView, ParseError>(envelope@),
                Err(error) => parsed(value@) == Err::<EnvelopeView, ParseError>(error),
            },
    {
        proof {
            lemma_marks();
        }
        let text = to_chars(value);
        let n = text.len();
        let (iv_at, tag_at, kind_at) = match split_envelope(text.as_slice()) {
            Some(at) => at,
            None => return Err(ParseError::InvalidDataFormat),
        };
        let ghost at = Split { iv: iv_at as int, tag: tag_at as int, kind: kind_at as int };
        assert(is_split(value@, at));
        let data = base64_decode(value.substring_char(20, iv_at)).ok();
        let iv = base64_decode(value.substring_char(iv_at + 4, tag_at)).ok();
        let tag = base64_decode(value.substring_char(tag_at + 5, kind_at)).ok();
        let data_type = data_type_of(text.as_slice(), kind_at + 6, n - 1);
        Aes256GcmData::assemble(data, iv, tag, data_type)
    }
}

} // verus!
