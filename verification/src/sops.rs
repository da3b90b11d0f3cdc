//! SOPS documents: the tree of still-encrypted values, the metadata beside
//! it, and the decryption of one value.

use vstd::prelude::*;
use crate::enc::age::{
    age_decrypted, age_recipients, data_key, decrypt_kek, decrypted, get_public_keys,
    DecryptedValue, Plain,
};
use crate::text::{is_listed, join, joined, same_text, to_strings};

verus! {

/// One recipient stanza: the recipient, and the data key wrapped for it.
#[derive(Debug, Clone, PartialEq, Eq)]
pub struct Age {
    pub recipient: String,
    pub enc: String,
}

/// The metadata that SOPS keeps beside the values of a document.
#[derive(Debug, Clone, PartialEq, Eq)]
pub struct SopsData {
    pub age: Vec<Age>,
    pub last_modified: String,
    pub mac: String,
    pub unencrypted_suffix: String,
    pub version: String,
}

/// A node of a document: an encrypted leaf, a mapping with text keys, or
/// anything else (a sequence, a number, a boolean, null).
#[derive(Debug, PartialEq, Eq)]
pub enum Value {
    String(String),
    Mapping(Vec<Entry>),
    Other,
}

/// One entry of a mapping.
#[derive(Debug, PartialEq, Eq)]
pub struct Entry {
    pub key: String,
    pub value: Value,
}

/// Why the recipients of a document did not yield its data key.
#[derive(Debug, Clone, Copy, PartialEq, Eq, Structural)]
pub enum DecryptionError {
    /// No stanza of the document is for an identity at hand.
    NoRecipients,
    /// The stanza chosen did not unwrap.
    KekDecryptionError(crate::enc::age::Error),
    /// The identity file could not be read.
    NoKey,
}

/// Why a value could not be had from a document.
#[derive(Debug, Clone, PartialEq, Eq)]
pub enum Error {
    /// The file is neither a JSON nor a YAML document.
    ParseError,
    DecryptionError(DecryptionError),
    /// No leaf stands at the dotted path.
    MissingData(String),
    /// The leaf did not decrypt to a value of its type.
    InvalidValue(crate::enc::age::Error),
}

/// An error as a mathematical value.
pub enum Failure {
    ParseError,
    DecryptionError(DecryptionError),
    MissingData(Seq<char>),
    InvalidValue(crate::enc::age::Error),
}

impl View for Error {
    type V = Failure;

    open spec fn view(&self) -> Failure {
        match self {
            Error::ParseError => Failure::ParseError,
            Error::DecryptionError(error) => Failure::DecryptionError(*error),
            Error::MissingData(path) => Failure::MissingData(path@),
            Error::InvalidValue(error) => Failure::InvalidValue(*error),
        }
    }
}

/// The value of the first entry under `key`.
pub open spec fn lookup(entries: Seq<Entry>, key: Seq<char>) -> Option<Value>
    decreases entries.len(),
{
    if entries.len() == 0 {
        None
    } else if entries[0].key@ == key {
        Some(entries[0].value)
    } else {
        lookup(entries.drop_first(), key)
    }
}

/// The leaf that `path` leads to from `value`: a string is the leaf when the
/// path is used up, a mapping is descended by one component, and anything
/// else ends the walk with nothing.
pub open spec fn nested(value: Value, path: Seq<Seq<char>>) -> Option<Seq<char>>
    decreases path.len(),
{
    match value {
        Value::String(leaf) => if path.len() == 0 {
            Some(leaf@)
        } else {
            None
        },
        Value::Mapping(entries) => if path.len() == 0 {
            None
        } else {
            match lookup(entries@, path[0]) {
                Some(child) => nested(child, path.drop_first()),
                None => None,
            }
        },
        Value::Other => None,
    }
}

/// The leaf that `path` leads to from the top of a document.
pub open spec fn leaf_at(entries: Seq<Entry>, path: Seq<Seq<char>>) -> Option<Seq<char>> {
    if path.len() == 0 {
        None
    } else {
        match lookup(entries, path[0]) {
            Some(child) => nested(child, path.drop_first()),
            None => None,
        }
    }
}

/// Looks up the first entry under `key`.
pub fn find_entry<'a>(entries: &'a Vec<Entry>, key: &str) -> (found: Option<&'a Value>)
    ensures
        match found {
            Some(value) => lookup(entries@, key@) == Some(*value),
            None => lookup(entries@, key@).is_none(),
        },
{
    let mut i: usize = 0;
    assert(entries@.skip(0) =~= entries@);
    while i < entries.len()
        invariant
            i <= entries.len(),
            lookup(entries@, key@) == lookup(entries@.skip(i as int), key@),
        decreases entries.len() - i,
    {
        assert(entries@.skip(i as int)[0] == entries@[i as int]);
        if same_text(entries[i].key.as_str(), key) {
            return Some(&entries[i].value);
        }
        assert(entries@.skip(i as int).drop_first() =~= entries@.skip(i + 1));
        i += 1;
    }
    None
}

impl Value {
    /// Whether the node is anything but a mapping.
    pub fn is_leaf(&self) -> (leaf: bool)
        ensures
            leaf == !(self is Mapping),
    {
        !matches!(self, Value::Mapping(_))
    }

    /// Walks `key` down from this node to an encrypted leaf.
    pub fn get_nested<'a>(&'a self, key: &[&str]) -> (leaf: Option<&'a String>)
        ensures
            leaf.deep_view() == nested(*self, key.deep_view()),
    {
        let mut node: &'a Value = self;
        let mut i: usize = 0;
        let ghost path = key.deep_view();
        assert(path.skip(0) =~= path);
        loop
            invariant
                i <= key.len(),
                path == key.deep_view(),
                nested(*self, path) == nested(*node, path.skip(i as int)),
            decreases key.len() - i,
        {
            match node {
                Value::String(leaf) => {
                    if i == key.len() {
                        return Some(leaf);
                    }
                    return None;
                },
                Value::Mapping(entries) => {
                    if i == key.len() {
                        return None;
                    }
                    assert(path.skip(i as int)[0] == key@[i as int]@);
                    assert(path.skip(i as int).drop_first() =~= path.skip(i + 1));
                    match find_entry(entries, key[i]) {
                        Some(child) => {
                            node = child;
                            i += 1;
                        },
                        None => {
                            return None;
                        },
                    }
                },
                Value::Other => {
                    return None;
                },
            }
        }
    }
}

/// The first stanza whose recipient is one of `recipients`.
pub open spec fn candidate(stanzas: Seq<Age>, recipients: Seq<Seq<char>>) -> Option<Age>
    decreases stanzas.len(),
{
    if stanzas.len() == 0 {
        None
    } else if recipients.contains(stanzas[0].recipient@) {
        Some(stanzas[0])
    } else {
        candidate(stanzas.drop_first(), recipients)
    }
}

/// Picks the stanza to unwrap: the first one, in the order of the
/// document, that is for one of the identities at hand.
pub fn select_recipient<'a>(stanzas: &'a Vec<Age>, recipients: &Vec<String>) -> (chosen: Option<
    &'a Age,
>)
    ensures
        match chosen {
            Some(stanza) => candidate(stanzas@, recipients.deep_view()) == Some(*stanza),
            None => candidate(stanzas@, recipients.deep_view()).is_none(),
        },
{
    let mut i: usize = 0;
    assert(stanzas@.skip(0) =~= stanzas@);
    while i < stanzas.len()
        invariant
            i <= stanzas.len(),
            candidate(stanzas@, recipients.deep_view()) == candidate(
                stanzas@.skip(i as int),
                recipients.deep_view(),
            ),
        decreases stanzas.len() - i,
    {
        assert(stanzas@.skip(i as int)[0] == stanzas@[i as int]);
        if is_listed(recipients, stanzas[i].recipient.as_str()) {
            return Some(&stanzas[i]);
        }
        assert(stanzas@.skip(i as int).drop_first() =~= stanzas@.skip(i + 1));
        i += 1;
    }
    None
}

/// What a result holds, as a mathematical value.
pub open spec fn outcome(value: Result<DecryptedValue, Error>) -> Result<Plain, Failure> {
    match value {
        Ok(value) => Ok(value@),
        Err(error) => Err(error@),
    }
}

/// What the leaf `data` at `path` decrypts to, with the identities of
/// `keyfile` and the stanzas of the document: the recipients of the
/// identities pick the first matching stanza, that stanza alone is
/// unwrapped, and the data key opens the leaf.
pub open spec fn value_decrypted(
    path: Seq<Seq<char>>,
    data: Seq<char>,
    keyfile: Seq<char>,
    stanzas: Seq<Age>,
) -> Result<Plain, Failure> {
    match age_recipients(keyfile) {
        None => Err(Failure::DecryptionError(DecryptionError::NoKey)),
        Some(recipients) => match candidate(stanzas, recipients) {
            None => Err(Failure::DecryptionError(DecryptionError::NoRecipients)),
            Some(stanza) => match data_key(age_decrypted(stanza.enc@, keyfile)) {
                Err(error) => Err(
                    Failure::DecryptionError(DecryptionError::KekDecryptionError(error)),
                ),
                Ok(key) => match decrypted(data, key, path) {
                    Ok(value) => Ok(value),
                    Err(error) => Err(Failure::InvalidValue(error)),
                },
            },
        },
    }
}

/// What the value at `path` of a document decrypts to.
pub open spec fn file_decrypted(
    entries: Seq<Entry>,
    stanzas: Seq<Age>,
    path: Seq<Seq<char>>,
    keyfile: Seq<char>,
) -> Result<Plain, Failure> {
    match leaf_at(entries, path) {
        None => Err(Failure::MissingData(joined(path, "."@))),
        Some(data) => value_decrypted(path, data, keyfile, stanzas),
    }
}

/// Decrypts the leaf `data` found at `path`, with the identities of the
/// identity file `keyfile`.
pub fn decrypt(path: &[&str], data: &str, keyfile: &str, sops: &SopsData) -> (value: Result<
    DecryptedValue,
    Error,
>)
    ensures
        outcome(value) == value_decrypted(path.deep_view(), data@, keyfile@, sops.age@),
{
    let recipients = match get_public_keys(keyfile) {
        Ok(recipients) => recipients,
        Err(_) => return Err(Error::DecryptionError(DecryptionError::NoKey)),
    };
    let stanza = match select_recipient(&sops.age, &recipients) {
        Some(stanza) => stanza,
        None => return Err(Error::DecryptionError(DecryptionError::NoRecipients)),
    };
    let key = match decrypt_kek(stanza.enc.as_str(), keyfile) {
        Ok(key) => key,
        Err(error) => return Err(
            Error::DecryptionError(DecryptionError::KekDecryptionError(error)),
        ),
    };
    match crate::enc::age::decrypt(data.to_owned(), &key, to_strings(path)) {
        Ok(value) => Ok(value),
        Err(error) => Err(Error::InvalidValue(error)),
    }
}

/// A loaded SOPS document.
pub trait SopsFile {
    /// The entries at the top of the document, the metadata aside.
    spec fn entries(&self) -> Seq<Entry>;

    /// The metadata of the document.
    spec fn metadata(&self) -> SopsData;

    /// The encrypted leaf at the dotted path `key`.
    fn get_key<'a>(&'a self, key: &[&str]) -> (leaf: Option<&'a String>)
        ensures
            leaf.deep_view() == leaf_at(self.entries(), key.deep_view()),
    ;

    fn sops_metadata(&self) -> (metadata: &SopsData)
        ensures
            *metadata == self.metadata(),
    ;

    /// Decrypts the value at the dotted path `key` with the identities of
    /// the identity file `keyfile`.
    fn decrypt(&self, key: &[&str], keyfile: &str) -> (value: Result<DecryptedValue, Error>)
        ensures
            outcome(value) == file_decrypted(
                self.entries(),
                self.metadata().age@,
                key.deep_view(),
                keyfile@,
            ),
    {
        match self.get_key(key) {
            Some(data) => self::decrypt(key, data.as_str(), keyfile, self.sops_metadata()),
            None => Err(Error::MissingData(join(&to_strings(key), "."))),
        }
    }
}

/// The leaf at `key` below the top-level entries of a document.
pub fn leaf_of<'a>(entries: &'a Vec<Entry>, key: &[&str]) -> (leaf: Option<&'a String>)
    ensures
        leaf.deep_view() == leaf_at(entries@, key.deep_view()),
{
    if key.len() == 0 {
        return None;
    }
    assert(key.deep_view()[0] == key@[0]@);
    match find_entry(entries, key[0]) {
        Some(child) => {
            let rest = vstd::slice::slice_subrange(key, 1, key.len());
            assert(rest.deep_view() =~= key.deep_view().drop_first());
            child.get_nested(rest)
        },
        None => None,
    }
}

/// A document that was written as YAML.
#[derive(Debug, PartialEq, Eq)]
pub struct YamlSopsFile {
    pub sops: SopsData,
    pub other: Vec<Entry>,
}

/// A document that was written as JSON.
#[derive(Debug, PartialEq, Eq)]
pub struct JsonSopsFile {
    pub sops: SopsData,
    pub other: Vec<Entry>,
}

impl SopsFile for YamlSopsFile {
    open spec fn entries(&self) -> Seq<Entry> {
        self.other@
    }

    open spec fn metadata(&self) -> SopsData {
        self.sops
    }

    fn get_key<'a>(&'a self, key: &[&str]) -> (leaf: Option<&'a String>) {
        leaf_of(&self.other, key)
    }

    fn sops_metadata(&self) -> (metadata: &SopsData) {
        &self.sops
    }
}

impl SopsFile for JsonSopsFile {
    open spec fn entries(&self) -> Seq<Entry> {
        self.other@
    }

    open spec fn metadata(&self) -> SopsData {
        self.sops
    }

    fn get_key<'a>(&'a self, key: &[&str]) -> (leaf: Option<&'a String>) {
        leaf_of(&self.other, key)
    }

    fn sops_metadata(&self) -> (metadata: &SopsData) {
        &self.sops
    }
}

/// A loaded document of either flavour.
#[derive(Debug, PartialEq, Eq)]
pub enum SopsDocument {
    Yaml(YamlSopsFile),
    Json(JsonSopsFile),
}

impl SopsFile for SopsDocument {
    open spec fn entries(&self) -> Seq<Entry> {
        match self {
            SopsDocument::Yaml(file) => file.other@,
            SopsDocument::Json(file) => file.other@,
        }
    }

    open spec fn metadata(&self) -> SopsData {
        match self {
            SopsDocument::Yaml(file) => file.sops,
            SopsDocument::Json(file) => file.sops,
        }
    }

    fn get_key<'a>(&'a self, key: &[&str]) -> (leaf: Option<&'a String>) {
        match self {
            SopsDocument::Yaml(file) => file.get_key(key),
            SopsDocument::Json(file) => file.get_key(key),
        }
    }

    fn sops_metadata(&self) -> (metadata: &SopsData) {
        match self {
            SopsDocument::Yaml(file) => file.sops_metadata(),
            SopsDocument::Json(file) => file.sops_metadata(),
        }
    }
}

} // verus!
