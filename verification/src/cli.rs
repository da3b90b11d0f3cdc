//! What the two commands decide: whether a manifest is sound, and what an
//! installation consists of.

use vstd::prelude::*;
use crate::enc::age::{DecryptedValue, Plain};
use crate::generation::cleanup::is_cleanup_of;
use crate::generation::plan::{is_activation_of, is_id, plain, planning_error};
use crate::generation::{
    activate_new_generation, clean_old_generations, Activation, Cleanup,
    DeployedSecretsMetadata, FileSystemMetadata, Generation,
};
use crate::manifest::{SecnixManifest, SecretFile, MAX_SUPPORTED_VERSION};
use crate::sops::{file_decrypted, leaf_at, SopsDocument, SopsFile};
use crate::ssh::{age_key, openssh_key_data, AgeKey, PrivateKey};
use crate::text::{
    find_first, occurs_at, replace, replaced, same_text, split, split_at_char, to_chars,
};

verus! {

/// The command line.
#[derive(Debug, Clone, PartialEq, Eq)]
pub struct Cli {
    /// The path of the manifest.
    pub manifest: String,
    pub command: Option<Commands>,
}

/// What the program is asked to do.
#[derive(Debug, Clone, Copy, PartialEq, Eq, Structural)]
pub enum Commands {
    /// Look the manifest over, and change nothing.
    Check,
    /// Install the secrets.
    Install,
}

impl Cli {
    /// The command that is run: the one given, and `Install` where none is.
    pub fn command(&self) -> (command: Commands)
        ensures
            command == match self.command {
                Some(command) => command,
                None => Commands::Install,
            },
    {
        match self.command {
            Some(command) => command,
            None => Commands::Install,
        }
    }
}

/// What a check found wrong.
#[derive(Debug, Clone, PartialEq, Eq)]
pub enum Reason {
    /// Two secrets have this name.
    DuplicateName(String),
    /// The document lists no age recipient.
    NoAgeKeys,
    /// The secret has no key, and is not binary.
    KeyNotInManifest,
    /// The document has no leaf at this dotted path.
    KeyNotInFile(String),
}

/// Why a command could not do its work.
#[derive(Debug, Clone, PartialEq, Eq)]
pub enum Error {
    /// The version of the manifest, and the highest one that is understood.
    UnsupportedVersion(u64, u64),
    /// What was checked, the manifest or a document, and what was found.
    CheckFailed(String, Reason),
    /// The document at this path was not loaded.
    Unreadable(String),
    /// There is not one document for each secret.
    Inputs,
    /// The base directory asks for the runtime directory, and there is none.
    NoRuntimeDirectory,
    /// The SSH key at this position of the manifest gives no age identity.
    InvalidSshKey(usize, crate::ssh::Error),
    /// The secret of this name did not decrypt.
    Decryption(String, crate::sops::Error),
    /// The installation could not be planned.
    Plan(crate::generation::Error),
}

/// A reason as a mathematical value.
pub enum Finding {
    DuplicateName(Seq<char>),
    NoAgeKeys,
    KeyNotInManifest,
    KeyNotInFile(Seq<char>),
}

/// An error as a mathematical value.
pub enum Failure {
    UnsupportedVersion(u64, u64),
    CheckFailed(Seq<char>, Finding),
    Unreadable(Seq<char>),
    Inputs,
    NoRuntimeDirectory,
    InvalidSshKey(usize, crate::ssh::Error),
    Decryption(Seq<char>, crate::sops::Failure),
    Plan(crate::generation::Error),
}

impl View for Reason {
    type V = Finding;

    open spec fn view(&self) -> Finding {
        match self {
            Reason::DuplicateName(name) => Finding::DuplicateName(name@),
            Reason::NoAgeKeys => Finding::NoAgeKeys,
            Reason::KeyNotInManifest => Finding::KeyNotInManifest,
            Reason::KeyNotInFile(key) => Finding::KeyNotInFile(key@),
        }
    }
}

impl View for Error {
    type V = Failure;

    open spec fn view(&self) -> Failure {
        match self {
            Error::UnsupportedVersion(version, supported) => Failure::UnsupportedVersion(
                *version,
                *supported,
            ),
            Error::CheckFailed(subject, reason) => Failure::CheckFailed(subject@, reason@),
            Error::Unreadable(source) => Failure::Unreadable(source@),
            Error::Inputs => Failure::Inputs,
            Error::NoRuntimeDirectory => Failure::NoRuntimeDirectory,
            Error::InvalidSshKey(position, error) => Failure::InvalidSshKey(*position, *error),
            Error::Decryption(name, error) => Failure::Decryption(name@, error@),
            Error::Plan(error) => Failure::Plan(*error),
        }
    }
}

/// What a result without a value holds, as a mathematical value.
pub open spec fn verdict(result: Result<(), Error>) -> Result<(), Failure> {
    match result {
        Ok(_) => Ok(()),
        Err(error) => Err(error@),
    }
}

/// Accepts a manifest whose version is understood.
pub fn load_manifest(manifest: SecnixManifest) -> (loaded: Result<SecnixManifest, Error>)
    ensures
        match loaded {
            Ok(loaded) => manifest.version <= MAX_SUPPORTED_VERSION && loaded == manifest,
            Err(error) => manifest.version > MAX_SUPPORTED_VERSION && error@
                == Failure::UnsupportedVersion(manifest.version, MAX_SUPPORTED_VERSION),
        },
{
    if manifest.version > MAX_SUPPORTED_VERSION {
        Err(Error::UnsupportedVersion(manifest.version, MAX_SUPPORTED_VERSION))
    } else {
        Ok(manifest)
    }
}

/// The names of the secrets, in the order of the manifest.
pub open spec fn names_of(files: Seq<SecretFile>) -> Seq<Seq<char>> {
    Seq::new(files.len(), |i: int| files[i].name@)
}

/// The first name, in the order of the list, that already stands earlier in
/// the list.
pub open spec fn first_duplicate(names: Seq<Seq<char>>) -> Option<Seq<char>>
    decreases names.len(),
{
    if names.len() == 0 {
        None
    } else {
        match first_duplicate(names.drop_last()) {
            Some(name) => Some(name),
            None => if names.drop_last().contains(names.last()) {
                Some(names.last())
            } else {
                None
            },
        }
    }
}

/// A list has a first duplicate exactly where some name stands in it twice.
pub proof fn lemma_first_duplicate(names: Seq<Seq<char>>)
    ensures
        first_duplicate(names).is_none() <==> names.no_duplicates(),
    decreases names.len(),
{
    if names.len() > 0 {
        let earlier = names.drop_last();
        lemma_first_duplicate(earlier);
        if first_duplicate(names).is_none() {
            assert forall|i: int, j: int| 0 <= i < names.len() && 0 <= j < names.len() && i
                != j implies names[i] != names[j] by {
                if i < earlier.len() && j < earlier.len() {
                    assert(earlier[i] != earlier[j]);
                } else if i < earlier.len() {
                    assert(earlier[i] == names[i]);
                } else {
                    assert(earlier[j] == names[j]);
                }
            }
        } else {
            if first_duplicate(earlier).is_some() {
                let (i, j) = choose|i: int, j: int|
                    0 <= i < earlier.len() && 0 <= j < earlier.len() && i != j && earlier[i]
                        == earlier[j];
                assert(names[i] == names[j]);
            } else {
                let i = choose|i: int| 0 <= i < earlier.len() && earlier[i] == names.last();
                assert(names[i] == names[names.len() - 1]);
            }
        }
    }
}

/// Looks for a name that two secrets share.
pub fn find_duplicate(files: &Vec<SecretFile>) -> (found: Option<String>)
    ensures
        found.deep_view() == first_duplicate(names_of(files@)),
{
    let ghost names = names_of(files@);
    let mut i: usize = 0;
    assert(names.take(0) =~= Seq::empty());
    while i < files.len()
        invariant
            i <= files.len(),
            names == names_of(files@),
            first_duplicate(names.take(i as int)).is_none(),
        decreases files.len() - i,
    {
        proof {
            assert(names.take(i + 1).drop_last() =~= names.take(i as int));
            assert(names.take(i + 1).last() == files@[i as int].name@);
        }
        let mut j: usize = 0;
        while j < i
            invariant
                j <= i < files.len(),
                names == names_of(files@),
                first_duplicate(names.take(i as int)).is_none(),
                forall|k: int| 0 <= k < j ==> names[k] != names[i as int],
            decreases i - j,
        {
            if same_text(files[j].name.as_str(), files[i].name.as_str()) {
                assert(names.take(i as int)[j as int] == names[i as int]);
                assert(names.take(files.len() as int) =~= names);
                proof {
                    lemma_first_duplicate_extends(names, i as int);
                }
                return Some(files[i].name.clone());
            }
            j += 1;
        }
        assert(!names.take(i as int).contains(names[i as int]));
        i += 1;
    }
    assert(names.take(files.len() as int) =~= names);
    None
}

/// Once the beginning of a list has a first duplicate, the whole list has
/// the same one.
pub proof fn lemma_first_duplicate_extends(names: Seq<Seq<char>>, at: int)
    requires
        0 <= at < names.len(),
        first_duplicate(names.take(at)).is_none(),
        names.take(at).contains(names[at]),
    ensures
        first_duplicate(names) == Some(names[at]),
    decreases names.len() - at,
{
    assert(names.take(at + 1).drop_last() =~= names.take(at));
    assert(names.take(at + 1).last() == names[at]);
    assert(first_duplicate(names.take(at + 1)) == Some(names[at]));
    lemma_first_duplicate_kept(names, at + 1);
}

/// A first duplicate of the beginning of a list is the first duplicate of
/// the list.
pub proof fn lemma_first_duplicate_kept(names: Seq<Seq<char>>, upto: int)
    requires
        0 <= upto <= names.len(),
        first_duplicate(names.take(upto)).is_some(),
    ensures
        first_duplicate(names) == first_duplicate(names.take(upto)),
    decreases names.len() - upto,
{
    if upto == names.len() {
        assert(names.take(upto) =~= names);
    } else {
        assert(names.take(upto + 1).drop_last() =~= names.take(upto));
        lemma_first_duplicate_kept(names, upto + 1);
    }
}

/// What the check of one secret against its document finds: the document
/// has to be loaded and to list a recipient, the secret has to have a key,
/// and the document a leaf at that key.
pub open spec fn secret_checked(file: SecretFile, document: Option<SopsDocument>) -> Result<
    (),
    Failure,
> {
    match document {
        None => Err(Failure::Unreadable(file.source@)),
        Some(document) => if document.metadata().age@.len() == 0 {
            Err(Failure::CheckFailed(file.source@, Finding::NoAgeKeys))
        } else {
            match file.effective_key() {
                None => Err(Failure::CheckFailed(file.source@, Finding::KeyNotInManifest)),
                Some(key) => match leaf_at(document.entries(), split(key, '.')) {
                    Some(_) => Ok(()),
                    None => Err(Failure::CheckFailed(file.source@, Finding::KeyNotInFile(key))),
                },
            }
        },
    }
}

/// Checks one secret against its document.
pub fn check_secret(file: &SecretFile, document: &Option<SopsDocument>) -> (result: Result<
    (),
    Error,
>)
    ensures
        verdict(result) == secret_checked(*file, *document),
{
    let document = match document {
        Some(document) => document,
        None => return Err(Error::Unreadable(file.source.clone())),
    };
    if document.sops_metadata().age.len() == 0 {
        return Err(Error::CheckFailed(file.source.clone(), Reason::NoAgeKeys));
    }
    let key = match file.get_key() {
        Some(key) => key,
        None => return Err(Error::CheckFailed(file.source.clone(), Reason::KeyNotInManifest)),
    };
    let path = split_at_char(key.as_str(), '.');
    match document.get_key(path.as_slice()) {
        Some(_) => Ok(()),
        None => Err(Error::CheckFailed(file.source.clone(), Reason::KeyNotInFile(key.clone()))),
    }
}

/// The first thing that the check of the secrets finds, in the order of the
/// manifest.
pub open spec fn secrets_checked(
    files: Seq<SecretFile>,
    documents: Seq<Option<SopsDocument>>,
) -> Result<(), Failure>
    decreases files.len(),
{
    if files.len() == 0 || documents.len() != files.len() {
        Ok(())
    } else {
        match secret_checked(files[0], documents[0]) {
            Err(failure) => Err(failure),
            Ok(_) => secrets_checked(files.drop_first(), documents.drop_first()),
        }
    }
}

/// What the check of a manifest finds: a version that is not understood,
/// else the first name that two secrets share, else the first secret, in
/// the order of the manifest, that does not stand the check against its
/// document.
pub open spec fn checked(
    subject: Seq<char>,
    manifest: SecnixManifest,
    documents: Seq<Option<SopsDocument>>,
) -> Result<(), Failure> {
    if manifest.version > MAX_SUPPORTED_VERSION {
        Err(Failure::UnsupportedVersion(manifest.version, MAX_SUPPORTED_VERSION))
    } else {
        match first_duplicate(names_of(manifest.secrets@)) {
            Some(name) => Err(Failure::CheckFailed(subject, Finding::DuplicateName(name))),
            None => if documents.len() != manifest.secrets@.len() {
                Err(Failure::Inputs)
            } else {
                secrets_checked(manifest.secrets@, documents)
            },
        }
    }
}

/// Every secret that stands the check has its document loaded, with a
/// recipient in it, and a key that leads to a leaf of the document.
pub proof fn lemma_checked_secrets_have_leaves(
    files: Seq<SecretFile>,
    documents: Seq<Option<SopsDocument>>,
    at: int,
)
    requires
        files.len() == documents.len(),
        secrets_checked(files, documents).is_ok(),
        0 <= at < files.len(),
    ensures
        documents[at].is_some(),
        documents[at].unwrap().metadata().age@.len() > 0,
        files[at].effective_key().is_some(),
        leaf_at(
            documents[at].unwrap().entries(),
            split(files[at].effective_key().unwrap(), '.'),
        ).is_some(),
    decreases files.len(),
{
    if at > 0 {
        assert(files.drop_first()[at - 1] == files[at]);
        assert(documents.drop_first()[at - 1] == documents[at]);
        lemma_checked_secrets_have_leaves(files.drop_first(), documents.drop_first(), at - 1);
    }
}

/// A manifest that stands the check is sound: its version is understood,
/// no two of its secrets share a name, and every secret has a leaf in its
/// document.
pub proof fn lemma_checked_manifest_is_sound(
    subject: Seq<char>,
    manifest: SecnixManifest,
    documents: Seq<Option<SopsDocument>>,
)
    requires
        checked(subject, manifest, documents).is_ok(),
    ensures
        manifest.version <= MAX_SUPPORTED_VERSION,
        names_of(manifest.secrets@).no_duplicates(),
        documents.len() == manifest.secrets@.len(),
        secrets_checked(manifest.secrets@, documents).is_ok(),
{
    lemma_first_duplicate(names_of(manifest.secrets@));
}

/// Checks a manifest against the documents of its secrets, `documents`
/// holding for each secret, in the order of the manifest, its document or
/// nothing where the document could not be loaded.
pub fn check(args: &Cli, manifest: &SecnixManifest, documents: &Vec<Option<SopsDocument>>) -> (result:
    Result<(), Error>)
    ensures
        verdict(result) == checked(args.manifest@, *manifest, documents@),
{
    if manifest.version > MAX_SUPPORTED_VERSION {
        return Err(Error::UnsupportedVersion(manifest.version, MAX_SUPPORTED_VERSION));
    }
    match find_duplicate(&manifest.secrets) {
        Some(name) => {
            return Err(Error::CheckFailed(args.manifest.clone(), Reason::DuplicateName(name)));
        },
        None => {},
    }
    if documents.len() != manifest.secrets.len() {
        return Err(Error::Inputs);
    }
    let files = &manifest.secrets;
    let n = files.len();
    let mut i: usize = 0;
    assert(files@.skip(0) =~= files@);
    assert(documents@.skip(0) =~= documents@);
    while i < n
        invariant
            i <= n,
            n == files.len(),
            n == documents.len(),
            files@ == manifest.secrets@,
            manifest.version <= MAX_SUPPORTED_VERSION,
            first_duplicate(names_of(manifest.secrets@)).is_none(),
            secrets_checked(files@, documents@) == secrets_checked(
                files@.skip(i as int),
                documents@.skip(i as int),
            ),
        decreases n - i,
    {
        proof {
            assert(files@.skip(i as int)[0] == files@[i as int]);
            assert(documents@.skip(i as int)[0] == documents@[i as int]);
            assert(files@.skip(i as int).drop_first() =~= files@.skip(i + 1));
            assert(documents@.skip(i as int).drop_first() =~= documents@.skip(i + 1));
        }
        match check_secret(&files[i], &documents[i]) {
            Ok(_) => {},
            Err(error) => {
                return Err(error);
            },
        }
        i += 1;
    }
    Ok(())
}

/// The mark `%r` stands somewhere in `directory`.
pub open spec fn names_runtime_directory(directory: Seq<char>) -> bool {
    exists|at: int| occurs_at(directory, at, "%r"@)
}

/// The base directory of an installation: the configured one, with the
/// runtime directory in the place of every `%r`.
pub open spec fn secret_directory(directory: Seq<char>, runtime: Option<Seq<char>>) -> Result<
    Seq<char>,
    Failure,
> {
    if names_runtime_directory(directory) {
        match runtime {
            Some(runtime) => Ok(replaced(directory, "%r"@, runtime)),
            None => Err(Failure::NoRuntimeDirectory),
        }
    } else {
        Ok(directory)
    }
}

/// Whether the base directory of the manifest asks for the runtime
/// directory.
pub fn uses_runtime_directory(manifest: &SecnixManifest) -> (uses: bool)
    ensures
        uses == names_runtime_directory(manifest.secret_directory@),
{
    let directory = to_chars(manifest.secret_directory.as_str());
    let mark = to_chars("%r");
    match find_first(directory.as_slice(), mark.as_slice(), 0) {
        Some(at) => true,
        None => {
            assert forall|at: int| !occurs_at(manifest.secret_directory@, at, "%r"@) by {
                if at < 0 {
                }
            }
            false
        },
    }
}

/// The base directory of an installation, `runtime` being the runtime
/// directory of the user where there is one.
pub fn get_secret_directory(manifest: &SecnixManifest, runtime: &Option<String>) -> (directory:
    Result<String, Error>)
    ensures
        match directory {
            Ok(directory) => secret_directory(manifest.secret_directory@, runtime.deep_view())
                == Ok::<Seq<char>, Failure>(directory@),
            Err(error) => secret_directory(manifest.secret_directory@, runtime.deep_view())
                == Err::<Seq<char>, Failure>(error@),
        },
{
    if uses_runtime_directory(manifest) {
        match runtime {
            Some(runtime) => Ok(replace(manifest.secret_directory.as_str(), "%r", runtime.as_str())),
            None => Err(Error::NoRuntimeDirectory),
        }
    } else {
        Ok(manifest.secret_directory.clone())
    }
}

/// The two lines of an identity file that hold one identity: the recipient
/// as a comment, then the secret key.
pub open spec fn identity_lines(recipient: Seq<char>, secret: Seq<char>) -> Seq<char> {
    "# "@ + recipient + "\n"@ + secret + "\n"@
}

/// The identity file of a list of OpenSSH private keys, or the position of
/// the first key that gives no identity, and why.
pub open spec fn identity_file(keys: Seq<Vec<u8>>) -> Result<Seq<char>, Failure>
    decreases keys.len(),
{
    if keys.len() == 0 {
        Ok(Seq::empty())
    } else {
        match identity_file(keys.drop_last()) {
            Err(failure) => Err(failure),
            Ok(text) => match openssh_key_data(keys.last()@) {
                None => Err(
                    Failure::InvalidSshKey(
                        (keys.len() - 1) as usize,
                        crate::ssh::Error::InvalidFormat,
                    ),
                ),
                Some(key) => match age_key(key) {
                    Err(error) => Err(Failure::InvalidSshKey((keys.len() - 1) as usize, error)),
                    Ok((recipient, secret)) => Ok(text + identity_lines(recipient, secret)),
                },
            },
        }
    }
}

/// Adds the lines of one identity to an identity file.
pub fn write_identity(file: &mut String, key: &AgeKey)
    ensures
        final(file)@ == old(file)@ + identity_lines(key.public_key@, key.private_key@),
{
    file.append("# ");
    file.append(key.public_key.as_str());
    file.append("\n");
    file.append(key.private_key.as_str());
    file.append("\n");
    assert(file@ =~= old(file)@ + identity_lines(key.public_key@, key.private_key@));
}

/// Writes the identity file of the OpenSSH private keys `keys`, each given
/// as the bytes of its file.
pub fn write_ssh_keys(keys: &Vec<Vec<u8>>) -> (file: Result<String, Error>)
    ensures
        match file {
            Ok(file) => identity_file(keys@) == Ok::<Seq<char>, Failure>(file@),
            Err(error) => identity_file(keys@) == Err::<Seq<char>, Failure>(error@),
        },
{
    let mut file = String::new();
    let mut i: usize = 0;
    assert(keys@.take(0) =~= Seq::empty());
    while i < keys.len()
        invariant
            i <= keys.len(),
            identity_file(keys@.take(i as int)) == Ok::<Seq<char>, Failure>(file@),
        decreases keys.len() - i,
    {
        proof {
            assert(keys@.take(i + 1).drop_last() =~= keys@.take(i as int));
            assert(keys@.take(i + 1).last() == keys@[i as int]);
        }
        let derived = match PrivateKey::from_openssh(keys[i].as_slice()) {
            Ok(key) => AgeKey::try_from(key),
            Err(error) => Err(error),
        };
        match derived {
            Ok(key) => write_identity(&mut file, &key),
            Err(error) => {
                proof {
                    lemma_identity_file_fails(keys@, i as int);
                }
                return Err(Error::InvalidSshKey(i, error));
            },
        }
        i += 1;
    }
    assert(keys@.take(keys.len() as int) =~= keys@);
    Ok(file)
}

/// Where the identity file of the first keys cannot be written, that of
/// all keys cannot either, for the same reason.
pub proof fn lemma_identity_file_fails(keys: Seq<Vec<u8>>, at: int)
    requires
        0 <= at < keys.len(),
        identity_file(keys.take(at + 1)).is_err(),
    ensures
        identity_file(keys) == identity_file(keys.take(at + 1)),
    decreases keys.len() - at,
{
    if at + 1 == keys.len() {
        assert(keys.take(at + 1) =~= keys);
    } else {
        assert(keys.take(at + 2).drop_last() =~= keys.take(at + 1));
        lemma_identity_file_fails(keys, at + 1);
    }
}

/// What one secret decrypts to: nothing where it has no key, else the value
/// at its key in its document.
pub open spec fn secret_decrypted(
    file: SecretFile,
    document: Option<SopsDocument>,
    keyfile: Seq<char>,
) -> Result<Option<Plain>, Failure> {
    match document {
        None => Err(Failure::Unreadable(file.source@)),
        Some(document) => match file.effective_key() {
            None => Ok(None),
            Some(key) => match file_decrypted(
                document.entries(),
                document.metadata().age@,
                split(key, '.'),
                keyfile,
            ) {
                Ok(value) => Ok(Some(value)),
                Err(failure) => Err(Failure::Decryption(file.name@, failure)),
            },
        },
    }
}

/// Decrypts one secret with the identities of the identity file `keyfile`.
pub fn decrypt_secret(file: &SecretFile, document: &Option<SopsDocument>, keyfile: &str) -> (value:
    Result<Option<DecryptedValue>, Error>)
    ensures
        match value {
            Ok(value) => secret_decrypted(*file, *document, keyfile@) == Ok::<
                Option<Plain>,
                Failure,
            >(plain(value)),
            Err(error) => secret_decrypted(*file, *document, keyfile@) == Err::<
                Option<Plain>,
                Failure,
            >(error@),
        },
{
    let document = match document {
        Some(document) => document,
        None => return Err(Error::Unreadable(file.source.clone())),
    };
    let key = match file.get_key() {
        Some(key) => key,
        None => return Ok(None),
    };
    let path = split_at_char(key.as_str(), '.');
    match document.decrypt(path.as_slice(), keyfile) {
        Ok(value) => Ok(Some(value)),
        Err(error) => Err(Error::Decryption(file.name.clone(), error)),
    }
}

/// The values of the decrypted secrets, as mathematical values.
pub open spec fn plains(values: Seq<Option<DecryptedValue>>) -> Seq<Option<Plain>> {
    Seq::new(values.len(), |i: int| plain(values[i]))
}

/// What the secrets decrypt to, in the order of the manifest, or what went
/// wrong with the first one that did not decrypt.
pub open spec fn secrets_decrypted(
    files: Seq<SecretFile>,
    documents: Seq<Option<SopsDocument>>,
    keyfile: Seq<char>,
) -> Result<Seq<Option<Plain>>, Failure>
    decreases files.len(),
{
    if documents.len() != files.len() {
        Err(Failure::Inputs)
    } else if files.len() == 0 {
        Ok(Seq::empty())
    } else {
        match secrets_decrypted(files.drop_last(), documents.drop_last(), keyfile) {
            Err(failure) => Err(failure),
            Ok(values) => match secret_decrypted(files.last(), documents.last(), keyfile) {
                Err(failure) => Err(failure),
                Ok(value) => Ok(values.push(value)),
            },
        }
    }
}

/// Where the first secrets do not decrypt, the secrets do not decrypt, for
/// the same reason.
pub proof fn lemma_secrets_decrypted_fails(
    files: Seq<SecretFile>,
    documents: Seq<Option<SopsDocument>>,
    keyfile: Seq<char>,
    at: int,
)
    requires
        files.len() == documents.len(),
        0 <= at <= files.len(),
        secrets_decrypted(files.take(at), documents.take(at), keyfile).is_err(),
    ensures
        secrets_decrypted(files, documents, keyfile) == secrets_decrypted(
            files.take(at),
            documents.take(at),
            keyfile,
        ),
    decreases files.len() - at,
{
    if at == files.len() {
        assert(files.take(at) =~= files);
        assert(documents.take(at) =~= documents);
    } else {
        assert(files.take(at + 1).drop_last() =~= files.take(at));
        assert(documents.take(at + 1).drop_last() =~= documents.take(at));
        lemma_secrets_decrypted_fails(files, documents, keyfile, at + 1);
    }
}

/// Decrypts the secrets of a manifest with the identities of the identity
/// file `keyfile`, `documents` holding for each secret its document or
/// nothing where the document could not be loaded.
pub fn decrypt_secrets(
    files: &Vec<SecretFile>,
    documents: &Vec<Option<SopsDocument>>,
    keyfile: &str,
) -> (values: Result<Vec<Option<DecryptedValue>>, Error>)
    ensures
        match values {
            Ok(values) => secrets_decrypted(files@, documents@, keyfile@) == Ok::<
                Seq<Option<Plain>>,
                Failure,
            >(plains(values@)),
            Err(error) => secrets_decrypted(files@, documents@, keyfile@) == Err::<
                Seq<Option<Plain>>,
                Failure,
            >(error@),
        },
{
    if documents.len() != files.len() {
        return Err(Error::Inputs);
    }
    let n = files.len();
    let mut values: Vec<Option<DecryptedValue>> = Vec::new();
    let mut i: usize = 0;
    assert(files@.take(0) =~= Seq::empty());
    assert(documents@.take(0) =~= Seq::empty());
    assert(plains(values@) =~= Seq::empty());
    while i < n
        invariant
            i <= n,
            n == files.len(),
            n == documents.len(),
            secrets_decrypted(files@.take(i as int), documents@.take(i as int), keyfile@) == Ok::<
                Seq<Option<Plain>>,
                Failure,
            >(plains(values@)),
        decreases n - i,
    {
        proof {
            assert(files@.take(i + 1).drop_last() =~= files@.take(i as int));
            assert(documents@.take(i + 1).drop_last() =~= documents@.take(i as int));
            assert(files@.take(i + 1).last() == files@[i as int]);
            assert(documents@.take(i + 1).last() == documents@[i as int]);
        }
        match decrypt_secret(&files[i], &documents[i], keyfile) {
            Ok(value) => {
                let ghost before = plains(values@);
                values.push(value);
                assert(plains(values@) =~= before.push(plain(value)));
            },
            Err(error) => {
                proof {
                    lemma_secrets_decrypted_fails(files@, documents@, keyfile@, i + 1);
                }
                return Err(error);
            },
        }
        i += 1;
    }
    assert(files@.take(n as int) =~= files@);
    assert(documents@.take(n as int) =~= documents@);
    Ok(values)
}

/// A planned installation with the clean-up that follows it.
#[derive(Debug, Clone, PartialEq, Eq)]
pub struct Installation {
    /// The base directory.
    pub directory: String,
    pub activation: Activation,
    pub cleanup: Cleanup,
}

/// Why an installation cannot be planned, if it cannot: the version of the
/// manifest has to be understood, the runtime directory known where the
/// base directory names it, and the inputs such that the generation can be
/// planned.
pub open spec fn installation_error(
    manifest: SecnixManifest,
    runtime: Option<Seq<char>>,
    values: Seq<Option<DecryptedValue>>,
    sources: Seq<String>,
    metadata: FileSystemMetadata,
) -> Option<Failure> {
    if manifest.version > MAX_SUPPORTED_VERSION {
        Some(Failure::UnsupportedVersion(manifest.version, MAX_SUPPORTED_VERSION))
    } else if secret_directory(manifest.secret_directory@, runtime).is_err() {
        Some(Failure::NoRuntimeDirectory)
    } else {
        match planning_error(manifest.secrets@, manifest.templates@, values, sources, metadata) {
            Some(error) => Some(Failure::Plan(error)),
            None => None,
        }
    }
}

/// Plans an installation and the clean-up that leaves one generation: the
/// manifest has to be of a version that is understood, the base directory
/// is worked out with the runtime directory `runtime`, the generation is
/// planned with the values of the secrets, the texts of the templates, the
/// record of the base directory and what the generation before published,
/// and the clean-up is planned for the record that the installation leaves.
pub fn install(
    manifest: &SecnixManifest,
    runtime: &Option<String>,
    values: &Vec<Option<DecryptedValue>>,
    sources: &Vec<String>,
    metadata: FileSystemMetadata,
    previous: &Option<DeployedSecretsMetadata>,
    now: u64,
) -> (planned: Result<Installation, Error>)
    ensures
        match planned {
            Ok(installation) => {
                &&& installation_error(
                    *manifest,
                    runtime.deep_view(),
                    values@,
                    sources@,
                    metadata,
                ).is_none()
                &&& secret_directory(manifest.secret_directory@, runtime.deep_view()) == Ok::<
                    Seq<char>,
                    Failure,
                >(installation.directory@)
                &&& is_id(installation.activation.generation_id@)
                &&& is_id(installation.activation.pointer_id@)
                &&& is_activation_of(
                    installation.activation,
                    installation.directory@,
                    manifest.secrets@,
                    manifest.templates@,
                    values@,
                    sources@,
                    metadata,
                    *previous,
                    now,
                )
                &&& is_cleanup_of(
                    installation.cleanup,
                    installation.directory@,
                    installation.activation.metadata,
                    1,
                )
                &&& installation.cleanup.metadata.wf()
            },
            Err(error) => installation_error(
                *manifest,
                runtime.deep_view(),
                values@,
                sources@,
                metadata,
            ) == Some(error@),
        },
{
    if manifest.version > MAX_SUPPORTED_VERSION {
        return Err(Error::UnsupportedVersion(manifest.version, MAX_SUPPORTED_VERSION));
    }
    let directory = match get_secret_directory(manifest, runtime) {
        Ok(directory) => directory,
        Err(error) => return Err(error),
    };
    let activation = match activate_new_generation(
        directory.as_str(),
        &manifest.secrets,
        &manifest.templates,
        values,
        sources,
        metadata,
        previous,
        now,
    ) {
        Ok(activation) => activation,
        Err(error) => return Err(Error::Plan(error)),
    };
    let installed = FileSystemMetadata {
        generations: copy_generations(&activation.metadata.generations),
        active_generation: activation.metadata.active_generation.clone(),
    };
    assert(installed@ == activation.metadata@);
    let cleanup = clean_old_generations(directory.as_str(), installed, 1);
    Ok(Installation { directory, activation, cleanup })
}

/// A copy of a list of generations.
pub fn copy_generations(generations: &Vec<Generation>) -> (copy: Vec<
    Generation,
>)
    ensures
        copy.deep_view() == generations.deep_view(),
{
    let mut copy: Vec<Generation> = Vec::new();
    let mut i: usize = 0;
    while i < generations.len()
        invariant
            i <= generations.len(),
            copy@.len() == i,
            forall|j: int| 0 <= j < i ==> copy@[j].deep_view() == generations@[j].deep_view(),
        decreases generations.len() - i,
    {
        copy.push(
            Generation {
                timestamp: generations[i].timestamp,
                id: generations[i].id.clone(),
            },
        );
        i += 1;
    }
    assert(copy.deep_view() =~= generations.deep_view());
    copy
}

} // verus!
