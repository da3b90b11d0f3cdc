//! The steps of which a plan is made, and the paths they speak of.

use vstd::prelude::*;
use vstd::utf8::encode_utf8;
use crate::enc::age::{DecryptedValue, Plain};
use crate::number::{decimal, format_i64};
use crate::text::{chained, to_chars};

verus! {

/// What an installation found worth a warning, and went on.
#[derive(Debug, Clone, PartialEq, Eq)]
pub enum Warning {
    /// The secret `name` has no key to look up, and was left out.
    MissingKey { name: String },
    /// The secret `name` is a comment, which has no content.
    UnsupportedType { name: String },
    /// The mode configured for `path` is not three octal digits, and the
    /// file keeps the mode it was created with.
    InvalidMode { path: String },
    /// The rendered template `template` still holds the placeholder of
    /// `name`, for which no secret stands.
    UnknownSecret { template: String, name: String },
}

/// One change to the file system. A caller carries the steps out in their
/// order and stops at the first one that fails, unless the step says that
/// its failure is only worth a warning.
#[derive(Debug, Clone, PartialEq, Eq)]
pub enum Step {
    /// Create the directory `path` and the directories above it.
    CreateDirAll { path: String },
    /// Create the directory that holds `path`, and those above it.
    CreateParents { path: String },
    /// Write what the generation publishes to `path`.
    WriteGenerationMetadata { path: String },
    /// Create or truncate `path` with mode `0o600` and write `content`.
    WriteFile { path: String, content: Vec<u8> },
    /// Set the mode of `path`, then its owner and its group where they are
    /// known by name. A failure is worth a warning.
    SetPermissions { path: String, mode: u32, owner: Option<String>, group: Option<String> },
    /// Create `link` as a symbolic link to `target`.
    Symlink { target: String, link: String },
    /// Rename `from` to `to`, over what is there.
    Rename { from: String, to: String },
    /// Copy the bytes of `from` to `to`.
    Copy { from: String, to: String },
    /// Remove the file `path`. A failure is worth a warning.
    RemoveFile { path: String },
    /// Remove the directory `path` with all it holds. A failure is worth a
    /// warning.
    RemoveDirAll { path: String },
    /// Write the record of the base directory to `path`. Where `lenient`,
    /// a failure is worth a warning.
    WriteFleetMetadata { path: String, lenient: bool },
    Warn { warning: Warning },
}

/// A warning as a mathematical value.
pub enum Caution {
    MissingKey { name: Seq<char> },
    UnsupportedType { name: Seq<char> },
    InvalidMode { path: Seq<char> },
    UnknownSecret { template: Seq<char>, name: Seq<char> },
}

/// A step as a mathematical value.
pub enum Change {
    CreateDirAll { path: Seq<char> },
    CreateParents { path: Seq<char> },
    WriteGenerationMetadata { path: Seq<char> },
    WriteFile { path: Seq<char>, content: Seq<u8> },
    SetPermissions {
        path: Seq<char>,
        mode: u32,
        owner: Option<Seq<char>>,
        group: Option<Seq<char>>,
    },
    Symlink { target: Seq<char>, link: Seq<char> },
    Rename { from: Seq<char>, to: Seq<char> },
    Copy { from: Seq<char>, to: Seq<char> },
    RemoveFile { path: Seq<char> },
    RemoveDirAll { path: Seq<char> },
    WriteFleetMetadata { path: Seq<char>, lenient: bool },
    Warn { warning: Caution },
}

impl DeepView for Warning {
    type V = Caution;

    open spec fn deep_view(&self) -> Caution {
        match self {
            Warning::MissingKey { name } => Caution::MissingKey { name: name@ },
            Warning::UnsupportedType { name } => Caution::UnsupportedType { name: name@ },
            Warning::InvalidMode { path } => Caution::InvalidMode { path: path@ },
            Warning::UnknownSecret { template, name } => Caution::UnknownSecret {
                template: template@,
                name: name@,
            },
        }
    }
}

impl DeepView for Step {
    type V = Change;

    open spec fn deep_view(&self) -> Change {
        match self {
            Step::CreateDirAll { path } => Change::CreateDirAll { path: path@ },
            Step::CreateParents { path } => Change::CreateParents { path: path@ },
            Step::WriteGenerationMetadata { path } => Change::WriteGenerationMetadata {
                path: path@,
            },
            Step::WriteFile { path, content } => Change::WriteFile {
                path: path@,
                content: content@,
            },
            Step::SetPermissions { path, mode, owner, group } => Change::SetPermissions {
                path: path@,
                mode: *mode,
                owner: owner.deep_view(),
                group: group.deep_view(),
            },
            Step::Symlink { target, link } => Change::Symlink { target: target@, link: link@ },
            Step::Rename { from, to } => Change::Rename { from: from@, to: to@ },
            Step::Copy { from, to } => Change::Copy { from: from@, to: to@ },
            Step::RemoveFile { path } => Change::RemoveFile { path: path@ },
            Step::RemoveDirAll { path } => Change::RemoveDirAll { path: path@ },
            Step::WriteFleetMetadata { path, lenient } => Change::WriteFleetMetadata {
                path: path@,
                lenient: *lenient,
            },
            Step::Warn { warning } => Change::Warn { warning: warning.deep_view() },
        }
    }
}

/// Adds one step to a list of steps.
pub fn push_step(steps: &mut Vec<Step>, step: Step)
    ensures
        final(steps).deep_view() == old(steps).deep_view().push(step.deep_view()),
{
    steps.push(step);
    assert(steps.deep_view() =~= old(steps).deep_view().push(step.deep_view()));
}

/// The directory of the generation `generation_id`.
pub open spec fn generation_path(basedir: Seq<char>, generation_id: Seq<char>) -> Seq<char> {
    basedir + "/generations/"@ + generation_id
}

/// The file in which a generation tells what it published.
pub open spec fn generation_metadata_path(basedir: Seq<char>, generation_id: Seq<char>) -> Seq<
    char,
> {
    generation_path(basedir, generation_id) + "/.metadata.json"@
}

/// The file in which a base directory records its generations.
pub open spec fn fleet_metadata_path(basedir: Seq<char>) -> Seq<char> {
    basedir + "/metadata.json"@
}

/// The link that points at the active generation.
pub open spec fn pointer_path(basedir: Seq<char>) -> Seq<char> {
    basedir + "/secrets"@
}

/// The file `name` in the directory `directory`.
pub open spec fn file_in(directory: Seq<char>, name: Seq<char>) -> Seq<char> {
    directory + "/"@ + name
}

/// The directory of the rendered templates below the directory `directory`.
pub open spec fn rendered_in(directory: Seq<char>) -> Seq<char> {
    directory + "/rendered"@
}

/// The file beside `destination` that is written first and then renamed
/// over it.
pub open spec fn temporary_path(destination: Seq<char>) -> Seq<char> {
    destination + ".tmp"@
}

/// The directory of the generation `generation_id`.
pub fn get_generation_path(basedir: &str, generation_id: &str) -> (path: String)
    ensures
        path@ == generation_path(basedir@, generation_id@),
{
    let mut path = chained(basedir, "/generations/");
    path.append(generation_id);
    path
}

/// The file in which the generation `generation_id` tells what it
/// published.
pub fn get_generation_metadata_path(basedir: &str, generation_id: &str) -> (path: String)
    ensures
        path@ == generation_metadata_path(basedir@, generation_id@),
{
    let mut path = get_generation_path(basedir, generation_id);
    path.append("/.metadata.json");
    path
}

/// The file `name` in the directory `directory`.
pub fn get_file_in(directory: &str, name: &str) -> (path: String)
    ensures
        path@ == file_in(directory@, name@),
{
    let mut path = chained(directory, "/");
    path.append(name);
    path
}

/// A digit of the octal system.
pub open spec fn is_octal_digit(c: char) -> bool {
    '0' <= c <= '7'
}

/// The permission bits that `text` writes: exactly three octal digits, read
/// as owner, group and others.
pub open spec fn octal_mode(text: Seq<char>) -> Option<u32> {
    if text.len() == 3 && is_octal_digit(text[0]) && is_octal_digit(text[1]) && is_octal_digit(
        text[2],
    ) {
        Some(
            ((text[0] as u32 - '0' as u32) * 64 + (text[1] as u32 - '0' as u32) * 8 + (text[2] as u32
                - '0' as u32)) as u32,
        )
    } else {
        None
    }
}

/// The mode that a file is given in the end: the configured one, `0o400`
/// where none is configured, and none where the configured one is not
/// three octal digits.
pub open spec fn final_mode(configured: Option<Seq<char>>) -> Option<u32> {
    match configured {
        Some(text) => octal_mode(text),
        None => Some(0o400),
    }
}

/// Reads a configured mode.
pub fn file_mode(configured: &Option<String>) -> (mode: Option<u32>)
    ensures
        mode == final_mode(configured.deep_view()),
        mode.is_some() ==> mode.unwrap() <= 0o777,
{
    match configured {
        None => Some(0o400),
        Some(text) => {
            let digits = to_chars(text.as_str());
            if digits.len() != 3 {
                return None;
            }
            let (a, b, c) = (digits[0], digits[1], digits[2]);
            if a < '0' || a > '7' || b < '0' || b > '7' || c < '0' || c > '7' {
                return None;
            }
            Some((a as u32 - '0' as u32) * 64 + (b as u32 - '0' as u32) * 8 + (c as u32 - '0' as u32))
        },
    }
}

/// The steps that give the file `path` its final mode and its owner.
pub open spec fn permission_changes(
    path: Seq<char>,
    configured: Option<Seq<char>>,
    owner: Option<Seq<char>>,
    group: Option<Seq<char>>,
) -> Seq<Change> {
    match final_mode(configured) {
        Some(mode) => seq![Change::SetPermissions { path, mode, owner, group }],
        None => seq![Change::Warn { warning: Caution::InvalidMode { path } }],
    }
}

/// Plans the step that gives the file `path` its final mode and its owner:
/// a warning in its place where the configured mode is none.
pub fn set_file_permissions(
    steps: &mut Vec<Step>,
    path: &str,
    permissions: &Option<String>,
    group: &Option<String>,
    user: &Option<String>,
)
    ensures
        final(steps).deep_view() == old(steps).deep_view() + permission_changes(
            path@,
            permissions.deep_view(),
            user.deep_view(),
            group.deep_view(),
        ),
{
    let step = match file_mode(permissions) {
        Some(mode) => Step::SetPermissions {
            path: path.to_owned(),
            mode,
            owner: user.clone(),
            group: group.clone(),
        },
        None => Step::Warn { warning: Warning::InvalidMode { path: path.to_owned() } },
    };
    push_step(steps, step);
    assert(steps.deep_view() =~= old(steps).deep_view() + seq![step.deep_view()]);
}

/// The bytes that are written for a value: text as UTF-8, numbers and
/// booleans as their decimal text, bytes as they are, and nothing for a
/// comment.
pub open spec fn content_of(value: Plain) -> Seq<u8> {
    match value {
        Plain::String(text) => encode_utf8(text),
        Plain::Int(number) => encode_utf8(decimal(number as int)),
        Plain::Float(text) => encode_utf8(text),
        Plain::Bytes(bytes) => bytes,
        Plain::Bool(flag) => encode_utf8(
            if flag {
                "true"@
            } else {
                "false"@
            },
        ),
        Plain::Comment => Seq::empty(),
    }
}

/// The text that stands for a value in a template: text, numbers and
/// booleans have one, bytes and comments have none.
pub open spec fn substitute_of(value: Plain) -> Option<Seq<char>> {
    match value {
        Plain::String(text) => Some(text),
        Plain::Int(number) => Some(decimal(number as int)),
        Plain::Float(text) => Some(text),
        Plain::Bool(flag) => Some(
            if flag {
                "true"@
            } else {
                "false"@
            },
        ),
        Plain::Bytes(_) => None,
        Plain::Comment => None,
    }
}

/// The text that stands for `value` in a template.
pub fn substitute(value: &DecryptedValue) -> (text: Option<String>)
    ensures
        text.deep_view() == substitute_of(value@),
{
    match value {
        DecryptedValue::String(text) => Some(text.clone()),
        DecryptedValue::Int(number) => Some(format_i64(*number)),
        DecryptedValue::Float(text) => Some(text.clone()),
        DecryptedValue::Bool(flag) => Some(
            if *flag {
                "true".to_owned()
            } else {
                "false".to_owned()
            },
        ),
        DecryptedValue::Bytes(_) => None,
        DecryptedValue::Comment(_) => None,
    }
}

/// The bytes that are written for `value`.
pub fn content(value: &DecryptedValue) -> (bytes: Vec<u8>)
    ensures
        bytes@ == content_of(value@),
{
    match value {
        DecryptedValue::Bytes(bytes) => bytes.clone(),
        DecryptedValue::Comment(_) => Vec::new(),
        _ => {
            let text = substitute(value);
            text.unwrap().as_str().as_bytes_vec()
        },
    }
}

} // verus!
