//! The manifest: which secrets and templates an installation is made of.

use vstd::prelude::*;

verus! {

/// The highest manifest version this library understands.
pub const MAX_SUPPORTED_VERSION: u64 = 1;

/// The flavour of an encrypted source document.
#[derive(Debug, Clone, Copy, PartialEq, Eq, Structural)]
pub enum FileType {
    Json,
    Yaml,
    Binary,
}

/// One secret of the manifest.
#[derive(Debug, Clone, PartialEq, Eq)]
pub struct SecretFile {
    /// The flavour of the source document.
    pub file_type: FileType,
    /// The basename of the secret inside a generation directory.
    pub name: String,
    /// The path of the encrypted document.
    pub source: String,
    /// The dotted path of the value inside the document, if one is configured.
    pub key: Option<String>,
    /// Where the secret is published, if anywhere.
    pub link: Option<String>,
    /// The permission bits, written as three octal digits.
    pub mode: Option<String>,
    /// The owning user, by name.
    pub owner: Option<String>,
    /// The owning group, by name.
    pub group: Option<String>,
}

/// The key that is used when a binary secret configures none.
pub open spec fn default_binary_key() -> Seq<char> {
    seq!['d', 'a', 't', 'a']
}

/// One template of the manifest.
#[derive(Debug, Clone, PartialEq, Eq)]
pub struct Template {
    /// The basename of the rendered file inside a generation directory.
    pub name: String,
    /// The path of the template text.
    pub source: String,
    /// Where the rendered file is published.
    pub destination: String,
    /// Whether the rendered file is copied to its destination, not linked.
    pub copy: Option<bool>,
    /// The permission bits, written as three octal digits.
    pub mode: Option<String>,
    /// The owning user, by name.
    pub owner: Option<String>,
    /// The owning group, by name.
    pub group: Option<String>,
}

/// What is to be installed, and where.
#[derive(Debug, Clone, PartialEq, Eq)]
pub struct SecnixManifest {
    pub version: u64,
    pub secrets: Vec<SecretFile>,
    /// The OpenSSH private keys that the secrets are decrypted with.
    pub ssh_keys: Vec<String>,
    /// The base directory; `%r` in it stands for the runtime directory.
    pub secret_directory: String,
    pub templates: Vec<Template>,
}

impl SecnixManifest {
    /// A manifest of these parts.
    pub fn new(
        version: u64,
        secrets: Vec<SecretFile>,
        ssh_keys: Vec<String>,
        secret_directory: String,
        templates: Vec<Template>,
    ) -> (manifest: SecnixManifest)
        ensures
            manifest.version == version,
            manifest.secrets == secrets,
            manifest.ssh_keys == ssh_keys,
            manifest.secret_directory == secret_directory,
            manifest.templates == templates,
    {
        SecnixManifest { version, secrets, ssh_keys, secret_directory, templates }
    }
}

impl Template {
    /// Whether the rendered file is copied: only where the manifest says so.
    pub open spec fn copies(&self) -> bool {
        self.copy == Some(true)
    }
}

impl SecretFile {
    /// The dotted path under which the secret is looked up: the configured
    /// key, else `data` for a binary secret, else nothing.
    pub open spec fn effective_key(&self) -> Option<Seq<char>> {
        match self.key {
            Some(key) => Some(key@),
            None => if self.file_type == FileType::Binary {
                Some(default_binary_key())
            } else {
                None
            },
        }
    }

    /// The dotted path under which the secret is looked up.
    pub fn get_key(&self) -> (key: Option<String>)
        ensures
            key.deep_view() == self.effective_key(),
    {
        match &self.key {
            Some(key) => Some(key.clone()),
            None => {
                if self.file_type == FileType::Binary {
                    proof {
                        reveal_strlit("data");
                    }
                    let key = "data".to_string();
                    assert(key@ =~= default_binary_key());
                    Some(key)
                } else {
                    None
                }
            },
        }
    }
}

} // verus!
