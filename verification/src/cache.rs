//! The schema cache's keys, limits and decisions: which stored record may be
//! served, and which document may be stored. Reading, writing and naming the
//! files is left to callers.
use std::path::PathBuf;
use vstd::prelude::*;
use crate::adapters::strings_view;
use crate::schema::validation::document_errors;
use crate::schema::{SchemaDocument, SCHEMA_VERSION};
use crate::probe::io_error_text;

verus! {

/// A filesystem path, carried as the cache's root.
#[verifier::external_type_specification]
#[verifier::external_body]
pub struct ExPathBuf(PathBuf);

/// An error of `serde_json`, carried by cache errors.
#[verifier::external_type_specification]
#[verifier::external_body]
pub struct ExJsonError(serde_json::Error);

pub const CACHE_VERSION: u16 = 1;

pub const MAX_CACHE_BYTES: usize = 16777216;

/// What a cached schema was discovered from.
#[derive(Clone, Debug, PartialEq, Eq, Hash)]
pub struct CacheKey {
    pub executable_path: String,
    pub executable_fingerprint: String,
    pub invoked: Vec<String>,
    pub parser_version: String,
    pub schema_version: u16,
}

/// A cache key as values.
pub struct KeyView {
    pub executable_path: Seq<char>,
    pub executable_fingerprint: Seq<char>,
    pub invoked: Seq<Seq<char>>,
    pub parser_version: Seq<char>,
    pub schema_version: u16,
}

impl CacheKey {
    pub open spec fn key_view(&self) -> KeyView {
        KeyView {
            executable_path: self.executable_path@,
            executable_fingerprint: self.executable_fingerprint@,
            invoked: strings_view(self.invoked@),
            parser_version: self.parser_version@,
            schema_version: self.schema_version,
        }
    }

    /// A key for the current schema version.
    pub fn new(executable_path: &str, executable_fingerprint: &str, invoked: Vec<String>, parser_version: &str) -> (key: Self)
        ensures
            key.executable_path@ == executable_path@,
            key.executable_fingerprint@ == executable_fingerprint@,
            key.invoked@ == invoked@,
            key.parser_version@ == parser_version@,
            key.schema_version == SCHEMA_VERSION,
    {
        CacheKey {
            executable_path: executable_path.to_owned(),
            executable_fingerprint: executable_fingerprint.to_owned(),
            invoked,
            parser_version: parser_version.to_owned(),
            schema_version: SCHEMA_VERSION,
        }
    }

    /// Whether two keys hold the same values.
    pub fn same_as(&self, other: &CacheKey) -> (r: bool)
        ensures
            r == (self.key_view() == other.key_view()),
    {
        if !(self.executable_path == other.executable_path) || !(self.executable_fingerprint == other.executable_fingerprint)
            || !(self.parser_version == other.parser_version) || self.schema_version != other.schema_version
            || self.invoked.len() != other.invoked.len() {
            proof {
                if self.invoked@.len() != other.invoked@.len() {
                    assert(strings_view(self.invoked@).len() != strings_view(other.invoked@).len());
                }
            }
            return false;
        }
        let mut i: usize = 0;
        while i < self.invoked.len()
            invariant
                self.invoked@.len() == other.invoked@.len(),
                0 <= i <= self.invoked@.len(),
                forall|j: int| 0 <= j < i ==> self.invoked@[j]@ == other.invoked@[j]@,
            decreases self.invoked@.len() - i,
        {
            if !(self.invoked[i] == other.invoked[i]) {
                proof {
                    assert(strings_view(self.invoked@)[i as int] != strings_view(other.invoked@)[i as int]);
                }
                return false;
            }
            i = i + 1;
        }
        proof {
            assert(strings_view(self.invoked@) =~= strings_view(other.invoked@));
        }
        true
    }
}

#[derive(Debug)]
pub enum CacheError {
    Io(std::io::Error),
    Json(serde_json::Error),
    InvalidDocument,
    RecordTooLarge,
}

/// `Display` of a `serde_json` error. Its text is the crate's, so nothing is
/// claimed of it.
#[verifier::external_body]
fn json_error_text(error: &serde_json::Error) -> String {
    format!("{}", error)
}

impl CacheError {
    /// The message that describes the error; for an I/O or JSON error the
    /// underlying error's text follows the prefix.
    pub fn message(&self) -> (m: String)
        ensures
            match self {
                CacheError::Io(_) => m@.len() >= "cache I/O error: "@.len()
                    && m@.subrange(0, "cache I/O error: "@.len() as int) == "cache I/O error: "@,
                CacheError::Json(_) => m@.len() >= "cache JSON error: "@.len()
                    && m@.subrange(0, "cache JSON error: "@.len() as int) == "cache JSON error: "@,
                CacheError::InvalidDocument => m@ == "cache document failed schema validation"@,
                CacheError::RecordTooLarge => m@ == "cache record exceeds the safety limit"@,
            },
    {
        match self {
            CacheError::Io(error) => {
                let mut s = "cache I/O error: ".to_owned();
                let text = io_error_text(error);
                s.append(text.as_str());
                proof {
                    assert(s@.subrange(0, "cache I/O error: "@.len() as int) =~= "cache I/O error: "@);
                }
                s
            },
            CacheError::Json(error) => {
                let mut s = "cache JSON error: ".to_owned();
                let text = json_error_text(error);
                s.append(text.as_str());
                proof {
                    assert(s@.subrange(0, "cache JSON error: "@.len() as int) =~= "cache JSON error: "@);
                }
                s
            },
            CacheError::InvalidDocument => "cache document failed schema validation".to_owned(),
            CacheError::RecordTooLarge => "cache record exceeds the safety limit".to_owned(),
        }
    }
}

/// A cache of schema documents under a root directory, with a bound on the
/// size of one record.
#[derive(Debug)]
pub struct SchemaCache {
    root: PathBuf,
    max_bytes: usize,
}

/// A stored record may be served for `key` when it was written by this cache
/// version, for the same key, and its document passes validation.
pub open spec fn record_is_current(cache_version: u16, record_key: KeyView, key: KeyView, document: SchemaDocument) -> bool {
    cache_version == CACHE_VERSION && record_key == key && document_errors(document).len() == 0
}

impl SchemaCache {
    pub closed spec fn spec_root(&self) -> PathBuf {
        self.root
    }

    pub closed spec fn spec_max_bytes(&self) -> usize {
        self.max_bytes
    }

    /// A cache under `root` with the default record bound.
    pub fn new(root: PathBuf) -> (cache: Self)
        ensures
            cache.spec_root() == root,
            cache.spec_max_bytes() == MAX_CACHE_BYTES,
    {
        SchemaCache { root, max_bytes: MAX_CACHE_BYTES }
    }

    pub fn root(&self) -> (r: &PathBuf)
        ensures
            *r == self.spec_root(),
    {
        &self.root
    }

    /// Whether a record of `length` bytes is within the bound.
    pub fn fits(&self, length: usize) -> (r: bool)
        ensures
            r == (length <= self.spec_max_bytes()),
    {
        length <= self.max_bytes
    }

    /// Whether a stored record may be served for `key` (see `record_is_current`).
    pub fn record_is_current(&self, cache_version: u16, record_key: &CacheKey, key: &CacheKey, document: &SchemaDocument) -> (r: bool)
        ensures
            r == record_is_current(cache_version, record_key.key_view(), key.key_view(), *document),
    {
        cache_version == CACHE_VERSION && record_key.same_as(key) && document.validate().is_ok()
    }

    /// The checks before a record is written: the document must pass
    /// validation, and its serialized form of `length` bytes must fit.
    pub fn check_record(&self, document: &SchemaDocument, length: usize) -> (r: Result<(), CacheError>)
        ensures
            document_errors(*document).len() > 0 ==> r matches Err(CacheError::InvalidDocument),
            document_errors(*document).len() == 0 && length > self.spec_max_bytes() ==> r matches Err(CacheError::RecordTooLarge),
            document_errors(*document).len() == 0 && length <= self.spec_max_bytes() ==> r is Ok,
    {
        if document.validate().is_err() {
            return Err(CacheError::InvalidDocument);
        }
        if length > self.max_bytes {
            return Err(CacheError::RecordTooLarge);
        }
        Ok(())
    }
}

/// The cache serves only validated documents, and only for the key they were
/// stored under by this cache version: a record that fails any of these is a
/// miss.
pub proof fn law_served_records_are_valid(cache_version: u16, record_key: KeyView, key: KeyView, document: SchemaDocument)
    requires
        record_is_current(cache_version, record_key, key, document),
    ensures
        document_errors(document).len() == 0,
        record_key == key,
        cache_version == CACHE_VERSION,
{
}

pub open spec fn is_lower_hex(c: char) -> bool {
    ('0' <= c <= '9') || ('a' <= c <= 'f')
}

/// The name of a cache record file: sixteen lowercase hexadecimal digits
/// followed by `.json`.
pub open spec fn record_file_name(name: Seq<char>) -> bool {
    &&& name.len() == 21
    &&& forall|i: int| 0 <= i < 16 ==> is_lower_hex(#[trigger] name[i])
    &&& name.subrange(16, 21) == ".json"@
}

/// Whether a file name is that of a cache record; clearing the cache removes
/// only such files.
pub fn is_record_file_name(name: &str) -> (r: bool)
    ensures
        r == record_file_name(name@),
{
    let chars = crate::text::chars_of(name);
    if chars.len() != 21 {
        return false;
    }
    let mut i: usize = 0;
    while i < 16
        invariant
            chars@ == name@,
            chars@.len() == 21,
            0 <= i <= 16,
            forall|k: int| 0 <= k < i ==> is_lower_hex(#[trigger] chars@[k]),
        decreases 16 - i,
    {
        let c = chars[i];
        if !(('0' <= c && c <= '9') || ('a' <= c && c <= 'f')) {
            return false;
        }
        i = i + 1;
    }
    let suffix = crate::scan::slice_chars(&chars, 16, 21);
    let expected = crate::text::chars_of(".json");
    crate::text::chars_eq(&suffix, &expected)
}

} // verus!
