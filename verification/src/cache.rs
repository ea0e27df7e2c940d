//! The content-addressed store of file facts: where an object lives, what
//! a read object must satisfy to be trusted, and when a publish may reuse
//! what is already stored.
use vstd::prelude::*;
use crate::digest::{hex_seq, sha256_hex_of_bytes, sha256_of};
use crate::integrity::{
    canonical_file_facts, file_fact_key_digest, file_fact_key_message, file_facts_valid,
    in_canonical_order, payload_digest, payload_matches, payloads_equal, same_payload,
    validate_file_facts,
};
use crate::model::{be_bytes, component, file_fact_key_valid, push_be, push_component, FileFactKey};
use crate::rust_syntax::RustFileFacts;
use crate::strings::str_equal;

verus! {

/// The largest object the store reads or writes, in bytes.
pub const DEFAULT_MAXIMUM_OBJECT_BYTES: usize = 16777216;

/// The envelope schema this store reads and writes.
pub const FILE_FACTS_ENVELOPE_SCHEMA: u16 = 1;

/// Why a cache operation failed.
#[derive(Debug, Clone, PartialEq, Eq)]
pub struct CacheError {
    pub code: String,
    pub message: String,
}

impl CacheError {
    /// An error with a code and a message.
    pub fn new(code: &str, message: &str) -> (r: Self)
        ensures
            r.code@ == code@,
            r.message@ == message@,
    {
        CacheError { code: String::from_str(code), message: String::from_str(message) }
    }
}

/// What a lookup found.
#[derive(Debug, Clone, PartialEq, Eq)]
pub enum CacheLookup<T> {
    Hit(T),
    Miss,
    Stale { code: String },
    Corrupt { code: String },
}

/// Whether a publish wrote a new object or found an equal one.
#[derive(Debug, Clone, Copy, PartialEq, Eq, Structural)]
pub enum PublishResult {
    Published,
    Reused,
}

/// The directories of one repository's cache.
#[derive(Debug, Clone, PartialEq, Eq)]
pub struct CacheLayout {
    pub root: String,
    pub repository_id: String,
    pub facts_dir: String,
    pub graphs_dir: String,
    pub staging_dir: String,
    pub locks_dir: String,
    pub quarantine_dir: String,
}

/// `base`, a separator, then `name`.
pub open spec fn join_path(base: Seq<char>, name: Seq<char>) -> Seq<char> {
    base + "/"@ + name
}

fn join(base: &str, name: &str) -> (r: String)
    ensures
        r@ == join_path(base@, name@),
{
    let mut out = String::from_str(base);
    out.append("/");
    out.append(name);
    out
}

/// The directory that holds one repository's cache under `root`.
pub open spec fn repository_root_path(root: Seq<char>, repository_id: Seq<char>) -> Seq<char> {
    join_path(join_path(join_path(root, "v2"@), "repos"@), repository_id)
}

/// The bytes hashed to name a repository from its Git common directory.
pub open spec fn repository_id_message(identity: Seq<u8>) -> Seq<u8> {
    encode_utf8_label() + be_bytes(identity.len(), 8) + identity
}

/// The label that opens a repository id.
pub open spec fn encode_utf8_label() -> Seq<u8> {
    vstd::utf8::encode_utf8("pre-commit-review-repository-cache/v2"@)
}

/// The id of a repository: the lowercase hexadecimal SHA-256 of a label,
/// the identity's length as eight big-endian bytes, and the identity (the
/// bytes of the Git common directory's path).
pub fn repository_id(identity: &[u8]) -> (r: String)
    ensures
        r@ == hex_seq(sha256_of(repository_id_message(identity@))),
{
    let mut message: Vec<u8> = Vec::new();
    let label = "pre-commit-review-repository-cache/v2".as_bytes();
    let mut i: usize = 0;
    while i < label.len()
        invariant
            i <= label@.len(),
            label@ == encode_utf8_label(),
            message@ == label@.take(i as int),
        decreases label@.len() - i,
    {
        message.push(label[i]);
        assert(label@.take(i + 1) =~= label@.take(i as int).push(label@[i as int]));
        i = i + 1;
    }
    assert(label@.take(label@.len() as int) =~= label@);
    push_component(&mut message, identity);
    assert(message@ =~= repository_id_message(identity@));
    sha256_hex_of_bytes(message.as_slice())
}

impl CacheLayout {
    /// The layout of a repository's cache under a resolved root.
    pub fn for_repository(root: &str, repository_id: &str) -> (r: Self)
        ensures
            r.root@ == root@,
            r.repository_id@ == repository_id@,
            r.facts_dir@ == join_path(repository_root_path(root@, repository_id@), "facts"@),
            r.graphs_dir@ == join_path(repository_root_path(root@, repository_id@), "graphs"@),
            r.staging_dir@ == join_path(repository_root_path(root@, repository_id@), "staging"@),
            r.locks_dir@ == join_path(repository_root_path(root@, repository_id@), "locks"@),
            r.quarantine_dir@ == join_path(repository_root_path(root@, repository_id@), "quarantine"@),
    {
        let v2 = join(root, "v2");
        let repos = join(v2.as_str(), "repos");
        let repository_root = join(repos.as_str(), repository_id);
        CacheLayout {
            root: String::from_str(root),
            repository_id: String::from_str(repository_id),
            facts_dir: join(repository_root.as_str(), "facts"),
            graphs_dir: join(repository_root.as_str(), "graphs"),
            staging_dir: join(repository_root.as_str(), "staging"),
            locks_dir: join(repository_root.as_str(), "locks"),
            quarantine_dir: join(repository_root.as_str(), "quarantine"),
        }
    }

    /// A copy of the layout.
    pub fn duplicate(&self) -> (r: Self)
        ensures
            r.root@ == self.root@,
            r.repository_id@ == self.repository_id@,
            r.facts_dir@ == self.facts_dir@,
            r.graphs_dir@ == self.graphs_dir@,
            r.staging_dir@ == self.staging_dir@,
            r.locks_dir@ == self.locks_dir@,
            r.quarantine_dir@ == self.quarantine_dir@,
    {
        CacheLayout {
            root: self.root.clone(),
            repository_id: self.repository_id.clone(),
            facts_dir: self.facts_dir.clone(),
            graphs_dir: self.graphs_dir.clone(),
            staging_dir: self.staging_dir.clone(),
            locks_dir: self.locks_dir.clone(),
            quarantine_dir: self.quarantine_dir.clone(),
        }
    }
}

/// The stored form of a file-facts object.
#[derive(Debug, Clone, PartialEq, Eq)]
pub struct FileFactsEnvelope {
    pub magic: String,
    pub schema_version: u16,
    pub key: FileFactKey,
    pub payload_length: usize,
    pub payload_sha256: String,
    pub payload: RustFileFacts,
}

/// The store of file-facts objects of one repository.
#[derive(Debug, Clone)]
pub struct FileFactsStore {
    layout: CacheLayout,
    maximum_object_bytes: usize,
}

/// Why a lookup did not hit: stale (`true`) or corrupt (`false`), with a code.
pub open spec fn envelope_failure(
    maximum: nat,
    key: FileFactKey,
    envelope: FileFactsEnvelope,
    encoded: Option<Seq<u8>>,
) -> Option<(bool, Seq<char>)> {
    if envelope.magic@ != "pre-commit-review-file-facts"@ {
        Some((false, "file-facts-magic-mismatch"@))
    } else if envelope.schema_version != 1 {
        Some((false, "file-facts-schema-unsupported"@))
    } else if !file_fact_key_valid(envelope.key) {
        Some((false, "file-facts-key-invalid"@))
    } else if !same_key(envelope.key, key) {
        Some((true, "file-facts-key-mismatch"@))
    } else if envelope.payload_length > maximum {
        Some((false, "file-facts-payload-too-large"@))
    } else if !file_facts_valid(envelope.payload) {
        Some((false, "file-facts-payload-invalid"@))
    } else {
        match encoded {
            None => Some((false, "file-facts-payload-invalid"@)),
            Some(bytes) => if bytes.len() != envelope.payload_length {
                Some((false, "file-facts-payload-length-mismatch"@))
            } else if hex_seq(sha256_of(bytes)) != envelope.payload_sha256@ {
                Some((false, "file-facts-payload-checksum-mismatch"@))
            } else {
                None
            },
        }
    }
}

/// Two keys with the same texts and schema version.
pub open spec fn same_key(a: FileFactKey, b: FileFactKey) -> bool {
    &&& a.language@ == b.language@
    &&& a.content_sha256@ == b.content_sha256@
    &&& a.grammar_version@ == b.grammar_version@
    &&& a.query_digest@ == b.query_digest@
    &&& a.adapter_version@ == b.adapter_version@
    &&& a.normalization_rules_digest@ == b.normalization_rules_digest@
    &&& a.schema_version == b.schema_version
}

/// Whether two keys are the same.
pub fn keys_equal(a: &FileFactKey, b: &FileFactKey) -> (r: bool)
    ensures
        r == same_key(*a, *b),
{
    str_equal(a.language.as_str(), b.language.as_str()) && str_equal(
        a.content_sha256.as_str(),
        b.content_sha256.as_str(),
    ) && str_equal(a.grammar_version.as_str(), b.grammar_version.as_str()) && str_equal(
        a.query_digest.as_str(),
        b.query_digest.as_str(),
    ) && str_equal(a.adapter_version.as_str(), b.adapter_version.as_str()) && str_equal(
        a.normalization_rules_digest.as_str(),
        b.normalization_rules_digest.as_str(),
    ) && a.schema_version == b.schema_version
}

fn corrupt<T>(code: &str) -> (r: CacheLookup<T>)
    ensures
        r matches CacheLookup::Corrupt { code: c } && c@ == code@,
{
    CacheLookup::Corrupt { code: String::from_str(code) }
}

/// The path of the object of a key under the facts directory.
pub open spec fn object_path_of(facts_dir: Seq<char>, digest: Seq<char>) -> Seq<char> {
    join_path(join_path(join_path(facts_dir, "sha256"@), digest.take(2)), digest + ".facts"@)
}

impl FileFactsStore {
    pub closed spec fn spec_layout(&self) -> CacheLayout {
        self.layout
    }

    /// The object limit in force: the requested one, capped.
    pub closed spec fn spec_maximum(&self) -> nat {
        self.maximum_object_bytes as nat
    }

    /// A store over `layout`; the object limit is capped at the default
    /// largest object. A zero limit is refused.
    pub fn new(layout: CacheLayout, maximum_object_bytes: usize) -> (r: Result<Self, CacheError>)
        ensures
            r is Err <==> maximum_object_bytes == 0,
            r matches Err(e) ==> e.code@ == "cache-object-limit-invalid"@,
            r matches Ok(s) ==> s.spec_layout() == layout && s.spec_maximum() == (if maximum_object_bytes < DEFAULT_MAXIMUM_OBJECT_BYTES {
                maximum_object_bytes
            } else {
                DEFAULT_MAXIMUM_OBJECT_BYTES
            }),
    {
        if maximum_object_bytes == 0 {
            return Err(CacheError::new("cache-object-limit-invalid", "cache object limit must be positive"));
        }
        let maximum = if maximum_object_bytes < DEFAULT_MAXIMUM_OBJECT_BYTES {
            maximum_object_bytes
        } else {
            DEFAULT_MAXIMUM_OBJECT_BYTES
        };
        Ok(FileFactsStore { layout, maximum_object_bytes: maximum })
    }

    /// The layout of the store.
    pub fn layout(&self) -> (r: &CacheLayout)
        ensures
            *r == self.spec_layout(),
    {
        &self.layout
    }

    /// The object limit in force.
    pub fn maximum_object_bytes(&self) -> (r: usize)
        ensures
            r == self.spec_maximum(),
    {
        self.maximum_object_bytes
    }

    /// Where the object of `key` lives: under `sha256/`, in a directory
    /// named by the first two digits of its digest.
    pub fn object_path(&self, key: &FileFactKey) -> (r: Result<String, CacheError>)
        ensures
            r is Ok <==> file_fact_key_valid(*key),
            r matches Ok(p) ==> p@ == object_path_of(
                self.spec_layout().facts_dir@,
                hex_seq(sha256_of(file_fact_key_message(*key))),
            ),
            r matches Err(e) ==> e.code@ == "file-facts-key-invalid"@,
    {
        let digest = match file_fact_digest(key) {
            Ok(d) => d,
            Err(e) => return Err(e),
        };
        let sha = join(self.layout.facts_dir.as_str(), "sha256");
        let prefix = crate::strings::take_prefix_chars(digest.as_str(), 2);
        let dir = join(sha.as_str(), prefix.as_str());
        let mut name = digest.clone();
        name.append(".facts");
        Ok(join(dir.as_str(), name.as_str()))
    }

    /// Whether a stored object may be read at all: a regular file within
    /// the object limit. `None` when it may; the corrupt verdict otherwise.
    pub fn inspect_object(&self, is_regular_file: bool, length: u64) -> (r: Option<CacheLookup<RustFileFacts>>)
        ensures
            r is None <==> is_regular_file && length <= self.spec_maximum(),
            !is_regular_file ==> (r matches Some(CacheLookup::Corrupt { code }) && code@ == "file-facts-object-not-regular"@),
            is_regular_file && length > self.spec_maximum() ==> (r matches Some(CacheLookup::Corrupt { code }) && code@ == "file-facts-object-too-large"@),
    {
        if !is_regular_file {
            return Some(corrupt("file-facts-object-not-regular"));
        }
        if length > self.maximum_object_bytes as u64 {
            return Some(corrupt("file-facts-object-too-large"));
        }
        None
    }

    /// The verdict on an object read for `key`: a hit with its payload when
    /// the envelope, key, payload, length and checksum all agree; stale when
    /// it was written for another key; corrupt otherwise. `encoded` is the
    /// payload serialised again, `None` when that failed.
    pub fn accept_envelope(
        &self,
        key: &FileFactKey,
        envelope: FileFactsEnvelope,
        encoded: Option<Vec<u8>>,
    ) -> (r: CacheLookup<RustFileFacts>)
        ensures
            ({
                let failure = envelope_failure(
                    self.spec_maximum(),
                    *key,
                    envelope,
                    match encoded {
                        Some(b) => Some(b@),
                        None => None,
                    },
                );
                match r {
                    CacheLookup::Hit(p) => failure is None && p == envelope.payload,
                    CacheLookup::Stale { code } => failure == Some((true, code@)),
                    CacheLookup::Corrupt { code } => failure == Some((false, code@)),
                    CacheLookup::Miss => false,
                }
            }),
    {
        if !str_equal(envelope.magic.as_str(), "pre-commit-review-file-facts") {
            return corrupt("file-facts-magic-mismatch");
        }
        if envelope.schema_version != FILE_FACTS_ENVELOPE_SCHEMA {
            return corrupt("file-facts-schema-unsupported");
        }
        if envelope.key.validate().is_err() {
            return corrupt("file-facts-key-invalid");
        }
        if !keys_equal(&envelope.key, key) {
            return CacheLookup::Stale { code: String::from_str("file-facts-key-mismatch") };
        }
        if envelope.payload_length > self.maximum_object_bytes {
            return corrupt("file-facts-payload-too-large");
        }
        if validate_file_facts(&envelope.payload).is_err() {
            return corrupt("file-facts-payload-invalid");
        }
        let bytes = match encoded {
            Some(b) => b,
            None => return corrupt("file-facts-payload-invalid"),
        };
        if bytes.len() != envelope.payload_length {
            return corrupt("file-facts-payload-length-mismatch");
        }
        let digest = payload_digest(bytes.as_slice());
        if !str_equal(digest.as_str(), envelope.payload_sha256.as_str()) {
            return corrupt("file-facts-payload-checksum-mismatch");
        }
        CacheLookup::Hit(envelope.payload)
    }

    /// What a publish stores for `key`: the payload in canonical order,
    /// refused when the key or the payload is invalid.
    #[verifier::rlimit(40)]
    pub fn prepare_publish(&self, key: &FileFactKey, facts: RustFileFacts) -> (r: Result<RustFileFacts, CacheError>)
        ensures
            !file_fact_key_valid(*key) ==> (r matches Err(e) && e.code@ == "file-facts-key-invalid"@),
            r matches Ok(p) ==> file_fact_key_valid(*key) && file_facts_valid(p)
                && p.metrics == facts.metrics && (in_canonical_order(facts) ==> same_payload(p, facts)),
            file_fact_key_valid(*key) && file_facts_valid(facts) ==> r is Ok,
            file_fact_key_valid(*key) ==> (r matches Err(e) ==> e.code@ == "file-facts-payload-invalid"@),
    {
        if let Err(error) = key.validate() {
            let mut message = String::from_str("invalid file facts key: ");
            let reason = error.message();
            message.append(reason.as_str());
            return Err(CacheError { code: String::from_str("file-facts-key-invalid"), message });
        }
        let ghost original = facts;
        let facts = canonical_file_facts(facts);
        match validate_file_facts(&facts) {
            Err(reason) => {
                let mut message = String::from_str("invalid file facts payload: ");
                message.append(reason.as_str());
                Err(CacheError { code: String::from_str("file-facts-payload-invalid"), message })
            },
            Ok(()) => Ok(facts),
        }
    }

    /// What an existing object means for a publish of `facts`: reuse when
    /// it holds the same payload, a conflict when it holds anything else,
    /// and `None` (go on and write) when there is none.
    pub fn publish_decision(existing: &CacheLookup<RustFileFacts>, facts: &RustFileFacts) -> (r: Result<Option<PublishResult>, CacheError>)
        ensures
            r matches Ok(Some(p)) ==> p == PublishResult::Reused,
            (r matches Ok(Some(_))) <==> (*existing matches CacheLookup::Hit(x) && payload_matches(x, *facts)),
            (r matches Ok(None)) <==> *existing is Miss,
            r matches Err(e) ==> e.code@ == "file-facts-object-conflict"@,
    {
        match existing {
            CacheLookup::Hit(x) => {
                if payloads_equal(x, facts) {
                    Ok(Some(PublishResult::Reused))
                } else {
                    Err(conflict())
                }
            },
            CacheLookup::Miss => Ok(None),
            _ => Err(conflict()),
        }
    }

    /// Whether an encoded object fits the object limit.
    pub fn fits(&self, encoded_length: usize) -> (r: bool)
        ensures
            r == (encoded_length <= self.spec_maximum()),
    {
        encoded_length <= self.maximum_object_bytes
    }
}

fn conflict() -> (r: CacheError)
    ensures
        r.code@ == "file-facts-object-conflict"@,
{
    CacheError::new("file-facts-object-conflict", "an incompatible immutable file facts object already exists")
}

/// The digest that names a key's object; refused when the key is invalid.
pub fn file_fact_digest(key: &FileFactKey) -> (r: Result<String, CacheError>)
    ensures
        r is Ok <==> file_fact_key_valid(*key),
        r matches Ok(d) ==> d@ == hex_seq(sha256_of(file_fact_key_message(*key))) && d@.len() == 64,
        r matches Err(e) ==> e.code@ == "file-facts-key-invalid"@,
{
    match file_fact_key_digest(key) {
        Ok(d) => Ok(d),
        Err(reason) => {
            let mut message = String::from_str("invalid file facts key: ");
            message.append(reason.as_str());
            Err(CacheError { code: String::from_str("file-facts-key-invalid"), message })
        },
    }
}

} // verus!
