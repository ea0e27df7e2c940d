//! The repository index model: manifests, file-fact keys, generation
//! identities and reports, with the rules that make each well formed.
use vstd::prelude::*;
use crate::candidate::{CandidatePresence, RepoPath};
use crate::contracts::{string_views, Completeness, UnitStatus};
use crate::digest::{hex_seq, sha256_hex_of_bytes, sha256_of};
use vstd::utf8::encode_utf8;
use crate::review_scope::ReviewSource;
use crate::strings::{
    is_hex_of_len, is_hex_with_len, lex_less, str_equal, str_has_char, str_less,
    strictly_ascending,
};
use crate::text_adapter::utf8_len;

verus! {

pub const MAX_MANIFEST_ENTRIES: usize = 100000;
pub const MAX_INDEX_LIMITATIONS: usize = 1000;
pub const MAX_LIMITATION_CODES: usize = 1000;
pub const MAX_TEXT_CHARS: usize = 1000;
pub const MAX_IDENTIFIER_CHARS: usize = 4096;
pub const MAX_LANGUAGE_CHARS: usize = 100;
pub const MAX_VERSION_CHARS: usize = 200;
pub const MAX_OUTPUT_BYTES: usize = 1048576;

#[derive(Debug, Clone, Copy, PartialEq, Eq, Structural)]
pub enum IndexAction {
    Build,
    Doctor,
    Inspect,
    Clean,
}

#[derive(Debug, Clone, Copy, PartialEq, Eq, Structural)]
pub enum IndexReportStatus {
    Completed,
    Partial,
    Unavailable,
    Invalidated,
    Failed,
}

#[derive(Debug, Clone, PartialEq, Eq)]
pub struct RepositoryLocator {
    pub source: ReviewSource,
    pub object_format: String,
    pub base_tree: Option<String>,
    pub index_manifest_digest: Option<String>,
    pub overlay_candidate_digest: String,
}

#[derive(Debug, Clone, PartialEq, Eq)]
pub struct RepositoryManifestEntry {
    pub path: RepoPath,
    pub mode: String,
    pub presence: CandidatePresence,
    pub content_sha256: Option<String>,
    pub content_bytes: Option<usize>,
    pub language: Option<String>,
    pub status: UnitStatus,
    pub limitation_codes: Vec<String>,
}

#[derive(Debug, Clone, PartialEq, Eq)]
pub struct RepositoryManifest {
    pub locator: RepositoryLocator,
    pub digest: String,
    pub entries: Vec<RepositoryManifestEntry>,
    pub completeness: Completeness,
    pub limitations: Vec<IndexLimitation>,
}

#[derive(Debug, Clone, PartialEq, Eq)]
pub struct FileFactKey {
    pub language: String,
    pub content_sha256: String,
    pub grammar_version: String,
    pub query_digest: String,
    pub adapter_version: String,
    pub normalization_rules_digest: String,
    pub schema_version: u16,
}

#[derive(Debug, Clone, PartialEq, Eq)]
pub struct FileFactsManifestEntry {
    pub path: RepoPath,
    pub presence: CandidatePresence,
    pub file_fact_key: Option<FileFactKey>,
    pub status: UnitStatus,
}

#[derive(Debug, Clone, PartialEq, Eq)]
pub struct GraphGenerationIdentity {
    pub graph_schema_version: u16,
    pub candidate_manifest_digest: String,
    pub project_model_digest: String,
    pub resolver_digest: String,
    pub adapter_query_digest: String,
    pub file_facts_manifest_digest: String,
    pub normalization_rules_digest: String,
}

#[derive(Debug, Clone, Copy, PartialEq, Eq, Structural)]
pub struct IndexMetrics {
    pub elapsed_ms: u64,
    pub manifest_files: usize,
    pub manifest_bytes: u64,
    pub file_fact_hits: usize,
    pub file_fact_misses: usize,
    pub file_fact_writes: usize,
    pub parsed_files: usize,
    pub parsed_bytes: u64,
    pub symbols: usize,
    pub edges: usize,
    pub query_rows: usize,
    pub generation_bytes: u64,
    pub output_bytes: usize,
}

#[derive(Debug, Clone, PartialEq, Eq)]
pub struct IndexLimitation {
    pub code: String,
    pub path: Option<RepoPath>,
    pub symbol_id: Option<String>,
    pub reason: String,
    pub interpretation: String,
}

#[derive(Debug, Clone, PartialEq, Eq)]
pub struct IndexReport {
    pub schema_version: u8,
    pub kind: String,
    pub action: IndexAction,
    pub status: IndexReportStatus,
    pub scope_fingerprint: Option<String>,
    pub repository_id: String,
    pub generation_key: Option<String>,
    pub metrics: IndexMetrics,
    pub limitations: Vec<IndexLimitation>,
}

/// Why an index record is not well formed.
#[derive(Debug, Clone, PartialEq, Eq)]
pub struct IndexContractError {
    message: String,
}

impl IndexContractError {
    /// The error's reason.
    pub closed spec fn message_of(&self) -> Seq<char> {
        self.message@
    }

    fn new(message: &str) -> (r: Self)
        ensures
            r.message_of() == message@,
    {
        IndexContractError { message: String::from_str(message) }
    }

    /// The human-readable reason.
    pub fn message(&self) -> (r: String)
        ensures
            r@ == self.message_of(),
    {
        self.message.clone()
    }
}

fn invalid(message: &str) -> (r: Result<(), IndexContractError>)
    ensures
        r is Err,
{
    Err(IndexContractError::new(message))
}

// ----------------------------------------------------------------------
// The model
// ----------------------------------------------------------------------
/// One to `max` characters, none of them NUL.
pub open spec fn text_ok(s: Seq<char>, max: nat) -> bool {
    0 < s.len() <= max && !s.contains('\0')
}

/// Six octal digits.
pub open spec fn mode_ok(m: Seq<char>) -> bool {
    m.len() == 6 && forall|i: int| 0 <= i < 6 ==> '0' <= #[trigger] m[i] && m[i] <= '7'
}

/// The object id length of a Git object format.
pub open spec fn object_id_length(format: Seq<char>) -> Option<nat> {
    if format == "sha1"@ {
        Some(40)
    } else if format == "sha256"@ {
        Some(64)
    } else {
        None
    }
}

pub open spec fn locator_valid(l: RepositoryLocator) -> bool {
    &&& object_id_length(l.object_format@) matches Some(n)
    &&& (l.base_tree matches Some(b) ==> is_hex_of_len(b@, object_id_length(l.object_format@)->0))
    &&& (l.index_manifest_digest matches Some(d) ==> is_hex_of_len(d@, 64))
    &&& is_hex_of_len(l.overlay_candidate_digest@, 64)
}

/// Strictly ascending texts, each of one to `max_chars` non-NUL characters.
pub open spec fn sorted_unique_text(v: Seq<Seq<char>>, max_items: nat, max_chars: nat) -> bool {
    &&& v.len() <= max_items
    &&& forall|i: int| 0 <= i < v.len() ==> text_ok(#[trigger] v[i], max_chars)
    &&& strictly_ascending(v)
}

pub open spec fn entry_content_valid(e: RepositoryManifestEntry) -> bool {
    match e.presence {
        CandidatePresence::Present => match (e.content_sha256, e.content_bytes) {
            (Some(d), Some(_)) => is_hex_of_len(d@, 64),
            (None, None) => e.status != UnitStatus::Completed,
            _ => false,
        },
        _ => e.content_sha256 is None && e.content_bytes is None,
    }
}

pub open spec fn entry_valid(e: RepositoryManifestEntry) -> bool {
    &&& mode_ok(e.mode@)
    &&& entry_content_valid(e)
    &&& (e.language matches Some(l) ==> text_ok(l@, 100))
    &&& sorted_unique_text(string_views(e.limitation_codes@), 1000, 100)
}

pub open spec fn limitation_valid(l: IndexLimitation) -> bool {
    &&& text_ok(l.code@, 100)
    &&& (l.symbol_id matches Some(s) ==> text_ok(s@, 4096))
    &&& text_ok(l.reason@, 1000)
    &&& text_ok(l.interpretation@, 1000)
}

/// The sort key of a limitation: code, path, symbol, reason,
/// interpretation, absent parts empty.
pub open spec fn limitation_key(l: IndexLimitation) -> Seq<Seq<char>> {
    seq![
        l.code@,
        match l.path {
            Some(p) => p@,
            None => Seq::empty(),
        },
        match l.symbol_id {
            Some(s) => s@,
            None => Seq::empty(),
        },
        l.reason@,
        l.interpretation@,
    ]
}

/// Lexicographic order on keys of equal length, component by component.
pub open spec fn key_less(a: Seq<Seq<char>>, b: Seq<Seq<char>>) -> bool
    decreases a.len(),
{
    if a.len() == 0 || b.len() == 0 {
        false
    } else if lex_less(a[0], b[0]) {
        true
    } else if a[0] == b[0] {
        key_less(a.drop_first(), b.drop_first())
    } else {
        false
    }
}

pub open spec fn limitations_valid(ls: Seq<IndexLimitation>) -> bool {
    &&& ls.len() <= 1000
    &&& forall|i: int| 0 <= i < ls.len() ==> limitation_valid(#[trigger] ls[i])
    &&& forall|i: int|
        0 < i < ls.len() ==> key_less(limitation_key(ls[i - 1]), limitation_key(#[trigger] ls[i]))
}

pub open spec fn entry_paths(es: Seq<RepositoryManifestEntry>) -> Seq<Seq<char>> {
    Seq::new(es.len(), |i: int| es[i].path@)
}

pub open spec fn manifest_valid(m: RepositoryManifest) -> bool {
    &&& locator_valid(m.locator)
    &&& is_hex_of_len(m.digest@, 64)
    &&& m.entries.len() <= 100000
    &&& strictly_ascending(entry_paths(m.entries@))
    &&& forall|i: int| 0 <= i < m.entries@.len() ==> entry_valid(#[trigger] m.entries@[i])
    &&& (m.completeness == Completeness::Complete ==> forall|i: int|
        0 <= i < m.entries@.len() ==> (#[trigger] m.entries@[i]).status == UnitStatus::Completed)
    &&& limitations_valid(m.limitations@)
}

pub open spec fn file_fact_key_valid(k: FileFactKey) -> bool {
    &&& text_ok(k.language@, 100)
    &&& is_hex_of_len(k.content_sha256@, 64)
    &&& text_ok(k.grammar_version@, 200)
    &&& is_hex_of_len(k.query_digest@, 64)
    &&& text_ok(k.adapter_version@, 200)
    &&& is_hex_of_len(k.normalization_rules_digest@, 64)
    &&& k.schema_version != 0
}

pub open spec fn file_facts_entry_valid(e: FileFactsManifestEntry) -> bool {
    match (e.presence, e.file_fact_key) {
        (CandidatePresence::Present, Some(k)) => file_fact_key_valid(k),
        (CandidatePresence::Present, None) => e.status != UnitStatus::Completed,
        (_, None) => true,
        _ => false,
    }
}

pub open spec fn generation_identity_valid(g: GraphGenerationIdentity) -> bool {
    &&& g.graph_schema_version != 0
    &&& is_hex_of_len(g.candidate_manifest_digest@, 64)
    &&& is_hex_of_len(g.project_model_digest@, 64)
    &&& is_hex_of_len(g.resolver_digest@, 64)
    &&& is_hex_of_len(g.adapter_query_digest@, 64)
    &&& is_hex_of_len(g.file_facts_manifest_digest@, 64)
    &&& is_hex_of_len(g.normalization_rules_digest@, 64)
}

pub open spec fn metrics_valid(m: IndexMetrics) -> bool {
    &&& m.elapsed_ms <= 60000
    &&& m.manifest_files <= 100000
    &&& m.manifest_bytes <= 32 * 1024 * 1024
    &&& m.file_fact_hits + m.file_fact_misses <= m.manifest_files
    &&& m.file_fact_writes <= m.file_fact_misses
    &&& m.parsed_files <= m.file_fact_misses
    &&& m.parsed_bytes <= 512 * 1024 * 1024
    &&& m.symbols <= 1000000
    &&& m.edges <= 5000000
    &&& m.query_rows <= 50000
    &&& m.generation_bytes <= 2 * 1024 * 1024 * 1024
    &&& m.output_bytes <= 1048576
}

pub open spec fn report_valid(r: IndexReport) -> bool {
    &&& r.schema_version == 1
    &&& r.kind@ == "repository_index_report"@
    &&& (r.scope_fingerprint matches Some(f) ==> is_hex_of_len(f@, 40) || is_hex_of_len(f@, 64))
    &&& (r.action == IndexAction::Build ==> r.scope_fingerprint is Some)
    &&& is_hex_of_len(r.repository_id@, 64)
    &&& (r.generation_key matches Some(k) ==> is_hex_of_len(k@, 64))
    &&& !(r.action == IndexAction::Build && r.status == IndexReportStatus::Completed
        && r.generation_key is None)
    &&& metrics_valid(r.metrics)
    &&& limitations_valid(r.limitations@)
}

// ----------------------------------------------------------------------
// The checks
// ----------------------------------------------------------------------
fn text_check(value: &str, maximum_chars: usize) -> (r: bool)
    ensures
        r == text_ok(value@, maximum_chars as nat),
{
    let length = value.unicode_len();
    !(length == 0 || length > maximum_chars || str_has_char(value, '\0'))
}

fn optional_text_check(value: &Option<String>, maximum_chars: usize) -> (r: bool)
    ensures
        r == (value matches Some(s) ==> text_ok(s@, maximum_chars as nat)),
{
    match value {
        Some(s) => text_check(s.as_str(), maximum_chars),
        None => true,
    }
}

fn optional_hex_check(value: &Option<String>, length: usize) -> (r: bool)
    ensures
        r == (value matches Some(s) ==> is_hex_of_len(s@, length as nat)),
{
    match value {
        Some(s) => is_hex_with_len(s.as_str(), length),
        None => true,
    }
}

/// Whether a file mode is six octal digits.
pub fn mode_check(mode: &str) -> (r: bool)
    ensures
        r == mode_ok(mode@),
{
    if mode.unicode_len() != 6 {
        return false;
    }
    let mut i: usize = 0;
    while i < 6
        invariant
            mode@.len() == 6,
            i <= 6,
            forall|j: int| 0 <= j < i ==> '0' <= #[trigger] mode@[j] && mode@[j] <= '7',
        decreases 6 - i,
    {
        let c = mode.get_char(i);
        if !('0' <= c && c <= '7') {
            return false;
        }
        i = i + 1;
    }
    true
}

/// Checks a list of sorted, distinct, bounded texts.
pub fn validate_sorted_unique_text(values: &Vec<String>, maximum_items: usize, maximum_chars: usize) -> (r:
    Result<(), IndexContractError>)
    ensures
        r is Ok <==> sorted_unique_text(string_views(values@), maximum_items as nat, maximum_chars as nat),
{
    if values.len() > maximum_items {
        return invalid("values exceed the item limit");
    }
    let mut i: usize = 0;
    while i < values.len()
        invariant
            i <= values@.len(),
            forall|j: int| 0 <= j < i ==> text_ok(#[trigger] values@[j]@, maximum_chars as nat),
            forall|j: int| 0 < j < i ==> #[trigger] lex_less(values@[j - 1]@, values@[j]@),
        decreases values@.len() - i,
    {
        if !text_check(values[i].as_str(), maximum_chars) {
            assert(!text_ok(string_views(values@)[i as int], maximum_chars as nat));
            return invalid("value must contain 1 to the maximum of non-NUL characters");
        }
        if i > 0 && !str_less(values[i - 1].as_str(), values[i].as_str()) {
            assert(!lex_less(string_views(values@)[i - 1], string_views(values@)[i as int]));
            return invalid("values must be sorted and unique");
        }
        i = i + 1;
    }
    assert forall|j: int| 0 < j < string_views(values@).len() implies #[trigger] lex_less(
        string_views(values@)[j - 1],
        string_views(values@)[j],
    ) by {
        assert(lex_less(values@[j - 1]@, values@[j]@));
    }
    assert forall|j: int| 0 <= j < string_views(values@).len() implies text_ok(
        #[trigger] string_views(values@)[j],
        maximum_chars as nat,
    ) by {
        assert(text_ok(values@[j]@, maximum_chars as nat));
    }
    Ok(())
}

impl RepositoryLocator {
    /// Checks the object format and the digests.
    pub fn validate(&self) -> (r: Result<(), IndexContractError>)
        ensures
            r is Ok <==> locator_valid(*self),
    {
        let length: usize = if str_equal(self.object_format.as_str(), "sha1") {
            40
        } else if str_equal(self.object_format.as_str(), "sha256") {
            64
        } else {
            return invalid("object_format must be sha1 or sha256");
        };
        if !optional_hex_check(&self.base_tree, length) {
            return invalid("base_tree must be lowercase hexadecimal");
        }
        if !optional_hex_check(&self.index_manifest_digest, 64) {
            return invalid("index_manifest_digest must be lowercase hexadecimal");
        }
        if !is_hex_with_len(self.overlay_candidate_digest.as_str(), 64) {
            return invalid("overlay_candidate_digest must be lowercase hexadecimal");
        }
        Ok(())
    }
}

impl RepositoryManifestEntry {
    /// Checks the mode, content identity, language and codes of an entry.
    pub fn validate(&self) -> (r: Result<(), IndexContractError>)
        ensures
            r is Ok <==> entry_valid(*self),
    {
        if !mode_check(self.mode.as_str()) {
            return invalid("manifest mode must be six octal digits");
        }
        let content_ok = match self.presence {
            CandidatePresence::Present => match (&self.content_sha256, self.content_bytes) {
                (Some(digest), Some(_)) => is_hex_with_len(digest.as_str(), 64),
                (None, None) => self.status != UnitStatus::Completed,
                _ => false,
            },
            _ => self.content_sha256.is_none() && self.content_bytes.is_none(),
        };
        if !content_ok {
            return invalid("manifest entry content identity is inconsistent");
        }
        if !optional_text_check(&self.language, MAX_LANGUAGE_CHARS) {
            return invalid("language must contain 1 to 100 non-NUL characters");
        }
        validate_sorted_unique_text(&self.limitation_codes, MAX_LIMITATION_CODES, 100)
    }
}

impl IndexLimitation {
    /// Checks the texts of a limitation.
    pub fn validate(&self) -> (r: Result<(), IndexContractError>)
        ensures
            r is Ok <==> limitation_valid(*self),
    {
        if !text_check(self.code.as_str(), 100) {
            return invalid("limitation code must contain 1 to 100 characters");
        }
        if !optional_text_check(&self.symbol_id, MAX_IDENTIFIER_CHARS) {
            return invalid("limitation symbol_id is invalid");
        }
        if !text_check(self.reason.as_str(), MAX_TEXT_CHARS) {
            return invalid("limitation reason is invalid");
        }
        if !text_check(self.interpretation.as_str(), MAX_TEXT_CHARS) {
            return invalid("limitation interpretation is invalid");
        }
        Ok(())
    }
}

fn path_text(p: &Option<RepoPath>) -> (r: &str)
    ensures
        r@ == match p {
            Some(v) => v@,
            None => Seq::<char>::empty(),
        },
{
    match p {
        Some(v) => v.as_str(),
        None => {
            proof {
                reveal_strlit("");
            }
            assert(""@ =~= Seq::<char>::empty());
            ""
        },
    }
}

fn symbol_text(s: &Option<String>) -> (r: &str)
    ensures
        r@ == match s {
            Some(v) => v@,
            None => Seq::<char>::empty(),
        },
{
    match s {
        Some(v) => v.as_str(),
        None => {
            proof {
                reveal_strlit("");
            }
            assert(""@ =~= Seq::<char>::empty());
            ""
        },
    }
}

/// Whether the first limitation sorts strictly before the second.
pub fn limitation_less(a: &IndexLimitation, b: &IndexLimitation) -> (r: bool)
    ensures
        r == key_less(limitation_key(*a), limitation_key(*b)),
{
    let ka: [&str; 5] = [
        a.code.as_str(),
        path_text(&a.path),
        symbol_text(&a.symbol_id),
        a.reason.as_str(),
        a.interpretation.as_str(),
    ];
    let kb: [&str; 5] = [
        b.code.as_str(),
        path_text(&b.path),
        symbol_text(&b.symbol_id),
        b.reason.as_str(),
        b.interpretation.as_str(),
    ];
    let ghost va = limitation_key(*a);
    let ghost vb = limitation_key(*b);
    assert(Seq::new(5, |i: int| ka@[i]@) =~= va);
    assert(Seq::new(5, |i: int| kb@[i]@) =~= vb);
    assert(va.subrange(0, 5) =~= va);
    assert(vb.subrange(0, 5) =~= vb);
    let mut i: usize = 0;
    while i < 5
        invariant
            i <= 5,
            va == limitation_key(*a),
            vb == limitation_key(*b),
            va == Seq::new(5, |j: int| ka@[j]@),
            vb == Seq::new(5, |j: int| kb@[j]@),
            va.len() == 5 && vb.len() == 5,
            forall|j: int| 0 <= j < i ==> va[j] == vb[j],
            key_less(va, vb) == key_less(va.subrange(i as int, 5), vb.subrange(i as int, 5)),
        decreases 5 - i,
    {
        let x = ka[i];
        let y = kb[i];
        let ghost sa = va.subrange(i as int, 5);
        let ghost sb = vb.subrange(i as int, 5);
        assert(sa[0] == x@ && sb[0] == y@);
        assert(key_less(sa, sb) == (if lex_less(sa[0], sb[0]) {
            true
        } else if sa[0] == sb[0] {
            key_less(sa.drop_first(), sb.drop_first())
        } else {
            false
        }));
        if str_less(x, y) {
            return true;
        }
        if !str_equal(x, y) {
            return false;
        }
        assert(sa.drop_first() =~= va.subrange(i + 1, 5));
        assert(sb.drop_first() =~= vb.subrange(i + 1, 5));
        i = i + 1;
    }
    assert(key_less(va.subrange(5, 5), vb.subrange(5, 5)) == false);
    false
}

/// Checks the limitations: at most 1000, each well formed, strictly sorted.
pub fn validate_limitations(limitations: &Vec<IndexLimitation>) -> (r: Result<(), IndexContractError>)
    ensures
        r is Ok <==> limitations_valid(limitations@),
{
    if limitations.len() > MAX_INDEX_LIMITATIONS {
        return invalid("limitations exceed 1000 items");
    }
    let mut i: usize = 0;
    while i < limitations.len()
        invariant
            i <= limitations@.len(),
            limitations@.len() <= 1000,
            forall|j: int| 0 <= j < i ==> limitation_valid(#[trigger] limitations@[j]),
            forall|j: int|
                0 < j < i ==> key_less(
                    limitation_key(limitations@[j - 1]),
                    limitation_key(#[trigger] limitations@[j]),
                ),
        decreases limitations@.len() - i,
    {
        let v = limitations[i].validate();
        if v.is_err() {
            return v;
        }
        if i > 0 && !limitation_less(&limitations[i - 1], &limitations[i]) {
            return invalid("limitations must be sorted and unique");
        }
        i = i + 1;
    }
    Ok(())
}

impl RepositoryManifest {
    /// Checks the locator, digest, entries, completeness and limitations.
    pub fn validate(&self) -> (r: Result<(), IndexContractError>)
        ensures
            r is Ok <==> manifest_valid(*self),
    {
        let l = self.locator.validate();
        if l.is_err() {
            return l;
        }
        if !is_hex_with_len(self.digest.as_str(), 64) {
            return invalid("manifest digest must be lowercase hexadecimal");
        }
        if self.entries.len() > MAX_MANIFEST_ENTRIES {
            return invalid("manifest entries exceed 100000 items");
        }
        let mut i: usize = 0;
        while i < self.entries.len()
            invariant
                i <= self.entries@.len(),
                forall|j: int| 0 <= j < i ==> entry_valid(#[trigger] self.entries@[j]),
                forall|j: int|
                    0 < j < i ==> #[trigger] lex_less(self.entries@[j - 1].path@, self.entries@[j].path@),
            decreases self.entries@.len() - i,
        {
            if i > 0 && !str_less(self.entries[i - 1].path.as_str(), self.entries[i].path.as_str()) {
                assert(!lex_less(entry_paths(self.entries@)[i - 1], entry_paths(self.entries@)[i as int]));
                return invalid("manifest paths must be sorted and unique");
            }
            let v = self.entries[i].validate();
            if v.is_err() {
                return v;
            }
            i = i + 1;
        }
        assert forall|j: int| 0 < j < entry_paths(self.entries@).len() implies #[trigger] lex_less(
            entry_paths(self.entries@)[j - 1],
            entry_paths(self.entries@)[j],
        ) by {
            assert(lex_less(self.entries@[j - 1].path@, self.entries@[j].path@));
        }
        if self.completeness == Completeness::Complete {
            let mut k: usize = 0;
            while k < self.entries.len()
                invariant
                    k <= self.entries@.len(),
                    self.completeness == Completeness::Complete,
                    forall|j: int| 0 <= j < k ==> (#[trigger] self.entries@[j]).status == UnitStatus::Completed,
                decreases self.entries@.len() - k,
            {
                if self.entries[k].status != UnitStatus::Completed {
                    return invalid("complete manifests require completed entries");
                }
                k = k + 1;
            }
        }
        validate_limitations(&self.limitations)
    }
}

impl FileFactKey {
    /// Checks the texts and digests of a file-fact key.
    pub fn validate(&self) -> (r: Result<(), IndexContractError>)
        ensures
            r is Ok <==> file_fact_key_valid(*self),
    {
        if !text_check(self.language.as_str(), MAX_LANGUAGE_CHARS) {
            return invalid("language is invalid");
        }
        if !is_hex_with_len(self.content_sha256.as_str(), 64) {
            return invalid("content_sha256 is invalid");
        }
        if !text_check(self.grammar_version.as_str(), MAX_VERSION_CHARS) {
            return invalid("grammar_version is invalid");
        }
        if !is_hex_with_len(self.query_digest.as_str(), 64) {
            return invalid("query_digest is invalid");
        }
        if !text_check(self.adapter_version.as_str(), MAX_VERSION_CHARS) {
            return invalid("adapter_version is invalid");
        }
        if !is_hex_with_len(self.normalization_rules_digest.as_str(), 64) {
            return invalid("normalization_rules_digest is invalid");
        }
        if self.schema_version == 0 {
            return invalid("file fact schema_version must be positive");
        }
        Ok(())
    }
}

impl FileFactsManifestEntry {
    /// Checks that presence and key agree.
    pub fn validate(&self) -> (r: Result<(), IndexContractError>)
        ensures
            r is Ok <==> file_facts_entry_valid(*self),
    {
        match (&self.presence, &self.file_fact_key) {
            (CandidatePresence::Present, Some(key)) => key.validate(),
            (CandidatePresence::Present, None) => {
                if self.status != UnitStatus::Completed {
                    Ok(())
                } else {
                    invalid("file facts manifest entry has inconsistent presence and key")
                }
            },
            (_, None) => Ok(()),
            _ => invalid("file facts manifest entry has inconsistent presence and key"),
        }
    }
}

impl GraphGenerationIdentity {
    /// Checks the schema version and the six digests.
    pub fn validate(&self) -> (r: Result<(), IndexContractError>)
        ensures
            r is Ok <==> generation_identity_valid(*self),
    {
        if self.graph_schema_version == 0 {
            return invalid("graph_schema_version must be positive");
        }
        if !(is_hex_with_len(self.candidate_manifest_digest.as_str(), 64) && is_hex_with_len(
            self.project_model_digest.as_str(),
            64,
        ) && is_hex_with_len(self.resolver_digest.as_str(), 64) && is_hex_with_len(
            self.adapter_query_digest.as_str(),
            64,
        ) && is_hex_with_len(self.file_facts_manifest_digest.as_str(), 64) && is_hex_with_len(
            self.normalization_rules_digest.as_str(),
            64,
        )) {
            return invalid("generation digests must be lowercase hexadecimal");
        }
        Ok(())
    }
}

impl IndexMetrics {
    /// Checks the metric bounds.
    pub fn validate(&self) -> (r: Result<(), IndexContractError>)
        ensures
            r is Ok <==> metrics_valid(*self),
    {
        if self.elapsed_ms > 60000 {
            return invalid("elapsed_ms exceeds 60000");
        }
        if self.manifest_files > MAX_MANIFEST_ENTRIES {
            return invalid("manifest_files exceeds 100000");
        }
        if self.manifest_bytes > 32 * 1024 * 1024 {
            return invalid("manifest_bytes exceeds 32 MiB");
        }
        match self.file_fact_hits.checked_add(self.file_fact_misses) {
            None => {
                return invalid("file fact lookup count overflow");
            },
            Some(lookups) => {
                if lookups > self.manifest_files {
                    return invalid("file fact lookups exceed manifest_files");
                }
            },
        }
        if self.file_fact_writes > self.file_fact_misses {
            return invalid("file_fact_writes exceeds file_fact_misses");
        }
        if self.parsed_files > self.file_fact_misses {
            return invalid("parsed_files exceeds file_fact_misses");
        }
        if self.parsed_bytes > 512 * 1024 * 1024 {
            return invalid("parsed_bytes exceeds 512 MiB");
        }
        if self.symbols > 1000000 {
            return invalid("symbols exceeds 1000000");
        }
        if self.edges > 5000000 {
            return invalid("edges exceeds 5000000");
        }
        if self.query_rows > 50000 {
            return invalid("query_rows exceeds 50000");
        }
        if self.generation_bytes > 2 * 1024 * 1024 * 1024 {
            return invalid("generation_bytes exceeds 2 GiB");
        }
        if self.output_bytes > MAX_OUTPUT_BYTES {
            return invalid("output_bytes exceeds 1 MiB");
        }
        Ok(())
    }
}

impl IndexReport {
    /// Checks every rule of a well-formed index report.
    pub fn validate(&self) -> (r: Result<(), IndexContractError>)
        ensures
            r is Ok <==> report_valid(*self),
    {
        if self.schema_version != 1 {
            return invalid("schema_version must equal 1");
        }
        if !str_equal(self.kind.as_str(), "repository_index_report") {
            return invalid("kind must equal repository_index_report");
        }
        match &self.scope_fingerprint {
            Some(f) => {
                if !(is_hex_with_len(f.as_str(), 40) || is_hex_with_len(f.as_str(), 64)) {
                    return invalid("scope_fingerprint must be lowercase hexadecimal");
                }
            },
            None => {
                if self.action == IndexAction::Build {
                    return invalid("build reports require scope_fingerprint");
                }
            },
        }
        if !is_hex_with_len(self.repository_id.as_str(), 64) {
            return invalid("repository_id must be lowercase hexadecimal");
        }
        if !optional_hex_check(&self.generation_key, 64) {
            return invalid("generation_key must be lowercase hexadecimal");
        }
        if self.action == IndexAction::Build && self.status == IndexReportStatus::Completed
            && self.generation_key.is_none() {
            return invalid("completed build reports require generation_key");
        }
        let m = self.metrics.validate();
        if m.is_err() {
            return m;
        }
        validate_limitations(&self.limitations)
    }
}


/// The `k` low-order bytes of `n`, most significant first.
pub open spec fn be_bytes(n: nat, k: nat) -> Seq<u8>
    decreases k,
{
    if k == 0 {
        Seq::empty()
    } else {
        be_bytes(n / 256, (k - 1) as nat).push((n % 256) as u8)
    }
}

pub fn push_be(out: &mut Vec<u8>, n: u64, k: usize)
    ensures
        final(out)@ == old(out)@ + be_bytes(n as nat, k as nat),
    decreases k,
{
    if k > 0 {
        push_be(out, n / 256, k - 1);
        out.push((n % 256) as u8);
        assert(out@ =~= old(out)@ + be_bytes(n as nat, k as nat));
    } else {
        assert(out@ =~= old(out)@ + be_bytes(n as nat, k as nat));
    }
}

/// A hashed component: its length as eight big-endian bytes, then itself.
pub open spec fn component(b: Seq<u8>) -> Seq<u8> {
    be_bytes(b.len(), 8) + b
}

pub fn push_component(out: &mut Vec<u8>, bytes: &[u8])
    ensures
        final(out)@ == old(out)@ + component(bytes@),
{
    push_be(out, bytes.len() as u64, 8);
    let mut i: usize = 0;
    let ghost mid = out@;
    while i < bytes.len()
        invariant
            i <= bytes@.len(),
            out@ == mid + bytes@.take(i as int),
        decreases bytes@.len() - i,
    {
        out.push(bytes[i]);
        assert(bytes@.take(i + 1) =~= bytes@.take(i as int).push(bytes@[i as int]));
        i = i + 1;
    }
    assert(bytes@.take(bytes@.len() as int) =~= bytes@);
    assert(out@ =~= old(out)@ + component(bytes@));
}

/// The message whose digest is a generation key.
pub open spec fn generation_message(g: GraphGenerationIdentity) -> Seq<u8> {
    component(encode_utf8("repository-graph-generation/v1"@)) + component(
        be_bytes(g.graph_schema_version as nat, 2),
    ) + component(encode_utf8(g.candidate_manifest_digest@)) + component(
        encode_utf8(g.project_model_digest@),
    ) + component(encode_utf8(g.resolver_digest@)) + component(encode_utf8(g.adapter_query_digest@))
        + component(encode_utf8(g.file_facts_manifest_digest@)) + component(
        encode_utf8(g.normalization_rules_digest@),
    )
}

impl GraphGenerationIdentity {
    /// The key of the generation: the lowercase hexadecimal SHA-256 of its
    /// length-prefixed components. Refused when the identity is invalid.
    pub fn generation_key(&self) -> (r: Result<String, IndexContractError>)
        ensures
            r is Ok <==> generation_identity_valid(*self),
            r matches Ok(k) ==> k@ == hex_seq(sha256_of(generation_message(*self))),
            r matches Ok(k) ==> is_hex_of_len(k@, 64),
    {
        match self.validate() {
            Err(e) => Err(e),
            Ok(()) => {
                let mut message: Vec<u8> = Vec::new();
                push_component(&mut message, "repository-graph-generation/v1".as_bytes());
                let mut version: Vec<u8> = Vec::new();
                push_be(&mut version, self.graph_schema_version as u64, 2);
                assert(version@ =~= be_bytes(self.graph_schema_version as nat, 2));
                push_component(&mut message, version.as_slice());
                push_component(&mut message, self.candidate_manifest_digest.as_str().as_bytes());
                push_component(&mut message, self.project_model_digest.as_str().as_bytes());
                push_component(&mut message, self.resolver_digest.as_str().as_bytes());
                push_component(&mut message, self.adapter_query_digest.as_str().as_bytes());
                push_component(&mut message, self.file_facts_manifest_digest.as_str().as_bytes());
                push_component(&mut message, self.normalization_rules_digest.as_str().as_bytes());
                assert(message@ =~= generation_message(*self));
                Ok(sha256_hex_of_bytes(message.as_slice()))
            },
        }
    }
}

} // verus!
