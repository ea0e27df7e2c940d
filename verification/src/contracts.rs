//! The impact-context document and the rules that make it well formed.
use vstd::prelude::*;
use crate::candidate::{repo_path_valid, RepoPath};
use crate::review_scope::ReviewSource;
use crate::strings::{
    char_count, is_hex_of_len, is_hex_with_len, lex_less, str_equal, str_has_char, str_less,
    strictly_ascending,
};

verus! {

pub const MAX_PROVIDERS: usize = 16;
pub const MAX_UNITS: usize = 30;
pub const MAX_SYMBOLS: usize = 5000;
pub const MAX_EDGES: usize = 500;
pub const MAX_SUMMARIES: usize = 1000;
pub const MAX_LIMITATIONS: usize = 1000;
pub const MAX_MESSAGE_CHARS: usize = 1000;
pub const MAX_LABEL_CHARS: usize = 100;

#[derive(Debug, Clone, Copy, PartialEq, Eq, Structural)]
pub enum ImpactMode {
    Fast,
    Deep,
}

#[derive(Debug, Clone, Copy, PartialEq, Eq, Structural)]
pub enum ImpactStatus {
    Completed,
    Partial,
    Unavailable,
    Invalidated,
    Failed,
}

#[derive(Debug, Clone, Copy, PartialEq, Eq, Structural)]
pub enum ProviderStatus {
    Completed,
    Partial,
    Unsupported,
    Timeout,
    BudgetExhausted,
    Stale,
    InvalidOutput,
    Unavailable,
}

#[derive(Debug, Clone, Copy, PartialEq, Eq, Structural)]
pub enum ParseQuality {
    Clean,
    Recovered,
    Degraded,
}

#[derive(Debug, Clone, Copy, PartialEq, Eq, Structural)]
pub enum EdgeKind {
    Defines,
    References,
    Imports,
    Exports,
    Calls,
    Implements,
    Overrides,
}

#[derive(Debug, Clone, Copy, PartialEq, Eq, Structural)]
pub enum Resolution {
    Syntactic,
    Lexical,
    ResolvedReference,
    Semantic,
    PolymorphicCandidate,
    Unresolved,
}

#[derive(Debug, Clone, Copy, PartialEq, Eq, Structural)]
pub enum Confidence {
    High,
    Medium,
    Low,
}

#[derive(Debug, Clone, Copy, PartialEq, Eq, Structural)]
pub enum UnitStatus {
    Completed,
    Partial,
    Unsupported,
    BudgetExhausted,
    Unavailable,
}

#[derive(Debug, Clone, Copy, PartialEq, Eq, Structural)]
pub enum SummaryKind {
    DependencyChange,
    InterfaceChange,
    TextQueryMatch,
    TestSelection,
    FrameworkEffect,
    ConfigurationEffect,
    AuthorizationEffect,
    StorageEffect,
    NetworkEffect,
    LifecycleEffect,
}

#[derive(Debug, Clone, Copy, PartialEq, Eq, Structural)]
pub enum ImpactPresence {
    Present,
    Deleted,
    Gitlink,
}

#[derive(Debug, Clone, Copy, PartialEq, Eq, Structural)]
pub enum Completeness {
    Complete,
    Partial,
    Unavailable,
}

#[derive(Debug, Clone, PartialEq, Eq)]
pub struct ImpactScope {
    pub fingerprint: String,
    pub source: ReviewSource,
    pub candidate_digest: String,
}

#[derive(Debug, Clone, Copy, PartialEq, Eq, Structural)]
pub struct SourceRange {
    pub start_line: u32,
    pub start_column: u32,
    pub end_line: u32,
    pub end_column: u32,
    pub start_byte: usize,
    pub end_byte: usize,
}

#[derive(Debug, Clone, PartialEq, Eq)]
pub struct ProviderRecord {
    pub provider_id: String,
    pub provider_kind: String,
    pub provider_version: String,
    pub configuration_digest: String,
    pub status: ProviderStatus,
    pub elapsed_ms: u64,
    pub input_files: usize,
    pub input_bytes: u64,
    pub output_fact_count: usize,
    pub cache_hits: usize,
    pub cache_misses: usize,
    pub cache_stale: usize,
    pub cache_corrupt: usize,
    pub limitation_ids: Vec<String>,
}

#[derive(Debug, Clone, PartialEq, Eq)]
pub struct ImpactUnit {
    pub manifest_unit_id: String,
    pub path: String,
    pub language: String,
    pub content_sha256: Option<String>,
    pub content_bytes: Option<usize>,
    pub presence: ImpactPresence,
    pub syntax_eligible: bool,
    pub syntax_status: UnitStatus,
    pub text_status: UnitStatus,
    pub parse_quality: Option<ParseQuality>,
    pub provider_ids: Vec<String>,
    pub changed_ranges: Vec<SourceRange>,
    pub error_node_count: usize,
    pub missing_node_count: usize,
    pub parse_affected_ranges: Vec<SourceRange>,
    pub parse_affected_symbol_ids: Vec<String>,
    pub changed_symbol_ids: Vec<String>,
    pub limitation_ids: Vec<String>,
}

#[derive(Debug, Clone, PartialEq, Eq)]
pub struct ChangedSymbol {
    pub symbol_id: String,
    pub provider_id: String,
    pub path: String,
    pub language: String,
    pub kind: String,
    pub name: String,
    pub owner: Option<String>,
    pub signature: Option<String>,
    pub visibility: Option<String>,
    pub range: SourceRange,
    pub confidence: Confidence,
}

#[derive(Debug, Clone, PartialEq, Eq)]
pub struct ImpactEdge {
    pub edge_id: String,
    pub kind: EdgeKind,
    pub from_symbol: String,
    pub to_symbol: Option<String>,
    pub unresolved_target: Option<String>,
    pub path: String,
    pub range: SourceRange,
    pub provider_id: String,
    pub resolution: Resolution,
    pub confidence: Confidence,
}

#[derive(Debug, Clone, PartialEq, Eq)]
pub struct DomainSummary {
    pub summary_id: String,
    pub summary_kind: SummaryKind,
    pub path: String,
    pub symbol_id: Option<String>,
    pub confidence: Confidence,
    pub message: String,
    pub evidence_fact_ids: Vec<String>,
}

#[derive(Debug, Clone, Copy, PartialEq, Eq, Structural)]
pub struct ImpactCoverage {
    pub total_candidate_files: usize,
    pub changed_candidate_files: usize,
    pub syntax_eligible_files: usize,
    pub parsed_files: usize,
    pub clean_parse_files: usize,
    pub recovered_parse_files: usize,
    pub degraded_parse_files: usize,
    pub unsupported_files: usize,
    pub resource_limited_files: usize,
    pub unavailable_files: usize,
    pub cache_hits: usize,
    pub cache_misses: usize,
    pub cache_stale: usize,
    pub cache_corrupt: usize,
    pub requested_graph_depth: usize,
    pub reached_graph_depth: usize,
    pub graph_index_completeness: Completeness,
    pub graph_query_completeness: Completeness,
    pub output_truncated: bool,
}

#[derive(Debug, Clone, PartialEq, Eq)]
pub struct Limitation {
    pub limitation_id: String,
    pub code: String,
    pub provider_id: Option<String>,
    pub path: Option<String>,
    pub symbol_id: Option<String>,
    pub reason: String,
    pub interpretation: String,
    pub improvable_in_deep_mode: bool,
}

#[derive(Debug, Clone, Copy, PartialEq, Eq, Structural)]
pub struct ImpactMetrics {
    pub elapsed_ms: u64,
    pub candidate_input_files: usize,
    pub candidate_input_bytes: u64,
    pub nodes_visited: usize,
    pub max_nesting_depth: usize,
    pub facts_emitted: usize,
    pub edges_emitted: usize,
    pub summaries_emitted: usize,
    pub output_bytes: usize,
}

#[derive(Debug, Clone, PartialEq, Eq)]
pub struct ImpactContext {
    pub schema_version: u8,
    pub kind: String,
    pub scope: ImpactScope,
    pub mode: ImpactMode,
    pub status: ImpactStatus,
    pub providers: Vec<ProviderRecord>,
    pub units: Vec<ImpactUnit>,
    pub changed_symbols: Vec<ChangedSymbol>,
    pub impact_edges: Vec<ImpactEdge>,
    pub domain_summaries: Vec<DomainSummary>,
    pub coverage: ImpactCoverage,
    pub limitations: Vec<Limitation>,
    pub metrics: ImpactMetrics,
}

/// Why an impact context is not well formed.
#[derive(Debug, Clone, PartialEq, Eq)]
pub struct ImpactContractError {
    message: String,
}

impl View for ImpactContractError {
    type V = Seq<char>;

    closed spec fn view(&self) -> Seq<char> {
        self.message@
    }
}

impl ImpactContractError {
    fn new(message: &str) -> (r: Self) {
        ImpactContractError { message: String::from_str(message) }
    }

    /// The human-readable reason.
    pub fn message(&self) -> (r: String)
        ensures
            r@ == self@,
    {
        self.message.clone()
    }
}

fn invalid(message: &str) -> (r: Result<(), ImpactContractError>)
    ensures
        r is Err,
{
    Err(ImpactContractError::new(message))
}

// ----------------------------------------------------------------------
// The model: what a well-formed impact context is.
// ----------------------------------------------------------------------
/// The views of a sequence of strings.
pub open spec fn string_views(v: Seq<String>) -> Seq<Seq<char>> {
    Seq::new(v.len(), |i: int| v[i]@)
}

/// An identifier: sixteen lowercase hexadecimal digits.
pub open spec fn valid_id(s: Seq<char>) -> bool {
    is_hex_of_len(s, 16)
}

/// Text of one to `max` characters.
pub open spec fn bounded_text(s: Seq<char>, max: nat) -> bool {
    0 < s.len() <= max
}

/// Absent, or text of one to `max` characters.
pub open spec fn optional_text(s: Option<String>, max: nat) -> bool {
    match s {
        Some(v) => bounded_text(v@, max),
        None => true,
    }
}

/// A list of identifiers: strictly ascending and each one valid.
pub open spec fn ids_valid(ids: Seq<Seq<char>>) -> bool {
    strictly_ascending(ids) && forall|i: int| 0 <= i < ids.len() ==> #[trigger] valid_id(ids[i])
}

/// A valid identifier list whose members all occur in `known`.
pub open spec fn refs_known(ids: Seq<Seq<char>>, known: Seq<Seq<char>>) -> bool {
    ids_valid(ids) && forall|i: int| 0 <= i < ids.len() ==> known.contains(#[trigger] ids[i])
}

/// A repository path written with `/` separators.
pub open spec fn path_valid(p: Seq<char>) -> bool {
    !p.contains('\\') && repo_path_valid(p)
}

/// One-based positions, end not before start, bytes within the content.
pub open spec fn range_valid(r: SourceRange, content_bytes: Option<usize>) -> bool {
    &&& r.start_line != 0 && r.start_column != 0 && r.end_line != 0 && r.end_column != 0
    &&& (r.end_line > r.start_line || (r.end_line == r.start_line && r.end_column
        >= r.start_column))
    &&& r.end_byte >= r.start_byte
    &&& (content_bytes matches Some(b) ==> r.end_byte <= b)
}

/// The coverage counters partition the emitted units consistently.
pub open spec fn coverage_valid(c: ImpactCoverage, emitted_units: nat) -> bool {
    &&& c.changed_candidate_files <= c.total_candidate_files
    &&& emitted_units == c.changed_candidate_files
    &&& c.syntax_eligible_files <= c.changed_candidate_files
    &&& c.parsed_files <= c.syntax_eligible_files
    &&& c.clean_parse_files + c.recovered_parse_files + c.degraded_parse_files == c.parsed_files
    &&& c.parsed_files + c.unsupported_files + c.resource_limited_files + c.unavailable_files
        == c.changed_candidate_files
    &&& c.reached_graph_depth <= c.requested_graph_depth
}

pub open spec fn provider_ids(ps: Seq<ProviderRecord>) -> Seq<Seq<char>> {
    Seq::new(ps.len(), |i: int| ps[i].provider_id@)
}

pub open spec fn symbol_ids(ss: Seq<ChangedSymbol>) -> Seq<Seq<char>> {
    Seq::new(ss.len(), |i: int| ss[i].symbol_id@)
}

pub open spec fn edge_ids(es: Seq<ImpactEdge>) -> Seq<Seq<char>> {
    Seq::new(es.len(), |i: int| es[i].edge_id@)
}

pub open spec fn summary_ids(ds: Seq<DomainSummary>) -> Seq<Seq<char>> {
    Seq::new(ds.len(), |i: int| ds[i].summary_id@)
}

pub open spec fn limitation_ids(ls: Seq<Limitation>) -> Seq<Seq<char>> {
    Seq::new(ls.len(), |i: int| ls[i].limitation_id@)
}

pub open spec fn unit_paths(us: Seq<ImpactUnit>) -> Seq<Seq<char>> {
    Seq::new(us.len(), |i: int| us[i].path@)
}

pub open spec fn manifest_ids(us: Seq<ImpactUnit>) -> Seq<Seq<char>> {
    Seq::new(us.len(), |i: int| us[i].manifest_unit_id@)
}

/// No two elements are equal.
pub open spec fn all_distinct(s: Seq<Seq<char>>) -> bool {
    forall|i: int, j: int| 0 <= i < s.len() && 0 <= j < s.len() && i != j ==> s[i] != s[j]
}

/// Every unit with path `p` admits the range.
pub open spec fn range_fits_units(r: SourceRange, p: Seq<char>, units: Seq<ImpactUnit>) -> bool {
    forall|k: int| 0 <= k < units.len() && (#[trigger] units[k]).path@ == p ==> range_valid(r, units[k].content_bytes)
}

pub open spec fn header_valid(c: ImpactContext) -> bool {
    &&& c.schema_version == 1
    &&& c.kind@ == "impact_context"@
    &&& (is_hex_of_len(c.scope.fingerprint@, 40) || is_hex_of_len(c.scope.fingerprint@, 64))
    &&& is_hex_of_len(c.scope.candidate_digest@, 64)
    &&& c.providers.len() <= MAX_PROVIDERS
    &&& c.units.len() <= MAX_UNITS
    &&& c.changed_symbols.len() <= MAX_SYMBOLS
    &&& c.impact_edges.len() <= MAX_EDGES
    &&& c.domain_summaries.len() <= MAX_SUMMARIES
    &&& c.limitations.len() <= MAX_LIMITATIONS
}

pub open spec fn identities_valid(c: ImpactContext) -> bool {
    &&& strictly_ascending(provider_ids(c.providers@))
    &&& strictly_ascending(symbol_ids(c.changed_symbols@))
    &&& strictly_ascending(edge_ids(c.impact_edges@))
    &&& strictly_ascending(summary_ids(c.domain_summaries@))
    &&& strictly_ascending(limitation_ids(c.limitations@))
    &&& all_distinct(unit_paths(c.units@))
    &&& all_distinct(manifest_ids(c.units@))
}

pub open spec fn provider_valid(c: ImpactContext, p: ProviderRecord) -> bool {
    &&& valid_id(p.provider_id@)
    &&& is_hex_of_len(p.configuration_digest@, 64)
    &&& bounded_text(p.provider_kind@, 100)
    &&& bounded_text(p.provider_version@, 100)
    &&& refs_known(string_views(p.limitation_ids@), limitation_ids(c.limitations@))
}

pub open spec fn presence_valid(u: ImpactUnit) -> bool {
    match u.presence {
        ImpactPresence::Present => u.content_sha256 matches Some(s) && is_hex_of_len(s@, 64)
            && u.content_bytes is Some,
        _ => u.content_sha256 is None && u.content_bytes is None,
    }
}

pub open spec fn unit_valid(c: ImpactContext, u: ImpactUnit) -> bool {
    &&& path_valid(u.path@)
    &&& bounded_text(u.language@, 100)
    &&& presence_valid(u)
    &&& refs_known(string_views(u.provider_ids@), provider_ids(c.providers@))
    &&& refs_known(string_views(u.changed_symbol_ids@), symbol_ids(c.changed_symbols@))
    &&& refs_known(string_views(u.parse_affected_symbol_ids@), symbol_ids(c.changed_symbols@))
    &&& refs_known(string_views(u.limitation_ids@), limitation_ids(c.limitations@))
    &&& (forall|i: int|
        0 <= i < u.changed_ranges.len() ==> range_valid(#[trigger] u.changed_ranges[i], u.content_bytes))
    &&& (forall|i: int|
        0 <= i < u.parse_affected_ranges.len() ==> range_valid(
            #[trigger] u.parse_affected_ranges[i],
            u.content_bytes,
        ))
    &&& (forall|i: int, k: int|
        0 <= i < u.changed_symbol_ids.len() && 0 <= k < c.changed_symbols.len()
            && #[trigger] c.changed_symbols[k].symbol_id@ == #[trigger] u.changed_symbol_ids[i]@
            ==> c.changed_symbols[k].path@ == u.path@)
}

pub open spec fn symbol_valid(c: ImpactContext, s: ChangedSymbol) -> bool {
    &&& valid_id(s.symbol_id@)
    &&& path_valid(s.path@)
    &&& bounded_text(s.language@, 100)
    &&& bounded_text(s.kind@, 100)
    &&& bounded_text(s.name@, 1000)
    &&& optional_text(s.owner, 1000)
    &&& optional_text(s.signature, 1000)
    &&& optional_text(s.visibility, 100)
    &&& provider_ids(c.providers@).contains(s.provider_id@)
    &&& unit_paths(c.units@).contains(s.path@)
    &&& range_fits_units(s.range, s.path@, c.units@)
}

/// No provider of the edge's provider id rules the edge out.
pub open spec fn edge_provider_allows(c: ImpactContext, e: ImpactEdge) -> bool {
    forall|k: int|
        0 <= k < c.providers.len() && (#[trigger] c.providers[k]).provider_id@ == e.provider_id@
            ==> {
            &&& c.providers[k].provider_kind@ != "text-adapter"@
            &&& (c.providers[k].provider_kind@ == "tree-sitter-rust"@ ==> !(e.resolution
                == Resolution::ResolvedReference || e.resolution == Resolution::Semantic
                || e.resolution == Resolution::PolymorphicCandidate))
        }
}

pub open spec fn edge_target_valid(c: ImpactContext, e: ImpactEdge) -> bool {
    match (e.to_symbol, e.unresolved_target) {
        (Some(t), None) => valid_id(t@) && symbol_ids(c.changed_symbols@).contains(t@),
        (None, Some(t)) => bounded_text(t@, 1000),
        _ => false,
    }
}

pub open spec fn edge_valid(c: ImpactContext, e: ImpactEdge) -> bool {
    &&& valid_id(e.edge_id@)
    &&& path_valid(e.path@)
    &&& provider_ids(c.providers@).contains(e.provider_id@)
    &&& unit_paths(c.units@).contains(e.path@)
    &&& range_fits_units(e.range, e.path@, c.units@)
    &&& edge_target_valid(c, e)
    &&& edge_provider_allows(c, e)
}

pub open spec fn summary_valid(c: ImpactContext, d: DomainSummary) -> bool {
    &&& valid_id(d.summary_id@)
    &&& path_valid(d.path@)
    &&& unit_paths(c.units@).contains(d.path@)
    &&& (d.symbol_id matches Some(s) ==> valid_id(s@) && symbol_ids(c.changed_symbols@).contains(
        s@,
    ))
    &&& bounded_text(d.message@, 1000)
    &&& ids_valid(string_views(d.evidence_fact_ids@))
}

pub open spec fn limitation_valid(c: ImpactContext, l: Limitation) -> bool {
    &&& valid_id(l.limitation_id@)
    &&& bounded_text(l.code@, 100)
    &&& bounded_text(l.reason@, 1000)
    &&& bounded_text(l.interpretation@, 1000)
    &&& (l.provider_id matches Some(p) ==> provider_ids(c.providers@).contains(p@))
    &&& (l.path matches Some(p) ==> path_valid(p@) && unit_paths(c.units@).contains(p@))
    &&& (l.symbol_id matches Some(s) ==> symbol_ids(c.changed_symbols@).contains(s@))
}

/// Some limitation carries the code `output-truncated`.
pub open spec fn has_truncation_limitation(ls: Seq<Limitation>) -> bool {
    exists|i: int| 0 <= i < ls.len() && (#[trigger] ls[i]).code@ == "output-truncated"@
}

pub open spec fn totals_valid(c: ImpactContext) -> bool {
    &&& coverage_valid(c.coverage, c.units.len() as nat)
    &&& c.coverage.output_truncated == has_truncation_limitation(c.limitations@)
    &&& (!c.coverage.output_truncated ==> c.metrics.edges_emitted == c.impact_edges.len()
        && c.metrics.summaries_emitted == c.domain_summaries.len())
}

/// A well-formed impact context.
pub open spec fn context_valid(c: ImpactContext) -> bool {
    &&& header_valid(c)
    &&& identities_valid(c)
    &&& (forall|i: int| 0 <= i < c.providers.len() ==> provider_valid(c, #[trigger] c.providers[i]))
    &&& (forall|i: int| 0 <= i < c.units.len() ==> unit_valid(c, #[trigger] c.units[i]))
    &&& (forall|i: int|
        0 <= i < c.changed_symbols.len() ==> symbol_valid(c, #[trigger] c.changed_symbols[i]))
    &&& (forall|i: int| 0 <= i < c.impact_edges.len() ==> edge_valid(c, #[trigger] c.impact_edges[i]))
    &&& (forall|i: int|
        0 <= i < c.domain_summaries.len() ==> summary_valid(c, #[trigger] c.domain_summaries[i]))
    &&& (forall|i: int|
        0 <= i < c.limitations.len() ==> limitation_valid(c, #[trigger] c.limitations[i]))
    &&& totals_valid(c)
}

// ----------------------------------------------------------------------
// The checks.
// ----------------------------------------------------------------------
fn check_id(value: &str) -> (r: bool)
    ensures
        r == valid_id(value@),
{
    is_hex_with_len(value, 16)
}

fn check_bounded(value: &str, max: usize) -> (r: bool)
    ensures
        r == bounded_text(value@, max as nat),
{
    let n = char_count(value);
    n > 0 && n <= max
}

fn check_optional(value: &Option<String>, max: usize) -> (r: bool)
    ensures
        r == optional_text(*value, max as nat),
{
    match value {
        Some(v) => check_bounded(v.as_str(), max),
        None => true,
    }
}

/// Whether the strings are strictly ascending.
pub fn check_ascending(ids: &Vec<String>) -> (r: bool)
    ensures
        r == strictly_ascending(string_views(ids@)),
{
    let n = ids.len();
    if n == 0 {
        return true;
    }
    let mut i: usize = 1;
    while i < n
        invariant
            n == ids@.len(),
            1 <= i <= n,
            forall|j: int| 0 < j < i ==> #[trigger] lex_less(ids@[j - 1]@, ids@[j]@),
        decreases n - i,
    {
        if !str_less(ids[i - 1].as_str(), ids[i].as_str()) {
            assert(!lex_less(string_views(ids@)[i - 1], string_views(ids@)[i as int]));
            return false;
        }
        i = i + 1;
    }
    assert forall|j: int| 0 < j < string_views(ids@).len() implies #[trigger] lex_less(
        string_views(ids@)[j - 1],
        string_views(ids@)[j],
    ) by {
        assert(lex_less(ids@[j - 1]@, ids@[j]@));
    }
    true
}

fn check_ids(ids: &Vec<String>) -> (r: bool)
    ensures
        r == ids_valid(string_views(ids@)),
{
    if !check_ascending(ids) {
        return false;
    }
    let mut i: usize = 0;
    while i < ids.len()
        invariant
            i <= ids@.len(),
            forall|j: int| 0 <= j < i ==> valid_id(#[trigger] ids@[j]@),
        decreases ids@.len() - i,
    {
        if !check_id(ids[i].as_str()) {
            assert(!valid_id(string_views(ids@)[i as int]));
            return false;
        }
        i = i + 1;
    }
    assert forall|j: int| 0 <= j < string_views(ids@).len() implies #[trigger] valid_id(
        string_views(ids@)[j],
    ) by {
        assert(valid_id(ids@[j]@));
    }
    true
}

/// Whether `x` is one of the strings of `list`.
pub fn list_contains(list: &Vec<String>, x: &str) -> (r: bool)
    ensures
        r == string_views(list@).contains(x@),
{
    let mut i: usize = 0;
    while i < list.len()
        invariant
            i <= list@.len(),
            forall|j: int| 0 <= j < i ==> list@[j]@ != x@,
        decreases list@.len() - i,
    {
        if str_equal(list[i].as_str(), x) {
            assert(string_views(list@)[i as int] == x@);
            return true;
        }
        i = i + 1;
    }
    assert forall|j: int| 0 <= j < string_views(list@).len() implies string_views(list@)[j] != x@ by {
        assert(list@[j]@ != x@);
    }
    false
}

fn check_refs(ids: &Vec<String>, known: &Vec<String>) -> (r: bool)
    ensures
        r == refs_known(string_views(ids@), string_views(known@)),
{
    if !check_ids(ids) {
        return false;
    }
    let mut i: usize = 0;
    while i < ids.len()
        invariant
            i <= ids@.len(),
            forall|j: int| 0 <= j < i ==> string_views(known@).contains(#[trigger] ids@[j]@),
        decreases ids@.len() - i,
    {
        if !list_contains(known, ids[i].as_str()) {
            assert(!string_views(known@).contains(string_views(ids@)[i as int]));
            return false;
        }
        i = i + 1;
    }
    assert forall|j: int| 0 <= j < string_views(ids@).len() implies string_views(known@).contains(
        #[trigger] string_views(ids@)[j],
    ) by {
        assert(string_views(known@).contains(ids@[j]@));
    }
    true
}

fn check_distinct(list: &Vec<String>) -> (r: bool)
    ensures
        r == all_distinct(string_views(list@)),
{
    let n = list.len();
    let mut i: usize = 0;
    while i < n
        invariant
            n == list@.len(),
            i <= n,
            forall|a: int, b: int| 0 <= a < i && 0 <= b < n && a != b ==> list@[a]@ != list@[b]@,
        decreases n - i,
    {
        let mut j: usize = 0;
        while j < n
            invariant
                n == list@.len(),
                i < n,
                j <= n,
                forall|a: int, b: int| 0 <= a < i && 0 <= b < n && a != b ==> list@[a]@ != list@[b]@,
                forall|b: int| 0 <= b < j && b != i ==> list@[i as int]@ != list@[b]@,
            decreases n - j,
        {
            if j != i && list[i] == list[j] {
                assert(string_views(list@)[i as int] == string_views(list@)[j as int]);
                return false;
            }
            j = j + 1;
        }
        i = i + 1;
    }
    true
}

fn check_path(p: &str) -> (r: bool)
    ensures
        r == path_valid(p@),
{
    if str_has_char(p, '\\') {
        return false;
    }
    match RepoPath::new(String::from_str(p)) {
        Ok(_) => true,
        Err(_) => false,
    }
}

impl SourceRange {
    /// Checks the range against the length of the unit's content.
    pub fn validate(&self, content_bytes: Option<usize>) -> (r: Result<(), ImpactContractError>)
        ensures
            r is Ok <==> range_valid(*self, content_bytes),
    {
        if self.start_line == 0 || self.start_column == 0 || self.end_line == 0 || self.end_column
            == 0 {
            return invalid("source range lines and columns must be one-based");
        }
        if self.end_line < self.start_line || (self.end_line == self.start_line && self.end_column
            < self.start_column) {
            return invalid("source range end precedes start");
        }
        if self.end_byte < self.start_byte {
            return invalid("source byte range end precedes start");
        }
        if let Some(bytes) = content_bytes {
            if self.end_byte > bytes {
                return invalid("source byte range exceeds candidate content");
            }
        }
        Ok(())
    }
}

impl ImpactCoverage {
    /// Checks the counters against the number of emitted units.
    pub fn validate(&self, emitted_units: usize) -> (r: Result<(), ImpactContractError>)
        ensures
            r is Ok <==> coverage_valid(*self, emitted_units as nat),
    {
        if self.changed_candidate_files > self.total_candidate_files {
            return invalid("changed candidate files exceed total candidate files");
        }
        if emitted_units != self.changed_candidate_files {
            return invalid("coverage changed candidate files do not match units");
        }
        if self.syntax_eligible_files > self.changed_candidate_files || self.parsed_files
            > self.syntax_eligible_files {
            return invalid("syntax coverage exceeds changed or eligible files");
        }
        let parse_total = match self.clean_parse_files.checked_add(self.recovered_parse_files) {
            Some(v) => v.checked_add(self.degraded_parse_files),
            None => None,
        };
        match parse_total {
            None => {
                return invalid("parse coverage arithmetic overflow");
            },
            Some(total) => {
                if total != self.parsed_files {
                    return invalid("parse quality counts must partition parsed files");
                }
            },
        }
        let terminal = match self.parsed_files.checked_add(self.unsupported_files) {
            Some(v) => match v.checked_add(self.resource_limited_files) {
                Some(w) => w.checked_add(self.unavailable_files),
                None => None,
            },
            None => None,
        };
        match terminal {
            None => {
                return invalid("coverage arithmetic overflow");
            },
            Some(total) => {
                if total != self.changed_candidate_files {
                    return invalid("syntax terminal counts must partition changed files");
                }
            },
        }
        if self.reached_graph_depth > self.requested_graph_depth {
            return invalid("reached graph depth exceeds requested graph depth");
        }
        Ok(())
    }
}

fn provider_id_list(ps: &Vec<ProviderRecord>) -> (r: Vec<String>)
    ensures
        string_views(r@) =~= provider_ids(ps@),
{
    let mut out: Vec<String> = Vec::new();
    let mut i: usize = 0;
    while i < ps.len()
        invariant
            i <= ps@.len(),
            out@.len() == i,
            forall|j: int| 0 <= j < i ==> out@[j]@ == ps@[j].provider_id@,
        decreases ps@.len() - i,
    {
        out.push(ps[i].provider_id.clone());
        i = i + 1;
    }
    out
}

fn symbol_id_list(ss: &Vec<ChangedSymbol>) -> (r: Vec<String>)
    ensures
        string_views(r@) =~= symbol_ids(ss@),
{
    let mut out: Vec<String> = Vec::new();
    let mut i: usize = 0;
    while i < ss.len()
        invariant
            i <= ss@.len(),
            out@.len() == i,
            forall|j: int| 0 <= j < i ==> out@[j]@ == ss@[j].symbol_id@,
        decreases ss@.len() - i,
    {
        out.push(ss[i].symbol_id.clone());
        i = i + 1;
    }
    out
}

fn edge_id_list(es: &Vec<ImpactEdge>) -> (r: Vec<String>)
    ensures
        string_views(r@) =~= edge_ids(es@),
{
    let mut out: Vec<String> = Vec::new();
    let mut i: usize = 0;
    while i < es.len()
        invariant
            i <= es@.len(),
            out@.len() == i,
            forall|j: int| 0 <= j < i ==> out@[j]@ == es@[j].edge_id@,
        decreases es@.len() - i,
    {
        out.push(es[i].edge_id.clone());
        i = i + 1;
    }
    out
}

fn summary_id_list(ds: &Vec<DomainSummary>) -> (r: Vec<String>)
    ensures
        string_views(r@) =~= summary_ids(ds@),
{
    let mut out: Vec<String> = Vec::new();
    let mut i: usize = 0;
    while i < ds.len()
        invariant
            i <= ds@.len(),
            out@.len() == i,
            forall|j: int| 0 <= j < i ==> out@[j]@ == ds@[j].summary_id@,
        decreases ds@.len() - i,
    {
        out.push(ds[i].summary_id.clone());
        i = i + 1;
    }
    out
}

fn limitation_id_list(ls: &Vec<Limitation>) -> (r: Vec<String>)
    ensures
        string_views(r@) =~= limitation_ids(ls@),
{
    let mut out: Vec<String> = Vec::new();
    let mut i: usize = 0;
    while i < ls.len()
        invariant
            i <= ls@.len(),
            out@.len() == i,
            forall|j: int| 0 <= j < i ==> out@[j]@ == ls@[j].limitation_id@,
        decreases ls@.len() - i,
    {
        out.push(ls[i].limitation_id.clone());
        i = i + 1;
    }
    out
}

fn unit_path_list(us: &Vec<ImpactUnit>) -> (r: Vec<String>)
    ensures
        string_views(r@) =~= unit_paths(us@),
{
    let mut out: Vec<String> = Vec::new();
    let mut i: usize = 0;
    while i < us.len()
        invariant
            i <= us@.len(),
            out@.len() == i,
            forall|j: int| 0 <= j < i ==> out@[j]@ == us@[j].path@,
        decreases us@.len() - i,
    {
        out.push(us[i].path.clone());
        i = i + 1;
    }
    out
}

fn manifest_id_list(us: &Vec<ImpactUnit>) -> (r: Vec<String>)
    ensures
        string_views(r@) =~= manifest_ids(us@),
{
    let mut out: Vec<String> = Vec::new();
    let mut i: usize = 0;
    while i < us.len()
        invariant
            i <= us@.len(),
            out@.len() == i,
            forall|j: int| 0 <= j < i ==> out@[j]@ == us@[j].manifest_unit_id@,
        decreases us@.len() - i,
    {
        out.push(us[i].manifest_unit_id.clone());
        i = i + 1;
    }
    out
}

fn check_header(c: &ImpactContext) -> (r: Result<(), ImpactContractError>)
    ensures
        r is Ok <==> header_valid(*c),
{
    if c.schema_version != 1 {
        return invalid("schema_version must equal 1");
    }
    if !str_equal(c.kind.as_str(), "impact_context") {
        return invalid("kind must equal impact_context");
    }
    if !(is_hex_with_len(c.scope.fingerprint.as_str(), 40) || is_hex_with_len(
        c.scope.fingerprint.as_str(),
        64,
    )) {
        return invalid("scope fingerprint must be lowercase hexadecimal");
    }
    if !is_hex_with_len(c.scope.candidate_digest.as_str(), 64) {
        return invalid("candidate digest must be lowercase hexadecimal");
    }
    if c.providers.len() > MAX_PROVIDERS {
        return invalid("providers exceed the contract maximum");
    }
    if c.units.len() > MAX_UNITS {
        return invalid("units exceed the contract maximum");
    }
    if c.changed_symbols.len() > MAX_SYMBOLS {
        return invalid("changed_symbols exceed the contract maximum");
    }
    if c.impact_edges.len() > MAX_EDGES {
        return invalid("impact_edges exceed the contract maximum");
    }
    if c.domain_summaries.len() > MAX_SUMMARIES {
        return invalid("domain_summaries exceed the contract maximum");
    }
    if c.limitations.len() > MAX_LIMITATIONS {
        return invalid("limitations exceed the contract maximum");
    }
    Ok(())
}

fn check_provider(c: &ImpactContext, p: &ProviderRecord, lids: &Vec<String>) -> (r: bool)
    requires
        string_views(lids@) == limitation_ids(c.limitations@),
    ensures
        r == provider_valid(*c, *p),
{
    check_id(p.provider_id.as_str()) && is_hex_with_len(p.configuration_digest.as_str(), 64)
        && check_bounded(p.provider_kind.as_str(), 100) && check_bounded(
        p.provider_version.as_str(),
        100,
    ) && check_refs(&p.limitation_ids, lids)
}

fn check_presence(u: &ImpactUnit) -> (r: bool)
    ensures
        r == presence_valid(*u),
{
    match u.presence {
        ImpactPresence::Present => match &u.content_sha256 {
            Some(sha) => is_hex_with_len(sha.as_str(), 64) && u.content_bytes.is_some(),
            None => false,
        },
        _ => u.content_sha256.is_none() && u.content_bytes.is_none(),
    }
}

fn check_ranges(ranges: &Vec<SourceRange>, content_bytes: Option<usize>) -> (r: bool)
    ensures
        r == forall|i: int| 0 <= i < ranges.len() ==> range_valid(#[trigger] ranges[i], content_bytes),
{
    let mut i: usize = 0;
    while i < ranges.len()
        invariant
            i <= ranges@.len(),
            forall|j: int| 0 <= j < i ==> range_valid(#[trigger] ranges[j], content_bytes),
        decreases ranges@.len() - i,
    {
        if ranges[i].validate(content_bytes).is_err() {
            return false;
        }
        i = i + 1;
    }
    true
}

fn unit_symbols_on_path(c: &ImpactContext, u: &ImpactUnit) -> (r: bool)
    ensures
        r == (forall|i: int, k: int|
            0 <= i < u.changed_symbol_ids.len() && 0 <= k < c.changed_symbols.len()
                && #[trigger] c.changed_symbols[k].symbol_id@ == #[trigger] u.changed_symbol_ids[i]@
                ==> c.changed_symbols[k].path@ == u.path@),
{
    let mut i: usize = 0;
    while i < u.changed_symbol_ids.len()
        invariant
            i <= u.changed_symbol_ids@.len(),
            forall|a: int, k: int|
                0 <= a < i && 0 <= k < c.changed_symbols.len()
                    && #[trigger] c.changed_symbols[k].symbol_id@ == #[trigger] u.changed_symbol_ids[a]@
                    ==> c.changed_symbols[k].path@ == u.path@,
        decreases u.changed_symbol_ids@.len() - i,
    {
        let mut k: usize = 0;
        while k < c.changed_symbols.len()
            invariant
                i < u.changed_symbol_ids@.len(),
                k <= c.changed_symbols@.len(),
                forall|a: int, b: int|
                    0 <= a < i && 0 <= b < c.changed_symbols.len()
                        && #[trigger] c.changed_symbols[b].symbol_id@ == #[trigger] u.changed_symbol_ids[a]@
                        ==> c.changed_symbols[b].path@ == u.path@,
                forall|b: int|
                    0 <= b < k && #[trigger] c.changed_symbols[b].symbol_id@
                        == u.changed_symbol_ids[i as int]@ ==> c.changed_symbols[b].path@ == u.path@,
            decreases c.changed_symbols@.len() - k,
        {
            if c.changed_symbols[k].symbol_id == u.changed_symbol_ids[i] && c.changed_symbols[k].path
                != u.path {
                return false;
            }
            k = k + 1;
        }
        i = i + 1;
    }
    true
}

fn check_unit(
    c: &ImpactContext,
    u: &ImpactUnit,
    pids: &Vec<String>,
    sids: &Vec<String>,
    lids: &Vec<String>,
) -> (r: bool)
    requires
        string_views(pids@) == provider_ids(c.providers@),
        string_views(sids@) == symbol_ids(c.changed_symbols@),
        string_views(lids@) == limitation_ids(c.limitations@),
    ensures
        r == unit_valid(*c, *u),
{
    check_path(u.path.as_str()) && check_bounded(u.language.as_str(), 100) && check_presence(u)
        && check_refs(&u.provider_ids, pids) && check_refs(&u.changed_symbol_ids, sids)
        && check_refs(&u.parse_affected_symbol_ids, sids) && check_refs(&u.limitation_ids, lids)
        && check_ranges(&u.changed_ranges, u.content_bytes) && check_ranges(
        &u.parse_affected_ranges,
        u.content_bytes,
    ) && unit_symbols_on_path(c, u)
}

fn range_fits(r: &SourceRange, p: &str, units: &Vec<ImpactUnit>) -> (b: bool)
    ensures
        b == range_fits_units(*r, p@, units@),
{
    let mut k: usize = 0;
    while k < units.len()
        invariant
            k <= units@.len(),
            forall|j: int|
                0 <= j < k && (#[trigger] units@[j]).path@ == p@ ==> range_valid(*r, units@[j].content_bytes),
        decreases units@.len() - k,
    {
        if str_equal(units[k].path.as_str(), p) && r.validate(units[k].content_bytes).is_err() {
            return false;
        }
        k = k + 1;
    }
    true
}

fn check_symbol(c: &ImpactContext, s: &ChangedSymbol, pids: &Vec<String>, paths: &Vec<String>) -> (r:
    bool)
    requires
        string_views(pids@) == provider_ids(c.providers@),
        string_views(paths@) == unit_paths(c.units@),
    ensures
        r == symbol_valid(*c, *s),
{
    check_id(s.symbol_id.as_str()) && check_path(s.path.as_str()) && check_bounded(
        s.language.as_str(),
        100,
    ) && check_bounded(s.kind.as_str(), 100) && check_bounded(s.name.as_str(), MAX_MESSAGE_CHARS)
        && check_optional(&s.owner, MAX_MESSAGE_CHARS) && check_optional(
        &s.signature,
        MAX_MESSAGE_CHARS,
    ) && check_optional(&s.visibility, 100) && list_contains(pids, s.provider_id.as_str())
        && list_contains(paths, s.path.as_str()) && range_fits(&s.range, s.path.as_str(), &c.units)
}

fn check_edge_provider(c: &ImpactContext, e: &ImpactEdge) -> (r: bool)
    ensures
        r == edge_provider_allows(*c, *e),
{
    let mut k: usize = 0;
    while k < c.providers.len()
        invariant
            k <= c.providers@.len(),
            forall|j: int|
                0 <= j < k && (#[trigger] c.providers[j]).provider_id@ == e.provider_id@ ==> {
                    &&& c.providers[j].provider_kind@ != "text-adapter"@
                    &&& (c.providers[j].provider_kind@ == "tree-sitter-rust"@ ==> !(e.resolution
                        == Resolution::ResolvedReference || e.resolution == Resolution::Semantic
                        || e.resolution == Resolution::PolymorphicCandidate))
                },
        decreases c.providers@.len() - k,
    {
        let p = &c.providers[k];
        if str_equal(p.provider_id.as_str(), e.provider_id.as_str()) {
            if str_equal(p.provider_kind.as_str(), "text-adapter") {
                return false;
            }
            if str_equal(p.provider_kind.as_str(), "tree-sitter-rust") && (e.resolution
                == Resolution::ResolvedReference || e.resolution == Resolution::Semantic
                || e.resolution == Resolution::PolymorphicCandidate) {
                return false;
            }
        }
        k = k + 1;
    }
    true
}

fn check_edge_target(e: &ImpactEdge, sids: &Vec<String>) -> (r: bool)
    ensures
        r == (match (e.to_symbol, e.unresolved_target) {
            (Some(t), None) => valid_id(t@) && string_views(sids@).contains(t@),
            (None, Some(t)) => bounded_text(t@, 1000),
            _ => false,
        }),
{
    match (&e.to_symbol, &e.unresolved_target) {
        (Some(t), None) => check_id(t.as_str()) && list_contains(sids, t.as_str()),
        (None, Some(t)) => check_bounded(t.as_str(), MAX_MESSAGE_CHARS),
        _ => false,
    }
}

fn check_edge(
    c: &ImpactContext,
    e: &ImpactEdge,
    pids: &Vec<String>,
    sids: &Vec<String>,
    paths: &Vec<String>,
) -> (r: bool)
    requires
        string_views(pids@) == provider_ids(c.providers@),
        string_views(sids@) == symbol_ids(c.changed_symbols@),
        string_views(paths@) == unit_paths(c.units@),
    ensures
        r == edge_valid(*c, *e),
{
    check_id(e.edge_id.as_str()) && check_path(e.path.as_str()) && list_contains(
        pids,
        e.provider_id.as_str(),
    ) && list_contains(paths, e.path.as_str()) && range_fits(&e.range, e.path.as_str(), &c.units)
        && check_edge_target(e, sids) && check_edge_provider(c, e)
}

fn check_summary(c: &ImpactContext, d: &DomainSummary, sids: &Vec<String>, paths: &Vec<String>) -> (r:
    bool)
    requires
        string_views(sids@) == symbol_ids(c.changed_symbols@),
        string_views(paths@) == unit_paths(c.units@),
    ensures
        r == summary_valid(*c, *d),
{
    let symbol_ok = match &d.symbol_id {
        Some(s) => check_id(s.as_str()) && list_contains(sids, s.as_str()),
        None => true,
    };
    check_id(d.summary_id.as_str()) && check_path(d.path.as_str()) && list_contains(
        paths,
        d.path.as_str(),
    ) && symbol_ok && check_bounded(d.message.as_str(), MAX_MESSAGE_CHARS) && check_ids(
        &d.evidence_fact_ids,
    )
}

fn check_limitation(
    c: &ImpactContext,
    l: &Limitation,
    pids: &Vec<String>,
    sids: &Vec<String>,
    paths: &Vec<String>,
) -> (r: bool)
    requires
        string_views(pids@) == provider_ids(c.providers@),
        string_views(sids@) == symbol_ids(c.changed_symbols@),
        string_views(paths@) == unit_paths(c.units@),
    ensures
        r == limitation_valid(*c, *l),
{
    let provider_ok = match &l.provider_id {
        Some(p) => list_contains(pids, p.as_str()),
        None => true,
    };
    let path_ok = match &l.path {
        Some(p) => check_path(p.as_str()) && list_contains(paths, p.as_str()),
        None => true,
    };
    let symbol_ok = match &l.symbol_id {
        Some(s) => list_contains(sids, s.as_str()),
        None => true,
    };
    check_id(l.limitation_id.as_str()) && check_bounded(l.code.as_str(), 100) && check_bounded(
        l.reason.as_str(),
        MAX_MESSAGE_CHARS,
    ) && check_bounded(l.interpretation.as_str(), MAX_MESSAGE_CHARS) && provider_ok && path_ok
        && symbol_ok
}

/// Whether some limitation carries the code `output-truncated`.
pub fn any_truncation_limitation(ls: &Vec<Limitation>) -> (r: bool)
    ensures
        r == has_truncation_limitation(ls@),
{
    let mut i: usize = 0;
    while i < ls.len()
        invariant
            i <= ls@.len(),
            forall|j: int| 0 <= j < i ==> (#[trigger] ls@[j]).code@ != "output-truncated"@,
        decreases ls@.len() - i,
    {
        if str_equal(ls[i].code.as_str(), "output-truncated") {
            assert(ls@[i as int].code@ == "output-truncated"@);
            return true;
        }
        i = i + 1;
    }
    false
}

fn check_totals(c: &ImpactContext) -> (r: Result<(), ImpactContractError>)
    ensures
        r is Ok <==> totals_valid(*c),
{
    let cov = c.coverage.validate(c.units.len());
    if cov.is_err() {
        return cov;
    }
    let truncated = any_truncation_limitation(&c.limitations);
    if c.coverage.output_truncated != truncated {
        return invalid("output truncation coverage and limitation disagree");
    }
    if !c.coverage.output_truncated {
        if c.metrics.edges_emitted != c.impact_edges.len() {
            return invalid("metrics.edges_emitted does not match impact_edges");
        }
        if c.metrics.summaries_emitted != c.domain_summaries.len() {
            return invalid("metrics.summaries_emitted does not match domain_summaries");
        }
    }
    Ok(())
}

impl ImpactContext {
    /// Checks every rule of a well-formed impact context; succeeds exactly
    /// when the context is well formed.
    pub fn validate(&self) -> (r: Result<(), ImpactContractError>)
        ensures
            r is Ok <==> context_valid(*self),
    {
        let header = check_header(self);
        if header.is_err() {
            return header;
        }
        let pids = provider_id_list(&self.providers);
        let sids = symbol_id_list(&self.changed_symbols);
        let eids = edge_id_list(&self.impact_edges);
        let dids = summary_id_list(&self.domain_summaries);
        let lids = limitation_id_list(&self.limitations);
        let paths = unit_path_list(&self.units);
        let mids = manifest_id_list(&self.units);
        if !check_ascending(&pids) {
            return invalid("provider ids must be unique and sorted");
        }
        if !check_ascending(&sids) {
            return invalid("symbol ids must be unique and sorted");
        }
        if !check_ascending(&eids) {
            return invalid("edge ids must be unique and sorted");
        }
        if !check_ascending(&dids) {
            return invalid("summary ids must be unique and sorted");
        }
        if !check_ascending(&lids) {
            return invalid("limitation ids must be unique and sorted");
        }
        if !check_distinct(&paths) {
            return invalid("unit paths must be unique");
        }
        if !check_distinct(&mids) {
            return invalid("manifest unit ids must be unique");
        }
        assert(identities_valid(*self));
        let mut i: usize = 0;
        while i < self.providers.len()
            invariant
                i <= self.providers@.len(),
                string_views(lids@) == limitation_ids(self.limitations@),
                forall|j: int| 0 <= j < i ==> provider_valid(*self, #[trigger] self.providers[j]),
            decreases self.providers@.len() - i,
        {
            if !check_provider(self, &self.providers[i], &lids) {
                return invalid("provider record is invalid");
            }
            i = i + 1;
        }
        let mut i: usize = 0;
        while i < self.units.len()
            invariant
                i <= self.units@.len(),
                string_views(pids@) == provider_ids(self.providers@),
                string_views(sids@) == symbol_ids(self.changed_symbols@),
                string_views(lids@) == limitation_ids(self.limitations@),
                forall|j: int| 0 <= j < i ==> unit_valid(*self, #[trigger] self.units[j]),
            decreases self.units@.len() - i,
        {
            if !check_unit(self, &self.units[i], &pids, &sids, &lids) {
                return invalid("impact unit is invalid");
            }
            i = i + 1;
        }
        let mut i: usize = 0;
        while i < self.changed_symbols.len()
            invariant
                i <= self.changed_symbols@.len(),
                string_views(pids@) == provider_ids(self.providers@),
                string_views(paths@) == unit_paths(self.units@),
                forall|j: int| 0 <= j < i ==> symbol_valid(*self, #[trigger] self.changed_symbols[j]),
            decreases self.changed_symbols@.len() - i,
        {
            if !check_symbol(self, &self.changed_symbols[i], &pids, &paths) {
                return invalid("changed symbol is invalid");
            }
            i = i + 1;
        }
        let mut i: usize = 0;
        while i < self.impact_edges.len()
            invariant
                i <= self.impact_edges@.len(),
                string_views(pids@) == provider_ids(self.providers@),
                string_views(sids@) == symbol_ids(self.changed_symbols@),
                string_views(paths@) == unit_paths(self.units@),
                forall|j: int| 0 <= j < i ==> edge_valid(*self, #[trigger] self.impact_edges[j]),
            decreases self.impact_edges@.len() - i,
        {
            if !check_edge(self, &self.impact_edges[i], &pids, &sids, &paths) {
                return invalid("impact edge is invalid");
            }
            i = i + 1;
        }
        let mut i: usize = 0;
        while i < self.domain_summaries.len()
            invariant
                i <= self.domain_summaries@.len(),
                string_views(sids@) == symbol_ids(self.changed_symbols@),
                string_views(paths@) == unit_paths(self.units@),
                forall|j: int|
                    0 <= j < i ==> summary_valid(*self, #[trigger] self.domain_summaries[j]),
            decreases self.domain_summaries@.len() - i,
        {
            if !check_summary(self, &self.domain_summaries[i], &sids, &paths) {
                return invalid("domain summary is invalid");
            }
            i = i + 1;
        }
        let mut i: usize = 0;
        while i < self.limitations.len()
            invariant
                i <= self.limitations@.len(),
                string_views(pids@) == provider_ids(self.providers@),
                string_views(sids@) == symbol_ids(self.changed_symbols@),
                string_views(paths@) == unit_paths(self.units@),
                forall|j: int| 0 <= j < i ==> limitation_valid(*self, #[trigger] self.limitations[j]),
            decreases self.limitations@.len() - i,
        {
            if !check_limitation(self, &self.limitations[i], &pids, &sids, &paths) {
                return invalid("limitation is invalid");
            }
            i = i + 1;
        }
        check_totals(self)
    }
}

} // verus!
