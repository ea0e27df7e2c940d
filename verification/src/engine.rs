//! The fast impact engine: request checks, unit classification, provider
//! accounting and coverage.
use vstd::prelude::*;
use crate::clock::duration_nanos;
use crate::budget::ImpactBudget;
use crate::candidate::{CandidatePresence, ChangedRange};
use crate::contracts::{
    coverage_valid, Completeness, ImpactCoverage, ImpactMode, ImpactPresence, ImpactUnit,
    Limitation, ParseQuality, ProviderRecord, ProviderStatus, SourceRange, SummaryKind, UnitStatus,
};
use crate::digest::{sha256_hex, sha256_hex_spec, stable_id, stable_id_spec, str_views};
use crate::keyed::{insert_absent, keyed_sorted, keys_of, Keyed};
use crate::strings::{
    decode_lossy, has_infix, has_prefix, has_suffix, lower_seq, str_contains, str_ends_with,
    str_starts_with, take_chars, take_prefix_chars, to_ascii_lower, utf8_lossy,
};

verus! {

pub const SYNTAX_PROVIDER_KIND: &'static str = "tree-sitter-rust";
pub const SYNTAX_PROVIDER_VERSION: &'static str = "0.24.2";
pub const TEXT_PROVIDER_KIND: &'static str = "text-adapter";
pub const TEXT_PROVIDER_VERSION: &'static str = "1";
pub const MAX_SNIPPET_CHARS: usize = 1000;

/// What the caller asks of an impact analysis.
pub struct ImpactRequest {
    pub mode: ImpactMode,
    pub budget: ImpactBudget,
    pub enabled_languages: Vec<String>,
    pub cache_read: bool,
    pub cache_write: bool,
    pub semantic_providers: Vec<String>,
    pub max_snippet_chars: usize,
}

impl ImpactRequest {
    /// A fast, Rust-only request with no cache and no semantic provider.
    pub fn fast_defaults() -> (r: Self)
        ensures
            r.mode == ImpactMode::Fast,
            r.enabled_languages@.len() == 1,
            r.enabled_languages@[0]@ == "rust"@,
            !r.cache_read,
            !r.cache_write,
            r.semantic_providers@.len() == 0,
            r.max_snippet_chars == 1000,
            duration_nanos(r.budget.deadline) == 750_000_000,
            r.budget.max_changed_files == 30,
            r.budget.max_file_bytes == 2 * 1024 * 1024,
            r.budget.max_total_bytes == 8 * 1024 * 1024,
            r.budget.max_nodes == 250_000,
            r.budget.max_nesting_depth == 512,
            r.budget.max_facts == 5_000,
            r.budget.max_edges == 500,
            r.budget.max_output_bytes == 1_048_576,
            r.budget.max_query_patterns == 32,
            r.budget.max_matches_per_pattern == 20,
    {
        let mut languages: Vec<String> = Vec::new();
        languages.push(String::from_str("rust"));
        ImpactRequest {
            mode: ImpactMode::Fast,
            budget: ImpactBudget::fast_defaults(),
            enabled_languages: languages,
            cache_read: false,
            cache_write: false,
            semantic_providers: Vec::new(),
            max_snippet_chars: 1000,
        }
    }
}

/// Why no impact context could be built.
#[derive(Debug, Clone, PartialEq, Eq)]
pub struct ImpactContextError {
    code: &'static str,
    message: String,
}

impl ImpactContextError {
    /// The error's code.
    pub closed spec fn code_of(&self) -> Seq<char> {
        self.code@
    }

    pub fn new(code: &'static str, message: &str) -> (r: Self)
        ensures
            r.code_of() == code@,
            r.message_of() == message@,
    {
        ImpactContextError { code, message: String::from_str(message) }
    }

    /// The error's code.
    pub fn code(&self) -> (r: &'static str)
        ensures
            r@ == self.code_of(),
    {
        self.code
    }

    /// The error's message.
    pub closed spec fn message_of(&self) -> Seq<char> {
        self.message@
    }

    /// The human-readable message.
    pub fn message(&self) -> (r: String)
        ensures
            r@ == self.message_of(),
    {
        self.message.clone()
    }
}

/// The first rule that a request breaks, if any: fast mode only, no cache
/// writes, no semantic provider, and a snippet limit of 1 to 1000.
pub open spec fn request_error_code(r: ImpactRequest) -> Option<Seq<char>> {
    if r.mode != ImpactMode::Fast {
        Some("deep-mode-unavailable"@)
    } else if r.cache_write {
        Some("cache-write-forbidden"@)
    } else if r.semantic_providers@.len() != 0 {
        Some("semantic-provider-unavailable"@)
    } else if r.max_snippet_chars == 0 || r.max_snippet_chars > 1000 {
        Some("invalid-snippet-limit"@)
    } else {
        None
    }
}

/// Checks that the engine can serve the request.
pub fn validate_request(request: &ImpactRequest) -> (r: Result<(), ImpactContextError>)
    ensures
        r is Ok <==> request_error_code(*request) is None,
        r matches Err(e) ==> request_error_code(*request) == Some(e.code_of()),
{
    if request.mode != ImpactMode::Fast {
        return Err(
            ImpactContextError::new(
                "deep-mode-unavailable",
                "Subproject A supports only fast mode",
            ),
        );
    }
    if request.cache_write {
        return Err(
            ImpactContextError::new(
                "cache-write-forbidden",
                "fast mode cannot write persistent cache state",
            ),
        );
    }
    if request.semantic_providers.len() != 0 {
        return Err(
            ImpactContextError::new(
                "semantic-provider-unavailable",
                "fast mode cannot execute semantic providers",
            ),
        );
    }
    if request.max_snippet_chars == 0 || request.max_snippet_chars > 1000 {
        return Err(
            ImpactContextError::new(
                "invalid-snippet-limit",
                "max_snippet_chars must be between 1 and 1000",
            ),
        );
    }
    Ok(())
}

/// Per-provider counters gathered while units are processed.
pub struct ProviderStats {
    pub input_files: usize,
    pub input_bytes: u64,
    pub output_facts: usize,
    pub completed: usize,
    pub partial: usize,
    pub unsupported: usize,
    pub budget_exhausted: usize,
    pub unavailable: usize,
    pub limitation_ids: Vec<String>,
}

impl ProviderStats {
    /// All counters zero, no limitation.
    pub fn new() -> (s: Self)
        ensures
            s.input_files == 0 && s.input_bytes == 0 && s.output_facts == 0,
            s.completed == 0 && s.partial == 0 && s.unsupported == 0,
            s.budget_exhausted == 0 && s.unavailable == 0,
            s.limitation_ids@.len() == 0,
    {
        ProviderStats {
            input_files: 0,
            input_bytes: 0,
            output_facts: 0,
            completed: 0,
            partial: 0,
            unsupported: 0,
            budget_exhausted: 0,
            unavailable: 0,
            limitation_ids: Vec::new(),
        }
    }
}

/// A provider's status from its unit outcomes: any budget exhaustion wins,
/// then any partial or unavailable unit, then any completed one, then any
/// unsupported one.
pub open spec fn provider_status_spec(s: ProviderStats) -> ProviderStatus {
    if s.budget_exhausted > 0 {
        ProviderStatus::BudgetExhausted
    } else if s.partial > 0 || s.unavailable > 0 {
        ProviderStatus::Partial
    } else if s.completed > 0 {
        ProviderStatus::Completed
    } else if s.unsupported > 0 {
        ProviderStatus::Unsupported
    } else {
        ProviderStatus::Unavailable
    }
}

pub fn provider_status(stats: &ProviderStats) -> (r: ProviderStatus)
    ensures
        r == provider_status_spec(*stats),
{
    if stats.budget_exhausted > 0 {
        ProviderStatus::BudgetExhausted
    } else if stats.partial > 0 || stats.unavailable > 0 {
        ProviderStatus::Partial
    } else if stats.completed > 0 {
        ProviderStatus::Completed
    } else if stats.unsupported > 0 {
        ProviderStatus::Unsupported
    } else {
        ProviderStatus::Unavailable
    }
}

/// One more, or the maximum when already there.
pub open spec fn bump(n: usize) -> usize {
    if n < usize::MAX {
        (n + 1) as usize
    } else {
        n
    }
}

/// Counts one unit outcome in the provider's counters.
pub fn update_provider_terminal(stats: &mut ProviderStats, status: UnitStatus)
    ensures
        final(stats).completed == if status == UnitStatus::Completed {
            bump(old(stats).completed)
        } else {
            old(stats).completed
        },
        final(stats).partial == if status == UnitStatus::Partial {
            bump(old(stats).partial)
        } else {
            old(stats).partial
        },
        final(stats).unsupported == if status == UnitStatus::Unsupported {
            bump(old(stats).unsupported)
        } else {
            old(stats).unsupported
        },
        final(stats).budget_exhausted == if status == UnitStatus::BudgetExhausted {
            bump(old(stats).budget_exhausted)
        } else {
            old(stats).budget_exhausted
        },
        final(stats).unavailable == if status == UnitStatus::Unavailable {
            bump(old(stats).unavailable)
        } else {
            old(stats).unavailable
        },
        final(stats).input_files == old(stats).input_files,
        final(stats).input_bytes == old(stats).input_bytes,
        final(stats).output_facts == old(stats).output_facts,
        final(stats).limitation_ids@ == old(stats).limitation_ids@,
{
    match status {
        UnitStatus::Completed => stats.completed = stats.completed.saturating_add(1),
        UnitStatus::Partial => stats.partial = stats.partial.saturating_add(1),
        UnitStatus::Unsupported => stats.unsupported = stats.unsupported.saturating_add(1),
        UnitStatus::BudgetExhausted => stats.budget_exhausted = stats.budget_exhausted.saturating_add(1),
        UnitStatus::Unavailable => stats.unavailable = stats.unavailable.saturating_add(1),
    }
}

/// The text whose digest identifies a provider's configuration.
pub open spec fn configuration_text(kind: Seq<char>, version: Seq<char>) -> Seq<char> {
    kind + seq!['\0'] + version + seq!['\0'] + "fast-mvp"@
}

/// The provider record of a finished analysis.
pub fn provider_record(
    provider_id: &str,
    kind: &str,
    version: &str,
    stats: &ProviderStats,
    elapsed_ms: u64,
) -> (r: ProviderRecord)
    ensures
        r.provider_id@ == provider_id@,
        r.provider_kind@ == kind@,
        r.provider_version@ == version@,
        r.configuration_digest@ == sha256_hex_spec(configuration_text(kind@, version@)),
        r.status == provider_status_spec(*stats),
        r.elapsed_ms == elapsed_ms,
        r.input_files == stats.input_files,
        r.input_bytes == stats.input_bytes,
        r.output_fact_count == stats.output_facts,
        r.cache_hits == 0 && r.cache_misses == 0 && r.cache_stale == 0 && r.cache_corrupt == 0,
        r.limitation_ids@ == stats.limitation_ids@,
{
    let text = String::from_str(kind).concat("\0").concat(version).concat("\0fast-mvp");
    proof {
        reveal_strlit("\0");
        reveal_strlit("\0fast-mvp");
        reveal_strlit("fast-mvp");
        assert(text@ =~= configuration_text(kind@, version@));
    }
    ProviderRecord {
        provider_id: String::from_str(provider_id),
        provider_kind: String::from_str(kind),
        provider_version: String::from_str(version),
        configuration_digest: sha256_hex(text.as_str()),
        status: provider_status(stats),
        elapsed_ms,
        input_files: stats.input_files,
        input_bytes: stats.input_bytes,
        output_fact_count: stats.output_facts,
        cache_hits: 0,
        cache_misses: 0,
        cache_stale: 0,
        cache_corrupt: 0,
        limitation_ids: clone_strings(&stats.limitation_ids),
    }
}

/// A copy of a list of strings.
pub fn clone_strings(v: &Vec<String>) -> (r: Vec<String>)
    ensures
        r@ == v@,
{
    let mut out: Vec<String> = Vec::new();
    let mut i: usize = 0;
    while i < v.len()
        invariant
            i <= v@.len(),
            out@ == v@.take(i as int),
        decreases v@.len() - i,
    {
        out.push(v[i].clone());
        assert(v@.take(i + 1) =~= v@.take(i as int).push(v@[i as int]));
        i = i + 1;
    }
    assert(v@.take(v@.len() as int) =~= v@);
    out
}

// ----------------------------------------------------------------------
// Coverage
// ----------------------------------------------------------------------
/// The unit was parsed: its syntax outcome is completed or partial.
pub open spec fn unit_parsed(u: ImpactUnit) -> bool {
    u.syntax_status == UnitStatus::Completed || u.syntax_status == UnitStatus::Partial
}

/// Counts of units by syntax outcome.
pub open spec fn count_eligible(us: Seq<ImpactUnit>) -> nat
    decreases us.len(),
{
    if us.len() == 0 {
        0
    } else {
        count_eligible(us.drop_last()) + if us.last().syntax_eligible {
            1nat
        } else {
            0
        }
    }
}

pub open spec fn count_parsed(us: Seq<ImpactUnit>) -> nat
    decreases us.len(),
{
    if us.len() == 0 {
        0
    } else {
        count_parsed(us.drop_last()) + if unit_parsed(us.last()) {
            1nat
        } else {
            0
        }
    }
}

pub open spec fn count_quality(us: Seq<ImpactUnit>, q: ParseQuality) -> nat
    decreases us.len(),
{
    if us.len() == 0 {
        0
    } else {
        count_quality(us.drop_last(), q) + if unit_parsed(us.last()) && us.last().parse_quality
            == Some(q) {
            1nat
        } else {
            0
        }
    }
}

pub open spec fn count_status(us: Seq<ImpactUnit>, s: UnitStatus) -> nat
    decreases us.len(),
{
    if us.len() == 0 {
        0
    } else {
        count_status(us.drop_last(), s) + if us.last().syntax_status == s {
            1nat
        } else {
            0
        }
    }
}

/// The coverage of a fast analysis over its units.
pub open spec fn coverage_of(us: Seq<ImpactUnit>) -> ImpactCoverage {
    ImpactCoverage {
        total_candidate_files: us.len() as usize,
        changed_candidate_files: us.len() as usize,
        syntax_eligible_files: count_eligible(us) as usize,
        parsed_files: count_parsed(us) as usize,
        clean_parse_files: count_quality(us, ParseQuality::Clean) as usize,
        recovered_parse_files: count_quality(us, ParseQuality::Recovered) as usize,
        degraded_parse_files: count_quality(us, ParseQuality::Degraded) as usize,
        unsupported_files: count_status(us, UnitStatus::Unsupported) as usize,
        resource_limited_files: count_status(us, UnitStatus::BudgetExhausted) as usize,
        unavailable_files: count_status(us, UnitStatus::Unavailable) as usize,
        cache_hits: 0,
        cache_misses: 0,
        cache_stale: 0,
        cache_corrupt: 0,
        requested_graph_depth: 0,
        reached_graph_depth: 0,
        graph_index_completeness: Completeness::Unavailable,
        graph_query_completeness: Completeness::Unavailable,
        output_truncated: false,
    }
}

proof fn lemma_counts_bounded(us: Seq<ImpactUnit>)
    ensures
        count_eligible(us) <= us.len(),
        count_parsed(us) <= us.len(),
        count_quality(us, ParseQuality::Clean) <= count_parsed(us),
        count_quality(us, ParseQuality::Recovered) <= count_parsed(us),
        count_quality(us, ParseQuality::Degraded) <= count_parsed(us),
        count_status(us, UnitStatus::Unsupported) <= us.len(),
        count_status(us, UnitStatus::BudgetExhausted) <= us.len(),
        count_status(us, UnitStatus::Unavailable) <= us.len(),
    decreases us.len(),
{
    if us.len() > 0 {
        lemma_counts_bounded(us.drop_last());
    }
}

/// Counts the units' syntax outcomes.
pub fn build_coverage(units: &Vec<ImpactUnit>) -> (c: ImpactCoverage)
    ensures
        c == coverage_of(units@),
{
    let mut eligible: usize = 0;
    let mut parsed: usize = 0;
    let mut clean: usize = 0;
    let mut recovered: usize = 0;
    let mut degraded: usize = 0;
    let mut unsupported: usize = 0;
    let mut limited: usize = 0;
    let mut unavailable: usize = 0;
    let mut i: usize = 0;
    while i < units.len()
        invariant
            i <= units@.len(),
            eligible == count_eligible(units@.take(i as int)),
            parsed == count_parsed(units@.take(i as int)),
            clean == count_quality(units@.take(i as int), ParseQuality::Clean),
            recovered == count_quality(units@.take(i as int), ParseQuality::Recovered),
            degraded == count_quality(units@.take(i as int), ParseQuality::Degraded),
            unsupported == count_status(units@.take(i as int), UnitStatus::Unsupported),
            limited == count_status(units@.take(i as int), UnitStatus::BudgetExhausted),
            unavailable == count_status(units@.take(i as int), UnitStatus::Unavailable),
        decreases units@.len() - i,
    {
        let u = &units[i];
        proof {
            let t = units@.take(i + 1);
            assert(t.drop_last() =~= units@.take(i as int));
            assert(t.last() == units@[i as int]);
            lemma_counts_bounded(units@.take(i as int));
        }
        if u.syntax_eligible {
            eligible = eligible + 1;
        }
        let is_parsed = u.syntax_status == UnitStatus::Completed || u.syntax_status
            == UnitStatus::Partial;
        if is_parsed {
            parsed = parsed + 1;
            match u.parse_quality {
                Some(ParseQuality::Clean) => clean = clean + 1,
                Some(ParseQuality::Recovered) => recovered = recovered + 1,
                Some(ParseQuality::Degraded) => degraded = degraded + 1,
                None => {},
            }
        }
        match u.syntax_status {
            UnitStatus::Unsupported => unsupported = unsupported + 1,
            UnitStatus::BudgetExhausted => limited = limited + 1,
            UnitStatus::Unavailable => unavailable = unavailable + 1,
            _ => {},
        }
        i = i + 1;
    }
    assert(units@.take(units@.len() as int) =~= units@);
    ImpactCoverage {
        total_candidate_files: units.len(),
        changed_candidate_files: units.len(),
        syntax_eligible_files: eligible,
        parsed_files: parsed,
        clean_parse_files: clean,
        recovered_parse_files: recovered,
        degraded_parse_files: degraded,
        unsupported_files: unsupported,
        resource_limited_files: limited,
        unavailable_files: unavailable,
        cache_hits: 0,
        cache_misses: 0,
        cache_stale: 0,
        cache_corrupt: 0,
        requested_graph_depth: 0,
        reached_graph_depth: 0,
        graph_index_completeness: Completeness::Unavailable,
        graph_query_completeness: Completeness::Unavailable,
        output_truncated: false,
    }
}

/// Units whose parsed outcome comes with eligibility and a parse quality.
pub open spec fn units_consistent(us: Seq<ImpactUnit>) -> bool {
    forall|i: int|
        0 <= i < us.len() && unit_parsed(#[trigger] us[i]) ==> us[i].syntax_eligible
            && us[i].parse_quality is Some
}

proof fn lemma_coverage_partition(us: Seq<ImpactUnit>)
    requires
        units_consistent(us),
    ensures
        count_parsed(us) <= count_eligible(us),
        count_quality(us, ParseQuality::Clean) + count_quality(us, ParseQuality::Recovered)
            + count_quality(us, ParseQuality::Degraded) == count_parsed(us),
        count_parsed(us) + count_status(us, UnitStatus::Unsupported) + count_status(
            us,
            UnitStatus::BudgetExhausted,
        ) + count_status(us, UnitStatus::Unavailable) == us.len(),
    decreases us.len(),
{
    if us.len() > 0 {
        let init = us.drop_last();
        assert forall|i: int| 0 <= i < init.len() && unit_parsed(#[trigger] init[i]) implies init[i].syntax_eligible
            && init[i].parse_quality is Some by {
            assert(init[i] == us[i]);
        }
        lemma_coverage_partition(init);
        assert(us.last() == us[us.len() - 1]);
        let last = us.last();
        if unit_parsed(last) {
            assert(us[us.len() - 1].parse_quality is Some);
            match last.parse_quality {
                Some(ParseQuality::Clean) => {},
                Some(ParseQuality::Recovered) => {},
                Some(ParseQuality::Degraded) => {},
                None => {},
            }
        }
        assert(count_quality(us, ParseQuality::Clean) == count_quality(init, ParseQuality::Clean)
            + if unit_parsed(last) && last.parse_quality == Some(ParseQuality::Clean) {
            1nat
        } else {
            0
        });
        assert(count_quality(us, ParseQuality::Recovered) == count_quality(
            init,
            ParseQuality::Recovered,
        ) + if unit_parsed(last) && last.parse_quality == Some(ParseQuality::Recovered) {
            1nat
        } else {
            0
        });
        assert(count_quality(us, ParseQuality::Degraded) == count_quality(
            init,
            ParseQuality::Degraded,
        ) + if unit_parsed(last) && last.parse_quality == Some(ParseQuality::Degraded) {
            1nat
        } else {
            0
        });
    }
}

/// Law: the coverage of consistent units is well formed for them.
pub proof fn law_coverage_valid(us: Seq<ImpactUnit>)
    requires
        units_consistent(us),
        us.len() <= usize::MAX,
    ensures
        coverage_valid(coverage_of(us), us.len()),
{
    lemma_coverage_partition(us);
    lemma_counts_bounded(us);
}

// ----------------------------------------------------------------------
// Limitations
// ----------------------------------------------------------------------
impl Keyed for Limitation {
    open spec fn key_of(&self) -> Seq<char> {
        self.limitation_id@
    }

    fn key(&self) -> (r: &str) {
        self.limitation_id.as_str()
    }
}

/// The view of an optional text, with the empty text for `None`.
pub open spec fn or_empty(o: Option<&str>) -> Seq<char> {
    match o {
        Some(s) => s@,
        None => Seq::empty(),
    }
}

/// The identifier of a limitation: code, provider, path and symbol.
pub open spec fn limitation_id_spec(
    code: Seq<char>,
    provider_id: Option<&str>,
    path: Option<&str>,
    symbol_id: Option<&str>,
) -> Seq<char> {
    limitation_id_of(code, or_empty(provider_id), or_empty(path), or_empty(symbol_id))
}

/// The identifier of a limitation, absent parts given as empty texts.
pub open spec fn limitation_id_of(
    code: Seq<char>,
    provider_id: Seq<char>,
    path: Seq<char>,
    symbol_id: Seq<char>,
) -> Seq<char> {
    stable_id_spec("impact-limitation/v1"@, seq![code, provider_id, path, symbol_id])
}

fn text_or_empty(o: Option<&str>) -> (r: &str)
    ensures
        r@ == or_empty(o),
{
    match o {
        Some(s) => s,
        None => {
            proof {
                reveal_strlit("");
            }
            assert(""@ =~= Seq::<char>::empty());
            ""
        },
    }
}

/// An optional text holds the same text as an optional string slice.
pub open spec fn opt_text_is(a: Option<String>, b: Option<&str>) -> bool {
    match (a, b) {
        (Some(x), Some(y)) => x@ == y@,
        (None, None) => true,
        _ => false,
    }
}

fn optional_copy(o: Option<&str>) -> (r: Option<String>)
    ensures
        o is None <==> r is None,
        o matches Some(s) ==> r matches Some(t) && t@ == s@,
{
    match o {
        Some(s) => Some(String::from_str(s)),
        None => None,
    }
}

/// The code recorded for a limitation: the given code, or a generic one
/// when it is empty.
pub open spec fn reason_code_spec(code: Seq<char>) -> Seq<char> {
    if code.len() == 0 {
        "impact-context-limited"@
    } else {
        code
    }
}

pub fn reason_code(code: &str) -> (r: &str)
    ensures
        r@ == reason_code_spec(code@),
{
    if code.is_empty() {
        "impact-context-limited"
    } else {
        code
    }
}

/// At most `maximum` characters of `value`.
pub fn bounded(value: &str, maximum: usize) -> (r: String)
    ensures
        r@ == take_chars(value@, maximum as int),
{
    take_prefix_chars(value, maximum)
}

/// Records a limitation, once per identifier, and returns its identifier.
pub fn insert_limitation(
    limitations: &mut Vec<Limitation>,
    code: &str,
    provider_id: Option<&str>,
    path: Option<&str>,
    symbol_id: Option<&str>,
    reason: &str,
    interpretation: &str,
    improvable_in_deep_mode: bool,
) -> (id: String)
    requires
        keyed_sorted(old(limitations)@),
    ensures
        id@ == limitation_id_spec(code@, provider_id, path, symbol_id),
        keyed_sorted(final(limitations)@),
        keys_of(final(limitations)@).contains(id@),
        forall|k: Seq<char>| #[trigger]
            keys_of(old(limitations)@).contains(k) ==> keys_of(final(limitations)@).contains(k),
        final(limitations)@.len() <= old(limitations)@.len() + 1,
        keys_of(old(limitations)@).contains(id@) ==> final(limitations)@ == old(limitations)@,
        !keys_of(old(limitations)@).contains(id@) ==> exists|p: int, l: Limitation|
            0 <= p <= old(limitations)@.len() && final(limitations)@ == #[trigger] old(limitations)@.insert(p, l) && l.limitation_id@ == id@ && l.code@ == take_chars(
                reason_code_spec(code@),
                100,
            ) && l.reason@ == take_chars(reason@, 1000) && l.interpretation@ == take_chars(
                interpretation@,
                1000,
            ) && l.improvable_in_deep_mode == improvable_in_deep_mode && opt_text_is(l.provider_id, provider_id)
                && opt_text_is(l.path, path) && opt_text_is(l.symbol_id, symbol_id),
        forall|x: Limitation| #[trigger] old(limitations)@.contains(x) ==> final(limitations)@.contains(x),
{
    let fields: [&str; 4] = [
        code,
        text_or_empty(provider_id),
        text_or_empty(path),
        text_or_empty(symbol_id),
    ];
    let limitation_id = stable_id("impact-limitation/v1", &fields);
    proof {
        assert(str_views(fields@) =~= seq![
            code@,
            or_empty(provider_id),
            or_empty(path),
            or_empty(symbol_id),
        ]);
    }
    let limitation = Limitation {
        limitation_id: limitation_id.clone(),
        code: bounded(reason_code(code), 100),
        provider_id: optional_copy(provider_id),
        path: optional_copy(path),
        symbol_id: optional_copy(symbol_id),
        reason: bounded(reason, 1000),
        interpretation: bounded(interpretation, 1000),
        improvable_in_deep_mode,
    };
    let ghost l = limitation;
    insert_absent(limitations, limitation);
    proof {
        assert forall|x: Limitation| #[trigger] old(limitations)@.contains(x) implies limitations@.contains(x) by {
            let i = choose|i: int| 0 <= i < old(limitations)@.len() && old(limitations)@[i] == x;
            if limitations@ != old(limitations)@ {
                let p = choose|p: int|
                    0 <= p <= old(limitations)@.len() && limitations@ == #[trigger] old(limitations)@.insert(p, l);
                if i < p {
                    assert(limitations@[i] == x);
                } else {
                    assert(limitations@[i + 1] == x);
                }
            }
        }
        if !keys_of(old(limitations)@).contains(limitation_id@) {
            let p = choose|p: int|
                0 <= p <= old(limitations)@.len() && limitations@ == #[trigger] old(limitations)@.insert(p, l);
            assert(limitations@[p] == l);
            assert(keys_of(limitations@)[p] == limitation_id@);
        } else {
            let k = choose|k: int| 0 <= k < keys_of(old(limitations)@).len() && keys_of(old(limitations)@)[k] == limitation_id@;
            assert(keys_of(limitations@)[k] == limitation_id@);
        }
    }
    limitation_id
}

/// Records the exhaustion of a fast-path resource.
pub fn resource_limitation(limitations: &mut Vec<Limitation>, code: &str, path: Option<&str>) -> (id:
    String)
    requires
        keyed_sorted(old(limitations)@),
    ensures
        id@ == limitation_id_spec(code@, None, path, None),
        keyed_sorted(final(limitations)@),
        keys_of(final(limitations)@).contains(id@),
        forall|k: Seq<char>| #[trigger]
            keys_of(old(limitations)@).contains(k) ==> keys_of(final(limitations)@).contains(k),
        final(limitations)@.len() <= old(limitations)@.len() + 1,
        keys_of(old(limitations)@).contains(id@) ==> final(limitations)@ == old(limitations)@,
        !keys_of(old(limitations)@).contains(id@) ==> exists|p: int, l: Limitation|
            0 <= p <= old(limitations)@.len() && final(limitations)@ == #[trigger] old(limitations)@.insert(p, l)
                && l.limitation_id@ == id@ && l.code@ == take_chars(reason_code_spec(code@), 100) && l.provider_id is None
                && opt_text_is(l.path, path) && l.symbol_id is None,
        forall|x: Limitation| #[trigger] old(limitations)@.contains(x) ==> final(limitations)@.contains(x),
{
    insert_limitation(
        limitations,
        code,
        None,
        path,
        None,
        "A fast-path resource budget was exhausted.",
        "Earlier accepted facts remain valid; this unit or later stages may be incomplete.",
        true,
    )
}

// ----------------------------------------------------------------------
// Classification of changed files
// ----------------------------------------------------------------------
/// The presence of a unit in the impact document.
pub open spec fn impact_presence_spec(p: CandidatePresence) -> ImpactPresence {
    match p {
        CandidatePresence::Present => ImpactPresence::Present,
        CandidatePresence::Deleted => ImpactPresence::Deleted,
        CandidatePresence::Gitlink => ImpactPresence::Gitlink,
    }
}

pub fn impact_presence(presence: CandidatePresence) -> (r: ImpactPresence)
    ensures
        r == impact_presence_spec(presence),
{
    match presence {
        CandidatePresence::Present => ImpactPresence::Present,
        CandidatePresence::Deleted => ImpactPresence::Deleted,
        CandidatePresence::Gitlink => ImpactPresence::Gitlink,
    }
}

/// The language of a path, from its lowercased name.
pub open spec fn detect_language_spec(path: Seq<char>) -> Seq<char> {
    let lower = lower_seq(path);
    if has_suffix(lower, ".rs"@) {
        "rust"@
    } else if has_suffix(lower, ".toml"@) {
        "toml"@
    } else if has_suffix(lower, ".yaml"@) || has_suffix(lower, ".yml"@) {
        "yaml"@
    } else if has_suffix(lower, "dockerfile"@) || has_infix(lower, "dockerfile."@) {
        "dockerfile"@
    } else if has_suffix(lower, ".sql"@) {
        "sql"@
    } else {
        "unknown"@
    }
}

/// The language of a changed file, from its name.
pub fn detect_language(path: &str) -> (r: &'static str)
    ensures
        r@ == detect_language_spec(path@),
{
    let lower = to_ascii_lower(path);
    let l = lower.as_str();
    if str_ends_with(l, ".rs") {
        "rust"
    } else if str_ends_with(l, ".toml") {
        "toml"
    } else if str_ends_with(l, ".yaml") || str_ends_with(l, ".yml") {
        "yaml"
    } else if str_ends_with(l, "dockerfile") || str_contains(l, "dockerfile.") {
        "dockerfile"
    } else if str_ends_with(l, ".sql") {
        "sql"
    } else {
        "unknown"
    }
}

/// Vendored, generated, distributed or minified-looking paths.
pub open spec fn is_generated_like_spec(path: Seq<char>) -> bool {
    let lower = lower_seq(path);
    has_prefix(lower, "vendor/"@) || has_infix(lower, "/vendor/"@) || has_prefix(
        lower,
        "generated/"@,
    ) || has_infix(lower, "/generated/"@) || has_prefix(lower, "dist/"@) || has_infix(
        lower,
        "/dist/"@,
    ) || has_suffix(lower, ".min.js"@) || has_suffix(lower, ".min.css"@)
}

pub fn is_generated_like(path: &str) -> (r: bool)
    ensures
        r == is_generated_like_spec(path@),
{
    let lower = to_ascii_lower(path);
    let l = lower.as_str();
    str_starts_with(l, "vendor/") || str_contains(l, "/vendor/") || str_starts_with(
        l,
        "generated/",
    ) || str_contains(l, "/generated/") || str_starts_with(l, "dist/") || str_contains(
        l,
        "/dist/",
    ) || str_ends_with(l, ".min.js") || str_ends_with(l, ".min.css")
}

/// The limitation code of a skipped generated-like path.
pub open spec fn generated_limitation_code_spec(path: Seq<char>) -> Seq<char> {
    let lower = lower_seq(path);
    if has_infix(lower, "vendor"@) {
        "vendored-structure-skipped"@
    } else if has_suffix(lower, ".min.js"@) || has_suffix(lower, ".min.css"@) {
        "minified-structure-skipped"@
    } else {
        "generated-like-structure-skipped"@
    }
}

pub fn generated_limitation_code(path: &str) -> (r: &'static str)
    ensures
        r@ == generated_limitation_code_spec(path@),
{
    let lower = to_ascii_lower(path);
    let l = lower.as_str();
    if str_contains(l, "vendor") {
        "vendored-structure-skipped"
    } else if str_ends_with(l, ".min.js") || str_ends_with(l, ".min.css") {
        "minified-structure-skipped"
    } else {
        "generated-like-structure-skipped"
    }
}

/// Whether two byte ranges touch or overlap.
pub open spec fn ranges_overlap_spec(left: SourceRange, right: SourceRange) -> bool {
    left.start_byte <= right.end_byte && right.start_byte <= left.end_byte
}

pub fn ranges_overlap(left: &SourceRange, right: &SourceRange) -> (r: bool)
    ensures
        r == ranges_overlap_spec(*left, *right),
{
    left.start_byte <= right.end_byte && right.start_byte <= left.end_byte
}

/// The presentation rank of a summary kind; higher ranks go first when
/// output is trimmed.
pub open spec fn summary_priority_spec(kind: SummaryKind) -> u8 {
    match kind {
        SummaryKind::InterfaceChange | SummaryKind::TestSelection
        | SummaryKind::ConfigurationEffect => 0,
        SummaryKind::DependencyChange | SummaryKind::TextQueryMatch => 1,
        _ => 2,
    }
}

pub fn summary_priority(kind: SummaryKind) -> (r: u8)
    ensures
        r == summary_priority_spec(kind),
{
    match kind {
        SummaryKind::InterfaceChange | SummaryKind::TestSelection
        | SummaryKind::ConfigurationEffect => 0,
        SummaryKind::DependencyChange | SummaryKind::TextQueryMatch => 1,
        _ => 2,
    }
}

/// The line range of a deleted file's change: one-based lines, no bytes.
pub open spec fn deleted_range_spec(r: ChangedRange) -> SourceRange {
    let start = if r.start_line >= 1 {
        r.start_line
    } else {
        1u32
    };
    let end0 = if r.end_line >= r.start_line {
        r.end_line
    } else {
        r.start_line
    };
    let end = if end0 >= 1 {
        end0
    } else {
        1u32
    };
    SourceRange {
        start_line: start,
        start_column: 1,
        end_line: end,
        end_column: 1,
        start_byte: 0,
        end_byte: 0,
    }
}

fn deleted_range(r: &ChangedRange) -> (s: SourceRange)
    ensures
        s == deleted_range_spec(*r),
{
    let start = if r.start_line >= 1 {
        r.start_line
    } else {
        1u32
    };
    let end0 = if r.end_line >= r.start_line {
        r.end_line
    } else {
        r.start_line
    };
    let end = if end0 >= 1 {
        end0
    } else {
        1u32
    };
    SourceRange {
        start_line: start,
        start_column: 1,
        end_line: end,
        end_column: 1,
        start_byte: 0,
        end_byte: 0,
    }
}

/// The source ranges of a change whose candidate bytes are absent.
pub fn map_deleted_ranges(ranges: &Vec<ChangedRange>) -> (r: Vec<SourceRange>)
    ensures
        r@.len() == ranges@.len(),
        forall|i: int| 0 <= i < r@.len() ==> #[trigger] r@[i] == deleted_range_spec(ranges@[i]),
{
    let mut out: Vec<SourceRange> = Vec::new();
    let mut i: usize = 0;
    while i < ranges.len()
        invariant
            i <= ranges@.len(),
            out@.len() == i,
            forall|j: int| 0 <= j < i ==> #[trigger] out@[j] == deleted_range_spec(ranges@[j]),
        decreases ranges@.len() - i,
    {
        out.push(deleted_range(&ranges[i]));
        i = i + 1;
    }
    out
}


// ----------------------------------------------------------------------
// Changed line ranges
// ----------------------------------------------------------------------
/// The byte offsets at which the lines of `s` start: 0, then one past
/// each line feed.
pub open spec fn line_starts(s: Seq<u8>) -> Seq<int>
    decreases s.len(),
{
    if s.len() == 0 {
        seq![0int]
    } else {
        let p = line_starts(s.drop_last());
        if s.last() == 10u8 {
            p.push(s.len() as int)
        } else {
            p
        }
    }
}

proof fn lemma_line_starts_shape(s: Seq<u8>)
    ensures
        line_starts(s).len() >= 1,
        line_starts(s).len() <= s.len() + 1,
        line_starts(s)[0] == 0,
        forall|i: int| 0 <= i < line_starts(s).len() ==> 0 <= #[trigger] line_starts(s)[i] <= s.len(),
        forall|i: int, j: int|
            0 <= i < j < line_starts(s).len() ==> line_starts(s)[i] < line_starts(s)[j],
    decreases s.len(),
{
    if s.len() > 0 {
        lemma_line_starts_shape(s.drop_last());
    }
}

/// `c` without its trailing line feeds.
pub open spec fn trim_trailing_newlines(c: Seq<char>) -> Seq<char>
    decreases c.len(),
{
    if c.len() > 0 && c.last() == '\n' {
        trim_trailing_newlines(c.drop_last())
    } else {
        c
    }
}

/// One past a character count, wrapping as a `u32`.
pub open spec fn column_after(count: nat) -> u32 {
    if (count as u32) < u32::MAX {
        ((count as u32) + 1) as u32
    } else {
        0
    }
}

pub open spec fn max_u32(a: u32, b: u32) -> u32 {
    if a >= b {
        a
    } else {
        b
    }
}

/// The source range of a changed line range within the candidate bytes.
pub open spec fn line_range_spec(source: Seq<u8>, r: ChangedRange) -> SourceRange {
    let start_line = max_u32(r.start_line, 1);
    let end_line = max_u32(max_u32(r.end_line, r.start_line), 1);
    let ls = line_starts(source);
    let start_byte = if start_line - 1 < ls.len() {
        ls[start_line - 1]
    } else {
        source.len() as int
    };
    let end_byte = if r.deletion_anchor {
        start_byte
    } else if end_line < ls.len() {
        ls[end_line as int]
    } else {
        source.len() as int
    };
    let end_column = if r.deletion_anchor {
        1u32
    } else {
        column_after(trim_trailing_newlines(utf8_lossy(source.subrange(start_byte, end_byte))).len())
    };
    SourceRange {
        start_line,
        start_column: 1,
        end_line,
        end_column,
        start_byte: start_byte as usize,
        end_byte: end_byte as usize,
    }
}

fn collect_line_starts(source: &[u8]) -> (r: Vec<usize>)
    ensures
        r@.len() == line_starts(source@).len(),
        forall|i: int| 0 <= i < r@.len() ==> #[trigger] r@[i] == line_starts(source@)[i],
{
    let mut out: Vec<usize> = Vec::new();
    out.push(0);
    let mut i: usize = 0;
    while i < source.len()
        invariant
            i <= source@.len(),
            out@.len() == line_starts(source@.take(i as int)).len(),
            forall|k: int| 0 <= k < out@.len() ==> #[trigger] out@[k] == line_starts(source@.take(i as int))[k],
        decreases source@.len() - i,
    {
        proof {
            assert(source@.take(i + 1).drop_last() =~= source@.take(i as int));
        }
        if source[i] == 10u8 {
            out.push(i + 1);
        }
        i = i + 1;
    }
    assert(source@.take(source@.len() as int) =~= source@);
    out
}

fn count_without_trailing_newlines(text: &str) -> (r: usize)
    ensures
        r == trim_trailing_newlines(text@).len(),
{
    let mut n = text.unicode_len();
    proof {
        assert(text@.take(n as int) =~= text@);
    }
    while n > 0 && text.get_char(n - 1) == '\n'
        invariant
            n <= text@.len(),
            trim_trailing_newlines(text@) == trim_trailing_newlines(text@.take(n as int)),
        decreases n,
    {
        proof {
            assert(text@.take(n as int).drop_last() =~= text@.take(n - 1));
        }
        n = n - 1;
    }
    n
}

/// The source range of a changed line range within the candidate bytes.
pub fn line_range(source: &[u8], range: &ChangedRange) -> (r: SourceRange)
    ensures
        r == line_range_spec(source@, *range),
{
    proof {
        lemma_line_starts_shape(source@);
    }
    let starts = collect_line_starts(source);
    let start_line: u32 = if range.start_line >= 1 {
        range.start_line
    } else {
        1
    };
    let end0: u32 = if range.end_line >= range.start_line {
        range.end_line
    } else {
        range.start_line
    };
    let end_line: u32 = if end0 >= 1 {
        end0
    } else {
        1
    };
    let si = (start_line - 1) as usize;
    let start_byte: usize = if si < starts.len() {
        starts[si]
    } else {
        source.len()
    };
    let end_byte: usize = if range.deletion_anchor {
        start_byte
    } else if (end_line as usize) < starts.len() {
        starts[end_line as usize]
    } else {
        source.len()
    };
    let end_column: u32 = if range.deletion_anchor {
        1
    } else {
        let mut piece: Vec<u8> = Vec::new();
        let mut k: usize = start_byte;
        while k < end_byte
            invariant
                start_byte <= k <= end_byte <= source@.len(),
                piece@ == source@.subrange(start_byte as int, k as int),
            decreases end_byte - k,
        {
            piece.push(source[k]);
            assert(source@.subrange(start_byte as int, k + 1) =~= source@.subrange(
                start_byte as int,
                k as int,
            ).push(source@[k as int]));
            k = k + 1;
        }
        let text = decode_lossy(piece.as_slice());
        let count = count_without_trailing_newlines(text.as_str());
        let c = count as u32;
        if c < u32::MAX {
            c + 1
        } else {
            0
        }
    };
    SourceRange {
        start_line,
        start_column: 1,
        end_line,
        end_column,
        start_byte,
        end_byte,
    }
}

/// Ranges ordered by start byte, then end byte.
pub open spec fn ranges_sorted(v: Seq<SourceRange>) -> bool {
    forall|i: int, j: int|
        0 <= i < j < v.len() ==> (v[i].start_byte < v[j].start_byte || (v[i].start_byte
            == v[j].start_byte && v[i].end_byte <= v[j].end_byte))
}

spec fn range_le(a: SourceRange, b: SourceRange) -> bool {
    a.start_byte < b.start_byte || (a.start_byte == b.start_byte && a.end_byte <= b.end_byte)
}

/// Sorts ranges by start byte, then end byte; ranges with equal bytes keep
/// their order.
pub fn sort_ranges(v: Vec<SourceRange>) -> (r: Vec<SourceRange>)
    ensures
        ranges_sorted(r@),
        r@.to_multiset() == v@.to_multiset(),
{
    let mut out: Vec<SourceRange> = Vec::new();
    let mut i: usize = 0;
    assert(out@ =~= v@.take(0));
    while i < v.len()
        invariant
            i <= v@.len(),
            ranges_sorted(out@),
            out@.to_multiset() == v@.take(i as int).to_multiset(),
        decreases v@.len() - i,
    {
        let x = v[i];
        let mut p: usize = out.len();
        while p > 0 && !(out[p - 1].start_byte < x.start_byte || (out[p - 1].start_byte
            == x.start_byte && out[p - 1].end_byte <= x.end_byte))
            invariant
                p <= out@.len(),
                ranges_sorted(out@),
                forall|k: int| p <= k < out@.len() ==> !range_le(#[trigger] out@[k], x),
            decreases p,
        {
            p = p - 1;
        }
        let ghost before = out@;
        out.insert(p, x);
        proof {
            assert forall|a: int, b: int| 0 <= a < b < out@.len() implies range_le(out@[a], out@[b]) by {
                if b < p {
                    assert(out@[a] == before[a] && out@[b] == before[b]);
                } else if b == p {
                    assert(out@[a] == before[a]);
                    if p > 0 {
                        assert(range_le(before[p - 1], x));
                        if a < p - 1 {
                            assert(range_le(before[a], before[p - 1]));
                        }
                    }
                } else if a == p {
                    assert(out@[b] == before[b - 1]);
                    assert(!range_le(before[b - 1], x));
                } else if a < p {
                    assert(out@[a] == before[a] && out@[b] == before[b - 1]);
                } else {
                    assert(out@[a] == before[a - 1] && out@[b] == before[b - 1]);
                }
            }
            assert(v@.take(i + 1) =~= v@.take(i as int).push(x));
            assert(out@ == before.insert(p as int, x));
            vstd::seq_lib::to_multiset_insert(before, p as int, x);
            vstd::seq_lib::to_multiset_build(v@.take(i as int), x);
        }
        i = i + 1;
    }
    assert(v@.take(v@.len() as int) =~= v@);
    out
}

/// The source ranges of a present file's changes, ordered by bytes.
pub fn map_changed_ranges(source: &[u8], ranges: &Vec<ChangedRange>) -> (r: Vec<SourceRange>)
    ensures
        ranges_sorted(r@),
        r@.to_multiset() == Seq::new(ranges@.len(), |i: int| line_range_spec(source@, ranges@[i])).to_multiset(),
{
    let mut mapped: Vec<SourceRange> = Vec::new();
    let mut i: usize = 0;
    while i < ranges.len()
        invariant
            i <= ranges@.len(),
            mapped@.len() == i,
            forall|k: int| 0 <= k < i ==> #[trigger] mapped@[k] == line_range_spec(source@, ranges@[k]),
        decreases ranges@.len() - i,
    {
        mapped.push(line_range(source, &ranges[i]));
        i = i + 1;
    }
    assert(mapped@ =~= Seq::new(ranges@.len(), |i: int| line_range_spec(source@, ranges@[i])));
    sort_ranges(mapped)
}

} // verus!
