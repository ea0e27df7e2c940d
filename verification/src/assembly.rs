//! The fast impact analysis, step by step: the driver reads candidate
//! bytes and runs the syntax and text providers; every decision between
//! those steps is taken here.
use vstd::prelude::*;
use crate::budget::{BudgetResource, BudgetTracker};
use crate::candidate::{CandidateBytes, CandidateFile, CandidatePresence};
use crate::clock::duration_as_nanos;
use crate::contracts::{
    string_views, valid_id, ChangedSymbol, DomainSummary, ImpactContext, ImpactEdge, ImpactMetrics, ImpactScope,
    ImpactStatus, ImpactUnit, Limitation, ParseQuality, ProviderRecord, ProviderStatus, SourceRange,
    UnitStatus,
};
use crate::digest::{stable_id, stable_id_spec, str_views};
use crate::engine::{
    bounded, build_coverage, clone_strings, detect_language, generated_limitation_code,
    impact_presence, insert_limitation, is_generated_like, is_generated_like_spec,
    limitation_id_of, limitation_id_spec, map_changed_ranges, map_deleted_ranges, provider_record, ranges_overlap,
    resource_limitation, update_provider_terminal, validate_request, ImpactContextError,
    ImpactRequest, ProviderStats, SYNTAX_PROVIDER_KIND, SYNTAX_PROVIDER_VERSION,
    TEXT_PROVIDER_KIND, TEXT_PROVIDER_VERSION,
};
use crate::keyed::{insert_absent, insert_all, keyed_sorted, keys_of};
use crate::engine::{opt_text_is, reason_code_spec};
use crate::strings::take_chars;
use crate::normalizer::{normalize_unit, text_facts_of, NormalizedUnitFacts};
use crate::rust_syntax::{RustAdapterError, RustSyntaxOutput};
use crate::strings::{decode_utf8_strict, str_ends_with, str_equal, str_less};
use crate::summarizer::{sort_dedup_ids, summarize_unit};
use crate::text_adapter::TextOutput;

verus! {

/// The state of one impact analysis between driver steps.
pub struct ImpactAssembly {
    pub request: ImpactRequest,
    pub tracker: BudgetTracker,
    pub syntax_provider_id: String,
    pub text_provider_id: String,
    pub limitations: Vec<Limitation>,
    pub syntax_stats: ProviderStats,
    pub text_stats: ProviderStats,
    pub input_sizes: Vec<(String, usize)>,
    pub units: Vec<ImpactUnit>,
    pub symbols: Vec<ChangedSymbol>,
    pub edges: Vec<ImpactEdge>,
    pub summaries: Vec<DomainSummary>,
    pub fact_count: usize,
    pub nodes_visited: usize,
    pub max_nesting_depth: usize,
}

/// What is known of one changed file while it is processed.
pub struct UnitWork {
    pub path: String,
    pub manifest_unit_id: String,
    pub presence: CandidatePresence,
    pub language: String,
    pub content_sha256: Option<String>,
    pub content_bytes: Option<usize>,
    pub source: Option<Vec<u8>>,
    pub binary: bool,
    pub changed_ranges: Vec<SourceRange>,
    pub syntax_eligible: bool,
    pub syntax_status: UnitStatus,
    pub text_status: UnitStatus,
    pub parse_quality: Option<ParseQuality>,
    pub error_node_count: usize,
    pub missing_node_count: usize,
    pub parse_affected_ranges: Vec<SourceRange>,
    pub limitation_ids: Vec<String>,
    pub run_syntax: bool,
    pub run_text: bool,
    pub syntax_output: Option<RustSyntaxOutput>,
    pub text_output: Option<TextOutput>,
    pub route: UnitRoute,
}

/// The provider identifier of a provider kind and version.
pub open spec fn provider_id_spec(kind: Seq<char>, version: Seq<char>) -> Seq<char> {
    stable_id_spec("impact-provider/v1"@, seq![kind, version])
}

fn provider_id(kind: &str, version: &str) -> (r: String)
    ensures
        r@ == provider_id_spec(kind@, version@),
        valid_id(r@),
{
    let fields: [&str; 2] = [kind, version];
    let id = stable_id("impact-provider/v1", &fields);
    assert(str_views(fields@) =~= seq![kind@, version@]);
    id
}

/// How a changed file is classified before any provider runs.
#[derive(Debug, Clone, Copy, PartialEq, Eq, Structural)]
pub enum UnitRoute {
    FileBudgetExhausted,
    DeadlineExhausted,
    Deleted,
    Gitlink,
    Unreadable,
    Binary,
    Generated,
    NoChangedRange,
    ByteBudgetExhausted,
    Analyzed,
}

/// The syntax and text outcome of each route before the providers run,
/// and whether each provider runs.
pub open spec fn route_statuses(route: UnitRoute, eligible: bool) -> (UnitStatus, UnitStatus, bool, bool) {
    match route {
        UnitRoute::FileBudgetExhausted => (UnitStatus::BudgetExhausted, UnitStatus::BudgetExhausted, false, false),
        UnitRoute::DeadlineExhausted => (UnitStatus::BudgetExhausted, UnitStatus::BudgetExhausted, false, false),
        UnitRoute::Deleted => (UnitStatus::Unavailable, UnitStatus::Unavailable, false, false),
        UnitRoute::Gitlink => (UnitStatus::Unsupported, UnitStatus::Unsupported, false, false),
        UnitRoute::Unreadable => (UnitStatus::Unavailable, UnitStatus::Unavailable, false, false),
        UnitRoute::Binary => (UnitStatus::Unsupported, UnitStatus::Unsupported, false, false),
        UnitRoute::Generated => (UnitStatus::Unsupported, UnitStatus::Unavailable, false, false),
        UnitRoute::NoChangedRange => (UnitStatus::Unsupported, UnitStatus::Unavailable, false, false),
        UnitRoute::ByteBudgetExhausted => (UnitStatus::BudgetExhausted, UnitStatus::BudgetExhausted, false, false),
        UnitRoute::Analyzed => if eligible {
            (UnitStatus::Unavailable, UnitStatus::Unavailable, true, true)
        } else {
            (UnitStatus::Unsupported, UnitStatus::Unavailable, false, true)
        },
    }
}

/// Whether a unit that passed the budgets is handed to the Rust parser: a
/// Rust path, Rust enabled, readable text bytes, not generated, with a
/// changed range.
pub open spec fn syntax_eligible_spec(
    language: Seq<char>,
    rust_enabled: bool,
    readable: bool,
    binary: bool,
    generated: bool,
    has_ranges: bool,
    present: bool,
) -> bool {
    language == "rust"@ && rust_enabled && present && readable && !binary && !generated && has_ranges
}

impl ImpactAssembly {
    /// The shape that every step keeps.
    pub open spec fn wf(&self) -> bool {
        &&& self.tracker.wf()
        &&& keyed_sorted(self.limitations@)
        &&& keyed_sorted(self.symbols@)
        &&& keyed_sorted(self.edges@)
        &&& keyed_sorted(self.summaries@)
        &&& valid_id(self.syntax_provider_id@)
        &&& valid_id(self.text_provider_id@)
    }

    /// Starts an analysis: refuses a request the engine cannot serve, and
    /// otherwise sets up an empty analysis under the request's budget.
    pub fn start(request: ImpactRequest) -> (r: Result<ImpactAssembly, ImpactContextError>)
        ensures
            r is Ok <==> crate::engine::request_error_code(request) is None,
            r matches Err(e) ==> crate::engine::request_error_code(request) == Some(e.code_of()),
            r matches Ok(a) ==> {
                &&& a.wf()
                &&& a.syntax_provider_id@ == provider_id_spec("tree-sitter-rust"@, "0.24.2"@)
                &&& a.text_provider_id@ == provider_id_spec("text-adapter"@, "1"@)
                &&& a.units@.len() == 0
                &&& a.limitations@.len() == 0
                &&& a.tracker.budget_of() == request.budget
                &&& a.request == request
                &&& a.symbols@.len() == 0
                &&& a.edges@.len() == 0
                &&& a.summaries@.len() == 0
                &&& a.input_sizes@.len() == 0
                &&& a.fact_count == 0
                &&& a.nodes_visited == 0
                &&& a.max_nesting_depth == 0
                &&& forall|res: BudgetResource| #[trigger] a.tracker.consumed_of(res) == 0
            },
    {
        match validate_request(&request) {
            Err(e) => Err(e),
            Ok(()) => {
                let syntax_provider_id = provider_id(SYNTAX_PROVIDER_KIND, SYNTAX_PROVIDER_VERSION);
                let text_provider_id = provider_id(TEXT_PROVIDER_KIND, TEXT_PROVIDER_VERSION);
                let tracker = BudgetTracker::new(request.budget);
                Ok(
                    ImpactAssembly {
                        request,
                        tracker,
                        syntax_provider_id,
                        text_provider_id,
                        limitations: Vec::new(),
                        syntax_stats: ProviderStats::new(),
                        text_stats: ProviderStats::new(),
                        input_sizes: Vec::new(),
                        units: Vec::new(),
                        symbols: Vec::new(),
                        edges: Vec::new(),
                        summaries: Vec::new(),
                        fact_count: 0,
                        nodes_visited: 0,
                        max_nesting_depth: 0,
                    },
                )
            },
        }
    }

    /// Records the limitations of loading the text configuration: one text
    /// limitation per code, counting the budget exhaustions.
    pub fn record_text_configuration(&mut self, codes: &Vec<String>)
        requires
            old(self).wf(),
        ensures
            final(self).wf(),
            final(self).request == old(self).request,
            final(self).units@ == old(self).units@,
            forall|i: int|
                0 <= i < codes@.len() ==> crate::keyed::keys_of(final(self).limitations@).contains(
                    limitation_id_of(#[trigger] codes@[i]@, old(self).text_provider_id@, Seq::empty(), Seq::empty()),
                ),
    {
        let mut i: usize = 0;
        while i < codes.len()
            invariant
                i <= codes@.len(),
                self.wf(),
                self.request == old(self).request,
                self.units@ == old(self).units@,
                self.text_provider_id == old(self).text_provider_id,
                forall|j: int|
                    0 <= j < i ==> crate::keyed::keys_of(self.limitations@).contains(
                        limitation_id_of(#[trigger] codes@[j]@, old(self).text_provider_id@, Seq::empty(), Seq::empty()),
                    ),
            decreases codes@.len() - i,
        {
            let code = codes[i].as_str();
            if str_ends_with(code, "budget-exhausted") {
                self.text_stats.budget_exhausted = self.text_stats.budget_exhausted.saturating_add(1);
            }
            let ghost before = self.limitations@;
            let id = insert_limitation(
                &mut self.limitations,
                code,
                Some(self.text_provider_id.as_str()),
                None,
                None,
                "Candidate-bound text configuration was limited.",
                "Configured text evidence may be incomplete.",
                true,
            );
            proof {
                assert forall|j: int| 0 <= j < i + 1 implies crate::keyed::keys_of(self.limitations@).contains(
                    limitation_id_of(#[trigger] codes@[j]@, old(self).text_provider_id@, Seq::empty(), Seq::empty()),
                ) by {
                    if j < i {
                        assert(crate::keyed::keys_of(before).contains(limitation_id_of(codes@[j]@, old(self).text_provider_id@, Seq::empty(), Seq::empty())));
                    }
                }
            }
            self.text_stats.limitation_ids.push(id);
            i = i + 1;
        }
    }

    /// Counts a configuration file read as text input.
    pub fn record_config_input(&mut self, path: &str, bytes: usize)
        requires
            old(self).wf(),
        ensures
            final(self).wf(),
            final(self).request == old(self).request,
            final(self).units@ == old(self).units@,
    {
        self.text_stats.input_files = self.text_stats.input_files.saturating_add(1);
        self.text_stats.input_bytes = self.text_stats.input_bytes.saturating_add(bytes as u64);
        record_input_size(&mut self.input_sizes, path, bytes);
    }
}

/// Records the size of a candidate input, replacing an earlier record.
fn record_input_size(sizes: &mut Vec<(String, usize)>, path: &str, bytes: usize)
    ensures
        exists|i: int|
            0 <= i < final(sizes)@.len() && final(sizes)@[i].0@ == path@ && final(sizes)@[i].1
                == bytes,
{
    let mut i: usize = 0;
    while i < sizes.len()
        invariant
            i <= sizes@.len(),
        decreases sizes@.len() - i,
    {
        if str_equal(sizes[i].0.as_str(), path) {
            let key = sizes[i].0.clone();
            sizes.set(i, (key, bytes));
            assert(sizes@[i as int].0@ == path@ && sizes@[i as int].1 == bytes);
            return;
        }
        i = i + 1;
    }
    sizes.push((String::from_str(path), bytes));
    assert(sizes@[sizes@.len() - 1].0@ == path@ && sizes@[sizes@.len() - 1].1 == bytes);
}


/// Reading the candidate bytes failed.
pub open spec fn read_failed(read: Option<Result<CandidateBytes, String>>) -> bool {
    read matches Some(Err(_))
}

/// `l` is a limitation with code `code` about `path`.
pub open spec fn record_at(l: Limitation, code: Seq<char>, path: Seq<char>) -> bool {
    l.code@ == code && (l.path matches Some(q) && q@ == path)
}

/// The route of a changed file, from the budget, deadline and content facts.
pub open spec fn route_of(
    file_budget_ok: bool,
    deadline_passed: bool,
    presence: CandidatePresence,
    read_ok: bool,
    binary: bool,
    generated: bool,
    has_ranges: bool,
    bytes_ok: bool,
) -> UnitRoute {
    if !file_budget_ok {
        UnitRoute::FileBudgetExhausted
    } else if deadline_passed {
        UnitRoute::DeadlineExhausted
    } else {
        match presence {
            CandidatePresence::Deleted => UnitRoute::Deleted,
            CandidatePresence::Gitlink => UnitRoute::Gitlink,
            CandidatePresence::Present => if !read_ok {
                UnitRoute::Unreadable
            } else if binary {
                UnitRoute::Binary
            } else if generated {
                UnitRoute::Generated
            } else if !has_ranges {
                UnitRoute::NoChangedRange
            } else if !bytes_ok {
                UnitRoute::ByteBudgetExhausted
            } else {
                UnitRoute::Analyzed
            },
        }
    }
}

/// The read succeeded.
pub open spec fn read_ok(read: Option<Result<CandidateBytes, String>>) -> bool {
    read matches Some(Ok(_))
}

pub open spec fn read_binary(read: Option<Result<CandidateBytes, String>>) -> bool {
    read matches Some(Ok(c)) && c.binary
}

pub open spec fn read_len(read: Option<Result<CandidateBytes, String>>) -> int {
    match read {
        Some(Ok(c)) => c.bytes@.len() as int,
        _ => 0,
    }
}

/// The candidate bytes fit the per-file and total byte budgets.
pub open spec fn bytes_fit(t: BudgetTracker, len: int) -> bool {
    &&& len <= t.budget_of().limit_of(BudgetResource::FileBytes)
    &&& t.consumed_of(BudgetResource::TotalBytes) + len <= t.budget_of().limit_of(
        BudgetResource::TotalBytes,
    )
}

impl ImpactAssembly {
    /// Classifies a changed file and charges its budgets. For a present file
    /// `read` holds the outcome of reading its candidate bytes; for other
    /// files it is `None`. The result says which providers the driver runs.
    pub fn begin_unit(&mut self, file: &CandidateFile, read: Option<Result<CandidateBytes, String>>) -> (w: UnitWork)
        requires
            old(self).wf(),
            (file.presence == CandidatePresence::Present) == (read is Some),
        ensures
            final(self).wf(),
            final(self).request == old(self).request,
            final(self).units@ == old(self).units@,
            final(self).syntax_provider_id == old(self).syntax_provider_id,
            final(self).text_provider_id == old(self).text_provider_id,
            w.path@ == file.path@,
            w.presence == file.presence,
            w.language@ == crate::engine::detect_language_spec(file.path@),
            w.route == route_of(
                old(self).tracker.consumed_of(BudgetResource::ChangedFiles) + 1 <= old(self).tracker.budget_of().limit_of(BudgetResource::ChangedFiles),
                final(self).tracker.deadline_exhausted_of(),
                file.presence,
                read_ok(read),
                read_binary(read),
                is_generated_like_spec(file.path@),
                file.changed_ranges@.len() > 0,
                bytes_fit(old(self).tracker, read_len(read)),
            ),
            (w.syntax_status, w.text_status, w.run_syntax, w.run_text) == route_statuses(w.route, w.syntax_eligible),
            w.syntax_eligible == (match w.route {
                UnitRoute::Analyzed | UnitRoute::ByteBudgetExhausted => syntax_eligible_spec(
                    w.language@,
                    string_views_contains_rust(old(self).request.enabled_languages@),
                    read_ok(read),
                    read_binary(read),
                    is_generated_like_spec(file.path@),
                    file.changed_ranges@.len() > 0,
                    file.presence == CandidatePresence::Present,
                ),
                _ => false,
            }),
            w.route == UnitRoute::FileBudgetExhausted ==> string_views(w.limitation_ids@).contains(
                limitation_id_of("changed-file-budget-exhausted"@, Seq::empty(), file.path@, Seq::empty()),
            ),
            w.route == UnitRoute::FileBudgetExhausted ==> exists|l: Limitation|
                #[trigger] final(self).limitations@.contains(l) && l.limitation_id@ == limitation_id_of(
                    "changed-file-budget-exhausted"@,
                    Seq::empty(),
                    file.path@,
                    Seq::empty(),
                ) && (old(self).limitations@.contains(l) || record_at(l, "changed-file-budget-exhausted"@, file.path@) || (
                read_failed(read) && record_at(l, "candidate-read-unavailable"@, file.path@))),
            w.route == UnitRoute::DeadlineExhausted ==> string_views(w.limitation_ids@).contains(
                limitation_id_of("deadline-exhausted"@, Seq::empty(), file.path@, Seq::empty()),
            ),
            w.run_syntax ==> w.source is Some,
            w.run_text ==> w.source is Some,
            w.syntax_output is None && w.text_output is None,
    {
        proof {
            reveal_strlit("changed-file-budget-exhausted");
            reveal_strlit("candidate-read-unavailable");
        }
        let file_budget = self.tracker.consume(BudgetResource::ChangedFiles, 1);
        let path_text = file.path.as_str();
        let path = String::from_str(path_text);
        let language = String::from_str(detect_language(path_text));
        let mut limitation_ids: Vec<String> = Vec::new();
        let mut content_sha256: Option<String> = None;
        let mut content_bytes: Option<usize> = None;
        let mut source: Option<Vec<u8>> = None;
        let mut binary = false;
        if file.presence == CandidatePresence::Present {
            match read {
                Some(Ok(content)) => {
                    binary = content.binary;
                    content_sha256 = Some(content.sha256);
                    content_bytes = Some(content.bytes.len());
                    record_input_size(&mut self.input_sizes, path_text, content.bytes.len());
                    source = Some(content.bytes);
                },
                Some(Err(message)) => {
                    let reason = String::from_str("Candidate bytes could not be read: ").concat(message.as_str());
                    let id = insert_limitation(
                        &mut self.limitations,
                        "candidate-read-unavailable",
                        None,
                        Some(path_text),
                        None,
                        reason.as_str(),
                        "No structural or text facts were accepted for this unit.",
                        false,
                    );
                    limitation_ids.push(id);
                },
                None => {},
            }
        }
        assert(forall|x: Limitation| #[trigger] self.limitations@.contains(x) ==> old(self).limitations@.contains(x) || (
            read_failed(read) && record_at(x, "candidate-read-unavailable"@, file.path@))) by {
            if self.limitations@ != old(self).limitations@ {
                assert forall|x: Limitation| #[trigger] self.limitations@.contains(x) implies old(self).limitations@.contains(x) || (
                    read_failed(read) && record_at(x, "candidate-read-unavailable"@, file.path@)) by {
                    let (p, l) = choose|p: int, l: Limitation|
                        0 <= p <= old(self).limitations@.len() && self.limitations@ == #[trigger] old(self).limitations@.insert(p, l)
                            && l.code@ == take_chars(reason_code_spec("candidate-read-unavailable"@), 100)
                            && opt_text_is(l.path, Some(path_text));
                    let i = choose|i: int| 0 <= i < self.limitations@.len() && self.limitations@[i] == x;
                    if i < p {
                        assert(old(self).limitations@[i] == x);
                    } else if i > p {
                        assert(old(self).limitations@[i - 1] == x);
                    }
                }
            }
        }
        let changed_ranges = match &source {
            Some(bytes) => map_changed_ranges(bytes.as_slice(), &file.changed_ranges),
            None => map_deleted_ranges(&file.changed_ranges),
        };
        let rust_enabled = crate::contracts::list_contains(&self.request.enabled_languages, "rust");
        let generated = is_generated_like(path_text);
        let has_ranges = file.changed_ranges.len() > 0;
        let is_rust = str_equal(language.as_str(), "rust");
        let mut syntax_eligible = is_rust && rust_enabled && file.presence == CandidatePresence::Present
            && source.is_some() && !binary && !generated && has_ranges;
        let mut syntax_status = UnitStatus::Unavailable;
        let mut text_status = UnitStatus::Unavailable;
        let mut run_syntax = false;
        let mut run_text = false;
        let route: UnitRoute;
        let ghost tracker_before_bytes = self.tracker;
        if file_budget.is_err() {
            syntax_eligible = false;
            syntax_status = UnitStatus::BudgetExhausted;
            text_status = UnitStatus::BudgetExhausted;
            let ghost before_exhaustion = self.limitations@;
            let id = resource_limitation(&mut self.limitations, "changed-file-budget-exhausted", Some(path_text));
            let ghost idv = id@;
            proof {
                let key = limitation_id_of("changed-file-budget-exhausted"@, Seq::empty(), file.path@, Seq::empty());
                assert(idv == key);
                if crate::keyed::keys_of(before_exhaustion).contains(idv) {
                    let k = choose|k: int| 0 <= k < crate::keyed::keys_of(before_exhaustion).len() && crate::keyed::keys_of(before_exhaustion)[k] == idv;
                    assert(before_exhaustion.contains(before_exhaustion[k]));
                    assert(self.limitations@.contains(before_exhaustion[k]));
                } else {
                    let (p, l) = choose|p: int, l: Limitation|
                        0 <= p <= before_exhaustion.len() && self.limitations@ == #[trigger] before_exhaustion.insert(p, l)
                            && l.limitation_id@ == idv && l.code@ == take_chars(reason_code_spec("changed-file-budget-exhausted"@), 100)
                            && l.provider_id is None && opt_text_is(l.path, Some(path_text)) && l.symbol_id is None;
                    assert(self.limitations@[p] == l);
                    assert(self.limitations@.contains(l));
                }
            }
            limitation_ids.push(id);
            assert(string_views(limitation_ids@)[limitation_ids@.len() - 1] == idv);
            route = UnitRoute::FileBudgetExhausted;
        } else if self.tracker.check_deadline().is_err() {
            syntax_eligible = false;
            syntax_status = UnitStatus::BudgetExhausted;
            text_status = UnitStatus::BudgetExhausted;
            let id = resource_limitation(&mut self.limitations, "deadline-exhausted", Some(path_text));
            let ghost idv = id@;
            limitation_ids.push(id);
            assert(string_views(limitation_ids@)[limitation_ids@.len() - 1] == idv);
            route = UnitRoute::DeadlineExhausted;
        } else {
            match file.presence {
                CandidatePresence::Deleted => {
                    syntax_eligible = false;
                    let id = insert_limitation(
                        &mut self.limitations,
                        "removed-structure-unavailable-in-fast-mvp",
                        None,
                        Some(path_text),
                        None,
                        "Fast mode parses candidate-after bytes and does not guess removed symbols.",
                        "Review the deletion through the authoritative diff context.",
                        true,
                    );
                    limitation_ids.push(id);
                    route = UnitRoute::Deleted;
                },
                CandidatePresence::Gitlink => {
                    syntax_eligible = false;
                    syntax_status = UnitStatus::Unsupported;
                    text_status = UnitStatus::Unsupported;
                    let id = insert_limitation(
                        &mut self.limitations,
                        "gitlink-structure-unavailable",
                        None,
                        Some(path_text),
                        None,
                        "Gitlink content is not materialized by fast mode.",
                        "Only the gitlink change remains visible.",
                        true,
                    );
                    limitation_ids.push(id);
                    route = UnitRoute::Gitlink;
                },
                CandidatePresence::Present => {
                    match &source {
                        None => {
                            route = UnitRoute::Unreadable;
                        },
                        Some(bytes) => {
                            let len = bytes.len();
                            if binary {
                                syntax_eligible = false;
                                syntax_status = UnitStatus::Unsupported;
                                text_status = UnitStatus::Unsupported;
                                let id = insert_limitation(
                                    &mut self.limitations,
                                    "binary-structure-unavailable",
                                    None,
                                    Some(path_text),
                                    None,
                                    "Candidate bytes contain NUL and are treated as binary.",
                                    "No source structure is claimed for this unit.",
                                    false,
                                );
                                limitation_ids.push(id);
                                route = UnitRoute::Binary;
                            } else if generated {
                                syntax_eligible = false;
                                syntax_status = UnitStatus::Unsupported;
                                let id = insert_limitation(
                                    &mut self.limitations,
                                    generated_limitation_code(path_text),
                                    None,
                                    Some(path_text),
                                    None,
                                    "Generated, vendored, or minified-like source is retained without structural coverage credit.",
                                    "Review the changed artifact and its generator or source inputs.",
                                    true,
                                );
                                limitation_ids.push(id);
                                route = UnitRoute::Generated;
                            } else if !has_ranges {
                                syntax_eligible = false;
                                syntax_status = UnitStatus::Unsupported;
                                let id = insert_limitation(
                                    &mut self.limitations,
                                    "mode-only-no-structural-range",
                                    None,
                                    Some(path_text),
                                    None,
                                    "The unit has no candidate-side changed source range.",
                                    "Mode-only metadata remains visible without invented symbols.",
                                    false,
                                );
                                limitation_ids.push(id);
                                route = UnitRoute::NoChangedRange;
                            } else {
                                let ghost t0 = self.tracker;
                                let observed = self.tracker.observe(BudgetResource::FileBytes, len);
                                let charged = match observed {
                                    Ok(()) => self.tracker.consume(BudgetResource::TotalBytes, len),
                                    Err(e) => Err(e),
                                };
                                match charged {
                                    Err(exhaustion) => {
                                        syntax_status = UnitStatus::BudgetExhausted;
                                        text_status = UnitStatus::BudgetExhausted;
                                        let id = resource_limitation(&mut self.limitations, exhaustion.code(), Some(path_text));
                                        limitation_ids.push(id);
                                        route = UnitRoute::ByteBudgetExhausted;
                                    },
                                    Ok(()) => {
                                        if syntax_eligible {
                                            self.syntax_stats.input_files = self.syntax_stats.input_files.saturating_add(1);
                                            self.syntax_stats.input_bytes = self.syntax_stats.input_bytes.saturating_add(len as u64);
                                            run_syntax = true;
                                        } else {
                                            syntax_status = UnitStatus::Unsupported;
                                            let id = insert_limitation(
                                                &mut self.limitations,
                                                "unsupported-language",
                                                Some(self.syntax_provider_id.as_str()),
                                                Some(path_text),
                                                None,
                                                "No built-in syntax grammar is enabled for this changed unit.",
                                                "Text evidence may still be available without structural equivalence.",
                                                true,
                                            );
                                            limitation_ids.push(id.clone());
                                            self.syntax_stats.limitation_ids.push(id);
                                        }
                                        self.text_stats.input_files = self.text_stats.input_files.saturating_add(1);
                                        self.text_stats.input_bytes = self.text_stats.input_bytes.saturating_add(len as u64);
                                        run_text = true;
                                        route = UnitRoute::Analyzed;
                                    },
                                }
                            }
                        },
                    }
                },
            }
        }
        UnitWork {
            path,
            manifest_unit_id: match &file.manifest_unit_id {
                Some(id) => id.clone(),
                None => String::new(),
            },
            presence: file.presence,
            language,
            content_sha256,
            content_bytes,
            source,
            binary,
            changed_ranges,
            syntax_eligible,
            syntax_status,
            text_status,
            parse_quality: None,
            error_node_count: 0,
            missing_node_count: 0,
            parse_affected_ranges: Vec::new(),
            limitation_ids,
            run_syntax,
            run_text,
            syntax_output: None,
            text_output: None,
            route,
        }
    }
}

/// Rust is among the enabled languages.
pub open spec fn string_views_contains_rust(v: Seq<String>) -> bool {
    string_views(v).contains("rust"@)
}


/// Some code reports a budget exhaustion.
pub open spec fn any_budget_code(codes: Seq<String>) -> bool {
    exists|i: int| 0 <= i < codes.len() && crate::strings::has_suffix(#[trigger] codes[i]@, "budget-exhausted"@)
}

/// The syntax outcome of a parsed unit.
pub open spec fn parsed_status(budget_limited: bool, q: ParseQuality) -> UnitStatus {
    if budget_limited {
        UnitStatus::BudgetExhausted
    } else if q == ParseQuality::Clean {
        UnitStatus::Completed
    } else {
        UnitStatus::Partial
    }
}

fn has_budget_code(codes: &Vec<String>) -> (r: bool)
    ensures
        r == any_budget_code(codes@),
{
    let mut i: usize = 0;
    while i < codes.len()
        invariant
            i <= codes@.len(),
            forall|j: int| 0 <= j < i ==> !crate::strings::has_suffix(#[trigger] codes@[j]@, "budget-exhausted"@),
        decreases codes@.len() - i,
    {
        if str_ends_with(codes[i].as_str(), "budget-exhausted") {
            return true;
        }
        i = i + 1;
    }
    false
}

fn copy_ranges(v: &Vec<SourceRange>) -> (r: Vec<SourceRange>)
    ensures
        r@ == v@,
{
    let mut out: Vec<SourceRange> = Vec::new();
    let mut i: usize = 0;
    while i < v.len()
        invariant
            i <= v@.len(),
            out@ == v@.take(i as int),
        decreases v@.len() - i,
    {
        out.push(v[i]);
        assert(v@.take(i + 1) =~= v@.take(i as int).push(v@[i as int]));
        i = i + 1;
    }
    assert(v@.take(v@.len() as int) =~= v@);
    out
}

impl ImpactAssembly {
    /// Records the outcome of the Rust syntax provider for a unit.
    pub fn record_syntax(&mut self, work: &mut UnitWork, outcome: Result<RustSyntaxOutput, RustAdapterError>)
        requires
            old(self).wf(),
        ensures
            final(self).wf(),
            final(self).request == old(self).request,
            final(self).units@ == old(self).units@,
            final(self).syntax_provider_id == old(self).syntax_provider_id,
            final(self).text_provider_id == old(self).text_provider_id,
            final(work).route == old(work).route,
            final(work).path == old(work).path,
            final(work).text_status == old(work).text_status,
            final(work).run_text == old(work).run_text,
            final(work).syntax_eligible == old(work).syntax_eligible,
            final(work).source == old(work).source,
            outcome matches Ok(o) ==> final(work).syntax_status == parsed_status(any_budget_code(o.limitation_codes@), o.parse_quality)
                && final(work).parse_quality == Some(o.parse_quality)
                && final(work).parse_affected_ranges@ == o.affected_ranges@
                && final(work).syntax_output == Some(o),
            outcome is Err ==> final(work).syntax_status == UnitStatus::Unavailable && final(work).syntax_output == old(work).syntax_output,
    {
        match outcome {
            Ok(output) => {
                self.nodes_visited = self.nodes_visited.saturating_add(output.nodes_visited);
                if output.max_nesting_depth > self.max_nesting_depth {
                    self.max_nesting_depth = output.max_nesting_depth;
                }
                work.error_node_count = output.error_node_count;
                work.missing_node_count = output.missing_node_count;
                work.parse_affected_ranges = copy_ranges(&output.affected_ranges);
                work.parse_quality = Some(output.parse_quality);
                let budget_limited = has_budget_code(&output.limitation_codes);
                work.syntax_status = if budget_limited {
                    UnitStatus::BudgetExhausted
                } else if output.parse_quality == ParseQuality::Clean {
                    UnitStatus::Completed
                } else {
                    UnitStatus::Partial
                };
                let ghost status = work.syntax_status;
                let mut i: usize = 0;
                while i < output.limitation_codes.len()
                    invariant
                        i <= output.limitation_codes@.len(),
                        self.wf(),
                        self.request == old(self).request,
                        self.units@ == old(self).units@,
                        self.syntax_provider_id == old(self).syntax_provider_id,
                        self.text_provider_id == old(self).text_provider_id,
                        work.route == old(work).route,
                        work.path == old(work).path,
                        work.text_status == old(work).text_status,
                        work.run_text == old(work).run_text,
                        work.syntax_eligible == old(work).syntax_eligible,
                        work.source == old(work).source,
                        work.syntax_status == status,
                        status == parsed_status(any_budget_code(output.limitation_codes@), output.parse_quality),
                        work.parse_quality == Some(output.parse_quality),
                        work.parse_affected_ranges@ == output.affected_ranges@,
                    decreases output.limitation_codes@.len() - i,
                {
                    let id = insert_limitation(
                        &mut self.limitations,
                        output.limitation_codes[i].as_str(),
                        Some(self.syntax_provider_id.as_str()),
                        Some(work.path.as_str()),
                        None,
                        "Rust syntax extraction reported a bounded limitation.",
                        "Structural confidence or completeness is reduced.",
                        true,
                    );
                    work.limitation_ids.push(id.clone());
                    self.syntax_stats.limitation_ids.push(id);
                    i = i + 1;
                }
                work.syntax_output = Some(output);
            },
            Err(error) => {
                work.syntax_status = UnitStatus::Unavailable;
                let message = error.message();
                let id = insert_limitation(
                    &mut self.limitations,
                    "tree-sitter-rust-unavailable",
                    Some(self.syntax_provider_id.as_str()),
                    Some(work.path.as_str()),
                    None,
                    message.as_str(),
                    "No Rust structural facts were accepted.",
                    true,
                );
                work.limitation_ids.push(id.clone());
                self.syntax_stats.limitation_ids.push(id);
            },
        }
    }

    /// Records the outcome of the text provider for a unit.
    pub fn record_text(&mut self, work: &mut UnitWork, output: TextOutput)
        requires
            old(self).wf(),
        ensures
            final(self).wf(),
            final(self).request == old(self).request,
            final(self).units@ == old(self).units@,
            final(self).syntax_provider_id == old(self).syntax_provider_id,
            final(self).text_provider_id == old(self).text_provider_id,
            final(work).text_status == output.status,
            final(work).syntax_status == old(work).syntax_status,
            final(work).route == old(work).route,
            final(work).path == old(work).path,
            final(work).text_output == Some(output),
    {
        work.text_status = output.status;
        let mut i: usize = 0;
        while i < output.limitation_codes.len()
            invariant
                i <= output.limitation_codes@.len(),
                self.wf(),
                self.request == old(self).request,
                self.units@ == old(self).units@,
                self.syntax_provider_id == old(self).syntax_provider_id,
                self.text_provider_id == old(self).text_provider_id,
                work.text_status == output.status,
                work.syntax_status == old(work).syntax_status,
                work.route == old(work).route,
                work.path == old(work).path,
            decreases output.limitation_codes@.len() - i,
        {
            let id = insert_limitation(
                &mut self.limitations,
                output.limitation_codes[i].as_str(),
                Some(self.text_provider_id.as_str()),
                Some(work.path.as_str()),
                None,
                "Text extraction reported a bounded limitation.",
                "Text evidence may be incomplete.",
                true,
            );
            work.limitation_ids.push(id.clone());
            self.text_stats.limitation_ids.push(id);
            i = i + 1;
        }
        work.text_output = Some(output);
    }
}


/// Paths in order: no unit's path is below an earlier one's.
pub open spec fn units_by_path(us: Seq<ImpactUnit>) -> bool {
    forall|i: int, j: int| 0 <= i < j < us.len() ==> !crate::strings::lex_less(us[j].path@, us[i].path@)
}

proof fn lemma_not_less_transitive(a: Seq<char>, b: Seq<char>, c: Seq<char>)
    requires
        !crate::strings::lex_less(b, a),
        !crate::strings::lex_less(c, b),
    ensures
        !crate::strings::lex_less(c, a),
{
    if crate::strings::lex_less(c, a) {
        if a == b {
        } else {
            crate::strings::lemma_lex_total(a, b);
            crate::strings::lemma_lex_transitive(c, a, b);
        }
    }
}

/// Inserts `unit` after every unit whose path is not above its own.
#[verifier::spinoff_prover]
#[verifier::rlimit(30)]
fn insert_unit_by_path(units: &mut Vec<ImpactUnit>, unit: ImpactUnit)
    requires
        units_by_path(old(units)@),
    ensures
        units_by_path(final(units)@),
        exists|p: int| 0 <= p <= old(units)@.len() && final(units)@ == #[trigger] old(units)@.insert(p, unit),
{
    let mut p: usize = units.len();
    while p > 0 && str_less(unit.path.as_str(), units[p - 1].path.as_str())
        invariant
            p <= units@.len(),
            units@ == old(units)@,
            units_by_path(units@),
            forall|k: int| p <= k < units@.len() ==> crate::strings::lex_less(unit.path@, #[trigger] units@[k].path@),
        decreases p,
    {
        p = p - 1;
    }
    let ghost before = units@;
    let ghost u = unit;
    units.insert(p, unit);
    proof {
        assert forall|a: int, b: int| 0 <= a < b < units@.len() implies !crate::strings::lex_less(units@[b].path@, units@[a].path@) by {
            if b < p {
                assert(units@[a] == before[a] && units@[b] == before[b]);
            } else if b == p {
                assert(units@[a] == before[a] && units@[b] == u);
                if a < p - 1 {
                    lemma_not_less_transitive(before[a].path@, before[p - 1].path@, u.path@);
                }
            } else if a == p {
                assert(units@[b] == before[b - 1]);
                crate::strings::lemma_lex_asymmetric(u.path@, before[b - 1].path@);
            } else if a < p {
                assert(units@[a] == before[a] && units@[b] == before[b - 1]);
            } else {
                assert(units@[a] == before[a - 1] && units@[b] == before[b - 1]);
            }
        }
        assert(units@ == before.insert(p as int, u));
    }
}

fn bound_fact_texts(facts: Vec<crate::normalizer::NormalizedFact>, maximum: usize) -> (r: Vec<crate::normalizer::NormalizedFact>)
    requires
        keyed_sorted(facts@),
    ensures
        keyed_sorted(r@),
        r@.len() == facts@.len(),
        forall|i: int| 0 <= i < r@.len() ==> (#[trigger] r@[i]).fact_id == facts@[i].fact_id
            && r@[i].provider_id == facts@[i].provider_id && r@[i].path == facts@[i].path
            && r@[i].text@ == crate::strings::take_chars(facts@[i].text@, maximum as int),
{
    let ghost all = facts@;
    let total = facts.len();
    let mut rest = facts;
    let mut out: Vec<crate::normalizer::NormalizedFact> = Vec::new();
    let mut i: usize = 0;
    while rest.len() > 0
        invariant
            all.len() == total,
            i <= total,
            rest@ == all.subrange(i as int, total as int),
            out@.len() == i,
            keyed_sorted(all),
            forall|k: int| 0 <= k < i ==> (#[trigger] out@[k]).fact_id == all[k].fact_id
                && out@[k].provider_id == all[k].provider_id && out@[k].path == all[k].path
                && out@[k].text@ == crate::strings::take_chars(all[k].text@, maximum as int),
        decreases rest@.len(),
    {
        let mut f = rest.remove(0);
        assert(f == all[i as int]);
        f.text = bounded(f.text.as_str(), maximum);
        out.push(f);
        assert(rest@ =~= all.subrange(i + 1, total as int));
        i = i + 1;
    }
    proof {
        assert(crate::keyed::keys_of(out@) =~= crate::keyed::keys_of(all)) by {
            assert forall|k: int| 0 <= k < out@.len() implies crate::keyed::keys_of(out@)[k] == crate::keyed::keys_of(all)[k] by {
                assert(out@[k].fact_id == all[k].fact_id);
            }
        }
    }
    out
}

/// How many of `facts` come from `provider`.
pub open spec fn provider_fact_count(facts: Seq<crate::normalizer::NormalizedFact>, provider: Seq<char>) -> nat
    decreases facts.len(),
{
    if facts.len() == 0 {
        0
    } else {
        provider_fact_count(facts.drop_last(), provider) + if facts.last().provider_id@ == provider {
            1nat
        } else {
            0nat
        }
    }
}

proof fn lemma_provider_fact_count_bound(facts: Seq<crate::normalizer::NormalizedFact>, provider: Seq<char>)
    ensures
        provider_fact_count(facts, provider) <= facts.len(),
    decreases facts.len(),
{
    if facts.len() > 0 {
        lemma_provider_fact_count_bound(facts.drop_last(), provider);
    }
}

fn count_provider_facts(facts: &Vec<crate::normalizer::NormalizedFact>, provider: &str) -> (r: usize)
    ensures
        r == provider_fact_count(facts@, provider@),
        r <= facts@.len(),
{
    let mut n: usize = 0;
    let mut i: usize = 0;
    while i < facts.len()
        invariant
            i <= facts@.len(),
            n == provider_fact_count(facts@.take(i as int), provider@),
            n <= i,
        decreases facts@.len() - i,
    {
        proof {
            assert(facts@.take(i + 1).drop_last() =~= facts@.take(i as int));
            lemma_provider_fact_count_bound(facts@.take(i as int), provider@);
        }
        if str_equal(facts[i].provider_id.as_str(), provider) {
            n = n + 1;
        }
        i = i + 1;
    }
    assert(facts@.take(i as int) =~= facts@);
    n
}

impl ImpactAssembly {
    /// Normalises and summarises a processed unit, counts its outcome for
    /// both providers, and records the unit in path order.
    pub fn finish_unit(&mut self, work: UnitWork)
        requires
            old(self).wf(),
            units_by_path(old(self).units@),
        ensures
            final(self).wf(),
            final(self).request == old(self).request,
            units_by_path(final(self).units@),
            final(self).units@.len() == old(self).units@.len() + 1,
            exists|p: int, u: ImpactUnit|
                0 <= p <= old(self).units@.len() && final(self).units@ == #[trigger] old(self).units@.insert(p, u)
                    && u.path@ == work.path@ && u.language@ == work.language@
                    && u.presence == crate::engine::impact_presence_spec(work.presence)
                    && u.syntax_eligible == work.syntax_eligible
                    && u.syntax_status == work.syntax_status && u.text_status == work.text_status
                    && u.parse_quality == work.parse_quality
                    && u.content_bytes == work.content_bytes
                    && u.changed_ranges@ == work.changed_ranges@
                    && unit_records(u, work, old(self).syntax_provider_id@, old(self).text_provider_id@),
            exists|n: NormalizedUnitFacts, u: ImpactUnit|
                #![trigger unit_gains(*old(self), *final(self), work, n, u)]
                final(self).units@.contains(u) && u.path@ == work.path@ && unit_gains(
                    *old(self),
                    *final(self),
                    work,
                    n,
                    u,
                ),
            final(self).syntax_provider_id == old(self).syntax_provider_id,
            final(self).text_provider_id == old(self).text_provider_id,
            final(self).limitations == old(self).limitations,
            final(self).tracker == old(self).tracker,
            final(self).input_sizes == old(self).input_sizes,
    {
        let ghost syntax_id = self.syntax_provider_id@;
        let ghost text_id = self.text_provider_id@;
        let syntax_ref = work.syntax_output.as_ref();
        let text_ref = work.text_output.as_ref();
        let normalized = normalize_unit(
            work.path.as_str(),
            work.language.as_str(),
            self.syntax_provider_id.as_str(),
            self.text_provider_id.as_str(),
            syntax_ref,
            text_ref,
        );
        let ghost n = normalized;
        proof {
            assert(text_facts_of(text_ref) == unit_text_facts(work));
            assert(match syntax_ref {
                Some(s) => Some(*s),
                None => None,
            } == work.syntax_output);
        }
        let facts = bound_fact_texts(normalized.facts, self.request.max_snippet_chars);
        let normalized = NormalizedUnitFacts {
            path: normalized.path,
            changed_symbols: normalized.changed_symbols,
            impact_edges: normalized.impact_edges,
            facts,
        };
        let source_text: Option<String> = match &work.source {
            Some(bytes) => decode_utf8_strict(bytes.as_slice()),
            None => None,
        };
        let source_ref: Option<&str> = match &source_text {
            Some(t) => Some(t.as_str()),
            None => None,
        };
        let summaries = summarize_unit(&normalized, source_ref);
        let ghost ss = summaries@;
        let syntax_facts = count_provider_facts(&normalized.facts, self.syntax_provider_id.as_str());
        let text_facts = count_provider_facts(&normalized.facts, self.text_provider_id.as_str());
        proof {
            lemma_same_providers_same_count(normalized.facts@, n.facts@, syntax_id);
            lemma_same_providers_same_count(normalized.facts@, n.facts@, text_id);
        }
        let ghost syntax_before = self.syntax_stats;
        let ghost text_before = self.text_stats;
        self.syntax_stats.output_facts = self.syntax_stats.output_facts.saturating_add(
            normalized.changed_symbols.len(),
        ).saturating_add(syntax_facts);
        self.text_stats.output_facts = self.text_stats.output_facts.saturating_add(text_facts);
        update_provider_terminal(&mut self.syntax_stats, work.syntax_status);
        update_provider_terminal(&mut self.text_stats, work.text_status);
        self.fact_count = self.fact_count.saturating_add(normalized.facts.len());
        let mut changed_symbol_ids: Vec<String> = Vec::new();
        let mut affected: Vec<String> = Vec::new();
        let mut i: usize = 0;
        while i < normalized.changed_symbols.len()
            invariant
                i <= normalized.changed_symbols@.len(),
                normalized.changed_symbols@ == n.changed_symbols@,
                string_views(changed_symbol_ids@) == keys_of(n.changed_symbols@).take(i as int),
            decreases normalized.changed_symbols@.len() - i,
        {
            let symbol = &normalized.changed_symbols[i];
            let sid = symbol.symbol_id.clone();
            assert(sid@ == normalized.changed_symbols@[i as int].symbol_id@);
            let ghost prev_ids = changed_symbol_ids@;
            changed_symbol_ids.push(sid);
            proof {
                assert(string_views(changed_symbol_ids@) =~= string_views(prev_ids).push(sid@));
                assert(keys_of(n.changed_symbols@)[i as int] == n.changed_symbols@[i as int].symbol_id@);
                assert(string_views(changed_symbol_ids@)[i as int] == n.changed_symbols@[i as int].symbol_id@);
                assert(string_views(changed_symbol_ids@) =~= keys_of(n.changed_symbols@).take(i + 1));
            }
            let mut k: usize = 0;
            let mut overlaps = false;
            while k < work.parse_affected_ranges.len()
                invariant
                    k <= work.parse_affected_ranges@.len(),
                decreases work.parse_affected_ranges@.len() - k,
            {
                if ranges_overlap(&symbol.range, &work.parse_affected_ranges[k]) {
                    overlaps = true;
                }
                k = k + 1;
            }
            if overlaps {
                affected.push(symbol.symbol_id.clone());
            }
            i = i + 1;
        }
        assert(keys_of(n.changed_symbols@).take(i as int) =~= keys_of(n.changed_symbols@));
        let parse_affected_symbol_ids = sort_dedup_ids(affected);
        let ghost symbols_before = self.symbols@;
        let ghost edges_before = self.edges@;
        let ghost summaries_before = self.summaries@;
        insert_all(&mut self.symbols, normalized.changed_symbols);
        insert_all(&mut self.edges, normalized.impact_edges);
        insert_all(&mut self.summaries, summaries);
        let unit_limitation_ids = sort_dedup_ids(work.limitation_ids);
        let mut provider_ids: Vec<String> = Vec::new();
        if work.syntax_eligible || work.syntax_status != UnitStatus::Unsupported {
            provider_ids.push(self.syntax_provider_id.clone());
        }
        if work.source.is_some() && !work.binary {
            provider_ids.push(self.text_provider_id.clone());
        }
        let ghost wanted = provider_ids@;
        let provider_ids = sort_dedup_ids(provider_ids);
        let unit = ImpactUnit {
            manifest_unit_id: work.manifest_unit_id,
            path: work.path,
            language: work.language,
            content_sha256: work.content_sha256,
            content_bytes: work.content_bytes,
            presence: impact_presence(work.presence),
            syntax_eligible: work.syntax_eligible,
            syntax_status: work.syntax_status,
            text_status: work.text_status,
            parse_quality: work.parse_quality,
            provider_ids,
            changed_ranges: work.changed_ranges,
            error_node_count: work.error_node_count,
            missing_node_count: work.missing_node_count,
            parse_affected_ranges: work.parse_affected_ranges,
            parse_affected_symbol_ids,
            changed_symbol_ids,
            limitation_ids: unit_limitation_ids,
        };
        let ghost u = unit;
        proof {
            assert forall|x: Seq<char>| #[trigger] string_views(u.provider_ids@).contains(x) <==> (x == syntax_id && (
                work.syntax_eligible || work.syntax_status != UnitStatus::Unsupported)) || (x == text_id && (work.source is Some
                && !work.binary)) by {
                if string_views(u.provider_ids@).contains(x) {
                    let j = choose|j: int| 0 <= j < string_views(u.provider_ids@).len() && string_views(u.provider_ids@)[j] == x;
                    assert(string_views(wanted).contains(u.provider_ids@[j]@));
                    let w = choose|w: int| 0 <= w < string_views(wanted).len() && string_views(wanted)[w] == x;
                    assert(wanted[w]@ == x);
                }
                if (x == syntax_id && (work.syntax_eligible || work.syntax_status != UnitStatus::Unsupported)) {
                    assert(wanted[0]@ == x);
                    assert(string_views(u.provider_ids@).contains(wanted[0]@));
                } else if x == text_id && (work.source is Some && !work.binary) {
                    assert(wanted[wanted.len() - 1]@ == x);
                    assert(string_views(u.provider_ids@).contains(wanted[wanted.len() - 1]@));
                }
            }
            assert forall|x: Seq<char>| #[trigger] string_views(u.limitation_ids@).contains(x) <==> string_views(work.limitation_ids@).contains(x) by {
                if string_views(u.limitation_ids@).contains(x) {
                    let j = choose|j: int| 0 <= j < string_views(u.limitation_ids@).len() && string_views(u.limitation_ids@)[j] == x;
                    assert(string_views(work.limitation_ids@).contains(u.limitation_ids@[j]@));
                }
                if string_views(work.limitation_ids@).contains(x) {
                    let j = choose|j: int| 0 <= j < string_views(work.limitation_ids@).len() && string_views(work.limitation_ids@)[j] == x;
                    assert(string_views(u.limitation_ids@).contains(work.limitation_ids@[j]@));
                }
            }
            assert forall|i: int|
                0 <= i < n.changed_symbols@.len() && crate::summarizer::is_public_spec((#[trigger] n.changed_symbols@[i]).visibility)
                    implies keys_of(self.summaries@).contains(
                    crate::summarizer::interface_summary_id(work.path@, n.changed_symbols@[i].symbol_id@),
                ) by {
                assert(normalized.changed_symbols@[i] == n.changed_symbols@[i]);
                assert(keys_of(ss).contains(
                    crate::summarizer::interface_summary_id(normalized.path@, normalized.changed_symbols@[i].symbol_id@),
                ));
            }
        }
        insert_unit_by_path(&mut self.units, unit);
        proof {
            let p = choose|p: int| 0 <= p <= old(self).units@.len() && self.units@ == #[trigger] old(self).units@.insert(p, u);
            assert(self.units@ == old(self).units@.insert(p, u));
            assert(self.units@[p] == u);
            assert(self.units@.contains(u));
            assert(unit_gains(*old(self), *self, work, n, u));
        }
    }
}

/// The text facts a unit's text provider produced, if it ran.
pub open spec fn unit_text_facts(work: UnitWork) -> Seq<crate::text_adapter::TextFact> {
    match work.text_output {
        Some(t) => t.facts@,
        None => Seq::empty(),
    }
}

/// The records a finished unit carries over from its work: identity,
/// counts and ranges, its limitations (sorted, each once), and the
/// providers that ran on it (sorted, each once).
pub open spec fn unit_records(u: ImpactUnit, work: UnitWork, syntax_id: Seq<char>, text_id: Seq<char>) -> bool {
    &&& u.manifest_unit_id@ == work.manifest_unit_id@
    &&& crate::integrity::opt_view(u.content_sha256) == crate::integrity::opt_view(work.content_sha256)
    &&& u.error_node_count == work.error_node_count
    &&& u.missing_node_count == work.missing_node_count
    &&& u.parse_affected_ranges@ == work.parse_affected_ranges@
    &&& crate::strings::strictly_ascending(string_views(u.limitation_ids@))
    &&& (forall|x: Seq<char>| #[trigger] string_views(u.limitation_ids@).contains(x) <==> string_views(work.limitation_ids@).contains(x))
    &&& crate::strings::strictly_ascending(string_views(u.provider_ids@))
    &&& (forall|x: Seq<char>| #[trigger] string_views(u.provider_ids@).contains(x) <==> (x == syntax_id && (
        work.syntax_eligible || work.syntax_status != UnitStatus::Unsupported)) || (x == text_id && (work.source is Some
        && !work.binary)))
}

/// `a` saturating-plus `b`.
pub open spec fn sat_add(a: usize, b: int) -> usize {
    if a + b > usize::MAX {
        usize::MAX
    } else {
        (a + b) as usize
    }
}

/// The outcome counters of a provider after one more unit of `status`.
pub open spec fn counted(a: crate::engine::ProviderStats, b: crate::engine::ProviderStats, status: UnitStatus) -> bool {
    &&& b.completed == if status == UnitStatus::Completed { crate::engine::bump(a.completed) } else { a.completed }
    &&& b.partial == if status == UnitStatus::Partial { crate::engine::bump(a.partial) } else { a.partial }
    &&& b.unsupported == if status == UnitStatus::Unsupported { crate::engine::bump(a.unsupported) } else { a.unsupported }
    &&& b.budget_exhausted == if status == UnitStatus::BudgetExhausted { crate::engine::bump(a.budget_exhausted) } else { a.budget_exhausted }
    &&& b.unavailable == if status == UnitStatus::Unavailable { crate::engine::bump(a.unavailable) } else { a.unavailable }
    &&& b.input_files == a.input_files
    &&& b.input_bytes == a.input_bytes
    &&& b.limitation_ids@ == a.limitation_ids@
}

/// What finishing a unit adds to the analysis, given its normalisation
/// `n` and the unit record `u`: the symbols and edges of `n` by
/// identifier, its summaries (among them one per public symbol), its facts
/// counted, the providers' counts, and the unit's symbol identifiers.
pub open spec fn unit_gains(a: ImpactAssembly, b: ImpactAssembly, work: UnitWork, n: NormalizedUnitFacts, u: ImpactUnit) -> bool {
    &&& crate::normalizer::normalization_of(
        n,
        work.path@,
        work.language@,
        a.syntax_provider_id@,
        a.text_provider_id@,
        work.syntax_output,
        unit_text_facts(work),
    )
    &&& b.fact_count == sat_add(a.fact_count, n.facts@.len() as int)
    &&& (forall|k: Seq<char>| #[trigger] keys_of(b.symbols@).contains(k) <==> keys_of(a.symbols@).contains(k)
        || keys_of(n.changed_symbols@).contains(k))
    &&& (forall|k: Seq<char>| #[trigger] keys_of(b.edges@).contains(k) <==> keys_of(a.edges@).contains(k)
        || keys_of(n.impact_edges@).contains(k))
    &&& (forall|k: Seq<char>| #[trigger] keys_of(a.summaries@).contains(k) ==> keys_of(b.summaries@).contains(k))
    &&& (forall|i: int|
        0 <= i < n.changed_symbols@.len() && crate::summarizer::is_public_spec((#[trigger] n.changed_symbols@[i]).visibility)
            ==> keys_of(b.summaries@).contains(crate::summarizer::interface_summary_id(work.path@, n.changed_symbols@[i].symbol_id@)))
    &&& b.syntax_stats.output_facts == sat_add(
        sat_add(a.syntax_stats.output_facts, n.changed_symbols@.len() as int),
        provider_fact_count(n.facts@, a.syntax_provider_id@) as int,
    )
    &&& b.text_stats.output_facts == sat_add(a.text_stats.output_facts, provider_fact_count(n.facts@, a.text_provider_id@) as int)
    &&& counted(a.syntax_stats, b.syntax_stats, work.syntax_status)
    &&& counted(a.text_stats, b.text_stats, work.text_status)
    &&& string_views(u.changed_symbol_ids@) == keys_of(n.changed_symbols@)
}

proof fn lemma_same_providers_same_count(
    a: Seq<crate::normalizer::NormalizedFact>,
    b: Seq<crate::normalizer::NormalizedFact>,
    provider: Seq<char>,
)
    requires
        a.len() == b.len(),
        forall|i: int| 0 <= i < a.len() ==> (#[trigger] a[i]).provider_id == b[i].provider_id,
    ensures
        provider_fact_count(a, provider) == provider_fact_count(b, provider),
    decreases a.len(),
{
    if a.len() > 0 {
        lemma_same_providers_same_count(a.drop_last(), b.drop_last(), provider);
        assert(a.last().provider_id == b.last().provider_id);
    }
}

/// A context has something to show: symbols, edges, summaries or facts.
pub open spec fn usable_spec(a: ImpactAssembly) -> bool {
    a.symbols@.len() > 0 || a.edges@.len() > 0 || a.summaries@.len() > 0 || a.fact_count > 0
}

/// Every unit completed both providers.
pub open spec fn all_units_complete(us: Seq<ImpactUnit>) -> bool {
    forall|i: int|
        0 <= i < us.len() ==> (#[trigger] us[i]).syntax_status == UnitStatus::Completed
            && us[i].text_status == UnitStatus::Completed
}

/// The status of a finished analysis.
pub open spec fn status_spec(usable: bool, units_complete: bool, providers_complete: bool) -> ImpactStatus {
    if usable && units_complete && providers_complete {
        ImpactStatus::Completed
    } else if usable {
        ImpactStatus::Partial
    } else {
        ImpactStatus::Unavailable
    }
}

fn units_complete(us: &Vec<ImpactUnit>) -> (r: bool)
    ensures
        r == all_units_complete(us@),
{
    let mut i: usize = 0;
    while i < us.len()
        invariant
            i <= us@.len(),
            forall|j: int|
                0 <= j < i ==> (#[trigger] us@[j]).syntax_status == UnitStatus::Completed
                    && us@[j].text_status == UnitStatus::Completed,
        decreases us@.len() - i,
    {
        if us[i].syntax_status != UnitStatus::Completed || us[i].text_status != UnitStatus::Completed {
            return false;
        }
        i = i + 1;
    }
    true
}

fn elapsed_millis(tracker: &BudgetTracker) -> u64 {
    let nanos = duration_as_nanos(tracker.elapsed());
    (nanos / 1_000_000) as u64
}

impl ImpactAssembly {
    /// The impact context of the processed units: providers in identifier
    /// order, coverage counted from the units, status from usability and
    /// completion, before any presentation budget.
    pub fn finish(self, scope: ImpactScope) -> (c: ImpactContext)
        requires
            self.wf(),
        ensures
            c.schema_version == 1,
            c.kind@ == "impact_context"@,
            c.scope == scope,
            c.mode == self.request.mode,
            c.units@ == self.units@,
            c.changed_symbols@ == self.symbols@,
            c.impact_edges@ == self.edges@,
            c.domain_summaries@ == self.summaries@,
            c.limitations@ == self.limitations@,
            c.coverage == crate::engine::coverage_of(self.units@),
            c.providers@.len() == 2,
            c.status == status_spec(
                usable_spec(self),
                all_units_complete(self.units@),
                c.providers@[0].status == ProviderStatus::Completed && c.providers@[1].status == ProviderStatus::Completed,
            ),
            c.metrics.edges_emitted == self.edges@.len(),
            c.metrics.summaries_emitted == self.summaries@.len(),
            c.metrics.facts_emitted == self.fact_count,
            c.metrics.nodes_visited == self.nodes_visited,
            c.metrics.max_nesting_depth == self.max_nesting_depth,
            c.metrics.candidate_input_files == self.input_sizes@.len(),
            c.metrics.output_bytes == 0,
    {
        let mut syntax_stats = self.syntax_stats;
        syntax_stats.limitation_ids = sort_dedup_ids(syntax_stats.limitation_ids);
        let mut text_stats = self.text_stats;
        text_stats.limitation_ids = sort_dedup_ids(text_stats.limitation_ids);
        let provider_elapsed_ms = elapsed_millis(&self.tracker);
        let syntax_record = provider_record(
            self.syntax_provider_id.as_str(),
            SYNTAX_PROVIDER_KIND,
            SYNTAX_PROVIDER_VERSION,
            &syntax_stats,
            provider_elapsed_ms,
        );
        let text_record = provider_record(
            self.text_provider_id.as_str(),
            TEXT_PROVIDER_KIND,
            TEXT_PROVIDER_VERSION,
            &text_stats,
            provider_elapsed_ms,
        );
        let mut providers: Vec<ProviderRecord> = Vec::new();
        if str_less(text_record.provider_id.as_str(), syntax_record.provider_id.as_str()) {
            providers.push(text_record);
            providers.push(syntax_record);
        } else {
            providers.push(syntax_record);
            providers.push(text_record);
        }
        let coverage = build_coverage(&self.units);
        let usable = self.symbols.len() > 0 || self.edges.len() > 0 || self.summaries.len() > 0
            || self.fact_count > 0;
        let all_complete = units_complete(&self.units);
        let providers_complete = providers[0].status == ProviderStatus::Completed && providers[1].status
            == ProviderStatus::Completed;
        let status = if usable && all_complete && providers_complete {
            ImpactStatus::Completed
        } else if usable {
            ImpactStatus::Partial
        } else {
            ImpactStatus::Unavailable
        };
        let mut total: usize = 0;
        let mut i: usize = 0;
        while i < self.input_sizes.len()
            invariant
                i <= self.input_sizes@.len(),
            decreases self.input_sizes@.len() - i,
        {
            total = total.wrapping_add(self.input_sizes[i].1);
            i = i + 1;
        }
        let edges_emitted = self.edges.len();
        let summaries_emitted = self.summaries.len();
        let elapsed_ms = elapsed_millis(&self.tracker);
        let candidate_input_files = self.input_sizes.len();
        ImpactContext {
            schema_version: 1,
            kind: String::from_str("impact_context"),
            scope,
            mode: self.request.mode,
            status,
            providers,
            units: self.units,
            changed_symbols: self.symbols,
            impact_edges: self.edges,
            domain_summaries: self.summaries,
            coverage,
            limitations: self.limitations,
            metrics: ImpactMetrics {
                elapsed_ms,
                candidate_input_files,
                candidate_input_bytes: total as u64,
                nodes_visited: self.nodes_visited,
                max_nesting_depth: self.max_nesting_depth,
                facts_emitted: self.fact_count,
                edges_emitted,
                summaries_emitted,
                output_bytes: 0,
            },
        }
    }
}

// ----------------------------------------------------------------------
// Presentation budget
// ----------------------------------------------------------------------
/// The identifier of the output-truncation limitation.
pub open spec fn truncation_id() -> Seq<char> {
    limitation_id_of("output-truncated"@, Seq::empty(), Seq::empty(), Seq::empty())
}

/// Marks the context truncated when its measured size exceeds the budget:
/// sets the coverage flag, downgrades a non-unavailable status to partial
/// and records the truncation limitation in identifier order. Returns
/// whether it did.
pub fn start_truncation(context: &mut ImpactContext, measured: usize, maximum: usize) -> (r: bool)
    requires
        keyed_sorted(old(context).limitations@),
    ensures
        r == (measured > maximum),
        final(context).metrics == (ImpactMetrics { output_bytes: measured, ..old(context).metrics }),
        !r ==> *final(context) == (ImpactContext { metrics: final(context).metrics, ..*old(context) }),
        r ==> final(context).mode == old(context).mode && final(context).scope == old(context).scope
            && final(context).providers == old(context).providers && final(context).kind == old(context).kind
            && final(context).schema_version == old(context).schema_version,
        r ==> final(context).coverage.output_truncated,
        r ==> final(context).status == if old(context).status == ImpactStatus::Unavailable {
            ImpactStatus::Unavailable
        } else {
            ImpactStatus::Partial
        },
        r ==> final(context).limitations@.len() == old(context).limitations@.len() + 1,
        r ==> exists|p: int, l: Limitation|
            0 <= p <= old(context).limitations@.len() && final(context).limitations@ == #[trigger] old(context).limitations@.insert(p, l)
                && l.limitation_id@ == truncation_id() && l.code@ == "output-truncated"@,
        r ==> final(context).units == old(context).units && final(context).impact_edges == old(context).impact_edges
            && final(context).domain_summaries == old(context).domain_summaries
            && final(context).changed_symbols == old(context).changed_symbols,
{
    context.metrics.output_bytes = measured;
    if measured <= maximum {
        return false;
    }
    context.coverage.output_truncated = true;
    if context.status != ImpactStatus::Unavailable {
        context.status = ImpactStatus::Partial;
    }
    let fields: [&str; 4] = ["output-truncated", "", "", ""];
    proof {
        reveal_strlit("");
    }
    assert(""@ =~= Seq::<char>::empty());
    assert(str_views(fields@) =~= seq!["output-truncated"@, Seq::<char>::empty(), Seq::<char>::empty(), Seq::<char>::empty()]);
    let limitation = Limitation {
        limitation_id: stable_id("impact-limitation/v1", &fields),
        code: String::from_str("output-truncated"),
        provider_id: None,
        path: None,
        symbol_id: None,
        reason: String::from_str("Presentation output exceeded the configured byte budget."),
        interpretation: String::from_str("Lower-ranked context was omitted; unit visibility is retained."),
        improvable_in_deep_mode: false,
    };
    let ghost l = limitation;
    let n = context.limitations.len();
    let pos = match crate::keyed::locate(&context.limitations, limitation.limitation_id.as_str()) {
        crate::keyed::Slot::Found(i) => i + 1,
        crate::keyed::Slot::Vacant(p) => p,
    };
    context.limitations.insert(pos, limitation);
    assert(context.limitations@ == old(context).limitations@.insert(pos as int, l));
    true
}

/// Removes `id` from a list of identifiers.
pub open spec fn without_id(v: Seq<String>, id: Seq<char>) -> Seq<String>
    decreases v.len(),
{
    if v.len() == 0 {
        Seq::empty()
    } else {
        let p = without_id(v.drop_last(), id);
        if v.last()@ == id {
            p
        } else {
            p.push(v.last())
        }
    }
}

fn remove_id(v: Vec<String>, id: &str) -> (r: Vec<String>)
    ensures
        r@ == without_id(v@, id@),
{
    let mut out: Vec<String> = Vec::new();
    let mut i: usize = 0;
    while i < v.len()
        invariant
            i <= v@.len(),
            out@ == without_id(v@.take(i as int), id@),
        decreases v@.len() - i,
    {
        assert(v@.take(i + 1).drop_last() =~= v@.take(i as int));
        if !str_equal(v[i].as_str(), id) {
            out.push(v[i].clone());
        }
        i = i + 1;
    }
    assert(v@.take(v@.len() as int) =~= v@);
    out
}

/// The index of the last summary of the highest presentation rank.
pub open spec fn last_top_summary(ds: Seq<DomainSummary>, k: int) -> bool {
    &&& 0 <= k < ds.len()
    &&& forall|j: int| 0 <= j < ds.len() ==> crate::engine::summary_priority_spec(#[trigger] ds[j].summary_kind)
        <= crate::engine::summary_priority_spec(ds[k].summary_kind)
    &&& forall|j: int| k < j < ds.len() ==> crate::engine::summary_priority_spec(#[trigger] ds[j].summary_kind)
        < crate::engine::summary_priority_spec(ds[k].summary_kind)
}

fn top_summary(ds: &Vec<DomainSummary>) -> (k: usize)
    requires
        ds@.len() > 0,
    ensures
        last_top_summary(ds@, k as int),
{
    let mut best: usize = 0;
    let mut best_rank = crate::engine::summary_priority(ds[0].summary_kind);
    let mut i: usize = 1;
    while i < ds.len()
        invariant
            1 <= i <= ds@.len(),
            best < i,
            best_rank == crate::engine::summary_priority_spec(ds@[best as int].summary_kind),
            forall|j: int| 0 <= j < i ==> crate::engine::summary_priority_spec(#[trigger] ds@[j].summary_kind) <= best_rank,
            forall|j: int| best < j < i ==> crate::engine::summary_priority_spec(#[trigger] ds@[j].summary_kind) < best_rank,
        decreases ds@.len() - i,
    {
        let rank = crate::engine::summary_priority(ds[i].summary_kind);
        if rank >= best_rank {
            best = i;
            best_rank = rank;
        }
        i = i + 1;
    }
    best
}

/// One trimming step while the measured size exceeds the budget: drop the
/// last edge; when there is none, the last summary of the highest rank;
/// when there is none, the last symbol, with every reference to it.
/// Returns whether something was dropped.
pub fn truncation_step(context: &mut ImpactContext, measured: usize, maximum: usize) -> (r: bool)
    ensures
        measured <= maximum ==> !r && *final(context) == *old(context),
        r <==> measured > maximum && (old(context).impact_edges@.len() > 0
            || old(context).domain_summaries@.len() > 0 || old(context).changed_symbols@.len() > 0),
        r && old(context).impact_edges@.len() > 0 ==> final(context).impact_edges@ == old(context).impact_edges@.drop_last()
            && final(context).domain_summaries == old(context).domain_summaries
            && final(context).changed_symbols == old(context).changed_symbols,
        r && old(context).impact_edges@.len() == 0 && old(context).domain_summaries@.len() > 0 ==> exists|k: int|
            last_top_summary(old(context).domain_summaries@, k) && final(context).domain_summaries@
                == #[trigger] old(context).domain_summaries@.remove(k),
        r && old(context).impact_edges@.len() == 0 && old(context).domain_summaries@.len() == 0 ==> final(context).changed_symbols@
            == old(context).changed_symbols@.drop_last() && final(context).units@.len() == old(context).units@.len()
            && forall|i: int| 0 <= i < final(context).units@.len() ==> (#[trigger] final(context).units@[i]).changed_symbol_ids@
                == without_id(old(context).units@[i].changed_symbol_ids@, old(context).changed_symbols@.last().symbol_id@),
        final(context).limitations == old(context).limitations,
        final(context).coverage == old(context).coverage,
        final(context).status == old(context).status,
        final(context).metrics == old(context).metrics,
        final(context).mode == old(context).mode,
        final(context).scope == old(context).scope,
        final(context).providers == old(context).providers,
        final(context).kind == old(context).kind,
        final(context).schema_version == old(context).schema_version,
{
    if measured <= maximum {
        return false;
    }
    if context.impact_edges.len() > 0 {
        context.impact_edges.pop();
        return true;
    }
    if context.domain_summaries.len() > 0 {
        let k = top_summary(&context.domain_summaries);
        context.domain_summaries.remove(k);
        return true;
    }
    if context.changed_symbols.len() > 0 {
        let removed = context.changed_symbols.pop().unwrap();
        let id = removed.symbol_id.as_str();
        let ghost before = context.units@;
        let ghost mid = *context;
        assert(before == old(context).units@);
        assert(removed == old(context).changed_symbols@.last());
        let mut units: Vec<ImpactUnit> = Vec::new();
        let total = context.units.len();
        let mut i: usize = 0;
        while context.units.len() > 0
            invariant
                context.limitations == mid.limitations,
                context.metrics == mid.metrics,
                context.mode == mid.mode,
                context.scope == mid.scope,
                context.providers == mid.providers,
                context.kind == mid.kind,
                context.schema_version == mid.schema_version,
                context.coverage == mid.coverage,
                context.status == mid.status,
                context.changed_symbols == mid.changed_symbols,
                context.impact_edges == mid.impact_edges,
                context.domain_summaries == mid.domain_summaries,
                before.len() == total,
                i <= total,
                context.units@ == before.subrange(i as int, total as int),
                units@.len() == i,
                forall|k: int| 0 <= k < i ==> (#[trigger] units@[k]).changed_symbol_ids@ == without_id(before[k].changed_symbol_ids@, id@),
            decreases context.units@.len(),
        {
            let mut unit = context.units.remove(0);
            assert(unit == before[i as int]);
            unit.changed_symbol_ids = remove_id(unit.changed_symbol_ids, id);
            unit.parse_affected_symbol_ids = remove_id(unit.parse_affected_symbol_ids, id);
            units.push(unit);
            assert(context.units@ =~= before.subrange(i + 1, total as int));
            i = i + 1;
        }
        context.units = units;
        return true;
    }
    false
}

/// The trimmed counts of emitted edges and summaries.
pub fn finish_truncation(context: &mut ImpactContext)
    ensures
        final(context).metrics.edges_emitted == final(context).impact_edges@.len(),
        final(context).metrics.summaries_emitted == final(context).domain_summaries@.len(),
        final(context).units == old(context).units,
        final(context).limitations == old(context).limitations,
        final(context).impact_edges == old(context).impact_edges,
        final(context).domain_summaries == old(context).domain_summaries,
        *final(context) == (ImpactContext {
            metrics: ImpactMetrics {
                edges_emitted: old(context).impact_edges@.len() as usize,
                summaries_emitted: old(context).domain_summaries@.len() as usize,
                ..old(context).metrics
            },
            ..*old(context)
        }),
{
    context.metrics.edges_emitted = context.impact_edges.len();
    context.metrics.summaries_emitted = context.domain_summaries.len();
}

/// Returns the context when it is well formed, and otherwise the
/// `impact-context-invalid` error.
pub fn finalize_context(context: ImpactContext) -> (r: Result<ImpactContext, ImpactContextError>)
    ensures
        r is Ok <==> crate::contracts::context_valid(context),
        r matches Ok(c) ==> c == context,
        r matches Err(e) ==> e.code_of() == "impact-context-invalid"@,
{
    match context.validate() {
        Ok(()) => Ok(context),
        Err(e) => {
            let message = e.message();
            Err(ImpactContextError::new("impact-context-invalid", message.as_str()))
        },
    }
}

} // verus!
