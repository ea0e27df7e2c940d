//! Cache maintenance decisions: which stored generations a clean removes,
//! how a doctor's file and byte budgets are charged, and the results these
//! operations report.
use vstd::prelude::*;
use crate::candidate::RepoPath;
use crate::model::{IndexLimitation, IndexMetrics, IndexReportStatus};
use crate::ordering::{
    lemma_ord_text_antisymmetric, ord_int, ord_text, order_text, sorted_by_order, stable_sort,
    CanonicalOrder,
};
use crate::strings::{take_chars, take_prefix_chars};
use crate::traversal::{canonicalize_limitations, lim_view, lim_views};
use crate::integrity::{lemma_same_multiset_same_views, views};

verus! {

/// What `inspect` looks at: a path or a symbol.
#[derive(Debug, Clone, PartialEq, Eq)]
pub enum InspectSelector {
    Path(RepoPath),
    Symbol(String),
}

/// What a cache operation reports.
#[derive(Debug, Clone, PartialEq, Eq)]
pub struct CacheOperationResult {
    pub status: IndexReportStatus,
    pub generation_key: Option<String>,
    pub metrics: IndexMetrics,
    pub limitations: Vec<IndexLimitation>,
}

/// What a clean is asked to do.
#[derive(Debug, Clone, Copy, PartialEq, Eq, Structural)]
pub struct CleanRequest {
    pub execute: bool,
    pub maximum_bytes: usize,
    pub retain_generations: usize,
    pub invalid_only: bool,
}

/// Why a cache operation failed.
#[derive(Debug, Clone, PartialEq, Eq)]
pub struct CacheOperationError {
    pub code: String,
    pub message: String,
}

impl CacheOperationError {
    /// An error with a code and a message.
    pub fn new(code: &str, message: &str) -> (r: Self)
        ensures
            r.code@ == code@,
            r.message@ == message@,
    {
        CacheOperationError { code: String::from_str(code), message: String::from_str(message) }
    }
}

/// Metrics with every count zero.
pub fn empty_metrics() -> (r: IndexMetrics)
    ensures
        r == (IndexMetrics {
            elapsed_ms: 0,
            manifest_files: 0,
            manifest_bytes: 0,
            file_fact_hits: 0,
            file_fact_misses: 0,
            file_fact_writes: 0,
            parsed_files: 0,
            parsed_bytes: 0,
            symbols: 0,
            edges: 0,
            query_rows: 0,
            generation_bytes: 0,
            output_bytes: 0,
        }),
{
    IndexMetrics {
        elapsed_ms: 0,
        manifest_files: 0,
        manifest_bytes: 0,
        file_fact_hits: 0,
        file_fact_misses: 0,
        file_fact_writes: 0,
        parsed_files: 0,
        parsed_bytes: 0,
        symbols: 0,
        edges: 0,
        query_rows: 0,
        generation_bytes: 0,
        output_bytes: 0,
    }
}

/// A maintenance limitation of the whole cache; its reason and
/// interpretation are cut to 1000 characters.
pub fn maintenance_limitation(code: &str, reason: &str, interpretation: &str) -> (r: IndexLimitation)
    ensures
        r.code@ == code@,
        r.path is None,
        r.symbol_id is None,
        r.reason@ == take_chars(reason@, 1000),
        r.interpretation@ == take_chars(interpretation@, 1000),
{
    IndexLimitation {
        code: String::from_str(code),
        path: None,
        symbol_id: None,
        reason: take_prefix_chars(reason, 1000),
        interpretation: take_prefix_chars(interpretation, 1000),
    }
}

/// The result of an operation that stopped with one limitation.
pub fn partial_operation(elapsed_ms: u64, generation_key: Option<String>, code: &str, reason: &str) -> (r: CacheOperationResult)
    ensures
        r.status == IndexReportStatus::Partial,
        r.generation_key == generation_key,
        r.metrics.elapsed_ms == elapsed_ms,
        r.limitations@.len() == 1,
        r.limitations@[0].code@ == code@,
        r.limitations@[0].interpretation@ == take_chars("the immutable generation was not modified"@, 1000),
{
    let mut metrics = empty_metrics();
    metrics.elapsed_ms = elapsed_ms;
    let l = maintenance_limitation(code, reason, "the immutable generation was not modified");
    CacheOperationResult { status: IndexReportStatus::Partial, generation_key, metrics, limitations: vec![l] }
}

/// The result of an operation that found nothing to work on.
pub fn unavailable_operation(elapsed_ms: u64, generation_key: Option<String>, code: &str, reason: &str) -> (r: CacheOperationResult)
    ensures
        r.status == IndexReportStatus::Unavailable,
        r.generation_key == generation_key,
        r.metrics.elapsed_ms == elapsed_ms,
        r.limitations@.len() == 1,
        r.limitations@[0].code@ == code@,
{
    let mut result = partial_operation(elapsed_ms, generation_key, code, reason);
    result.status = IndexReportStatus::Unavailable;
    result
}

/// What charging one more cache entry of `bytes` bytes did.
#[derive(Debug, Clone, Copy, PartialEq, Eq, Structural)]
pub enum PathCharge {
    Charged,
    FilesExhausted,
    BytesExhausted,
}

/// Charges one cache entry against a doctor's file and byte budgets: no
/// more files once the file budget is reached, no entry that would pass
/// the byte budget.
pub fn consume_path_budget(
    bytes: usize,
    maximum_files: usize,
    maximum_bytes: usize,
    consumed_files: &mut usize,
    consumed_bytes: &mut usize,
) -> (r: PathCharge)
    ensures
        *old(consumed_files) >= maximum_files ==> r == PathCharge::FilesExhausted,
        *old(consumed_files) < maximum_files && *old(consumed_bytes) + bytes > maximum_bytes ==> r == PathCharge::BytesExhausted,
        *old(consumed_files) < maximum_files && *old(consumed_bytes) + bytes <= maximum_bytes ==> r == PathCharge::Charged,
        r == PathCharge::Charged ==> *final(consumed_files) == *old(consumed_files) + 1 && *final(consumed_bytes) == *old(consumed_bytes) + bytes,
        r != PathCharge::Charged ==> *final(consumed_files) == *old(consumed_files) && *final(consumed_bytes) == *old(consumed_bytes),
{
    if *consumed_files >= maximum_files {
        return PathCharge::FilesExhausted;
    }
    if bytes > maximum_bytes || *consumed_bytes > maximum_bytes - bytes {
        return PathCharge::BytesExhausted;
    }
    *consumed_files = *consumed_files + 1;
    *consumed_bytes = *consumed_bytes + bytes;
    PathCharge::Charged
}

/// A stored generation that a clean may remove.
#[derive(Debug, Clone, PartialEq, Eq)]
pub struct GenerationCandidate {
    pub key: String,
    pub bytes: usize,
    /// When it was last modified, in nanoseconds since the epoch.
    pub modified: u128,
    /// Whether it fails to open as a valid generation.
    pub invalid: bool,
}

impl CanonicalOrder for GenerationCandidate {
    open spec fn order_of(&self, other: &Self) -> int {
        if self.modified != other.modified {
            ord_int(other.modified as int, self.modified as int)
        } else {
            ord_text(self.key@, other.key@)
        }
    }

    proof fn lemma_antisymmetric(a: &Self, b: &Self) {
        lemma_ord_text_antisymmetric(a.key@, b.key@);
    }

    fn order(&self, other: &Self) -> (r: i8) {
        if self.modified != other.modified {
            if other.modified < self.modified {
                -1
            } else {
                1
            }
        } else {
            order_text(self.key.as_str(), other.key.as_str())
        }
    }
}

fn copy_candidate(c: &GenerationCandidate) -> (r: GenerationCandidate)
    ensures
        r == *c,
{
    GenerationCandidate { key: c.key.clone(), bytes: c.bytes, modified: c.modified, invalid: c.invalid }
}

/// A sum of sizes, saturated at the largest `usize`.
pub open spec fn saturated(n: int) -> int {
    if n > usize::MAX {
        usize::MAX as int
    } else {
        n
    }
}

/// The total size of the first `n` candidates, saturated.
pub open spec fn size_of_first(c: Seq<GenerationCandidate>, n: int) -> int
    decreases n,
{
    if n <= 0 || c.len() == 0 {
        0
    } else if n > c.len() {
        size_of_first(c, c.len() as int)
    } else {
        saturated(size_of_first(c, n - 1) + c[n - 1].bytes)
    }
}

fn total_size(c: &Vec<GenerationCandidate>, n: usize) -> (r: usize)
    ensures
        r == size_of_first(c@, n as int),
{
    let m = if n < c.len() { n } else { c.len() };
    let mut total: usize = 0;
    let mut i: usize = 0;
    while i < m
        invariant
            m <= c@.len(),
            m == if n < c@.len() { n as int } else { c@.len() as int },
            i <= m,
            total == size_of_first(c@, i as int),
        decreases m - i,
    {
        let b = c[i].bytes;
        total = if total > usize::MAX - b { usize::MAX } else { total + b };
        i = i + 1;
    }
    total
}

/// A clean's plan: the keys of the generations to remove, in key order,
/// what it could not achieve, and the size of all candidates.
#[derive(Debug, Clone, PartialEq, Eq)]
pub struct CleanPlan {
    pub selected_keys: Vec<String>,
    pub limitations: Vec<IndexLimitation>,
    pub total_bytes: usize,
}

/// Whether, walking from the oldest, the candidate at `i` is removed: an
/// invalid one when only invalid ones are cleaned; otherwise one past the
/// retained newest while the projected size still passes the target.
pub open spec fn removal_step(c: Seq<GenerationCandidate>, request: CleanRequest, i: int, projected: int) -> bool {
    if request.invalid_only {
        c[i].invalid
    } else {
        i >= request.retain_generations && projected > request.maximum_bytes
    }
}

/// The candidates removed walking from position `i - 1` down to the
/// newest, with `projected` the size still stored.
pub open spec fn clean_walk(c: Seq<GenerationCandidate>, request: CleanRequest, i: int, projected: int) -> Seq<GenerationCandidate>
    decreases i,
{
    if i <= 0 {
        Seq::empty()
    } else if removal_step(c, request, i - 1, projected) {
        seq![c[i - 1]] + clean_walk(c, request, i - 1, if projected > c[i - 1].bytes { projected - c[i - 1].bytes } else { 0 })
    } else {
        clean_walk(c, request, i - 1, projected)
    }
}

/// The keys of candidates.
pub open spec fn candidate_keys(c: Seq<GenerationCandidate>) -> Seq<Seq<char>> {
    Seq::new(c.len(), |i: int| c[i].key@)
}

/// Plans a clean: candidates newest first (then by key); walking from the
/// oldest, each is removed as `removal_step` says, the projected size
/// dropping by its size; the removed are reported by key, in key order.
/// When retained generations alone pass the byte target, a limitation
/// says so.
pub fn plan_clean(candidates: Vec<GenerationCandidate>, request: CleanRequest) -> (r: CleanPlan)
    ensures
        exists|s: Seq<GenerationCandidate>| {
            &&& sorted_by_order(s)
            &&& s.to_multiset() == candidates@.to_multiset()
            &&& r.total_bytes == size_of_first(s, s.len() as int)
            &&& candidate_keys(clean_walk(s, request, s.len() as int, size_of_first(s, s.len() as int))).to_set()
                == views(r.selected_keys@).to_set()
            &&& (r.limitations@.len() == 1 <==> !request.invalid_only && size_of_first(s, request.retain_generations as int) > request.maximum_bytes)
        },
        sorted_by_order(r.selected_keys@),
        r.limitations@.len() <= 1,
        r.limitations@.len() == 1 ==> r.limitations@[0].code@ == "repository-index-clean-retention-prevents-target"@,
        !request.invalid_only && r.total_bytes <= request.maximum_bytes ==> r.selected_keys@.len() == 0,
{
    let sorted = stable_sort(candidates);
    let ghost s = sorted@;
    let total = total_size(&sorted, sorted.len());
    let retained = total_size(&sorted, request.retain_generations);
    let mut projected = total;
    let mut chosen: Vec<String> = Vec::new();
    let mut i = sorted.len();
    let ghost full = clean_walk(s, request, s.len() as int, total as int);
    assert(candidate_keys(Seq::<GenerationCandidate>::empty()) + candidate_keys(clean_walk(s, request, i as int, projected as int)) =~= candidate_keys(full));
    while i > 0
        invariant
            i <= s.len(),
            s == sorted@,
            full == clean_walk(s, request, s.len() as int, total as int),
            views(chosen@) + candidate_keys(clean_walk(s, request, i as int, projected as int)) == candidate_keys(full),
        decreases i,
    {
        i = i - 1;
        let c = &sorted[i];
        let select = if request.invalid_only {
            c.invalid
        } else {
            i >= request.retain_generations && projected > request.maximum_bytes
        };
        let ghost before = views(chosen@);
        let ghost old_projected = projected as int;
        if select {
            projected = if projected > c.bytes { projected - c.bytes } else { 0 };
            chosen.push(c.key.clone());
            proof {
                let rest = clean_walk(s, request, i as int, projected as int);
                assert(clean_walk(s, request, i + 1, old_projected) == seq![s[i as int]] + rest);
                assert(candidate_keys(seq![s[i as int]] + rest) =~= seq![s[i as int].key@] + candidate_keys(rest));
                assert(views(chosen@) =~= before.push(s[i as int].key@));
                assert(views(chosen@) + candidate_keys(rest) =~= before + candidate_keys(seq![s[i as int]] + rest));
            }
        } else {
            proof {
                assert(clean_walk(s, request, i + 1, old_projected) == clean_walk(s, request, i as int, projected as int));
            }
        }
    }
    assert(candidate_keys(clean_walk(s, request, 0, projected as int)) =~= Seq::<Seq<char>>::empty());
    assert(views(chosen@) =~= candidate_keys(full));
    let ghost chosen_seq = chosen@;
    let by_key = stable_sort(chosen);
    proof {
        lemma_same_multiset_same_views(by_key@, chosen_seq);
    }
    proof {
        if !request.invalid_only && total <= request.maximum_bytes {
            crate::laws::law_clean_within_target_removes_nothing(s, request, s.len() as int, total as int);
            assert(candidate_keys(full).len() == 0);
            assert(views(chosen_seq).len() == chosen_seq.len());
            vstd::seq_lib::to_multiset_len(chosen_seq);
            vstd::seq_lib::to_multiset_len(by_key@);
        }
    }
    let mut limitations: Vec<IndexLimitation> = Vec::new();
    if !request.invalid_only && retained > request.maximum_bytes {
        limitations.push(maintenance_limitation(
            "repository-index-clean-retention-prevents-target",
            "retained generations exceed the requested maximum byte target",
            "reduce --retain-generations or increase --max-bytes",
        ));
    }
    CleanPlan { selected_keys: by_key, limitations, total_bytes: total }
}

/// The status of a finished clean: completed when nothing was left
/// undone.
pub fn clean_status(limitations: &Vec<IndexLimitation>) -> (r: IndexReportStatus)
    ensures
        r == (if limitations@.len() == 0 { IndexReportStatus::Completed } else { IndexReportStatus::Partial }),
{
    if limitations.len() == 0 {
        IndexReportStatus::Completed
    } else {
        IndexReportStatus::Partial
    }
}

/// Limitations in canonical order, repeats dropped.
pub fn sort_limitations(limitations: Vec<IndexLimitation>) -> (r: Vec<IndexLimitation>)
    ensures
        sorted_by_order(r@),
        lim_views(r@).to_set() == lim_views(limitations@).to_set(),
{
    canonicalize_limitations(limitations)
}

} // verus!
