//! The decisions of the repository-index provider: its identity, the
//! checks on a request, how stored-graph lookups and omissions become
//! limitations, how changed symbols seed a traversal, and how the
//! provider's status is judged.
use vstd::prelude::*;
use crate::cache::CacheLayout;
use crate::candidate::RepoPath;
use crate::contracts::{
    ChangedSymbol, Completeness, DomainSummary, ImpactEdge, ImpactMode, Limitation, ProviderRecord,
    ProviderStatus, SourceRange,
};
use crate::digest::{stable_id, stable_id_spec, str_views};
use crate::engine::{ranges_overlap, ranges_overlap_spec};
use crate::generation::ReaderLimits;
use crate::graph::{GraphEdge, GraphSymbol};
use crate::index_budget::IndexBudget;
use crate::integrity::{opt_text_equal, opt_view, views};
use crate::keyed::{insert_absent, keyed_sorted, keys_of, Keyed};
use crate::model::{key_less, limitation_key, limitation_less, IndexLimitation, IndexMetrics, RepositoryManifest};
use crate::ordering::{
    lemma_ord_text_antisymmetric, ord_text, order_text, stable_sort, sorted_by_order,
    CanonicalOrder,
};
use crate::review_scope::ReviewSource;
use crate::strings::{has_suffix, lemma_lex_asymmetric, lex_less, str_ends_with, str_equal};

verus! {

/// The repository-index provider over one cache layout.
#[derive(Debug, Clone)]
pub struct RepositoryIndexAdapter {
    layout: CacheLayout,
}

impl RepositoryIndexAdapter {
    pub closed spec fn spec_layout(&self) -> CacheLayout {
        self.layout
    }

    /// A provider over `layout`.
    pub fn new(layout: CacheLayout) -> (r: Self)
        ensures
            r.spec_layout() == layout,
    {
        RepositoryIndexAdapter { layout }
    }

    /// The layout the provider uses.
    pub fn layout(&self) -> (r: &CacheLayout)
        ensures
            *r == self.spec_layout(),
    {
        &self.layout
    }
}

/// What the provider is asked: the changed symbols, the mode, whether the
/// cache may be read and written, the budget, and where the candidate and
/// the repository manifest come from.
#[derive(Debug, Clone, PartialEq, Eq)]
pub struct RepositoryIndexRequest {
    pub changed_symbols: Vec<ChangedSymbol>,
    pub mode: ImpactMode,
    pub cache_read: bool,
    pub cache_write: bool,
    pub index_budget: IndexBudget,
    pub candidate_source: ReviewSource,
    pub manifest_source: ReviewSource,
}

/// What the provider answers.
#[derive(Debug, Clone, PartialEq, Eq)]
pub struct RepositoryIndexOutput {
    pub generation_key: String,
    pub provider: ProviderRecord,
    pub symbols: Vec<ChangedSymbol>,
    pub edges: Vec<ImpactEdge>,
    pub domain_summaries: Vec<DomainSummary>,
    pub index_completeness: Completeness,
    pub query_completeness: Completeness,
    pub reached_depth: usize,
    pub output_truncated: bool,
    pub limitations: Vec<Limitation>,
    pub metrics: IndexMetrics,
}

/// Why the provider could not answer.
#[derive(Debug, Clone, PartialEq, Eq)]
pub struct RepositoryIndexError {
    pub code: String,
    pub message: String,
}

impl RepositoryIndexError {
    /// An error with a code and a message.
    pub fn new(code: &str, message: &str) -> (r: Self)
        ensures
            r.code@ == code@,
            r.message@ == message@,
    {
        RepositoryIndexError { code: String::from_str(code), message: String::from_str(message) }
    }
}

/// A request is refused when a fast collection would write the cache, or
/// when the candidate and the manifest come from different sources.
pub fn validate_request(request: &RepositoryIndexRequest) -> (r: Result<(), RepositoryIndexError>)
    ensures
        r is Ok <==> !(request.mode == ImpactMode::Fast && request.cache_write) && request.candidate_source
            == request.manifest_source,
        request.mode == ImpactMode::Fast && request.cache_write ==> (r matches Err(e) && e.code@
            == "repository-index-fast-write-forbidden"@),
        !(request.mode == ImpactMode::Fast && request.cache_write) && request.candidate_source
            != request.manifest_source ==> (r matches Err(e) && e.code@ == "repository-index-source-mismatch"@),
{
    if request.mode == ImpactMode::Fast && request.cache_write {
        return Err(RepositoryIndexError::new(
            "repository-index-fast-write-forbidden",
            "Fast repository index collection cannot write cache state",
        ));
    }
    if request.candidate_source != request.manifest_source {
        return Err(RepositoryIndexError::new(
            "repository-index-source-mismatch",
            "candidate and repository manifest sources differ",
        ));
    }
    Ok(())
}

/// The provider's id: a stable id over its kind and version.
pub fn repository_index_provider_id() -> (r: String)
    ensures
        r@ == stable_id_spec("impact-provider/v1"@, seq!["repository-index"@, "repository-index/g1-r1-q1-n1"@]),
        crate::strings::is_hex_of_len(r@, 16),
{
    let fields: [&str; 2] = ["repository-index", "repository-index/g1-r1-q1-n1"];
    let r = stable_id("impact-provider/v1", &fields);
    assert(str_views(fields@) =~= seq!["repository-index"@, "repository-index/g1-r1-q1-n1"@]);
    r
}

/// A limitation of the whole index, with no path or symbol.
pub fn simple_index_limitation(code: &str, detail: &str) -> (r: IndexLimitation)
    ensures
        r.code@ == code@,
        r.path is None,
        r.symbol_id is None,
        r.reason@ == detail@,
        r.interpretation@ == "repository graph evidence is incomplete or unavailable"@,
{
    IndexLimitation {
        code: String::from_str(code),
        path: None,
        symbol_id: None,
        reason: String::from_str(detail),
        interpretation: String::from_str("repository graph evidence is incomplete or unavailable"),
    }
}

/// The weaker of two completenesses: unavailable over partial over
/// complete.
pub open spec fn merge_completeness_spec(left: Completeness, right: Completeness) -> Completeness {
    if left == Completeness::Unavailable || right == Completeness::Unavailable {
        Completeness::Unavailable
    } else if left == Completeness::Partial || right == Completeness::Partial {
        Completeness::Partial
    } else {
        Completeness::Complete
    }
}

/// The weaker of two completenesses.
pub fn merge_completeness(left: Completeness, right: Completeness) -> (r: Completeness)
    ensures
        r == merge_completeness_spec(left, right),
{
    match (left, right) {
        (Completeness::Unavailable, _) | (_, Completeness::Unavailable) => Completeness::Unavailable,
        (Completeness::Partial, _) | (_, Completeness::Partial) => Completeness::Partial,
        (Completeness::Complete, Completeness::Complete) => Completeness::Complete,
    }
}

/// Some limitation reports an exhausted budget.
pub open spec fn any_budget_exhausted(ls: Seq<IndexLimitation>) -> bool {
    exists|i: int| 0 <= i < ls.len() && has_suffix((#[trigger] ls[i]).code@, "budget-exhausted"@)
}

/// The provider's status: budget-exhausted when any limitation says so,
/// completed when index and query are complete and nothing was cut,
/// partial otherwise.
pub open spec fn index_status_spec(index: Completeness, query: Completeness, truncated: bool, ls: Seq<IndexLimitation>) -> ProviderStatus {
    if any_budget_exhausted(ls) {
        ProviderStatus::BudgetExhausted
    } else if index == Completeness::Complete && query == Completeness::Complete && !truncated {
        ProviderStatus::Completed
    } else {
        ProviderStatus::Partial
    }
}

/// The provider's status after a query.
pub fn index_provider_status(
    index: Completeness,
    query: Completeness,
    output_truncated: bool,
    limitations: &Vec<IndexLimitation>,
) -> (r: ProviderStatus)
    ensures
        r == index_status_spec(index, query, output_truncated, limitations@),
{
    let mut i: usize = 0;
    while i < limitations.len()
        invariant
            i <= limitations@.len(),
            forall|k: int| 0 <= k < i ==> !has_suffix((#[trigger] limitations@[k]).code@, "budget-exhausted"@),
        decreases limitations@.len() - i,
    {
        if str_ends_with(limitations[i].code.as_str(), "budget-exhausted") {
            return ProviderStatus::BudgetExhausted;
        }
        i = i + 1;
    }
    if index == Completeness::Complete && query == Completeness::Complete && !output_truncated {
        ProviderStatus::Completed
    } else {
        ProviderStatus::Partial
    }
}

/// The limitation of the impact context that an index limitation becomes.
pub open spec fn impact_limitation_of(provider_id: Seq<char>, l: IndexLimitation) -> (Seq<char>, Seq<char>) {
    (
        stable_id_spec(
            "impact-limitation/v1"@,
            seq![
                l.code@,
                provider_id,
                match l.path {
                    Some(p) => p@,
                    None => Seq::empty(),
                },
                match l.symbol_id {
                    Some(s) => s@,
                    None => Seq::empty(),
                },
                l.reason@,
                l.interpretation@,
            ],
        ),
        l.code@,
    )
}

/// The limitation of the impact context for one index limitation.
pub fn impact_limitation(provider_id: &str, l: &IndexLimitation) -> (r: Limitation)
    ensures
        (r.limitation_id@, r.code@) == impact_limitation_of(provider_id@, *l),
        r.provider_id matches Some(p) && p@ == provider_id@,
        opt_view(r.path) == match l.path {
            Some(p) => Some(p@),
            None => None,
        },
        opt_view(r.symbol_id) == opt_view(l.symbol_id),
        r.reason@ == l.reason@,
        r.interpretation@ == l.interpretation@,
        r.improvable_in_deep_mode,
{
    let path: &str = match &l.path {
        Some(p) => p.as_str(),
        None => "",
    };
    let symbol: &str = match &l.symbol_id {
        Some(s) => s.as_str(),
        None => "",
    };
    proof {
        reveal_strlit("");
        assert(""@ =~= Seq::<char>::empty());
    }
    let fields: [&str; 6] = [l.code.as_str(), provider_id, path, symbol, l.reason.as_str(), l.interpretation.as_str()];
    let limitation_id = stable_id("impact-limitation/v1", &fields);
    proof {
        let expected = impact_limitation_of(provider_id@, *l);
        assert(str_views(fields@) =~= seq![
            l.code@,
            provider_id@,
            match l.path {
                Some(p) => p@,
                None => Seq::empty(),
            },
            match l.symbol_id {
                Some(s) => s@,
                None => Seq::empty(),
            },
            l.reason@,
            l.interpretation@,
        ]);
    }
    Limitation {
        limitation_id,
        code: l.code.clone(),
        provider_id: Some(String::from_str(provider_id)),
        path: match &l.path {
            Some(p) => Some(String::from_str(p.as_str())),
            None => None,
        },
        symbol_id: match &l.symbol_id {
            Some(s) => Some(s.clone()),
            None => None,
        },
        reason: l.reason.clone(),
        interpretation: l.interpretation.clone(),
        improvable_in_deep_mode: true,
    }
}

/// `l` is the impact limitation of one of `ls`, by id and code.
pub open spec fn comes_from(provider_id: Seq<char>, ls: Seq<IndexLimitation>, l: Limitation) -> bool {
    exists|i: int| 0 <= i < ls.len() && (l.limitation_id@, l.code@) == impact_limitation_of(provider_id, #[trigger] ls[i])
}

/// The index limitations as limitations of the impact context: sorted by
/// id, each id once (the first limitation with it wins).
pub fn impact_limitations(provider_id: &str, limitations: &Vec<IndexLimitation>) -> (r: Vec<Limitation>)
    ensures
        keyed_sorted(r@),
        forall|i: int| 0 <= i < limitations@.len() ==> keys_of(r@).contains(
            (#[trigger] impact_limitation_of(provider_id@, limitations@[i])).0,
        ),
        forall|j: int| 0 <= j < r@.len() ==> comes_from(provider_id@, limitations@, #[trigger] r@[j]),
{
    let mut out: Vec<Limitation> = Vec::new();
    let mut i: usize = 0;
    while i < limitations.len()
        invariant
            i <= limitations@.len(),
            keyed_sorted(out@),
            forall|k: int| 0 <= k < i ==> keys_of(out@).contains(
                (#[trigger] impact_limitation_of(provider_id@, limitations@[k])).0,
            ),
            forall|j: int| 0 <= j < out@.len() ==> exists|k: int| 0 <= k < i && (
                (#[trigger] out@[j]).limitation_id@, out@[j].code@) == impact_limitation_of(provider_id@, limitations@[k]),
        decreases limitations@.len() - i,
    {
        let item = impact_limitation(provider_id, &limitations[i]);
        let ghost before = out@;
        insert_absent(&mut out, item);
        proof {
            assert forall|j: int| 0 <= j < out@.len() implies exists|k: int| 0 <= k < i + 1 && (
                (#[trigger] out@[j]).limitation_id@, out@[j].code@) == impact_limitation_of(provider_id@, limitations@[k]) by {
                if out@[j] == item {
                    assert((out@[j].limitation_id@, out@[j].code@) == impact_limitation_of(provider_id@, limitations@[i as int]));
                } else {
                    assert(before.contains(out@[j]));
                    let w = choose|w: int| 0 <= w < before.len() && before[w] == out@[j];
                    let k = choose|k: int| 0 <= k < i && (before[w].limitation_id@, before[w].code@) == impact_limitation_of(provider_id@, limitations@[k]);
                    assert((out@[j].limitation_id@, out@[j].code@) == impact_limitation_of(provider_id@, limitations@[k]));
                }
            }
        }
        i = i + 1;
    }
    proof {
        assert forall|j: int| 0 <= j < out@.len() implies comes_from(provider_id@, limitations@, #[trigger] out@[j]) by {
            let k = choose|k: int| 0 <= k < i && (out@[j].limitation_id@, out@[j].code@) == impact_limitation_of(provider_id@, limitations@[k]);
            assert(0 <= k < limitations@.len());
        }
    }
    out
}

/// The reader limits a budget allows: its generation bytes, at least one
/// row per query, and 4096-byte strings.
pub fn reader_limits(budget: &IndexBudget) -> (r: ReaderLimits)
    ensures
        r.maximum_database_bytes == budget.max_generation_bytes,
        r.maximum_rows_per_query == if budget.max_query_rows < 1 { 1 } else { budget.max_query_rows },
        r.maximum_string_bytes == 4096,
{
    ReaderLimits {
        maximum_database_bytes: budget.max_generation_bytes as u64,
        maximum_rows_per_query: if budget.max_query_rows < 1 { 1 } else { budget.max_query_rows },
        maximum_string_bytes: 4096,
    }
}

/// The content bytes of the manifest's entries, absent ones counting zero.
pub open spec fn manifest_bytes_from(m: RepositoryManifest, i: int) -> int
    decreases m.entries@.len() - i,
{
    if i < 0 || i >= m.entries@.len() {
        0
    } else {
        (match m.entries@[i].content_bytes {
            Some(b) => b as int,
            None => 0,
        }) + manifest_bytes_from(m, i + 1)
    }
}

/// The total content bytes of a manifest.
pub fn manifest_input_bytes(manifest: &RepositoryManifest) -> (r: u64)
    requires
        manifest_bytes_from(*manifest, 0) <= u64::MAX,
    ensures
        r == manifest_bytes_from(*manifest, 0),
{
    let n = manifest.entries.len();
    let mut total: u64 = 0;
    let mut i: usize = n;
    proof {
        assert(manifest_bytes_from(*manifest, n as int) == 0);
    }
    while i > 0
        invariant
            n == manifest.entries@.len(),
            i <= n,
            total == manifest_bytes_from(*manifest, i as int),
            manifest_bytes_from(*manifest, 0) <= u64::MAX,
        decreases i,
    {
        proof {
            lemma_manifest_bytes_monotone(*manifest, 0, (i - 1) as int);
        }
        let add: u64 = match manifest.entries[i - 1].content_bytes {
            Some(b) => b as u64,
            None => 0,
        };
        total = total + add;
        i = i - 1;
    }
    total
}

proof fn lemma_manifest_bytes_monotone(m: RepositoryManifest, i: int, j: int)
    requires
        0 <= i <= j,
    ensures
        manifest_bytes_from(m, j) <= manifest_bytes_from(m, i),
    decreases j - i,
{
    if i < j {
        lemma_manifest_bytes_monotone(m, i + 1, j);
    }
}

/// Two limitations with the same texts and scope.
pub open spec fn same_limitation(a: IndexLimitation, b: IndexLimitation) -> bool {
    limitation_key(a) == limitation_key(b) && (a.path is Some) == (b.path is Some) && (a.symbol_id is Some)
        == (b.symbol_id is Some)
}

fn opt_path_equal(a: &Option<RepoPath>, b: &Option<RepoPath>) -> (r: bool)
    ensures
        r == ((a is Some) == (b is Some) && (a matches Some(x) ==> x@ == b->0@)),
{
    match (a, b) {
        (Some(x), Some(y)) => str_equal(x.as_str(), y.as_str()),
        (None, None) => true,
        _ => false,
    }
}

/// Whether two limitations are the same.
pub fn limitations_equal(a: &IndexLimitation, b: &IndexLimitation) -> (r: bool)
    ensures
        r == same_limitation(*a, *b),
{
    let r = str_equal(a.code.as_str(), b.code.as_str()) && opt_path_equal(&a.path, &b.path)
        && opt_text_equal(&a.symbol_id, &b.symbol_id) && str_equal(a.reason.as_str(), b.reason.as_str())
        && str_equal(a.interpretation.as_str(), b.interpretation.as_str());
    proof {
        let ka = limitation_key(*a);
        let kb = limitation_key(*b);
        if r {
            assert(ka =~= kb);
        } else if ka == kb && (a.path is Some) == (b.path is Some) && (a.symbol_id is Some) == (b.symbol_id is Some) {
            assert(ka[0] == kb[0] && ka[1] == kb[1] && ka[2] == kb[2] && ka[3] == kb[3] && ka[4] == kb[4]);
        }
    }
    r
}

/// A copy of a limitation.
pub fn copy_limitation(l: &IndexLimitation) -> (r: IndexLimitation)
    ensures
        same_limitation(r, *l),
        r.code@ == l.code@,
        r.reason@ == l.reason@,
        r.interpretation@ == l.interpretation@,
        opt_view(r.symbol_id) == opt_view(l.symbol_id),
        (r.path is Some) == (l.path is Some) && (r.path matches Some(p) ==> p@ == l.path->0@),
{
    let r = IndexLimitation {
        code: l.code.clone(),
        path: match &l.path {
            Some(p) => Some(p.duplicate()),
            None => None,
        },
        symbol_id: match &l.symbol_id {
            Some(s) => Some(s.clone()),
            None => None,
        },
        reason: l.reason.clone(),
        interpretation: l.interpretation.clone(),
    };
    assert(limitation_key(r) =~= limitation_key(*l));
    r
}

/// A limitation that names a path or a symbol.
pub open spec fn scoped(l: IndexLimitation) -> bool {
    l.path is Some || l.symbol_id is Some
}

/// Some limitation of `ls` is the same as `l`.
pub open spec fn holds_limitation(ls: Seq<IndexLimitation>, l: IndexLimitation) -> bool {
    exists|i: int| 0 <= i < ls.len() && same_limitation(#[trigger] ls[i], l)
}

fn contains_limitation(ls: &Vec<IndexLimitation>, l: &IndexLimitation) -> (r: bool)
    ensures
        r == holds_limitation(ls@, *l),
{
    let mut i: usize = 0;
    while i < ls.len()
        invariant
            i <= ls@.len(),
            forall|k: int| 0 <= k < i ==> !same_limitation(#[trigger] ls@[k], *l),
        decreases ls@.len() - i,
    {
        if limitations_equal(&ls[i], l) {
            return true;
        }
        i = i + 1;
    }
    false
}

impl CanonicalOrder for IndexLimitation {
    open spec fn order_of(&self, other: &Self) -> int {
        if key_less(limitation_key(*self), limitation_key(*other)) {
            -1
        } else if key_less(limitation_key(*other), limitation_key(*self)) {
            1
        } else {
            0
        }
    }

    proof fn lemma_antisymmetric(a: &Self, b: &Self) {
        lemma_key_less_asymmetric(limitation_key(*a), limitation_key(*b));
    }

    fn order(&self, other: &Self) -> (r: i8) {
        if limitation_less(self, other) {
            -1
        } else if limitation_less(other, self) {
            1
        } else {
            0
        }
    }
}

/// No key sorts strictly before another and after it.
pub proof fn lemma_key_less_asymmetric(a: Seq<Seq<char>>, b: Seq<Seq<char>>)
    ensures
        !(key_less(a, b) && key_less(b, a)),
    decreases a.len(),
{
    if a.len() > 0 && b.len() > 0 {
        if lex_less(a[0], b[0]) {
            lemma_lex_asymmetric(a[0], b[0]);
        } else if lex_less(b[0], a[0]) {
            lemma_lex_asymmetric(b[0], a[0]);
        } else if a[0] == b[0] {
            lemma_key_less_asymmetric(a.drop_first(), b.drop_first());
        }
    }
}

/// The manifest's scoped limitations that the graph lacks, added in order.
pub open spec fn with_manifest_scoped(graph: Seq<IndexLimitation>, manifest: Seq<IndexLimitation>) -> Seq<IndexLimitation>
    decreases manifest.len(),
{
    if manifest.len() == 0 {
        graph
    } else {
        let before = with_manifest_scoped(graph, manifest.drop_last());
        let l = manifest.last();
        if scoped(l) && !holds_limitation(before, l) {
            before.push(l)
        } else {
            before
        }
    }
}

/// The omission a partial graph needs when none of its limitations is
/// scoped.
pub open spec fn partial_omission_needed(ls: Seq<IndexLimitation>, completeness: Completeness) -> bool {
    completeness == Completeness::Partial && !(exists|i: int| 0 <= i < ls.len() && scoped(#[trigger] ls[i]))
}

fn any_scoped(ls: &Vec<IndexLimitation>) -> (r: bool)
    ensures
        r == exists|i: int| 0 <= i < ls@.len() && scoped(#[trigger] ls@[i]),
{
    let mut i: usize = 0;
    while i < ls.len()
        invariant
            i <= ls@.len(),
            forall|k: int| 0 <= k < i ==> !scoped(#[trigger] ls@[k]),
        decreases ls@.len() - i,
    {
        if ls[i].path.is_some() || ls[i].symbol_id.is_some() {
            assert(scoped(ls@[i as int]));
            return true;
        }
        i = i + 1;
    }
    false
}

/// The limitations a resolved graph is stored with: its own, then the
/// manifest's scoped limitations it lacks, then (for a partial graph with
/// none scoped) an omission at `fallback_path`, all sorted by code, path,
/// symbol, reason and interpretation.
pub fn finish_graph_limitations(
    graph_limitations: Vec<IndexLimitation>,
    manifest_limitations: Vec<IndexLimitation>,
    completeness: Completeness,
    fallback_path: Option<RepoPath>,
) -> (r: Vec<IndexLimitation>)
    ensures
        sorted_by_order(r@),
        ({
            let merged = with_manifest_scoped(graph_limitations@, manifest_limitations@);
            if partial_omission_needed(merged, completeness) {
                exists|l: IndexLimitation| r@.to_multiset() == merged.push(l).to_multiset()
                    && l.code@ == "repository-index-partial-omission"@ && l.symbol_id is None
                    && opt_path(l.path) == opt_path(fallback_path)
            } else {
                r@.to_multiset() == merged.to_multiset()
            }
        }),
{
    let ghost all = manifest_limitations@;
    let ghost start = graph_limitations@;
    let mut ls = graph_limitations;
    let mut rest = manifest_limitations;
    let mut i: usize = 0;
    let total = rest.len();
    assert(all.take(0) =~= Seq::<IndexLimitation>::empty());
    while rest.len() > 0
        invariant
            i + rest@.len() == total,
            total == all.len(),
            rest@ == all.subrange(i as int, total as int),
            ls@ == with_manifest_scoped(start, all.take(i as int)),
        decreases rest@.len(),
    {
        let l = rest.remove(0);
        proof {
            assert(l == all[i as int]);
            assert(all.take(i + 1).drop_last() =~= all.take(i as int));
            assert(all.take(i + 1).last() == l);
            assert(rest@ =~= all.subrange(i + 1, total as int));
        }
        if (l.path.is_some() || l.symbol_id.is_some()) && !contains_limitation(&ls, &l) {
            ls.push(l);
        }
        i = i + 1;
    }
    assert(all.take(total as int) =~= all);
    let ghost merged = ls@;
    if completeness == Completeness::Partial && !any_scoped(&ls) {
        let omission = IndexLimitation {
            code: String::from_str("repository-index-partial-omission"),
            path: fallback_path,
            symbol_id: None,
            reason: String::from_str("the passive project model or resolver reported a partial graph"),
            interpretation: String::from_str("relationships under the scoped manifest may be incomplete"),
        };
        ls.push(omission);
        let sorted = stable_sort(ls);
        assert(sorted@.to_multiset() == merged.push(omission).to_multiset());
        sorted
    } else {
        stable_sort(ls)
    }
}

/// The text of an optional path.
pub open spec fn opt_path(p: Option<RepoPath>) -> Option<Seq<char>> {
    match p {
        Some(x) => Some(x@),
        None => None,
    }
}

/// A graph symbol that a changed symbol seeds: same name and language,
/// overlapping range.
pub open spec fn seed_matches(s: GraphSymbol, changed: ChangedSymbol) -> bool {
    s.name@ == changed.name@ && s.language@ == changed.language@ && ranges_overlap_spec(s.range, changed.range)
}

/// The symbols among `c` that `changed` seeds, in order.
pub open spec fn seeds_of(c: Seq<GraphSymbol>, changed: ChangedSymbol) -> Seq<GraphSymbol>
    decreases c.len(),
{
    if c.len() == 0 {
        Seq::empty()
    } else if seed_matches(c.last(), changed) {
        seeds_of(c.drop_last(), changed).push(c.last())
    } else {
        seeds_of(c.drop_last(), changed)
    }
}

impl CanonicalOrder for GraphSymbol {
    open spec fn order_of(&self, other: &Self) -> int {
        ord_text(self.symbol_id@, other.symbol_id@)
    }

    proof fn lemma_antisymmetric(a: &Self, b: &Self) {
        lemma_ord_text_antisymmetric(a.symbol_id@, b.symbol_id@);
    }

    fn order(&self, other: &Self) -> (r: i8) {
        order_text(self.symbol_id.as_str(), other.symbol_id.as_str())
    }
}

/// The graph symbols a changed symbol seeds a traversal from, sorted by id.
pub fn matching_seeds(candidates: Vec<GraphSymbol>, changed: &ChangedSymbol) -> (r: Vec<GraphSymbol>)
    ensures
        sorted_by_order(r@),
        r@.to_multiset() == seeds_of(candidates@, *changed).to_multiset(),
{
    let ghost all = candidates@;
    let total = candidates.len();
    let mut rest = candidates;
    let mut kept: Vec<GraphSymbol> = Vec::new();
    let mut i: usize = 0;
    while rest.len() > 0
        invariant
            i + rest@.len() == total,
            total == all.len(),
            rest@ == all.subrange(i as int, total as int),
            kept@ == seeds_of(all.take(i as int), *changed),
        decreases rest@.len(),
    {
        let s = rest.remove(0);
        proof {
            assert(s == all[i as int]);
            assert(all.take(i + 1).drop_last() =~= all.take(i as int));
            assert(all.take(i + 1).last() == s);
            assert(rest@ =~= all.subrange(i + 1, total as int));
        }
        if str_equal(s.name.as_str(), changed.name.as_str()) && str_equal(s.language.as_str(), changed.language.as_str())
            && ranges_overlap(&s.range, &changed.range) {
            kept.push(s);
        }
        i = i + 1;
    }
    assert(all.take(total as int) =~= all);
    stable_sort(kept)
}

/// An edge whose ends are among the known symbols.
pub open spec fn edge_known(e: GraphEdge, known: Seq<Seq<char>>) -> bool {
    known.contains(e.from_symbol@) && (e.to_symbol matches Some(t) ==> known.contains(t@))
}

/// The edges of `e` whose ends are known, in order.
pub open spec fn known_edges(e: Seq<GraphEdge>, known: Seq<Seq<char>>) -> Seq<GraphEdge>
    decreases e.len(),
{
    if e.len() == 0 {
        Seq::empty()
    } else if edge_known(e.last(), known) {
        known_edges(e.drop_last(), known).push(e.last())
    } else {
        known_edges(e.drop_last(), known)
    }
}

fn text_in(known: &Vec<String>, value: &str) -> (r: bool)
    ensures
        r == views(known@).contains(value@),
{
    let mut i: usize = 0;
    while i < known.len()
        invariant
            i <= known@.len(),
            forall|k: int| 0 <= k < i ==> views(known@)[k] != value@,
        decreases known@.len() - i,
    {
        if str_equal(known[i].as_str(), value) {
            assert(views(known@)[i as int] == value@);
            return true;
        }
        i = i + 1;
    }
    false
}

/// The edges whose ends are all among the known symbol ids, in order.
pub fn retain_known_edges(edges: Vec<GraphEdge>, known: &Vec<String>) -> (r: Vec<GraphEdge>)
    ensures
        r@ == known_edges(edges@, views(known@)),
{
    let ghost all = edges@;
    let total = edges.len();
    let mut rest = edges;
    let mut kept: Vec<GraphEdge> = Vec::new();
    let mut i: usize = 0;
    while rest.len() > 0
        invariant
            i + rest@.len() == total,
            total == all.len(),
            rest@ == all.subrange(i as int, total as int),
            kept@ == known_edges(all.take(i as int), views(known@)),
        decreases rest@.len(),
    {
        let e = rest.remove(0);
        proof {
            assert(e == all[i as int]);
            assert(all.take(i + 1).drop_last() =~= all.take(i as int));
            assert(all.take(i + 1).last() == e);
            assert(rest@ =~= all.subrange(i + 1, total as int));
        }
        let target_known = match &e.to_symbol {
            Some(t) => text_in(known, t.as_str()),
            None => true,
        };
        if text_in(known, e.from_symbol.as_str()) && target_known {
            kept.push(e);
        }
        i = i + 1;
    }
    assert(all.take(total as int) =~= all);
    kept
}

/// Counts of stored-object lookups by outcome.
#[derive(Debug, Clone, Copy, PartialEq, Eq, Structural)]
pub struct CacheStats {
    pub hits: usize,
    pub misses: usize,
    pub stale: usize,
    pub corrupt: usize,
}

/// What a lookup of a stored generation found.
#[derive(Debug, Clone, PartialEq, Eq)]
pub enum GenerationLookupOutcome {
    Hit,
    Miss,
    Stale(String),
    Corrupt(String),
}

/// Counts a generation lookup, and gives the limitation that a stale or
/// corrupt generation reports (its code as the reason).
pub fn record_generation_lookup(stats: &mut CacheStats, outcome: &GenerationLookupOutcome) -> (r: Option<IndexLimitation>)
    requires
        old(stats).hits < usize::MAX,
        old(stats).misses < usize::MAX,
        old(stats).stale < usize::MAX,
        old(stats).corrupt < usize::MAX,
    ensures
        final(stats).hits == old(stats).hits + (if *outcome is Hit { 1int } else { 0 }),
        final(stats).misses == old(stats).misses + (if *outcome is Miss { 1int } else { 0 }),
        final(stats).stale == old(stats).stale + (if *outcome is Stale { 1int } else { 0 }),
        final(stats).corrupt == old(stats).corrupt + (if *outcome is Corrupt { 1int } else { 0 }),
        r is Some <==> (*outcome is Stale || *outcome is Corrupt),
        *outcome matches GenerationLookupOutcome::Stale(code) ==> (r matches Some(l) && l.code@ == "repository-index-generation-stale"@ && l.reason@ == code@),
        *outcome matches GenerationLookupOutcome::Corrupt(code) ==> (r matches Some(l) && l.code@ == "repository-index-generation-corrupt"@ && l.reason@ == code@),
{
    match outcome {
        GenerationLookupOutcome::Hit => {
            stats.hits = stats.hits + 1;
            None
        },
        GenerationLookupOutcome::Miss => {
            stats.misses = stats.misses + 1;
            None
        },
        GenerationLookupOutcome::Stale(code) => {
            stats.stale = stats.stale + 1;
            Some(simple_index_limitation("repository-index-generation-stale", code.as_str()))
        },
        GenerationLookupOutcome::Corrupt(code) => {
            stats.corrupt = stats.corrupt + 1;
            Some(simple_index_limitation("repository-index-generation-corrupt", code.as_str()))
        },
    }
}

/// The status a provider reports when no generation could be used: stale
/// when a stale one was seen, invalid output when a corrupt one was, and
/// unavailable otherwise.
pub fn unavailable_status(stats: &CacheStats) -> (r: ProviderStatus)
    ensures
        r == (if stats.stale > 0 {
            ProviderStatus::Stale
        } else if stats.corrupt > 0 {
            ProviderStatus::InvalidOutput
        } else {
            ProviderStatus::Unavailable
        }),
{
    if stats.stale > 0 {
        ProviderStatus::Stale
    } else if stats.corrupt > 0 {
        ProviderStatus::InvalidOutput
    } else {
        ProviderStatus::Unavailable
    }
}

} // verus!
