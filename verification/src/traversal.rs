//! The decisions of a bounded traversal of a stored repository graph:
//! which roots are acceptable, which neighbour an edge leads to, which of
//! two copies of an edge is kept, when a node, row or byte budget stops
//! the walk, and the canonical form of the limitations it reports.
use vstd::prelude::*;
use std::time::Duration;
use crate::contracts::{Completeness, Confidence, EdgeKind};
use crate::graph::{digest_ok, GraphEdge};
use crate::integrity::opt_view;
use crate::keyed::{insert_absent, keyed_sorted, keys_of, Keyed};
use crate::model::{limitation_key, IndexLimitation};
use crate::normalizer::{confidence_rank, confidence_rank_spec};
use crate::ordering::{sorted_by_order, stable_sort, CanonicalOrder};
use crate::repository_index::{limitations_equal, same_limitation};
use crate::strings::is_hex_with_len;

verus! {

/// Which way an edge is followed from a symbol.
#[derive(Debug, Clone, Copy, PartialEq, Eq, Structural)]
pub enum TraversalDirection {
    Incoming,
    Outgoing,
}

/// What a traversal is asked to walk, and within which budgets.
#[derive(Debug, PartialEq, Eq)]
pub struct TraversalRequest {
    pub roots: Vec<String>,
    pub directions: Vec<TraversalDirection>,
    pub edge_kinds: Vec<EdgeKind>,
    pub maximum_depth: usize,
    pub maximum_rows: usize,
    pub maximum_nodes: usize,
    pub maximum_edges: usize,
    pub maximum_bytes: usize,
    pub deadline: Duration,
}

/// What a traversal found.
#[derive(Debug, Clone, PartialEq, Eq)]
pub struct TraversalResult {
    pub edges: Vec<GraphEdge>,
    pub reached_depth: usize,
    pub rows_read: usize,
    pub nodes_visited: usize,
    pub bytes_read: usize,
    pub index_completeness: Completeness,
    pub query_completeness: Completeness,
    pub output_truncated: bool,
    pub limitations: Vec<IndexLimitation>,
    pub elapsed_ms: u64,
}

/// Why a traversal could not run.
#[derive(Debug, Clone, PartialEq, Eq)]
pub struct TraversalError {
    pub code: String,
    pub message: String,
}

impl TraversalError {
    /// An error with a code and a message.
    pub fn new(code: &str, message: &str) -> (r: Self)
        ensures
            r.code@ == code@,
            r.message@ == message@,
    {
        TraversalError { code: String::from_str(code), message: String::from_str(message) }
    }
}

/// Every root is a 64-digit lowercase hexadecimal symbol id.
pub fn validate_request(request: &TraversalRequest) -> (r: Result<(), TraversalError>)
    ensures
        r is Ok <==> forall|i: int| 0 <= i < request.roots@.len() ==> digest_ok(#[trigger] request.roots@[i]@),
        r matches Err(e) ==> e.code@ == "traversal-root-invalid"@,
{
    let mut i: usize = 0;
    while i < request.roots.len()
        invariant
            i <= request.roots@.len(),
            forall|k: int| 0 <= k < i ==> digest_ok(#[trigger] request.roots@[k]@),
        decreases request.roots@.len() - i,
    {
        if !is_hex_with_len(request.roots[i].as_str(), 64) {
            return Err(TraversalError::new(
                "traversal-root-invalid",
                "traversal roots must be 64 lowercase hex symbol ids",
            ));
        }
        i = i + 1;
    }
    Ok(())
}

/// The symbol an edge leads to: its source when followed inward, its
/// target (if resolved) when followed outward.
pub fn neighbor(direction: TraversalDirection, edge: &GraphEdge) -> (r: Option<String>)
    ensures
        opt_view(r) == match direction {
            TraversalDirection::Incoming => Some(edge.from_symbol@),
            TraversalDirection::Outgoing => opt_view(edge.to_symbol),
        },
{
    match direction {
        TraversalDirection::Incoming => Some(edge.from_symbol.clone()),
        TraversalDirection::Outgoing => match &edge.to_symbol {
            Some(t) => Some(t.clone()),
            None => None,
        },
    }
}

/// `a` sorts strictly before `b`, byte by byte.
pub open spec fn bytes_less(a: Seq<u8>, b: Seq<u8>) -> bool
    decreases a.len(),
{
    if b.len() == 0 {
        false
    } else if a.len() == 0 {
        true
    } else if a[0] != b[0] {
        a[0] < b[0]
    } else {
        bytes_less(a.drop_first(), b.drop_first())
    }
}

fn bytes_before(a: &[u8], b: &[u8]) -> (r: bool)
    ensures
        r == bytes_less(a@, b@),
{
    let mut i: usize = 0;
    assert(a@.skip(0) =~= a@);
    assert(b@.skip(0) =~= b@);
    while i < a.len() && i < b.len()
        invariant
            i <= a@.len(),
            i <= b@.len(),
            bytes_less(a@, b@) == bytes_less(a@.skip(i as int), b@.skip(i as int)),
        decreases a@.len() - i,
    {
        assert(a@.skip(i as int)[0] == a@[i as int]);
        assert(b@.skip(i as int)[0] == b@[i as int]);
        if a[i] != b[i] {
            return a[i] < b[i];
        }
        assert(a@.skip(i as int).drop_first() =~= a@.skip(i + 1));
        assert(b@.skip(i as int).drop_first() =~= b@.skip(i + 1));
        i = i + 1;
    }
    i < b.len()
}

/// Whether a new copy of an edge replaces the one kept: higher confidence
/// wins, and at equal confidence the smaller canonical encoding.
pub fn candidate_is_preferred(
    candidate: Confidence,
    existing: Confidence,
    candidate_bytes: &[u8],
    existing_bytes: &[u8],
) -> (r: bool)
    ensures
        r == if confidence_rank_spec(candidate) != confidence_rank_spec(existing) {
            confidence_rank_spec(candidate) > confidence_rank_spec(existing)
        } else {
            bytes_less(candidate_bytes@, existing_bytes@)
        },
{
    let candidate_rank = confidence_rank(candidate);
    let existing_rank = confidence_rank(existing);
    if candidate_rank != existing_rank {
        return candidate_rank > existing_rank;
    }
    bytes_before(candidate_bytes, existing_bytes)
}

/// How a base lookup for one symbol goes, given the rows left in the
/// budget and the reader's own limit.
#[derive(Debug, Clone, PartialEq, Eq)]
pub enum RowPlan {
    /// No rows are left: the query is partial and halts.
    Exhausted,
    /// Read at most this many rows.
    Read(usize),
}

/// The plan for a base lookup.
pub fn plan_base_read(maximum_rows: usize, rows_read: usize, reader_limit: usize) -> (r: RowPlan)
    ensures
        maximum_rows <= rows_read <==> r is Exhausted,
        r matches RowPlan::Read(n) ==> n == (if maximum_rows - rows_read < reader_limit {
            maximum_rows - rows_read
        } else {
            reader_limit as int
        }),
{
    let remaining = if rows_read < maximum_rows { maximum_rows - rows_read } else { 0 };
    if remaining == 0 {
        RowPlan::Exhausted
    } else if remaining < reader_limit {
        RowPlan::Read(remaining)
    } else {
        RowPlan::Read(reader_limit)
    }
}

/// What a lookup that returned `rows` rows under `limit` means: `None`
/// when more rows cannot exist, else the code that reports it (the budget
/// when the limit was the budget's, the reader's limit otherwise).
pub fn full_read_code(rows: usize, limit: usize, remaining: usize) -> (r: Option<&'static str>)
    ensures
        r is Some <==> rows == limit,
        r matches Some(c) ==> c@ == (if limit == remaining {
            "index-query-row-budget-exhausted"@
        } else {
            "index-query-row-limit-reached"@
        }),
{
    if rows != limit {
        None
    } else if limit == remaining {
        Some("index-query-row-budget-exhausted")
    } else {
        Some("index-query-row-limit-reached")
    }
}

/// Whether one more edge fits the edge and byte budgets: `None` when it
/// does, else the limitation code that reports it.
pub fn output_budget_code(
    kept_edges: usize,
    maximum_edges: usize,
    output_bytes: usize,
    edge_bytes: usize,
    maximum_bytes: usize,
) -> (r: Option<&'static str>)
    ensures
        r is None <==> kept_edges < maximum_edges && output_bytes + edge_bytes <= maximum_bytes,
        kept_edges >= maximum_edges ==> (r matches Some(c) && c@ == "index-edge-budget-exhausted"@),
        kept_edges < maximum_edges && output_bytes + edge_bytes > maximum_bytes ==> (r matches Some(c) && c@
            == "index-output-byte-budget-exhausted"@),
{
    if kept_edges >= maximum_edges {
        Some("index-edge-budget-exhausted")
    } else if edge_bytes > maximum_bytes || output_bytes > maximum_bytes - edge_bytes {
        Some("index-output-byte-budget-exhausted")
    } else {
        None
    }
}

/// The visited symbols of a traversal, kept as a sorted set.
#[derive(Debug, Clone, PartialEq, Eq)]
pub struct NodeText {
    pub id: String,
}

impl Keyed for NodeText {
    open spec fn key_of(&self) -> Seq<char> {
        self.id@
    }

    fn key(&self) -> (r: &str) {
        self.id.as_str()
    }
}

/// What considering a neighbour did.
#[derive(Debug, Clone, Copy, PartialEq, Eq, Structural)]
pub enum NeighborOutcome {
    AlreadySeen,
    BudgetExhausted,
    Added,
}

/// Considers a neighbour: already seen ones are skipped, new ones are
/// added while the node budget lasts.
pub fn consider_neighbor(seen: &mut Vec<NodeText>, neighbor: String, maximum_nodes: usize) -> (r: NeighborOutcome)
    requires
        keyed_sorted(old(seen)@),
    ensures
        keyed_sorted(final(seen)@),
        keys_of(old(seen)@).contains(neighbor@) ==> r == NeighborOutcome::AlreadySeen && final(seen)@ == old(seen)@,
        !keys_of(old(seen)@).contains(neighbor@) && old(seen)@.len() >= maximum_nodes ==> r
            == NeighborOutcome::BudgetExhausted && final(seen)@ == old(seen)@,
        !keys_of(old(seen)@).contains(neighbor@) && old(seen)@.len() < maximum_nodes ==> r
            == NeighborOutcome::Added && keys_of(final(seen)@).contains(neighbor@) && final(seen)@.len()
            == old(seen)@.len() + 1,
{
    if crate::keyed::has_key(seen, neighbor.as_str()) {
        return NeighborOutcome::AlreadySeen;
    }
    if seen.len() >= maximum_nodes {
        return NeighborOutcome::BudgetExhausted;
    }
    let ghost before = seen@;
    let item = NodeText { id: neighbor };
    insert_absent(seen, item);
    proof {
        let p = choose|p: int| 0 <= p <= before.len() && seen@ == #[trigger] before.insert(p, item);
        assert(seen@.len() == before.len() + 1);
    }
    NeighborOutcome::Added
}

/// What tells limitations apart: their key, and whether a path and a
/// symbol are present.
pub open spec fn lim_view(l: IndexLimitation) -> (Seq<Seq<char>>, bool, bool) {
    (limitation_key(l), l.path is Some, l.symbol_id is Some)
}

/// The views of a list of limitations.
pub open spec fn lim_views(s: Seq<IndexLimitation>) -> Seq<(Seq<Seq<char>>, bool, bool)> {
    Seq::new(s.len(), |i: int| lim_view(s[i]))
}

proof fn lemma_same_multiset_same_lim_views(a: Seq<IndexLimitation>, b: Seq<IndexLimitation>)
    requires
        a.to_multiset() == b.to_multiset(),
    ensures
        lim_views(a).to_set() == lim_views(b).to_set(),
{
    a.to_multiset_ensures();
    b.to_multiset_ensures();
    assert forall|t: (Seq<Seq<char>>, bool, bool)| lim_views(a).to_set().contains(t) implies lim_views(b).to_set().contains(t) by {
        let i = choose|i: int| 0 <= i < lim_views(a).len() && lim_views(a)[i] == t;
        assert(a.contains(a[i]));
        assert(a.to_multiset().count(a[i]) > 0);
        assert(b.contains(a[i]));
        let j = choose|j: int| 0 <= j < b.len() && b[j] == a[i];
        assert(lim_views(b)[j] == t);
    }
    assert forall|t: (Seq<Seq<char>>, bool, bool)| lim_views(b).to_set().contains(t) implies lim_views(a).to_set().contains(t) by {
        let i = choose|i: int| 0 <= i < lim_views(b).len() && lim_views(b)[i] == t;
        assert(b.contains(b[i]));
        assert(b.to_multiset().count(b[i]) > 0);
        assert(a.contains(b[i]));
        let j = choose|j: int| 0 <= j < a.len() && a[j] == b[i];
        assert(lim_views(a)[j] == t);
    }
    assert(lim_views(a).to_set() =~= lim_views(b).to_set());
}

/// Sorts limitations into canonical order and drops adjacent repeats.
pub fn canonicalize_limitations(limitations: Vec<IndexLimitation>) -> (r: Vec<IndexLimitation>)
    ensures
        sorted_by_order(r@),
        forall|i: int| 0 <= i < r@.len() - 1 ==> lim_view(#[trigger] r@[i]) != lim_view(r@[i + 1]),
        lim_views(r@).to_set() == lim_views(limitations@).to_set(),
{
    let ghost original = limitations@;
    let sorted = stable_sort(limitations);
    let ghost s = sorted@;
    proof {
        lemma_same_multiset_same_lim_views(s, original);
    }
    let mut out: Vec<IndexLimitation> = Vec::new();
    let total = sorted.len();
    let mut rest = sorted;
    let mut i: usize = 0;
    assert(lim_views(s.take(0)).to_set() =~= lim_views(out@).to_set());
    while rest.len() > 0
        invariant
            i + rest@.len() == total,
            total == s.len(),
            rest@ == s.subrange(i as int, total as int),
            sorted_by_order(s),
            sorted_by_order(out@),
            forall|k: int| 0 <= k < out@.len() - 1 ==> lim_view(#[trigger] out@[k]) != lim_view(out@[k + 1]),
            i > 0 ==> out@.len() > 0 && lim_view(out@.last()) == lim_view(s[i - 1]),
            i == 0 ==> out@.len() == 0,
            lim_views(out@).to_set() == lim_views(s.take(i as int)).to_set(),
        decreases rest@.len(),
    {
        let l = rest.remove(0);
        let ghost before = out@;
        proof {
            assert(l == s[i as int]);
            assert(rest@ =~= s.subrange(i + 1, total as int));
            assert(lim_views(s.take(i + 1)) =~= lim_views(s.take(i as int)).push(lim_view(l)));
            lim_views(s.take(i as int)).lemma_push_to_set_commute(lim_view(l));
        }
        let duplicate = out.len() > 0 && limitations_equal(&out[out.len() - 1], &l);
        if duplicate {
            proof {
                assert(lim_view(out@.last()) =~= lim_view(l)) by {
                    assert(limitation_key(out@.last()) =~= limitation_key(l));
                }
                assert(lim_views(out@)[out@.len() - 1] == lim_view(l));
                assert(lim_views(out@).to_set().contains(lim_view(l)));
                assert(lim_views(out@).to_set().insert(lim_view(l)) =~= lim_views(out@).to_set());
            }
        } else {
            proof {
                if i > 0 {
                    assert(s[i - 1].order_of(&s[(i - 1) + 1]) <= 0);
                    assert(limitation_key(before.last()) == limitation_key(s[i - 1]));
                    assert(lim_view(before.last()) != lim_view(l)) by {
                        if lim_view(before.last()) == lim_view(l) {
                            assert(same_limitation(before.last(), l));
                        }
                    }
                }
                lim_views(before).lemma_push_to_set_commute(lim_view(l));
            }
            out.push(l);
            proof {
                assert(lim_views(out@) =~= lim_views(before).push(lim_view(l)));
                assert forall|k: int| 0 <= k < out@.len() - 1 implies (#[trigger] out@[k]).order_of(&out@[k + 1]) <= 0 by {
                    if k < before.len() - 1 {
                        assert(out@[k] == before[k] && out@[k + 1] == before[k + 1]);
                    } else {
                        assert(out@[k] == before.last() && out@[k + 1] == l);
                    }
                }
                assert forall|k: int| 0 <= k < out@.len() - 1 implies lim_view(#[trigger] out@[k]) != lim_view(out@[k + 1]) by {
                    if k < before.len() - 1 {
                        assert(out@[k] == before[k] && out@[k + 1] == before[k + 1]);
                    } else {
                        assert(out@[k] == before.last() && out@[k + 1] == l);
                    }
                }
            }
        }
        i = i + 1;
    }
    assert(s.take(total as int) =~= s);
    out
}

} // verus!
