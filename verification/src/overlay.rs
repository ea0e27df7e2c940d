//! The candidate overlay on a stored base graph: what a candidate adds,
//! replaces and hides, and the edges of base symbols whose file was
//! deleted.
use vstd::prelude::*;
use vstd::utf8::encode_utf8;
use crate::candidate::RepoPath;
use crate::contracts::{Completeness, Confidence, Resolution};
use crate::digest::{hex_seq, sha256_hex_of_bytes, sha256_of};
use crate::graph::{GraphEdge, GraphFile, GraphModule, GraphSymbol};
use crate::index_budget::IndexBudgetExhaustion;
use crate::keyed::{insert_absent, keyed_sorted, keys_of, Keyed};
use crate::model::{component, push_component, IndexLimitation};
use crate::ordering::{sorted_by_order, stable_sort};
use crate::overlay_path::{adjacent_dedup, dedup_adjacent};
use crate::integrity::opt_view;

verus! {

/// The edges leaving (or entering) one symbol.
#[derive(Debug, Clone, PartialEq, Eq)]
pub struct EdgeBucket {
    pub symbol_id: String,
    pub edges: Vec<GraphEdge>,
}

/// A candidate overlay on a base generation.
#[derive(Debug, Clone, PartialEq, Eq)]
pub struct RepositoryOverlay {
    pub base_generation_key: String,
    pub candidate_manifest_digest: String,
    pub path_tombstones: Vec<RepoPath>,
    pub files: Vec<GraphFile>,
    pub modules: Vec<GraphModule>,
    pub symbols: Vec<GraphSymbol>,
    pub outgoing_edges: Vec<EdgeBucket>,
    pub incoming_edges: Vec<EdgeBucket>,
    pub suppressed_base_edge_ids: Vec<String>,
    pub completeness: Completeness,
    pub limitations: Vec<IndexLimitation>,
}

/// Why an overlay could not be built.
#[derive(Debug, Clone, PartialEq, Eq)]
pub struct OverlayError {
    pub code: String,
    pub message: String,
}

impl OverlayError {
    /// An error with a code and a message.
    pub fn new(code: &str, message: &str) -> (r: Self)
        ensures
            r.code@ == code@,
            r.message@ == message@,
    {
        OverlayError { code: String::from_str(code), message: String::from_str(message) }
    }
}

/// The message hashed into the identifier of a deleted-target edge.
pub open spec fn deleted_target_message(edge_id: Seq<char>, target: Seq<char>) -> Seq<u8> {
    component(encode_utf8("repository-overlay-deleted-target/v1"@)) + component(encode_utf8(edge_id))
        + component(encode_utf8(target))
}

/// The base edge `base` re-pointed at an unresolved target: the symbol it
/// reached was in a file the candidate deleted.
pub fn unresolved_deleted_target_edge(base: &GraphEdge, target_symbol: &str) -> (e: GraphEdge)
    ensures
        e.edge_id@ == hex_seq(sha256_of(deleted_target_message(base.edge_id@, target_symbol@))),
        e.kind == base.kind,
        e.from_symbol == base.from_symbol,
        e.to_symbol is None,
        opt_view(e.unresolved_target) == Some(target_symbol@),
        e.path@ == base.path@,
        e.range == base.range,
        e.provider_id@ == "repository-overlay"@,
        e.provider_version@ == "repository-overlay/v1"@,
        e.resolution == Resolution::Unresolved,
        e.confidence == Confidence::Low,
        opt_view(e.limitation_code) == Some("repository-overlay-target-deleted"@),
{
    let mut message: Vec<u8> = Vec::new();
    push_component(&mut message, "repository-overlay-deleted-target/v1".as_bytes());
    push_component(&mut message, base.edge_id.as_str().as_bytes());
    push_component(&mut message, target_symbol.as_bytes());
    GraphEdge {
        edge_id: sha256_hex_of_bytes(message.as_slice()),
        kind: base.kind,
        from_symbol: base.from_symbol.clone(),
        to_symbol: None,
        unresolved_target: Some(String::from_str(target_symbol)),
        path: base.path.duplicate(),
        range: base.range,
        provider_id: String::from_str("repository-overlay"),
        provider_version: String::from_str("repository-overlay/v1"),
        resolution: Resolution::Unresolved,
        confidence: Confidence::Low,
        limitation_code: Some(String::from_str("repository-overlay-target-deleted")),
    }
}

/// Edges sorted by identifier, one per identifier (the first given).
pub fn canonicalize_edges(edges: Vec<GraphEdge>) -> (r: Vec<GraphEdge>)
    ensures
        keyed_sorted(r@),
        forall|k: Seq<char>| #[trigger] keys_of(r@).contains(k) <==> keys_of(edges@).contains(k),
        forall|j: int| 0 <= j < r@.len() ==> edges@.contains(#[trigger] r@[j]),
{
    let ghost all = edges@;
    let total = edges.len();
    let mut rest = edges;
    let mut out: Vec<GraphEdge> = Vec::new();
    let mut i: usize = 0;
    while rest.len() > 0
        invariant
            all.len() == total,
            i <= total,
            rest@ == all.subrange(i as int, total as int),
            keyed_sorted(out@),
            forall|k: Seq<char>| #[trigger] keys_of(out@).contains(k) <==> keys_of(all.take(i as int)).contains(k),
            forall|j: int| 0 <= j < out@.len() ==> all.contains(#[trigger] out@[j]),
        decreases rest@.len(),
    {
        let e = rest.remove(0);
        proof {
            assert(e == all[i as int]);
            assert(rest@ =~= all.subrange(i + 1, total as int));
        }
        let ghost before = out@;
        insert_absent(&mut out, e);
        proof {
            let t = all.take(i + 1);
            assert(t =~= all.take(i as int).push(e));
            let prev = all.take(i as int);
            assert forall|k: Seq<char>| #[trigger] keys_of(out@).contains(k) <==> keys_of(t).contains(k) by {
                let in_prev = keys_of(prev).contains(k);
                let in_t = keys_of(t).contains(k);
                assert(in_t <==> (in_prev || k == e.key_of())) by {
                    if in_t {
                        let w = choose|w: int| 0 <= w < keys_of(t).len() && keys_of(t)[w] == k;
                        if w < i {
                            assert(keys_of(prev)[w] == k);
                        }
                    }
                    if in_prev {
                        let w = choose|w: int| 0 <= w < keys_of(prev).len() && keys_of(prev)[w] == k;
                        assert(keys_of(t)[w] == k);
                    }
                    if k == e.key_of() {
                        assert(keys_of(t)[i as int] == k);
                    }
                }
                assert(keys_of(before).contains(k) <==> in_prev);
                if keys_of(before).contains(k) {
                    assert(keys_of(out@).contains(k));
                }
                if keys_of(out@).contains(k) {
                    let w = choose|w: int| 0 <= w < keys_of(out@).len() && keys_of(out@)[w] == k;
                    if out@[w] != e {
                        assert(before.contains(out@[w]));
                        let v = choose|v: int| 0 <= v < before.len() && before[v] == out@[w];
                        assert(keys_of(before)[v] == k);
                    } else {
                        assert(k == e.key_of());
                    }
                }
            }
            assert forall|j: int| 0 <= j < out@.len() implies all.contains(#[trigger] out@[j]) by {
                if out@[j] != e {
                    assert(before.contains(out@[j]));
                } else {
                    assert(all[i as int] == e);
                }
            }
        }
        i = i + 1;
    }
    assert(all.take(total as int) =~= all);
    out
}

/// The limitation recorded when an overlay resource ran out.
pub fn exhaustion_limitation(exhaustion: IndexBudgetExhaustion, path: Option<RepoPath>) -> (l: IndexLimitation)
    ensures
        l.code@ == exhaustion.code_of(),
        l.path == path,
        l.symbol_id is None,
        l.reason@ == "repository overlay resource budget was exhausted"@,
        l.interpretation@ == "the candidate overlay and reverse-dependent closure are partial"@,
{
    IndexLimitation {
        code: String::from_str(exhaustion.code()),
        path,
        symbol_id: None,
        reason: String::from_str("repository overlay resource budget was exhausted"),
        interpretation: String::from_str("the candidate overlay and reverse-dependent closure are partial"),
    }
}

/// The limitation recorded when a base query returned its full row limit.
pub fn row_limit_limitation(path: RepoPath) -> (l: IndexLimitation)
    ensures
        l.code@ == "index-query-row-limit-reached"@,
        l.path == Some(path),
        l.symbol_id is None,
        l.reason@ == "an indexed graph query reached its exact row limit"@,
        l.interpretation@ == "additional base symbols or relationships may exist"@,
{
    IndexLimitation {
        code: String::from_str("index-query-row-limit-reached"),
        path: Some(path),
        symbol_id: None,
        reason: String::from_str("an indexed graph query reached its exact row limit"),
        interpretation: String::from_str("additional base symbols or relationships may exist"),
    }
}

fn canonical_buckets(buckets: Vec<EdgeBucket>) -> (r: Vec<EdgeBucket>)
    ensures
        r@.len() == buckets@.len(),
        forall|j: int| 0 <= j < r@.len() ==> (#[trigger] r@[j]).symbol_id == buckets@[j].symbol_id && keyed_sorted(r@[j].edges@)
            && forall|k: Seq<char>| #[trigger] keys_of(r@[j].edges@).contains(k) <==> keys_of(buckets@[j].edges@).contains(k),
{
    let ghost all = buckets@;
    let total = buckets.len();
    let mut rest = buckets;
    let mut out: Vec<EdgeBucket> = Vec::new();
    let mut i: usize = 0;
    while rest.len() > 0
        invariant
            all.len() == total,
            i <= total,
            out@.len() == i,
            rest@ == all.subrange(i as int, total as int),
            forall|j: int| 0 <= j < i ==> (#[trigger] out@[j]).symbol_id == all[j].symbol_id && keyed_sorted(out@[j].edges@)
                && forall|k: Seq<char>| #[trigger] keys_of(out@[j].edges@).contains(k) <==> keys_of(all[j].edges@).contains(k),
        decreases rest@.len(),
    {
        let b = rest.remove(0);
        proof {
            assert(b == all[i as int]);
            assert(rest@ =~= all.subrange(i + 1, total as int));
        }
        let edges = canonicalize_edges(b.edges);
        out.push(EdgeBucket { symbol_id: b.symbol_id, edges });
        i = i + 1;
    }
    out
}

/// Finishes an overlay: every edge list sorted by identifier with each
/// identifier once, the limitations sorted (by code, path, symbol, reason
/// and interpretation) without repeats, and the overlay partial when it
/// has any limitation.
pub fn finish_overlay(overlay: RepositoryOverlay) -> (r: RepositoryOverlay)
    ensures
        r.base_generation_key == overlay.base_generation_key,
        r.candidate_manifest_digest == overlay.candidate_manifest_digest,
        r.path_tombstones == overlay.path_tombstones,
        r.files == overlay.files,
        r.modules == overlay.modules,
        r.symbols == overlay.symbols,
        r.suppressed_base_edge_ids == overlay.suppressed_base_edge_ids,
        r.outgoing_edges@.len() == overlay.outgoing_edges@.len(),
        forall|j: int| 0 <= j < r.outgoing_edges@.len() ==> (#[trigger] r.outgoing_edges@[j]).symbol_id
            == overlay.outgoing_edges@[j].symbol_id && keyed_sorted(r.outgoing_edges@[j].edges@),
        r.incoming_edges@.len() == overlay.incoming_edges@.len(),
        forall|j: int| 0 <= j < r.incoming_edges@.len() ==> (#[trigger] r.incoming_edges@[j]).symbol_id
            == overlay.incoming_edges@[j].symbol_id && keyed_sorted(r.incoming_edges@[j].edges@),
        exists|m: Seq<IndexLimitation>|
            sorted_by_order(m) && m.to_multiset() == overlay.limitations@.to_multiset() && r.limitations@
                == adjacent_dedup(m),
        r.completeness == if overlay.limitations@.len() > 0 && overlay.completeness == Completeness::Complete {
            Completeness::Partial
        } else {
            overlay.completeness
        },
{
    let RepositoryOverlay {
        base_generation_key,
        candidate_manifest_digest,
        path_tombstones,
        files,
        modules,
        symbols,
        outgoing_edges,
        incoming_edges,
        suppressed_base_edge_ids,
        completeness,
        limitations,
    } = overlay;
    let had_limitations = limitations.len() > 0;
    let sorted = stable_sort(limitations);
    let limitations = dedup_adjacent(sorted);
    let completeness = if had_limitations && completeness == Completeness::Complete {
        Completeness::Partial
    } else {
        completeness
    };
    RepositoryOverlay {
        base_generation_key,
        candidate_manifest_digest,
        path_tombstones,
        files,
        modules,
        symbols,
        outgoing_edges: canonical_buckets(outgoing_edges),
        incoming_edges: canonical_buckets(incoming_edges),
        suppressed_base_edge_ids,
        completeness,
        limitations,
    }
}

} // verus!
