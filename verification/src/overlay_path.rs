//! Fast-mode refresh of one changed Rust path over a stored base graph:
//! the identifiers of refreshed symbols and edges, which base relations
//! survive the change, and how the refreshed symbols are charged.
use vstd::prelude::*;
use vstd::utf8::encode_utf8;
use crate::candidate::{CandidatePresence, RepoPath};
use crate::contracts::{Completeness, Confidence, EdgeKind, Resolution, SourceRange};
use crate::digest::{hex_seq, sha256_hex, sha256_hex_of_bytes, sha256_hex_spec, sha256_of};
use crate::graph::{GraphEdge, GraphFile, GraphSymbol, RepositoryGraph};
use crate::ordering::{
    lemma_ord_text_antisymmetric, ord_text, order_text, sorted_by_order, stable_sort, then,
    CanonicalOrder,
};
use crate::repository_index::{limitations_equal, opt_path, same_limitation};
use crate::index_budget::{IndexBudgetTracker, IndexResource};
use crate::integrity::opt_view;
use crate::keyed::{insert_absent, keyed_sorted, keys_of};
use crate::model::{
    be_bytes, component, push_be, push_component, FileFactKey, GraphGenerationIdentity,
    IndexLimitation, IndexMetrics,
};
use crate::repository_index::RepositoryIndexError;
use crate::normalizer::{edge_kind_name, edge_kind_name_spec};
use crate::rust_syntax::{RustCallSiteFact, RustFileFacts, RustLocalSymbolFact};
use crate::candidate::copy_text;
use crate::integrity::views;
use crate::strings::{
    find_last_char, has_suffix, last_index_of, lemma_last_index_of, push_text, str_ends_with, str_equal,
    substring_chars,
};

verus! {

/// The UTF-8 bytes of a text, as one hashed component.
pub open spec fn text_component(s: Seq<char>) -> Seq<u8> {
    component(encode_utf8(s))
}

/// The text of an optional value, empty when absent.
pub open spec fn or_empty(o: Option<Seq<char>>) -> Seq<char> {
    match o {
        Some(s) => s,
        None => Seq::empty(),
    }
}

/// The message hashed into a refreshed symbol's identifier.
pub open spec fn symbol_id_message(module_id: Seq<char>, path: Seq<char>, local_id: Seq<char>) -> Seq<u8> {
    text_component("rust-repository-symbol/v1"@) + text_component(module_id) + text_component(path)
        + text_component(local_id)
}

/// A refreshed symbol's identifier: the hexadecimal SHA-256 of its message.
pub open spec fn repository_symbol_id_spec(module_id: Seq<char>, path: Seq<char>, local_id: Seq<char>) -> Seq<char> {
    hex_seq(sha256_of(symbol_id_message(module_id, path, local_id)))
}

/// The message hashed into an inferred module's identifier.
pub open spec fn module_id_message(parent: Seq<char>, name: Seq<char>, path: Seq<char>) -> Seq<u8> {
    text_component("rust-repository-module/v1"@) + text_component(parent) + text_component(name)
        + text_component(path) + component(seq![0u8])
}

/// An inferred module's identifier.
pub open spec fn repository_module_id_spec(parent: Seq<char>, name: Seq<char>, path: Seq<char>) -> Seq<char> {
    hex_seq(sha256_of(module_id_message(parent, name, path)))
}

/// The message hashed into a refreshed edge's identifier.
pub open spec fn edge_id_message(
    kind: EdgeKind,
    from_symbol: Seq<char>,
    to_symbol: Option<Seq<char>>,
    unresolved_target: Option<Seq<char>>,
    path: Seq<char>,
    range: SourceRange,
) -> Seq<u8> {
    text_component("rust-repository-edge/v1"@) + text_component(edge_kind_name_spec(kind))
        + text_component(from_symbol) + text_component(or_empty(to_symbol)) + text_component(
        or_empty(unresolved_target),
    ) + text_component(path) + component(be_bytes(range.start_byte as nat, 8)) + component(
        be_bytes(range.end_byte as nat, 8),
    )
}

/// A refreshed edge's identifier.
pub open spec fn overlay_edge_id_spec(
    kind: EdgeKind,
    from_symbol: Seq<char>,
    to_symbol: Option<Seq<char>>,
    unresolved_target: Option<Seq<char>>,
    path: Seq<char>,
    range: SourceRange,
) -> Seq<char> {
    hex_seq(sha256_of(edge_id_message(kind, from_symbol, to_symbol, unresolved_target, path, range)))
}

/// The identifier of a symbol refreshed from a changed file.
pub fn repository_symbol_id(module_id: &str, path: &RepoPath, local_id: &str) -> (r: String)
    ensures
        r@ == repository_symbol_id_spec(module_id@, path@, local_id@),
        r@.len() == 64,
{
    let mut message: Vec<u8> = Vec::new();
    push_component(&mut message, "rust-repository-symbol/v1".as_bytes());
    push_component(&mut message, module_id.as_bytes());
    push_component(&mut message, path.as_str().as_bytes());
    push_component(&mut message, local_id.as_bytes());
    sha256_hex_of_bytes(message.as_slice())
}

/// The identifier of a module inferred for an added file.
pub fn repository_module_id(parent_module_id: &str, name: &str, path: &RepoPath) -> (r: String)
    ensures
        r@ == repository_module_id_spec(parent_module_id@, name@, path@),
        r@.len() == 64,
{
    let mut message: Vec<u8> = Vec::new();
    push_component(&mut message, "rust-repository-module/v1".as_bytes());
    push_component(&mut message, parent_module_id.as_bytes());
    push_component(&mut message, name.as_bytes());
    push_component(&mut message, path.as_str().as_bytes());
    let zero: [u8; 1] = [0u8];
    assert(zero@ =~= seq![0u8]);
    push_component(&mut message, &zero);
    sha256_hex_of_bytes(message.as_slice())
}

fn opt_str(o: &Option<String>) -> (r: &str)
    ensures
        r@ == or_empty(opt_view(*o)),
{
    match o {
        Some(s) => s.as_str(),
        None => {
            proof {
                reveal_strlit("");
            }
            ""
        },
    }
}

/// A relation of the refreshed graph, identified by its kind, ends, path
/// and byte range, and attributed to the repository resolver.
pub fn make_overlay_edge(
    kind: EdgeKind,
    from_symbol: &str,
    to_symbol: Option<String>,
    unresolved_target: Option<String>,
    path: &RepoPath,
    range: &SourceRange,
    resolution: Resolution,
    confidence: Confidence,
    limitation_code: Option<String>,
) -> (e: GraphEdge)
    ensures
        e.edge_id@ == overlay_edge_id_spec(
            kind,
            from_symbol@,
            opt_view(to_symbol),
            opt_view(unresolved_target),
            path@,
            *range,
        ),
        e.kind == kind,
        e.from_symbol@ == from_symbol@,
        e.to_symbol == to_symbol,
        e.unresolved_target == unresolved_target,
        e.path@ == path@,
        e.range == *range,
        e.provider_id@ == "rust-tree-sitter-resolver"@,
        e.provider_version@ == "rust-resolver/v1"@,
        e.resolution == resolution,
        e.confidence == confidence,
        e.limitation_code == limitation_code,
{
    let mut message: Vec<u8> = Vec::new();
    push_component(&mut message, "rust-repository-edge/v1".as_bytes());
    push_component(&mut message, edge_kind_name(kind).as_bytes());
    push_component(&mut message, from_symbol.as_bytes());
    push_component(&mut message, opt_str(&to_symbol).as_bytes());
    push_component(&mut message, opt_str(&unresolved_target).as_bytes());
    push_component(&mut message, path.as_str().as_bytes());
    let mut start: Vec<u8> = Vec::new();
    push_be(&mut start, range.start_byte as u64, 8);
    push_component(&mut message, start.as_slice());
    let mut end: Vec<u8> = Vec::new();
    push_be(&mut end, range.end_byte as u64, 8);
    push_component(&mut message, end.as_slice());
    let edge_id = sha256_hex_of_bytes(message.as_slice());
    GraphEdge {
        edge_id,
        kind,
        from_symbol: String::from_str(from_symbol),
        to_symbol,
        unresolved_target,
        path: path.duplicate(),
        range: *range,
        provider_id: String::from_str("rust-tree-sitter-resolver"),
        provider_version: String::from_str("rust-resolver/v1"),
        resolution,
        confidence,
        limitation_code,
    }
}

/// A limitation of the candidate overlay for one path.
pub fn overlay_limitation(code: &str, path: RepoPath, reason: &str) -> (l: IndexLimitation)
    ensures
        l.code@ == code@,
        l.path == Some(path),
        l.symbol_id is None,
        l.reason@ == reason@,
        l.interpretation@ == "the Fast candidate overlay is partial for this path"@,
{
    IndexLimitation {
        code: String::from_str(code),
        path: Some(path),
        symbol_id: None,
        reason: String::from_str(reason),
        interpretation: String::from_str("the Fast candidate overlay is partial for this path"),
    }
}

/// Whether a base relation of a changed file is still written in its new
/// facts: a call or reference at the same range (and, where the target's
/// name is known, naming it), or an import at the same range. Definitions,
/// implementations and overrides are never carried over.
pub open spec fn edge_still_present_spec(
    edge: GraphEdge,
    target_name: Option<Seq<char>>,
    facts: RustFileFacts,
) -> bool {
    match edge.kind {
        EdgeKind::Calls => exists|i: int|
            0 <= i < facts.calls@.len() && #[trigger] facts.calls@[i].range == edge.range && (
            target_name is None || facts.calls@[i].callee@ == target_name->0),
        EdgeKind::References => exists|i: int|
            0 <= i < facts.references@.len() && #[trigger] facts.references@[i].range == edge.range
                && (target_name is None || facts.references@[i].name@ == target_name->0),
        EdgeKind::Imports | EdgeKind::Exports => exists|i: int|
            0 <= i < facts.imports@.len() && #[trigger] facts.imports@[i].range == edge.range,
        _ => false,
    }
}

fn name_matches(target_name: &Option<String>, name: &String) -> (r: bool)
    ensures
        r == (target_name is None || name@ == target_name->0@),
{
    match target_name {
        None => true,
        Some(t) => str_equal(name.as_str(), t.as_str()),
    }
}

/// Whether `edge` survives in the changed file's new facts.
pub fn overlay_edge_still_present(
    edge: &GraphEdge,
    target_name: &Option<String>,
    facts: &RustFileFacts,
) -> (r: bool)
    ensures
        r == edge_still_present_spec(*edge, opt_view(*target_name), *facts),
{
    match edge.kind {
        EdgeKind::Calls => {
            let mut i: usize = 0;
            while i < facts.calls.len()
                invariant
                    i <= facts.calls@.len(),
                    edge.kind == EdgeKind::Calls,
                    forall|k: int|
                        0 <= k < i ==> !(#[trigger] facts.calls@[k].range == edge.range && (
                        opt_view(*target_name) is None || facts.calls@[k].callee@ == opt_view(
                            *target_name,
                        )->0)),
                decreases facts.calls@.len() - i,
            {
                if facts.calls[i].range == edge.range && name_matches(
                    target_name,
                    &facts.calls[i].callee,
                ) {
                    return true;
                }
                i = i + 1;
            }
            false
        },
        EdgeKind::References => {
            let mut i: usize = 0;
            while i < facts.references.len()
                invariant
                    i <= facts.references@.len(),
                    edge.kind == EdgeKind::References,
                    forall|k: int|
                        0 <= k < i ==> !(#[trigger] facts.references@[k].range == edge.range && (
                        opt_view(*target_name) is None || facts.references@[k].name@ == opt_view(
                            *target_name,
                        )->0)),
                decreases facts.references@.len() - i,
            {
                if facts.references[i].range == edge.range && name_matches(
                    target_name,
                    &facts.references[i].name,
                ) {
                    return true;
                }
                i = i + 1;
            }
            false
        },
        EdgeKind::Imports | EdgeKind::Exports => {
            let mut i: usize = 0;
            while i < facts.imports.len()
                invariant
                    i <= facts.imports@.len(),
                    edge.kind == EdgeKind::Imports || edge.kind == EdgeKind::Exports,
                    forall|k: int| 0 <= k < i ==> !(#[trigger] facts.imports@[k].range == edge.range),
                decreases facts.imports@.len() - i,
            {
                if facts.imports[i].range == edge.range {
                    return true;
                }
                i = i + 1;
            }
            false
        },
        _ => false,
    }
}

/// Where a module for an added file may be declared: the module's name and
/// the parent files, in sorted order, whose module would own it.
pub struct AddedModulePlan {
    pub module_name: String,
    pub parents: Vec<String>,
}

/// For `dir/name.rs`: `dir.rs` (when `dir` has a parent), then
/// `dir/lib.rs`, `dir/main.rs` and `dir/mod.rs`. For `dir/name/mod.rs`:
/// `dir/lib.rs` and `dir/main.rs`. No plan for a file outside any
/// directory, or for a file that is not Rust.
pub open spec fn added_module_plan_spec(p: Seq<char>) -> Option<(Seq<char>, Seq<Seq<char>>)> {
    let slash = last_index_of(p, '/');
    let file = p.subrange(slash + 1, p.len() as int);
    let dir = p.subrange(0, slash);
    if slash < 0 {
        None
    } else if file == "mod.rs"@ {
        let up = last_index_of(dir, '/');
        let name = dir.subrange(up + 1, dir.len() as int);
        let parent = dir.subrange(0, up);
        if up < 0 || name.len() == 0 {
            None
        } else {
            Some((name, seq![parent + "/lib.rs"@, parent + "/main.rs"@]))
        }
    } else if has_suffix(file, ".rs"@) && file.len() > 3 {
        let name = file.subrange(0, file.len() - 3);
        if last_index_of(dir, '/') >= 0 {
            Some((name, seq![dir + ".rs"@, dir + "/lib.rs"@, dir + "/main.rs"@, dir + "/mod.rs"@]))
        } else {
            Some((name, seq![dir + "/lib.rs"@, dir + "/main.rs"@, dir + "/mod.rs"@]))
        }
    } else {
        None
    }
}

fn joined(dir: &str, tail: &str) -> (r: String)
    ensures
        r@ == dir@ + tail@,
{
    let mut out = copy_text(dir);
    push_text(&mut out, tail);
    out
}

/// The module name and parent files of an added Rust file.
pub fn added_module_plan(path: &RepoPath) -> (r: Option<AddedModulePlan>)
    ensures
        match (r, added_module_plan_spec(path@)) {
            (Some(plan), Some((name, parents))) => plan.module_name@ == name && views(plan.parents@)
                == parents,
            (None, None) => true,
            _ => false,
        },
{
    let p = path.as_str();
    proof {
        lemma_last_index_of(p@, '/');
    }
    let slash = match find_last_char(p, '/') {
        Some(i) => i,
        None => return None,
    };
    let n = p.unicode_len();
    let file = substring_chars(p, slash + 1, n);
    let dir = substring_chars(p, 0, slash);
    if str_equal(file.as_str(), "mod.rs") {
        proof {
            lemma_last_index_of(dir@, '/');
        }
        let up = match find_last_char(dir.as_str(), '/') {
            Some(i) => i,
            None => return None,
        };
        let dn = dir.unicode_len();
        if up + 1 == dn {
            return None;
        }
        let name = substring_chars(dir.as_str(), up + 1, dn);
        let parent = substring_chars(dir.as_str(), 0, up);
        let mut parents: Vec<String> = Vec::new();
        parents.push(joined(parent.as_str(), "/lib.rs"));
        parents.push(joined(parent.as_str(), "/main.rs"));
        proof {
            reveal_strlit("mod.rs");
            assert(views(parents@) =~= seq![parent@ + "/lib.rs"@, parent@ + "/main.rs"@]);
        }
        return Some(AddedModulePlan { module_name: name, parents });
    }
    let fl = file.unicode_len();
    if !(str_ends_with(file.as_str(), ".rs") && fl > 3) {
        return None;
    }
    let name = substring_chars(file.as_str(), 0, fl - 3);
    let mut parents: Vec<String> = Vec::new();
    proof {
        lemma_last_index_of(dir@, '/');
    }
    let nested = find_last_char(dir.as_str(), '/').is_some();
    if nested {
        parents.push(joined(dir.as_str(), ".rs"));
    }
    parents.push(joined(dir.as_str(), "/lib.rs"));
    parents.push(joined(dir.as_str(), "/main.rs"));
    parents.push(joined(dir.as_str(), "/mod.rs"));
    proof {
        if nested {
            assert(views(parents@) =~= seq![dir@ + ".rs"@, dir@ + "/lib.rs"@, dir@ + "/main.rs"@, dir@ + "/mod.rs"@]);
        } else {
            assert(views(parents@) =~= seq![dir@ + "/lib.rs"@, dir@ + "/main.rs"@, dir@ + "/mod.rs"@]);
        }
    }
    Some(AddedModulePlan { module_name: name, parents })
}

/// The module of the first parent file that the base graph holds with a
/// module, looking only while query rows remain; each parent file found
/// costs one row.
pub open spec fn parent_module_from(lookups: Seq<Option<Option<String>>>, remaining: int) -> Option<Seq<char>>
    decreases lookups.len(),
{
    if lookups.len() == 0 || remaining <= 0 {
        None
    } else {
        match lookups[0] {
            None => parent_module_from(lookups.drop_first(), remaining),
            Some(None) => parent_module_from(lookups.drop_first(), remaining - 1),
            Some(Some(m)) => Some(m@),
        }
    }
}

/// The query rows that the search for a parent module charges.
pub open spec fn parent_rows_from(lookups: Seq<Option<Option<String>>>, remaining: int) -> int
    decreases lookups.len(),
{
    if lookups.len() == 0 || remaining <= 0 {
        0
    } else {
        match lookups[0] {
            None => parent_rows_from(lookups.drop_first(), remaining),
            Some(None) => 1 + parent_rows_from(lookups.drop_first(), remaining - 1),
            Some(Some(m)) => 1,
        }
    }
}

/// The module of an added file, from the base graph's answer for each of
/// the plan's parent files (`None` where the base holds no such file, else
/// the module the file belongs to, if any).
pub fn infer_added_file_module(
    path: &RepoPath,
    plan: &AddedModulePlan,
    lookups: &Vec<Option<Option<String>>>,
    tracker: &mut IndexBudgetTracker,
) -> (r: Option<String>)
    requires
        old(tracker).wf(),
        lookups@.len() == plan.parents@.len(),
    ensures
        final(tracker).wf(),
        final(tracker).budget_of() == old(tracker).budget_of(),
        final(tracker).deadline_exhausted_of() == old(tracker).deadline_exhausted_of(),
        opt_view(r) == match parent_module_from(
            lookups@,
            old(tracker).budget_of().limit_of(IndexResource::QueryRows) - old(tracker).consumed_of(
                IndexResource::QueryRows,
            ),
        ) {
            Some(m) => Some(repository_module_id_spec(m, plan.module_name@, path@)),
            None => None,
        },
        final(tracker).consumed_of(IndexResource::QueryRows) == old(tracker).consumed_of(
            IndexResource::QueryRows,
        ) + parent_rows_from(
            lookups@,
            old(tracker).budget_of().limit_of(IndexResource::QueryRows) - old(tracker).consumed_of(
                IndexResource::QueryRows,
            ),
        ),
        forall|other: IndexResource|
            other != IndexResource::QueryRows ==> #[trigger] final(tracker).consumed_of(other)
                == old(tracker).consumed_of(other) && final(tracker).exhausted_of(other) == old(
                tracker,
            ).exhausted_of(other),
{
    let ghost rows = IndexResource::QueryRows;
    let ghost start = tracker.consumed_of(rows);
    let ghost remaining0 = tracker.budget_of().limit_of(rows) - start;
    let mut i: usize = 0;
    assert(lookups@.skip(0) =~= lookups@);
    while i < lookups.len()
        invariant
            i <= lookups@.len(),
            tracker.wf(),
            tracker.budget_of() == old(tracker).budget_of(),
            tracker.deadline_exhausted_of() == old(tracker).deadline_exhausted_of(),
            remaining0 == old(tracker).budget_of().limit_of(rows) - old(tracker).consumed_of(rows),
            rows == IndexResource::QueryRows,
            start == old(tracker).consumed_of(rows),
            parent_module_from(lookups@, remaining0) == parent_module_from(
                lookups@.skip(i as int),
                tracker.budget_of().limit_of(rows) - tracker.consumed_of(rows),
            ),
            start + parent_rows_from(lookups@, remaining0) == tracker.consumed_of(rows)
                + parent_rows_from(
                lookups@.skip(i as int),
                tracker.budget_of().limit_of(rows) - tracker.consumed_of(rows),
            ),
            forall|other: IndexResource|
                other != IndexResource::QueryRows ==> #[trigger] tracker.consumed_of(other)
                    == old(tracker).consumed_of(other),
            forall|other: IndexResource|
                other != IndexResource::QueryRows ==> #[trigger] tracker.exhausted_of(other)
                    == old(tracker).exhausted_of(other),
        decreases lookups@.len() - i,
    {
        let ghost rest = lookups@.skip(i as int);
        assert(rest.drop_first() =~= lookups@.skip(i + 1));
        assert(rest[0] == lookups@[i as int]);
        if tracker.amount(IndexResource::QueryRows).remaining == 0 {
            return None;
        }
        match &lookups[i] {
            None => {},
            Some(found) => {
                let ghost before = *tracker;
                let charged = tracker.consume(IndexResource::QueryRows, 1);
                assert(charged is Ok);
                assert forall|o: IndexResource| o != IndexResource::QueryRows implies #[trigger] tracker.exhausted_of(o)
                    == old(tracker).exhausted_of(o) by {
                    assert(tracker.consumed_of(o) == before.consumed_of(o));
                }
                match found {
                    Some(parent) => {
                        return Some(repository_module_id(parent.as_str(), plan.module_name.as_str(), path));
                    },
                    None => {},
                }
            },
        }
        i = i + 1;
    }
    assert(lookups@.skip(i as int) =~= Seq::<Option<Option<String>>>::empty());
    None
}

/// The module of the last base symbol with local identifier `local`.
pub open spec fn base_module_for(base: Seq<GraphSymbol>, local: Seq<char>) -> Option<Seq<char>>
    decreases base.len(),
{
    if base.len() == 0 {
        None
    } else if base.last().local_id@ == local {
        Some(base.last().module_id@)
    } else {
        base_module_for(base.drop_last(), local)
    }
}

/// The module a refreshed fact belongs to: that of the base symbol with
/// the same local identifier, else the file's primary module.
pub open spec fn fact_module(
    base: Seq<GraphSymbol>,
    f: RustLocalSymbolFact,
    primary: Option<Seq<char>>,
) -> Option<Seq<char>> {
    match base_module_for(base, f.local_id@) {
        Some(m) => Some(m),
        None => primary,
    }
}

/// The facts that become symbols, each with its module. Facts are taken in
/// order; one without a module is skipped; when the symbol budget has no
/// room left for the next one, the walk stops.
pub open spec fn accepted_facts(
    facts: Seq<RustLocalSymbolFact>,
    base: Seq<GraphSymbol>,
    primary: Option<Seq<char>>,
    room: int,
) -> Seq<(RustLocalSymbolFact, Seq<char>)>
    decreases facts.len(),
{
    if facts.len() == 0 {
        Seq::empty()
    } else {
        match fact_module(base, facts[0], primary) {
            None => accepted_facts(facts.drop_first(), base, primary, room),
            Some(m) => if room <= 0 {
                Seq::empty()
            } else {
                seq![(facts[0], m)] + accepted_facts(facts.drop_first(), base, primary, room - 1)
            },
        }
    }
}

/// The code and reason of each limitation that the same walk records.
pub open spec fn symbol_walk_limitations(
    facts: Seq<RustLocalSymbolFact>,
    base: Seq<GraphSymbol>,
    primary: Option<Seq<char>>,
    room: int,
) -> Seq<(Seq<char>, Seq<char>)>
    decreases facts.len(),
{
    if facts.len() == 0 {
        Seq::empty()
    } else {
        match fact_module(base, facts[0], primary) {
            None => seq![
                (
                    "repository-overlay-module-unresolved"@,
                    "the changed symbol could not be assigned to a known base module"@,
                ),
            ] + symbol_walk_limitations(facts.drop_first(), base, primary, room),
            Some(m) => if room <= 0 {
                seq![
                    (
                        IndexResource::Symbols.exhaustion_code_of(),
                        "the overlay symbol budget was exhausted"@,
                    ),
                ]
            } else {
                symbol_walk_limitations(facts.drop_first(), base, primary, room - 1)
            },
        }
    }
}

/// `s` is the refreshed symbol of fact `f` in `module` at `path`.
pub open spec fn symbol_from_fact(
    s: GraphSymbol,
    f: RustLocalSymbolFact,
    module: Seq<char>,
    path: Seq<char>,
) -> bool {
    &&& s.symbol_id@ == repository_symbol_id_spec(module, path, f.local_id@)
    &&& s.local_id@ == f.local_id@
    &&& s.module_id@ == module
    &&& s.path@ == path
    &&& s.language@ == "rust"@
    &&& s.kind@ == f.kind@
    &&& s.name@ == f.name@
    &&& opt_view(s.signature) == (if f.signature@.len() == 0 {
        None::<Seq<char>>
    } else {
        Some(f.signature@)
    })
    &&& opt_view(s.visibility) == opt_view(f.visibility)
    &&& s.range == f.range
    &&& s.confidence == Confidence::Medium
}

/// Each limitation carries the listed code and reason, for `path`.
pub open spec fn limitations_listed(
    ls: Seq<IndexLimitation>,
    listed: Seq<(Seq<char>, Seq<char>)>,
    path: Seq<char>,
) -> bool {
    &&& ls.len() == listed.len()
    &&& forall|j: int|
        0 <= j < ls.len() ==> {
            &&& (#[trigger] ls[j]).code@ == listed[j].0
            &&& ls[j].reason@ == listed[j].1
            &&& ls[j].path matches Some(p) && p@ == path
            &&& ls[j].symbol_id is None
            &&& ls[j].interpretation@ == "the Fast candidate overlay is partial for this path"@
        }
}

fn copy_opt(o: &Option<String>) -> (r: Option<String>)
    ensures
        r == *o,
{
    match o {
        Some(s) => Some(s.clone()),
        None => None,
    }
}

fn find_base_module(base: &Vec<GraphSymbol>, local: &str) -> (r: Option<String>)
    ensures
        opt_view(r) == base_module_for(base@, local@),
{
    let mut i: usize = base.len();
    assert(base@.take(base@.len() as int) =~= base@);
    while i > 0
        invariant
            i <= base@.len(),
            base_module_for(base@, local@) == base_module_for(base@.take(i as int), local@),
        decreases i,
    {
        let ghost t = base@.take(i as int);
        assert(t.drop_last() =~= base@.take(i - 1));
        if str_equal(base[i - 1].local_id.as_str(), local) {
            return Some(base[i - 1].module_id.clone());
        }
        i = i - 1;
    }
    None
}

fn symbol_of_fact(f: &RustLocalSymbolFact, module_id: String, path: &RepoPath) -> (s: GraphSymbol)
    ensures
        symbol_from_fact(s, *f, module_id@, path@),
        s.owner_symbol_id is None,
{
    let symbol_id = repository_symbol_id(module_id.as_str(), path, f.local_id.as_str());
    let signature = if f.signature.unicode_len() == 0 {
        None
    } else {
        Some(f.signature.clone())
    };
    GraphSymbol {
        symbol_id,
        local_id: f.local_id.clone(),
        module_id,
        path: path.duplicate(),
        language: String::from_str("rust"),
        kind: f.kind.clone(),
        name: f.name.clone(),
        owner_symbol_id: None,
        signature,
        visibility: copy_opt(&f.visibility),
        range: f.range,
        confidence: Confidence::Medium,
    }
}

/// The symbols refreshed from a changed file's facts, before their owners
/// are linked, and the limitations of the walk; each symbol costs one unit
/// of the symbol budget.
pub fn overlay_symbols(
    path: &RepoPath,
    facts: &Vec<RustLocalSymbolFact>,
    base: &Vec<GraphSymbol>,
    primary: &Option<String>,
    tracker: &mut IndexBudgetTracker,
) -> (r: (Vec<GraphSymbol>, Vec<IndexLimitation>))
    requires
        old(tracker).wf(),
    ensures
        final(tracker).wf(),
        final(tracker).budget_of() == old(tracker).budget_of(),
        final(tracker).deadline_exhausted_of() == old(tracker).deadline_exhausted_of(),
        ({
            let room = old(tracker).budget_of().limit_of(IndexResource::Symbols) - old(
                tracker,
            ).consumed_of(IndexResource::Symbols);
            let acc = accepted_facts(facts@, base@, opt_view(*primary), room);
            &&& r.0@.len() == acc.len()
            &&& forall|j: int|
                0 <= j < acc.len() ==> symbol_from_fact(#[trigger] r.0@[j], acc[j].0, acc[j].1, path@)
            &&& forall|j: int| 0 <= j < r.0@.len() ==> (#[trigger] r.0@[j]).owner_symbol_id is None
            &&& limitations_listed(
                r.1@,
                symbol_walk_limitations(facts@, base@, opt_view(*primary), room),
                path@,
            )
            &&& final(tracker).consumed_of(IndexResource::Symbols) == old(tracker).consumed_of(
                IndexResource::Symbols,
            ) + acc.len()
        }),
        forall|other: IndexResource|
            other != IndexResource::Symbols ==> #[trigger] final(tracker).consumed_of(other) == old(
                tracker,
            ).consumed_of(other),
        forall|other: IndexResource|
            other != IndexResource::Symbols ==> #[trigger] final(tracker).exhausted_of(other) == old(
                tracker,
            ).exhausted_of(other),
{
    let ghost res = IndexResource::Symbols;
    let ghost c0 = tracker.consumed_of(res);
    let ghost room0 = tracker.budget_of().limit_of(res) - c0;
    let ghost prim = opt_view(*primary);
    let ghost acc_all = accepted_facts(facts@, base@, prim, room0);
    let ghost lim_all = symbol_walk_limitations(facts@, base@, prim, room0);
    let ghost mut acc_done: Seq<(RustLocalSymbolFact, Seq<char>)> = Seq::empty();
    let ghost mut lim_done: Seq<(Seq<char>, Seq<char>)> = Seq::empty();
    let mut symbols: Vec<GraphSymbol> = Vec::new();
    let mut limitations: Vec<IndexLimitation> = Vec::new();
    let mut i: usize = 0;
    assert(facts@.skip(0) =~= facts@);
    assert(acc_done + acc_all =~= acc_all);
    assert(lim_done + lim_all =~= lim_all);
    while i < facts.len()
        invariant
            i <= facts@.len(),
            tracker.wf(),
            tracker.budget_of() == old(tracker).budget_of(),
            tracker.deadline_exhausted_of() == old(tracker).deadline_exhausted_of(),
            res == IndexResource::Symbols,
            c0 == old(tracker).consumed_of(res),
            room0 == old(tracker).budget_of().limit_of(res) - c0,
            prim == opt_view(*primary),
            acc_all == accepted_facts(facts@, base@, prim, room0),
            lim_all == symbol_walk_limitations(facts@, base@, prim, room0),
            acc_done + accepted_facts(
                facts@.skip(i as int),
                base@,
                prim,
                tracker.budget_of().limit_of(res) - tracker.consumed_of(res),
            ) == acc_all,
            lim_done + symbol_walk_limitations(
                facts@.skip(i as int),
                base@,
                prim,
                tracker.budget_of().limit_of(res) - tracker.consumed_of(res),
            ) == lim_all,
            tracker.consumed_of(res) == c0 + acc_done.len(),
            symbols@.len() == acc_done.len(),
            forall|j: int|
                0 <= j < acc_done.len() ==> symbol_from_fact(
                    #[trigger] symbols@[j],
                    acc_done[j].0,
                    acc_done[j].1,
                    path@,
                ),
            forall|j: int| 0 <= j < symbols@.len() ==> (#[trigger] symbols@[j]).owner_symbol_id is None,
            limitations_listed(limitations@, lim_done, path@),
            forall|other: IndexResource|
                other != IndexResource::Symbols ==> #[trigger] tracker.consumed_of(other) == old(
                    tracker,
                ).consumed_of(other),
            forall|other: IndexResource|
                other != IndexResource::Symbols ==> #[trigger] tracker.exhausted_of(other) == old(
                    tracker,
                ).exhausted_of(other),
        decreases facts@.len() - i,
    {
        let ghost rest = facts@.skip(i as int);
        let ghost room = tracker.budget_of().limit_of(res) - tracker.consumed_of(res);
        assert(rest.drop_first() =~= facts@.skip(i + 1));
        assert(rest[0] == facts@[i as int]);
        let fact = &facts[i];
        let module = match find_base_module(base, fact.local_id.as_str()) {
            Some(m) => Some(m),
            None => copy_opt(primary),
        };
        match module {
            None => {
                limitations.push(
                    overlay_limitation(
                        "repository-overlay-module-unresolved",
                        path.duplicate(),
                        "the changed symbol could not be assigned to a known base module",
                    ),
                );
                proof {
                    let item = (
                        "repository-overlay-module-unresolved"@,
                        "the changed symbol could not be assigned to a known base module"@,
                    );
                    assert(lim_done.push(item) + symbol_walk_limitations(facts@.skip(i + 1), base@, prim, room)
                        =~= lim_done + symbol_walk_limitations(rest, base@, prim, room));
                    lim_done = lim_done.push(item);
                }
            },
            Some(module_id) => {
                let ghost before = *tracker;
                let charged = tracker.consume(IndexResource::Symbols, 1);
                proof {
                    assert forall|o: IndexResource| o != IndexResource::Symbols implies #[trigger] tracker.exhausted_of(o)
                        == old(tracker).exhausted_of(o) by {
                        assert(tracker.consumed_of(o) == before.consumed_of(o));
                    }
                }
                match charged {
                    Err(e) => {
                        limitations.push(
                            overlay_limitation(
                                e.code(),
                                path.duplicate(),
                                "the overlay symbol budget was exhausted",
                            ),
                        );
                        proof {
                            let item = (
                                IndexResource::Symbols.exhaustion_code_of(),
                                "the overlay symbol budget was exhausted"@,
                            );
                            assert(accepted_facts(rest, base@, prim, room) =~= Seq::<(RustLocalSymbolFact, Seq<char>)>::empty());
                            assert(acc_done =~= acc_all);
                            lim_done = lim_done.push(item);
                            assert(lim_done =~= lim_all);
                        }
                        return (symbols, limitations);
                    },
                    Ok(()) => {
                        let ghost m = module_id@;
                        let symbol = symbol_of_fact(fact, module_id, path);
                        symbols.push(symbol);
                        proof {
                            assert(accepted_facts(rest, base@, prim, room) =~= seq![(facts@[i as int], m)]
                                + accepted_facts(facts@.skip(i + 1), base@, prim, room - 1));
                            assert(acc_done.push((facts@[i as int], m)) + accepted_facts(facts@.skip(i + 1), base@, prim, room - 1)
                                =~= acc_done + accepted_facts(rest, base@, prim, room));
                            acc_done = acc_done.push((facts@[i as int], m));
                        }
                    },
                }
            },
        }
        i = i + 1;
    }
    proof {
        assert(facts@.skip(i as int) =~= Seq::<RustLocalSymbolFact>::empty());
        assert(acc_done =~= acc_all);
        assert(lim_done =~= lim_all);
    }
    (symbols, limitations)
}

/// The owner named by the first fact with local identifier `local`.
pub open spec fn first_owner(facts: Seq<RustLocalSymbolFact>, local: Seq<char>) -> Option<Seq<char>>
    decreases facts.len(),
{
    if facts.len() == 0 {
        None
    } else if facts[0].local_id@ == local {
        opt_view(facts[0].owner_local_id)
    } else {
        first_owner(facts.drop_first(), local)
    }
}

/// The identifier of the last symbol with local identifier `local`.
pub open spec fn last_symbol_id(symbols: Seq<GraphSymbol>, local: Seq<char>) -> Option<Seq<char>>
    decreases symbols.len(),
{
    if symbols.len() == 0 {
        None
    } else if symbols.last().local_id@ == local {
        Some(symbols.last().symbol_id@)
    } else {
        last_symbol_id(symbols.drop_last(), local)
    }
}

/// The refreshed owner of a symbol: the symbol that now carries the local
/// identifier its fact names as owner.
pub open spec fn owner_of(
    facts: Seq<RustLocalSymbolFact>,
    symbols: Seq<GraphSymbol>,
    local: Seq<char>,
) -> Option<Seq<char>> {
    match first_owner(facts, local) {
        Some(o) => last_symbol_id(symbols, o),
        None => None,
    }
}

/// Two symbols agree on everything but their owner.
pub open spec fn same_except_owner(a: GraphSymbol, b: GraphSymbol) -> bool {
    &&& a.symbol_id == b.symbol_id
    &&& a.local_id == b.local_id
    &&& a.module_id == b.module_id
    &&& a.path@ == b.path@
    &&& a.language == b.language
    &&& a.kind == b.kind
    &&& a.name == b.name
    &&& a.signature == b.signature
    &&& a.visibility == b.visibility
    &&& a.range == b.range
    &&& a.confidence == b.confidence
}

fn find_first_owner(facts: &Vec<RustLocalSymbolFact>, local: &str) -> (r: Option<String>)
    ensures
        opt_view(r) == first_owner(facts@, local@),
{
    let mut i: usize = 0;
    assert(facts@.skip(0) =~= facts@);
    while i < facts.len()
        invariant
            i <= facts@.len(),
            first_owner(facts@, local@) == first_owner(facts@.skip(i as int), local@),
        decreases facts@.len() - i,
    {
        let ghost rest = facts@.skip(i as int);
        assert(rest.drop_first() =~= facts@.skip(i + 1));
        assert(rest[0] == facts@[i as int]);
        if str_equal(facts[i].local_id.as_str(), local) {
            return copy_opt(&facts[i].owner_local_id);
        }
        i = i + 1;
    }
    None
}

fn find_last_symbol_id(symbols: &Vec<GraphSymbol>, local: &str) -> (r: Option<String>)
    ensures
        opt_view(r) == last_symbol_id(symbols@, local@),
{
    let mut i: usize = symbols.len();
    assert(symbols@.take(symbols@.len() as int) =~= symbols@);
    while i > 0
        invariant
            i <= symbols@.len(),
            last_symbol_id(symbols@, local@) == last_symbol_id(symbols@.take(i as int), local@),
        decreases i,
    {
        let ghost t = symbols@.take(i as int);
        assert(t.drop_last() =~= symbols@.take(i - 1));
        if str_equal(symbols[i - 1].local_id.as_str(), local) {
            return Some(symbols[i - 1].symbol_id.clone());
        }
        i = i - 1;
    }
    None
}

fn with_owner(s: &GraphSymbol, owner: Option<String>) -> (r: GraphSymbol)
    ensures
        same_except_owner(r, *s),
        r.owner_symbol_id == owner,
{
    GraphSymbol {
        symbol_id: s.symbol_id.clone(),
        local_id: s.local_id.clone(),
        module_id: s.module_id.clone(),
        path: s.path.duplicate(),
        language: s.language.clone(),
        kind: s.kind.clone(),
        name: s.name.clone(),
        owner_symbol_id: owner,
        signature: copy_opt(&s.signature),
        visibility: copy_opt(&s.visibility),
        range: s.range,
        confidence: s.confidence,
    }
}

/// Links each refreshed symbol to its refreshed owner.
pub fn link_owners(symbols: &Vec<GraphSymbol>, facts: &Vec<RustLocalSymbolFact>) -> (r: Vec<GraphSymbol>)
    ensures
        r@.len() == symbols@.len(),
        forall|j: int|
            0 <= j < r@.len() ==> same_except_owner(#[trigger] r@[j], symbols@[j]) && opt_view(
                r@[j].owner_symbol_id,
            ) == owner_of(facts@, symbols@, symbols@[j].local_id@),
{
    let mut out: Vec<GraphSymbol> = Vec::new();
    let mut j: usize = 0;
    while j < symbols.len()
        invariant
            j <= symbols@.len(),
            out@.len() == j,
            forall|k: int|
                0 <= k < j ==> same_except_owner(#[trigger] out@[k], symbols@[k]) && opt_view(
                    out@[k].owner_symbol_id,
                ) == owner_of(facts@, symbols@, symbols@[k].local_id@),
        decreases symbols@.len() - j,
    {
        let owner = match find_first_owner(facts, symbols[j].local_id.as_str()) {
            Some(o) => find_last_symbol_id(symbols, o.as_str()),
            None => None,
        };
        out.push(with_owner(&symbols[j], owner));
        j = j + 1;
    }
    out
}

/// The refreshed identifier that replaces base symbol `base_id`: the
/// refreshed symbol carrying the local identifier of the last base symbol
/// with that identifier whose local identifier was refreshed.
pub open spec fn candidate_for_base(
    base: Seq<GraphSymbol>,
    symbols: Seq<GraphSymbol>,
    base_id: Seq<char>,
) -> Option<Seq<char>>
    decreases base.len(),
{
    if base.len() == 0 {
        None
    } else if base.last().symbol_id@ == base_id && last_symbol_id(
        symbols,
        base.last().local_id@,
    ) is Some {
        last_symbol_id(symbols, base.last().local_id@)
    } else {
        candidate_for_base(base.drop_last(), symbols, base_id)
    }
}

/// The name a base edge targets: the base graph's name for its target
/// symbol (as looked up), else its unresolved target.
pub open spec fn target_name_of(e: GraphEdge, looked_up: Option<String>) -> Option<Seq<char>> {
    match e.to_symbol {
        Some(_) => opt_view(looked_up),
        None => opt_view(e.unresolved_target),
    }
}

/// The refreshed target of a kept base edge: the replacement of its target
/// symbol where there is one, else the base target unchanged.
pub open spec fn kept_target(e: GraphEdge, base: Seq<GraphSymbol>, symbols: Seq<GraphSymbol>) -> Option<Seq<char>> {
    match e.to_symbol {
        Some(t) => match candidate_for_base(base, symbols, t@) {
            Some(c) => Some(c),
            None => Some(t@),
        },
        None => None,
    }
}

/// A base edge is kept when its source symbol was refreshed and the
/// relation is still written in the new facts.
pub open spec fn base_edge_kept(
    e: GraphEdge,
    looked_up: Option<String>,
    base: Seq<GraphSymbol>,
    symbols: Seq<GraphSymbol>,
    facts: RustFileFacts,
) -> bool {
    &&& candidate_for_base(base, symbols, e.from_symbol@) is Some
    &&& edge_still_present_spec(e, target_name_of(e, looked_up), facts)
}

/// `out` is the refreshed edge of kept base edge `e`.
pub open spec fn kept_edge_of(
    out: GraphEdge,
    e: GraphEdge,
    base: Seq<GraphSymbol>,
    symbols: Seq<GraphSymbol>,
    path: Seq<char>,
) -> bool {
    let from = candidate_for_base(base, symbols, e.from_symbol@)->0;
    let to = kept_target(e, base, symbols);
    &&& out.edge_id@ == overlay_edge_id_spec(
        e.kind,
        from,
        to,
        opt_view(e.unresolved_target),
        path,
        e.range,
    )
    &&& out.kind == e.kind
    &&& out.from_symbol@ == from
    &&& opt_view(out.to_symbol) == to
    &&& out.unresolved_target == e.unresolved_target
    &&& out.path@ == path
    &&& out.range == e.range
    &&& out.provider_id@ == "rust-tree-sitter-resolver"@
    &&& out.provider_version@ == "rust-resolver/v1"@
    &&& out.resolution == e.resolution
    &&& out.confidence == e.confidence
    &&& out.limitation_code == e.limitation_code
}

/// Base edge `i` is a kept call at the given bytes naming `name`.
pub open spec fn kept_call_at(
    edges: Seq<GraphEdge>,
    names: Seq<Option<String>>,
    base: Seq<GraphSymbol>,
    symbols: Seq<GraphSymbol>,
    facts: RustFileFacts,
    i: int,
    start: usize,
    end: usize,
    name: Seq<char>,
) -> bool {
    &&& 0 <= i < edges.len()
    &&& base_edge_kept(edges[i], names[i], base, symbols, facts)
    &&& edges[i].kind == EdgeKind::Calls
    &&& edges[i].range.start_byte == start
    &&& edges[i].range.end_byte == end
    &&& or_empty(target_name_of(edges[i], names[i])) == name
}

/// A call of the new facts is already covered by a kept base call.
pub open spec fn call_retained(
    c: RustCallSiteFact,
    edges: Seq<GraphEdge>,
    names: Seq<Option<String>>,
    base: Seq<GraphSymbol>,
    symbols: Seq<GraphSymbol>,
    facts: RustFileFacts,
) -> bool {
    exists|i: int|
        #[trigger] kept_call_at(
            edges,
            names,
            base,
            symbols,
            facts,
            i,
            c.range.start_byte,
            c.range.end_byte,
            c.callee@,
        )
}

/// The symbol an unresolved call is attributed to: the refreshed symbol
/// of its caller, else the first refreshed symbol.
pub open spec fn call_from(c: RustCallSiteFact, symbols: Seq<GraphSymbol>) -> Option<Seq<char>> {
    let caller = match c.caller_local_id {
        Some(l) => last_symbol_id(symbols, l@),
        None => None,
    };
    match caller {
        Some(x) => Some(x),
        None => if symbols.len() > 0 {
            Some(symbols[0].symbol_id@)
        } else {
            None
        },
    }
}

/// `out` is the unresolved-call edge of call `c` from `from`.
pub open spec fn call_edge_of(out: GraphEdge, c: RustCallSiteFact, from: Seq<char>, path: Seq<char>) -> bool {
    &&& out.edge_id@ == overlay_edge_id_spec(
        EdgeKind::Calls,
        from,
        None,
        Some(c.callee@),
        path,
        c.range,
    )
    &&& out.kind == EdgeKind::Calls
    &&& out.from_symbol@ == from
    &&& out.to_symbol is None
    &&& opt_view(out.unresolved_target) == Some(c.callee@)
    &&& out.path@ == path
    &&& out.range == c.range
    &&& out.provider_id@ == "rust-tree-sitter-resolver"@
    &&& out.provider_version@ == "rust-resolver/v1"@
    &&& out.resolution == Resolution::Unresolved
    &&& out.confidence == Confidence::Low
    &&& opt_view(out.limitation_code) == Some("repository-overlay-call-unresolved"@)
}

fn find_candidate_for_base(
    base: &Vec<GraphSymbol>,
    symbols: &Vec<GraphSymbol>,
    base_id: &str,
) -> (r: Option<String>)
    ensures
        opt_view(r) == candidate_for_base(base@, symbols@, base_id@),
{
    let mut i: usize = base.len();
    assert(base@.take(base@.len() as int) =~= base@);
    while i > 0
        invariant
            i <= base@.len(),
            candidate_for_base(base@, symbols@, base_id@) == candidate_for_base(
                base@.take(i as int),
                symbols@,
                base_id@,
            ),
        decreases i,
    {
        let ghost t = base@.take(i as int);
        assert(t.drop_last() =~= base@.take(i - 1));
        if str_equal(base[i - 1].symbol_id.as_str(), base_id) {
            let found = find_last_symbol_id(symbols, base[i - 1].local_id.as_str());
            if found.is_some() {
                return found;
            }
        }
        i = i - 1;
    }
    None
}

/// The identifier of the refreshed edge of a kept base edge.
pub open spec fn kept_edge_id(e: GraphEdge, base: Seq<GraphSymbol>, symbols: Seq<GraphSymbol>, path: Seq<char>) -> Seq<char> {
    overlay_edge_id_spec(
        e.kind,
        candidate_for_base(base, symbols, e.from_symbol@)->0,
        kept_target(e, base, symbols),
        opt_view(e.unresolved_target),
        path,
        e.range,
    )
}

/// The identifier of the unresolved-call edge of call `c`.
pub open spec fn call_edge_id(c: RustCallSiteFact, symbols: Seq<GraphSymbol>, path: Seq<char>) -> Seq<char> {
    overlay_edge_id_spec(
        EdgeKind::Calls,
        call_from(c, symbols)->0,
        None,
        Some(c.callee@),
        path,
        c.range,
    )
}

/// `out` is the refreshed edge of one of the first `bound` base edges.
pub open spec fn is_kept_edge(
    out: GraphEdge,
    edges: Seq<GraphEdge>,
    names: Seq<Option<String>>,
    base: Seq<GraphSymbol>,
    symbols: Seq<GraphSymbol>,
    facts: RustFileFacts,
    path: Seq<char>,
    bound: int,
) -> bool {
    exists|i: int|
        0 <= i < bound && #[trigger] base_edge_kept(edges[i], names[i], base, symbols, facts)
            && kept_edge_of(out, edges[i], base, symbols, path)
}

/// `out` is the unresolved-call edge of one of the first `bound` calls
/// that no kept base call covers.
pub open spec fn is_call_edge(
    out: GraphEdge,
    edges: Seq<GraphEdge>,
    names: Seq<Option<String>>,
    base: Seq<GraphSymbol>,
    symbols: Seq<GraphSymbol>,
    facts: RustFileFacts,
    path: Seq<char>,
    bound: int,
) -> bool {
    exists|k: int|
        0 <= k < bound && !call_retained(facts.calls@[k], edges, names, base, symbols, facts)
            && call_from(facts.calls@[k], symbols) is Some && #[trigger] call_edge_of(
            out,
            facts.calls@[k],
            call_from(facts.calls@[k], symbols)->0,
            path,
        )
}

struct RetainedCall {
    start: usize,
    end: usize,
    name: String,
}

/// A retained call key stands for a kept base call among the first `bound`.
spec fn retained_ok(
    edges: Seq<GraphEdge>,
    names: Seq<Option<String>>,
    base: Seq<GraphSymbol>,
    symbols: Seq<GraphSymbol>,
    facts: RustFileFacts,
    bound: int,
    t: RetainedCall,
) -> bool {
    exists|q: int|
        q < bound && #[trigger] kept_call_at(
            edges,
            names,
            base,
            symbols,
            facts,
            q,
            t.start,
            t.end,
            t.name@,
        )
}

/// Some retained key has these bytes and this name.
spec fn covers(retained: Seq<RetainedCall>, start: usize, end: usize, name: Seq<char>) -> bool {
    exists|r: int|
        0 <= r < retained.len() && (#[trigger] retained[r]).start == start && retained[r].end
            == end && retained[r].name@ == name
}

proof fn lemma_retained_mono(
    retained: Seq<RetainedCall>,
    edges: Seq<GraphEdge>,
    names: Seq<Option<String>>,
    base: Seq<GraphSymbol>,
    symbols: Seq<GraphSymbol>,
    facts: RustFileFacts,
    from: int,
    to: int,
)
    requires
        from <= to,
        forall|k: int|
            0 <= k < retained.len() ==> retained_ok(edges, names, base, symbols, facts, from, #[trigger] retained[k]),
    ensures
        forall|k: int|
            0 <= k < retained.len() ==> retained_ok(edges, names, base, symbols, facts, to, #[trigger] retained[k]),
{
    assert forall|k: int| 0 <= k < retained.len() implies retained_ok(edges, names, base, symbols, facts, to, #[trigger] retained[k]) by {
        let t = retained[k];
        assert(retained_ok(edges, names, base, symbols, facts, from, t));
        let q = choose|q: int| q < from && #[trigger] kept_call_at(edges, names, base, symbols, facts, q, t.start, t.end, t.name@);
        assert(kept_call_at(edges, names, base, symbols, facts, q, t.start, t.end, t.name@));
    }
}

proof fn lemma_kept_mono(
    out: Seq<GraphEdge>,
    edges: Seq<GraphEdge>,
    names: Seq<Option<String>>,
    base: Seq<GraphSymbol>,
    symbols: Seq<GraphSymbol>,
    facts: RustFileFacts,
    path: Seq<char>,
    from: int,
    to: int,
)
    requires
        from <= to,
        forall|j: int| 0 <= j < out.len() ==> is_kept_edge(#[trigger] out[j], edges, names, base, symbols, facts, path, from),
    ensures
        forall|j: int| 0 <= j < out.len() ==> is_kept_edge(#[trigger] out[j], edges, names, base, symbols, facts, path, to),
{
    assert forall|j: int| 0 <= j < out.len() implies is_kept_edge(#[trigger] out[j], edges, names, base, symbols, facts, path, to) by {
        assert(is_kept_edge(out[j], edges, names, base, symbols, facts, path, from));
        let q = choose|q: int|
            0 <= q < from && #[trigger] base_edge_kept(edges[q], names[q], base, symbols, facts)
                && kept_edge_of(out[j], edges[q], base, symbols, path);
        assert(base_edge_kept(edges[q], names[q], base, symbols, facts));
    }
}

proof fn lemma_call_mono(
    out: Seq<GraphEdge>,
    edges: Seq<GraphEdge>,
    names: Seq<Option<String>>,
    base: Seq<GraphSymbol>,
    symbols: Seq<GraphSymbol>,
    facts: RustFileFacts,
    path: Seq<char>,
    bound: int,
    from: int,
    to: int,
)
    requires
        from <= to,
        forall|j: int| 0 <= j < out.len() ==> is_kept_edge(#[trigger] out[j], edges, names, base, symbols, facts, path, bound)
            || is_call_edge(out[j], edges, names, base, symbols, facts, path, from),
    ensures
        forall|j: int| 0 <= j < out.len() ==> is_kept_edge(#[trigger] out[j], edges, names, base, symbols, facts, path, bound)
            || is_call_edge(out[j], edges, names, base, symbols, facts, path, to),
{
    assert forall|j: int| 0 <= j < out.len() implies is_kept_edge(#[trigger] out[j], edges, names, base, symbols, facts, path, bound)
        || is_call_edge(out[j], edges, names, base, symbols, facts, path, to) by {
        if !is_kept_edge(out[j], edges, names, base, symbols, facts, path, bound) {
            assert(is_call_edge(out[j], edges, names, base, symbols, facts, path, from));
            let k = choose|k: int|
                0 <= k < from && !call_retained(facts.calls@[k], edges, names, base, symbols, facts)
                    && call_from(facts.calls@[k], symbols) is Some && #[trigger] call_edge_of(
                    out[j],
                    facts.calls@[k],
                    call_from(facts.calls@[k], symbols)->0,
                    path,
                );
            assert(call_edge_of(out[j], facts.calls@[k], call_from(facts.calls@[k], symbols)->0, path));
        }
    }
}

proof fn lemma_covered_iff_retained(
    retained: Seq<RetainedCall>,
    edges: Seq<GraphEdge>,
    nm: Seq<Option<String>>,
    bs: Seq<GraphSymbol>,
    ss: Seq<GraphSymbol>,
    fs: RustFileFacts,
    bound: int,
    c: RustCallSiteFact,
)
    requires
        bound == edges.len(),
        forall|r: int|
            0 <= r < retained.len() ==> retained_ok(edges, nm, bs, ss, fs, bound, #[trigger] retained[r]),
        forall|q: int|
            0 <= q < bound && #[trigger] base_edge_kept(edges[q], nm[q], bs, ss, fs)
                && edges[q].kind == EdgeKind::Calls ==> covers(
                retained,
                edges[q].range.start_byte,
                edges[q].range.end_byte,
                or_empty(target_name_of(edges[q], nm[q])),
            ),
    ensures
        covers(retained, c.range.start_byte, c.range.end_byte, c.callee@) == call_retained(c, edges, nm, bs, ss, fs),
{
    if covers(retained, c.range.start_byte, c.range.end_byte, c.callee@) {
        let r = choose|r: int|
            0 <= r < retained.len() && (#[trigger] retained[r]).start == c.range.start_byte
                && retained[r].end == c.range.end_byte && retained[r].name@ == c.callee@;
        let t = retained[r];
        assert(retained_ok(edges, nm, bs, ss, fs, bound, t));
        let q = choose|q: int| q < bound && #[trigger] kept_call_at(edges, nm, bs, ss, fs, q, t.start, t.end, t.name@);
        assert(kept_call_at(edges, nm, bs, ss, fs, q, c.range.start_byte, c.range.end_byte, c.callee@));
    } else if call_retained(c, edges, nm, bs, ss, fs) {
        let q = choose|q: int|
            #[trigger] kept_call_at(edges, nm, bs, ss, fs, q, c.range.start_byte, c.range.end_byte, c.callee@);
        assert(base_edge_kept(edges[q], nm[q], bs, ss, fs));
    }
}

fn is_retained(retained: &Vec<RetainedCall>, c: &RustCallSiteFact) -> (r: bool)
    ensures
        r == covers(retained@, c.range.start_byte, c.range.end_byte, c.callee@),
{
    let mut k: usize = 0;
    while k < retained.len()
        invariant
            k <= retained@.len(),
            forall|q: int|
                0 <= q < k ==> !((#[trigger] retained@[q]).start == c.range.start_byte
                    && retained@[q].end == c.range.end_byte && retained@[q].name@ == c.callee@),
        decreases retained@.len() - k,
    {
        if retained[k].start == c.range.start_byte && retained[k].end == c.range.end_byte
            && str_equal(retained[k].name.as_str(), c.callee.as_str()) {
            return true;
        }
        k = k + 1;
    }
    false
}

fn kept_base_edge(
    path: &RepoPath,
    e: &GraphEdge,
    looked_up: &Option<String>,
    base: &Vec<GraphSymbol>,
    symbols: &Vec<GraphSymbol>,
    facts: &RustFileFacts,
) -> (r: Option<(GraphEdge, Option<String>)>)
    ensures
        r is Some <==> base_edge_kept(*e, *looked_up, base@, symbols@, *facts),
        r matches Some((out, name)) ==> kept_edge_of(out, *e, base@, symbols@, path@) && opt_view(name)
            == target_name_of(*e, *looked_up),
{
    let from = match find_candidate_for_base(base, symbols, e.from_symbol.as_str()) {
        Some(f) => f,
        None => return None,
    };
    let name: Option<String> = match &e.to_symbol {
        Some(_) => copy_opt(looked_up),
        None => copy_opt(&e.unresolved_target),
    };
    if !overlay_edge_still_present(e, &name, facts) {
        return None;
    }
    let to: Option<String> = match &e.to_symbol {
        Some(t) => match find_candidate_for_base(base, symbols, t.as_str()) {
            Some(c) => Some(c),
            None => Some(t.clone()),
        },
        None => None,
    };
    let edge = make_overlay_edge(
        e.kind,
        from.as_str(),
        to,
        copy_opt(&e.unresolved_target),
        path,
        &e.range,
        e.resolution,
        e.confidence,
        copy_opt(&e.limitation_code),
    );
    Some((edge, name))
}

fn new_call_edge(path: &RepoPath, c: &RustCallSiteFact, symbols: &Vec<GraphSymbol>) -> (r: Option<GraphEdge>)
    ensures
        r is Some <==> call_from(*c, symbols@) is Some,
        r matches Some(out) ==> call_edge_of(out, *c, call_from(*c, symbols@)->0, path@),
{
    let caller: Option<String> = match &c.caller_local_id {
        Some(l) => find_last_symbol_id(symbols, l.as_str()),
        None => None,
    };
    let from: String = match caller {
        Some(x) => x,
        None => if symbols.len() > 0 {
            symbols[0].symbol_id.clone()
        } else {
            return None;
        },
    };
    Some(
        make_overlay_edge(
            EdgeKind::Calls,
            from.as_str(),
            None,
            Some(c.callee.clone()),
            path,
            &c.range,
            Resolution::Unresolved,
            Confidence::Low,
            Some(String::from_str("repository-overlay-call-unresolved")),
        ),
    )
}

/// The edges of a changed file after its refresh: each kept base edge,
/// re-pointed at the refreshed symbols, and each new call that no kept
/// base call covers, as an unresolved call; sorted by identifier with one
/// edge per identifier (the first). `names` holds, for each base edge, the
/// base graph's name of its target symbol.
pub fn overlay_edges(
    path: &RepoPath,
    base_edges: &Vec<GraphEdge>,
    names: &Vec<Option<String>>,
    base: &Vec<GraphSymbol>,
    symbols: &Vec<GraphSymbol>,
    facts: &RustFileFacts,
) -> (r: Vec<GraphEdge>)
    requires
        names@.len() == base_edges@.len(),
    ensures
        keyed_sorted(r@),
        forall|j: int|
            0 <= j < r@.len() ==> is_kept_edge(
                #[trigger] r@[j],
                base_edges@,
                names@,
                base@,
                symbols@,
                *facts,
                path@,
                base_edges@.len() as int,
            ) || is_call_edge(
                r@[j],
                base_edges@,
                names@,
                base@,
                symbols@,
                *facts,
                path@,
                facts.calls@.len() as int,
            ),
        forall|i: int|
            0 <= i < base_edges@.len() && #[trigger] base_edge_kept(
                base_edges@[i],
                names@[i],
                base@,
                symbols@,
                *facts,
            ) ==> keys_of(r@).contains(kept_edge_id(base_edges@[i], base@, symbols@, path@)),
        forall|k: int|
            0 <= k < facts.calls@.len() && !call_retained(
                #[trigger] facts.calls@[k],
                base_edges@,
                names@,
                base@,
                symbols@,
                *facts,
            ) && call_from(facts.calls@[k], symbols@) is Some ==> keys_of(r@).contains(
                call_edge_id(facts.calls@[k], symbols@, path@),
            ),
{
    let ghost edges = base_edges@;
    let ghost nm = names@;
    let ghost bs = base@;
    let ghost ss = symbols@;
    let ghost fs = *facts;
    let ghost p = path@;
    let mut out: Vec<GraphEdge> = Vec::new();
    let mut retained: Vec<RetainedCall> = Vec::new();
    let mut i: usize = 0;
    while i < base_edges.len()
        invariant
            i <= edges.len(),
            edges == base_edges@,
            nm == names@,
            nm.len() == edges.len(),
            bs == base@,
            ss == symbols@,
            fs == *facts,
            p == path@,
            keyed_sorted(out@),
            forall|j: int|
                0 <= j < out@.len() ==> is_kept_edge(#[trigger] out@[j], edges, nm, bs, ss, fs, p, i as int),
            forall|q: int|
                0 <= q < i && #[trigger] base_edge_kept(edges[q], nm[q], bs, ss, fs) ==> keys_of(
                    out@,
                ).contains(kept_edge_id(edges[q], bs, ss, p)),
            forall|k: int|
                0 <= k < retained@.len() ==> retained_ok(edges, nm, bs, ss, fs, i as int, #[trigger] retained@[k]),
            forall|q: int|
                0 <= q < i && #[trigger] base_edge_kept(edges[q], nm[q], bs, ss, fs)
                    && edges[q].kind == EdgeKind::Calls ==> covers(
                    retained@,
                    edges[q].range.start_byte,
                    edges[q].range.end_byte,
                    or_empty(target_name_of(edges[q], nm[q])),
                ),
        decreases edges.len() - i,
    {
        let ghost old_out = out@;
        let ghost old_ret = retained@;
        proof {
            lemma_kept_mono(old_out, edges, nm, bs, ss, fs, p, i as int, i + 1);
            lemma_retained_mono(old_ret, edges, nm, bs, ss, fs, i as int, i + 1);
        }
        match kept_base_edge(path, &base_edges[i], &names[i], base, symbols, facts) {
            None => {},
            Some((edge, name)) => {
                let ghost e = edges[i as int];
                if edge.kind == EdgeKind::Calls {
                    let key = match &name {
                        Some(n) => n.clone(),
                        None => String::new(),
                    };
                    retained.push(RetainedCall { start: edge.range.start_byte, end: edge.range.end_byte, name: key });
                    proof {
                        let last = retained@.len() - 1;
                        assert(kept_call_at(edges, nm, bs, ss, fs, i as int, e.range.start_byte, e.range.end_byte, key@));
                        assert(retained@[last].start == e.range.start_byte);
                        assert(retained@[last].end == e.range.end_byte);
                        assert(retained@[last].name@ == key@);
                        assert(retained_ok(edges, nm, bs, ss, fs, i + 1, retained@[last]));
                        assert forall|k: int| 0 <= k < retained@.len() implies retained_ok(edges, nm, bs, ss, fs, i + 1, #[trigger] retained@[k]) by {
                            if k < old_ret.len() {
                                assert(retained@[k] == old_ret[k]);
                            }
                        }
                        assert forall|q: int|
                            0 <= q < i + 1 && #[trigger] base_edge_kept(edges[q], nm[q], bs, ss, fs)
                                && edges[q].kind == EdgeKind::Calls implies covers(
                                retained@,
                                edges[q].range.start_byte,
                                edges[q].range.end_byte,
                                or_empty(target_name_of(edges[q], nm[q])),
                            ) by {
                            if q < i {
                                let r = choose|r: int|
                                    0 <= r < old_ret.len() && (#[trigger] old_ret[r]).start == edges[q].range.start_byte
                                        && old_ret[r].end == edges[q].range.end_byte && old_ret[r].name@
                                        == or_empty(target_name_of(edges[q], nm[q]));
                                assert(retained@[r] == old_ret[r]);
                            } else {
                                assert(retained@[last].start == edges[q].range.start_byte);
                            }
                        }
                    }
                }
                insert_absent(&mut out, edge);
                proof {
                    assert forall|j: int| 0 <= j < out@.len() implies is_kept_edge(#[trigger] out@[j], edges, nm, bs, ss, fs, p, i + 1) by {
                        if out@[j] == edge {
                            assert(base_edge_kept(edges[i as int], nm[i as int], bs, ss, fs));
                        } else {
                            assert(old_out.contains(out@[j]));
                            let w = choose|w: int| 0 <= w < old_out.len() && old_out[w] == out@[j];
                            assert(is_kept_edge(old_out[w], edges, nm, bs, ss, fs, p, i + 1));
                        }
                    }
                }
            },
        }
        i = i + 1;
    }
    let ghost bound = edges.len() as int;
    let ghost calls = facts.calls@;
    let mut k: usize = 0;
    while k < facts.calls.len()
        invariant
            k <= calls.len(),
            calls == facts.calls@,
            bound == edges.len(),
            edges == base_edges@,
            nm == names@,
            nm.len() == edges.len(),
            bs == base@,
            ss == symbols@,
            fs == *facts,
            p == path@,
            keyed_sorted(out@),
            forall|j: int|
                0 <= j < out@.len() ==> is_kept_edge(#[trigger] out@[j], edges, nm, bs, ss, fs, p, bound)
                    || is_call_edge(out@[j], edges, nm, bs, ss, fs, p, k as int),
            forall|q: int|
                0 <= q < bound && #[trigger] base_edge_kept(edges[q], nm[q], bs, ss, fs) ==> keys_of(
                    out@,
                ).contains(kept_edge_id(edges[q], bs, ss, p)),
            forall|q: int|
                0 <= q < k && !call_retained(#[trigger] calls[q], edges, nm, bs, ss, fs) && call_from(
                    calls[q],
                    ss,
                ) is Some ==> keys_of(out@).contains(call_edge_id(calls[q], ss, p)),
            forall|r: int|
                0 <= r < retained@.len() ==> retained_ok(edges, nm, bs, ss, fs, bound, #[trigger] retained@[r]),
            forall|q: int|
                0 <= q < bound && #[trigger] base_edge_kept(edges[q], nm[q], bs, ss, fs)
                    && edges[q].kind == EdgeKind::Calls ==> covers(
                    retained@,
                    edges[q].range.start_byte,
                    edges[q].range.end_byte,
                    or_empty(target_name_of(edges[q], nm[q])),
                ),
        decreases calls.len() - k,
    {
        let c = &facts.calls[k];
        let ghost old_out = out@;
        proof {
            lemma_call_mono(old_out, edges, nm, bs, ss, fs, p, bound, k as int, k + 1);
        }
        let covered = is_retained(&retained, c);
        proof {
            lemma_covered_iff_retained(retained@, edges, nm, bs, ss, fs, bound, *c);
        }
        if !covered {
            match new_call_edge(path, c, symbols) {
                None => {},
                Some(edge) => {
                    insert_absent(&mut out, edge);
                    proof {
                        assert forall|j: int| 0 <= j < out@.len() implies is_kept_edge(#[trigger] out@[j], edges, nm, bs, ss, fs, p, bound)
                            || is_call_edge(out@[j], edges, nm, bs, ss, fs, p, k + 1) by {
                            if out@[j] == edge {
                                assert(call_edge_of(out@[j], calls[k as int], call_from(calls[k as int], ss)->0, p));
                            } else {
                                assert(old_out.contains(out@[j]));
                                let w = choose|w: int| 0 <= w < old_out.len() && old_out[w] == out@[j];
                                assert(is_kept_edge(old_out[w], edges, nm, bs, ss, fs, p, bound) || is_call_edge(old_out[w], edges, nm, bs, ss, fs, p, k + 1));
                            }
                        }
                    }
                },
            }
        }
        k = k + 1;
    }
    out
}

/// Linking owners keeps which symbol carries which local identifier.
proof fn lemma_last_symbol_id_kept(a: Seq<GraphSymbol>, b: Seq<GraphSymbol>, local: Seq<char>)
    requires
        a.len() == b.len(),
        forall|j: int| 0 <= j < a.len() ==> same_except_owner(#[trigger] a[j], b[j]),
    ensures
        last_symbol_id(a, local) == last_symbol_id(b, local),
    decreases a.len(),
{
    if a.len() > 0 {
        assert(same_except_owner(a[a.len() - 1], b[b.len() - 1]));
        assert forall|j: int| 0 <= j < a.drop_last().len() implies same_except_owner(
            #[trigger] a.drop_last()[j],
            b.drop_last()[j],
        ) by {
            assert(same_except_owner(a[j], b[j]));
        }
        lemma_last_symbol_id_kept(a.drop_last(), b.drop_last(), local);
    }
}

/// What one changed path contributes to the candidate graph.
pub struct OverlayPathDelta {
    pub files: Vec<GraphFile>,
    pub symbols: Vec<GraphSymbol>,
    pub edges: Vec<GraphEdge>,
    pub limitations: Vec<IndexLimitation>,
}

/// The module a changed file belongs to in the base graph: the base
/// file's module, else that of its first base symbol.
pub open spec fn primary_module_spec(base_file: Option<GraphFile>, base_symbols: Seq<GraphSymbol>) -> Option<Seq<char>> {
    let from_file = match base_file {
        Some(f) => opt_view(f.module_id),
        None => None,
    };
    match from_file {
        Some(m) => Some(m),
        None => if base_symbols.len() > 0 {
            Some(base_symbols[0].module_id@)
        } else {
            None
        },
    }
}

/// The base-graph module of a changed file, when the base knows one.
pub fn primary_module(base_file: &Option<GraphFile>, base_symbols: &Vec<GraphSymbol>) -> (r: Option<String>)
    ensures
        opt_view(r) == primary_module_spec(*base_file, base_symbols@),
{
    let from_file = match base_file {
        Some(f) => copy_opt(&f.module_id),
        None => None,
    };
    match from_file {
        Some(m) => Some(m),
        None => if base_symbols.len() > 0 {
            Some(base_symbols[0].module_id.clone())
        } else {
            None
        },
    }
}

/// The module used for a changed file: the base graph's, else the one
/// inferred for an added file.
pub open spec fn effective_module(
    base_file: Option<GraphFile>,
    base_symbols: Seq<GraphSymbol>,
    inferred: Option<String>,
) -> Option<Seq<char>> {
    match primary_module_spec(base_file, base_symbols) {
        Some(m) => Some(m),
        None => opt_view(inferred),
    }
}

/// The refreshed file record: the base record (or a new one in the
/// effective module) with the candidate's mode, content and key.
pub open spec fn refreshed_file(
    f: GraphFile,
    path: Seq<char>,
    mode: Seq<char>,
    content_sha256: Seq<char>,
    key: FileFactKey,
    base_file: Option<GraphFile>,
    module: Option<Seq<char>>,
) -> bool {
    &&& f.path@ == (match base_file {
        Some(b) => b.path@,
        None => path,
    })
    &&& opt_view(f.module_id) == (match base_file {
        Some(b) => opt_view(b.module_id),
        None => module,
    })
    &&& f.mode@ == mode
    &&& f.presence == CandidatePresence::Present
    &&& opt_view(f.content_sha256) == Some(content_sha256)
    &&& f.file_fact_key == Some(key)
    &&& opt_view(f.language) == Some("rust"@)
}

/// The limitation recorded when an added file's module was inferred.
pub open spec fn inference_limitations(
    base_file: Option<GraphFile>,
    base_symbols: Seq<GraphSymbol>,
    inferred: Option<String>,
) -> Seq<(Seq<char>, Seq<char>)> {
    if primary_module_spec(base_file, base_symbols) is None && inferred is Some {
        seq![
            (
                "repository-overlay-module-inferred"@,
                "the added Rust file module was inferred from an indexed parent module"@,
            ),
        ]
    } else {
        Seq::empty()
    }
}

/// Refreshes one changed Rust path over the base graph: its file record,
/// its symbols (each charged to the symbol budget, linked to refreshed
/// owners), its edges and its limitations. `inferred_module` is the module
/// inferred for an added file, consulted only when the base graph knows no
/// module for the path; `target_names` gives, for each base edge, the base
/// graph's name of its target symbol.
pub fn resolve_overlay_path(
    path: &RepoPath,
    mode: &str,
    content_sha256: &str,
    key: FileFactKey,
    facts: &RustFileFacts,
    base_file: Option<GraphFile>,
    base_symbols: &Vec<GraphSymbol>,
    base_edges: &Vec<GraphEdge>,
    target_names: &Vec<Option<String>>,
    inferred_module: Option<String>,
    tracker: &mut IndexBudgetTracker,
) -> (r: OverlayPathDelta)
    requires
        old(tracker).wf(),
        target_names@.len() == base_edges@.len(),
    ensures
        final(tracker).wf(),
        final(tracker).budget_of() == old(tracker).budget_of(),
        final(tracker).deadline_exhausted_of() == old(tracker).deadline_exhausted_of(),
        forall|other: IndexResource|
            other != IndexResource::Symbols ==> #[trigger] final(tracker).consumed_of(other) == old(
                tracker,
            ).consumed_of(other),
        ({
            let module = effective_module(base_file, base_symbols@, inferred_module);
            let room = old(tracker).budget_of().limit_of(IndexResource::Symbols) - old(
                tracker,
            ).consumed_of(IndexResource::Symbols);
            let acc = accepted_facts(facts.symbols@, base_symbols@, module, room);
            &&& r.files@.len() == 1
            &&& refreshed_file(
                r.files@[0],
                path@,
                mode@,
                content_sha256@,
                key,
                base_file,
                module,
            )
            &&& r.symbols@.len() == acc.len()
            &&& forall|j: int|
                0 <= j < acc.len() ==> symbol_from_fact(
                    #[trigger] r.symbols@[j],
                    acc[j].0,
                    acc[j].1,
                    path@,
                ) && opt_view(r.symbols@[j].owner_symbol_id) == owner_of(
                    facts.symbols@,
                    r.symbols@,
                    r.symbols@[j].local_id@,
                )
            &&& final(tracker).consumed_of(IndexResource::Symbols) == old(tracker).consumed_of(
                IndexResource::Symbols,
            ) + acc.len()
            &&& limitations_listed(
                r.limitations@,
                inference_limitations(base_file, base_symbols@, inferred_module)
                    + symbol_walk_limitations(facts.symbols@, base_symbols@, module, room),
                path@,
            )
        }),
        keyed_sorted(r.edges@),
        forall|j: int|
            0 <= j < r.edges@.len() ==> is_kept_edge(
                #[trigger] r.edges@[j],
                base_edges@,
                target_names@,
                base_symbols@,
                r.symbols@,
                *facts,
                path@,
                base_edges@.len() as int,
            ) || is_call_edge(
                r.edges@[j],
                base_edges@,
                target_names@,
                base_symbols@,
                r.symbols@,
                *facts,
                path@,
                facts.calls@.len() as int,
            ),
        forall|i: int|
            0 <= i < base_edges@.len() && #[trigger] base_edge_kept(
                base_edges@[i],
                target_names@[i],
                base_symbols@,
                r.symbols@,
                *facts,
            ) ==> keys_of(r.edges@).contains(
                kept_edge_id(base_edges@[i], base_symbols@, r.symbols@, path@),
            ),
        forall|k: int|
            0 <= k < facts.calls@.len() && !call_retained(
                #[trigger] facts.calls@[k],
                base_edges@,
                target_names@,
                base_symbols@,
                r.symbols@,
                *facts,
            ) && call_from(facts.calls@[k], r.symbols@) is Some ==> keys_of(r.edges@).contains(
                call_edge_id(facts.calls@[k], r.symbols@, path@),
            ),
{
    let mut limitations: Vec<IndexLimitation> = Vec::new();
    let ghost inferred_used = primary_module_spec(base_file, base_symbols@) is None && inferred_module is Some;
    let module: Option<String> = match primary_module(&base_file, base_symbols) {
        Some(m) => Some(m),
        None => {
            if inferred_module.is_some() {
                limitations.push(
                    overlay_limitation(
                        "repository-overlay-module-inferred",
                        path.duplicate(),
                        "the added Rust file module was inferred from an indexed parent module",
                    ),
                );
            }
            inferred_module
        },
    };
    let ghost first = limitations@;
    let (unlinked, walk) = overlay_symbols(path, &facts.symbols, base_symbols, &module, tracker);
    let symbols = link_owners(&unlinked, &facts.symbols);
    proof {
        assert forall|j: int| 0 <= j < symbols@.len() implies opt_view(
            #[trigger] symbols@[j].owner_symbol_id,
        ) == owner_of(facts.symbols@, symbols@, symbols@[j].local_id@) by {
            match first_owner(facts.symbols@, unlinked@[j].local_id@) {
                Some(o) => lemma_last_symbol_id_kept(symbols@, unlinked@, o),
                None => {},
            }
        }
    }
    let mut walk = walk;
    limitations.append(&mut walk);
    let edges = overlay_edges(path, base_edges, target_names, base_symbols, &symbols, facts);
    let file = match base_file {
        Some(b) => GraphFile {
            path: b.path,
            mode: String::from_str(mode),
            presence: CandidatePresence::Present,
            content_sha256: Some(String::from_str(content_sha256)),
            file_fact_key: Some(key),
            language: Some(String::from_str("rust")),
            module_id: b.module_id,
        },
        None => GraphFile {
            path: path.duplicate(),
            mode: String::from_str(mode),
            presence: CandidatePresence::Present,
            content_sha256: Some(String::from_str(content_sha256)),
            file_fact_key: Some(key),
            language: Some(String::from_str("rust")),
            module_id: module,
        },
    };
    let mut files: Vec<GraphFile> = Vec::new();
    files.push(file);
    OverlayPathDelta { files, symbols, edges, limitations }
}

/// The limitation for a changed path that no Rust refresh covers: a path
/// absent from the candidate, or one that is not a Rust file.
pub open spec fn screen_spec(path: Seq<char>, presence: CandidatePresence) -> Option<(Seq<char>, Seq<char>)> {
    if presence != CandidatePresence::Present {
        Some(
            (
                "repository-overlay-path-removed"@,
                "the candidate path is absent and its base symbols are tombstoned"@,
            ),
        )
    } else if !has_suffix(path, ".rs"@) {
        Some(
            (
                "repository-overlay-language-unsupported"@,
                "the changed path has no incremental repository resolver"@,
            ),
        )
    } else {
        None
    }
}

/// Whether a changed path is refreshed, or the limitation recorded instead.
pub fn screen_overlay_path(path: &RepoPath, presence: CandidatePresence) -> (r: Option<IndexLimitation>)
    ensures
        r is Some <==> screen_spec(path@, presence) is Some,
        r matches Some(l) ==> limitations_listed(seq![l], seq![screen_spec(path@, presence)->0], path@),
{
    if presence != CandidatePresence::Present {
        let l = overlay_limitation(
            "repository-overlay-path-removed",
            path.duplicate(),
            "the candidate path is absent and its base symbols are tombstoned",
        );
        return Some(l);
    }
    if !str_ends_with(path.as_str(), ".rs") {
        let l = overlay_limitation(
            "repository-overlay-language-unsupported",
            path.duplicate(),
            "the changed path has no incremental repository resolver",
        );
        return Some(l);
    }
    None
}

/// The file-fact key under which a refreshed Rust file's facts are kept.
pub fn overlay_file_fact_key(content_sha256: &str) -> (k: FileFactKey)
    ensures
        k.language@ == "rust"@,
        k.content_sha256@ == content_sha256@,
        k.grammar_version@ == "tree-sitter-rust@0.24.2"@,
        k.query_digest@ == sha256_hex_spec("tree-sitter-rust-index-query/v1"@),
        k.adapter_version@ == "tree-sitter-rust-index/v1"@,
        k.normalization_rules_digest@ == sha256_hex_spec("repository-index-normalization/v1"@),
        k.schema_version == 1,
{
    FileFactKey {
        language: String::from_str("rust"),
        content_sha256: String::from_str(content_sha256),
        grammar_version: String::from_str("tree-sitter-rust@0.24.2"),
        query_digest: sha256_hex("tree-sitter-rust-index-query/v1"),
        adapter_version: String::from_str("tree-sitter-rust-index/v1"),
        normalization_rules_digest: sha256_hex("repository-index-normalization/v1"),
        schema_version: 1,
    }
}

fn saturating_usize(a: usize, b: usize) -> (r: usize)
    ensures
        r == if a + b > usize::MAX { usize::MAX as int } else { a + b },
{
    match a.checked_add(b) {
        Some(v) => v,
        None => usize::MAX,
    }
}

fn saturating_u64(a: u64, b: u64) -> (r: u64)
    ensures
        r == if a + b > u64::MAX { u64::MAX as int } else { a + b },
{
    match a.checked_add(b) {
        Some(v) => v,
        None => u64::MAX,
    }
}

/// Counts one parsed file of `bytes` bytes: a file-fact miss and a parse,
/// each total saturating.
pub fn record_overlay_parse(metrics: &mut IndexMetrics, bytes: usize)
    ensures
        final(metrics).file_fact_misses == if old(metrics).file_fact_misses + 1 > usize::MAX {
            usize::MAX as int
        } else {
            old(metrics).file_fact_misses + 1
        },
        final(metrics).parsed_files == if old(metrics).parsed_files + 1 > usize::MAX {
            usize::MAX as int
        } else {
            old(metrics).parsed_files + 1
        },
        final(metrics).parsed_bytes == if old(metrics).parsed_bytes + bytes > u64::MAX {
            u64::MAX as int
        } else {
            old(metrics).parsed_bytes + bytes
        },
        final(metrics).elapsed_ms == old(metrics).elapsed_ms,
        final(metrics).manifest_files == old(metrics).manifest_files,
        final(metrics).manifest_bytes == old(metrics).manifest_bytes,
        final(metrics).file_fact_hits == old(metrics).file_fact_hits,
        final(metrics).file_fact_writes == old(metrics).file_fact_writes,
        final(metrics).symbols == old(metrics).symbols,
        final(metrics).edges == old(metrics).edges,
        final(metrics).query_rows == old(metrics).query_rows,
        final(metrics).generation_bytes == old(metrics).generation_bytes,
        final(metrics).output_bytes == old(metrics).output_bytes,
{
    metrics.file_fact_misses = saturating_usize(metrics.file_fact_misses, 1);
    metrics.parsed_files = saturating_usize(metrics.parsed_files, 1);
    metrics.parsed_bytes = saturating_u64(metrics.parsed_bytes, bytes as u64);
}

/// How many base rows one overlay query may return: the reader's per-query
/// maximum, capped by the query rows still unspent.
pub fn base_query_limit(maximum_rows_per_query: usize, tracker: &IndexBudgetTracker) -> (r: usize)
    requires
        tracker.wf(),
    ensures
        r == vstd::math::min(
            maximum_rows_per_query as int,
            tracker.budget_of().limit_of(IndexResource::QueryRows) - tracker.consumed_of(
                IndexResource::QueryRows,
            ),
        ),
{
    let remaining = tracker.amount(IndexResource::QueryRows).remaining;
    if maximum_rows_per_query < remaining {
        maximum_rows_per_query
    } else {
        remaining
    }
}

/// The reason recorded when a base query of `what` ("symbol" or "edge")
/// could not run or filled its limit.
pub open spec fn query_reason(what: Seq<char>, exhausted: bool) -> Seq<char> {
    if exhausted {
        "the overlay base-"@ + what + " query budget was exhausted"@
    } else {
        "the overlay base-"@ + what + " query reached its exact row limit"@
    }
}

/// The limitation of a base query that had no room: `limit` is zero.
pub fn query_budget_limitation(path: &RepoPath, what: &str) -> (l: IndexLimitation)
    ensures
        limitations_listed(seq![l], seq![(IndexResource::QueryRows.exhaustion_code_of(), query_reason(what@, true))], path@),
{
    let mut reason = String::from_str("the overlay base-");
    push_text(&mut reason, what);
    push_text(&mut reason, " query budget was exhausted");
    overlay_limitation("index-query-row-budget-exhausted", path.duplicate(), reason.as_str())
}

/// Charges the rows a base query returned; the answer may have been cut at
/// `limit`, which is then recorded. Fails when the rows exceed the budget.
pub fn charge_base_rows(
    path: &RepoPath,
    what: &str,
    rows: usize,
    limit: usize,
    tracker: &mut IndexBudgetTracker,
) -> (r: Result<Option<IndexLimitation>, RepositoryIndexError>)
    requires
        old(tracker).wf(),
    ensures
        final(tracker).wf(),
        final(tracker).budget_of() == old(tracker).budget_of(),
        final(tracker).deadline_exhausted_of() == old(tracker).deadline_exhausted_of(),
        r is Ok <==> old(tracker).consumed_of(IndexResource::QueryRows) + rows <= old(
            tracker,
        ).budget_of().limit_of(IndexResource::QueryRows),
        r is Ok ==> final(tracker).consumed_of(IndexResource::QueryRows) == old(tracker).consumed_of(
            IndexResource::QueryRows,
        ) + rows,
        r matches Err(e) ==> e.code@ == IndexResource::QueryRows.exhaustion_code_of() && e.message@ == e.code@,
        r matches Ok(o) ==> (o is Some <==> rows == limit),
        r matches Ok(Some(l)) ==> limitations_listed(
            seq![l],
            seq![(IndexResource::QueryRows.exhaustion_code_of(), query_reason(what@, false))],
            path@,
        ),
        forall|other: IndexResource|
            other != IndexResource::QueryRows ==> #[trigger] final(tracker).consumed_of(other) == old(
                tracker,
            ).consumed_of(other),
{
    match tracker.consume(IndexResource::QueryRows, rows) {
        Err(e) => Err(RepositoryIndexError::new(e.code(), e.code())),
        Ok(()) => {
            if rows == limit {
                let mut reason = String::from_str("the overlay base-");
                push_text(&mut reason, what);
                push_text(&mut reason, " query reached its exact row limit");
                Ok(
                    Some(
                        overlay_limitation(
                            "index-query-row-budget-exhausted",
                            path.duplicate(),
                            reason.as_str(),
                        ),
                    ),
                )
            } else {
                Ok(None)
            }
        },
    }
}

impl CanonicalOrder for GraphFile {
    open spec fn order_of(&self, other: &Self) -> int {
        ord_text(self.path@, other.path@)
    }

    proof fn lemma_antisymmetric(a: &Self, b: &Self) {
        lemma_ord_text_antisymmetric(a.path@, b.path@);
    }

    fn order(&self, other: &Self) -> (r: i8) {
        order_text(self.path.as_str(), other.path.as_str())
    }
}

impl CanonicalOrder for GraphEdge {
    open spec fn order_of(&self, other: &Self) -> int {
        ord_text(self.edge_id@, other.edge_id@)
    }

    proof fn lemma_antisymmetric(a: &Self, b: &Self) {
        lemma_ord_text_antisymmetric(a.edge_id@, b.edge_id@);
    }

    fn order(&self, other: &Self) -> (r: i8) {
        order_text(self.edge_id.as_str(), other.edge_id.as_str())
    }
}

/// The order of the candidate graph's limitations: by code, then path,
/// then symbol, absent parts as empty text.
pub open spec fn scoped_order(a: IndexLimitation, b: IndexLimitation) -> int {
    then(
        ord_text(a.code@, b.code@),
        then(
            ord_text(or_empty(opt_path(a.path)), or_empty(opt_path(b.path))),
            ord_text(or_empty(opt_view(a.symbol_id)), or_empty(opt_view(b.symbol_id))),
        ),
    )
}

proof fn lemma_scoped_order_antisymmetric(a: IndexLimitation, b: IndexLimitation)
    ensures
        scoped_order(a, b) == -scoped_order(b, a),
{
    lemma_ord_text_antisymmetric(a.code@, b.code@);
    lemma_ord_text_antisymmetric(or_empty(opt_path(a.path)), or_empty(opt_path(b.path)));
    lemma_ord_text_antisymmetric(or_empty(opt_view(a.symbol_id)), or_empty(opt_view(b.symbol_id)));
}

fn path_text(p: &Option<RepoPath>) -> (r: &str)
    ensures
        r@ == or_empty(opt_path(*p)),
{
    match p {
        Some(x) => x.as_str(),
        None => {
            proof {
                reveal_strlit("");
            }
            ""
        },
    }
}

fn scoped_compare(a: &IndexLimitation, b: &IndexLimitation) -> (r: i8)
    ensures
        r as int == scoped_order(*a, *b),
{
    let c = order_text(a.code.as_str(), b.code.as_str());
    if c != 0 {
        return c;
    }
    let p = order_text(path_text(&a.path), path_text(&b.path));
    if p != 0 {
        return p;
    }
    order_text(opt_str(&a.symbol_id), opt_str(&b.symbol_id))
}

/// Adjacent limitations are in the candidate graph's order.
pub open spec fn scoped_sorted(v: Seq<IndexLimitation>) -> bool {
    forall|i: int| 0 <= i < v.len() - 1 ==> scoped_order(#[trigger] v[i], v[i + 1]) <= 0
}

/// Sorts limitations stably into the candidate graph's order.
pub fn sort_scoped(v: Vec<IndexLimitation>) -> (r: Vec<IndexLimitation>)
    ensures
        scoped_sorted(r@),
        r@.to_multiset() == v@.to_multiset(),
{
    let ghost all = v@;
    let total = v.len();
    let mut rest = v;
    let mut out: Vec<IndexLimitation> = Vec::new();
    let mut i: usize = 0;
    assert(all.take(0) =~= Seq::<IndexLimitation>::empty());
    assert(out@ =~= all.take(0));
    while rest.len() > 0
        invariant
            all.len() == total,
            i <= total,
            rest@ == all.subrange(i as int, total as int),
            scoped_sorted(out@),
            out@.to_multiset() == all.take(i as int).to_multiset(),
        decreases rest@.len(),
    {
        let x = rest.remove(0);
        assert(x == all[i as int]);
        let mut p: usize = out.len();
        while p > 0 && scoped_compare(&out[p - 1], &x) > 0
            invariant
                p <= out@.len(),
                scoped_sorted(out@),
                p < out@.len() ==> scoped_order(x, out@[p as int]) < 0,
            decreases p,
        {
            proof {
                lemma_scoped_order_antisymmetric(out@[p - 1], x);
            }
            p = p - 1;
        }
        let ghost before = out@;
        out.insert(p, x);
        proof {
            assert forall|j: int| 0 <= j < out@.len() - 1 implies scoped_order(#[trigger] out@[j], out@[j + 1]) <= 0 by {
                if j < p as int - 1 {
                    assert(out@[j] == before[j] && out@[j + 1] == before[j + 1]);
                } else if j == p as int - 1 {
                    assert(out@[j] == before[j] && out@[j + 1] == x);
                } else if j == p as int {
                    assert(out@[j] == x && out@[j + 1] == before[j]);
                } else {
                    assert(out@[j] == before[j - 1] && out@[j + 1] == before[j]);
                }
            }
            vstd::seq_lib::to_multiset_insert(before, p as int, x);
            assert(all.take(i + 1) =~= all.take(i as int).push(x));
            vstd::seq_lib::to_multiset_build(all.take(i as int), x);
            assert(rest@ =~= all.subrange(i + 1, total as int));
        }
        i = i + 1;
    }
    assert(all.take(total as int) =~= all);
    out
}

/// A sequence without the repeats that follow an equal neighbour.
pub open spec fn adjacent_dedup(s: Seq<IndexLimitation>) -> Seq<IndexLimitation>
    decreases s.len(),
{
    if s.len() <= 1 {
        s
    } else if same_limitation(s.last(), s[s.len() - 2]) {
        adjacent_dedup(s.drop_last())
    } else {
        adjacent_dedup(s.drop_last()).push(s.last())
    }
}

proof fn lemma_adjacent_dedup_last(s: Seq<IndexLimitation>)
    requires
        s.len() > 0,
    ensures
        adjacent_dedup(s).len() > 0,
        same_limitation(adjacent_dedup(s).last(), s.last()),
    decreases s.len(),
{
    if s.len() > 1 {
        lemma_adjacent_dedup_last(s.drop_last());
        if same_limitation(s.last(), s[s.len() - 2]) {
            assert(s.drop_last().last() == s[s.len() - 2]);
        }
    }
}

/// Drops each limitation equal to the one before it.
pub fn dedup_adjacent(v: Vec<IndexLimitation>) -> (r: Vec<IndexLimitation>)
    ensures
        r@ == adjacent_dedup(v@),
{
    let ghost all = v@;
    let total = v.len();
    let mut rest = v;
    let mut out: Vec<IndexLimitation> = Vec::new();
    let mut i: usize = 0;
    while rest.len() > 0
        invariant
            all.len() == total,
            i <= total,
            rest@ == all.subrange(i as int, total as int),
            out@ == adjacent_dedup(all.take(i as int)),
            i > 0 ==> out@.len() > 0 && same_limitation(out@.last(), all[i - 1]),
        decreases rest@.len(),
    {
        let x = rest.remove(0);
        proof {
            assert(x == all[i as int]);
            assert(rest@ =~= all.subrange(i + 1, total as int));
            let t = all.take(i + 1);
            assert(t.drop_last() =~= all.take(i as int));
            assert(t.last() == x);
            if i > 0 {
                assert(t[t.len() - 2] == all[i - 1]);
            }
        }
        let n = out.len();
        if n > 0 && limitations_equal(&out[n - 1], &x) {
            proof {
                assert(same_limitation(x, all[i - 1]));
                lemma_adjacent_dedup_last(all.take(i + 1));
            }
        } else {
            proof {
                if i > 0 {
                    assert(!same_limitation(x, all[i - 1]));
                }
            }
            out.push(x);
        }
        i = i + 1;
    }
    assert(all.take(total as int) =~= all);
    out
}

/// The candidate graph's own limitation: it refreshed only the changed
/// paths.
pub open spec fn incremental_limitation(l: IndexLimitation, first_path: Option<RepoPath>) -> bool {
    &&& l.code@ == "repository-overlay-incremental-resolution"@
    &&& opt_path(l.path) == opt_path(first_path)
    &&& l.symbol_id is None
    &&& l.reason@ == "Fast Mode refreshed only the authoritative changed-path closure"@
    &&& l.interpretation@
        == "relationships requiring compiler expansion or an unindexed reverse closure may be incomplete"@
}

/// The Fast candidate graph over the refreshed paths: files, symbols and
/// edges sorted (by path, symbol and edge identifier), no modules, partial
/// completeness, and the limitations with the incremental one added,
/// sorted by code, path and symbol, with adjacent repeats dropped.
pub fn finish_candidate_graph(
    identity: GraphGenerationIdentity,
    files: Vec<GraphFile>,
    symbols: Vec<GraphSymbol>,
    edges: Vec<GraphEdge>,
    limitations: Vec<IndexLimitation>,
    first_path: Option<RepoPath>,
) -> (g: RepositoryGraph)
    ensures
        g.identity == identity,
        g.modules@.len() == 0,
        g.completeness == Completeness::Partial,
        sorted_by_order(g.files@),
        g.files@.to_multiset() == files@.to_multiset(),
        sorted_by_order(g.symbols@),
        g.symbols@.to_multiset() == symbols@.to_multiset(),
        sorted_by_order(g.edges@),
        g.edges@.to_multiset() == edges@.to_multiset(),
        exists|inc: IndexLimitation, m: Seq<IndexLimitation>|
            incremental_limitation(inc, first_path) && scoped_sorted(m) && m.to_multiset()
                == limitations@.push(inc).to_multiset() && g.limitations@ == adjacent_dedup(m),
{
    let mut limitations = limitations;
    let ghost given = limitations@;
    let inc = IndexLimitation {
        code: String::from_str("repository-overlay-incremental-resolution"),
        path: first_path,
        symbol_id: None,
        reason: String::from_str("Fast Mode refreshed only the authoritative changed-path closure"),
        interpretation: String::from_str(
            "relationships requiring compiler expansion or an unindexed reverse closure may be incomplete",
        ),
    };
    let ghost inc_view = inc;
    limitations.push(inc);
    let sorted = sort_scoped(limitations);
    let ghost m = sorted@;
    let kept = dedup_adjacent(sorted);
    assert(incremental_limitation(inc_view, first_path));
    RepositoryGraph {
        identity,
        files: stable_sort(files),
        modules: Vec::new(),
        symbols: stable_sort(symbols),
        edges: stable_sort(edges),
        completeness: Completeness::Partial,
        limitations: kept,
    }
}

} // verus!
