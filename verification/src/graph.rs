//! The repository graph that a generation stores: files, modules, symbols,
//! edges and limitations, and the rules that make a graph persistable.
use vstd::prelude::*;
use crate::candidate::{CandidatePresence, RepoPath};
use crate::contracts::{Completeness, Confidence, EdgeKind, Resolution, SourceRange};
use crate::keyed::{has_key, is_keyed_sorted, keyed_sorted, keys_of, Keyed};
use crate::model::{
    file_fact_key_valid, generation_identity_valid, key_less, limitation_key, limitation_less,
    mode_check, mode_ok, FileFactKey, GraphGenerationIdentity, IndexLimitation,
};
use crate::strings::{is_hex_of_len, is_hex_with_len, str_equal};

verus! {

/// A file of the repository as the graph records it.
#[derive(Debug, Clone, PartialEq, Eq)]
pub struct GraphFile {
    pub path: RepoPath,
    pub mode: String,
    pub presence: CandidatePresence,
    pub content_sha256: Option<String>,
    pub file_fact_key: Option<FileFactKey>,
    pub language: Option<String>,
    pub module_id: Option<String>,
}

/// A module of a crate.
#[derive(Debug, Clone, PartialEq, Eq)]
pub struct GraphModule {
    pub module_id: String,
    pub parent_module_id: Option<String>,
    pub crate_name: String,
    pub path: RepoPath,
    pub inline: bool,
    pub root_module: bool,
    pub resolution_status: String,
}

/// A symbol declared in a module.
#[derive(Debug, Clone, PartialEq, Eq)]
pub struct GraphSymbol {
    pub symbol_id: String,
    pub local_id: String,
    pub module_id: String,
    pub path: RepoPath,
    pub language: String,
    pub kind: String,
    pub name: String,
    pub owner_symbol_id: Option<String>,
    pub signature: Option<String>,
    pub visibility: Option<String>,
    pub range: SourceRange,
    pub confidence: Confidence,
}

/// A relation from one symbol to another symbol or to an unresolved target.
#[derive(Debug, Clone, PartialEq, Eq)]
pub struct GraphEdge {
    pub edge_id: String,
    pub kind: EdgeKind,
    pub from_symbol: String,
    pub to_symbol: Option<String>,
    pub unresolved_target: Option<String>,
    pub path: RepoPath,
    pub range: SourceRange,
    pub provider_id: String,
    pub provider_version: String,
    pub resolution: Resolution,
    pub confidence: Confidence,
    pub limitation_code: Option<String>,
}

/// A whole repository graph with its identity and completeness.
#[derive(Debug, Clone, PartialEq, Eq)]
pub struct RepositoryGraph {
    pub identity: GraphGenerationIdentity,
    pub files: Vec<GraphFile>,
    pub modules: Vec<GraphModule>,
    pub symbols: Vec<GraphSymbol>,
    pub edges: Vec<GraphEdge>,
    pub completeness: Completeness,
    pub limitations: Vec<IndexLimitation>,
}

/// Why a graph generation could not be stored or read.
#[derive(Debug, Clone, PartialEq, Eq)]
pub struct RepositoryGraphError {
    pub code: String,
    pub message: String,
}

impl RepositoryGraphError {
    /// An error with a code and a message.
    pub fn new(code: &str, message: &str) -> (r: Self)
        ensures
            r.code@ == code@,
            r.message@ == message@,
    {
        RepositoryGraphError { code: String::from_str(code), message: String::from_str(message) }
    }
}

/// An error whose message is its code.
fn invalid_graph(code: &str) -> (r: RepositoryGraphError)
    ensures
        r.code@ == code@,
        r.message@ == code@,
{
    RepositoryGraphError::new(code, code)
}

impl Keyed for GraphFile {
    open spec fn key_of(&self) -> Seq<char> {
        self.path@
    }

    fn key(&self) -> (r: &str) {
        self.path.as_str()
    }
}

impl Keyed for GraphModule {
    open spec fn key_of(&self) -> Seq<char> {
        self.module_id@
    }

    fn key(&self) -> (r: &str) {
        self.module_id.as_str()
    }
}

impl Keyed for GraphSymbol {
    open spec fn key_of(&self) -> Seq<char> {
        self.symbol_id@
    }

    fn key(&self) -> (r: &str) {
        self.symbol_id.as_str()
    }
}

impl Keyed for GraphEdge {
    open spec fn key_of(&self) -> Seq<char> {
        self.edge_id@
    }

    fn key(&self) -> (r: &str) {
        self.edge_id.as_str()
    }
}

/// A one-based range that does not run backwards.
pub open spec fn graph_range_valid(r: SourceRange) -> bool {
    &&& r.start_line != 0
    &&& r.start_column != 0
    &&& r.end_line != 0
    &&& r.end_column != 0
    &&& r.start_line <= r.end_line
    &&& (r.start_line == r.end_line ==> r.start_column <= r.end_column)
    &&& r.start_byte <= r.end_byte
}

/// A 64-digit lowercase hexadecimal digest.
pub open spec fn digest_ok(s: Seq<char>) -> bool {
    is_hex_of_len(s, 64)
}

pub open spec fn file_content_valid(f: GraphFile) -> bool {
    match f.presence {
        CandidatePresence::Present => {
            &&& f.content_sha256 matches Some(c)
            &&& digest_ok(c@)
            &&& (f.file_fact_key matches Some(k) ==> file_fact_key_valid(k) && k.content_sha256@ == c@)
        },
        _ => f.content_sha256 is None && f.file_fact_key is None,
    }
}

pub open spec fn graph_file_valid(f: GraphFile, modules: Seq<GraphModule>) -> bool {
    &&& mode_ok(f.mode@)
    &&& file_content_valid(f)
    &&& (f.module_id matches Some(m) ==> keys_of(modules).contains(m@))
}

pub open spec fn graph_module_valid(m: GraphModule, files: Seq<GraphFile>, modules: Seq<GraphModule>) -> bool {
    &&& digest_ok(m.module_id@)
    &&& keys_of(files).contains(m.path@)
    &&& (m.parent_module_id matches Some(p) ==> keys_of(modules).contains(p@))
}

pub open spec fn graph_symbol_valid(s: GraphSymbol, g: RepositoryGraph) -> bool {
    &&& digest_ok(s.symbol_id@)
    &&& keys_of(g.files@).contains(s.path@)
    &&& keys_of(g.modules@).contains(s.module_id@)
    &&& (s.owner_symbol_id matches Some(o) ==> keys_of(g.symbols@).contains(o@))
    &&& graph_range_valid(s.range)
}

pub open spec fn graph_edge_valid(e: GraphEdge, g: RepositoryGraph) -> bool {
    &&& digest_ok(e.edge_id@)
    &&& keys_of(g.symbols@).contains(e.from_symbol@)
    &&& (e.to_symbol matches Some(t) ==> keys_of(g.symbols@).contains(t@))
    &&& keys_of(g.files@).contains(e.path@)
    &&& (e.to_symbol is Some) != (e.unresolved_target is Some)
    &&& graph_range_valid(e.range)
}

/// A limitation that names only files and symbols of the graph.
pub open spec fn graph_limitation_valid(l: IndexLimitation, g: RepositoryGraph) -> bool {
    &&& (l.path matches Some(p) ==> keys_of(g.files@).contains(p@))
    &&& (l.symbol_id matches Some(s) ==> keys_of(g.symbols@).contains(s@))
}

/// Some limitation names a path or a symbol.
pub open spec fn has_scoped_limitation(ls: Seq<IndexLimitation>) -> bool {
    exists|i: int| 0 <= i < ls.len() && ((#[trigger] ls[i]).path is Some || ls[i].symbol_id is Some)
}

/// The completeness rules: an unavailable graph is never stored, a complete
/// one has no limitations, and a partial one names what it omits.
pub open spec fn completeness_consistent(g: RepositoryGraph) -> bool {
    &&& g.completeness != Completeness::Unavailable
    &&& (g.completeness == Completeness::Complete ==> g.limitations@.len() == 0)
    &&& (g.completeness == Completeness::Partial ==> has_scoped_limitation(g.limitations@))
}

/// A graph that may be stored as a generation.
pub open spec fn graph_valid(g: RepositoryGraph) -> bool {
    &&& generation_identity_valid(g.identity)
    &&& completeness_consistent(g)
    &&& keyed_sorted(g.files@)
    &&& keyed_sorted(g.modules@)
    &&& keyed_sorted(g.symbols@)
    &&& keyed_sorted(g.edges@)
    &&& forall|i: int| 0 <= i < g.files@.len() ==> graph_file_valid(#[trigger] g.files@[i], g.modules@)
    &&& forall|i: int| 0 <= i < g.modules@.len() ==> graph_module_valid(#[trigger] g.modules@[i], g.files@, g.modules@)
    &&& forall|i: int| 0 <= i < g.symbols@.len() ==> graph_symbol_valid(#[trigger] g.symbols@[i], g)
    &&& forall|i: int| 0 <= i < g.edges@.len() ==> graph_edge_valid(#[trigger] g.edges@[i], g)
    &&& forall|i: int| 0 < i < g.limitations@.len() ==> key_less(limitation_key(g.limitations@[i - 1]), limitation_key(#[trigger] g.limitations@[i]))
    &&& forall|i: int| 0 <= i < g.limitations@.len() ==> graph_limitation_valid(#[trigger] g.limitations@[i], g)
}

fn check_hex(value: &str) -> (r: Result<(), RepositoryGraphError>)
    ensures
        r is Ok <==> digest_ok(value@),
        r matches Err(e) ==> e.code@ == "generation-digest-invalid"@,
{
    if !is_hex_with_len(value, 64) {
        return Err(invalid_graph("generation-digest-invalid"));
    }
    Ok(())
}

fn check_range(range: &SourceRange) -> (r: Result<(), RepositoryGraphError>)
    ensures
        r is Ok <==> graph_range_valid(*range),
        r matches Err(e) ==> e.code@ == "generation-range-invalid"@,
{
    if range.start_line == 0 || range.start_column == 0 || range.end_line == 0
        || range.end_column == 0 || range.start_line > range.end_line || (range.start_line
        == range.end_line && range.start_column > range.end_column) || range.start_byte
        > range.end_byte {
        return Err(invalid_graph("generation-range-invalid"));
    }
    Ok(())
}

fn check_file(file: &GraphFile, modules: &Vec<GraphModule>) -> (r: Result<(), RepositoryGraphError>)
    ensures
        r is Ok <==> graph_file_valid(*file, modules@),
{
    if !mode_check(file.mode.as_str()) {
        return Err(invalid_graph("generation-file-mode-invalid"));
    }
    match file.presence {
        CandidatePresence::Present => {
            let content = match &file.content_sha256 {
                Some(c) => c,
                None => return Err(invalid_graph("generation-file-content-missing")),
            };
            if let Err(e) = check_hex(content.as_str()) {
                return Err(e);
            }
            if let Some(key) = &file.file_fact_key {
                if let Err(error) = key.validate() {
                    let message = error.message();
                    return Err(RepositoryGraphError::new("generation-file-fact-key-invalid", message.as_str()));
                }
                if !str_equal(key.content_sha256.as_str(), content.as_str()) {
                    return Err(invalid_graph("generation-file-fact-key-mismatch"));
                }
            }
        },
        _ => {
            if file.content_sha256.is_some() || file.file_fact_key.is_some() {
                return Err(invalid_graph("generation-non-file-content-invalid"));
            }
        },
    }
    if let Some(module) = &file.module_id {
        if !has_key(modules, module.as_str()) {
            return Err(invalid_graph("generation-file-module-missing"));
        }
    }
    Ok(())
}

fn check_module(module: &GraphModule, files: &Vec<GraphFile>, modules: &Vec<GraphModule>) -> (r: Result<(), RepositoryGraphError>)
    ensures
        r is Ok <==> graph_module_valid(*module, files@, modules@),
{
    if let Err(e) = check_hex(module.module_id.as_str()) {
        return Err(e);
    }
    if !has_key(files, module.path.as_str()) {
        return Err(invalid_graph("generation-module-file-missing"));
    }
    if let Some(parent) = &module.parent_module_id {
        if !has_key(modules, parent.as_str()) {
            return Err(invalid_graph("generation-parent-module-missing"));
        }
    }
    Ok(())
}

fn check_symbol(symbol: &GraphSymbol, graph: &RepositoryGraph) -> (r: Result<(), RepositoryGraphError>)
    ensures
        r is Ok <==> graph_symbol_valid(*symbol, *graph),
{
    if let Err(e) = check_hex(symbol.symbol_id.as_str()) {
        return Err(e);
    }
    if !has_key(&graph.files, symbol.path.as_str()) || !has_key(&graph.modules, symbol.module_id.as_str()) {
        return Err(invalid_graph("generation-symbol-owner-missing"));
    }
    if let Some(owner) = &symbol.owner_symbol_id {
        if !has_key(&graph.symbols, owner.as_str()) {
            return Err(invalid_graph("generation-owner-symbol-missing"));
        }
    }
    check_range(&symbol.range)
}

fn check_edge(edge: &GraphEdge, graph: &RepositoryGraph) -> (r: Result<(), RepositoryGraphError>)
    ensures
        r is Ok <==> graph_edge_valid(*edge, *graph),
{
    if let Err(e) = check_hex(edge.edge_id.as_str()) {
        return Err(e);
    }
    let target_missing = match &edge.to_symbol {
        Some(target) => !has_key(&graph.symbols, target.as_str()),
        None => false,
    };
    if !has_key(&graph.symbols, edge.from_symbol.as_str()) || target_missing || !has_key(&graph.files, edge.path.as_str()) {
        return Err(invalid_graph("generation-edge-owner-missing"));
    }
    if edge.to_symbol.is_some() == edge.unresolved_target.is_some() {
        return Err(invalid_graph("generation-edge-target-invalid"));
    }
    check_range(&edge.range)
}

fn check_graph_limitations(graph: &RepositoryGraph) -> (r: Result<(), RepositoryGraphError>)
    ensures
        r is Ok <==> {
            &&& forall|i: int| 0 < i < graph.limitations@.len() ==> key_less(limitation_key(graph.limitations@[i - 1]), limitation_key(#[trigger] graph.limitations@[i]))
            &&& forall|i: int| 0 <= i < graph.limitations@.len() ==> graph_limitation_valid(#[trigger] graph.limitations@[i], *graph)
        },
{
    let ls = &graph.limitations;
    let mut i: usize = 0;
    while i < ls.len()
        invariant
            i <= ls@.len(),
            ls == &graph.limitations,
            forall|k: int| 0 < k < i ==> key_less(limitation_key(ls@[k - 1]), limitation_key(#[trigger] ls@[k])),
            forall|k: int| 0 <= k < i ==> graph_limitation_valid(#[trigger] ls@[k], *graph),
        decreases ls@.len() - i,
    {
        if i > 0 && !limitation_less(&ls[i - 1], &ls[i]) {
            return Err(invalid_graph("generation-limitations-unsorted"));
        }
        let path_missing = match &ls[i].path {
            Some(p) => !has_key(&graph.files, p.as_str()),
            None => false,
        };
        let symbol_missing = match &ls[i].symbol_id {
            Some(s) => !has_key(&graph.symbols, s.as_str()),
            None => false,
        };
        if path_missing || symbol_missing {
            return Err(invalid_graph("generation-limitation-owner-missing"));
        }
        i = i + 1;
    }
    Ok(())
}

/// Whether some limitation names a path or a symbol.
fn any_scoped_limitation(ls: &Vec<IndexLimitation>) -> (r: bool)
    ensures
        r == has_scoped_limitation(ls@),
{
    let mut i: usize = 0;
    while i < ls.len()
        invariant
            i <= ls@.len(),
            forall|k: int| 0 <= k < i ==> !((#[trigger] ls@[k]).path is Some || ls@[k].symbol_id is Some),
        decreases ls@.len() - i,
    {
        if ls[i].path.is_some() || ls[i].symbol_id.is_some() {
            assert(ls@[i as int].path is Some || ls@[i as int].symbol_id is Some);
            return true;
        }
        i = i + 1;
    }
    false
}

fn order_error(field: &str) -> (r: RepositoryGraphError)
    ensures
        r.code@ == "generation-order-invalid"@,
{
    let mut message = String::from_str(field);
    message.append(" must be sorted and unique");
    RepositoryGraphError { code: String::from_str("generation-order-invalid"), message }
}

/// Checks that a graph may be stored: a valid identity, completeness that
/// agrees with its limitations, records sorted and unique by id, digests
/// and ranges well formed, and every reference to a file, module or symbol
/// pointing at one of the graph.
#[verifier::loop_isolation(false)]
pub fn validate_graph(graph: &RepositoryGraph) -> (r: Result<(), RepositoryGraphError>)
    ensures
        r is Ok <==> graph_valid(*graph),
        !generation_identity_valid(graph.identity) ==> (r matches Err(e) && e.code@ == "generation-identity-invalid"@),
        generation_identity_valid(graph.identity) && graph.completeness == Completeness::Unavailable
            ==> (r matches Err(e) && e.code@ == "generation-unavailable-not-persistable"@),
        generation_identity_valid(graph.identity) && graph.completeness == Completeness::Complete
            && graph.limitations@.len() > 0 ==> (r matches Err(e) && e.code@ == "complete-generation-has-limitations"@),
        generation_identity_valid(graph.identity) && graph.completeness == Completeness::Partial
            && !has_scoped_limitation(graph.limitations@) ==> (r matches Err(e) && e.code@ == "partial-generation-omissions-required"@),
{
    if let Err(error) = graph.identity.validate() {
        let mut message = String::from_str("invalid graph identity: ");
        let reason = error.message();
        message.append(reason.as_str());
        return Err(RepositoryGraphError { code: String::from_str("generation-identity-invalid"), message });
    }
    match graph.completeness {
        Completeness::Unavailable => {
            return Err(RepositoryGraphError::new(
                "generation-unavailable-not-persistable",
                "unavailable repository graphs cannot be persisted",
            ));
        },
        Completeness::Complete => {
            if graph.limitations.len() > 0 {
                return Err(RepositoryGraphError::new(
                    "complete-generation-has-limitations",
                    "complete repository graphs cannot contain limitations",
                ));
            }
        },
        Completeness::Partial => {
            if !any_scoped_limitation(&graph.limitations) {
                return Err(RepositoryGraphError::new(
                    "partial-generation-omissions-required",
                    "partial repository graphs require path- or symbol-scoped omissions",
                ));
            }
        },
    }
    if !is_keyed_sorted(&graph.files) {
        return Err(order_error("file paths"));
    }
    if !is_keyed_sorted(&graph.modules) {
        return Err(order_error("module ids"));
    }
    if !is_keyed_sorted(&graph.symbols) {
        return Err(order_error("symbol ids"));
    }
    if !is_keyed_sorted(&graph.edges) {
        return Err(order_error("edge ids"));
    }
    let mut i: usize = 0;
    while i < graph.files.len()
        invariant
            i <= graph.files@.len(),
            forall|k: int| 0 <= k < i ==> graph_file_valid(#[trigger] graph.files@[k], graph.modules@),
        decreases graph.files@.len() - i,
    {
        if let Err(e) = check_file(&graph.files[i], &graph.modules) {
            return Err(e);
        }
        i = i + 1;
    }
    let mut i: usize = 0;
    while i < graph.modules.len()
        invariant
            i <= graph.modules@.len(),
            forall|k: int| 0 <= k < i ==> graph_module_valid(#[trigger] graph.modules@[k], graph.files@, graph.modules@),
        decreases graph.modules@.len() - i,
    {
        if let Err(e) = check_module(&graph.modules[i], &graph.files, &graph.modules) {
            return Err(e);
        }
        i = i + 1;
    }
    let mut i: usize = 0;
    while i < graph.symbols.len()
        invariant
            i <= graph.symbols@.len(),
            forall|k: int| 0 <= k < i ==> graph_symbol_valid(#[trigger] graph.symbols@[k], *graph),
        decreases graph.symbols@.len() - i,
    {
        if let Err(e) = check_symbol(&graph.symbols[i], graph) {
            return Err(e);
        }
        i = i + 1;
    }
    let mut i: usize = 0;
    while i < graph.edges.len()
        invariant
            i <= graph.edges@.len(),
            forall|k: int| 0 <= k < i ==> graph_edge_valid(#[trigger] graph.edges@[k], *graph),
        decreases graph.edges@.len() - i,
    {
        if let Err(e) = check_edge(&graph.edges[i], graph) {
            return Err(e);
        }
        i = i + 1;
    }
    check_graph_limitations(graph)
}

} // verus!
