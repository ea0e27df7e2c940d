//! The pieces of Rust repository resolution that stand on their own:
//! the checked inputs of a resolution, the identifiers of modules and
//! symbols, where a range sits, and the limitations a resolution records.
use vstd::prelude::*;
use vstd::utf8::encode_utf8;
use crate::candidate::{CandidatePresence, RepoPath, repo_path_valid};
use crate::contracts::SourceRange;
use crate::digest::{hex_seq, sha256_hex_of_bytes, sha256_of};
use crate::graph::GraphSymbol;
use crate::integrity::{opt_text_equal, opt_view};
use crate::model::{
    component, file_fact_key_valid, limitation_key, push_component, FileFactKey, IndexLimitation,
    RepositoryManifest, RepositoryManifestEntry,
};
use crate::overlay_path::or_empty;
use crate::repository_index::{limitations_equal, opt_path, same_limitation};
use crate::rust_syntax::{RustCallSiteFact, RustFileFacts, RustLocalSymbolFact, RustModuleDeclarationFact};
use crate::strings::{
    find_last_char, last_index_of, lex_less, push_char, push_text, str_equal, str_less, substring_chars,
};

verus! {

/// The facts of one Rust file of the repository, under their key.
#[derive(Debug, Clone, PartialEq, Eq)]
pub struct RustRepositoryFileFacts {
    pub path: RepoPath,
    pub key: FileFactKey,
    pub facts: RustFileFacts,
}

/// Why a repository could not be resolved.
#[derive(Debug, Clone, PartialEq, Eq)]
pub struct RustResolverError {
    pub code: String,
    pub message: String,
}

impl RustResolverError {
    /// An error with a code and a message.
    pub fn new(code: &str, message: &str) -> (r: Self)
        ensures
            r.code@ == code@,
            r.message@ == message@,
    {
        RustResolverError { code: String::from_str(code), message: String::from_str(message) }
    }
}

/// `outer` covers `inner`, ends included.
pub open spec fn range_contains_spec(outer: SourceRange, inner: SourceRange) -> bool {
    outer.start_byte <= inner.start_byte && inner.end_byte <= outer.end_byte
}

/// Whether `outer` covers `inner`.
pub fn range_contains(outer: &SourceRange, inner: &SourceRange) -> (r: bool)
    ensures
        r == range_contains_spec(*outer, *inner),
{
    outer.start_byte <= inner.start_byte && inner.end_byte <= outer.end_byte
}

/// The message hashed into a resolved module's identifier.
pub open spec fn module_id_message(parent: Option<Seq<char>>, name: Seq<char>, path: Seq<char>, inline: bool) -> Seq<u8> {
    component(encode_utf8("rust-repository-module/v1"@)) + component(encode_utf8(or_empty(parent)))
        + component(encode_utf8(name)) + component(encode_utf8(path)) + component(
        seq![if inline { 1u8 } else { 0u8 }],
    )
}

/// A resolved module's identifier.
pub fn module_id(parent: Option<&str>, name: &str, path: &RepoPath, inline: bool) -> (r: String)
    ensures
        r@ == hex_seq(sha256_of(module_id_message(match parent {
            Some(p) => Some(p@),
            None => None,
        }, name@, path@, inline))),
        r@.len() == 64,
{
    let mut message: Vec<u8> = Vec::new();
    push_component(&mut message, "rust-repository-module/v1".as_bytes());
    let parent_text: &str = match parent {
        Some(p) => p,
        None => {
            proof {
                reveal_strlit("");
            }
            ""
        },
    };
    push_component(&mut message, parent_text.as_bytes());
    push_component(&mut message, name.as_bytes());
    push_component(&mut message, path.as_str().as_bytes());
    let flag: [u8; 1] = [if inline { 1u8 } else { 0u8 }];
    assert(flag@ =~= seq![if inline { 1u8 } else { 0u8 }]);
    push_component(&mut message, &flag);
    sha256_hex_of_bytes(message.as_slice())
}

/// Calls of macros and helpers the resolver does not follow.
pub open spec fn external_or_builtin_spec(callee: Seq<char>) -> bool {
    callee == "assert"@ || callee == "assert_eq"@ || callee == "assert_ne"@ || callee == "format"@
        || callee == "println"@ || callee == "vec"@
}

/// Whether a call names a macro or helper the resolver does not follow.
pub fn is_external_or_builtin(call: &RustCallSiteFact) -> (r: bool)
    ensures
        r == external_or_builtin_spec(call.callee@),
{
    let c = call.callee.as_str();
    str_equal(c, "assert") || str_equal(c, "assert_eq") || str_equal(c, "assert_ne") || str_equal(c, "format")
        || str_equal(c, "println") || str_equal(c, "vec")
}

/// The reason and interpretation of a resolver limitation.
pub open spec fn limitation_text_spec(code: Seq<char>) -> (Seq<char>, Seq<char>) {
    if code == "rust-resolver-glob-import-ambiguous"@ {
        (
            "multiple glob imports can bind the same name"@,
            "matching references remain polymorphic candidates"@,
        )
    } else if code == "rust-resolver-method-call-unresolved"@ {
        (
            "method dispatch requires type and trait information"@,
            "the call is syntactic and is not a confirmed target"@,
        )
    } else if code == "rust-resolver-macro-call-unresolved"@ {
        (
            "macro expansion is outside the passive resolver"@,
            "the call is recorded without claiming an expanded target"@,
        )
    } else if code == "rust-resolver-cfg-conditional"@ {
        (
            "conditional compilation can change the visible graph"@,
            "relationships are valid only for the parsed candidate text"@,
        )
    } else {
        (
            "repository resolution was bounded or incomplete"@,
            "the graph preserves available evidence without claiming completeness"@,
        )
    }
}

/// The reason and interpretation of a resolver limitation.
pub fn limitation_text(code: &str) -> (r: (&'static str, &'static str))
    ensures
        r.0@ == limitation_text_spec(code@).0,
        r.1@ == limitation_text_spec(code@).1,
{
    if str_equal(code, "rust-resolver-glob-import-ambiguous") {
        (
            "multiple glob imports can bind the same name",
            "matching references remain polymorphic candidates",
        )
    } else if str_equal(code, "rust-resolver-method-call-unresolved") {
        (
            "method dispatch requires type and trait information",
            "the call is syntactic and is not a confirmed target",
        )
    } else if str_equal(code, "rust-resolver-macro-call-unresolved") {
        (
            "macro expansion is outside the passive resolver",
            "the call is recorded without claiming an expanded target",
        )
    } else if str_equal(code, "rust-resolver-cfg-conditional") {
        (
            "conditional compilation can change the visible graph",
            "relationships are valid only for the parsed candidate text",
        )
    } else {
        (
            "repository resolution was bounded or incomplete",
            "the graph preserves available evidence without claiming completeness",
        )
    }
}

/// `l` is the resolver limitation `code` about `path` and `symbol_id`.
pub open spec fn is_resolver_limitation(
    l: IndexLimitation,
    code: Seq<char>,
    path: Option<RepoPath>,
    symbol_id: Option<String>,
) -> bool {
    &&& limitation_key(l) == seq![
        code,
        or_empty(opt_path(path)),
        or_empty(opt_view(symbol_id)),
        limitation_text_spec(code).0,
        limitation_text_spec(code).1,
    ]
    &&& (l.path is Some) == (path is Some)
    &&& (l.symbol_id is Some) == (symbol_id is Some)
}

/// Records a resolver limitation unless the same one is already there.
pub fn add_limitation(
    limitations: &mut Vec<IndexLimitation>,
    code: &str,
    path: Option<RepoPath>,
    symbol_id: Option<String>,
)
    ensures
        (exists|i: int| 0 <= i < old(limitations)@.len() && is_resolver_limitation(#[trigger] old(limitations)@[i], code@, path, symbol_id))
            ==> final(limitations)@ == old(limitations)@,
        !(exists|i: int| 0 <= i < old(limitations)@.len() && is_resolver_limitation(#[trigger] old(limitations)@[i], code@, path, symbol_id))
            ==> final(limitations)@.drop_last() == old(limitations)@ && final(limitations)@.len() == old(limitations)@.len() + 1
            && is_resolver_limitation(final(limitations)@.last(), code@, path, symbol_id),
{
    let (reason, interpretation) = limitation_text(code);
    let ghost path_view = path;
    let ghost symbol_view = symbol_id;
    let limitation = IndexLimitation {
        code: String::from_str(code),
        path,
        symbol_id,
        reason: String::from_str(reason),
        interpretation: String::from_str(interpretation),
    };
    assert(is_resolver_limitation(limitation, code@, path_view, symbol_view)) by {
        assert(limitation_key(limitation) =~= seq![
            code@,
            or_empty(opt_path(path_view)),
            or_empty(opt_view(symbol_view)),
            limitation_text_spec(code@).0,
            limitation_text_spec(code@).1,
        ]);
    }
    let mut i: usize = 0;
    while i < limitations.len()
        invariant
            i <= limitations@.len(),
            limitations@ == old(limitations)@,
            path_view == path,
            symbol_view == symbol_id,
            is_resolver_limitation(limitation, code@, path_view, symbol_view),
            forall|k: int| 0 <= k < i ==> !is_resolver_limitation(#[trigger] limitations@[k], code@, path_view, symbol_view),
        decreases limitations@.len() - i,
    {
        if limitations_equal(&limitations[i], &limitation) {
            proof {
                assert(is_resolver_limitation(old(limitations)@[i as int], code@, path_view, symbol_view));
            }
            return;
        }
        i = i + 1;
    }
    limitations.push(limitation);
    assert(limitations@.drop_last() =~= old(limitations)@);
}

/// Whether symbol `s` comes before `t` for the first symbol of a module:
/// by start byte, then by identifier.
pub open spec fn earlier_symbol(s: GraphSymbol, t: GraphSymbol) -> bool {
    s.range.start_byte < t.range.start_byte || (s.range.start_byte == t.range.start_byte && lex_less(
        s.symbol_id@,
        t.symbol_id@,
    ))
}

/// The identifier of the first symbol of `module_id`: none precedes it.
pub fn first_module_symbol(module_id: &str, symbols: &Vec<GraphSymbol>) -> (r: Option<String>)
    ensures
        r is None <==> forall|i: int| 0 <= i < symbols@.len() ==> (#[trigger] symbols@[i]).module_id@ != module_id@,
        r matches Some(id) ==> exists|i: int|
            0 <= i < symbols@.len() && (#[trigger] symbols@[i]).module_id@ == module_id@ && symbols@[i].symbol_id@ == id@
                && forall|j: int|
                0 <= j < symbols@.len() && symbols@[j].module_id@ == module_id@ ==> !earlier_symbol(
                    #[trigger] symbols@[j],
                    symbols@[i],
                ),
{
    let mut best: Option<usize> = None;
    let mut i: usize = 0;
    while i < symbols.len()
        invariant
            i <= symbols@.len(),
            best is None <==> forall|k: int| 0 <= k < i ==> (#[trigger] symbols@[k]).module_id@ != module_id@,
            best matches Some(b) ==> b < i && symbols@[b as int].module_id@ == module_id@ && forall|k: int|
                0 <= k < i && symbols@[k].module_id@ == module_id@ ==> !earlier_symbol(#[trigger] symbols@[k], symbols@[b as int]),
        decreases symbols@.len() - i,
    {
        if str_equal(symbols[i].module_id.as_str(), module_id) {
            match best {
                None => {
                    best = Some(i);
                },
                Some(b) => {
                    let s = &symbols[i];
                    let t = &symbols[b];
                    if s.range.start_byte < t.range.start_byte || (s.range.start_byte == t.range.start_byte
                        && str_less(s.symbol_id.as_str(), t.symbol_id.as_str())) {
                        proof {
                            assert forall|k: int|
                                0 <= k < i + 1 && symbols@[k].module_id@ == module_id@ implies !earlier_symbol(
                                #[trigger] symbols@[k],
                                symbols@[i as int],
                            ) by {
                                if k < i {
                                    assert(!earlier_symbol(symbols@[k], symbols@[b as int]));
                                    if earlier_symbol(symbols@[k], symbols@[i as int]) {
                                        crate::strings::lemma_lex_transitive(symbols@[k].symbol_id@, symbols@[i as int].symbol_id@, symbols@[b as int].symbol_id@);
                                    }
                                } else if lex_less(symbols@[k].symbol_id@, symbols@[k].symbol_id@) {
                                    crate::strings::lemma_lex_asymmetric(symbols@[k].symbol_id@, symbols@[k].symbol_id@);
                                }
                            }
                        }
                        best = Some(i);
                    } else {
                        proof {
                            if earlier_symbol(symbols@[i as int], symbols@[b as int]) {
                                assert(false);
                            }
                        }
                    }
                },
            }
        }
        i = i + 1;
    }
    match best {
        Some(b) => Some(symbols[b].symbol_id.clone()),
        None => None,
    }
}

/// The message hashed into a resolved symbol's identifier.
pub open spec fn symbol_id_message(module_id: Seq<char>, path: Seq<char>, local_id: Seq<char>) -> Seq<u8> {
    component(encode_utf8("rust-repository-symbol/v1"@)) + component(encode_utf8(module_id)) + component(
        encode_utf8(path),
    ) + component(encode_utf8(local_id))
}

/// A resolved symbol's identifier.
pub fn symbol_id(module_id: &str, path: &RepoPath, local_id: &str) -> (r: String)
    ensures
        r@ == hex_seq(sha256_of(symbol_id_message(module_id@, path@, local_id@))),
        r@.len() == 64,
{
    let mut message: Vec<u8> = Vec::new();
    push_component(&mut message, "rust-repository-symbol/v1".as_bytes());
    push_component(&mut message, module_id.as_bytes());
    push_component(&mut message, path.as_str().as_bytes());
    push_component(&mut message, local_id.as_bytes());
    sha256_hex_of_bytes(message.as_slice())
}

/// `relative` under `directory`; an empty directory is the root.
pub open spec fn joined(directory: Seq<char>, relative: Seq<char>) -> Seq<char> {
    if directory.len() == 0 {
        relative
    } else {
        directory + seq!['/'] + relative
    }
}

/// `relative` under `directory`, when that is a repository path.
pub fn join_repo_path(directory: &str, relative: &str) -> (r: Option<RepoPath>)
    ensures
        r is Some <==> repo_path_valid(joined(directory@, relative@)),
        r matches Some(p) ==> p@ == joined(directory@, relative@),
{
    let mut value = String::new();
    if directory.unicode_len() == 0 {
        push_text(&mut value, relative);
        assert(value@ =~= joined(directory@, relative@));
    } else {
        push_text(&mut value, directory);
        push_char(&mut value, '/');
        push_text(&mut value, relative);
        assert(value@ =~= joined(directory@, relative@));
    }
    match RepoPath::new(value) {
        Ok(p) => Some(p),
        Err(_) => None,
    }
}

/// The directory of a file: what precedes its last `/`, or nothing.
pub open spec fn directory_of(p: Seq<char>) -> Seq<char> {
    let slash = last_index_of(p, '/');
    if slash < 0 {
        Seq::empty()
    } else {
        p.subrange(0, slash)
    }
}

/// The paths a module declaration may name, in the order they are tried:
/// its path override, else `name.rs` then `name/mod.rs`; none when one
/// of them is no repository path.
pub open spec fn module_file_candidates(source: Seq<char>, declaration: RustModuleDeclarationFact) -> Option<
    Seq<Seq<char>>,
> {
    let directory = directory_of(source);
    match declaration.path_override {
        Some(o) => if repo_path_valid(joined(directory, o@)) {
            Some(seq![joined(directory, o@)])
        } else {
            None
        },
        None => {
            let file = joined(directory, declaration.name@ + ".rs"@);
            let dir = joined(directory, declaration.name@ + "/mod.rs"@);
            if repo_path_valid(file) && repo_path_valid(dir) {
                Some(seq![file, dir])
            } else {
                None
            }
        },
    }
}

/// Whether a path is among the manifest's paths.
pub open spec fn in_paths(paths: Seq<RepoPath>, p: Seq<char>) -> bool {
    exists|i: int| 0 <= i < paths.len() && (#[trigger] paths[i])@ == p
}

fn path_listed(paths: &Vec<RepoPath>, p: &RepoPath) -> (r: bool)
    ensures
        r == in_paths(paths@, p@),
{
    let mut i: usize = 0;
    while i < paths.len()
        invariant
            i <= paths@.len(),
            forall|k: int| 0 <= k < i ==> (#[trigger] paths@[k])@ != p@,
        decreases paths@.len() - i,
    {
        if str_equal(paths[i].as_str(), p.as_str()) {
            return true;
        }
        i = i + 1;
    }
    false
}

/// The file a module declaration names: the first of its candidates that
/// the manifest lists.
pub fn module_file_path(source_path: &RepoPath, declaration: &RustModuleDeclarationFact, manifest_paths: &Vec<
    RepoPath,
>) -> (r: Option<RepoPath>)
    ensures
        match module_file_candidates(source_path@, *declaration) {
            None => r is None,
            Some(c) => match r {
                Some(p) => exists|i: int|
                    0 <= i < c.len() && p@ == c[i] && in_paths(manifest_paths@, c[i]) && forall|j: int|
                        0 <= j < i ==> !in_paths(manifest_paths@, #[trigger] c[j]),
                None => forall|i: int| 0 <= i < c.len() ==> !in_paths(manifest_paths@, #[trigger] c[i]),
            },
        },
{
    let source = source_path.as_str();
    proof {
        crate::strings::lemma_last_index_of(source@, '/');
    }
    let directory = match find_last_char(source, '/') {
        Some(i) => substring_chars(source, 0, i),
        None => String::new(),
    };
    assert(directory@ == directory_of(source_path@));
    let ghost cands = module_file_candidates(source_path@, *declaration);
    match &declaration.path_override {
        Some(o) => {
            let only = join_repo_path(directory.as_str(), o.as_str());
            match only {
                None => None,
                Some(p) => {
                    if path_listed(manifest_paths, &p) {
                        proof {
                            assert(cands->0[0] == p@);
                        }
                        Some(p)
                    } else {
                        None
                    }
                },
            }
        },
        None => {
            let mut file_name = String::new();
            push_text(&mut file_name, declaration.name.as_str());
            push_text(&mut file_name, ".rs");
            let mut dir_name = String::new();
            push_text(&mut dir_name, declaration.name.as_str());
            push_text(&mut dir_name, "/mod.rs");
            let file = join_repo_path(directory.as_str(), file_name.as_str());
            let dir = join_repo_path(directory.as_str(), dir_name.as_str());
            match (file, dir) {
                (Some(f), Some(d)) => {
                    if path_listed(manifest_paths, &f) {
                        proof {
                            assert(cands->0[0] == f@);
                        }
                        Some(f)
                    } else if path_listed(manifest_paths, &d) {
                        proof {
                            assert(cands->0[1] == d@);
                            assert(cands->0[0] == f@);
                        }
                        Some(d)
                    } else {
                        proof {
                            assert(cands->0[1] == d@);
                            assert(cands->0[0] == f@);
                        }
                        None
                    }
                },
                _ => None,
            }
        },
    }
}

/// `s` is a module symbol with the declaration's name and owner.
pub open spec fn declares_module(s: RustLocalSymbolFact, d: RustModuleDeclarationFact) -> bool {
    &&& s.kind@ == "module"@
    &&& s.name@ == d.name@
    &&& opt_view(s.owner_local_id) == opt_view(d.owner_local_id)
}

/// `s` declares the module, and at the declaration's range when `exact`.
pub open spec fn matches_declaration(s: RustLocalSymbolFact, d: RustModuleDeclarationFact, exact: bool) -> bool {
    declares_module(s, d) && (exact ==> s.range == d.range)
}

/// `i` is the first symbol that matches the declaration.
pub open spec fn first_match(symbols: Seq<RustLocalSymbolFact>, d: RustModuleDeclarationFact, exact: bool, i: int) -> bool {
    &&& 0 <= i < symbols.len()
    &&& matches_declaration(symbols[i], d, exact)
    &&& forall|j: int| 0 <= j < i ==> !matches_declaration(#[trigger] symbols[j], d, exact)
}

fn find_declared_module(symbols: &Vec<RustLocalSymbolFact>, d: &RustModuleDeclarationFact, exact: bool) -> (r:
    Option<usize>)
    ensures
        r is None <==> forall|j: int| 0 <= j < symbols@.len() ==> !matches_declaration(#[trigger] symbols@[j], *d, exact),
        r matches Some(i) ==> first_match(symbols@, *d, exact, i as int),
{
    let mut i: usize = 0;
    while i < symbols.len()
        invariant
            i <= symbols@.len(),
            forall|j: int| 0 <= j < i ==> !matches_declaration(#[trigger] symbols@[j], *d, exact),
        decreases symbols@.len() - i,
    {
        let s = &symbols[i];
        if str_equal(s.kind.as_str(), "module") && str_equal(s.name.as_str(), d.name.as_str()) && opt_text_equal(
            &s.owner_local_id,
            &d.owner_local_id,
        ) && (!exact || s.range == d.range) {
            return Some(i);
        }
        i = i + 1;
    }
    None
}

/// The local identifier of the module symbol a declaration introduces:
/// the first one at the declaration's range, else the first one with its
/// name and owner.
pub fn module_local_id(facts: &RustFileFacts, declaration: &RustModuleDeclarationFact) -> (r: Option<String>)
    ensures
        r is None <==> forall|j: int|
            0 <= j < facts.symbols@.len() ==> !declares_module(#[trigger] facts.symbols@[j], *declaration),
        r matches Some(id) ==> exists|i: int|
            #![trigger facts.symbols@[i]]
            facts.symbols@[i].local_id@ == id@ && (first_match(facts.symbols@, *declaration, true, i) || (
            first_match(facts.symbols@, *declaration, false, i) && forall|j: int|
                0 <= j < facts.symbols@.len() ==> !matches_declaration(
                    #[trigger] facts.symbols@[j],
                    *declaration,
                    true,
                ))),
{
    match find_declared_module(&facts.symbols, declaration, true) {
        Some(i) => Some(facts.symbols[i].local_id.clone()),
        None => match find_declared_module(&facts.symbols, declaration, false) {
            Some(i) => Some(facts.symbols[i].local_id.clone()),
            None => {
                proof {
                    assert forall|j: int| 0 <= j < facts.symbols@.len() implies !declares_module(
                        #[trigger] facts.symbols@[j],
                        *declaration,
                    ) by {
                        assert(!matches_declaration(facts.symbols@[j], *declaration, false));
                    }
                }
                None
            },
        },
    }
}

/// The width of a range in bytes, nothing when it is reversed.
pub open spec fn byte_span(r: SourceRange) -> int {
    if r.end_byte >= r.start_byte {
        r.end_byte - r.start_byte
    } else {
        0
    }
}

/// `s` lies in `path` and `module_id` and covers `range`.
pub open spec fn encloses(s: GraphSymbol, path: Seq<char>, module_id: Seq<char>, range: SourceRange) -> bool {
    s.path@ == path && s.module_id@ == module_id && range_contains_spec(s.range, range)
}

/// Among the first `n` symbols, `b` is the first of the narrowest that
/// enclose `range`.
pub open spec fn narrowest_before(
    symbols: Seq<GraphSymbol>,
    path: Seq<char>,
    module_id: Seq<char>,
    range: SourceRange,
    n: int,
    b: int,
) -> bool {
    &&& 0 <= b < n <= symbols.len()
    &&& encloses(symbols[b], path, module_id, range)
    &&& forall|k: int|
        0 <= k < n && encloses(#[trigger] symbols[k], path, module_id, range) ==> byte_span(symbols[b].range)
            <= byte_span(symbols[k].range)
    &&& forall|k: int|
        0 <= k < b && encloses(#[trigger] symbols[k], path, module_id, range) ==> byte_span(symbols[b].range)
            < byte_span(symbols[k].range)
}

fn span_of(r: &SourceRange) -> (n: usize)
    ensures
        n == byte_span(*r),
{
    if r.end_byte >= r.start_byte {
        r.end_byte - r.start_byte
    } else {
        0
    }
}

/// The innermost symbol of a module that covers `range`: the narrowest,
/// the first of equally narrow ones.
pub fn enclosing_symbol(path: &RepoPath, module_id: &str, range: &SourceRange, symbols: &Vec<GraphSymbol>) -> (r:
    Option<String>)
    ensures
        r is None <==> forall|i: int| 0 <= i < symbols@.len() ==> !encloses(#[trigger] symbols@[i], path@, module_id@, *range),
        r matches Some(id) ==> exists|i: int|
            narrowest_before(symbols@, path@, module_id@, *range, symbols@.len() as int, i) && (#[trigger] symbols@[i]).symbol_id@ == id@,
{
    let mut best: Option<usize> = None;
    let mut i: usize = 0;
    while i < symbols.len()
        invariant
            i <= symbols@.len(),
            best is None ==> forall|k: int| 0 <= k < i ==> !encloses(#[trigger] symbols@[k], path@, module_id@, *range),
            best matches Some(b) ==> narrowest_before(symbols@, path@, module_id@, *range, i as int, b as int),
        decreases symbols@.len() - i,
    {
        let s = &symbols[i];
        if str_equal(s.path.as_str(), path.as_str()) && str_equal(s.module_id.as_str(), module_id) && range_contains(
            &s.range,
            range,
        ) {
            match best {
                None => {
                    best = Some(i);
                },
                Some(b) => {
                    if span_of(&s.range) < span_of(&symbols[b].range) {
                        best = Some(i);
                    }
                },
            }
        }
        i = i + 1;
    }
    match best {
        Some(b) => {
            let id = symbols[b].symbol_id.clone();
            assert(narrowest_before(symbols@, path@, module_id@, *range, symbols@.len() as int, b as int));
            Some(id)
        },
        None => None,
    }
}

/// The manifest entry of a path: the last one that names it.
pub open spec fn entry_for(entries: Seq<RepositoryManifestEntry>, p: Seq<char>) -> Option<RepositoryManifestEntry>
    decreases entries.len(),
{
    if entries.len() == 0 {
        None
    } else if entries.last().path@ == p {
        Some(entries.last())
    } else {
        entry_for(entries.drop_last(), p)
    }
}

/// What is wrong with the `i`-th file's facts, given that the earlier
/// ones were accepted: the code of the first failed check, if any.
pub open spec fn file_fact_issue(entries: Seq<RepositoryManifestEntry>, files: Seq<RustRepositoryFileFacts>, i: int) -> Option<
    Seq<char>,
> {
    let f = files[i];
    if !file_fact_key_valid(f.key) {
        Some("rust-resolver-file-fact-key-invalid"@)
    } else {
        match entry_for(entries, f.path@) {
            None => Some("rust-resolver-file-fact-path-unknown"@),
            Some(e) => if !(e.presence == CandidatePresence::Present && opt_view(e.content_sha256) == Some(
                f.key.content_sha256@,
            ) && f.key.language@ == "rust"@) {
                Some("rust-resolver-file-fact-identity-mismatch"@)
            } else if exists|j: int| 0 <= j < i && (#[trigger] files[j]).path@ == f.path@ {
                Some("rust-resolver-file-fact-duplicate"@)
            } else {
                None
            },
        }
    }
}

fn last_entry_for(entries: &Vec<RepositoryManifestEntry>, p: &RepoPath) -> (r: Option<usize>)
    ensures
        match r {
            Some(i) => i < entries@.len() && entry_for(entries@, p@) == Some(entries@[i as int]),
            None => entry_for(entries@, p@) is None,
        },
{
    let mut i: usize = entries.len();
    assert(entries@.take(i as int) =~= entries@);
    while i > 0
        invariant
            i <= entries@.len(),
            entry_for(entries@, p@) == entry_for(entries@.take(i as int), p@),
        decreases i,
    {
        let ghost prefix = entries@.take(i as int);
        assert(prefix.drop_last() =~= entries@.take(i - 1));
        if str_equal(entries[i - 1].path.as_str(), p.as_str()) {
            return Some(i - 1);
        }
        i = i - 1;
    }
    assert(entries@.take(0) =~= Seq::<RepositoryManifestEntry>::empty());
    None
}

fn path_seen_before(files: &Vec<RustRepositoryFileFacts>, i: usize) -> (r: bool)
    requires
        i < files@.len(),
    ensures
        r == exists|j: int| 0 <= j < i && (#[trigger] files@[j]).path@ == files@[i as int].path@,
{
    let mut j: usize = 0;
    while j < i
        invariant
            j <= i < files@.len(),
            forall|k: int| 0 <= k < j ==> (#[trigger] files@[k]).path@ != files@[i as int].path@,
        decreases i - j,
    {
        if str_equal(files[j].path.as_str(), files[i].path.as_str()) {
            return true;
        }
        j = j + 1;
    }
    false
}

fn file_fact_check(manifest: &RepositoryManifest, files: &Vec<RustRepositoryFileFacts>, i: usize) -> (r: Result<
    (),
    RustResolverError,
>)
    requires
        i < files@.len(),
    ensures
        match file_fact_issue(manifest.entries@, files@, i as int) {
            None => r is Ok,
            Some(code) => r matches Err(e) && e.code@ == code,
        },
{
    let file = &files[i];
    if file.key.validate().is_err() {
        return Err(RustResolverError::new("rust-resolver-file-fact-key-invalid", file.path.as_str()));
    }
    let entry = match last_entry_for(&manifest.entries, &file.path) {
        Some(k) => &manifest.entries[k],
        None => {
            return Err(RustResolverError::new("rust-resolver-file-fact-path-unknown", file.path.as_str()));
        },
    };
    let digest_matches = match &entry.content_sha256 {
        Some(d) => str_equal(d.as_str(), file.key.content_sha256.as_str()),
        None => false,
    };
    if !(entry.presence == CandidatePresence::Present && digest_matches && str_equal(
        file.key.language.as_str(),
        "rust",
    )) {
        return Err(RustResolverError::new("rust-resolver-file-fact-identity-mismatch", file.path.as_str()));
    }
    if path_seen_before(files, i) {
        return Err(RustResolverError::new("rust-resolver-file-fact-duplicate", file.path.as_str()));
    }
    Ok(())
}

/// Checks that every file's facts carry a valid key, name a present
/// manifest entry of Rust text with the same content digest, and that no
/// path comes twice; the first failure, file by file, is the error.
pub fn validate_file_facts(manifest: &RepositoryManifest, files: &Vec<RustRepositoryFileFacts>) -> (r: Result<
    (),
    RustResolverError,
>)
    ensures
        r is Ok <==> forall|i: int| 0 <= i < files@.len() ==> file_fact_issue(manifest.entries@, files@, i) is None,
        r matches Err(e) ==> exists|i: int|
            0 <= i < files@.len() && file_fact_issue(manifest.entries@, files@, i) == Some(e.code@) && forall|j: int|
                0 <= j < i ==> #[trigger] file_fact_issue(manifest.entries@, files@, j) is None,
{
    let mut i: usize = 0;
    while i < files.len()
        invariant
            i <= files@.len(),
            forall|j: int| 0 <= j < i ==> #[trigger] file_fact_issue(manifest.entries@, files@, j) is None,
        decreases files@.len() - i,
    {
        match file_fact_check(manifest, files, i) {
            Ok(()) => {},
            Err(e) => {
                return Err(e);
            },
        }
        i = i + 1;
    }
    Ok(())
}

} // verus!
