//! The passive Cargo project model of a repository manifest: packages,
//! crate roots and the files they were read from, with the limitations of
//! what a plain reading of `Cargo.toml` cannot decide.
use vstd::prelude::*;
use vstd::utf8::encode_utf8;
use vstd::utf8::{decode_utf8, valid_utf8};
use crate::candidate::{CandidateBytes, CandidatePresence, RepoPath, RepoPathError, repo_path_valid};
use crate::index_budget::{IndexBudgetTracker, IndexResource};
use crate::model::{manifest_valid, RepositoryManifest, RepositoryManifestEntry};
use crate::contracts::{Completeness, UnitStatus};
use crate::digest::{hex_seq, sha256_hex_of_bytes, sha256_of};
use crate::integrity::{opt_view, sorted_unique_texts, views};
use crate::model::{component, push_component};
use crate::ordering::{
    lemma_ord_text_antisymmetric, ord_text, order_text, sorted_by_order, stable_sort,
    strictly_sorted_by_order, then, CanonicalOrder,
};
use crate::strings::{
    find_last_char, has_prefix, has_suffix, last_index_of, lemma_last_index_of, push_char, push_text,
    decode_utf8_strict, str_ends_with, str_equal, str_starts_with, substring_chars,
};

verus! {

/// The project model of a repository manifest.
#[derive(Debug, Clone, PartialEq, Eq)]
pub struct RustProjectModel {
    pub digest: String,
    pub packages: Vec<RustPackageModel>,
    pub roots: Vec<RustTargetRoot>,
    pub consumed_files: Vec<ProjectModelFile>,
    pub completeness: Completeness,
    pub limitations: Vec<String>,
}

/// A Cargo package: its name, its manifest and its root directory.
#[derive(Debug, Clone, PartialEq, Eq)]
pub struct RustPackageModel {
    pub package_name: String,
    pub manifest_path: RepoPath,
    pub package_root: RepoPath,
}

/// A crate root of a package: library, binary or test.
#[derive(Debug, Clone, PartialEq, Eq)]
pub struct RustTargetRoot {
    pub package_name: String,
    pub kind: String,
    pub source_path: RepoPath,
    pub crate_name: String,
}

/// A manifest file the model read, and how the reading went.
#[derive(Debug, Clone, PartialEq, Eq)]
pub struct ProjectModelFile {
    pub path: RepoPath,
    pub content_sha256: Option<String>,
    pub content_bytes: Option<usize>,
    pub status: UnitStatus,
}

/// Why the project model could not be built.
#[derive(Debug, Clone, PartialEq, Eq)]
pub struct ProjectModelError {
    pub code: String,
    pub message: String,
}

impl ProjectModelError {
    /// An error with a code and a message.
    pub fn new(code: &str, message: &str) -> (r: Self)
        ensures
            r.code@ == code@,
            r.message@ == message@,
    {
        ProjectModelError { code: String::from_str(code), message: String::from_str(message) }
    }
}

/// A TOML value as the project model reads it: text, a boolean, or
/// anything else.
#[derive(Debug, Clone, PartialEq, Eq)]
pub enum TomlScalar {
    Text(String),
    Boolean(bool),
    Other,
}

/// A `[lib]` or `[[bin]]` table: its name and path, where given.
#[derive(Debug, Clone, PartialEq, Eq)]
pub struct CargoTargetModel {
    pub name: Option<TomlScalar>,
    pub path: Option<TomlScalar>,
}

/// The `[package]` table: its name and build script, where given.
#[derive(Debug, Clone, PartialEq, Eq)]
pub struct CargoPackageModel {
    pub name: Option<TomlScalar>,
    pub build: Option<TomlScalar>,
}

/// What the project model reads of a `Cargo.toml`.
#[derive(Debug, Clone, PartialEq, Eq)]
pub struct CargoManifestModel {
    pub package: Option<CargoPackageModel>,
    pub lib: Option<CargoTargetModel>,
    pub bins: Vec<CargoTargetModel>,
    pub workspace_members: Option<Vec<TomlScalar>>,
}

/// `s` with each hyphen turned into an underscore.
pub open spec fn dashes_to_underscores(s: Seq<char>) -> Seq<char> {
    Seq::new(s.len(), |i: int| if s[i] == '-' { '_' } else { s[i] })
}

fn replace_dashes(s: &str) -> (r: String)
    ensures
        r@ == dashes_to_underscores(s@),
{
    let n = s.unicode_len();
    let mut out = String::new();
    let mut i: usize = 0;
    while i < n
        invariant
            n == s@.len(),
            i <= n,
            out@ == dashes_to_underscores(s@.take(i as int)),
        decreases n - i,
    {
        let c = s.get_char(i);
        if c == '-' {
            push_char(&mut out, '_');
        } else {
            push_char(&mut out, c);
        }
        assert(out@ =~= dashes_to_underscores(s@.take(i + 1)));
        i = i + 1;
    }
    assert(s@.take(n as int) =~= s@);
    out
}

/// The crate name of a package: its name with hyphens as underscores.
pub fn crate_name(package_name: &str) -> (r: String)
    ensures
        r@ == dashes_to_underscores(package_name@),
{
    replace_dashes(package_name)
}

/// The crate name a source path implies: its file name without `.rs`
/// (the whole path when the file name does not end so), with hyphens as
/// underscores.
pub open spec fn crate_name_from_path_spec(path: Seq<char>) -> Seq<char> {
    let slash = last_index_of(path, '/');
    let file = path.subrange(slash + 1, path.len() as int);
    if has_suffix(file, ".rs"@) {
        dashes_to_underscores(file.subrange(0, file.len() - 3))
    } else {
        dashes_to_underscores(path)
    }
}

/// The crate name a source path implies.
pub fn crate_name_from_path(path: &str) -> (r: String)
    ensures
        r@ == crate_name_from_path_spec(path@),
{
    proof {
        lemma_last_index_of(path@, '/');
    }
    let n = path.unicode_len();
    let start = match find_last_char(path, '/') {
        Some(i) => i + 1,
        None => 0,
    };
    let file = substring_chars(path, start, n);
    if str_ends_with(file.as_str(), ".rs") {
        proof {
            reveal_strlit(".rs");
        }
        let stem = substring_chars(file.as_str(), 0, file.unicode_len() - 3);
        replace_dashes(stem.as_str())
    } else {
        replace_dashes(path)
    }
}

/// Whether a path names a Cargo manifest.
pub open spec fn is_cargo_manifest_spec(p: Seq<char>) -> bool {
    p == "Cargo.toml"@ || has_suffix(p, "/Cargo.toml"@)
}

/// Whether a path names a Cargo manifest.
pub fn is_cargo_manifest(path: &RepoPath) -> (r: bool)
    ensures
        r == is_cargo_manifest_spec(path@),
{
    str_equal(path.as_str(), "Cargo.toml") || str_ends_with(path.as_str(), "/Cargo.toml")
}

/// The directory of a manifest: the text before its last `/`, or the
/// repository root `.`.
pub open spec fn manifest_root_spec(p: Seq<char>) -> Seq<char> {
    let slash = last_index_of(p, '/');
    if slash < 0 {
        seq!['.']
    } else {
        p.subrange(0, slash)
    }
}

/// The root directory of the package of a manifest.
pub fn manifest_root(path: &RepoPath) -> (r: Result<RepoPath, ProjectModelError>)
    ensures
        r is Ok <==> repo_path_valid(manifest_root_spec(path@)),
        r matches Ok(root) ==> root@ == manifest_root_spec(path@),
        r matches Err(e) ==> e.code@ == "project-model-path-invalid"@,
{
    let p = path.as_str();
    proof {
        lemma_last_index_of(p@, '/');
    }
    let root = match find_last_char(p, '/') {
        Some(i) => substring_chars(p, 0, i),
        None => {
            let mut dot = String::new();
            push_char(&mut dot, '.');
            dot
        },
    };
    match RepoPath::new(root) {
        Ok(r) => Ok(r),
        Err(_) => Err(ProjectModelError::new("project-model-path-invalid", "the manifest directory is not a repository path")),
    }
}

/// A path relative to a package root, as a repository path.
pub open spec fn joined_path(root: Seq<char>, relative: Seq<char>) -> Seq<char> {
    if root == seq!['.'] {
        relative
    } else {
        root + seq!['/'] + relative
    }
}

/// `relative` under `root`, when that is a repository path.
pub fn join_package_path(root: &RepoPath, relative: &str) -> (r: Result<RepoPath, RepoPathError>)
    ensures
        r is Ok <==> repo_path_valid(joined_path(root@, relative@)),
        r matches Ok(p) ==> p@ == joined_path(root@, relative@),
{
    let r = root.as_str();
    let mut value = String::new();
    if r.unicode_len() == 1 && r.get_char(0) == '.' {
        assert(r@ =~= seq!['.']);
        push_text(&mut value, relative);
    } else {
        assert(r@ != seq!['.']);
        push_text(&mut value, r);
        push_char(&mut value, '/');
        push_text(&mut value, relative);
        assert(value@ =~= r@ + seq!['/'] + relative@);
    }
    RepoPath::new(value)
}

/// A limitation about a path: its code, `:` and the path.
pub open spec fn path_limitation_spec(code: Seq<char>, path: Seq<char>) -> Seq<char> {
    code + seq![':'] + path
}

/// Records a limitation about `path`.
pub fn push_path_limitation(limitations: &mut Vec<String>, code: &str, path: &RepoPath)
    ensures
        final(limitations)@.len() == old(limitations)@.len() + 1,
        final(limitations)@.drop_last() == old(limitations)@,
        final(limitations)@.last()@ == path_limitation_spec(code@, path@),
{
    let mut text = String::new();
    push_text(&mut text, code);
    push_char(&mut text, ':');
    push_text(&mut text, path.as_str());
    assert(text@ =~= path_limitation_spec(code@, path@));
    limitations.push(text);
    assert(limitations@.drop_last() =~= old(limitations)@);
}

/// Reads a text field of a manifest table; any other value (such as a
/// field inherited from the workspace) is recorded as unsupported.
pub fn string_field(
    value: &Option<TomlScalar>,
    unsupported_code: &str,
    manifest_path: &RepoPath,
    limitations: &mut Vec<String>,
) -> (r: Option<String>)
    ensures
        match value {
            Some(TomlScalar::Text(t)) => r == Some(*t) && final(limitations)@ == old(limitations)@,
            Some(_) => r is None && final(limitations)@.drop_last() == old(limitations)@
                && final(limitations)@.len() == old(limitations)@.len() + 1
                && final(limitations)@.last()@ == path_limitation_spec(unsupported_code@, manifest_path@),
            None => r is None && final(limitations)@ == old(limitations)@,
        },
{
    match value {
        Some(TomlScalar::Text(t)) => Some(t.clone()),
        Some(_) => {
            push_path_limitation(limitations, unsupported_code, manifest_path);
            None
        },
        None => None,
    }
}

/// A build script is enabled unless `build = false`.
pub fn build_script_enabled(value: &TomlScalar) -> (r: bool)
    ensures
        r == !(*value == TomlScalar::Boolean(false)),
{
    match value {
        TomlScalar::Boolean(b) => *b,
        _ => true,
    }
}

/// The texts of a list of paths.
pub open spec fn path_views(v: Seq<RepoPath>) -> Seq<Seq<char>> {
    Seq::new(v.len(), |i: int| v[i]@)
}

/// Whether `p` is among the candidate paths.
pub fn has_path(paths: &Vec<RepoPath>, p: &RepoPath) -> (r: bool)
    ensures
        r == path_views(paths@).contains(p@),
{
    let mut i: usize = 0;
    while i < paths.len()
        invariant
            i <= paths@.len(),
            forall|k: int| 0 <= k < i ==> paths@[k]@ != p@,
        decreases paths@.len() - i,
    {
        if str_equal(paths[i].as_str(), p.as_str()) {
            assert(path_views(paths@)[i as int] == p@);
            return true;
        }
        i = i + 1;
    }
    proof {
        if path_views(paths@).contains(p@) {
            let k = choose|k: int| 0 <= k < path_views(paths@).len() && path_views(paths@)[k] == p@;
            assert(paths@[k]@ == p@);
        }
    }
    false
}

/// `r` is the root of `package` of `kind` at `path` named `crate_name`.
pub open spec fn root_is(r: RustTargetRoot, package: Seq<char>, kind: Seq<char>, path: Seq<char>, crate_name: Seq<char>) -> bool {
    &&& r.package_name@ == package
    &&& r.kind@ == kind
    &&& r.source_path@ == path
    &&& r.crate_name@ == crate_name
}

/// Adds the conventional root `relative` of a package when the candidate
/// has that file.
pub fn add_conventional_root(
    package: &RustPackageModel,
    kind: &str,
    relative: &str,
    crate_name: &str,
    candidate_paths: &Vec<RepoPath>,
    roots: &mut Vec<RustTargetRoot>,
)
    ensures
        ({
            let p = joined_path(package.package_root@, relative@);
            if repo_path_valid(p) && path_views(candidate_paths@).contains(p) {
                final(roots)@.len() == old(roots)@.len() + 1 && final(roots)@.drop_last() == old(roots)@
                    && root_is(final(roots)@.last(), package.package_name@, kind@, p, crate_name@)
            } else {
                final(roots)@ == old(roots)@
            }
        }),
{
    if let Ok(path) = join_package_path(&package.package_root, relative) {
        if has_path(candidate_paths, &path) {
            roots.push(
                RustTargetRoot {
                    package_name: package.package_name.clone(),
                    kind: String::from_str(kind),
                    source_path: path,
                    crate_name: String::from_str(crate_name),
                },
            );
            assert(roots@.drop_last() =~= old(roots)@);
        }
    }
}

/// Adds a root declared by the manifest; records a path that is not a
/// repository path, or a file the candidate does not have.
pub fn add_explicit_root(
    package: &RustPackageModel,
    kind: &str,
    relative: &str,
    crate_name: &str,
    candidate_paths: &Vec<RepoPath>,
    roots: &mut Vec<RustTargetRoot>,
    limitations: &mut Vec<String>,
)
    ensures
        ({
            let p = joined_path(package.package_root@, relative@);
            if !repo_path_valid(p) {
                final(roots)@ == old(roots)@ && final(limitations)@ == old(limitations)@.push(
                    final(limitations)@.last(),
                ) && final(limitations)@.last()@ == path_limitation_spec(
                    "project-model-target-path-unsupported"@,
                    package.manifest_path@,
                )
            } else if !path_views(candidate_paths@).contains(p) {
                final(roots)@ == old(roots)@ && final(limitations)@ == old(limitations)@.push(
                    final(limitations)@.last(),
                ) && final(limitations)@.last()@ == path_limitation_spec(
                    "project-model-target-missing"@,
                    p,
                )
            } else {
                final(limitations)@ == old(limitations)@ && final(roots)@.len() == old(roots)@.len()
                    + 1 && final(roots)@.drop_last() == old(roots)@ && root_is(
                    final(roots)@.last(),
                    package.package_name@,
                    kind@,
                    p,
                    crate_name@,
                )
            }
        }),
{
    let path = match join_package_path(&package.package_root, relative) {
        Ok(path) => path,
        Err(_) => {
            push_path_limitation(limitations, "project-model-target-path-unsupported", &package.manifest_path);
            assert(limitations@ =~= old(limitations)@.push(limitations@.last()));
            return;
        },
    };
    if !has_path(candidate_paths, &path) {
        push_path_limitation(limitations, "project-model-target-missing", &path);
        assert(limitations@ =~= old(limitations)@.push(limitations@.last()));
        return;
    }
    roots.push(
        RustTargetRoot {
            package_name: package.package_name.clone(),
            kind: String::from_str(kind),
            source_path: path,
            crate_name: String::from_str(crate_name),
        },
    );
    assert(roots@.drop_last() =~= old(roots)@);
}

/// The file name of a candidate path directly under `prefix` that is a
/// Rust source, if it is one.
pub open spec fn discovered_name(path: Seq<char>, prefix: Seq<char>) -> Option<Seq<char>> {
    let rest = path.subrange(prefix.len() as int, path.len() as int);
    if has_prefix(path, prefix) && rest.len() > 0 && !rest.contains('/') && has_suffix(rest, ".rs"@) {
        Some(rest)
    } else {
        None
    }
}

/// The candidate paths that are Rust files directly under `prefix`.
pub open spec fn discovered_paths(paths: Seq<Seq<char>>, prefix: Seq<char>) -> Seq<Seq<char>>
    decreases paths.len(),
{
    if paths.len() == 0 {
        Seq::empty()
    } else if discovered_name(paths.last(), prefix) is Some {
        discovered_paths(paths.drop_last(), prefix).push(paths.last())
    } else {
        discovered_paths(paths.drop_last(), prefix)
    }
}

fn contains_slash(s: &str) -> (r: bool)
    ensures
        r == s@.contains('/'),
{
    let n = s.unicode_len();
    let mut i: usize = 0;
    while i < n
        invariant
            n == s@.len(),
            i <= n,
            forall|k: int| 0 <= k < i ==> s@[k] != '/',
        decreases n - i,
    {
        if s.get_char(i) == '/' {
            return true;
        }
        i = i + 1;
    }
    false
}

/// Adds a root of `kind` for each Rust file directly under the package's
/// `relative_prefix` directory, in candidate order, named by its file.
pub fn add_discovered_roots(
    package: &RustPackageModel,
    relative_prefix: &str,
    kind: &str,
    candidate_paths: &Vec<RepoPath>,
    roots: &mut Vec<RustTargetRoot>,
)
    ensures
        ({
            let prefix = if package.package_root@ == seq!['.'] {
                relative_prefix@
            } else {
                package.package_root@ + seq!['/'] + relative_prefix@
            };
            let found = discovered_paths(path_views(candidate_paths@), prefix);
            &&& final(roots)@.len() == old(roots)@.len() + found.len()
            &&& final(roots)@.take(old(roots)@.len() as int) == old(roots)@
            &&& forall|j: int|
                0 <= j < found.len() ==> root_is(
                    #[trigger] final(roots)@[old(roots)@.len() + j],
                    package.package_name@,
                    kind@,
                    found[j],
                    crate_name_from_path_spec(discovered_name(found[j], prefix)->0),
                )
        }),
{
    let root = package.package_root.as_str();
    let mut prefix = String::new();
    if root.unicode_len() == 1 && root.get_char(0) == '.' {
        assert(root@ =~= seq!['.']);
        push_text(&mut prefix, relative_prefix);
    } else {
        push_text(&mut prefix, root);
        push_char(&mut prefix, '/');
        push_text(&mut prefix, relative_prefix);
        assert(prefix@ =~= root@ + seq!['/'] + relative_prefix@);
    }
    let ghost views = path_views(candidate_paths@);
    let ghost start = roots@;
    let mut i: usize = 0;
    assert(views.take(0) =~= Seq::<Seq<char>>::empty());
    while i < candidate_paths.len()
        invariant
            i <= candidate_paths@.len(),
            views == path_views(candidate_paths@),
            start == old(roots)@,
            roots@.len() == start.len() + discovered_paths(views.take(i as int), prefix@).len(),
            roots@.take(start.len() as int) == start,
            forall|j: int|
                0 <= j < roots@.len() - start.len() ==> root_is(
                    #[trigger] roots@[start.len() + j],
                    package.package_name@,
                    kind@,
                    discovered_paths(views.take(i as int), prefix@)[j],
                    crate_name_from_path_spec(
                        discovered_name(discovered_paths(views.take(i as int), prefix@)[j], prefix@)->0,
                    ),
                ),
        decreases candidate_paths@.len() - i,
    {
        let ghost before = discovered_paths(views.take(i as int), prefix@);
        proof {
            assert(views.take(i + 1).drop_last() =~= views.take(i as int));
            assert(views.take(i + 1).last() == candidate_paths@[i as int]@);
        }
        let path = &candidate_paths[i];
        let text = path.as_str();
        let n = text.unicode_len();
        let pl = prefix.unicode_len();
        if str_starts_with(text, prefix.as_str()) {
            proof {
                reveal_strlit(".rs");
            }
            let rest = substring_chars(text, pl, n);
            if rest.unicode_len() > 0 && !contains_slash(rest.as_str()) && str_ends_with(rest.as_str(), ".rs") {
                let ghost prev = roots@;
                roots.push(
                    RustTargetRoot {
                        package_name: package.package_name.clone(),
                        kind: String::from_str(kind),
                        source_path: path.duplicate(),
                        crate_name: crate_name_from_path(rest.as_str()),
                    },
                );
                proof {
                    assert(discovered_name(text@, prefix@) == Some(rest@));
                    let after = discovered_paths(views.take(i + 1), prefix@);
                    assert(after == before.push(text@));
                    assert(roots@.take(start.len() as int) =~= prev.take(start.len() as int));
                    assert forall|j: int| 0 <= j < roots@.len() - start.len() implies root_is(
                        #[trigger] roots@[start.len() + j],
                        package.package_name@,
                        kind@,
                        after[j],
                        crate_name_from_path_spec(discovered_name(after[j], prefix@)->0),
                    ) by {
                        if j < before.len() {
                            assert(roots@[start.len() + j] == prev[start.len() + j]);
                        }
                    }
                }
            } else {
                assert(discovered_name(text@, prefix@) is None);
            }
        } else {
            assert(discovered_name(text@, prefix@) is None);
        }
        i = i + 1;
    }
    assert(views.take(candidate_paths@.len() as int) =~= views);
}

/// A root of `package` at one of the candidate paths, as a library,
/// binary or test.
pub open spec fn package_root_ok(r: RustTargetRoot, package: Seq<char>, candidates: Seq<Seq<char>>) -> bool {
    &&& r.package_name@ == package
    &&& candidates.contains(r.source_path@)
    &&& (r.kind@ == "lib"@ || r.kind@ == "bin"@ || r.kind@ == "test"@)
}

/// A limitation of a package's targets: a field, path or file.
pub open spec fn target_limitation(l: Seq<char>) -> bool {
    exists|p: Seq<char>|
        #![trigger path_limitation_spec("project-model-target-field-unsupported"@, p)]
        #![trigger path_limitation_spec("project-model-target-path-unsupported"@, p)]
        #![trigger path_limitation_spec("project-model-target-missing"@, p)]
        path_limitation_spec("project-model-target-field-unsupported"@, p) == l
            || path_limitation_spec("project-model-target-path-unsupported"@, p) == l
            || path_limitation_spec("project-model-target-missing"@, p) == l
}

/// Every root is a root of the package at a candidate path.
pub open spec fn roots_ok(v: Seq<RustTargetRoot>, package: Seq<char>, candidates: Seq<Seq<char>>) -> bool {
    forall|j: int| 0 <= j < v.len() ==> package_root_ok(#[trigger] v[j], package, candidates)
}

/// Every limitation concerns a target.
pub open spec fn limitations_ok(v: Seq<String>) -> bool {
    forall|j: int| 0 <= j < v.len() ==> target_limitation(#[trigger] v[j]@)
}

/// The kind, path and crate name of each root.
pub open spec fn root_triples(v: Seq<RustTargetRoot>) -> Seq<(Seq<char>, Seq<char>, Seq<char>)> {
    Seq::new(v.len(), |i: int| (v[i].kind@, v[i].source_path@, v[i].crate_name@))
}

/// Every root belongs to `package`.
pub open spec fn roots_of_package(v: Seq<RustTargetRoot>, package: Seq<char>) -> bool {
    forall|i: int| 0 <= i < v.len() ==> (#[trigger] v[i]).package_name@ == package
}

/// The conventional root `relative` of a package in `root`, when the
/// candidate has that file.
pub open spec fn conventional_roots(
    root: Seq<char>,
    kind: Seq<char>,
    relative: Seq<char>,
    crate_name: Seq<char>,
    candidates: Seq<Seq<char>>,
) -> Seq<(Seq<char>, Seq<char>, Seq<char>)> {
    let p = joined_path(root, relative);
    if repo_path_valid(p) && candidates.contains(p) {
        seq![(kind, p, crate_name)]
    } else {
        Seq::empty()
    }
}

/// A declared root: the root, or the limitation recorded for a path that
/// is not a repository path or that the candidate does not have.
pub open spec fn explicit_outcome(
    root: Seq<char>,
    manifest_path: Seq<char>,
    kind: Seq<char>,
    relative: Seq<char>,
    crate_name: Seq<char>,
    candidates: Seq<Seq<char>>,
) -> (Seq<(Seq<char>, Seq<char>, Seq<char>)>, Seq<Seq<char>>) {
    let p = joined_path(root, relative);
    if !repo_path_valid(p) {
        (Seq::empty(), seq![path_limitation_spec("project-model-target-path-unsupported"@, manifest_path)])
    } else if !candidates.contains(p) {
        (Seq::empty(), seq![path_limitation_spec("project-model-target-missing"@, p)])
    } else {
        (seq![(kind, p, crate_name)], Seq::empty())
    }
}

/// The roots discovered under `relative_prefix` of a package in `root`.
pub open spec fn discovered_roots(
    root: Seq<char>,
    relative_prefix: Seq<char>,
    kind: Seq<char>,
    candidates: Seq<Seq<char>>,
) -> Seq<(Seq<char>, Seq<char>, Seq<char>)> {
    let prefix = if root == seq!['.'] {
        relative_prefix
    } else {
        root + seq!['/'] + relative_prefix
    };
    let found = discovered_paths(candidates, prefix);
    Seq::new(found.len(), |j: int| (kind, found[j], crate_name_from_path_spec(discovered_name(found[j], prefix)->0)))
}

fn conventional(
    package: &RustPackageModel,
    kind: &str,
    relative: &str,
    crate_name: &str,
    candidate_paths: &Vec<RepoPath>,
    roots: &mut Vec<RustTargetRoot>,
)
    requires
        kind@ == "lib"@ || kind@ == "bin"@,
        roots_ok(old(roots)@, package.package_name@, path_views(candidate_paths@)),
    ensures
        roots_ok(final(roots)@, package.package_name@, path_views(candidate_paths@)),
        root_triples(final(roots)@) == root_triples(old(roots)@) + conventional_roots(
            package.package_root@,
            kind@,
            relative@,
            crate_name@,
            path_views(candidate_paths@),
        ),
{
    let ghost before = roots@;
    add_conventional_root(package, kind, relative, crate_name, candidate_paths, roots);
    proof {
        assert forall|j: int| 0 <= j < roots@.len() implies package_root_ok(#[trigger] roots@[j], package.package_name@, path_views(candidate_paths@)) by {
            if j < before.len() {
                assert(roots@[j] == roots@.drop_last()[j] || roots@ == before);
            }
        }
        assert(root_triples(roots@) =~= root_triples(before) + conventional_roots(
            package.package_root@,
            kind@,
            relative@,
            crate_name@,
            path_views(candidate_paths@),
        )) by {
            if roots@ != before {
                assert forall|j: int| 0 <= j < before.len() implies roots@[j] == before[j] by {
                    assert(roots@[j] == roots@.drop_last()[j]);
                }
            }
        }
    }
}

fn explicit(
    package: &RustPackageModel,
    kind: &str,
    relative: &str,
    crate_name: &str,
    candidate_paths: &Vec<RepoPath>,
    roots: &mut Vec<RustTargetRoot>,
    limitations: &mut Vec<String>,
)
    requires
        kind@ == "lib"@ || kind@ == "bin"@,
        roots_ok(old(roots)@, package.package_name@, path_views(candidate_paths@)),
        limitations_ok(old(limitations)@),
    ensures
        roots_ok(final(roots)@, package.package_name@, path_views(candidate_paths@)),
        limitations_ok(final(limitations)@),
        ({
            let o = explicit_outcome(
                package.package_root@,
                package.manifest_path@,
                kind@,
                relative@,
                crate_name@,
                path_views(candidate_paths@),
            );
            &&& root_triples(final(roots)@) == root_triples(old(roots)@) + o.0
            &&& views(final(limitations)@) == views(old(limitations)@) + o.1
        }),
{
    let ghost before = roots@;
    let ghost lims = limitations@;
    add_explicit_root(package, kind, relative, crate_name, candidate_paths, roots, limitations);
    proof {
        let p = joined_path(package.package_root@, relative@);
        let o = explicit_outcome(
            package.package_root@,
            package.manifest_path@,
            kind@,
            relative@,
            crate_name@,
            path_views(candidate_paths@),
        );
        assert forall|j: int| 0 <= j < roots@.len() implies package_root_ok(#[trigger] roots@[j], package.package_name@, path_views(candidate_paths@)) by {
            if j < before.len() && roots@ != before {
                assert(roots@[j] == roots@.drop_last()[j]);
            }
        }
        if roots@ != before {
            assert forall|j: int| 0 <= j < before.len() implies roots@[j] == before[j] by {
                assert(roots@[j] == roots@.drop_last()[j]);
            }
        }
        assert(root_triples(roots@) =~= root_triples(before) + o.0);
        if limitations@ != lims {
            let l = limitations@.last()@;
            if !repo_path_valid(p) {
                assert(path_limitation_spec("project-model-target-path-unsupported"@, package.manifest_path@) == l);
            } else {
                assert(path_limitation_spec("project-model-target-missing"@, p) == l);
            }
            assert(target_limitation(l));
            assert forall|j: int| 0 <= j < limitations@.len() implies target_limitation(#[trigger] limitations@[j]@) by {
                if j < lims.len() {
                    assert(limitations@[j] == limitations@.drop_last()[j]);
                }
            }
        }
        assert(views(limitations@) =~= views(lims) + o.1);
    }
}

/// The text of a field given as text.
pub open spec fn field_text(value: Option<TomlScalar>) -> Option<Seq<char>> {
    match value {
        Some(TomlScalar::Text(t)) => Some(t@),
        _ => None,
    }
}

/// What reading a target field records: a field given as something other
/// than text.
pub open spec fn field_limitations(value: Option<TomlScalar>, manifest_path: Seq<char>) -> Seq<Seq<char>> {
    match value {
        Some(TomlScalar::Text(_)) => Seq::empty(),
        Some(_) => seq![path_limitation_spec("project-model-target-field-unsupported"@, manifest_path)],
        None => Seq::empty(),
    }
}

fn field(value: &Option<TomlScalar>, manifest_path: &RepoPath, limitations: &mut Vec<String>) -> (r: Option<String>)
    requires
        limitations_ok(old(limitations)@),
    ensures
        limitations_ok(final(limitations)@),
        match value {
            Some(TomlScalar::Text(t)) => r == Some(*t),
            _ => r is None,
        },
        views(final(limitations)@) == views(old(limitations)@) + field_limitations(*value, manifest_path@),
{
    let ghost lims = limitations@;
    let r = string_field(value, "project-model-target-field-unsupported", manifest_path, limitations);
    proof {
        if limitations@ != lims {
            assert(path_limitation_spec("project-model-target-field-unsupported"@, manifest_path@) == limitations@.last()@);
            assert forall|j: int| 0 <= j < limitations@.len() implies target_limitation(#[trigger] limitations@[j]@) by {
                if j < lims.len() {
                    assert(limitations@[j] == limitations@.drop_last()[j]);
                } else {
                    assert(target_limitation(limitations@.last()@));
                }
            }
        }
        assert(views(limitations@) =~= views(lims) + field_limitations(*value, manifest_path@));
    }
    r
}

fn discovered(
    package: &RustPackageModel,
    relative_prefix: &str,
    kind: &str,
    candidate_paths: &Vec<RepoPath>,
    roots: &mut Vec<RustTargetRoot>,
)
    requires
        kind@ == "bin"@ || kind@ == "test"@,
        roots_ok(old(roots)@, package.package_name@, path_views(candidate_paths@)),
    ensures
        roots_ok(final(roots)@, package.package_name@, path_views(candidate_paths@)),
        root_triples(final(roots)@) == root_triples(old(roots)@) + discovered_roots(
            package.package_root@,
            relative_prefix@,
            kind@,
            path_views(candidate_paths@),
        ),
{
    let ghost before = roots@;
    add_discovered_roots(package, relative_prefix, kind, candidate_paths, roots);
    proof {
        let prefix = if package.package_root@ == seq!['.'] {
            relative_prefix@
        } else {
            package.package_root@ + seq!['/'] + relative_prefix@
        };
        let views = path_views(candidate_paths@);
        let found = discovered_paths(views, prefix);
        lemma_discovered_in(views, prefix);
        assert forall|j: int| 0 <= j < roots@.len() implies package_root_ok(#[trigger] roots@[j], package.package_name@, views) by {
            if j < before.len() {
                assert(roots@.take(before.len() as int)[j] == roots@[j]);
            } else {
                let k = j - before.len();
                assert(root_is(roots@[before.len() + k], package.package_name@, kind@, found[k], crate_name_from_path_spec(discovered_name(found[k], prefix)->0)));
                assert(views.contains(found[k]));
            }
        }
        let d = discovered_roots(package.package_root@, relative_prefix@, kind@, views);
        assert forall|j: int| 0 <= j < roots@.len() implies #[trigger] root_triples(roots@)[j] == (root_triples(before) + d)[j] by {
            if j < before.len() {
                assert(roots@.take(before.len() as int)[j] == roots@[j]);
            } else {
                let k = j - before.len();
                assert(root_is(roots@[before.len() + k], package.package_name@, kind@, found[k], crate_name_from_path_spec(discovered_name(found[k], prefix)->0)));
            }
        }
        assert(root_triples(roots@) =~= root_triples(before) + d);
    }
}

proof fn lemma_discovered_in(paths: Seq<Seq<char>>, prefix: Seq<char>)
    ensures
        forall|k: int| 0 <= k < discovered_paths(paths, prefix).len() ==> paths.contains(#[trigger] discovered_paths(paths, prefix)[k]),
    decreases paths.len(),
{
    if paths.len() > 0 {
        let d = paths.drop_last();
        lemma_discovered_in(d, prefix);
        assert forall|k: int| 0 <= k < discovered_paths(paths, prefix).len() implies paths.contains(#[trigger] discovered_paths(paths, prefix)[k]) by {
            let f = discovered_paths(paths, prefix);
            if k < discovered_paths(d, prefix).len() {
                assert(f[k] == discovered_paths(d, prefix)[k]);
                let w = choose|w: int| 0 <= w < d.len() && d[w] == f[k];
                assert(paths[w] == f[k]);
            } else {
                assert(f[k] == paths.last());
                assert(paths[paths.len() - 1] == f[k]);
            }
        }
    }
}

/// The library root of a package and what reading it records: the
/// declared path, else (when no path is given at all) `src/lib.rs`, named
/// by the declared name or the package's crate name.
pub open spec fn lib_outcome(
    name: Seq<char>,
    mp: Seq<char>,
    root: Seq<char>,
    lib: Option<CargoTargetModel>,
    candidates: Seq<Seq<char>>,
) -> (
    Seq<(Seq<char>, Seq<char>, Seq<char>)>,
    Seq<Seq<char>>,
) {
    let default = dashes_to_underscores(name);
    match lib {
        None => (conventional_roots(root, "lib"@, "src/lib.rs"@, default, candidates), Seq::empty()),
        Some(l) => {
            let crate_name = match field_text(l.name) {
                Some(n) => n,
                None => default,
            };
            let lims = field_limitations(l.name, mp) + field_limitations(l.path, mp);
            match field_text(l.path) {
                Some(p) => {
                    let o = explicit_outcome(root, mp, "lib"@, p, crate_name, candidates);
                    (o.0, lims + o.1)
                },
                None => (
                    if l.path is None {
                        conventional_roots(root, "lib"@, "src/lib.rs"@, crate_name, candidates)
                    } else {
                        Seq::empty()
                    },
                    lims,
                ),
            }
        },
    }
}

/// The root of one declared binary and what reading it records: its path
/// (declared, else `src/bin/<name>.rs`), named by its name or its path.
pub open spec fn bin_outcome(mp: Seq<char>, root: Seq<char>, bin: CargoTargetModel, candidates: Seq<Seq<char>>) -> (
    Seq<(Seq<char>, Seq<char>, Seq<char>)>,
    Seq<Seq<char>>,
) {
    let lims = field_limitations(bin.name, mp) + field_limitations(bin.path, mp);
    let path = match field_text(bin.path) {
        Some(p) => Some(p),
        None => match field_text(bin.name) {
            Some(n) => Some("src/bin/"@ + n + ".rs"@),
            None => None,
        },
    };
    match path {
        None => (Seq::empty(), lims.push(path_limitation_spec("project-model-target-field-unsupported"@, mp))),
        Some(p) => {
            let crate_name = match field_text(bin.name) {
                Some(n) => dashes_to_underscores(n),
                None => crate_name_from_path_spec(p),
            };
            let o = explicit_outcome(root, mp, "bin"@, p, crate_name, candidates);
            (o.0, lims + o.1)
        },
    }
}

/// The roots and records of the declared binaries, in order.
pub open spec fn bins_outcome(mp: Seq<char>, root: Seq<char>, bins: Seq<CargoTargetModel>, candidates: Seq<Seq<char>>) -> (
    Seq<(Seq<char>, Seq<char>, Seq<char>)>,
    Seq<Seq<char>>,
)
    decreases bins.len(),
{
    if bins.len() == 0 {
        (Seq::empty(), Seq::empty())
    } else {
        let a = bins_outcome(mp, root, bins.drop_last(), candidates);
        let b = bin_outcome(mp, root, bins.last(), candidates);
        (a.0 + b.0, a.1 + b.1)
    }
}

/// The roots of a package (kind, path and crate name, in order) and the
/// limitations recorded on the way: the library, the binaries (declared,
/// or `src/main.rs` and the files of `src/bin/`), then the files of
/// `tests/`.
pub open spec fn package_roots_outcome(
    package: RustPackageModel,
    manifest: CargoManifestModel,
    candidates: Seq<Seq<char>>,
) -> (Seq<(Seq<char>, Seq<char>, Seq<char>)>, Seq<Seq<char>>) {
    roots_outcome_of(package.package_name@, package.manifest_path@, package.package_root@, manifest, candidates)
}

/// The roots and records of the package named `name` whose manifest is
/// at `mp` in directory `root`.
pub open spec fn roots_outcome_of(
    name: Seq<char>,
    mp: Seq<char>,
    root: Seq<char>,
    manifest: CargoManifestModel,
    candidates: Seq<Seq<char>>,
) -> (Seq<(Seq<char>, Seq<char>, Seq<char>)>, Seq<Seq<char>>) {
    let default = dashes_to_underscores(name);
    let l = lib_outcome(name, mp, root, manifest.lib, candidates);
    let b = if manifest.bins@.len() == 0 {
        (
            conventional_roots(root, "bin"@, "src/main.rs"@, default, candidates) + discovered_roots(
                root,
                "src/bin/"@,
                "bin"@,
                candidates,
            ),
            Seq::empty(),
        )
    } else {
        bins_outcome(mp, root, manifest.bins@, candidates)
    };
    (l.0 + b.0 + discovered_roots(root, "tests/"@, "test"@, candidates), l.1 + b.1)
}

/// Adds the crate roots of a package: its library (declared, or the
/// conventional `src/lib.rs`), its binaries (declared, or `src/main.rs`
/// and the files of `src/bin/`) and its tests (the files of `tests/`).
/// Every root lies at a candidate path; every limitation concerns a
/// target field, path or file.
pub fn add_package_roots(
    package: &RustPackageModel,
    manifest: &CargoManifestModel,
    candidate_paths: &Vec<RepoPath>,
    roots: &mut Vec<RustTargetRoot>,
    limitations: &mut Vec<String>,
)
    ensures
        final(roots)@.len() >= old(roots)@.len(),
        final(roots)@.take(old(roots)@.len() as int) == old(roots)@,
        roots_ok(final(roots)@.skip(old(roots)@.len() as int), package.package_name@, path_views(candidate_paths@)),
        final(limitations)@.len() >= old(limitations)@.len(),
        final(limitations)@.take(old(limitations)@.len() as int) == old(limitations)@,
        limitations_ok(final(limitations)@.skip(old(limitations)@.len() as int)),
        root_triples(final(roots)@.skip(old(roots)@.len() as int)) == package_roots_outcome(
            *package,
            *manifest,
            path_views(candidate_paths@),
        ).0,
        views(final(limitations)@) == views(old(limitations)@) + package_roots_outcome(
            *package,
            *manifest,
            path_views(candidate_paths@),
        ).1,
{
    let ghost cands = path_views(candidate_paths@);
    let ghost lo = lib_outcome(package.package_name@, package.manifest_path@, package.package_root@, manifest.lib, cands);
    let mut mine: Vec<RustTargetRoot> = Vec::new();
    let mut lims: Vec<String> = Vec::new();
    assert(root_triples(mine@) =~= Seq::<(Seq<char>, Seq<char>, Seq<char>)>::empty());
    assert(views(lims@) =~= Seq::<Seq<char>>::empty());
    let default_crate_name = crate_name(package.package_name.as_str());
    match &manifest.lib {
        Some(lib) => {
            let name = field(&lib.name, &package.manifest_path, &mut lims);
            let crate_name = match name {
                Some(n) => n,
                None => default_crate_name.clone(),
            };
            let path = field(&lib.path, &package.manifest_path, &mut lims);
            match path {
                Some(p) => {
                    explicit(package, "lib", p.as_str(), crate_name.as_str(), candidate_paths, &mut mine, &mut lims);
                },
                None => {
                    if lib.path.is_none() {
                        conventional(package, "lib", "src/lib.rs", crate_name.as_str(), candidate_paths, &mut mine);
                    }
                },
            }
        },
        None => {
            conventional(package, "lib", "src/lib.rs", default_crate_name.as_str(), candidate_paths, &mut mine);
        },
    }
    assert(root_triples(mine@) =~= lo.0);
    assert(views(lims@) =~= lo.1);
    let ghost mid_roots = root_triples(mine@);
    if manifest.bins.len() == 0 {
        conventional(package, "bin", "src/main.rs", default_crate_name.as_str(), candidate_paths, &mut mine);
        discovered(package, "src/bin/", "bin", candidate_paths, &mut mine);
    } else {
        let mut b: usize = 0;
        assert(manifest.bins@.take(0) =~= Seq::<CargoTargetModel>::empty());
        assert(root_triples(mine@) =~= lo.0 + bins_outcome(package.manifest_path@, package.package_root@, manifest.bins@.take(0), cands).0);
        assert(views(lims@) =~= lo.1 + bins_outcome(package.manifest_path@, package.package_root@, manifest.bins@.take(0), cands).1);
        while b < manifest.bins.len()
            invariant
                b <= manifest.bins@.len(),
                cands == path_views(candidate_paths@),
                roots_ok(mine@, package.package_name@, path_views(candidate_paths@)),
                limitations_ok(lims@),
                root_triples(mine@) == lo.0 + bins_outcome(package.manifest_path@, package.package_root@, manifest.bins@.take(b as int), cands).0,
                views(lims@) == lo.1 + bins_outcome(package.manifest_path@, package.package_root@, manifest.bins@.take(b as int), cands).1,
            decreases manifest.bins@.len() - b,
        {
            let ghost t0 = root_triples(mine@);
            let ghost l0 = views(lims@);
            let bin = &manifest.bins[b];
            let ghost bo = bin_outcome(package.manifest_path@, package.package_root@, *bin, cands);
            proof {
                assert(manifest.bins@.take(b + 1).drop_last() =~= manifest.bins@.take(b as int));
                assert(manifest.bins@.take(b + 1).last() == *bin);
            }
            let name = field(&bin.name, &package.manifest_path, &mut lims);
            let declared = field(&bin.path, &package.manifest_path, &mut lims);
            let ghost lf = views(lims@);
            assert(lf =~= l0 + (field_limitations(bin.name, package.manifest_path@) + field_limitations(
                bin.path,
                package.manifest_path@,
            )));
            let path: Option<String> = match declared {
                Some(p) => Some(p),
                None => match &name {
                    Some(n) => {
                        let mut p = String::from_str("src/bin/");
                        push_text(&mut p, n.as_str());
                        push_text(&mut p, ".rs");
                        Some(p)
                    },
                    None => None,
                },
            };
            match path {
                None => {
                    let ghost before = lims@;
                    push_path_limitation(&mut lims, "project-model-target-field-unsupported", &package.manifest_path);
                    proof {
                        assert(path_limitation_spec("project-model-target-field-unsupported"@, package.manifest_path@) == lims@.last()@);
                        assert forall|j: int| 0 <= j < lims@.len() implies target_limitation(#[trigger] lims@[j]@) by {
                            if j < before.len() {
                                assert(lims@[j] == lims@.drop_last()[j]);
                            } else {
                                assert(target_limitation(lims@.last()@));
                            }
                        }
                        assert(views(lims@) =~= views(before).push(lims@.last()@));
                        assert(views(lims@) =~= l0 + bo.1);
                        assert(root_triples(mine@) =~= t0 + bo.0);
                    }
                },
                Some(p) => {
                    let crate_name = match &name {
                        Some(n) => crate_name(n.as_str()),
                        None => crate_name_from_path(p.as_str()),
                    };
                    explicit(package, "bin", p.as_str(), crate_name.as_str(), candidate_paths, &mut mine, &mut lims);
                    proof {
                        assert(views(lims@) =~= l0 + bo.1);
                        assert(root_triples(mine@) =~= t0 + bo.0);
                    }
                },
            }
            b = b + 1;
        }
        assert(manifest.bins@.take(b as int) =~= manifest.bins@);
    }
    discovered(package, "tests/", "test", candidate_paths, &mut mine);
    assert(root_triples(mine@) =~= package_roots_outcome(*package, *manifest, cands).0);
    assert(views(lims@) =~= package_roots_outcome(*package, *manifest, cands).1);
    let ghost r0 = roots@;
    let ghost l0 = limitations@;
    let ghost m = mine@;
    let ghost ls = lims@;
    roots.append(&mut mine);
    limitations.append(&mut lims);
    proof {
        assert(roots@.take(r0.len() as int) =~= r0);
        assert(roots@.skip(r0.len() as int) =~= m);
        assert(limitations@.take(l0.len() as int) =~= l0);
        assert(limitations@.skip(l0.len() as int) =~= ls);
        assert(views(limitations@) =~= views(l0) + views(ls));
    }
}

/// The message hashed into a project model's digest: the model's kind,
/// policy and parser, then each input's path and bytes (in path order),
/// then each limitation.
pub open spec fn model_digest_message(inputs: Seq<(Seq<char>, Seq<u8>)>, limitations: Seq<Seq<char>>) -> Seq<u8> {
    component(encode_utf8("rust-project-model/v1"@)) + component(encode_utf8("passive-cargo-project-model/v1"@))
        + component(encode_utf8("toml@1.1.3+spec-1.1.0"@)) + inputs_part(inputs) + texts_message(limitations)
}

/// The hashed components of the inputs, in order.
pub open spec fn inputs_part(inputs: Seq<(Seq<char>, Seq<u8>)>) -> Seq<u8>
    decreases inputs.len(),
{
    if inputs.len() == 0 {
        Seq::empty()
    } else {
        inputs_part(inputs.drop_last()) + component(encode_utf8(inputs.last().0)) + component(inputs.last().1)
    }
}

/// The hashed components of texts, in order.
pub open spec fn texts_message(texts: Seq<Seq<char>>) -> Seq<u8>
    decreases texts.len(),
{
    if texts.len() == 0 {
        Seq::empty()
    } else {
        texts_message(texts.drop_last()) + component(encode_utf8(texts.last()))
    }
}

/// A manifest file the digest covers: its path and the bytes it stands
/// for.
pub struct DigestInput {
    pub path: RepoPath,
    pub bytes: Vec<u8>,
}

impl CanonicalOrder for DigestInput {
    open spec fn order_of(&self, other: &Self) -> int {
        ord_text(self.path@, other.path@)
    }

    proof fn lemma_antisymmetric(a: &Self, b: &Self) {
        lemma_ord_text_antisymmetric(a.path@, b.path@);
    }

    fn order(&self, other: &Self) -> (r: i8) {
        order_text(self.path.as_str(), other.path.as_str())
    }
}

/// The path and bytes of each input.
pub open spec fn input_views(v: Seq<DigestInput>) -> Seq<(Seq<char>, Seq<u8>)> {
    Seq::new(v.len(), |i: int| (v[i].path@, v[i].bytes@))
}

/// The digest of a project model: the inputs sorted by path (stably),
/// then the limitations, hashed component by component.
pub fn project_model_digest(inputs: Vec<DigestInput>, limitations: &Vec<String>) -> (r: String)
    ensures
        exists|sorted: Seq<DigestInput>|
            sorted_by_order(sorted) && sorted.to_multiset() == inputs@.to_multiset() && r@ == hex_seq(
                sha256_of(
                    model_digest_message(
                        input_views(sorted),
                        Seq::new(limitations@.len(), |i: int| limitations@[i]@),
                    ),
                ),
            ),
        r@.len() == 64,
{
    let sorted = stable_sort(inputs);
    let mut message: Vec<u8> = Vec::new();
    push_component(&mut message, "rust-project-model/v1".as_bytes());
    push_component(&mut message, "passive-cargo-project-model/v1".as_bytes());
    push_component(&mut message, "toml@1.1.3+spec-1.1.0".as_bytes());
    let ghost head = message@;
    let ghost views = input_views(sorted@);
    let mut i: usize = 0;
    assert(views.take(0) =~= Seq::<(Seq<char>, Seq<u8>)>::empty());
    while i < sorted.len()
        invariant
            i <= sorted@.len(),
            views == input_views(sorted@),
            message@ == head + inputs_part(views.take(i as int)),
        decreases sorted@.len() - i,
    {
        push_component(&mut message, sorted[i].path.as_str().as_bytes());
        push_component(&mut message, sorted[i].bytes.as_slice());
        assert(views.take(i + 1).drop_last() =~= views.take(i as int));
        assert(views.take(i + 1).last() == views[i as int]);
        i = i + 1;
    }
    assert(views.take(sorted@.len() as int) =~= views);
    let ghost texts = Seq::new(limitations@.len(), |k: int| limitations@[k]@);
    let ghost mid = message@;
    let mut j: usize = 0;
    assert(texts.take(0) =~= Seq::<Seq<char>>::empty());
    while j < limitations.len()
        invariant
            j <= limitations@.len(),
            texts == Seq::new(limitations@.len(), |k: int| limitations@[k]@),
            message@ == mid + texts_message(texts.take(j as int)),
        decreases limitations@.len() - j,
    {
        push_component(&mut message, limitations[j].as_str().as_bytes());
        assert(texts.take(j + 1).drop_last() =~= texts.take(j as int));
        assert(texts.take(j + 1).last() == texts[j as int]);
        j = j + 1;
    }
    assert(texts.take(limitations@.len() as int) =~= texts);
    assert(message@ =~= model_digest_message(views, texts));
    sha256_hex_of_bytes(message.as_slice())
}

/// A workspace member pattern that uses glob syntax.
pub open spec fn has_glob(s: Seq<char>) -> bool {
    s.contains('*') || s.contains('?') || s.contains('[') || s.contains(']')
}

fn glob_char(s: &str) -> (r: bool)
    ensures
        r == has_glob(s@),
{
    let n = s.unicode_len();
    let mut i: usize = 0;
    while i < n
        invariant
            n == s@.len(),
            i <= n,
            forall|k: int| 0 <= k < i ==> s@[k] != '*' && s@[k] != '?' && s@[k] != '[' && s@[k] != ']',
        decreases n - i,
    {
        let c = s.get_char(i);
        if c == '*' || c == '?' || c == '[' || c == ']' {
            proof {
                assert(s@[i as int] == c);
            }
            return true;
        }
        i = i + 1;
    }
    false
}

/// The limitation a workspace member of the manifest at `path` (in
/// directory `root`) gives rise to, if any: an unsupported or glob member,
/// or a member whose `Cargo.toml` the candidate does not have.
pub open spec fn member_limitation(
    member: TomlScalar,
    path: Seq<char>,
    root: Seq<char>,
    manifest_paths: Seq<Seq<char>>,
) -> Option<Seq<char>> {
    match member {
        TomlScalar::Text(m) => if has_glob(m@) {
            Some(path_limitation_spec("project-model-workspace-glob-unsupported"@, path))
        } else if !repo_path_valid(joined_path(root, m@)) {
            Some(path_limitation_spec("project-model-workspace-member-unsupported"@, path))
        } else if !repo_path_valid(joined_path(joined_path(root, m@), "Cargo.toml"@)) {
            None
        } else if !manifest_paths.contains(joined_path(joined_path(root, m@), "Cargo.toml"@)) {
            Some(
                path_limitation_spec(
                    "project-model-workspace-member-missing"@,
                    joined_path(joined_path(root, m@), "Cargo.toml"@),
                ),
            )
        } else {
            None
        },
        _ => Some(path_limitation_spec("project-model-workspace-member-unsupported"@, path)),
    }
}

/// Records what one workspace member of a manifest cannot resolve.
pub fn record_member_limitation(
    member: &TomlScalar,
    path: &RepoPath,
    root: &RepoPath,
    manifest_paths: &Vec<RepoPath>,
    limitations: &mut Vec<String>,
)
    ensures
        match member_limitation(*member, path@, root@, path_views(manifest_paths@)) {
            Some(l) => final(limitations)@.len() == old(limitations)@.len() + 1 && final(limitations)@.drop_last()
                == old(limitations)@ && final(limitations)@.last()@ == l,
            None => final(limitations)@ == old(limitations)@,
        },
{
    let m = match member {
        TomlScalar::Text(m) => m,
        _ => {
            push_path_limitation(limitations, "project-model-workspace-member-unsupported", path);
            return;
        },
    };
    if glob_char(m.as_str()) {
        push_path_limitation(limitations, "project-model-workspace-glob-unsupported", path);
        return;
    }
    let member_root = match join_package_path(root, m.as_str()) {
        Ok(r) => r,
        Err(_) => {
            push_path_limitation(limitations, "project-model-workspace-member-unsupported", path);
            return;
        },
    };
    let member_manifest = match join_package_path(&member_root, "Cargo.toml") {
        Ok(p) => p,
        Err(_) => return,
    };
    if !has_path(manifest_paths, &member_manifest) {
        push_path_limitation(limitations, "project-model-workspace-member-missing", &member_manifest);
    }
}

/// A manifest that was read and parsed: its path, its package directory
/// and what it declares.
pub struct ParsedManifest {
    pub path: RepoPath,
    pub root: RepoPath,
    pub manifest: CargoManifestModel,
}

/// Charges the reading of one manifest entry: the deadline, one manifest
/// file and its declared bytes. Returns the largest read allowed, or
/// `None` when the model must stop (recording why, and for a byte
/// overrun the entry as budget-exhausted).
pub fn admit_manifest(
    entry: &RepositoryManifestEntry,
    tracker: &mut IndexBudgetTracker,
    consumed: &mut Vec<ProjectModelFile>,
    limitations: &mut Vec<String>,
) -> (r: Option<usize>)
    requires
        old(tracker).wf(),
    ensures
        final(tracker).wf(),
        final(tracker).budget_of() == old(tracker).budget_of(),
        r matches Some(m) ==> m == vstd::math::min(
            old(tracker).budget_of().max_file_bytes as int,
            old(tracker).budget_of().max_project_model_bytes as int,
        ) && final(consumed)@ == old(consumed)@ && final(limitations)@ == old(limitations)@
            && final(tracker).consumed_of(IndexResource::ProjectModelFiles) == old(tracker).consumed_of(
            IndexResource::ProjectModelFiles,
        ) + 1 && final(tracker).consumed_of(IndexResource::ProjectModelBytes) == old(tracker).consumed_of(
            IndexResource::ProjectModelBytes,
        ) + match entry.content_bytes {
            Some(b) => b as int,
            None => 0,
        },
        r is None ==> final(limitations)@.len() == old(limitations)@.len() + 1 && final(limitations)@.drop_last()
            == old(limitations)@ && (final(consumed)@ == old(consumed)@ || (final(consumed)@.drop_last()
            == old(consumed)@ && final(consumed)@.last().path@ == entry.path@
            && final(consumed)@.last().status == UnitStatus::BudgetExhausted && final(consumed)@.last().content_sha256 is None
            && final(consumed)@.last().content_bytes is None && final(limitations)@.last()@
            == path_limitation_spec(IndexResource::ProjectModelBytes.exhaustion_code_of(), entry.path@))),
        r is None && final(consumed)@ == old(consumed)@ ==> final(limitations)@.last()@
            == "index-deadline-exhausted"@ || final(limitations)@.last()@
            == IndexResource::ProjectModelFiles.exhaustion_code_of(),
        old(tracker).consumed_of(IndexResource::ProjectModelFiles) + 1 > old(tracker).budget_of().limit_of(
            IndexResource::ProjectModelFiles,
        ) ==> r is None,
{
    if let Err(e) = tracker.check_deadline() {
        limitations.push(String::from_str(e.code()));
        assert(limitations@.drop_last() =~= old(limitations)@);
        return None;
    }
    if let Err(e) = tracker.consume(IndexResource::ProjectModelFiles, 1) {
        limitations.push(String::from_str(e.code()));
        assert(limitations@.drop_last() =~= old(limitations)@);
        return None;
    }
    let declared = match entry.content_bytes {
        Some(b) => b,
        None => 0,
    };
    if let Err(e) = tracker.consume(IndexResource::ProjectModelBytes, declared) {
        consumed.push(
            ProjectModelFile {
                path: entry.path.duplicate(),
                content_sha256: None,
                content_bytes: None,
                status: UnitStatus::BudgetExhausted,
            },
        );
        push_path_limitation(limitations, e.code(), &entry.path);
        assert(consumed@.drop_last() =~= old(consumed)@);
        return None;
    }
    let budget = tracker.budget();
    if budget.max_file_bytes < budget.max_project_model_bytes {
        Some(budget.max_file_bytes)
    } else {
        Some(budget.max_project_model_bytes)
    }
}

/// Whether what was read is the entry the manifest recorded: the same
/// digest and the same length.
pub open spec fn identity_matches(entry: RepositoryManifestEntry, content: CandidateBytes) -> bool {
    opt_view(entry.content_sha256) == Some(content.sha256@) && entry.content_bytes == Some(content.bytes@.len() as usize)
}

/// Takes in what reading a manifest gave: a read failure, or bytes other
/// than the recorded ones, leave it unavailable; otherwise it is consumed
/// and covered by the digest, and its text is returned when it is UTF-8.
pub fn accept_manifest_read(
    entry: &RepositoryManifestEntry,
    read: Result<CandidateBytes, String>,
    consumed: &mut Vec<ProjectModelFile>,
    limitations: &mut Vec<String>,
    digest_inputs: &mut Vec<DigestInput>,
) -> (r: Option<String>)
    ensures
        final(consumed)@.len() == old(consumed)@.len() + 1,
        final(consumed)@.drop_last() == old(consumed)@,
        final(consumed)@.last().path@ == entry.path@,
        match read {
            Err(message) => final(consumed)@.last().status == UnitStatus::Unavailable && r is None
                && final(limitations)@ == old(limitations)@.push(final(limitations)@.last())
                && final(limitations)@.last()@ == path_limitation_spec(
                "project-model-manifest-unavailable"@,
                entry.path@,
            ) && final(digest_inputs)@.len() == old(digest_inputs)@.len() + 1
                && final(digest_inputs)@.drop_last() == old(digest_inputs)@
                && final(digest_inputs)@.last().path@ == entry.path@
                && final(digest_inputs)@.last().bytes@ == encode_utf8(message@),
            Ok(content) => if !identity_matches(*entry, content) {
                final(consumed)@.last().status == UnitStatus::Unavailable && r is None
                    && final(limitations)@ == old(limitations)@.push(final(limitations)@.last())
                    && final(limitations)@.last()@ == path_limitation_spec(
                    "project-model-manifest-identity-mismatch"@,
                    entry.path@,
                ) && final(digest_inputs)@ == old(digest_inputs)@
            } else {
                &&& final(consumed)@.last().status == UnitStatus::Completed
                &&& opt_view(final(consumed)@.last().content_sha256) == Some(content.sha256@)
                &&& final(consumed)@.last().content_bytes == Some(content.bytes@.len() as usize)
                &&& final(digest_inputs)@.len() == old(digest_inputs)@.len() + 1
                &&& final(digest_inputs)@.drop_last() == old(digest_inputs)@
                &&& final(digest_inputs)@.last().path@ == entry.path@
                &&& final(digest_inputs)@.last().bytes@ == content.bytes@
                &&& (r is Some <==> valid_utf8(content.bytes@))
                &&& r matches Some(t) ==> t@ == decode_utf8(content.bytes@) && final(limitations)@
                    == old(limitations)@
                &&& r is None ==> final(limitations)@ == old(limitations)@.push(final(limitations)@.last())
                    && final(limitations)@.last()@ == path_limitation_spec(
                    "project-model-manifest-invalid-utf8"@,
                    entry.path@,
                )
            },
        },
{
    match read {
        Err(message) => {
            consumed.push(
                ProjectModelFile {
                    path: entry.path.duplicate(),
                    content_sha256: None,
                    content_bytes: None,
                    status: UnitStatus::Unavailable,
                },
            );
            push_path_limitation(limitations, "project-model-manifest-unavailable", &entry.path);
            let mut bytes: Vec<u8> = Vec::new();
            let raw = message.as_str().as_bytes();
            let mut i: usize = 0;
            while i < raw.len()
                invariant
                    i <= raw@.len(),
                    bytes@ == raw@.take(i as int),
                decreases raw@.len() - i,
            {
                bytes.push(raw[i]);
                assert(raw@.take(i + 1) =~= raw@.take(i as int).push(raw@[i as int]));
                i = i + 1;
            }
            assert(raw@.take(raw@.len() as int) =~= raw@);
            digest_inputs.push(DigestInput { path: entry.path.duplicate(), bytes });
            proof {
                assert(consumed@.drop_last() =~= old(consumed)@);
                assert(limitations@ =~= old(limitations)@.push(limitations@.last()));
                assert(digest_inputs@.drop_last() =~= old(digest_inputs)@);
            }
            None
        },
        Ok(content) => {
            let same_digest = match &entry.content_sha256 {
                Some(d) => str_equal(d.as_str(), content.sha256.as_str()),
                None => false,
            };
            let same_length = match entry.content_bytes {
                Some(b) => b == content.bytes.len(),
                None => false,
            };
            if !(same_digest && same_length) {
                consumed.push(
                    ProjectModelFile {
                        path: entry.path.duplicate(),
                        content_sha256: None,
                        content_bytes: None,
                        status: UnitStatus::Unavailable,
                    },
                );
                push_path_limitation(limitations, "project-model-manifest-identity-mismatch", &entry.path);
                proof {
                    assert(consumed@.drop_last() =~= old(consumed)@);
                    assert(limitations@ =~= old(limitations)@.push(limitations@.last()));
                }
                return None;
            }
            let length = content.bytes.len();
            consumed.push(
                ProjectModelFile {
                    path: entry.path.duplicate(),
                    content_sha256: Some(content.sha256.clone()),
                    content_bytes: Some(length),
                    status: UnitStatus::Completed,
                },
            );
            let text = decode_utf8_strict(content.bytes.as_slice());
            digest_inputs.push(DigestInput { path: entry.path.duplicate(), bytes: content.bytes });
            proof {
                assert(consumed@.drop_last() =~= old(consumed)@);
                assert(digest_inputs@.drop_last() =~= old(digest_inputs)@);
            }
            if text.is_none() {
                push_path_limitation(limitations, "project-model-manifest-invalid-utf8", &entry.path);
                assert(limitations@ =~= old(limitations)@.push(limitations@.last()));
            }
            text
        },
    }
}

impl CanonicalOrder for RustPackageModel {
    open spec fn order_of(&self, other: &Self) -> int {
        ord_text(self.manifest_path@, other.manifest_path@)
    }

    proof fn lemma_antisymmetric(a: &Self, b: &Self) {
        lemma_ord_text_antisymmetric(a.manifest_path@, b.manifest_path@);
    }

    fn order(&self, other: &Self) -> (r: i8) {
        order_text(self.manifest_path.as_str(), other.manifest_path.as_str())
    }
}

impl CanonicalOrder for ProjectModelFile {
    open spec fn order_of(&self, other: &Self) -> int {
        ord_text(self.path@, other.path@)
    }

    proof fn lemma_antisymmetric(a: &Self, b: &Self) {
        lemma_ord_text_antisymmetric(a.path@, b.path@);
    }

    fn order(&self, other: &Self) -> (r: i8) {
        order_text(self.path.as_str(), other.path.as_str())
    }
}

impl CanonicalOrder for RustTargetRoot {
    /// Roots by source path, kind, package and crate name.
    open spec fn order_of(&self, other: &Self) -> int {
        then(
            ord_text(self.source_path@, other.source_path@),
            then(
                ord_text(self.kind@, other.kind@),
                then(ord_text(self.package_name@, other.package_name@), ord_text(self.crate_name@, other.crate_name@)),
            ),
        )
    }

    proof fn lemma_antisymmetric(a: &Self, b: &Self) {
        lemma_ord_text_antisymmetric(a.source_path@, b.source_path@);
        lemma_ord_text_antisymmetric(a.kind@, b.kind@);
        lemma_ord_text_antisymmetric(a.package_name@, b.package_name@);
        lemma_ord_text_antisymmetric(a.crate_name@, b.crate_name@);
    }

    fn order(&self, other: &Self) -> (r: i8) {
        let a = order_text(self.source_path.as_str(), other.source_path.as_str());
        if a != 0 {
            return a;
        }
        let b = order_text(self.kind.as_str(), other.kind.as_str());
        if b != 0 {
            return b;
        }
        let c = order_text(self.package_name.as_str(), other.package_name.as_str());
        if c != 0 {
            return c;
        }
        order_text(self.crate_name.as_str(), other.crate_name.as_str())
    }
}

proof fn lemma_root_order_zero(a: RustTargetRoot, b: RustTargetRoot, c: RustTargetRoot)
    requires
        a.order_of(&b) == 0,
    ensures
        a.order_of(&c) == b.order_of(&c),
{
    lemma_ord_text_antisymmetric(a.source_path@, b.source_path@);
    lemma_ord_text_antisymmetric(a.kind@, b.kind@);
    lemma_ord_text_antisymmetric(a.package_name@, b.package_name@);
    lemma_ord_text_antisymmetric(a.crate_name@, b.crate_name@);
}

/// What the root dedup loop keeps after `i` roots of `all`.
spec fn root_dedup_state(all: Seq<RustTargetRoot>, out: Seq<RustTargetRoot>, i: int) -> bool {
    &&& 0 <= i <= all.len()
    &&& sorted_by_order(all)
    &&& strictly_sorted_by_order(out)
    &&& forall|j: int| 0 <= j < out.len() ==> all.contains(#[trigger] out[j])
    &&& forall|k: int| 0 <= k < i ==> exists|j: int| 0 <= j < out.len() && (#[trigger] all[k]).order_of(&out[j]) == 0
    &&& i > 0 ==> out.len() > 0 && out.last().order_of(&all[i - 1]) == 0
    &&& i == 0 ==> out.len() == 0
}

proof fn lemma_root_drop(all: Seq<RustTargetRoot>, out: Seq<RustTargetRoot>, i: int)
    requires
        root_dedup_state(all, out, i),
        i < all.len(),
        out.len() > 0,
        out.last().order_of(&all[i]) == 0,
    ensures
        root_dedup_state(all, out, i + 1),
{
    RustTargetRoot::lemma_antisymmetric(&out.last(), &all[i]);
    assert forall|k: int| 0 <= k < i + 1 implies exists|j: int|
        0 <= j < out.len() && (#[trigger] all[k]).order_of(&out[j]) == 0 by {
        if k == i {
            assert(all[k].order_of(&out[out.len() - 1]) == 0);
        }
    }
    lemma_root_order_zero(out.last(), all[i], all[i]);
    RustTargetRoot::lemma_antisymmetric(&all[i], &all[i]);
}

#[verifier::spinoff_prover]
#[verifier::rlimit(80)]
proof fn lemma_root_keep(all: Seq<RustTargetRoot>, out: Seq<RustTargetRoot>, i: int)
    requires
        root_dedup_state(all, out, i),
        i < all.len(),
        out.len() > 0 ==> out.last().order_of(&all[i]) != 0,
    ensures
        root_dedup_state(all, out.push(all[i]), i + 1),
{
    let x = all[i];
    let n = out.len();
    let next = out.push(x);
    if n > 0 {
        assert(all[i - 1].order_of(&all[(i - 1) + 1]) <= 0);
        lemma_root_order_zero(out[n - 1], all[i - 1], x);
    }
    assert forall|j: int| 0 <= j < next.len() implies all.contains(#[trigger] next[j]) by {
        if j < n {
            assert(next[j] == out[j]);
        }
    }
    RustTargetRoot::lemma_antisymmetric(&x, &x);
    assert forall|k: int| 0 <= k < i + 1 implies exists|j: int|
        0 <= j < next.len() && (#[trigger] all[k]).order_of(&next[j]) == 0 by {
        if k == i {
            assert(all[k].order_of(&next[n as int]) == 0);
        } else {
            let j = choose|j: int| 0 <= j < out.len() && all[k].order_of(&out[j]) == 0;
            assert(next[j] == out[j]);
        }
    }
    assert forall|j: int| 0 <= j < next.len() - 1 implies (#[trigger] next[j]).order_of(&next[j + 1]) < 0 by {
        if j < n - 1 {
            assert(next[j] == out[j] && next[j + 1] == out[j + 1]);
        }
    }
}

/// Sorted roots with each root once: every root kept was given, and every
/// root given is kept or has an equal one kept.
pub fn dedup_roots(v: Vec<RustTargetRoot>) -> (r: Vec<RustTargetRoot>)
    requires
        sorted_by_order(v@),
    ensures
        strictly_sorted_by_order(r@),
        forall|j: int| 0 <= j < r@.len() ==> v@.contains(#[trigger] r@[j]),
        forall|i: int| 0 <= i < v@.len() ==> exists|j: int| 0 <= j < r@.len() && (#[trigger] v@[i]).order_of(&r@[j]) == 0,
{
    let ghost all = v@;
    let total = v.len();
    let mut rest = v;
    let mut out: Vec<RustTargetRoot> = Vec::new();
    let mut i: usize = 0;
    while rest.len() > 0
        invariant
            all.len() == total,
            i <= total,
            rest@ == all.subrange(i as int, total as int),
            root_dedup_state(all, out@, i as int),
        decreases rest@.len(),
    {
        let x = rest.remove(0);
        proof {
            assert(x == all[i as int]);
            assert(rest@ =~= all.subrange(i + 1, total as int));
        }
        let n = out.len();
        if n > 0 && out[n - 1].order(&x) == 0 {
            proof {
                lemma_root_drop(all, out@, i as int);
            }
        } else {
            proof {
                lemma_root_keep(all, out@, i as int);
            }
            out.push(x);
        }
        i = i + 1;
    }
    out
}

/// An optional limitation as a list of none or one.
pub open spec fn opt_list(o: Option<Seq<char>>) -> Seq<Seq<char>> {
    match o {
        Some(l) => seq![l],
        None => Seq::empty(),
    }
}

/// The limitations the workspace members of a manifest give rise to, in
/// order.
pub open spec fn members_limitations(
    members: Seq<TomlScalar>,
    path: Seq<char>,
    root: Seq<char>,
    manifest_paths: Seq<Seq<char>>,
) -> Seq<Seq<char>>
    decreases members.len(),
{
    if members.len() == 0 {
        Seq::empty()
    } else {
        members_limitations(members.drop_last(), path, root, manifest_paths) + opt_list(
            member_limitation(members.last(), path, root, manifest_paths),
        )
    }
}

/// The workspace limitations of the parsed manifests, in order.
pub open spec fn workspace_limitations(parsed: Seq<ParsedManifest>, manifest_paths: Seq<Seq<char>>) -> Seq<Seq<char>>
    decreases parsed.len(),
{
    if parsed.len() == 0 {
        Seq::empty()
    } else {
        workspace_limitations(parsed.drop_last(), manifest_paths) + match parsed.last().manifest.workspace_members {
            Some(ms) => members_limitations(ms@, parsed.last().path@, parsed.last().root@, manifest_paths),
            None => Seq::empty(),
        }
    }
}

/// Records, for each parsed manifest's workspace members, what cannot be
/// resolved; earlier limitations stay as they were.
pub fn record_workspace_limitations(
    parsed: &Vec<ParsedManifest>,
    manifest_paths: &Vec<RepoPath>,
    limitations: &mut Vec<String>,
)
    ensures
        final(limitations)@.len() >= old(limitations)@.len(),
        final(limitations)@.take(old(limitations)@.len() as int) == old(limitations)@,
        views(final(limitations)@) == views(old(limitations)@) + workspace_limitations(parsed@, path_views(manifest_paths@)),
{
    let ghost given = limitations@;
    let ghost mps = path_views(manifest_paths@);
    let mut p: usize = 0;
    assert(parsed@.take(0) =~= Seq::<ParsedManifest>::empty());
    assert(views(limitations@) =~= views(given) + workspace_limitations(parsed@.take(0), mps));
    while p < parsed.len()
        invariant
            p <= parsed@.len(),
            given == old(limitations)@,
            mps == path_views(manifest_paths@),
            limitations@.len() >= given.len(),
            limitations@.take(given.len() as int) == given,
            views(limitations@) == views(given) + workspace_limitations(parsed@.take(p as int), mps),
        decreases parsed@.len() - p,
    {
        let ghost at_start = views(limitations@);
        proof {
            assert(parsed@.take(p + 1).drop_last() =~= parsed@.take(p as int));
            assert(parsed@.take(p + 1).last() == parsed@[p as int]);
        }
        match &parsed[p].manifest.workspace_members {
            Some(members) => {
                let mut k: usize = 0;
                assert(members@.take(0) =~= Seq::<TomlScalar>::empty());
                assert(at_start + members_limitations(members@.take(0), parsed@[p as int].path@, parsed@[p as int].root@, mps) =~= at_start);
                while k < members.len()
                    invariant
                        p < parsed@.len(),
                        k <= members@.len(),
                        members@ == parsed@[p as int].manifest.workspace_members->0@,
                        mps == path_views(manifest_paths@),
                        limitations@.len() >= given.len(),
                        limitations@.take(given.len() as int) == given,
                        views(limitations@) == at_start + members_limitations(
                            members@.take(k as int),
                            parsed@[p as int].path@,
                            parsed@[p as int].root@,
                            mps,
                        ),
                    decreases members@.len() - k,
                {
                    let ghost before = limitations@;
                    record_member_limitation(&members[k], &parsed[p].path, &parsed[p].root, manifest_paths, limitations);
                    proof {
                        assert(members@.take(k + 1).drop_last() =~= members@.take(k as int));
                        assert(members@.take(k + 1).last() == members@[k as int]);
                        if limitations@ != before {
                            assert(limitations@.take(given.len() as int) =~= before.take(given.len() as int));
                            assert(views(limitations@) =~= views(before).push(limitations@.last()@));
                        }
                        let ml = members_limitations(members@.take(k + 1), parsed@[p as int].path@, parsed@[p as int].root@, mps);
                        assert(views(limitations@) =~= at_start + ml);
                    }
                    k = k + 1;
                }
                assert(members@.take(k as int) =~= members@);
            },
            None => {},
        }
        p = p + 1;
    }
    assert(parsed@.take(p as int) =~= parsed@);
}

/// The package, kind, path and crate name of each root.
pub open spec fn root_quads(v: Seq<RustTargetRoot>) -> Seq<(Seq<char>, Seq<char>, Seq<char>, Seq<char>)> {
    Seq::new(v.len(), |i: int| (v[i].package_name@, v[i].kind@, v[i].source_path@, v[i].crate_name@))
}

/// Roots given by kind, path and crate name, as roots of package `name`.
pub open spec fn named_roots(name: Seq<char>, t: Seq<(Seq<char>, Seq<char>, Seq<char>)>) -> Seq<
    (Seq<char>, Seq<char>, Seq<char>, Seq<char>),
> {
    Seq::new(t.len(), |i: int| (name, t[i].0, t[i].1, t[i].2))
}

/// The name, manifest path and root directory of each package.
pub open spec fn package_views(v: Seq<RustPackageModel>) -> Seq<(Seq<char>, Seq<char>, Seq<char>)> {
    Seq::new(v.len(), |i: int| (v[i].package_name@, v[i].manifest_path@, v[i].package_root@))
}

/// What a package's `build` field records: an enabled build script.
pub open spec fn build_limitations(build: Option<TomlScalar>, path: Seq<char>) -> Seq<Seq<char>> {
    match build {
        Some(b) => if b != TomlScalar::Boolean(false) {
            seq![path_limitation_spec("project-model-build-script-ignored"@, path)]
        } else {
            Seq::empty()
        },
        None => Seq::empty(),
    }
}

/// What a package's `name` field records: a name not given as text.
pub open spec fn name_limitations(name: Option<TomlScalar>, path: Seq<char>) -> Seq<Seq<char>> {
    match name {
        Some(TomlScalar::Text(_)) => Seq::empty(),
        Some(_) => seq![path_limitation_spec("project-model-workspace-inheritance-unsupported"@, path)],
        None => Seq::empty(),
    }
}

/// The package of one parsed manifest (none, or one), its roots and what
/// reading it records.
pub open spec fn manifest_packages(m: ParsedManifest, candidates: Seq<Seq<char>>) -> (
    Seq<(Seq<char>, Seq<char>, Seq<char>)>,
    Seq<(Seq<char>, Seq<char>, Seq<char>, Seq<char>)>,
    Seq<Seq<char>>,
) {
    match m.manifest.package {
        None => (Seq::empty(), Seq::empty(), Seq::empty()),
        Some(pk) => {
            let pre = build_limitations(pk.build, m.path@) + name_limitations(pk.name, m.path@);
            match field_text(pk.name) {
                None => (Seq::empty(), Seq::empty(), pre),
                Some(n) => {
                    let o = roots_outcome_of(n, m.path@, m.root@, m.manifest, candidates);
                    (seq![(n, m.path@, m.root@)], named_roots(n, o.0), pre + o.1)
                },
            }
        },
    }
}

/// The packages, roots and records of the parsed manifests, in order.
pub open spec fn packages_outcome(parsed: Seq<ParsedManifest>, candidates: Seq<Seq<char>>) -> (
    Seq<(Seq<char>, Seq<char>, Seq<char>)>,
    Seq<(Seq<char>, Seq<char>, Seq<char>, Seq<char>)>,
    Seq<Seq<char>>,
)
    decreases parsed.len(),
{
    if parsed.len() == 0 {
        (Seq::empty(), Seq::empty(), Seq::empty())
    } else {
        let a = packages_outcome(parsed.drop_last(), candidates);
        let b = manifest_packages(parsed.last(), candidates);
        (a.0 + b.0, a.1 + b.1, a.2 + b.2)
    }
}

#[verifier::spinoff_prover]
#[verifier::rlimit(40)]
fn collect_manifest(
    entry: &ParsedManifest,
    candidate_paths: &Vec<RepoPath>,
    packages: &mut Vec<RustPackageModel>,
    roots: &mut Vec<RustTargetRoot>,
    limitations: &mut Vec<String>,
)
    requires
        forall|j: int| 0 <= j < old(roots)@.len() ==> path_views(candidate_paths@).contains(#[trigger] old(roots)@[j].source_path@),
    ensures
        final(packages)@.len() <= old(packages)@.len() + 1,
        forall|j: int| 0 <= j < final(roots)@.len() ==> path_views(candidate_paths@).contains(#[trigger] final(roots)@[j].source_path@),
        final(limitations)@.len() >= old(limitations)@.len(),
        final(limitations)@.take(old(limitations)@.len() as int) == old(limitations)@,
        package_views(final(packages)@) == package_views(old(packages)@) + manifest_packages(*entry, path_views(candidate_paths@)).0,
        root_quads(final(roots)@) == root_quads(old(roots)@) + manifest_packages(*entry, path_views(candidate_paths@)).1,
        views(final(limitations)@) == views(old(limitations)@) + manifest_packages(*entry, path_views(candidate_paths@)).2,
{
    let ghost cands = path_views(candidate_paths@);
    let ghost given = limitations@;
    let ghost p0 = package_views(packages@);
    let ghost q0 = root_quads(roots@);
    let ghost v0 = views(limitations@);
    let ghost mo = manifest_packages(*entry, cands);
    match &entry.manifest.package {
        None => {
            proof {
                assert(package_views(packages@) =~= p0 + mo.0);
                assert(root_quads(roots@) =~= q0 + mo.1);
                assert(views(limitations@) =~= v0 + mo.2);
            }
        },
        Some(package) => {
            let ghost l0 = limitations@;
            let enabled = match &package.build {
                Some(b) => build_script_enabled(b),
                None => false,
            };
            if enabled {
                push_path_limitation(limitations, "project-model-build-script-ignored", &entry.path);
                assert(limitations@.take(given.len() as int) =~= l0.take(given.len() as int));
            }
            let ghost l1 = limitations@;
            assert(views(l1) =~= v0 + build_limitations(package.build, entry.path@)) by {
                if enabled {
                    assert(views(l1) =~= views(l0).push(l1.last()@));
                }
            }
            let name = string_field(
                &package.name,
                "project-model-workspace-inheritance-unsupported",
                &entry.path,
                limitations,
            );
            proof {
                if limitations@ != l1 {
                    assert(limitations@.take(given.len() as int) =~= l1.take(given.len() as int));
                    assert(views(limitations@) =~= views(l1).push(limitations@.last()@));
                }
                assert(views(limitations@) =~= v0 + (build_limitations(package.build, entry.path@) + name_limitations(
                    package.name,
                    entry.path@,
                )));
            }
            match name {
                None => {
                    proof {
                        assert(package_views(packages@) =~= p0 + mo.0);
                        assert(root_quads(roots@) =~= q0 + mo.1);
                        assert(views(limitations@) =~= v0 + mo.2);
                    }
                },
                Some(package_name) => {
                    let model = RustPackageModel {
                        package_name,
                        manifest_path: entry.path.duplicate(),
                        package_root: entry.root.duplicate(),
                    };
                    let ghost r0 = roots@;
                    let ghost l2 = limitations@;
                    add_package_roots(&model, &entry.manifest, candidate_paths, roots, limitations);
                    proof {
                        let n = model.package_name@;
                        let o = roots_outcome_of(n, entry.path@, entry.root@, entry.manifest, cands);
                        assert(package_roots_outcome(model, entry.manifest, cands) == o);
                        assert(limitations@.take(given.len() as int) =~= l2.take(given.len() as int));
                        assert forall|j: int| 0 <= j < roots@.len() implies path_views(candidate_paths@).contains(#[trigger] roots@[j].source_path@) by {
                            if j < r0.len() {
                                assert(roots@.take(r0.len() as int)[j] == roots@[j]);
                            } else {
                                assert(roots@.skip(r0.len() as int)[j - r0.len()] == roots@[j]);
                                assert(package_root_ok(roots@.skip(r0.len() as int)[j - r0.len()], model.package_name@, path_views(candidate_paths@)));
                            }
                        }
                        assert forall|j: int| 0 <= j < roots@.len() implies #[trigger] root_quads(roots@)[j] == (q0 + named_roots(n, o.0))[j] by {
                            if j < r0.len() {
                                assert(roots@.take(r0.len() as int)[j] == roots@[j]);
                            } else {
                                let k = j - r0.len();
                                assert(roots@.skip(r0.len() as int)[k] == roots@[j]);
                                assert(package_root_ok(roots@.skip(r0.len() as int)[k], model.package_name@, path_views(candidate_paths@)));
                                assert(root_triples(roots@.skip(r0.len() as int))[k] == o.0[k]);
                            }
                        }
                        assert(root_quads(roots@) =~= q0 + mo.1);
                        assert(views(limitations@) =~= v0 + mo.2);
                    }
                    packages.push(model);
                    proof {
                        assert(package_views(packages@) =~= p0 + mo.0);
                    }
                },
            }
        },
    }
}

/// The packages of the parsed manifests and their roots: a manifest with
/// a `[package]` whose name is text; its build script, if enabled, and a
/// name it does not give as text are recorded. Every root lies at a
/// candidate path; earlier limitations stay as they were.
pub fn collect_packages(
    parsed: &Vec<ParsedManifest>,
    candidate_paths: &Vec<RepoPath>,
    limitations: &mut Vec<String>,
) -> (r: (Vec<RustPackageModel>, Vec<RustTargetRoot>))
    ensures
        r.0@.len() <= parsed@.len(),
        forall|j: int| 0 <= j < r.1@.len() ==> path_views(candidate_paths@).contains(#[trigger] r.1@[j].source_path@),
        final(limitations)@.len() >= old(limitations)@.len(),
        final(limitations)@.take(old(limitations)@.len() as int) == old(limitations)@,
        package_views(r.0@) == packages_outcome(parsed@, path_views(candidate_paths@)).0,
        root_quads(r.1@) == packages_outcome(parsed@, path_views(candidate_paths@)).1,
        views(final(limitations)@) == views(old(limitations)@) + packages_outcome(parsed@, path_views(candidate_paths@)).2,
{
    let ghost given = limitations@;
    let ghost cands = path_views(candidate_paths@);
    let mut packages: Vec<RustPackageModel> = Vec::new();
    let mut roots: Vec<RustTargetRoot> = Vec::new();
    let mut q: usize = 0;
    assert(parsed@.take(0) =~= Seq::<ParsedManifest>::empty());
    assert(package_views(packages@) =~= packages_outcome(parsed@.take(0), cands).0);
    assert(root_quads(roots@) =~= packages_outcome(parsed@.take(0), cands).1);
    assert(views(limitations@) =~= views(given) + packages_outcome(parsed@.take(0), cands).2);
    while q < parsed.len()
        invariant
            q <= parsed@.len(),
            packages@.len() <= q,
            given == old(limitations)@,
            cands == path_views(candidate_paths@),
            limitations@.len() >= given.len(),
            limitations@.take(given.len() as int) == given,
            forall|j: int| 0 <= j < roots@.len() ==> path_views(candidate_paths@).contains(#[trigger] roots@[j].source_path@),
            package_views(packages@) == packages_outcome(parsed@.take(q as int), cands).0,
            root_quads(roots@) == packages_outcome(parsed@.take(q as int), cands).1,
            views(limitations@) == views(given) + packages_outcome(parsed@.take(q as int), cands).2,
        decreases parsed@.len() - q,
    {
        let ghost p0 = package_views(packages@);
        let ghost q0 = root_quads(roots@);
        let ghost v0 = views(limitations@);
        let ghost l0 = limitations@;
        proof {
            assert(parsed@.take(q + 1).drop_last() =~= parsed@.take(q as int));
            assert(parsed@.take(q + 1).last() == parsed@[q as int]);
        }
        collect_manifest(&parsed[q], candidate_paths, &mut packages, &mut roots, limitations);
        proof {
            assert(limitations@.take(given.len() as int) =~= l0.take(given.len() as int));
        }
        q = q + 1;
    }
    assert(parsed@.take(q as int) =~= parsed@);
    (packages, roots)
}

/// The project model built from the manifests read: the workspace
/// limitations, the packages and their roots, sorted (packages by
/// manifest, roots by path, kind, package and crate, each root once), the
/// consumed files sorted by path, the limitations sorted with each once,
/// the digest of the inputs and limitations, and completeness.
#[verifier::spinoff_prover]
#[verifier::rlimit(60)]
pub fn finish_project_model(
    parsed: &Vec<ParsedManifest>,
    manifest_paths: &Vec<RepoPath>,
    candidate_paths: &Vec<RepoPath>,
    consumed: Vec<ProjectModelFile>,
    limitations: Vec<String>,
    digest_inputs: Vec<DigestInput>,
) -> (m: RustProjectModel)
    ensures
        sorted_by_order(m.packages@),
        m.packages@.len() <= parsed@.len(),
        strictly_sorted_by_order(m.roots@),
        forall|j: int| 0 <= j < m.roots@.len() ==> path_views(candidate_paths@).contains(#[trigger] m.roots@[j].source_path@),
        sorted_by_order(m.consumed_files@),
        m.consumed_files@.to_multiset() == consumed@.to_multiset(),
        strictly_sorted_by_order(m.limitations@),
        views(limitations@).to_set().subset_of(views(m.limitations@).to_set()),
        parsed@.len() == 0 && limitations@.len() == 0 ==> views(m.limitations@).to_set().contains(
            "project-model-manifest-unavailable"@,
        ),
        m.completeness == if m.limitations@.len() == 0 {
            Completeness::Complete
        } else {
            Completeness::Partial
        },
        exists|sorted: Seq<DigestInput>|
            sorted_by_order(sorted) && sorted.to_multiset() == digest_inputs@.to_multiset() && m.digest@
                == hex_seq(sha256_of(model_digest_message(input_views(sorted), views(m.limitations@)))),
{
    let mut limitations = limitations;
    let ghost given = limitations@;
    let empty_start = parsed.len() == 0 && limitations.len() == 0;
    if empty_start {
        limitations.push(String::from_str("project-model-manifest-unavailable"));
    }
    let ghost with_default = limitations@;
    proof {
        assert(with_default.take(given.len() as int) =~= given);
    }
    record_workspace_limitations(parsed, manifest_paths, &mut limitations);
    let (packages, roots) = collect_packages(parsed, candidate_paths, &mut limitations);
    let ghost unsorted_packages = packages@;
    let packages = stable_sort(packages);
    proof {
        vstd::seq_lib::to_multiset_len(unsorted_packages);
        vstd::seq_lib::to_multiset_len(packages@);
    }
    let sorted_roots = stable_sort(roots);
    let ghost sr = sorted_roots@;
    let ghost ur = roots@;
    let roots = dedup_roots(sorted_roots);
    proof {
        assert forall|j: int| 0 <= j < roots@.len() implies path_views(candidate_paths@).contains(#[trigger] roots@[j].source_path@) by {
            assert(sr.contains(roots@[j]));
            let a = choose|a: int| 0 <= a < sr.len() && sr[a] == roots@[j];
            vstd::seq_lib::to_multiset_contains(sr, sr[a]);
            vstd::seq_lib::to_multiset_contains(ur, sr[a]);
            assert(ur.contains(sr[a]));
            let b = choose|b: int| 0 <= b < ur.len() && ur[b] == sr[a];
            assert(path_views(candidate_paths@).contains(ur[b].source_path@));
        }
    }
    let consumed_files = stable_sort(consumed);
    let ghost before_sort = limitations@;
    proof {
        assert(before_sort.take(with_default.len() as int) == with_default);
    }
    let limitations = sorted_unique_texts(limitations);
    proof {
        assert forall|t: Seq<char>| views(given).to_set().contains(t) implies views(limitations@).to_set().contains(t) by {
            let k = choose|k: int| 0 <= k < views(given).len() && views(given)[k] == t;
            assert(with_default[k] == given[k]);
            assert(before_sort.take(with_default.len() as int)[k] == before_sort[k]);
            assert(views(before_sort)[k] == t);
            assert(views(before_sort).to_set().contains(t));
        }
        if parsed@.len() == 0 && given.len() == 0 {
            assert(with_default[0]@ == "project-model-manifest-unavailable"@);
            assert(before_sort.take(with_default.len() as int)[0] == before_sort[0]);
            assert(views(before_sort)[0] == "project-model-manifest-unavailable"@);
            assert(views(before_sort).to_set().contains("project-model-manifest-unavailable"@));
        }
    }
    let digest = project_model_digest(digest_inputs, &limitations);
    proof {
        assert(Seq::new(limitations@.len(), |i: int| limitations@[i]@) =~= views(limitations@));
    }
    let completeness = if limitations.len() == 0 {
        Completeness::Complete
    } else {
        Completeness::Partial
    };
    RustProjectModel { digest, packages, roots, consumed_files, completeness, limitations }
}

/// An entry the project model may read: present and completed.
pub open spec fn usable_entry(e: RepositoryManifestEntry) -> bool {
    e.presence == CandidatePresence::Present && e.status == UnitStatus::Completed
}

/// The paths of the usable entries, in manifest order.
pub open spec fn usable_paths(es: Seq<RepositoryManifestEntry>) -> Seq<Seq<char>>
    decreases es.len(),
{
    if es.len() == 0 {
        Seq::empty()
    } else if usable_entry(es.last()) {
        usable_paths(es.drop_last()).push(es.last().path@)
    } else {
        usable_paths(es.drop_last())
    }
}

/// The paths of the usable Cargo manifests, in manifest order.
pub open spec fn manifest_entry_paths(es: Seq<RepositoryManifestEntry>) -> Seq<Seq<char>>
    decreases es.len(),
{
    if es.len() == 0 {
        Seq::empty()
    } else if usable_entry(es.last()) && is_cargo_manifest_spec(es.last().path@) {
        manifest_entry_paths(es.drop_last()).push(es.last().path@)
    } else {
        manifest_entry_paths(es.drop_last())
    }
}

/// The manifest entries the project model reads and the paths it knows:
/// the positions of the usable Cargo manifests, the usable paths, and the
/// manifests' paths, each in manifest order.
pub fn model_inputs(manifest: &RepositoryManifest) -> (r: (Vec<usize>, Vec<RepoPath>, Vec<RepoPath>))
    ensures
        forall|k: int| 0 <= k < r.0@.len() ==> (#[trigger] r.0@[k]) < manifest.entries@.len()
            && usable_entry(manifest.entries@[r.0@[k] as int]) && is_cargo_manifest_spec(manifest.entries@[r.0@[k] as int].path@),
        path_views(r.1@) == usable_paths(manifest.entries@),
        path_views(r.2@) == manifest_entry_paths(manifest.entries@),
        r.0@.len() == r.2@.len(),
        forall|k: int| 0 <= k < r.0@.len() ==> manifest.entries@[(#[trigger] r.0@[k]) as int].path@ == r.2@[k]@,
{
    let ghost es = manifest.entries@;
    let mut positions: Vec<usize> = Vec::new();
    let mut candidates: Vec<RepoPath> = Vec::new();
    let mut manifests: Vec<RepoPath> = Vec::new();
    let mut i: usize = 0;
    assert(es.take(0) =~= Seq::<RepositoryManifestEntry>::empty());
    assert(path_views(candidates@) =~= Seq::<Seq<char>>::empty());
    assert(path_views(manifests@) =~= Seq::<Seq<char>>::empty());
    while i < manifest.entries.len()
        invariant
            i <= es.len(),
            es == manifest.entries@,
            path_views(candidates@) == usable_paths(es.take(i as int)),
            path_views(manifests@) == manifest_entry_paths(es.take(i as int)),
            positions@.len() == manifests@.len(),
            forall|k: int| 0 <= k < positions@.len() ==> (#[trigger] positions@[k]) < i
                && usable_entry(es[positions@[k] as int]) && is_cargo_manifest_spec(es[positions@[k] as int].path@)
                && es[positions@[k] as int].path@ == manifests@[k]@,
        decreases es.len() - i,
    {
        proof {
            assert(es.take(i + 1).drop_last() =~= es.take(i as int));
            assert(es.take(i + 1).last() == es[i as int]);
        }
        let e = &manifest.entries[i];
        if e.presence == CandidatePresence::Present && e.status == UnitStatus::Completed {
            let ghost c0 = candidates@;
            candidates.push(e.path.duplicate());
            assert(path_views(candidates@) =~= path_views(c0).push(e.path@));
            if is_cargo_manifest(&e.path) {
                let ghost m0 = manifests@;
                manifests.push(e.path.duplicate());
                positions.push(i);
                assert(path_views(manifests@) =~= path_views(m0).push(e.path@));
            }
        }
        i = i + 1;
    }
    assert(es.take(es.len() as int) =~= es);
    (positions, candidates, manifests)
}

/// The model given when the deadline passed before any manifest was read:
/// every Cargo manifest of the candidate (present or not) is recorded as
/// budget-exhausted, nothing is modelled, and the model is partial.
pub fn empty_model(manifest: &RepositoryManifest, limitations: Vec<String>) -> (m: RustProjectModel)
    ensures
        m.packages@.len() == 0,
        m.roots@.len() == 0,
        m.completeness == Completeness::Partial,
        strictly_sorted_by_order(m.limitations@),
        views(m.limitations@).to_set() == views(limitations@).to_set(),
        forall|k: int| 0 <= k < m.consumed_files@.len() ==> (#[trigger] m.consumed_files@[k]).status
            == UnitStatus::BudgetExhausted && m.consumed_files@[k].content_sha256 is None
            && m.consumed_files@[k].content_bytes is None && is_cargo_manifest_spec(m.consumed_files@[k].path@),
        m.digest@ == hex_seq(sha256_of(model_digest_message(Seq::empty(), views(m.limitations@)))),
{
    let limitations = sorted_unique_texts(limitations);
    let digest = project_model_digest(Vec::new(), &limitations);
    proof {
        assert(Seq::new(limitations@.len(), |i: int| limitations@[i]@) =~= views(limitations@));
        let sorted = choose|sorted: Seq<DigestInput>|
            sorted_by_order(sorted) && sorted.to_multiset() == Seq::<DigestInput>::empty().to_multiset() && digest@
                == hex_seq(sha256_of(model_digest_message(input_views(sorted), views(limitations@))));
        vstd::seq_lib::to_multiset_len(sorted);
        vstd::seq_lib::to_multiset_len(Seq::<DigestInput>::empty());
        assert(input_views(sorted) =~= Seq::<(Seq<char>, Seq<u8>)>::empty());
    }
    let mut consumed: Vec<ProjectModelFile> = Vec::new();
    let mut i: usize = 0;
    while i < manifest.entries.len()
        invariant
            i <= manifest.entries@.len(),
            forall|k: int| 0 <= k < consumed@.len() ==> (#[trigger] consumed@[k]).status
                == UnitStatus::BudgetExhausted && consumed@[k].content_sha256 is None
                && consumed@[k].content_bytes is None && is_cargo_manifest_spec(consumed@[k].path@),
        decreases manifest.entries@.len() - i,
    {
        if is_cargo_manifest(&manifest.entries[i].path) {
            consumed.push(
                ProjectModelFile {
                    path: manifest.entries[i].path.duplicate(),
                    content_sha256: None,
                    content_bytes: None,
                    status: UnitStatus::BudgetExhausted,
                },
            );
        }
        i = i + 1;
    }
    RustProjectModel {
        digest,
        packages: Vec::new(),
        roots: Vec::new(),
        consumed_files: consumed,
        completeness: Completeness::Partial,
        limitations,
    }
}

/// How a project model starts: an invalid repository manifest is refused;
/// a partial one is recorded; when the deadline has already passed the
/// model is the empty one.
pub enum ModelStart {
    Empty(RustProjectModel),
    Proceed(Vec<String>),
}

/// Starts a project model over a repository manifest.
pub fn start_project_model(manifest: &RepositoryManifest, tracker: &mut IndexBudgetTracker) -> (r: Result<ModelStart, ProjectModelError>)
    requires
        old(tracker).wf(),
    ensures
        final(tracker).wf(),
        final(tracker).budget_of() == old(tracker).budget_of(),
        r is Err <==> !manifest_valid(*manifest),
        r matches Err(e) ==> e.code@ == "project-model-manifest-invalid"@,
        r matches Ok(ModelStart::Proceed(ls)) ==> views(ls@) == if manifest.completeness == Completeness::Complete {
            Seq::<Seq<char>>::empty()
        } else {
            seq!["project-model-candidate-manifest-partial"@]
        },
        r matches Ok(ModelStart::Empty(m)) ==> m.completeness == Completeness::Partial && m.packages@.len() == 0,
{
    if let Err(error) = manifest.validate() {
        let mut message = String::from_str("repository manifest is invalid: ");
        push_text(&mut message, error.message().as_str());
        return Err(ProjectModelError::new("project-model-manifest-invalid", message.as_str()));
    }
    let mut limitations: Vec<String> = Vec::new();
    if manifest.completeness != Completeness::Complete {
        limitations.push(String::from_str("project-model-candidate-manifest-partial"));
    }
    proof {
        if manifest.completeness == Completeness::Complete {
            assert(views(limitations@) =~= Seq::<Seq<char>>::empty());
        } else {
            assert(views(limitations@) =~= seq!["project-model-candidate-manifest-partial"@]);
        }
    }
    if let Err(exhaustion) = tracker.check_deadline() {
        limitations.push(String::from_str(exhaustion.code()));
        return Ok(ModelStart::Empty(empty_model(manifest, limitations)));
    }
    Ok(ModelStart::Proceed(limitations))
}

} // verus!
