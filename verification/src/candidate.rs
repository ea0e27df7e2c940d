//! Repository-relative paths and the per-file facts of a review candidate.
use vstd::prelude::*;
use crate::strings::push_char;

verus! {

/// A character that may not appear in a repository path.
pub open spec fn forbidden_path_char(c: char) -> bool {
    c == '\0' || c == '\\'
}

/// The segment that starts at `i` is `.` or `..`.
pub open spec fn dot_segment_at(p: Seq<char>, i: int) -> bool {
    &&& (i == 0 || p[i - 1] == '/')
    &&& p[i] == '.'
    &&& (i + 1 == p.len() || p[i + 1] == '/' || (p[i + 1] == '.' && (i + 2 == p.len() || p[i + 2]
        == '/')))
}

/// A normalised repository-relative path: the repository root `.`, or a
/// non-empty, `/`-separated path with no empty, `.` or `..` segment, no
/// leading or trailing separator, and no NUL or backslash character.
pub open spec fn repo_path_valid(p: Seq<char>) -> bool {
    p == seq!['.'] || relative_path_valid(p)
}

/// A normalised path below the repository root.
pub open spec fn relative_path_valid(p: Seq<char>) -> bool {
    &&& p.len() > 0
    &&& forall|i: int| 0 <= i < p.len() ==> !forbidden_path_char(#[trigger] p[i])
    &&& forall|i: int|
        0 <= i < p.len() && #[trigger] p[i] == '/' ==> 0 < i && i + 1 < p.len() && p[i + 1] != '/'
    &&& forall|i: int| 0 <= i < p.len() ==> !#[trigger] dot_segment_at(p, i)
}

/// Why a string is not a repository path.
#[derive(Debug, Clone, Copy, PartialEq, Eq, Structural)]
pub enum RepoPathError {
    Empty,
    ForbiddenCharacter,
    EmptySegment,
    DotSegment,
}

/// A validated repository-relative path.
#[derive(Debug, Clone, PartialEq, Eq)]
pub struct RepoPath {
    value: String,
}

impl View for RepoPath {
    type V = Seq<char>;

    closed spec fn view(&self) -> Seq<char> {
        self.value@
    }
}

fn check_repo_path(p: &str) -> (r: Result<(), RepoPathError>)
    ensures
        r is Ok <==> repo_path_valid(p@),
{
    let n = p.unicode_len();
    if n == 1 && p.get_char(0) == '.' {
        assert(p@ =~= seq!['.']);
        return Ok(());
    }
    assert(p@ != seq!['.']);
    if n == 0 {
        return Err(RepoPathError::Empty);
    }
    let mut i: usize = 0;
    while i < n
        invariant
            n == p@.len(),
            n > 0,
            p@ != seq!['.'],
            i <= n,
            forall|j: int| 0 <= j < i ==> !forbidden_path_char(#[trigger] p@[j]),
            forall|j: int|
                0 <= j < i && #[trigger] p@[j] == '/' ==> 0 < j && j + 1 < n && p@[j + 1] != '/',
            forall|j: int| 0 <= j < i ==> !#[trigger] dot_segment_at(p@, j),
        decreases n - i,
    {
        let c = p.get_char(i);
        if c == '\0' || c == '\\' {
            assert(forbidden_path_char(p@[i as int]));
            return Err(RepoPathError::ForbiddenCharacter);
        }
        if c == '/' {
            if i == 0 || i + 1 >= n {
                return Err(RepoPathError::EmptySegment);
            }
            if p.get_char(i + 1) == '/' {
                return Err(RepoPathError::EmptySegment);
            }
        }
        let starts_segment = i == 0 || p.get_char(i - 1) == '/';
        if starts_segment && c == '.' {
            if i + 1 == n || p.get_char(i + 1) == '/' {
                assert(dot_segment_at(p@, i as int));
                return Err(RepoPathError::DotSegment);
            }
            if p.get_char(i + 1) == '.' && (i + 2 == n || p.get_char(i + 2) == '/') {
                assert(dot_segment_at(p@, i as int));
                return Err(RepoPathError::DotSegment);
            }
        }
        assert(!dot_segment_at(p@, i as int));
        i = i + 1;
    }
    Ok(())
}

impl RepoPath {
    /// Validates `value` as a repository path.
    pub fn new(value: String) -> (r: Result<RepoPath, RepoPathError>)
        ensures
            r is Ok <==> repo_path_valid(value@),
            r matches Ok(path) ==> path@ == value@,
    {
        match check_repo_path(value.as_str()) {
            Ok(()) => Ok(RepoPath { value }),
            Err(e) => Err(e),
        }
    }

    /// A copy of the path.
    pub fn duplicate(&self) -> (r: RepoPath)
        ensures
            r@ == self@,
    {
        RepoPath { value: self.value.clone() }
    }

    /// The path as text.
    pub fn as_str(&self) -> (r: &str)
        ensures
            r@ == self@,
    {
        self.value.as_str()
    }
}

/// Whether a changed file exists on the candidate side.
#[derive(Debug, Clone, Copy, PartialEq, Eq, Structural)]
pub enum CandidatePresence {
    Present,
    Deleted,
    Gitlink,
}

/// A one-based, inclusive line range that the candidate changed.
#[derive(Debug, Clone, Copy, PartialEq, Eq, Structural)]
pub struct ChangedRange {
    pub start_line: u32,
    pub end_line: u32,
    pub deletion_anchor: bool,
}

/// Copies `s` character by character.
pub fn copy_text(s: &str) -> (r: String)
    ensures
        r@ == s@,
{
    let n = s.unicode_len();
    let mut out = String::new();
    let mut i: usize = 0;
    while i < n
        invariant
            n == s@.len(),
            i <= n,
            out@ == s@.take(i as int),
        decreases n - i,
    {
        push_char(&mut out, s.get_char(i));
        assert(s@.take(i + 1) =~= s@.take(i as int).push(s@[i as int]));
        i = i + 1;
    }
    assert(s@.take(n as int) =~= s@);
    out
}


/// One changed file of the candidate.
#[derive(Debug, Clone, PartialEq, Eq)]
pub struct CandidateFile {
    pub path: RepoPath,
    pub presence: CandidatePresence,
    pub manifest_unit_id: Option<String>,
    pub changed_ranges: Vec<ChangedRange>,
}

/// The candidate-side bytes of a present file.
#[derive(Debug, Clone, PartialEq, Eq)]
pub struct CandidateBytes {
    pub bytes: Vec<u8>,
    pub sha256: String,
    pub binary: bool,
}

} // verus!
