//! The repository manifest: the Git listing it is read from, the language
//! of each path, the budget each record is charged, and the entries and
//! limitations it ends with.
use vstd::prelude::*;
use vstd::utf8::{decode_utf8, valid_utf8};
use vstd::utf8::encode_utf8;
use crate::candidate::{repo_path_valid, CandidateBytes, CandidatePresence, RepoPath};
use crate::contracts::{Completeness, UnitStatus};
use crate::index_budget::{IndexBudgetExhaustion, IndexBudgetTracker, IndexResource};
use crate::integrity::{opt_view, views};
use crate::digest::{hex_seq, sha256_hex_of_bytes, sha256_of};
use crate::model::{
    be_bytes, component, limitation_key, locator_valid, manifest_valid, object_id_length, push_be,
    push_component,
    RepositoryLocator, RepositoryManifest,
};
use crate::review_scope::ReviewSource;
use crate::model::{IndexLimitation, RepositoryManifestEntry};
use crate::ordering::{lemma_ord_text_antisymmetric, ord_text, order_text, sorted_by_order, stable_sort, CanonicalOrder};
use crate::strings::{decode_utf8_strict, has_suffix, is_hex_of_len, str_ends_with, str_equal};

verus! {

/// Why the repository manifest could not be read.
#[derive(Debug, Clone, PartialEq, Eq)]
pub struct RepositoryManifestError {
    pub code: String,
    pub message: String,
}

impl RepositoryManifestError {
    /// An error with a code and a message.
    pub fn new(code: &str, message: &str) -> (r: Self)
        ensures
            r.code@ == code@,
            r.message@ == message@,
    {
        RepositoryManifestError { code: String::from_str(code), message: String::from_str(message) }
    }
}

/// One path of a Git index or tree listing.
#[derive(Debug, Clone, PartialEq, Eq)]
pub struct GitManifestRecord {
    pub path: RepoPath,
    pub mode: String,
    pub object_id: Option<String>,
    pub presence: CandidatePresence,
}

/// The language a path's extension names, if any.
pub open spec fn language_of(p: Seq<char>) -> Option<Seq<char>> {
    if has_suffix(p, ".rs"@) {
        Some("rust"@)
    } else if has_suffix(p, ".toml"@) {
        Some("toml"@)
    } else if has_suffix(p, ".json"@) {
        Some("json"@)
    } else if has_suffix(p, ".yaml"@) || has_suffix(p, ".yml"@) {
        Some("yaml"@)
    } else if has_suffix(p, ".sh"@) {
        Some("shell"@)
    } else {
        None
    }
}

/// The language of a path, by its extension.
pub fn language_for_path(path: &RepoPath) -> (r: Option<String>)
    ensures
        match r {
            Some(l) => language_of(path@) == Some(l@),
            None => language_of(path@) is None,
        },
{
    let value = path.as_str();
    if str_ends_with(value, ".rs") {
        Some(String::from_str("rust"))
    } else if str_ends_with(value, ".toml") {
        Some(String::from_str("toml"))
    } else if str_ends_with(value, ".json") {
        Some(String::from_str("json"))
    } else if str_ends_with(value, ".yaml") || str_ends_with(value, ".yml") {
        Some(String::from_str("yaml"))
    } else if str_ends_with(value, ".sh") {
        Some(String::from_str("shell"))
    } else {
        None
    }
}

/// The pieces of `b` between NUL bytes, empty ones included.
pub open spec fn split_nul(b: Seq<u8>) -> Seq<Seq<u8>>
    decreases b.len(),
{
    if b.len() == 0 {
        seq![Seq::empty()]
    } else if b.last() == 0 {
        split_nul(b.drop_last()).push(Seq::empty())
    } else {
        let s = split_nul(b.drop_last());
        s.update(s.len() - 1, s.last().push(b.last()))
    }
}

/// The non-empty pieces of a sequence of pieces, in order.
pub open spec fn non_empty(s: Seq<Seq<u8>>) -> Seq<Seq<u8>>
    decreases s.len(),
{
    if s.len() == 0 {
        Seq::empty()
    } else if s.last().len() == 0 {
        non_empty(s.drop_last())
    } else {
        non_empty(s.drop_last()).push(s.last())
    }
}

proof fn lemma_split_nul_nonempty(b: Seq<u8>)
    ensures
        split_nul(b).len() >= 1,
    decreases b.len(),
{
    if b.len() > 0 {
        lemma_split_nul_nonempty(b.drop_last());
    }
}

/// The position of the first `x` in `b`, if any.
pub open spec fn first_index(b: Seq<u8>, x: u8) -> Option<int>
    decreases b.len(),
{
    if b.len() == 0 {
        None
    } else if b[0] == x {
        Some(0)
    } else {
        match first_index(b.drop_first(), x) {
            Some(i) => Some(i + 1),
            None => None,
        }
    }
}

/// The Unicode white-space characters.
pub open spec fn is_white(c: char) -> bool {
    ('\u{9}' <= c && c <= '\u{d}') || c == ' ' || c == '\u{85}' || c == '\u{a0}' || c == '\u{1680}'
        || ('\u{2000}' <= c && c <= '\u{200a}') || c == '\u{2028}' || c == '\u{2029}' || c == '\u{202f}'
        || c == '\u{205f}' || c == '\u{3000}'
}

fn char_is_white(c: char) -> (r: bool)
    ensures
        r == is_white(c),
{
    ('\u{9}' <= c && c <= '\u{d}') || c == ' ' || c == '\u{85}' || c == '\u{a0}' || c == '\u{1680}'
        || ('\u{2000}' <= c && c <= '\u{200a}') || c == '\u{2028}' || c == '\u{2029}' || c == '\u{202f}'
        || c == '\u{205f}' || c == '\u{3000}'
}

/// The runs of non-white characters of `s`, in order, with `current` the
/// run still open.
pub open spec fn words(s: Seq<char>) -> Seq<Seq<char>>
    decreases s.len(),
{
    let (done, current) = words_state(s);
    if current.len() > 0 {
        done.push(current)
    } else {
        done
    }
}

/// The finished runs and the open run after reading `s`.
pub open spec fn words_state(s: Seq<char>) -> (Seq<Seq<char>>, Seq<char>)
    decreases s.len(),
{
    if s.len() == 0 {
        (Seq::empty(), Seq::empty())
    } else {
        let (done, current) = words_state(s.drop_last());
        if is_white(s.last()) {
            if current.len() > 0 {
                (done.push(current), Seq::empty())
            } else {
                (done, Seq::empty())
            }
        } else {
            (done, current.push(s.last()))
        }
    }
}

/// The white-space separated words of a text.
pub fn split_words(text: &str) -> (r: Vec<String>)
    ensures
        Seq::new(r@.len(), |i: int| r@[i]@) == words(text@),
{
    let n = text.unicode_len();
    let mut done: Vec<String> = Vec::new();
    let mut current = String::new();
    let mut i: usize = 0;
    while i < n
        invariant
            n == text@.len(),
            i <= n,
            (Seq::new(done@.len(), |k: int| done@[k]@), current@) == words_state(text@.take(i as int)),
        decreases n - i,
    {
        let c = text.get_char(i);
        proof {
            assert(text@.take(i + 1).drop_last() =~= text@.take(i as int));
            assert(text@.take(i + 1).last() == c);
        }
        let ghost before = Seq::new(done@.len(), |k: int| done@[k]@);
        if char_is_white(c) {
            if current.unicode_len() > 0 {
                let finished = current;
                done.push(finished);
                current = String::new();
                proof {
                    assert(Seq::new(done@.len(), |k: int| done@[k]@) =~= before.push(done@.last()@));
                }
            }
        } else {
            crate::strings::push_char(&mut current, c);
        }
        i = i + 1;
    }
    assert(text@.take(n as int) =~= text@);
    if current.unicode_len() > 0 {
        let ghost before = Seq::new(done@.len(), |k: int| done@[k]@);
        done.push(current);
        assert(Seq::new(done@.len(), |k: int| done@[k]@) =~= before.push(done@.last()@));
    }
    done
}

/// What a record of a Git listing says, before its path is checked.
pub struct RecordView {
    pub path: Seq<char>,
    pub mode: Seq<char>,
    pub object_id: Seq<char>,
}

/// The meaning of one listing record, or the code and message of why it
/// is refused. Index records are `mode object stage<TAB>path`, tree
/// records `mode type object<TAB>path`.
pub open spec fn parse_record(chunk: Seq<u8>, tree: bool) -> Result<RecordView, (Seq<char>, Seq<char>)> {
    match first_index(chunk, 9) {
        None => Err(("index-git-output-invalid"@, "Git record is missing a path"@)),
        Some(tab) => {
            let meta = chunk.take(tab);
            let path = chunk.skip(tab + 1);
            if !valid_utf8(meta) {
                Err(("index-git-output-invalid"@, "Git record metadata is not UTF-8"@))
            } else if !valid_utf8(path) {
                Err(("index-repository-path-invalid"@, "repository path is not UTF-8"@))
            } else if !repo_path_valid(decode_utf8(path)) {
                Err(("index-repository-path-invalid"@, Seq::empty()))
            } else {
                let fields = words(decode_utf8(meta));
                if fields.len() != 3 {
                    Err(("index-git-output-invalid"@, "Git record has invalid metadata"@))
                } else if tree {
                    if fields[1] != "blob"@ && !(fields[0] == "160000"@ && fields[1] == "commit"@) {
                        Err(("index-git-output-invalid"@, "tree record has an unsupported object type"@))
                    } else {
                        Ok(RecordView { path: decode_utf8(path), mode: fields[0], object_id: fields[2] })
                    }
                } else if fields[2] != "0"@ {
                    Err(("index-unmerged-entry"@, "index path is unmerged: "@ + decode_utf8(path)))
                } else {
                    Ok(RecordView { path: decode_utf8(path), mode: fields[0], object_id: fields[1] })
                }
            }
        },
    }
}

/// What a parsed record holds.
pub open spec fn record_view(r: GitManifestRecord) -> RecordView {
    RecordView {
        path: r.path@,
        mode: r.mode@,
        object_id: match r.object_id {
            Some(o) => o@,
            None => Seq::empty(),
        },
    }
}

/// The index of the first record of `chunks` that is refused, if any.
pub open spec fn first_refused(chunks: Seq<Seq<u8>>, tree: bool) -> Option<int> {
    if exists|i: int| 0 <= i < chunks.len() && parse_record(chunks[i], tree) is Err {
        Some(choose|i: int| 0 <= i < chunks.len() && parse_record(chunks[i], tree) is Err
            && forall|j: int| 0 <= j < i ==> parse_record(#[trigger] chunks[j], tree) is Ok)
    } else {
        None
    }
}

impl CanonicalOrder for GitManifestRecord {
    open spec fn order_of(&self, other: &Self) -> int {
        ord_text(self.path@, other.path@)
    }

    proof fn lemma_antisymmetric(a: &Self, b: &Self) {
        lemma_ord_text_antisymmetric(a.path@, b.path@);
    }

    fn order(&self, other: &Self) -> (r: i8) {
        order_text(self.path.as_str(), other.path.as_str())
    }
}

fn find_tab(chunk: &Vec<u8>) -> (r: Option<usize>)
    ensures
        match r {
            Some(i) => first_index(chunk@, 9) == Some(i as int),
            None => first_index(chunk@, 9) is None,
        },
        r matches Some(i) ==> i < chunk@.len(),
{
    let mut i: usize = 0;
    assert(chunk@.skip(0) =~= chunk@);
    while i < chunk.len()
        invariant
            i <= chunk@.len(),
            first_index(chunk@, 9) == match first_index(chunk@.skip(i as int), 9) {
                Some(k) => Some(k + i),
                None => None,
            },
        decreases chunk@.len() - i,
    {
        proof {
            assert(chunk@.skip(i as int)[0] == chunk@[i as int]);
            assert(chunk@.skip(i as int).drop_first() =~= chunk@.skip(i + 1));
        }
        if chunk[i] == 9 {
            return Some(i);
        }
        i = i + 1;
    }
    proof {
        assert(chunk@.skip(i as int).len() == 0);
    }
    None
}

fn sub_bytes(b: &Vec<u8>, start: usize, end: usize) -> (r: Vec<u8>)
    requires
        start <= end <= b@.len(),
    ensures
        r@ == b@.subrange(start as int, end as int),
{
    let mut out: Vec<u8> = Vec::new();
    let mut i = start;
    while i < end
        invariant
            start <= i <= end <= b@.len(),
            out@ == b@.subrange(start as int, i as int),
        decreases end - i,
    {
        out.push(b[i]);
        assert(b@.subrange(start as int, i + 1) =~= b@.subrange(start as int, i as int).push(b@[i as int]));
        i = i + 1;
    }
    out
}

/// Parses one record of a listing.
pub fn parse_git_record(chunk: &Vec<u8>, tree: bool) -> (r: Result<GitManifestRecord, RepositoryManifestError>)
    ensures
        match parse_record(chunk@, tree) {
            Ok(v) => r matches Ok(rec) && record_view(rec) == v && rec.object_id is Some
                && rec.presence == (if v.mode == "160000"@ { CandidatePresence::Gitlink } else { CandidatePresence::Present }),
            Err((code, _)) => r matches Err(e) && e.code@ == code,
        },
{
    let tab = match find_tab(chunk) {
        None => return Err(RepositoryManifestError::new("index-git-output-invalid", "Git record is missing a path")),
        Some(t) => t,
    };
    let n = chunk.len();
    let meta_bytes = sub_bytes(chunk, 0, tab);
    let path_bytes = sub_bytes(chunk, tab + 1, n);
    proof {
        assert(meta_bytes@ =~= chunk@.take(tab as int));
        assert(path_bytes@ =~= chunk@.skip(tab + 1));
    }
    let meta = match decode_utf8_strict(meta_bytes.as_slice()) {
        None => return Err(RepositoryManifestError::new("index-git-output-invalid", "Git record metadata is not UTF-8")),
        Some(m) => m,
    };
    let path_text = match decode_utf8_strict(path_bytes.as_slice()) {
        None => return Err(RepositoryManifestError::new("index-repository-path-invalid", "repository path is not UTF-8")),
        Some(p) => p,
    };
    let path = match RepoPath::new(path_text) {
        Err(_) => return Err(RepositoryManifestError::new("index-repository-path-invalid", "repository path is invalid")),
        Ok(p) => p,
    };
    let fields = split_words(meta.as_str());
    let ghost fv = Seq::new(fields@.len(), |i: int| fields@[i]@);
    if fields.len() != 3 {
        return Err(RepositoryManifestError::new("index-git-output-invalid", "Git record has invalid metadata"));
    }
    assert(fv[0] == fields@[0]@ && fv[1] == fields@[1]@ && fv[2] == fields@[2]@);
    let (mode, object_id) = if tree {
        if !str_equal(fields[1].as_str(), "blob") && !(str_equal(fields[0].as_str(), "160000") && str_equal(fields[1].as_str(), "commit")) {
            return Err(RepositoryManifestError::new("index-git-output-invalid", "tree record has an unsupported object type"));
        }
        (fields[0].clone(), fields[2].clone())
    } else {
        if !str_equal(fields[2].as_str(), "0") {
            let mut message = String::from_str("index path is unmerged: ");
            message.append(path.as_str());
            return Err(RepositoryManifestError { code: String::from_str("index-unmerged-entry"), message });
        }
        (fields[0].clone(), fields[1].clone())
    };
    let presence = if str_equal(mode.as_str(), "160000") {
        CandidatePresence::Gitlink
    } else {
        CandidatePresence::Present
    };
    Ok(GitManifestRecord { path, mode, object_id: Some(object_id), presence })
}

/// The non-empty NUL-separated records of a listing.
pub fn split_records(bytes: &[u8]) -> (r: Vec<Vec<u8>>)
    ensures
        Seq::new(r@.len(), |k: int| r@[k]@) == non_empty(split_nul(bytes@)),
{
    let ghost mut pieces: Seq<Seq<u8>> = Seq::empty();
    let mut chunks: Vec<Vec<u8>> = Vec::new();
    let mut current: Vec<u8> = Vec::new();
    let mut i: usize = 0;
    assert(bytes@.take(0) =~= Seq::<u8>::empty());
    assert(split_nul(Seq::<u8>::empty()) =~= pieces.push(current@));
    while i < bytes.len()
        invariant
            i <= bytes@.len(),
            split_nul(bytes@.take(i as int)) == pieces.push(current@),
            Seq::new(chunks@.len(), |k: int| chunks@[k]@) == non_empty(pieces),
        decreases bytes@.len() - i,
    {
        let b = bytes[i];
        proof {
            assert(bytes@.take(i + 1).drop_last() =~= bytes@.take(i as int));
            assert(bytes@.take(i + 1).last() == b);
        }
        if b == 0 {
            let ghost old_pieces = pieces;
            let ghost cur = current@;
            if current.len() > 0 {
                let finished = current;
                let ghost before = Seq::new(chunks@.len(), |k: int| chunks@[k]@);
                chunks.push(finished);
                proof {
                    assert(Seq::new(chunks@.len(), |k: int| chunks@[k]@) =~= before.push(cur));
                }
                current = Vec::new();
            } else {
                current = Vec::new();
            }
            proof {
                pieces = old_pieces.push(cur);
                assert(non_empty(pieces) == if cur.len() == 0 { non_empty(old_pieces) } else { non_empty(old_pieces).push(cur) }) by {
                    assert(pieces.drop_last() =~= old_pieces);
                }
                assert(split_nul(bytes@.take(i + 1)) =~= pieces.push(current@));
            }
        } else {
            let ghost cur = current@;
            current.push(b);
            proof {
                let s = pieces.push(cur);
                assert(s.update(s.len() - 1, s.last().push(b)) =~= pieces.push(current@));
            }
        }
        i = i + 1;
    }
    proof {
        assert(bytes@.take(bytes@.len() as int) =~= bytes@);
        let all = pieces.push(current@);
        assert(all.drop_last() =~= pieces);
    }
    if current.len() > 0 {
        let ghost cur = current@;
        let ghost before = Seq::new(chunks@.len(), |k: int| chunks@[k]@);
        chunks.push(current);
        assert(Seq::new(chunks@.len(), |k: int| chunks@[k]@) =~= before.push(cur));
    }
    chunks
}

/// Every record of the listing parses.
pub open spec fn all_parse(chunks: Seq<Seq<u8>>, tree: bool) -> bool {
    forall|i: int| 0 <= i < chunks.len() ==> parse_record(#[trigger] chunks[i], tree) is Ok
}

/// What the records of a listing hold, in listing order.
pub open spec fn parsed_views(chunks: Seq<Seq<u8>>, tree: bool) -> Seq<RecordView> {
    Seq::new(chunks.len(), |i: int| parse_record(chunks[i], tree)->Ok_0)
}

/// Record `i` is the first refused, with code `code`.
pub open spec fn first_refusal(chunks: Seq<Seq<u8>>, tree: bool, i: int, code: Seq<char>) -> bool {
    &&& 0 <= i < chunks.len()
    &&& forall|j: int| 0 <= j < i ==> parse_record(#[trigger] chunks[j], tree) is Ok
    &&& parse_record(chunks[i], tree) matches Err((c, _)) && c == code
}

/// The records of a Git index (`tree` false) or tree (`tree` true)
/// listing, sorted by path. Refused with the code of the first record that
/// does not parse.
pub fn parse_git_records(bytes: &[u8], tree: bool) -> (r: Result<Vec<GitManifestRecord>, RepositoryManifestError>)
    ensures
        r is Ok <==> all_parse(non_empty(split_nul(bytes@)), tree),
        r matches Ok(rs) ==> sorted_by_order(rs@) && exists|u: Seq<GitManifestRecord>|
            Seq::new(u.len(), |k: int| record_view(u[k])) == parsed_views(non_empty(split_nul(bytes@)), tree)
                && rs@.to_multiset() == u.to_multiset(),
        r matches Err(e) ==> exists|i: int| #[trigger] first_refusal(non_empty(split_nul(bytes@)), tree, i, e.code@),
{
    let chunks = split_records(bytes);
    let ghost cv = Seq::new(chunks@.len(), |k: int| chunks@[k]@);
    let mut records: Vec<GitManifestRecord> = Vec::new();
    let mut i: usize = 0;
    while i < chunks.len()
        invariant
            i <= chunks@.len(),
            cv == Seq::new(chunks@.len(), |k: int| chunks@[k]@),
            cv == non_empty(split_nul(bytes@)),
            records@.len() == i,
            forall|j: int| 0 <= j < i ==> parse_record(#[trigger] cv[j], tree) is Ok,
            forall|j: int| 0 <= j < i ==> record_view(#[trigger] records@[j]) == parse_record(cv[j], tree)->Ok_0,
        decreases chunks@.len() - i,
    {
        match parse_git_record(&chunks[i], tree) {
            Err(e) => {
                proof {
                    assert(cv[i as int] == chunks@[i as int]@);
                    assert(first_refusal(cv, tree, i as int, e.code@));
                    assert(parse_record(cv[i as int], tree) is Err);
                    assert(!all_parse(cv, tree));
                    assert(first_refusal(non_empty(split_nul(bytes@)), tree, i as int, e.code@));
                }
                let r: Result<Vec<GitManifestRecord>, RepositoryManifestError> = Err(e);
                assert(r matches Err(x) && first_refusal(non_empty(split_nul(bytes@)), tree, i as int, x.code@));
                return r;
            },
            Ok(rec) => {
                proof {
                    assert(cv[i as int] == chunks@[i as int]@);
                }
                records.push(rec);
            },
        }
        i = i + 1;
    }
    let ghost u = records@;
    proof {
        assert(Seq::new(u.len(), |k: int| record_view(u[k])) =~= parsed_views(cv, tree));
    }
    let sorted = stable_sort(records);
    Ok(sorted)
}

/// The bytes a record is charged against the manifest byte budget: its
/// path, mode and object id, plus 128, saturated at the largest `usize`.
pub open spec fn record_charge(r: GitManifestRecord) -> int {
    let total = encode_utf8(r.path@).len() + encode_utf8(r.mode@).len() + (match r.object_id {
        Some(o) => encode_utf8(o@).len() as int,
        None => 0int,
    }) + 128;
    if total > usize::MAX {
        usize::MAX as int
    } else {
        total
    }
}

fn saturating_sum(a: usize, b: usize) -> (r: usize)
    ensures
        r == (if a + b > usize::MAX { usize::MAX as int } else { a + b }),
{
    if a > usize::MAX - b {
        usize::MAX
    } else {
        a + b
    }
}

/// The charge of a record.
pub fn record_bytes(record: &GitManifestRecord) -> (r: usize)
    ensures
        r == record_charge(*record),
{
    let path_bytes = record.path.as_str().as_bytes().len();
    let mode_bytes = record.mode.as_str().as_bytes().len();
    let object_bytes = match &record.object_id {
        Some(o) => o.as_str().as_bytes().len(),
        None => 0,
    };
    saturating_sum(saturating_sum(saturating_sum(path_bytes, mode_bytes), object_bytes), 128)
}

/// The entry of a record whose content was read (or that has none).
pub fn completed_entry(record: &GitManifestRecord, content_sha256: Option<String>, content_bytes: Option<usize>) -> (r: RepositoryManifestEntry)
    ensures
        r.path@ == record.path@,
        r.mode@ == record.mode@,
        r.presence == record.presence,
        r.content_sha256 == content_sha256,
        r.content_bytes == content_bytes,
        opt_view(r.language) == language_of(record.path@),
        r.status == UnitStatus::Completed,
        r.limitation_codes@.len() == 0,
{
    let language = language_for_path(&record.path);
    RepositoryManifestEntry {
        path: record.path.duplicate(),
        mode: record.mode.clone(),
        presence: record.presence,
        content_sha256,
        content_bytes,
        language,
        status: UnitStatus::Completed,
        limitation_codes: Vec::new(),
    }
}

/// The entry of a record that could not be read, with its status and the
/// code of the limitation that says why.
pub fn entry_with_status(record: &GitManifestRecord, status: UnitStatus, code: String) -> (r: RepositoryManifestEntry)
    ensures
        r.path@ == record.path@,
        r.mode@ == record.mode@,
        r.presence == record.presence,
        r.content_sha256 is None,
        r.content_bytes is None,
        opt_view(r.language) == language_of(record.path@),
        r.status == status,
        r.limitation_codes@.len() == 1 && r.limitation_codes@[0]@ == code@,
{
    let language = language_for_path(&record.path);
    let ghost c = code@;
    let codes = vec![code];
    RepositoryManifestEntry {
        path: record.path.duplicate(),
        mode: record.mode.clone(),
        presence: record.presence,
        content_sha256: None,
        content_bytes: None,
        language,
        status,
        limitation_codes: codes,
    }
}

/// A limitation of the manifest itself, from an exhausted budget.
pub fn budget_limitation(exhaustion: IndexBudgetExhaustion, path: Option<RepoPath>) -> (r: IndexLimitation)
    ensures
        r.code@ == exhaustion.code_of(),
        r.reason@ == exhaustion.code_of(),
        r.path == path,
        r.symbol_id is None,
        r.interpretation@ == "repository manifest collection stopped at a declared budget"@,
{
    let code = exhaustion.code();
    IndexLimitation {
        code: String::from_str(code),
        path,
        symbol_id: None,
        reason: String::from_str(code),
        interpretation: String::from_str("repository manifest collection stopped at a declared budget"),
    }
}

/// The records a manifest keeps within its budgets.
#[derive(Debug, Clone, PartialEq, Eq)]
pub struct RecordSelection {
    pub selected: Vec<GitManifestRecord>,
    pub limitations: Vec<IndexLimitation>,
    pub truncated_entry: Option<RepositoryManifestEntry>,
    pub truncated: bool,
}

/// Keeps records, in order, while each can be charged one manifest file and
/// its bytes. The first that cannot ends the selection: when it is the
/// file budget, a limitation with no path; when it is the byte budget, a
/// limitation at the record's path and a budget-exhausted entry for it.
#[verifier::loop_isolation(false)]
pub fn select_records(records: Vec<GitManifestRecord>, budget: &mut IndexBudgetTracker) -> (r: RecordSelection)
    requires
        old(budget).wf(),
    ensures
        final(budget).wf(),
        final(budget).budget_of() == old(budget).budget_of(),
        r.selected@ == records@.take(r.selected@.len() as int),
        !r.truncated <==> r.selected@.len() == records@.len(),
        !r.truncated ==> r.limitations@.len() == 0 && r.truncated_entry is None,
        r.truncated ==> r.limitations@.len() == 1 && (r.limitations@[0].code@
            == IndexResource::ManifestFiles.exhaustion_code_of() || r.limitations@[0].code@
            == IndexResource::ManifestBytes.exhaustion_code_of()),
        r.truncated_entry matches Some(e) ==> r.truncated && e.path@ == records@[r.selected@.len() as int].path@
            && e.status == UnitStatus::BudgetExhausted,
        old(budget).consumed_of(IndexResource::ManifestFiles) + r.selected@.len() <= old(budget).budget_of().limit_of(
            IndexResource::ManifestFiles,
        ),
{
    let ghost all = records@;
    let total = records.len();
    let mut rest = records;
    let mut selected: Vec<GitManifestRecord> = Vec::new();
    let mut limitations: Vec<IndexLimitation> = Vec::new();
    let mut truncated_entry: Option<RepositoryManifestEntry> = None;
    let mut i: usize = 0;
    assert(all.take(0) =~= selected@);
    while rest.len() > 0
        invariant
            i + rest@.len() == total,
            total == all.len(),
            rest@ == all.subrange(i as int, total as int),
            selected@ == all.take(i as int),
            budget.wf(),
            budget.budget_of() == old(budget).budget_of(),
            limitations@.len() == 0,
            truncated_entry is None,
            budget.consumed_of(IndexResource::ManifestFiles) == old(budget).consumed_of(IndexResource::ManifestFiles) + i,
        decreases rest@.len(),
    {
        let record = rest.remove(0);
        proof {
            assert(record == all[i as int]);
            assert(rest@ =~= all.subrange(i + 1, total as int));
        }
        match budget.consume(IndexResource::ManifestFiles, 1) {
            Err(e) => {
                proof {
                    budget.lemma_within_limit(IndexResource::ManifestFiles);
                }
                limitations.push(budget_limitation(e, None));
                return RecordSelection { selected, limitations, truncated_entry, truncated: true };
            },
            Ok(()) => {},
        }
        let charge = record_bytes(&record);
        proof {
            budget.lemma_within_limit(IndexResource::ManifestFiles);
        }
        match budget.consume(IndexResource::ManifestBytes, charge) {
            Err(e) => {
                let limitation = budget_limitation(e, Some(record.path.duplicate()));
                let entry = entry_with_status(&record, UnitStatus::BudgetExhausted, limitation.code.clone());
                limitations.push(limitation);
                return RecordSelection { selected, limitations, truncated_entry: Some(entry), truncated: true };
            },
            Ok(()) => {},
        }
        selected.push(record);
        assert(all.take(i + 1) =~= all.take(i as int).push(record));
        i = i + 1;
    }
    assert(all.take(total as int) =~= all);
    proof {
        budget.lemma_within_limit(IndexResource::ManifestFiles);
    }
    RecordSelection { selected, limitations, truncated_entry, truncated: false }
}

/// Why the content of a manifest record could not be read: it was over
/// the byte limit given for the read, or it was unavailable.
#[derive(Debug, Clone, PartialEq, Eq)]
pub struct ContentReadFailure {
    pub over_budget: bool,
    pub message: String,
}

/// The largest read allowed for one record's content: the per-file limit,
/// or less when fewer parse bytes remain.
pub fn record_read_limit(budget: &IndexBudgetTracker) -> (r: usize)
    requires
        budget.wf(),
    ensures
        r == vstd::math::min(
            budget.budget_of().max_file_bytes as int,
            budget.budget_of().limit_of(IndexResource::ParseBytes) - budget.consumed_of(IndexResource::ParseBytes),
        ),
{
    let remaining = budget.amount(IndexResource::ParseBytes).remaining;
    let maximum = budget.budget().max_file_bytes;
    if maximum < remaining {
        maximum
    } else {
        remaining
    }
}

/// The status and code of a record whose content could not be read.
pub open spec fn failure_outcome(over_budget: bool) -> (UnitStatus, Seq<char>) {
    if over_budget {
        (UnitStatus::BudgetExhausted, "index-file-byte-budget-exhausted"@)
    } else {
        (UnitStatus::Unavailable, "index-content-unavailable"@)
    }
}

/// Records one selected manifest record: a deleted or gitlink path as it
/// is; a present path with the digest and size of its content, charged to
/// the parse bytes; a path whose content could not be read with the
/// status and limitation of the failure. A parse-byte overrun is an
/// error, and so is the deadline once it has passed.
pub fn manifest_record_step(
    record: &GitManifestRecord,
    read: Option<Result<CandidateBytes, ContentReadFailure>>,
    budget: &mut IndexBudgetTracker,
    entries: &mut Vec<RepositoryManifestEntry>,
    limitations: &mut Vec<IndexLimitation>,
) -> (r: Result<(), RepositoryManifestError>)
    requires
        old(budget).wf(),
        (record.presence == CandidatePresence::Present) == (read is Some),
    ensures
        final(budget).wf(),
        final(budget).budget_of() == old(budget).budget_of(),
        forall|res: IndexResource|
            res != IndexResource::ParseBytes ==> #[trigger] final(budget).consumed_of(res) == old(budget).consumed_of(res),
        r matches Err(e) ==> e.code@ == IndexResource::ParseBytes.exhaustion_code_of() || e.code@ == "index-deadline-exhausted"@,
        e_is_deadline(r) <==> (final(budget).deadline_exhausted_of() && !parse_overrun(*record, read, *old(budget))),
        parse_overrun(*record, read, *old(budget)) ==> (r matches Err(e) && e.code@ == IndexResource::ParseBytes.exhaustion_code_of()),
        final(limitations)@.len() > old(limitations)@.len() ==> final(entries)@.len() == old(entries)@.len() + 1
            && final(entries)@.last().status != UnitStatus::Completed,
        !parse_overrun(*record, read, *old(budget)) ==> ({
            &&& final(entries)@.len() == old(entries)@.len() + 1
            &&& final(entries)@.drop_last() == old(entries)@
            &&& final(entries)@.last().path@ == record.path@
            &&& final(entries)@.last().mode@ == record.mode@
            &&& final(entries)@.last().presence == record.presence
            &&& opt_view(final(entries)@.last().language) == language_of(record.path@)
            &&& match read {
                None => final(entries)@.last().status == UnitStatus::Completed && final(entries)@.last().content_sha256 is None
                    && final(entries)@.last().content_bytes is None && final(limitations)@ == old(limitations)@
                    && final(budget).consumed_of(IndexResource::ParseBytes) == old(budget).consumed_of(IndexResource::ParseBytes),
                Some(Ok(c)) => final(entries)@.last().status == UnitStatus::Completed && opt_view(
                    final(entries)@.last().content_sha256,
                ) == Some(c.sha256@) && final(entries)@.last().content_bytes == Some(c.bytes@.len() as usize)
                    && final(limitations)@ == old(limitations)@ && final(budget).consumed_of(IndexResource::ParseBytes)
                    == old(budget).consumed_of(IndexResource::ParseBytes) + c.bytes@.len(),
                Some(Err(f)) => final(entries)@.last().status == failure_outcome(f.over_budget).0
                    && final(entries)@.last().content_sha256 is None && final(entries)@.last().content_bytes is None
                    && final(entries)@.last().limitation_codes@.len() == 1
                    && final(entries)@.last().limitation_codes@[0]@ == failure_outcome(f.over_budget).1
                    && final(limitations)@.len() == old(limitations)@.len() + 1
                    && final(limitations)@.drop_last() == old(limitations)@
                    && final(limitations)@.last().code@ == failure_outcome(f.over_budget).1
                    && opt_path_view(final(limitations)@.last().path) == Some(record.path@)
                    && final(limitations)@.last().reason@ == f.message@
                    && final(limitations)@.last().symbol_id is None
                    && final(budget).consumed_of(IndexResource::ParseBytes) == old(budget).consumed_of(IndexResource::ParseBytes),
            }
        }),
        r is Ok ==> (final(limitations)@ == old(limitations)@ || !all_completed(final(entries)@)),
        r is Ok && !all_completed(old(entries)@) ==> !all_completed(final(entries)@),
{
    match read {
        None => {
            entries.push(completed_entry(record, None, None));
        },
        Some(Ok(content)) => {
            let len = content.bytes.len();
            if budget.consume(IndexResource::ParseBytes, len).is_err() {
                proof {
                    reveal_strlit("index-parse-byte-budget-exhausted");
                    reveal_strlit("index-deadline-exhausted");
                    assert("index-parse-byte-budget-exhausted"@[6] != "index-deadline-exhausted"@[6]);
                }
                return Err(RepositoryManifestError::new(
                    "index-parse-byte-budget-exhausted",
                    "index-parse-byte-budget-exhausted",
                ));
            }
            entries.push(completed_entry(record, Some(content.sha256), Some(len)));
        },
        Some(Err(failure)) => {
            let code = if failure.over_budget {
                "index-file-byte-budget-exhausted"
            } else {
                "index-content-unavailable"
            };
            let status = if failure.over_budget {
                UnitStatus::BudgetExhausted
            } else {
                UnitStatus::Unavailable
            };
            entries.push(entry_with_status(record, status, String::from_str(code)));
            limitations.push(
                IndexLimitation {
                    code: String::from_str(code),
                    path: Some(record.path.duplicate()),
                    symbol_id: None,
                    reason: failure.message,
                    interpretation: String::from_str("repository index content is incomplete for this path"),
                },
            );
            assert(limitations@.drop_last() =~= old(limitations)@);
        },
    }
    assert(entries@.drop_last() =~= old(entries)@);
    if let Err(e) = budget.check_deadline() {
        return Err(RepositoryManifestError::new(e.code(), e.code()));
    }
    Ok(())
}

/// The content of a present record does not fit the parse bytes left.
pub open spec fn parse_overrun(
    record: GitManifestRecord,
    read: Option<Result<CandidateBytes, ContentReadFailure>>,
    budget: IndexBudgetTracker,
) -> bool {
    match read {
        Some(Ok(c)) => budget.consumed_of(IndexResource::ParseBytes) + c.bytes@.len() > budget.budget_of().limit_of(
            IndexResource::ParseBytes,
        ),
        _ => false,
    }
}

/// The step ended on the deadline.
pub open spec fn e_is_deadline(r: Result<(), RepositoryManifestError>) -> bool {
    r matches Err(e) && e.code@ == "index-deadline-exhausted"@
}

/// The text of an optional repository path.
pub open spec fn opt_path_view(p: Option<RepoPath>) -> Option<Seq<char>> {
    match p {
        Some(x) => Some(x@),
        None => None,
    }
}

/// Whether every entry was read in full.
pub open spec fn all_completed(es: Seq<RepositoryManifestEntry>) -> bool {
    forall|i: int| 0 <= i < es.len() ==> (#[trigger] es[i]).status == UnitStatus::Completed
}

/// Every limitation of a manifest under construction is accounted for: by
/// a truncated listing or by an entry that did not complete.
pub open spec fn limitations_accounted(
    entries: Seq<RepositoryManifestEntry>,
    limitations: Seq<IndexLimitation>,
    truncated: bool,
) -> bool {
    limitations.len() > 0 ==> truncated || !all_completed(entries)
}

/// A manifest is complete only with no limitations: finishing entries and
/// limitations that are accounted for gives a complete manifest only where
/// there is no limitation.
pub proof fn lemma_complete_manifest_has_no_limitations(
    entries: Seq<RepositoryManifestEntry>,
    limitations: Seq<IndexLimitation>,
    truncated: bool,
    m: RepositoryManifest,
)
    requires
        limitations_accounted(entries, limitations, truncated),
        m.completeness == (if truncated || !all_completed(entries) { Completeness::Partial } else { Completeness::Complete }),
        m.limitations@.to_multiset() == limitations.to_multiset(),
    ensures
        m.completeness == Completeness::Complete ==> m.limitations@.len() == 0,
{
    vstd::seq_lib::to_multiset_len(limitations);
    vstd::seq_lib::to_multiset_len(m.limitations@);
}

/// A record step that succeeds keeps every limitation accounted for.
pub proof fn lemma_record_step_keeps_accounting(
    old_entries: Seq<RepositoryManifestEntry>,
    old_limitations: Seq<IndexLimitation>,
    new_entries: Seq<RepositoryManifestEntry>,
    new_limitations: Seq<IndexLimitation>,
    truncated: bool,
)
    requires
        limitations_accounted(old_entries, old_limitations, truncated),
        new_limitations == old_limitations || !all_completed(new_entries),
        !all_completed(old_entries) ==> !all_completed(new_entries),
    ensures
        limitations_accounted(new_entries, new_limitations, truncated),
{
}

fn every_completed(es: &Vec<RepositoryManifestEntry>) -> (r: bool)
    ensures
        r == all_completed(es@),
{
    let mut i: usize = 0;
    while i < es.len()
        invariant
            i <= es@.len(),
            forall|k: int| 0 <= k < i ==> (#[trigger] es@[k]).status == UnitStatus::Completed,
        decreases es@.len() - i,
    {
        if es[i].status != UnitStatus::Completed {
            return false;
        }
        i = i + 1;
    }
    true
}

/// A manifest is complete when nothing was cut and every entry was read.
pub fn manifest_completeness(truncated: bool, entries: &Vec<RepositoryManifestEntry>) -> (r: Completeness)
    ensures
        r == (if truncated || !all_completed(entries@) { Completeness::Partial } else { Completeness::Complete }),
{
    if truncated || !every_completed(entries) {
        Completeness::Partial
    } else {
        Completeness::Complete
    }
}

/// An optional text as hashed: a zero byte when absent, else a one byte
/// and the text as a component.
pub open spec fn optional_part(v: Option<Seq<char>>) -> Seq<u8> {
    match v {
        Some(t) => seq![1u8] + component(encode_utf8(t)),
        None => seq![0u8],
    }
}

fn push_optional(out: &mut Vec<u8>, value: &Option<String>)
    ensures
        final(out)@ == old(out)@ + optional_part(opt_view(*value)),
{
    match value {
        Some(v) => {
            out.push(1u8);
            let ghost mid = out@;
            push_component(out, v.as_str().as_bytes());
            assert(out@ =~= old(out)@ + optional_part(opt_view(*value)));
        },
        None => {
            out.push(0u8);
            assert(out@ =~= old(out)@ + optional_part(opt_view(*value)));
        },
    }
}

/// The stored name of a review source.
pub open spec fn source_name(s: ReviewSource) -> Seq<char> {
    match s {
        ReviewSource::Staged => "staged"@,
        ReviewSource::Unstaged => "unstaged"@,
        ReviewSource::Branch => "branch"@,
    }
}

fn source_text(s: ReviewSource) -> (r: &'static str)
    ensures
        r@ == source_name(s),
{
    match s {
        ReviewSource::Staged => "staged",
        ReviewSource::Unstaged => "unstaged",
        ReviewSource::Branch => "branch",
    }
}

/// The components a record adds to the index digest.
pub open spec fn index_record_part(r: GitManifestRecord) -> Seq<u8> {
    component(encode_utf8(r.path@)) + component(encode_utf8(r.mode@)) + optional_part(
        match r.object_id {
            Some(o) => Some(o@),
            None => None,
        },
    )
}

/// The components of records, in order.
pub open spec fn index_records_part(rs: Seq<GitManifestRecord>) -> Seq<u8>
    decreases rs.len(),
{
    if rs.len() == 0 {
        Seq::empty()
    } else {
        index_records_part(rs.drop_last()) + index_record_part(rs.last())
    }
}

/// The bytes hashed to name an index listing.
pub open spec fn index_digest_message(object_format: Seq<char>, rs: Seq<GitManifestRecord>) -> Seq<u8> {
    component(encode_utf8("repository-index-manifest/v1"@)) + component(encode_utf8(object_format))
        + index_records_part(rs)
}

/// The digest of an index listing.
pub fn digest_index_records(object_format: &str, records: &Vec<GitManifestRecord>) -> (r: String)
    ensures
        r@ == hex_seq(sha256_of(index_digest_message(object_format@, records@))),
        is_hex_of_len(r@, 64),
{
    let mut message: Vec<u8> = Vec::new();
    push_component(&mut message, "repository-index-manifest/v1".as_bytes());
    push_component(&mut message, object_format.as_bytes());
    let ghost head = message@;
    let mut i: usize = 0;
    while i < records.len()
        invariant
            i <= records@.len(),
            message@ == head + index_records_part(records@.take(i as int)),
        decreases records@.len() - i,
    {
        let record = &records[i];
        push_component(&mut message, record.path.as_str().as_bytes());
        push_component(&mut message, record.mode.as_str().as_bytes());
        push_optional(&mut message, &record.object_id);
        proof {
            assert(records@.take(i + 1).drop_last() =~= records@.take(i as int));
            assert(message@ =~= head + index_records_part(records@.take(i + 1)));
        }
        i = i + 1;
    }
    assert(records@.take(records@.len() as int) =~= records@);
    assert(message@ =~= index_digest_message(object_format@, records@));
    sha256_hex_of_bytes(message.as_slice())
}

/// The bytes hashed to name a candidate overlay.
pub open spec fn overlay_digest_message(source: ReviewSource, fingerprint: Seq<char>, index_digest: Option<Seq<char>>) -> Seq<u8> {
    component(encode_utf8("repository-candidate-overlay/v1"@)) + component(encode_utf8(source_name(source)))
        + component(encode_utf8(fingerprint)) + optional_part(index_digest)
}

/// The digest of the candidate overlay of a review scope.
pub fn digest_overlay(source: ReviewSource, fingerprint: &str, index_digest: &Option<String>) -> (r: String)
    ensures
        r@ == hex_seq(sha256_of(overlay_digest_message(source, fingerprint@, opt_view(*index_digest)))),
        is_hex_of_len(r@, 64),
{
    let mut message: Vec<u8> = Vec::new();
    push_component(&mut message, "repository-candidate-overlay/v1".as_bytes());
    push_component(&mut message, source_text(source).as_bytes());
    push_component(&mut message, fingerprint.as_bytes());
    push_optional(&mut message, index_digest);
    assert(message@ =~= overlay_digest_message(source, fingerprint@, opt_view(*index_digest)));
    sha256_hex_of_bytes(message.as_slice())
}

/// The stored name of a presence.
pub open spec fn presence_name(p: CandidatePresence) -> Seq<char> {
    match p {
        CandidatePresence::Present => "present"@,
        CandidatePresence::Deleted => "deleted"@,
        CandidatePresence::Gitlink => "gitlink"@,
    }
}

fn presence_text(p: CandidatePresence) -> (r: &'static str)
    ensures
        r@ == presence_name(p),
{
    match p {
        CandidatePresence::Present => "present",
        CandidatePresence::Deleted => "deleted",
        CandidatePresence::Gitlink => "gitlink",
    }
}

/// The stored name of a unit status.
pub open spec fn status_name(s: UnitStatus) -> Seq<char> {
    match s {
        UnitStatus::Completed => "completed"@,
        UnitStatus::Partial => "partial"@,
        UnitStatus::Unsupported => "unsupported"@,
        UnitStatus::BudgetExhausted => "budget-exhausted"@,
        UnitStatus::Unavailable => "unavailable"@,
    }
}

fn status_text(s: UnitStatus) -> (r: &'static str)
    ensures
        r@ == status_name(s),
{
    match s {
        UnitStatus::Completed => "completed",
        UnitStatus::Partial => "partial",
        UnitStatus::Unsupported => "unsupported",
        UnitStatus::BudgetExhausted => "budget-exhausted",
        UnitStatus::Unavailable => "unavailable",
    }
}

/// The stored name of a completeness.
pub open spec fn completeness_name(c: Completeness) -> Seq<char> {
    match c {
        Completeness::Complete => "complete"@,
        Completeness::Partial => "partial"@,
        Completeness::Unavailable => "unavailable"@,
    }
}

fn completeness_text(c: Completeness) -> (r: &'static str)
    ensures
        r@ == completeness_name(c),
{
    match c {
        Completeness::Complete => "complete",
        Completeness::Partial => "partial",
        Completeness::Unavailable => "unavailable",
    }
}

/// Each text as a component, in order.
pub open spec fn texts_part(t: Seq<Seq<char>>) -> Seq<u8>
    decreases t.len(),
{
    if t.len() == 0 {
        Seq::empty()
    } else {
        texts_part(t.drop_last()) + component(encode_utf8(t.last()))
    }
}

fn push_texts(out: &mut Vec<u8>, texts: &Vec<String>)
    ensures
        final(out)@ == old(out)@ + texts_part(views(texts@)),
{
    let ghost start = out@;
    let mut i: usize = 0;
    while i < texts.len()
        invariant
            i <= texts@.len(),
            out@ == start + texts_part(views(texts@.take(i as int))),
        decreases texts@.len() - i,
    {
        push_component(out, texts[i].as_str().as_bytes());
        proof {
            let t = views(texts@.take(i + 1));
            assert(t.drop_last() =~= views(texts@.take(i as int)));
            assert(t.last() == texts@[i as int]@);
            assert(out@ =~= start + texts_part(t));
        }
        i = i + 1;
    }
    assert(texts@.take(texts@.len() as int) =~= texts@);
}

/// The components an entry adds to the manifest digest.
pub open spec fn entry_part(e: RepositoryManifestEntry) -> Seq<u8> {
    component(encode_utf8(e.path@)) + component(encode_utf8(e.mode@)) + component(
        encode_utf8(presence_name(e.presence)),
    ) + optional_part(opt_view(e.content_sha256)) + (match e.content_bytes {
        Some(b) => seq![1u8] + component(be_bytes(b as nat, 8)),
        None => seq![0u8],
    }) + optional_part(opt_view(e.language)) + component(encode_utf8(status_name(e.status)))
        + texts_part(views(e.limitation_codes@))
}

/// The components of entries, in order.
pub open spec fn entries_part(es: Seq<RepositoryManifestEntry>) -> Seq<u8>
    decreases es.len(),
{
    if es.len() == 0 {
        Seq::empty()
    } else {
        entries_part(es.drop_last()) + entry_part(es.last())
    }
}

/// The components a limitation adds: its five key parts.
pub open spec fn limitation_part(l: IndexLimitation) -> Seq<u8> {
    texts_part(limitation_key(l))
}

/// The components of limitations, in order.
pub open spec fn limitations_part(ls: Seq<IndexLimitation>) -> Seq<u8>
    decreases ls.len(),
{
    if ls.len() == 0 {
        Seq::empty()
    } else {
        limitations_part(ls.drop_last()) + limitation_part(ls.last())
    }
}

/// The bytes hashed to name a manifest.
pub open spec fn manifest_digest_message(
    locator: RepositoryLocator,
    entries: Seq<RepositoryManifestEntry>,
    completeness: Completeness,
    limitations: Seq<IndexLimitation>,
) -> Seq<u8> {
    component(encode_utf8("repository-manifest/v1"@)) + component(encode_utf8(source_name(locator.source)))
        + component(encode_utf8(locator.object_format@)) + optional_part(opt_view(locator.base_tree))
        + optional_part(opt_view(locator.index_manifest_digest)) + component(
        encode_utf8(locator.overlay_candidate_digest@),
    ) + entries_part(entries) + component(encode_utf8(completeness_name(completeness))) + limitations_part(
        limitations,
    )
}

#[verifier::rlimit(40)]
fn push_entry(out: &mut Vec<u8>, e: &RepositoryManifestEntry)
    ensures
        final(out)@ == old(out)@ + entry_part(*e),
{
    let ghost s0 = out@;
    push_component(out, e.path.as_str().as_bytes());
    push_component(out, e.mode.as_str().as_bytes());
    push_component(out, presence_text(e.presence).as_bytes());
    push_optional(out, &e.content_sha256);
    let ghost s1 = out@;
    assert(s1 =~= s0 + component(encode_utf8(e.path@)) + component(encode_utf8(e.mode@)) + component(
        encode_utf8(presence_name(e.presence)),
    ) + optional_part(opt_view(e.content_sha256)));
    let ghost bytes_part = match e.content_bytes {
        Some(b) => seq![1u8] + component(be_bytes(b as nat, 8)),
        None => seq![0u8],
    };
    match e.content_bytes {
        Some(b) => {
            out.push(1u8);
            let mut size: Vec<u8> = Vec::new();
            push_be(&mut size, b as u64, 8);
            assert(size@ =~= be_bytes(b as nat, 8));
            push_component(out, size.as_slice());
        },
        None => {
            out.push(0u8);
        },
    }
    assert(out@ =~= s1 + bytes_part);
    let ghost s2 = out@;
    push_optional(out, &e.language);
    push_component(out, status_text(e.status).as_bytes());
    push_texts(out, &e.limitation_codes);
    assert(out@ =~= s2 + optional_part(opt_view(e.language)) + component(encode_utf8(status_name(e.status)))
        + texts_part(views(e.limitation_codes@)));
    assert(out@ =~= old(out)@ + entry_part(*e));
}

#[verifier::spinoff_prover]
#[verifier::rlimit(30)]
fn push_limitation(out: &mut Vec<u8>, l: &IndexLimitation)
    ensures
        final(out)@ == old(out)@ + limitation_part(*l),
{
    let path: &str = match &l.path {
        Some(p) => p.as_str(),
        None => "",
    };
    let symbol: &str = match &l.symbol_id {
        Some(s) => s.as_str(),
        None => "",
    };
    proof {
        reveal_strlit("");
        assert(""@ =~= Seq::<char>::empty());
    }
    let ghost start = out@;
    push_component(out, l.code.as_str().as_bytes());
    push_component(out, path.as_bytes());
    push_component(out, symbol.as_bytes());
    push_component(out, l.reason.as_str().as_bytes());
    push_component(out, l.interpretation.as_str().as_bytes());
    proof {
        let k = limitation_key(*l);
        let e: Seq<Seq<char>> = Seq::empty();
        lemma_texts_part_push(e, k[0]);
        lemma_texts_part_push(e.push(k[0]), k[1]);
        lemma_texts_part_push(e.push(k[0]).push(k[1]), k[2]);
        lemma_texts_part_push(e.push(k[0]).push(k[1]).push(k[2]), k[3]);
        lemma_texts_part_push(e.push(k[0]).push(k[1]).push(k[2]).push(k[3]), k[4]);
        assert(e.push(k[0]).push(k[1]).push(k[2]).push(k[3]).push(k[4]) =~= k);
        assert(out@ =~= start + texts_part(k));
    }
}

proof fn lemma_texts_part_push(t: Seq<Seq<char>>, x: Seq<char>)
    ensures
        texts_part(t.push(x)) == texts_part(t) + component(encode_utf8(x)),
{
    assert(t.push(x).drop_last() =~= t);
}

/// The digest of a manifest: its locator, entries, completeness and
/// limitations, component by component.
pub fn digest_manifest(
    locator: &RepositoryLocator,
    entries: &Vec<RepositoryManifestEntry>,
    completeness: Completeness,
    limitations: &Vec<IndexLimitation>,
) -> (r: String)
    ensures
        r@ == hex_seq(sha256_of(manifest_digest_message(*locator, entries@, completeness, limitations@))),
{
    let mut message: Vec<u8> = Vec::new();
    push_component(&mut message, "repository-manifest/v1".as_bytes());
    push_component(&mut message, source_text(locator.source).as_bytes());
    push_component(&mut message, locator.object_format.as_str().as_bytes());
    push_optional(&mut message, &locator.base_tree);
    push_optional(&mut message, &locator.index_manifest_digest);
    push_component(&mut message, locator.overlay_candidate_digest.as_str().as_bytes());
    let ghost head = message@;
    let mut i: usize = 0;
    while i < entries.len()
        invariant
            i <= entries@.len(),
            message@ == head + entries_part(entries@.take(i as int)),
        decreases entries@.len() - i,
    {
        push_entry(&mut message, &entries[i]);
        proof {
            assert(entries@.take(i + 1).drop_last() =~= entries@.take(i as int));
            assert(message@ =~= head + entries_part(entries@.take(i + 1)));
        }
        i = i + 1;
    }
    assert(entries@.take(entries@.len() as int) =~= entries@);
    push_component(&mut message, completeness_text(completeness).as_bytes());
    let ghost mid = message@;
    let mut j: usize = 0;
    while j < limitations.len()
        invariant
            j <= limitations@.len(),
            message@ == mid + limitations_part(limitations@.take(j as int)),
        decreases limitations@.len() - j,
    {
        push_limitation(&mut message, &limitations[j]);
        proof {
            assert(limitations@.take(j + 1).drop_last() =~= limitations@.take(j as int));
            assert(message@ =~= mid + limitations_part(limitations@.take(j + 1)));
        }
        j = j + 1;
    }
    assert(limitations@.take(limitations@.len() as int) =~= limitations@);
    assert(message@ =~= manifest_digest_message(*locator, entries@, completeness, limitations@));
    sha256_hex_of_bytes(message.as_slice())
}

/// The manifest that ends a collection: limitations sorted, completeness
/// from the cut and the entries, and the digest over all of it; refused
/// when the result is not a valid manifest.
#[verifier::spinoff_prover]
pub fn finish_manifest(
    locator: RepositoryLocator,
    entries: Vec<RepositoryManifestEntry>,
    limitations: Vec<IndexLimitation>,
    truncated: bool,
) -> (r: Result<RepositoryManifest, RepositoryManifestError>)
    ensures
        r is Ok ==> manifest_valid(r->Ok_0),
        r matches Ok(m) ==> m.limitations@.len() == limitations@.len(),
        r matches Ok(m) ==> m.locator == locator && m.entries == entries && sorted_by_order(m.limitations@)
            && m.limitations@.to_multiset() == limitations@.to_multiset()
            && m.completeness == (if truncated || !all_completed(entries@) { Completeness::Partial } else { Completeness::Complete })
            && m.digest@ == hex_seq(sha256_of(manifest_digest_message(locator, entries@, m.completeness, m.limitations@))),
        r matches Err(e) ==> e.code@ == "index-manifest-invalid"@,
{
    let ghost given = limitations@;
    let limitations = stable_sort(limitations);
    proof {
        vstd::seq_lib::to_multiset_len(given);
        vstd::seq_lib::to_multiset_len(limitations@);
    }
    let completeness = manifest_completeness(truncated, &entries);
    let digest = digest_manifest(&locator, &entries, completeness, &limitations);
    let manifest = RepositoryManifest { locator, digest, entries, completeness, limitations };
    match manifest.validate() {
        Ok(()) => Ok(manifest),
        Err(error) => {
            let reason = error.message();
            Err(RepositoryManifestError { code: String::from_str("index-manifest-invalid"), message: reason })
        },
    }
}

/// The repository manifest of an authoritative review scope, as Git
/// describes it: the scope and the locator of its candidate.
pub struct GitRepositoryManifestSource {
    pub scope_fingerprint: String,
    pub source: ReviewSource,
    pub repository_locator: RepositoryLocator,
}

/// Only an authoritative scope has a repository manifest.
pub fn require_authoritative(authoritative: bool) -> (r: Result<(), RepositoryManifestError>)
    ensures
        r is Ok <==> authoritative,
        r matches Err(e) ==> e.code@ == "index-scope-not-authoritative"@,
{
    if !authoritative {
        return Err(
            RepositoryManifestError::new(
                "index-scope-not-authoritative",
                "repository manifest requires an authoritative scope",
            ),
        );
    }
    Ok(())
}

/// Whether a source reviews the index (staged or unstaged changes).
pub open spec fn reviews_index(source: ReviewSource) -> bool {
    source == ReviewSource::Staged || source == ReviewSource::Unstaged
}

impl GitRepositoryManifestSource {
    /// The manifest source of a scope, from Git's answers: its object
    /// format, the tree of its opening commit and, for a scope that reviews
    /// the index, the index records. Refused for a scope that is not
    /// authoritative and when the resulting locator is not valid.
    pub fn new_bounded(
        authoritative: bool,
        source: ReviewSource,
        fingerprint: &str,
        object_format: String,
        base_tree: String,
        index_records: &Vec<GitManifestRecord>,
    ) -> (r: Result<Self, RepositoryManifestError>)
        ensures
            !authoritative ==> (r matches Err(e) && e.code@ == "index-scope-not-authoritative"@),
            authoritative ==> ({
                let index = if reviews_index(source) {
                    Some(hex_seq(sha256_of(index_digest_message(object_format@, index_records@))))
                } else {
                    None
                };
                &&& r matches Ok(m) ==> m.scope_fingerprint@ == fingerprint@ && m.source == source
                    && locator_valid(m.repository_locator) && m.repository_locator.source == source
                    && m.repository_locator.object_format@ == object_format@ && opt_view(
                    m.repository_locator.base_tree,
                ) == Some(base_tree@) && opt_view(m.repository_locator.index_manifest_digest) == index
                    && m.repository_locator.overlay_candidate_digest@ == hex_seq(
                    sha256_of(overlay_digest_message(source, fingerprint@, index)),
                )
                &&& r matches Err(e) ==> e.code@ == "index-locator-invalid"@
                &&& r is Ok <==> (object_id_length(object_format@) matches Some(n) && is_hex_of_len(
                    base_tree@,
                    n,
                ))
            }),
    {
        match require_authoritative(authoritative) {
            Err(e) => return Err(e),
            Ok(()) => {},
        }
        let index: Option<String> = match source {
            ReviewSource::Staged | ReviewSource::Unstaged => Some(
                digest_index_records(object_format.as_str(), index_records),
            ),
            ReviewSource::Branch => None,
        };
        let overlay = digest_overlay(source, fingerprint, &index);
        let locator = RepositoryLocator {
            source,
            object_format,
            base_tree: Some(base_tree),
            index_manifest_digest: index,
            overlay_candidate_digest: overlay,
        };
        match locator.validate() {
            Ok(()) => Ok(
                GitRepositoryManifestSource {
                    scope_fingerprint: String::from_str(fingerprint),
                    source,
                    repository_locator: locator,
                },
            ),
            Err(error) => Err(RepositoryManifestError::new("index-locator-invalid", error.message().as_str())),
        }
    }

    /// The fingerprint of the reviewed scope.
    pub fn scope_fingerprint(&self) -> (r: &str)
        ensures
            r@ == self.scope_fingerprint@,
    {
        self.scope_fingerprint.as_str()
    }

    /// The locator of the repository candidate.
    pub fn repository_locator(&self) -> (r: &RepositoryLocator)
        ensures
            *r == self.repository_locator,
    {
        &self.repository_locator
    }
}

} // verus!
