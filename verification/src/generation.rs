//! The rules around stored graph generations: where a generation lives,
//! the limits a reader works within, how a stored edge row is decoded, and
//! what the stored metadata must agree with before a generation is reused
//! or opened.
use vstd::prelude::*;
use vstd::utf8::encode_utf8;
use crate::cache::{join_path, CacheLayout, CacheLookup};
use crate::candidate::RepoPath;
use crate::contracts::{Completeness, Confidence, EdgeKind, Resolution, SourceRange};
use crate::digest::{hex_seq, sha256_hex_of_bytes, sha256_of};
use crate::graph::{digest_ok, graph_range_valid, GraphEdge, RepositoryGraphError};
use crate::integrity::{
    graph_rows_message, graph_rows_root, opt_text_equal, opt_view, texts_equal, views,
    CanonicalGraphRows,
};
use crate::model::{
    be_bytes, generation_identity_valid, generation_message, push_be, GraphGenerationIdentity,
};
use crate::normalizer::{edge_kind_name_spec, resolution_name_spec};
use crate::strings::{
    char_is_control, has_suffix, is_control_char, is_hex_with_len, str_ends_with, str_equal,
    take_prefix_chars,
};

verus! {

/// The application id stamped on every generation database.
pub const APPLICATION_ID: i32 = 1347568457;

/// The database schema of a generation.
pub const DATABASE_SCHEMA_VERSION: i32 = 1;

/// The limits a generation reader works within.
#[derive(Debug, Clone, Copy, PartialEq, Eq, Structural)]
pub struct ReaderLimits {
    pub maximum_database_bytes: u64,
    pub maximum_rows_per_query: usize,
    pub maximum_string_bytes: usize,
}

/// Whether a publish stored a new generation or found one in place.
#[derive(Debug, Clone, PartialEq, Eq)]
pub enum GraphPublishOutcome {
    Published { path: String },
    Reused { path: String },
}

/// Writes generations under a cache layout.
#[derive(Debug, Clone)]
pub struct RepositoryGraphWriter {
    layout: CacheLayout,
}

impl RepositoryGraphWriter {
    pub closed spec fn spec_layout(&self) -> CacheLayout {
        self.layout
    }

    /// A writer over `layout`.
    pub fn new(layout: CacheLayout) -> (r: Self)
        ensures
            r.spec_layout() == layout,
    {
        RepositoryGraphWriter { layout }
    }

    /// The layout the writer uses.
    pub fn layout(&self) -> (r: &CacheLayout)
        ensures
            *r == self.spec_layout(),
    {
        &self.layout
    }

    /// Where the generation of `identity` lives: its key, then `.sqlite`,
    /// in the graphs directory. Refused when the identity is invalid.
    pub fn generation_path(&self, identity: &GraphGenerationIdentity) -> (r: Result<String, RepositoryGraphError>)
        ensures
            r is Ok <==> generation_identity_valid(*identity),
            r matches Ok(p) ==> p@ == join_path(
                self.spec_layout().graphs_dir@,
                hex_seq(sha256_of(generation_message(*identity))) + ".sqlite"@,
            ),
            r matches Err(e) ==> e.code@ == "generation-identity-invalid"@,
    {
        match identity.generation_key() {
            Err(error) => {
                let mut message = String::from_str("invalid graph generation identity: ");
                let reason = error.message();
                message.append(reason.as_str());
                Err(RepositoryGraphError { code: String::from_str("generation-identity-invalid"), message })
            },
            Ok(key) => {
                let mut name = key;
                name.append(".sqlite");
                let mut path = self.layout.graphs_dir.clone();
                path.append("/");
                path.append(name.as_str());
                Ok(path)
            },
        }
    }
}

/// Limits that are all positive.
pub open spec fn reader_limits_valid(limits: ReaderLimits) -> bool {
    limits.maximum_database_bytes > 0 && limits.maximum_rows_per_query > 0 && limits.maximum_string_bytes > 0
}

/// Refuses reader limits with a zero in them.
pub fn validate_reader_limits(limits: ReaderLimits) -> (r: Result<(), RepositoryGraphError>)
    ensures
        r is Ok <==> reader_limits_valid(limits),
        r matches Err(e) ==> e.code@ == "reader-limits-invalid"@,
{
    if limits.maximum_database_bytes == 0 || limits.maximum_rows_per_query == 0 || limits.maximum_string_bytes == 0 {
        return Err(RepositoryGraphError::new("reader-limits-invalid", "reader limits must be positive"));
    }
    Ok(())
}

/// A query row limit that is positive and within the reader's.
pub fn query_row_limit_valid(limits: ReaderLimits, maximum_rows: usize) -> (r: Result<(), RepositoryGraphError>)
    ensures
        r is Ok <==> 0 < maximum_rows <= limits.maximum_rows_per_query,
        r matches Err(e) ==> e.code@ == "reader-row-limit-invalid"@,
{
    if maximum_rows == 0 || maximum_rows > limits.maximum_rows_per_query {
        return Err(RepositoryGraphError::new(
            "reader-row-limit-invalid",
            "query row limit is zero or exceeds the reader limit",
        ));
    }
    Ok(())
}

/// The key a generation file name carries: the name without `.sqlite`,
/// when that is a 64-digit lowercase hexadecimal digest.
pub open spec fn key_of_file_name(name: Seq<char>) -> Option<Seq<char>> {
    if has_suffix(name, ".sqlite"@) && digest_ok(name.take(name.len() - 7)) {
        Some(name.take(name.len() - 7))
    } else {
        None
    }
}

/// The generation key carried by a file name, if any.
pub fn generation_key_from_file_name(name: &str) -> (r: Option<String>)
    ensures
        r matches Some(k) ==> key_of_file_name(name@) == Some(k@),
        r is None ==> key_of_file_name(name@) is None,
{
    proof {
        reveal_strlit(".sqlite");
    }
    if !str_ends_with(name, ".sqlite") {
        return None;
    }
    let n = name.unicode_len();
    let key = take_prefix_chars(name, n - 7);
    if !is_hex_with_len(key.as_str(), 64) {
        return None;
    }
    Some(key)
}

/// A stored text a reader accepts: present, at most `maximum` bytes of
/// UTF-8, and free of control characters.
pub open spec fn reader_text_ok(value: Seq<char>, maximum: nat) -> bool {
    &&& value.len() > 0
    &&& encode_utf8(value).len() <= maximum
    &&& forall|i: int| 0 <= i < value.len() ==> !is_control_char(#[trigger] value[i])
}

fn has_control(value: &str) -> (r: bool)
    ensures
        r == exists|i: int| 0 <= i < value@.len() && is_control_char(#[trigger] value@[i]),
{
    let n = value.unicode_len();
    let mut i: usize = 0;
    while i < n
        invariant
            n == value@.len(),
            i <= n,
            forall|j: int| 0 <= j < i ==> !is_control_char(#[trigger] value@[j]),
        decreases n - i,
    {
        if char_is_control(value.get_char(i)) {
            assert(is_control_char(value@[i as int]));
            return true;
        }
        i = i + 1;
    }
    false
}

/// Whether a reader accepts a stored text.
pub fn bounded_reader_text(value: &str, maximum: usize) -> (r: bool)
    ensures
        r == reader_text_ok(value@, maximum as nat),
{
    if value.unicode_len() == 0 {
        return false;
    }
    if value.as_bytes().len() > maximum {
        return false;
    }
    !has_control(value)
}

/// The edge kind a stored name stands for.
pub fn parse_edge_kind(value: &str) -> (r: Result<EdgeKind, RepositoryGraphError>)
    ensures
        r matches Ok(k) ==> edge_kind_name_spec(k) == value@,
        r is Err ==> forall|k: EdgeKind| edge_kind_name_spec(k) != value@,
        r matches Err(e) ==> e.code@ == "generation-row-corrupt"@,
{
    if str_equal(value, "defines") {
        Ok(EdgeKind::Defines)
    } else if str_equal(value, "references") {
        Ok(EdgeKind::References)
    } else if str_equal(value, "imports") {
        Ok(EdgeKind::Imports)
    } else if str_equal(value, "exports") {
        Ok(EdgeKind::Exports)
    } else if str_equal(value, "calls") {
        Ok(EdgeKind::Calls)
    } else if str_equal(value, "implements") {
        Ok(EdgeKind::Implements)
    } else if str_equal(value, "overrides") {
        Ok(EdgeKind::Overrides)
    } else {
        Err(row_corrupt())
    }
}

/// The resolution a stored name stands for.
pub fn parse_resolution(value: &str) -> (r: Result<Resolution, RepositoryGraphError>)
    ensures
        r matches Ok(k) ==> resolution_name_spec(k) == value@,
        r is Err ==> forall|k: Resolution| resolution_name_spec(k) != value@,
        r matches Err(e) ==> e.code@ == "generation-row-corrupt"@,
{
    if str_equal(value, "syntactic") {
        Ok(Resolution::Syntactic)
    } else if str_equal(value, "lexical") {
        Ok(Resolution::Lexical)
    } else if str_equal(value, "resolved-reference") {
        Ok(Resolution::ResolvedReference)
    } else if str_equal(value, "semantic") {
        Ok(Resolution::Semantic)
    } else if str_equal(value, "polymorphic-candidate") {
        Ok(Resolution::PolymorphicCandidate)
    } else if str_equal(value, "unresolved") {
        Ok(Resolution::Unresolved)
    } else {
        Err(row_corrupt())
    }
}

/// The stored name of a confidence.
pub open spec fn confidence_name_spec(c: Confidence) -> Seq<char> {
    match c {
        Confidence::High => "high"@,
        Confidence::Medium => "medium"@,
        Confidence::Low => "low"@,
    }
}

/// The confidence a stored name stands for.
pub fn parse_confidence(value: &str) -> (r: Result<Confidence, RepositoryGraphError>)
    ensures
        r matches Ok(k) ==> confidence_name_spec(k) == value@,
        r is Err ==> forall|k: Confidence| confidence_name_spec(k) != value@,
        r matches Err(e) ==> e.code@ == "generation-row-corrupt"@,
{
    if str_equal(value, "high") {
        Ok(Confidence::High)
    } else if str_equal(value, "medium") {
        Ok(Confidence::Medium)
    } else if str_equal(value, "low") {
        Ok(Confidence::Low)
    } else {
        Err(row_corrupt())
    }
}

fn row_corrupt() -> (r: RepositoryGraphError)
    ensures
        r.code@ == "generation-row-corrupt"@,
{
    RepositoryGraphError::new("generation-row-corrupt", "repository graph row violates the strict schema")
}

/// The bytes hashed to name the stored limitation at `index`.
pub open spec fn limitation_id_message(index: nat, canonical: Seq<char>) -> Seq<u8> {
    encode_utf8("repository-graph-limitation/v1"@) + be_bytes(index, 8) + be_bytes(
        encode_utf8(canonical).len(),
        8,
    ) + encode_utf8(canonical)
}

fn push_bytes(out: &mut Vec<u8>, bytes: &[u8])
    ensures
        final(out)@ == old(out)@ + bytes@,
{
    let ghost start = out@;
    let mut i: usize = 0;
    while i < bytes.len()
        invariant
            i <= bytes@.len(),
            out@ == start + bytes@.take(i as int),
        decreases bytes@.len() - i,
    {
        out.push(bytes[i]);
        assert(bytes@.take(i + 1) =~= bytes@.take(i as int).push(bytes@[i as int]));
        i = i + 1;
    }
    assert(bytes@.take(bytes@.len() as int) =~= bytes@);
}

/// The id of the stored limitation at `index` with canonical row
/// `canonical`.
pub fn limitation_id(index: usize, canonical: &str) -> (r: String)
    ensures
        r@ == hex_seq(sha256_of(limitation_id_message(index as nat, canonical@))),
{
    let mut message: Vec<u8> = Vec::new();
    push_bytes(&mut message, "repository-graph-limitation/v1".as_bytes());
    push_be(&mut message, index as u64, 8);
    let bytes = canonical.as_bytes();
    push_be(&mut message, bytes.len() as u64, 8);
    push_bytes(&mut message, bytes);
    assert(message@ =~= limitation_id_message(index as nat, canonical@));
    sha256_hex_of_bytes(message.as_slice())
}

/// A count as a SQLite integer; refused beyond its range.
pub fn sqlite_integer(value: usize, field: &str) -> (r: Result<i64, RepositoryGraphError>)
    ensures
        r is Ok <==> value <= i64::MAX,
        r matches Ok(v) ==> v == value,
        r matches Err(e) ==> e.code@ == "generation-integer-overflow"@,
{
    if value as u64 > i64::MAX as u64 {
        let mut message = String::from_str(field);
        message.append(" exceeds SQLite integer range");
        return Err(RepositoryGraphError { code: String::from_str("generation-integer-overflow"), message });
    }
    Ok(value as i64)
}

/// One stored edge row as SQLite returned it: each text column `None` when
/// it did not hold text, each nullable column `Some(None)` when it held NULL.
#[derive(Debug, Clone, PartialEq, Eq)]
pub struct EdgeRow {
    pub edge_id: Option<String>,
    pub kind: Option<String>,
    pub from_symbol: Option<String>,
    pub to_symbol: Option<Option<String>>,
    pub unresolved_target: Option<Option<String>>,
    pub path: Option<String>,
    pub start_line: Option<i64>,
    pub start_column: Option<i64>,
    pub end_line: Option<i64>,
    pub end_column: Option<i64>,
    pub start_byte: Option<i64>,
    pub end_byte: Option<i64>,
    pub provider_id: Option<String>,
    pub provider_version: Option<String>,
    pub resolution: Option<String>,
    pub confidence: Option<String>,
    pub limitation_code: Option<Option<String>>,
    pub canonical: Option<String>,
}

/// A required text column that a reader accepts.
pub open spec fn text_column_ok(c: Option<String>, maximum: nat) -> bool {
    c matches Some(v) && reader_text_ok(v@, maximum)
}

/// A nullable text column that a reader accepts.
pub open spec fn optional_column_ok(c: Option<Option<String>>, maximum: nat) -> bool {
    c matches Some(o) && (o matches Some(v) ==> reader_text_ok(v@, maximum))
}

/// An integer column that fits `u32`.
pub open spec fn u32_column_ok(c: Option<i64>) -> bool {
    c matches Some(v) && 0 <= v <= u32::MAX
}

/// An integer column that fits `usize`.
pub open spec fn usize_column_ok(c: Option<i64>) -> bool {
    c matches Some(v) && 0 <= v && v <= usize::MAX
}

/// The range a valid edge row stores.
pub open spec fn row_range(row: EdgeRow) -> SourceRange {
    SourceRange {
        start_line: row.start_line->0 as u32,
        start_column: row.start_column->0 as u32,
        end_line: row.end_line->0 as u32,
        end_column: row.end_column->0 as u32,
        start_byte: row.start_byte->0 as usize,
        end_byte: row.end_byte->0 as usize,
    }
}

/// Whether some edge kind, resolution and confidence carry these names.
pub open spec fn names_known(row: EdgeRow) -> bool {
    &&& exists|k: EdgeKind| edge_kind_name_spec(k) == row.kind->0@
    &&& exists|k: Resolution| resolution_name_spec(k) == row.resolution->0@
    &&& exists|k: Confidence| confidence_name_spec(k) == row.confidence->0@
}

/// The columns of an edge row are well formed: bounded texts, integers in
/// range, digests, exactly one target, a valid range, path and names.
pub open spec fn edge_row_valid(row: EdgeRow, limits: ReaderLimits) -> bool {
    let m = limits.maximum_string_bytes as nat;
    &&& text_column_ok(row.edge_id, m)
    &&& text_column_ok(row.kind, m)
    &&& text_column_ok(row.from_symbol, m)
    &&& optional_column_ok(row.to_symbol, m)
    &&& optional_column_ok(row.unresolved_target, m)
    &&& text_column_ok(row.path, m)
    &&& u32_column_ok(row.start_line)
    &&& u32_column_ok(row.start_column)
    &&& u32_column_ok(row.end_line)
    &&& u32_column_ok(row.end_column)
    &&& usize_column_ok(row.start_byte)
    &&& usize_column_ok(row.end_byte)
    &&& text_column_ok(row.provider_id, m)
    &&& text_column_ok(row.provider_version, m)
    &&& text_column_ok(row.resolution, m)
    &&& text_column_ok(row.confidence, m)
    &&& optional_column_ok(row.limitation_code, m)
    &&& text_column_ok(row.canonical, sixteen_times(m))
    &&& digest_ok(row.edge_id->0@)
    &&& digest_ok(row.from_symbol->0@)
    &&& (row.to_symbol->0 matches Some(t) ==> digest_ok(t@))
    &&& (row.to_symbol->0 is Some) != (row.unresolved_target->0 is Some)
    &&& graph_range_valid(row_range(row))
    &&& crate::candidate::repo_path_valid(row.path->0@)
    &&& names_known(row)
}

/// An edge that agrees with a row, field by field.
pub open spec fn edge_matches_row(e: GraphEdge, row: EdgeRow) -> bool {
    &&& e.edge_id@ == row.edge_id->0@
    &&& edge_kind_name_spec(e.kind) == row.kind->0@
    &&& e.from_symbol@ == row.from_symbol->0@
    &&& opt_view(e.to_symbol) == opt_view(row.to_symbol->0)
    &&& opt_view(e.unresolved_target) == opt_view(row.unresolved_target->0)
    &&& e.path@ == row.path->0@
    &&& e.range == row_range(row)
    &&& e.provider_id@ == row.provider_id->0@
    &&& e.provider_version@ == row.provider_version->0@
    &&& resolution_name_spec(e.resolution) == row.resolution->0@
    &&& confidence_name_spec(e.confidence) == row.confidence->0@
    &&& opt_view(e.limitation_code) == opt_view(row.limitation_code->0)
}

/// Two edges with the same fields, texts by their characters.
pub open spec fn same_edge(a: GraphEdge, b: GraphEdge) -> bool {
    &&& a.edge_id@ == b.edge_id@
    &&& a.kind == b.kind
    &&& a.from_symbol@ == b.from_symbol@
    &&& opt_view(a.to_symbol) == opt_view(b.to_symbol)
    &&& opt_view(a.unresolved_target) == opt_view(b.unresolved_target)
    &&& a.path@ == b.path@
    &&& a.range == b.range
    &&& a.provider_id@ == b.provider_id@
    &&& a.provider_version@ == b.provider_version@
    &&& a.resolution == b.resolution
    &&& a.confidence == b.confidence
    &&& opt_view(a.limitation_code) == opt_view(b.limitation_code)
}

/// Whether two edges are the same.
pub fn edges_equal(a: &GraphEdge, b: &GraphEdge) -> (r: bool)
    ensures
        r == same_edge(*a, *b),
{
    str_equal(a.edge_id.as_str(), b.edge_id.as_str()) && a.kind == b.kind && str_equal(
        a.from_symbol.as_str(),
        b.from_symbol.as_str(),
    ) && opt_text_equal(&a.to_symbol, &b.to_symbol) && opt_text_equal(
        &a.unresolved_target,
        &b.unresolved_target,
    ) && str_equal(a.path.as_str(), b.path.as_str()) && a.range == b.range && str_equal(
        a.provider_id.as_str(),
        b.provider_id.as_str(),
    ) && str_equal(a.provider_version.as_str(), b.provider_version.as_str()) && a.resolution
        == b.resolution && a.confidence == b.confidence && opt_text_equal(
        &a.limitation_code,
        &b.limitation_code,
    )
}

/// Sixteen times `m`, saturated at the largest `usize`.
pub open spec fn sixteen_times(m: nat) -> nat {
    if m * 16 > usize::MAX {
        usize::MAX as nat
    } else {
        m * 16
    }
}

fn times_sixteen(m: usize) -> (r: usize)
    ensures
        r == sixteen_times(m as nat),
{
    if m > usize::MAX / 16 {
        usize::MAX
    } else {
        m * 16
    }
}

fn take_text(column: Option<String>, maximum: usize) -> (r: Result<String, RepositoryGraphError>)
    ensures
        r is Ok <==> text_column_ok(column, maximum as nat),
        r matches Ok(v) ==> v@ == column->0@,
        r matches Err(e) ==> e.code@ == "generation-row-corrupt"@,
{
    match column {
        Some(v) => if bounded_reader_text(v.as_str(), maximum) {
            Ok(v)
        } else {
            Err(row_corrupt())
        },
        None => Err(row_corrupt()),
    }
}

fn take_optional(column: Option<Option<String>>, maximum: usize) -> (r: Result<Option<String>, RepositoryGraphError>)
    ensures
        r is Ok <==> optional_column_ok(column, maximum as nat),
        r matches Ok(v) ==> opt_view(v) == opt_view(column->0),
        r matches Err(e) ==> e.code@ == "generation-row-corrupt"@,
{
    match column {
        Some(Some(v)) => if bounded_reader_text(v.as_str(), maximum) {
            Ok(Some(v))
        } else {
            Err(row_corrupt())
        },
        Some(None) => Ok(None),
        None => Err(row_corrupt()),
    }
}

fn take_u32(column: Option<i64>) -> (r: Result<u32, RepositoryGraphError>)
    ensures
        r is Ok <==> u32_column_ok(column),
        r matches Ok(v) ==> v == column->0,
        r matches Err(e) ==> e.code@ == "generation-row-corrupt"@,
{
    match column {
        Some(v) => if 0 <= v && v <= 4294967295i64 {
            Ok(v as u32)
        } else {
            Err(row_corrupt())
        },
        None => Err(row_corrupt()),
    }
}

fn take_usize(column: Option<i64>) -> (r: Result<usize, RepositoryGraphError>)
    ensures
        r is Ok <==> usize_column_ok(column),
        r matches Ok(v) ==> v == column->0,
        r matches Err(e) ==> e.code@ == "generation-row-corrupt"@,
{
    match column {
        Some(v) => if 0 <= v && (v as u64) <= (usize::MAX as u64) {
            Ok(v as usize)
        } else {
            Err(row_corrupt())
        },
        None => Err(row_corrupt()),
    }
}

/// Decodes a stored edge row. The row must be well formed and agree with
/// `canonical`, the edge its canonical JSON column describes (`None` when
/// that column did not parse); every failure is a corrupt row.
#[verifier::rlimit(60)]
pub fn decode_edge_row(row: EdgeRow, limits: ReaderLimits, canonical: Option<GraphEdge>) -> (r: Result<GraphEdge, RepositoryGraphError>)
    ensures
        r is Ok <==> edge_row_valid(row, limits) && (canonical matches Some(c) && edge_matches_row(c, row)),
        r matches Ok(e) ==> edge_matches_row(e, row),
        r matches Err(e) ==> e.code@ == "generation-row-corrupt"@,
{
    let ghost given_row = row;
    let m = limits.maximum_string_bytes;
    let wide = times_sixteen(m);
    let EdgeRow {
        edge_id,
        kind,
        from_symbol,
        to_symbol,
        unresolved_target,
        path,
        start_line,
        start_column,
        end_line,
        end_column,
        start_byte,
        end_byte,
        provider_id,
        provider_version,
        resolution,
        confidence,
        limitation_code,
        canonical: canonical_text,
    } = row;
    let edge_id = match take_text(edge_id, m) { Ok(v) => v, Err(e) => return Err(e) };
    let kind_text = match take_text(kind, m) { Ok(v) => v, Err(e) => return Err(e) };
    let from_symbol = match take_text(from_symbol, m) { Ok(v) => v, Err(e) => return Err(e) };
    let to_symbol = match take_optional(to_symbol, m) { Ok(v) => v, Err(e) => return Err(e) };
    let unresolved_target = match take_optional(unresolved_target, m) { Ok(v) => v, Err(e) => return Err(e) };
    let path_text = match take_text(path, m) { Ok(v) => v, Err(e) => return Err(e) };
    let start_line = match take_u32(start_line) { Ok(v) => v, Err(e) => return Err(e) };
    let start_column = match take_u32(start_column) { Ok(v) => v, Err(e) => return Err(e) };
    let end_line = match take_u32(end_line) { Ok(v) => v, Err(e) => return Err(e) };
    let end_column = match take_u32(end_column) { Ok(v) => v, Err(e) => return Err(e) };
    let start_byte = match take_usize(start_byte) { Ok(v) => v, Err(e) => return Err(e) };
    let end_byte = match take_usize(end_byte) { Ok(v) => v, Err(e) => return Err(e) };
    let provider_id = match take_text(provider_id, m) { Ok(v) => v, Err(e) => return Err(e) };
    let provider_version = match take_text(provider_version, m) { Ok(v) => v, Err(e) => return Err(e) };
    let resolution_text = match take_text(resolution, m) { Ok(v) => v, Err(e) => return Err(e) };
    let confidence_text = match take_text(confidence, m) { Ok(v) => v, Err(e) => return Err(e) };
    let limitation_code = match take_optional(limitation_code, m) { Ok(v) => v, Err(e) => return Err(e) };
    if let Err(e) = take_text(canonical_text, wide) {
        return Err(e);
    }
    let range = SourceRange { start_line, start_column, end_line, end_column, start_byte, end_byte };
    assert(range == row_range(given_row));
    if !is_hex_with_len(edge_id.as_str(), 64) || !is_hex_with_len(from_symbol.as_str(), 64) {
        return Err(row_corrupt());
    }
    if let Some(target) = &to_symbol {
        if !is_hex_with_len(target.as_str(), 64) {
            return Err(row_corrupt());
        }
    }
    if to_symbol.is_some() == unresolved_target.is_some() {
        return Err(row_corrupt());
    }
    if range.start_line == 0 || range.start_column == 0 || range.end_line == 0
        || range.end_column == 0 || range.start_line > range.end_line || (range.start_line
        == range.end_line && range.start_column > range.end_column) || range.start_byte
        > range.end_byte {
        return Err(row_corrupt());
    }
    let path = match RepoPath::new(path_text) { Ok(p) => p, Err(_) => return Err(row_corrupt()) };
    let kind = match parse_edge_kind(kind_text.as_str()) { Ok(k) => k, Err(e) => return Err(e) };
    let resolution = match parse_resolution(resolution_text.as_str()) { Ok(k) => k, Err(e) => return Err(e) };
    let confidence = match parse_confidence(confidence_text.as_str()) { Ok(k) => k, Err(e) => return Err(e) };
    let edge = GraphEdge {
        edge_id,
        kind,
        from_symbol,
        to_symbol,
        unresolved_target,
        path,
        range,
        provider_id,
        provider_version,
        resolution,
        confidence,
        limitation_code,
    };
    assert(edge_matches_row(edge, given_row));
    match canonical {
        None => Err(row_corrupt()),
        Some(c) => {
            if edges_equal(&c, &edge) {
                proof {
                    lemma_names_injective();
                }
                Ok(edge)
            } else {
                proof {
                    lemma_names_injective();
                }
                Err(row_corrupt())
            }
        },
    }
}

/// The stored names of kinds, resolutions and confidences are distinct.
pub proof fn lemma_names_injective()
    ensures
        forall|a: EdgeKind, b: EdgeKind| edge_kind_name_spec(a) == edge_kind_name_spec(b) ==> a == b,
        forall|a: Resolution, b: Resolution| resolution_name_spec(a) == resolution_name_spec(b) ==> a == b,
        forall|a: Confidence, b: Confidence| confidence_name_spec(a) == confidence_name_spec(b) ==> a == b,
{
    reveal_strlit("defines");
    reveal_strlit("references");
    reveal_strlit("imports");
    reveal_strlit("exports");
    reveal_strlit("calls");
    reveal_strlit("implements");
    reveal_strlit("overrides");
    reveal_strlit("syntactic");
    reveal_strlit("lexical");
    reveal_strlit("resolved-reference");
    reveal_strlit("semantic");
    reveal_strlit("polymorphic-candidate");
    reveal_strlit("unresolved");
    reveal_strlit("high");
    reveal_strlit("medium");
    reveal_strlit("low");
    assert forall|a: EdgeKind, b: EdgeKind| edge_kind_name_spec(a) == edge_kind_name_spec(b) implies a == b by {
        if a != b {
            assert(edge_kind_name_spec(a).len() != edge_kind_name_spec(b).len() || edge_kind_name_spec(a)[0] != edge_kind_name_spec(b)[0] || edge_kind_name_spec(a)[1] != edge_kind_name_spec(b)[1]);
        }
    }
    assert forall|a: Resolution, b: Resolution| resolution_name_spec(a) == resolution_name_spec(b) implies a == b by {
        if a != b {
            assert(resolution_name_spec(a).len() != resolution_name_spec(b).len() || resolution_name_spec(a)[0] != resolution_name_spec(b)[0]);
        }
    }
    assert forall|a: Confidence, b: Confidence| confidence_name_spec(a) == confidence_name_spec(b) implies a == b by {
        if a != b {
            assert(confidence_name_spec(a)[0] != confidence_name_spec(b)[0]);
        }
    }
}

/// The metadata row of a stored generation.
#[derive(Debug, Clone, PartialEq, Eq)]
pub struct GenerationMeta {
    pub schema_version: i32,
    pub generation_key: String,
    pub identity_json: String,
    pub completeness: String,
    pub file_count: i64,
    pub module_count: i64,
    pub symbol_count: i64,
    pub edge_count: i64,
    pub limitation_count: i64,
    pub application_root: String,
}

/// The row counts of the five tables of a generation.
#[derive(Debug, Clone, Copy, PartialEq, Eq, Structural)]
pub struct TableCounts {
    pub files: i64,
    pub modules: i64,
    pub symbols: i64,
    pub edges: i64,
    pub limitations: i64,
}

fn invalid_generation(code: &str) -> (r: RepositoryGraphError)
    ensures
        r.code@ == code@,
{
    RepositoryGraphError::new(code, code)
}

/// The header of a generation database: its application id and schema.
pub fn check_generation_header(application_id: i32, user_version: i32) -> (r: Result<(), RepositoryGraphError>)
    ensures
        r is Ok <==> application_id == APPLICATION_ID && user_version == DATABASE_SCHEMA_VERSION,
        application_id != APPLICATION_ID ==> (r matches Err(e) && e.code@ == "generation-application-id-mismatch"@),
        application_id == APPLICATION_ID && user_version != DATABASE_SCHEMA_VERSION
            ==> (r matches Err(e) && e.code@ == "generation-schema-version-mismatch"@),
{
    if application_id != APPLICATION_ID {
        return Err(invalid_generation("generation-application-id-mismatch"));
    }
    if user_version != DATABASE_SCHEMA_VERSION {
        return Err(invalid_generation("generation-schema-version-mismatch"));
    }
    Ok(())
}

/// The stored metadata agrees with what was written: the schema, the
/// generation key of `identity`, and the canonical identity and
/// completeness rows.
pub open spec fn meta_agrees(identity: GraphGenerationIdentity, expected: CanonicalGraphRows, meta: GenerationMeta) -> bool {
    &&& meta.schema_version == DATABASE_SCHEMA_VERSION
    &&& meta.generation_key@ == hex_seq(sha256_of(generation_message(identity)))
    &&& meta.identity_json@ == expected.identity@
    &&& meta.completeness@ == expected.completeness@
}

/// Checks a written generation's metadata against what was written.
pub fn check_generation_meta(
    identity: &GraphGenerationIdentity,
    expected: &CanonicalGraphRows,
    meta: &GenerationMeta,
) -> (r: Result<(), RepositoryGraphError>)
    ensures
        r is Ok <==> generation_identity_valid(*identity) && meta_agrees(*identity, *expected, *meta),
        !generation_identity_valid(*identity) ==> (r matches Err(e) && e.code@ == "generation-identity-invalid"@),
        generation_identity_valid(*identity) && !meta_agrees(*identity, *expected, *meta)
            ==> (r matches Err(e) && e.code@ == "generation-metadata-mismatch"@),
{
    let key = match identity.generation_key() {
        Ok(k) => k,
        Err(error) => {
            let reason = error.message();
            return Err(RepositoryGraphError { code: String::from_str("generation-identity-invalid"), message: reason });
        },
    };
    if meta.schema_version != DATABASE_SCHEMA_VERSION || !str_equal(meta.generation_key.as_str(), key.as_str())
        || !str_equal(meta.identity_json.as_str(), expected.identity.as_str()) || !str_equal(
        meta.completeness.as_str(),
        expected.completeness.as_str(),
    ) {
        return Err(invalid_generation("generation-metadata-mismatch"));
    }
    Ok(())
}

/// The stored and counted rows of one table agree with what was written.
pub open spec fn count_agrees(stored: i64, counted: i64, expected: nat) -> bool {
    stored >= 0 && stored == expected && counted >= 0 && counted == expected
}

/// The code for a table whose counts do not agree, if any.
pub open spec fn count_failure(stored: i64, counted: i64, expected: nat) -> Option<Seq<char>> {
    if stored < 0 {
        Some("generation-count-invalid"@)
    } else if stored != expected {
        Some("generation-count-mismatch"@)
    } else if counted < 0 {
        Some("generation-count-invalid"@)
    } else if counted != expected {
        Some("generation-count-mismatch"@)
    } else {
        None
    }
}

fn check_count(stored: i64, counted: i64, expected: usize) -> (r: Result<(), RepositoryGraphError>)
    ensures
        r is Ok <==> count_failure(stored, counted, expected as nat) is None,
        r matches Err(e) ==> count_failure(stored, counted, expected as nat) == Some(e.code@),
{
    if stored < 0 {
        return Err(invalid_generation("generation-count-invalid"));
    }
    if stored as u64 != expected as u64 {
        return Err(invalid_generation("generation-count-mismatch"));
    }
    if counted < 0 {
        return Err(invalid_generation("generation-count-invalid"));
    }
    if counted as u64 != expected as u64 {
        return Err(invalid_generation("generation-count-mismatch"));
    }
    Ok(())
}

/// Every table's stored and counted rows agree with the rows written.
pub open spec fn counts_agree(expected: CanonicalGraphRows, meta: GenerationMeta, counted: TableCounts) -> bool {
    &&& count_failure(meta.file_count, counted.files, expected.files@.len()) is None
    &&& count_failure(meta.module_count, counted.modules, expected.modules@.len()) is None
    &&& count_failure(meta.symbol_count, counted.symbols, expected.symbols@.len()) is None
    &&& count_failure(meta.edge_count, counted.edges, expected.edges@.len()) is None
    &&& count_failure(meta.limitation_count, counted.limitations, expected.limitations@.len()) is None
}

/// Checks the row counts of a written generation, table by table.
pub fn check_generation_counts(
    expected: &CanonicalGraphRows,
    meta: &GenerationMeta,
    counted: TableCounts,
) -> (r: Result<(), RepositoryGraphError>)
    ensures
        r is Ok <==> counts_agree(*expected, *meta, counted),
        r matches Err(e) ==> e.code@ == "generation-count-invalid"@ || e.code@ == "generation-count-mismatch"@,
{
    if let Err(e) = check_count(meta.file_count, counted.files, expected.files.len()) {
        return Err(e);
    }
    if let Err(e) = check_count(meta.module_count, counted.modules, expected.modules.len()) {
        return Err(e);
    }
    if let Err(e) = check_count(meta.symbol_count, counted.symbols, expected.symbols.len()) {
        return Err(e);
    }
    if let Err(e) = check_count(meta.edge_count, counted.edges, expected.edges.len()) {
        return Err(e);
    }
    check_count(meta.limitation_count, counted.limitations, expected.limitations.len())
}

/// Two sets of canonical rows with the same texts.
pub open spec fn same_rows(a: CanonicalGraphRows, b: CanonicalGraphRows) -> bool {
    &&& a.identity@ == b.identity@
    &&& a.completeness@ == b.completeness@
    &&& views(a.files@) == views(b.files@)
    &&& views(a.modules@) == views(b.modules@)
    &&& views(a.symbols@) == views(b.symbols@)
    &&& views(a.edges@) == views(b.edges@)
    &&& views(a.limitations@) == views(b.limitations@)
}

/// Whether two sets of canonical rows are the same.
pub fn rows_equal(a: &CanonicalGraphRows, b: &CanonicalGraphRows) -> (r: bool)
    ensures
        r == same_rows(*a, *b),
{
    str_equal(a.identity.as_str(), b.identity.as_str()) && str_equal(
        a.completeness.as_str(),
        b.completeness.as_str(),
    ) && texts_equal(&a.files, &b.files) && texts_equal(&a.modules, &b.modules) && texts_equal(
        &a.symbols,
        &b.symbols,
    ) && texts_equal(&a.edges, &b.edges) && texts_equal(&a.limitations, &b.limitations)
}

/// Checks the rows read back from a written generation: the same rows as
/// written, under the stored application root, with no foreign-key
/// violation and an integrity check that says `ok`.
pub fn check_generation_rows(
    expected: &CanonicalGraphRows,
    actual: &CanonicalGraphRows,
    stored_root: &str,
    foreign_key_violation: bool,
    integrity: &str,
) -> (r: Result<(), RepositoryGraphError>)
    ensures
        r is Ok <==> same_rows(*actual, *expected) && hex_seq(sha256_of(graph_rows_message(*actual)))
            == stored_root@ && !foreign_key_violation && integrity@ == "ok"@,
        !(same_rows(*actual, *expected) && hex_seq(sha256_of(graph_rows_message(*actual))) == stored_root@)
            ==> (r matches Err(e) && e.code@ == "generation-application-root-mismatch"@),
{
    if !rows_equal(actual, expected) {
        return Err(invalid_generation("generation-application-root-mismatch"));
    }
    let root = graph_rows_root(actual);
    if !str_equal(root.as_str(), stored_root) {
        return Err(invalid_generation("generation-application-root-mismatch"));
    }
    if foreign_key_violation {
        return Err(invalid_generation("generation-foreign-key-mismatch"));
    }
    if !str_equal(integrity, "ok") {
        return Err(invalid_generation("generation-integrity-check-failed"));
    }
    Ok(())
}

/// Why a generation could not be opened: stale (written for something
/// else) or corrupt, with a code.
#[derive(Debug, Clone, PartialEq, Eq)]
pub enum ReaderValidationError {
    Stale(String),
    Corrupt(String),
}

fn reader_corrupt(code: &str) -> (r: ReaderValidationError)
    ensures
        r matches ReaderValidationError::Corrupt(c) && c@ == code@,
{
    ReaderValidationError::Corrupt(String::from_str(code))
}

/// The tables a generation holds, by name.
pub open spec fn expected_tables() -> Set<Seq<char>> {
    set!["edges"@, "files"@, "generation_meta"@, "limitations"@, "modules"@, "symbols"@]
}

/// The indexes a generation holds, by name.
pub open spec fn expected_indexes() -> Set<Seq<char>> {
    set!["edges_from_kind_id"@, "edges_path_id"@, "edges_to_kind_id"@, "symbols_module_name"@, "symbols_path_id"@]
}

/// The texts of a list of names.
pub open spec fn name_views(v: Seq<&str>) -> Seq<Seq<char>> {
    Seq::new(v.len(), |j: int| v[j]@)
}

fn list_has(wanted: &Vec<&str>, name: &str) -> (r: bool)
    ensures
        r == name_views(wanted@).contains(name@),
{
    let mut j: usize = 0;
    while j < wanted.len()
        invariant
            j <= wanted@.len(),
            forall|t: int| 0 <= t < j ==> name_views(wanted@)[t] != name@,
        decreases wanted@.len() - j,
    {
        if str_equal(wanted[j], name) {
            assert(name_views(wanted@)[j as int] == name@);
            return true;
        }
        j = j + 1;
    }
    false
}

fn names_has(names: &Vec<String>, name: &str) -> (r: bool)
    ensures
        r == views(names@).contains(name@),
{
    let mut j: usize = 0;
    while j < names.len()
        invariant
            j <= names@.len(),
            forall|t: int| 0 <= t < j ==> views(names@)[t] != name@,
        decreases names@.len() - j,
    {
        if str_equal(names[j].as_str(), name) {
            assert(views(names@)[j as int] == name@);
            return true;
        }
        j = j + 1;
    }
    false
}

/// Whether the names are exactly the wanted set.
fn same_names(names: &Vec<String>, wanted: &Vec<&str>) -> (r: bool)
    ensures
        r == (views(names@).to_set() == name_views(wanted@).to_set()),
{
    let ghost nv = views(names@);
    let ghost w = name_views(wanted@);
    let mut i: usize = 0;
    while i < names.len()
        invariant
            i <= names@.len(),
            nv == views(names@),
            w == name_views(wanted@),
            forall|k: int| 0 <= k < i ==> w.contains(#[trigger] nv[k]),
        decreases names@.len() - i,
    {
        if !list_has(wanted, names[i].as_str()) {
            proof {
                assert(nv.to_set().contains(nv[i as int]));
                assert(!w.to_set().contains(nv[i as int]));
            }
            return false;
        }
        i = i + 1;
    }
    let mut j: usize = 0;
    while j < wanted.len()
        invariant
            j <= wanted@.len(),
            nv == views(names@),
            w == name_views(wanted@),
            forall|k: int| 0 <= k < j ==> nv.contains(#[trigger] w[k]),
        decreases wanted@.len() - j,
    {
        if !names_has(names, wanted[j]) {
            proof {
                assert(w.to_set().contains(w[j as int]));
                assert(!nv.to_set().contains(w[j as int]));
            }
            return false;
        }
        j = j + 1;
    }
    proof {
        assert forall|x: Seq<char>| nv.to_set().contains(x) <==> w.to_set().contains(x) by {
            if nv.contains(x) {
                let k = choose|k: int| 0 <= k < nv.len() && nv[k] == x;
                assert(w.contains(nv[k]));
            }
            if w.contains(x) {
                let k = choose|k: int| 0 <= k < w.len() && w[k] == x;
                assert(nv.contains(w[k]));
            }
        }
        assert(nv.to_set() =~= w.to_set());
    }
    true
}

/// Checks that a generation holds exactly the expected tables and indexes;
/// `None` stands for a listing that could not be read.
pub fn check_reader_schema(tables: &Option<Vec<String>>, indexes: &Option<Vec<String>>) -> (r: Result<(), ReaderValidationError>)
    ensures
        r is Ok <==> (tables matches Some(t) && views(t@).to_set() == expected_tables()) && (
        indexes matches Some(x) && views(x@).to_set() == expected_indexes()),
        r matches Err(e) ==> e is Corrupt,
{
    let table_names: Vec<&str> = vec!["edges", "files", "generation_meta", "limitations", "modules", "symbols"];
    let index_names: Vec<&str> = vec![
        "edges_from_kind_id",
        "edges_path_id",
        "edges_to_kind_id",
        "symbols_module_name",
        "symbols_path_id",
    ];
    proof {
        let w = name_views(table_names@);
        assert(w =~= seq!["edges"@, "files"@, "generation_meta"@, "limitations"@, "modules"@, "symbols"@]);
        assert(w.to_set() =~= expected_tables()) by {
            assert forall|x: Seq<char>| w.to_set().contains(x) <==> expected_tables().contains(x) by {
                if expected_tables().contains(x) {
                    if x == "edges"@ { assert(w[0] == x); }
                    else if x == "files"@ { assert(w[1] == x); }
                    else if x == "generation_meta"@ { assert(w[2] == x); }
                    else if x == "limitations"@ { assert(w[3] == x); }
                    else if x == "modules"@ { assert(w[4] == x); }
                    else { assert(w[5] == x); }
                }
            }
        }
        let v = name_views(index_names@);
        assert(v =~= seq!["edges_from_kind_id"@, "edges_path_id"@, "edges_to_kind_id"@, "symbols_module_name"@, "symbols_path_id"@]);
        assert(v.to_set() =~= expected_indexes()) by {
            assert forall|x: Seq<char>| v.to_set().contains(x) <==> expected_indexes().contains(x) by {
                if expected_indexes().contains(x) {
                    if x == "edges_from_kind_id"@ { assert(v[0] == x); }
                    else if x == "edges_path_id"@ { assert(v[1] == x); }
                    else if x == "edges_to_kind_id"@ { assert(v[2] == x); }
                    else if x == "symbols_module_name"@ { assert(v[3] == x); }
                    else { assert(v[4] == x); }
                }
            }
        }
    }
    match tables {
        None => return Err(reader_corrupt("generation-schema-invalid")),
        Some(t) => if !same_names(t, &table_names) {
            return Err(reader_corrupt("generation-schema-invalid"));
        },
    }
    match indexes {
        None => Err(reader_corrupt("generation-index-invalid")),
        Some(x) => if !same_names(x, &index_names) {
            Err(reader_corrupt("generation-index-invalid"))
        } else {
            Ok(())
        },
    }
}

/// Two identities with the same version and digests.
pub open spec fn same_identity(a: GraphGenerationIdentity, b: GraphGenerationIdentity) -> bool {
    &&& a.graph_schema_version == b.graph_schema_version
    &&& a.candidate_manifest_digest@ == b.candidate_manifest_digest@
    &&& a.project_model_digest@ == b.project_model_digest@
    &&& a.resolver_digest@ == b.resolver_digest@
    &&& a.adapter_query_digest@ == b.adapter_query_digest@
    &&& a.file_facts_manifest_digest@ == b.file_facts_manifest_digest@
    &&& a.normalization_rules_digest@ == b.normalization_rules_digest@
}

/// Whether two identities are the same.
pub fn identities_equal(a: &GraphGenerationIdentity, b: &GraphGenerationIdentity) -> (r: bool)
    ensures
        r == same_identity(*a, *b),
{
    a.graph_schema_version == b.graph_schema_version && str_equal(
        a.candidate_manifest_digest.as_str(),
        b.candidate_manifest_digest.as_str(),
    ) && str_equal(a.project_model_digest.as_str(), b.project_model_digest.as_str()) && str_equal(
        a.resolver_digest.as_str(),
        b.resolver_digest.as_str(),
    ) && str_equal(a.adapter_query_digest.as_str(), b.adapter_query_digest.as_str()) && str_equal(
        a.file_facts_manifest_digest.as_str(),
        b.file_facts_manifest_digest.as_str(),
    ) && str_equal(a.normalization_rules_digest.as_str(), b.normalization_rules_digest.as_str())
}

/// Why a generation's metadata cannot be opened for `expected`: stale
/// (`true`) or corrupt (`false`), with a code; `None` when it can.
pub open spec fn reader_meta_failure(
    metadata_rows: Option<i64>,
    meta: Option<GenerationMeta>,
    limits: ReaderLimits,
    expected: GraphGenerationIdentity,
    identity: Option<GraphGenerationIdentity>,
    completeness: Option<Completeness>,
) -> Option<(bool, Seq<char>)> {
    let m = limits.maximum_string_bytes as nat;
    if metadata_rows is None {
        Some((false, "generation-metadata-invalid"@))
    } else if metadata_rows != Some(1i64) {
        Some((false, "generation-metadata-row-count-mismatch"@))
    } else if meta is None {
        Some((false, "generation-metadata-invalid"@))
    } else if meta->0.schema_version != DATABASE_SCHEMA_VERSION {
        Some((false, "generation-schema-version-mismatch"@))
    } else if !reader_text_ok(meta->0.generation_key@, m) || !reader_text_ok(meta->0.identity_json@, sixteen_times(m))
        || !reader_text_ok(meta->0.completeness@, m) || !reader_text_ok(meta->0.application_root@, m) {
        Some((false, "generation-string-invalid"@))
    } else if !digest_ok(meta->0.generation_key@) {
        Some((false, "generation-key-invalid"@))
    } else if !digest_ok(meta->0.application_root@) {
        Some((false, "generation-root-invalid"@))
    } else if identity is None || !generation_identity_valid(identity->0) {
        Some((false, "generation-identity-invalid"@))
    } else if !same_identity(identity->0, expected) {
        Some((true, "generation-identity-stale"@))
    } else if !generation_identity_valid(expected) {
        Some((false, "generation-identity-invalid"@))
    } else if meta->0.generation_key@ != hex_seq(sha256_of(generation_message(expected))) {
        Some((true, "generation-key-stale"@))
    } else if completeness is None {
        Some((false, "generation-completeness-invalid"@))
    } else {
        None
    }
}

fn reader_stale(code: &str) -> (r: ReaderValidationError)
    ensures
        r matches ReaderValidationError::Stale(c) && c@ == code@,
{
    ReaderValidationError::Stale(String::from_str(code))
}

/// Checks a generation's metadata row before it is opened for `expected`.
/// `identity` and `completeness` are the row's identity and completeness
/// texts parsed, `None` where they did not parse; `metadata_rows` and
/// `meta` are `None` where the query failed.
pub fn check_reader_metadata(
    metadata_rows: Option<i64>,
    meta: Option<GenerationMeta>,
    limits: ReaderLimits,
    expected: &GraphGenerationIdentity,
    identity: Option<GraphGenerationIdentity>,
    completeness: Option<Completeness>,
) -> (r: Result<(GraphGenerationIdentity, Completeness), ReaderValidationError>)
    ensures
        ({
            let failure = reader_meta_failure(metadata_rows, meta, limits, *expected, identity, completeness);
            match r {
                Ok((i, c)) => failure is None && identity == Some(i) && completeness == Some(c),
                Err(ReaderValidationError::Stale(code)) => failure == Some((true, code@)),
                Err(ReaderValidationError::Corrupt(code)) => failure == Some((false, code@)),
            }
        }),
{
    let m = limits.maximum_string_bytes;
    match metadata_rows {
        None => return Err(reader_corrupt("generation-metadata-invalid")),
        Some(n) => if n != 1 {
            return Err(reader_corrupt("generation-metadata-row-count-mismatch"));
        },
    }
    let meta = match meta {
        None => return Err(reader_corrupt("generation-metadata-invalid")),
        Some(x) => x,
    };
    if meta.schema_version != DATABASE_SCHEMA_VERSION {
        return Err(reader_corrupt("generation-schema-version-mismatch"));
    }
    if !bounded_reader_text(meta.generation_key.as_str(), m) || !bounded_reader_text(
        meta.identity_json.as_str(),
        times_sixteen(m),
    ) || !bounded_reader_text(meta.completeness.as_str(), m) || !bounded_reader_text(
        meta.application_root.as_str(),
        m,
    ) {
        return Err(reader_corrupt("generation-string-invalid"));
    }
    if !is_hex_with_len(meta.generation_key.as_str(), 64) {
        return Err(reader_corrupt("generation-key-invalid"));
    }
    if !is_hex_with_len(meta.application_root.as_str(), 64) {
        return Err(reader_corrupt("generation-root-invalid"));
    }
    let identity = match identity {
        None => return Err(reader_corrupt("generation-identity-invalid")),
        Some(i) => i,
    };
    if identity.validate().is_err() {
        return Err(reader_corrupt("generation-identity-invalid"));
    }
    if !identities_equal(&identity, expected) {
        return Err(reader_stale("generation-identity-stale"));
    }
    let expected_key = match expected.generation_key() {
        Ok(k) => k,
        Err(_) => return Err(reader_corrupt("generation-identity-invalid")),
    };
    if !str_equal(meta.generation_key.as_str(), expected_key.as_str()) {
        return Err(reader_stale("generation-key-stale"));
    }
    match completeness {
        None => Err(reader_corrupt("generation-completeness-invalid")),
        Some(c) => Ok((identity, c)),
    }
}

/// The stored counts of a generation agree with its tables: each stored
/// count is a non-negative `usize`, each counted one too, and they match.
pub open spec fn reader_counts_failure(meta: GenerationMeta, counted: Seq<Option<i64>>) -> Option<Seq<char>>
    recommends
        counted.len() == 5,
{
    let stored = seq![meta.file_count, meta.module_count, meta.symbol_count, meta.edge_count, meta.limitation_count];
    reader_count_step(stored, counted, 0)
}

/// The first table, from `i` on, whose counts do not agree.
pub open spec fn reader_count_step(stored: Seq<i64>, counted: Seq<Option<i64>>, i: int) -> Option<Seq<char>>
    decreases 5 - i,
{
    if i >= 5 || i < 0 {
        None
    } else if stored[i] < 0 {
        Some("generation-count-invalid"@)
    } else if counted[i] is None || counted[i]->0 < 0 {
        Some("generation-count-invalid"@)
    } else if stored[i] != counted[i]->0 {
        Some("generation-count-mismatch"@)
    } else {
        reader_count_step(stored, counted, i + 1)
    }
}

/// Checks the stored table counts of a generation against the counted
/// ones (files, modules, symbols, edges, limitations; `None` where the
/// count could not be read), then that the connection is query-only.
pub fn check_reader_counts(meta: &GenerationMeta, counted: &Vec<Option<i64>>, query_only: Option<i32>) -> (r: Result<(), ReaderValidationError>)
    requires
        counted@.len() == 5,
    ensures
        r is Ok <==> reader_counts_failure(*meta, counted@) is None && query_only == Some(1i32),
        reader_counts_failure(*meta, counted@) matches Some(code) ==> (r matches Err(ReaderValidationError::Corrupt(c)) && c@ == code),
        reader_counts_failure(*meta, counted@) is None && query_only != Some(1i32) ==> (r matches Err(ReaderValidationError::Corrupt(c)) && c@ == "generation-query-only-invalid"@),
{
    let stored: Vec<i64> = vec![meta.file_count, meta.module_count, meta.symbol_count, meta.edge_count, meta.limitation_count];
    let ghost st = seq![meta.file_count, meta.module_count, meta.symbol_count, meta.edge_count, meta.limitation_count];
    assert(stored@ =~= st);
    assert(reader_counts_failure(*meta, counted@) == reader_count_step(st, counted@, 0));
    let mut i: usize = 0;
    while i < 5
        invariant
            i <= 5,
            stored@ == st,
            stored@.len() == 5,
            counted@.len() == 5,
            reader_count_step(st, counted@, 0) == reader_count_step(st, counted@, i as int),
            reader_counts_failure(*meta, counted@) == reader_count_step(st, counted@, 0),
        decreases 5 - i,
    {
        let ghost here = reader_count_step(st, counted@, i as int);
        if stored[i] < 0 {
            assert(here == Some("generation-count-invalid"@));
            return Err(reader_corrupt("generation-count-invalid"));
        }
        match counted[i] {
            None => {
                assert(here == Some("generation-count-invalid"@));
                return Err(reader_corrupt("generation-count-invalid"));
            },
            Some(c) => {
                if c < 0 {
                    assert(here == Some("generation-count-invalid"@));
                    return Err(reader_corrupt("generation-count-invalid"));
                }
                if stored[i] != c {
                    assert(here == Some("generation-count-mismatch"@));
                    return Err(reader_corrupt("generation-count-mismatch"));
                }
            },
        }
        assert(here == reader_count_step(st, counted@, i + 1));
        i = i + 1;
    }
    assert(reader_count_step(st, counted@, 5) is None);
    match query_only {
        Some(q) => if q != 1 {
            Err(reader_corrupt("generation-query-only-invalid"))
        } else {
            Ok(())
        },
        None => Err(reader_corrupt("generation-query-only-invalid")),
    }
}

} // verus!
