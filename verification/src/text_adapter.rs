//! Text evidence of a changed file: fact records, marker scanning and the
//! positions of matched spans.
use vstd::prelude::*;
use crate::budget::{BudgetResource, BudgetTracker};
use crate::contracts::{SourceRange, UnitStatus};
use crate::integrity::views;
use crate::strings::{
    char_count, decimal, is_control_char, lower_seq, occurs_at, push_char, str_equal,
    to_ascii_lower,
};

verus! {

#[derive(Debug, Clone, Copy, PartialEq, Eq, Structural)]
pub enum TextFactKind {
    ConfiguredQuery,
    Configuration,
    Framework,
    TestMarker,
    TestHint,
    Endpoint,
    Authorization,
    Storage,
    Network,
    Cache,
    Broker,
    Search,
    Lifecycle,
}

impl TextFactKind {
    /// The kebab-case name of the kind.
    pub open spec fn name_of(self) -> Seq<char> {
        match self {
            TextFactKind::ConfiguredQuery => "configured-query"@,
            TextFactKind::Configuration => "configuration"@,
            TextFactKind::Framework => "framework"@,
            TextFactKind::TestMarker => "test-marker"@,
            TextFactKind::TestHint => "test-hint"@,
            TextFactKind::Endpoint => "endpoint"@,
            TextFactKind::Authorization => "authorization"@,
            TextFactKind::Storage => "storage"@,
            TextFactKind::Network => "network"@,
            TextFactKind::Cache => "cache"@,
            TextFactKind::Broker => "broker"@,
            TextFactKind::Search => "search"@,
            TextFactKind::Lifecycle => "lifecycle"@,
        }
    }

    /// The kebab-case name of the kind.
    pub fn as_str(self) -> (r: &'static str)
        ensures
            r@ == self.name_of(),
    {
        match self {
            TextFactKind::ConfiguredQuery => "configured-query",
            TextFactKind::Configuration => "configuration",
            TextFactKind::Framework => "framework",
            TextFactKind::TestMarker => "test-marker",
            TextFactKind::TestHint => "test-hint",
            TextFactKind::Endpoint => "endpoint",
            TextFactKind::Authorization => "authorization",
            TextFactKind::Storage => "storage",
            TextFactKind::Network => "network",
            TextFactKind::Cache => "cache",
            TextFactKind::Broker => "broker",
            TextFactKind::Search => "search",
            TextFactKind::Lifecycle => "lifecycle",
        }
    }
}

#[derive(Debug, Clone, Copy, PartialEq, Eq, Structural)]
pub enum TextProvenance {
    Textual,
}

/// One piece of text evidence.
#[derive(Debug, Clone, PartialEq, Eq)]
pub struct TextFact {
    pub rule_id: String,
    pub kind: TextFactKind,
    pub match_text: String,
    pub range: SourceRange,
    pub provenance: TextProvenance,
    pub resolved_target: Option<String>,
    pub details: Vec<(String, String)>,
}

/// The text evidence of one unit.
#[derive(Debug, Clone, PartialEq, Eq)]
pub struct TextOutput {
    pub status: UnitStatus,
    pub facts: Vec<TextFact>,
    pub limitation_codes: Vec<String>,
}

/// Why the text configuration could not be loaded.
#[derive(Debug, Clone, PartialEq, Eq)]
pub struct TextAdapterError {
    message: String,
}

impl TextAdapterError {
    /// The error's reason.
    pub closed spec fn message_of(&self) -> Seq<char> {
        self.message@
    }

    /// An error with the given reason.
    pub fn new(message: &str) -> (r: Self)
        ensures
            r.message_of() == message@,
    {
        TextAdapterError { message: String::from_str(message) }
    }

    /// The human-readable reason.
    pub fn message(&self) -> (r: String)
        ensures
            r@ == self.message_of(),
    {
        self.message.clone()
    }
}

/// The text evidence provider.
pub struct TextAdapter;

// ----------------------------------------------------------------------
// Positions
// ----------------------------------------------------------------------
/// The number of UTF-8 bytes that encode `c`.
pub open spec fn utf8_width(c: char) -> nat {
    if (c as u32) < 0x80 {
        1
    } else if (c as u32) < 0x800 {
        2
    } else if (c as u32) < 0x10000 {
        3
    } else {
        4
    }
}

/// The number of UTF-8 bytes that encode `s`.
pub open spec fn utf8_len(s: Seq<char>) -> nat
    decreases s.len(),
{
    if s.len() == 0 {
        0
    } else {
        utf8_len(s.drop_last()) + utf8_width(s.last())
    }
}

/// The number of line feeds in `s`.
pub open spec fn newline_count(s: Seq<char>) -> nat
    decreases s.len(),
{
    if s.len() == 0 {
        0
    } else {
        newline_count(s.drop_last()) + if s.last() == '\n' {
            1nat
        } else {
            0
        }
    }
}

/// The number of characters after the last line feed of `s`.
pub open spec fn column_chars(s: Seq<char>) -> nat
    decreases s.len(),
{
    if s.len() == 0 {
        0
    } else if s.last() == '\n' {
        0
    } else {
        column_chars(s.drop_last()) + 1
    }
}

/// The one-based line and column of the character position `at`.
pub open spec fn line_column_spec(text: Seq<char>, at: int) -> (u32, u32) {
    let prefix = text.take(at);
    ((newline_count(prefix) + 1) as u32, (column_chars(prefix) + 1) as u32)
}

proof fn lemma_position_counts_bounded(s: Seq<char>)
    ensures
        newline_count(s) <= s.len(),
        column_chars(s) <= s.len(),
        s.len() <= utf8_len(s),
        utf8_len(s) <= 4 * s.len(),
    decreases s.len(),
{
    if s.len() > 0 {
        lemma_position_counts_bounded(s.drop_last());
    }
}

fn utf8_width_of(c: char) -> (r: usize)
    ensures
        r == utf8_width(c),
{
    let v = c as u32;
    if v < 0x80 {
        1
    } else if v < 0x800 {
        2
    } else if v < 0x10000 {
        3
    } else {
        4
    }
}

/// The line, column and byte offset of a character position.
pub struct TextPosition {
    pub line: u32,
    pub column: u32,
    pub byte: usize,
}

/// The one-based line and column, and the byte offset, of character
/// position `at` of `text`.
pub fn position_at(text: &str, at: usize) -> (r: TextPosition)
    requires
        at <= text@.len(),
        4 * text@.len() < u32::MAX,
    ensures
        (r.line, r.column) == line_column_spec(text@, at as int),
        r.byte == utf8_len(text@.take(at as int)),
{
    let mut lines: u32 = 0;
    let mut column: u32 = 0;
    let mut bytes: usize = 0;
    let mut i: usize = 0;
    while i < at
        invariant
            at <= text@.len(),
            4 * text@.len() < u32::MAX,
            i <= at,
            lines == newline_count(text@.take(i as int)),
            column == column_chars(text@.take(i as int)),
            bytes == utf8_len(text@.take(i as int)),
        decreases at - i,
    {
        let c = text.get_char(i);
        proof {
            let t = text@.take(i + 1);
            assert(t.drop_last() =~= text@.take(i as int));
            assert(t.last() == c);
            lemma_position_counts_bounded(text@.take(i as int));
        }
        if c == '\n' {
            lines = lines + 1;
            column = 0;
        } else {
            column = column + 1;
        }
        bytes = bytes + utf8_width_of(c);
        i = i + 1;
    }
    proof {
        lemma_position_counts_bounded(text@.take(at as int));
    }
    TextPosition { line: lines + 1, column: column + 1, byte: bytes }
}

/// The source range of the characters `start..end` of `text`.
pub open spec fn range_for_span_spec(text: Seq<char>, start: int, end: int) -> SourceRange {
    let (sl, sc) = line_column_spec(text, start);
    let (el, ec) = line_column_spec(text, end);
    SourceRange {
        start_line: sl,
        start_column: sc,
        end_line: el,
        end_column: ec,
        start_byte: utf8_len(text.take(start)) as usize,
        end_byte: utf8_len(text.take(end)) as usize,
    }
}

/// A span start held within a text of `len` characters.
pub open spec fn clamp_start(len: int, start: int) -> int {
    if start <= len {
        start
    } else {
        len
    }
}

/// A span end held within a text of `len` characters and not before the
/// held start.
pub open spec fn clamp_end(len: int, start: int, end: int) -> int {
    let e = if end <= len {
        end
    } else {
        len
    };
    if e < clamp_start(len, start) {
        clamp_start(len, start)
    } else {
        e
    }
}

/// The source range of the characters `start..end` of `text`, the span
/// held within the text first.
pub fn range_for_span(text: &str, start: usize, end: usize) -> (r: SourceRange)
    requires
        4 * text@.len() < u32::MAX,
    ensures
        r == range_for_span_spec(
            text@,
            clamp_start(text@.len() as int, start as int),
            clamp_end(text@.len() as int, start as int, end as int),
        ),
{
    let len = text.unicode_len();
    let start = if start <= len {
        start
    } else {
        len
    };
    let end = if end <= len {
        end
    } else {
        len
    };
    let end = if end < start {
        start
    } else {
        end
    };
    let s = position_at(text, start);
    let e = position_at(text, end);
    SourceRange {
        start_line: s.line,
        start_column: s.column,
        end_line: e.line,
        end_column: e.column,
        start_byte: s.byte,
        end_byte: e.byte,
    }
}

// ----------------------------------------------------------------------
// Fact text
// ----------------------------------------------------------------------
/// White space in Unicode's sense (the `White_Space` property).
pub open spec fn is_white_space(c: char) -> bool {
    ('\u{9}' <= c && c <= '\u{d}') || c == ' ' || c == '\u{85}' || c == '\u{a0}' || c
        == '\u{1680}' || ('\u{2000}' <= c && c <= '\u{200a}') || c == '\u{2028}' || c == '\u{2029}'
        || c == '\u{202f}' || c == '\u{205f}' || c == '\u{3000}'
}

fn white_space(c: char) -> (r: bool)
    ensures
        r == is_white_space(c),
{
    ('\u{9}' <= c && c <= '\u{d}') || c == ' ' || c == '\u{85}' || c == '\u{a0}' || c
        == '\u{1680}' || ('\u{2000}' <= c && c <= '\u{200a}') || c == '\u{2028}' || c == '\u{2029}'
        || c == '\u{202f}' || c == '\u{205f}' || c == '\u{3000}'
}

/// `s` without leading and trailing white space.
pub open spec fn trim_spec(s: Seq<char>) -> Seq<char> {
    let lead = leading_ws(s, 0);
    let trail = trailing_ws(s, s.len() as int);
    if lead >= trail {
        Seq::empty()
    } else {
        s.subrange(lead, trail)
    }
}

/// The first position at or after `i` that is not white space.
pub open spec fn leading_ws(s: Seq<char>, i: int) -> int
    decreases s.len() - i,
{
    if i >= s.len() || i < 0 {
        if i < 0 { 0 } else { s.len() as int }
    } else if is_white_space(s[i]) {
        leading_ws(s, i + 1)
    } else {
        i
    }
}

/// The end of `s.take(j)` once trailing white space is dropped.
pub open spec fn trailing_ws(s: Seq<char>, j: int) -> int
    decreases j,
{
    if j <= 0 || j > s.len() {
        if j <= 0 { 0 } else { s.len() as int }
    } else if is_white_space(s[j - 1]) {
        trailing_ws(s, j - 1)
    } else {
        j
    }
}

/// The characters of `s` kept in a fact text: no control character but
/// tab.
pub open spec fn fact_chars(s: Seq<char>) -> Seq<char>
    decreases s.len(),
{
    if s.len() == 0 {
        Seq::empty()
    } else if is_control_char(s.last()) && s.last() != '\t' {
        fact_chars(s.drop_last())
    } else {
        fact_chars(s.drop_last()).push(s.last())
    }
}

/// The text recorded for a fact: controls but tab removed, at most 1000
/// characters, surrounding white space trimmed.
pub open spec fn fact_text_spec(s: Seq<char>) -> Seq<char> {
    let kept = fact_chars(s);
    trim_spec(if kept.len() > 1000 {
        kept.take(1000)
    } else {
        kept
    })
}

pub fn trim_text(s: &str) -> (r: String)
    ensures
        r@ == trim_spec(s@),
{
    let n = s.unicode_len();
    let mut lead: usize = 0;
    while lead < n && white_space(s.get_char(lead))
        invariant
            n == s@.len(),
            lead <= n,
            leading_ws(s@, 0) == leading_ws(s@, lead as int),
        decreases n - lead,
    {
        lead = lead + 1;
    }
    let mut trail: usize = n;
    while trail > 0 && white_space(s.get_char(trail - 1))
        invariant
            n == s@.len(),
            trail <= n,
            trailing_ws(s@, n as int) == trailing_ws(s@, trail as int),
        decreases trail,
    {
        trail = trail - 1;
    }
    if lead >= trail {
        proof {
            reveal_strlit("");
        }
        return String::new();
    }
    String::from_str(s.substring_char(lead, trail))
}

/// The text recorded for a fact.
pub fn fact_text(value: &str) -> (r: String)
    ensures
        r@ == fact_text_spec(value@),
{
    let n = value.unicode_len();
    let mut kept = String::new();
    let mut i: usize = 0;
    while i < n
        invariant
            n == value@.len(),
            i <= n,
            kept@ == {
                let k = fact_chars(value@.take(i as int));
                if k.len() > 1000 {
                    k.take(1000)
                } else {
                    k
                }
            },
        decreases n - i,
    {
        let c = value.get_char(i);
        let ghost prev = fact_chars(value@.take(i as int));
        proof {
            let t = value@.take(i + 1);
            assert(t.drop_last() =~= value@.take(i as int));
            assert(t.last() == c);
        }
        let dropped = (c <= '\u{1f}' || ('\u{7f}' <= c && c <= '\u{9f}')) && c != '\t';
        if !dropped {
            if kept.unicode_len() < 1000 {
                push_char(&mut kept, c);
                assert(kept@ =~= prev.push(c));
            } else {
                assert(prev.push(c).take(1000) =~= (if prev.len() > 1000 {
                    prev.take(1000)
                } else {
                    prev
                }));
            }
        }
        i = i + 1;
    }
    assert(value@.take(n as int) =~= value@);
    trim_text(kept.as_str())
}

/// `values` with `v` added at the end unless it is already there.
pub open spec fn with_unique(values: Seq<Seq<char>>, v: Seq<char>) -> Seq<Seq<char>> {
    if values.contains(v) {
        values
    } else {
        values.push(v)
    }
}

/// How many of `wanted` charges of one unit fit between `consumed` and
/// `limit`: each is made while one more unit fits, and the first that
/// does not stops the rest.
pub open spec fn admitted(wanted: int, consumed: int, limit: int) -> int {
    if limit - consumed <= 0 {
        0
    } else if wanted <= limit - consumed {
        wanted
    } else {
        limit - consumed
    }
}

/// Adds `value` unless it is already present.
pub fn push_unique(values: &mut Vec<String>, value: &str)
    ensures
        views(final(values)@) == with_unique(views(old(values)@), value@),
        (exists|i: int| 0 <= i < old(values)@.len() && old(values)@[i]@ == value@)
            ==> final(values)@ == old(values)@,
        !(exists|i: int| 0 <= i < old(values)@.len() && old(values)@[i]@ == value@)
            ==> final(values)@.len() == old(values)@.len() + 1
            && final(values)@.take(old(values)@.len() as int) == old(values)@
            && final(values)@.last()@ == value@,
{
    let mut i: usize = 0;
    while i < values.len()
        invariant
            i <= values@.len(),
            values@ == old(values)@,
            forall|j: int| 0 <= j < i ==> values@[j]@ != value@,
        decreases values@.len() - i,
    {
        if str_equal(values[i].as_str(), value) {
            proof {
                assert(views(old(values)@)[i as int] == value@);
            }
            return;
        }
        i = i + 1;
    }
    proof {
        assert(!views(old(values)@).contains(value@)) by {
            if views(old(values)@).contains(value@) {
                let j = choose|j: int| 0 <= j < views(old(values)@).len() && views(old(values)@)[j] == value@;
                assert(values@[j]@ == value@);
            }
        }
    }
    values.push(String::from_str(value));
    assert(values@.take(old(values)@.len() as int) =~= old(values)@);
    assert(views(values@) =~= views(old(values)@).push(value@));
}

/// Records `fact` if the fact budget allows one more; reports whether it did.
pub fn push_fact(facts: &mut Vec<TextFact>, fact: TextFact, budget: &mut BudgetTracker) -> (r: bool)
    requires
        old(budget).wf(),
    ensures
        final(budget).wf(),
        final(budget).budget_of() == old(budget).budget_of(),
        forall|other: BudgetResource|
            other != BudgetResource::Facts ==> #[trigger] final(budget).consumed_of(other) == old(
                budget,
            ).consumed_of(other),
        r <==> old(budget).consumed_of(BudgetResource::Facts) + 1 <= old(budget).budget_of().limit_of(
            BudgetResource::Facts,
        ),
        r ==> final(facts)@ == old(facts)@.push(fact),
        !r ==> final(facts)@ == old(facts)@,
        final(budget).consumed_of(BudgetResource::Facts) == if r {
            old(budget).consumed_of(BudgetResource::Facts) + 1
        } else {
            old(budget).consumed_of(BudgetResource::Facts) as int
        },
{
    if budget.consume(BudgetResource::Facts, 1).is_err() {
        false
    } else {
        facts.push(fact);
        true
    }
}

/// The fact of the characters `start..end` of `text`.
pub open spec fn fact_from_span_spec(
    text: Seq<char>,
    start: int,
    end: int,
    rule_id: Seq<char>,
    kind: TextFactKind,
    f: TextFact,
) -> bool {
    &&& f.rule_id@ == fact_text_spec(rule_id)
    &&& f.kind == kind
    &&& f.match_text@ == fact_text_spec(text.subrange(start, end))
    &&& f.range == range_for_span_spec(text, start, end)
    &&& f.provenance == TextProvenance::Textual
    &&& f.resolved_target is None
}

/// The fact of the characters `start..end` of `text`.
pub fn fact_from_span(
    text: &str,
    start: usize,
    end: usize,
    rule_id: &str,
    kind: TextFactKind,
    details: Vec<(String, String)>,
) -> (f: TextFact)
    requires
        4 * text@.len() < u32::MAX,
    ensures
        fact_from_span_spec(
            text@,
            clamp_start(text@.len() as int, start as int),
            clamp_end(text@.len() as int, start as int, end as int),
            rule_id@,
            kind,
            f,
        ),
        f.details@ == details@,
{
    let len = text.unicode_len();
    let start = if start <= len {
        start
    } else {
        len
    };
    let end = if end <= len {
        end
    } else {
        len
    };
    let end = if end < start {
        start
    } else {
        end
    };
    TextFact {
        rule_id: fact_text(rule_id),
        kind,
        match_text: fact_text(text.substring_char(start, end)),
        range: range_for_span(text, start, end),
        provenance: TextProvenance::Textual,
        resolved_target: None,
        details,
    }
}

// ----------------------------------------------------------------------
// Markers
// ----------------------------------------------------------------------
/// The marker groups: a fact kind, its rule and the lowercase words that
/// reveal it.
pub open spec fn marker_groups() -> Seq<(TextFactKind, Seq<char>, Seq<Seq<char>>)> {
    seq![
        (TextFactKind::Framework, "framework"@, seq!["spring"@, "tokio"@, "actix"@, "react"@, "django"@, "fastapi"@]),
        (TextFactKind::TestMarker, "test-marker"@, seq!["#[test]"@, "@test"@, "describe("@, "test("@, "pytest"@, "junit"@]),
        (TextFactKind::Endpoint, "endpoint"@, seq!["/api/"@, "endpoint"@, "route"@, "http://"@, "https://"@]),
        (TextFactKind::Authorization, "authorization"@, seq!["authorization"@, "permission"@, "bearer"@, "jwt"@, "token"@, "role"@]),
        (TextFactKind::Storage, "storage"@, seq!["postgres"@, "mysql"@, "sqlite"@, "database"@, "repository"@, "s3"@]),
        (TextFactKind::Network, "network"@, seq!["http://"@, "https://"@, "grpc"@, "socket"@, "network"@]),
        (TextFactKind::Cache, "cache"@, seq!["cache"@, "redis"@, "memcached"@]),
        (TextFactKind::Broker, "broker"@, seq!["kafka"@, "rabbitmq"@, "broker"@, "queue"@]),
        (TextFactKind::Search, "search"@, seq!["elasticsearch"@, "opensearch"@, "search"@]),
        (TextFactKind::Lifecycle, "lifecycle"@, seq!["startup"@, "shutdown"@, "healthcheck"@, "migration"@, "cleanup"@]),
    ]
}

/// `at` is the first position of `needle` in `s`.
pub open spec fn first_occurrence_at(s: Seq<char>, needle: Seq<char>, at: int) -> bool {
    occurs_at(s, needle, at) && forall|k: int| 0 <= k < at ==> !#[trigger] occurs_at(s, needle, k)
}

/// The earliest occurrence in `s` of any candidate, as its position and the
/// index of the candidate; among candidates at the same position the one
/// listed first.
pub open spec fn earliest_marker(s: Seq<char>, cands: Seq<Seq<char>>, at: int, which: int) -> bool {
    &&& 0 <= which < cands.len()
    &&& first_occurrence_at(s, cands[which], at)
    &&& forall|c: int, k: int| 0 <= c < cands.len() && 0 <= k < at ==> !#[trigger] occurs_at(s, cands[c], k)
    &&& forall|c: int| 0 <= c < which ==> !#[trigger] occurs_at(s, cands[c], at)
}

fn first_index_of(s: &str, needle: &str) -> (r: Option<usize>)
    ensures
        r matches Some(at) ==> first_occurrence_at(s@, needle@, at as int),
        r is None ==> forall|k: int| !#[trigger] occurs_at(s@, needle@, k),
{
    let n = s.unicode_len();
    let m = needle.unicode_len();
    if m > n {
        return None;
    }
    if m == 0 {
        assert(s@.subrange(0, 0) =~= needle@);
        return Some(0);
    }
    let mut at: usize = 0;
    while at <= n - m
        invariant
            n == s@.len(),
            m == needle@.len(),
            1 <= m <= n,
            at <= n - m + 1,
            forall|k: int| 0 <= k < at ==> !#[trigger] occurs_at(s@, needle@, k),
        decreases n - m + 1 - at,
    {
        if occurs_here(s, needle, at) {
            return Some(at);
        }
        at = at + 1;
    }
    assert forall|k: int| !(#[trigger] occurs_at(s@, needle@, k)) by {
        if occurs_at(s@, needle@, k) {
            assert(k < at);
        }
    }
    None
}

fn occurs_here(s: &str, needle: &str, at: usize) -> (r: bool)
    requires
        at + needle@.len() <= s@.len(),
    ensures
        r == occurs_at(s@, needle@, at as int),
{
    let n = s.unicode_len();
    let m = needle.unicode_len();
    let mut i: usize = 0;
    while i < m
        invariant
            n == s@.len(),
            m == needle@.len(),
            at + m <= n,
            i <= m,
            forall|j: int| 0 <= j < i ==> s@[at + j] == needle@[j],
        decreases m - i,
    {
        if s.get_char(at + i) != needle.get_char(i) {
            assert(s@.subrange(at as int, at + m)[i as int] != needle@[i as int]);
            return false;
        }
        i = i + 1;
    }
    assert(s@.subrange(at as int, at + m) =~= needle@);
    true
}

/// The earliest marker of a group in the lowercased text.
pub fn earliest_of(lower: &str, cands: &[&str]) -> (r: Option<(usize, usize)>)
    ensures
        r matches Some((at, which)) ==> earliest_marker(
            lower@,
            Seq::new(cands@.len(), |i: int| cands@[i]@),
            at as int,
            which as int,
        ),
        r is None ==> forall|c: int, k: int|
            0 <= c < cands@.len() ==> !#[trigger] occurs_at(lower@, cands@[c]@, k),
{
    let ghost cs = Seq::new(cands@.len(), |i: int| cands@[i]@);
    let mut best: Option<(usize, usize)> = None;
    let mut c: usize = 0;
    while c < cands.len()
        invariant
            c <= cands@.len(),
            cs == Seq::new(cands@.len(), |i: int| cands@[i]@),
            best is None ==> forall|d: int, k: int|
                0 <= d < c ==> !#[trigger] occurs_at(lower@, cs[d], k),
            best matches Some((at, which)) ==> {
                &&& 0 <= which < c
                &&& first_occurrence_at(lower@, cs[which as int], at as int)
                &&& forall|d: int, k: int|
                    0 <= d < c && 0 <= k < at ==> !#[trigger] occurs_at(lower@, cs[d], k)
                &&& forall|d: int| 0 <= d < which ==> !#[trigger] occurs_at(lower@, cs[d], at as int)
            },
        decreases cands@.len() - c,
    {
        let found = first_index_of(lower, cands[c]);
        assert(cs[c as int] == cands@[c as int]@);
        match found {
            Some(at) => {
                match best {
                    None => {
                        best = Some((at, c));
                    },
                    Some((b, w)) => {
                        if at < b {
                            best = Some((at, c));
                        }
                    },
                }
            },
            None => {},
        }
        c = c + 1;
    }
    proof {
        if best is None {
            assert forall|d: int, k: int| 0 <= d < cands@.len() implies !#[trigger] occurs_at(
                lower@,
                cands@[d]@,
                k,
            ) by {
                assert(cs[d] == cands@[d]@);
                assert(!occurs_at(lower@, cs[d], k));
            }
        }
    }
    best
}

/// The fact of a marker group found in `text`: the earliest candidate
/// occurrence in the lowercased text, recorded under the group's rule.
pub open spec fn marker_fact(
    text: Seq<char>,
    kind: TextFactKind,
    rule_id: Seq<char>,
    cands: Seq<Seq<char>>,
    f: TextFact,
) -> bool {
    exists|at: int, which: int|
        #[trigger] earliest_marker(lower_seq(text), cands, at, which) && fact_from_span_spec(
            text,
            at,
            at + cands[which].len(),
            rule_id,
            kind,
            f,
        )
}

/// The fact of one of the built-in marker groups.
pub open spec fn some_marker_fact(text: Seq<char>, f: TextFact) -> bool {
    exists|g: int|
        0 <= g < 10 && #[trigger] marker_fact(
            text,
            marker_groups()[g].0,
            marker_groups()[g].1,
            marker_groups()[g].2,
            f,
        )
}

/// Some candidate of a marker group occurs in the lowercased text.
pub open spec fn group_found(text: Seq<char>, cands: Seq<Seq<char>>) -> bool {
    exists|at: int, which: int| #[trigger] earliest_marker(lower_seq(text), cands, at, which)
}

/// The marker groups among the first `n` that are found in `text`, in
/// order.
pub open spec fn found_groups(text: Seq<char>, n: nat) -> Seq<int>
    decreases n,
{
    if n == 0 {
        Seq::empty()
    } else if group_found(text, marker_groups()[n - 1].2) {
        found_groups(text, (n - 1) as nat).push(n - 1)
    } else {
        found_groups(text, (n - 1) as nat)
    }
}

proof fn lemma_found_prefix(text: Seq<char>, g: nat, n: nat)
    requires
        g <= n,
    ensures
        found_groups(text, g).len() <= found_groups(text, n).len(),
        forall|j: int| 0 <= j < found_groups(text, g).len() ==> #[trigger] found_groups(text, g)[j] == found_groups(text, n)[j],
    decreases n,
{
    if g < n {
        lemma_found_prefix(text, g, (n - 1) as nat);
    }
}

/// `f` is the fact of marker group `g`, with no details.
pub open spec fn group_fact(text: Seq<char>, g: int, f: TextFact) -> bool {
    marker_fact(text, marker_groups()[g].0, marker_groups()[g].1, marker_groups()[g].2, f) && f.details@.len() == 0
}

/// Scans for one marker group; returns false when the fact budget ran out.
fn scan_group(
    text: &str,
    lower: &str,
    kind: TextFactKind,
    rule_id: &str,
    cands: &[&str],
    facts: &mut Vec<TextFact>,
    budget: &mut BudgetTracker,
) -> (r: bool)
    requires
        old(budget).wf(),
        lower@ == lower_seq(text@),
        4 * text@.len() < u32::MAX,
    ensures
        final(budget).wf(),
        final(budget).budget_of() == old(budget).budget_of(),
        forall|other: BudgetResource|
            other != BudgetResource::Facts ==> #[trigger] final(budget).consumed_of(other) == old(budget).consumed_of(other),
        ({
            let cs = Seq::new(cands@.len(), |i: int| cands@[i]@);
            let room = old(budget).consumed_of(BudgetResource::Facts) + 1 <= old(budget).budget_of().limit_of(
                BudgetResource::Facts,
            );
            &&& !group_found(text@, cs) ==> r && final(facts)@ == old(facts)@ && final(budget).consumed_of(
                BudgetResource::Facts,
            ) == old(budget).consumed_of(BudgetResource::Facts)
            &&& group_found(text@, cs) ==> (r <==> room)
            &&& group_found(text@, cs) && r ==> final(facts)@.len() == old(facts)@.len() + 1
                && final(facts)@.drop_last() == old(facts)@ && marker_fact(text@, kind, rule_id@, cs, final(facts)@.last())
                && final(facts)@.last().details@.len() == 0 && final(budget).consumed_of(BudgetResource::Facts)
                == old(budget).consumed_of(BudgetResource::Facts) + 1
            &&& !r ==> final(facts)@ == old(facts)@ && final(budget).consumed_of(BudgetResource::Facts) == old(
                budget,
            ).consumed_of(BudgetResource::Facts)
        }),
{
    let ghost cs = Seq::new(cands@.len(), |i: int| cands@[i]@);
    match earliest_of(lower, cands) {
        None => {
            proof {
                assert(!group_found(text@, cs)) by {
                    if group_found(text@, cs) {
                        let (at, which) = choose|at: int, which: int| #[trigger] earliest_marker(lower_seq(text@), cs, at, which);
                        assert(occurs_at(lower@, cands@[which]@, at));
                    }
                }
            }
            true
        },
        Some((at, which)) => {
            let marker = cands[which];
            let len = char_count(marker);
            proof {
                assert(occurs_at(lower@, cs[which as int], at as int));
                assert(lower@.len() == text@.len());
                assert(earliest_marker(lower_seq(text@), cs, at as int, which as int));
            }
            let end = at + len;
            let fact = fact_from_span(text, at, end, rule_id, kind, Vec::new());
            let ghost f = fact;
            if !push_fact(facts, fact, budget) {
                return false;
            }
            proof {
                assert(facts@.drop_last() =~= old(facts)@);
                assert(facts@.last() == f);
            }
            true
        },
    }
}

/// Scans the text for the built-in markers: per group, in group order, one
/// fact at the earliest marker; stops, reporting it, when the fact budget
/// runs out.
pub fn scan_markers(text: &str, facts: &mut Vec<TextFact>, budget: &mut BudgetTracker) -> (failed: bool)
    requires
        old(budget).wf(),
        4 * text@.len() < u32::MAX,
    ensures
        final(budget).wf(),
        final(budget).budget_of() == old(budget).budget_of(),
        final(facts)@.len() >= old(facts)@.len(),
        final(facts)@.take(old(facts)@.len() as int) == old(facts)@,
        forall|i: int|
            old(facts)@.len() <= i < final(facts)@.len() ==> some_marker_fact(
                text@,
                #[trigger] final(facts)@[i],
            ),
        ({
            let found = found_groups(text@, 10);
            let k = admitted(
                found.len() as int,
                old(budget).consumed_of(BudgetResource::Facts) as int,
                old(budget).budget_of().limit_of(BudgetResource::Facts) as int,
            );
            &&& final(facts)@.len() == old(facts)@.len() + k
            &&& forall|j: int| 0 <= j < k ==> group_fact(text@, found[j], #[trigger] final(facts)@[old(facts)@.len() + j])
            &&& (failed <==> k < found.len())
            &&& final(budget).consumed_of(BudgetResource::Facts) == old(budget).consumed_of(BudgetResource::Facts) + k
        }),
        forall|other: BudgetResource|
            other != BudgetResource::Facts ==> #[trigger] final(budget).consumed_of(other) == old(budget).consumed_of(other),
{
    let lower = to_ascii_lower(text);
    let l = lower.as_str();
    let ghost start = facts@;
    let ghost c0 = budget.consumed_of(BudgetResource::Facts) as int;
    let ghost lim = budget.budget_of().limit_of(BudgetResource::Facts) as int;
    let mut g: usize = 0;
    while g < 10
        invariant
            0 <= g <= 10,
            budget.wf(),
            budget.budget_of() == old(budget).budget_of(),
            l@ == lower_seq(text@),
            4 * text@.len() < u32::MAX,
            start == old(facts)@,
            c0 == old(budget).consumed_of(BudgetResource::Facts),
            lim == old(budget).budget_of().limit_of(BudgetResource::Facts),
            facts@.len() == start.len() + found_groups(text@, g as nat).len(),
            budget.consumed_of(BudgetResource::Facts) == c0 + found_groups(text@, g as nat).len(),
            found_groups(text@, g as nat).len() == 0 || c0 + found_groups(text@, g as nat).len() <= lim,
            forall|other: BudgetResource|
                other != BudgetResource::Facts ==> #[trigger] budget.consumed_of(other) == old(budget).consumed_of(other),
            facts@.take(start.len() as int) == start,
            forall|j: int|
                0 <= j < found_groups(text@, g as nat).len() ==> group_fact(
                    text@,
                    found_groups(text@, g as nat)[j],
                    #[trigger] facts@[start.len() + j],
                ),
            forall|i: int|
                start.len() <= i < facts@.len() ==> some_marker_fact(text@, #[trigger] facts@[i]),
        decreases 10 - g,
    {
        let (kind, rule_id, cands) = marker_group(g);
        let ghost before = facts@;
        let ghost fg = found_groups(text@, g as nat);
        let ok = scan_group(text, l, kind, rule_id, cands, facts, budget);
        proof {
            let next = found_groups(text@, (g + 1) as nat);
            assert(marker_groups()[g as int].2 == Seq::new(cands@.len(), |i: int| cands@[i]@));
            assert(facts@.take(start.len() as int) =~= before.take(start.len() as int)) by {
                if facts@ != before {
                    assert(facts@.drop_last() == before);
                }
            }
            if ok {
                assert forall|j: int| 0 <= j < next.len() implies group_fact(
                    text@,
                    next[j],
                    #[trigger] facts@[start.len() + j],
                ) by {
                    if j < fg.len() {
                        assert(next[j] == fg[j]);
                        assert(facts@[start.len() + j] == before[start.len() + j]);
                    } else {
                        assert(next[j] == g);
                        assert(facts@[start.len() + j] == facts@.last());
                    }
                }
            } else {
                lemma_found_prefix(text@, (g + 1) as nat, 10);
                lemma_found_prefix(text@, g as nat, 10);
                assert(next == fg.push(g as int));
            }
            assert forall|i: int|
                start.len() <= i < facts@.len() implies some_marker_fact(
                text@,
                #[trigger] facts@[i],
            ) by {
                if i < before.len() {
                    assert(facts@[i] == before[i]);
                    assert(some_marker_fact(text@, before[i]));
                } else {
                    assert(facts@[i] == facts@.last());
                    assert(marker_fact(
                        text@,
                        marker_groups()[g as int].0,
                        marker_groups()[g as int].1,
                        marker_groups()[g as int].2,
                        facts@[i],
                    ));
                }
            }
        }
        if !ok {
            proof {
                let fs = found_groups(text@, 10);
                assert forall|j: int| 0 <= j < fg.len() implies group_fact(
                    text@,
                    fs[j],
                    #[trigger] facts@[start.len() + j],
                ) by {
                    assert(fs[j] == fg[j]);
                }
            }
            return true;
        }
        g = g + 1;
    }
    false
}

/// One row of the marker table.
fn marker_group(g: usize) -> (r: (TextFactKind, &'static str, &'static [&'static str]))
    requires
        g < 10,
    ensures
        r.0 == marker_groups()[g as int].0,
        r.1@ == marker_groups()[g as int].1,
        Seq::new(r.2@.len(), |i: int| r.2@[i]@) == marker_groups()[g as int].2,
{
    let r: (TextFactKind, &'static str, &'static [&'static str]) = match g {
        0 => (TextFactKind::Framework, "framework", &["spring", "tokio", "actix", "react", "django", "fastapi"]),
        1 => (TextFactKind::TestMarker, "test-marker", &["#[test]", "@test", "describe(", "test(", "pytest", "junit"]),
        2 => (TextFactKind::Endpoint, "endpoint", &["/api/", "endpoint", "route", "http://", "https://"]),
        3 => (TextFactKind::Authorization, "authorization", &["authorization", "permission", "bearer", "jwt", "token", "role"]),
        4 => (TextFactKind::Storage, "storage", &["postgres", "mysql", "sqlite", "database", "repository", "s3"]),
        5 => (TextFactKind::Network, "network", &["http://", "https://", "grpc", "socket", "network"]),
        6 => (TextFactKind::Cache, "cache", &["cache", "redis", "memcached"]),
        7 => (TextFactKind::Broker, "broker", &["kafka", "rabbitmq", "broker", "queue"]),
        8 => (TextFactKind::Search, "search", &["elasticsearch", "opensearch", "search"]),
        _ => (TextFactKind::Lifecycle, "lifecycle", &["startup", "shutdown", "healthcheck", "migration", "cleanup"]),
    };
    assert(Seq::new(r.2@.len(), |i: int| r.2@[i]@) =~= marker_groups()[g as int].2);
    r
}

} // verus!
