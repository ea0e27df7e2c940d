//! The configured part of text evidence: context queries and test hints
//! read from the candidate's configuration files, and the scan of a
//! changed file with them.
use vstd::prelude::*;
use regex::Regex;
use crate::budget::{BudgetResource, BudgetTracker};
use crate::candidate::RepoPath;
use crate::contracts::{SourceRange, UnitStatus};
use crate::strings::{
    str_equal, decimal, decode_lossy, lower_seq, push_char, push_decimal, push_text, to_ascii_lower, utf8_lossy,
};
use crate::ordering::{
    lemma_ord_text_antisymmetric, ord_int, ord_text, order_text, sorted_by_order, stable_sort, then,
    CanonicalOrder,
};
use crate::strings::{has_infix, has_suffix, str_contains, str_ends_with};
use crate::text_adapter::{
    admitted, range_for_span_spec, scan_markers, some_marker_fact, TextOutput,
    TextAdapter, TextFact, TextFactKind, TextProvenance, fact_from_span, fact_from_span_spec,
    push_fact,
    fact_text, fact_text_spec, push_unique, trim_spec, trim_text, utf8_len, utf8_width,
};

verus! {

/// Whether `regex::Regex::new` accepts `pattern`.
pub uninterp spec fn regex_accepts(pattern: Seq<char>) -> bool;

/// The byte spans, in order, of the successive non-overlapping matches
/// that `regex::Regex::find_iter` reports for `pattern` in `text`.
pub uninterp spec fn regex_match_spans(pattern: Seq<char>, text: Seq<char>) -> Seq<(usize, usize)>;

/// `regex::Regex::new`: whether the pattern compiles.
#[verifier::external_body]
fn regex_compiles(pattern: &str) -> (r: bool)
    ensures
        r == regex_accepts(pattern@),
{
    Regex::new(pattern).is_ok()
}

/// `regex::Regex::find_iter`: the byte spans of the matches of `pattern`
/// in `text` (none when the pattern does not compile). A match never ends
/// before it starts.
#[verifier::external_body]
fn regex_find_spans(pattern: &str, text: &str) -> (r: Vec<(usize, usize)>)
    ensures
        regex_accepts(pattern@) ==> r@ == regex_match_spans(pattern@, text@),
        !regex_accepts(pattern@) ==> r@.len() == 0,
        forall|i: int| 0 <= i < r@.len() ==> (#[trigger] r@[i]).0 <= r@[i].1,
{
    match Regex::new(pattern) {
        Ok(regex) => regex.find_iter(text).map(|found| (found.start(), found.end())).collect(),
        Err(_) => Vec::new(),
    }
}

/// The number of leading characters of `text` whose UTF-8 encoding fits
/// in `byte` bytes.
pub open spec fn chars_within(text: Seq<char>, byte: int) -> nat
    decreases text.len(),
{
    if text.len() == 0 {
        0
    } else if utf8_len(text) <= byte {
        text.len()
    } else {
        chars_within(text.drop_last(), byte)
    }
}

proof fn lemma_utf8_len_take_mono(s: Seq<char>, a: int, b: int)
    requires
        0 <= a <= b <= s.len(),
    ensures
        utf8_len(s.take(a)) <= utf8_len(s.take(b)),
    decreases b - a,
{
    if a < b {
        lemma_utf8_len_take_mono(s, a, b - 1);
        assert(s.take(b).drop_last() =~= s.take(b - 1));
    }
}

proof fn lemma_chars_within(text: Seq<char>, byte: int, i: int)
    requires
        0 <= i <= text.len(),
        utf8_len(text.take(i)) <= byte,
        i < text.len() ==> utf8_len(text.take(i + 1)) > byte,
    ensures
        chars_within(text, byte) == i,
    decreases text.len(),
{
    if text.len() == i {
        assert(text.take(i) =~= text);
    } else {
        lemma_utf8_len_take_mono(text, i + 1, text.len() as int);
        assert(text.take(text.len() as int) =~= text);
        let d = text.drop_last();
        assert(d.take(i) =~= text.take(i));
        if i < d.len() {
            assert(d.take(i + 1) =~= text.take(i + 1));
        }
        lemma_chars_within(d, byte, i);
    }
}

fn width_of(c: char) -> (r: usize)
    ensures
        r == utf8_width(c),
{
    let v = c as u32;
    if v < 0x80 {
        1
    } else if v < 0x800 {
        2
    } else if v < 0x10000 {
        3
    } else {
        4
    }
}

/// The character position of a byte offset of `text`: the number of
/// characters whose encoding fits before it.
pub fn char_index_of_byte(text: &str, byte: usize) -> (k: usize)
    ensures
        k == chars_within(text@, byte as int),
        k <= text@.len(),
{
    let n = text.unicode_len();
    let mut i: usize = 0;
    let mut used: usize = 0;
    assert(text@.take(0) =~= Seq::<char>::empty());
    while i < n
        invariant
            n == text@.len(),
            i <= n,
            used == utf8_len(text@.take(i as int)),
            used <= byte,
        decreases n - i,
    {
        let c = text.get_char(i);
        let w = width_of(c);
        proof {
            assert(text@.take(i + 1).drop_last() =~= text@.take(i as int));
            assert(text@.take(i + 1).last() == c);
        }
        if w > byte - used {
            proof {
                lemma_chars_within(text@, byte as int, i as int);
            }
            return i;
        }
        used = used + w;
        i = i + 1;
    }
    proof {
        lemma_chars_within(text@, byte as int, i as int);
    }
    i
}

/// The pieces of `t` between occurrences of `sep`.
pub open spec fn split_on(t: Seq<char>, sep: char) -> Seq<Seq<char>>
    decreases t.len(),
{
    if t.len() == 0 {
        seq![Seq::empty()]
    } else if t.last() == sep {
        split_on(t.drop_last(), sep).push(Seq::empty())
    } else {
        let s = split_on(t.drop_last(), sep);
        s.update(s.len() - 1, s.last().push(t.last()))
    }
}

proof fn lemma_split_on_len(t: Seq<char>, sep: char)
    ensures
        split_on(t, sep).len() >= 1,
    decreases t.len(),
{
    if t.len() > 0 {
        lemma_split_on_len(t.drop_last(), sep);
    }
}

/// `s` without one trailing carriage return.
pub open spec fn strip_cr(s: Seq<char>) -> Seq<char> {
    if s.len() > 0 && s.last() == '\r' {
        s.drop_last()
    } else {
        s
    }
}

/// The pieces of `p`, a carriage return dropped from the end of each
/// piece a line feed ended: all but the last, and the last too when
/// `ended`.
pub open spec fn ended_lines(p: Seq<Seq<char>>, ended: bool) -> Seq<Seq<char>> {
    Seq::new(p.len(), |k: int| if k < p.len() - 1 || ended { strip_cr(p[k]) } else { p[k] })
}

/// The lines of `t`, as std reads them: the pieces between line feeds,
/// without the empty piece after a final line feed, and without the
/// carriage return of a `\r\n` ending.
pub open spec fn lines_of(t: Seq<char>) -> Seq<Seq<char>> {
    if t.len() == 0 {
        Seq::empty()
    } else if t.last() == '\n' {
        ended_lines(split_on(t.drop_last(), '\n'), true)
    } else {
        ended_lines(split_on(t, '\n'), false)
    }
}

/// The pieces of `text` between occurrences of `sep`.
pub fn split_text(text: &str, sep: char) -> (r: Vec<String>)
    ensures
        r@.len() >= 1,
        Seq::new(r@.len(), |k: int| r@[k]@) == split_on(text@, sep),
{
    let n = text.unicode_len();
    let mut out: Vec<String> = Vec::new();
    let mut current = String::new();
    let mut i: usize = 0;
    assert(text@.take(0) =~= Seq::<char>::empty());
    assert(split_on(Seq::<char>::empty(), sep) =~= Seq::new(out@.len(), |k: int| out@[k]@).push(current@));
    while i < n
        invariant
            n == text@.len(),
            i <= n,
            split_on(text@.take(i as int), sep) == Seq::new(out@.len(), |k: int| out@[k]@).push(current@),
        decreases n - i,
    {
        let c = text.get_char(i);
        proof {
            assert(text@.take(i + 1).drop_last() =~= text@.take(i as int));
            assert(text@.take(i + 1).last() == c);
        }
        let ghost before = Seq::new(out@.len(), |k: int| out@[k]@);
        let ghost cur = current@;
        if c == sep {
            out.push(current);
            current = String::new();
            assert(Seq::new(out@.len(), |k: int| out@[k]@) =~= before.push(cur));
        } else {
            push_char(&mut current, c);
            assert(before.push(cur).update(before.len() as int, cur.push(c)) =~= before.push(current@));
        }
        i = i + 1;
    }
    assert(text@.take(n as int) =~= text@);
    let ghost before = Seq::new(out@.len(), |k: int| out@[k]@);
    out.push(current);
    assert(Seq::new(out@.len(), |k: int| out@[k]@) =~= before.push(current@));
    out
}

fn strip_cr_text(s: &String) -> (r: String)
    ensures
        r@ == strip_cr(s@),
{
    let n = s.unicode_len();
    if n > 0 && s.get_char(n - 1) == '\r' {
        let t = s.as_str().substring_char(0, n - 1);
        assert(t@ =~= s@.drop_last());
        t.to_string()
    } else {
        s.clone()
    }
}

fn end_lines(pieces: Vec<String>, ended: bool) -> (r: Vec<String>)
    ensures
        Seq::new(r@.len(), |k: int| r@[k]@) == ended_lines(Seq::new(pieces@.len(), |k: int| pieces@[k]@), ended),
{
    let ghost p = Seq::new(pieces@.len(), |k: int| pieces@[k]@);
    let mut out: Vec<String> = Vec::new();
    let mut i: usize = 0;
    while i < pieces.len()
        invariant
            i <= pieces@.len(),
            p == Seq::new(pieces@.len(), |k: int| pieces@[k]@),
            out@.len() == i,
            forall|k: int| 0 <= k < i ==> (#[trigger] out@[k])@ == ended_lines(p, ended)[k],
        decreases pieces@.len() - i,
    {
        if i + 1 < pieces.len() || ended {
            out.push(strip_cr_text(&pieces[i]));
        } else {
            out.push(pieces[i].clone());
        }
        i = i + 1;
    }
    assert(Seq::new(out@.len(), |k: int| out@[k]@) =~= ended_lines(p, ended));
    out
}

/// The lines of `text`.
pub fn text_lines(text: &str) -> (r: Vec<String>)
    ensures
        Seq::new(r@.len(), |k: int| r@[k]@) == lines_of(text@),
{
    let n = text.unicode_len();
    if n == 0 {
        let r: Vec<String> = Vec::new();
        assert(Seq::new(r@.len(), |k: int| r@[k]@) =~= lines_of(text@));
        return r;
    }
    if text.get_char(n - 1) == '\n' {
        let body = text.substring_char(0, n - 1);
        assert(body@ =~= text@.drop_last());
        end_lines(split_text(body, '\n'), true)
    } else {
        end_lines(split_text(text, '\n'), false)
    }
}

/// Whether one of the first 8192 bytes is NUL.
pub open spec fn nul_in_head(bytes: Seq<u8>) -> bool {
    exists|i: int| 0 <= i < bytes.len() && i < 8192 && bytes[i] == 0
}

/// Whether the first 8192 bytes hold a NUL.
pub fn has_nul_in_head(bytes: &[u8]) -> (r: bool)
    ensures
        r == nul_in_head(bytes@),
{
    let mut i: usize = 0;
    while i < bytes.len() && i < 8192
        invariant
            i <= bytes@.len(),
            i <= 8192,
            forall|k: int| 0 <= k < i ==> bytes@[k] != 0,
        decreases bytes@.len() - i,
    {
        if bytes[i] == 0 {
            return true;
        }
        i = i + 1;
    }
    false
}

/// A configured context query: its rule and its pattern.
#[derive(Debug, Clone, PartialEq, Eq)]
pub struct ConfiguredQuery {
    pub rule_id: String,
    pub pattern: String,
}

/// A configured test hint: the patterns that trigger it and what it says.
#[derive(Debug, Clone, PartialEq, Eq)]
pub struct TestHint {
    pub rule_id: String,
    pub path_pattern: Option<String>,
    pub content_pattern: Option<String>,
    pub test_kind: String,
    pub environment_dependency: String,
    pub confidence: String,
    pub hint: String,
}

/// The candidate's text configuration.
#[derive(Debug, Clone, PartialEq, Eq)]
pub struct TextConfiguration {
    pub queries: Vec<ConfiguredQuery>,
    pub test_hints: Vec<TestHint>,
    pub limitation_codes: Vec<String>,
}

/// A line that configures nothing: blank, or a `#` comment.
pub open spec fn skipped_line(t: Seq<char>) -> bool {
    t.len() == 0 || t[0] == '#'
}

/// The number `n` with at least three digits.
pub open spec fn pad3(n: nat) -> Seq<char> {
    if n < 10 {
        "00"@ + decimal(n)
    } else if n < 100 {
        "0"@ + decimal(n)
    } else {
        decimal(n)
    }
}

/// The rule of the query on line `n` (one-based).
pub open spec fn query_rule_id(n: nat) -> Seq<char> {
    "context-query-"@ + pad3(n)
}

/// The context-query walk from line `k`: the queries accepted (line
/// position and pattern), the codes recorded, and the pattern charges
/// made. Each configuring line costs one pattern; when none is left the
/// walk stops.
pub open spec fn query_walk(lines: Seq<Seq<char>>, k: int, room: int) -> (
    Seq<(int, Seq<char>)>,
    Seq<Seq<char>>,
    int,
)
    decreases lines.len() - k,
{
    if k < 0 || k >= lines.len() {
        (Seq::empty(), Seq::empty(), 0)
    } else {
        let p = trim_spec(lines[k]);
        let rest = query_walk(lines, k + 1, room - 1);
        if skipped_line(p) {
            query_walk(lines, k + 1, room)
        } else if room <= 0 {
            (Seq::empty(), seq!["query-pattern-budget-exhausted"@], 0)
        } else if p.len() > 500 {
            (rest.0, seq!["text-query-too-long"@] + rest.1, rest.2 + 1)
        } else if regex_accepts(p) {
            (seq![(k, p)] + rest.0, rest.1, rest.2 + 1)
        } else {
            (rest.0, seq!["invalid-text-query"@] + rest.1, rest.2 + 1)
        }
    }
}

/// Some text of `s` is `c`.
pub open spec fn has_text(s: Seq<String>, c: Seq<char>) -> bool {
    exists|i: int| 0 <= i < s.len() && #[trigger] s[i]@ == c
}

/// `out` holds the texts of `before` and the listed codes.
pub open spec fn codes_added(before: Seq<String>, listed: Seq<Seq<char>>, out: Seq<String>) -> bool {
    forall|c: Seq<char>| #[trigger] has_text(out, c) <==> (has_text(before, c) || listed.contains(c))
}

proof fn lemma_push_unique_codes(
    before: Seq<String>,
    mid: Seq<String>,
    out: Seq<String>,
    listed: Seq<Seq<char>>,
    code: Seq<char>,
)
    requires
        codes_added(before, listed, mid),
        has_text(mid, code) ==> out == mid,
        !has_text(mid, code) ==> out.len() == mid.len() + 1 && out.take(mid.len() as int) == mid
            && out.last()@ == code,
    ensures
        codes_added(before, listed.push(code), out),
{
    assert forall|c: Seq<char>| #[trigger] has_text(out, c) <==> (has_text(before, c) || listed.push(code).contains(c)) by {
        assert(listed.push(code).contains(c) <==> (listed.contains(c) || c == code)) by {
            if listed.contains(c) {
                let j = choose|j: int| 0 <= j < listed.len() && listed[j] == c;
                assert(listed.push(code)[j] == c);
            }
            if c == code {
                assert(listed.push(code)[listed.len() as int] == c);
            }
            if listed.push(code).contains(c) {
                let j = choose|j: int| 0 <= j < listed.push(code).len() && listed.push(code)[j] == c;
                if j < listed.len() {
                    assert(listed[j] == c);
                }
            }
        }
        assert(has_text(mid, c) <==> (has_text(before, c) || listed.contains(c)));
        if !has_text(mid, code) {
            assert(has_text(out, c) <==> (has_text(mid, c) || c == code)) by {
                if has_text(out, c) {
                    let i = choose|i: int| 0 <= i < out.len() && #[trigger] out[i]@ == c;
                    if i < mid.len() {
                        assert(out.take(mid.len() as int)[i] == out[i]);
                        assert(mid[i]@ == c);
                    }
                }
                if has_text(mid, c) {
                    let i = choose|i: int| 0 <= i < mid.len() && #[trigger] mid[i]@ == c;
                    assert(out.take(mid.len() as int)[i] == out[i]);
                    assert(out[i]@ == c);
                }
                if c == code {
                    assert(out[out.len() - 1]@ == c);
                }
            }
        }
    }
}

/// Adds `code` unless present, keeping track of the codes added so far.
fn add_code(codes: &mut Vec<String>, code: &str, Ghost(before): Ghost<Seq<String>>, Ghost(listed): Ghost<Seq<Seq<char>>>)
    requires
        codes_added(before, listed, old(codes)@),
    ensures
        codes_added(before, listed.push(code@), final(codes)@),
{
    let ghost mid = codes@;
    push_unique(codes, code);
    proof {
        if has_text(mid, code@) {
            let i = choose|i: int| 0 <= i < mid.len() && #[trigger] mid[i]@ == code@;
            assert(exists|i: int| 0 <= i < mid.len() && mid[i]@ == code@);
        } else {
            assert(!(exists|i: int| 0 <= i < mid.len() && mid[i]@ == code@));
        }
        lemma_push_unique_codes(before, mid, codes@, listed, code@);
    }
}

fn rule_for_line(n: usize) -> (r: String)
    ensures
        r@ == query_rule_id(n as nat),
{
    let mut out = String::from_str("context-query-");
    if n < 10 {
        push_text(&mut out, "00");
    } else if n < 100 {
        push_text(&mut out, "0");
    }
    push_decimal(&mut out, n as u64);
    proof {
        reveal_strlit("context-query-");
        reveal_strlit("00");
        reveal_strlit("0");
    }
    assert(out@ =~= query_rule_id(n as nat));
    out
}

fn starts_with_hash(t: &str) -> (r: bool)
    ensures
        r == (t@.len() > 0 && t@[0] == '#'),
{
    t.unicode_len() > 0 && t.get_char(0) == '#'
}

/// Reads the context queries from the bytes of the query file.
pub fn load_context_queries(
    bytes: &[u8],
    budget: &mut BudgetTracker,
    codes: &mut Vec<String>,
) -> (r: Vec<ConfiguredQuery>)
    requires
        old(budget).wf(),
    ensures
        final(budget).wf(),
        final(budget).budget_of() == old(budget).budget_of(),
        forall|other: BudgetResource|
            other != BudgetResource::QueryPatterns ==> #[trigger] final(budget).consumed_of(other)
                == old(budget).consumed_of(other),
        nul_in_head(bytes@) ==> r@.len() == 0 && codes_added(
            old(codes)@,
            seq!["binary-context-query-config"@],
            final(codes)@,
        ) && final(budget).consumed_of(BudgetResource::QueryPatterns) == old(budget).consumed_of(
            BudgetResource::QueryPatterns,
        ),
        !nul_in_head(bytes@) ==> ({
            let walk = query_walk(
                lines_of(utf8_lossy(bytes@)),
                0,
                old(budget).budget_of().limit_of(BudgetResource::QueryPatterns) - old(
                    budget,
                ).consumed_of(BudgetResource::QueryPatterns),
            );
            &&& r@.len() == walk.0.len()
            &&& forall|j: int|
                0 <= j < r@.len() ==> (#[trigger] r@[j]).pattern@ == walk.0[j].1 && r@[j].rule_id@
                    == query_rule_id((walk.0[j].0 + 1) as nat)
            &&& codes_added(
                old(codes)@,
                walk.1.push("text-query-scope-changed-files"@),
                final(codes)@,
            )
            &&& final(budget).consumed_of(BudgetResource::QueryPatterns) == old(budget).consumed_of(
                BudgetResource::QueryPatterns,
            ) + walk.2
        }),
{
    let ghost before = codes@;
    let mut queries: Vec<ConfiguredQuery> = Vec::new();
    if has_nul_in_head(bytes) {
        assert(codes_added(before, Seq::empty(), codes@));
        add_code(codes, "binary-context-query-config", Ghost(before), Ghost(Seq::empty()));
        assert(seq![]+ seq!["binary-context-query-config"@] =~= seq!["binary-context-query-config"@]);
        assert(Seq::<Seq<char>>::empty().push("binary-context-query-config"@) =~= seq!["binary-context-query-config"@]);
        return queries;
    }
    let text = decode_lossy(bytes);
    let lines = text_lines(text.as_str());
    let ghost ls = Seq::new(lines@.len(), |k: int| lines@[k]@);
    let ghost res = BudgetResource::QueryPatterns;
    let ghost room0 = budget.budget_of().limit_of(res) - budget.consumed_of(res);
    let ghost c0 = budget.consumed_of(res);
    let ghost walk = query_walk(ls, 0, room0);
    let ghost mut acc_done: Seq<(int, Seq<char>)> = Seq::empty();
    let ghost mut codes_done: Seq<Seq<char>> = Seq::empty();
    let mut k: usize = 0;
    let mut stopped = false;
    assert(codes_added(before, codes_done, codes@));
    while k < lines.len() && !stopped
        invariant
            k <= lines@.len(),
            stopped ==> acc_done == walk.0 && codes_done == walk.1 && budget.consumed_of(res) - c0 == walk.2,
            ls == Seq::new(lines@.len(), |q: int| lines@[q]@),
            ls.len() == lines@.len(),
            budget.wf(),
            budget.budget_of() == old(budget).budget_of(),
            res == BudgetResource::QueryPatterns,
            c0 == old(budget).consumed_of(res),
            room0 == old(budget).budget_of().limit_of(res) - c0,
            walk == query_walk(ls, 0, room0),
            forall|other: BudgetResource|
                other != BudgetResource::QueryPatterns ==> #[trigger] budget.consumed_of(other)
                    == old(budget).consumed_of(other),
            !stopped ==> ({
                let rest = query_walk(ls, k as int, budget.budget_of().limit_of(res) - budget.consumed_of(res));
                &&& acc_done + rest.0 == walk.0
                &&& codes_done + rest.1 == walk.1
                &&& budget.consumed_of(res) - c0 + rest.2 == walk.2
            }),
            queries@.len() == acc_done.len(),
            forall|j: int|
                0 <= j < queries@.len() ==> (#[trigger] queries@[j]).pattern@ == acc_done[j].1
                    && queries@[j].rule_id@ == query_rule_id((acc_done[j].0 + 1) as nat),
            forall|j: int| 0 <= j < acc_done.len() ==> 0 <= #[trigger] acc_done[j].0 < lines@.len(),
            codes_added(before, codes_done, codes@),
        decreases (lines@.len() - k) * 2 + (if stopped { 0int } else { 1int }),
    {
        let ghost room = budget.budget_of().limit_of(res) - budget.consumed_of(res);
        let ghost rest_next = query_walk(ls, k + 1, room - 1);
        let pattern = trim_text(lines[k].as_str());
        assert(ls[k as int] == lines@[k as int]@);
        if pattern.unicode_len() == 0 || starts_with_hash(pattern.as_str()) {
            k = k + 1;
            continue;
        }
        let ghost budget_before = *budget;
        if budget.consume(BudgetResource::QueryPatterns, 1).is_err() {
            add_code(codes, "query-pattern-budget-exhausted", Ghost(before), Ghost(codes_done));
            proof {
                codes_done = codes_done.push("query-pattern-budget-exhausted"@);
                assert(codes_done =~= walk.1);
                assert(acc_done =~= walk.0);
            }
            stopped = true;
        } else {
        if pattern.unicode_len() > 500 {
            add_code(codes, "text-query-too-long", Ghost(before), Ghost(codes_done));
            proof {
                assert(codes_done.push("text-query-too-long"@) + rest_next.1 =~= codes_done + (seq!["text-query-too-long"@] + rest_next.1));
                codes_done = codes_done.push("text-query-too-long"@);
            }
        } else if regex_compiles(pattern.as_str()) {
            let rule_id = rule_for_line(k + 1);
            queries.push(ConfiguredQuery { rule_id, pattern });
            proof {
                assert(acc_done.push((k as int, trim_spec(ls[k as int]))) + rest_next.0 =~= acc_done + (seq![(k as int, trim_spec(ls[k as int]))] + rest_next.0));
                acc_done = acc_done.push((k as int, trim_spec(ls[k as int])));
            }
        } else {
            add_code(codes, "invalid-text-query", Ghost(before), Ghost(codes_done));
            proof {
                assert(codes_done.push("invalid-text-query"@) + rest_next.1 =~= codes_done + (seq!["invalid-text-query"@] + rest_next.1));
                codes_done = codes_done.push("invalid-text-query"@);
            }
        }
        k = k + 1;
        }
    }
    proof {
        let room = budget.budget_of().limit_of(res) - budget.consumed_of(res);
        if !stopped {
            assert(acc_done =~= walk.0);
            assert(codes_done =~= walk.1);
        }
    }
    add_code(codes, "text-query-scope-changed-files", Ghost(before), Ghost(codes_done));
    queries
}

/// The texts of `s` joined with `sep` between them.
pub open spec fn join_with(s: Seq<Seq<char>>, sep: Seq<char>) -> Seq<char>
    decreases s.len(),
{
    if s.len() == 0 {
        Seq::empty()
    } else if s.len() == 1 {
        s[0]
    } else {
        join_with(s.drop_last(), sep) + sep + s.last()
    }
}

/// An empty pattern stands for none.
pub open spec fn optional_pattern(t: Seq<char>) -> Option<Seq<char>> {
    if t.len() == 0 {
        None
    } else {
        Some(t)
    }
}

/// A pattern that is absent or compiles.
pub open spec fn pattern_ok(t: Seq<char>) -> bool {
    t.len() == 0 || regex_accepts(t)
}

/// The text of a test hint.
pub struct HintText {
    pub rule_id: Seq<char>,
    pub path_pattern: Option<Seq<char>>,
    pub content_pattern: Option<Seq<char>>,
    pub test_kind: Seq<char>,
    pub environment_dependency: Seq<char>,
    pub confidence: Seq<char>,
    pub hint: Seq<char>,
}

/// The text of a test hint.
pub open spec fn hint_text(h: TestHint) -> HintText {
    HintText {
        rule_id: h.rule_id@,
        path_pattern: match h.path_pattern {
            Some(p) => Some(p@),
            None => None,
        },
        content_pattern: match h.content_pattern {
            Some(p) => Some(p@),
            None => None,
        },
        test_kind: h.test_kind@,
        environment_dependency: h.environment_dependency@,
        confidence: h.confidence@,
        hint: h.hint@,
    }
}

/// The hint a configuring line defines: seven or more tab-separated
/// fields (rule, path pattern, content pattern, test kind, environment
/// dependency, confidence, then the hint, whose fields are joined with
/// spaces), patterns that compile, and no required field blank.
pub open spec fn hint_of_line(line: Seq<char>) -> Option<HintText> {
    let parts = split_on(line, '\t');
    let pp = trim_spec(parts[1]);
    let cp = trim_spec(parts[2]);
    let h = join_with(parts.skip(6), " "@);
    if parts.len() < 7 {
        None
    } else if !pattern_ok(pp) || !pattern_ok(cp) {
        None
    } else if trim_spec(parts[0]).len() == 0 || trim_spec(parts[3]).len() == 0 || trim_spec(
        parts[4],
    ).len() == 0 || trim_spec(parts[5]).len() == 0 || trim_spec(h).len() == 0 {
        None
    } else {
        Some(
            HintText {
                rule_id: fact_text_spec(trim_spec(parts[0])),
                path_pattern: optional_pattern(pp),
                content_pattern: optional_pattern(cp),
                test_kind: fact_text_spec(trim_spec(parts[3])),
                environment_dependency: fact_text_spec(trim_spec(parts[4])),
                confidence: fact_text_spec(trim_spec(parts[5])),
                hint: fact_text_spec(trim_spec(h)),
            },
        )
    }
}

/// The test-hint walk from line `k`: the hints accepted, the codes
/// recorded and the pattern charges made.
pub open spec fn hint_walk(lines: Seq<Seq<char>>, k: int, room: int) -> (
    Seq<HintText>,
    Seq<Seq<char>>,
    int,
)
    decreases lines.len() - k,
{
    if k < 0 || k >= lines.len() {
        (Seq::empty(), Seq::empty(), 0)
    } else {
        let rest = hint_walk(lines, k + 1, room - 1);
        if skipped_line(trim_spec(lines[k])) {
            hint_walk(lines, k + 1, room)
        } else if room <= 0 {
            (Seq::empty(), seq!["query-pattern-budget-exhausted"@], 0)
        } else {
            match hint_of_line(lines[k]) {
                Some(h) => (seq![h] + rest.0, rest.1, rest.2 + 1),
                None => (rest.0, seq!["invalid-test-hint"@] + rest.1, rest.2 + 1),
            }
        }
    }
}

fn join_parts(parts: &Vec<String>, from: usize) -> (r: String)
    requires
        from <= parts@.len(),
    ensures
        r@ == join_with(Seq::new(parts@.len(), |k: int| parts@[k]@).skip(from as int), " "@),
{
    let ghost all = Seq::new(parts@.len(), |k: int| parts@[k]@);
    let mut out = String::new();
    let mut i: usize = from;
    proof {
        reveal_strlit(" ");
        assert(all.skip(from as int).take(0) =~= Seq::<Seq<char>>::empty());
    }
    while i < parts.len()
        invariant
            from <= i <= parts@.len(),
            all == Seq::new(parts@.len(), |k: int| parts@[k]@),
            out@ == join_with(all.skip(from as int).take(i - from), " "@),
        decreases parts@.len() - i,
    {
        let ghost piece = all.skip(from as int).take(i + 1 - from);
        assert(piece.drop_last() =~= all.skip(from as int).take(i - from));
        assert(piece.last() == parts@[i as int]@);
        if i > from {
            proof {
                reveal_strlit(" ");
            }
            push_char(&mut out, ' ');
            assert(" "@ =~= seq![' ']);
        }
        push_text(&mut out, parts[i].as_str());
        proof {
            if i == from {
                assert(piece.len() == 1);
                assert(out@ =~= piece[0]);
            } else {
                assert(out@ =~= join_with(piece.drop_last(), " "@) + " "@ + piece.last());
            }
        }
        i = i + 1;
    }
    assert(all.skip(from as int).take(parts@.len() - from) =~= all.skip(from as int));
    out
}

fn optional_regex(pattern: String) -> (r: Result<Option<String>, ()>)
    ensures
        r is Ok <==> pattern_ok(pattern@),
        r matches Ok(o) ==> match o {
            Some(p) => p@ == pattern@ && pattern@.len() > 0,
            None => pattern@.len() == 0,
        },
{
    if pattern.unicode_len() == 0 {
        Ok(None)
    } else if regex_compiles(pattern.as_str()) {
        Ok(Some(pattern))
    } else {
        Err(())
    }
}

/// The hint a configuring line defines, if it is well formed.
pub fn hint_from_line(line: &str) -> (r: Option<TestHint>)
    ensures
        match (r, hint_of_line(line@)) {
            (Some(h), Some(t)) => hint_text(h) == t,
            (None, None) => true,
            _ => false,
        },
{
    let parts = split_text(line, '\t');
    let ghost ps = Seq::new(parts@.len(), |k: int| parts@[k]@);
    if parts.len() < 7 {
        return None;
    }
    assert(ps[1] == parts@[1]@ && ps[2] == parts@[2]@ && ps[0] == parts@[0]@);
    assert(ps[3] == parts@[3]@ && ps[4] == parts@[4]@ && ps[5] == parts@[5]@);
    let path_pattern = match optional_regex(trim_text(parts[1].as_str())) {
        Ok(o) => o,
        Err(_) => return None,
    };
    let content_pattern = match optional_regex(trim_text(parts[2].as_str())) {
        Ok(o) => o,
        Err(_) => return None,
    };
    let hint = trim_text(join_parts(&parts, 6).as_str());
    let rule = trim_text(parts[0].as_str());
    let kind = trim_text(parts[3].as_str());
    let environment = trim_text(parts[4].as_str());
    let confidence = trim_text(parts[5].as_str());
    if rule.unicode_len() == 0 || kind.unicode_len() == 0 || environment.unicode_len() == 0
        || confidence.unicode_len() == 0 || hint.unicode_len() == 0 {
        return None;
    }
    let h = TestHint {
        rule_id: fact_text(rule.as_str()),
        path_pattern,
        content_pattern,
        test_kind: fact_text(kind.as_str()),
        environment_dependency: fact_text(environment.as_str()),
        confidence: fact_text(confidence.as_str()),
        hint: fact_text(hint.as_str()),
    };
    Some(h)
}

/// Reads the test hints from the bytes of the hint file.
pub fn load_test_hints(
    bytes: &[u8],
    budget: &mut BudgetTracker,
    codes: &mut Vec<String>,
) -> (r: Vec<TestHint>)
    requires
        old(budget).wf(),
    ensures
        final(budget).wf(),
        final(budget).budget_of() == old(budget).budget_of(),
        forall|other: BudgetResource|
            other != BudgetResource::QueryPatterns ==> #[trigger] final(budget).consumed_of(other)
                == old(budget).consumed_of(other),
        nul_in_head(bytes@) ==> r@.len() == 0 && codes_added(
            old(codes)@,
            seq!["binary-test-hint-config"@],
            final(codes)@,
        ) && final(budget).consumed_of(BudgetResource::QueryPatterns) == old(budget).consumed_of(
            BudgetResource::QueryPatterns,
        ),
        !nul_in_head(bytes@) ==> ({
            let walk = hint_walk(
                lines_of(utf8_lossy(bytes@)),
                0,
                old(budget).budget_of().limit_of(BudgetResource::QueryPatterns) - old(
                    budget,
                ).consumed_of(BudgetResource::QueryPatterns),
            );
            &&& r@.len() == walk.0.len()
            &&& forall|j: int| 0 <= j < r@.len() ==> hint_text(#[trigger] r@[j]) == walk.0[j]
            &&& codes_added(old(codes)@, walk.1, final(codes)@)
            &&& final(budget).consumed_of(BudgetResource::QueryPatterns) == old(budget).consumed_of(
                BudgetResource::QueryPatterns,
            ) + walk.2
        }),
{
    let ghost before = codes@;
    let mut hints: Vec<TestHint> = Vec::new();
    if has_nul_in_head(bytes) {
        assert(codes_added(before, Seq::empty(), codes@));
        add_code(codes, "binary-test-hint-config", Ghost(before), Ghost(Seq::empty()));
        assert(Seq::<Seq<char>>::empty().push("binary-test-hint-config"@) =~= seq!["binary-test-hint-config"@]);
        return hints;
    }
    let text = decode_lossy(bytes);
    let lines = text_lines(text.as_str());
    let ghost ls = Seq::new(lines@.len(), |k: int| lines@[k]@);
    let ghost res = BudgetResource::QueryPatterns;
    let ghost room0 = budget.budget_of().limit_of(res) - budget.consumed_of(res);
    let ghost c0 = budget.consumed_of(res);
    let ghost walk = hint_walk(ls, 0, room0);
    let ghost mut acc_done: Seq<HintText> = Seq::empty();
    let ghost mut codes_done: Seq<Seq<char>> = Seq::empty();
    let mut k: usize = 0;
    let mut stopped = false;
    assert(codes_added(before, codes_done, codes@));
    while k < lines.len() && !stopped
        invariant
            k <= lines@.len(),
            stopped ==> acc_done == walk.0 && codes_done == walk.1 && budget.consumed_of(res) - c0 == walk.2,
            ls == Seq::new(lines@.len(), |q: int| lines@[q]@),
            ls.len() == lines@.len(),
            budget.wf(),
            budget.budget_of() == old(budget).budget_of(),
            res == BudgetResource::QueryPatterns,
            c0 == old(budget).consumed_of(res),
            room0 == old(budget).budget_of().limit_of(res) - c0,
            walk == hint_walk(ls, 0, room0),
            forall|other: BudgetResource|
                other != BudgetResource::QueryPatterns ==> #[trigger] budget.consumed_of(other)
                    == old(budget).consumed_of(other),
            !stopped ==> ({
                let rest = hint_walk(ls, k as int, budget.budget_of().limit_of(res) - budget.consumed_of(res));
                &&& acc_done + rest.0 == walk.0
                &&& codes_done + rest.1 == walk.1
                &&& budget.consumed_of(res) - c0 + rest.2 == walk.2
            }),
            hints@.len() == acc_done.len(),
            forall|j: int| 0 <= j < hints@.len() ==> hint_text(#[trigger] hints@[j]) == acc_done[j],
            codes_added(before, codes_done, codes@),
        decreases (lines@.len() - k) * 2 + (if stopped { 0int } else { 1int }),
    {
        let ghost room = budget.budget_of().limit_of(res) - budget.consumed_of(res);
        let ghost rest_next = hint_walk(ls, k + 1, room - 1);
        let trimmed = trim_text(lines[k].as_str());
        assert(ls[k as int] == lines@[k as int]@);
        if trimmed.unicode_len() == 0 || starts_with_hash(trimmed.as_str()) {
            k = k + 1;
        } else if budget.consume(BudgetResource::QueryPatterns, 1).is_err() {
            add_code(codes, "query-pattern-budget-exhausted", Ghost(before), Ghost(codes_done));
            proof {
                codes_done = codes_done.push("query-pattern-budget-exhausted"@);
                assert(codes_done =~= walk.1);
                assert(acc_done =~= walk.0);
            }
            stopped = true;
        } else {
            match hint_from_line(lines[k].as_str()) {
                Some(h) => {
                    proof {
                        let t = hint_text(h);
                        assert(acc_done.push(t) + rest_next.0 =~= acc_done + (seq![t] + rest_next.0));
                        acc_done = acc_done.push(t);
                    }
                    hints.push(h);
                },
                None => {
                    add_code(codes, "invalid-test-hint", Ghost(before), Ghost(codes_done));
                    proof {
                        assert(codes_done.push("invalid-test-hint"@) + rest_next.1 =~= codes_done + (seq!["invalid-test-hint"@] + rest_next.1));
                        codes_done = codes_done.push("invalid-test-hint"@);
                    }
                },
            }
            k = k + 1;
        }
    }
    proof {
        if !stopped {
            assert(acc_done =~= walk.0);
            assert(codes_done =~= walk.1);
        }
    }
    hints
}

/// What the query file contributes: accepted queries, codes and charges.
pub open spec fn query_part(bytes: Option<Seq<u8>>, room: int) -> (
    Seq<(int, Seq<char>)>,
    Seq<Seq<char>>,
    int,
) {
    match bytes {
        None => (Seq::empty(), Seq::empty(), 0),
        Some(b) => if nul_in_head(b) {
            (Seq::empty(), seq!["binary-context-query-config"@], 0)
        } else {
            let w = query_walk(lines_of(utf8_lossy(b)), 0, room);
            (w.0, w.1.push("text-query-scope-changed-files"@), w.2)
        },
    }
}

/// What the hint file contributes: accepted hints, codes and charges.
pub open spec fn hint_part(bytes: Option<Seq<u8>>, room: int) -> (Seq<HintText>, Seq<Seq<char>>, int) {
    match bytes {
        None => (Seq::empty(), Seq::empty(), 0),
        Some(b) => if nul_in_head(b) {
            (Seq::empty(), seq!["binary-test-hint-config"@], 0)
        } else {
            hint_walk(lines_of(utf8_lossy(b)), 0, room)
        },
    }
}

proof fn lemma_has_text_multiset(a: Seq<String>, b: Seq<String>, c: Seq<char>)
    requires
        a.to_multiset() == b.to_multiset(),
    ensures
        has_text(a, c) == has_text(b, c),
{
    if has_text(a, c) {
        let i = choose|i: int| 0 <= i < a.len() && #[trigger] a[i]@ == c;
        vstd::seq_lib::to_multiset_contains(a, a[i]);
        vstd::seq_lib::to_multiset_contains(b, a[i]);
        assert(a.contains(a[i]));
        let j = choose|j: int| 0 <= j < b.len() && b[j] == a[i];
        assert(b[j]@ == c);
    }
    if has_text(b, c) {
        let j = choose|j: int| 0 <= j < b.len() && #[trigger] b[j]@ == c;
        vstd::seq_lib::to_multiset_contains(a, b[j]);
        vstd::seq_lib::to_multiset_contains(b, b[j]);
        assert(b.contains(b[j]));
        let i = choose|i: int| 0 <= i < a.len() && a[i] == b[j];
        assert(a[i]@ == c);
    }
}

impl TextAdapter {
    /// The text configuration from the bytes of the context-query file and
    /// of the test-hint file, where the candidate has them: the queries and
    /// hints they define, and the codes of what limited them, sorted. Each
    /// configuring line costs one query pattern.
    pub fn load_configuration(
        context_queries: Option<&[u8]>,
        test_hints: Option<&[u8]>,
        budget: &mut BudgetTracker,
    ) -> (c: TextConfiguration)
        requires
            old(budget).wf(),
        ensures
            final(budget).wf(),
            final(budget).budget_of() == old(budget).budget_of(),
            forall|other: BudgetResource|
                other != BudgetResource::QueryPatterns ==> #[trigger] final(budget).consumed_of(other)
                    == old(budget).consumed_of(other),
            ({
                let room = old(budget).budget_of().limit_of(BudgetResource::QueryPatterns) - old(
                    budget,
                ).consumed_of(BudgetResource::QueryPatterns);
                let q = query_part(
                    match context_queries {
                        Some(b) => Some(b@),
                        None => None,
                    },
                    room,
                );
                let h = hint_part(
                    match test_hints {
                        Some(b) => Some(b@),
                        None => None,
                    },
                    room - q.2,
                );
                &&& c.queries@.len() == q.0.len()
                &&& forall|j: int|
                    0 <= j < c.queries@.len() ==> (#[trigger] c.queries@[j]).pattern@ == q.0[j].1
                        && c.queries@[j].rule_id@ == query_rule_id((q.0[j].0 + 1) as nat)
                &&& c.test_hints@.len() == h.0.len()
                &&& forall|j: int| 0 <= j < c.test_hints@.len() ==> hint_text(#[trigger] c.test_hints@[j]) == h.0[j]
                &&& sorted_by_order(c.limitation_codes@)
                &&& forall|t: Seq<char>| #[trigger] has_text(c.limitation_codes@, t) <==> (q.1 + h.1).contains(t)
                &&& final(budget).consumed_of(BudgetResource::QueryPatterns) == old(budget).consumed_of(
                    BudgetResource::QueryPatterns,
                ) + q.2 + h.2
            }),
    {
        let mut codes: Vec<String> = Vec::new();
        let ghost empty = codes@;
        let ghost res = BudgetResource::QueryPatterns;
        let ghost room = budget.budget_of().limit_of(res) - budget.consumed_of(res);
        let ghost qb = match context_queries {
            Some(b) => Some(b@),
            None => None,
        };
        let ghost hb = match test_hints {
            Some(b) => Some(b@),
            None => None,
        };
        let ghost q = query_part(qb, room);
        let queries = match context_queries {
            Some(b) => load_context_queries(b, budget, &mut codes),
            None => Vec::new(),
        };
        proof {
            assert(codes_added(empty, q.1, codes@));
        }
        let ghost mid = codes@;
        let ghost h = hint_part(hb, room - q.2);
        let hints = match test_hints {
            Some(b) => load_test_hints(b, budget, &mut codes),
            None => Vec::new(),
        };
        proof {
            assert(codes_added(mid, h.1, codes@));
            assert forall|t: Seq<char>| #[trigger] has_text(codes@, t) <==> (q.1 + h.1).contains(t) by {
                assert(!has_text(empty, t));
                if (q.1 + h.1).contains(t) {
                    let j = choose|j: int| 0 <= j < (q.1 + h.1).len() && (q.1 + h.1)[j] == t;
                    if j < q.1.len() {
                        assert(q.1[j] == t);
                        assert(q.1.contains(t));
                    } else {
                        assert(h.1[j - q.1.len()] == t);
                        assert(h.1.contains(t));
                    }
                }
                if q.1.contains(t) {
                    let j = choose|j: int| 0 <= j < q.1.len() && q.1[j] == t;
                    assert((q.1 + h.1)[j] == t);
                }
                if h.1.contains(t) {
                    let j = choose|j: int| 0 <= j < h.1.len() && h.1[j] == t;
                    assert((q.1 + h.1)[q.1.len() + j] == t);
                }
            }
        }
        let ghost unsorted = codes@;
        let sorted = stable_sort(codes);
        proof {
            assert forall|t: Seq<char>| #[trigger] has_text(sorted@, t) <==> (q.1 + h.1).contains(t) by {
                lemma_has_text_multiset(sorted@, unsorted, t);
            }
        }
        TextConfiguration { queries, test_hints: hints, limitation_codes: sorted }
    }
}

/// The character range of a byte span of `text`.
pub open spec fn span_chars(text: Seq<char>, span: (usize, usize)) -> (int, int) {
    let a = chars_within(text, span.0 as int) as int;
    let b = chars_within(text, span.1 as int) as int;
    (a, if b < a { a } else { b })
}

/// `f` is the fact of query rule `rule` at byte span `span` of `text`.
pub open spec fn query_fact(text: Seq<char>, rule: Seq<char>, span: (usize, usize), f: TextFact) -> bool {
    let (a, b) = span_chars(text, span);
    &&& fact_from_span_spec(text, a, b, rule, TextFactKind::ConfiguredQuery, f)
    &&& f.details@.len() == 0
}

/// The number of facts a query yields: its matches, at most `maximum`.
pub open spec fn query_fact_count(spans: Seq<(usize, usize)>, maximum: int) -> int {
    if spans.len() < maximum {
        spans.len() as int
    } else {
        maximum
    }
}

proof fn lemma_chars_within_bound(text: Seq<char>, byte: int)
    ensures
        chars_within(text, byte) <= text.len(),
    decreases text.len(),
{
    if text.len() > 0 && utf8_len(text) > byte {
        lemma_chars_within_bound(text.drop_last(), byte);
    }
}

/// The fact of the byte span `start..end` of `text`.
fn fact_at_bytes(
    text: &str,
    start: usize,
    end: usize,
    rule_id: &str,
    kind: TextFactKind,
    details: Vec<(String, String)>,
) -> (f: TextFact)
    requires
        4 * text@.len() < u32::MAX,
    ensures
        fact_from_span_spec(
            text@,
            span_chars(text@, (start, end)).0,
            span_chars(text@, (start, end)).1,
            rule_id@,
            kind,
            f,
        ),
        f.details@ == details@,
{
    let a = char_index_of_byte(text, start);
    let b0 = char_index_of_byte(text, end);
    let b = if b0 < a {
        a
    } else {
        b0
    };
    fact_from_span(text, a, b, rule_id, kind, details)
}

/// Records the facts of one configured query: one per match, in order,
/// up to `maximum` (a further match marks the unit partial); stops when
/// the fact budget runs out, and then reports it.
fn scan_query(
    text: &str,
    query: &ConfiguredQuery,
    maximum: usize,
    facts: &mut Vec<TextFact>,
    codes: &mut Vec<String>,
    status: &mut UnitStatus,
    budget: &mut BudgetTracker,
) -> (failed: bool)
    requires
        old(budget).wf(),
        4 * text@.len() < u32::MAX,
    ensures
        final(budget).wf(),
        final(budget).budget_of() == old(budget).budget_of(),
        final(facts)@.len() >= old(facts)@.len(),
        final(budget).consumed_of(BudgetResource::Facts) - old(budget).consumed_of(BudgetResource::Facts) == final(facts)@.len() - old(facts)@.len(),
        final(facts)@.take(old(facts)@.len() as int) == old(facts)@,
        ({
            let spans = regex_match_spans(query.pattern@, text@);
            let added = final(facts)@.len() - old(facts)@.len();
            &&& !regex_accepts(query.pattern@) ==> added == 0 && !failed
            &&& regex_accepts(query.pattern@) ==> added <= query_fact_count(spans, maximum as int)
                && (!failed ==> added == query_fact_count(spans, maximum as int))
                && forall|i: int|
                    0 <= i < added ==> query_fact(
                        text@,
                        query.rule_id@,
                        spans[i],
                        #[trigger] final(facts)@[old(facts)@.len() + i],
                    )
            &&& codes_added(
                old(codes)@,
                if failed {
                    seq!["fact-budget-exhausted"@]
                } else if regex_accepts(query.pattern@) && spans.len() > maximum {
                    seq!["query-match-budget-exhausted"@]
                } else {
                    Seq::empty()
                },
                final(codes)@,
            )
            &&& *final(status) == if failed {
                UnitStatus::BudgetExhausted
            } else if regex_accepts(query.pattern@) && spans.len() > maximum {
                UnitStatus::Partial
            } else {
                *old(status)
            }
        }),
{
    let spans = regex_find_spans(query.pattern.as_str(), text);
    let ghost start = facts@;
    let ghost before = codes@;
    assert(codes_added(before, Seq::empty(), codes@));
    let mut i: usize = 0;
    while i < spans.len() && i < maximum
        invariant
            budget.wf(),
            budget.budget_of() == old(budget).budget_of(),
            4 * text@.len() < u32::MAX,
            i <= spans@.len(),
            i <= maximum,
            codes@ == before,
            before == old(codes)@,
            codes_added(before, Seq::empty(), codes@),
            *status == *old(status),
            facts@.len() == start.len() + i,
            budget.consumed_of(BudgetResource::Facts) == old(budget).consumed_of(BudgetResource::Facts) + i,
            facts@.take(start.len() as int) == start,
            start == old(facts)@,
            regex_accepts(query.pattern@) ==> spans@ == regex_match_spans(query.pattern@, text@),
            !regex_accepts(query.pattern@) ==> spans@.len() == 0,
            forall|k: int|
                0 <= k < i ==> query_fact(text@, query.rule_id@, spans@[k], #[trigger] facts@[start.len() + k]),
        decreases spans@.len() - i,
    {
        let (a, b) = spans[i];
        let fact = fact_at_bytes(text, a, b, query.rule_id.as_str(), TextFactKind::ConfiguredQuery, Vec::new());
        let ghost prev = facts@;
        if !push_fact(facts, fact, budget) {
            add_code(codes, "fact-budget-exhausted", Ghost(before), Ghost(Seq::empty()));
            *status = UnitStatus::BudgetExhausted;
            assert(Seq::<Seq<char>>::empty().push("fact-budget-exhausted"@) =~= seq!["fact-budget-exhausted"@]);
            return true;
        }
        proof {
            assert(facts@ == prev.push(fact));
            assert(facts@.take(start.len() as int) =~= prev.take(start.len() as int));
            assert forall|k: int|
                0 <= k < i + 1 implies query_fact(text@, query.rule_id@, spans@[k], #[trigger] facts@[start.len() + k]) by {
                if k < i {
                    assert(facts@[start.len() + k] == prev[start.len() + k]);
                }
            }
        }
        i = i + 1;
    }
    if i < spans.len() {
        add_code(codes, "query-match-budget-exhausted", Ghost(before), Ghost(Seq::empty()));
        assert(Seq::<Seq<char>>::empty().push("query-match-budget-exhausted"@) =~= seq!["query-match-budget-exhausted"@]);
        *status = UnitStatus::Partial;
    }
    false
}

/// The byte spans that `regex::Regex::captures_iter` reports for each
/// match of `pattern` in `text`: the whole match and the first group.
pub uninterp spec fn regex_capture_spans(pattern: Seq<char>, text: Seq<char>) -> Seq<
    (Option<(usize, usize)>, Option<(usize, usize)>),
>;

/// `regex::Regex::captures_iter`: per match, the byte span of the whole
/// match (group 0, which every match has) and of the first group, where it
/// took part; nothing when the pattern does not compile.
#[verifier::external_body]
fn regex_captures(pattern: &str, text: &str) -> (r: Vec<(Option<(usize, usize)>, Option<(usize, usize)>)>)
    ensures
        regex_accepts(pattern@) ==> r@ == regex_capture_spans(pattern@, text@),
        !regex_accepts(pattern@) ==> r@.len() == 0,
        forall|i: int| 0 <= i < r@.len() ==> (#[trigger] r@[i]).0 is Some,
{
    let mut out = Vec::new();
    if let Ok(regex) = Regex::new(pattern) {
        for captures in regex.captures_iter(text) {
            out.push((captures.get(0).map(|m| (m.start(), m.end())), captures.get(1).map(|m| (m.start(), m.end()))));
        }
    }
    out
}

/// The key of a configuration match: its first group's text, else "item".
pub open spec fn capture_key(text: Seq<char>, group: Option<(usize, usize)>) -> Seq<char> {
    match group {
        Some(span) => {
            let (a, b) = span_chars(text, span);
            text.subrange(a, b)
        },
        None => "item"@,
    }
}

/// `f` is the configuration fact of capture `cap` for rules `prefix`.
pub open spec fn key_value_fact(
    text: Seq<char>,
    prefix: Seq<char>,
    cap: (Option<(usize, usize)>, Option<(usize, usize)>),
    f: TextFact,
) -> bool {
    let key = capture_key(text, cap.1);
    let (a, b) = span_chars(text, cap.0->0);
    &&& fact_from_span_spec(
        text,
        a,
        b,
        prefix + ":"@ + lower_seq(key),
        TextFactKind::Configuration,
        f,
    )
    &&& f.details@.len() == 1
    &&& f.details@[0].0@ == "key"@
    &&& f.details@[0].1@ == fact_text_spec(key)
}

/// Records one configuration fact per match of a built-in `pattern`;
/// stops when the fact budget runs out, and then reports it.
fn scan_key_values(
    text: &str,
    pattern: &str,
    prefix: &str,
    facts: &mut Vec<TextFact>,
    codes: &mut Vec<String>,
    status: &mut UnitStatus,
    budget: &mut BudgetTracker,
) -> (failed: bool)
    requires
        old(budget).wf(),
        4 * text@.len() < u32::MAX,
    ensures
        final(budget).wf(),
        final(budget).budget_of() == old(budget).budget_of(),
        final(facts)@.len() >= old(facts)@.len(),
        final(budget).consumed_of(BudgetResource::Facts) - old(budget).consumed_of(BudgetResource::Facts) == final(facts)@.len() - old(facts)@.len(),
        final(facts)@.take(old(facts)@.len() as int) == old(facts)@,
        ({
            let caps = regex_capture_spans(pattern@, text@);
            let added = final(facts)@.len() - old(facts)@.len();
            &&& regex_accepts(pattern@) ==> added <= caps.len() && (!failed ==> added == caps.len())
                && forall|i: int|
                    0 <= i < added ==> key_value_fact(text@, prefix@, caps[i], #[trigger] final(facts)@[old(facts)@.len() + i])
            &&& !regex_accepts(pattern@) ==> added == 0 && !failed
            &&& codes_added(
                old(codes)@,
                if failed {
                    seq!["fact-budget-exhausted"@]
                } else {
                    Seq::empty()
                },
                final(codes)@,
            )
            &&& *final(status) == if failed {
                UnitStatus::BudgetExhausted
            } else {
                *old(status)
            }
        }),
{
    let caps = regex_captures(pattern, text);
    let ghost start = facts@;
    let ghost before = codes@;
    assert(codes_added(before, Seq::empty(), codes@));
    let mut i: usize = 0;
    while i < caps.len()
        invariant
            budget.wf(),
            budget.budget_of() == old(budget).budget_of(),
            4 * text@.len() < u32::MAX,
            i <= caps@.len(),
            codes@ == before,
            before == old(codes)@,
            codes_added(before, Seq::empty(), codes@),
            *status == *old(status),
            facts@.len() == start.len() + i,
            budget.consumed_of(BudgetResource::Facts) == old(budget).consumed_of(BudgetResource::Facts) + i,
            facts@.take(start.len() as int) == start,
            start == old(facts)@,
            regex_accepts(pattern@) ==> caps@ == regex_capture_spans(pattern@, text@),
            !regex_accepts(pattern@) ==> caps@.len() == 0,
            forall|q: int| 0 <= q < caps@.len() ==> (#[trigger] caps@[q]).0 is Some,
            forall|k: int|
                0 <= k < i ==> key_value_fact(text@, prefix@, caps@[k], #[trigger] facts@[start.len() + k]),
        decreases caps@.len() - i,
    {
        let (whole, group) = caps[i];
        let (a, b) = match whole {
            Some(span) => span,
            None => {
                assert(false);
                i = i + 1;
                continue;
            },
        };
        let key: String = match group {
            Some((ga, gb)) => {
                let ka = char_index_of_byte(text, ga);
                let kb0 = char_index_of_byte(text, gb);
                let kb = if kb0 < ka {
                    ka
                } else {
                    kb0
                };
                String::from_str(text.substring_char(ka, kb))
            },
            None => String::from_str("item"),
        };
        let mut rule = String::from_str(prefix);
        push_char(&mut rule, ':');
        let lowered = to_ascii_lower(key.as_str());
        push_text(&mut rule, lowered.as_str());
        let mut details: Vec<(String, String)> = Vec::new();
        details.push((String::from_str("key"), fact_text(key.as_str())));
        let fact = fact_at_bytes(text, a, b, rule.as_str(), TextFactKind::Configuration, details);
        proof {
            reveal_strlit(":");
            assert(rule@ =~= prefix@ + ":"@ + lower_seq(capture_key(text@, caps@[i as int].1)));
        }
        let ghost prev = facts@;
        if !push_fact(facts, fact, budget) {
            add_code(codes, "fact-budget-exhausted", Ghost(before), Ghost(Seq::empty()));
            *status = UnitStatus::BudgetExhausted;
            assert(Seq::<Seq<char>>::empty().push("fact-budget-exhausted"@) =~= seq!["fact-budget-exhausted"@]);
            return true;
        }
        proof {
            assert(facts@.take(start.len() as int) =~= prev.take(start.len() as int));
            assert forall|k: int|
                0 <= k < i + 1 implies key_value_fact(text@, prefix@, caps@[k], #[trigger] facts@[start.len() + k]) by {
                if k < i {
                    assert(facts@[start.len() + k] == prev[start.len() + k]);
                }
            }
        }
        i = i + 1;
    }
    false
}

/// Whether `regex::Regex::is_match` finds `pattern` in `text`.
pub uninterp spec fn regex_matches_text(pattern: Seq<char>, text: Seq<char>) -> bool;

/// `regex::Regex::is_match`: whether `pattern` matches somewhere in
/// `text` (never, when it does not compile).
#[verifier::external_body]
fn regex_is_match(pattern: &str, text: &str) -> (r: bool)
    ensures
        regex_accepts(pattern@) ==> r == regex_matches_text(pattern@, text@),
        !regex_accepts(pattern@) ==> !r,
{
    match Regex::new(pattern) {
        Ok(regex) => regex.is_match(text),
        Err(_) => false,
    }
}

/// An optional pattern that is present and matches `text`.
pub open spec fn pattern_hits(p: Option<String>, text: Seq<char>) -> bool {
    match p {
        Some(x) => regex_accepts(x@) && regex_matches_text(x@, text),
        None => false,
    }
}

/// A test hint fires when its path pattern matches the path or its
/// content pattern matches the text.
pub open spec fn hint_fires(h: TestHint, path: Seq<char>, text: Seq<char>) -> bool {
    pattern_hits(h.path_pattern, path) || pattern_hits(h.content_pattern, text)
}

/// The hints that fire, in order.
pub open spec fn fired_hints(hints: Seq<TestHint>, path: Seq<char>, text: Seq<char>) -> Seq<TestHint>
    decreases hints.len(),
{
    if hints.len() == 0 {
        Seq::empty()
    } else if hint_fires(hints.last(), path, text) {
        fired_hints(hints.drop_last(), path, text).push(hints.last())
    } else {
        fired_hints(hints.drop_last(), path, text)
    }
}

/// The range of a hint fact: the start of the file.
pub open spec fn file_start() -> SourceRange {
    SourceRange { start_line: 1, start_column: 1, end_line: 1, end_column: 1, start_byte: 0, end_byte: 0 }
}

/// `f` is the fact of hint `h`.
pub open spec fn hint_fact(h: TestHint, f: TextFact) -> bool {
    &&& f.rule_id@ == h.rule_id@
    &&& f.kind == TextFactKind::TestHint
    &&& f.match_text@ == h.hint@
    &&& f.range == file_start()
    &&& f.provenance == TextProvenance::Textual
    &&& f.resolved_target is None
    &&& f.details@.len() == 3
    &&& f.details@[0].0@ == "confidence"@ && f.details@[0].1@ == h.confidence@
    &&& f.details@[1].0@ == "environment_dependency"@ && f.details@[1].1@ == h.environment_dependency@
    &&& f.details@[2].0@ == "test_kind"@ && f.details@[2].1@ == h.test_kind@
}

fn pattern_hit(p: &Option<String>, text: &str) -> (r: bool)
    ensures
        r == pattern_hits(*p, text@),
{
    match p {
        Some(x) => regex_is_match(x.as_str(), text),
        None => false,
    }
}

proof fn lemma_fired_prefix(hints: Seq<TestHint>, i: int, path: Seq<char>, text: Seq<char>)
    requires
        0 <= i <= hints.len(),
    ensures
        fired_hints(hints.take(i), path, text).len() <= fired_hints(hints, path, text).len(),
        forall|k: int|
            0 <= k < fired_hints(hints.take(i), path, text).len() ==> #[trigger] fired_hints(
                hints.take(i),
                path,
                text,
            )[k] == fired_hints(hints, path, text)[k],
    decreases hints.len(),
{
    if i == hints.len() {
        assert(hints.take(i) =~= hints);
    } else {
        let d = hints.drop_last();
        assert(d.take(i) =~= hints.take(i));
        lemma_fired_prefix(d, i, path, text);
    }
}

/// Records the fact of each test hint that fires, in order; stops when the
/// fact budget runs out, and then reports it.
fn scan_hints(
    path: &str,
    text: &str,
    hints: &Vec<TestHint>,
    facts: &mut Vec<TextFact>,
    budget: &mut BudgetTracker,
) -> (failed: bool)
    requires
        old(budget).wf(),
    ensures
        final(budget).wf(),
        final(budget).budget_of() == old(budget).budget_of(),
        final(facts)@.len() >= old(facts)@.len(),
        final(facts)@.take(old(facts)@.len() as int) == old(facts)@,
        ({
            let fired = fired_hints(hints@, path@, text@);
            let added = final(facts)@.len() - old(facts)@.len();
            let k = admitted(
                fired.len() as int,
                old(budget).consumed_of(BudgetResource::Facts) as int,
                old(budget).budget_of().limit_of(BudgetResource::Facts) as int,
            );
            &&& added == k
            &&& added <= fired.len()
            &&& (failed <==> k < fired.len())
            &&& !failed ==> added == fired.len()
            &&& final(budget).consumed_of(BudgetResource::Facts) == old(budget).consumed_of(BudgetResource::Facts) + k
            &&& forall|i: int| 0 <= i < added ==> hint_fact(fired[i], #[trigger] final(facts)@[old(facts)@.len() + i])
        }),
        forall|other: BudgetResource|
            other != BudgetResource::Facts ==> #[trigger] final(budget).consumed_of(other) == old(budget).consumed_of(other),
{
    let ghost start = facts@;
    let ghost c0 = budget.consumed_of(BudgetResource::Facts) as int;
    let ghost lim = budget.budget_of().limit_of(BudgetResource::Facts) as int;
    let mut i: usize = 0;
    assert(hints@.take(0) =~= Seq::<TestHint>::empty());
    while i < hints.len()
        invariant
            budget.wf(),
            budget.budget_of() == old(budget).budget_of(),
            i <= hints@.len(),
            start == old(facts)@,
            c0 == old(budget).consumed_of(BudgetResource::Facts),
            lim == old(budget).budget_of().limit_of(BudgetResource::Facts),
            budget.consumed_of(BudgetResource::Facts) == c0 + (facts@.len() - start.len()),
            facts@.len() == start.len() || c0 + (facts@.len() - start.len()) <= lim,
            forall|other: BudgetResource|
                other != BudgetResource::Facts ==> #[trigger] budget.consumed_of(other) == old(budget).consumed_of(other),
            facts@.len() == start.len() + fired_hints(hints@.take(i as int), path@, text@).len(),
            facts@.take(start.len() as int) == start,
            forall|k: int|
                0 <= k < facts@.len() - start.len() ==> hint_fact(
                    fired_hints(hints@.take(i as int), path@, text@)[k],
                    #[trigger] facts@[start.len() + k],
                ),
        decreases hints@.len() - i,
    {
        let ghost fired_before = fired_hints(hints@.take(i as int), path@, text@);
        proof {
            assert(hints@.take(i + 1).drop_last() =~= hints@.take(i as int));
            assert(hints@.take(i + 1).last() == hints@[i as int]);
        }
        let h = &hints[i];
        let fires = pattern_hit(&h.path_pattern, path) || pattern_hit(&h.content_pattern, text);
        if fires {
            let mut details: Vec<(String, String)> = Vec::new();
            details.push((String::from_str("confidence"), h.confidence.clone()));
            details.push((String::from_str("environment_dependency"), h.environment_dependency.clone()));
            details.push((String::from_str("test_kind"), h.test_kind.clone()));
            let fact = TextFact {
                rule_id: h.rule_id.clone(),
                kind: TextFactKind::TestHint,
                match_text: h.hint.clone(),
                range: SourceRange {
                    start_line: 1,
                    start_column: 1,
                    end_line: 1,
                    end_column: 1,
                    start_byte: 0,
                    end_byte: 0,
                },
                provenance: TextProvenance::Textual,
                resolved_target: None,
                details,
            };
            let ghost prev = facts@;
            if !push_fact(facts, fact, budget) {
                proof {
                    lemma_fired_prefix(hints@, i as int, path@, text@);
                    lemma_fired_prefix(hints@, i + 1, path@, text@);
                    let fired_now = fired_hints(hints@.take(i + 1), path@, text@);
                    assert(fired_now == fired_before.push(hints@[i as int]));
                }
                return true;
            }
            proof {
                let fired_now = fired_hints(hints@.take(i + 1), path@, text@);
                assert(fired_now == fired_before.push(hints@[i as int]));
                assert(facts@.take(start.len() as int) =~= prev.take(start.len() as int));
                assert forall|k: int|
                    0 <= k < facts@.len() - start.len() implies hint_fact(
                        fired_now[k],
                        #[trigger] facts@[start.len() + k],
                    ) by {
                    if k < fired_before.len() {
                        assert(facts@[start.len() + k] == prev[start.len() + k]);
                        assert(fired_now[k] == fired_before[k]);
                    }
                }
            }
        }
        i = i + 1;
    }
    assert(hints@.take(hints@.len() as int) =~= hints@);
    false
}

/// The position of a fact kind in declaration order.
pub open spec fn kind_rank(k: TextFactKind) -> int {
    match k {
        TextFactKind::ConfiguredQuery => 0,
        TextFactKind::Configuration => 1,
        TextFactKind::Framework => 2,
        TextFactKind::TestMarker => 3,
        TextFactKind::TestHint => 4,
        TextFactKind::Endpoint => 5,
        TextFactKind::Authorization => 6,
        TextFactKind::Storage => 7,
        TextFactKind::Network => 8,
        TextFactKind::Cache => 9,
        TextFactKind::Broker => 10,
        TextFactKind::Search => 11,
        TextFactKind::Lifecycle => 12,
    }
}

fn kind_position(k: TextFactKind) -> (r: u8)
    ensures
        r as int == kind_rank(k),
{
    match k {
        TextFactKind::ConfiguredQuery => 0,
        TextFactKind::Configuration => 1,
        TextFactKind::Framework => 2,
        TextFactKind::TestMarker => 3,
        TextFactKind::TestHint => 4,
        TextFactKind::Endpoint => 5,
        TextFactKind::Authorization => 6,
        TextFactKind::Storage => 7,
        TextFactKind::Network => 8,
        TextFactKind::Cache => 9,
        TextFactKind::Broker => 10,
        TextFactKind::Search => 11,
        TextFactKind::Lifecycle => 12,
    }
}

fn order_number(a: usize, b: usize) -> (r: i8)
    ensures
        r as int == ord_int(a as int, b as int),
{
    if a < b {
        -1
    } else if a == b {
        0
    } else {
        1
    }
}

impl CanonicalOrder for TextFact {
    /// Facts by start byte, end byte, kind and rule.
    open spec fn order_of(&self, other: &Self) -> int {
        then(
            ord_int(self.range.start_byte as int, other.range.start_byte as int),
            then(
                ord_int(self.range.end_byte as int, other.range.end_byte as int),
                then(
                    ord_int(kind_rank(self.kind), kind_rank(other.kind)),
                    ord_text(self.rule_id@, other.rule_id@),
                ),
            ),
        )
    }

    proof fn lemma_antisymmetric(a: &Self, b: &Self) {
        lemma_ord_text_antisymmetric(a.rule_id@, b.rule_id@);
    }

    fn order(&self, other: &Self) -> (r: i8) {
        let a = order_number(self.range.start_byte, other.range.start_byte);
        if a != 0 {
            return a;
        }
        let b = order_number(self.range.end_byte, other.range.end_byte);
        if b != 0 {
            return b;
        }
        let c = order_number(kind_position(self.kind) as usize, kind_position(other.kind) as usize);
        if c != 0 {
            return c;
        }
        order_text(self.rule_id.as_str(), other.rule_id.as_str())
    }
}

/// Two facts that say the same: kind, rule, range and text.
pub open spec fn same_fact(a: TextFact, b: TextFact) -> bool {
    &&& a.kind == b.kind
    &&& a.rule_id@ == b.rule_id@
    &&& a.range == b.range
    &&& a.match_text@ == b.match_text@
}

fn facts_equal(a: &TextFact, b: &TextFact) -> (r: bool)
    ensures
        r == same_fact(*a, *b),
{
    a.kind == b.kind && str_equal(a.rule_id.as_str(), b.rule_id.as_str()) && a.range == b.range
        && str_equal(a.match_text.as_str(), b.match_text.as_str())
}

/// Every fact of `v` is said by some fact of `w`.
pub open spec fn said_in(v: Seq<TextFact>, w: Seq<TextFact>) -> bool {
    forall|i: int| 0 <= i < v.len() ==> exists|j: int| 0 <= j < w.len() && same_fact(#[trigger] v[i], w[j])
}

/// What the dedup loop keeps after `i` facts of `all`.
spec fn dedup_state(all: Seq<TextFact>, out: Seq<TextFact>, i: int) -> bool {
    &&& 0 <= i <= all.len()
    &&& forall|j: int| 0 <= j < out.len() ==> all.contains(#[trigger] out[j])
    &&& forall|k: int| 0 <= k < i ==> exists|j: int| 0 <= j < out.len() && same_fact(#[trigger] all[k], out[j])
    &&& forall|j: int| 0 <= j < out.len() - 1 ==> !same_fact(#[trigger] out[j], out[j + 1])
    &&& i > 0 ==> out.len() > 0 && same_fact(out.last(), all[i - 1])
    &&& i == 0 ==> out.len() == 0
    &&& sorted_by_order(all) ==> sorted_by_order(out)
}

proof fn lemma_dedup_drop(all: Seq<TextFact>, out: Seq<TextFact>, i: int)
    requires
        dedup_state(all, out, i),
        i < all.len(),
        out.len() > 0,
        same_fact(out.last(), all[i]),
    ensures
        dedup_state(all, out, i + 1),
{
    assert forall|k: int| 0 <= k < i + 1 implies exists|j: int|
        0 <= j < out.len() && same_fact(#[trigger] all[k], out[j]) by {
        if k == i {
            assert(same_fact(all[k], out[out.len() - 1]));
        }
    }
}

#[verifier::spinoff_prover]
#[verifier::rlimit(40)]
proof fn lemma_dedup_keep(all: Seq<TextFact>, out: Seq<TextFact>, i: int)
    requires
        dedup_state(all, out, i),
        i < all.len(),
        out.len() > 0 ==> !same_fact(out.last(), all[i]),
    ensures
        dedup_state(all, out.push(all[i]), i + 1),
{
    let x = all[i];
    let n = out.len();
    let next = out.push(x);
    assert forall|j: int| 0 <= j < next.len() implies all.contains(#[trigger] next[j]) by {
        if j < n {
            assert(next[j] == out[j]);
        }
    }
    assert forall|k: int| 0 <= k < i + 1 implies exists|j: int|
        0 <= j < next.len() && same_fact(#[trigger] all[k], next[j]) by {
        if k == i {
            assert(same_fact(all[k], next[n as int]));
        } else {
            let j = choose|j: int| 0 <= j < out.len() && same_fact(all[k], out[j]);
            assert(next[j] == out[j]);
        }
    }
    assert forall|j: int| 0 <= j < next.len() - 1 implies !same_fact(#[trigger] next[j], next[j + 1]) by {
        if j < n - 1 {
            assert(next[j] == out[j] && next[j + 1] == out[j + 1]);
        } else {
            assert(next[j] == out[j]);
        }
    }
    if sorted_by_order(all) && n > 0 {
        assert(all[i - 1].order_of(&all[(i - 1) + 1]) <= 0);
        assert(out[n - 1].order_of(&x) == all[i - 1].order_of(&x));
        assert forall|j: int| 0 <= j < next.len() - 1 implies (#[trigger] next[j]).order_of(&next[j + 1]) <= 0 by {
            if j < n - 1 {
                assert(next[j] == out[j] && next[j + 1] == out[j + 1]);
            }
        }
    }
}

/// Drops each fact that says the same as the one kept before it.
pub fn dedup_facts(v: Vec<TextFact>) -> (r: Vec<TextFact>)
    ensures
        r@.len() <= v@.len(),
        forall|j: int| 0 <= j < r@.len() ==> v@.contains(#[trigger] r@[j]),
        said_in(v@, r@),
        forall|j: int| 0 <= j < r@.len() - 1 ==> !same_fact(#[trigger] r@[j], r@[j + 1]),
        sorted_by_order(v@) ==> sorted_by_order(r@),
{
    let ghost all = v@;
    let total = v.len();
    let mut rest = v;
    let mut out: Vec<TextFact> = Vec::new();
    let mut i: usize = 0;
    while rest.len() > 0
        invariant
            all.len() == total,
            i <= total,
            rest@ == all.subrange(i as int, total as int),
            dedup_state(all, out@, i as int),
            out@.len() <= i,
        decreases rest@.len(),
    {
        let x = rest.remove(0);
        proof {
            assert(x == all[i as int]);
            assert(rest@ =~= all.subrange(i + 1, total as int));
        }
        let n = out.len();
        if n > 0 && facts_equal(&out[n - 1], &x) {
            proof {
                lemma_dedup_drop(all, out@, i as int);
            }
        } else {
            proof {
                lemma_dedup_keep(all, out@, i as int);
            }
            out.push(x);
        }
        i = i + 1;
    }
    out
}

/// The built-in configuration scan for a path, by its lowercased ending:
/// the pattern and the rule prefix.
pub open spec fn key_value_rule(path: Seq<char>) -> Option<(Seq<char>, Seq<char>)> {
    let l = lower_seq(path);
    if has_suffix(l, ".toml"@) {
        Some(("(?m)^[ \\t]*([A-Za-z_][A-Za-z0-9_.-]*)[ \\t]*=[ \\t]*([^\\r\\n]*)"@, "toml-key"@))
    } else if has_suffix(l, ".yaml"@) || has_suffix(l, ".yml"@) {
        Some(("(?m)^[ \\t]*([A-Za-z_][A-Za-z0-9_.-]*)[ \\t]*:[ \\t]*([^\\r\\n]*)"@, "yaml-key"@))
    } else if has_suffix(l, "dockerfile"@) || has_infix(l, "dockerfile."@) {
        Some(
            (
                "(?mi)^[ \\t]*(FROM|ENV|ARG|RUN|EXPOSE|HEALTHCHECK|ENTRYPOINT|CMD)\\b([^\\r\\n]*)"@,
                "docker-instruction"@,
            ),
        )
    } else if has_suffix(l, ".sql"@) {
        Some(("(?mi)\\b(CREATE|ALTER|DROP|SELECT|INSERT|UPDATE|DELETE)\\b[^;\\r\\n]*"@, "sql-statement"@))
    } else {
        None
    }
}

fn key_value_scan_for(path: &str) -> (r: Option<(&'static str, &'static str)>)
    ensures
        match (r, key_value_rule(path@)) {
            (Some((p, x)), Some((sp, sx))) => p@ == sp && x@ == sx,
            (None, None) => true,
            _ => false,
        },
{
    let lower = to_ascii_lower(path);
    let l = lower.as_str();
    if str_ends_with(l, ".toml") {
        Some(("(?m)^[ \\t]*([A-Za-z_][A-Za-z0-9_.-]*)[ \\t]*=[ \\t]*([^\\r\\n]*)", "toml-key"))
    } else if str_ends_with(l, ".yaml") || str_ends_with(l, ".yml") {
        Some(("(?m)^[ \\t]*([A-Za-z_][A-Za-z0-9_.-]*)[ \\t]*:[ \\t]*([^\\r\\n]*)", "yaml-key"))
    } else if str_ends_with(l, "dockerfile") || str_contains(l, "dockerfile.") {
        Some(
            (
                "(?mi)^[ \\t]*(FROM|ENV|ARG|RUN|EXPOSE|HEALTHCHECK|ENTRYPOINT|CMD)\\b([^\\r\\n]*)",
                "docker-instruction",
            ),
        )
    } else if str_ends_with(l, ".sql") {
        Some(("(?mi)\\b(CREATE|ALTER|DROP|SELECT|INSERT|UPDATE|DELETE)\\b[^;\\r\\n]*", "sql-statement"))
    } else {
        None
    }
}

/// A fact of one of the configured queries.
pub open spec fn is_query_fact(text: Seq<char>, queries: Seq<ConfiguredQuery>, f: TextFact) -> bool {
    exists|qi: int, i: int|
        0 <= qi < queries.len() && 0 <= i < regex_match_spans(queries[qi].pattern@, text).len()
            && #[trigger] query_fact(
            text,
            queries[qi].rule_id@,
            regex_match_spans(queries[qi].pattern@, text)[i],
            f,
        )
}

/// A configuration fact of the path's built-in scan.
pub open spec fn is_key_value_fact(text: Seq<char>, path: Seq<char>, f: TextFact) -> bool {
    match key_value_rule(path) {
        Some((pattern, prefix)) => exists|i: int|
            0 <= i < regex_capture_spans(pattern, text).len() && #[trigger] key_value_fact(
                text,
                prefix,
                regex_capture_spans(pattern, text)[i],
                f,
            ),
        None => false,
    }
}

/// A fact of a test hint that fires.
pub open spec fn is_hint_fact(text: Seq<char>, path: Seq<char>, hints: Seq<TestHint>, f: TextFact) -> bool {
    exists|i: int|
        0 <= i < fired_hints(hints, path, text).len() && #[trigger] hint_fact(
            fired_hints(hints, path, text)[i],
            f,
        )
}

/// A fact the scan may report.
pub open spec fn allowed_fact(text: Seq<char>, path: Seq<char>, c: TextConfiguration, f: TextFact) -> bool {
    ||| is_query_fact(text, c.queries@, f)
    ||| is_key_value_fact(text, path, f)
    ||| some_marker_fact(text, f)
    ||| is_hint_fact(text, path, c.test_hints@, f)
}

/// Some fact has this kind, rule and range.
pub open spec fn has_fact_at(facts: Seq<TextFact>, kind: TextFactKind, rule: Seq<char>, range: SourceRange) -> bool {
    exists|j: int|
        0 <= j < facts.len() && (#[trigger] facts[j]).kind == kind && facts[j].rule_id@ == rule
            && facts[j].range == range
}

/// Every match of every query, up to `maximum` per query, has its fact.
pub open spec fn queries_complete(
    text: Seq<char>,
    queries: Seq<ConfiguredQuery>,
    maximum: int,
    facts: Seq<TextFact>,
) -> bool {
    forall|qi: int, i: int|
        0 <= qi < queries.len() && regex_accepts(queries[qi].pattern@) && 0 <= i
            < query_fact_count(regex_match_spans(queries[qi].pattern@, text), maximum) ==> {
            let span = #[trigger] regex_match_spans(queries[qi].pattern@, text)[i];
            has_fact_at(
                facts,
                TextFactKind::ConfiguredQuery,
                fact_text_spec(queries[qi].rule_id@),
                range_for_span_spec(text, span_chars(text, span).0, span_chars(text, span).1),
            )
        }
}

/// Every match of the path's built-in scan has its fact.
pub open spec fn key_values_complete(text: Seq<char>, path: Seq<char>, facts: Seq<TextFact>) -> bool {
    match key_value_rule(path) {
        Some((pattern, prefix)) => regex_accepts(pattern) ==> forall|i: int|
            0 <= i < regex_capture_spans(pattern, text).len() ==> {
                let cap = #[trigger] regex_capture_spans(pattern, text)[i];
                has_fact_at(
                    facts,
                    TextFactKind::Configuration,
                    fact_text_spec(prefix + ":"@ + lower_seq(capture_key(text, cap.1))),
                    range_for_span_spec(text, span_chars(text, cap.0->0).0, span_chars(text, cap.0->0).1),
                )
            },
        None => true,
    }
}

/// Every test hint that fires has its fact.
pub open spec fn hints_complete(text: Seq<char>, path: Seq<char>, hints: Seq<TestHint>, facts: Seq<TextFact>) -> bool {
    forall|i: int|
        0 <= i < fired_hints(hints, path, text).len() ==> has_fact_at(
            facts,
            TextFactKind::TestHint,
            (#[trigger] fired_hints(hints, path, text)[i]).rule_id@,
            file_start(),
        )
}

/// The status and codes of a scan agree: no code means completed; a
/// partial unit had too many matches; an exhausted one ran out of facts.
pub open spec fn status_matches_codes(status: UnitStatus, codes: Seq<String>) -> bool {
    &&& forall|t: Seq<char>|
        #[trigger] has_text(codes, t) ==> t == "query-match-budget-exhausted"@ || t
            == "fact-budget-exhausted"@
    &&& (codes.len() == 0 <==> status == UnitStatus::Completed)
    &&& status == UnitStatus::Partial ==> has_text(codes, "query-match-budget-exhausted"@)
    &&& status == UnitStatus::BudgetExhausted ==> has_text(codes, "fact-budget-exhausted"@)
    &&& status == UnitStatus::Completed || status == UnitStatus::Partial || status
        == UnitStatus::BudgetExhausted
}

proof fn lemma_has_fact_at_kept(v: Seq<TextFact>, r: Seq<TextFact>, kind: TextFactKind, rule: Seq<char>, range: SourceRange)
    requires
        has_fact_at(v, kind, rule, range),
        said_in(v, r),
    ensures
        has_fact_at(r, kind, rule, range),
{
    let i = choose|i: int| 0 <= i < v.len() && (#[trigger] v[i]).kind == kind && v[i].rule_id@ == rule && v[i].range == range;
    let j = choose|j: int| 0 <= j < r.len() && same_fact(v[i], r[j]);
    assert(r[j].kind == kind);
}

proof fn lemma_has_fact_at_multiset(v: Seq<TextFact>, r: Seq<TextFact>, kind: TextFactKind, rule: Seq<char>, range: SourceRange)
    requires
        has_fact_at(v, kind, rule, range),
        r.to_multiset() == v.to_multiset(),
    ensures
        has_fact_at(r, kind, rule, range),
{
    let i = choose|i: int| 0 <= i < v.len() && (#[trigger] v[i]).kind == kind && v[i].rule_id@ == rule && v[i].range == range;
    vstd::seq_lib::to_multiset_contains(v, v[i]);
    vstd::seq_lib::to_multiset_contains(r, v[i]);
    assert(v.contains(v[i]));
    let j = choose|j: int| 0 <= j < r.len() && r[j] == v[i];
    assert(r[j].kind == kind);
}

/// What the scan promises of its facts, status and codes.
pub open spec fn scan_result(
    path: Seq<char>,
    text: Seq<char>,
    c: TextConfiguration,
    maximum: int,
    out: TextOutput,
) -> bool {
    &&& sorted_by_order(out.facts@)
    &&& forall|j: int| 0 <= j < out.facts@.len() - 1 ==> !same_fact(#[trigger] out.facts@[j], out.facts@[j + 1])
    &&& forall|j: int| 0 <= j < out.facts@.len() ==> allowed_fact(text, path, c, #[trigger] out.facts@[j])
    &&& sorted_by_order(out.limitation_codes@)
    &&& status_matches_codes(out.status, out.limitation_codes@)
    &&& !has_text(out.limitation_codes@, "fact-budget-exhausted"@) ==> {
        &&& queries_complete(text, c.queries@, maximum, out.facts@)
        &&& key_values_complete(text, path, out.facts@)
        &&& hints_complete(text, path, c.test_hints@, out.facts@)
    }
}

proof fn lemma_has_fact_at_grow(v: Seq<TextFact>, w: Seq<TextFact>, kind: TextFactKind, rule: Seq<char>, range: SourceRange)
    requires
        has_fact_at(v, kind, rule, range),
        w.len() >= v.len(),
        w.take(v.len() as int) == v,
    ensures
        has_fact_at(w, kind, rule, range),
{
    let i = choose|i: int| 0 <= i < v.len() && (#[trigger] v[i]).kind == kind && v[i].rule_id@ == rule && v[i].range == range;
    assert(w.take(v.len() as int)[i] == w[i]);
}

/// The first `n` queries are complete.
pub open spec fn queries_complete_upto(
    text: Seq<char>,
    queries: Seq<ConfiguredQuery>,
    maximum: int,
    facts: Seq<TextFact>,
    n: int,
) -> bool {
    forall|qi: int, i: int|
        0 <= qi < n && qi < queries.len() && regex_accepts(queries[qi].pattern@) && 0 <= i
            < query_fact_count(regex_match_spans(queries[qi].pattern@, text), maximum) ==> {
            let span = #[trigger] regex_match_spans(queries[qi].pattern@, text)[i];
            has_fact_at(
                facts,
                TextFactKind::ConfiguredQuery,
                fact_text_spec(queries[qi].rule_id@),
                range_for_span_spec(text, span_chars(text, span).0, span_chars(text, span).1),
            )
        }
}

proof fn lemma_queries_grow(
    text: Seq<char>,
    queries: Seq<ConfiguredQuery>,
    maximum: int,
    v: Seq<TextFact>,
    w: Seq<TextFact>,
    n: int,
)
    requires
        queries_complete_upto(text, queries, maximum, v, n),
        w.len() >= v.len(),
        w.take(v.len() as int) == v,
    ensures
        queries_complete_upto(text, queries, maximum, w, n),
{
    assert forall|qi: int, i: int|
        0 <= qi < n && qi < queries.len() && regex_accepts(queries[qi].pattern@) && 0 <= i
            < query_fact_count(regex_match_spans(queries[qi].pattern@, text), maximum) implies {
            let span = #[trigger] regex_match_spans(queries[qi].pattern@, text)[i];
            has_fact_at(
                w,
                TextFactKind::ConfiguredQuery,
                fact_text_spec(queries[qi].rule_id@),
                range_for_span_spec(text, span_chars(text, span).0, span_chars(text, span).1),
            )
        } by {
        let span = regex_match_spans(queries[qi].pattern@, text)[i];
        lemma_has_fact_at_grow(
            v,
            w,
            TextFactKind::ConfiguredQuery,
            fact_text_spec(queries[qi].rule_id@),
            range_for_span_spec(text, span_chars(text, span).0, span_chars(text, span).1),
        );
    }
}

proof fn lemma_codes_chain(a: Seq<String>, b: Seq<String>, c: Seq<String>, x: Seq<Seq<char>>, y: Seq<Seq<char>>)
    requires
        codes_added(a, x, b),
        codes_added(b, y, c),
    ensures
        codes_added(a, x + y, c),
{
    assert forall|t: Seq<char>| #[trigger] has_text(c, t) <==> (has_text(a, t) || (x + y).contains(t)) by {
        assert(has_text(c, t) <==> (has_text(b, t) || y.contains(t)));
        assert(has_text(b, t) <==> (has_text(a, t) || x.contains(t)));
        if (x + y).contains(t) {
            let j = choose|j: int| 0 <= j < (x + y).len() && (x + y)[j] == t;
            if j < x.len() {
                assert(x[j] == t);
            } else {
                assert(y[j - x.len()] == t);
            }
        }
        if x.contains(t) {
            let j = choose|j: int| 0 <= j < x.len() && x[j] == t;
            assert((x + y)[j] == t);
        }
        if y.contains(t) {
            let j = choose|j: int| 0 <= j < y.len() && y[j] == t;
            assert((x + y)[x.len() + j] == t);
        }
    }
}

/// The status agrees with the codes listed so far, and `failed` with the
/// fact-budget code.
spec fn status_listed(status: UnitStatus, listed: Seq<Seq<char>>, failed: bool) -> bool {
    &&& forall|j: int| 0 <= j < listed.len() ==> #[trigger] listed[j] == "query-match-budget-exhausted"@ || listed[j]
        == "fact-budget-exhausted"@
    &&& (listed.len() == 0 <==> status == UnitStatus::Completed)
    &&& status == UnitStatus::Partial ==> listed.contains("query-match-budget-exhausted"@)
    &&& status == UnitStatus::BudgetExhausted ==> listed.contains("fact-budget-exhausted"@)
    &&& status == UnitStatus::Completed || status == UnitStatus::Partial || status
        == UnitStatus::BudgetExhausted
    &&& (failed <==> listed.contains("fact-budget-exhausted"@))
}

proof fn lemma_status_step(status: UnitStatus, listed: Seq<Seq<char>>, failed: bool, next: UnitStatus, added: Seq<Seq<char>>, f: bool)
    requires
        status_listed(status, listed, failed),
        f ==> next == UnitStatus::BudgetExhausted && added == seq!["fact-budget-exhausted"@],
        !f ==> (next == status && added.len() == 0) || (next == UnitStatus::Partial && added
            == seq!["query-match-budget-exhausted"@]),
    ensures
        status_listed(next, listed + added, failed || f),
{
    reveal_strlit("query-match-budget-exhausted");
    reveal_strlit("fact-budget-exhausted");
    assert("query-match-budget-exhausted"@.len() != "fact-budget-exhausted"@.len());
    assert("query-match-budget-exhausted"@ != "fact-budget-exhausted"@);
    let l2 = listed + added;
    assert forall|j: int| 0 <= j < l2.len() implies #[trigger] l2[j] == "query-match-budget-exhausted"@ || l2[j]
        == "fact-budget-exhausted"@ by {
        if j < listed.len() {
            assert(l2[j] == listed[j]);
        } else {
            assert(l2[j] == added[j - listed.len()]);
        }
    }
    if listed.contains("fact-budget-exhausted"@) {
        let j = choose|j: int| 0 <= j < listed.len() && listed[j] == "fact-budget-exhausted"@;
        assert(l2[j] == "fact-budget-exhausted"@);
    }
    if listed.contains("query-match-budget-exhausted"@) {
        let j = choose|j: int| 0 <= j < listed.len() && listed[j] == "query-match-budget-exhausted"@;
        assert(l2[j] == "query-match-budget-exhausted"@);
    }
    if added.len() > 0 {
        assert(l2[listed.len() as int] == added[0]);
    }
    if l2.contains("fact-budget-exhausted"@) {
        let j = choose|j: int| 0 <= j < l2.len() && l2[j] == "fact-budget-exhausted"@;
        if j < listed.len() {
            assert(listed[j] == "fact-budget-exhausted"@);
        } else {
            assert(added[j - listed.len()] == "fact-budget-exhausted"@);
        }
    }
}

/// Every fact said in `v` is said in `w`.
pub open spec fn facts_cover(v: Seq<TextFact>, w: Seq<TextFact>) -> bool {
    forall|kind: TextFactKind, rule: Seq<char>, range: SourceRange|
        has_fact_at(v, kind, rule, range) ==> #[trigger] has_fact_at(w, kind, rule, range)
}

proof fn lemma_cover_grow(v: Seq<TextFact>, w: Seq<TextFact>)
    requires
        w.len() >= v.len(),
        w.take(v.len() as int) == v,
    ensures
        facts_cover(v, w),
{
    assert forall|kind: TextFactKind, rule: Seq<char>, range: SourceRange|
        has_fact_at(v, kind, rule, range) implies #[trigger] has_fact_at(w, kind, rule, range) by {
        lemma_has_fact_at_grow(v, w, kind, rule, range);
    }
}

proof fn lemma_cover_multiset(v: Seq<TextFact>, w: Seq<TextFact>)
    requires
        w.to_multiset() == v.to_multiset(),
    ensures
        facts_cover(v, w),
{
    assert forall|kind: TextFactKind, rule: Seq<char>, range: SourceRange|
        has_fact_at(v, kind, rule, range) implies #[trigger] has_fact_at(w, kind, rule, range) by {
        lemma_has_fact_at_multiset(v, w, kind, rule, range);
    }
}

proof fn lemma_cover_kept(v: Seq<TextFact>, w: Seq<TextFact>)
    requires
        said_in(v, w),
    ensures
        facts_cover(v, w),
{
    assert forall|kind: TextFactKind, rule: Seq<char>, range: SourceRange|
        has_fact_at(v, kind, rule, range) implies #[trigger] has_fact_at(w, kind, rule, range) by {
        lemma_has_fact_at_kept(v, w, kind, rule, range);
    }
}

proof fn lemma_complete_cover(
    text: Seq<char>,
    path: Seq<char>,
    c: TextConfiguration,
    maximum: int,
    v: Seq<TextFact>,
    w: Seq<TextFact>,
)
    requires
        facts_cover(v, w),
    ensures
        queries_complete_upto(text, c.queries@, maximum, v, c.queries@.len() as int) ==> queries_complete(text, c.queries@, maximum, w),
        key_values_complete(text, path, v) ==> key_values_complete(text, path, w),
        hints_complete(text, path, c.test_hints@, v) ==> hints_complete(text, path, c.test_hints@, w),
{
    let queries = c.queries@;
    if queries_complete_upto(text, queries, maximum, v, queries.len() as int) {
        assert forall|qi: int, i: int|
            0 <= qi < queries.len() && regex_accepts(queries[qi].pattern@) && 0 <= i
                < query_fact_count(regex_match_spans(queries[qi].pattern@, text), maximum) implies {
                let span = #[trigger] regex_match_spans(queries[qi].pattern@, text)[i];
                has_fact_at(
                    w,
                    TextFactKind::ConfiguredQuery,
                    fact_text_spec(queries[qi].rule_id@),
                    range_for_span_spec(text, span_chars(text, span).0, span_chars(text, span).1),
                )
            } by {
            let span = regex_match_spans(queries[qi].pattern@, text)[i];
            assert(has_fact_at(
                v,
                TextFactKind::ConfiguredQuery,
                fact_text_spec(queries[qi].rule_id@),
                range_for_span_spec(text, span_chars(text, span).0, span_chars(text, span).1),
            ));
        }
    }
    if key_values_complete(text, path, v) {
        match key_value_rule(path) {
            Some((pattern, prefix)) => {
                if regex_accepts(pattern) {
                    assert forall|i: int| 0 <= i < regex_capture_spans(pattern, text).len() implies {
                        let cap = #[trigger] regex_capture_spans(pattern, text)[i];
                        has_fact_at(
                            w,
                            TextFactKind::Configuration,
                            fact_text_spec(prefix + ":"@ + lower_seq(capture_key(text, cap.1))),
                            range_for_span_spec(text, span_chars(text, cap.0->0).0, span_chars(text, cap.0->0).1),
                        )
                    } by {
                        let cap = regex_capture_spans(pattern, text)[i];
                        assert(has_fact_at(
                            v,
                            TextFactKind::Configuration,
                            fact_text_spec(prefix + ":"@ + lower_seq(capture_key(text, cap.1))),
                            range_for_span_spec(text, span_chars(text, cap.0->0).0, span_chars(text, cap.0->0).1),
                        ));
                    }
                }
            },
            None => {},
        }
    }
    if hints_complete(text, path, c.test_hints@, v) {
        assert forall|i: int| 0 <= i < fired_hints(c.test_hints@, path, text).len() implies has_fact_at(
            w,
            TextFactKind::TestHint,
            (#[trigger] fired_hints(c.test_hints@, path, text)[i]).rule_id@,
            file_start(),
        ) by {
            assert(has_fact_at(
                v,
                TextFactKind::TestHint,
                fired_hints(c.test_hints@, path, text)[i].rule_id@,
                file_start(),
            ));
        }
    }
}

/// The scan's running state: the facts so far are allowed, the codes and
/// status agree with what was listed, and (while the fact budget held)
/// the first `qdone` queries are complete.
spec fn scan_state(
    text: Seq<char>,
    path: Seq<char>,
    c: TextConfiguration,
    maximum: int,
    facts: Seq<TextFact>,
    codes: Seq<String>,
    status: UnitStatus,
    listed: Seq<Seq<char>>,
    failed: bool,
    qdone: int,
) -> bool {
    &&& forall|k: int| 0 <= k < facts.len() ==> allowed_fact(text, path, c, #[trigger] facts[k])
    &&& codes_added(Seq::empty(), listed, codes)
    &&& status_listed(status, listed, failed)
    &&& !failed ==> queries_complete_upto(text, c.queries@, maximum, facts, qdone)
}

proof fn lemma_query_step(
    text: Seq<char>,
    path: Seq<char>,
    c: TextConfiguration,
    maximum: int,
    qi: int,
    facts0: Seq<TextFact>,
    facts1: Seq<TextFact>,
    codes0: Seq<String>,
    codes1: Seq<String>,
    status0: UnitStatus,
    status1: UnitStatus,
    listed: Seq<Seq<char>>,
    failed: bool,
    f: bool,
) -> (added: Seq<Seq<char>>)
    requires
        0 <= qi < c.queries@.len(),
        scan_state(text, path, c, maximum, facts0, codes0, status0, listed, failed, qi),
        facts1.len() >= facts0.len(),
        facts1.take(facts0.len() as int) == facts0,
        ({
            let query = c.queries@[qi];
            let spans = regex_match_spans(query.pattern@, text);
            let n = facts1.len() - facts0.len();
            &&& !regex_accepts(query.pattern@) ==> n == 0 && !f
            &&& regex_accepts(query.pattern@) ==> n <= query_fact_count(spans, maximum) && (!f ==> n
                == query_fact_count(spans, maximum)) && forall|i: int|
                0 <= i < n ==> query_fact(text, query.rule_id@, spans[i], #[trigger] facts1[facts0.len() + i])
            &&& codes_added(
                codes0,
                if f {
                    seq!["fact-budget-exhausted"@]
                } else if regex_accepts(query.pattern@) && spans.len() > maximum {
                    seq!["query-match-budget-exhausted"@]
                } else {
                    Seq::empty()
                },
                codes1,
            )
            &&& status1 == if f {
                UnitStatus::BudgetExhausted
            } else if regex_accepts(query.pattern@) && spans.len() > maximum {
                UnitStatus::Partial
            } else {
                status0
            }
        }),
    ensures
        scan_state(text, path, c, maximum, facts1, codes1, status1, listed + added, failed || f, qi + 1),
{
    let query = c.queries@[qi];
    let spans = regex_match_spans(query.pattern@, text);
    let added = if f {
        seq!["fact-budget-exhausted"@]
    } else if regex_accepts(query.pattern@) && spans.len() > maximum {
        seq!["query-match-budget-exhausted"@]
    } else {
        Seq::empty()
    };
    lemma_codes_chain(Seq::empty(), codes0, codes1, listed, added);
    lemma_status_step(status0, listed, failed, status1, added, f);
    let n = facts1.len() - facts0.len();
    assert forall|k: int| 0 <= k < facts1.len() implies allowed_fact(text, path, c, #[trigger] facts1[k]) by {
        if k < facts0.len() {
            assert(facts1.take(facts0.len() as int)[k] == facts1[k]);
            assert(allowed_fact(text, path, c, facts0[k]));
        } else {
            let i = k - facts0.len();
            assert(query_fact(text, query.rule_id@, spans[i], facts1[facts0.len() + i]));
            assert(is_query_fact(text, c.queries@, facts1[k]));
        }
    }
    if !(failed || f) {
        lemma_queries_grow(text, c.queries@, maximum, facts0, facts1, qi);
        assert forall|q: int, i: int|
            0 <= q < qi + 1 && q < c.queries@.len() && regex_accepts(c.queries@[q].pattern@) && 0 <= i
                < query_fact_count(regex_match_spans(c.queries@[q].pattern@, text), maximum) implies {
                let span = #[trigger] regex_match_spans(c.queries@[q].pattern@, text)[i];
                has_fact_at(
                    facts1,
                    TextFactKind::ConfiguredQuery,
                    fact_text_spec(c.queries@[q].rule_id@),
                    range_for_span_spec(text, span_chars(text, span).0, span_chars(text, span).1),
                )
            } by {
            if q == qi {
                let g = facts1[facts0.len() + i];
                assert(query_fact(text, query.rule_id@, spans[i], g));
                assert(facts1[facts0.len() + i].kind == TextFactKind::ConfiguredQuery);
            }
        }
    }
    added
}

proof fn lemma_codes_empty(listed: Seq<Seq<char>>, codes: Seq<String>)
    requires
        codes_added(Seq::empty(), listed, codes),
    ensures
        codes.len() == 0 <==> listed.len() == 0,
        forall|t: Seq<char>| #[trigger] has_text(codes, t) <==> listed.contains(t),
{
    assert forall|t: Seq<char>| #[trigger] has_text(codes, t) <==> listed.contains(t) by {
        assert(!has_text(Seq::<String>::empty(), t));
    }
    if codes.len() > 0 {
        assert(has_text(codes, codes[0]@));
    }
    if listed.len() > 0 {
        assert(listed.contains(listed[0]));
        assert(has_text(codes, listed[0]));
    }
}

proof fn lemma_append_allowed(
    text: Seq<char>,
    path: Seq<char>,
    c: TextConfiguration,
    facts0: Seq<TextFact>,
    facts1: Seq<TextFact>,
)
    requires
        forall|k: int| 0 <= k < facts0.len() ==> allowed_fact(text, path, c, #[trigger] facts0[k]),
        facts1.len() >= facts0.len(),
        facts1.take(facts0.len() as int) == facts0,
        forall|k: int| facts0.len() <= k < facts1.len() ==> allowed_fact(text, path, c, #[trigger] facts1[k]),
    ensures
        forall|k: int| 0 <= k < facts1.len() ==> allowed_fact(text, path, c, #[trigger] facts1[k]),
{
    assert forall|k: int| 0 <= k < facts1.len() implies allowed_fact(text, path, c, #[trigger] facts1[k]) by {
        if k < facts0.len() {
            assert(facts1.take(facts0.len() as int)[k] == facts1[k]);
            assert(allowed_fact(text, path, c, facts0[k]));
        }
    }
}

/// The state after the configured queries and the configuration scan.
spec fn configured_state(
    text: Seq<char>,
    path: Seq<char>,
    c: TextConfiguration,
    maximum: int,
    facts: Seq<TextFact>,
    codes: Seq<String>,
    status: UnitStatus,
    listed: Seq<Seq<char>>,
    failed: bool,
) -> bool {
    &&& scan_state(text, path, c, maximum, facts, codes, status, listed, failed, c.queries@.len() as int)
    &&& !failed ==> key_values_complete(text, path, facts)
}

fn run_queries(
    t: &str,
    configuration: &TextConfiguration,
    maximum: usize,
    facts: &mut Vec<TextFact>,
    codes: &mut Vec<String>,
    status: &mut UnitStatus,
    budget: &mut BudgetTracker,
    Ghost(p): Ghost<Seq<char>>,
) -> (r: (bool, Ghost<Seq<Seq<char>>>))
    requires
        old(budget).wf(),
        4 * t@.len() < u32::MAX,
        old(facts)@.len() == 0,
        old(codes)@.len() == 0,
        *old(status) == UnitStatus::Completed,
    ensures
        final(budget).wf(),
        final(budget).budget_of() == old(budget).budget_of(),
        final(budget).consumed_of(BudgetResource::Facts) - old(budget).consumed_of(BudgetResource::Facts) == final(facts)@.len() - old(facts)@.len(),
        scan_state(t@, p, *configuration, maximum as int, final(facts)@, final(codes)@, *final(status), r.1@, r.0, configuration.queries@.len() as int),
{
    let ghost c = *configuration;
    let ghost m = maximum as int;
    let mut failed = false;
    let ghost mut listed: Seq<Seq<char>> = Seq::empty();
    proof {
        assert forall|x: Seq<char>| #[trigger] has_text(codes@, x) <==> (has_text(Seq::<String>::empty(), x) || listed.contains(x)) by {}
    }
    let mut qi: usize = 0;
    while qi < configuration.queries.len()
        invariant
            budget.wf(),
            budget.budget_of() == old(budget).budget_of(),
            4 * t@.len() < u32::MAX,
            c == *configuration,
            m == maximum as int,
            qi <= c.queries@.len(),
            scan_state(t@, p, c, m, facts@, codes@, *status, listed, failed, qi as int),
            budget.consumed_of(BudgetResource::Facts) - old(budget).consumed_of(BudgetResource::Facts) == facts@.len() - old(facts)@.len(),
        decreases c.queries@.len() - qi,
    {
        let ghost facts0 = facts@;
        let ghost codes0 = codes@;
        let ghost status0 = *status;
        let f = scan_query(t, &configuration.queries[qi], maximum, facts, codes, status, budget);
        proof {
            let added = lemma_query_step(t@, p, c, m, qi as int, facts0, facts@, codes0, codes@, status0, *status, listed, failed, f);
            listed = listed + added;
        }
        failed = failed || f;
        qi = qi + 1;
    }
    (failed, Ghost(listed))
}

fn run_key_values(
    path: &str,
    t: &str,
    facts: &mut Vec<TextFact>,
    codes: &mut Vec<String>,
    status: &mut UnitStatus,
    budget: &mut BudgetTracker,
    failed: bool,
    Ghost(listed): Ghost<Seq<Seq<char>>>,
    Ghost(c): Ghost<TextConfiguration>,
    Ghost(m): Ghost<int>,
) -> (r: (bool, Ghost<Seq<Seq<char>>>))
    requires
        old(budget).wf(),
        4 * t@.len() < u32::MAX,
        scan_state(t@, path@, c, m, old(facts)@, old(codes)@, *old(status), listed, failed, c.queries@.len() as int),
    ensures
        final(budget).wf(),
        final(budget).budget_of() == old(budget).budget_of(),
        final(budget).consumed_of(BudgetResource::Facts) - old(budget).consumed_of(BudgetResource::Facts) == final(facts)@.len() - old(facts)@.len(),
        configured_state(t@, path@, c, m, final(facts)@, final(codes)@, *final(status), r.1@, r.0),
{
    let ghost p = path@;
    let ghost facts_q = facts@;
    match key_value_scan_for(path) {
        Some((pattern, prefix)) => {
            let ghost codes0 = codes@;
            let ghost status0 = *status;
            let f = scan_key_values(t, pattern, prefix, facts, codes, status, budget);
            let ghost added = if f {
                seq!["fact-budget-exhausted"@]
            } else {
                Seq::empty()
            };
            proof {
                lemma_codes_chain(Seq::empty(), codes0, codes@, listed, added);
                lemma_status_step(status0, listed, failed, *status, added, f);
                let caps = regex_capture_spans(pattern@, t@);
                assert forall|k: int| facts_q.len() <= k < facts@.len() implies allowed_fact(t@, p, c, #[trigger] facts@[k]) by {
                    let i = k - facts_q.len();
                    assert(key_value_fact(t@, prefix@, caps[i], facts@[facts_q.len() + i]));
                    assert(is_key_value_fact(t@, p, facts@[k]));
                }
                lemma_append_allowed(t@, p, c, facts_q, facts@);
                if !failed {
                    lemma_queries_grow(t@, c.queries@, m, facts_q, facts@, c.queries@.len() as int);
                }
                if !(failed || f) && regex_accepts(pattern@) {
                    assert forall|i: int| 0 <= i < caps.len() implies {
                        let cap = #[trigger] caps[i];
                        has_fact_at(
                            facts@,
                            TextFactKind::Configuration,
                            fact_text_spec(prefix@ + ":"@ + lower_seq(capture_key(t@, cap.1))),
                            range_for_span_spec(t@, span_chars(t@, cap.0->0).0, span_chars(t@, cap.0->0).1),
                        )
                    } by {
                        assert(key_value_fact(t@, prefix@, caps[i], facts@[facts_q.len() + i]));
                        assert(facts@[facts_q.len() + i].kind == TextFactKind::Configuration);
                    }
                }
            }
            (failed || f, Ghost(listed + added))
        },
        None => {
            proof {
                assert(listed + Seq::<Seq<char>>::empty() =~= listed);
            }
            (failed, Ghost(listed))
        },
    }
}

fn run_markers_and_hints(
    path: &str,
    t: &str,
    configuration: &TextConfiguration,
    facts: &mut Vec<TextFact>,
    codes: &mut Vec<String>,
    status: &mut UnitStatus,
    budget: &mut BudgetTracker,
    failed: bool,
    Ghost(listed): Ghost<Seq<Seq<char>>>,
    Ghost(m): Ghost<int>,
) -> (r: (bool, Ghost<Seq<Seq<char>>>))
    requires
        old(budget).wf(),
        4 * t@.len() < u32::MAX,
        configured_state(t@, path@, *configuration, m, old(facts)@, old(codes)@, *old(status), listed, failed),
    ensures
        final(budget).wf(),
        final(budget).budget_of() == old(budget).budget_of(),
        final(budget).consumed_of(BudgetResource::Facts) - old(budget).consumed_of(BudgetResource::Facts) == final(facts)@.len() - old(facts)@.len(),
        configured_state(t@, path@, *configuration, m, final(facts)@, final(codes)@, *final(status), r.1@, r.0),
        !r.0 ==> hints_complete(t@, path@, configuration.test_hints@, final(facts)@),
{
    let ghost p = path@;
    let ghost c = *configuration;
    let ghost facts_k = facts@;
    let ghost status_m = *status;
    let fm = scan_markers(t, facts, budget);
    if fm {
        add_code(codes, "fact-budget-exhausted", Ghost(Seq::empty()), Ghost(listed));
        *status = UnitStatus::BudgetExhausted;
    }
    let ghost added_m = if fm {
        seq!["fact-budget-exhausted"@]
    } else {
        Seq::empty()
    };
    proof {
        assert(listed.push("fact-budget-exhausted"@) =~= listed + seq!["fact-budget-exhausted"@]);
        if !fm {
            assert(listed + added_m =~= listed);
        }
        lemma_status_step(status_m, listed, failed, *status, added_m, fm);
        assert forall|k: int| facts_k.len() <= k < facts@.len() implies allowed_fact(t@, p, c, #[trigger] facts@[k]) by {
            assert(some_marker_fact(t@, facts@[k]));
        }
        lemma_append_allowed(t@, p, c, facts_k, facts@);
        lemma_cover_grow(facts_k, facts@);
        lemma_complete_cover(t@, p, c, m, facts_k, facts@);
        if !failed {
            lemma_queries_grow(t@, c.queries@, m, facts_k, facts@, c.queries@.len() as int);
        }
    }
    let ghost listed2 = listed + added_m;
    let failed2 = failed || fm;
    let ghost facts_h = facts@;
    let ghost status_h = *status;
    let fh = scan_hints(path, t, &configuration.test_hints, facts, budget);
    if fh {
        add_code(codes, "fact-budget-exhausted", Ghost(Seq::empty()), Ghost(listed2));
        *status = UnitStatus::BudgetExhausted;
    }
    let ghost added_h = if fh {
        seq!["fact-budget-exhausted"@]
    } else {
        Seq::empty()
    };
    proof {
        assert(listed2.push("fact-budget-exhausted"@) =~= listed2 + seq!["fact-budget-exhausted"@]);
        if !fh {
            assert(listed2 + added_h =~= listed2);
        }
        lemma_status_step(status_h, listed2, failed2, *status, added_h, fh);
        let fired = fired_hints(c.test_hints@, p, t@);
        assert forall|k: int| facts_h.len() <= k < facts@.len() implies allowed_fact(t@, p, c, #[trigger] facts@[k]) by {
            let i = k - facts_h.len();
            assert(hint_fact(fired[i], facts@[facts_h.len() + i]));
            assert(is_hint_fact(t@, p, c.test_hints@, facts@[k]));
        }
        lemma_append_allowed(t@, p, c, facts_h, facts@);
        lemma_cover_grow(facts_h, facts@);
        lemma_complete_cover(t@, p, c, m, facts_h, facts@);
        if !failed2 {
            lemma_queries_grow(t@, c.queries@, m, facts_h, facts@, c.queries@.len() as int);
        }
        if !(failed2 || fh) {
            assert forall|i: int| 0 <= i < fired.len() implies has_fact_at(
                facts@,
                TextFactKind::TestHint,
                (#[trigger] fired[i]).rule_id@,
                file_start(),
            ) by {
                assert(hint_fact(fired[i], facts@[facts_h.len() + i]));
                assert(facts@[facts_h.len() + i].kind == TextFactKind::TestHint);
            }
        }
    }
    (failed2 || fh, Ghost(listed2 + added_h))
}

fn finish_scan(
    facts: Vec<TextFact>,
    codes: Vec<String>,
    status: UnitStatus,
    failed: bool,
    Ghost(listed): Ghost<Seq<Seq<char>>>,
    Ghost(t): Ghost<Seq<char>>,
    Ghost(p): Ghost<Seq<char>>,
    Ghost(c): Ghost<TextConfiguration>,
    Ghost(m): Ghost<int>,
) -> (r: TextOutput)
    requires
        configured_state(t, p, c, m, facts@, codes@, status, listed, failed),
        !failed ==> hints_complete(t, p, c.test_hints@, facts@),
    ensures
        scan_result(p, t, c, m, r),
        r.facts@.len() <= facts@.len(),
{
    let ghost unsorted = facts@;
    let sorted = stable_sort(facts);
    let ghost sorted_view = sorted@;
    let kept = dedup_facts(sorted);
    let ghost unsorted_codes = codes@;
    let sorted_codes = stable_sort(codes);
    proof {
        vstd::seq_lib::to_multiset_len(unsorted);
        vstd::seq_lib::to_multiset_len(sorted_view);
        lemma_cover_multiset(unsorted, sorted_view);
        lemma_complete_cover(t, p, c, m, unsorted, sorted_view);
        lemma_cover_kept(sorted_view, kept@);
        lemma_complete_cover(t, p, c, m, sorted_view, kept@);
        assert forall|j: int| 0 <= j < kept@.len() implies allowed_fact(t, p, c, #[trigger] kept@[j]) by {
            assert(sorted_view.contains(kept@[j]));
            let a = choose|a: int| 0 <= a < sorted_view.len() && sorted_view[a] == kept@[j];
            vstd::seq_lib::to_multiset_contains(sorted_view, sorted_view[a]);
            vstd::seq_lib::to_multiset_contains(unsorted, sorted_view[a]);
            assert(unsorted.contains(sorted_view[a]));
            let b = choose|b: int| 0 <= b < unsorted.len() && unsorted[b] == sorted_view[a];
            assert(allowed_fact(t, p, c, unsorted[b]));
        }
        lemma_codes_empty(listed, unsorted_codes);
        assert forall|x: Seq<char>| #[trigger] has_text(sorted_codes@, x) <==> listed.contains(x) by {
            lemma_has_text_multiset(sorted_codes@, unsorted_codes, x);
        }
        vstd::seq_lib::to_multiset_len(sorted_codes@);
        vstd::seq_lib::to_multiset_len(unsorted_codes);
        assert forall|x: Seq<char>|
            #[trigger] has_text(sorted_codes@, x) implies x == "query-match-budget-exhausted"@ || x
                == "fact-budget-exhausted"@ by {
            let j = choose|j: int| 0 <= j < listed.len() && listed[j] == x;
        }
        assert(status == UnitStatus::Partial ==> has_text(sorted_codes@, "query-match-budget-exhausted"@));
        assert(status == UnitStatus::BudgetExhausted ==> has_text(sorted_codes@, "fact-budget-exhausted"@));
        assert(!has_text(sorted_codes@, "fact-budget-exhausted"@) ==> !failed);
    }
    TextOutput { status, facts: kept, limitation_codes: sorted_codes }
}

impl TextAdapter {
    /// The text evidence of one changed file: nothing for binary bytes
    /// (a NUL among the first 8192 bytes); otherwise the facts of the
    /// configured queries, of the built-in configuration scan for the
    /// path's kind, of the markers and of the test hints that fire,
    /// sorted and without repeats, with the status and codes of what
    /// limited them.
    pub fn scan(
        path: &RepoPath,
        source: &[u8],
        binary: bool,
        configuration: &TextConfiguration,
        budget: &mut BudgetTracker,
    ) -> (r: TextOutput)
        requires
            old(budget).wf(),
            4 * source@.len() < u32::MAX,
        ensures
            final(budget).wf(),
            final(budget).budget_of() == old(budget).budget_of(),
            binary || nul_in_head(source@) ==> r.status == UnitStatus::Unsupported && r.facts@.len()
                == 0 && r.limitation_codes@.len() == 1 && r.limitation_codes@[0]@
                == "binary-text-unavailable"@,
            binary || nul_in_head(source@) ==> *final(budget) == *old(budget),
            r.facts@.len() <= old(budget).budget_of().limit_of(BudgetResource::Facts) - old(budget).consumed_of(
                BudgetResource::Facts,
            ),
            !(binary || nul_in_head(source@)) ==> scan_result(
                path@,
                utf8_lossy(source@),
                *configuration,
                old(budget).budget_of().max_matches_per_pattern as int,
                r,
            ),
    {
        if binary || has_nul_in_head(source) {
            let mut codes: Vec<String> = Vec::new();
            codes.push(String::from_str("binary-text-unavailable"));
            proof {
                budget.lemma_within_limit(BudgetResource::Facts);
            }
            return TextOutput { status: UnitStatus::Unsupported, facts: Vec::new(), limitation_codes: codes };
        }
        let text = decode_lossy(source);
        let t = text.as_str();
        let maximum = budget.budget().max_matches_per_pattern;
        let mut facts: Vec<TextFact> = Vec::new();
        let mut codes: Vec<String> = Vec::new();
        let mut status = UnitStatus::Completed;
        let (failed, listed) = run_queries(t, configuration, maximum, &mut facts, &mut codes, &mut status, budget, Ghost(path@));
        let (failed, listed) = run_key_values(
            path.as_str(),
            t,
            &mut facts,
            &mut codes,
            &mut status,
            budget,
            failed,
            listed,
            Ghost(*configuration),
            Ghost(maximum as int),
        );
        let (failed, listed) = run_markers_and_hints(
            path.as_str(),
            t,
            configuration,
            &mut facts,
            &mut codes,
            &mut status,
            budget,
            failed,
            listed,
            Ghost(maximum as int),
        );
        proof {
            budget.lemma_within_limit(BudgetResource::Facts);
        }
        finish_scan(facts, codes, status, failed, listed, Ghost(t@), Ghost(path@), Ghost(*configuration), Ghost(maximum as int))
    }
}

} // verus!
