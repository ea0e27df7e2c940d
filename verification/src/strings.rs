//! Character-level text predicates shared by the validators and builders.
//!
//! Every string is modelled by its view, the sequence of its Unicode scalar
//! values. Ordering is lexicographic on scalar values, which is the order in
//! which Rust compares `str` values (UTF-8 preserves code point order).
use vstd::prelude::*;
use vstd::utf8::{decode_utf8, valid_utf8};

verus! {

/// A lowercase hexadecimal digit: `0-9` or `a-f`.
pub open spec fn is_lower_hex_char(c: char) -> bool {
    ('0' <= c && c <= '9') || ('a' <= c && c <= 'f')
}

/// Every character is a lowercase hexadecimal digit.
pub open spec fn is_lower_hex(s: Seq<char>) -> bool {
    forall|i: int| 0 <= i < s.len() ==> #[trigger] is_lower_hex_char(s[i])
}

/// `s` is lowercase hexadecimal with exactly `n` digits.
pub open spec fn is_hex_of_len(s: Seq<char>, n: nat) -> bool {
    s.len() == n && is_lower_hex(s)
}

/// `a` and `b` agree on their first `k` characters, and `a` is smaller
/// at position `k` (or ends there while `b` goes on).
pub open spec fn lex_less_at(a: Seq<char>, b: Seq<char>, k: int) -> bool {
    &&& 0 <= k <= a.len()
    &&& k < b.len()
    &&& (forall|j: int| 0 <= j < k ==> a[j] == b[j])
    &&& (k == a.len() || a[k] < b[k])
}

/// Strict lexicographic order on character sequences.
pub open spec fn lex_less(a: Seq<char>, b: Seq<char>) -> bool {
    exists|k: int| #[trigger] lex_less_at(a, b, k)
}

/// Each element is strictly smaller than the next one.
pub open spec fn strictly_ascending(s: Seq<Seq<char>>) -> bool {
    forall|i: int| 0 < i < s.len() ==> #[trigger] lex_less(s[i - 1], s[i])
}

/// `suffix` is a suffix of `s`.
pub open spec fn has_suffix(s: Seq<char>, suffix: Seq<char>) -> bool {
    suffix.len() <= s.len() && s.subrange(s.len() - suffix.len(), s.len() as int) == suffix
}

/// `prefix` is a prefix of `s`.
pub open spec fn has_prefix(s: Seq<char>, prefix: Seq<char>) -> bool {
    prefix.len() <= s.len() && s.subrange(0, prefix.len() as int) == prefix
}

/// `needle` occurs in `s` starting at position `i`.
pub open spec fn occurs_at(s: Seq<char>, needle: Seq<char>, i: int) -> bool {
    0 <= i && i + needle.len() <= s.len() && s.subrange(i, i + needle.len()) == needle
}

/// `needle` occurs somewhere in `s`.
pub open spec fn has_infix(s: Seq<char>, needle: Seq<char>) -> bool {
    exists|i: int| #[trigger] occurs_at(s, needle, i)
}

/// ASCII lowercasing of one character; other characters are unchanged.
pub open spec fn ascii_lower(c: char) -> char {
    if 'A' <= c && c <= 'Z' {
        ((c as u32) + 32) as char
    } else {
        c
    }
}

/// ASCII lowercasing of every character.
pub open spec fn lower_seq(s: Seq<char>) -> Seq<char> {
    Seq::new(s.len(), |i: int| ascii_lower(s[i]))
}

/// The first `n` characters of `s` (all of `s` when it is shorter).
pub open spec fn take_chars(s: Seq<char>, n: int) -> Seq<char> {
    if n < s.len() {
        s.take(n)
    } else {
        s
    }
}

/// `String::push`: appends one character.
#[verifier::external_body]
pub(crate) fn push_char(s: &mut String, c: char)
    ensures
        final(s)@ == old(s)@.push(c),
{
    s.push(c);
}

/// Number of characters of `s`.
pub fn char_count(s: &str) -> (n: usize)
    ensures
        n == s@.len(),
{
    s.unicode_len()
}

/// Whether `c` occurs in `s`.
pub fn str_has_char(s: &str, c: char) -> (r: bool)
    ensures
        r == s@.contains(c),
{
    let n = s.unicode_len();
    let mut i: usize = 0;
    while i < n
        invariant
            n == s@.len(),
            i <= n,
            forall|j: int| 0 <= j < i ==> s@[j] != c,
        decreases n - i,
    {
        if s.get_char(i) == c {
            assert(s@[i as int] == c);
            return true;
        }
        i = i + 1;
    }
    false
}

/// Whether every character of `s` is a lowercase hexadecimal digit.
pub fn all_lower_hex(s: &str) -> (r: bool)
    ensures
        r == is_lower_hex(s@),
{
    let n = s.unicode_len();
    let mut i: usize = 0;
    while i < n
        invariant
            n == s@.len(),
            i <= n,
            forall|j: int| 0 <= j < i ==> is_lower_hex_char(s@[j]),
        decreases n - i,
    {
        let c = s.get_char(i);
        if !(('0' <= c && c <= '9') || ('a' <= c && c <= 'f')) {
            assert(!is_lower_hex_char(s@[i as int]));
            return false;
        }
        i = i + 1;
    }
    true
}

/// Whether `s` is lowercase hexadecimal with exactly `n` digits.
pub fn is_hex_with_len(s: &str, n: usize) -> (r: bool)
    ensures
        r == is_hex_of_len(s@, n as nat),
{
    s.unicode_len() == n && all_lower_hex(s)
}

/// Character-wise equality.
pub fn str_equal(a: &str, b: &str) -> (r: bool)
    ensures
        r == (a@ == b@),
{
    let n = a.unicode_len();
    if n != b.unicode_len() {
        return false;
    }
    let mut i: usize = 0;
    while i < n
        invariant
            n == a@.len(),
            n == b@.len(),
            i <= n,
            forall|j: int| 0 <= j < i ==> a@[j] == b@[j],
        decreases n - i,
    {
        if a.get_char(i) != b.get_char(i) {
            return false;
        }
        i = i + 1;
    }
    assert(a@ =~= b@);
    true
}

proof fn lemma_lex_unique_witness(a: Seq<char>, b: Seq<char>, i: int, k: int)
    requires
        0 <= i < a.len(),
        i < b.len(),
        a[i] != b[i],
        forall|j: int| 0 <= j < i ==> a[j] == b[j],
        lex_less_at(a, b, k),
    ensures
        k == i,
{
    if k < i {
        assert(a[k] == b[k]);
    } else if k > i {
        assert(a[i] == b[i]);
    }
}

/// Two different sequences are ordered one way or the other.
pub proof fn lemma_lex_total(a: Seq<char>, b: Seq<char>)
    requires
        a != b,
    ensures
        lex_less(a, b) || lex_less(b, a),
{
    let n = if a.len() < b.len() {
        a.len()
    } else {
        b.len()
    };
    if forall|j: int| 0 <= j < n ==> a[j] == b[j] {
        if a.len() < b.len() {
            assert(lex_less_at(a, b, a.len() as int));
        } else if b.len() < a.len() {
            assert(lex_less_at(b, a, b.len() as int));
        } else {
            assert(a =~= b);
        }
    } else {
        let k = choose|k: int| 0 <= k < n && a[k] != b[k] && forall|j: int| 0 <= j < k ==> a[j] == b[j];
        assert(exists|k: int| 0 <= k < n && a[k] != b[k] && forall|j: int| 0 <= j < k ==> a[j] == b[j]) by {
            let w = choose|w: int| 0 <= w < n && a[w] != b[w];
            lemma_first_difference(a, b, w);
        }
        if a[k] < b[k] {
            assert(lex_less_at(a, b, k));
        } else {

            assert(lex_less_at(b, a, k));
        }
    }
}

proof fn lemma_first_difference(a: Seq<char>, b: Seq<char>, w: int)
    requires
        0 <= w < a.len(),
        w < b.len(),
        a[w] != b[w],
    ensures
        exists|k: int| 0 <= k <= w && a[k] != b[k] && forall|j: int| 0 <= j < k ==> a[j] == b[j],
    decreases w,
{
    if forall|j: int| 0 <= j < w ==> a[j] == b[j] {
        assert(0 <= w <= w && a[w] != b[w] && forall|j: int| 0 <= j < w ==> a[j] == b[j]);
    } else {
        let v = choose|v: int| 0 <= v < w && a[v] != b[v];
        lemma_first_difference(a, b, v);
    }
}

/// No sequence is below itself, and the order is asymmetric.
pub proof fn lemma_lex_asymmetric(a: Seq<char>, b: Seq<char>)
    requires
        lex_less(a, b),
    ensures
        !lex_less(b, a),
        a != b,
{
    let k = choose|k: int| lex_less_at(a, b, k);
    if lex_less(b, a) {
        let m = choose|m: int| lex_less_at(b, a, m);
        if k < m {
            assert(b[k] == a[k]);
        } else if m < k {
            assert(a[m] == b[m]);
        }
    }
}

/// The lexicographic order is transitive.
pub proof fn lemma_lex_transitive(a: Seq<char>, b: Seq<char>, c: Seq<char>)
    requires
        lex_less(a, b),
        lex_less(b, c),
    ensures
        lex_less(a, c),
{
    let k = choose|k: int| lex_less_at(a, b, k);
    let m = choose|m: int| lex_less_at(b, c, m);
    if k < m {
        assert(lex_less_at(a, c, k));
    } else if m < k {
        assert(a[m] == b[m]);
        assert(lex_less_at(a, c, m));
    } else {
        assert(lex_less_at(a, c, k));
    }
}

/// Strict lexicographic comparison.
pub fn str_less(a: &str, b: &str) -> (r: bool)
    ensures
        r == lex_less(a@, b@),
{
    let n = a.unicode_len();
    let m = b.unicode_len();
    let mut i: usize = 0;
    while i < n && i < m
        invariant
            n == a@.len(),
            m == b@.len(),
            i <= n,
            i <= m,
            forall|j: int| 0 <= j < i ==> a@[j] == b@[j],
        decreases n - i,
    {
        let ca = a.get_char(i);
        let cb = b.get_char(i);
        if ca != cb {
            let less = ca < cb;
            proof {
                if less {
                    assert(lex_less_at(a@, b@, i as int));
                } else {
                    assert forall|k: int| !lex_less_at(a@, b@, k) by {
                        if lex_less_at(a@, b@, k) {
                            lemma_lex_unique_witness(a@, b@, i as int, k);
                        }
                    }
                }
            }
            return less;
        }
        i = i + 1;
    }
    if i == n && n < m {
        assert(lex_less_at(a@, b@, i as int));
        true
    } else {
        assert forall|k: int| !lex_less_at(a@, b@, k) by {
            if lex_less_at(a@, b@, k) {
                if k < i {
                    assert(a@[k] == b@[k]);
                }
            }
        }
        false
    }
}

/// Whether `s` ends with `suffix`.
pub fn str_ends_with(s: &str, suffix: &str) -> (r: bool)
    ensures
        r == has_suffix(s@, suffix@),
{
    let n = s.unicode_len();
    let m = suffix.unicode_len();
    if m > n {
        return false;
    }
    let off = n - m;
    let mut i: usize = 0;
    while i < m
        invariant
            n == s@.len(),
            m == suffix@.len(),
            off == n - m,
            i <= m,
            forall|j: int| 0 <= j < i ==> s@[off + j] == suffix@[j],
        decreases m - i,
    {
        if s.get_char(off + i) != suffix.get_char(i) {
            assert(s@.subrange(off as int, n as int)[i as int] != suffix@[i as int]);
            return false;
        }
        i = i + 1;
    }
    assert(s@.subrange(off as int, n as int) =~= suffix@);
    true
}

/// Whether `s` starts with `prefix`.
pub fn str_starts_with(s: &str, prefix: &str) -> (r: bool)
    ensures
        r == has_prefix(s@, prefix@),
{
    let n = s.unicode_len();
    let m = prefix.unicode_len();
    if m > n {
        return false;
    }
    let mut i: usize = 0;
    while i < m
        invariant
            n == s@.len(),
            m == prefix@.len(),
            m <= n,
            i <= m,
            forall|j: int| 0 <= j < i ==> s@[j] == prefix@[j],
        decreases m - i,
    {
        if s.get_char(i) != prefix.get_char(i) {
            assert(s@.subrange(0, m as int)[i as int] != prefix@[i as int]);
            return false;
        }
        i = i + 1;
    }
    assert(s@.subrange(0, m as int) =~= prefix@);
    true
}

/// Whether `needle` occurs at position `at` of `s`.
fn occurs_at_exec(s: &str, needle: &str, at: usize) -> (r: bool)
    requires
        at + needle@.len() <= s@.len(),
    ensures
        r == occurs_at(s@, needle@, at as int),
{
    let n = s.unicode_len();
    let m = needle.unicode_len();
    let mut i: usize = 0;
    while i < m
        invariant
            n == s@.len(),
            m == needle@.len(),
            at + m <= n,
            i <= m,
            forall|j: int| 0 <= j < i ==> s@[at + j] == needle@[j],
        decreases m - i,
    {
        if s.get_char(at + i) != needle.get_char(i) {
            assert(s@.subrange(at as int, at + m)[i as int] != needle@[i as int]);
            return false;
        }
        i = i + 1;
    }
    assert(s@.subrange(at as int, at + m) =~= needle@);
    true
}

/// Whether `needle` occurs somewhere in `s`.
pub fn str_contains(s: &str, needle: &str) -> (r: bool)
    ensures
        r == has_infix(s@, needle@),
{
    let n = s.unicode_len();
    let m = needle.unicode_len();
    if m > n {
        return false;
    }
    if m == 0 {
        assert(s@.subrange(0, 0) =~= needle@);
        assert(occurs_at(s@, needle@, 0));
        return true;
    }
    let mut at: usize = 0;
    while at <= n - m
        invariant
            n == s@.len(),
            m == needle@.len(),
            1 <= m <= n,
            at <= n - m + 1,
            forall|k: int| 0 <= k < at ==> !occurs_at(s@, needle@, k),
        decreases n - at,
    {
        if occurs_at_exec(s, needle, at) {
            return true;
        }
        at = at + 1;
    }
    assert forall|k: int| !(#[trigger] occurs_at(s@, needle@, k)) by {
        if occurs_at(s@, needle@, k) {
            assert(k < at);
        }
    }
    false
}

/// ASCII lowercase copy of `s`.
pub fn to_ascii_lower(s: &str) -> (r: String)
    ensures
        r@ == lower_seq(s@),
{
    let n = s.unicode_len();
    let mut out = String::new();
    let mut i: usize = 0;
    while i < n
        invariant
            n == s@.len(),
            i <= n,
            out@ == lower_seq(s@).take(i as int),
        decreases n - i,
    {
        let c = s.get_char(i);
        let l = if 'A' <= c && c <= 'Z' {
            char_from_ascii_lower(c)
        } else {
            c
        };
        push_char(&mut out, l);
        assert(lower_seq(s@).take(i + 1) =~= lower_seq(s@).take(i as int).push(l));
        i = i + 1;
    }
    assert(lower_seq(s@).take(n as int) =~= lower_seq(s@));
    out
}

fn char_from_ascii_lower(c: char) -> (r: char)
    requires
        'A' <= c && c <= 'Z',
    ensures
        r == ascii_lower(c),
{
    let code = (c as u32) + 32;
    let b = code as u8;
    let r = b as char;
    assert(r == ((c as u32) + 32) as char);
    r
}

/// The first `maximum` characters of `value`.
pub fn take_prefix_chars(value: &str, maximum: usize) -> (r: String)
    ensures
        r@ == take_chars(value@, maximum as int),
{
    let n = value.unicode_len();
    let end = if maximum < n {
        maximum
    } else {
        n
    };
    let part = value.substring_char(0, end);
    proof {
        if maximum >= n {
            assert(value@.subrange(0, n as int) =~= value@);
        }
    }
    String::from_str(part)
}

/// The decimal digit character of `d < 10`.
pub open spec fn digit_char(d: nat) -> char {
    (('0' as int) + d) as char
}

/// The decimal rendering of `n`, most significant digit first.
pub open spec fn decimal(n: nat) -> Seq<char>
    decreases n,
{
    if n < 10 {
        seq![digit_char(n)]
    } else {
        decimal(n / 10).push(digit_char(n % 10))
    }
}

/// Appends the decimal rendering of `n`.
pub fn push_decimal(out: &mut String, n: u64)
    ensures
        final(out)@ == old(out)@ + decimal(n as nat),
    decreases n,
{
    if n >= 10 {
        push_decimal(out, n / 10);
    }
    let d = (n % 10) as u8;
    let c = (48u8 + d) as char;
    assert(c == digit_char((n % 10) as nat));
    push_char(out, c);
    proof {
        if n >= 10 {
            assert(decimal(n as nat) == decimal((n / 10) as nat).push(digit_char((n % 10) as nat)));
        } else {
            assert(decimal(n as nat) == seq![digit_char(n as nat)]);
        }
    }
    assert(out@ =~= old(out)@ + decimal(n as nat));
}

/// The decimal rendering of `n`.
pub fn decimal_text(n: u64) -> (r: String)
    ensures
        r@ == decimal(n as nat),
{
    let mut out = String::new();
    push_decimal(&mut out, n);
    assert(out@ =~= decimal(n as nat));
    out
}

/// A control character in Unicode's sense (general category Cc).
pub open spec fn is_control_char(c: char) -> bool {
    c <= '\u{1f}' || ('\u{7f}' <= c && c <= '\u{9f}')
}

/// The characters of `s` that are not control characters, in order.
pub open spec fn without_controls(s: Seq<char>) -> Seq<char>
    decreases s.len(),
{
    if s.len() == 0 {
        Seq::empty()
    } else if is_control_char(s.last()) {
        without_controls(s.drop_last())
    } else {
        without_controls(s.drop_last()).push(s.last())
    }
}

/// Dropping control characters and cutting leaves at most `n` characters,
/// none of them a control character.
pub proof fn lemma_clean_text(s: Seq<char>, n: int)
    requires
        n >= 0,
    ensures
        take_chars(without_controls(s), n).len() <= n,
        forall|i: int| 0 <= i < take_chars(without_controls(s), n).len() ==> !is_control_char(
            #[trigger] take_chars(without_controls(s), n)[i],
        ),
    decreases s.len(),
{
    lemma_without_controls_clean(s);
}

proof fn lemma_without_controls_clean(s: Seq<char>)
    ensures
        forall|i: int| 0 <= i < without_controls(s).len() ==> !is_control_char(#[trigger] without_controls(s)[i]),
    decreases s.len(),
{
    if s.len() > 0 {
        let d = s.drop_last();
        lemma_without_controls_clean(d);
        let w = without_controls(s);
        assert forall|i: int| 0 <= i < w.len() implies !is_control_char(#[trigger] w[i]) by {
            if !is_control_char(s.last()) && i == w.len() - 1 {
                assert(w[i] == s.last());
            } else {
                assert(w[i] == without_controls(d)[i]);
            }
        }
    }
}

/// `value` without control characters, cut to `maximum` characters.
pub fn strip_controls_bounded(value: &str, maximum: usize) -> (r: String)
    ensures
        r@ == take_chars(without_controls(value@), maximum as int),
{
    let n = value.unicode_len();
    let mut out = String::new();
    let mut i: usize = 0;
    while i < n
        invariant
            n == value@.len(),
            i <= n,
            out@ == take_chars(without_controls(value@.take(i as int)), maximum as int),
        decreases n - i,
    {
        let c = value.get_char(i);
        let ghost prev = without_controls(value@.take(i as int));
        proof {
            let t = value@.take(i + 1);
            assert(t.drop_last() =~= value@.take(i as int));
            assert(t.last() == c);
        }
        let control = c <= '\u{1f}' || ('\u{7f}' <= c && c <= '\u{9f}');
        if !control && out.unicode_len() < maximum {
            proof {
                assert(prev.len() < maximum);
            }
            push_char(&mut out, c);
            assert(out@ =~= take_chars(prev.push(c), maximum as int));
        } else if !control {
            proof {
                assert(prev.len() >= maximum);
                assert(take_chars(prev.push(c), maximum as int) =~= take_chars(prev, maximum as int));
            }
        }
        i = i + 1;
    }
    assert(value@.take(n as int) =~= value@);
    out
}

/// The position of the last occurrence of `c` in `s`, or -1.
pub open spec fn last_index_of(s: Seq<char>, c: char) -> int
    decreases s.len(),
{
    if s.len() == 0 {
        -1
    } else if s.last() == c {
        s.len() - 1
    } else {
        last_index_of(s.drop_last(), c)
    }
}

/// The last occurrence lies in `s`, holds `c`, and nothing after it does.
pub proof fn lemma_last_index_of(s: Seq<char>, c: char)
    ensures
        -1 <= last_index_of(s, c) < s.len(),
        last_index_of(s, c) >= 0 ==> s[last_index_of(s, c)] == c,
        forall|k: int| last_index_of(s, c) < k < s.len() ==> s[k] != c,
    decreases s.len(),
{
    if s.len() > 0 && s.last() != c {
        lemma_last_index_of(s.drop_last(), c);
        assert forall|k: int| last_index_of(s, c) < k < s.len() implies s[k] != c by {
            if k < s.len() - 1 {
                assert(s[k] == s.drop_last()[k]);
            }
        }
    }
}

/// The position of the last `c` in `s`.
pub fn find_last_char(s: &str, c: char) -> (r: Option<usize>)
    ensures
        match r {
            Some(i) => i as int == last_index_of(s@, c),
            None => last_index_of(s@, c) == -1,
        },
{
    let n = s.unicode_len();
    let mut i: usize = n;
    assert(s@.take(n as int) =~= s@);
    while i > 0
        invariant
            n == s@.len(),
            i <= n,
            last_index_of(s@, c) == last_index_of(s@.take(i as int), c),
        decreases i,
    {
        let ghost t = s@.take(i as int);
        assert(t.drop_last() =~= s@.take(i - 1));
        if s.get_char(i - 1) == c {
            return Some(i - 1);
        }
        i = i - 1;
    }
    None
}

/// The characters of `s` from `start` up to `end`.
pub fn substring_chars(s: &str, start: usize, end: usize) -> (r: String)
    requires
        start <= end <= s@.len(),
    ensures
        r@ == s@.subrange(start as int, end as int),
{
    let mut out = String::new();
    let mut i: usize = start;
    while i < end
        invariant
            start <= i <= end,
            end <= s@.len(),
            out@ == s@.subrange(start as int, i as int),
        decreases end - i,
    {
        push_char(&mut out, s.get_char(i));
        assert(s@.subrange(start as int, i + 1) =~= s@.subrange(start as int, i as int).push(
            s@[i as int],
        ));
        i = i + 1;
    }
    out
}

/// Appends the characters of `s`.
pub fn push_text(out: &mut String, s: &str)
    ensures
        final(out)@ == old(out)@ + s@,
{
    let n = s.unicode_len();
    let mut i: usize = 0;
    while i < n
        invariant
            n == s@.len(),
            i <= n,
            out@ == old(out)@ + s@.take(i as int),
        decreases n - i,
    {
        push_char(out, s.get_char(i));
        assert(s@.take(i + 1) =~= s@.take(i as int).push(s@[i as int]));
        i = i + 1;
    }
    assert(s@.take(n as int) =~= s@);
}

/// Whether `c` is a control character.
pub fn char_is_control(c: char) -> (r: bool)
    ensures
        r == is_control_char(c),
{
    c <= '\u{1f}' || ('\u{7f}' <= c && c <= '\u{9f}')
}


/// The characters that `String::from_utf8_lossy` decodes from `bytes`.
pub uninterp spec fn utf8_lossy(bytes: Seq<u8>) -> Seq<char>;

/// `String::from_utf8_lossy`: the text of `bytes`, with each invalid
/// sequence replaced by U+FFFD; valid UTF-8 decodes unchanged. Every
/// character comes from at least one byte, so there are no more characters
/// than bytes.
#[verifier::external_body]
pub fn decode_lossy(bytes: &[u8]) -> (r: String)
    ensures
        r@ == utf8_lossy(bytes@),
        r@.len() <= bytes@.len(),
        valid_utf8(bytes@) ==> r@ == decode_utf8(bytes@),
{
    String::from_utf8_lossy(bytes).into_owned()
}

/// `std::str::from_utf8`: the text of `bytes` when they are valid UTF-8.
#[verifier::external_body]
pub fn decode_utf8_strict(bytes: &[u8]) -> (r: Option<String>)
    ensures
        r is Some <==> valid_utf8(bytes@),
        r matches Some(s) ==> s@ == decode_utf8(bytes@),
{
    match std::str::from_utf8(bytes) {
        Ok(text) => Some(text.to_string()),
        Err(_) => None,
    }
}

} // verus!
