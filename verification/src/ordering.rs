//! Three-way orders on the fields of stored facts, and the stable sort
//! that puts records in their canonical order.
use vstd::prelude::*;
use crate::contracts::SourceRange;
use crate::strings::{lemma_lex_asymmetric, lemma_lex_total, lex_less, str_equal, str_less};

verus! {

/// -1, 0 or 1 as `a` is below, equal to or above `b`.
pub open spec fn ord_int(a: int, b: int) -> int {
    if a < b {
        -1
    } else if a == b {
        0
    } else {
        1
    }
}

/// The lexicographic order of two texts, as -1, 0 or 1.
pub open spec fn ord_text(a: Seq<char>, b: Seq<char>) -> int {
    if lex_less(a, b) {
        -1
    } else if a == b {
        0
    } else {
        1
    }
}

/// The lexicographic order of two lists of texts.
pub open spec fn ord_texts(a: Seq<Seq<char>>, b: Seq<Seq<char>>) -> int
    decreases a.len(),
{
    if a.len() == 0 && b.len() == 0 {
        0
    } else if a.len() == 0 {
        -1
    } else if b.len() == 0 {
        1
    } else if ord_text(a[0], b[0]) != 0 {
        ord_text(a[0], b[0])
    } else {
        ord_texts(a.drop_first(), b.drop_first())
    }
}

/// An absent text sorts before any present one.
pub open spec fn ord_opt_text(a: Option<Seq<char>>, b: Option<Seq<char>>) -> int {
    match (a, b) {
        (None, None) => 0,
        (None, Some(_)) => -1,
        (Some(_), None) => 1,
        (Some(x), Some(y)) => ord_text(x, y),
    }
}

/// `false` sorts before `true`.
pub open spec fn ord_bool(a: bool, b: bool) -> int {
    if a == b {
        0
    } else if !a {
        -1
    } else {
        1
    }
}

/// The first order that tells the two apart.
pub open spec fn then(first: int, second: int) -> int {
    if first != 0 {
        first
    } else {
        second
    }
}

/// Ranges by start byte, end byte, start line and column, end line and
/// column.
pub open spec fn ord_range(a: SourceRange, b: SourceRange) -> int {
    then(
        ord_int(a.start_byte as int, b.start_byte as int),
        then(
            ord_int(a.end_byte as int, b.end_byte as int),
            then(
                ord_int(a.start_line as int, b.start_line as int),
                then(
                    ord_int(a.start_column as int, b.start_column as int),
                    then(
                        ord_int(a.end_line as int, b.end_line as int),
                        ord_int(a.end_column as int, b.end_column as int),
                    ),
                ),
            ),
        ),
    )
}

pub proof fn lemma_ord_text_antisymmetric(a: Seq<char>, b: Seq<char>)
    ensures
        ord_text(a, b) == -ord_text(b, a),
        ord_text(a, b) == 0 <==> a == b,
{
    if lex_less(a, b) {
        lemma_lex_asymmetric(a, b);
    } else if lex_less(b, a) {
        lemma_lex_asymmetric(b, a);
    } else if a != b {
        lemma_lex_total(a, b);
    }
}

pub proof fn lemma_ord_texts_antisymmetric(a: Seq<Seq<char>>, b: Seq<Seq<char>>)
    ensures
        ord_texts(a, b) == -ord_texts(b, a),
    decreases a.len(),
{
    if a.len() > 0 && b.len() > 0 {
        lemma_ord_text_antisymmetric(a[0], b[0]);
        lemma_ord_texts_antisymmetric(a.drop_first(), b.drop_first());
    }
}

pub proof fn lemma_ord_opt_text_antisymmetric(a: Option<Seq<char>>, b: Option<Seq<char>>)
    ensures
        ord_opt_text(a, b) == -ord_opt_text(b, a),
{
    if let (Some(x), Some(y)) = (a, b) {
        lemma_ord_text_antisymmetric(x, y);
    }
}

/// A record type with a canonical three-way order.
pub trait CanonicalOrder: Sized {
    spec fn order_of(&self, other: &Self) -> int;

    proof fn lemma_antisymmetric(a: &Self, b: &Self)
        ensures
            a.order_of(b) == -b.order_of(a),
    ;

    fn order(&self, other: &Self) -> (r: i8)
        ensures
            r as int == self.order_of(other),
    ;
}

/// Adjacent records are in order.
pub open spec fn sorted_by_order<T: CanonicalOrder>(v: Seq<T>) -> bool {
    forall|i: int| 0 <= i < v.len() - 1 ==> (#[trigger] v[i]).order_of(&v[i + 1]) <= 0
}

/// Adjacent records are strictly in order.
pub open spec fn strictly_sorted_by_order<T: CanonicalOrder>(v: Seq<T>) -> bool {
    forall|i: int| 0 <= i < v.len() - 1 ==> (#[trigger] v[i]).order_of(&v[i + 1]) < 0
}

/// Whether adjacent records are in order.
pub fn is_sorted_by_order<T: CanonicalOrder>(v: &Vec<T>) -> (r: bool)
    ensures
        r == sorted_by_order(v@),
{
    let n = v.len();
    let mut i: usize = 0;
    while i < n && i + 1 < n
        invariant
            n == v@.len(),
            i <= n,
            forall|j: int| 0 <= j < i && j < n - 1 ==> (#[trigger] v@[j]).order_of(&v@[j + 1]) <= 0,
        decreases n - i,
    {
        if v[i].order(&v[i + 1]) > 0 {
            return false;
        }
        i = i + 1;
    }
    true
}

/// Whether adjacent records are strictly in order.
pub fn is_strictly_sorted_by_order<T: CanonicalOrder>(v: &Vec<T>) -> (r: bool)
    ensures
        r == strictly_sorted_by_order(v@),
{
    let n = v.len();
    let mut i: usize = 0;
    while i < n && i + 1 < n
        invariant
            n == v@.len(),
            i <= n,
            forall|j: int| 0 <= j < i && j < n - 1 ==> (#[trigger] v@[j]).order_of(&v@[j + 1]) < 0,
        decreases n - i,
    {
        if v[i].order(&v[i + 1]) >= 0 {
            return false;
        }
        i = i + 1;
    }
    true
}

/// Sorts stably into canonical order.
pub fn stable_sort<T: CanonicalOrder>(v: Vec<T>) -> (r: Vec<T>)
    ensures
        sorted_by_order(r@),
        r@.to_multiset() == v@.to_multiset(),
        sorted_by_order(v@) ==> r@ == v@,
{
    let ghost all = v@;
    let total = v.len();
    let mut rest = v;
    let mut out: Vec<T> = Vec::new();
    let mut i: usize = 0;
    assert(out@ =~= all.take(0));
    while rest.len() > 0
        invariant
            all.len() == total,
            i <= total,
            rest@ == all.subrange(i as int, total as int),
            sorted_by_order(out@),
            out@.to_multiset() == all.take(i as int).to_multiset(),
            sorted_by_order(all) ==> out@ == all.take(i as int),
        decreases rest@.len(),
    {
        let x = rest.remove(0);
        assert(x == all[i as int]);
        let mut p: usize = out.len();
        while p > 0 && out[p - 1].order(&x) > 0
            invariant
                p <= out@.len(),
                sorted_by_order(out@),
                p < out@.len() ==> x.order_of(&out@[p as int]) < 0,
                i < total,
                x == all[i as int],
                all.len() == total,
                sorted_by_order(all) ==> out@ == all.take(i as int) && p == out@.len(),
            decreases p,
        {
            proof {
                T::lemma_antisymmetric(&out@[p - 1], &x);
                if sorted_by_order(all) {
                    assert(out@[p - 1] == all[i - 1]);
                    assert(all[i - 1].order_of(&all[(i - 1) + 1]) <= 0);
                }
            }
            p = p - 1;
        }
        let ghost before = out@;
        out.insert(p, x);
        proof {
            assert forall|j: int| 0 <= j < out@.len() - 1 implies (#[trigger] out@[j]).order_of(&out@[j + 1]) <= 0 by {
                if j < p as int - 1 {
                    assert(out@[j] == before[j] && out@[j + 1] == before[j + 1]);
                } else if j == p as int - 1 {
                    assert(out@[j] == before[j] && out@[j + 1] == x);
                } else if j == p as int {
                    assert(out@[j] == x && out@[j + 1] == before[j]);
                } else {
                    assert(out@[j] == before[j - 1] && out@[j + 1] == before[j]);
                }
            }
            vstd::seq_lib::to_multiset_insert(before, p as int, x);
            assert(all.take(i + 1) =~= all.take(i as int).push(x));
            vstd::seq_lib::to_multiset_build(all.take(i as int), x);
            assert(rest@ =~= all.subrange(i + 1, total as int));
            if sorted_by_order(all) {
                assert(out@ =~= all.take(i + 1));
            }
        }
        i = i + 1;
    }
    assert(all.take(total as int) =~= all);
    out
}

/// The three-way order of two texts.
pub fn order_text(a: &str, b: &str) -> (r: i8)
    ensures
        r as int == ord_text(a@, b@),
{
    if str_less(a, b) {
        -1
    } else if str_equal(a, b) {
        0
    } else {
        1
    }
}

/// The three-way order of two lists of texts.
pub fn order_texts(a: &Vec<String>, b: &Vec<String>) -> (r: i8)
    ensures
        r as int == ord_texts(
            Seq::new(a@.len(), |i: int| a@[i]@),
            Seq::new(b@.len(), |i: int| b@[i]@),
        ),
{
    let ghost av = Seq::new(a@.len(), |i: int| a@[i]@);
    let ghost bv = Seq::new(b@.len(), |i: int| b@[i]@);
    let mut i: usize = 0;
    assert(av.subrange(0, av.len() as int) =~= av);
    assert(bv.subrange(0, bv.len() as int) =~= bv);
    while i < a.len() && i < b.len()
        invariant
            i <= a@.len(),
            i <= b@.len(),
            av == Seq::new(a@.len(), |k: int| a@[k]@),
            bv == Seq::new(b@.len(), |k: int| b@[k]@),
            ord_texts(av, bv) == ord_texts(av.subrange(i as int, av.len() as int), bv.subrange(i as int, bv.len() as int)),
        decreases a@.len() - i,
    {
        let o = order_text(a[i].as_str(), b[i].as_str());
        let ghost sa = av.subrange(i as int, av.len() as int);
        let ghost sb = bv.subrange(i as int, bv.len() as int);
        assert(sa[0] == a@[i as int]@ && sb[0] == b@[i as int]@);
        if o != 0 {
            return o;
        }
        assert(sa.drop_first() =~= av.subrange(i + 1, av.len() as int));
        assert(sb.drop_first() =~= bv.subrange(i + 1, bv.len() as int));
        i = i + 1;
    }
    if i == a.len() && i == b.len() {
        0
    } else if i == a.len() {
        -1
    } else {
        1
    }
}

/// The three-way order of two optional texts.
pub fn order_opt_text(a: &Option<String>, b: &Option<String>) -> (r: i8)
    ensures
        r as int == ord_opt_text(
            match a {
                Some(x) => Some(x@),
                None => None,
            },
            match b {
                Some(x) => Some(x@),
                None => None,
            },
        ),
{
    match (a, b) {
        (None, None) => 0,
        (None, Some(_)) => -1,
        (Some(_), None) => 1,
        (Some(x), Some(y)) => order_text(x.as_str(), y.as_str()),
    }
}

fn order_usize(a: usize, b: usize) -> (r: i8)
    ensures
        r as int == ord_int(a as int, b as int),
{
    if a < b {
        -1
    } else if a == b {
        0
    } else {
        1
    }
}

fn order_u32(a: u32, b: u32) -> (r: i8)
    ensures
        r as int == ord_int(a as int, b as int),
{
    if a < b {
        -1
    } else if a == b {
        0
    } else {
        1
    }
}

/// The order of two booleans.
pub fn order_bool(a: bool, b: bool) -> (r: i8)
    ensures
        r as int == ord_bool(a, b),
{
    if a == b {
        0
    } else if !a {
        -1
    } else {
        1
    }
}

/// The three-way order of two ranges.
pub fn order_range(a: &SourceRange, b: &SourceRange) -> (r: i8)
    ensures
        r as int == ord_range(*a, *b),
{
    let o = order_usize(a.start_byte, b.start_byte);
    if o != 0 {
        return o;
    }
    let o = order_usize(a.end_byte, b.end_byte);
    if o != 0 {
        return o;
    }
    let o = order_u32(a.start_line, b.start_line);
    if o != 0 {
        return o;
    }
    let o = order_u32(a.start_column, b.start_column);
    if o != 0 {
        return o;
    }
    let o = order_u32(a.end_line, b.end_line);
    if o != 0 {
        return o;
    }
    order_u32(a.end_column, b.end_column)
}

impl CanonicalOrder for SourceRange {
    open spec fn order_of(&self, other: &Self) -> int {
        ord_range(*self, *other)
    }

    proof fn lemma_antisymmetric(a: &Self, b: &Self) {
    }

    fn order(&self, other: &Self) -> (r: i8) {
        order_range(self, other)
    }
}

impl CanonicalOrder for String {
    open spec fn order_of(&self, other: &Self) -> int {
        ord_text(self@, other@)
    }

    proof fn lemma_antisymmetric(a: &Self, b: &Self) {
        lemma_ord_text_antisymmetric(a@, b@);
    }

    fn order(&self, other: &Self) -> (r: i8) {
        order_text(self.as_str(), other.as_str())
    }
}

} // verus!
