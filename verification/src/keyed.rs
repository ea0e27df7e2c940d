//! Records kept in a vector sorted strictly by a text key: the ordered-map
//! discipline of the normalised facts and limitations.
use vstd::prelude::*;
use crate::strings::{
    lemma_lex_asymmetric, lemma_lex_total, lemma_lex_transitive, lex_less, str_equal, str_less,
    strictly_ascending,
};

verus! {

/// A record identified by a text key.
pub trait Keyed {
    spec fn key_of(&self) -> Seq<char>;

    fn key(&self) -> (r: &str)
        ensures
            r@ == self.key_of(),
    ;
}

/// A keyed record with a rank; a merge keeps the higher-ranked record.
pub trait Ranked: Keyed {
    spec fn rank_of(&self) -> u8;

    fn rank(&self) -> (r: u8)
        ensures
            r == self.rank_of(),
    ;
}

/// The keys of a sequence of records, in order.
pub open spec fn keys_of<T: Keyed>(s: Seq<T>) -> Seq<Seq<char>> {
    Seq::new(s.len(), |i: int| s[i].key_of())
}

/// Records sorted strictly by key, so no key occurs twice.
pub open spec fn keyed_sorted<T: Keyed>(s: Seq<T>) -> bool {
    strictly_ascending(keys_of(s))
}

/// Adjacent order extends to every pair of positions.
pub proof fn lemma_ascending_pairs(s: Seq<Seq<char>>, i: int, j: int)
    requires
        strictly_ascending(s),
        0 <= i < j < s.len(),
    ensures
        lex_less(s[i], s[j]),
    decreases j - i,
{
    assert(lex_less(s[j - 1], s[j]));
    if i < j - 1 {
        lemma_ascending_pairs(s, i, j - 1);
        lemma_lex_transitive(s[i], s[j - 1], s[j]);
    }
}

/// In a strictly ascending sequence no element occurs twice.
pub proof fn lemma_ascending_distinct(s: Seq<Seq<char>>, i: int, j: int)
    requires
        strictly_ascending(s),
        0 <= i < s.len(),
        0 <= j < s.len(),
        i != j,
    ensures
        s[i] != s[j],
{
    if i < j {
        lemma_ascending_pairs(s, i, j);
        lemma_lex_asymmetric(s[i], s[j]);
    } else {
        lemma_ascending_pairs(s, j, i);
        lemma_lex_asymmetric(s[j], s[i]);
    }
}

/// Where a key is, or where it would go.
pub enum Slot {
    Found(usize),
    Vacant(usize),
}

/// Finds `key` among sorted records, or the position that keeps the order.
pub fn locate<T: Keyed>(items: &Vec<T>, key: &str) -> (r: Slot)
    requires
        keyed_sorted(items@),
    ensures
        r matches Slot::Found(i) ==> i < items@.len() && items@[i as int].key_of() == key@,
        r matches Slot::Vacant(p) ==> p <= items@.len() && !keys_of(items@).contains(key@)
            && strictly_ascending(keys_of(items@).insert(p as int, key@)),
{
    let n = items.len();
    let mut j: usize = 0;
    while j < n
        invariant
            n == items@.len(),
            j <= n,
            keyed_sorted(items@),
            forall|k: int| 0 <= k < j ==> lex_less(#[trigger] keys_of(items@)[k], key@),
        decreases n - j,
    {
        let here = items[j].key();
        if str_equal(here, key) {
            return Slot::Found(j);
        }
        if !str_less(here, key) {
            let ghost ks = keys_of(items@);
            proof {
                lemma_lex_total(ks[j as int], key@);
                assert(lex_less(key@, ks[j as int]));
                assert forall|k: int| 0 <= k < ks.len() implies ks[k] != key@ by {
                    if k < j {
                        lemma_lex_asymmetric(ks[k], key@);
                    } else if k == j {
                        lemma_lex_asymmetric(key@, ks[k]);
                    } else {
                        lemma_ascending_pairs(ks, j as int, k);
                        lemma_lex_transitive(key@, ks[j as int], ks[k]);
                        lemma_lex_asymmetric(key@, ks[k]);
                    }
                }
                let ins = ks.insert(j as int, key@);
                assert forall|i: int| 0 < i < ins.len() implies #[trigger] lex_less(
                    ins[i - 1],
                    ins[i],
                ) by {
                    if i < j {
                        assert(ins[i - 1] == ks[i - 1] && ins[i] == ks[i]);
                        assert(lex_less(ks[i - 1], ks[i]));
                    } else if i == j {
                        assert(ins[i - 1] == ks[i - 1] && ins[i] == key@);
                        assert(lex_less(ks[i - 1], key@));
                    } else if i == j + 1 {
                        assert(ins[i - 1] == key@ && ins[i] == ks[j as int]);
                    } else {
                        let t = i - 1;
                        assert(ins[i - 1] == ks[t - 1] && ins[i] == ks[t]);
                        assert(lex_less(ks[t - 1], ks[t]));
                    }
                }
            }
            return Slot::Vacant(j);
        }
        j = j + 1;
    }
    let ghost ks = keys_of(items@);
    proof {
        assert forall|k: int| 0 <= k < ks.len() implies ks[k] != key@ by {
            lemma_lex_asymmetric(ks[k], key@);
        }
        let ins = ks.insert(n as int, key@);
        assert forall|i: int| 0 < i < ins.len() implies #[trigger] lex_less(ins[i - 1], ins[i]) by {
            if i < n {
                assert(ins[i - 1] == ks[i - 1] && ins[i] == ks[i]);
                assert(lex_less(ks[i - 1], ks[i]));
            } else {
                assert(ins[i - 1] == ks[i - 1] && ins[i] == key@);
                assert(lex_less(ks[i - 1], key@));
            }
        }
    }
    Slot::Vacant(n)
}

proof fn lemma_keys_insert<T: Keyed>(s: Seq<T>, p: int, item: T)
    requires
        0 <= p <= s.len(),
    ensures
        keys_of(s.insert(p, item)) =~= keys_of(s).insert(p, item.key_of()),
{
}

proof fn lemma_keys_update<T: Keyed>(s: Seq<T>, i: int, item: T)
    requires
        0 <= i < s.len(),
        item.key_of() == s[i].key_of(),
    ensures
        keys_of(s.update(i, item)) =~= keys_of(s),
{
}

proof fn lemma_merge_shapes<T: Keyed>(s: Seq<T>, item: T)
    ensures
        forall|i: int|
            0 <= i < s.len() && s[i].key_of() == item.key_of() ==> keys_of(#[trigger] s.update(i, item))
                =~= keys_of(s),
        forall|p: int|
            0 <= p <= s.len() ==> keys_of(#[trigger] s.insert(p, item)) =~= keys_of(s).insert(
                p,
                item.key_of(),
            ),
{
}

/// Adds `item`, keeping the sorted order; of two records with one key the
/// one of higher rank stays, and the earlier one on a tie.
pub fn merge_ranked<T: Ranked>(items: &mut Vec<T>, item: T)
    requires
        keyed_sorted(old(items)@),
    ensures
        keyed_sorted(final(items)@),
        forall|i: int|
            0 <= i < old(items)@.len() && (#[trigger] old(items)@[i]).key_of() == item.key_of()
                && old(items)@[i].rank_of() >= item.rank_of() ==> final(items)@ == old(items)@,
        forall|i: int|
            0 <= i < old(items)@.len() && (#[trigger] old(items)@[i]).key_of() == item.key_of()
                && old(items)@[i].rank_of() < item.rank_of() ==> final(items)@ == old(items)@.update(i, item),
        !keys_of(old(items)@).contains(item.key_of()) ==> exists|p: int|
            0 <= p <= old(items)@.len() && final(items)@ == #[trigger] old(items)@.insert(p, item),
        keys_of(final(items)@).contains(item.key_of()),
        forall|k: Seq<char>| #[trigger]
            keys_of(old(items)@).contains(k) ==> keys_of(final(items)@).contains(k),
        forall|j: int|
            0 <= j < final(items)@.len() ==> #[trigger] final(items)@[j] == item || old(
                items,
            )@.contains(final(items)@[j]),
{
    let slot = locate(items, item.key());
    proof {
        lemma_merge_shapes(old(items)@, item);
    }
    match slot {
        Slot::Found(i) => {
            let ghost before = items@;
            assert(keys_of(before)[i as int] == item.key_of());
            if items[i].rank() < item.rank() {
                proof {
                    lemma_keys_update(items@, i as int, item);
                }
                items.set(i, item);
            }
            proof {
                assert(before == old(items)@);
                assert(keys_of(items@)[i as int] == item.key_of() || keys_of(items@)[i as int]
                    == keys_of(before)[i as int]);
                assert(keys_of(items@).contains(item.key_of()));
                assert forall|j: int| 0 <= j < items@.len() implies #[trigger] items@[j] == item
                    || before.contains(items@[j]) by {
                    if items@[j] != item {
                        assert(items@[j] == before[j]);
                    }
                }
                assert forall|k: int|
                    0 <= k < old(items)@.len() && (#[trigger] old(items)@[k]).key_of() == item.key_of()
                        implies k == i by {
                    if k != i {
                        lemma_ascending_distinct(keys_of(before), k, i as int);
                        assert(keys_of(before)[k] == before[k].key_of());
                    }
                }
                if before[i as int].rank_of() >= item.rank_of() {
                    assert(items@ == before);
                } else {
                    assert(items@ == before.update(i as int, item));
                }
            }
        },
        Slot::Vacant(p) => {
            proof {
                lemma_keys_insert(items@, p as int, item);
                assert forall|k: int|
                    0 <= k < old(items)@.len() implies (#[trigger] old(items)@[k]).key_of()
                        != item.key_of() by {
                    assert(keys_of(old(items)@)[k] == old(items)@[k].key_of());
                }
            }
            let ghost before = items@;
            items.insert(p, item);
            proof {
                assert(keys_of(items@)[p as int] == item.key_of());
                assert forall|k: Seq<char>| #[trigger]
                    keys_of(before).contains(k) implies keys_of(items@).contains(k) by {
                    let w = choose|w: int| 0 <= w < keys_of(before).len() && keys_of(before)[w] == k;
                    if w < p {
                        assert(keys_of(items@)[w] == k);
                    } else {
                        assert(keys_of(items@)[w + 1] == k);
                    }
                }
                assert forall|j: int| 0 <= j < items@.len() implies #[trigger] items@[j] == item
                    || before.contains(items@[j]) by {
                    if j < p {
                        assert(items@[j] == before[j]);
                    } else if j > p {
                        assert(items@[j] == before[j - 1]);
                    }
                }
            }
        },
    }
}

/// Adds `item` unless a record with its key is already there.
pub fn insert_absent<T: Keyed>(items: &mut Vec<T>, item: T)
    requires
        keyed_sorted(old(items)@),
    ensures
        keyed_sorted(final(items)@),
        keys_of(old(items)@).contains(item.key_of()) ==> final(items)@ == old(items)@,
        !keys_of(old(items)@).contains(item.key_of()) ==> exists|p: int|
            0 <= p <= old(items)@.len() && final(items)@ == #[trigger] old(items)@.insert(p, item),
        keys_of(final(items)@).contains(item.key_of()),
        forall|k: Seq<char>| #[trigger]
            keys_of(old(items)@).contains(k) ==> keys_of(final(items)@).contains(k),
        forall|j: int|
            0 <= j < final(items)@.len() ==> #[trigger] final(items)@[j] == item || old(items)@.contains(final(items)@[j]),
        final(items)@.len() <= old(items)@.len() + 1,
{
    let slot = locate(items, item.key());
    match slot {
        Slot::Found(i) => {
            assert(keys_of(old(items)@)[i as int] == item.key_of());
        },
        Slot::Vacant(p) => {
            proof {
                lemma_keys_insert(items@, p as int, item);
            }
            let ghost before = items@;
            items.insert(p, item);
            proof {
                assert(keys_of(items@)[p as int] == item.key_of());
                assert forall|k: Seq<char>| #[trigger]
                    keys_of(before).contains(k) implies keys_of(items@).contains(k) by {
                    let w = choose|w: int| 0 <= w < keys_of(before).len() && keys_of(before)[w] == k;
                    if w < p {
                        assert(keys_of(items@)[w] == k);
                    } else {
                        assert(keys_of(items@)[w + 1] == k);
                    }
                }
                assert forall|j: int| 0 <= j < items@.len() implies #[trigger] items@[j] == item
                    || before.contains(items@[j]) by {
                    if j < p {
                        assert(items@[j] == before[j]);
                    } else if j > p {
                        assert(items@[j] == before[j - 1]);
                    }
                }
            }
        },
    }
}

/// Whether the records are sorted strictly by key.
pub fn is_keyed_sorted<T: Keyed>(items: &Vec<T>) -> (r: bool)
    ensures
        r == keyed_sorted(items@),
{
    let n = items.len();
    let mut i: usize = 1;
    while i < n
        invariant
            n == items@.len(),
            1 <= i,
            forall|k: int| 0 < k < i && k < n ==> #[trigger] lex_less(keys_of(items@)[k - 1], keys_of(items@)[k]),
        decreases n - i,
    {
        if !str_less(items[i - 1].key(), items[i].key()) {
            assert(!lex_less(keys_of(items@)[i - 1], keys_of(items@)[i as int]));
            return false;
        }
        i = i + 1;
    }
    true
}

/// Whether some record has the key `key`.
pub fn has_key<T: Keyed>(items: &Vec<T>, key: &str) -> (r: bool)
    ensures
        r == keys_of(items@).contains(key@),
{
    let n = items.len();
    let mut i: usize = 0;
    while i < n
        invariant
            n == items@.len(),
            i <= n,
            forall|k: int| 0 <= k < i ==> #[trigger] keys_of(items@)[k] != key@,
        decreases n - i,
    {
        if str_equal(items[i].key(), key) {
            assert(keys_of(items@)[i as int] == key@);
            return true;
        }
        i = i + 1;
    }
    false
}

/// Adds each of `more`, in order, keeping the sorted order; a record
/// whose key is already present is not added. The keys afterwards are the
/// earlier keys and the keys of `more`.
pub fn insert_all<T: Keyed>(items: &mut Vec<T>, more: Vec<T>)
    requires
        keyed_sorted(old(items)@),
    ensures
        keyed_sorted(final(items)@),
        forall|k: Seq<char>| #[trigger]
            keys_of(final(items)@).contains(k) <==> keys_of(old(items)@).contains(k) || keys_of(more@).contains(k),
{
    let ghost all = more@;
    let mut rest = more;
    let ghost mut done: int = 0;
    while rest.len() > 0
        invariant
            keyed_sorted(items@),
            0 <= done <= all.len(),
            rest@ == all.subrange(done, all.len() as int),
            forall|k: Seq<char>| #[trigger]
                keys_of(items@).contains(k) <==> keys_of(old(items)@).contains(k) || keys_of(all).take(done).contains(k),
        decreases rest@.len(),
    {
        let x = rest.remove(0);
        let ghost before = items@;
        assert(x == all[done]);
        insert_absent(items, x);
        proof {
            let ks = keys_of(all);
            assert(ks.take(done + 1) =~= ks.take(done).push(x.key_of()));
            assert forall|k: Seq<char>| #[trigger]
                keys_of(items@).contains(k) <==> keys_of(old(items)@).contains(k) || ks.take(done + 1).contains(k) by {
                if keys_of(items@).contains(k) {
                    let j = choose|j: int| 0 <= j < keys_of(items@).len() && keys_of(items@)[j] == k;
                    if items@[j] != x {
                        let w = choose|w: int| 0 <= w < before.len() && before[w] == items@[j];
                        assert(keys_of(before)[w] == k);
                    } else {
                        assert(ks.take(done + 1)[done] == k);
                    }
                }
                let kt = ks.take(done + 1);
                if kt.contains(k) {
                    let j = choose|j: int| 0 <= j < kt.len() && #[trigger] kt[j] == k;
                    if j < done {
                        assert(ks.take(done)[j] == k);
                        assert(keys_of(before).contains(k));
                    }
                }
                if keys_of(old(items)@).contains(k) {
                    assert(keys_of(before).contains(k));
                }
            }
            done = done + 1;
            assert(rest@ =~= all.subrange(done, all.len() as int));
        }
    }
    assert(keys_of(all).take(done) =~= keys_of(all));
}

/// Every record of `v` comes from `a` or `b`, and outranks (or ties)
/// each record of `a` and `b` with its key.
pub open spec fn best_of<T: Ranked>(v: Seq<T>, a: Seq<T>, b: Seq<T>) -> bool {
    &&& forall|j: int| 0 <= j < v.len() ==> a.contains(#[trigger] v[j]) || b.contains(v[j])
    &&& forall|j: int, i: int|
        0 <= j < v.len() && 0 <= i < a.len() && (#[trigger] v[j]).key_of() == (#[trigger] a[i]).key_of() ==> v[j].rank_of()
            >= a[i].rank_of()
    &&& forall|j: int, i: int|
        0 <= j < v.len() && 0 <= i < b.len() && (#[trigger] v[j]).key_of() == (#[trigger] b[i]).key_of() ==> v[j].rank_of()
            >= b[i].rank_of()
}

/// Where a record stands in a list that holds it.
pub open spec fn position_in<T>(w: Seq<T>, x: T) -> int {
    choose|a: int| 0 <= a < w.len() && w[a] == x
}

proof fn lemma_positions_ascend<T: Keyed>(v: Seq<T>, w: Seq<T>, i: int, j: int)
    requires
        keyed_sorted(v),
        keyed_sorted(w),
        forall|k: int| 0 <= k < v.len() ==> w.contains(#[trigger] v[k]),
        0 <= i < j < v.len(),
    ensures
        position_in(w, v[i]) < position_in(w, v[j]),
        0 <= position_in(w, v[i]) < w.len(),
        w[position_in(w, v[i])] == v[i],
{
    assert(w.contains(v[i]));
    assert(w.contains(v[j]));
    let a = position_in(w, v[i]);
    let b = position_in(w, v[j]);
    lemma_ascending_pairs(keys_of(v), i, j);
    assert(keys_of(v)[i] == keys_of(w)[a]);
    assert(keys_of(v)[j] == keys_of(w)[b]);
    if a == b {
        lemma_lex_asymmetric(keys_of(v)[i], keys_of(v)[j]);
    } else if a > b {
        lemma_ascending_pairs(keys_of(w), b, a);
        lemma_lex_asymmetric(keys_of(v)[i], keys_of(v)[j]);
    }
}

proof fn lemma_positions_identity<T: Keyed>(v: Seq<T>, w: Seq<T>, i: int)
    requires
        keyed_sorted(v),
        keyed_sorted(w),
        forall|k: int| 0 <= k < v.len() ==> w.contains(#[trigger] v[k]),
        forall|k: Seq<char>| #[trigger] keys_of(w).contains(k) ==> keys_of(v).contains(k),
        0 <= i < v.len(),
    ensures
        forall|k: int| 0 <= k <= i ==> position_in(w, #[trigger] v[k]) == k,
    decreases i,
{
    if i > 0 {
        lemma_positions_identity(v, w, i - 1);
        lemma_positions_ascend(v, w, i - 1, i);
    }
    assert(w.contains(v[i]));
    let p = position_in(w, v[i]);
    if p > i {
        assert(keys_of(w).contains(keys_of(w)[i]));
        let j = choose|j: int| 0 <= j < keys_of(v).len() && keys_of(v)[j] == keys_of(w)[i];
        assert(w.contains(v[j]));
        let q = position_in(w, v[j]);
        assert(keys_of(w)[q] == keys_of(w)[i]);
        if q != i {
            lemma_ascending_distinct(keys_of(w), q, i);
        }
        if j < i {
            assert(position_in(w, v[j]) == j);
        } else if j > i {
            lemma_positions_ascend(v, w, i, j);
        }
    }
}

/// Two lists sorted strictly by key, where the first holds only records of
/// the second and every key of the second, are the same list.
pub proof fn lemma_same_keyed<T: Keyed>(v: Seq<T>, w: Seq<T>)
    requires
        keyed_sorted(v),
        keyed_sorted(w),
        forall|k: int| 0 <= k < v.len() ==> w.contains(#[trigger] v[k]),
        forall|k: Seq<char>| #[trigger] keys_of(w).contains(k) ==> keys_of(v).contains(k),
    ensures
        v == w,
{
    if v.len() > 0 {
        lemma_positions_identity(v, w, v.len() - 1);
        assert(w.contains(v[v.len() - 1]));
    }
    if w.len() > v.len() {
        let t = v.len() as int;
        assert(keys_of(w).contains(keys_of(w)[t]));
        let j = choose|j: int| 0 <= j < keys_of(v).len() && keys_of(v)[j] == keys_of(w)[t];
        assert(w.contains(v[j]));
        let q = position_in(w, v[j]);
        assert(position_in(w, v[j]) == j);
        assert(keys_of(w)[q] == keys_of(w)[t]);
        lemma_ascending_distinct(keys_of(w), q, t);
    }
    assert forall|k: int| 0 <= k < v.len() implies v[k] == w[k] by {
        assert(w.contains(v[k]));
        assert(position_in(w, v[k]) == k);
    }
    assert(v =~= w);
}

/// A list with distinct keys is the best of itself.
pub proof fn lemma_best_of_self<T: Ranked>(v: Seq<T>)
    requires
        keyed_sorted(v),
    ensures
        best_of(v, v, Seq::empty()),
{
    assert forall|j: int, i: int|
        0 <= j < v.len() && 0 <= i < v.len() && (#[trigger] v[j]).key_of() == (#[trigger] v[i]).key_of() implies v[j].rank_of()
            >= v[i].rank_of() by {
        if i != j {
            lemma_ascending_distinct(keys_of(v), i, j);
        }
    }
    assert forall|j: int| 0 <= j < v.len() implies v.contains(#[trigger] v[j]) || Seq::<T>::empty().contains(v[j]) by {
        assert(v[j] == v[j]);
    }
}

/// Merges each of `more`, in order, keeping the sorted order: of two
/// records with one key the one of higher rank stays, the earlier on a
/// tie. The keys afterwards are the earlier keys and those of `more`;
/// each record kept comes from either and outranks or ties every record
/// of either with its key.
pub fn merge_all<T: Ranked>(items: &mut Vec<T>, more: Vec<T>)
    requires
        keyed_sorted(old(items)@),
    ensures
        keyed_sorted(final(items)@),
        forall|k: Seq<char>| #[trigger]
            keys_of(final(items)@).contains(k) <==> keys_of(old(items)@).contains(k) || keys_of(more@).contains(k),
        best_of(final(items)@, old(items)@, more@),
{
    let ghost all = more@;
    let ghost start = items@;
    proof {
        lemma_best_of_self(start);
        assert(all.take(0) =~= Seq::<T>::empty());
    }
    let mut rest = more;
    let ghost mut done: int = 0;
    while rest.len() > 0
        invariant
            keyed_sorted(items@),
            0 <= done <= all.len(),
            start == old(items)@,
            rest@ == all.subrange(done, all.len() as int),
            forall|k: Seq<char>| #[trigger]
                keys_of(items@).contains(k) <==> keys_of(start).contains(k) || keys_of(all).take(done).contains(k),
            best_of(items@, start, all.take(done)),
        decreases rest@.len(),
    {
        let x = rest.remove(0);
        let ghost before = items@;
        assert(x == all[done]);
        merge_ranked(items, x);
        proof {
            let ks = keys_of(all);
            assert(ks.take(done + 1) =~= ks.take(done).push(x.key_of()));
            assert(all.take(done + 1) =~= all.take(done).push(x));
            assert(keys_of(all.take(done)) =~= ks.take(done));
            assert forall|k: Seq<char>| #[trigger]
                keys_of(items@).contains(k) <==> keys_of(start).contains(k) || ks.take(done + 1).contains(k) by {
                if keys_of(items@).contains(k) {
                    let j = choose|j: int| 0 <= j < keys_of(items@).len() && keys_of(items@)[j] == k;
                    if items@[j] != x {
                        let w = choose|w: int| 0 <= w < before.len() && before[w] == items@[j];
                        assert(keys_of(before)[w] == k);
                        assert(keys_of(before).contains(k));
                        let kd = ks.take(done);
                        if kd.contains(k) {
                            let j2 = choose|j2: int| 0 <= j2 < kd.len() && #[trigger] kd[j2] == k;
                            assert(ks.take(done + 1)[j2] == k);
                        }
                    } else {
                        assert(ks.take(done + 1)[done] == k);
                    }
                }
                let kt = ks.take(done + 1);
                if kt.contains(k) {
                    let j = choose|j: int| 0 <= j < kt.len() && #[trigger] kt[j] == k;
                    if j < done {
                        assert(ks.take(done)[j] == k);
                        assert(keys_of(before).contains(k));
                    } else {
                        assert(k == x.key_of());
                    }
                }
                if keys_of(start).contains(k) {
                    assert(keys_of(before).contains(k));
                }
            }
            lemma_best_step(before, items@, start, all.take(done), x);
            done = done + 1;
            assert(rest@ =~= all.subrange(done, all.len() as int));
        }
    }
    assert(keys_of(all).take(done) =~= keys_of(all));
    assert(all.take(done) =~= all);
}

proof fn lemma_best_step<T: Ranked>(before: Seq<T>, after: Seq<T>, a: Seq<T>, b: Seq<T>, x: T)
    requires
        best_of(before, a, b),
        keyed_sorted(before),
        forall|k: Seq<char>| #[trigger] keys_of(before).contains(k) <==> keys_of(a).contains(k) || keys_of(b).contains(k),
        forall|i: int|
            0 <= i < before.len() && (#[trigger] before[i]).key_of() == x.key_of() && before[i].rank_of() >= x.rank_of()
                ==> after == before,
        forall|i: int|
            0 <= i < before.len() && (#[trigger] before[i]).key_of() == x.key_of() && before[i].rank_of() < x.rank_of()
                ==> after == before.update(i, x),
        !keys_of(before).contains(x.key_of()) ==> exists|p: int| 0 <= p <= before.len() && after == #[trigger] before.insert(p, x),
    ensures
        best_of(after, a, b.push(x)),
{
    let b2 = b.push(x);
    assert(b2[b.len() as int] == x);
    if keys_of(before).contains(x.key_of()) {
        let i = choose|i: int| 0 <= i < keys_of(before).len() && keys_of(before)[i] == x.key_of();
        assert(before[i].key_of() == x.key_of());
        let replaced = before[i].rank_of() < x.rank_of();
        assert(after.len() == before.len());
        assert forall|j: int| 0 <= j < after.len() && j != i implies after[j] == before[j] by {}
        assert(after[i] == if replaced { x } else { before[i] });
        assert forall|j: int| 0 <= j < after.len() implies a.contains(#[trigger] after[j]) || b2.contains(after[j]) by {
            if j == i && replaced {
            } else {
                assert(after[j] == before[j]);
                if b.contains(before[j]) {
                    let v = choose|v: int| 0 <= v < b.len() && b[v] == before[j];
                    assert(b2[v] == before[j]);
                }
            }
        }
        assert forall|j: int, m: int|
            0 <= j < after.len() && 0 <= m < a.len() && (#[trigger] after[j]).key_of() == (#[trigger] a[m]).key_of()
                implies after[j].rank_of() >= a[m].rank_of() by {
            if j == i && replaced {
                assert(before[i].rank_of() >= a[m].rank_of());
            } else {
                assert(after[j] == before[j]);
            }
        }
        assert forall|j: int, m: int|
            0 <= j < after.len() && 0 <= m < b2.len() && (#[trigger] after[j]).key_of() == (#[trigger] b2[m]).key_of()
                implies after[j].rank_of() >= b2[m].rank_of() by {
            if m < b.len() {
                assert(b2[m] == b[m]);
                if j == i && replaced {
                    assert(before[i].rank_of() >= b[m].rank_of());
                } else {
                    assert(after[j] == before[j]);
                }
            } else {
                if j != i {
                    assert(after[j] == before[j]);
                    lemma_ascending_distinct(keys_of(before), i, j);
                }
            }
        }
    } else {
        let p = choose|p: int| 0 <= p <= before.len() && after == #[trigger] before.insert(p, x);
        assert(after[p] == x);
        assert forall|j: int| 0 <= j < after.len() && j != p implies after[j] == before[if j < p { j } else { j - 1 }] by {}
        assert forall|j: int| 0 <= j < after.len() implies a.contains(#[trigger] after[j]) || b2.contains(after[j]) by {
            if j != p {
                let w = if j < p { j } else { j - 1 };
                if b.contains(before[w]) {
                    let v = choose|v: int| 0 <= v < b.len() && b[v] == before[w];
                    assert(b2[v] == before[w]);
                }
            }
        }
        assert forall|j: int, m: int|
            0 <= j < after.len() && 0 <= m < a.len() && (#[trigger] after[j]).key_of() == (#[trigger] a[m]).key_of()
                implies after[j].rank_of() >= a[m].rank_of() by {
            if j == p {
                assert(keys_of(a)[m] == x.key_of());
                assert(keys_of(before).contains(x.key_of()));
            } else {
                let w = if j < p { j } else { j - 1 };
                assert(after[j] == before[w]);
            }
        }
        assert forall|j: int, m: int|
            0 <= j < after.len() && 0 <= m < b2.len() && (#[trigger] after[j]).key_of() == (#[trigger] b2[m]).key_of()
                implies after[j].rank_of() >= b2[m].rank_of() by {
            if m < b.len() {
                assert(b2[m] == b[m]);
                if j == p {
                    assert(keys_of(b)[m] == x.key_of());
                    assert(keys_of(before).contains(x.key_of()));
                } else {
                    let w = if j < p { j } else { j - 1 };
                    assert(after[j] == before[w]);
                }
            } else if j != p {
                let w = if j < p { j } else { j - 1 };
                assert(after[j] == before[w]);
                assert(keys_of(before)[w] == x.key_of());
            }
        }
    }
}

/// Merging `more` into the best of `prev` gives the best of `prev`
/// followed by `more`.
pub proof fn lemma_best_chain<T: Ranked>(acc: Seq<T>, prev: Seq<T>, x: Seq<T>, more: Seq<T>)
    requires
        best_of(acc, Seq::empty(), prev),
        forall|k: Seq<char>| #[trigger] keys_of(acc).contains(k) <==> keys_of(prev).contains(k),
        best_of(x, acc, more),
    ensures
        best_of(x, Seq::empty(), prev + more),
{
    let all = prev + more;
    assert forall|j: int| 0 <= j < x.len() implies Seq::<T>::empty().contains(#[trigger] x[j]) || all.contains(x[j]) by {
        if acc.contains(x[j]) {
            let w = choose|w: int| 0 <= w < acc.len() && acc[w] == x[j];
            assert(prev.contains(acc[w]) || Seq::<T>::empty().contains(acc[w]));
            let v = choose|v: int| 0 <= v < prev.len() && prev[v] == acc[w];
            assert(all[v] == x[j]);
        } else {
            let v = choose|v: int| 0 <= v < more.len() && more[v] == x[j];
            assert(all[prev.len() + v] == x[j]);
        }
    }
    assert forall|j: int, i: int|
        0 <= j < x.len() && 0 <= i < all.len() && (#[trigger] x[j]).key_of() == (#[trigger] all[i]).key_of() implies x[j].rank_of()
            >= all[i].rank_of() by {
        if i < prev.len() {
            assert(all[i] == prev[i]);
            assert(keys_of(prev)[i] == prev[i].key_of());
            assert(keys_of(prev).contains(prev[i].key_of()));
            assert(keys_of(acc).contains(prev[i].key_of()));
            let w = choose|w: int| 0 <= w < keys_of(acc).len() && keys_of(acc)[w] == prev[i].key_of();
            assert(acc[w].rank_of() >= prev[i].rank_of());
            assert(x[j].rank_of() >= acc[w].rank_of());
        } else {
            assert(all[i] == more[i - prev.len()]);
        }
    }
}

} // verus!
