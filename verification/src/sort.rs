//! Stable ordering of result lists.
use vstd::prelude::*;
use crate::manager::{distro_priority, manager_priority};
use crate::ranking::{bonus_of, category_of, classify_package, language_bonus, priority_of, type_priority};
use crate::search::{rankable, UnifiedPackage};
use crate::text::lower_text;

verus! {

/// A sort key: three integers compared lexicographically.
pub type SortKey = (int, int, int);

/// Lexicographic "strictly less" on sort keys, as tuples of integers compare in Rust.
pub open spec fn key_lt(a: SortKey, b: SortKey) -> bool {
    a.0 < b.0 || (a.0 == b.0 && (a.1 < b.1 || (a.1 == b.1 && a.2 < b.2)))
}

/// The mathematical value of an executable key.
pub open spec fn key_value(k: (i128, i128, i128)) -> SortKey {
    (k.0 as int, k.1 as int, k.2 as int)
}

/// No element has a larger key than an element before it.
pub open spec fn sorted_desc<T>(s: Seq<T>, kf: spec_fn(T) -> SortKey) -> bool {
    forall|i: int, j: int| 0 <= i < j < s.len() ==> !key_lt(#[trigger] kf(s[i]), #[trigger] kf(s[j]))
}

/// The elements of `s` whose key is `k`, in the order of `s`.
pub open spec fn key_class<T>(s: Seq<T>, kf: spec_fn(T) -> SortKey, k: SortKey) -> Seq<T> {
    s.filter(|x: T| kf(x) == k)
}

/// `r` is `s` sorted by descending key, and elements with equal keys keep their order in `s`
/// (what a stable sort yields; it also makes `r` a reordering of `s`).
pub open spec fn stably_sorted_desc<T>(r: Seq<T>, s: Seq<T>, kf: spec_fn(T) -> SortKey) -> bool {
    &&& sorted_desc(r, kf)
    &&& forall|k: SortKey| #[trigger] key_class(r, kf, k) == key_class(s, kf, k)
}

proof fn lemma_filter_none<T>(s: Seq<T>, pred: spec_fn(T) -> bool)
    requires
        forall|i: int| 0 <= i < s.len() ==> !pred(#[trigger] s[i]),
    ensures
        s.filter(pred) == Seq::<T>::empty(),
    decreases s.len(),
{
    reveal(Seq::filter);
    if s.len() > 0 {
        lemma_filter_none(s.drop_last(), pred);
    }
}

proof fn lemma_filter_single<T>(x: T, pred: spec_fn(T) -> bool)
    ensures
        seq![x].filter(pred) == (if pred(x) { seq![x] } else { Seq::<T>::empty() }),
{
    reveal(Seq::filter);
    assert(seq![x].drop_last() =~= Seq::<T>::empty());
    assert(Seq::<T>::empty().filter(pred) == Seq::<T>::empty());
    assert(seq![x].last() == x);
    if pred(x) {
        assert(Seq::<T>::empty().push(x) =~= seq![x]);
    }
}

/// Inserting `x` at a position after which every key is smaller than its own appends `x` to
/// its class and leaves every other class as it was.
proof fn lemma_insert_classes<T>(r: Seq<T>, p: int, x: T, kf: spec_fn(T) -> SortKey)
    requires
        0 <= p <= r.len(),
        forall|j: int| p <= j < r.len() ==> key_lt(#[trigger] kf(r[j]), kf(x)),
    ensures
        forall|k: SortKey|
            #[trigger] key_class(r.insert(p, x), kf, k) == key_class(r, kf, k) + key_class(
                seq![x],
                kf,
                k,
            ),
{
    assert forall|k: SortKey|
        #[trigger] key_class(r.insert(p, x), kf, k) == key_class(r, kf, k) + key_class(
            seq![x],
            kf,
            k,
        ) by {
        let pred = |y: T| kf(y) == k;
        let a = r.take(p);
        let b = r.skip(p);
        assert(r =~= a + b);
        assert(r.insert(p, x) =~= a + seq![x] + b);
        Seq::filter_distributes_over_add(a + seq![x], b, pred);
        Seq::filter_distributes_over_add(a, seq![x], pred);
        Seq::filter_distributes_over_add(a, b, pred);
        lemma_filter_single(x, pred);
        if kf(x) == k {
            lemma_filter_none(b, pred);
            assert(a.filter(pred) + b.filter(pred) =~= a.filter(pred));
        } else {
            assert(a.filter(pred) + seq![x].filter(pred) =~= a.filter(pred));
        }
    }
}

proof fn lemma_count_in_class<T>(s: Seq<T>, kf: spec_fn(T) -> SortKey, x: T)
    ensures
        s.to_multiset().count(x) == key_class(s, kf, kf(x)).to_multiset().count(x),
    decreases s.len(),
{
    broadcast use vstd::seq_lib::group_to_multiset_ensures;

    reveal(Seq::filter);
    let pred = |y: T| kf(y) == kf(x);
    if s.len() == 0 {
        assert(s.filter(pred) =~= s);
    } else {
        let d = s.drop_last();
        lemma_count_in_class(d, kf, x);
        assert(s =~= d.push(s.last()));
        if kf(s.last()) == kf(x) {
            assert(s.filter(pred) == d.filter(pred).push(s.last()));
        } else {
            assert(s.filter(pred) == d.filter(pred));
        }
    }
}

/// A stable sort only reorders: every element occurs as often in the result as in the input.
pub proof fn law_stable_sort_reorders<T>(r: Seq<T>, s: Seq<T>, kf: spec_fn(T) -> SortKey)
    requires
        stably_sorted_desc(r, s, kf),
    ensures
        r.to_multiset() == s.to_multiset(),
{
    assert forall|x: T| r.to_multiset().count(x) == s.to_multiset().count(x) by {
        lemma_count_in_class(r, kf, x);
        lemma_count_in_class(s, kf, x);
        assert(key_class(r, kf, kf(x)) == key_class(s, kf, kf(x)));
    }
    assert(r.to_multiset() =~= s.to_multiset());
}

proof fn lemma_sorted_same_classes_equal<T>(a: Seq<T>, b: Seq<T>, kf: spec_fn(T) -> SortKey)
    requires
        sorted_desc(a, kf),
        sorted_desc(b, kf),
        forall|k: SortKey| #[trigger] key_class(a, kf, k) == key_class(b, kf, k),
    ensures
        a == b,
    decreases a.len(),
{
    broadcast use vstd::seq_lib::group_to_multiset_ensures;

    assert forall|x: T| a.to_multiset().count(x) == b.to_multiset().count(x) by {
        lemma_count_in_class(a, kf, x);
        lemma_count_in_class(b, kf, x);
        assert(key_class(a, kf, kf(x)) == key_class(b, kf, kf(x)));
    }
    assert(a.to_multiset() =~= b.to_multiset());
    assert(a.to_multiset().len() == b.to_multiset().len());
    assert(a.len() == b.len());
    if a.len() == 0 {
        assert(a =~= b);
    } else {
        let x = a[0];
        let y = b[0];
        let a1 = a.drop_first();
        let b1 = b.drop_first();
        assert(a =~= seq![x] + a1);
        assert(b =~= seq![y] + b1);
        // The first keys agree.
        let px = |z: T| kf(z) == kf(x);
        let py = |z: T| kf(z) == kf(y);
        a1.lemma_filter_prepend(x, px);
        b1.lemma_filter_prepend(y, py);
        a1.lemma_filter_prepend(x, py);
        b1.lemma_filter_prepend(y, px);
        assert(key_class(a, kf, kf(x)).contains(x)) by {
            assert(key_class(a, kf, kf(x))[0] == x);
        }
        assert(key_class(b, kf, kf(y)).contains(y)) by {
            assert(key_class(b, kf, kf(y))[0] == y);
        }
        assert(key_class(a, kf, kf(x)) == key_class(b, kf, kf(x)));
        assert(key_class(a, kf, kf(y)) == key_class(b, kf, kf(y)));
        assert(b.filter(px).contains(x));
        assert(a.filter(py).contains(y));
        b.lemma_filter_contains_rev(px, x);
        a.lemma_filter_contains_rev(py, y);
        let i = choose|i: int| 0 <= i < b.len() && b[i] == x;
        let j = choose|j: int| 0 <= j < a.len() && a[j] == y;
        if i > 0 {
            assert(!key_lt(kf(b[0]), kf(b[i])));
        }
        if j > 0 {
            assert(!key_lt(kf(a[0]), kf(a[j])));
        }
        assert(kf(x) == kf(y));
        assert(x == y) by {
            assert(key_class(a, kf, kf(x)) == seq![x] + a1.filter(px));
            assert(key_class(b, kf, kf(x)) == seq![y] + b1.filter(px));
            assert(key_class(a, kf, kf(x))[0] == x);
            assert(key_class(b, kf, kf(x))[0] == y);
        }
        assert forall|k: SortKey| #[trigger] key_class(a1, kf, k) == key_class(b1, kf, k) by {
            let pk = |z: T| kf(z) == k;
            a1.lemma_filter_prepend(x, pk);
            b1.lemma_filter_prepend(y, pk);
            assert(key_class(a, kf, k) == key_class(b, kf, k));
            if kf(x) == k {
                assert(key_class(a, kf, k) == seq![x] + key_class(a1, kf, k));
                assert(key_class(b, kf, k) == seq![x] + key_class(b1, kf, k));
                assert(key_class(a1, kf, k) =~= key_class(a, kf, k).drop_first());
                assert(key_class(b1, kf, k) =~= key_class(b, kf, k).drop_first());
            } else {
                assert(key_class(a, kf, k) =~= key_class(a1, kf, k));
                assert(key_class(b, kf, k) =~= key_class(b1, kf, k));
            }
        }
        assert(sorted_desc(a1, kf)) by {
            assert forall|p: int, q: int| 0 <= p < q < a1.len() implies !key_lt(#[trigger] kf(a1[p]), #[trigger] kf(a1[q])) by {
                assert(a1[p] == a[p + 1]);
                assert(a1[q] == a[q + 1]);
            }
        }
        assert(sorted_desc(b1, kf)) by {
            assert forall|p: int, q: int| 0 <= p < q < b1.len() implies !key_lt(#[trigger] kf(b1[p]), #[trigger] kf(b1[q])) by {
                assert(b1[p] == b[p + 1]);
                assert(b1[q] == b[q + 1]);
            }
        }
        lemma_sorted_same_classes_equal(a1, b1, kf);
    }
}

/// A stable sort has exactly one outcome: two stably sorted versions of a sequence are the
/// same sequence.
pub proof fn law_stable_sort_unique<T>(r1: Seq<T>, r2: Seq<T>, s: Seq<T>, kf: spec_fn(T) -> SortKey)
    requires
        stably_sorted_desc(r1, s, kf),
        stably_sorted_desc(r2, s, kf),
    ensures
        r1 == r2,
{
    assert forall|k: SortKey| #[trigger] key_class(r1, kf, k) == key_class(r2, kf, k) by {
        assert(key_class(r1, kf, k) == key_class(s, kf, k));
        assert(key_class(r2, kf, k) == key_class(s, kf, k));
    }
    lemma_sorted_same_classes_equal(r1, r2, kf);
}

fn key_less(a: (i128, i128, i128), b: (i128, i128, i128)) -> (r: bool)
    ensures
        r == key_lt(key_value(a), key_value(b)),
{
    a.0 < b.0 || (a.0 == b.0 && (a.1 < b.1 || (a.1 == b.1 && a.2 < b.2)))
}

/// Sorts `items` by descending key, keeping items with equal keys in their input order.
/// `keys[i]` is the key of `items[i]`.
pub(crate) fn stable_sort_desc<T>(
    items: Vec<T>,
    keys: Vec<(i128, i128, i128)>,
    Ghost(kf): Ghost<spec_fn(T) -> SortKey>,
) -> (r: Vec<T>)
    requires
        items.len() == keys.len(),
        forall|i: int| 0 <= i < keys.len() ==> key_value(#[trigger] keys[i]) == kf(items[i]),
    ensures
        stably_sorted_desc(r@, items@, kf),
        sorted_desc(items@, kf) ==> r@ == items@,
{
    let ghost orig = items@;
    let mut items = items;
    let mut keys = keys;
    let mut r: Vec<T> = Vec::new();
    let mut rk: Vec<(i128, i128, i128)> = Vec::new();
    let ghost mut i: int = 0;
    proof {
        assert forall|k: SortKey| #[trigger] key_class(r@, kf, k) == key_class(orig.take(0), kf, k) by {
            reveal(Seq::filter);
            assert(orig.take(0) =~= Seq::<T>::empty());
        }
    }
    while items.len() > 0
        invariant
            0 <= i <= orig.len(),
            items@ == orig.skip(i),
            items.len() == keys.len(),
            forall|j: int| 0 <= j < keys.len() ==> key_value(#[trigger] keys[j]) == kf(items[j]),
            r.len() == rk.len(),
            forall|j: int| 0 <= j < rk.len() ==> key_value(#[trigger] rk[j]) == kf(r[j]),
            sorted_desc(r@, kf),
            forall|k: SortKey| #[trigger] key_class(r@, kf, k) == key_class(orig.take(i), kf, k),
            sorted_desc(orig, kf) ==> r@ == orig.take(i),
        decreases items.len(),
    {
        let x = items.remove(0);
        let kx = keys.remove(0);
        assert(x == orig[i]);
        let mut p: usize = 0;
        while p < r.len() && !key_less(rk[p], kx)
            invariant
                p <= r.len(),
                r.len() == rk.len(),
                forall|j: int| 0 <= j < p ==> !key_lt(#[trigger] key_value(rk[j]), key_value(kx)),
            decreases r.len() - p,
        {
            p = p + 1;
        }
        let ghost old_r = r@;
        proof {
            assert forall|j: int| p <= j < old_r.len() implies key_lt(#[trigger] kf(old_r[j]), kf(x)) by {
                assert(key_value(rk[p as int]) == kf(old_r[p as int]));
                assert(key_value(rk[j]) == kf(old_r[j]));
                if j > p {
                    assert(!key_lt(kf(old_r[p as int]), kf(old_r[j])));
                }
            }
            lemma_insert_classes(old_r, p as int, x, kf);
            assert(orig.take(i + 1) =~= orig.take(i) + seq![x]);
            assert forall|k: SortKey| #[trigger] key_class(orig.take(i + 1), kf, k) == key_class(
                orig.take(i),
                kf,
                k,
            ) + key_class(seq![x], kf, k) by {
                Seq::filter_distributes_over_add(orig.take(i), seq![x], |y: T| kf(y) == k);
            }
            if sorted_desc(orig, kf) {
                if p < old_r.len() {
                    assert(kf(old_r[p as int]) == kf(orig[p as int]));
                    assert(!key_lt(kf(orig[p as int]), kf(orig[i])));
                }
            }
        }
        r.insert(p, x);
        rk.insert(p, kx);
        proof {
            assert forall|a: int, b: int| 0 <= a < b < r.len() implies !key_lt(
                #[trigger] kf(r@[a]),
                #[trigger] kf(r@[b]),
            ) by {
                if a < p && b > p {
                    assert(r@[a] == old_r[a]);
                    assert(r@[b] == old_r[b - 1]);
                } else if a < p && b == p {
                    assert(r@[a] == old_r[a]);
                    assert(key_value(rk[a]) == kf(old_r[a]));
                } else if a == p {
                    assert(r@[b] == old_r[b - 1]);
                } else if a > p {
                    assert(r@[a] == old_r[a - 1]);
                    assert(r@[b] == old_r[b - 1]);
                }
            }
            assert forall|j: int| 0 <= j < rk.len() implies key_value(#[trigger] rk[j]) == kf(r[j]) by {
                if j < p {
                } else if j > p {
                    assert(rk@[j] == rk@.remove(p as int)[j - 1]);
                }
            }
            if sorted_desc(orig, kf) {
                assert(p == old_r.len());
                assert(r@ =~= orig.take(i + 1));
            }
            i = i + 1;
        }
    }
    proof {
        assert(orig.take(i) =~= orig);
    }
    r
}


/// The ranking key of a hit: score plus language bonus, then the manager's priority on the
/// distribution, then the priority of the package's category.
pub open spec fn ranking_key(p: UnifiedPackage, lang: Seq<char>, os: Seq<char>) -> SortKey {
    (
        p.score + bonus_of(p.name@, lang),
        distro_priority(os, p.manager@),
        priority_of(category_of(lower_text(p.name@))),
    )
}

/// Orders search hits for the user, best first: by score plus language bonus for `sys_lang`,
/// then by the manager's priority on the distribution `os` (as `detect_distro` gives it),
/// then by category priority, all descending; hits that tie keep their order.
pub fn sorter_priority(result: Vec<UnifiedPackage>, sys_lang: &str, os: &str) -> (r: Vec<UnifiedPackage>)
    requires
        forall|i: int| 0 <= i < result.len() ==> #[trigger] rankable(result[i], sys_lang@),
    ensures
        stably_sorted_desc(r@, result@, |p: UnifiedPackage| ranking_key(p, sys_lang@, os@)),
        r@.to_multiset() == result@.to_multiset(),
        sorted_desc(result@, |p: UnifiedPackage| ranking_key(p, sys_lang@, os@)) ==> r@ == result@,
{
    let ghost kf = |p: UnifiedPackage| ranking_key(p, sys_lang@, os@);
    let mut keys: Vec<(i128, i128, i128)> = Vec::new();
    for i in 0..result.len()
        invariant
            keys.len() == i,
            kf == (|p: UnifiedPackage| ranking_key(p, sys_lang@, os@)),
            forall|j: int| 0 <= j < result.len() ==> #[trigger] rankable(result[j], sys_lang@),
            forall|j: int| 0 <= j < i ==> key_value(#[trigger] keys[j]) == kf(result[j]),
    {
        let p = &result[i];
        assert(rankable(result@[i as int], sys_lang@));
        let bonus = language_bonus(p.name.as_str(), sys_lang);
        let mgr = manager_priority(os, p.manager.as_str());
        let t = classify_package(p.name.as_str());
        let tp = type_priority(&t);
        keys.push(((p.score + bonus) as i128, mgr as i128, tp as i128));
    }
    let r = stable_sort_desc(result, keys, Ghost(kf));
    proof {
        law_stable_sort_reorders(r@, result@, kf);
    }
    r
}

} // verus!
