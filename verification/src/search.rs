//! Search results: the unified package record, merging the results of several managers, and
//! the cache of finished searches.
use vstd::prelude::*;
use crate::ranking::{bonus_of, category_of, classify_package, language_bonus, priority_of, type_priority};
use crate::sort::{key_value, stable_sort_desc, stably_sorted_desc, SortKey};
use crate::text::lower_text;

verus! {

/// One search hit, the same for every package manager.
#[derive(Debug, Clone)]
pub struct UnifiedPackage {
    /// The package name, used for display, comparison and sorting.
    pub name: String,
    /// The name exactly as the package manager printed it, for install, remove and update.
    pub real_name: String,
    /// The package manager that offers the package (apt, pacman, yay, ...).
    pub manager: String,
    /// The relevance score; higher is better.
    pub score: i64,
}

/// The contents of a search hit.
pub ghost struct PackageView {
    pub name: Seq<char>,
    pub real_name: Seq<char>,
    pub manager: Seq<char>,
    pub score: int,
}

impl View for UnifiedPackage {
    type V = PackageView;

    open spec fn view(&self) -> PackageView {
        PackageView {
            name: self.name@,
            real_name: self.real_name@,
            manager: self.manager@,
            score: self.score as int,
        }
    }
}

/// The contents of a list of search hits.
pub open spec fn package_views(v: Seq<UnifiedPackage>) -> Seq<PackageView> {
    v.map_values(|p: UnifiedPackage| p@)
}

impl UnifiedPackage {
    /// A copy of this hit.
    pub fn duplicate(&self) -> (r: UnifiedPackage)
        ensures
            r == *self,
    {
        UnifiedPackage {
            name: self.name.clone(),
            real_name: self.real_name.clone(),
            manager: self.manager.clone(),
            score: self.score,
        }
    }
}


// ---------------------------------------------------------------------------------------------
// Merging the hits of several managers.
// ---------------------------------------------------------------------------------------------

/// `r` keeps one hit per package name of `all`: for each name the hit with the highest score,
/// the first of them where several share it (a later hit replaces a kept one only with a
/// strictly higher score).
pub open spec fn best_per_name(r: Seq<UnifiedPackage>, all: Seq<UnifiedPackage>) -> bool {
    &&& names_distinct(r)
    &&& best_kept(r, all)
    &&& first_of_best(r, all)
}

/// No two hits share a package name.
pub open spec fn names_distinct(r: Seq<UnifiedPackage>) -> bool {
    forall|a: int, b: int| 0 <= a < b < r.len() ==> (#[trigger] r[a]).name@ != (#[trigger] r[b]).name@
}

/// Every hit of `all` has a hit of its name in `r` that scores at least as much.
pub open spec fn best_kept(r: Seq<UnifiedPackage>, all: Seq<UnifiedPackage>) -> bool {
    forall|k: int| 0 <= k < all.len() ==> #[trigger] has_better(r, all[k])
}

/// `r` holds a hit of the name of `p` that scores at least as much.
pub open spec fn has_better(r: Seq<UnifiedPackage>, p: UnifiedPackage) -> bool {
    exists|j: int| 0 <= j < r.len() && (#[trigger] r[j]).name@ == p.name@ && r[j].score >= p.score
}

/// Every hit of `r` is a hit of `all` that no earlier hit of its name scores as much as.
pub open spec fn first_of_best(r: Seq<UnifiedPackage>, all: Seq<UnifiedPackage>) -> bool {
    forall|j: int| 0 <= j < r.len() ==> #[trigger] is_first_best(all, r[j])
}

/// `p` is a hit of `all` that no earlier hit of its name scores as much as.
pub open spec fn is_first_best(all: Seq<UnifiedPackage>, p: UnifiedPackage) -> bool {
    exists|k: int| 0 <= k < all.len() && all[k] == p && #[trigger] earlier_lower(all, k, p)
}

/// Every hit of `all` before index `k` with the name of `p` scores less than `p`.
pub open spec fn earlier_lower(all: Seq<UnifiedPackage>, k: int, p: UnifiedPackage) -> bool {
    forall|m: int| 0 <= m < k && (#[trigger] all[m]).name@ == p.name@ ==> all[m].score < p.score
}

/// Keeps one hit per package name: the best-scoring one, the first among equals.
pub fn merge_hits(all: &Vec<UnifiedPackage>) -> (r: Vec<UnifiedPackage>)
    ensures
        best_per_name(r@, all@),
{
    let mut acc: Vec<UnifiedPackage> = Vec::new();
    let ghost mut idx: Seq<int> = Seq::empty();
    let mut i: usize = 0;
    while i < all.len()
        invariant
            i <= all.len(),
            idx.len() == acc.len(),
            forall|a: int, b: int| 0 <= a < b < acc.len() ==> (#[trigger] acc@[a]).name@ != (#[trigger] acc@[b]).name@,
            forall|j: int| 0 <= j < acc.len() ==> 0 <= #[trigger] idx[j] < i && all@[idx[j]] == acc@[j],
            forall|j: int, m: int| 0 <= j < acc.len() && 0 <= m < idx[j] && (#[trigger] all@[m]).name@ == (#[trigger] acc@[j]).name@
                ==> all@[m].score < acc@[j].score,
            forall|k: int| #![trigger all@[k]] 0 <= k < i ==> exists|j: int|
                0 <= j < acc.len() && (#[trigger] acc@[j]).name@ == all@[k].name@ && acc@[j].score >= all@[k].score,
        decreases all.len() - i,
    {
        let x = &all[i];
        let mut j: usize = 0;
        while j < acc.len() && acc[j].name != x.name
            invariant
                j <= acc.len(),
                i < all.len(),
                x == all@[i as int],
                forall|m: int| 0 <= m < j ==> (#[trigger] acc@[m]).name@ != x.name@,
            decreases acc.len() - j,
        {
            j = j + 1;
        }
        let ghost old_acc = acc@;
        if j < acc.len() {
            if x.score > acc[j].score {
                acc.set(j, x.duplicate());
                proof {
                    idx = idx.update(j as int, i as int);
                    assert forall|k: int| #![trigger all@[k]] 0 <= k < i + 1 implies exists|jj: int|
                        0 <= jj < acc.len() && (#[trigger] acc@[jj]).name@ == all@[k].name@ && acc@[jj].score >= all@[k].score by {
                        if k < i {
                            let jj = choose|jj: int| 0 <= jj < old_acc.len() && (#[trigger] old_acc[jj]).name@ == all@[k].name@ && old_acc[jj].score >= all@[k].score;
                            if jj == j {
                                assert(acc@[jj].name@ == all@[k].name@);
                            } else {
                                assert(acc@[jj] == old_acc[jj]);
                            }
                        } else {
                            assert(acc@[j as int] == all@[k]);
                        }
                    }
                    assert forall|jj: int, m: int| 0 <= jj < acc.len() && 0 <= m < idx[jj] && (#[trigger] all@[m]).name@ == (#[trigger] acc@[jj]).name@
                        implies all@[m].score < acc@[jj].score by {
                        if jj == j {
                            let j2 = choose|j2: int| 0 <= j2 < old_acc.len() && (#[trigger] old_acc[j2]).name@ == all@[m].name@ && old_acc[j2].score >= all@[m].score;
                            if j2 != j {
                                if j2 < j {
                                    assert(old_acc[j2].name@ != old_acc[j as int].name@);
                                } else {
                                    assert(old_acc[j as int].name@ != old_acc[j2].name@);
                                }
                            }
                        } else {
                            assert(acc@[jj] == old_acc[jj]);
                        }
                    }
                }
            } else {
                proof {
                    assert forall|k: int| #![trigger all@[k]] 0 <= k < i + 1 implies exists|jj: int|
                        0 <= jj < acc.len() && (#[trigger] acc@[jj]).name@ == all@[k].name@ && acc@[jj].score >= all@[k].score by {
                        if k == i {
                            assert(acc@[j as int].name@ == all@[k].name@);
                        }
                    }
                }
            }
        } else {
            acc.push(x.duplicate());
            proof {
                idx = idx.push(i as int);
                assert forall|jj: int, m: int| 0 <= jj < acc.len() && 0 <= m < idx[jj] && (#[trigger] all@[m]).name@ == (#[trigger] acc@[jj]).name@
                    implies all@[m].score < acc@[jj].score by {
                    if jj == old_acc.len() {
                        let j2 = choose|j2: int| 0 <= j2 < old_acc.len() && (#[trigger] old_acc[j2]).name@ == all@[m].name@ && old_acc[j2].score >= all@[m].score;
                        assert(old_acc[j2].name@ != x.name@);
                    } else {
                        assert(acc@[jj] == old_acc[jj]);
                    }
                }
                assert forall|k: int| #![trigger all@[k]] 0 <= k < i + 1 implies exists|jj: int|
                    0 <= jj < acc.len() && (#[trigger] acc@[jj]).name@ == all@[k].name@ && acc@[jj].score >= all@[k].score by {
                    if k == i {
                        assert(acc@[old_acc.len() as int] == all@[k]);
                    } else {
                        let jj = choose|jj: int| 0 <= jj < old_acc.len() && (#[trigger] old_acc[jj]).name@ == all@[k].name@ && old_acc[jj].score >= all@[k].score;
                        assert(acc@[jj] == old_acc[jj]);
                    }
                }
            }
        }
        i = i + 1;
    }
    proof {
        let r = acc@;
        let a = all@;
        assert(names_distinct(r));
        assert forall|k: int| 0 <= k < a.len() implies #[trigger] has_better(r, a[k]) by {
            assert(k < i);
            let w = all@[k];
        }
        assert forall|j: int| 0 <= j < r.len() implies #[trigger] is_first_best(a, r[j]) by {
            let k = idx[j];
            assert(a[k] == r[j]);
            assert(earlier_lower(a, k, r[j]));
        }
    }
    acc
}

/// The key that orders merged hits: category priority, then score plus language bonus.
pub open spec fn merge_key(p: UnifiedPackage, lang: Seq<char>) -> (int, int) {
    (priority_of(category_of(lower_text(p.name@))), p.score + bonus_of(p.name@, lang))
}

/// `merge_key` as a sort key: hits are ranked by it in descending order.
pub open spec fn merge_sort_key(p: UnifiedPackage, lang: Seq<char>) -> SortKey {
    (merge_key(p, lang).0, merge_key(p, lang).1, 0)
}

/// The score of `p` plus its language bonus for `lang` fits in an `i64`.
pub open spec fn rankable(p: UnifiedPackage, lang: Seq<char>) -> bool {
    p.score + bonus_of(p.name@, lang) <= i64::MAX
}

/// Orders merged hits best first: by category priority, then by score plus language bonus
/// for `sys_lang`, both descending; hits that tie keep their order.
pub fn rank_hits(hits: Vec<UnifiedPackage>, sys_lang: &str) -> (r: Vec<UnifiedPackage>)
    requires
        forall|i: int| 0 <= i < hits.len() ==> #[trigger] rankable(hits[i], sys_lang@),
    ensures
        stably_sorted_desc(r@, hits@, |p: UnifiedPackage| merge_sort_key(p, sys_lang@)),
        r@.to_multiset() == hits@.to_multiset(),
{
    let ghost kf = |p: UnifiedPackage| merge_sort_key(p, sys_lang@);
    let mut keys: Vec<(i128, i128, i128)> = Vec::new();
    for i in 0..hits.len()
        invariant
            keys.len() == i,
            kf == (|p: UnifiedPackage| merge_sort_key(p, sys_lang@)),
            forall|j: int| 0 <= j < hits.len() ==> #[trigger] rankable(hits[j], sys_lang@),
            forall|j: int| 0 <= j < i ==> key_value(#[trigger] keys[j]) == kf(hits[j]),
    {
        let p = &hits[i];
        assert(rankable(hits@[i as int], sys_lang@));
        let t = classify_package(p.name.as_str());
        let tp = type_priority(&t);
        let bonus = language_bonus(p.name.as_str(), sys_lang);
        keys.push((tp as i128, (p.score + bonus) as i128, 0));
    }
    let r = stable_sort_desc(hits, keys, Ghost(kf));
    proof {
        crate::sort::law_stable_sort_reorders(r@, hits@, kf);
    }
    r
}

/// The package names of a list of hits.
pub open spec fn hit_names(s: Seq<UnifiedPackage>) -> Seq<Seq<char>> {
    s.map_values(|p: UnifiedPackage| p.name@)
}

/// Merging keeps every package name of the hits, each exactly once.
pub proof fn law_merge_keeps_each_name_once(r: Seq<UnifiedPackage>, all: Seq<UnifiedPackage>)
    requires
        best_per_name(r, all),
    ensures
        hit_names(r).no_duplicates(),
        hit_names(r).to_set() == hit_names(all).to_set(),
{
    assert forall|a: int, b: int| 0 <= a < hit_names(r).len() && 0 <= b < hit_names(r).len() && a != b implies
        hit_names(r)[a] != hit_names(r)[b] by {
        if a < b {
            assert(r[a].name@ != r[b].name@);
        } else {
            assert(r[b].name@ != r[a].name@);
        }
    }
    assert forall|n: Seq<char>| hit_names(r).to_set().contains(n) <==> hit_names(all).to_set().contains(n) by {
        if hit_names(r).to_set().contains(n) {
            let j = choose|j: int| 0 <= j < hit_names(r).len() && hit_names(r)[j] == n;
            assert(is_first_best(all, r[j]));
            let k = choose|k: int| 0 <= k < all.len() && all[k] == r[j] && #[trigger] earlier_lower(all, k, r[j]);
            assert(hit_names(all)[k] == n);
        }
        if hit_names(all).to_set().contains(n) {
            let k = choose|k: int| 0 <= k < hit_names(all).len() && hit_names(all)[k] == n;
            assert(has_better(r, all[k]));
            let j = choose|j: int| 0 <= j < r.len() && (#[trigger] r[j]).name@ == all[k].name@ && r[j].score >= all[k].score;
            assert(hit_names(r)[j] == n);
        }
    }
    assert(hit_names(r).to_set() =~= hit_names(all).to_set());
}

// ---------------------------------------------------------------------------------------------
// The cache of finished searches.
// ---------------------------------------------------------------------------------------------

/// Finished searches by query: the results of each search, under the key it was stored with.
pub struct SearchCache {
    entries: Vec<(String, Vec<UnifiedPackage>)>,
}

/// The map that a list of distinct entries stands for.
pub open spec fn entries_map(s: Seq<(String, Vec<UnifiedPackage>)>) -> Map<Seq<char>, Seq<UnifiedPackage>> {
    Map::new(
        |k: Seq<char>| exists|i: int| 0 <= i < s.len() && (#[trigger] s[i]).0@ == k,
        |k: Seq<char>| s[choose|i: int| 0 <= i < s.len() && (#[trigger] s[i]).0@ == k].1@,
    )
}

pub open spec fn distinct_keys(s: Seq<(String, Vec<UnifiedPackage>)>) -> bool {
    forall|a: int, b: int| 0 <= a < s.len() && 0 <= b < s.len() && a != b ==> (#[trigger] s[a]).0@ != (#[trigger] s[b]).0@
}

/// What a lookup of `key` in a cache holding `m` gives.
pub open spec fn cached(m: Map<Seq<char>, Seq<UnifiedPackage>>, key: Seq<char>) -> Option<Seq<UnifiedPackage>> {
    if m.contains_key(key) {
        Some(m[key])
    } else {
        None
    }
}

impl View for SearchCache {
    type V = Map<Seq<char>, Seq<UnifiedPackage>>;

    closed spec fn view(&self) -> Map<Seq<char>, Seq<UnifiedPackage>> {
        entries_map(self.entries@)
    }
}

proof fn lemma_entry_value(s: Seq<(String, Vec<UnifiedPackage>)>, i: int)
    requires
        distinct_keys(s),
        0 <= i < s.len(),
    ensures
        entries_map(s).contains_key(s[i].0@),
        entries_map(s)[s[i].0@] == s[i].1@,
{
    let k = s[i].0@;
    assert(entries_map(s).dom().contains(k));
    let c = choose|c: int| 0 <= c < s.len() && (#[trigger] s[c]).0@ == k;
    assert(c == i);
}

impl SearchCache {
    #[verifier::type_invariant]
    spec fn keys_distinct(&self) -> bool {
        distinct_keys(self.entries@)
    }

    /// An empty cache.
    pub fn new() -> (c: SearchCache)
        ensures
            c@ == Map::<Seq<char>, Seq<UnifiedPackage>>::empty(),
    {
        let c = SearchCache { entries: Vec::new() };
        assert(c@ =~= Map::<Seq<char>, Seq<UnifiedPackage>>::empty());
        c
    }

    fn find(&self, key: &String) -> (r: Option<usize>)
        ensures
            r matches Some(i) ==> i < self.entries.len() && self.entries@[i as int].0@ == key@,
            r is None ==> forall|i: int| 0 <= i < self.entries.len() ==> (#[trigger] self.entries@[i]).0@ != key@,
    {
        let mut i: usize = 0;
        while i < self.entries.len()
            invariant
                i <= self.entries.len(),
                forall|j: int| 0 <= j < i ==> (#[trigger] self.entries@[j]).0@ != key@,
            decreases self.entries.len() - i,
        {
            if self.entries[i].0 == *key {
                return Some(i);
            }
            i = i + 1;
        }
        None
    }

    /// The results stored for `query`, if any: a copy of them.
    pub fn lookup(&self, query: &str) -> (r: Option<Vec<UnifiedPackage>>)
        ensures
            match r {
                Some(v) => cached(self@, query@) == Some(v@),
                None => cached(self@, query@) is None,
            },
    {
        proof {
            use_type_invariant(self);
        }
        let key = String::from_str(query);
        match self.find(&key) {
            Some(i) => {
                let stored = &self.entries[i].1;
                let mut copy: Vec<UnifiedPackage> = Vec::new();
                for j in 0..stored.len()
                    invariant
                        copy@ == stored@.take(j as int),
                {
                    copy.push(stored[j].duplicate());
                    assert(stored@.take(j + 1) =~= stored@.take(j as int).push(stored@[j as int]));
                }
                proof {
                    assert(stored@.take(stored.len() as int) =~= stored@);
                    lemma_entry_value(self.entries@, i as int);
                }
                Some(copy)
            },
            None => {
                proof {
                    assert(!self@.contains_key(query@));
                }
                None
            },
        }
    }

    /// Stores the results of a search under `key`, replacing what was stored under it.
    pub fn store(&mut self, key: &str, results: Vec<UnifiedPackage>)
        ensures
            final(self)@ == old(self)@.insert(key@, results@),
    {
        proof {
            use_type_invariant(&*self);
        }
        let k = String::from_str(key);
        let ghost old_entries = self.entries@;
        let ghost rv = results@;
        let found = self.find(&k);
        let mut entries: Vec<(String, Vec<UnifiedPackage>)> = Vec::new();
        std::mem::swap(&mut entries, &mut self.entries);
        match found {
            Some(i) => {
                let ghost s2 = old_entries.update(i as int, (k, results));
                assert(distinct_keys(s2));
                entries.set(i, (k, results));
                self.entries = entries;
                proof {
                    assert forall|kk: Seq<char>| #[trigger] entries_map(s2).contains_key(kk) <==> has_key(old_entries, kk) || kk == key@ by {
                        if kk == key@ {
                            lemma_entry_value(s2, i as int);
                        }
                        if has_key(old_entries, kk) {
                            let j = choose|j: int| 0 <= j < old_entries.len() && (#[trigger] old_entries[j]).0@ == kk;
                            assert(s2[j].0@ == kk);
                        }
                        if entries_map(s2).contains_key(kk) {
                            let j = choose|j: int| 0 <= j < s2.len() && (#[trigger] s2[j]).0@ == kk;
                            if j != i {
                                assert(old_entries[j].0@ == kk);
                            }
                        }
                    }
                    assert forall|kk: Seq<char>| entries_map(s2).contains_key(kk) implies entries_map(s2)[kk] == entries_map(old_entries).insert(key@, rv)[kk] by {
                        let j = choose|j: int| 0 <= j < s2.len() && (#[trigger] s2[j]).0@ == kk;
                        lemma_entry_value(s2, j);
                        if j != i {
                            lemma_entry_value(old_entries, j);
                        }
                    }
                    assert(entries_map(s2) =~= entries_map(old_entries).insert(key@, rv));
                }
            },
            None => {
                let ghost s2 = old_entries.push((k, results));
                assert(distinct_keys(s2));
                entries.push((k, results));
                self.entries = entries;
                proof {
                    assert forall|kk: Seq<char>| #[trigger] entries_map(s2).contains_key(kk) <==> has_key(old_entries, kk) || kk == key@ by {
                        if kk == key@ {
                            lemma_entry_value(s2, old_entries.len() as int);
                        }
                        if has_key(old_entries, kk) {
                            let j = choose|j: int| 0 <= j < old_entries.len() && (#[trigger] old_entries[j]).0@ == kk;
                            assert(s2[j].0@ == kk);
                        }
                        if entries_map(s2).contains_key(kk) {
                            let j = choose|j: int| 0 <= j < s2.len() && (#[trigger] s2[j]).0@ == kk;
                            if j != old_entries.len() {
                                assert(old_entries[j].0@ == kk);
                            }
                        }
                    }
                    assert forall|kk: Seq<char>| entries_map(s2).contains_key(kk) implies entries_map(s2)[kk] == entries_map(old_entries).insert(key@, rv)[kk] by {
                        let j = choose|j: int| 0 <= j < s2.len() && (#[trigger] s2[j]).0@ == kk;
                        lemma_entry_value(s2, j);
                        if j != old_entries.len() {
                            lemma_entry_value(old_entries, j);
                        }
                    }
                    assert(entries_map(s2) =~= entries_map(old_entries).insert(key@, rv));
                }
            },
        }
    }
}

/// What a cache gives back of a store: the stored results under their key, and under every
/// other key what it held before.
pub proof fn law_lookup_after_store(
    m: Map<Seq<char>, Seq<UnifiedPackage>>,
    key: Seq<char>,
    results: Seq<UnifiedPackage>,
    other: Seq<char>,
)
    ensures
        cached(m.insert(key, results), key) == Some(results),
        other != key ==> cached(m.insert(key, results), other) == cached(m, other),
{
}

spec fn has_key(s: Seq<(String, Vec<UnifiedPackage>)>, k: Seq<char>) -> bool {
    exists|i: int| 0 <= i < s.len() && (#[trigger] s[i]).0@ == k
}

/// Finishes a search for `pkg` from the hits of every manager: keeps the best hit per name,
/// orders the rest best first by category priority, then score plus language bonus, stores
/// the result in the cache under the query as given, and returns it.
pub fn finish_search(
    cache: &mut SearchCache,
    pkg: &str,
    all: Vec<UnifiedPackage>,
    sys_lang: &str,
) -> (r: Vec<UnifiedPackage>)
    requires
        forall|i: int| 0 <= i < all.len() ==> #[trigger] rankable(all[i], sys_lang@),
    ensures
        exists|merged: Seq<UnifiedPackage>|
            #[trigger] best_per_name(merged, all@) && stably_sorted_desc(
                r@,
                merged,
                |p: UnifiedPackage| merge_sort_key(p, sys_lang@),
            ),
        final(cache)@ == old(cache)@.insert(pkg@, r@),
{
    let merged = merge_hits(&all);
    let ghost mv = merged@;
    proof {
        assert forall|j: int| 0 <= j < merged.len() implies #[trigger] rankable(merged[j], sys_lang@) by {
            assert(is_first_best(all@, merged@[j]));
            let k = choose|k: int| 0 <= k < all@.len() && all@[k] == merged@[j] && #[trigger] earlier_lower(all@, k, merged@[j]);
            assert(rankable(all@[k], sys_lang@));
        }
    }
    let ranked = rank_hits(merged, sys_lang);
    let mut copy: Vec<UnifiedPackage> = Vec::new();
    for j in 0..ranked.len()
        invariant
            copy@ == ranked@.take(j as int),
    {
        copy.push(ranked[j].duplicate());
        assert(ranked@.take(j + 1) =~= ranked@.take(j as int).push(ranked@[j as int]));
    }
    assert(ranked@.take(ranked.len() as int) =~= ranked@);
    cache.store(pkg, copy);
    ranked
}

} // verus!
