use pkg::search::{finish_search, merge_hits, rank_hits, SearchCache, UnifiedPackage};
use pkg::sort::sorter_priority;
use pkg::ranking::{classify_package, language_bonus, type_priority};
use pkg::manager::manager_priority;

fn hit(name: &str, manager: &str, score: i64) -> UnifiedPackage {
    UnifiedPackage { name: name.to_string(), real_name: name.to_string(), manager: manager.to_string(), score }
}

fn summary(v: &[UnifiedPackage]) -> Vec<(String, String, i64)> {
    v.iter().map(|p| (p.name.clone(), p.manager.clone(), p.score)).collect()
}

#[test]
fn merge_keeps_best_score_per_name() {
    let all = vec![hit("vim", "apt", 60), hit("vim", "flatpak", 80), hit("gimp", "apt", 70), hit("vim", "dnf", 80)];
    let merged = merge_hits(&all);
    assert_eq!(
        summary(&merged),
        vec![("vim".to_string(), "flatpak".to_string(), 80), ("gimp".to_string(), "apt".to_string(), 70)]
    );
}

#[test]
fn merge_keeps_each_name_once_law() {
    let all = vec![hit("a", "apt", 1), hit("b", "apt", 1), hit("a", "dnf", 1), hit("c", "yay", 5), hit("b", "yay", 0)];
    let merged = merge_hits(&all);
    let mut names: Vec<String> = merged.iter().map(|p| p.name.clone()).collect();
    names.sort();
    assert_eq!(names, vec!["a".to_string(), "b".to_string(), "c".to_string()]);
    assert_eq!(merged[0].manager, "apt");
}

#[test]
fn rank_orders_by_type_then_score() {
    let hits = vec![hit("vim", "apt", 100), hit("libvim", "apt", 50), hit("htop", "apt", 900), hit("vim-de", "apt", 10)];
    let ranked = rank_hits(hits, "de");
    // MainApp (1000) > Library (200) > Other (0); within MainApp: 100 + 0 > 10 + 50.
    assert_eq!(
        ranked.iter().map(|p| p.name.as_str()).collect::<Vec<_>>(),
        vec!["vim", "vim-de", "libvim", "htop"]
    );
}

#[test]
fn cache_returns_what_was_stored_law() {
    let mut cache = SearchCache::new();
    assert!(cache.lookup("vim").is_none());
    cache.store("vim", vec![hit("vim", "apt", 60)]);
    cache.store("gimp", vec![hit("gimp", "apt", 70)]);
    assert_eq!(summary(&cache.lookup("vim").unwrap()), vec![("vim".to_string(), "apt".to_string(), 60)]);
    cache.store("vim", vec![]);
    assert!(cache.lookup("vim").unwrap().is_empty());
    assert_eq!(cache.lookup("gimp").unwrap().len(), 1);
}

#[test]
fn finished_search_is_cached_under_query() {
    let mut cache = SearchCache::new();
    let all = vec![hit("vim", "apt", 60), hit("vim", "dnf", 90), hit("libvim", "apt", 70)];
    let r = finish_search(&mut cache, "VIM", all, "en");
    assert_eq!(summary(&r), vec![("vim".to_string(), "dnf".to_string(), 90), ("libvim".to_string(), "apt".to_string(), 70)]);
    assert_eq!(summary(&cache.lookup("VIM").unwrap()), summary(&r));
    assert!(cache.lookup("vim").is_none());
}

#[test]
fn finished_search_ranks_best_first() {
    let mut cache = SearchCache::new();
    let all = vec![hit("libfoo", "apt", 99), hit("foo-de", "apt", 10), hit("foo", "dnf", 40), hit("foo-plugin", "apt", 95)];
    let r = finish_search(&mut cache, "foo", all, "de");
    // Library (200) first; then Other (0): foo-de scores 10 + 50, foo scores 40; then Plugin (-200).
    assert_eq!(r.iter().map(|p| p.name.as_str()).collect::<Vec<_>>(), vec!["libfoo", "foo-de", "foo", "foo-plugin"]);
}

#[test]
fn scores_near_the_limit_are_ranked() {
    let hits = vec![hit("a", "apt", i64::MAX), hit("b", "apt", i64::MAX - 1)];
    let r = rank_hits(hits, "en");
    assert_eq!(r.iter().map(|p| p.name.as_str()).collect::<Vec<_>>(), vec!["a", "b"]);
    let r = sorter_priority(vec![hit("b", "apt", i64::MAX - 1), hit("a", "apt", i64::MAX)], "en", "");
    assert_eq!(r.iter().map(|p| p.name.as_str()).collect::<Vec<_>>(), vec!["a", "b"]);
}

fn key(p: &UnifiedPackage, lang: &str, os: &str) -> (i64, i64, i64) {
    (
        p.score + language_bonus(&p.name, lang),
        manager_priority(os, &p.manager),
        type_priority(&classify_package(&p.name)),
    )
}

#[test]
fn sorter_ranks_best_first() {
    let hits = vec![
        hit("vim", "flatpak", 100),
        hit("vim", "pacman", 100),
        hit("vim-de", "apt", 60),
        hit("nano", "yay", 100),
        hit("gimp", "apt", 300),
    ];
    let r = sorter_priority(hits, "de", "id=arch");
    assert_eq!(
        summary(&r),
        vec![
            ("gimp".to_string(), "apt".to_string(), 300),
            ("vim-de".to_string(), "apt".to_string(), 60),
            ("vim".to_string(), "pacman".to_string(), 100),
            ("nano".to_string(), "yay".to_string(), 100),
            ("vim".to_string(), "flatpak".to_string(), 100),
        ]
    );
    for w in r.windows(2) {
        assert!(key(&w[0], "de", "id=arch") >= key(&w[1], "de", "id=arch"));
    }
}

#[test]
fn sorter_keeps_ties_in_order() {
    let hits = vec![hit("a", "x", 5), hit("b", "x", 5), hit("c", "x", 5)];
    let r = sorter_priority(hits, "en", "");
    assert_eq!(r.iter().map(|p| p.name.as_str()).collect::<Vec<_>>(), vec!["a", "b", "c"]);
}

#[test]
fn sorter_only_reorders_law() {
    let hits = vec![hit("x", "apt", 1), hit("y", "apt", 7), hit("x", "apt", 1), hit("z", "dnf", 3)];
    let mut before = summary(&hits);
    let mut after = summary(&sorter_priority(hits, "en", "id=debian"));
    before.sort();
    after.sort();
    assert_eq!(before, after);
}

#[test]
fn sorter_leaves_ranked_list_alone_law() {
    let hits = vec![hit("gimp", "apt", 300), hit("vim", "apt", 100), hit("htop", "apt", 100)];
    let once = sorter_priority(hits, "en", "");
    let names: Vec<String> = once.iter().map(|p| p.name.clone()).collect();
    let twice = sorter_priority(once, "en", "");
    assert_eq!(twice.iter().map(|p| p.name.clone()).collect::<Vec<_>>(), names);
}

#[test]
fn sorter_has_one_outcome_law() {
    let hits = vec![hit("b", "apt", 5), hit("a", "dnf", 5), hit("c", "apt", 9), hit("a", "apt", 5)];
    let r1 = sorter_priority(hits.clone(), "en", "id=debian");
    let r2 = sorter_priority(hits, "en", "id=debian");
    assert_eq!(summary(&r1), summary(&r2));
    assert_eq!(
        summary(&r1),
        vec![
            ("c".to_string(), "apt".to_string(), 9),
            ("b".to_string(), "apt".to_string(), 5),
            ("a".to_string(), "apt".to_string(), 5),
            ("a".to_string(), "dnf".to_string(), 5),
        ]
    );
}
