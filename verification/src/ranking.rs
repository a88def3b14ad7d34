//! Classification, priorities and scores used to rank packages.
use vstd::prelude::*;
use fuzzy_matcher::FuzzyMatcher;
use crate::parser::{extract_language_tags, language_tags};
use crate::text::{
    all_ascii, ascii_lower, begins_with, chars_of, finishes_with, lower_text, occurs, occurs_in,
    string_views, to_lowercase,
};

verus! {

/// Categories a package is sorted into.
#[derive(Debug, Clone, Copy, PartialEq, Eq, Structural, PartialOrd, Ord)]
pub enum PackageType {
    MainApp,
    Plugin,
    Library,
    LanguagePack,
    Other,
}

/// The category of a package whose name is already in lowercase. Language packs are
/// recognised first, then libraries, then plugins and add-ons (including beta, nightly and
/// developer builds), then main applications.
pub open spec fn category_of(name_lc: Seq<char>) -> PackageType {
    if occurs_in(name_lc, "i18n"@) || occurs_in(name_lc, "lang"@) || occurs_in(name_lc, "locale"@) {
        PackageType::LanguagePack
    } else if occurs_in(name_lc, "lib"@) || "-dev"@.is_suffix_of(name_lc) || occurs_in(
        name_lc,
        "sdk"@,
    ) {
        PackageType::Library
    } else if occurs_in(name_lc, "plugin"@) || occurs_in(name_lc, "addon"@) || occurs_in(
        name_lc,
        "extension"@,
    ) || occurs_in(name_lc, "beta"@) || occurs_in(name_lc, "nightly"@) || occurs_in(
        name_lc,
        "developer"@,
    ) {
        PackageType::Plugin
    } else if occurs_in(name_lc, "firefox"@) || occurs_in(name_lc, "chrome"@) || occurs_in(
        name_lc,
        "vim"@,
    ) || occurs_in(name_lc, "nano"@) {
        PackageType::MainApp
    } else {
        PackageType::Other
    }
}

/// The fixed priority of a category: main applications highest, then libraries, other
/// packages neutral, add-ons lower, language packs lowest.
pub open spec fn priority_of(t: PackageType) -> int {
    match t {
        PackageType::MainApp => 1000,
        PackageType::Other => 0,
        PackageType::Plugin => -200,
        PackageType::Library => 200,
        PackageType::LanguagePack => -500,
    }
}

/// The language bonus of a package name for a system language.
pub open spec fn bonus_of(pkg: Seq<char>, lang: Seq<char>) -> int {
    if exists|t: Seq<char>| language_tags(pkg).contains(t) && lang.is_prefix_of(t) {
        50
    } else {
        0
    }
}

/// What `SkimMatcherV2::default().fuzzy_match(choice, pattern)` returns.
pub uninterp spec fn skim_score(choice: Seq<char>, pattern: Seq<char>) -> Option<i64>;

/// The fuzzy similarity of a query and a package name: the skim score of the name against the
/// query, 0 where the query does not match.
pub open spec fn fuzzy_of(pkg: Seq<char>, name: Seq<char>) -> int {
    match skim_score(name, pkg) {
        Some(s) => s as int,
        None => 0,
    }
}

fn has(hay: &Vec<char>, needle: &str) -> (r: bool)
    ensures
        r == occurs_in(hay@, needle@),
{
    occurs(hay, &chars_of(needle))
}

/// The category of a package whose name is already in lowercase.
pub fn classify_lowercase(name_lc: &str) -> (t: PackageType)
    ensures
        t == category_of(name_lc@),
{
    let n = chars_of(name_lc);
    if has(&n, "i18n") || has(&n, "lang") || has(&n, "locale") {
        return PackageType::LanguagePack;
    }
    if has(&n, "lib") || finishes_with(&n, &chars_of("-dev")) || has(&n, "sdk") {
        return PackageType::Library;
    }
    if has(&n, "plugin") || has(&n, "addon") || has(&n, "extension") || has(&n, "beta") || has(
        &n,
        "nightly",
    ) || has(&n, "developer") {
        return PackageType::Plugin;
    }
    if has(&n, "firefox") || has(&n, "chrome") || has(&n, "vim") || has(&n, "nano") {
        return PackageType::MainApp;
    }
    PackageType::Other
}

/// Sorts a package into a rough category by its name, compared in lowercase; the category is
/// later used for ranking. Language packs (i18n, lang, locale) are recognised first, then
/// libraries (lib, sdk, `-dev`), then plugins and add-ons (plugin, addon, extension, and beta,
/// nightly and developer builds), then main applications (firefox, chrome, vim, nano);
/// anything else is `Other`.
pub fn classify_package(name: &str) -> (t: PackageType)
    ensures
        t == category_of(lower_text(name@)),
{
    let lc = to_lowercase(name);
    classify_lowercase(lc.as_str())
}

/// The fixed priority of a category; a higher value ranks higher: main applications 1000,
/// libraries 200, other packages 0 (neutral), plugins and add-ons -200, language packs -500.
pub fn type_priority(t: &PackageType) -> (p: i64)
    ensures
        p == priority_of(*t),
{
    match t {
        PackageType::MainApp => 1000,
        PackageType::Other => 0,
        PackageType::Plugin => -200,
        PackageType::Library => 200,
        PackageType::LanguagePack => -500,
    }
}

/// A bonus when the package matches the system language: 50 when one of its language tags
/// is the language or begins with it (system `de`: `firefox-de` gets 50, `firefox-en` gets
/// nothing), else 0. It pulls packages in the user's language up in the ranking.
pub fn language_bonus(pkg: &str, lang: &str) -> (b: i64)
    ensures
        b == bonus_of(pkg@, lang@),
{
    let tags = extract_language_tags(pkg);
    let l = chars_of(lang);
    let ghost tv = string_views(tags@);
    for i in 0..tags.len()
        invariant
            tv == string_views(tags@),
            tv.to_set() == language_tags(pkg@),
            l@ == lang@,
            forall|j: int| 0 <= j < i ==> !lang@.is_prefix_of(#[trigger] tv[j]),
    {
        assert(tv[i as int] == tags@[i as int]@);
        if begins_with(&chars_of(tags[i].as_str()), &l) {
            proof {
                assert(tv.to_set().contains(tv[i as int]));
            }
            return 50;
        }
    }
    proof {
        assert forall|t: Seq<char>| language_tags(pkg@).contains(t) implies !lang@.is_prefix_of(t) by {
            assert(tv.to_set().contains(t));
            let j = choose|j: int| 0 <= j < tv.len() && tv[j] == t;
        }
    }
    0
}

/// Calls `SkimMatcherV2::default().fuzzy_match(choice, pattern)`. Claimed: the result is
/// `skim_score` of the two texts, a function of them alone; an empty pattern scores `Some(0)`
/// (the first line of `SkimMatcherV2::fuzzy`), and a score is an `i32` matrix value widened to
/// `i64` (`m_score as ScoreType`). Left unsaid: which texts match and how they are scored; and
/// that the `i32` arithmetic would overflow, and panic in a debug build, only for texts of
/// about 2^31 characters.
#[verifier::external_body]
fn skim_fuzzy_match(choice: &str, pattern: &str) -> (r: Option<i64>)
    ensures
        r == skim_score(choice@, pattern@),
        pattern@.len() == 0 ==> r == Some(0i64),
        r matches Some(s) ==> i32::MIN <= s <= i32::MAX,
{
    fuzzy_matcher::skim::SkimMatcherV2::default().fuzzy_match(choice, pattern)
}

/// The fuzzy similarity between a search term and a package name (0 where the name does
/// not match the term).
pub fn fuzzy_score(pkg: &str, name: &str) -> (s: i64)
    ensures
        s == fuzzy_of(pkg@, name@),
        i32::MIN <= s <= i32::MAX,
        pkg@.len() == 0 ==> s == 0,
{
    match skim_fuzzy_match(name, pkg) {
        Some(s) => s,
        None => 0,
    }
}

/// The name marks a language pack: it holds `i18n`, `lang` or `locale`.
pub open spec fn marks_language_pack(n: Seq<char>) -> bool {
    occurs_in(n, "i18n"@) || occurs_in(n, "lang"@) || occurs_in(n, "locale"@)
}

/// The name marks a library: it holds `lib` or `sdk`, or ends with `-dev`.
pub open spec fn marks_library(n: Seq<char>) -> bool {
    occurs_in(n, "lib"@) || occurs_in(n, "sdk"@) || "-dev"@.is_suffix_of(n)
}

/// The name marks an add-on: a plugin, addon or extension, or a beta, nightly or developer
/// build.
pub open spec fn marks_addon(n: Seq<char>) -> bool {
    occurs_in(n, "plugin"@) || occurs_in(n, "addon"@) || occurs_in(n, "extension"@) || occurs_in(
        n,
        "beta"@,
    ) || occurs_in(n, "nightly"@) || occurs_in(n, "developer"@)
}

/// The name marks a main application: firefox, chrome, vim or nano.
pub open spec fn marks_app(n: Seq<char>) -> bool {
    occurs_in(n, "firefox"@) || occurs_in(n, "chrome"@) || occurs_in(n, "vim"@) || occurs_in(
        n,
        "nano"@,
    )
}

/// Which mark decides the category of a lowercase name: a language-pack mark wins over all,
/// a library mark over add-on and application marks (`libvim` is a library), an add-on mark
/// over application marks (`firefox-nightly` is an add-on); an application mark alone makes
/// a main application, and a name without marks is `Other`.
pub proof fn law_category_precedence(n: Seq<char>)
    ensures
        marks_language_pack(n) ==> category_of(n) == PackageType::LanguagePack,
        !marks_language_pack(n) && marks_library(n) ==> category_of(n) == PackageType::Library,
        !marks_language_pack(n) && !marks_library(n) && marks_addon(n) ==> category_of(n)
            == PackageType::Plugin,
        !marks_language_pack(n) && !marks_library(n) && !marks_addon(n) && marks_app(n)
            ==> category_of(n) == PackageType::MainApp,
        !marks_language_pack(n) && !marks_library(n) && !marks_addon(n) && !marks_app(n)
            ==> category_of(n) == PackageType::Other,
{
}

/// The language bonus is 50 or nothing.
pub proof fn law_bonus_is_50_or_0(pkg: Seq<char>, lang: Seq<char>)
    ensures
        bonus_of(pkg, lang) == 50 || bonus_of(pkg, lang) == 0,
{
}

/// A package tagged with the system language gets the bonus.
pub proof fn law_own_language_earns_bonus(pkg: Seq<char>, lang: Seq<char>)
    requires
        language_tags(pkg).contains(lang),
    ensures
        bonus_of(pkg, lang) == 50,
{
    assert(lang.is_prefix_of(lang)) by {
        assert(lang.subrange(0, lang.len() as int) =~= lang);
    }
}

/// Main applications have the highest category priority.
pub proof fn law_main_app_ranks_highest(t: PackageType)
    ensures
        priority_of(t) <= priority_of(PackageType::MainApp),
{
}

/// The order of the categories: main applications, then libraries, then other packages
/// (neutral), then plugins and add-ons, then language packs.
pub proof fn law_category_order()
    ensures
        priority_of(PackageType::MainApp) > priority_of(PackageType::Library),
        priority_of(PackageType::Library) > priority_of(PackageType::Other),
        priority_of(PackageType::Other) == 0,
        priority_of(PackageType::Other) > priority_of(PackageType::Plugin),
        priority_of(PackageType::Plugin) > priority_of(PackageType::LanguagePack),
{
}

/// The category, the language tags and the language bonus of a name depend on its lowercase
/// form alone: two names with the same lowercase form get the same of each.
pub proof fn law_same_lowercase_same_ranking(a: Seq<char>, b: Seq<char>, lang: Seq<char>)
    requires
        lower_text(a) == lower_text(b),
    ensures
        category_of(lower_text(a)) == category_of(lower_text(b)),
        language_tags(a) == language_tags(b),
        bonus_of(a, lang) == bonus_of(b, lang),
{
}

/// For ASCII names, letter case does not matter: two names that are equal up to the case of
/// their letters get the same category, the same language tags and the same language bonus.
pub proof fn law_ascii_case_ignored(a: Seq<char>, b: Seq<char>, lang: Seq<char>)
    requires
        all_ascii(a),
        all_ascii(b),
        ascii_lower(a) == ascii_lower(b),
    ensures
        category_of(lower_text(a)) == category_of(lower_text(b)),
        language_tags(a) == language_tags(b),
        bonus_of(a, lang) == bonus_of(b, lang),
{
}

} // verus!
