use pkg::language::system_language;
use pkg::parser::extract_language_tags;
use pkg::ranking::{classify_package, classify_lowercase, fuzzy_score, language_bonus, type_priority, PackageType};

fn sorted(mut v: Vec<String>) -> Vec<String> {
    v.sort();
    v
}

#[test]
fn tags_of_i18n_package() {
    assert_eq!(extract_language_tags("firefox-i18n-de"), vec!["de".to_string()]);
}

#[test]
fn tags_of_lang_package() {
    assert_eq!(extract_language_tags("firefox-lang-de"), vec!["de".to_string()]);
}

#[test]
fn tags_of_region_package() {
    assert_eq!(sorted(extract_language_tags("firefox-de-at")), vec!["at".to_string(), "de".to_string()]);
}

#[test]
fn tags_are_lowercased_and_unique() {
    assert_eq!(extract_language_tags("Foo_DE.de-De"), vec!["de".to_string()]);
}

#[test]
fn tags_need_two_ascii_letters() {
    assert!(extract_language_tags("firefox-deu-d1-x").is_empty());
    assert!(extract_language_tags("firefox").is_empty());
    assert!(extract_language_tags("").is_empty());
}

#[test]
fn bonus_for_exact_language_tag() {
    assert_eq!(language_bonus("firefox-de", "de"), 50);
}

#[test]
fn no_bonus_for_other_language() {
    assert_eq!(language_bonus("firefox-en", "de"), 0);
}

#[test]
fn bonus_for_tag_starting_with_language() {
    assert_eq!(language_bonus("firefox-de", "d"), 50);
    assert_eq!(language_bonus("firefox", "d"), 0);
}

#[test]
fn bonus_is_fifty_or_zero_law() {
    for (p, l) in [("firefox-de", "de"), ("a-fr-de", "fr"), ("x", "en"), ("x-en", ""), ("x", "")] {
        let b = language_bonus(p, l);
        assert!(b == 50 || b == 0);
    }
}

#[test]
fn own_language_earns_bonus_law() {
    assert_eq!(language_bonus("libreoffice-l10n-pt", "pt"), 50);
}

#[test]
fn classify_language_packs_first() {
    assert_eq!(classify_package("firefox-i18n-de"), PackageType::LanguagePack);
    assert_eq!(classify_package("firefox-langpack-de"), PackageType::LanguagePack);
    assert_eq!(classify_package("glibc-locale"), PackageType::LanguagePack);
    assert_eq!(classify_package("python-language-server"), PackageType::LanguagePack);
}

#[test]
fn classify_libraries() {
    assert_eq!(classify_package("libfoo"), PackageType::Library);
    assert_eq!(classify_package("foo-dev"), PackageType::Library);
    assert_eq!(classify_package("android-SDK"), PackageType::Library);
    assert_eq!(classify_package("foo-devel"), PackageType::Other);
}

#[test]
fn classify_plugins_and_apps() {
    assert_eq!(classify_package("vim-plugin-x"), PackageType::Plugin);
    assert_eq!(classify_package("gnome-shell-extension-foo"), PackageType::Plugin);
    assert_eq!(classify_package("firefox-addon-ublock"), PackageType::Plugin);
    assert_eq!(classify_package("firefox-nightly"), PackageType::Plugin);
    assert_eq!(classify_package("firefox-beta"), PackageType::Plugin);
    assert_eq!(classify_package("firefox-developer-edition"), PackageType::Plugin);
    assert_eq!(classify_package("Firefox"), PackageType::MainApp);
    assert_eq!(classify_package("neovim"), PackageType::MainApp);
    assert_eq!(classify_package("google-chrome"), PackageType::MainApp);
    assert_eq!(classify_package("nano"), PackageType::MainApp);
    assert_eq!(classify_package("htop"), PackageType::Other);
}

#[test]
fn classify_lowercase_takes_the_name_as_is() {
    assert_eq!(classify_lowercase("libfoo"), PackageType::Library);
    assert_eq!(classify_lowercase("LIBFOO"), PackageType::Other);
}

#[test]
fn type_priorities() {
    assert_eq!(type_priority(&PackageType::MainApp), 1000);
    assert_eq!(type_priority(&PackageType::Other), 0);
    assert_eq!(type_priority(&PackageType::Library), 200);
    assert_eq!(type_priority(&PackageType::Plugin), -200);
    assert_eq!(type_priority(&PackageType::LanguagePack), -500);
}

#[test]
fn category_order_law() {
    assert!(type_priority(&PackageType::MainApp) > type_priority(&PackageType::Library));
    assert!(type_priority(&PackageType::Library) > type_priority(&PackageType::Other));
    assert_eq!(type_priority(&PackageType::Other), 0);
    assert!(type_priority(&PackageType::Other) > type_priority(&PackageType::Plugin));
    assert!(type_priority(&PackageType::Plugin) > type_priority(&PackageType::LanguagePack));
}

#[test]
fn ascii_case_ignored_law() {
    for (a, b) in [("FIREFOX-DE", "firefox-de"), ("LibVim", "libvim"), ("Vim-Plugin-X", "VIM-plugin-x"), ("GLIBC-Locale", "glibc-locale")] {
        assert_eq!(classify_package(a), classify_package(b));
        assert_eq!(extract_language_tags(a), extract_language_tags(b));
        assert_eq!(language_bonus(a, "de"), language_bonus(b, "de"));
    }
    assert_eq!(language_bonus("FIREFOX-DE", "de"), 50);
}

#[test]
fn same_lowercase_same_ranking_law() {
    for (a, b) in [("ÄPFEL-DE", "äpfel-de"), ("Ωmega-Plugin", "ωmega-plugin"), ("LIB-ÉCOLE", "lib-école")] {
        assert_eq!(a.to_lowercase(), b.to_lowercase());
        assert_eq!(classify_package(a), classify_package(b));
        assert_eq!(extract_language_tags(a), extract_language_tags(b));
        assert_eq!(language_bonus(a, "de"), language_bonus(b, "de"));
    }
}

#[test]
fn ascii_lower_is_stable_law() {
    for n in ["FireFox-Nightly", "LIBVIM", "Glibc-Locale-DE", "htop"] {
        let lower = n.to_lowercase();
        assert_eq!(classify_package(n), classify_package(&lower));
        assert_eq!(extract_language_tags(n), extract_language_tags(&lower));
        assert_eq!(classify_package(&lower), classify_lowercase(&lower));
    }
}

#[test]
fn main_app_ranks_highest_law() {
    for t in [PackageType::MainApp, PackageType::Plugin, PackageType::Library, PackageType::LanguagePack, PackageType::Other] {
        assert!(type_priority(&t) <= type_priority(&PackageType::MainApp));
    }
}

#[test]
fn fuzzy_score_of_empty_query_is_zero() {
    assert_eq!(fuzzy_score("", "firefox"), 0);
    assert_eq!(fuzzy_score("", ""), 0);
}

#[test]
fn fuzzy_score_without_match_is_zero() {
    assert_eq!(fuzzy_score("abx", "abc"), 0);
    assert_eq!(fuzzy_score("firefox", "vim"), 0);
}

#[test]
fn fuzzy_score_of_match_is_positive() {
    assert!(fuzzy_score("firefox", "firefox") > 0);
    assert!(fuzzy_score("abc", "axbycz") > 0);
    assert!(fuzzy_score("firefox", "firefox") > fuzzy_score("ffx", "firefox"));
}

#[test]
fn system_language_from_locale() {
    assert_eq!(system_language(Some("de_DE.UTF-8".to_string())), "de");
    assert_eq!(system_language(Some("pt-BR".to_string())), "pt-br");
    assert_eq!(system_language(Some("C.UTF-8".to_string())), "c");
    assert_eq!(system_language(Some("".to_string())), "");
}

#[test]
fn system_language_defaults_to_english() {
    assert_eq!(system_language(None), "en");
}
