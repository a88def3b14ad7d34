use pkg::cli::{exact_matches_first, find_manager, install_directly, matches_filters, parse_command, Command};
use pkg::manager::Manager;
use pkg::search::UnifiedPackage;
use pkg::text::{chars_of, split_lines, split_words, trim_chars, occurs, text_less};

fn hit(name: &str) -> UnifiedPackage {
    UnifiedPackage { name: name.to_string(), real_name: name.to_string(), manager: "apt".to_string(), score: 60 }
}

#[test]
fn commands_and_aliases() {
    for a in ["version", "v", "-v", "-version"] {
        assert_eq!(parse_command(a), Command::Version);
    }
    for a in ["search", "s", "-s", "-search"] {
        assert_eq!(parse_command(a), Command::Search);
    }
    assert_eq!(parse_command("i"), Command::Install);
    assert_eq!(parse_command("-remove"), Command::Remove);
    assert_eq!(parse_command("u"), Command::Update);
    assert_eq!(parse_command("list"), Command::List);
    assert_eq!(parse_command("Install"), Command::Unknown);
    assert_eq!(parse_command("--install"), Command::Unknown);
    assert_eq!(parse_command(""), Command::Unknown);
}

#[test]
fn exact_match_moves_first_law() {
    let r = exact_matches_first(vec![hit("vim-gtk"), hit("neovim"), hit("VIM"), hit("vim")], "Vim");
    assert_eq!(r.iter().map(|p| p.name.as_str()).collect::<Vec<_>>(), vec!["VIM", "vim", "vim-gtk", "neovim"]);
}

#[test]
fn direct_install_decision() {
    assert!(install_directly(&vec![hit("anything")], "vim"));
    assert!(install_directly(&vec![hit("Vim"), hit("vim-gtk")], "vim"));
    assert!(!install_directly(&vec![hit("vim-gtk"), hit("vim")], "vim"));
}

#[test]
fn manager_lookup_by_name() {
    let ms = vec![Manager { name: "apt", priority: 100 }, Manager { name: "flatpak", priority: 50 }, Manager { name: "apt", priority: 1 }];
    assert_eq!(find_manager(&ms, "apt"), Some(0));
    assert_eq!(find_manager(&ms, "flatpak"), Some(1));
    assert_eq!(find_manager(&ms, "dnf"), None);
}

#[test]
fn list_filters() {
    let none: Vec<String> = vec![];
    assert!(matches_filters("anything", &none));
    let f = vec!["FIRE".to_string(), "zz".to_string()];
    assert!(matches_filters("Firefox", &f));
    assert!(!matches_filters("vim", &f));
}

fn texts(v: Vec<Vec<char>>) -> Vec<String> {
    v.into_iter().map(|c| c.into_iter().collect()).collect()
}

#[test]
fn lines_like_std() {
    for s in ["a\r\nb\n", "a\r", "", "\n", "x\n\ny", "a\rb\r\n"] {
        let expected: Vec<String> = s.lines().map(|l| l.to_string()).collect();
        assert_eq!(texts(split_lines(&chars_of(s))), expected);
    }
}

#[test]
fn words_like_std() {
    for s in ["  a b\tc\u{a0}d ", "", "   ", "one"] {
        let expected: Vec<String> = s.split_whitespace().map(|l| l.to_string()).collect();
        assert_eq!(texts(split_words(&chars_of(s))), expected);
    }
}

#[test]
fn trim_like_std() {
    for s in ["  a b  ", "", "   ", "x"] {
        let t: String = trim_chars(&chars_of(s)).into_iter().collect();
        assert_eq!(t, s.trim());
    }
}

#[test]
fn contains_and_order_like_std() {
    assert!(occurs(&chars_of("firefox"), &chars_of("ref")));
    assert!(occurs(&chars_of("firefox"), &chars_of("")));
    assert!(!occurs(&chars_of("fire"), &chars_of("firefox")));
    for (a, b) in [("a", "b"), ("ab", "a"), ("B", "a"), ("ä", "z"), ("", ""), ("", "a")] {
        assert_eq!(text_less(&chars_of(a), &chars_of(b)), a < b);
    }
}
