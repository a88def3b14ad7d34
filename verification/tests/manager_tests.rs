use pkg::manager::{detect_distro, get_managers, hit_score, manager_kind, manager_priority, Action, Manager, ManagerKind};
use pkg::ranking::fuzzy_score;

fn mgr(name: &'static str) -> Manager {
    Manager { name, priority: 0 }
}

fn names(v: &[Manager]) -> Vec<&'static str> {
    v.iter().map(|m| m.name).collect()
}

#[test]
fn all_managers_by_priority() {
    let all = get_managers(|_| true);
    assert_eq!(names(&all), vec!["apt", "pacman", "yay", "dnf", "zypper", "flatpak"]);
    assert_eq!(all.iter().map(|m| m.priority).collect::<Vec<_>>(), vec![100, 90, 80, 70, 60, 50]);
}

#[test]
fn only_available_managers() {
    let some = get_managers(|m| m.name == "flatpak" || m.name == "yay");
    assert_eq!(names(&some), vec!["yay", "flatpak"]);
    assert!(get_managers(|_| false).is_empty());
}

#[test]
fn managers_sorted_descending_law() {
    let some = get_managers(|m| m.name != "pacman");
    for w in some.windows(2) {
        assert!(w[0].priority >= w[1].priority);
    }
}

#[test]
fn kinds_by_name() {
    assert_eq!(manager_kind("apt"), Some(ManagerKind::Apt));
    assert_eq!(manager_kind("zypper"), Some(ManagerKind::Zypper));
    assert_eq!(manager_kind("APT"), None);
    assert_eq!(manager_kind("brew"), None);
}

#[test]
fn distro_in_lowercase() {
    assert_eq!(detect_distro(Some("NAME=\"Arch Linux\"\nID=arch".to_string())), "name=\"arch linux\"\nid=arch");
    assert_eq!(detect_distro(None), "");
}

#[test]
fn priorities_on_arch() {
    let os = "id=arch";
    assert_eq!(manager_priority(os, "pacman"), 1000);
    assert_eq!(manager_priority(os, "yay"), 900);
    assert_eq!(manager_priority(os, "flatpak"), 100);
    assert_eq!(manager_priority(os, "apt"), 0);
}

#[test]
fn priorities_on_debian_family() {
    assert_eq!(manager_priority("id=ubuntu", "apt"), 1000);
    assert_eq!(manager_priority("id=debian", "flatpak"), 500);
    assert_eq!(manager_priority("id=debian", "pacman"), 0);
    assert_eq!(manager_priority("id=fedora", "dnf"), 0);
    assert_eq!(manager_priority("", "apt"), 0);
}

#[test]
fn hit_score_boosts() {
    assert_eq!(hit_score("vim", "vim", 7), 7 + 1000);
    assert_eq!(hit_score("vim", "vim-gtk", 7), 7 + 500);
    assert_eq!(hit_score("vim", "neovim", 7), 7 + 200);
    assert_eq!(hit_score("vim", "nano", -3), -3);
    assert_eq!(hit_score("x", "abcdefghijklmnopqrstu", 0), -2);
    assert_eq!(hit_score("x", "äöüäöü", 0), -1);
}

fn hit_for(query: &str, name: &str) -> i64 {
    let name_lc = name.to_lowercase();
    hit_score(query, &name_lc, fuzzy_score(query, &name_lc))
}

#[test]
fn search_hits_of_apt() {
    let out = "firefox/jammy 120.0 amd64\n  Mozilla Firefox\n\nvim/jammy 9.0 amd64\n";
    let hits = mgr("apt").search_hits_in_text("Firefox", out);
    let mut expected: Vec<(String, i64)> = Vec::new();
    for name in ["firefox", "  Mozilla Firefox", "", "vim"] {
        let s = hit_for("firefox", name);
        if s >= 50 {
            expected.push((name.to_string(), s));
        }
    }
    assert_eq!(hits.iter().map(|h| (h.name.clone(), h.score)).collect::<Vec<_>>(), expected);
    assert_eq!(hits[0].name, "firefox");
    assert_eq!(hits[0].real_name, "firefox");
    assert_eq!(hits[0].manager, "apt");
    for h in &hits {
        assert!(h.score >= 50);
    }
}

#[test]
fn search_hits_of_pacman() {
    let out = "extra/firefox 120.0-1\n    Fast, Private & Safe Web Browser\nextra/firefox-i18n-de 120.0-1\r\n";
    let hits = mgr("pacman").search_hits_in_text("firefox", out);
    let names: Vec<String> = hits.iter().map(|h| h.name.clone()).collect();
    assert_eq!(names, vec!["firefox".to_string(), "firefox-i18n-de".to_string()]);
    assert_eq!(hits[0].score, hit_for("firefox", "firefox"));
}

#[test]
fn search_hits_of_dnf_and_flatpak() {
    let dnf = mgr("dnf").search_hits_in_text("vim", "vim-enhanced.x86_64 : A version of the VIM editor\n");
    assert_eq!(dnf.len(), 1);
    assert_eq!(dnf[0].name, "vim-enhanced");
    assert_eq!(dnf[0].manager, "dnf");
    let fp = mgr("flatpak").search_hits_in_text("gimp", "GIMP\tGNU Image Manipulation Program\n");
    assert_eq!(fp.len(), 1);
    assert_eq!(fp[0].name, "GIMP");
    assert_eq!(fp[0].score, hit_for("gimp", "GIMP"));
}

#[test]
fn search_hits_skip_low_scores_law() {
    let hits = mgr("zypper").search_hits_in_text("vim", "i | vim | package\nemacs\nvim\n");
    assert_eq!(hits.iter().map(|h| h.name.as_str()).collect::<Vec<_>>(), vec!["vim"]);
    assert!(hits.iter().all(|h| h.score >= 50));
}

#[test]
fn unknown_manager_finds_nothing() {
    assert!(mgr("brew").search_hits_in_text("vim", "vim\n").is_empty());
    assert!(mgr("brew").installed_in_text("ii vim 1\n").is_empty());
    assert!(!mgr("brew").installed_in_output("vim", b"vim"));
}

#[test]
fn search_hits_from_bytes() {
    let hits = mgr("flatpak").search_hits_in_output("gimp", b"gimp\t2.10\n");
    assert_eq!(hits.len(), 1);
    assert_eq!(hits[0].name, "gimp");
}

#[test]
fn installed_check_finds_name_in_output() {
    let apt = mgr("apt");
    assert!(apt.installed_in_output("firefox", b"Firefox"));
    assert!(apt.installed_in_output("firefox", b"firefox\n"));
    assert!(apt.installed_in_output("firefox", b"ii firefox 1.0"));
    assert!(!apt.installed_in_output("firefox", b"ii vim 9.1"));
    assert!(!apt.installed_in_output("firefox", b""));
    assert!(mgr("pacman").installed_in_output("vim", b"vim 9.1.0-1\n"));
    assert!(mgr("pacman").installed_in_output("äpfel", "Äpfel 1.0-1\n".as_bytes()));
    assert!(!mgr("pacman").installed_in_output("vim", b"error: package 'vi' was not found\n"));
}

#[test]
fn installed_list_of_apt() {
    let out = "Desired=Unknown\nii  zlib1g:amd64  1:1.2\nrc  old  1\nii  bash  5.1\nii  bash  5.1\nii\n";
    assert_eq!(mgr("apt").installed_in_text(out), vec!["bash".to_string(), "zlib1g:amd64".to_string()]);
}

#[test]
fn installed_list_of_pacman_and_dnf() {
    assert_eq!(mgr("yay").installed_in_text("zsh 5.9\nbash 5.2\n\n"), vec!["bash".to_string(), "zsh".to_string()]);
    assert_eq!(
        mgr("dnf").installed_in_text("Installed Packages\nvim.x86_64 9.0\nbash.x86_64 5.2\n"),
        vec!["Installed".to_string(), "bash".to_string(), "vim".to_string()]
    );
}

#[test]
fn installed_list_of_zypper() {
    let out = "S  | Name | Summary     | Type\n---+------+-------------+--------\ni+ | vim  | Vi IMproved | package\n";
    assert_eq!(mgr("zypper").installed_in_text(out), vec!["vim".to_string()]);
    let two = "S | Name | Summary\n--+------+--------\ni | zsh | Z shell\nv | bash | shell\ni+ | bash | Bourne shell\n";
    assert_eq!(mgr("zypper").installed_in_text(two), vec!["bash".to_string(), "zsh".to_string()]);
}

#[test]
fn installed_list_sorted_and_distinct_law() {
    let list = mgr("flatpak").installed_in_list_output("b\na\nc\na\nB\n".as_bytes());
    assert_eq!(list, vec!["B".to_string(), "a".to_string(), "b".to_string(), "c".to_string()]);
}

fn command_of(m: &str, action: Action, pkg: &str) -> Option<(String, Vec<String>)> {
    let static_name: &'static str = Box::leak(m.to_string().into_boxed_str());
    mgr(static_name).command(action, pkg).map(|c| (c.program, c.args))
}

fn owned(p: &str, args: &[&str]) -> Option<(String, Vec<String>)> {
    Some((p.to_string(), args.iter().map(|a| a.to_string()).collect()))
}

#[test]
fn install_and_remove_commands() {
    assert_eq!(command_of("apt", Action::Install, "vim"), owned("sudo", &["apt", "install", "-y", "vim"]));
    assert_eq!(command_of("yay", Action::Install, "vim"), owned("yay", &["-S", "--noconfirm", "vim"]));
    assert_eq!(command_of("zypper", Action::Remove, "vim"), owned("sudo", &["zypper", "--non-interactive", "remove", "vim"]));
    assert_eq!(command_of("flatpak", Action::Remove, "gimp"), owned("flatpak", &["uninstall", "-y", "gimp"]));
}

#[test]
fn update_and_upgrade_commands() {
    assert_eq!(command_of("pacman", Action::Update, ""), owned("sudo", &["pacman", "-Sy", "--noconfirm"]));
    assert_eq!(command_of("dnf", Action::Upgrade, ""), owned("sudo", &["dnf", "upgrade", "-y"]));
    assert_eq!(command_of("zypper", Action::Upgrade, ""), owned("sudo", &["zypper", "update"]));
    assert_eq!(command_of("flatpak", Action::Upgrade, ""), None);
    assert_eq!(command_of("flatpak", Action::Cleanup, ""), None);
    assert_eq!(command_of("apt", Action::Cleanup, ""), owned("sudo", &["apt", "autoremove"]));
    assert_eq!(command_of("apt", Action::UpgradePackage, "vim"), owned("sudo", &["apt", "install", "--only-upgrade", "vim"]));
    assert_eq!(command_of("pacman", Action::UpgradePackage, "vim"), owned("sudo", &["pacman", "-S", "--noconfirm", "vim"]));
    assert_eq!(command_of("yay", Action::UpgradePackage, "vim"), owned("yay", &["-S", "--needed", "vim"]));
    assert_eq!(command_of("flatpak", Action::UpgradePackage, "gimp"), owned("flatpak", &["update", "gimp"]));
    assert_eq!(command_of("dnf", Action::UpgradePackage, "vim"), owned("sudo", &["dnf", "upgrade", "vim"]));
    assert_eq!(command_of("zypper", Action::UpgradePackage, "vim"), owned("sudo", &["zypper", "update", "vim"]));
}

#[test]
fn query_commands() {
    assert_eq!(command_of("apt", Action::Search, "vim"), owned("apt", &["search", "vim"]));
    assert_eq!(command_of("yay", Action::IsInstalled, "vim"), owned("pacman", &["-Q", "vim"]));
    assert_eq!(command_of("flatpak", Action::IsInstalled, "vim"), owned("flatpak", &["list"]));
    assert_eq!(command_of("yay", Action::ListInstalled, ""), owned("pacman", &["-Q"]));
    assert_eq!(command_of("apt", Action::ListInstalled, ""), owned("dpkg", &["-l"]));
    assert_eq!(command_of("brew", Action::Install, "vim"), None);
}
