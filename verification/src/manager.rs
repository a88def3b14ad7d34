//! The package managers: which ones exist, their priorities, and how their output is read.
use vstd::prelude::*;
use vstd::utf8::encode_utf8;
use crate::ranking::{fuzzy_of, fuzzy_score};
use crate::search::{package_views, PackageView, UnifiedPackage};
use crate::sort::{sorted_desc, stable_sort_desc, SortKey};
use crate::text::{
    begins_with, chars_of, copy_chars, decode_lossy, decoded_text, first_piece, last_piece, lines,
    lower_text, occurs, occurs_in, pieces, same_chars, same_text, split_lines, split_pieces,
    split_words, string_of, string_views, strings_of, text_less, text_lt, to_lowercase, trim,
    trim_chars, views, words, Sep,
};

verus! {

/// A package manager.
#[derive(Debug, Clone, Copy)]
pub struct Manager {
    pub name: &'static str,
    pub priority: i32,
}

/// The package managers this tool knows.
#[derive(Debug, Clone, Copy, PartialEq, Eq, Structural)]
pub enum ManagerKind {
    Apt,
    Pacman,
    Yay,
    Dnf,
    Zypper,
    Flatpak,
}

/// The known package manager of a name, if any.
pub open spec fn kind_of(name: Seq<char>) -> Option<ManagerKind> {
    if name == "apt"@ {
        Some(ManagerKind::Apt)
    } else if name == "pacman"@ {
        Some(ManagerKind::Pacman)
    } else if name == "yay"@ {
        Some(ManagerKind::Yay)
    } else if name == "dnf"@ {
        Some(ManagerKind::Dnf)
    } else if name == "zypper"@ {
        Some(ManagerKind::Zypper)
    } else if name == "flatpak"@ {
        Some(ManagerKind::Flatpak)
    } else {
        None
    }
}

/// The known package manager of a name, if any.
pub fn manager_kind(name: &str) -> (k: Option<ManagerKind>)
    ensures
        k == kind_of(name@),
{
    if same_text(name, "apt") {
        Some(ManagerKind::Apt)
    } else if same_text(name, "pacman") {
        Some(ManagerKind::Pacman)
    } else if same_text(name, "yay") {
        Some(ManagerKind::Yay)
    } else if same_text(name, "dnf") {
        Some(ManagerKind::Dnf)
    } else if same_text(name, "zypper") {
        Some(ManagerKind::Zypper)
    } else if same_text(name, "flatpak") {
        Some(ManagerKind::Flatpak)
    } else {
        None
    }
}

// ---------------------------------------------------------------------------------------------
// The managers and their order.
// ---------------------------------------------------------------------------------------------

/// The managers that may be installed, in the order of the list the tool starts from.
pub open spec fn candidate_managers() -> Seq<Manager> {
    seq![
        Manager { name: "apt", priority: 100 },
        Manager { name: "pacman", priority: 90 },
        Manager { name: "yay", priority: 80 },
        Manager { name: "dnf", priority: 70 },
        Manager { name: "zypper", priority: 60 },
        Manager { name: "flatpak", priority: 50 },
    ]
}

/// The sort key of a manager: its priority.
pub open spec fn priority_key(m: Manager) -> SortKey {
    (m.priority as int, 0, 0)
}

/// The elements of `s` whose flag in `keep` is set, in order.
pub open spec fn select<T>(s: Seq<T>, keep: Seq<bool>) -> Seq<T>
    decreases s.len(),
{
    if s.len() == 0 {
        s
    } else {
        let rest = select(s.drop_last(), keep.take(s.len() - 1));
        if keep[s.len() - 1] {
            rest.push(s.last())
        } else {
            rest
        }
    }
}

/// Returns every available package manager, sorted by descending priority. Whether a
/// manager is available is asked of `is_available` (in the tool: whether its program is on
/// the `PATH`), once per manager in that order.
pub fn get_managers<F: Fn(&Manager) -> bool>(is_available: F) -> (r: Vec<Manager>)
    requires
        forall|m: &Manager| is_available.requires((m,)),
    ensures
        exists|keep: Seq<bool>|
            #![trigger select(candidate_managers(), keep)]
            keep.len() == candidate_managers().len() && (forall|i: int|
                0 <= i < keep.len() ==> is_available.ensures(
                    (&candidate_managers()[i],),
                    #[trigger] keep[i],
                )) && r@ == select(candidate_managers(), keep),
        forall|i: int, j: int| 0 <= i < j < r.len() ==> r[i].priority >= r[j].priority,
{
    let managers = vec![
        Manager { name: "apt", priority: 100 },
        Manager { name: "pacman", priority: 90 },
        Manager { name: "yay", priority: 80 },
        Manager { name: "dnf", priority: 70 },
        Manager { name: "zypper", priority: 60 },
        Manager { name: "flatpak", priority: 50 },
    ];
    let mut keys: Vec<(i128, i128, i128)> = Vec::new();
    for i in 0..managers.len()
        invariant
            keys.len() == i,
            forall|j: int|
                0 <= j < i ==> crate::sort::key_value(#[trigger] keys[j]) == priority_key(managers[j]),
    {
        keys.push((managers[i].priority as i128, 0, 0));
    }
    proof {
        assert(managers@ =~= candidate_managers());
        assert(sorted_desc(candidate_managers(), |m: Manager| priority_key(m)));
    }
    let sorted = stable_sort_desc(managers, keys, Ghost(|m: Manager| priority_key(m)));
    assert(sorted@ == candidate_managers());
    let ghost cands = candidate_managers();
    let mut r: Vec<Manager> = Vec::new();
    let ghost mut keep: Seq<bool> = Seq::empty();
    for i in 0..sorted.len()
        invariant
            sorted@ == cands,
            cands == candidate_managers(),
            forall|m: &Manager| is_available.requires((m,)),
            keep.len() == i,
            forall|j: int| 0 <= j < i ==> is_available.ensures((&cands[j],), #[trigger] keep[j]),
            r@ == select(cands.take(i as int), keep),
            forall|a: int, b: int| 0 <= a < b < r.len() ==> r[a].priority >= r[b].priority,
            forall|a: int| 0 <= a < r.len() ==> r[a].priority >= (if i < cands.len() { cands[i as int].priority as int } else { 0 }),
    {
        let m = sorted[i];
        let available = is_available(&m);
        let ghost old_keep = keep;
        proof {
            keep = keep.push(available);
            assert(cands.take(i + 1).drop_last() =~= cands.take(i as int));
            assert(keep.take(i as int) =~= old_keep);
        }
        if available {
            r.push(m);
        }
    }
    proof {
        assert(cands.take(cands.len() as int) =~= cands);
    }
    r
}

// ---------------------------------------------------------------------------------------------
// The distribution.
// ---------------------------------------------------------------------------------------------

/// The distribution description of `/etc/os-release` (its contents, `None` where it could not
/// be read): the text in lowercase, empty without one.
pub fn detect_distro(os_release: Option<String>) -> (d: String)
    ensures
        d@ == lower_text(
            match os_release {
                Some(t) => t@,
                None => Seq::<char>::empty(),
            },
        ),
{
    let text = match os_release {
        Some(t) => t,
        None => String::new(),
    };
    to_lowercase(text.as_str())
}

/// The priority of a manager on a distribution described by `os` (the lowercase text of
/// `/etc/os-release`).
pub open spec fn distro_priority(os: Seq<char>, manager: Seq<char>) -> int {
    if occurs_in(os, "arch"@) {
        if manager == "pacman"@ {
            1000
        } else if manager == "yay"@ {
            900
        } else if manager == "flatpak"@ {
            100
        } else {
            0
        }
    } else if occurs_in(os, "ubuntu"@) || occurs_in(os, "debian"@) {
        if manager == "apt"@ {
            1000
        } else if manager == "flatpak"@ {
            500
        } else {
            0
        }
    } else {
        0
    }
}

/// The order of managers on a distribution: on Arch pacman before yay before flatpak before
/// every other manager; on Ubuntu and Debian (not Arch) apt before flatpak before every other
/// manager; elsewhere all managers are equal.
pub proof fn law_distro_preferences(os: Seq<char>, m: Seq<char>)
    ensures
        occurs_in(os, "arch"@) ==> distro_priority(os, "pacman"@) > distro_priority(os, "yay"@)
            && distro_priority(os, "yay"@) > distro_priority(os, "flatpak"@)
            && (m != "pacman"@ && m != "yay"@ && m != "flatpak"@ ==> distro_priority(os, "flatpak"@)
            > distro_priority(os, m)),
        !occurs_in(os, "arch"@) && (occurs_in(os, "ubuntu"@) || occurs_in(os, "debian"@))
            ==> distro_priority(os, "apt"@) > distro_priority(os, "flatpak"@) && (m != "apt"@ && m
            != "flatpak"@ ==> distro_priority(os, "flatpak"@) > distro_priority(os, m)),
        !occurs_in(os, "arch"@) && !occurs_in(os, "ubuntu"@) && !occurs_in(os, "debian"@)
            ==> distro_priority(os, m) == 0,
{
    reveal_strlit("pacman");
    reveal_strlit("yay");
    reveal_strlit("flatpak");
    reveal_strlit("apt");
    assert("pacman"@[0] != "yay"@[0]);
    assert("pacman"@[0] != "flatpak"@[0]);
    assert("yay"@[0] != "flatpak"@[0]);
    assert("apt"@[0] != "yay"@[0]);
}

/// The priority of a manager on the distribution described by `os` (what `detect_distro`
/// returns): on Arch pacman, yay, then flatpak; on Ubuntu and Debian apt, then flatpak;
/// 0 for every other manager and distribution.
pub fn manager_priority(os: &str, manager: &str) -> (p: i64)
    ensures
        p == distro_priority(os@, manager@),
{
    let o = chars_of(os);
    if occurs(&o, &chars_of("arch")) {
        if same_text(manager, "pacman") {
            1000
        } else if same_text(manager, "yay") {
            900
        } else if same_text(manager, "flatpak") {
            100
        } else {
            0
        }
    } else if occurs(&o, &chars_of("ubuntu")) || occurs(&o, &chars_of("debian")) {
        if same_text(manager, "apt") {
            1000
        } else if same_text(manager, "flatpak") {
            500
        } else {
            0
        }
    } else {
        0
    }
}


// ---------------------------------------------------------------------------------------------
// Reading the output of a search.
// ---------------------------------------------------------------------------------------------

/// The package name on a line of a manager's search output: apt prints `name/suite ...`;
/// pacman and yay `repo/name version`; dnf `name.arch : summary`; flatpak and zypper start
/// the line with the name.
pub open spec fn search_name(kind: ManagerKind, line: Seq<char>) -> Option<Seq<char>> {
    match kind {
        ManagerKind::Apt => Some(first_piece(line, Sep::Ch('/'))),
        ManagerKind::Pacman | ManagerKind::Yay => if words(line).len() > 0 {
            Some(last_piece(words(line)[0], Sep::Ch('/')))
        } else {
            None
        },
        ManagerKind::Dnf => if words(line).len() > 0 {
            Some(first_piece(words(line)[0], Sep::Ch('.')))
        } else {
            None
        },
        ManagerKind::Flatpak | ManagerKind::Zypper => if words(line).len() > 0 {
            Some(words(line)[0])
        } else {
            None
        },
    }
}

/// The boost of a (lowercase) name for a (lowercase) query: 1000 for the query itself, 500
/// for a name that begins with it, 200 for one that contains it.
pub open spec fn match_boost(query_lc: Seq<char>, name_lc: Seq<char>) -> int {
    if name_lc == query_lc {
        1000
    } else if query_lc.is_prefix_of(name_lc) {
        500
    } else if occurs_in(name_lc, query_lc) {
        200
    } else {
        0
    }
}

/// The score of a lowercase name given its fuzzy score: fuzzy score plus boost, less a tenth
/// (rounded down) of the name's length in UTF-8 bytes.
pub open spec fn hit_score_of(query_lc: Seq<char>, name_lc: Seq<char>, fuzzy: int) -> int {
    fuzzy + match_boost(query_lc, name_lc) - encode_utf8(name_lc).len() / 10
}

/// The search hit of one output line, if the line names a package that scores at least 50.
pub open spec fn search_hit(
    kind: ManagerKind,
    manager: Seq<char>,
    query_lc: Seq<char>,
    line: Seq<char>,
) -> Option<PackageView> {
    match search_name(kind, line) {
        Some(name) => {
            let name_lc = lower_text(name);
            let score = hit_score_of(query_lc, name_lc, fuzzy_of(query_lc, name_lc));
            if score >= 50 {
                Some(PackageView { name: name, real_name: name, manager: manager, score: score })
            } else {
                None
            }
        },
        None => None,
    }
}

/// The search hits of the given output lines, in order.
pub open spec fn search_hits(
    kind: ManagerKind,
    manager: Seq<char>,
    query_lc: Seq<char>,
    ls: Seq<Seq<char>>,
) -> Seq<PackageView>
    decreases ls.len(),
{
    if ls.len() == 0 {
        Seq::empty()
    } else {
        let rest = search_hits(kind, manager, query_lc, ls.drop_last());
        match search_hit(kind, manager, query_lc, ls.last()) {
            Some(p) => rest.push(p),
            None => rest,
        }
    }
}

/// The hits of a search for `pkg` in the output text of manager `manager`.
pub open spec fn search_text_hits(manager: Seq<char>, pkg: Seq<char>, text: Seq<char>) -> Seq<PackageView> {
    match kind_of(manager) {
        Some(kind) => search_hits(kind, manager, lower_text(pkg), lines(text)),
        None => Seq::empty(),
    }
}

/// Every search hit scores at least 50 and names the manager that found it.
pub proof fn law_search_hits_score_at_least_50(
    kind: ManagerKind,
    manager: Seq<char>,
    query_lc: Seq<char>,
    ls: Seq<Seq<char>>,
)
    ensures
        forall|i: int| 0 <= i < search_hits(kind, manager, query_lc, ls).len() ==> {
            let h = #[trigger] search_hits(kind, manager, query_lc, ls)[i];
            h.score >= 50 && h.manager == manager && h.name == h.real_name
        },
    decreases ls.len(),
{
    if ls.len() > 0 {
        law_search_hits_score_at_least_50(kind, manager, query_lc, ls.drop_last());
        let rest = search_hits(kind, manager, query_lc, ls.drop_last());
        let all = search_hits(kind, manager, query_lc, ls);
        match search_hit(kind, manager, query_lc, ls.last()) {
            Some(p) => {
                assert(all == rest.push(p));
                assert forall|i: int| 0 <= i < all.len() implies {
                    let h = #[trigger] all[i];
                    h.score >= 50 && h.manager == manager && h.name == h.real_name
                } by {
                    if i < rest.len() {
                        assert(all[i] == rest[i]);
                    }
                }
            },
            None => {
                assert(all == rest);
            },
        }
    }
}

fn first_word(line: &Vec<char>) -> (r: Option<Vec<char>>)
    ensures
        r matches Some(w) ==> words(line@).len() > 0 && w@ == words(line@)[0],
        r is None ==> words(line@).len() == 0,
{
    let ws = split_words(line);
    if ws.len() > 0 {
        assert(views(ws@)[0] == ws@[0]@);
        Some(copy_chars(&ws[0]))
    } else {
        None
    }
}

fn first_part(s: &Vec<char>, sep: char) -> (r: Vec<char>)
    ensures
        r@ == first_piece(s@, Sep::Ch(sep)),
{
    let ps = split_pieces(s, Sep::Ch(sep));
    proof {
        crate::text::lemma_pieces_len(s@, Sep::Ch(sep));
        assert(views(ps@)[0] == ps@[0]@);
    }
    copy_chars(&ps[0])
}

fn last_part(s: &Vec<char>, sep: char) -> (r: Vec<char>)
    ensures
        r@ == last_piece(s@, Sep::Ch(sep)),
{
    let ps = split_pieces(s, Sep::Ch(sep));
    proof {
        crate::text::lemma_pieces_len(s@, Sep::Ch(sep));
        assert(views(ps@)[ps.len() - 1] == ps@[ps.len() - 1]@);
    }
    copy_chars(&ps[ps.len() - 1])
}

/// yay reads a search line as pacman does.
pub proof fn law_yay_search_names_as_pacman(line: Seq<char>)
    ensures
        search_name(ManagerKind::Yay, line) == search_name(ManagerKind::Pacman, line),
{
}

/// pacman and yay print `repo/name version`: the name read from a search line is what
/// follows the last `/` of the line's first word (the whole word where it has none), and it
/// never holds a `/`.
pub proof fn law_repo_prefix_split_off(kind: ManagerKind, line: Seq<char>)
    requires
        kind == ManagerKind::Pacman || kind == ManagerKind::Yay,
    ensures
        words(line).len() == 0 ==> search_name(kind, line) is None,
        words(line).len() > 0 ==> (search_name(kind, line) matches Some(n) && {
            let w = words(line)[0];
            &&& n.len() <= w.len()
            &&& n == w.subrange(w.len() - n.len(), w.len() as int)
            &&& forall|j: int| 0 <= j < n.len() ==> #[trigger] n[j] != '/'
            &&& (n.len() == w.len() || w[w.len() - n.len() - 1] == '/')
        }),
{
    if words(line).len() > 0 {
        crate::text::lemma_last_piece_follows_last_sep(words(line)[0], '/');
    }
}

/// apt prints `name/suite ...`: the name is what comes before the first `/` of the line (the
/// whole line where it has none). dnf prints `name.arch : summary`: the name is what comes
/// before the first `.` of the first word. flatpak and zypper: the first word.
pub proof fn law_search_name_formats(line: Seq<char>)
    ensures
        search_name(ManagerKind::Apt, line) matches Some(n) && n.len() <= line.len() && n
            == line.subrange(0, n.len() as int) && (forall|j: int| 0 <= j < n.len() ==> #[trigger] n[j] != '/')
            && (n.len() == line.len() || line[n.len() as int] == '/'),
        words(line).len() == 0 ==> search_name(ManagerKind::Dnf, line) is None,
        words(line).len() > 0 ==> (search_name(ManagerKind::Dnf, line) matches Some(n) && {
            let w = words(line)[0];
            &&& n.len() <= w.len()
            &&& n == w.subrange(0, n.len() as int)
            &&& forall|j: int| 0 <= j < n.len() ==> #[trigger] n[j] != '.'
            &&& (n.len() == w.len() || w[n.len() as int] == '.')
        }),
        words(line).len() == 0 ==> search_name(ManagerKind::Flatpak, line) is None
            && search_name(ManagerKind::Zypper, line) is None,
        words(line).len() > 0 ==> search_name(ManagerKind::Flatpak, line) == Some(words(line)[0])
            && search_name(ManagerKind::Zypper, line) == Some(words(line)[0]),
{
    crate::text::lemma_first_piece_before_first_sep(line, '/');
    if words(line).len() > 0 {
        crate::text::lemma_first_piece_before_first_sep(words(line)[0], '.');
    }
}

/// The boost orders how a name matches the query: the query itself gets the most (1000), a
/// longer name that begins with it less (500), a name that holds it elsewhere less again
/// (200), and a name that does not hold it nothing.
pub proof fn law_match_boost_order(query_lc: Seq<char>, name_lc: Seq<char>, rest: Seq<char>, k: int)
    ensures
        match_boost(query_lc, query_lc) == 1000,
        rest.len() > 0 ==> match_boost(query_lc, query_lc + rest) == 500,
        0 <= k && k + query_lc.len() <= name_lc.len() && name_lc.subrange(k, k + query_lc.len())
            == query_lc && !query_lc.is_prefix_of(name_lc) ==> match_boost(query_lc, name_lc) == 200,
        !occurs_in(name_lc, query_lc) ==> match_boost(query_lc, name_lc) == 0,
        match_boost(query_lc, name_lc) >= 0,
        match_boost(query_lc, name_lc) <= match_boost(query_lc, query_lc),
{
    if rest.len() > 0 {
        let n = query_lc + rest;
        assert(n.len() != query_lc.len());
        assert(n.subrange(0, query_lc.len() as int) =~= query_lc);
    }
    if 0 <= k && k + query_lc.len() <= name_lc.len() && name_lc.subrange(k, k + query_lc.len()) == query_lc
        && !query_lc.is_prefix_of(name_lc) {
        assert(occurs_in(name_lc, query_lc));
        if name_lc == query_lc {
            assert(name_lc.subrange(0, query_lc.len() as int) =~= name_lc);
        }
    }
    if !occurs_in(name_lc, query_lc) && query_lc.is_prefix_of(name_lc) {
        let z: int = 0;
        assert(name_lc.subrange(z, z + query_lc.len()) =~= query_lc);
        assert(occurs_in(name_lc, query_lc));
    }
}

fn search_name_of(kind: ManagerKind, line: &Vec<char>) -> (r: Option<Vec<char>>)
    ensures
        r matches Some(n) ==> search_name(kind, line@) == Some(n@),
        r is None ==> search_name(kind, line@) is None,
{
    match kind {
        ManagerKind::Apt => Some(first_part(line, '/')),
        ManagerKind::Pacman | ManagerKind::Yay => match first_word(line) {
            Some(w) => Some(last_part(&w, '/')),
            None => None,
        },
        ManagerKind::Dnf => match first_word(line) {
            Some(w) => Some(first_part(&w, '.')),
            None => None,
        },
        ManagerKind::Flatpak | ManagerKind::Zypper => first_word(line),
    }
}

/// The score of a lowercase name found for a lowercase query, given the fuzzy score of the
/// pair: an exact match gains 1000, a name beginning with the query 500, a name containing it
/// 200; a tenth of the name's length in bytes is taken off.
pub fn hit_score(query_lc: &str, name_lc: &str, fuzzy: i64) -> (s: i64)
    requires
        i32::MIN <= fuzzy <= i32::MAX,
    ensures
        s == hit_score_of(query_lc@, name_lc@, fuzzy as int),
{
    let q = chars_of(query_lc);
    let n = chars_of(name_lc);
    let mut score = fuzzy;
    if same_chars(&n, &q) {
        score = score + 1000;
    } else if begins_with(&n, &q) {
        score = score + 500;
    } else if occurs(&n, &q) {
        score = score + 200;
    }
    let len = name_lc.as_bytes().len();
    score = score - (len / 10) as i64;
    score
}

impl Manager {
    /// Reads the hits of a search for `pkg` from the text this manager printed: one
    /// candidate name per line, scored against the lowercase query; names that score at
    /// least 50 are kept, in the order of the lines. Unknown managers find nothing.
    pub fn search_hits_in_text(&self, pkg: &str, text: &str) -> (r: Vec<UnifiedPackage>)
        ensures
            package_views(r@) == search_text_hits(self.name@, pkg@, text@),
    {
        let kind = match manager_kind(self.name) {
            Some(k) => k,
            None => {
                return Vec::new();
            },
        };
        let query = to_lowercase(pkg);
        let ls = split_lines(&chars_of(text));
        let ghost lv = views(ls@);
        let mut out: Vec<UnifiedPackage> = Vec::new();
        for i in 0..ls.len()
            invariant
                lv == views(ls@),
                lv == lines(text@),
                kind_of(self.name@) == Some(kind),
                query@ == lower_text(pkg@),
                package_views(out@) == search_hits(kind, self.name@, query@, lv.take(i as int)),
        {
            proof {
                assert(lv.take(i + 1).drop_last() =~= lv.take(i as int));
                assert(lv.take(i + 1).last() == lv[i as int]);
                assert(lv[i as int] == ls@[i as int]@);
            }
            let ghost before = out@;
            match search_name_of(kind, &ls[i]) {
                Some(n) => {
                    let name = string_of(&n);
                    let name_lc = to_lowercase(name.as_str());
                    let fuzzy = fuzzy_score(query.as_str(), name_lc.as_str());
                    let score = hit_score(query.as_str(), name_lc.as_str(), fuzzy);
                    if score >= 50 {
                        let hit = UnifiedPackage {
                            name: name.clone(),
                            real_name: name,
                            manager: String::from_str(self.name),
                            score,
                        };
                        out.push(hit);
                        proof {
                            assert(package_views(out@) =~= package_views(before).push(hit@));
                        }
                    }
                },
                None => {},
            }
        }
        proof {
            assert(lv.take(ls.len() as int) =~= lv);
        }
        out
    }

    /// Reads the hits of a search for `pkg` from the bytes this manager printed, decoded as
    /// UTF-8 with invalid sequences replaced.
    pub fn search_hits_in_output(&self, pkg: &str, stdout: &[u8]) -> (r: Vec<UnifiedPackage>)
        ensures
            package_views(r@) == search_text_hits(self.name@, pkg@, decoded_text(stdout@)),
    {
        let text = decode_lossy(stdout);
        self.search_hits_in_text(pkg, text.as_str())
    }

    /// Whether the output of the installed-check reports `pkg` as installed: the output names
    /// the package (`pacman -Q vim` prints `vim 9.1.0-1`), compared in lowercase. Unknown
    /// managers report nothing.
    pub fn installed_in_output(&self, pkg: &str, stdout: &[u8]) -> (r: bool)
        ensures
            r == (kind_of(self.name@) is Some && occurs_in(
                lower_text(decoded_text(stdout@)),
                lower_text(pkg@),
            )),
    {
        if manager_kind(self.name).is_none() {
            return false;
        }
        let text = decode_lossy(stdout);
        let out = chars_of(to_lowercase(text.as_str()).as_str());
        let name = chars_of(to_lowercase(pkg).as_str());
        occurs(&out, &name)
    }
}


// ---------------------------------------------------------------------------------------------
// Reading the list of installed packages.
// ---------------------------------------------------------------------------------------------

/// The package name on a line of a manager's list of installed packages: dpkg marks
/// installed packages with `ii` and prints the name as the second word; pacman, yay and
/// flatpak start the line with the name; dnf prints `name.arch`; zypper prints a table
/// `S | Name | Summary | Type` whose installed rows have a status beginning with `i` and the
/// name in the second column.
pub open spec fn listed_name(kind: ManagerKind, line: Seq<char>) -> Option<Seq<char>> {
    match kind {
        ManagerKind::Apt => if "ii"@.is_prefix_of(line) && words(line).len() > 1 {
            Some(words(line)[1])
        } else {
            None
        },
        ManagerKind::Pacman | ManagerKind::Yay | ManagerKind::Flatpak => if words(line).len() > 0 {
            Some(words(line)[0])
        } else {
            None
        },
        ManagerKind::Dnf => if words(line).len() > 0 {
            Some(first_piece(words(line)[0], Sep::Ch('.')))
        } else {
            None
        },
        ManagerKind::Zypper => if pieces(line, Sep::Ch('|')).len() > 1 && "i"@.is_prefix_of(
            trim(pieces(line, Sep::Ch('|'))[0]),
        ) {
            Some(trim(pieces(line, Sep::Ch('|'))[1]))
        } else {
            None
        },
    }
}

/// How each manager's list of installed packages is read: dpkg lines not marked `ii` name
/// no package, and a marked line names its second word; pacman, yay and flatpak read a line
/// alike, as its first word; dnf names what comes before the first `.` of the first word; a
/// zypper row whose status column does not begin with `i` names no package, and an installed
/// row names its second column.
pub proof fn law_installed_list_formats(line: Seq<char>)
    ensures
        !"ii"@.is_prefix_of(line) ==> listed_name(ManagerKind::Apt, line) is None,
        "ii"@.is_prefix_of(line) && words(line).len() > 1 ==> listed_name(ManagerKind::Apt, line)
            == Some(words(line)[1]),
        listed_name(ManagerKind::Pacman, line) == listed_name(ManagerKind::Yay, line),
        listed_name(ManagerKind::Pacman, line) == listed_name(ManagerKind::Flatpak, line),
        words(line).len() > 0 ==> listed_name(ManagerKind::Pacman, line) == Some(words(line)[0]),
        words(line).len() == 0 ==> listed_name(ManagerKind::Pacman, line) is None
            && listed_name(ManagerKind::Dnf, line) is None,
        words(line).len() > 0 ==> (listed_name(ManagerKind::Dnf, line) matches Some(n) && {
            let w = words(line)[0];
            &&& n == w.subrange(0, n.len() as int)
            &&& forall|j: int| 0 <= j < n.len() ==> #[trigger] n[j] != '.'
            &&& (n.len() == w.len() || w[n.len() as int] == '.')
        }),
        !"i"@.is_prefix_of(trim(pieces(line, Sep::Ch('|'))[0])) ==> listed_name(ManagerKind::Zypper, line)
            is None,
        pieces(line, Sep::Ch('|')).len() > 1 && "i"@.is_prefix_of(trim(pieces(line, Sep::Ch('|'))[0]))
            ==> listed_name(ManagerKind::Zypper, line) == Some(trim(pieces(line, Sep::Ch('|'))[1])),
{
    if words(line).len() > 0 {
        crate::text::lemma_first_piece_before_first_sep(words(line)[0], '.');
    }
}

/// The names on the given lines, in order.
pub open spec fn listed_names(kind: ManagerKind, ls: Seq<Seq<char>>) -> Seq<Seq<char>>
    decreases ls.len(),
{
    if ls.len() == 0 {
        Seq::empty()
    } else {
        let rest = listed_names(kind, ls.drop_last());
        match listed_name(kind, ls.last()) {
            Some(n) => rest.push(n),
            None => rest,
        }
    }
}

/// The installed packages that manager `manager` lists in the text.
pub open spec fn installed_names(manager: Seq<char>, text: Seq<char>) -> Set<Seq<char>> {
    match kind_of(manager) {
        Some(kind) => listed_names(kind, lines(text)).to_set(),
        None => Set::empty(),
    }
}

/// Each element comes strictly before the next in the order of strings.
pub open spec fn strictly_ascending(s: Seq<Seq<char>>) -> bool {
    forall|i: int, j: int| 0 <= i < j < s.len() ==> text_lt(#[trigger] s[i], #[trigger] s[j])
}

fn insert_sorted_unique(acc: &mut Vec<Vec<char>>, n: Vec<char>)
    requires
        strictly_ascending(views(old(acc)@)),
    ensures
        strictly_ascending(views(final(acc)@)),
        views(final(acc)@).to_set() == views(old(acc)@).to_set().insert(n@),
{
    let ghost av = views(acc@);
    let mut p: usize = 0;
    while p < acc.len() && text_less(&acc[p], &n)
        invariant
            p <= acc.len(),
            av == views(acc@),
            forall|j: int| 0 <= j < p ==> text_lt(#[trigger] av[j], n@),
        decreases acc.len() - p,
    {
        assert(av[p as int] == acc@[p as int]@);
        p = p + 1;
    }
    if p < acc.len() {
        assert(av[p as int] == acc@[p as int]@);
        if same_chars(&acc[p], &n) {
            proof {
                assert(av.to_set().contains(av[p as int]));
                assert(av.to_set().insert(n@) =~= av.to_set());
            }
            return;
        }
        proof {
            crate::text::lemma_text_lt_total(av[p as int], n@);
        }
    }
    acc.insert(p, n);
    proof {
        let nv = views(acc@);
        assert(nv =~= av.insert(p as int, n@));
        assert forall|a: int, b: int| 0 <= a < b < nv.len() implies text_lt(#[trigger] nv[a], #[trigger] nv[b]) by {
            if a < p && b == p {
            } else if a < p && b > p {
                assert(nv[b] == av[b - 1]);
            } else if a == p {
                assert(nv[b] == av[b - 1]);
                if b - 1 > p {
                    crate::text::lemma_text_lt_transitive(n@, av[p as int], av[b - 1]);
                }
            } else if a > p {
                assert(nv[a] == av[a - 1]);
                assert(nv[b] == av[b - 1]);
            }
        }
        assert forall|x: Seq<char>| nv.to_set().contains(x) <==> av.to_set().insert(n@).contains(x) by {
            if nv.to_set().contains(x) {
                let k = choose|k: int| 0 <= k < nv.len() && nv[k] == x;
                if k < p {
                    assert(av[k] == x);
                } else if k > p {
                    assert(av[k - 1] == x);
                }
            }
            if av.to_set().contains(x) {
                let k = choose|k: int| 0 <= k < av.len() && av[k] == x;
                if k < p {
                    assert(nv[k] == x);
                } else {
                    assert(nv[k + 1] == x);
                }
            }
            if x == n@ {
                assert(nv[p as int] == x);
            }
        }
        assert(nv.to_set() =~= av.to_set().insert(n@));
    }
}

fn listed_name_of(kind: ManagerKind, line: &Vec<char>) -> (r: Option<Vec<char>>)
    ensures
        r matches Some(n) ==> listed_name(kind, line@) == Some(n@),
        r is None ==> listed_name(kind, line@) is None,
{
    match kind {
        ManagerKind::Apt => {
            let ii = chars_of("ii");
            if begins_with(line, &ii) {
                let ws = split_words(line);
                if ws.len() > 1 {
                    assert(views(ws@)[1] == ws@[1]@);
                    Some(copy_chars(&ws[1]))
                } else {
                    None
                }
            } else {
                None
            }
        },
        ManagerKind::Pacman | ManagerKind::Yay | ManagerKind::Flatpak => first_word(line),
        ManagerKind::Dnf => match first_word(line) {
            Some(w) => Some(first_part(&w, '.')),
            None => None,
        },
        ManagerKind::Zypper => {
            let cols = split_pieces(line, Sep::Ch('|'));
            if cols.len() > 1 {
                assert(views(cols@)[0] == cols@[0]@);
                assert(views(cols@)[1] == cols@[1]@);
                let status = trim_chars(&cols[0]);
                if begins_with(&status, &chars_of("i")) {
                    Some(trim_chars(&cols[1]))
                } else {
                    None
                }
            } else {
                None
            }
        },
    }
}

impl Manager {
    /// Reads the installed packages from the list this manager printed: one name per line,
    /// sorted, each name once. Unknown managers list nothing.
    pub fn installed_in_text(&self, text: &str) -> (r: Vec<String>)
        ensures
            strictly_ascending(string_views(r@)),
            string_views(r@).to_set() == installed_names(self.name@, text@),
    {
        let kind = match manager_kind(self.name) {
            Some(k) => k,
            None => {
                let empty: Vec<String> = Vec::new();
                proof {
                    assert(string_views(empty@).to_set() =~= Set::<Seq<char>>::empty());
                }
                return empty;
            },
        };
        let ls = split_lines(&chars_of(text));
        let ghost lv = views(ls@);
        let mut acc: Vec<Vec<char>> = Vec::new();
        proof {
            assert(lv.take(0) =~= Seq::<Seq<char>>::empty());
            assert(views(acc@).to_set() =~= listed_names(kind, lv.take(0)).to_set());
        }
        for i in 0..ls.len()
            invariant
                lv == views(ls@),
                lv == lines(text@),
                kind_of(self.name@) == Some(kind),
                strictly_ascending(views(acc@)),
                views(acc@).to_set() == listed_names(kind, lv.take(i as int)).to_set(),
        {
            proof {
                assert(lv.take(i + 1).drop_last() =~= lv.take(i as int));
                assert(lv.take(i + 1).last() == lv[i as int]);
                assert(lv[i as int] == ls@[i as int]@);
            }
            match listed_name_of(kind, &ls[i]) {
                Some(n) => {
                    let ghost nv = n@;
                    insert_sorted_unique(&mut acc, n);
                    proof {
                        listed_names(kind, lv.take(i as int)).lemma_push_to_set_commute(nv);
                    }
                },
                None => {},
            }
        }
        proof {
            assert(lv.take(ls.len() as int) =~= lv);
        }
        strings_of(&acc)
    }

    /// Reads the installed packages from the bytes this manager printed, decoded as UTF-8
    /// with invalid sequences replaced.
    pub fn installed_in_list_output(&self, stdout: &[u8]) -> (r: Vec<String>)
        ensures
            strictly_ascending(string_views(r@)),
            string_views(r@).to_set() == installed_names(self.name@, decoded_text(stdout@)),
    {
        let text = decode_lossy(stdout);
        self.installed_in_text(text.as_str())
    }
}


// ---------------------------------------------------------------------------------------------
// The commands run for each manager.
// ---------------------------------------------------------------------------------------------

/// A program to run and its arguments.
pub struct CommandLine {
    pub program: String,
    pub args: Vec<String>,
}

/// A command: the program and its arguments.
pub type CommandText = (Seq<char>, Seq<Seq<char>>);

impl View for CommandLine {
    type V = CommandText;

    open spec fn view(&self) -> CommandText {
        (self.program@, string_views(self.args@))
    }
}

/// The actions that run a manager's program.
#[derive(Debug, Clone, Copy, PartialEq, Eq, Structural)]
pub enum Action {
    /// Install a package.
    Install,
    /// Remove a package.
    Remove,
    /// Refresh the package lists (or update, where the manager does both at once).
    Update,
    /// Upgrade the whole system.
    Upgrade,
    /// Remove what is no longer needed.
    Cleanup,
    /// Upgrade one package.
    UpgradePackage,
    /// Search for packages.
    Search,
    /// Check whether a package is installed.
    IsInstalled,
    /// List the installed packages.
    ListInstalled,
}

/// The command a manager runs for an action on package `pkg` (ignored by the actions that
/// take no package); `None` where the manager has no such command.
pub open spec fn command_of(kind: ManagerKind, action: Action, pkg: Seq<char>) -> Option<CommandText> {
    match action {
        Action::Install => Some(match kind {
            ManagerKind::Apt => ("sudo"@, seq!["apt"@, "install"@, "-y"@, pkg]),
            ManagerKind::Pacman => ("sudo"@, seq!["pacman"@, "-S"@, "--noconfirm"@, pkg]),
            ManagerKind::Yay => ("yay"@, seq!["-S"@, "--noconfirm"@, pkg]),
            ManagerKind::Flatpak => ("flatpak"@, seq!["install"@, "-y"@, pkg]),
            ManagerKind::Dnf => ("sudo"@, seq!["dnf"@, "install"@, "-y"@, pkg]),
            ManagerKind::Zypper => ("sudo"@, seq!["zypper"@, "--non-interactive"@, "install"@, pkg]),
        }),
        Action::Remove => Some(match kind {
            ManagerKind::Apt => ("sudo"@, seq!["apt"@, "remove"@, "-y"@, pkg]),
            ManagerKind::Pacman => ("sudo"@, seq!["pacman"@, "-R"@, pkg]),
            ManagerKind::Yay => ("yay"@, seq!["-R"@, pkg]),
            ManagerKind::Flatpak => ("flatpak"@, seq!["uninstall"@, "-y"@, pkg]),
            ManagerKind::Dnf => ("sudo"@, seq!["dnf"@, "remove"@, "-y"@, pkg]),
            ManagerKind::Zypper => ("sudo"@, seq!["zypper"@, "--non-interactive"@, "remove"@, pkg]),
        }),
        Action::Update => Some(match kind {
            ManagerKind::Apt => ("sudo"@, seq!["apt"@, "update"@]),
            ManagerKind::Pacman => ("sudo"@, seq!["pacman"@, "-Sy"@, "--noconfirm"@]),
            ManagerKind::Yay => ("yay"@, seq!["-Sy"@, "--noconfirm"@]),
            ManagerKind::Flatpak => ("flatpak"@, seq!["update"@, "-y"@]),
            ManagerKind::Dnf => ("sudo"@, seq!["dnf"@, "upgrade"@, "-y"@]),
            ManagerKind::Zypper => ("sudo"@, seq!["zypper"@, "--non-interactive"@, "update"@]),
        }),
        Action::Upgrade => match kind {
            ManagerKind::Apt => Some(("sudo"@, seq!["apt"@, "upgrade"@])),
            ManagerKind::Pacman => Some(("sudo"@, seq!["pacman"@, "-Syu"@])),
            ManagerKind::Yay => Some(("yay"@, seq!["-Syu"@])),
            ManagerKind::Dnf => Some(("sudo"@, seq!["dnf"@, "upgrade"@, "-y"@])),
            ManagerKind::Zypper => Some(("sudo"@, seq!["zypper"@, "update"@])),
            ManagerKind::Flatpak => None,
        },
        Action::Cleanup => match kind {
            ManagerKind::Apt => Some(("sudo"@, seq!["apt"@, "autoremove"@])),
            ManagerKind::Pacman => Some(("sudo"@, seq!["pacman"@, "-Scc"@])),
            ManagerKind::Yay => Some(("yay"@, seq!["-Scc"@])),
            ManagerKind::Dnf => Some(("sudo"@, seq!["dnf"@, "autoremove"@])),
            ManagerKind::Zypper => Some(("sudo"@, seq!["zypper"@, "remove --clean-deps"@])),
            ManagerKind::Flatpak => None,
        },
        Action::UpgradePackage => Some(match kind {
            ManagerKind::Apt => ("sudo"@, seq!["apt"@, "install"@, "--only-upgrade"@, pkg]),
            ManagerKind::Pacman => ("sudo"@, seq!["pacman"@, "-S"@, "--noconfirm"@, pkg]),
            ManagerKind::Yay => ("yay"@, seq!["-S"@, "--needed"@, pkg]),
            ManagerKind::Flatpak => ("flatpak"@, seq!["update"@, pkg]),
            ManagerKind::Dnf => ("sudo"@, seq!["dnf"@, "upgrade"@, pkg]),
            ManagerKind::Zypper => ("sudo"@, seq!["zypper"@, "update"@, pkg]),
        }),
        Action::Search => Some(match kind {
            ManagerKind::Apt => ("apt"@, seq!["search"@, pkg]),
            ManagerKind::Pacman => ("pacman"@, seq!["-Ss"@, pkg]),
            ManagerKind::Yay => ("yay"@, seq!["-Ss"@, pkg]),
            ManagerKind::Flatpak => ("flatpak"@, seq!["search"@, pkg]),
            ManagerKind::Dnf => ("dnf"@, seq!["search"@, pkg]),
            ManagerKind::Zypper => ("zypper"@, seq!["search"@, pkg]),
        }),
        Action::IsInstalled => Some(match kind {
            ManagerKind::Apt => ("dpkg"@, seq!["-l"@, pkg]),
            ManagerKind::Pacman => ("pacman"@, seq!["-Q"@, pkg]),
            ManagerKind::Yay => ("pacman"@, seq!["-Q"@, pkg]),
            ManagerKind::Flatpak => ("flatpak"@, seq!["list"@]),
            ManagerKind::Dnf => ("dnf"@, seq!["list"@, "installed"@, pkg]),
            ManagerKind::Zypper => ("zypper"@, seq!["se"@, "-i"@, pkg]),
        }),
        Action::ListInstalled => Some(match kind {
            ManagerKind::Apt => ("dpkg"@, seq!["-l"@]),
            ManagerKind::Pacman | ManagerKind::Yay => ("pacman"@, seq!["-Q"@]),
            ManagerKind::Flatpak => ("flatpak"@, seq!["list"@, "--app"@]),
            ManagerKind::Dnf => ("dnf"@, seq!["list"@, "installed"@]),
            ManagerKind::Zypper => ("zypper"@, seq!["se"@, "-i"@]),
        }),
    }
}

fn cmd(program: &str, args: &[&str]) -> (c: CommandLine)
    ensures
        c@ == (program@, args@.map_values(|a: &str| a@)),
{
    let mut v: Vec<String> = Vec::new();
    for i in 0..args.len()
        invariant
            string_views(v@) == args@.map_values(|a: &str| a@).take(i as int),
    {
        let ghost old_v = v@;
        v.push(String::from_str(args[i]));
        proof {
            assert(string_views(v@) =~= string_views(old_v).push(args@[i as int]@));
            assert(args@.map_values(|a: &str| a@).take(i + 1) =~= args@.map_values(|a: &str| a@).take(i as int).push(args@[i as int]@));
        }
    }
    proof {
        assert(args@.map_values(|a: &str| a@).take(args.len() as int) =~= args@.map_values(|a: &str| a@));
    }
    CommandLine { program: String::from_str(program), args: v }
}

/// Actions on one package end their command with the package; the actions on the whole
/// system (update, upgrade, cleanup, listing) run the same command whatever package is given.
pub proof fn law_package_goes_last(kind: ManagerKind, pkg: Seq<char>, other: Seq<char>)
    ensures
        command_of(kind, Action::Install, pkg) matches Some((p, a)) && a.len() > 0 && a.last() == pkg,
        command_of(kind, Action::Remove, pkg) matches Some((p, a)) && a.len() > 0 && a.last() == pkg,
        command_of(kind, Action::UpgradePackage, pkg) matches Some((p, a)) && a.len() > 0 && a.last()
            == pkg,
        command_of(kind, Action::Search, pkg) matches Some((p, a)) && a.len() > 0 && a.last() == pkg,
        command_of(kind, Action::Update, pkg) == command_of(kind, Action::Update, other),
        command_of(kind, Action::Upgrade, pkg) == command_of(kind, Action::Upgrade, other),
        command_of(kind, Action::Cleanup, pkg) == command_of(kind, Action::Cleanup, other),
        command_of(kind, Action::ListInstalled, pkg) == command_of(kind, Action::ListInstalled, other),
{
}

/// The verb with which a manager installs a package.
pub open spec fn install_verb(kind: ManagerKind) -> Seq<char> {
    match kind {
        ManagerKind::Apt | ManagerKind::Dnf | ManagerKind::Flatpak | ManagerKind::Zypper => "install"@,
        ManagerKind::Pacman | ManagerKind::Yay => "-S"@,
    }
}

/// The verb with which a manager removes a package.
pub open spec fn remove_verb(kind: ManagerKind) -> Seq<char> {
    match kind {
        ManagerKind::Apt | ManagerKind::Dnf | ManagerKind::Zypper => "remove"@,
        ManagerKind::Flatpak => "uninstall"@,
        ManagerKind::Pacman | ManagerKind::Yay => "-R"@,
    }
}

/// Installing and removing: both commands of a manager run the same program and end with the
/// package; before it the install command holds the manager's install verb and not its
/// remove verb, and the remove command the other way round.
#[verifier::spinoff_prover]
pub proof fn law_install_and_remove_verbs(kind: ManagerKind, pkg: Seq<char>)
    ensures
        install_verb(kind) != remove_verb(kind),
        command_of(kind, Action::Install, pkg) matches Some((ip, ia)) && command_of(
            kind,
            Action::Remove,
            pkg,
        ) matches Some((rp, ra)) && {
            &&& ip == rp
            &&& ia.len() > 0 && ia.last() == pkg
            &&& ra.len() > 0 && ra.last() == pkg
            &&& ia.drop_last().contains(install_verb(kind))
            &&& !ia.drop_last().contains(remove_verb(kind))
            &&& ra.drop_last().contains(remove_verb(kind))
            &&& !ra.drop_last().contains(install_verb(kind))
        },
{
    reveal_strlit("sudo");
    reveal_strlit("apt");
    reveal_strlit("install");
    reveal_strlit("-y");
    reveal_strlit("pacman");
    reveal_strlit("-S");
    reveal_strlit("--noconfirm");
    reveal_strlit("yay");
    reveal_strlit("flatpak");
    reveal_strlit("dnf");
    reveal_strlit("zypper");
    reveal_strlit("--non-interactive");
    reveal_strlit("remove");
    reveal_strlit("-R");
    reveal_strlit("uninstall");
    assert("apt"@[0] != "yay"@[0]);
    assert("apt"@[0] != "dnf"@[0]);
    assert("pacman"@[0] != "zypper"@[0]);
    assert("pacman"@[0] != "remove"@[0]);
    assert("-S"@[1] != "-y"@[1]);
    assert("flatpak"@[0] != "install"@[0]);
    assert("dnf"@[0] != "yay"@[0]);
    assert("remove"@[0] != "zypper"@[0]);
    assert("-R"@[1] != "-y"@[1]);
    assert("-R"@[1] != "-S"@[1]);
    let (_, ins) = command_of(kind, Action::Install, pkg)->0;
    let (_, rem) = command_of(kind, Action::Remove, pkg)->0;
    match kind {
        ManagerKind::Apt => {
            assert(ins.drop_last() =~= seq!["apt"@, "install"@, "-y"@]);
            assert(rem.drop_last() =~= seq!["apt"@, "remove"@, "-y"@]);
            assert(ins.drop_last()[1] == install_verb(kind));
            assert(rem.drop_last()[1] == remove_verb(kind));
        },
        ManagerKind::Pacman => {
            assert(ins.drop_last() =~= seq!["pacman"@, "-S"@, "--noconfirm"@]);
            assert(rem.drop_last() =~= seq!["pacman"@, "-R"@]);
            assert(ins.drop_last()[1] == install_verb(kind));
            assert(rem.drop_last()[1] == remove_verb(kind));
        },
        ManagerKind::Yay => {
            assert(ins.drop_last() =~= seq!["-S"@, "--noconfirm"@]);
            assert(rem.drop_last() =~= seq!["-R"@]);
            assert(ins.drop_last()[0] == install_verb(kind));
            assert(rem.drop_last()[0] == remove_verb(kind));
        },
        ManagerKind::Flatpak => {
            assert(ins.drop_last() =~= seq!["install"@, "-y"@]);
            assert(rem.drop_last() =~= seq!["uninstall"@, "-y"@]);
            assert(ins.drop_last()[0] == install_verb(kind));
            assert(rem.drop_last()[0] == remove_verb(kind));
        },
        ManagerKind::Dnf => {
            assert(ins.drop_last() =~= seq!["dnf"@, "install"@, "-y"@]);
            assert(rem.drop_last() =~= seq!["dnf"@, "remove"@, "-y"@]);
            assert(ins.drop_last()[1] == install_verb(kind));
            assert(rem.drop_last()[1] == remove_verb(kind));
        },
        ManagerKind::Zypper => {
            assert(ins.drop_last() =~= seq!["zypper"@, "--non-interactive"@, "install"@]);
            assert(rem.drop_last() =~= seq!["zypper"@, "--non-interactive"@, "remove"@]);
            assert(ins.drop_last()[2] == install_verb(kind));
            assert(rem.drop_last()[2] == remove_verb(kind));
        },
    }
}

impl Manager {
    /// The command this manager runs for `action` on package `pkg` (ignored by the actions
    /// that take no package); `None` for an unknown manager, or where it has no such command.
    pub fn command(&self, action: Action, pkg: &str) -> (c: Option<CommandLine>)
        ensures
            match kind_of(self.name@) {
                Some(kind) => match command_of(kind, action, pkg@) {
                    Some(t) => c matches Some(cl) && cl@ == t,
                    None => c is None,
                },
                None => c is None,
            },
    {
        let kind = match manager_kind(self.name) {
            Some(k) => k,
            None => {
                return None;
            },
        };
        let c = match action {
            Action::Install => match kind {
                ManagerKind::Apt => cmd("sudo", &["apt", "install", "-y", pkg]),
                ManagerKind::Pacman => cmd("sudo", &["pacman", "-S", "--noconfirm", pkg]),
                ManagerKind::Yay => cmd("yay", &["-S", "--noconfirm", pkg]),
                ManagerKind::Flatpak => cmd("flatpak", &["install", "-y", pkg]),
                ManagerKind::Dnf => cmd("sudo", &["dnf", "install", "-y", pkg]),
                ManagerKind::Zypper => cmd("sudo", &["zypper", "--non-interactive", "install", pkg]),
            },
            Action::Remove => match kind {
                ManagerKind::Apt => cmd("sudo", &["apt", "remove", "-y", pkg]),
                ManagerKind::Pacman => cmd("sudo", &["pacman", "-R", pkg]),
                ManagerKind::Yay => cmd("yay", &["-R", pkg]),
                ManagerKind::Flatpak => cmd("flatpak", &["uninstall", "-y", pkg]),
                ManagerKind::Dnf => cmd("sudo", &["dnf", "remove", "-y", pkg]),
                ManagerKind::Zypper => cmd("sudo", &["zypper", "--non-interactive", "remove", pkg]),
            },
            Action::Update => match kind {
                ManagerKind::Apt => cmd("sudo", &["apt", "update"]),
                ManagerKind::Pacman => cmd("sudo", &["pacman", "-Sy", "--noconfirm"]),
                ManagerKind::Yay => cmd("yay", &["-Sy", "--noconfirm"]),
                ManagerKind::Flatpak => cmd("flatpak", &["update", "-y"]),
                ManagerKind::Dnf => cmd("sudo", &["dnf", "upgrade", "-y"]),
                ManagerKind::Zypper => cmd("sudo", &["zypper", "--non-interactive", "update"]),
            },
            Action::Upgrade => match kind {
                ManagerKind::Apt => cmd("sudo", &["apt", "upgrade"]),
                ManagerKind::Pacman => cmd("sudo", &["pacman", "-Syu"]),
                ManagerKind::Yay => cmd("yay", &["-Syu"]),
                ManagerKind::Dnf => cmd("sudo", &["dnf", "upgrade", "-y"]),
                ManagerKind::Zypper => cmd("sudo", &["zypper", "update"]),
                ManagerKind::Flatpak => {
                    return None;
                },
            },
            Action::Cleanup => match kind {
                ManagerKind::Apt => cmd("sudo", &["apt", "autoremove"]),
                ManagerKind::Pacman => cmd("sudo", &["pacman", "-Scc"]),
                ManagerKind::Yay => cmd("yay", &["-Scc"]),
                ManagerKind::Dnf => cmd("sudo", &["dnf", "autoremove"]),
                ManagerKind::Zypper => cmd("sudo", &["zypper", "remove --clean-deps"]),
                ManagerKind::Flatpak => {
                    return None;
                },
            },
            Action::UpgradePackage => match kind {
                ManagerKind::Apt => cmd("sudo", &["apt", "install", "--only-upgrade", pkg]),
                ManagerKind::Pacman => cmd("sudo", &["pacman", "-S", "--noconfirm", pkg]),
                ManagerKind::Yay => cmd("yay", &["-S", "--needed", pkg]),
                ManagerKind::Flatpak => cmd("flatpak", &["update", pkg]),
                ManagerKind::Dnf => cmd("sudo", &["dnf", "upgrade", pkg]),
                ManagerKind::Zypper => cmd("sudo", &["zypper", "update", pkg]),
            },
            Action::Search => match kind {
                ManagerKind::Apt => cmd("apt", &["search", pkg]),
                ManagerKind::Pacman => cmd("pacman", &["-Ss", pkg]),
                ManagerKind::Yay => cmd("yay", &["-Ss", pkg]),
                ManagerKind::Flatpak => cmd("flatpak", &["search", pkg]),
                ManagerKind::Dnf => cmd("dnf", &["search", pkg]),
                ManagerKind::Zypper => cmd("zypper", &["search", pkg]),
            },
            Action::IsInstalled => match kind {
                ManagerKind::Apt => cmd("dpkg", &["-l", pkg]),
                ManagerKind::Pacman => cmd("pacman", &["-Q", pkg]),
                ManagerKind::Yay => cmd("pacman", &["-Q", pkg]),
                ManagerKind::Flatpak => cmd("flatpak", &["list"]),
                ManagerKind::Dnf => cmd("dnf", &["list", "installed", pkg]),
                ManagerKind::Zypper => cmd("zypper", &["se", "-i", pkg]),
            },
            Action::ListInstalled => match kind {
                ManagerKind::Apt => cmd("dpkg", &["-l"]),
                ManagerKind::Pacman | ManagerKind::Yay => cmd("pacman", &["-Q"]),
                ManagerKind::Flatpak => cmd("flatpak", &["list", "--app"]),
                ManagerKind::Dnf => cmd("dnf", &["list", "installed"]),
                ManagerKind::Zypper => cmd("zypper", &["se", "-i"]),
            },
        };
        Some(c)
    }
}

} // verus!
