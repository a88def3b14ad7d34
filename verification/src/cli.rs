//! The decisions of the command line tool: which command an argument names, which hit to
//! offer first, which manager handles a hit, and which installed packages a filter shows.
use vstd::prelude::*;
use crate::manager::Manager;
use crate::search::UnifiedPackage;
use crate::sort::{stable_sort_desc, stably_sorted_desc, SortKey};
use crate::text::{chars_of, lower_text, occurs, occurs_in, same_text, string_views, to_lowercase};

verus! {

/// The commands of the tool.
#[derive(Debug, Clone, Copy, PartialEq, Eq, Structural)]
pub enum Command {
    Version,
    Search,
    Install,
    Remove,
    Update,
    List,
    Unknown,
}

/// The command an argument names: each command has its word, its first letter, and both
/// with a leading `-` (`install`, `i`, `-i`, `-install`).
pub open spec fn command_named(arg: Seq<char>) -> Command {
    if arg == "version"@ || arg == "v"@ || arg == "-v"@ || arg == "-version"@ {
        Command::Version
    } else if arg == "search"@ || arg == "s"@ || arg == "-s"@ || arg == "-search"@ {
        Command::Search
    } else if arg == "install"@ || arg == "i"@ || arg == "-i"@ || arg == "-install"@ {
        Command::Install
    } else if arg == "remove"@ || arg == "r"@ || arg == "-r"@ || arg == "-remove"@ {
        Command::Remove
    } else if arg == "update"@ || arg == "u"@ || arg == "-u"@ || arg == "-update"@ {
        Command::Update
    } else if arg == "list"@ || arg == "l"@ || arg == "-l"@ || arg == "-list"@ {
        Command::List
    } else {
        Command::Unknown
    }
}

/// Each command is named by its full word, with or without a leading `-`, and by its first
/// letter, with or without a leading `-`.
#[verifier::spinoff_prover]
pub proof fn law_commands_by_word_and_letter()
    ensures
        command_named("install"@) == Command::Install,
        command_named("-install"@) == Command::Install,
        command_named("i"@) == Command::Install,
        command_named("-i"@) == Command::Install,
        command_named("remove"@) == Command::Remove,
        command_named("-remove"@) == Command::Remove,
        command_named("r"@) == Command::Remove,
        command_named("-r"@) == Command::Remove,
        command_named("update"@) == Command::Update,
        command_named("-update"@) == Command::Update,
        command_named("u"@) == Command::Update,
        command_named("-u"@) == Command::Update,
        command_named("search"@) == Command::Search,
        command_named("-search"@) == Command::Search,
        command_named("s"@) == Command::Search,
        command_named("-s"@) == Command::Search,
        command_named("list"@) == Command::List,
        command_named("-list"@) == Command::List,
        command_named("l"@) == Command::List,
        command_named("-l"@) == Command::List,
        command_named("version"@) == Command::Version,
        command_named("-version"@) == Command::Version,
        command_named("v"@) == Command::Version,
        command_named("-v"@) == Command::Version,
{
    reveal_strlit("install");
    reveal_strlit("-install");
    reveal_strlit("i");
    reveal_strlit("-i");
    reveal_strlit("remove");
    reveal_strlit("-remove");
    reveal_strlit("r");
    reveal_strlit("-r");
    reveal_strlit("update");
    reveal_strlit("-update");
    reveal_strlit("u");
    reveal_strlit("-u");
    reveal_strlit("search");
    reveal_strlit("-search");
    reveal_strlit("s");
    reveal_strlit("-s");
    reveal_strlit("list");
    reveal_strlit("-list");
    reveal_strlit("l");
    reveal_strlit("-l");
    reveal_strlit("version");
    reveal_strlit("-version");
    reveal_strlit("v");
    reveal_strlit("-v");
    assert("list"@.len() == 4);
    assert("install"@[0] != "version"@[0]);
    assert("i"@[0] != "r"@[0]);
    assert("i"@[0] != "u"@[0]);
    assert("i"@[0] != "s"@[0]);
    assert("i"@[0] != "l"@[0]);
    assert("i"@[0] != "v"@[0]);
    assert("remove"@[0] != "update"@[0]);
    assert("remove"@[0] != "search"@[0]);
    assert("r"@[0] != "u"@[0]);
    assert("r"@[0] != "s"@[0]);
    assert("r"@[0] != "v"@[0]);
    assert("u"@[0] != "v"@[0]);
    assert("search"@[0] != "update"@[0]);
    assert("s"@[0] != "u"@[0]);
    assert("s"@[0] != "v"@[0]);
    assert("l"@[0] != "r"@[0]);
    assert("l"@[0] != "u"@[0]);
    assert("l"@[0] != "s"@[0]);
    assert("l"@[0] != "v"@[0]);
    assert("-install"@[1] != "-version"@[1]);
    assert("-i"@[1] != "-r"@[1]);
    assert("-i"@[1] != "-u"@[1]);
    assert("-i"@[1] != "-s"@[1]);
    assert("-i"@[1] != "-l"@[1]);
    assert("-i"@[1] != "-v"@[1]);
    assert("-remove"@[0] != "install"@[0]);
    assert("-remove"@[0] != "version"@[0]);
    assert("-remove"@[1] != "-update"@[1]);
    assert("-remove"@[1] != "-search"@[1]);
    assert("-r"@[1] != "-u"@[1]);
    assert("-r"@[1] != "-s"@[1]);
    assert("-r"@[1] != "-v"@[1]);
    assert("-update"@[0] != "install"@[0]);
    assert("-update"@[0] != "version"@[0]);
    assert("-u"@[1] != "-v"@[1]);
    assert("-search"@[0] != "install"@[0]);
    assert("-search"@[0] != "version"@[0]);
    assert("-search"@[1] != "-update"@[1]);
    assert("-s"@[1] != "-u"@[1]);
    assert("-s"@[1] != "-v"@[1]);
    assert("-l"@[1] != "-r"@[1]);
    assert("-l"@[1] != "-u"@[1]);
    assert("-l"@[1] != "-s"@[1]);
    assert("-l"@[1] != "-v"@[1]);
}

/// A `-` put before two texts that do not begin with `-` keeps them equal or different, and
/// a text after a `-` is neither such a text nor is such a text one after a `-`.
proof fn lemma_dash_prefix(arg: Seq<char>, l: Seq<char>)
    requires
        arg.len() > 0,
        arg[0] != '-',
        l.len() > 0,
        l[0] != '-',
    ensures
        ("-"@ + arg == "-"@ + l) == (arg == l),
        "-"@ + arg != l,
        arg != "-"@ + l,
{
    reveal_strlit("-");
    assert(("-"@ + arg).drop_first() =~= arg);
    assert(("-"@ + l).drop_first() =~= l);
    assert(("-"@ + arg)[0] == '-');
    assert(("-"@ + l)[0] == '-');
}

/// A leading `-` does not change what an argument names: for every argument that does not
/// itself begin with `-`, the argument and the argument after a `-` name the same command.
pub proof fn law_leading_dash_is_optional(arg: Seq<char>)
    requires
        arg.len() > 0,
        arg[0] != '-',
    ensures
        command_named("-"@ + arg) == command_named(arg),
{
    law_commands_by_word_and_letter();
    reveal_strlit("-");
    reveal_strlit("install");
    reveal_strlit("-install");
    assert("-install"@ =~= "-"@ + "install"@);
    lemma_dash_prefix(arg, "install"@);
    reveal_strlit("i");
    reveal_strlit("-i");
    assert("-i"@ =~= "-"@ + "i"@);
    lemma_dash_prefix(arg, "i"@);
    reveal_strlit("remove");
    reveal_strlit("-remove");
    assert("-remove"@ =~= "-"@ + "remove"@);
    lemma_dash_prefix(arg, "remove"@);
    reveal_strlit("r");
    reveal_strlit("-r");
    assert("-r"@ =~= "-"@ + "r"@);
    lemma_dash_prefix(arg, "r"@);
    reveal_strlit("update");
    reveal_strlit("-update");
    assert("-update"@ =~= "-"@ + "update"@);
    lemma_dash_prefix(arg, "update"@);
    reveal_strlit("u");
    reveal_strlit("-u");
    assert("-u"@ =~= "-"@ + "u"@);
    lemma_dash_prefix(arg, "u"@);
    reveal_strlit("search");
    reveal_strlit("-search");
    assert("-search"@ =~= "-"@ + "search"@);
    lemma_dash_prefix(arg, "search"@);
    reveal_strlit("s");
    reveal_strlit("-s");
    assert("-s"@ =~= "-"@ + "s"@);
    lemma_dash_prefix(arg, "s"@);
    reveal_strlit("list");
    reveal_strlit("-list");
    assert("-list"@ =~= "-"@ + "list"@);
    lemma_dash_prefix(arg, "list"@);
    reveal_strlit("l");
    reveal_strlit("-l");
    assert("-l"@ =~= "-"@ + "l"@);
    lemma_dash_prefix(arg, "l"@);
    reveal_strlit("version");
    reveal_strlit("-version");
    assert("-version"@ =~= "-"@ + "version"@);
    lemma_dash_prefix(arg, "version"@);
    reveal_strlit("v");
    reveal_strlit("-v");
    assert("-v"@ =~= "-"@ + "v"@);
    lemma_dash_prefix(arg, "v"@);
}

fn one_of(arg: &str, a: &str, b: &str, c: &str, d: &str) -> (r: bool)
    ensures
        r == (arg@ == a@ || arg@ == b@ || arg@ == c@ || arg@ == d@),
{
    same_text(arg, a) || same_text(arg, b) || same_text(arg, c) || same_text(arg, d)
}

/// The command an argument names.
pub fn parse_command(arg: &str) -> (c: Command)
    ensures
        c == command_named(arg@),
{
    if one_of(arg, "version", "v", "-v", "-version") {
        Command::Version
    } else if one_of(arg, "search", "s", "-s", "-search") {
        Command::Search
    } else if one_of(arg, "install", "i", "-i", "-install") {
        Command::Install
    } else if one_of(arg, "remove", "r", "-r", "-remove") {
        Command::Remove
    } else if one_of(arg, "update", "u", "-u", "-update") {
        Command::Update
    } else if one_of(arg, "list", "l", "-l", "-list") {
        Command::List
    } else {
        Command::Unknown
    }
}

/// Whether a hit's name is the query itself, compared in lowercase.
pub open spec fn is_exact(p: UnifiedPackage, pkg: Seq<char>) -> bool {
    lower_text(p.name@) == lower_text(pkg)
}

/// The key that puts exact hits first.
pub open spec fn exact_key(p: UnifiedPackage, pkg: Seq<char>) -> SortKey {
    (if is_exact(p, pkg) { 1 } else { 0 }, 0, 0)
}

/// Moves the hits whose name is the query (in lowercase) to the front; all hits otherwise
/// keep their order.
pub fn exact_matches_first(results: Vec<UnifiedPackage>, pkg: &str) -> (r: Vec<UnifiedPackage>)
    ensures
        stably_sorted_desc(r@, results@, |p: UnifiedPackage| exact_key(p, pkg@)),
        r@.to_multiset() == results@.to_multiset(),
        forall|i: int, j: int| 0 <= i < j < r.len() && is_exact(#[trigger] r@[j], pkg@) ==> is_exact(#[trigger] r@[i], pkg@),
{
    let query = to_lowercase(pkg);
    let ghost kf = |p: UnifiedPackage| exact_key(p, pkg@);
    let mut keys: Vec<(i128, i128, i128)> = Vec::new();
    for i in 0..results.len()
        invariant
            keys.len() == i,
            query@ == lower_text(pkg@),
            kf == (|p: UnifiedPackage| exact_key(p, pkg@)),
            forall|j: int| 0 <= j < i ==> crate::sort::key_value(#[trigger] keys[j]) == kf(results[j]),
    {
        let name_lc = to_lowercase(results[i].name.as_str());
        let exact = same_text(name_lc.as_str(), query.as_str());
        keys.push((if exact { 1 } else { 0 }, 0, 0));
    }
    let r = stable_sort_desc(results, keys, Ghost(kf));
    proof {
        crate::sort::law_stable_sort_reorders(r@, results@, kf);
        assert forall|i: int, j: int| 0 <= i < j < r.len() && is_exact(#[trigger] r@[j], pkg@) implies is_exact(#[trigger] r@[i], pkg@) by {
            assert(!crate::sort::key_lt(kf(r@[i]), kf(r@[j])));
        }
    }
    r
}

/// Whether the best hit is installed without a choice: it is the only hit, or its name is
/// the query (in lowercase).
pub fn install_directly(results: &Vec<UnifiedPackage>, pkg: &str) -> (r: bool)
    requires
        results.len() > 0,
    ensures
        r == (results.len() == 1 || is_exact(results[0], pkg@)),
{
    if results.len() == 1 {
        return true;
    }
    let name_lc = to_lowercase(results[0].name.as_str());
    let query = to_lowercase(pkg);
    same_text(name_lc.as_str(), query.as_str())
}

/// The index of the first manager with the given name, if any.
pub fn find_manager(managers: &Vec<Manager>, name: &str) -> (r: Option<usize>)
    ensures
        match r {
            Some(i) => i < managers.len() && managers[i as int].name@ == name@ && forall|j: int|
                0 <= j < i ==> (#[trigger] managers[j]).name@ != name@,
            None => forall|j: int| 0 <= j < managers.len() ==> (#[trigger] managers[j]).name@ != name@,
        },
{
    for i in 0..managers.len()
        invariant
            forall|j: int| 0 <= j < i ==> (#[trigger] managers[j]).name@ != name@,
    {
        if same_text(managers[i].name, name) {
            return Some(i);
        }
    }
    None
}

/// Whether an installed package is shown for the given filters: without filters every
/// package is; otherwise one whose lowercase name contains one of the filters in lowercase.
pub open spec fn shown_by(pkg: Seq<char>, filters: Seq<Seq<char>>) -> bool {
    filters.len() == 0 || exists|i: int|
        0 <= i < filters.len() && occurs_in(lower_text(pkg), #[trigger] lower_text(filters[i]))
}

/// A filter shows every installed package whose lowercase name holds the filter's lowercase
/// form anywhere, at any position `k`; without filters every package is shown; and a package
/// is shown only where some filter occurs in its lowercase name.
pub proof fn law_filter_finds_substring(pkg: Seq<char>, filters: Seq<Seq<char>>, i: int, k: int)
    ensures
        filters.len() == 0 ==> shown_by(pkg, filters),
        0 <= i < filters.len() && 0 <= k && k + lower_text(filters[i]).len() <= lower_text(pkg).len()
            && lower_text(pkg).subrange(k, k + lower_text(filters[i]).len()) == lower_text(filters[i])
            ==> shown_by(pkg, filters),
        filters.len() > 0 && shown_by(pkg, filters) ==> exists|j: int, m: int|
            0 <= j < filters.len() && 0 <= m && m + lower_text(filters[j]).len() <= lower_text(pkg).len()
                && #[trigger] lower_text(pkg).subrange(m, m + lower_text(filters[j]).len())
                == lower_text(#[trigger] filters[j]),
{
    if 0 <= i < filters.len() && 0 <= k && k + lower_text(filters[i]).len() <= lower_text(pkg).len()
        && lower_text(pkg).subrange(k, k + lower_text(filters[i]).len()) == lower_text(filters[i]) {
        assert(occurs_in(lower_text(pkg), lower_text(filters[i])));
    }
    if filters.len() > 0 && shown_by(pkg, filters) {
        let j = choose|j: int| 0 <= j < filters.len() && occurs_in(lower_text(pkg), #[trigger] lower_text(filters[j]));
        let m = choose|m: int| 0 <= m <= lower_text(pkg).len() - lower_text(filters[j]).len()
            && #[trigger] lower_text(pkg).subrange(m, m + lower_text(filters[j]).len()) == lower_text(filters[j]);
        assert(lower_text(pkg).subrange(m, m + lower_text(filters[j]).len()) == lower_text(filters[j]));
    }
}

/// Whether an installed package is shown for the given filters.
pub fn matches_filters(pkg: &str, filters: &Vec<String>) -> (r: bool)
    ensures
        r == shown_by(pkg@, string_views(filters@)),
{
    if filters.len() == 0 {
        return true;
    }
    let name = chars_of(to_lowercase(pkg).as_str());
    let ghost fv = string_views(filters@);
    for i in 0..filters.len()
        invariant
            fv == string_views(filters@),
            filters.len() > 0,
            name@ == lower_text(pkg@),
            forall|j: int| 0 <= j < i ==> !occurs_in(lower_text(pkg@), #[trigger] lower_text(fv[j])),
    {
        assert(fv[i as int] == filters@[i as int]@);
        let f = chars_of(to_lowercase(filters[i].as_str()).as_str());
        if occurs(&name, &f) {
            return true;
        }
    }
    false
}

} // verus!
