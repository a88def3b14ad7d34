//! Language tags in package names.
use vstd::prelude::*;
use crate::text::{
    chars_of, lower_text, pieces, same_chars, split_pieces, string_views, strings_of, to_lowercase,
    views, Sep,
};

verus! {

/// A language tag: exactly two ASCII lowercase letters.
pub open spec fn is_language_tag(part: Seq<char>) -> bool {
    part.len() == 2 && forall|i: int| 0 <= i < 2 ==> 'a' <= #[trigger] part[i] <= 'z'
}

/// The language tags of a package name: the parts of its lowercase form, split at `-`, `_`
/// and `.`, that are language tags.
pub open spec fn language_tags(name: Seq<char>) -> Set<Seq<char>> {
    pieces(lower_text(name), Sep::NameParts).filter(|p: Seq<char>| is_language_tag(p)).to_set()
}

/// The language tags of a name are exactly its parts (split at `-`, `_` and `.`, in
/// lowercase) of two ASCII lowercase letters: `firefox-i18n-de` has the tag `de` only.
pub proof fn law_tags_are_two_letter_parts(name: Seq<char>, t: Seq<char>)
    ensures
        language_tags(name).contains(t) <==> (pieces(lower_text(name), Sep::NameParts).contains(t)
            && t.len() == 2 && 'a' <= t[0] <= 'z' && 'a' <= t[1] <= 'z'),
{
    let ps = pieces(lower_text(name), Sep::NameParts);
    let pred = |p: Seq<char>| is_language_tag(p);
    if language_tags(name).contains(t) {
        assert(ps.filter(pred).contains(t));
        ps.lemma_filter_contains_rev(pred, t);
        let i = choose|i: int| 0 <= i < ps.filter(pred).len() && ps.filter(pred)[i] == t;
        ps.lemma_filter_pred(pred, i);
    }
    if ps.contains(t) && t.len() == 2 && 'a' <= t[0] <= 'z' && 'a' <= t[1] <= 'z' {
        let i = choose|i: int| 0 <= i < ps.len() && ps[i] == t;
        assert(is_language_tag(t));
        ps.lemma_filter_contains(pred, i);
    }
}

fn is_tag(part: &Vec<char>) -> (r: bool)
    ensures
        r == is_language_tag(part@),
{
    part.len() == 2 && 'a' <= part[0] && part[0] <= 'z' && 'a' <= part[1] && part[1] <= 'z'
}

/// Extracts the possible language tags of a package name, as in the schemes
/// `firefox-i18n-de`, `firefox-lang-de` and `firefox-de-at`: each tag once.
pub fn extract_language_tags(name: &str) -> (tags: Vec<String>)
    ensures
        string_views(tags@).no_duplicates(),
        string_views(tags@).to_set() == language_tags(name@),
{
    let lc = to_lowercase(name);
    let parts = split_pieces(&chars_of(lc.as_str()), Sep::NameParts);
    let ghost pv = views(parts@);
    let ghost pred = |p: Seq<char>| is_language_tag(p);
    let mut found: Vec<Vec<char>> = Vec::new();
    for i in 0..parts.len()
        invariant
            pv == views(parts@),
            pv == pieces(lower_text(name@), Sep::NameParts),
            pred == (|p: Seq<char>| is_language_tag(p)),
            views(found@).no_duplicates(),
            views(found@).to_set() == pv.take(i as int).filter(pred).to_set(),
    {
        let ghost before = views(found@);
        proof {
            reveal(Seq::filter);
            assert(pv.take(i + 1).drop_last() =~= pv.take(i as int));
            assert(pv.take(i + 1).last() == pv[i as int]);
            assert(pv[i as int] == parts@[i as int]@);
        }
        if is_tag(&parts[i]) {
            let mut seen = false;
            let mut j: usize = 0;
            while j < found.len()
                invariant
                    i < parts.len(),
                    j <= found.len(),
                    before == views(found@),
                    seen == exists|k: int| 0 <= k < j && #[trigger] before[k] == parts@[i as int]@,
                decreases found.len() - j,
            {
                assert(before[j as int] == found@[j as int]@);
                if same_chars(&found[j], &parts[i]) {
                    seen = true;
                }
                j = j + 1;
            }
            proof {
                assert(pv.take(i + 1).filter(pred) == pv.take(i as int).filter(pred).push(pv[i as int]));
                pv.take(i as int).filter(pred).lemma_push_to_set_commute(pv[i as int]);
            }
            if !seen {
                let copy = crate::text::copy_chars(&parts[i]);
                found.push(copy);
                proof {
                    assert(views(found@) =~= before.push(pv[i as int]));
                    before.lemma_push_to_set_commute(pv[i as int]);
                    assert(parts@[i as int]@ == pv[i as int]);
                    assert(forall|k: int| 0 <= k < before.len() ==> before[k] != pv[i as int]);
                }
            } else {
                proof {
                    let k = choose|k: int| 0 <= k < before.len() && before[k] == pv[i as int];
                    assert(before.to_set().contains(before[k]));
                    assert(before.to_set().insert(pv[i as int]) =~= before.to_set());
                }
            }
        } else {
            proof {
                assert(pv.take(i + 1).filter(pred) == pv.take(i as int).filter(pred));
            }
        }
    }
    proof {
        assert(pv.take(parts.len() as int) =~= pv);
    }
    strings_of(&found)
}

} // verus!
