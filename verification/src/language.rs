//! The system language, used to rank packages in the user's language higher.
use vstd::prelude::*;
use crate::text::{is_alphabetic, letter, lower_text, push_char, to_lowercase};

verus! {

/// The leading run of alphabetic characters and `-` of a locale value.
pub open spec fn language_part(s: Seq<char>) -> Seq<char>
    decreases s.len(),
{
    if s.len() > 0 && (letter(s[0]) || s[0] == '-') {
        seq![s[0]] + language_part(s.drop_first())
    } else {
        Seq::<char>::empty()
    }
}

/// The language part of a locale value is its longest beginning made of alphabetic
/// characters and dashes: every character of it is one, and the character after it (if any)
/// is not.
pub proof fn law_language_part_is_leading_run(s: Seq<char>)
    ensures
        language_part(s).len() <= s.len(),
        language_part(s) == s.subrange(0, language_part(s).len() as int),
        forall|j: int| 0 <= j < language_part(s).len() ==> letter(#[trigger] language_part(s)[j])
            || language_part(s)[j] == '-',
        language_part(s).len() < s.len() ==> !letter(s[language_part(s).len() as int])
            && s[language_part(s).len() as int] != '-',
    decreases s.len(),
{
    if s.len() > 0 && (letter(s[0]) || s[0] == '-') {
        let t = s.drop_first();
        law_language_part_is_leading_run(t);
        let r = language_part(t);
        assert(language_part(s) == seq![s[0]] + r);
        assert(s.subrange(0, r.len() + 1int) =~= seq![s[0]] + t.subrange(0, r.len() as int));
        assert forall|j: int| 0 <= j < r.len() + 1 implies letter(#[trigger] (seq![s[0]] + r)[j])
            || (seq![s[0]] + r)[j] == '-' by {
            if j > 0 {
                assert((seq![s[0]] + r)[j] == r[j - 1]);
            }
        }
        if r.len() < t.len() {
            assert(s[r.len() + 1int] == t[r.len() as int]);
        }
    } else {
        assert(s.subrange(0, 0) =~= Seq::<char>::empty());
    }
}

/// The system language of a `LANG` value (`None` where the variable is unset): the leading
/// alphabetic characters and dashes of the value, or of `en` without one, in lowercase;
/// `de_DE.UTF-8` gives `de`.
pub open spec fn language_of(lang_var: Option<Seq<char>>) -> Seq<char> {
    match lang_var {
        Some(v) => lower_text(language_part(v)),
        None => lower_text(language_part("en"@)),
    }
}

/// Reads the system language from the value of the `LANG` environment variable, for the
/// ranking by language.
pub fn system_language(lang_var: Option<String>) -> (lang: String)
    ensures
        lang@ == language_of(
            match lang_var {
                Some(v) => Some(v@),
                None => None,
            },
        ),
{
    let raw = match lang_var {
        Some(v) => v,
        None => String::from_str("en"),
    };
    let ghost rv = raw@;
    let mut part = String::new();
    let mut done = false;
    let ghost mut k: int = 0;
    proof {
        assert(rv.skip(0) =~= rv);
    }
    for c in it: raw.as_str().chars()
        invariant
            it.seq() == rv,
            k == it.index(),
            done ==> part@ == language_part(rv),
            !done ==> part@ + language_part(rv.skip(k)) == language_part(rv),
    {
        proof {
            assert(rv.skip(k)[0] == c);
            assert(rv.skip(k).drop_first() =~= rv.skip(k + 1));
        }
        if !done {
            if is_alphabetic(c) || c == '-' {
                let ghost before = part@;
                push_char(&mut part, c);
                proof {
                    assert(language_part(rv.skip(k)) =~= seq![c] + language_part(rv.skip(k + 1)));
                    assert(before + language_part(rv.skip(k)) =~= part@ + language_part(rv.skip(k + 1)));
                }
            } else {
                done = true;
                proof {
                    assert(part@ + language_part(rv.skip(k)) =~= part@);
                }
            }
        }
        proof {
            k = k + 1;
        }
    }
    proof {
        if !done {
            assert(rv.skip(k) =~= Seq::<char>::empty());
            assert(part@ + language_part(rv.skip(k)) =~= part@);
        }
    }
    to_lowercase(part.as_str())
}

} // verus!
