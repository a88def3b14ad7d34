//! Character-sequence helpers shared by the parsers and rankers: splitting, trimming,
//! searching and ordering text, and the calls into `std` that map characters.
use vstd::prelude::*;
use vstd::utf8::{decode_utf8, valid_utf8};

verus! {

// ---------------------------------------------------------------------------------------------
// Calls into std whose results are Unicode tables.
// ---------------------------------------------------------------------------------------------

/// The Unicode lowercase mapping of a string, as `str::to_lowercase` computes it.
pub uninterp spec fn lowercase(s: Seq<char>) -> Seq<char>;

/// Whether a character has the Unicode `White_Space` property (`char::is_whitespace`): tab,
/// line feed, vertical tab, form feed, carriage return, space, next line, no-break space, ogham
/// space mark, the spaces U+2000 to U+200A, line and paragraph separators, narrow no-break
/// space, medium mathematical space and ideographic space.
pub open spec fn white_space(c: char) -> bool {
    let v = c as int;
    (0x09 <= v <= 0x0D) || v == 0x20 || v == 0x85 || v == 0xA0 || v == 0x1680 || (0x2000 <= v
        <= 0x200A) || v == 0x2028 || v == 0x2029 || v == 0x202F || v == 0x205F || v == 0x3000
}

/// Whether a character has the Unicode `Alphabetic` property (`char::is_alphabetic`).
pub uninterp spec fn alphabetic(c: char) -> bool;

/// The text that `String::from_utf8_lossy` makes of a byte sequence.
pub uninterp spec fn lossy_text(bytes: Seq<u8>) -> Seq<char>;

/// The character with ASCII uppercase letters mapped to lowercase.
pub open spec fn ascii_lower_char(c: char) -> char {
    if 'A' <= c <= 'Z' {
        ((c as int) + 32) as char
    } else {
        c
    }
}

/// The character with ASCII lowercase letters mapped to uppercase.
pub open spec fn ascii_upper_char(c: char) -> char {
    if 'a' <= c <= 'z' {
        ((c as int) - 32) as char
    } else {
        c
    }
}

/// The text with ASCII letters in lowercase (`str::to_ascii_lowercase`).
pub open spec fn ascii_lower(s: Seq<char>) -> Seq<char> {
    s.map_values(|c: char| ascii_lower_char(c))
}

/// The text with ASCII letters in uppercase (`str::to_ascii_uppercase`).
pub open spec fn ascii_upper(s: Seq<char>) -> Seq<char> {
    s.map_values(|c: char| ascii_upper_char(c))
}

/// Every character of the text is ASCII.
pub open spec fn all_ascii(s: Seq<char>) -> bool {
    forall|i: int| 0 <= i < s.len() ==> (#[trigger] s[i] as int) < 128
}

/// The lowercase form of a text as `str::to_lowercase` gives it: for an ASCII text its ASCII
/// lowercase form, otherwise the Unicode lowercase mapping `lowercase`.
pub open spec fn lower_text(s: Seq<char>) -> Seq<char> {
    if all_ascii(s) {
        ascii_lower(s)
    } else {
        lowercase(s)
    }
}

/// Calls `str::to_lowercase`. Claimed: the result's characters are `lowercase` of the
/// argument's characters, a function of those characters alone; for an ASCII text that is
/// the text with `A`..`Z` mapped to `a`..`z` (the Unicode lowercase mapping of ASCII).
/// Nothing is stated about the mapping of other characters.
#[verifier::external_body]
pub(crate) fn to_lowercase(s: &str) -> (r: String)
    ensures
        r@ == lowercase(s@),
        all_ascii(s@) ==> r@ == ascii_lower(s@),
        r@ == lower_text(s@),
{
    s.to_lowercase()
}

/// Whether a character has the Unicode `White_Space` property (`char::is_whitespace`).
pub fn is_white_space(c: char) -> (r: bool)
    ensures
        r == white_space(c),
{
    ('\u{09}' <= c && c <= '\u{0D}') || c == ' ' || c == '\u{85}' || c == '\u{A0}' || c == '\u{1680}'
        || ('\u{2000}' <= c && c <= '\u{200A}') || c == '\u{2028}' || c == '\u{2029}' || c
        == '\u{202F}' || c == '\u{205F}' || c == '\u{3000}'
}

/// Whether a character is alphabetic as `char::is_alphabetic` says: among the ASCII
/// characters exactly the letters `a`..`z` and `A`..`Z`, otherwise the Unicode `Alphabetic`
/// property `alphabetic`.
pub open spec fn letter(c: char) -> bool {
    if (c as int) < 128 {
        ('a' <= c <= 'z') || ('A' <= c <= 'Z')
    } else {
        alphabetic(c)
    }
}

/// The text that `String::from_utf8_lossy` makes of a byte sequence: the decoded characters
/// where the bytes are valid UTF-8, otherwise `lossy_text` of them.
pub open spec fn decoded_text(bytes: Seq<u8>) -> Seq<char> {
    if valid_utf8(bytes) {
        decode_utf8(bytes)
    } else {
        lossy_text(bytes)
    }
}

/// Calls `char::is_alphabetic`. Claimed: the result is `alphabetic(c)`, and for an ASCII
/// character it is whether the character is a letter (the ASCII characters with the Unicode
/// `Alphabetic` property are the 52 letters); the rest of the Unicode table is not stated.
#[verifier::external_body]
pub(crate) fn is_alphabetic(c: char) -> (r: bool)
    ensures
        r == alphabetic(c),
        (c as int) < 128 ==> (r <==> ('a' <= c <= 'z') || ('A' <= c <= 'Z')),
        r == letter(c),
{
    c.is_alphabetic()
}

/// Calls `String::from_utf8_lossy` and takes the text as an owned `String`. Claimed: the
/// characters are `lossy_text` of the bytes, a function of the bytes alone, and valid UTF-8
/// decodes to the characters it encodes; how invalid sequences are replaced is not stated.
#[verifier::external_body]
pub(crate) fn decode_lossy(bytes: &[u8]) -> (r: String)
    ensures
        r@ == lossy_text(bytes@),
        valid_utf8(bytes@) ==> r@ == decode_utf8(bytes@),
        r@ == decoded_text(bytes@),
{
    String::from_utf8_lossy(bytes).into_owned()
}

/// Calls `String::push`. Claimed, as its documentation says: the character is appended.
#[verifier::external_body]
pub(crate) fn push_char(s: &mut String, c: char)
    ensures
        final(s)@ == old(s)@.push(c),
{
    s.push(c);
}

// ---------------------------------------------------------------------------------------------
// Specifications.
// ---------------------------------------------------------------------------------------------

/// `needle` occurs somewhere in `hay` as a contiguous run of characters.
pub open spec fn occurs_in(hay: Seq<char>, needle: Seq<char>) -> bool {
    exists|i: int|
        0 <= i <= hay.len() - needle.len() && #[trigger] hay.subrange(i, i + needle.len())
            == needle
}

/// The views of a sequence of character vectors.
pub open spec fn views(v: Seq<Vec<char>>) -> Seq<Seq<char>> {
    v.map_values(|x: Vec<char>| x@)
}

/// The views of a sequence of strings.
pub open spec fn string_views(v: Seq<String>) -> Seq<Seq<char>> {
    v.map_values(|x: String| x@)
}

/// The separators that the text is split at.
pub enum Sep {
    /// One given character.
    Ch(char),
    /// Any of `-`, `_` and `.`, the separators of a package name's parts.
    NameParts,
    /// Unicode white space.
    Space,
}

pub open spec fn is_sep(sep: Sep, c: char) -> bool {
    match sep {
        Sep::Ch(d) => c == d,
        Sep::NameParts => c == '-' || c == '_' || c == '.',
        Sep::Space => white_space(c),
    }
}

/// The pieces between separators, as `str::split` yields them: one more piece than there are
/// separators, empty pieces included.
pub open spec fn pieces(s: Seq<char>, sep: Sep) -> Seq<Seq<char>>
    decreases s.len(),
{
    if s.len() == 0 {
        seq![Seq::<char>::empty()]
    } else {
        let p = pieces(s.drop_last(), sep);
        if is_sep(sep, s.last()) {
            p.push(Seq::<char>::empty())
        } else {
            p.update(p.len() - 1, p.last().push(s.last()))
        }
    }
}

/// The first piece: what `split(..).next()` gives.
pub open spec fn first_piece(s: Seq<char>, sep: Sep) -> Seq<char> {
    pieces(s, sep)[0]
}

/// The last piece: what `split(..).last()` gives.
pub open spec fn last_piece(s: Seq<char>, sep: Sep) -> Seq<char> {
    pieces(s, sep).last()
}

/// The white-space separated words, as `str::split_whitespace` yields them.
pub open spec fn words(s: Seq<char>) -> Seq<Seq<char>> {
    pieces(s, Sep::Space).filter(|p: Seq<char>| p.len() > 0)
}

/// A line without the carriage return of a `\r\n` ending.
pub open spec fn strip_cr(line: Seq<char>) -> Seq<char> {
    if line.len() > 0 && line.last() == '\r' {
        line.drop_last()
    } else {
        line
    }
}

/// The lines of a text, as `str::lines` yields them: the text is split at `\n`; a `\r` just
/// before a `\n` belongs to the line ending; a final empty piece (after a last `\n`, or of an
/// empty text) is no line.
pub open spec fn lines(s: Seq<char>) -> Seq<Seq<char>> {
    let p = pieces(s, Sep::Ch('\n'));
    let n = if p.last().len() == 0 {
        p.len() - 1
    } else {
        p.len() as int
    };
    Seq::new(
        n as nat,
        |i: int|
            if i < p.len() - 1 {
                strip_cr(p[i])
            } else {
                p[i]
            },
    )
}

/// `s` without leading white space.
pub open spec fn trim_start(s: Seq<char>) -> Seq<char>
    decreases s.len(),
{
    if s.len() > 0 && white_space(s[0]) {
        trim_start(s.drop_first())
    } else {
        s
    }
}

/// `s` without trailing white space.
pub open spec fn trim_end(s: Seq<char>) -> Seq<char>
    decreases s.len(),
{
    if s.len() > 0 && white_space(s.last()) {
        trim_end(s.drop_last())
    } else {
        s
    }
}

/// `s` without leading and trailing white space, as `str::trim` gives it.
pub open spec fn trim(s: Seq<char>) -> Seq<char> {
    trim_end(trim_start(s))
}

/// Strict lexicographic order of character sequences by code point: the order of `str`
/// (UTF-8 keeps the order of code points, so comparing bytes and comparing characters agree).
pub open spec fn text_lt(a: Seq<char>, b: Seq<char>) -> bool
    decreases a.len(),
{
    if a.len() == 0 {
        b.len() > 0
    } else if b.len() == 0 {
        false
    } else if (a[0] as int) < (b[0] as int) {
        true
    } else if a[0] == b[0] {
        text_lt(a.drop_first(), b.drop_first())
    } else {
        false
    }
}

/// Changing the case of ASCII letters does not change the lowercase form: the ASCII uppercase
/// form of an ASCII text is ASCII and has the same lowercase form.
pub proof fn law_ascii_upper_keeps_lower(s: Seq<char>)
    requires
        all_ascii(s),
    ensures
        all_ascii(ascii_upper(s)),
        ascii_lower(ascii_upper(s)) == ascii_lower(s),
{
    assert forall|i: int| 0 <= i < s.len() implies ascii_lower_char(ascii_upper_char(s[i])) == ascii_lower_char(s[i]) && (#[trigger] ascii_upper(s)[i] as int) < 128 by {
        let c = s[i];
        assert((c as int) < 128);
        if 'a' <= c <= 'z' {
            assert(((c as int) - 32) as char as int == (c as int) - 32);
        } else if 'A' <= c <= 'Z' {
        }
    }
    assert(ascii_lower(ascii_upper(s)) =~= ascii_lower(s));
}

/// Lowercasing an ASCII text twice gives what lowercasing it once gives, and the result is
/// ASCII.
pub proof fn law_ascii_lower_is_stable(s: Seq<char>)
    requires
        all_ascii(s),
    ensures
        all_ascii(lower_text(s)),
        lower_text(lower_text(s)) == lower_text(s),
{
    assert forall|i: int| 0 <= i < s.len() implies ascii_lower_char(ascii_lower_char(s[i])) == ascii_lower_char(s[i]) && (#[trigger] ascii_lower(s)[i] as int) < 128 by {
        let c = s[i];
        if 'A' <= c <= 'Z' {
            assert(((c as int) + 32) as char as int == (c as int) + 32);
        }
    }
    assert(ascii_lower(ascii_lower(s)) =~= ascii_lower(s));
}

pub proof fn lemma_pieces_len(s: Seq<char>, sep: Sep)
    ensures
        pieces(s, sep).len() >= 1,
    decreases s.len(),
{
    if s.len() > 0 {
        lemma_pieces_len(s.drop_last(), sep);
    }
}

/// The last piece of a text split at `d` is what follows the last `d`: a suffix of the text
/// without `d`, that is the whole text or follows a `d`.
pub proof fn lemma_last_piece_follows_last_sep(s: Seq<char>, d: char)
    ensures
        last_piece(s, Sep::Ch(d)).len() <= s.len(),
        last_piece(s, Sep::Ch(d)) == s.subrange(s.len() - last_piece(s, Sep::Ch(d)).len(), s.len() as int),
        forall|j: int| 0 <= j < last_piece(s, Sep::Ch(d)).len() ==> #[trigger] last_piece(s, Sep::Ch(d))[j] != d,
        last_piece(s, Sep::Ch(d)).len() == s.len() || s[s.len() - last_piece(s, Sep::Ch(d)).len() - 1] == d,
    decreases s.len(),
{
    if s.len() == 0 {
        assert(s.subrange(0, 0) =~= Seq::<char>::empty());
    } else {
        let t = s.drop_last();
        lemma_last_piece_follows_last_sep(t, d);
        lemma_pieces_len(t, Sep::Ch(d));
        let p = pieces(t, Sep::Ch(d));
        let n0 = last_piece(t, Sep::Ch(d));
        assert(n0 == p.last());
        if s.last() == d {
            assert(last_piece(s, Sep::Ch(d)) =~= Seq::<char>::empty());
            assert(s.subrange(s.len() as int, s.len() as int) =~= Seq::<char>::empty());
        } else {
            let n = n0.push(s.last());
            assert(last_piece(s, Sep::Ch(d)) == n);
            assert(s.subrange(s.len() - n.len(), s.len() as int) =~= t.subrange(
                t.len() - n0.len(),
                t.len() as int,
            ).push(s.last()));
            assert forall|j: int| 0 <= j < n.len() implies #[trigger] n[j] != d by {
                if j < n0.len() {
                    assert(n[j] == n0[j]);
                }
            }
            if n0.len() < t.len() {
                assert(s[s.len() - n.len() - 1] == t[t.len() - n0.len() - 1]);
            }
        }
    }
}

/// The first piece of a text split at `d` is what comes before the first `d`: a prefix of
/// the text without `d`, that is the whole text (exactly where the text splits into one piece)
/// or is followed by a `d`.
pub proof fn lemma_first_piece_before_first_sep(s: Seq<char>, d: char)
    ensures
        first_piece(s, Sep::Ch(d)).len() <= s.len(),
        first_piece(s, Sep::Ch(d)) == s.subrange(0, first_piece(s, Sep::Ch(d)).len() as int),
        forall|j: int| 0 <= j < first_piece(s, Sep::Ch(d)).len() ==> #[trigger] first_piece(s, Sep::Ch(d))[j] != d,
        first_piece(s, Sep::Ch(d)).len() == s.len() || s[first_piece(s, Sep::Ch(d)).len() as int] == d,
        (first_piece(s, Sep::Ch(d)).len() == s.len()) == (pieces(s, Sep::Ch(d)).len() == 1),
    decreases s.len(),
{
    if s.len() == 0 {
        assert(s.subrange(0, 0) =~= Seq::<char>::empty());
    } else {
        let t = s.drop_last();
        lemma_first_piece_before_first_sep(t, d);
        lemma_pieces_len(t, Sep::Ch(d));
        let p = pieces(t, Sep::Ch(d));
        let f0 = first_piece(t, Sep::Ch(d));
        if s.last() == d {
            assert(pieces(s, Sep::Ch(d))[0] == p[0]);
            assert(s.subrange(0, f0.len() as int) =~= t.subrange(0, f0.len() as int));
            if f0.len() < t.len() {
                assert(s[f0.len() as int] == t[f0.len() as int]);
            }
        } else if p.len() > 1 {
            assert(pieces(s, Sep::Ch(d))[0] == p[0]);
            assert(s.subrange(0, f0.len() as int) =~= t.subrange(0, f0.len() as int));
            assert(s[f0.len() as int] == t[f0.len() as int]);
        } else {
            assert(pieces(s, Sep::Ch(d))[0] == f0.push(s.last()));
            assert(f0 =~= t);
            assert(f0.push(s.last()) =~= s);
            assert(s.subrange(0, s.len() as int) =~= s);
            assert forall|j: int| 0 <= j < f0.len() + 1 implies #[trigger] f0.push(s.last())[j] != d by {
                if j < f0.len() {
                    assert(f0.push(s.last())[j] == f0[j]);
                }
            }
        }
    }
}

pub proof fn lemma_text_lt_irreflexive(a: Seq<char>)
    ensures
        !text_lt(a, a),
    decreases a.len(),
{
    if a.len() > 0 {
        lemma_text_lt_irreflexive(a.drop_first());
    }
}

pub proof fn lemma_text_lt_transitive(a: Seq<char>, b: Seq<char>, c: Seq<char>)
    requires
        text_lt(a, b),
        text_lt(b, c),
    ensures
        text_lt(a, c),
    decreases a.len(),
{
    if a.len() > 0 && b.len() > 0 && c.len() > 0 && a[0] == b[0] && b[0] == c[0] {
        lemma_text_lt_transitive(a.drop_first(), b.drop_first(), c.drop_first());
    }
}

pub proof fn lemma_text_lt_total(a: Seq<char>, b: Seq<char>)
    ensures
        text_lt(a, b) || text_lt(b, a) || a == b,
    decreases a.len(),
{
    if a.len() > 0 && b.len() > 0 {
        if a[0] == b[0] {
            lemma_text_lt_total(a.drop_first(), b.drop_first());
            if a.drop_first() == b.drop_first() {
                assert(a =~= seq![a[0]] + a.drop_first());
                assert(b =~= seq![b[0]] + b.drop_first());
            }
        } else {
            assert((a[0] as int) != (b[0] as int));
        }
    } else if a.len() == 0 && b.len() == 0 {
        assert(a =~= b);
    }
}

// ---------------------------------------------------------------------------------------------
// Executable helpers.
// ---------------------------------------------------------------------------------------------

/// Copies the characters of a string slice into a vector.
pub fn chars_of(s: &str) -> (v: Vec<char>)
    ensures
        v@ == s@,
{
    let mut v: Vec<char> = Vec::new();
    for c in it: s.chars()
        invariant
            v@ == it.seq().take(it.index() as int),
            it.seq() == s@,
    {
        v.push(c);
    }
    v
}

/// Builds a string of the given characters.
pub fn string_of(v: &Vec<char>) -> (s: String)
    ensures
        s@ == v@,
{
    let mut s = String::new();
    for i in 0..v.len()
        invariant
            s@ == v@.take(i as int),
    {
        push_char(&mut s, v[i]);
        assert(v@.take(i + 1) =~= v@.take(i as int).push(v@[i as int]));
    }
    assert(v@.take(v.len() as int) =~= v@);
    s
}

/// Builds one string for each character vector.
pub fn strings_of(v: &Vec<Vec<char>>) -> (r: Vec<String>)
    ensures
        string_views(r@) == views(v@),
{
    let mut r: Vec<String> = Vec::new();
    for i in 0..v.len()
        invariant
            string_views(r@) == views(v@).take(i as int),
    {
        let s = string_of(&v[i]);
        let ghost fv = views(v@);
        let ghost old_r = r@;
        assert(fv[i as int] == v@[i as int]@);
        r.push(s);
        proof {
            assert(string_views(r@) =~= string_views(old_r).push(fv[i as int]));
            assert(fv.take(i + 1) =~= fv.take(i as int).push(fv[i as int]));
        }
    }
    proof {
        assert(views(v@).take(v.len() as int) =~= views(v@));
    }
    r
}

/// A copy of a character vector.
pub fn copy_chars(v: &Vec<char>) -> (r: Vec<char>)
    ensures
        r@ == v@,
{
    let mut r: Vec<char> = Vec::new();
    for i in 0..v.len()
        invariant
            r@ == v@.take(i as int),
    {
        r.push(v[i]);
        assert(v@.take(i + 1) =~= v@.take(i as int).push(v@[i as int]));
    }
    assert(v@.take(v.len() as int) =~= v@);
    r
}

/// Whether two character vectors hold the same characters.
pub fn same_chars(a: &Vec<char>, b: &Vec<char>) -> (r: bool)
    ensures
        r == (a@ == b@),
{
    if a.len() != b.len() {
        return false;
    }
    for i in 0..a.len()
        invariant
            a.len() == b.len(),
            forall|j: int| 0 <= j < i ==> a@[j] == b@[j],
    {
        if a[i] != b[i] {
            return false;
        }
    }
    assert(a@ =~= b@);
    true
}

/// Whether two strings hold the same characters.
pub fn same_text(a: &str, b: &str) -> (r: bool)
    ensures
        r == (a@ == b@),
{
    same_chars(&chars_of(a), &chars_of(b))
}

/// Whether `needle` occurs in `hay` at position `at`.
fn occurs_at(hay: &Vec<char>, needle: &Vec<char>, at: usize) -> (r: bool)
    requires
        at + needle.len() <= hay.len(),
    ensures
        r == (hay@.subrange(at as int, at + needle.len()) == needle@),
{
    for j in 0..needle.len()
        invariant
            at + needle.len() <= hay.len(),
            forall|k: int| 0 <= k < j ==> hay@[at + k] == needle@[k],
    {
        if hay[at + j] != needle[j] {
            assert(hay@.subrange(at as int, at + needle.len())[j as int] != needle@[j as int]);
            return false;
        }
    }
    assert(hay@.subrange(at as int, at + needle.len()) =~= needle@);
    true
}

/// Whether `needle` occurs in `hay` (`str::contains`).
pub fn occurs(hay: &Vec<char>, needle: &Vec<char>) -> (r: bool)
    ensures
        r == occurs_in(hay@, needle@),
{
    if needle.len() == 0 {
        assert(hay@.subrange(0int, 0int + needle@.len()) =~= needle@);
        return true;
    }
    if needle.len() > hay.len() {
        return false;
    }
    let last = hay.len() - needle.len();
    let mut i: usize = 0;
    while i <= last
        invariant
            last + needle.len() == hay.len(),
            needle.len() >= 1,
            forall|k: int| 0 <= k < i ==> #[trigger] hay@.subrange(k, k + needle.len()) != needle@,
        decreases last + 1 - i,
    {
        if occurs_at(hay, needle, i) {
            return true;
        }
        i = i + 1;
    }
    false
}

/// Whether `s` begins with `prefix` (`str::starts_with`).
pub fn begins_with(s: &Vec<char>, prefix: &Vec<char>) -> (r: bool)
    ensures
        r == prefix@.is_prefix_of(s@),
{
    if prefix.len() > s.len() {
        return false;
    }
    let r = occurs_at(s, prefix, 0);
    proof {
        if r {
            assert(prefix@ =~= s@.subrange(0, prefix@.len() as int));
        }
    }
    r
}

/// Whether `s` ends with `suffix` (`str::ends_with`).
pub fn finishes_with(s: &Vec<char>, suffix: &Vec<char>) -> (r: bool)
    ensures
        r == suffix@.is_suffix_of(s@),
{
    if suffix.len() > s.len() {
        return false;
    }
    let at = s.len() - suffix.len();
    let r = occurs_at(s, suffix, at);
    proof {
        if r {
            assert(suffix@ =~= s@.subrange(at as int, s@.len() as int));
        }
    }
    r
}

fn sep_matches(sep: &Sep, c: char) -> (r: bool)
    ensures
        r == is_sep(*sep, c),
{
    match sep {
        Sep::Ch(d) => c == *d,
        Sep::NameParts => c == '-' || c == '_' || c == '.',
        Sep::Space => is_white_space(c),
    }
}

/// Splits `s` at every separator (`str::split`).
pub fn split_pieces(s: &Vec<char>, sep: Sep) -> (r: Vec<Vec<char>>)
    ensures
        views(r@) == pieces(s@, sep),
{
    let mut out: Vec<Vec<char>> = Vec::new();
    out.push(Vec::new());
    proof {
        assert(s@.take(0) =~= Seq::<char>::empty());
        assert(views(out@) =~= pieces(s@.take(0), sep));
    }
    for i in 0..s.len()
        invariant
            views(out@) == pieces(s@.take(i as int), sep),
    {
        let c = s[i];
        proof {
            assert(s@.take(i + 1).drop_last() =~= s@.take(i as int));
            assert(s@.take(i + 1).last() == c);
            lemma_pieces_len(s@.take(i as int), sep);
        }
        let ghost before = out@;
        if sep_matches(&sep, c) {
            out.push(Vec::new());
            proof {
                assert(views(out@) =~= views(before).push(Seq::<char>::empty()));
            }
        } else {
            let mut last = out.pop().unwrap();
            last.push(c);
            out.push(last);
            proof {
                assert(views(out@) =~= views(before).update(
                    views(before).len() - 1,
                    views(before).last().push(c),
                ));
            }
        }
    }
    proof {
        assert(s@.take(s.len() as int) =~= s@);
    }
    out
}

/// The white-space separated words of `s` (`str::split_whitespace`).
pub fn split_words(s: &Vec<char>) -> (r: Vec<Vec<char>>)
    ensures
        views(r@) == words(s@),
{
    let all = split_pieces(s, Sep::Space);
    let ghost pred = |p: Seq<char>| p.len() > 0;
    let mut out: Vec<Vec<char>> = Vec::new();
    let mut i: usize = 0;
    let n = all.len();
    proof {
        reveal(Seq::filter);
        assert(views(all@).take(0) =~= Seq::<Seq<char>>::empty());
        assert(views(out@) =~= views(all@).take(0).filter(pred));
    }
    let mut all = all;
    let ghost all_v = views(all@);
    while i < n
        invariant
            n == all_v.len(),
            all.len() == n,
            views(all@) == all_v,
            all_v == pieces(s@, Sep::Space),
            pred == (|p: Seq<char>| p.len() > 0),
            i <= n,
            views(out@) == all_v.take(i as int).filter(pred),
        decreases n - i,
    {
        proof {
            reveal(Seq::filter);
            assert(all_v.take(i + 1).drop_last() =~= all_v.take(i as int));
            assert(all_v.take(i + 1).last() == all_v[i as int]);
        }
        let ghost before = out@;
        assert(all_v[i as int] == all@[i as int]@);
        if all[i].len() > 0 {
            let piece = copy_chars(&all[i]);
            out.push(piece);
            proof {
                assert(pred(all_v[i as int]));
                assert(all_v.take(i + 1).filter(pred) == all_v.take(i as int).filter(pred).push(all_v[i as int]));
                assert(views(out@) =~= views(before).push(all_v[i as int]));
            }
        } else {
            proof {
                assert(!pred(all_v[i as int]));
                assert(all_v.take(i + 1).filter(pred) == all_v.take(i as int).filter(pred));
            }
        }
        i = i + 1;
    }
    proof {
        assert(all_v.take(n as int) =~= all_v);
    }
    out
}

/// The lines of a text (`str::lines`).
pub fn split_lines(s: &Vec<char>) -> (r: Vec<Vec<char>>)
    ensures
        views(r@) == lines(s@),
{
    let mut p = split_pieces(s, Sep::Ch('\n'));
    let ghost pv = views(p@);
    proof {
        lemma_pieces_len(s@, Sep::Ch('\n'));
    }
    let n = p.len();
    let keep = if p[n - 1].len() == 0 {
        n - 1
    } else {
        n
    };
    let mut out: Vec<Vec<char>> = Vec::new();
    for i in 0..keep
        invariant
            n == p.len(),
            n >= 1,
            keep <= n,
            pv == views(p@),
            pv == pieces(s@, Sep::Ch('\n')),
            out.len() == i,
            forall|j: int|
                0 <= j < i ==> (#[trigger] out@[j])@ == (if j < n - 1 {
                    strip_cr(pv[j])
                } else {
                    pv[j]
                }),
    {
        let mut line = copy_chars(&p[i]);
        assert(pv[i as int] == p@[i as int]@);
        assert(line@ == pv[i as int]);
        if i < n - 1 && line.len() > 0 && line[line.len() - 1] == '\r' {
            line.pop();
        }
        out.push(line);
    }
    proof {
        assert(views(out@) =~= lines(s@));
    }
    out
}

/// `s` without leading and trailing white space (`str::trim`).
pub fn trim_chars(s: &Vec<char>) -> (r: Vec<char>)
    ensures
        r@ == trim(s@),
{
    let mut lo: usize = 0;
    assert(s@.skip(0) =~= s@);
    while lo < s.len() && is_white_space(s[lo])
        invariant
            lo <= s.len(),
            trim_start(s@) == trim_start(s@.skip(lo as int)),
        decreases s.len() - lo,
    {
        proof {
            assert(s@.skip(lo as int).drop_first() =~= s@.skip(lo + 1));
        }
        lo = lo + 1;
    }
    let mut hi: usize = s.len();
    let ghost t = s@.skip(lo as int);
    proof {
        assert(trim_start(t) == t);
        assert(t =~= s@.subrange(lo as int, hi as int));
    }
    while hi > lo && is_white_space(s[hi - 1])
        invariant
            lo <= hi <= s.len(),
            t == s@.skip(lo as int),
            trim_end(t) == trim_end(s@.subrange(lo as int, hi as int)),
        decreases hi,
    {
        proof {
            assert(s@.subrange(lo as int, hi as int).drop_last() =~= s@.subrange(lo as int, hi - 1));
        }
        hi = hi - 1;
    }
    let mut r: Vec<char> = Vec::new();
    for k in lo..hi
        invariant
            lo <= hi <= s.len(),
            r@ == s@.subrange(lo as int, k as int),
    {
        r.push(s[k]);
        assert(s@.subrange(lo as int, k + 1) =~= s@.subrange(lo as int, k as int).push(s@[k as int]));
    }
    proof {
        assert(trim_end(s@.subrange(lo as int, hi as int)) == s@.subrange(lo as int, hi as int));
    }
    r
}

/// Whether `a` comes strictly before `b` in the order of strings.
pub fn text_less(a: &Vec<char>, b: &Vec<char>) -> (r: bool)
    ensures
        r == text_lt(a@, b@),
{
    let mut i: usize = 0;
    assert(a@.skip(0) =~= a@);
    assert(b@.skip(0) =~= b@);
    while i < a.len() && i < b.len() && a[i] == b[i]
        invariant
            i <= a.len(),
            i <= b.len(),
            text_lt(a@, b@) == text_lt(a@.skip(i as int), b@.skip(i as int)),
        decreases a.len() - i,
    {
        proof {
            assert(a@.skip(i as int).drop_first() =~= a@.skip(i + 1));
            assert(b@.skip(i as int).drop_first() =~= b@.skip(i + 1));
        }
        i = i + 1;
    }
    if i == a.len() {
        i < b.len()
    } else if i == b.len() {
        false
    } else {
        proof {
            assert(a@.skip(i as int)[0] == a@[i as int]);
            assert(b@.skip(i as int)[0] == b@[i as int]);
        }
        a[i] < b[i]
    }
}

} // verus!
