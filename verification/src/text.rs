//! Character-level text utilities: trimming, substring search, and the
//! normalization rules applied to OCR lines before they become vocabulary
//! items.

use vstd::prelude::*;
use vstd::string::*;

verus! {

/// A character with the Unicode `White_Space` property, the set that
/// `str::trim` removes at either end of a string.
pub open spec fn is_space(c: char) -> bool {
    ||| c == ' '
    ||| c == '\t'
    ||| c == '\n'
    ||| c == '\r'
    ||| c == '\u{b}'
    ||| c == '\u{c}'
    ||| c == '\u{85}'
    ||| c == '\u{a0}'
    ||| c == '\u{1680}'
    ||| ('\u{2000}' as u32) <= (c as u32) && (c as u32) <= ('\u{200a}' as u32)
    ||| c == '\u{2028}'
    ||| c == '\u{2029}'
    ||| c == '\u{202f}'
    ||| c == '\u{205f}'
    ||| c == '\u{3000}'
}

pub fn is_space_char(c: char) -> (r: bool)
    ensures
        r == is_space(c),
{
    c == ' ' || c == '\t' || c == '\n' || c == '\r' || c == '\u{b}' || c == '\u{c}'
        || c == '\u{85}' || c == '\u{a0}' || c == '\u{1680}'
        || (('\u{2000}' as u32) <= (c as u32) && (c as u32) <= ('\u{200a}' as u32))
        || c == '\u{2028}' || c == '\u{2029}' || c == '\u{202f}' || c == '\u{205f}'
        || c == '\u{3000}'
}

/// An ASCII decimal digit.
pub open spec fn is_digit(c: char) -> bool {
    ('0' as u32) <= (c as u32) && (c as u32) <= ('9' as u32)
}

pub fn is_digit_char(c: char) -> (r: bool)
    ensures
        r == is_digit(c),
{
    ('0' as u32) <= (c as u32) && (c as u32) <= ('9' as u32)
}

/// The characters of a string, in order.
pub fn str_to_chars(s: &str) -> (r: Vec<char>)
    ensures
        r@ == s@,
{
    let n = s.unicode_len();
    let mut r: Vec<char> = Vec::new();
    let mut i: usize = 0;
    while i < n
        invariant
            n == s@.len(),
            i <= n,
            r@ == s@.subrange(0, i as int),
        decreases n - i,
    {
        let c = s.get_char(i);
        r.push(c);
        proof {
            assert(s@.subrange(0, i + 1 as int) =~= s@.subrange(0, i as int).push(s@[i as int]));
        }
        i = i + 1;
    }
    proof {
        assert(s@.subrange(0, n as int) =~= s@);
    }
    r
}

/// Relies on `String::from_iter`: collecting characters yields the string
/// holding exactly those characters, in order.
#[verifier::external_body]
pub(crate) fn chars_to_string(v: &Vec<char>) -> (r: String)
    ensures
        r@ == v@,
{
    v.iter().collect()
}

/// What `str::to_lowercase` returns; the result depends on the characters
/// alone.
pub uninterp spec fn lower_of(s: Seq<char>) -> Seq<char>;

/// Relies on `str::to_lowercase`: the lowercased text is a function of the
/// input characters alone.
#[verifier::external_body]
pub(crate) fn to_lowercase_string(s: &str) -> (r: String)
    ensures
        r@ == lower_of(s@),
{
    s.to_lowercase()
}

/// Whether `char::is_uppercase` holds of a character; a function of the
/// character alone.
pub uninterp spec fn is_upper(c: char) -> bool;

/// Relies on `char::is_uppercase`: whether the character is uppercase is a
/// function of the character alone.
#[verifier::external_body]
pub(crate) fn char_is_uppercase(c: char) -> (r: bool)
    ensures
        r == is_upper(c),
{
    c.is_uppercase()
}

/// The longest suffix left after removing leading characters satisfying `p`.
pub open spec fn drop_start_while(s: Seq<char>, p: spec_fn(char) -> bool) -> Seq<char>
    decreases s.len(),
{
    if s.len() > 0 && p(s[0]) {
        drop_start_while(s.drop_first(), p)
    } else {
        s
    }
}

/// The longest prefix left after removing trailing characters satisfying `p`.
pub open spec fn drop_end_while(s: Seq<char>, p: spec_fn(char) -> bool) -> Seq<char>
    decreases s.len(),
{
    if s.len() > 0 && p(s.last()) {
        drop_end_while(s.drop_last(), p)
    } else {
        s
    }
}

/// If the first `i` characters satisfy `p` and the one after them (if any)
/// does not, dropping from the start removes exactly those `i` characters.
pub proof fn lemma_drop_start_while(s: Seq<char>, p: spec_fn(char) -> bool, i: int)
    requires
        0 <= i <= s.len(),
        forall|k: int| 0 <= k < i ==> p(s[k]),
        i < s.len() ==> !p(s[i]),
    ensures
        drop_start_while(s, p) == s.skip(i),
    decreases s.len(),
{
    if i == 0 {
        assert(s.skip(0) =~= s);
    } else {
        lemma_drop_start_while(s.drop_first(), p, i - 1);
        assert(s.drop_first().skip(i - 1) =~= s.skip(i));
    }
}

/// If the characters from `e` on satisfy `p` and the one before them (if
/// any) does not, dropping from the end keeps exactly the first `e`.
pub proof fn lemma_drop_end_while(s: Seq<char>, p: spec_fn(char) -> bool, e: int)
    requires
        0 <= e <= s.len(),
        forall|k: int| e <= k < s.len() ==> p(s[k]),
        e > 0 ==> !p(s[e - 1]),
    ensures
        drop_end_while(s, p) == s.take(e),
    decreases s.len(),
{
    if e == s.len() {
        if s.len() > 0 && p(s.last()) {
            assert(!p(s[e - 1]));
            assert(false);
        }
        assert(s.take(e) =~= s);
    } else {
        assert(p(s.last()));
        lemma_drop_end_while(s.drop_last(), p, e);
        assert(s.drop_last().take(e) =~= s.take(e));
    }
}

pub proof fn lemma_drop_start_while_len(s: Seq<char>, p: spec_fn(char) -> bool)
    ensures
        drop_start_while(s, p).len() <= s.len(),
    decreases s.len(),
{
    if s.len() > 0 && p(s[0]) {
        lemma_drop_start_while_len(s.drop_first(), p);
    }
}

pub proof fn lemma_drop_end_while_len(s: Seq<char>, p: spec_fn(char) -> bool)
    ensures
        drop_end_while(s, p).len() <= s.len(),
    decreases s.len(),
{
    if s.len() > 0 && p(s.last()) {
        lemma_drop_end_while_len(s.drop_last(), p);
    }
}

/// Dropping from the start keeps the last character when anything is left.
pub proof fn lemma_drop_start_while_last(s: Seq<char>, p: spec_fn(char) -> bool)
    requires
        drop_start_while(s, p).len() > 0,
    ensures
        s.len() > 0,
        drop_start_while(s, p).last() == s.last(),
    decreases s.len(),
{
    if s.len() > 0 && p(s[0]) {
        lemma_drop_start_while_last(s.drop_first(), p);
    }
}

/// The whitespace-trimmed form of a character sequence, as `str::trim`
/// produces it.
pub open spec fn trim_spec(s: Seq<char>) -> Seq<char> {
    drop_end_while(drop_start_while(s, |c: char| is_space(c)), |c: char| is_space(c))
}

/// The characters of `v` between `from` and `to`.
pub fn subvec(v: &Vec<char>, from: usize, to: usize) -> (r: Vec<char>)
    requires
        from <= to <= v@.len(),
    ensures
        r@ == v@.subrange(from as int, to as int),
{
    let mut r: Vec<char> = Vec::new();
    let mut i: usize = from;
    while i < to
        invariant
            from <= i <= to <= v@.len(),
            r@ == v@.subrange(from as int, i as int),
        decreases to - i,
    {
        r.push(v[i]);
        proof {
            assert(v@.subrange(from as int, i + 1 as int) =~= v@.subrange(
                from as int,
                i as int,
            ).push(v@[i as int]));
        }
        i = i + 1;
    }
    r
}

/// The trimmed form of `v`: both ends stripped of whitespace.
pub fn trim_chars(v: &Vec<char>) -> (r: Vec<char>)
    ensures
        r@ == trim_spec(v@),
{
    let ghost p = |c: char| is_space(c);
    let mut start: usize = 0;
    while start < v.len() && is_space_char(v[start])
        invariant
            start <= v@.len(),
            forall|k: int| 0 <= k < start ==> is_space(v@[k]),
        decreases v@.len() - start,
    {
        start = start + 1;
    }
    proof {
        lemma_drop_start_while(v@, p, start as int);
    }
    let ghost mid = v@.skip(start as int);
    let mut end: usize = v.len();
    while end > start && is_space_char(v[end - 1])
        invariant
            start <= end <= v@.len(),
            forall|k: int| end <= k < v@.len() ==> is_space(v@[k]),
        decreases end,
    {
        end = end - 1;
    }
    proof {
        assert(forall|k: int|
            end - start <= k < mid.len() ==> mid[k] == v@[k + start] && is_space(mid[k]));
        assert(end > start ==> !p(mid[end - start - 1]));
        lemma_drop_end_while(mid, p, end - start as int);
        assert(mid.take(end - start as int) =~= v@.subrange(start as int, end as int));
    }
    subvec(v, start, end)
}

/// Appends all characters of `src` to `dst`.
pub fn append_chars(dst: &mut Vec<char>, src: &Vec<char>)
    ensures
        final(dst)@ == old(dst)@ + src@,
{
    let mut i: usize = 0;
    while i < src.len()
        invariant
            i <= src@.len(),
            dst@ == old(dst)@ + src@.take(i as int),
        decreases src@.len() - i,
    {
        dst.push(src[i]);
        proof {
            assert((old(dst)@ + src@.take(i as int)).push(src@[i as int]) =~= old(dst)@
                + src@.take(i + 1));
        }
        i = i + 1;
    }
    proof {
        assert(old(dst)@ + src@.take(src@.len() as int) =~= old(dst)@ + src@);
    }
}

/// Whether `v` holds the character `c`.
pub fn contains_char(v: &Vec<char>, c: char) -> (r: bool)
    ensures
        r == v@.contains(c),
{
    let mut i: usize = 0;
    while i < v.len()
        invariant
            i <= v@.len(),
            forall|k: int| 0 <= k < i ==> v@[k] != c,
        decreases v@.len() - i,
    {
        if v[i] == c {
            return true;
        }
        i = i + 1;
    }
    false
}

/// Whether `needle` occurs as a contiguous run inside `hay`.
pub open spec fn contains_seq(hay: Seq<char>, needle: Seq<char>) -> bool {
    exists|i: int|
        0 <= i && i + needle.len() <= hay.len() && #[trigger] hay.subrange(i, i + needle.len())
            == needle
}

/// Whether `hay` begins with `needle`.
pub open spec fn starts_with(hay: Seq<char>, needle: Seq<char>) -> bool {
    needle.len() <= hay.len() && hay.take(needle.len() as int) == needle
}

/// Whether `hay` matches `needle` at position `at`.
fn matches_at(hay: &Vec<char>, needle: &Vec<char>, at: usize) -> (r: bool)
    requires
        at + needle@.len() <= hay@.len(),
    ensures
        r == (hay@.subrange(at as int, at + needle@.len()) == needle@),
{
    let hay_len = hay.len();
    let mut j: usize = 0;
    while j < needle.len()
        invariant
            j <= needle@.len(),
            at + needle@.len() <= hay@.len(),
            hay@.len() == hay_len,
            forall|k: int| 0 <= k < j ==> hay@[at + k] == needle@[k],
        decreases needle@.len() - j,
    {
        if hay[at + j] != needle[j] {
            proof {
                assert(hay@.subrange(at as int, at + needle@.len())[j as int] != needle@[j as int]);
            }
            return false;
        }
        j = j + 1;
    }
    proof {
        assert(hay@.subrange(at as int, at + needle@.len()) =~= needle@);
    }
    true
}

/// Substring search: whether `needle` occurs anywhere inside `hay`.
pub fn contains_sub(hay: &Vec<char>, needle: &Vec<char>) -> (r: bool)
    ensures
        r == contains_seq(hay@, needle@),
{
    if needle.len() > hay.len() {
        return false;
    }
    if needle.len() == 0 {
        proof {
            assert(hay@.subrange(0, 0 + needle@.len() as int) =~= needle@);
        }
        return true;
    }
    let last = hay.len() - needle.len();
    let hay_len = hay.len();
    let mut i: usize = 0;
    while i <= last
        invariant
            needle@.len() >= 1,
            hay@.len() == hay_len,
            last + needle@.len() == hay@.len(),
            i <= last + 1,
            forall|k: int|
                0 <= k < i ==> #[trigger] hay@.subrange(k, k + needle@.len()) != needle@,
        decreases last + 1 - i,
    {
        if matches_at(hay, needle, i) {
            return true;
        }
        i = i + 1;
    }
    false
}

/// Whether `hay` begins with `needle`, checked character by character.
pub fn starts_with_chars(hay: &Vec<char>, needle: &Vec<char>) -> (r: bool)
    ensures
        r == starts_with(hay@, needle@),
{
    if needle.len() > hay.len() {
        return false;
    }
    let r = matches_at(hay, needle, 0);
    proof {
        assert(hay@.subrange(0, needle@.len() as int) == hay@.take(needle@.len() as int));
    }
    r
}

/// One normalization pass over an item line, before the trailing trim: a
/// leading `"- "` is removed, then one leading space.
pub open spec fn strip_item_prefix(s: Seq<char>) -> Seq<char> {
    let t = if s.len() >= 2 && s[0] == '-' && s[1] == ' ' {
        s.skip(2)
    } else {
        s
    };
    if t.len() >= 1 && t[0] == ' ' {
        t.skip(1)
    } else {
        t
    }
}

/// Every `.` replaced by `,`.
pub open spec fn replace_dots(s: Seq<char>) -> Seq<char> {
    s.map_values(|c: char| if c == '.' { ',' } else { c })
}

/// The normalized form of a vocabulary line: trimmed, stripped of a leading
/// `"- "` or a single leading space, re-trimmed, and with `.` rendered as
/// `,`, the store's conventional separator.
pub open spec fn normalize_item_spec(s: Seq<char>) -> Seq<char> {
    replace_dots(trim_spec(strip_item_prefix(trim_spec(s))))
}

/// Normalizes an OCR line into vocabulary-item text.
pub fn normalize_item_text(text: &str) -> (r: String)
    ensures
        r@ == normalize_item_spec(text@),
{
    let chars = str_to_chars(text);
    let normalized = normalize_item_chars(&chars);
    chars_to_string(&normalized)
}

/// Normalizes an OCR line into vocabulary-item text, character form.
pub fn normalize_item_chars(chars: &Vec<char>) -> (r: Vec<char>)
    ensures
        r@ == normalize_item_spec(chars@),
{
    let trimmed = trim_chars(&chars);
    let after_dash = if trimmed.len() >= 2 {
        let c0 = trimmed[0];
        let c1 = trimmed[1];
        if c0 == '-' && c1 == ' ' {
            subvec(&trimmed, 2, trimmed.len())
        } else {
            trimmed
        }
    } else {
        trimmed
    };
    proof {
        assert(after_dash@ =~= (if trim_spec(chars@).len() >= 2 && trim_spec(chars@)[0] == '-'
            && trim_spec(chars@)[1] == ' ' {
            trim_spec(chars@).skip(2)
        } else {
            trim_spec(chars@)
        }));
    }
    let stripped = if after_dash.len() >= 1 {
        let c0 = after_dash[0];
        if c0 == ' ' {
            subvec(&after_dash, 1, after_dash.len())
        } else {
            after_dash
        }
    } else {
        after_dash
    };
    proof {
        assert(stripped@ =~= strip_item_prefix(trim_spec(chars@)));
    }
    let retrimmed = trim_chars(&stripped);
    let mut replaced: Vec<char> = Vec::new();
    let mut i: usize = 0;
    while i < retrimmed.len()
        invariant
            i <= retrimmed@.len(),
            replaced@ == replace_dots(retrimmed@.take(i as int)),
        decreases retrimmed@.len() - i,
    {
        let c = retrimmed[i];
        if c == '.' {
            replaced.push(',');
        } else {
            replaced.push(c);
        }
        proof {
            assert(replace_dots(retrimmed@.take(i + 1 as int)) =~= replace_dots(
                retrimmed@.take(i as int),
            ).push(if retrimmed@[i as int] == '.' { ',' } else { retrimmed@[i as int] }));
        }
        i = i + 1;
    }
    proof {
        assert(retrimmed@.take(retrimmed@.len() as int) =~= retrimmed@);
    }
    replaced
}

/// The heading text with every trailing `:` removed, then trimmed.
pub open spec fn normalize_heading_spec(s: Seq<char>) -> Seq<char> {
    trim_spec(drop_end_while(s, |c: char| c == ':'))
}

/// Strips trailing colons from a recognized heading and trims it; the result
/// names the group of the entries that follow.
pub fn normalize_heading(text: &str) -> (r: String)
    ensures
        r@ == normalize_heading_spec(text@),
{
    let chars = str_to_chars(text);
    let normalized = normalize_heading_chars(&chars);
    chars_to_string(&normalized)
}

/// Strips trailing colons and trims, character form.
pub fn normalize_heading_chars(chars: &Vec<char>) -> (r: Vec<char>)
    ensures
        r@ == normalize_heading_spec(chars@),
{
    let mut end: usize = chars.len();
    while end > 0 && chars[end - 1] == ':'
        invariant
            end <= chars@.len(),
            forall|k: int| end <= k < chars@.len() ==> chars@[k] == ':',
        decreases end,
    {
        end = end - 1;
    }
    proof {
        lemma_drop_end_while(chars@, |c: char| c == ':', end as int);
    }
    let cut = subvec(&chars, 0, end);
    proof {
        assert(cut@ =~= chars@.take(end as int));
    }
    trim_chars(&cut)
}

/// Whether a trimmed line is nothing but ASCII digits — a page number, not a
/// vocabulary entry.
pub open spec fn page_number_spec(s: Seq<char>) -> bool {
    let t = trim_spec(s);
    t.len() > 0 && forall|k: int| 0 <= k < t.len() ==> is_digit(t[k])
}

/// Recognizes page-number noise: a non-empty all-digit line.
pub fn looks_like_page_number(text: &str) -> (r: bool)
    ensures
        r == page_number_spec(text@),
{
    let chars = str_to_chars(text);
    looks_like_page_number_chars(&chars)
}

/// Recognizes page-number noise, character form.
pub fn looks_like_page_number_chars(text: &Vec<char>) -> (r: bool)
    ensures
        r == page_number_spec(text@),
{
    let t = trim_chars(&text);
    if t.len() == 0 {
        return false;
    }
    let mut i: usize = 0;
    while i < t.len()
        invariant
            t@ == trim_spec(text@),
            t@.len() > 0,
            i <= t@.len(),
            forall|k: int| 0 <= k < i ==> is_digit(t@[k]),
        decreases t@.len() - i,
    {
        if !is_digit_char(t[i]) {
            proof {
                assert(!is_digit(trim_spec(text@)[i as int]));
            }
            return false;
        }
        i = i + 1;
    }
    true
}

/// The chapter-marker tokens searched for in a lowercased line.  The third
/// token tolerates a common OCR misread of the Dutch word, and the final
/// pair catches further misreads that keep its first and last letters.
pub open spec fn chapter_line_spec(lowered: Seq<char>) -> bool {
    ||| contains_seq(lowered, "hoofdstuk"@)
    ||| contains_seq(lowered, "chapter"@)
    ||| contains_seq(lowered, "hoolastuk"@)
    ||| (starts_with(lowered, "hoo"@) && contains_seq(lowered, "stuk"@))
}

/// Recognizes chapter-heading noise, character form.
pub fn looks_like_chapter_line_chars(text: &Vec<char>) -> (r: bool)
    ensures
        r == chapter_line_spec(lower_of(text@)),
{
    let s = chars_to_string(text);
    looks_like_chapter_line(s.as_str())
}

/// Recognizes chapter-heading noise, case-insensitively and tolerant of OCR
/// misreads.
pub fn looks_like_chapter_line(text: &str) -> (r: bool)
    ensures
        r == chapter_line_spec(lower_of(text@)),
{
    let lowered = to_lowercase_string(text);
    let l = str_to_chars(lowered.as_str());
    let hoofdstuk = str_to_chars("hoofdstuk");
    let chapter = str_to_chars("chapter");
    let hoolastuk = str_to_chars("hoolastuk");
    let hoo = str_to_chars("hoo");
    let stuk = str_to_chars("stuk");
    if contains_sub(&l, &hoofdstuk) || contains_sub(&l, &chapter) || contains_sub(&l, &hoolastuk) {
        return true;
    }
    starts_with_chars(&l, &hoo) && contains_sub(&l, &stuk)
}

/// Normalization is idempotent on already-normalized text: a trimmed line
/// with no leading `"- "` and no `.` comes back from normalization
/// unchanged.  (Text that still carries a second `"- "` prefix after one
/// pass is changed again by the next pass, so the guards are necessary.)
pub proof fn lemma_normalize_idempotent(s: Seq<char>)
    requires
        trim_spec(s) == s,
        !(s.len() >= 2 && s[0] == '-' && s[1] == ' '),
        !s.contains('.'),
    ensures
        normalize_item_spec(s) == s,
{
    lemma_trim_fixed_point_ends(s);
    assert(strip_item_prefix(s) == s);
    assert(replace_dots(s) =~= s);
}

/// A trim fixed point has no whitespace at either end.
pub proof fn lemma_trim_fixed_point_ends(s: Seq<char>)
    requires
        trim_spec(s) == s,
    ensures
        s.len() > 0 ==> !is_space(s[0]),
        s.len() > 0 ==> !is_space(s.last()),
{
    let p = |c: char| is_space(c);
    if s.len() > 0 {
        if is_space(s[0]) {
            lemma_drop_start_while_len(s.drop_first(), p);
            lemma_drop_end_while_len(drop_start_while(s.drop_first(), p), p);
            assert(trim_spec(s).len() < s.len());
            assert(false);
        }
        if is_space(s.last()) {
            let m = drop_start_while(s, p);
            if m.len() == 0 {
                assert(trim_spec(s).len() == 0);
                assert(false);
            } else {
                lemma_drop_start_while_last(s, p);
                assert(is_space(m.last()));
                lemma_drop_end_while_len(m.drop_last(), p);
                lemma_drop_start_while_len(s, p);
                assert(trim_spec(s).len() < s.len());
                assert(false);
            }
        }
    }
}

} // verus!
