//! Text helpers for search: Unicode lowercasing (named, taken on trust from
//! the standard library) and a verified substring search over characters.

use vstd::prelude::*;

verus! {

/// The Unicode lowercase folding of a character sequence, as
/// `str::to_lowercase` computes it. A function of the characters alone.
pub uninterp spec fn lower_of(s: Seq<char>) -> Seq<char>;

/// Relies on `str::to_lowercase`: the Unicode lowercase of the string,
/// depending on its characters alone.
#[verifier::external_body]
pub(crate) fn lowercase(s: &str) -> (r: String)
    ensures
        r@ == lower_of(s@),
{
    s.to_lowercase()
}

/// Whether `needle` occurs contiguously inside `hay`. The empty sequence
/// occurs in everything.
pub open spec fn is_substring_of(needle: Seq<char>, hay: Seq<char>) -> bool {
    exists|k: int|
        0 <= k <= hay.len() - needle.len() && #[trigger] hay.subrange(k, k + needle.len())
            == needle
}

/// The blank characters that are stripped from the ends of a tag.
pub open spec fn is_space(c: char) -> bool {
    c == ' ' || c == '\t' || c == '\n' || c == '\r'
}

/// A sequence without its leading blanks.
pub open spec fn trim_front(s: Seq<char>) -> Seq<char>
    decreases s.len(),
{
    if s.len() > 0 && is_space(s.first()) {
        trim_front(s.drop_first())
    } else {
        s
    }
}

/// A sequence without its trailing blanks.
pub open spec fn trim_back(s: Seq<char>) -> Seq<char>
    decreases s.len(),
{
    if s.len() > 0 && is_space(s.last()) {
        trim_back(s.drop_last())
    } else {
        s
    }
}

/// A sequence without its leading and trailing blanks.
pub open spec fn trim(s: Seq<char>) -> Seq<char> {
    trim_back(trim_front(s))
}

/// The end of the comma-free segment starting at `pos`: the first comma at
/// or after it, or the end of the sequence.
pub open spec fn seg_end(s: Seq<char>, pos: int) -> int
    decreases s.len() - pos when 0 <= pos <= s.len()
{
    if pos < 0 || pos >= s.len() || s[pos] == ',' {
        pos
    } else {
        seg_end(s, pos + 1)
    }
}

/// The segment ends exactly at the first comma, or at the end.
pub proof fn lemma_seg_end(s: Seq<char>, pos: int, e: int)
    requires
        0 <= pos <= e <= s.len(),
        forall|i: int| pos <= i < e ==> s[i] != ',',
        e == s.len() || s[e] == ',',
    ensures
        seg_end(s, pos) == e,
    decreases e - pos,
{
    if pos < e {
        lemma_seg_end(s, pos + 1, e);
    }
}

/// The segment end lies between `pos` and the end of the sequence.
pub proof fn lemma_seg_end_props(s: Seq<char>, pos: int)
    requires
        0 <= pos <= s.len(),
    ensures
        pos <= seg_end(s, pos) <= s.len(),
    decreases s.len() - pos,
{
    if pos >= s.len() || s[pos] == ',' {
    } else {
        lemma_seg_end_props(s, pos + 1);
    }
}

/// The comma-separated tags of the text from `pos` on, each trimmed of
/// blanks, empty segments dropped.
pub open spec fn tags_from(s: Seq<char>, pos: int) -> Seq<Seq<char>>
    decreases s.len() - pos + 1 when 0 <= pos <= s.len() + 1 via tags_from_decreases
{
    if pos < 0 || pos > s.len() {
        Seq::empty()
    } else {
        let e = seg_end(s, pos);
        let t = trim(s.subrange(pos, e));
        let rest = tags_from(s, e + 1);
        if t.len() > 0 {
            seq![t] + rest
        } else {
            rest
        }
    }
}

#[via_fn]
proof fn tags_from_decreases(s: Seq<char>, pos: int) {
    if 0 <= pos <= s.len() {
        lemma_seg_end_props(s, pos);
    }
}

/// What a comma-separated tag list means: the segments between commas,
/// each trimmed of blanks, with empty segments dropped.
pub open spec fn parse_tags_spec(s: Seq<char>) -> Seq<Seq<char>> {
    tags_from(s, 0)
}

/// Dropping covered leading blanks: if everything before `a` is blank and
/// `a` starts the rest, the front trim is the rest.
proof fn lemma_trim_front_is(s: Seq<char>, pos: int, a: int, k: int)
    requires
        0 <= pos <= a <= k <= s.len(),
        forall|i: int| pos <= i < a ==> is_space(#[trigger] s[i]),
        a == k || !is_space(s[a]),
    ensures
        trim_front(s.subrange(pos, k)) == s.subrange(a, k),
    decreases a - pos,
{
    if pos == a {
        let sub = s.subrange(pos, k);
        if sub.len() > 0 && is_space(sub.first()) {
            assert(sub.first() == s[pos]);
            assert(false);
        }
    } else {
        let sub = s.subrange(pos, k);
        assert(sub.first() == s[pos]);
        assert(is_space(sub.first()));
        assert(sub.drop_first() =~= s.subrange(pos + 1, k));
        lemma_trim_front_is(s, pos + 1, a, k);
    }
}

/// Dropping covered trailing blanks: if everything from `b` on is blank
/// and `b` ends the rest, the back trim is the rest.
proof fn lemma_trim_back_is(s: Seq<char>, a: int, b: int, k: int)
    requires
        0 <= a <= b <= k <= s.len(),
        forall|i: int| b <= i < k ==> is_space(#[trigger] s[i]),
        b == a || !is_space(s[b - 1]),
    ensures
        trim_back(s.subrange(a, k)) == s.subrange(a, b),
    decreases k - b,
{
    if b == k {
        let sub = s.subrange(a, k);
        if sub.len() > 0 && is_space(sub.last()) {
            assert(sub.last() == s[k - 1]);
            assert(b == a || !is_space(s[b - 1]));
            if b == a {
                assert(sub.len() == 0);
            }
            assert(false);
        }
        assert(s.subrange(a, k) =~= s.subrange(a, b));
    } else {
        let sub = s.subrange(a, k);
        assert(sub.last() == s[k - 1]);
        assert(is_space(sub.last()));
        assert(sub.drop_last() =~= s.subrange(a, k - 1));
        lemma_trim_back_is(s, a, b, k - 1);
    }
}

/// A text whose first character is not blank does not trim away to
/// nothing from the back.
proof fn lemma_trim_back_keeps_nonempty(x: Seq<char>)
    requires
        x.len() > 0,
        !is_space(x.first()),
    ensures
        trim_back(x).len() > 0,
    decreases x.len(),
{
    if is_space(x.last()) {
        assert(x.len() > 1);
        assert(x.drop_last().first() == x.first());
        lemma_trim_back_keeps_nonempty(x.drop_last());
    }
}

/// Decide whether a text is empty once trimmed of blanks, that is,
/// whether it holds nothing but blanks.
pub fn trimmed_is_empty(s: &str) -> (r: bool)
    ensures
        r == (trim(s@).len() == 0),
{
    let n = s.unicode_len();
    let mut a: usize = 0;
    while a < n && is_space_char(s.get_char(a))
        invariant
            n == s@.len(),
            a <= n,
            forall|i: int| 0 <= i < a ==> is_space(#[trigger] s@[i]),
        decreases n - a,
    {
        a = a + 1;
    }
    proof {
        assert(s@.subrange(0, n as int) =~= s@);
    }
    if a == n {
        proof {
            lemma_trim_front_is(s@, 0, n as int, n as int);
            assert(trim_front(s@).len() == 0);
            assert(trim(s@).len() == 0);
        }
        true
    } else {
        proof {
            lemma_trim_front_is(s@, 0, a as int, n as int);
            let rest = s@.subrange(a as int, n as int);
            assert(rest.first() == s@[a as int]);
            lemma_trim_back_keeps_nonempty(rest);
        }
        false
    }
}

/// Whether a character is one of the blanks stripped from tag ends.
fn is_space_char(c: char) -> (r: bool)
    ensures
        r == is_space(c),
{
    c == ' ' || c == '\t' || c == '\n' || c == '\r'
}

/// Split a comma-separated tag list: each segment between commas is
/// trimmed of blanks, and empty segments are dropped.
pub fn parse_tags(tags_str: &str) -> (r: Vec<String>)
    ensures
        r.deep_view() == parse_tags_spec(tags_str@),
{
    let n = tags_str.unicode_len();
    let mut result: Vec<String> = Vec::new();
    let mut pos: usize = 0;
    loop
        invariant_except_break
            parse_tags_spec(tags_str@) =~= result.deep_view() + tags_from(
                tags_str@,
                pos as int,
            ),
        invariant
            n == tags_str@.len(),
            pos <= n,
        ensures
            parse_tags_spec(tags_str@) =~= result.deep_view(),
        decreases n - pos,
    {
        let ghost s = tags_str@;
        let mut k = pos;
        while k < n && tags_str.get_char(k) != ','
            invariant
                n == tags_str@.len(),
                pos <= k <= n,
                forall|i: int| pos <= i < k ==> tags_str@[i] != ',',
            decreases n - k,
        {
            k = k + 1;
        }
        proof {
            lemma_seg_end(s, pos as int, k as int);
        }
        let mut a = pos;
        while a < k && is_space_char(tags_str.get_char(a))
            invariant
                n == tags_str@.len(),
                pos <= a <= k <= n,
                forall|i: int| pos <= i < a ==> is_space(#[trigger] tags_str@[i]),
            decreases k - a,
        {
            a = a + 1;
        }
        let mut b = k;
        while b > a && is_space_char(tags_str.get_char(b - 1))
            invariant
                n == tags_str@.len(),
                a <= b <= k <= n,
                forall|i: int| b <= i < k ==> is_space(#[trigger] tags_str@[i]),
            decreases b,
        {
            b = b - 1;
        }
        proof {
            lemma_trim_front_is(s, pos as int, a as int, k as int);
            lemma_trim_back_is(s, a as int, b as int, k as int);
            assert(trim(s.subrange(pos as int, k as int)) == s.subrange(a as int, b as int));
        }
        let ghost acc0 = result.deep_view();
        if b > a {
            let piece = tags_str.substring_char(a, b);
            result.push(String::from_str(piece));
            proof {
                assert(result.deep_view() =~= acc0.push(s.subrange(a as int, b as int)));
            }
        }
        proof {
            let t = trim(s.subrange(pos as int, k as int));
            assert(t == s.subrange(a as int, b as int));
            assert(t.len() == b - a);
            if b > a {
                assert(acc0.push(t) + tags_from(s, k as int + 1) =~= acc0 + (seq![t]
                    + tags_from(s, k as int + 1)));
            }
            assert(parse_tags_spec(s) =~= result.deep_view() + tags_from(s, k as int + 1));
        }
        if k >= n {
            proof {
                assert(tags_from(s, k as int + 1) =~= Seq::<Seq<char>>::empty());
                assert(result.deep_view() + Seq::<Seq<char>>::empty() =~= result.deep_view());
            }
            break ;
        }
        pos = k + 1;
    }
    result
}

/// Lexicographic order on texts, by code point: the empty text comes
/// first, and otherwise the first differing character decides.
pub open spec fn lex_le(a: Seq<char>, b: Seq<char>) -> bool
    decreases a.len(),
{
    if a.len() == 0 {
        true
    } else if b.len() == 0 {
        false
    } else if a.first() == b.first() {
        lex_le(a.drop_first(), b.drop_first())
    } else {
        (a.first() as u32) < (b.first() as u32)
    }
}

/// The order is total: of any two texts, one comes no later than the
/// other.
pub proof fn lemma_lex_total(a: Seq<char>, b: Seq<char>)
    ensures
        lex_le(a, b) || lex_le(b, a),
    decreases a.len(),
{
    if a.len() == 0 || b.len() == 0 {
    } else if a.first() == b.first() {
        lemma_lex_total(a.drop_first(), b.drop_first());
    } else {
        vstd::utf8::char_u32_cast(a.first(), a.first() as u32);
        vstd::utf8::char_u32_cast(b.first(), b.first() as u32);
        assert(a.first() as u32 != b.first() as u32);
    }
}

/// The order is transitive.
pub proof fn lemma_lex_trans(a: Seq<char>, b: Seq<char>, c: Seq<char>)
    requires
        lex_le(a, b),
        lex_le(b, c),
    ensures
        lex_le(a, c),
    decreases a.len(),
{
    if a.len() == 0 {
    } else if b.len() == 0 {
    } else if c.len() == 0 {
    } else if a.first() == b.first() && b.first() == c.first() {
        lemma_lex_trans(a.drop_first(), b.drop_first(), c.drop_first());
    }
}

/// Decide the lexicographic order of two texts.
pub fn str_lex_le(a: &str, b: &str) -> (r: bool)
    ensures
        r == lex_le(a@, b@),
{
    let na = a.unicode_len();
    let nb = b.unicode_len();
    let mut i: usize = 0;
    proof {
        assert(a@.skip(0) =~= a@);
        assert(b@.skip(0) =~= b@);
    }
    loop
        invariant
            na == a@.len(),
            nb == b@.len(),
            i <= na,
            i <= nb,
            lex_le(a@, b@) == lex_le(a@.skip(i as int), b@.skip(i as int)),
        decreases na - i,
    {
        if i >= na {
            proof {
                assert(a@.skip(i as int).len() == 0);
            }
            return true;
        }
        if i >= nb {
            proof {
                assert(b@.skip(i as int).len() == 0);
                assert(a@.skip(i as int).len() > 0);
            }
            return false;
        }
        let ca = a.get_char(i);
        let cb = b.get_char(i);
        proof {
            assert(a@.skip(i as int).first() == a@[i as int]);
            assert(b@.skip(i as int).first() == b@[i as int]);
        }
        if ca == cb {
            proof {
                assert(a@.skip(i as int).drop_first() =~= a@.skip(i as int + 1));
                assert(b@.skip(i as int).drop_first() =~= b@.skip(i as int + 1));
            }
            i = i + 1;
        } else {
            return (ca as u32) < (cb as u32);
        }
    }
}

/// Substring search, character by character.
pub fn str_contains(hay: &str, needle: &str) -> (r: bool)
    ensures
        r == is_substring_of(needle@, hay@),
{
    let n = hay.unicode_len();
    let m = needle.unicode_len();
    if m > n {
        proof {
            assert(!is_substring_of(needle@, hay@));
        }
        return false;
    }
    if m == 0 {
        proof {
            assert(hay@.subrange(0, 0 + needle@.len() as int) =~= needle@);
        }
        return true;
    }
    let mut k: usize = 0;
    while k <= n - m
        invariant
            1 <= m <= n == hay@.len(),
            m == needle@.len(),
            k <= n - m + 1,
            forall|kk: int|
                0 <= kk < k ==> #[trigger] hay@.subrange(kk, kk + needle@.len()) != needle@,
        decreases n - m - k + 1,
    {
        let mut j: usize = 0;
        let mut mismatch = false;
        while j < m
            invariant
                m <= n == hay@.len(),
                m == needle@.len(),
                k <= n - m,
                j <= m,
                !mismatch ==> forall|jj: int| 0 <= jj < j ==> hay@[k + jj] == needle@[jj],
                mismatch ==> hay@.subrange(k as int, k + needle@.len()) != needle@,
            decreases m - j,
        {
            if hay.get_char(k + j) != needle.get_char(j) {
                proof {
                    assert(hay@.subrange(k as int, k + needle@.len())[j as int] == hay@[k + j]);
                }
                mismatch = true;
                j = m;
            } else {
                j = j + 1;
            }
        }
        if !mismatch {
            proof {
                assert(hay@.subrange(k as int, k + needle@.len()) =~= needle@);
            }
            return true;
        }
        k = k + 1;
    }
    proof {
        assert(forall|kk: int|
            0 <= kk <= hay@.len() - needle@.len() ==> #[trigger] hay@.subrange(
                kk,
                kk + needle@.len(),
            ) != needle@);
        assert(!is_substring_of(needle@, hay@));
    }
    false
}

} // verus!
