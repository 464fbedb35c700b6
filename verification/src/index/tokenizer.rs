//! Turning text into the lower-case terms that the index stores.
use vstd::prelude::*;
use vstd::utf8::{encode_utf8, is_ascii_chars};

use crate::utils::text::{chars_of, is_space, lemma_words_chars, lemma_words_map, split_whitespace, words};

verus! {

/// What `str::to_lowercase` returns for the string `s` (Unicode lower-case
/// mapping, with the context rule for the final sigma).
pub uninterp spec fn lowercase(s: Seq<char>) -> Seq<char>;

/// `c` in lower case where it is an ASCII capital letter, else `c`.
pub open spec fn ascii_lower(c: char) -> char {
    if 'A' <= c <= 'Z' {
        ((c as u32) + 32) as char
    } else {
        c
    }
}

/// `c` in upper case where it is an ASCII small letter, else `c`.
pub open spec fn ascii_upper(c: char) -> char {
    if 'a' <= c <= 'z' {
        ((c as u32) - 32) as char
    } else {
        c
    }
}

/// `s` with each ASCII capital letter in lower case.
pub open spec fn ascii_lowered(s: Seq<char>) -> Seq<char> {
    s.map_values(|c: char| ascii_lower(c))
}

/// `s` with each ASCII small letter in upper case.
pub open spec fn ascii_uppered(s: Seq<char>) -> Seq<char> {
    s.map_values(|c: char| ascii_upper(c))
}

/// Calls `str::to_lowercase`; its result is `lowercase` of the argument.
/// Claims too that an ASCII string comes back with each capital letter
/// `A`..`Z` made small and every other character kept: the Unicode
/// lower-case mapping that `to_lowercase` applies maps the ASCII range so.
#[verifier::external_body]
fn to_lowercase(s: &str) -> (r: String)
    ensures
        r@ == lowercase(s@),
        is_ascii_chars(s@) ==> r@ == ascii_lowered(s@),
{
    s.to_lowercase()
}

/// The whitespace-separated words of `text`, each in lower case.
pub open spec fn lowercase_words(text: Seq<char>) -> Seq<Seq<char>> {
    words(text).map_values(|w: Seq<char>| lowercase(w))
}

/// The whitespace-separated words of ASCII `text`, each with its capital
/// letters made small.
pub open spec fn ascii_lowercase_words(text: Seq<char>) -> Seq<Seq<char>> {
    words(text).map_values(|w: Seq<char>| ascii_lowered(w))
}

/// A term is kept when its UTF-8 encoding is longer than two bytes.
pub open spec fn is_long(w: Seq<char>) -> bool {
    encode_utf8(w).len() > 2
}

/// Number of bytes of the UTF-8 encoding of `c`.
pub open spec fn utf8_width(c: char) -> nat {
    let u = c as u32;
    if u <= 0x7F {
        1
    } else if u <= 0x7FF {
        2
    } else if u <= 0xFFFF {
        3
    } else {
        4
    }
}

/// Number of bytes of the UTF-8 encoding of `s`.
pub open spec fn utf8_len(s: Seq<char>) -> nat
    decreases s.len(),
{
    if s.len() == 0 {
        0
    } else {
        utf8_width(s[0]) + utf8_len(s.drop_first())
    }
}

pub proof fn lemma_utf8_len(s: Seq<char>)
    ensures
        utf8_len(s) == encode_utf8(s).len(),
    decreases s.len(),
{
    if s.len() > 0 {
        vstd::utf8::char_is_scalar(s[0]);
        lemma_utf8_len(s.drop_first());
    }
}

/// Whether the UTF-8 encoding of `s` is longer than two bytes.
fn longer_than_two_bytes(s: &str) -> (r: bool)
    ensures
        r == is_long(s@),
{
    let cs = chars_of(s);
    let n = cs.len();
    let mut count: usize = 0;
    let mut i: usize = 0;
    proof {
        lemma_utf8_len(s@);
        assert(cs@.skip(0) =~= cs@);
    }
    while i < n
        invariant
            n == cs@.len(),
            cs@ == s@,
            i <= n,
            count <= 2,
            utf8_len(s@) == encode_utf8(s@).len(),
            utf8_len(s@) == count + utf8_len(cs@.skip(i as int)),
        decreases n - i,
    {
        let u = cs[i] as u32;
        let w: usize = if u <= 0x7F {
            1
        } else if u <= 0x7FF {
            2
        } else if u <= 0xFFFF {
            3
        } else {
            4
        };
        assert(cs@.skip(i as int).drop_first() =~= cs@.skip(i + 1));
        assert(cs@.skip(i as int)[0] == cs@[i as int]);
        assert(w == utf8_width(cs@[i as int]));
        assert(utf8_len(cs@.skip(i as int)) == w + utf8_len(cs@.skip(i + 1)));
        count = count + w;
        i = i + 1;
        if count > 2 {
            return true;
        }
    }
    assert(cs@.skip(n as int) =~= Seq::<char>::empty());
    false
}

/// The terms of `ws` that are kept, in order.
pub open spec fn long_words(ws: Seq<Seq<char>>) -> Seq<Seq<char>> {
    ws.filter(|w: Seq<char>| is_long(w))
}

/// The whitespace-separated words of `text`, lower-cased, in order: the terms
/// of a search query.
pub fn query_terms(text: &str) -> (r: Vec<String>)
    ensures
        r.deep_view() == lowercase_words(text@),
        is_ascii_chars(text@) ==> r.deep_view() == ascii_lowercase_words(text@),
{
    let ws = split_whitespace(text);
    proof {
        if is_ascii_chars(text@) {
            lemma_words_chars(text@, |c: char| '\0' <= c <= '\u{7f}');
        }
    }
    let mut out: Vec<String> = Vec::new();
    let n = ws.len();
    for i in 0..n
        invariant
            n == ws@.len(),
            ws.deep_view() == words(text@),
            out.deep_view() == words(text@).take(i as int).map_values(|w: Seq<char>| lowercase(w)),
            is_ascii_chars(text@) ==> out.deep_view() == words(text@).take(i as int).map_values(
                |w: Seq<char>| ascii_lowered(w),
            ),
            is_ascii_chars(text@) ==> forall|a: int, b: int|
                0 <= a < words(text@).len() && 0 <= b < words(text@)[a].len() ==> '\0' <= #[trigger] words(text@)[a][b]
                    <= '\u{7f}',
    {
        let lw = to_lowercase(ws[i].as_str());
        assert(ws@[i as int]@ == words(text@)[i as int]);
        let ghost before = out.deep_view();
        out.push(lw);
        assert(out.deep_view() =~= before.push(lw@));
        assert(out.deep_view() =~= words(text@).take(i + 1).map_values(|w: Seq<char>| lowercase(w)));
        proof {
            if is_ascii_chars(text@) {
                assert(is_ascii_chars(ws@[i as int]@));
                assert(out.deep_view() =~= words(text@).take(i + 1).map_values(
                    |w: Seq<char>| ascii_lowered(w),
                ));
            }
        }
    }
    assert(words(text@).take(n as int) =~= words(text@));
    out
}

/// The terms of `ws` whose UTF-8 encoding is longer than two bytes, in order.
pub fn keep_long_words(ws: Vec<String>) -> (r: Vec<String>)
    ensures
        r.deep_view() == long_words(ws.deep_view()),
{
    let mut out: Vec<String> = Vec::new();
    let n = ws.len();
    for i in 0..n
        invariant
            n == ws@.len(),
            out.deep_view() == long_words(ws.deep_view().take(i as int)),
    {
        let w = ws[i].clone();
        let long = longer_than_two_bytes(w.as_str());
        let ghost before = out.deep_view();
        proof {
            reveal_with_fuel(Seq::filter, 1);
            assert(ws.deep_view().take(i + 1).drop_last() =~= ws.deep_view().take(i as int));
            assert(ws.deep_view().take(i + 1).last() == w@);
        }
        if long {
            out.push(w);
            assert(out.deep_view() =~= before.push(w@));
        }
        assert(out.deep_view() =~= long_words(ws.deep_view().take(i + 1)));
    }
    assert(ws.deep_view().take(n as int) =~= ws.deep_view());
    out
}

/// The terms of `text`: its whitespace-separated words, lower-cased, keeping
/// those longer than two bytes.
pub fn tokenizer(text: &str) -> (r: Vec<String>)
    ensures
        r.deep_view() == long_words(lowercase_words(text@)),
        is_ascii_chars(text@) ==> r.deep_view() == long_words(ascii_lowercase_words(text@)),
{
    keep_long_words(query_terms(text))
}

/// Every term of a text is longer than two bytes and is the lower-case form
/// of one of its words; every such lower-case word is a term.
pub proof fn lemma_terms_are_long_lowercase_words(text: Seq<char>)
    ensures
        forall|i: int|
            0 <= i < long_words(lowercase_words(text)).len() ==> is_long(
                #[trigger] long_words(lowercase_words(text))[i],
            ) && lowercase_words(text).contains(long_words(lowercase_words(text))[i]),
        forall|i: int|
            0 <= i < lowercase_words(text).len() && is_long(#[trigger] lowercase_words(text)[i])
                ==> long_words(lowercase_words(text)).contains(lowercase_words(text)[i]),
{
    let ws = lowercase_words(text);
    let pred = |w: Seq<char>| is_long(w);
    assert forall|i: int| 0 <= i < long_words(ws).len() implies is_long(#[trigger] long_words(ws)[i])
        && ws.contains(long_words(ws)[i]) by {
        ws.lemma_filter_pred(pred, i);
        assert(ws.filter(pred).contains(ws.filter(pred)[i]));
        ws.lemma_filter_contains_rev(pred, ws.filter(pred)[i]);
    }
    assert forall|i: int| 0 <= i < ws.len() && is_long(#[trigger] ws[i]) implies long_words(ws).contains(ws[i]) by {
        ws.lemma_filter_contains(pred, i);
    }
}

/// For ASCII text, the terms do not depend on letter case: the text with its
/// small letters made capital has the same terms.
pub proof fn lemma_terms_ignore_ascii_case(text: Seq<char>)
    requires
        is_ascii_chars(text),
    ensures
        is_ascii_chars(ascii_uppered(text)),
        ascii_lowercase_words(ascii_uppered(text)) == ascii_lowercase_words(text),
        long_words(ascii_lowercase_words(ascii_uppered(text))) == long_words(ascii_lowercase_words(text)),
{
    let f = |c: char| ascii_upper(c);
    assert forall|c: char| #[trigger] is_space(f(c)) == is_space(c) by {
        if 'a' <= c <= 'z' {
            assert(0x41 <= (f(c) as u32) <= 0x5A);
        }
    }
    lemma_words_map(text, f);
    let up = ascii_uppered(text);
    assert(up == text.map_values(f));
    assert forall|i: int| 0 <= i < up.len() implies '\0' <= #[trigger] up[i] <= '\u{7f}' by {
        assert(up[i] == f(text[i]));
    }
    lemma_words_chars(text, |c: char| '\0' <= c <= '\u{7f}');
    let lw1 = ascii_lowercase_words(up);
    let lw2 = ascii_lowercase_words(text);
    assert forall|i: int| 0 <= i < lw1.len() implies #[trigger] lw1[i] == lw2[i] by {
        let w = words(text)[i];
        assert(words(up)[i] == w.map_values(f));
        assert(ascii_lowered(w.map_values(f)) =~= ascii_lowered(w)) by {
            assert forall|j: int| 0 <= j < w.len() implies ascii_lower(f(w[j])) == ascii_lower(w[j]) by {
                assert('\0' <= w[j] <= '\u{7f}');
            }
        }
    }
    assert(lw1 =~= lw2);
}

} // verus!
