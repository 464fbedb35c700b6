//! Character-level text handling shared by the tokenizer, the robots.txt
//! reader and the crawler: whitespace, word splitting, trimming, prefixes.
use vstd::prelude::*;

verus! {

/// The Unicode `White_Space` property, which is what `char::is_whitespace`
/// tests: U+0009..U+000D, U+0020, U+0085, U+00A0, U+1680, U+2000..U+200A,
/// U+2028, U+2029, U+202F, U+205F and U+3000.
pub open spec fn is_space(c: char) -> bool {
    let u = c as u32;
    ||| 0x09 <= u <= 0x0D
    ||| u == 0x20
    ||| u == 0x85
    ||| u == 0xA0
    ||| u == 0x1680
    ||| 0x2000 <= u <= 0x200A
    ||| u == 0x2028
    ||| u == 0x2029
    ||| u == 0x202F
    ||| u == 0x205F
    ||| u == 0x3000
}

/// Whether `c` is a whitespace character (Unicode `White_Space`).
pub fn is_space_char(c: char) -> (r: bool)
    ensures
        r == is_space(c),
{
    let u = c as u32;
    (0x09 <= u && u <= 0x0D) || u == 0x20 || u == 0x85 || u == 0xA0 || u == 0x1680 || (0x2000
        <= u && u <= 0x200A) || u == 0x2028 || u == 0x2029 || u == 0x202F || u == 0x205F || u
        == 0x3000
}

/// A sequence that holds no whitespace character.
pub open spec fn no_space(s: Seq<char>) -> bool {
    forall|i: int| 0 <= i < s.len() ==> !is_space(#[trigger] s[i])
}

/// Length of the run of non-whitespace characters at the start of `s`.
pub open spec fn word_len(s: Seq<char>) -> nat
    decreases s.len(),
{
    if s.len() == 0 || is_space(s[0]) {
        0
    } else {
        1 + word_len(s.drop_first())
    }
}

pub proof fn lemma_word_len_bounds(s: Seq<char>)
    ensures
        word_len(s) <= s.len(),
        s.len() > 0 && !is_space(s[0]) ==> word_len(s) >= 1,
        no_space(s.take(word_len(s) as int)),
    decreases s.len(),
{
    if s.len() > 0 && !is_space(s[0]) {
        lemma_word_len_bounds(s.drop_first());
        let n = word_len(s.drop_first()) as int;
        assert forall|i: int| 0 <= i < n + 1 implies !is_space(#[trigger] s.take(n + 1)[i]) by {
            if i > 0 {
                assert(s.take(n + 1)[i] == s.drop_first().take(n as int)[i - 1]);
            }
        }
    }
}

/// The maximal runs of non-whitespace characters of `s`, in order: what
/// `str::split_whitespace` yields.
pub open spec fn words(s: Seq<char>) -> Seq<Seq<char>>
    decreases s.len(),
{
    if s.len() == 0 {
        seq![]
    } else if is_space(s[0]) {
        words(s.drop_first())
    } else {
        proof {
            lemma_word_len_bounds(s);
        }
        seq![s.take(word_len(s) as int)] + words(s.skip(word_len(s) as int))
    }
}

/// A word without whitespace, followed by nothing or by whitespace, is the
/// first word.
pub proof fn lemma_words_leading(cur: Seq<char>, rest: Seq<char>)
    requires
        cur.len() > 0,
        no_space(cur),
        rest.len() == 0 || is_space(rest[0]),
    ensures
        words(cur + rest) == seq![cur] + words(rest),
{
    lemma_word_len_exact(cur, rest);
    let s = cur + rest;
    assert(s.take(cur.len() as int) =~= cur);
    assert(s.skip(cur.len() as int) =~= rest);
}

proof fn lemma_word_len_exact(cur: Seq<char>, rest: Seq<char>)
    requires
        no_space(cur),
        rest.len() == 0 || is_space(rest[0]),
    ensures
        word_len(cur + rest) == cur.len(),
    decreases cur.len(),
{
    if cur.len() == 0 {
        assert(cur + rest =~= rest);
    } else {
        assert((cur + rest).drop_first() =~= cur.drop_first() + rest);
        assert(!is_space(cur[0]));
        lemma_word_len_exact(cur.drop_first(), rest);
    }
}

/// Every word is non-empty and holds no whitespace.
pub proof fn lemma_words_shape(s: Seq<char>)
    ensures
        forall|i: int|
            0 <= i < words(s).len() ==> #[trigger] words(s)[i].len() > 0 && no_space(words(s)[i]),
    decreases s.len(),
{
    if s.len() == 0 {
    } else if is_space(s[0]) {
        lemma_words_shape(s.drop_first());
        assert(words(s) == words(s.drop_first()));
    } else {
        lemma_word_len_bounds(s);
        let n = word_len(s) as int;
        lemma_words_shape(s.skip(n));
        assert(words(s) == seq![s.take(n)] + words(s.skip(n)));
        assert forall|i: int|
            0 <= i < words(s).len() implies #[trigger] words(s)[i].len() > 0 && no_space(
                words(s)[i],
            ) by {
            if i > 0 {
                assert(words(s)[i] == words(s.skip(n))[i - 1]);
            }
        }
    }
}

proof fn lemma_word_len_map(s: Seq<char>, f: spec_fn(char) -> char)
    requires
        forall|c: char| #[trigger] is_space(f(c)) == is_space(c),
    ensures
        word_len(s.map_values(f)) == word_len(s),
    decreases s.len(),
{
    if s.len() > 0 {
        assert(s.map_values(f).drop_first() =~= s.drop_first().map_values(f));
        assert(is_space(f(s[0])) == is_space(s[0]));
        lemma_word_len_map(s.drop_first(), f);
    }
}

/// Mapping the characters of a text by a map that keeps whitespace and
/// non-whitespace apart maps its words the same way.
pub proof fn lemma_words_map(s: Seq<char>, f: spec_fn(char) -> char)
    requires
        forall|c: char| #[trigger] is_space(f(c)) == is_space(c),
    ensures
        words(s.map_values(f)) == words(s).map_values(|w: Seq<char>| w.map_values(f)),
    decreases s.len(),
{
    let t = s.map_values(f);
    if s.len() == 0 {
        assert(words(t) =~= words(s).map_values(|w: Seq<char>| w.map_values(f)));
    } else if is_space(s[0]) {
        assert(is_space(f(s[0])));
        assert(t.drop_first() =~= s.drop_first().map_values(f));
        lemma_words_map(s.drop_first(), f);
    } else {
        assert(!is_space(f(s[0])));
        lemma_word_len_map(s, f);
        lemma_word_len_bounds(s);
        let n = word_len(s) as int;
        assert(t.take(n) =~= s.take(n).map_values(f));
        assert(t.skip(n) =~= s.skip(n).map_values(f));
        lemma_words_map(s.skip(n), f);
        assert(words(t) =~= words(s).map_values(|w: Seq<char>| w.map_values(f)));
    }
}

/// Every character of every word of `s` is a character that satisfies `p`
/// where every character of `s` does.
pub proof fn lemma_words_chars(s: Seq<char>, p: spec_fn(char) -> bool)
    requires
        forall|i: int| 0 <= i < s.len() ==> p(#[trigger] s[i]),
    ensures
        forall|i: int, j: int|
            0 <= i < words(s).len() && 0 <= j < words(s)[i].len() ==> p(#[trigger] words(s)[i][j]),
    decreases s.len(),
{
    if s.len() == 0 {
    } else if is_space(s[0]) {
        assert forall|i: int| 0 <= i < s.drop_first().len() implies p(#[trigger] s.drop_first()[i]) by {
            assert(s.drop_first()[i] == s[i + 1]);
        }
        lemma_words_chars(s.drop_first(), p);
        assert(words(s) == words(s.drop_first()));
    } else {
        lemma_word_len_bounds(s);
        let n = word_len(s) as int;
        assert forall|i: int| 0 <= i < s.skip(n).len() implies p(#[trigger] s.skip(n)[i]) by {
            assert(s.skip(n)[i] == s[i + n]);
        }
        lemma_words_chars(s.skip(n), p);
        assert forall|i: int, j: int|
            0 <= i < words(s).len() && 0 <= j < words(s)[i].len() implies p(#[trigger] words(s)[i][j]) by {
            if i == 0 {
                assert(words(s)[0] == s.take(n));
                assert(s.take(n)[j] == s[j]);
            } else {
                assert(words(s)[i] == words(s.skip(n))[i - 1]);
            }
        }
    }
}

/// Builds a `String` from its characters.
#[verifier::external_body]
pub(crate) fn string_from_chars(cs: &Vec<char>) -> (r: String)
    ensures
        r@ == cs@,
{
    cs.iter().collect()
}

/// The characters of a string slice, in order.
pub fn chars_of(s: &str) -> (r: Vec<char>)
    ensures
        r@ == s@,
{
    let mut r: Vec<char> = Vec::new();
    for c in it: s.chars()
        invariant
            r@ == it.seq().take(it.index() as int),
            it.seq() == s@,
    {
        r.push(c);
    }
    r
}

/// The whitespace-separated words of `s`, as `str::split_whitespace` gives them.
pub fn split_whitespace(s: &str) -> (r: Vec<String>)
    ensures
        r.deep_view() == words(s@),
{
    let cs = chars_of(s);
    let mut out: Vec<String> = Vec::new();
    let mut cur: Vec<char> = Vec::new();
    let n = cs.len();
    assert(cur@ + cs@.skip(0) =~= s@);
    assert(out.deep_view() + words(s@) =~= words(s@));
    for i in 0..n
        invariant
            n == cs@.len(),
            cs@ == s@,
            no_space(cur@),
            words(s@) == out.deep_view() + words(cur@ + cs@.skip(i as int)),
    {
        let c = cs[i];
        let ghost rest = cs@.skip(i as int);
        assert(rest.drop_first() =~= cs@.skip(i + 1));
        if is_space_char(c) {
            if cur.len() > 0 {
                proof {
                    lemma_words_leading(cur@, rest);
                    assert(words(cur@ + rest) =~= seq![cur@] + words(rest));
                }
                let w = string_from_chars(&cur);
                out.push(w);
                cur = Vec::new();
                assert(cur@ + cs@.skip(i + 1) =~= cs@.skip(i + 1));
            } else {
                assert(cur@ + rest =~= rest);
                assert(cur@ + cs@.skip(i + 1) =~= cs@.skip(i + 1));
            }
        } else {
            let ghost old_cur = cur@;
            cur.push(c);
            assert(cur@ + cs@.skip(i + 1) =~= old_cur + rest);
        }
    }
    if cur.len() > 0 {
        proof {
            lemma_words_leading(cur@, seq![]);
            assert(cur@ + cs@.skip(n as int) =~= cur@ + seq![]);
        }
        let w = string_from_chars(&cur);
        out.push(w);
    } else {
        assert(cur@ + cs@.skip(n as int) =~= seq![]);
    }
    out
}

/// `s` without its leading whitespace.
pub open spec fn trim_start(s: Seq<char>) -> Seq<char>
    decreases s.len(),
{
    if s.len() > 0 && is_space(s[0]) {
        trim_start(s.drop_first())
    } else {
        s
    }
}

/// `s` without its trailing whitespace.
pub open spec fn trim_end(s: Seq<char>) -> Seq<char>
    decreases s.len(),
{
    if s.len() > 0 && is_space(s.last()) {
        trim_end(s.drop_last())
    } else {
        s
    }
}

/// `s` without leading and trailing whitespace, as `str::trim` gives it.
pub open spec fn trim(s: Seq<char>) -> Seq<char> {
    trim_end(trim_start(s))
}

/// `s` neither starts nor ends with whitespace.
pub open spec fn is_trimmed(s: Seq<char>) -> bool {
    s.len() == 0 || (!is_space(s[0]) && !is_space(s.last()))
}

proof fn lemma_trim_start_shape(s: Seq<char>)
    ensures
        trim_start(s).len() == 0 || !is_space(trim_start(s)[0]),
    decreases s.len(),
{
    if s.len() > 0 && is_space(s[0]) {
        lemma_trim_start_shape(s.drop_first());
    }
}

proof fn lemma_trim_end_shape(s: Seq<char>)
    ensures
        trim_end(s).len() == 0 || !is_space(trim_end(s).last()),
        trim_end(s).is_prefix_of(s),
    decreases s.len(),
{
    if s.len() > 0 && is_space(s.last()) {
        lemma_trim_end_shape(s.drop_last());
        let t = trim_end(s.drop_last());
        assert(t =~= s.subrange(0, t.len() as int));
    } else {
        assert(s =~= s.subrange(0, s.len() as int));
    }
}

/// What `trim` returns neither starts nor ends with whitespace.
pub proof fn lemma_trim_is_trimmed(s: Seq<char>)
    ensures
        is_trimmed(trim(s)),
{
    lemma_trim_start_shape(s);
    lemma_trim_end_shape(trim_start(s));
    let t = trim(s);
    if t.len() > 0 {
        assert(t[0] == trim_start(s).subrange(0, t.len() as int)[0]);
    }
}

/// The bounds of `trim(cs[lo..hi])` inside `cs`.
pub fn trim_bounds(cs: &Vec<char>, lo: usize, hi: usize) -> (r: (usize, usize))
    requires
        lo <= hi <= cs@.len(),
    ensures
        lo <= r.0 <= r.1 <= hi,
        cs@.subrange(r.0 as int, r.1 as int) == trim(cs@.subrange(lo as int, hi as int)),
{
    let mut a = lo;
    while a < hi && is_space_char(cs[a])
        invariant
            lo <= a <= hi <= cs@.len(),
            trim_start(cs@.subrange(lo as int, hi as int)) == trim_start(
                cs@.subrange(a as int, hi as int),
            ),
        decreases hi - a,
    {
        assert(cs@.subrange(a as int, hi as int).drop_first() =~= cs@.subrange(
            a + 1,
            hi as int,
        ));
        a = a + 1;
    }
    let mut b = hi;
    while b > a && is_space_char(cs[b - 1])
        invariant
            lo <= a <= b <= hi <= cs@.len(),
            trim_start(cs@.subrange(lo as int, hi as int)) == cs@.subrange(a as int, hi as int),
            trim_end(cs@.subrange(a as int, hi as int)) == trim_end(
                cs@.subrange(a as int, b as int),
            ),
        decreases b - a,
    {
        assert(cs@.subrange(a as int, b as int).drop_last() =~= cs@.subrange(
            a as int,
            b - 1,
        ));
        b = b - 1;
    }
    (a, b)
}

/// Whether `p` is a prefix of `cs[lo..hi]`.
pub fn has_prefix_at(cs: &Vec<char>, lo: usize, hi: usize, p: &Vec<char>) -> (r: bool)
    requires
        lo <= hi <= cs@.len(),
    ensures
        r == p@.is_prefix_of(cs@.subrange(lo as int, hi as int)),
{
    if p.len() > hi - lo {
        return false;
    }
    let mut k: usize = 0;
    while k < p.len()
        invariant
            p@.len() <= hi - lo,
            lo <= hi <= cs@.len(),
            k <= p@.len(),
            forall|j: int| 0 <= j < k ==> p@[j] == cs@[lo + j],
        decreases p@.len() - k,
    {
        if p[k] != cs[lo + k] {
            assert(p@[k as int] != cs@.subrange(lo as int, hi as int)[k as int]);
            return false;
        }
        k = k + 1;
    }
    assert(p@ =~= cs@.subrange(lo as int, hi as int).subrange(0, p@.len() as int));
    true
}

/// Whether `p` is a prefix of `s`, for strings.
pub fn starts_with(s: &str, p: &str) -> (r: bool)
    ensures
        r == p@.is_prefix_of(s@),
{
    let cs = chars_of(s);
    let ps = chars_of(p);
    assert(cs@.subrange(0, cs@.len() as int) =~= cs@);
    has_prefix_at(&cs, 0, cs.len(), &ps)
}

/// The characters `cs[lo..hi]`.
pub fn sub_chars(cs: &Vec<char>, lo: usize, hi: usize) -> (r: Vec<char>)
    requires
        lo <= hi <= cs@.len(),
    ensures
        r@ == cs@.subrange(lo as int, hi as int),
{
    let mut r: Vec<char> = Vec::new();
    let mut i = lo;
    while i < hi
        invariant
            lo <= i <= hi <= cs@.len(),
            r@ == cs@.subrange(lo as int, i as int),
        decreases hi - i,
    {
        r.push(cs[i]);
        assert(r@ =~= cs@.subrange(lo as int, i + 1));
        i = i + 1;
    }
    r
}

/// `s` with every occurrence of `p` taken out, scanning left to right
/// without overlap: what `str::replace(p, "")` returns.
pub open spec fn remove_all(s: Seq<char>, p: Seq<char>) -> Seq<char>
    decreases s.len(),
{
    if s.len() == 0 {
        s
    } else if p.len() > 0 && p.is_prefix_of(s) {
        remove_all(s.skip(p.len() as int), p)
    } else {
        seq![s[0]] + remove_all(s.drop_first(), p)
    }
}

/// `remove_all(cs[lo..hi], p)`.
pub fn remove_all_chars(cs: &Vec<char>, lo: usize, hi: usize, p: &Vec<char>) -> (r: Vec<char>)
    requires
        lo <= hi <= cs@.len(),
    ensures
        r@ == remove_all(cs@.subrange(lo as int, hi as int), p@),
{
    let mut out: Vec<char> = Vec::new();
    let mut i = lo;
    while i < hi
        invariant
            lo <= i <= hi <= cs@.len(),
            remove_all(cs@.subrange(lo as int, hi as int), p@) == out@ + remove_all(
                cs@.subrange(i as int, hi as int),
                p@,
            ),
        decreases hi - i,
    {
        let ghost rest = cs@.subrange(i as int, hi as int);
        if p.len() > 0 && has_prefix_at(cs, i, hi, p) {
            assert(rest.skip(p@.len() as int) =~= cs@.subrange(i + p@.len(), hi as int));
            i = i + p.len();
        } else {
            assert(rest.drop_first() =~= cs@.subrange(i + 1, hi as int));
            assert(rest[0] == cs@[i as int]);
            let ghost old_out = out@;
            out.push(cs[i]);
            assert(out@ + remove_all(cs@.subrange(i + 1, hi as int), p@) =~= old_out + (seq![
                rest[0],
            ] + remove_all(rest.drop_first(), p@)));
            i = i + 1;
        }
    }
    assert(remove_all(cs@.subrange(hi as int, hi as int), p@) =~= seq![]);
    assert(out@ + seq![] =~= out@);
    out
}

} // verus!
