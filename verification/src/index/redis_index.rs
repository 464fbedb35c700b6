//! What indexing a document writes and what a search reads: the per-term key
//! and the number of times each term occurs in a document.
use vstd::hash_map::StringHashMap;
use vstd::prelude::*;

verus! {

/// `"index: "`, the start of every per-term key.
pub open spec fn index_prefix() -> Seq<char> {
    seq!['i', 'n', 'd', 'e', 'x', ':', ' ']
}

/// The key under which the documents containing `word` are recorded.
pub fn index_key(word: &str) -> (r: String)
    ensures
        r@ == index_prefix() + word@,
{
    let mut k = String::from_str("index: ");
    proof {
        reveal_strlit("index: ");
        assert("index: "@ =~= index_prefix());
    }
    k.append(word);
    k
}

/// How many times `w` occurs in `ws`.
pub open spec fn occurrences(ws: Seq<Seq<char>>, w: Seq<char>) -> nat
    decreases ws.len(),
{
    if ws.len() == 0 {
        0
    } else {
        occurrences(ws.drop_last(), w) + if ws.last() == w {
            1nat
        } else {
            0nat
        }
    }
}

pub proof fn lemma_occurrences_absent(ws: Seq<Seq<char>>, w: Seq<char>)
    requires
        !ws.contains(w),
    ensures
        occurrences(ws, w) == 0,
    decreases ws.len(),
{
    if ws.len() > 0 {
        assert(!ws.drop_last().contains(w)) by {
            if ws.drop_last().contains(w) {
                let k = choose|k: int| 0 <= k < ws.drop_last().len() && ws.drop_last()[k] == w;
                assert(ws[k] == w);
            }
        }
        assert(ws[ws.len() - 1] != w);
        lemma_occurrences_absent(ws.drop_last(), w);
    }
}

/// The sum of the counts of a list of (term, count) pairs.
pub open spec fn total_count(counts: Seq<(String, usize)>) -> nat
    decreases counts.len(),
{
    if counts.len() == 0 {
        0
    } else {
        total_count(counts.drop_last()) + counts.last().1 as nat
    }
}

/// The sum of `cs`.
pub open spec fn sum_of(cs: Seq<usize>) -> nat
    decreases cs.len(),
{
    if cs.len() == 0 {
        0
    } else {
        sum_of(cs.drop_last()) + cs.last() as nat
    }
}

proof fn lemma_sum_update(cs: Seq<usize>, j: int, v: usize)
    requires
        0 <= j < cs.len(),
    ensures
        sum_of(cs.update(j, v)) + cs[j] == sum_of(cs) + v,
    decreases cs.len(),
{
    let u = cs.update(j, v);
    if j == cs.len() - 1 {
        assert(u.drop_last() =~= cs.drop_last());
    } else {
        assert(u.drop_last() =~= cs.drop_last().update(j, v));
        lemma_sum_update(cs.drop_last(), j, v);
    }
}

proof fn lemma_total_is_sum(counts: Seq<(String, usize)>, cs: Seq<usize>)
    requires
        counts.len() == cs.len(),
        forall|t: int| 0 <= t < cs.len() ==> #[trigger] counts[t].1 == cs[t],
    ensures
        total_count(counts) == sum_of(cs),
    decreases cs.len(),
{
    if cs.len() > 0 {
        lemma_total_is_sum(counts.drop_last(), cs.drop_last());
    }
}

/// The keys of a list of (term, count) pairs.
pub open spec fn count_keys(counts: Seq<(String, usize)>) -> Seq<Seq<char>> {
    counts.map_values(|p: (String, usize)| p.0@)
}

/// `counts` lists each distinct term of `ws` once, with the number of times
/// it occurs in `ws`.
pub open spec fn counts_words(counts: Seq<(String, usize)>, ws: Seq<Seq<char>>) -> bool {
    &&& count_keys(counts).no_duplicates()
    &&& count_keys(counts).to_set() == ws.to_set()
    &&& forall|k: int| 0 <= k < counts.len() ==> #[trigger] counts[k].1 == occurrences(ws, counts[k].0@)
}

/// Each distinct term of `words` once, with the number of times it occurs,
/// in the order of first occurrence.
pub fn word_counts(words: &Vec<String>) -> (r: Vec<(String, usize)>)
    ensures
        counts_words(r@, words.deep_view()),
        total_count(r@) == words@.len(),
{
    let ghost ws = words.deep_view();
    let mut keys: Vec<String> = Vec::new();
    let mut counts: Vec<usize> = Vec::new();
    let mut index: StringHashMap<usize> = StringHashMap::new();
    let n = words.len();
    for i in 0..n
        invariant
            n == words@.len(),
            ws == words.deep_view(),
            keys@.len() == counts@.len(),
            keys.deep_view().no_duplicates(),
            forall|x: Seq<char>| keys.deep_view().contains(x) <==> ws.take(i as int).contains(x),
            forall|k: int| 0 <= k < counts@.len() ==> #[trigger] counts@[k] == occurrences(ws.take(i as int), keys@[k]@),
            forall|k: int| 0 <= k < counts@.len() ==> #[trigger] counts@[k] <= i,
            sum_of(counts@) == i,
            forall|x: Seq<char>| #[trigger] index@.contains_key(x) <==> keys.deep_view().contains(x),
            forall|x: Seq<char>|
                #[trigger] index@.contains_key(x) ==> index@[x] < keys@.len() && keys@[index@[x] as int]@ == x,
    {
        let w = &words[i];
        let ghost p = ws.take(i as int);
        let ghost p1 = ws.take(i + 1);
        assert(p1.drop_last() =~= p);
        assert(p1.last() == w@);
        assert(ws[i as int] == w@);
        match index.get(w.as_str()) {
            Some(jr) => {
                let j = *jr;
                let c = counts[j];
                proof {
                    lemma_sum_update(counts@, j as int, (c + 1) as usize);
                }
                counts.set(j, c + 1);
                assert forall|k: int| 0 <= k < counts@.len() implies #[trigger] counts@[k]
                    == occurrences(p1, keys@[k]@) by {
                    if k != j {
                        assert(keys.deep_view()[k] != keys.deep_view()[j as int]);
                    }
                }
                assert forall|x: Seq<char>| keys.deep_view().contains(x) <==> p1.contains(x) by {
                    if p1.contains(x) && !p.contains(x) {
                        let t = choose|t: int| 0 <= t < p1.len() && p1[t] == x;
                        if t < i {
                            assert(p[t] == x);
                        }
                        assert(keys.deep_view()[j as int] == x);
                    }
                    if p.contains(x) {
                        let t = choose|t: int| 0 <= t < p.len() && p[t] == x;
                        assert(p1[t] == x);
                    }
                }
            },
            None => {
                proof {
                    assert(!keys.deep_view().contains(w@));
                    assert(!p.contains(w@));
                    lemma_occurrences_absent(p, w@);
                }
                let ghost old_keys = keys.deep_view();
                let ghost old_counts = counts@;
                let ghost old_index = index@;
                index.insert(w.clone(), keys.len());
                keys.push(w.clone());
                counts.push(1);
                assert forall|x: Seq<char>| #[trigger] index@.contains_key(x) implies index@[x] < keys@.len()
                    && keys@[index@[x] as int]@ == x by {
                    if x != w@ {
                        assert(old_index.contains_key(x));
                    }
                }
                assert forall|x: Seq<char>| #[trigger] index@.contains_key(x) <==> keys.deep_view().contains(x) by {
                    if x == w@ {
                        assert(keys.deep_view()[keys.deep_view().len() - 1] == x);
                    } else if keys.deep_view().contains(x) {
                        let t = choose|t: int| 0 <= t < keys.deep_view().len() && keys.deep_view()[t] == x;
                        assert(old_keys[t] == x);
                        assert(old_keys.contains(x));
                    } else if old_index.contains_key(x) {
                        assert(old_keys.contains(x));
                        let t = choose|t: int| 0 <= t < old_keys.len() && old_keys[t] == x;
                        assert(keys.deep_view()[t] == x);
                    }
                }
                assert(counts@.drop_last() =~= old_counts);
                assert(keys.deep_view() =~= old_keys.push(w@));
                assert forall|k: int| 0 <= k < counts@.len() implies #[trigger] counts@[k]
                    == occurrences(p1, keys@[k]@) by {
                    if k < old_counts.len() {
                        assert(keys.deep_view()[k] == old_keys[k]);
                        assert(old_keys.contains(old_keys[k]));
                        assert(old_keys[k] != w@);
                    }
                }
                assert forall|x: Seq<char>| keys.deep_view().contains(x) <==> p1.contains(x) by {
                    if x == w@ {
                        assert(keys.deep_view()[keys.deep_view().len() - 1] == x);
                        assert(p1[i as int] == x);
                    } else {
                        if keys.deep_view().contains(x) {
                            let t = choose|t: int| 0 <= t < keys.deep_view().len() && keys.deep_view()[t] == x;
                            assert(old_keys[t] == x);
                            assert(old_keys.contains(x));
                            assert(p.contains(x));
                            let u = choose|u: int| 0 <= u < p.len() && p[u] == x;
                            assert(p1[u] == x);
                        }
                        if p1.contains(x) {
                            let t = choose|t: int| 0 <= t < p1.len() && p1[t] == x;
                            assert(t < i);
                            assert(p[t] == x);
                            assert(p.contains(x));
                            assert(old_keys.contains(x));
                            let u = choose|u: int| 0 <= u < old_keys.len() && old_keys[u] == x;
                            assert(keys.deep_view()[u] == x);
                        }
                    }
                }
            },
        }
    }
    assert(ws.take(n as int) =~= ws);
    let mut r: Vec<(String, usize)> = Vec::new();
    let m = keys.len();
    let mut k: usize = 0;
    while k < m
        invariant
            m == keys@.len(),
            m == counts@.len(),
            k <= m,
            r@.len() == k,
            forall|t: int| 0 <= t < k ==> (#[trigger] r@[t]).0@ == keys@[t]@ && r@[t].1 == counts@[t],
        decreases m - k,
    {
        let key = keys[k].clone();
        r.push((key, counts[k]));
        k = k + 1;
    }
    proof {
        lemma_total_is_sum(r@, counts@);
    }
    assert(count_keys(r@) =~= keys.deep_view());
    assert(count_keys(r@).to_set() =~= ws.to_set());
    r
}

/// Occurrences in two lists together are the occurrences in each, added.
pub proof fn lemma_occurrences_concat(w1: Seq<Seq<char>>, w2: Seq<Seq<char>>, k: Seq<char>)
    ensures
        occurrences(w1 + w2, k) == occurrences(w1, k) + occurrences(w2, k),
    decreases w2.len(),
{
    if w2.len() == 0 {
        assert(w1 + w2 =~= w1);
    } else {
        assert((w1 + w2).drop_last() =~= w1 + w2.drop_last());
        assert((w1 + w2).last() == w2.last());
        lemma_occurrences_concat(w1, w2.drop_last(), k);
    }
}

/// The count that a list of (term, count) pairs gives `k`: 0 where `k` is
/// not listed.
pub open spec fn count_of(counts: Seq<(String, usize)>, k: Seq<char>) -> nat {
    if exists|i: int| 0 <= i < counts.len() && #[trigger] counts[i].0@ == k {
        counts[choose|i: int| 0 <= i < counts.len() && #[trigger] counts[i].0@ == k].1 as nat
    } else {
        0
    }
}

/// Counts of a list of words give each term its number of occurrences.
pub proof fn lemma_count_of(counts: Seq<(String, usize)>, ws: Seq<Seq<char>>, k: Seq<char>)
    requires
        counts_words(counts, ws),
    ensures
        count_of(counts, k) == occurrences(ws, k),
{
    if exists|i: int| 0 <= i < counts.len() && #[trigger] counts[i].0@ == k {
        let i = choose|i: int| 0 <= i < counts.len() && #[trigger] counts[i].0@ == k;
        assert(counts[i].1 == occurrences(ws, counts[i].0@));
    } else {
        assert(!count_keys(counts).contains(k)) by {
            if count_keys(counts).contains(k) {
                let t = choose|t: int| 0 <= t < count_keys(counts).len() && count_keys(counts)[t] == k;
                assert(counts[t].0@ == k);
            }
        }
        assert(!count_keys(counts).to_set().contains(k));
        assert(!ws.to_set().contains(k));
        lemma_occurrences_absent(ws, k);
    }
}

/// Indexing two lists of words for one page adds to each term's count what
/// indexing the two lists together once adds: the counts of the parts sum
/// to the counts of the whole.
pub proof fn lemma_counts_add_up(
    c1: Seq<(String, usize)>,
    c2: Seq<(String, usize)>,
    c: Seq<(String, usize)>,
    w1: Seq<Seq<char>>,
    w2: Seq<Seq<char>>,
    k: Seq<char>,
)
    requires
        counts_words(c1, w1),
        counts_words(c2, w2),
        counts_words(c, w1 + w2),
    ensures
        count_of(c, k) == count_of(c1, k) + count_of(c2, k),
{
    lemma_count_of(c1, w1, k);
    lemma_count_of(c2, w2, k);
    lemma_count_of(c, w1 + w2, k);
    lemma_occurrences_concat(w1, w2, k);
}

} // verus!
