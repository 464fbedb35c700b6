//! The link graph: for each crawled page, the set of pages it links to.
use vstd::hash_map::StringHashMap;
use vstd::hash_set::StringHashSet;
use vstd::prelude::*;

verus! {

/// The pages that `from` links to in `m` (none where `from` is not in `m`).
pub open spec fn links_of(m: Map<Seq<char>, Set<Seq<char>>>, from: Seq<char>) -> Set<Seq<char>> {
    if m.contains_key(from) {
        m[from]
    } else {
        Set::empty()
    }
}

/// `m` after recording that `from` links to each of `links`.
pub open spec fn with_links(
    m: Map<Seq<char>, Set<Seq<char>>>,
    from: Seq<char>,
    links: Seq<Seq<char>>,
) -> Map<Seq<char>, Set<Seq<char>>> {
    m.insert(from, links_of(m, from).union(links.to_set()))
}

/// After links are recorded for `from`, `from` is in the graph and links to
/// each recorded link and to every page it linked to before; every other
/// page is as it was.
pub proof fn lemma_add_links_read_back(
    m: Map<Seq<char>, Set<Seq<char>>>,
    from: Seq<char>,
    links: Seq<Seq<char>>,
)
    ensures
        with_links(m, from, links).contains_key(from),
        forall|i: int| 0 <= i < links.len() ==> with_links(m, from, links)[from].contains(#[trigger] links[i]),
        links_of(m, from).subset_of(with_links(m, from, links)[from]),
        forall|k: Seq<char>|
            k != from ==> (#[trigger] with_links(m, from, links).contains_key(k) <==> m.contains_key(k)),
        forall|k: Seq<char>|
            k != from && m.contains_key(k) ==> #[trigger] with_links(m, from, links)[k] == m[k],
{
    assert forall|i: int| 0 <= i < links.len() implies with_links(m, from, links)[from].contains(
        #[trigger] links[i],
    ) by {
        assert(links.to_set().contains(links[i]));
    }
}

/// Recording the same links twice gives the graph that recording them once gives.
pub proof fn lemma_add_links_idempotent(
    m: Map<Seq<char>, Set<Seq<char>>>,
    from: Seq<char>,
    links: Seq<Seq<char>>,
)
    ensures
        with_links(with_links(m, from, links), from, links) == with_links(m, from, links),
{
    let once = with_links(m, from, links);
    assert(links_of(once, from).union(links.to_set()) =~= links_of(once, from));
    assert(with_links(once, from, links) =~= once);
}

/// Recording two lists of links for one page gives the same graph in either order.
pub proof fn lemma_add_links_commute(
    m: Map<Seq<char>, Set<Seq<char>>>,
    from: Seq<char>,
    a: Seq<Seq<char>>,
    b: Seq<Seq<char>>,
)
    ensures
        with_links(with_links(m, from, a), from, b) == with_links(with_links(m, from, b), from, a),
{
    let ab = with_links(with_links(m, from, a), from, b);
    let ba = with_links(with_links(m, from, b), from, a);
    assert(ab[from] =~= ba[from]);
    assert(ab =~= ba);
}

/// `m` after recording, in turn, each page of `adds` with its links.
pub open spec fn with_all(
    m: Map<Seq<char>, Set<Seq<char>>>,
    adds: Seq<(Seq<char>, Seq<Seq<char>>)>,
) -> Map<Seq<char>, Set<Seq<char>>>
    decreases adds.len(),
{
    if adds.len() == 0 {
        m
    } else {
        with_links(with_all(m, adds.drop_last()), adds.last().0, adds.last().1)
    }
}

/// Over any sequence of recordings, the graph only grows: every page stays and
/// keeps its links, and every new page is one that was recorded.
pub proof fn lemma_with_all_grows(m: Map<Seq<char>, Set<Seq<char>>>, adds: Seq<(Seq<char>, Seq<Seq<char>>)>)
    ensures
        forall|k: Seq<char>|
            #[trigger] m.contains_key(k) ==> with_all(m, adds).contains_key(k) && m[k].subset_of(
                with_all(m, adds)[k],
            ),
        forall|k: Seq<char>|
            #[trigger] with_all(m, adds).contains_key(k) ==> m.contains_key(k) || exists|i: int|
                0 <= i < adds.len() && (#[trigger] adds[i]).0 == k,
    decreases adds.len(),
{
    if adds.len() > 0 {
        let pre = adds.drop_last();
        let g = with_all(m, pre);
        let last = adds.last();
        lemma_with_all_grows(m, pre);
        lemma_add_links_read_back(g, last.0, last.1);
        assert forall|k: Seq<char>| #[trigger] m.contains_key(k) implies with_all(m, adds).contains_key(k)
            && m[k].subset_of(with_all(m, adds)[k]) by {
            assert(g.contains_key(k));
            if k == last.0 {
                assert(links_of(g, k) == g[k]);
            }
        }
        assert forall|k: Seq<char>| #[trigger] with_all(m, adds).contains_key(k) implies m.contains_key(k)
            || exists|i: int| 0 <= i < adds.len() && (#[trigger] adds[i]).0 == k by {
            if k == last.0 {
                assert(adds[adds.len() - 1].0 == k);
            } else {
                assert(g.contains_key(k));
                if !m.contains_key(k) {
                    let i = choose|i: int| 0 <= i < pre.len() && (#[trigger] pre[i]).0 == k;
                    assert(adds[i] == pre[i]);
                }
            }
        }
    }
}

/// Over any sequence of recordings, each recorded page ends up linking to
/// every link recorded for it.
pub proof fn lemma_recorded_link_kept(m: Map<Seq<char>, Set<Seq<char>>>, adds: Seq<(Seq<char>, Seq<Seq<char>>)>, i: int, j: int)
    requires
        0 <= i < adds.len(),
        0 <= j < adds[i].1.len(),
    ensures
        with_all(m, adds).contains_key(adds[i].0),
        with_all(m, adds)[adds[i].0].contains(adds[i].1[j]),
    decreases adds.len(),
{
    let pre = adds.drop_last();
    let g = with_all(m, pre);
    let last = adds.last();
    lemma_add_links_read_back(g, last.0, last.1);
    if i == adds.len() - 1 {
        assert(adds[i] == last);
        assert(last.1[j] == adds[i].1[j]);
    } else {
        assert(adds[i] == pre[i]);
        lemma_recorded_link_kept(m, pre, i, j);
        if pre[i].0 == last.0 {
            assert(links_of(g, last.0) == g[last.0]);
        }
    }
}

/// A directed graph of pages: each page that has been recorded, with the set
/// of pages it links to.
pub struct LinkGraph {
    edges: Vec<(String, StringHashSet)>,
    index: StringHashMap<usize>,
}

/// `ix` maps each page of `e`, and nothing else, to the index of its entry.
pub open spec fn index_wf(ix: Map<Seq<char>, usize>, e: Seq<(String, StringHashSet)>) -> bool {
    &&& forall|k: Seq<char>| #[trigger] ix.contains_key(k) <==> has_page(e, k)
    &&& forall|k: Seq<char>| #[trigger] ix.contains_key(k) ==> ix[k] < e.len() && e[ix[k] as int].0@ == k
}

/// Whether some entry of `e` is for page `k`.
pub open spec fn has_page(e: Seq<(String, StringHashSet)>, k: Seq<char>) -> bool {
    exists|i: int| 0 <= i < e.len() && #[trigger] e[i].0@ == k
}

/// The index of the entry of `e` for page `k`.
pub open spec fn page_index(e: Seq<(String, StringHashSet)>, k: Seq<char>) -> int {
    choose|i: int| 0 <= i < e.len() && #[trigger] e[i].0@ == k
}

/// The map from each page of `e` to the set of pages it links to.
pub open spec fn edge_map(e: Seq<(String, StringHashSet)>) -> Map<Seq<char>, Set<Seq<char>>> {
    Map::new(
        |k: Seq<char>| has_page(e, k),
        |k: Seq<char>| e[page_index(e, k)].1@,
    )
}

/// No page has two entries.
pub open spec fn edges_wf(e: Seq<(String, StringHashSet)>) -> bool {
    forall|i: int, j: int| 0 <= i < e.len() && 0 <= j < e.len() && i != j ==> #[trigger] e[i].0@ != #[trigger] e[j].0@
}

proof fn lemma_edge_map_at(e: Seq<(String, StringHashSet)>, j: int)
    requires
        edges_wf(e),
        0 <= j < e.len(),
    ensures
        edge_map(e).contains_key(e[j].0@),
        edge_map(e)[e[j].0@] == e[j].1@,
{
    let k = e[j].0@;
    assert(has_page(e, k));
    let i = page_index(e, k);
    assert(e[i].0@ == k);
}

proof fn lemma_edge_map_update(e: Seq<(String, StringHashSet)>, j: int, entry: (String, StringHashSet))
    requires
        edges_wf(e),
        0 <= j < e.len(),
        entry.0@ == e[j].0@,
    ensures
        edges_wf(e.update(j, entry)),
        edge_map(e.update(j, entry)) == edge_map(e).insert(entry.0@, entry.1@),
{
    let e2 = e.update(j, entry);
    assert forall|i: int, t: int| 0 <= i < e2.len() && 0 <= t < e2.len() && i != t implies #[trigger] e2[i].0@
        != #[trigger] e2[t].0@ by {
        assert(e[i].0@ != e[t].0@);
    }
    let m1 = edge_map(e2);
    let m2 = edge_map(e).insert(entry.0@, entry.1@);
    assert forall|k: Seq<char>| m1.contains_key(k) <==> m2.contains_key(k) by {
        if has_page(e2, k) {
            let i = choose|i: int| 0 <= i < e2.len() && #[trigger] e2[i].0@ == k;
            if i != j {
                assert(e[i].0@ == k);
            }
        }
        if has_page(e, k) {
            let i = choose|i: int| 0 <= i < e.len() && #[trigger] e[i].0@ == k;
            assert(e2[i].0@ == k);
        }
        if k == entry.0@ {
            assert(e2[j].0@ == k);
        }
    }
    assert forall|k: Seq<char>| m1.contains_key(k) implies m1[k] == m2[k] by {
        let i = page_index(e2, k);
        assert(e2[i].0@ == k);
        if k == entry.0@ {
            assert(i == j);
        } else {
            assert(i != j);
            assert(e[i].0@ == k);
            lemma_edge_map_at(e, i);
        }
    }
    assert(m1 =~= m2);
}

proof fn lemma_edge_map_push(e: Seq<(String, StringHashSet)>, entry: (String, StringHashSet))
    requires
        edges_wf(e),
        !has_page(e, entry.0@),
    ensures
        edges_wf(e.push(entry)),
        edge_map(e.push(entry)) == edge_map(e).insert(entry.0@, entry.1@),
{
    let e2 = e.push(entry);
    let n = e.len() as int;
    assert forall|i: int, t: int| 0 <= i < e2.len() && 0 <= t < e2.len() && i != t implies #[trigger] e2[i].0@
        != #[trigger] e2[t].0@ by {
        if i < n && t < n {
            assert(e[i].0@ != e[t].0@);
        } else if i < n {
            assert(e[i].0@ == e2[i].0@);
        } else {
            assert(e[t].0@ == e2[t].0@);
        }
    }
    let m1 = edge_map(e2);
    let m2 = edge_map(e).insert(entry.0@, entry.1@);
    assert forall|k: Seq<char>| m1.contains_key(k) <==> m2.contains_key(k) by {
        if has_page(e2, k) {
            let i = choose|i: int| 0 <= i < e2.len() && #[trigger] e2[i].0@ == k;
            if i < n {
                assert(e[i].0@ == k);
            }
        }
        if has_page(e, k) {
            let i = choose|i: int| 0 <= i < e.len() && #[trigger] e[i].0@ == k;
            assert(e2[i].0@ == k);
        }
        if k == entry.0@ {
            assert(e2[n].0@ == k);
        }
    }
    assert forall|k: Seq<char>| m1.contains_key(k) implies m1[k] == m2[k] by {
        let i = page_index(e2, k);
        assert(e2[i].0@ == k);
        if k == entry.0@ {
            if i < n {
                assert(e[i].0@ == k);
                assert(has_page(e, k));
            }
            assert(i == n);
        } else {
            assert(i < n);
            assert(e[i].0@ == k);
            lemma_edge_map_at(e, i);
        }
    }
    assert(m1 =~= m2);
}

impl View for LinkGraph {
    type V = Map<Seq<char>, Set<Seq<char>>>;

    closed spec fn view(&self) -> Map<Seq<char>, Set<Seq<char>>> {
        edge_map(self.edges@)
    }
}

/// The index of the entry of `edges` for page `url`, if there is one.
fn find_entry(edges: &Vec<(String, StringHashSet)>, index: &StringHashMap<usize>, url: &String) -> (r: Option<usize>)
    requires
        index_wf(index@, edges@),
    ensures
        r matches Some(j) ==> j < edges@.len() && edges@[j as int].0@ == url@,
        r is None ==> !has_page(edges@, url@),
{
    match index.get(url.as_str()) {
        Some(j) => Some(*j),
        None => None,
    }
}

/// Records in `edges` that page `from` links to each of `to_links`.
fn record_links(
    edges: &mut Vec<(String, StringHashSet)>,
    index: &mut StringHashMap<usize>,
    from: String,
    to_links: Vec<String>,
)
    requires
        edges_wf(old(edges)@),
        index_wf(old(index)@, old(edges)@),
    ensures
        edges_wf(final(edges)@),
        index_wf(final(index)@, final(edges)@),
        edge_map(final(edges)@) == with_links(edge_map(old(edges)@), from@, to_links.deep_view()),
{
    let ghost start = edge_map(edges@);
    let j = match find_entry(edges, index, &from) {
        Some(j) => j,
        None => {
            let ghost e = edges@;
            let ghost ix = index@;
            let entry = (from.clone(), StringHashSet::new());
            proof {
                lemma_edge_map_push(e, entry);
            }
            index.insert(from.clone(), edges.len());
            edges.push(entry);
            assert(edges@ == e.push(entry));
            proof {
                let e2 = e.push(entry);
                assert forall|k: Seq<char>| #[trigger] index@.contains_key(k) <==> has_page(e2, k) by {
                    if has_page(e2, k) && k != from@ {
                        let t = choose|t: int| 0 <= t < e2.len() && #[trigger] e2[t].0@ == k;
                        assert(t < e.len());
                        assert(e[t].0@ == k);
                    }
                    if ix.contains_key(k) {
                        assert(has_page(e, k));
                        let t = choose|t: int| 0 <= t < e.len() && #[trigger] e[t].0@ == k;
                        assert(e2[t].0@ == k);
                    }
                    if k == from@ {
                        assert(e2[e.len() as int].0@ == k);
                    }
                }
                assert forall|k: Seq<char>| #[trigger] index@.contains_key(k) implies index@[k] < e2.len()
                    && e2[index@[k] as int].0@ == k by {
                    if k != from@ {
                        assert(ix.contains_key(k));
                    }
                }
            }
            edges.len() - 1
        },
    };
    proof {
        lemma_edge_map_at(edges@, j as int);
        assert(links_of(start, from@) == edges@[j as int].1@);
        assert(edge_map(edges@) == start.insert(from@, links_of(start, from@)));
        assert(to_links.deep_view().take(0).to_set() =~= Set::<Seq<char>>::empty());
        assert(links_of(start, from@).union(Set::<Seq<char>>::empty()) =~= links_of(start, from@));
    }
    let n = to_links.len();
    for t in 0..n
        invariant
            n == to_links@.len(),
            j < edges@.len(),
            edges@[j as int].0@ == from@,
            edges_wf(edges@),
            index_wf(index@, edges@),
            edge_map(edges@) == start.insert(
                from@,
                links_of(start, from@).union(to_links.deep_view().take(t as int).to_set()),
            ),
    {
        let ghost e = edges@;
        let link = &to_links[t];
        proof {
            lemma_edge_map_at(e, j as int);
            assert(to_links.deep_view().take(t + 1) =~= to_links.deep_view().take(t as int).push(link@));
            to_links.deep_view().take(t as int).lemma_push_to_set_commute(link@);
        }
        let mut entry = (String::new(), StringHashSet::new());
        edges.set_and_swap(j, &mut entry);
        entry.1.insert(link.clone());
        let ghost updated = entry;
        edges.set_and_swap(j, &mut entry);
        proof {
            assert(edges@ == e.update(j as int, updated));
            lemma_edge_map_update(e, j as int, updated);
            assert forall|k: Seq<char>| #[trigger] index@.contains_key(k) <==> has_page(edges@, k) by {
                if has_page(edges@, k) {
                    let t = choose|t: int| 0 <= t < edges@.len() && #[trigger] edges@[t].0@ == k;
                    assert(e[t].0@ == k);
                }
                if has_page(e, k) {
                    let t = choose|t: int| 0 <= t < e.len() && #[trigger] e[t].0@ == k;
                    assert(edges@[t].0@ == k);
                }
            }
            assert forall|k: Seq<char>| #[trigger] index@.contains_key(k) implies index@[k] < edges@.len()
                && edges@[index@[k] as int].0@ == k by {
                assert(e[index@[k] as int].0@ == k);
            }
            let ls = links_of(start, from@);
            let tk = to_links.deep_view().take(t as int).to_set();
            assert(ls.union(to_links.deep_view().take(t + 1).to_set()) =~= ls.union(tk).insert(link@));
            assert(edge_map(edges@) =~= start.insert(
                from@,
                links_of(start, from@).union(to_links.deep_view().take(t + 1).to_set()),
            ));
        }
    }
    assert(to_links.deep_view().take(n as int) =~= to_links.deep_view());
    assert(edge_map(edges@) =~= with_links(start, from@, to_links.deep_view()));
}


impl LinkGraph {
    /// No page is recorded twice, and the index leads to each page's entry.
    #[verifier::type_invariant]
    closed spec fn wf(self) -> bool {
        edges_wf(self.edges@) && index_wf(self.index@, self.edges@)
    }

    /// The graph with no page.
    pub fn new() -> (g: Self)
        ensures
            g@ == Map::<Seq<char>, Set<Seq<char>>>::empty(),
    {
        let g = LinkGraph { edges: Vec::new(), index: StringHashMap::new() };
        assert(g@ =~= Map::<Seq<char>, Set<Seq<char>>>::empty());
        g
    }

    /// Records that page `from` links to each of `to_links`; what it linked
    /// to before stays.
    pub fn add_links(&mut self, from: String, to_links: Vec<String>)
        ensures
            final(self)@ == with_links(old(self)@, from@, to_links.deep_view()),
    {
        let mut g = LinkGraph::new();
        std::mem::swap(&mut g, self);
        proof {
            use_type_invariant(&g);
        }
        let LinkGraph { mut edges, mut index } = g;
        record_links(&mut edges, &mut index, from, to_links);
        *self = LinkGraph { edges, index };
    }

    /// The set of pages that `url` links to; `None` where `url` has not been
    /// recorded.
    pub fn get_links(&self, url: &String) -> (r: Option<&StringHashSet>)
        ensures
            r is Some <==> self@.contains_key(url@),
            r matches Some(links) ==> links@ == self@[url@],
    {
        proof {
            use_type_invariant(self);
        }
        match find_entry(&self.edges, &self.index, url) {
            Some(j) => {
                proof {
                    lemma_edge_map_at(self.edges@, j as int);
                }
                Some(&self.edges[j].1)
            },
            None => None,
        }
    }

    /// Every recorded page once, in the order first recorded.
    pub fn pages(&self) -> (r: Vec<String>)
        ensures
            r.deep_view().no_duplicates(),
            r.deep_view().to_set() == self@.dom(),
    {
        proof {
            use_type_invariant(self);
        }
        let mut r: Vec<String> = Vec::new();
        let n = self.edges.len();
        for i in 0..n
            invariant
                n == self.edges@.len(),
                edges_wf(self.edges@),
                r@.len() == i,
                forall|t: int| 0 <= t < i ==> (#[trigger] r@[t])@ == self.edges@[t].0@,
        {
            r.push(self.edges[i].0.clone());
        }
        proof {
            let d = r.deep_view();
            assert forall|a: int, b: int| 0 <= a < d.len() && 0 <= b < d.len() && a != b implies d[a] != d[b] by {
                assert(d[a] == self.edges@[a].0@);
                assert(d[b] == self.edges@[b].0@);
            }
            assert forall|k: Seq<char>| d.to_set().contains(k) <==> self@.dom().contains(k) by {
                if d.contains(k) {
                    let t = choose|t: int| 0 <= t < d.len() && d[t] == k;
                    assert(self.edges@[t].0@ == k);
                }
                if has_page(self.edges@, k) {
                    let t = choose|t: int| 0 <= t < self.edges@.len() && #[trigger] self.edges@[t].0@ == k;
                    assert(d[t] == k);
                }
            }
            assert(d.to_set() =~= self@.dom());
        }
        r
    }

    /// Each recorded page that links to `page`, once, with the number of
    /// pages it links to.
    pub fn inbound_links(&self, page: &String) -> (r: Vec<(String, usize)>)
        ensures
            r@.map_values(|p: (String, usize)| p.0@).no_duplicates(),
            forall|t: int|
                0 <= t < r@.len() ==> self@.contains_key((#[trigger] r@[t]).0@) && self@[r@[t].0@].contains(
                    page@,
                ) && r@[t].1 == self@[r@[t].0@].len(),
            forall|k: Seq<char>|
                self@.contains_key(k) && #[trigger] self@[k].contains(page@) ==> exists|t: int|
                    0 <= t < r@.len() && (#[trigger] r@[t]).0@ == k,
    {
        proof {
            use_type_invariant(self);
        }
        let mut r: Vec<(String, usize)> = Vec::new();
        let ghost idx: Seq<int> = Seq::empty();
        let n = self.edges.len();
        for i in 0..n
            invariant
                n == self.edges@.len(),
                edges_wf(self.edges@),
                idx.len() == r@.len(),
                forall|t: int| 0 <= t < r@.len() ==> 0 <= #[trigger] idx[t] < i && r@[t].0@ == self.edges@[idx[t]].0@,
                forall|a: int, b: int| 0 <= a < b < r@.len() ==> #[trigger] idx[a] < #[trigger] idx[b],
                forall|t: int|
                    0 <= t < r@.len() ==> self@.contains_key((#[trigger] r@[t]).0@) && self@[r@[t].0@].contains(
                        page@,
                    ) && r@[t].1 == self@[r@[t].0@].len(),
                forall|j: int|
                    0 <= j < i && #[trigger] self.edges@[j].1@.contains(page@) ==> exists|t: int|
                        0 <= t < r@.len() && idx[t] == j,
        {
            let present = self.edges[i].1.contains(page.as_str());
            proof {
                lemma_edge_map_at(self.edges@, i as int);
            }
            if present {
                let d = self.edges[i].1.len();
                let ghost old_r = r@;
                let ghost old_idx = idx;
                r.push((self.edges[i].0.clone(), d));
                proof {
                    idx = idx.push(i as int);
                    assert(r@[r@.len() - 1].0@ == self.edges@[i as int].0@);
                    assert(r@[r@.len() - 1].1 == self@[self.edges@[i as int].0@].len());
                    assert forall|t: int| 0 <= t < old_r.len() implies idx[t] == old_idx[t] by {}
                    assert forall|t: int|
                        0 <= t < r@.len() implies self@.contains_key((#[trigger] r@[t]).0@) && self@[r@[t].0@].contains(
                            page@,
                        ) && r@[t].1 == self@[r@[t].0@].len() by {
                        if t < old_r.len() {
                            assert(r@[t] == old_r[t]);
                        }
                    }
                    assert forall|j: int|
                        0 <= j < i + 1 && #[trigger] self.edges@[j].1@.contains(page@) implies exists|t: int|
                            0 <= t < r@.len() && idx[t] == j by {
                        if j == i {
                            assert(idx[r@.len() - 1] == j);
                        } else {
                            let t = choose|t: int| 0 <= t < old_r.len() && old_idx[t] == j;
                            assert(idx[t] == j);
                        }
                    }
                }
            }
        }
        proof {
            let keys = r@.map_values(|p: (String, usize)| p.0@);
            assert forall|a: int, b: int| 0 <= a < keys.len() && 0 <= b < keys.len() && a != b implies keys[a] != keys[b] by {
                if a < b {
                    assert(idx[a] < idx[b]);
                } else {
                    assert(idx[b] < idx[a]);
                }
                assert(keys[a] == self.edges@[idx[a]].0@);
                assert(keys[b] == self.edges@[idx[b]].0@);
            }
            assert forall|k: Seq<char>|
                self@.contains_key(k) && #[trigger] self@[k].contains(page@) implies exists|t: int|
                    0 <= t < r@.len() && (#[trigger] r@[t]).0@ == k by {
                let j = page_index(self.edges@, k);
                assert(self.edges@[j].0@ == k);
                let t = choose|t: int| 0 <= t < r@.len() && idx[t] == j;
                assert(r@[t].0@ == k);
            }
        }
        r
    }
}

} // verus!
