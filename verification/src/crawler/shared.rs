//! What the crawler's workers share: when each domain was last claimed, so
//! that no domain is visited twice within `DOMAIN_DELAY_MS`, and how many
//! pages are done, so that no more than the limit are. Times are milliseconds
//! on one clock that all workers read.
use vstd::hash_map::StringHashMap;
use vstd::prelude::*;

use crate::crawler::worker::{count_after_slot, domain_ready, reserve_slot, DOMAIN_DELAY_MS};

verus! {

/// Whether `domain` may be claimed at time `now`, where `m` holds the time of
/// the last granted claim of each domain: never claimed, or claimed at least
/// `DOMAIN_DELAY_MS` before `now`.
pub open spec fn may_claim(m: Map<Seq<char>, u64>, domain: Seq<char>, now: u64) -> bool {
    !m.contains_key(domain) || now >= m[domain] + DOMAIN_DELAY_MS
}

/// `m` after a claim of `domain` at time `now`: the time is recorded where
/// the claim is granted, else nothing changes.
pub open spec fn after_claim(m: Map<Seq<char>, u64>, domain: Seq<char>, now: u64) -> Map<Seq<char>, u64> {
    if may_claim(m, domain, now) {
        m.insert(domain, now)
    } else {
        m
    }
}

/// `m` after each claim of `claims` (a domain and a time) in turn.
pub open spec fn after_claims(m: Map<Seq<char>, u64>, claims: Seq<(Seq<char>, u64)>) -> Map<Seq<char>, u64>
    decreases claims.len(),
{
    if claims.len() == 0 {
        m
    } else {
        after_claim(after_claims(m, claims.drop_last()), claims.last().0, claims.last().1)
    }
}

/// Whether claim `i` of `claims`, made from `m` after the claims before it,
/// is granted.
pub open spec fn granted(m: Map<Seq<char>, u64>, claims: Seq<(Seq<char>, u64)>, i: int) -> bool {
    may_claim(after_claims(m, claims.take(i)), claims[i].0, claims[i].1)
}

/// After the first `k` claims of `claims`: every domain of `m` is still
/// recorded, at a time no earlier than before, and the domain of every
/// granted claim among them is recorded at a time no earlier than that claim.
proof fn lemma_recorded_times(m: Map<Seq<char>, u64>, claims: Seq<(Seq<char>, u64)>, k: int)
    requires
        0 <= k <= claims.len(),
    ensures
        forall|d: Seq<char>|
            #[trigger] m.contains_key(d) ==> after_claims(m, claims.take(k)).contains_key(d) && after_claims(
                m,
                claims.take(k),
            )[d] >= m[d],
        forall|i: int|
            0 <= i < k && #[trigger] granted(m, claims, i) ==> after_claims(m, claims.take(k)).contains_key(
                claims[i].0,
            ) && after_claims(m, claims.take(k))[claims[i].0] >= claims[i].1,
    decreases k,
{
    if k == 0 {
        assert(claims.take(0) =~= Seq::<(Seq<char>, u64)>::empty());
    } else {
        lemma_recorded_times(m, claims, k - 1);
        let pre = after_claims(m, claims.take(k - 1));
        assert(claims.take(k).drop_last() =~= claims.take(k - 1));
        assert(claims.take(k).last() == claims[k - 1]);
        let post = after_claims(m, claims.take(k));
        assert(post == after_claim(pre, claims[k - 1].0, claims[k - 1].1));
        assert forall|i: int| 0 <= i < k && #[trigger] granted(m, claims, i) implies post.contains_key(
            claims[i].0,
        ) && post[claims[i].0] >= claims[i].1 by {
            if i < k - 1 {
                assert(pre.contains_key(claims[i].0) && pre[claims[i].0] >= claims[i].1);
            }
        }
    }
}

/// Two granted claims of one domain, one after the other, are at least
/// `DOMAIN_DELAY_MS` apart.
pub proof fn lemma_claims_spaced(m: Map<Seq<char>, u64>, claims: Seq<(Seq<char>, u64)>, i: int, j: int)
    requires
        0 <= i < j < claims.len(),
        claims[i].0 == claims[j].0,
        granted(m, claims, i),
        granted(m, claims, j),
    ensures
        claims[j].1 >= claims[i].1 + DOMAIN_DELAY_MS,
{
    lemma_recorded_times(m, claims, j);
}

/// A granted claim of a domain that had a recorded time at the start comes
/// at least `DOMAIN_DELAY_MS` after that time.
pub proof fn lemma_first_claim_spaced(m: Map<Seq<char>, u64>, claims: Seq<(Seq<char>, u64)>, j: int)
    requires
        0 <= j < claims.len(),
        m.contains_key(claims[j].0),
        granted(m, claims, j),
    ensures
        claims[j].1 >= m[claims[j].0] + DOMAIN_DELAY_MS,
{
    lemma_recorded_times(m, claims, j);
}

/// The time of the last granted claim of each domain.
pub struct DomainClock {
    last: StringHashMap<u64>,
}

impl View for DomainClock {
    type V = Map<Seq<char>, u64>;

    closed spec fn view(&self) -> Map<Seq<char>, u64> {
        self.last@
    }
}

impl DomainClock {
    /// No domain claimed yet.
    pub fn new() -> (c: Self)
        ensures
            c@ == Map::<Seq<char>, u64>::empty(),
    {
        DomainClock { last: StringHashMap::new() }
    }

    /// Claims `domain` for a visit at time `now_ms`: granted where the domain
    /// was never claimed or was last claimed at least `DOMAIN_DELAY_MS`
    /// before (a last claim later than `now_ms` counts as none elapsed); a
    /// granted claim records `now_ms` as the domain's time.
    pub fn claim(&mut self, domain: &String, now_ms: u64) -> (granted: bool)
        ensures
            granted == may_claim(old(self)@, domain@, now_ms),
            final(self)@ == after_claim(old(self)@, domain@, now_ms),
            granted && old(self)@.contains_key(domain@) ==> now_ms >= old(self)@[domain@] + DOMAIN_DELAY_MS,
    {
        let ready = match self.last.get(domain.as_str()) {
            Some(t) => {
                if now_ms >= *t {
                    domain_ready(Some(now_ms - *t))
                } else {
                    false
                }
            },
            None => domain_ready(None),
        };
        if ready {
            self.last.insert(domain.clone(), now_ms);
        }
        ready
    }
}

/// How many pages are done, out of at most how many.
pub struct PageCounter {
    count: usize,
    max_pages: usize,
}

impl PageCounter {
    /// The count never passes the limit.
    #[verifier::type_invariant]
    closed spec fn within_limit(self) -> bool {
        self.count <= self.max_pages
    }

    /// The number of pages done.
    pub closed spec fn done(self) -> nat {
        self.count as nat
    }

    /// The most pages that may be done.
    pub closed spec fn limit(self) -> nat {
        self.max_pages as nat
    }

    /// No page done yet, of at most `max_pages`.
    pub fn new(max_pages: usize) -> (c: Self)
        ensures
            c.done() == 0,
            c.limit() == max_pages,
    {
        PageCounter { count: 0, max_pages }
    }

    /// The number of pages done, which is never above the limit.
    pub fn count(&self) -> (r: usize)
        ensures
            r == self.done(),
            r <= self.limit(),
    {
        proof {
            use_type_invariant(self);
        }
        self.count
    }

    /// The most pages that may be done.
    pub fn max_pages(&self) -> (r: usize)
        ensures
            r == self.limit(),
    {
        self.max_pages
    }

    /// Reserves a slot for one more page: where the limit is not reached,
    /// the count grows by one and the new count, which is the page's id,
    /// comes back; else `None`, and nothing changes.
    pub fn reserve(&mut self) -> (r: Option<usize>)
        ensures
            final(self).limit() == old(self).limit(),
            final(self).done() == count_after_slot(old(self).done(), old(self).limit()),
            final(self).done() <= final(self).limit(),
            old(self).done() < old(self).limit() ==> r == Some((old(self).done() + 1) as usize),
            old(self).done() >= old(self).limit() ==> r is None,
    {
        proof {
            use_type_invariant(&*self);
        }
        let r = reserve_slot(self.count, self.max_pages);
        if let Some(c) = r {
            self.count = c;
        }
        r
    }
}

} // verus!
