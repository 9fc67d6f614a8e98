use vstd::prelude::*;

use crate::request::{normalize_uri, uri_form, Request, RequestError};
use crate::score::Score;
use crate::store::memory::{has_ranked_key, is_best_key};
use crate::store::{Memory, StoreError};
use crate::strategy::Strategy;

verus! {

/// What one probe of a cycle gave back.
pub struct ProbeOutcome {
    /// The probed URL, as `Service::urls` lists it.
    pub url: String,
    /// Time spent on the probe, answered or not, in nanoseconds.
    pub elapsed_nanos: u64,
    /// The response status; `None` when the request failed or timed out.
    pub status: Option<u16>,
}

/// The status handed to a strategy: the response's, or 0 where none came.
pub open spec fn status_or_sentinel(status: Option<u16>) -> u16 {
    match status {
        Some(s) => s,
        None => 0,
    }
}

/// The status to score a probe by: the response's, or 0 where none came.
pub fn probe_status(status: Option<u16>) -> (r: u16)
    ensures
        r == status_or_sentinel(status),
        status is None ==> r == 0,
{
    match status {
        Some(s) => s,
        None => 0,
    }
}

/// The prior that an endpoint's next score is computed from: its stored
/// score, or the all-zero default where it has none.
pub open spec fn prior_of(m: Map<Seq<char>, Score>, url: Seq<char>) -> Score {
    if m.contains_key(url) {
        m[url]
    } else {
        Score { response_avg_nanos: 0, score_bits: 0, reliability_bits: 0 }
    }
}

/// The store `m` after the outcomes have been scored by `st` and written
/// back one by one, in order.
pub open spec fn after_cycle<S: Strategy>(
    st: S,
    m: Map<Seq<char>, Score>,
    outcomes: Seq<ProbeOutcome>,
) -> Map<Seq<char>, Score>
    decreases outcomes.len(),
{
    if outcomes.len() == 0 {
        m
    } else {
        let prev = after_cycle(st, m, outcomes.drop_last());
        let o = outcomes.last();
        prev.insert(
            o.url@,
            st.next_score(prior_of(prev, o.url@), o.elapsed_nanos, status_or_sentinel(o.status)),
        )
    }
}

/// The URLs of a list of requests, in order.
pub open spec fn url_seq(reqs: Seq<Request>) -> Seq<Seq<char>> {
    reqs.map_values(|q: Request| q.url@)
}

/// The requests of `reqs` whose URL differs from `url`, in order.
pub open spec fn without_url(reqs: Seq<Request>, url: Seq<char>) -> Seq<Request> {
    reqs.filter(differs_from(url))
}

/// Holds of a request whose URL is not `url`.
pub open spec fn differs_from(url: Seq<char>) -> spec_fn(Request) -> bool {
    |q: Request| q.url@ != url
}

/// The URLs that a cycle's outcomes name.
pub open spec fn outcome_urls(outcomes: Seq<ProbeOutcome>) -> Set<Seq<char>> {
    outcomes.map_values(|o: ProbeOutcome| o.url@).to_set()
}

/// `after` is the store `before` once a cycle over `outcomes` has been
/// recorded: every probed URL holds a score, and every other key keeps its own.
pub open spec fn records_cycle(
    before: Map<Seq<char>, Score>,
    after: Map<Seq<char>, Score>,
    outcomes: Seq<ProbeOutcome>,
) -> bool {
    &&& after.dom() == before.dom().union(outcome_urls(outcomes))
    &&& forall|k: Seq<char>|
        #[trigger] before.contains_key(k) && !outcome_urls(outcomes).contains(k) ==> after[k]
            == before[k]
}

proof fn lemma_filter_absent(reqs: Seq<Request>, url: Seq<char>)
    requires
        forall|i: int| 0 <= i < reqs.len() ==> (#[trigger] reqs[i]).url@ != url,
    ensures
        without_url(reqs, url) == reqs,
    decreases reqs.len(),
{
    reveal_with_fuel(Seq::filter, 1);
    if reqs.len() > 0 {
        lemma_filter_absent(reqs.drop_last(), url);
        assert(reqs.drop_last().push(reqs.last()) =~= reqs);
    }
}

/// Keeps the scores of a set of monitored endpoints up to date and names
/// the best of them.
pub struct Service<S: Strategy> {
    /// Turns each probe's result into the endpoint's next score.
    pub strategy: S,
    /// The scores, by URL.
    pub store: Memory,
    /// The monitored endpoints, in the order they were added.
    pub requests: Vec<Request>,
    /// Unix time, in seconds, at which the last cycle was recorded; 0 before the first.
    pub updated_at: u64,
}

impl<S: Strategy> Service<S> {
    /// A service over the given strategy, store and endpoints.
    pub fn new(strategy: S, store: Memory, requests: Vec<Request>) -> (r: Service<S>)
        ensures
            r.strategy == strategy,
            r.store == store,
            r.requests == requests,
            r.updated_at == 0,
    {
        Service { strategy, store, requests, updated_at: 0 }
    }

    /// The URL with the best score, as the store ranks it.
    pub fn best_url(&self) -> (r: Result<Option<String>, StoreError>)
        ensures
            match r {
                Ok(Some(k)) => is_best_key(self.store.view(), k@),
                Ok(None) => !has_ranked_key(self.store.view()),
                Err(_) => false,
            },
    {
        self.store.best_url()
    }

    /// The URLs of the monitored endpoints, in order.
    pub fn urls(&self) -> (r: Vec<String>)
        ensures
            r@.map_values(|s: String| s@) == url_seq(self.requests@),
    {
        let mut out: Vec<String> = Vec::new();
        let mut i: usize = 0;
        while i < self.requests.len()
            invariant
                0 <= i <= self.requests@.len(),
                out@.map_values(|s: String| s@) =~= url_seq(self.requests@.subrange(0, i as int)),
            decreases self.requests.len() - i,
        {
            let ghost prev = out@;
            let u = self.requests[i].url.clone();
            out.push(u);
            proof {
                let f = |s: String| s@;
                assert(out@ == prev.push(u));
                assert(out@.map_values(f) =~= prev.map_values(f).push(u@));
                assert(self.requests@.subrange(0, i as int + 1) =~= self.requests@.subrange(
                    0,
                    i as int,
                ).push(self.requests@[i as int]));
                assert(url_seq(self.requests@.subrange(0, i as int + 1)) =~= url_seq(
                    self.requests@.subrange(0, i as int),
                ).push(self.requests@[i as int].url@));
            }
            i = i + 1;
        }
        assert(self.requests@.subrange(0, i as int) =~= self.requests@);
        out
    }

    /// Adds an endpoint at the end of the list; the same URL may occur twice.
    pub fn insert_request(&mut self, request: Request)
        ensures
            final(self).requests@ == old(self).requests@.push(request),
            final(self).strategy == old(self).strategy,
            url_seq(final(self).requests@) == url_seq(old(self).requests@).push(request.url@),
            final(self).store == old(self).store,
            final(self).updated_at == old(self).updated_at,
    {
        let ghost url = request.url@;
        self.requests.push(request);
        assert(url_seq(self.requests@) =~= url_seq(old(self).requests@).push(url));
    }

    /// Removes every endpoint whose URL equals `url` once hyper's `Uri` has
    /// rendered it. Removing a URL that is not monitored changes nothing and
    /// succeeds; a URL that does not parse is refused and changes nothing.
    pub fn remove_request(&mut self, url: &str) -> (r: Result<(), RequestError>)
        ensures
            final(self).strategy == old(self).strategy,
            final(self).store == old(self).store,
            final(self).updated_at == old(self).updated_at,
            match uri_form(url@) {
                None => r == Err::<(), RequestError>(RequestError::InvalidUrl)
                    && final(self).requests@ == old(self).requests@,
                Some(n) => r is Ok && final(self).requests@ == without_url(
                    old(self).requests@,
                    n,
                ),
            },
            match uri_form(url@) {
                Some(n) => (forall|i: int|
                    0 <= i < old(self).requests@.len() ==> (#[trigger] old(
                        self,
                    ).requests@[i]).url@ != n) ==> final(self).requests@ == old(self).requests@,
                None => true,
            },
    {
        let target = match normalize_uri(url) {
            Some(t) => t,
            None => {
                return Err(RequestError::InvalidUrl);
            },
        };
        let ghost n = target@;
        let ghost orig = self.requests@;
        let ghost mut k: int = 0;
        let mut i: usize = 0;
        while i < self.requests.len()
            invariant
                n == target@,
                0 <= k <= orig.len(),
                i == without_url(orig.subrange(0, k), n).len(),
                self.requests@ =~= without_url(orig.subrange(0, k), n) + orig.subrange(
                    k,
                    orig.len() as int,
                ),
                self.strategy == old(self).strategy,
                self.store == old(self).store,
                self.updated_at == old(self).updated_at,
            decreases orig.len() - k,
        {
            let ghost prev = self.requests@;
            proof {
                assert(prev[i as int] == orig[k]);
            }
            let same = self.requests[i].url.eq(&target);
            if same {
                self.requests.remove(i);
                proof {
                    assert(orig.subrange(0, k + 1) =~= orig.subrange(0, k).push(orig[k]));
                    orig.subrange(0, k).lemma_filter_push(orig[k], differs_from(n));
                    assert(without_url(orig.subrange(0, k + 1), n) == without_url(
                        orig.subrange(0, k),
                        n,
                    ));
                    assert(self.requests@ =~= without_url(orig.subrange(0, k + 1), n)
                        + orig.subrange(k + 1, orig.len() as int));
                }
            } else {
                proof {
                    assert(orig.subrange(0, k + 1) =~= orig.subrange(0, k).push(orig[k]));
                    orig.subrange(0, k).lemma_filter_push(orig[k], differs_from(n));
                    assert(without_url(orig.subrange(0, k + 1), n) == without_url(
                        orig.subrange(0, k),
                        n,
                    ).push(orig[k]));
                    assert(self.requests@ =~= without_url(orig.subrange(0, k + 1), n)
                        + orig.subrange(k + 1, orig.len() as int));
                }
                i = i + 1;
            }
            proof {
                k = k + 1;
            }
        }
        proof {
            assert(orig.subrange(0, k) =~= orig);
            if forall|j: int| 0 <= j < orig.len() ==> (#[trigger] orig[j]).url@ != n {
                lemma_filter_absent(orig, n);
            }
        }
        Ok(())
    }

    /// The same service over another store.
    pub fn use_store(self, store: Memory) -> (r: Service<S>)
        ensures
            r.strategy == self.strategy,
            r.store == store,
            r.requests == self.requests,
            r.updated_at == self.updated_at,
    {
        Service { store, ..self }
    }

    /// The same service over another strategy.
    pub fn use_strategy<T: Strategy>(self, strategy: T) -> (r: Service<T>)
        ensures
            r.strategy == strategy,
            r.store == self.store,
            r.requests == self.requests,
            r.updated_at == self.updated_at,
    {
        Service { strategy, store: self.store, requests: self.requests, updated_at: self.updated_at }
    }

    /// Records one polling cycle. For each outcome in turn the endpoint's
    /// score is read (an endpoint without one starts from the default score),
    /// passed with the elapsed time and the status (0 where no response came)
    /// through the strategy, and written back; then the cycle's time, in Unix
    /// seconds, is kept as the time of the last update.
    pub fn update(&mut self, outcomes: &Vec<ProbeOutcome>, now_unix_secs: u64)
        ensures
            final(self).store.view() == after_cycle(
                old(self).strategy,
                old(self).store.view(),
                outcomes@,
            ),
            records_cycle(old(self).store.view(), final(self).store.view(), outcomes@),
            final(self).requests == old(self).requests,
            final(self).strategy == old(self).strategy,
            final(self).updated_at == now_unix_secs,
    {
        let ghost before = self.store.view();
        proof {
            let none = outcomes@.subrange(0, 0);
            assert(none.map_values(|o: ProbeOutcome| o.url@) =~= Seq::<Seq<char>>::empty());
            assert(outcome_urls(none) =~= Set::<Seq<char>>::empty());
            assert(before.dom().union(outcome_urls(none)) =~= before.dom());
            assert(after_cycle(self.strategy, before, none) == before);
        }
        let mut i: usize = 0;
        while i < outcomes.len()
            invariant
                0 <= i <= outcomes@.len(),
                records_cycle(before, self.store.view(), outcomes@.subrange(0, i as int)),
                self.store.view() == after_cycle(
                    self.strategy,
                    before,
                    outcomes@.subrange(0, i as int),
                ),
                self.requests == old(self).requests,
                self.strategy == old(self).strategy,
            decreases outcomes.len() - i,
        {
            let outcome = &outcomes[i];
            let status: u16 = probe_status(outcome.status);
            let prior = match self.store.get(outcome.url.as_str()) {
                Ok(Some(s)) => s,
                _ => Score::default(),
            };
            let next = self.strategy.calculate(prior, outcome.elapsed_nanos, status);
            let ghost mid = self.store.view();
            let _ = self.store.set(outcome.url.clone(), next);
            proof {
                let done = outcomes@.subrange(0, i as int);
                let now = outcomes@.subrange(0, i as int + 1);
                assert(now =~= done.push(outcomes@[i as int]));
                assert(now.drop_last() =~= done);
                assert(now.map_values(|o: ProbeOutcome| o.url@) =~= done.map_values(
                    |o: ProbeOutcome| o.url@,
                ).push(outcomes@[i as int].url@));
                assert(outcome_urls(now) =~= outcome_urls(done).insert(outcomes@[i as int].url@))
                    by {
                    let ms = now.map_values(|o: ProbeOutcome| o.url@);
                    let ds = done.map_values(|o: ProbeOutcome| o.url@);
                    assert forall|k: Seq<char>| ms.to_set().contains(k) <==> ds.to_set().insert(
                        outcomes@[i as int].url@,
                    ).contains(k) by {
                        if ms.contains(k) {
                            let j = choose|j: int| 0 <= j < ms.len() && ms[j] == k;
                            if j < ds.len() {
                                assert(ds[j] == k);
                            }
                        }
                        if ds.contains(k) {
                            let j = choose|j: int| 0 <= j < ds.len() && ds[j] == k;
                            assert(ms[j] == k);
                        }
                        if k == outcomes@[i as int].url@ {
                            assert(ms[ds.len() as int] == k);
                        }
                    }
                }
                assert(self.store.view().dom() =~= before.dom().union(outcome_urls(now)));
            }
            i = i + 1;
        }
        assert(outcomes@.subrange(0, i as int) =~= outcomes@);
        self.updated_at = now_unix_secs;
    }
}

/// A cycle over `N` probes with distinct URLs, recorded into an empty store,
/// leaves exactly `N` entries, one for each probe, whether or not the probe
/// was answered.
pub proof fn lemma_cycle_leaves_entry_per_probe(
    before: Map<Seq<char>, Score>,
    after: Map<Seq<char>, Score>,
    outcomes: Seq<ProbeOutcome>,
)
    requires
        before.dom().is_empty(),
        forall|i: int, j: int|
            0 <= i < j < outcomes.len() ==> (#[trigger] outcomes[i]).url@
                != (#[trigger] outcomes[j]).url@,
        records_cycle(before, after, outcomes),
    ensures
        after.dom().len() == outcomes.len(),
        forall|i: int| 0 <= i < outcomes.len() ==> after.contains_key(#[trigger] outcomes[i].url@),
{
    let us = outcomes.map_values(|o: ProbeOutcome| o.url@);
    assert(us.no_duplicates()) by {
        assert forall|i: int, j: int| 0 <= i < us.len() && 0 <= j < us.len() && i != j implies us[i]
            != us[j] by {
            if i < j {
                assert(outcomes[i].url@ != outcomes[j].url@);
            } else {
                assert(outcomes[j].url@ != outcomes[i].url@);
            }
        }
    }
    us.unique_seq_to_set();
    assert(after.dom() =~= us.to_set());
    assert forall|i: int| 0 <= i < outcomes.len() implies after.contains_key(
        #[trigger] outcomes[i].url@,
    ) by {
        assert(us[i] == outcomes[i].url@);
    }
}

proof fn lemma_cycle_leaves_other_keys<S: Strategy>(
    st: S,
    before: Map<Seq<char>, Score>,
    outcomes: Seq<ProbeOutcome>,
    url: Seq<char>,
)
    requires
        forall|j: int| 0 <= j < outcomes.len() ==> (#[trigger] outcomes[j]).url@ != url,
    ensures
        after_cycle(st, before, outcomes).contains_key(url) == before.contains_key(url),
        prior_of(after_cycle(st, before, outcomes), url) == prior_of(before, url),
    decreases outcomes.len(),
{
    if outcomes.len() > 0 {
        let rest = outcomes.drop_last();
        assert(forall|j: int| 0 <= j < rest.len() ==> rest[j] == outcomes[j]);
        lemma_cycle_leaves_other_keys(st, before, rest, url);
        assert(outcomes.last() == outcomes[outcomes.len() - 1]);
    }
}

/// In a cycle over probes with distinct URLs, each probe's URL ends up
/// holding the strategy's score computed from that URL's score before the
/// cycle (the default where it had none), the probe's elapsed time and its
/// status, 0 where no response came.
pub proof fn lemma_cycle_scores_each_probe<S: Strategy>(
    st: S,
    before: Map<Seq<char>, Score>,
    outcomes: Seq<ProbeOutcome>,
    i: int,
)
    requires
        0 <= i < outcomes.len(),
        forall|a: int, b: int|
            0 <= a < b < outcomes.len() ==> (#[trigger] outcomes[a]).url@
                != (#[trigger] outcomes[b]).url@,
    ensures
        after_cycle(st, before, outcomes).contains_key(outcomes[i].url@),
        after_cycle(st, before, outcomes)[outcomes[i].url@] == st.next_score(
            prior_of(before, outcomes[i].url@),
            outcomes[i].elapsed_nanos,
            status_or_sentinel(outcomes[i].status),
        ),
    decreases outcomes.len(),
{
    let rest = outcomes.drop_last();
    let last = outcomes.len() - 1;
    assert(forall|j: int| 0 <= j < rest.len() ==> rest[j] == outcomes[j]);
    if i == last {
        assert forall|j: int| 0 <= j < rest.len() implies (#[trigger] rest[j]).url@
            != outcomes[i].url@ by {
            assert(outcomes[j].url@ != outcomes[last].url@);
        }
        lemma_cycle_leaves_other_keys(st, before, rest, outcomes[i].url@);
    } else {
        assert forall|a: int, b: int| 0 <= a < b < rest.len() implies (#[trigger] rest[a]).url@
            != (#[trigger] rest[b]).url@ by {
            assert(outcomes[a].url@ != outcomes[b].url@);
        }
        lemma_cycle_scores_each_probe(st, before, rest, i);
        assert(outcomes[i].url@ != outcomes[last].url@);
    }
}

} // verus!
