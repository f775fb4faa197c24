//! The pool of providers as a mathematical value: who is available, in which
//! order they are tried, and what each report changes.
use vstd::prelude::*;

use crate::health::StateView;
use crate::probe::ProbeError;
use crate::provider::ProviderView;

verus! {

/// What a registry holds: the providers in order of priority, and the cursor of
/// the round-robin.
#[verifier::ext_equal]
pub struct PoolView {
    pub states: Seq<StateView>,
    pub cursor: int,
}

/// The numbers from zero to `n - 1`, in order.
pub open spec fn indices(n: nat) -> Seq<int> {
    Seq::new(n, |i: int| i)
}

/// The sequence with its first `mid` elements moved to the end.
pub open spec fn rotated_left<T>(s: Seq<T>, mid: int) -> Seq<T> {
    s.skip(mid) + s.take(mid)
}

impl PoolView {
    /// A pool of providers of which nothing has been seen yet.
    pub open spec fn fresh(providers: Seq<ProviderView>) -> PoolView {
        PoolView {
            states: Seq::new(providers.len(), |i: int| StateView::fresh(providers[i])),
            cursor: 0,
        }
    }

    /// The invariant: each state is valid, and the cursor fits its type.
    pub open spec fn valid(self) -> bool {
        &&& forall|i: int| 0 <= i < self.states.len() ==> (#[trigger] self.states[i]).valid()
        &&& 0 <= self.cursor <= usize::MAX
    }

    /// The providers in order of priority.
    pub open spec fn providers(self) -> Seq<ProviderView> {
        Seq::new(self.states.len(), |i: int| self.states[i].provider)
    }

    /// The providers at the given indices.
    pub open spec fn providers_at(self, order: Seq<int>) -> Seq<ProviderView> {
        Seq::new(order.len(), |k: int| self.states[order[k]].provider)
    }

    // ── Looking up ────────────────────────────────────────────────────────

    /// Whether `i` is the first provider with this URL.
    pub open spec fn is_first_with(self, i: int, url: Seq<char>) -> bool {
        &&& 0 <= i < self.states.len()
        &&& self.states[i].provider.url == url
        &&& forall|j: int| 0 <= j < i ==> (#[trigger] self.states[j]).provider.url != url
    }

    /// The first provider with this URL, if there is one.
    pub open spec fn find(self, url: Seq<char>) -> Option<int> {
        if exists|i: int| self.is_first_with(i, url) {
            Some(choose|i: int| self.is_first_with(i, url))
        } else {
            None
        }
    }

    // ── Routing ───────────────────────────────────────────────────────────

    /// The providers that may be used at `now`, in order of priority.
    pub open spec fn available(self, now: int) -> Seq<int> {
        self.available_of_first(self.states.len(), now)
    }

    /// Those of the first `n` providers that may be used at `now`, in order of
    /// priority.
    pub open spec fn available_of_first(self, n: nat, now: int) -> Seq<int> {
        indices(n).filter(|i: int| self.states[i].available(now))
    }

    /// Whether no breaker is tripped. The time decides nothing then.
    pub open spec fn untripped(self) -> bool {
        forall|i: int|
            0 <= i < self.states.len() ==> (#[trigger] self.states[i]).tripped_at is None
    }

    /// The healthy providers at `now`, in order of priority.
    pub open spec fn healthy(self, now: int) -> Seq<ProviderView> {
        self.providers_at(self.available(now))
    }

    /// Whether each of these providers has enough samples to be judged by its
    /// latency.
    pub open spec fn all_warmed(self, order: Seq<int>) -> bool {
        forall|k: int|
            0 <= k < order.len() ==> self.states[#[trigger] order[k]].stats.is_warmed()
    }

    /// Whether provider `i` is tried no later than `j` when latency decides: its
    /// average is smaller, or they are equal and it has the higher priority.
    pub open spec fn not_slower(self, i: int, j: int) -> bool {
        let a = self.states[i].stats.ema_rtt_us;
        let b = self.states[j].stats.ema_rtt_us;
        a < b || (a == b && i <= j)
    }

    /// These providers, the fastest first, equally fast ones in order of priority.
    pub open spec fn fastest_first(self, order: Seq<int>) -> Seq<int> {
        order.sort_by(|i: int, j: int| self.not_slower(i, j))
    }

    /// The providers that may be used at `now`, in the order in which to try them:
    /// by latency once each of them is warmed, and until then in turn, from the
    /// one that the cursor points at.
    pub open spec fn preferred(self, now: int) -> Seq<int> {
        let available = self.available(now);
        if self.all_warmed(available) {
            self.fastest_first(available)
        } else {
            rotated_left(available, self.cursor % available.len() as int)
        }
    }

    /// The pool after it was asked for that order: the cursor has moved on if it
    /// was used.
    pub open spec fn routed(self, now: int) -> PoolView {
        if self.all_warmed(self.available(now)) {
            self
        } else {
            PoolView {
                cursor: if self.cursor == usize::MAX {
                    0
                } else {
                    self.cursor + 1
                },
                ..self
            }
        }
    }

    // ── Reports ───────────────────────────────────────────────────────────

    /// The pool with one provider's state replaced.
    pub open spec fn with_state(self, i: int, state: StateView) -> PoolView {
        PoolView { states: self.states.update(i, state), ..self }
    }

    /// After a successful request to `url`.
    pub open spec fn succeeded(self, url: Seq<char>) -> PoolView {
        match self.find(url) {
            Some(i) => self.with_state(i, self.states[i].succeeded()),
            None => self,
        }
    }

    /// After a failed request to `url` at `now`.
    pub open spec fn failed(self, url: Seq<char>, now: int) -> PoolView {
        match self.find(url) {
            Some(i) => self.with_state(i, self.states[i].failed(now)),
            None => self,
        }
    }

    /// Whether a failed request to `url` can be counted.
    pub open spec fn can_fail(self, url: Seq<char>) -> bool {
        match self.find(url) {
            Some(i) => self.states[i].can_fail(),
            None => true,
        }
    }

    /// After a latency sample of a request to `url`.
    pub open spec fn sampled(self, url: Seq<char>, rtt_us: int) -> PoolView {
        match self.find(url) {
            Some(i) => self.with_state(i, self.states[i].sampled(rtt_us)),
            None => self,
        }
    }

    /// Whether a latency sample of a request to `url` can be folded in.
    pub open spec fn accepts(self, url: Seq<char>, rtt_us: int) -> bool {
        match self.find(url) {
            Some(i) => self.states[i].stats.accepts(rtt_us),
            None => true,
        }
    }

    /// After a health check of provider `i` that ended at `now`.
    pub open spec fn probed(self, i: int, outcome: Result<u64, ProbeError>, now: int) -> PoolView {
        match outcome {
            Ok(ledger) => self.with_state(i, self.states[i].found_at(ledger as int)),
            Err(_) => self.with_state(i, self.states[i].failed(now)),
        }
    }
}

// ── Lemmas ────────────────────────────────────────────────────────────────

/// The first provider with a URL is the one that the search gives.
pub proof fn lemma_find_is_first(pool: PoolView, i: int, url: Seq<char>)
    requires
        pool.is_first_with(i, url),
    ensures
        pool.find(url) == Some(i),
{
    let found = choose|k: int| pool.is_first_with(k, url);
    assert(pool.is_first_with(found, url));
    if found < i {
        assert(pool.states[found].provider.url != url);
    }
    if i < found {
        assert(pool.states[i].provider.url != url);
    }
}

/// The search gives nothing where no provider has the URL.
pub proof fn lemma_find_nothing(pool: PoolView, url: Seq<char>)
    requires
        forall|j: int|
            0 <= j < pool.states.len() ==> (#[trigger] pool.states[j]).provider.url != url,
    ensures
        pool.find(url) is None,
{
}

/// Where some provider has the URL, the search gives the first of them.
pub proof fn lemma_find_something(pool: PoolView, url: Seq<char>, j: int) -> (i: int)
    requires
        0 <= j < pool.states.len(),
        pool.states[j].provider.url == url,
    ensures
        i <= j,
        pool.is_first_with(i, url),
        pool.find(url) == Some(i),
    decreases j,
{
    if forall|k: int| 0 <= k < j ==> (#[trigger] pool.states[k]).provider.url != url {
        lemma_find_is_first(pool, j, url);
        j
    } else {
        let k = choose|k: int| 0 <= k < j && (#[trigger] pool.states[k]).provider.url == url;
        lemma_find_something(pool, url, k)
    }
}

/// One more provider appends its index exactly when it is available.
pub proof fn lemma_available_step(pool: PoolView, n: nat, now: int)
    ensures
        pool.available_of_first(n + 1, now) == (if pool.states[n as int].available(now) {
            pool.available_of_first(n, now).push(n as int)
        } else {
            pool.available_of_first(n, now)
        }),
{
    reveal(Seq::filter);
    assert(indices(n + 1).drop_last() =~= indices(n));
    assert(indices(n + 1).last() == n);
}

/// The available ones among the first `n` are distinct, in ascending order, and
/// exactly those that are available.
pub proof fn lemma_available_members(pool: PoolView, n: nat, now: int)
    ensures
        forall|k: int|
            0 <= k < pool.available_of_first(n, now).len() ==> 0
                <= #[trigger] pool.available_of_first(n, now)[k] < n && pool.states[
            pool.available_of_first(n, now)[k]].available(now),
        forall|a: int, b: int|
            0 <= a < b < pool.available_of_first(n, now).len()
                ==> #[trigger] pool.available_of_first(n, now)[a]
                < #[trigger] pool.available_of_first(n, now)[b],
        forall|i: int|
            0 <= i < n && pool.states[i].available(now)
                ==> #[trigger] pool.available_of_first(n, now).contains(i),
        pool.available_of_first(n, now).len() <= n,
    decreases n,
{
    if n == 0 {
        reveal(Seq::filter);
    } else {
        let m = (n - 1) as nat;
        let before = pool.available_of_first(m, now);
        let after = pool.available_of_first(n, now);
        lemma_available_members(pool, m, now);
        lemma_available_step(pool, m, now);
        assert forall|i: int|
            0 <= i < n && pool.states[i].available(now) implies #[trigger] after.contains(i) by {
            if i == m {
                assert(after[after.len() - 1] == i);
            } else {
                assert(before.contains(i));
                let k = choose|k: int| 0 <= k < before.len() && before[k] == i;
                assert(after[k] == i);
            }
        }
    }
}

/// Where all of the first `n` are available, they are the available ones.
pub proof fn lemma_all_available(pool: PoolView, n: nat, now: int)
    requires
        forall|i: int| 0 <= i < n ==> (#[trigger] pool.states[i]).available(now),
    ensures
        pool.available_of_first(n, now) == indices(n),
    decreases n,
{
    if n == 0 {
        reveal(Seq::filter);
    } else {
        lemma_all_available(pool, (n - 1) as nat, now);
        lemma_available_step(pool, (n - 1) as nat, now);
        assert(indices(n) =~= indices((n - 1) as nat).push(n - 1));
    }
}

/// The order by latency is a total one.
pub proof fn lemma_not_slower_is_total(pool: PoolView)
    ensures
        vstd::relations::total_ordering(|i: int, j: int| pool.not_slower(i, j)),
{
}

/// Two orders by latency of the same providers are the same.
pub proof fn lemma_fastest_first_unique(pool: PoolView, order: Seq<int>, sorted: Seq<int>)
    requires
        sorted.to_multiset() == order.to_multiset(),
        vstd::relations::sorted_by(sorted, |i: int, j: int| pool.not_slower(i, j)),
    ensures
        sorted == pool.fastest_first(order),
{
    let leq = |i: int, j: int| pool.not_slower(i, j);
    lemma_not_slower_is_total(pool);
    order.lemma_sort_by_ensures(leq);
    vstd::seq_lib::lemma_sorted_unique(sorted, order.sort_by(leq), leq);
}

} // verus!
