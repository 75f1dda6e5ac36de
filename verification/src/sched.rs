//! The credit-decay broadcast scheduler.
//!
//! A priority-ordered queue over subscribed addresses. Each service
//! opportunity picks the entry with the highest priority — ties go to the
//! oldest subscriber, which is the fixed tie-break rule here — decrements its
//! priority by one and leaves it in the queue. A new subscriber starts at a
//! high baseline, so it is served ahead of long-subscribed clients until its
//! credit decays to match; priorities may go negative and have no floor, so
//! no subscriber is ever starved. All of that is proved below:
//! [`lemma_scheduler_fairness`], [`lemma_scheduler_catch_up`] and
//! [`lemma_never_starved`].

use vstd::prelude::*;

verus! {

/// The priority a newly discovered subscriber starts at.
pub const BASELINE_PRIORITY: i32 = 100;

/// One scheduling token: a subscriber's current priority and its address.
#[derive(Clone, Copy, PartialEq, Eq, Structural, Debug)]
pub struct ClientPriority {
    pub priority: i32,
    pub address: u64,
}

/// The index a service opportunity picks: the first entry with maximal
/// priority, so ties go to the oldest subscriber.
pub open spec fn serve_index(s: Seq<ClientPriority>) -> int
    decreases s.len(),
{
    if s.len() <= 1 {
        0
    } else {
        let r = serve_index(s.drop_last());
        if s.last().priority > s[r].priority {
            s.len() - 1
        } else {
            r
        }
    }
}

/// A priority after one service: one less, stopping at the type's floor
/// (which the executable scheduler never reaches; see [`Scheduler::serve`]).
pub open spec fn dec_priority(p: i32) -> i32 {
    if p == i32::MIN {
        p
    } else {
        (p - 1) as i32
    }
}

/// The queue after one service opportunity: the picked entry, its priority
/// decremented, stays in place.
pub open spec fn serve_step(s: Seq<ClientPriority>) -> Seq<ClientPriority>
    recommends
        s.len() > 0,
{
    let i = serve_index(s);
    s.update(i, ClientPriority { priority: dec_priority(s[i].priority), address: s[i].address })
}

/// The queue after `n` consecutive service opportunities with no arrivals.
pub open spec fn serve_n(s: Seq<ClientPriority>, n: nat) -> Seq<ClientPriority>
    decreases n,
{
    if n == 0 {
        s
    } else {
        serve_n(serve_step(s), (n - 1) as nat)
    }
}

/// The address one service opportunity sends a snapshot to.
pub open spec fn served_address(s: Seq<ClientPriority>) -> u64 {
    s[serve_index(s)].address
}

/// True when every priority in the queue is above the type's floor, so one
/// more decrement cannot underflow.
pub open spec fn queue_has_headroom(s: Seq<ClientPriority>) -> bool {
    forall|j: int| 0 <= j < s.len() ==> (#[trigger] s[j]).priority > i32::MIN
}

/// `serve_index` picks a maximal entry, and the first such entry.
pub proof fn lemma_serve_index_max(s: Seq<ClientPriority>)
    requires
        s.len() > 0,
    ensures
        0 <= serve_index(s) < s.len(),
        forall|j: int|
            0 <= j < s.len() ==> (#[trigger] s[j]).priority <= s[serve_index(s)].priority,
        forall|j: int| 0 <= j < serve_index(s) ==> (#[trigger] s[j]).priority < s[serve_index(s)].priority,
    decreases s.len(),
{
    if s.len() > 1 {
        lemma_serve_index_max(s.drop_last());
        assert(forall|j: int| 0 <= j < s.len() - 1 ==> (#[trigger] s[j]) == s.drop_last()[j]);
    }
}

/// The entry `serve_index` picks is the only one that is maximal and ahead
/// of every equal priority.
pub proof fn lemma_serve_index_unique(s: Seq<ClientPriority>, i: int)
    requires
        0 <= i < s.len(),
        forall|j: int| 0 <= j < s.len() ==> (#[trigger] s[j]).priority <= s[i].priority,
        forall|j: int| 0 <= j < i ==> (#[trigger] s[j]).priority < s[i].priority,
    ensures
        serve_index(s) == i,
{
    lemma_serve_index_max(s);
    let r = serve_index(s);
    if r < i {
        assert(s[r].priority < s[i].priority);
        assert(s[i].priority <= s[r].priority);
    } else if i < r {
        assert(s[i].priority < s[r].priority);
        assert(s[r].priority <= s[i].priority);
    }
}

/// Serving changes no address and no length, however many opportunities run.
pub proof fn lemma_serve_preserves_addresses(s: Seq<ClientPriority>, n: nat)
    requires
        s.len() > 0,
    ensures
        serve_n(s, n).len() == s.len(),
        forall|j: int|
            0 <= j < s.len() ==> (#[trigger] serve_n(s, n)[j]).address == s[j].address,
    decreases n,
{
    if n > 0 {
        lemma_serve_index_max(s);
        lemma_serve_preserves_addresses(serve_step(s), (n - 1) as nat);
    }
}

/// The scheduler: the queue of scheduling tokens, in subscription order.
pub struct Scheduler {
    queue: Vec<ClientPriority>,
}

impl View for Scheduler {
    type V = Seq<ClientPriority>;

    open spec fn view(&self) -> Seq<ClientPriority> {
        self.queue()
    }
}

impl Scheduler {
    /// The queue, oldest subscriber first.
    pub closed spec fn queue(&self) -> Seq<ClientPriority> {
        self.queue@
    }

    /// An empty scheduler.
    pub fn new() -> (s: Scheduler)
        ensures
            s@ == Seq::<ClientPriority>::empty(),
    {
        Scheduler { queue: Vec::new() }
    }

    /// How many subscribers the queue holds.
    pub fn len(&self) -> (n: usize)
        ensures
            n == self@.len(),
    {
        self.queue.len()
    }

    /// The token at a queue position.
    pub fn token_at(&self, i: usize) -> (c: ClientPriority)
        requires
            i < self@.len(),
        ensures
            c == self@[i as int],
    {
        self.queue[i]
    }

    /// Add a new subscriber's token at the back of the queue.
    pub fn push(&mut self, c: ClientPriority)
        ensures
            final(self)@ == old(self)@.push(c),
    {
        self.queue.push(c);
    }

    /// True when every queued priority is above the type's floor, so one
    /// more service opportunity cannot underflow. The caller guards
    /// [`Scheduler::serve`] with this.
    pub fn can_serve(&self) -> (r: bool)
        ensures
            r == queue_has_headroom(self@),
    {
        let n = self.queue.len();
        let mut i: usize = 0;
        while i < n
            invariant
                i <= n,
                n == self@.len(),
                forall|j: int| 0 <= j < i ==> (#[trigger] self@[j]).priority > i32::MIN,
            decreases n - i,
        {
            if self.queue[i].priority == i32::MIN {
                proof {
                    assert(!queue_has_headroom(self@)) by {
                        assert(self@[i as int].priority == i32::MIN);
                    }
                }
                return false;
            }
            i = i + 1;
        }
        proof {
            assert(queue_has_headroom(self@));
        }
        true
    }

    /// One service opportunity: pick the first entry of maximal priority,
    /// decrement its credit in place, and say which address to send this
    /// turn's snapshot to. An empty queue is a no-op and yields `None`.
    pub fn serve(&mut self) -> (r: Option<u64>)
        requires
            queue_has_headroom(old(self)@),
        ensures
            old(self)@.len() == 0 ==> r is None && final(self)@ == old(self)@,
            old(self)@.len() > 0 ==> r == Some(served_address(old(self)@)) && final(self)@
                == serve_step(old(self)@),
    {
        let n = self.queue.len();
        if n == 0 {
            return None;
        }
        let mut best: usize = 0;
        let mut i: usize = 1;
        while i < n
            invariant
                0 <= best < i <= n,
                n == self@.len(),
                self@ == old(self)@,
                forall|j: int|
                    0 <= j < i ==> (#[trigger] self@[j]).priority <= self@[best as int].priority,
                forall|j: int|
                    0 <= j < best ==> (#[trigger] self@[j]).priority < self@[best as int].priority,
            decreases n - i,
        {
            if self.queue[i].priority > self.queue[best].priority {
                best = i;
            }
            i = i + 1;
        }
        proof {
            lemma_serve_index_unique(self@, best as int);
        }
        let c = self.queue[best];
        self.queue[best] = ClientPriority { priority: c.priority - 1, address: c.address };
        Some(c.address)
    }
}

/// Scheduler fairness: with `N` subscribers all at one common priority and
/// no new arrivals, the first `N` service opportunities serve the
/// subscribers in queue order — every subscriber exactly once. Opportunity
/// `k` serves subscriber `k`, and afterwards the first `k + 1` credits have
/// decayed by one.
pub proof fn lemma_scheduler_fairness(s: Seq<ClientPriority>, p: i32, k: int)
    requires
        s.len() > 0,
        p > i32::MIN,
        forall|j: int| 0 <= j < s.len() ==> (#[trigger] s[j]).priority == p,
        0 <= k < s.len(),
    ensures
        serve_index(serve_n(s, k as nat)) == k,
        served_address(serve_n(s, k as nat)) == s[k].address,
    decreases k,
{
    lemma_fairness_state(s, p, k);
    lemma_serve_preserves_addresses(s, k as nat);
    lemma_serve_index_unique(serve_n(s, k as nat), k);
}

/// After `k` opportunities on an all-equal queue, the first `k` credits are
/// one lower and the rest untouched, and opportunity `k` picks index `k`.
proof fn lemma_fairness_state(s: Seq<ClientPriority>, p: i32, k: int)
    requires
        s.len() > 0,
        p > i32::MIN,
        forall|j: int| 0 <= j < s.len() ==> (#[trigger] s[j]).priority == p,
        0 <= k < s.len(),
    ensures
        serve_n(s, k as nat).len() == s.len(),
        forall|j: int| 0 <= j < k ==> (#[trigger] serve_n(s, k as nat)[j]).priority == p - 1,
        forall|j: int|
            k <= j < s.len() ==> (#[trigger] serve_n(s, k as nat)[j]).priority == p,
    decreases k,
{
    if k == 0 {
    } else {
        lemma_fairness_state(s, p, k - 1);
        let t = serve_n(s, (k - 1) as nat);
        lemma_serve_index_unique(t, k - 1);
        assert(serve_n(s, k as nat) == serve_step(t)) by {
            lemma_serve_n_unfold(s, k as nat);
        }
        assert(serve_step(t) == t.update(
            k - 1,
            ClientPriority { priority: dec_priority(p), address: t[k - 1].address },
        ));
    }
}

/// `serve_n` peeled from the far end: `n` opportunities are `n - 1`
/// opportunities followed by one more.
pub proof fn lemma_serve_n_unfold(s: Seq<ClientPriority>, n: nat)
    requires
        n > 0,
    ensures
        serve_n(s, n) == serve_step(serve_n(s, (n - 1) as nat)),
    decreases n,
{
    if n == 1 {
        assert(serve_n(serve_step(s), 0) == serve_step(s));
    } else {
        lemma_serve_n_unfold(serve_step(s), (n - 1) as nat);
    }
}

/// Scheduler catch-up: while one subscriber's priority strictly exceeds
/// every other subscriber's — a late joiner at the baseline among decayed
/// credits — every service opportunity picks that subscriber, so it is
/// served strictly before any existing subscriber, until its own credit has
/// decayed to match. Opportunity `m` (for `m < k`) serves it, with `k` the
/// guaranteed lead.
pub proof fn lemma_scheduler_catch_up(s: Seq<ClientPriority>, i: int, k: int)
    requires
        0 <= i < s.len(),
        0 <= k,
        s[i].priority - k >= i32::MIN,
        forall|j: int|
            0 <= j < s.len() && j != i ==> (#[trigger] s[j]).priority <= s[i].priority - k,
    ensures
        serve_n(s, k as nat).len() == s.len(),
        (serve_n(s, k as nat))[i] == (ClientPriority {
            priority: (s[i].priority - k) as i32,
            address: s[i].address,
        }),
        forall|j: int|
            0 <= j < s.len() && j != i ==> (#[trigger] serve_n(s, k as nat)[j]) == s[j],
        forall|m: int| 0 <= m < k ==> serve_index(#[trigger] serve_n(s, m as nat)) == i,
        forall|m: int| 0 <= m < k ==> served_address(#[trigger] serve_n(s, m as nat)) == s[i].address,
    decreases k,
{
    if k == 0 {
        assert(serve_n(s, 0) == s);
    } else {
        lemma_scheduler_catch_up(s, i, k - 1);
        let t = serve_n(s, (k - 1) as nat);
        assert(t[i].priority == s[i].priority - (k - 1));
        lemma_serve_index_unique(t, i);
        lemma_serve_n_unfold(s, k as nat);
        assert(serve_n(s, k as nat) == t.update(
            i,
            ClientPriority { priority: dec_priority(t[i].priority), address: t[i].address },
        ));
        assert forall|m: int| 0 <= m < k implies serve_index(#[trigger] serve_n(s, m as nat)) == i by {
            if m < k - 1 {
            } else {
                assert(serve_index(t) == i);
            }
        }
    }
}

/// One queue entry's contribution to how long subscriber `i` can still
/// wait: entries with more credit are served until they match, and older
/// entries with at least as much credit are served once more.
pub open spec fn delay_term(s: Seq<ClientPriority>, i: int, j: int) -> int {
    (if s[j].priority > s[i].priority {
        s[j].priority - s[i].priority
    } else {
        0int
    }) + (if j < i && s[j].priority >= s[i].priority {
        1int
    } else {
        0int
    })
}

/// The contributions of the entries before position `t`, subscriber `i`'s
/// own entry excluded.
pub open spec fn delay_sum(s: Seq<ClientPriority>, i: int, t: int) -> int
    decreases t,
{
    if t <= 0 {
        0
    } else {
        delay_sum(s, i, t - 1) + (if t - 1 == i {
            0int
        } else {
            delay_term(s, i, t - 1)
        })
    }
}

/// Exactly how many service opportunities pass before subscriber `i` is
/// served.
pub open spec fn starve_bound(s: Seq<ClientPriority>, i: int) -> int {
    delay_sum(s, i, s.len() as int)
}

proof fn lemma_delay_sum_nonneg(s: Seq<ClientPriority>, i: int, t: int)
    ensures
        delay_sum(s, i, t) >= 0,
    decreases t,
{
    if t > 0 {
        lemma_delay_sum_nonneg(s, i, t - 1);
    }
}

proof fn lemma_delay_sum_lower(s: Seq<ClientPriority>, i: int, t: int, j: int)
    requires
        0 <= j < t,
        j != i,
    ensures
        delay_sum(s, i, t) >= delay_term(s, i, j),
    decreases t,
{
    lemma_delay_sum_nonneg(s, i, t - 1);
    if j < t - 1 {
        lemma_delay_sum_lower(s, i, t - 1, j);
    }
}

proof fn lemma_delay_sum_zero(s: Seq<ClientPriority>, i: int, t: int)
    requires
        forall|j: int| 0 <= j < t && j != i ==> #[trigger] delay_term(s, i, j) == 0,
    ensures
        delay_sum(s, i, t) == 0,
    decreases t,
{
    if t > 0 {
        lemma_delay_sum_zero(s, i, t - 1);
    }
}

proof fn lemma_delay_sum_update(
    s: Seq<ClientPriority>,
    s2: Seq<ClientPriority>,
    i: int,
    k: int,
    t: int,
)
    requires
        0 <= i,
        0 <= k,
        k != i,
        s2.len() == s.len(),
        forall|j: int| 0 <= j < s.len() && j != k ==> s2[j] == s[j],
        delay_term(s2, i, k) == delay_term(s, i, k) - 1,
        t <= s.len(),
        i < s.len(),
    ensures
        delay_sum(s2, i, t) == delay_sum(s, i, t) - (if k < t {
            1int
        } else {
            0int
        }),
    decreases t,
{
    if t > 0 {
        lemma_delay_sum_update(s, s2, i, k, t - 1);
        if t - 1 != i && t - 1 != k {
            assert(s2[t - 1] == s[t - 1]);
            assert(s2[i] == s[i]);
            assert(delay_term(s2, i, t - 1) == delay_term(s, i, t - 1));
        }
    }
}

/// While someone else is served, the wait strictly shrinks: one service
/// opportunity that does not pick subscriber `i` lowers its bound by one.
proof fn lemma_delay_step(s: Seq<ClientPriority>, i: int)
    requires
        0 <= i < s.len(),
        serve_index(s) != i,
        forall|j: int| 0 <= j < s.len() ==> (#[trigger] s[j]).priority > i32::MIN,
    ensures
        starve_bound(s, i) >= 1,
        starve_bound(serve_step(s), i) == starve_bound(s, i) - 1,
{
    lemma_serve_index_max(s);
    let k = serve_index(s);
    let s2 = serve_step(s);
    assert(s[k].priority >= s[i].priority);
    assert(s2[k].priority == s[k].priority - 1);
    if s[k].priority == s[i].priority {
        // a tie is only served ahead of `i` from an older position
        assert(k < i) by {
            if k > i {
                assert(s[i].priority < s[k].priority);
            }
        }
        assert(delay_term(s, i, k) == 1);
        assert(delay_term(s2, i, k) == 0);
    } else {
        assert(delay_term(s2, i, k) == delay_term(s, i, k) - 1);
    }
    lemma_delay_sum_lower(s, i, s.len() as int, k);
    lemma_delay_sum_update(s, s2, i, k, s.len() as int);
}

/// Never-starve: a subscriber present in the queue is served after exactly
/// [`starve_bound`] service opportunities — however far its credit lags —
/// provided every credit has that much headroom above the type's floor.
/// Nothing is ever dropped from the queue, so no subscriber is skipped
/// forever.
pub proof fn lemma_never_starved(s: Seq<ClientPriority>, i: int)
    requires
        0 <= i < s.len(),
        forall|j: int|
            0 <= j < s.len() ==> (#[trigger] s[j]).priority > i32::MIN + starve_bound(s, i),
    ensures
        starve_bound(s, i) >= 0,
        serve_index(serve_n(s, starve_bound(s, i) as nat)) == i,
        served_address(serve_n(s, starve_bound(s, i) as nat)) == s[i].address,
    decreases starve_bound(s, i),
{
    lemma_delay_sum_nonneg(s, i, s.len() as int);
    let b = starve_bound(s, i);
    lemma_serve_index_max(s);
    if serve_index(s) == i {
        assert forall|j: int| 0 <= j < s.len() && j != i implies #[trigger] delay_term(s, i, j)
            == 0 by {
            assert(s[j].priority <= s[i].priority);
            if j < i {
                assert(s[j].priority < s[i].priority);
            }
        }
        lemma_delay_sum_zero(s, i, s.len() as int);
        assert(serve_n(s, 0) == s);
    } else {
        lemma_delay_step(s, i);
        let s2 = serve_step(s);
        let k = serve_index(s);
        assert(s2[i] == s[i]);
        assert forall|j: int|
            0 <= j < s2.len() implies (#[trigger] s2[j]).priority > i32::MIN + starve_bound(
            s2,
            i,
        ) by {
            if j != k {
                assert(s2[j] == s[j]);
            }
        }
        lemma_never_starved(s2, i);
        assert(serve_n(s, b as nat) == serve_n(s2, (b - 1) as nat));
    }
}

} // verus!
