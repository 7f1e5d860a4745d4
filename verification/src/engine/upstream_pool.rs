//! The upstream targets that connections are balanced across: in which order
//! to try them, which of them are down, and how busy each one is.

use rand::seq::SliceRandom;
use vstd::prelude::*;

use crate::engine::net::SocketAddr;
use crate::engine::time;
use crate::engine::time::{Clock, Duration, Instant};

verus! {

/// How long a target is avoided after a failure unless configured otherwise,
/// in seconds.
pub const DEFAULT_FAILURE_COOLDOWN_SECS: u64 = 30;

/// In which order healthy targets are tried.
#[derive(Debug, Clone, Copy, PartialEq, Eq, Structural)]
pub enum LoadBalanceStrategy {
    /// Each connection begins with the target after the one the previous
    /// connection began with.
    RoundRobin,
    /// In random order.
    Random,
    /// The least busy target first.
    LeastConnections,
}

impl Default for LoadBalanceStrategy {
    fn default() -> (strategy: LoadBalanceStrategy)
        ensures
            strategy == LoadBalanceStrategy::RoundRobin,
    {
        LoadBalanceStrategy::RoundRobin
    }
}

/// One upstream target.
pub struct Target {
    pub addr: SocketAddr,
    pub active_connections: usize,
    /// Until when the target is avoided.
    pub down_until: Option<Instant>,
}

impl Target {
    /// Whether the target is not being avoided at `now`.
    pub open spec fn healthy(self, now: Instant) -> bool {
        match self.down_until {
            None => true,
            Some(until) => now.nanos >= until.nanos,
        }
    }
}

/// One target to try.
pub struct Candidate {
    pub index: usize,
    pub addr: SocketAddr,
}

/// The indices of the targets that are healthy, or that are not, in the order
/// of configuration.
pub open spec fn tier(targets: Seq<Target>, now: Instant, healthy: bool) -> Seq<usize>
    decreases targets.len(),
{
    if targets.len() == 0 {
        Seq::empty()
    } else {
        let earlier = tier(targets.drop_last(), now, healthy);
        if targets.last().healthy(now) == healthy {
            earlier.push((targets.len() - 1) as usize)
        } else {
            earlier
        }
    }
}

/// `s`, beginning with its `k`-th element and going round.
pub open spec fn rotated(s: Seq<usize>, k: int) -> Seq<usize> {
    s.skip(k) + s.take(k)
}

/// Whether target `a` is to be tried before target `b` when the less busy one
/// goes first; equally busy ones keep the order of configuration.
pub open spec fn less_busy(targets: Seq<Target>, a: usize, b: usize) -> bool {
    ||| targets[a as int].active_connections < targets[b as int].active_connections
    ||| targets[a as int].active_connections == targets[b as int].active_connections && a < b
}

/// Whether `order` is an order in which a strategy may try the healthy
/// targets.
pub open spec fn is_order(
    strategy: LoadBalanceStrategy,
    targets: Seq<Target>,
    counter: usize,
    healthy: Seq<usize>,
    order: Seq<usize>,
) -> bool {
    match strategy {
        LoadBalanceStrategy::RoundRobin => order == if healthy.len() == 0 {
            healthy
        } else {
            rotated(healthy, counter as int % healthy.len() as int)
        },
        LoadBalanceStrategy::Random => order.to_multiset() == healthy.to_multiset(),
        LoadBalanceStrategy::LeastConnections => {
            &&& order.to_multiset() == healthy.to_multiset()
            &&& forall|i: int, j: int|
                0 <= i < j < order.len() ==> less_busy(
                    targets,
                    #[trigger] order[i],
                    #[trigger] order[j],
                )
        },
    }
}

/// The indices of candidates.
pub open spec fn indices(candidates: Seq<Candidate>) -> Seq<usize> {
    Seq::new(candidates.len(), |i: int| candidates[i].index)
}

/// Whether each candidate carries the address of the target it stands for.
pub open spec fn are_targets(candidates: Seq<Candidate>, targets: Seq<Target>) -> bool {
    forall|i: int|
        0 <= i < candidates.len() ==> (#[trigger] candidates[i]).index < targets.len()
            && candidates[i].addr == targets[candidates[i].index as int].addr
}

/// `rand::seq::SliceRandom::shuffle` with the generator of
/// `rand::rng` puts the elements in some order; no order is claimed.
#[verifier::external_body]
fn shuffle(order: &mut Vec<usize>)
    ensures
        final(order)@.to_multiset() == old(order)@.to_multiset(),
{
    order.shuffle(&mut rand::rng());
}

/// The targets of one upstream, with what is known of each.
pub struct UpstreamPool {
    targets: Vec<Target>,
    strategy: LoadBalanceStrategy,
    cooldown: Duration,
    round_robin_counter: usize,
    clock: Clock,
    guards: Ghost<Map<nat, usize>>,
    issued: Ghost<nat>,
}

/// Proof that a connection to a target is being counted.
pub struct ActiveConnectionGuard {
    index: usize,
    id: Ghost<nat>,
}

impl ActiveConnectionGuard {
    /// The target that the connection is to.
    pub closed spec fn index(self) -> usize {
        self.index
    }

    /// What tells the guard from the other ones of its pool.
    pub closed spec fn id(self) -> nat {
        self.id@
    }
}

/// The guards that are for the target at `index`.
pub open spec fn guards_for(guards: Map<nat, usize>, index: usize) -> Set<nat> {
    guards.dom().filter(|id: nat| guards[id] == index)
}

/// How many guards are for the target at `index`.
pub open spec fn guards_of(guards: Map<nat, usize>, index: usize) -> nat {
    guards_for(guards, index).len()
}

impl UpstreamPool {
    pub closed spec fn targets(self) -> Seq<Target> {
        self.targets@
    }

    pub closed spec fn strategy(self) -> LoadBalanceStrategy {
        self.strategy
    }

    pub closed spec fn cooldown(self) -> Duration {
        self.cooldown
    }

    /// How many times a round-robin order has been given out.
    pub closed spec fn counter(self) -> usize {
        self.round_robin_counter
    }

    /// The guards that were given out and not handed back, each with the
    /// target it is for.
    pub closed spec fn guards(self) -> Map<nat, usize> {
        self.guards@
    }

    /// How many guards were ever given out.
    pub closed spec fn issued(self) -> nat {
        self.issued@
    }

    /// Whether a guard was given out by this pool and not handed back.
    pub open spec fn holds(self, guard: ActiveConnectionGuard) -> bool {
        &&& self.guards().dom().contains(guard.id())
        &&& self.guards()[guard.id()] == guard.index()
    }

    /// Whether every target has as many active connections as there are
    /// guards for it.
    pub open spec fn wf(self) -> bool {
        &&& self.guards().dom().finite()
        &&& forall|id: nat| #[trigger]
            self.guards().dom().contains(id) ==> id < self.issued() && self.guards()[id]
                < self.targets().len()
        &&& forall|index: usize|
            index < self.targets().len() ==> (
            #[trigger] self.targets()[index as int]).active_connections == guards_of(
                self.guards(),
                index,
            )
    }

    /// Whether the guards are the same.
    pub open spec fn same_guards(self, other: UpstreamPool) -> bool {
        &&& self.guards() == other.guards()
        &&& self.issued() == other.issued()
    }

    /// Whether only what is known of the targets may differ.
    pub open spec fn same_setup(self, other: UpstreamPool) -> bool {
        &&& self.strategy() == other.strategy()
        &&& self.cooldown() == other.cooldown()
    }

    /// A pool of targets, all of them healthy and idle.
    pub fn new(
        addrs: Vec<SocketAddr>,
        strategy: LoadBalanceStrategy,
        cooldown: Duration,
    ) -> (pool: UpstreamPool)
        requires
            addrs@.len() > 0,
        ensures
            pool.wf(),
            pool.guards() == Map::<nat, usize>::empty(),
            pool.strategy() == strategy,
            pool.cooldown() == cooldown,
            pool.counter() == 0,
            pool.targets().len() == addrs@.len(),
            forall|i: int|
                0 <= i < addrs@.len() ==> (#[trigger] pool.targets()[i]).addr == addrs@[i]
                    && pool.targets()[i].active_connections == 0
                    && pool.targets()[i].down_until is None,
    {
        let mut targets: Vec<Target> = Vec::new();
        let mut i: usize = 0;
        while i < addrs.len()
            invariant
                i <= addrs@.len(),
                targets@.len() == i,
                forall|j: int|
                    0 <= j < i ==> (#[trigger] targets@[j]).addr == addrs@[j]
                        && targets@[j].active_connections == 0 && targets@[j].down_until is None,
            decreases addrs.len() - i,
        {
            targets.push(
                Target { addr: addrs[i].duplicate(), active_connections: 0, down_until: None },
            );
            i += 1;
        }
        let pool = UpstreamPool {
            targets,
            strategy,
            cooldown,
            round_robin_counter: 0,
            clock: Clock::new(),
            guards: Ghost(Map::empty()),
            issued: Ghost(0),
        };
        assert forall|index: usize| index < pool.targets().len() implies (
        #[trigger] pool.targets()[index as int]).active_connections == guards_of(
            pool.guards(),
            index,
        ) by {
            assert(guards_for(pool.guards(), index) =~= Set::<nat>::empty());
        }
        pool
    }

    /// Whether a target is not being avoided at `now`.
    pub fn is_healthy_at(&self, index: usize, now: Instant) -> (healthy: bool)
        requires
            index < self.targets().len(),
        ensures
            healthy == self.targets()[index as int].healthy(now),
    {
        match self.targets[index].down_until {
            None => true,
            Some(until) => now.nanos >= until.nanos,
        }
    }

    /// Whether a target is not being avoided. That is so at any moment if
    /// the target was never avoided.
    pub fn is_healthy(&self, index: usize) -> (healthy: bool)
        requires
            index < self.targets().len(),
        ensures
            exists|now: Instant|
                healthy == #[trigger] self.targets()[index as int].healthy(now)
                    && time::is_reading(now),
    {
        let now = self.clock.now();
        self.is_healthy_at(index, now)
    }

    fn tier_at(&self, now: Instant, healthy: bool) -> (found: Vec<usize>)
        ensures
            found@ == tier(self.targets(), now, healthy),
    {
        let mut found: Vec<usize> = Vec::new();
        let mut i: usize = 0;
        assert(self.targets@.take(0) =~= Seq::<Target>::empty());
        while i < self.targets.len()
            invariant
                i <= self.targets@.len(),
                found@ == tier(self.targets@.take(i as int), now, healthy),
            decreases self.targets.len() - i,
        {
            assert(self.targets@.take(i + 1).drop_last() =~= self.targets@.take(i as int));
            if self.is_healthy_at(i, now) == healthy {
                found.push(i);
            }
            i += 1;
        }
        assert(self.targets@.take(i as int) =~= self.targets@);
        found
    }

    fn least_busy_first(&self, healthy: &Vec<usize>) -> (order: Vec<usize>)
        requires
            forall|i: int| 0 <= i < healthy@.len() ==> #[trigger] healthy@[i] < self.targets().len(),
            forall|i: int, j: int|
                0 <= i < j < healthy@.len() ==> #[trigger] healthy@[i] < #[trigger] healthy@[j],
        ensures
            is_order(
                LoadBalanceStrategy::LeastConnections,
                self.targets(),
                self.counter(),
                healthy@,
                order@,
            ),
    {
        let mut order: Vec<usize> = Vec::new();
        let mut n: usize = 0;
        assert(healthy@.take(0) =~= Seq::<usize>::empty());
        while n < healthy.len()
            invariant
                n <= healthy@.len(),
                order@.to_multiset() == healthy@.take(n as int).to_multiset(),
                order@.len() == n,
                forall|i: int|
                    0 <= i < healthy@.len() ==> #[trigger] healthy@[i] < self.targets().len(),
                forall|i: int, j: int|
                    0 <= i < j < healthy@.len() ==> #[trigger] healthy@[i] < #[trigger] healthy@[j],
                forall|i: int|
                    0 <= i < order@.len() ==> #[trigger] order@[i] < self.targets().len() && (n
                        < healthy@.len() ==> order@[i] < healthy@[n as int]),
                forall|i: int, j: int|
                    0 <= i < j < order@.len() ==> less_busy(
                        self.targets(),
                        #[trigger] order@[i],
                        #[trigger] order@[j],
                    ),
            decreases healthy.len() - n,
        {
            let next: usize = healthy[n];
            let busy: usize = self.targets[next].active_connections;
            let mut at: usize = order.len();
            while at > 0 && self.targets[order[at - 1]].active_connections > busy
                invariant
                    at <= order@.len(),
                    next < self.targets().len(),
                    busy == self.targets()[next as int].active_connections,
                    forall|i: int|
                        0 <= i < order@.len() ==> #[trigger] order@[i] < self.targets().len(),
                    forall|i: int|
                        at <= i < order@.len() ==> self.targets()[(
                        #[trigger] order@[i]) as int].active_connections > busy,
                decreases at,
            {
                at -= 1;
            }
            let ghost before = order@;
            proof {
                assert(healthy@.take(n + 1) =~= healthy@.take(n as int).push(next));
                vstd::seq_lib::to_multiset_build(healthy@.take(n as int), next);
                vstd::seq_lib::to_multiset_insert(before, at as int, next);
            }
            order.insert(at, next);
            n += 1;
            assert forall|i: int, j: int| 0 <= i < j < order@.len() implies less_busy(
                self.targets(),
                #[trigger] order@[i],
                #[trigger] order@[j],
            ) by {
                let a = if i < at { i } else { i - 1 };
                let b = if j < at { j } else { j - 1 };
                if i != at && j != at {
                    assert(less_busy(self.targets(), before[a], before[b]));
                } else if j == at {
                    assert(before[i] < next);
                    if at > 0 && i < at - 1 {
                        assert(less_busy(self.targets(), before[i], before[at - 1]));
                    }
                }
            }
        }
        assert(healthy@.take(n as int) =~= healthy@);
        order
    }

    /// Every target in the order to try them at `now`: the healthy ones
    /// first, ordered by the strategy, then the others in the order of
    /// configuration.
    pub fn candidates_at(&mut self, now: Instant) -> (candidates: Vec<Candidate>)
        ensures
            final(self).same_setup(*old(self)),
            final(self).same_guards(*old(self)),
            final(self).targets() == old(self).targets(),
            final(self).counter() == next_counter(
                old(self).strategy(),
                old(self).targets(),
                now,
                old(self).counter(),
            ),
            is_preference(
                old(self).strategy(),
                old(self).targets(),
                old(self).counter(),
                now,
                indices(candidates@),
            ),
            are_targets(candidates@, old(self).targets()),
    {
        let mut healthy = self.tier_at(now, true);
        let down = self.tier_at(now, false);
        proof {
            assert(self.targets.len() == self.targets@.len());
            lemma_tier_ascending(self.targets@, now, true);
            lemma_tier_ascending(self.targets@, now, false);
        }
        let order: Vec<usize> = match self.strategy {
            LoadBalanceStrategy::RoundRobin => if healthy.len() == 0 {
                healthy
            } else {
                let offset: usize = self.round_robin_counter % healthy.len();
                self.round_robin_counter = self.round_robin_counter.wrapping_add(1);
                rotate(&healthy, offset)
            },
            LoadBalanceStrategy::Random => {
                shuffle(&mut healthy);
                healthy
            },
            LoadBalanceStrategy::LeastConnections => self.least_busy_first(&healthy),
        };
        let mut candidates: Vec<Candidate> = Vec::new();
        proof {
            lemma_order_members(
                self.strategy,
                self.targets@,
                old(self).round_robin_counter,
                tier(self.targets@, now, true),
                order@,
            );
        }
        self.append_candidates(&mut candidates, &order);
        self.append_candidates(&mut candidates, &down);
        assert(is_order(
            old(self).strategy(),
            old(self).targets(),
            old(self).counter(),
            tier(old(self).targets(), now, true),
            order@,
        ));
        assert(indices(candidates@) =~= order@ + tier(old(self).targets(), now, false));
        candidates
    }

    fn append_candidates(&self, candidates: &mut Vec<Candidate>, order: &Vec<usize>)
        requires
            forall|i: int| 0 <= i < order@.len() ==> #[trigger] order@[i] < self.targets().len(),
            are_targets(old(candidates)@, self.targets()),
        ensures
            indices(final(candidates)@) == indices(old(candidates)@) + order@,
            are_targets(final(candidates)@, self.targets()),
    {
        let mut n: usize = 0;
        assert(indices(candidates@) =~= indices(old(candidates)@) + order@.take(0));
        while n < order.len()
            invariant
                n <= order@.len(),
                forall|i: int|
                    0 <= i < order@.len() ==> #[trigger] order@[i] < self.targets().len(),
                indices(candidates@) == indices(old(candidates)@) + order@.take(n as int),
                are_targets(candidates@, self.targets()),
            decreases order.len() - n,
        {
            let index: usize = order[n];
            let ghost before = candidates@;
            candidates.push(Candidate { index, addr: self.targets[index].addr.duplicate() });
            n += 1;
            assert(indices(candidates@) =~= indices(before).push(index));
            assert(order@.take(n as int) =~= order@.take(n - 1).push(index));
        }
        assert(order@.take(n as int) =~= order@);
    }
}

/// The round-robin count after an order has been given out.
pub open spec fn next_counter(
    strategy: LoadBalanceStrategy,
    targets: Seq<Target>,
    now: Instant,
    counter: usize,
) -> usize {
    if strategy == LoadBalanceStrategy::RoundRobin && tier(targets, now, true).len() > 0 {
        if counter == usize::MAX {
            0
        } else {
            (counter + 1) as usize
        }
    } else {
        counter
    }
}

/// Whether `order` is an order in which to try all targets.
pub open spec fn is_preference(
    strategy: LoadBalanceStrategy,
    targets: Seq<Target>,
    counter: usize,
    now: Instant,
    order: Seq<usize>,
) -> bool {
    exists|healthy: Seq<usize>| #[trigger]
        is_order(strategy, targets, counter, tier(targets, now, true), healthy) && order == healthy
            + tier(targets, now, false)
}

fn rotate(s: &Vec<usize>, k: usize) -> (r: Vec<usize>)
    requires
        k <= s@.len(),
    ensures
        r@ == rotated(s@, k as int),
{
    let mut r: Vec<usize> = Vec::new();
    let mut i: usize = k;
    while i < s.len()
        invariant
            k <= i <= s@.len(),
            r@ == s@.subrange(k as int, i as int),
        decreases s.len() - i,
    {
        r.push(s[i]);
        i += 1;
        assert(s@.subrange(k as int, i as int) =~= s@.subrange(k as int, i - 1).push(s@[i - 1]));
    }
    assert(r@ =~= s@.skip(k as int) + s@.take(0));
    let mut j: usize = 0;
    while j < k
        invariant
            j <= k <= s@.len(),
            r@ == s@.skip(k as int) + s@.take(j as int),
        decreases k - j,
    {
        r.push(s[j]);
        j += 1;
        assert(s@.take(j as int) =~= s@.take(j - 1).push(s@[j - 1]));
    }
    r
}

/// Whether indices are in ascending order and below `bound`.
spec fn ascending(s: Seq<usize>, bound: nat) -> bool {
    &&& forall|i: int| 0 <= i < s.len() ==> #[trigger] s[i] < bound
    &&& forall|i: int, j: int| 0 <= i < j < s.len() ==> #[trigger] s[i] < #[trigger] s[j]
}

/// A tier holds valid indices in ascending order.
proof fn lemma_tier_ascending(targets: Seq<Target>, now: Instant, healthy: bool)
    requires
        targets.len() <= usize::MAX,
    ensures
        ascending(tier(targets, now, healthy), targets.len()),
    decreases targets.len(),
{
    if targets.len() > 0 {
        lemma_tier_ascending(targets.drop_last(), now, healthy);
    }
}

/// An order tries the healthy targets and nothing else.
proof fn lemma_order_members(
    strategy: LoadBalanceStrategy,
    targets: Seq<Target>,
    counter: usize,
    healthy: Seq<usize>,
    order: Seq<usize>,
)
    requires
        is_order(strategy, targets, counter, healthy, order),
    ensures
        order.to_multiset() == healthy.to_multiset(),
        forall|i: int| 0 <= i < order.len() ==> healthy.contains(#[trigger] order[i]),
{
    if strategy == LoadBalanceStrategy::RoundRobin && healthy.len() > 0 {
        let k = counter as int % healthy.len() as int;
        assert(0 <= k < healthy.len()) by (nonlinear_arith)
            requires
                k == counter as int % healthy.len() as int,
                healthy.len() > 0,
        ;
        vstd::seq_lib::lemma_multiset_commutative(healthy.take(k), healthy.skip(k));
        vstd::seq_lib::lemma_multiset_commutative(healthy.skip(k), healthy.take(k));
        assert(healthy.take(k) + healthy.skip(k) =~= healthy);
        assert(order.to_multiset() =~= healthy.to_multiset());
    }
    assert forall|i: int| 0 <= i < order.len() implies healthy.contains(#[trigger] order[i]) by {
        order.to_multiset_ensures();
        healthy.to_multiset_ensures();
        assert(order.contains(order[i]));
        assert(order.to_multiset().count(order[i]) > 0);
    }
}

/// When a target that fails at `now` will be tried with preference again.
pub open spec fn cooldown_end(now: Instant, cooldown: Duration) -> Instant {
    if now.nanos + cooldown.total_nanos() <= i128::MAX {
        Instant { nanos: (now.nanos + cooldown.total_nanos()) as i128 }
    } else {
        Instant { nanos: i128::MAX }
    }
}

/// A target after a failed attempt to reach it at `now`.
pub open spec fn failed(target: Target, now: Instant, cooldown: Duration) -> Target {
    Target { down_until: Some(cooldown_end(now, cooldown)), ..target }
}

/// A target after it has been reached: it is up, and one connection busier.
pub open spec fn connected(target: Target) -> Target {
    Target {
        down_until: None,
        active_connections: (target.active_connections + 1) as usize,
        ..target
    }
}

/// A target after one of its connections has ended.
pub open spec fn disconnected(target: Target) -> Target {
    Target { active_connections: (target.active_connections - 1) as usize, ..target }
}

/// What becomes of a target that was reached.
pub struct Connected {
    pub guard: ActiveConnectionGuard,
    /// Whether the target was being avoided.
    pub was_down: bool,
    /// How many connections the target has now.
    pub active_connections: usize,
}

impl UpstreamPool {
    /// Every target in the order to try them now.
    pub fn candidates(&mut self) -> (candidates: Vec<Candidate>)
        ensures
            final(self).same_setup(*old(self)),
            final(self).same_guards(*old(self)),
            final(self).targets() == old(self).targets(),
            are_targets(candidates@, old(self).targets()),
            exists|now: Instant|
                #![trigger tier(old(self).targets(), now, true)]
                is_preference(
                    old(self).strategy(),
                    old(self).targets(),
                    old(self).counter(),
                    now,
                    indices(candidates@),
                ) && final(self).counter() == next_counter(
                    old(self).strategy(),
                    old(self).targets(),
                    now,
                    old(self).counter(),
                ) && time::is_reading(now),
    {
        let now = self.clock.now();
        let candidates = self.candidates_at(now);
        assert(tier(old(self).targets(), now, true).len() >= 0);
        candidates
    }

    /// Notes a failed attempt to reach a target at `now`: the target is
    /// avoided for the cooldown. Tells whether it was healthy before.
    pub fn mark_failed_at(&mut self, index: usize, now: Instant) -> (was_healthy: bool)
        requires
            index < old(self).targets().len(),
        ensures
            was_healthy == old(self).targets()[index as int].healthy(now),
            old(self).wf() ==> final(self).wf(),
            final(self).same_setup(*old(self)),
            final(self).same_guards(*old(self)),
            final(self).counter() == old(self).counter(),
            final(self).targets() == old(self).targets().update(
                index as int,
                failed(old(self).targets()[index as int], now, old(self).cooldown()),
            ),
    {
        let was_healthy = self.is_healthy_at(index, now);
        let until = match now.nanos.checked_add(self.cooldown.as_nanos() as i128) {
            Some(nanos) => Instant { nanos },
            None => Instant { nanos: i128::MAX },
        };
        self.targets[index].down_until = Some(until);
        assert(self.targets@ =~= old(self).targets@.update(
            index as int,
            failed(old(self).targets@[index as int], now, self.cooldown),
        ));
        assert(forall|i: usize|
            i < self.targets().len() ==> (#[trigger] self.targets()[i as int]).active_connections
                == old(self).targets()[i as int].active_connections);
        was_healthy
    }

    /// Notes a failed attempt to reach a target.
    pub fn mark_failed(&mut self, index: usize) -> (was_healthy: bool)
        requires
            index < old(self).targets().len(),
        ensures
            old(self).wf() ==> final(self).wf(),
            final(self).same_setup(*old(self)),
            final(self).same_guards(*old(self)),
            final(self).counter() == old(self).counter(),
            exists|now: Instant|
                #![trigger old(self).targets()[index as int].healthy(now)]
                was_healthy == old(self).targets()[index as int].healthy(now)
                    && final(self).targets() == old(self).targets().update(
                    index as int,
                    failed(old(self).targets()[index as int], now, old(self).cooldown()),
                ) && time::is_reading(now),
    {
        let now = self.clock.now();
        self.mark_failed_at(index, now)
    }

    /// Notes that a target was reached at `now`: it is healthy again, however
    /// long it was still to be avoided, and one connection busier.
    pub fn mark_connected_at(&mut self, index: usize, now: Instant) -> (connection: Connected)
        requires
            old(self).wf(),
            index < old(self).targets().len(),
            old(self).targets()[index as int].active_connections < usize::MAX,
        ensures
            final(self).wf(),
            final(self).issued() == old(self).issued() + 1,
            final(self).guards() == old(self).guards().insert(connection.guard.id(), index),
            !old(self).guards().dom().contains(connection.guard.id()),
            final(self).holds(connection.guard),
            connection.guard.index() == index,
            connection.was_down == !old(self).targets()[index as int].healthy(now),
            connection.active_connections == old(self).targets()[index as int].active_connections + 1,
            final(self).same_setup(*old(self)),
            final(self).counter() == old(self).counter(),
            final(self).targets() == old(self).targets().update(
                index as int,
                connected(old(self).targets()[index as int]),
            ),
    {
        let was_down = !self.is_healthy_at(index, now);
        self.targets[index].down_until = None;
        let active_connections: usize = self.targets[index].active_connections + 1;
        self.targets[index].active_connections = active_connections;
        assert(self.targets@ =~= old(self).targets@.update(
            index as int,
            connected(old(self).targets@[index as int]),
        ));
        let id: Ghost<nat> = Ghost(self.issued@);
        proof {
            self.guards@ = self.guards@.insert(id@, index);
            self.issued@ = self.issued@ + 1;
            assert forall|i: usize| i < self.targets().len() implies (
            #[trigger] self.targets()[i as int]).active_connections == guards_of(
                self.guards(),
                i,
            ) by {
                assert(old(self).targets()[i as int].active_connections == guards_of(
                    old(self).guards(),
                    i,
                ));
                lemma_one_more_guard(old(self).guards(), id@, index, i);
            }
        }
        Connected { guard: ActiveConnectionGuard { index, id }, was_down, active_connections }
    }

    /// Notes that a target was reached.
    pub fn mark_connected(&mut self, index: usize) -> (connection: Connected)
        requires
            old(self).wf(),
            index < old(self).targets().len(),
            old(self).targets()[index as int].active_connections < usize::MAX,
        ensures
            final(self).wf(),
            final(self).issued() == old(self).issued() + 1,
            final(self).guards() == old(self).guards().insert(connection.guard.id(), index),
            !old(self).guards().dom().contains(connection.guard.id()),
            final(self).holds(connection.guard),
            connection.guard.index() == index,
            connection.active_connections == final(self).targets()[index as int].active_connections,
            exists|now: Instant|
                connection.was_down != #[trigger] old(self).targets()[index as int].healthy(now)
                    && time::is_reading(now),
            final(self).same_setup(*old(self)),
            final(self).counter() == old(self).counter(),
            final(self).targets() == old(self).targets().update(
                index as int,
                connected(old(self).targets()[index as int]),
            ),
    {
        let now = self.clock.now();
        self.mark_connected_at(index, now)
    }

    /// Notes that a counted connection has ended, and returns how many its
    /// target has left. The guard is one that this pool gave out.
    pub fn release(&mut self, guard: ActiveConnectionGuard) -> (active_connections: usize)
        requires
            old(self).wf(),
            old(self).holds(guard),
        ensures
            final(self).wf(),
            final(self).issued() == old(self).issued(),
            final(self).guards() == old(self).guards().remove(guard.id()),
            final(self).same_setup(*old(self)),
            final(self).counter() == old(self).counter(),
            final(self).targets() == old(self).targets().update(
                guard.index() as int,
                disconnected(old(self).targets()[guard.index() as int]),
            ),
            active_connections == final(self).targets()[guard.index() as int].active_connections,
    {
        let index: usize = guard.index;
        proof {
            guards_alive_are_what_is_counted(*self, guard);
        }
        let active_connections: usize = self.targets[index].active_connections - 1;
        self.targets[index].active_connections = active_connections;
        assert(self.targets@ =~= old(self).targets@.update(
            index as int,
            disconnected(old(self).targets@[index as int]),
        ));
        proof {
            self.guards@ = self.guards@.remove(guard.id());
            assert forall|i: usize| i < self.targets().len() implies (
            #[trigger] self.targets()[i as int]).active_connections == guards_of(
                self.guards(),
                i,
            ) by {
                assert(old(self).targets()[i as int].active_connections == guards_of(
                    old(self).guards(),
                    i,
                ));
                lemma_one_guard_less(old(self).guards(), guard.id(), i);
            }
        }
        active_connections
    }

    /// How many connections a target has.
    pub fn active_connections(&self, index: usize) -> (count: usize)
        requires
            index < self.targets().len(),
        ensures
            count == self.targets()[index as int].active_connections,
    {
        self.targets[index].active_connections
    }
}

proof fn lemma_one_more_guard(guards: Map<nat, usize>, id: nat, index: usize, other: usize)
    requires
        guards.dom().finite(),
        !guards.dom().contains(id),
    ensures
        guards_of(guards.insert(id, index), other) == guards_of(guards, other) + if other == index {
            1nat
        } else {
            0nat
        },
{
    let after = guards.insert(id, index);
    let was = guards_for(guards, other);
    let is = guards_for(after, other);
    vstd::set_lib::lemma_len_subset(was, guards.dom());
    if other == index {
        assert(is =~= was.insert(id));
    } else {
        assert(is =~= was);
    }
}

proof fn lemma_one_guard_less(guards: Map<nat, usize>, id: nat, other: usize)
    requires
        guards.dom().finite(),
        guards.dom().contains(id),
    ensures
        guards_of(guards, other) == guards_of(guards.remove(id), other) + if other == guards[id] {
            1nat
        } else {
            0nat
        },
{
    let rest = guards.remove(id);
    assert(rest.insert(id, guards[id]) =~= guards);
    lemma_one_more_guard(rest, id, guards[id], other);
}

/// What is counted are the guards alive: in every state that a pool reaches,
/// the number of active connections of a target is that of the guards that
/// were given out for it and not handed back. So a guard can always be handed
/// back.
pub proof fn guards_alive_are_what_is_counted(pool: UpstreamPool, guard: ActiveConnectionGuard)
    requires
        pool.wf(),
        pool.holds(guard),
    ensures
        guard.index() < pool.targets().len(),
        pool.targets()[guard.index() as int].active_connections == guards_of(
            pool.guards(),
            guard.index(),
        ),
        pool.targets()[guard.index() as int].active_connections > 0,
{
    lemma_one_guard_less(pool.guards(), guard.id(), guard.index());
}

proof fn lemma_tiers_cover(targets: Seq<Target>, now: Instant, index: usize)
    requires
        targets.len() <= usize::MAX,
        index < targets.len(),
    ensures
        tier(targets, now, targets[index as int].healthy(now)).contains(index),
        !tier(targets, now, !targets[index as int].healthy(now)).contains(index),
    decreases targets.len(),
{
    let last = (targets.len() - 1) as usize;
    let healthy = targets[index as int].healthy(now);
    lemma_tier_ascending(targets.drop_last(), now, healthy);
    lemma_tier_ascending(targets.drop_last(), now, !healthy);
    let same = tier(targets.drop_last(), now, healthy);
    let other = tier(targets.drop_last(), now, !healthy);
    if index == last {
        assert(same.push(last)[same.len() as int] == last);
    } else {
        assert(targets.drop_last()[index as int] == targets[index as int]);
        lemma_tiers_cover(targets.drop_last(), now, index);
        let k = same.index_of(index);
        assert(same.push(last)[k] == index);
        assert(!other.push(last).contains(index)) by {
            if other.push(last).contains(index) {
                let j = other.push(last).index_of(index);
                assert(j < other.len());
                assert(other[j] == index);
            }
        }
    }
}

/// However many targets are down, every configured target is tried, and each
/// one once.
pub proof fn every_target_is_tried_once(
    strategy: LoadBalanceStrategy,
    targets: Seq<Target>,
    counter: usize,
    now: Instant,
    order: Seq<usize>,
    index: usize,
)
    requires
        targets.len() <= usize::MAX,
        is_preference(strategy, targets, counter, now, order),
    ensures
        order.contains(index) <==> index < targets.len(),
        order.no_duplicates(),
{
    let up = tier(targets, now, true);
    let down = tier(targets, now, false);
    let first = choose|first: Seq<usize>| #[trigger]
        is_order(strategy, targets, counter, up, first) && order == first + down;
    lemma_order_members(strategy, targets, counter, up, first);
    lemma_tier_ascending(targets, now, true);
    lemma_tier_ascending(targets, now, false);
    first.to_multiset_ensures();
    up.to_multiset_ensures();
    if index < targets.len() {
        lemma_tiers_cover(targets, now, index);
        if up.contains(index) {
            assert(up.to_multiset().count(index) > 0);
            assert(first.to_multiset().count(index) > 0);
            let k = first.index_of(index);
            assert(order[k] == index);
        } else {
            let k = down.index_of(index);
            assert(order[first.len() + k] == index);
        }
    }
    if order.contains(index) {
        let k = order.index_of(index);
        if k < first.len() {
            assert(up.contains(first[k]));
        } else {
            assert(down[k - first.len()] == index);
        }
    }
    assert(up.no_duplicates());
    up.lemma_multiset_has_no_duplicates();
    first.lemma_multiset_has_no_duplicates_conv();
    assert forall|i: int, j: int| 0 <= i < first.len() && 0 <= j < down.len() implies first[i]
        != down[j] by {
        assert(up.contains(first[i]));
        let k = first[i];
        lemma_tiers_cover(targets, now, k);
        assert(down.contains(down[j]));
    }
    vstd::seq_lib::lemma_no_dup_in_concat(first, down);
}

/// No target that is down is tried before one that is healthy.
pub proof fn healthy_targets_come_first(
    strategy: LoadBalanceStrategy,
    targets: Seq<Target>,
    counter: usize,
    now: Instant,
    order: Seq<usize>,
    i: int,
    j: int,
)
    requires
        targets.len() <= usize::MAX,
        is_preference(strategy, targets, counter, now, order),
        0 <= i < j < order.len(),
        targets[order[j] as int].healthy(now),
    ensures
        targets[order[i] as int].healthy(now),
{
    let up = tier(targets, now, true);
    let down = tier(targets, now, false);
    let first = choose|first: Seq<usize>| #[trigger]
        is_order(strategy, targets, counter, up, first) && order == first + down;
    lemma_order_members(strategy, targets, counter, up, first);
    lemma_tier_ascending(targets, now, true);
    lemma_tier_ascending(targets, now, false);
    if j >= first.len() {
        assert(down.contains(down[j - first.len()]));
        lemma_tiers_cover(targets, now, order[j]);
    } else {
        assert(up.contains(first[i]));
        lemma_tiers_cover(targets, now, order[i]);
    }
}

/// Round robin goes round: while the same targets stay healthy, each of them
/// is tried first within as many orders as there are of them.
pub proof fn round_robin_goes_round(healthy: Seq<usize>, counter: usize, target: int) -> (k: int)
    requires
        0 <= target < healthy.len(),
    ensures
        0 <= k < healthy.len(),
        rotated(healthy, (counter + k) % healthy.len() as int)[0] == healthy[target],
{
    let n = healthy.len() as int;
    let q = counter as int / n;
    let c = counter as int % n;
    vstd::arithmetic::div_mod::lemma_fundamental_div_mod(counter as int, n);
    vstd::arithmetic::div_mod::lemma_mod_bound(counter as int, n);
    if target >= c {
        let k = target - c;
        assert(counter + k == q * n + target) by (nonlinear_arith)
            requires
                counter == n * q + c,
                k == target - c,
        ;
        vstd::arithmetic::div_mod::lemma_fundamental_div_mod_converse(counter + k, n, q, target);
        k
    } else {
        let k = target + n - c;
        assert(counter + k == (q + 1) * n + target) by (nonlinear_arith)
            requires
                counter == n * q + c,
                k == target + n - c,
        ;
        vstd::arithmetic::div_mod::lemma_fundamental_div_mod_converse(
            counter + k,
            n,
            q + 1,
            target,
        );
        k
    }
}

/// A failed target is avoided until its cooldown has passed, and no longer.
pub proof fn failures_cool_down(target: Target, now: Instant, cooldown: Duration, later: Instant)
    requires
        now.nanos + cooldown.total_nanos() <= i128::MAX,
    ensures
        failed(target, now, cooldown).healthy(later) <==> later.nanos >= now.nanos
            + cooldown.total_nanos(),
{
}

/// A target that has been reached is healthy at once, and its connection,
/// once ended, leaves it as busy as before.
pub proof fn connections_come_and_go(target: Target, now: Instant)
    requires
        target.active_connections < usize::MAX,
    ensures
        connected(target).healthy(now),
        disconnected(connected(target)).active_connections == target.active_connections,
{
}

/// How many of the first `n` targets are not being avoided at `now`.
pub open spec fn healthy_among(targets: Seq<Target>, now: Instant, n: int) -> nat
    decreases n,
{
    if n <= 0 {
        0
    } else {
        healthy_among(targets, now, n - 1) + if targets[n - 1].healthy(now) {
            1nat
        } else {
            0nat
        }
    }
}

/// A target is avoided until the moment that was set when it failed, and from
/// that moment on no longer; one that did not fail is not avoided.
pub proof fn targets_are_avoided_until_a_moment(target: Target, now: Instant)
    ensures
        target.healthy(now) <==> (target.down_until matches Some(until) ==> now.nanos
            >= until.nanos),
{
}

proof fn lemma_tier_members(targets: Seq<Target>, now: Instant, healthy: bool)
    requires
        targets.len() <= usize::MAX,
    ensures
        forall|k: int|
            0 <= k < tier(targets, now, healthy).len() ==> {
                &&& (#[trigger] tier(targets, now, healthy)[k]) < targets.len()
                &&& targets[tier(targets, now, healthy)[k] as int].healthy(now) == healthy
            },
        healthy ==> tier(targets, now, healthy).len() == healthy_among(
            targets,
            now,
            targets.len() as int,
        ),
        healthy ==> forall|k: int|
            0 <= k < tier(targets, now, healthy).len() ==> healthy_among(
                targets,
                now,
                #[trigger] tier(targets, now, healthy)[k] as int,
            ) == k,
    decreases targets.len(),
{
    if targets.len() > 0 {
        let fewer = targets.drop_last();
        let last = targets.len() - 1;
        lemma_tier_members(fewer, now, healthy);
        let all = tier(targets, now, healthy);
        let earlier = tier(fewer, now, healthy);
        lemma_among_prefix(fewer, targets, now, last);
        assert forall|k: int| 0 <= k < all.len() implies {
            &&& (#[trigger] all[k]) < targets.len()
            &&& targets[all[k] as int].healthy(now) == healthy
            &&& healthy ==> healthy_among(targets, now, all[k] as int) == k
        } by {
            if k < earlier.len() {
                assert(all[k] == earlier[k]);
                assert(targets[all[k] as int] == fewer[all[k] as int]);
                lemma_among_prefix(fewer, targets, now, all[k] as int);
            }
        }
    }
}

proof fn lemma_among_prefix(fewer: Seq<Target>, targets: Seq<Target>, now: Instant, n: int)
    requires
        0 <= n <= fewer.len() <= targets.len(),
        forall|i: int| 0 <= i < fewer.len() ==> fewer[i] == targets[i],
    ensures
        healthy_among(fewer, now, n) == healthy_among(targets, now, n),
    decreases n,
{
    if n > 0 {
        lemma_among_prefix(fewer, targets, now, n - 1);
    }
}

/// What is tried falls into two parts: as many candidates as there are healthy
/// targets come first, all of them healthy, and the others follow in the order
/// of configuration.
pub proof fn candidates_fall_into_two_parts(
    strategy: LoadBalanceStrategy,
    targets: Seq<Target>,
    counter: usize,
    now: Instant,
    order: Seq<usize>,
    i: int,
    j: int,
)
    requires
        targets.len() <= usize::MAX,
        is_preference(strategy, targets, counter, now, order),
        0 <= i < order.len(),
    ensures
        order.len() == targets.len(),
        order[i] < targets.len(),
        targets[order[i] as int].healthy(now) <==> i < healthy_among(
            targets,
            now,
            targets.len() as int,
        ),
        healthy_among(targets, now, targets.len() as int) <= i < j < order.len() ==> order[i]
            < order[j],
{
    let up = tier(targets, now, true);
    let down = tier(targets, now, false);
    let first = choose|first: Seq<usize>| #[trigger]
        is_order(strategy, targets, counter, up, first) && order == first + down;
    lemma_order_members(strategy, targets, counter, up, first);
    lemma_tier_members(targets, now, true);
    lemma_tier_members(targets, now, false);
    lemma_tier_ascending(targets, now, false);
    lemma_tier_sizes(targets, now);
    vstd::seq_lib::to_multiset_len(first);
    vstd::seq_lib::to_multiset_len(up);
    if i < first.len() {
        let k = up.index_of(first[i]);
        assert(up.contains(first[i]));
        assert(up[k] == order[i]);
    } else {
        assert(down[i - first.len()] == order[i]);
        if i < j < order.len() {
            assert(down[j - first.len()] == order[j]);
        }
    }
}

proof fn lemma_tier_sizes(targets: Seq<Target>, now: Instant)
    ensures
        tier(targets, now, true).len() + tier(targets, now, false).len() == targets.len(),
    decreases targets.len(),
{
    if targets.len() > 0 {
        lemma_tier_sizes(targets.drop_last(), now);
    }
}

/// Round robin takes turns: the k-th candidate is the healthy target that has
/// as many healthy ones before it, in the order of configuration, as the count
/// of orders given out and k together leave over after going round; and while
/// some target is healthy the count goes up by one with every order, so that
/// the next one begins with the next target.
pub proof fn round_robin_takes_turns(
    targets: Seq<Target>,
    counter: usize,
    now: Instant,
    order: Seq<usize>,
    k: int,
)
    requires
        targets.len() <= usize::MAX,
        is_preference(LoadBalanceStrategy::RoundRobin, targets, counter, now, order),
        0 <= k < healthy_among(targets, now, targets.len() as int),
    ensures
        k < order.len(),
        order[k] < targets.len(),
        targets[order[k] as int].healthy(now),
        healthy_among(targets, now, order[k] as int) == (counter + k) % healthy_among(
            targets,
            now,
            targets.len() as int,
        ) as int,
        next_counter(LoadBalanceStrategy::RoundRobin, targets, now, counter) == if counter
            < usize::MAX {
            counter + 1
        } else {
            0
        },
{
    let up = tier(targets, now, true);
    let down = tier(targets, now, false);
    let first = choose|first: Seq<usize>| #[trigger]
        is_order(LoadBalanceStrategy::RoundRobin, targets, counter, up, first) && order == first
            + down;
    lemma_tier_members(targets, now, true);
    let n = up.len() as int;
    let c = counter as int % n;
    vstd::arithmetic::div_mod::lemma_mod_bound(counter as int, n);
    vstd::arithmetic::div_mod::lemma_mod_bound(counter + k, n);
    vstd::arithmetic::div_mod::lemma_fundamental_div_mod(counter as int, n);
    let q = counter as int / n;
    if k < n - c {
        assert(counter + k == q * n + (c + k)) by (nonlinear_arith)
            requires
                counter == n * q + c,
        ;
        vstd::arithmetic::div_mod::lemma_fundamental_div_mod_converse(counter + k, n, q, c + k);
        assert(first[k] == up[c + k]);
    } else {
        assert(counter + k == (q + 1) * n + (c + k - n)) by (nonlinear_arith)
            requires
                counter == n * q + c,
        ;
        vstd::arithmetic::div_mod::lemma_fundamental_div_mod_converse(
            counter + k,
            n,
            q + 1,
            c + k - n,
        );
        assert(first[k] == up[c + k - n]);
    }
    assert(order[k] == first[k]);
}

/// Orders given out by another strategy, or while no target is healthy, are
/// not counted.
pub proof fn only_turns_are_counted(
    strategy: LoadBalanceStrategy,
    targets: Seq<Target>,
    now: Instant,
    counter: usize,
)
    requires
        targets.len() <= usize::MAX,
        strategy != LoadBalanceStrategy::RoundRobin || forall|i: int|
            0 <= i < targets.len() ==> !(#[trigger] targets[i]).healthy(now),
    ensures
        next_counter(strategy, targets, now, counter) == counter,
{
    lemma_tier_members(targets, now, true);
    let up = tier(targets, now, true);
    if up.len() > 0 {
        assert(targets[up[0] as int].healthy(now));
    }
}

/// Where the least busy target goes first, a healthy candidate never has more
/// active connections than a healthy one that is tried after it, and equally
/// busy ones are tried in the order of configuration; so the first candidate
/// has the fewest of all healthy targets.
pub proof fn the_least_busy_come_first(
    targets: Seq<Target>,
    counter: usize,
    now: Instant,
    order: Seq<usize>,
    i: int,
    j: int,
    other: int,
)
    requires
        targets.len() <= usize::MAX,
        is_preference(LoadBalanceStrategy::LeastConnections, targets, counter, now, order),
        0 <= i < j < order.len(),
        targets[order[i] as int].healthy(now),
        targets[order[j] as int].healthy(now),
        0 <= other < targets.len(),
        targets[other].healthy(now),
    ensures
        targets[order[i] as int].active_connections <= targets[order[j] as int].active_connections,
        targets[order[i] as int].active_connections == targets[order[j] as int].active_connections
            ==> order[i] < order[j],
        targets[order[0] as int].active_connections <= targets[other].active_connections,
{
    let up = tier(targets, now, true);
    let down = tier(targets, now, false);
    let first = choose|first: Seq<usize>| #[trigger]
        is_order(LoadBalanceStrategy::LeastConnections, targets, counter, up, first) && order
            == first + down;
    candidates_fall_into_two_parts(
        LoadBalanceStrategy::LeastConnections,
        targets,
        counter,
        now,
        order,
        j,
        j,
    );
    lemma_tier_members(targets, now, true);
    lemma_order_members(LoadBalanceStrategy::LeastConnections, targets, counter, up, first);
    vstd::seq_lib::to_multiset_len(first);
    vstd::seq_lib::to_multiset_len(up);
    assert(order[i] == first[i] && order[j] == first[j] && order[0] == first[0]);
    assert(less_busy(targets, first[i], first[j]));
    every_target_is_tried_once(
        LoadBalanceStrategy::LeastConnections,
        targets,
        counter,
        now,
        order,
        other as usize,
    );
    let k = order.index_of(other as usize);
    candidates_fall_into_two_parts(
        LoadBalanceStrategy::LeastConnections,
        targets,
        counter,
        now,
        order,
        k,
        k,
    );
    assert(order[k] == first[k]);
    if k > 0 {
        assert(less_busy(targets, first[0], first[k]));
    }
}

/// A failure sets the moment until which a target is avoided one cooldown
/// ahead (or to the last moment there is), a success lifts it and adds one
/// connection, and the end of a connection takes one away; nothing else about
/// the target changes.
pub proof fn targets_change_as_little_as_they_must(target: Target, now: Instant, cooldown: Duration)
    ensures
        ({
            let after = failed(target, now, cooldown);
            let nanos = now.nanos + cooldown.secs() * 1_000_000_000 + cooldown.subsec_nanos();
            &&& after.addr == target.addr
            &&& after.active_connections == target.active_connections
            &&& after.down_until matches Some(until)
            &&& until.nanos == if nanos <= i128::MAX {
                nanos
            } else {
                i128::MAX as int
            }
        }),
        target.active_connections < usize::MAX ==> connected(target).addr == target.addr
            && connected(target).active_connections == target.active_connections + 1
            && connected(target).down_until is None,
        target.active_connections > 0 ==> disconnected(target).addr == target.addr
            && disconnected(target).active_connections == target.active_connections - 1
            && disconnected(target).down_until == target.down_until,
{
}

/// A candidate is to be dialed at the address of the target that it stands
/// for.
pub proof fn candidates_carry_their_address(candidates: Seq<Candidate>, targets: Seq<Target>, i: int)
    requires
        are_targets(candidates, targets),
        0 <= i < candidates.len(),
    ensures
        candidates[i].index == indices(candidates)[i],
        candidates[i].index < targets.len(),
        candidates[i].addr == targets[candidates[i].index as int].addr,
{
}

/// What is said to be unchanged is: the same setup is the same strategy and the
/// same cooldown, and the same guards are the same ones for the same targets.
pub proof fn unchanged_pools_are_the_same(a: UpstreamPool, b: UpstreamPool, id: nat)
    ensures
        a.same_setup(b) ==> a.strategy() == b.strategy() && a.cooldown() == b.cooldown(),
        a.same_guards(b) ==> a.issued() == b.issued() && (a.guards().dom().contains(id)
            <==> b.guards().dom().contains(id)) && a.guards()[id] == b.guards()[id],
{
}

/// Every target of a pool has as many active connections as there are guards
/// that are for it, and a guard is for one target only; so the connections of
/// two targets are never mixed up.
pub proof fn every_target_has_its_own_count(
    pool: UpstreamPool,
    index: usize,
    other: usize,
    id: nat,
)
    requires
        pool.wf(),
        index < pool.targets().len(),
    ensures
        pool.targets()[index as int].active_connections == guards_for(pool.guards(), index).len(),
        guards_for(pool.guards(), index).contains(id) <==> pool.guards().dom().contains(id)
            && pool.guards()[id] == index,
        guards_for(pool.guards(), index).contains(id) && guards_for(pool.guards(), other).contains(
            id,
        ) ==> index == other,
        guards_for(pool.guards(), index).contains(id) ==> id < pool.issued(),
{
}

}
