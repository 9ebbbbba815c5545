//! Load balancing: round-robin and least-connections selection over a
//! fixed backend pool, modelled as functions from balancer state to the
//! next state and the chosen backend.
//!
//! The state here is sequential; callers that serve connections
//! concurrently guard a balancer with a lock, which preserves every
//! contract below because each call then sees one state and leaves one
//! state.

use vstd::prelude::*;
use vstd::pervasive::VecAdditionalExecFns;

use crate::addr::BackendAddress;
use crate::registry::BackendPool;

verus! {

/// What a release request did to the balancer's state.
#[derive(Clone, Copy, PartialEq, Eq, Structural, Debug)]
pub enum UpdateOutcome {
    /// The backend's active-connection count went down by one.
    Decremented,
    /// The address is not in the pool; nothing changed.
    UnknownServer,
    /// The backend's count was already zero; nothing changed.
    AlreadyZero,
    /// The strategy tracks no per-backend state; nothing changed.
    Ignored,
}

/// The cursor after one round-robin selection: one step forward,
/// wrapping modulo the pool size.
pub open spec fn rr_advance(cursor: int, n: int) -> int {
    (cursor + 1) % n
}

/// The cursor of a fresh round-robin balancer after `i` selections over
/// a pool of size `n`.
pub open spec fn rr_cursor_after(i: nat, n: int) -> int
    decreases i,
{
    if i == 0 {
        0
    } else {
        rr_advance(rr_cursor_after((i - 1) as nat, n), n)
    }
}

/// Round-robin distribution law: starting from a fresh balancer over
/// `n` backends, the cursor before the `i`-th selection is `i % n`, so
/// the `i`-th selection (0-indexed) returns backend `i % n` — an even
/// spread over any window of `n` consecutive calls.
pub proof fn lemma_round_robin_cycles(i: nat, n: int)
    requires
        n >= 1,
    ensures
        rr_cursor_after(i, n) == (i as int) % n,
    decreases i,
{
    if i == 0 {
    } else {
        lemma_round_robin_cycles((i - 1) as nat, n);
        let x = (i - 1) as int;
        let q = x / n;
        let p = x % n;
        vstd::arithmetic::div_mod::lemma_mod_bound(x, n);
        vstd::arithmetic::div_mod::lemma_fundamental_div_mod(x, n);
        assert(x == n * q + p);
        assert(n * q == q * n) by (nonlinear_arith);
        if p + 1 < n {
            assert(i as int == q * n + (p + 1));
            vstd::arithmetic::div_mod::lemma_fundamental_div_mod_converse(i as int, n, q, p + 1);
            vstd::arithmetic::div_mod::lemma_small_mod((p + 1) as nat, n as nat);
        } else {
            assert((q + 1) * n == q * n + n) by (nonlinear_arith);
            assert(i as int == (q + 1) * n + 0);
            vstd::arithmetic::div_mod::lemma_fundamental_div_mod_converse(i as int, n, q + 1, 0);
            vstd::arithmetic::div_mod::lemma_mod_self_0(n);
        }
    }
}

/// Round-robin: an immutable pool and a cursor that wraps modulo the
/// pool size.
pub struct RoundRobinLoadBalancer {
    pub servers: Vec<BackendAddress>,
    pub next_index: usize,
}

impl RoundRobinLoadBalancer {
    /// At least one backend, and the cursor inside the pool.
    pub open spec fn wf(&self) -> bool {
        self.servers@.len() >= 1 && self.next_index < self.servers@.len()
    }

    /// A fresh round-robin balancer over a pool, cursor at the start.
    pub fn new(pool: BackendPool) -> (r: Self)
        requires
            pool.wf(),
        ensures
            r.wf(),
            r.servers@ == pool@,
            r.next_index == 0,
    {
        RoundRobinLoadBalancer { servers: pool.servers, next_index: 0 }
    }

    /// Return the backend under the cursor and advance the cursor one
    /// step, wrapping modulo the pool size. Selection is a pure function
    /// of the call count, never of backend state.
    pub fn get_next_server(&mut self) -> (r: BackendAddress)
        requires
            old(self).wf(),
        ensures
            final(self).wf(),
            final(self).servers@ == old(self).servers@,
            r == old(self).servers@[old(self).next_index as int],
            final(self).next_index as int == rr_advance(
                old(self).next_index as int,
                old(self).servers@.len() as int,
            ),
    {
        let i = self.next_index;
        let server = self.servers[i];
        let n = self.servers.len();
        assert(i < n);
        self.next_index = (i + 1) % n;
        server
    }

    /// Round-robin carries no per-backend state: releasing a backend
    /// changes nothing.
    pub fn update_server(&mut self, _server: BackendAddress) -> (r: UpdateOutcome)
        ensures
            *final(self) == *old(self),
            r == UpdateOutcome::Ignored,
    {
        UpdateOutcome::Ignored
    }
}

/// The per-backend counts of a least-connections table, in pool order.
pub open spec fn counts_of(s: Seq<(BackendAddress, u32)>) -> Seq<u32> {
    s.map_values(|p: (BackendAddress, u32)| p.1)
}

/// The addresses of a least-connections table, in pool order.
pub open spec fn addrs_of(s: Seq<(BackendAddress, u32)>) -> Seq<BackendAddress> {
    s.map_values(|p: (BackendAddress, u32)| p.0)
}

/// The least index of a minimal value in `s[i..]`.
pub open spec fn first_min_index_from(s: Seq<u32>, i: int) -> int
    decreases s.len() - i,
{
    if i + 1 >= s.len() {
        i
    } else {
        let m = first_min_index_from(s, i + 1);
        if s[i] <= s[m] {
            i
        } else {
            m
        }
    }
}

/// The least index of a minimal value in `s`.
pub open spec fn first_min_index(s: Seq<u32>) -> int {
    first_min_index_from(s, 0)
}

proof fn lemma_first_min_index_from(s: Seq<u32>, i: int)
    requires
        0 <= i < s.len(),
    ensures
        i <= first_min_index_from(s, i) < s.len(),
        forall|k: int| i <= k < s.len() ==> s[first_min_index_from(s, i)] <= #[trigger] s[k],
        forall|k: int|
            i <= k < first_min_index_from(s, i) ==> #[trigger] s[k] > s[first_min_index_from(s, i)],
    decreases s.len() - i,
{
    if i + 1 >= s.len() {
    } else {
        lemma_first_min_index_from(s, i + 1);
    }
}

/// Tie-breaking law of least-connections: the selected index carries a
/// count at most every other backend's count, and every backend before
/// it in pool order carries a strictly larger count — ties resolve to
/// the lowest pool index.
pub proof fn lemma_least_connections_picks_minimum(s: Seq<u32>)
    requires
        s.len() >= 1,
    ensures
        0 <= first_min_index(s) < s.len(),
        forall|k: int| 0 <= k < s.len() ==> s[first_min_index(s)] <= #[trigger] s[k],
        forall|k: int| 0 <= k < first_min_index(s) ==> #[trigger] s[k] > s[first_min_index(s)],
{
    lemma_first_min_index_from(s, 0);
}

/// A count after one more connection is attributed, capped at the
/// largest representable count.
pub open spec fn saturating_inc(c: u32) -> u32 {
    if c < u32::MAX {
        (c + 1) as u32
    } else {
        c
    }
}

/// The functional model of one least-connections selection: pick the
/// first backend with a minimal count and raise its count by one.
pub open spec fn lc_select_spec(s: Seq<(BackendAddress, u32)>) -> (Seq<(BackendAddress, u32)>,
    BackendAddress) {
    let j = first_min_index(counts_of(s));
    (s.update(j, (s[j].0, saturating_inc(s[j].1))), s[j].0)
}

/// The first table index holding address `a`, at or after `i`.
pub open spec fn find_addr_from(s: Seq<(BackendAddress, u32)>, a: BackendAddress, i: int) -> Option<
    int,
>
    decreases s.len() - i,
{
    if i < 0 || i >= s.len() {
        None
    } else if s[i].0 == a {
        Some(i)
    } else {
        find_addr_from(s, a, i + 1)
    }
}

/// The functional model of one release: decrement the first entry with
/// the given address, unless the address is unknown or its count is
/// already zero, in which case the table is left exactly as it was.
pub open spec fn lc_release_spec(s: Seq<(BackendAddress, u32)>, a: BackendAddress) -> (Seq<
    (BackendAddress, u32),
>, UpdateOutcome) {
    match find_addr_from(s, a, 0) {
        None => (s, UpdateOutcome::UnknownServer),
        Some(j) => if s[j].1 == 0 {
            (s, UpdateOutcome::AlreadyZero)
        } else {
            (s.update(j, (s[j].0, (s[j].1 - 1) as u32)), UpdateOutcome::Decremented)
        },
    }
}

/// Least-connections: per backend, a count of the connections currently
/// attributed to it.
pub struct LeastConnectionLoadBalancer {
    pub servers: Vec<(BackendAddress, u32)>,
}

impl LeastConnectionLoadBalancer {
    /// At least one backend.
    pub open spec fn wf(&self) -> bool {
        self.servers@.len() >= 1
    }

    /// A fresh least-connections balancer: every count is zero.
    pub fn new(pool: BackendPool) -> (r: Self)
        requires
            pool.wf(),
        ensures
            r.wf(),
            addrs_of(r.servers@) == pool@,
            r.servers@.len() == pool@.len(),
            forall|i: int| 0 <= i < r.servers@.len() ==> #[trigger] counts_of(r.servers@)[i] == 0,
    {
        let n = pool.len();
        let mut servers: Vec<(BackendAddress, u32)> = Vec::new();
        let mut i: usize = 0;
        while i < n
            invariant
                i <= n,
                n == pool@.len(),
                pool.wf(),
                servers@.len() == i,
                forall|j: int| 0 <= j < i ==> #[trigger] servers@[j] == (pool@[j], 0u32),
            decreases n - i,
        {
            let a = pool.get(i);
            servers.push((a, 0u32));
            i = i + 1;
        }
        proof {
            assert(addrs_of(servers@) =~= pool@);
        }
        LeastConnectionLoadBalancer { servers }
    }

    /// Scan the pool for the first backend with a minimal count, then
    /// attribute the new connection to it by raising its count as part
    /// of the same call.
    pub fn get_next_server(&mut self) -> (r: BackendAddress)
        requires
            old(self).wf(),
        ensures
            final(self).wf(),
            (final(self).servers@, r) == lc_select_spec(old(self).servers@),
    {
        let ghost s0 = self.servers@;
        let ghost cs = counts_of(s0);
        let n = self.servers.len();
        let mut best: usize = 0;
        let mut best_count: u32 = self.servers[0].1;
        let mut k: usize = 1;
        while k < n
            invariant
                1 <= k <= n,
                best < k,
                n == self.servers@.len(),
                self.servers@ == s0,
                s0 == old(self).servers@,
                cs == counts_of(s0),
                best_count == cs[best as int],
                forall|t: int| 0 <= t < k ==> best_count <= #[trigger] cs[t],
                forall|t: int| 0 <= t < best ==> #[trigger] cs[t] > best_count,
            decreases n - k,
        {
            let c = self.servers[k].1;
            if c < best_count {
                best = k;
                best_count = c;
            }
            k = k + 1;
        }
        proof {
            lemma_least_connections_picks_minimum(cs);
            let j = first_min_index(cs);
            if (best as int) < j {
                assert(cs[best as int] > cs[j]);
                assert(cs[j] >= best_count);
            }
            if j < (best as int) {
                assert(cs[j] > best_count);
                assert(cs[j] <= cs[best as int]);
            }
            assert(best as int == j);
        }
        let chosen = self.servers[best];
        let new_count: u32 = if chosen.1 < u32::MAX {
            chosen.1 + 1
        } else {
            chosen.1
        };
        self.servers.set(best, (chosen.0, new_count));
        proof {
            assert(self.servers@ =~= lc_select_spec(s0).0);
        }
        chosen.0
    }

    /// Release one connection from the backend with this address: find
    /// it and decrement its count. An unknown address, or a count that
    /// is already zero, is reported and leaves every count unchanged —
    /// a count never goes below zero.
    pub fn update_server(&mut self, server_addr: BackendAddress) -> (r: UpdateOutcome)
        ensures
            (final(self).servers@, r) == lc_release_spec(old(self).servers@, server_addr),
            final(self).servers@.len() == old(self).servers@.len(),
    {
        let ghost s0 = self.servers@;
        let n = self.servers.len();
        let mut k: usize = 0;
        while k < n
            invariant
                k <= n,
                n == self.servers@.len(),
                self.servers@ == s0,
                s0 == old(self).servers@,
                find_addr_from(s0, server_addr, 0) == find_addr_from(s0, server_addr, k as int),
            decreases n - k,
        {
            let entry = self.servers[k];
            if entry.0 == server_addr {
                proof {
                    assert(find_addr_from(s0, server_addr, k as int) == Some(k as int));
                }
                if entry.1 > 0 {
                    self.servers.set(k, (entry.0, entry.1 - 1));
                    proof {
                        assert(self.servers@ =~= lc_release_spec(s0, server_addr).0);
                    }
                    return UpdateOutcome::Decremented;
                } else {
                    return UpdateOutcome::AlreadyZero;
                }
            }
            proof {
                assert(find_addr_from(s0, server_addr, k as int) == find_addr_from(
                    s0,
                    server_addr,
                    k as int + 1,
                ));
            }
            k = k + 1;
        }
        UpdateOutcome::UnknownServer
    }
}

/// How one selection relates a balancer's next state and its choice to
/// the state the call saw.
pub open spec fn select_rel(pre: Balancer, post: Balancer, r: BackendAddress) -> bool {
    match pre {
        Balancer::RoundRobin(b) => post matches Balancer::RoundRobin(b2) && b2.servers@
            == b.servers@ && r == b.servers@[b.next_index as int] && b2.next_index as int
            == rr_advance(b.next_index as int, b.servers@.len() as int),
        Balancer::LeastConnection(b) => post matches Balancer::LeastConnection(b2) && (
        b2.servers@,
        r,
        ) == lc_select_spec(b.servers@),
    }
}

/// How one release relates a balancer's next state and the reported
/// outcome to the state the call saw.
pub open spec fn release_rel(pre: Balancer, post: Balancer, a: BackendAddress, r: UpdateOutcome) -> bool {
    match pre {
        Balancer::RoundRobin(b) => post matches Balancer::RoundRobin(b2) && b2 == b && r
            == UpdateOutcome::Ignored,
        Balancer::LeastConnection(b) => post matches Balancer::LeastConnection(b2) && (
        b2.servers@,
        r,
        ) == lc_release_spec(b.servers@, a),
    }
}

/// The load balancer chosen once at startup: a closed set of
/// strategies.
pub enum Balancer {
    RoundRobin(RoundRobinLoadBalancer),
    LeastConnection(LeastConnectionLoadBalancer),
}

impl Balancer {
    /// The wrapped balancer is well formed.
    pub open spec fn wf(&self) -> bool {
        match self {
            Balancer::RoundRobin(b) => b.wf(),
            Balancer::LeastConnection(b) => b.wf(),
        }
    }

    /// The pool addresses the balancer selects from, in pool order.
    pub open spec fn addrs(&self) -> Seq<BackendAddress> {
        match self {
            Balancer::RoundRobin(b) => b.servers@,
            Balancer::LeastConnection(b) => addrs_of(b.servers@),
        }
    }

    /// Select a backend for a new session under the chosen strategy.
    pub fn get_next_server(&mut self) -> (r: BackendAddress)
        requires
            old(self).wf(),
        ensures
            final(self).wf(),
            final(self).addrs() == old(self).addrs(),
            select_rel(*old(self), *final(self), r),
    {
        match self {
            Balancer::RoundRobin(b) => {
                let r = b.get_next_server();
                r
            },
            Balancer::LeastConnection(b) => {
                let ghost s_pre = b.servers@;
                let r = b.get_next_server();
                proof {
                    lemma_least_connections_picks_minimum(counts_of(s_pre));
                    let j = first_min_index(counts_of(s_pre));
                    lemma_addrs_of_update(s_pre, j, saturating_inc(s_pre[j].1));
                }
                r
            },
        }
    }

    /// Release a session's backend under the chosen strategy.
    pub fn update_server(&mut self, server_addr: BackendAddress) -> (r: UpdateOutcome)
        ensures
            final(self).addrs() == old(self).addrs(),
            final(self).wf() == old(self).wf(),
            release_rel(*old(self), *final(self), server_addr, r),
    {
        match self {
            Balancer::RoundRobin(b) => {
                let r = b.update_server(server_addr);
                r
            },
            Balancer::LeastConnection(b) => {
                let ghost s_pre = b.servers@;
                let r = b.update_server(server_addr);
                proof {
                    lemma_release_keeps_addrs(s_pre, server_addr);
                }
                r
            },
        }
    }
}

/// Where the address search lands: the first matching index, every
/// entry before it holding another address; or nowhere, every entry
/// holding another address.
pub proof fn lemma_find_addr_from(s: Seq<(BackendAddress, u32)>, a: BackendAddress, i: int)
    requires
        0 <= i <= s.len(),
    ensures
        match find_addr_from(s, a, i) {
            Some(j) => i <= j < s.len() && s[j].0 == a && forall|k: int|
                i <= k < j ==> (#[trigger] s[k]).0 != a,
            None => forall|k: int| i <= k < s.len() ==> (#[trigger] s[k]).0 != a,
        },
    decreases s.len() - i,
{
    if i < s.len() {
        lemma_find_addr_from(s, a, i + 1);
    }
}

/// Counters never go negative: one release leaves every count either
/// unchanged or — only where it was strictly positive — exactly one
/// less, so no count ever wraps below zero.
pub proof fn lemma_release_never_negative(s: Seq<(BackendAddress, u32)>, a: BackendAddress)
    ensures
        counts_of(lc_release_spec(s, a).0).len() == counts_of(s).len(),
        forall|k: int|
            0 <= k < s.len() ==> (#[trigger] counts_of(lc_release_spec(s, a).0)[k] == counts_of(
                s,
            )[k] || (counts_of(s)[k] > 0 && counts_of(lc_release_spec(s, a).0)[k] == counts_of(
                s,
            )[k] - 1)),
{
    lemma_find_addr_from(s, a, 0);
}

/// A release for an address that is not in the pool, or for a backend
/// whose count is already zero, leaves every counter exactly as it was.
pub proof fn lemma_release_unknown_or_zero_is_noop(s: Seq<(BackendAddress, u32)>, a: BackendAddress)
    requires
        find_addr_from(s, a, 0) is None || s[find_addr_from(s, a, 0).unwrap()].1 == 0,
    ensures
        lc_release_spec(s, a).0 == s,
{
}

/// An update that keeps an entry's address keeps the address sequence.
proof fn lemma_addrs_of_update(s: Seq<(BackendAddress, u32)>, j: int, c: u32)
    requires
        0 <= j < s.len(),
    ensures
        addrs_of(s.update(j, (s[j].0, c))) == addrs_of(s),
{
    assert(addrs_of(s.update(j, (s[j].0, c))) =~= addrs_of(s));
}

/// A release never moves or renames a backend: the address sequence is
/// untouched whatever the outcome.
proof fn lemma_release_keeps_addrs(s: Seq<(BackendAddress, u32)>, a: BackendAddress)
    ensures
        addrs_of(lc_release_spec(s, a).0) == addrs_of(s),
{
    lemma_find_addr_from(s, a, 0);
    match find_addr_from(s, a, 0) {
        None => {},
        Some(j) => {
            if s[j].1 != 0 {
                lemma_addrs_of_update(s, j, (s[j].1 - 1) as u32);
            }
        },
    }
}

} // verus!
