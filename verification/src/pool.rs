//! Backend records and the backend pool with its two selection strategies.

use vstd::arithmetic::div_mod::{lemma_mod_self_0, lemma_small_mod};
use vstd::prelude::*;

verus! {

/// One upstream server: its address and its mutable bookkeeping state.
#[derive(Debug)]
pub struct Backend {
    pub address: String,
    pub active_connections: usize,
    pub total_handled: usize,
    pub maintenance: bool,
}

impl Backend {
    /// A fresh backend for `address`: no connections yet, not in maintenance.
    pub fn new(address: String) -> (r: Backend)
        ensures
            r.address == address,
            r.active_connections == 0,
            r.total_handled == 0,
            !r.maintenance,
    {
        Backend {
            address,
            active_connections: 0,
            total_handled: 0,
            maintenance: false,
        }
    }

    /// Assign one connection to this backend: raise the active count and the
    /// lifetime total together, and hand back the new total as the
    /// connection id, which is therefore unique and increasing per backend.
    pub fn increment_on_assign(&mut self) -> (id: usize)
        requires
            old(self).active_connections < usize::MAX,
            old(self).total_handled < usize::MAX,
        ensures
            final(self).active_connections == old(self).active_connections + 1,
            final(self).total_handled == old(self).total_handled + 1,
            id == final(self).total_handled,
            final(self).address == old(self).address,
            final(self).maintenance == old(self).maintenance,
    {
        self.active_connections = self.active_connections + 1;
        self.total_handled = self.total_handled + 1;
        self.total_handled
    }

    /// Release one previously assigned connection. The active count returns
    /// to its pre-assignment value; if it is already zero the release is an
    /// accounting error, reported through the result rather than by
    /// underflowing: the count stays at the defensive floor of zero.
    pub fn decrement_on_release(&mut self) -> (underflow: bool)
        ensures
            final(self).active_connections == if old(self).active_connections == 0 {
                0usize
            } else {
                (old(self).active_connections - 1) as usize
            },
            underflow == (old(self).active_connections == 0),
            final(self).total_handled == old(self).total_handled,
            final(self).address == old(self).address,
            final(self).maintenance == old(self).maintenance,
    {
        if self.active_connections == 0 {
            true
        } else {
            self.active_connections = self.active_connections - 1;
            false
        }
    }
}

/// The selection policy of a pool.
#[derive(Clone, Copy, Debug, PartialEq, Eq, Structural)]
pub enum Strategy {
    RoundRobin,
    LeastConnections,
}

/// Every backend of the pool is in maintenance (vacuously true of an empty
/// pool): in that case selection has nothing to offer.
pub open spec fn all_in_maintenance(bs: Seq<Backend>) -> bool {
    forall|i: int| 0 <= i < bs.len() ==> bs[i].maintenance
}

/// The cursor position that follows `p` in a pool of `n` backends,
/// wrapping to the front after the last.
pub open spec fn next_pos(n: int, p: int) -> int {
    if p + 1 == n {
        0
    } else {
        p + 1
    }
}

/// The position reached from `p` after `k` single cyclic steps.
pub open spec fn pos_after(n: int, p: int, k: nat) -> int
    decreases k,
{
    if k == 0 {
        p
    } else {
        next_pos(n, pos_after(n, p, (k - 1) as nat))
    }
}

/// Cyclic scan: the first position, starting at `pos` and looking at most
/// `fuel` places onward, whose backend is not in maintenance.
pub open spec fn rr_scan(bs: Seq<Backend>, pos: int, fuel: nat) -> Option<int>
    decreases fuel,
{
    if fuel == 0 {
        None
    } else if !bs[pos].maintenance {
        Some(pos)
    } else {
        rr_scan(bs, next_pos(bs.len() as int, pos), (fuel - 1) as nat)
    }
}

/// What round-robin selects when the cursor stands at `cur`: the first
/// non-maintenance backend in cyclic order, or nothing after a full cycle.
pub open spec fn rr_pick(bs: Seq<Backend>, cur: int) -> Option<int> {
    rr_scan(bs, cur, bs.len())
}

/// What least-connections selects: `i` is not in maintenance, its active
/// count is minimal among non-maintenance backends, and every earlier
/// non-maintenance backend is strictly busier, so ties fall to the lowest
/// pool index.
pub open spec fn is_least_loaded_choice(bs: Seq<Backend>, i: int) -> bool {
    &&& 0 <= i < bs.len()
    &&& !bs[i].maintenance
    &&& forall|j: int|
        0 <= j < bs.len() && !bs[j].maintenance ==> bs[i].active_connections
            <= bs[j].active_connections
    &&& forall|j: int|
        0 <= j < i && !bs[j].maintenance ==> bs[j].active_connections > bs[i].active_connections
}

/// On a valid cursor, `pos_after` has this closed form: add `k`, subtracting
/// one full cycle if the sum runs past the end.
pub proof fn lemma_pos_after_closed_form(n: int, p: int, k: nat)
    requires
        0 < n,
        0 <= p < n,
        k <= n,
    ensures
        pos_after(n, p, k) == if p + k < n {
            p + k
        } else {
            p + k - n
        },
    decreases k,
{
    if k > 0 {
        lemma_pos_after_closed_form(n, p, (k - 1) as nat);
    }
}

/// Stepping once and then `k` times is stepping `k + 1` times.
proof fn lemma_pos_after_shift(n: int, p: int, k: nat)
    ensures
        pos_after(n, p, (k + 1) as nat) == pos_after(n, next_pos(n, p), k),
    decreases k,
{
    if k == 0 {
        assert(pos_after(n, p, 1) == next_pos(n, pos_after(n, p, 0)));
    } else {
        lemma_pos_after_shift(n, p, (k - 1) as nat);
        assert(pos_after(n, p, (k + 1) as nat) == next_pos(n, pos_after(n, p, k)));
        assert(pos_after(n, next_pos(n, p), k) == next_pos(
            n,
            pos_after(n, next_pos(n, p), (k - 1) as nat),
        ));
    }
}

/// A scan that comes back empty saw only maintenance backends: every
/// position within its fuel is in maintenance.
proof fn lemma_rr_scan_none(bs: Seq<Backend>, pos: int, fuel: nat)
    requires
        rr_scan(bs, pos, fuel) is None,
    ensures
        forall|k: nat| k < fuel ==> bs[pos_after(bs.len() as int, pos, k)].maintenance,
    decreases fuel,
{
    if fuel > 0 {
        let n = bs.len() as int;
        lemma_rr_scan_none(bs, next_pos(n, pos), (fuel - 1) as nat);
        assert forall|k: nat| k < fuel implies bs[pos_after(n, pos, k)].maintenance by {
            if k > 0 {
                lemma_pos_after_shift(n, pos, (k - 1) as nat);
                assert(bs[pos_after(n, next_pos(n, pos), (k - 1) as nat)].maintenance);
            }
        }
    }
}

/// When every backend is in maintenance, every scan comes back empty.
proof fn lemma_all_maintenance_scan_none(bs: Seq<Backend>, pos: int, fuel: nat)
    requires
        0 < bs.len(),
        0 <= pos < bs.len(),
        all_in_maintenance(bs),
    ensures
        rr_scan(bs, pos, fuel) is None,
    decreases fuel,
{
    if fuel > 0 {
        lemma_all_maintenance_scan_none(bs, next_pos(bs.len() as int, pos), (fuel - 1) as nat);
    }
}

/// Round-robin comes back empty exactly when the whole pool is in
/// maintenance: a full-cycle scan reaches every backend.
pub proof fn lemma_rr_pick_none_iff_all_maintenance(bs: Seq<Backend>, cur: int)
    requires
        0 < bs.len(),
        0 <= cur < bs.len(),
    ensures
        rr_pick(bs, cur) is None <==> all_in_maintenance(bs),
{
    let n = bs.len() as int;
    if rr_pick(bs, cur) is None {
        lemma_rr_scan_none(bs, cur, bs.len());
        assert forall|i: int| 0 <= i < n implies bs[i].maintenance by {
            let k: nat = if i >= cur {
                (i - cur) as nat
            } else {
                (i - cur + n) as nat
            };
            lemma_pos_after_closed_form(n, cur, k);
            assert(bs[pos_after(n, cur, k)].maintenance);
        }
    } else {
        if all_in_maintenance(bs) {
            lemma_all_maintenance_scan_none(bs, cur, bs.len());
        }
    }
}

/// A non-empty scan result is the first eligible position: some `k` steps
/// away, itself not in maintenance, and every position stepped past on the
/// way there is in maintenance.
proof fn lemma_rr_scan_finds_first(bs: Seq<Backend>, pos: int, fuel: nat)
    requires
        rr_scan(bs, pos, fuel) is Some,
    ensures
        exists|k: nat|
            k < fuel && rr_scan(bs, pos, fuel) == Some(pos_after(bs.len() as int, pos, k)) && !bs[(
            #[trigger] pos_after(bs.len() as int, pos, k))].maintenance && (forall|j: nat|
                j < k ==> bs[pos_after(bs.len() as int, pos, j)].maintenance),
    decreases fuel,
{
    let n = bs.len() as int;
    if !bs[pos].maintenance {
        assert(pos_after(n, pos, 0) == pos);
        assert(rr_scan(bs, pos, fuel) == Some(pos_after(n, pos, 0)) && !bs[pos_after(
            n,
            pos,
            0,
        )].maintenance && (forall|j: nat| j < 0 ==> bs[pos_after(n, pos, j)].maintenance));
    } else {
        lemma_rr_scan_finds_first(bs, next_pos(n, pos), (fuel - 1) as nat);
        let k0 = choose|k0: nat|
            k0 < (fuel - 1) as nat && rr_scan(bs, next_pos(n, pos), (fuel - 1) as nat) == Some(
                pos_after(n, next_pos(n, pos), k0),
            ) && !bs[(#[trigger] pos_after(n, next_pos(n, pos), k0))].maintenance && (forall|j: nat|
                j < k0 ==> bs[pos_after(n, next_pos(n, pos), j)].maintenance);
        let k = (k0 + 1) as nat;
        lemma_pos_after_shift(n, pos, k0);
        assert(pos_after(n, pos, k) == pos_after(n, next_pos(n, pos), k0));
        assert forall|j: nat| j < k implies bs[pos_after(n, pos, j)].maintenance by {
            if j > 0 {
                lemma_pos_after_shift(n, pos, (j - 1) as nat);
                assert(bs[pos_after(n, next_pos(n, pos), (j - 1) as nat)].maintenance);
            }
        }
        assert(k < fuel && rr_scan(bs, pos, fuel) == Some(pos_after(n, pos, k)) && !bs[pos_after(
            n,
            pos,
            k,
        )].maintenance && (forall|j: nat| j < k ==> bs[pos_after(n, pos, j)].maintenance));
    }
}

/// The skip discipline of round-robin, in full: a pick is the first
/// non-maintenance backend in cyclic order from the cursor — every backend
/// the cursor advanced past to reach it is in maintenance, and the pick
/// itself is not.
pub proof fn lemma_rr_pick_skips_only_maintenance(bs: Seq<Backend>, cur: int)
    requires
        0 < bs.len(),
        0 <= cur < bs.len(),
        rr_pick(bs, cur) is Some,
    ensures
        exists|k: nat|
            k < bs.len() && rr_pick(bs, cur) == Some(pos_after(bs.len() as int, cur, k)) && !bs[(
            #[trigger] pos_after(bs.len() as int, cur, k))].maintenance && (forall|j: nat|
                j < k ==> bs[pos_after(bs.len() as int, cur, j)].maintenance),
{
    lemma_rr_scan_finds_first(bs, cur, bs.len());
}

/// In a pool with no backend in maintenance, round-robin run for one full
/// cycle visits every backend exactly once, in rotating order: the pick made
/// after `k` cursor steps is the position `k` places past the starting
/// cursor, and the picks of one cycle are pairwise distinct.
pub proof fn lemma_round_robin_full_cycle(bs: Seq<Backend>, cur: int)
    requires
        0 < bs.len(),
        0 <= cur < bs.len(),
        forall|i: int| 0 <= i < bs.len() ==> !bs[i].maintenance,
    ensures
        forall|k: nat|
            k < bs.len() ==> #[trigger] rr_pick(bs, pos_after(bs.len() as int, cur, k)) == Some(
                pos_after(bs.len() as int, cur, k),
            ),
        forall|j: nat, k: nat|
            j < k < bs.len() ==> pos_after(bs.len() as int, cur, j) != pos_after(
                bs.len() as int,
                cur,
                k,
            ),
{
    let n = bs.len() as int;
    assert forall|k: nat| k < bs.len() implies #[trigger] rr_pick(bs, pos_after(n, cur, k)) == Some(
        pos_after(n, cur, k),
    ) by {
        lemma_pos_after_closed_form(n, cur, k);
        let p = pos_after(n, cur, k);
        assert(0 <= p < n);
        assert(rr_scan(bs, p, bs.len()) == Some(p));
    }
    assert forall|j: nat, k: nat| j < k < bs.len() implies pos_after(n, cur, j) != pos_after(
        n,
        cur,
        k,
    ) by {
        lemma_pos_after_closed_form(n, cur, j);
        lemma_pos_after_closed_form(n, cur, k);
    }
}

/// The ordered pool of backends, the round-robin cursor, and the strategy.
pub struct LoadBalancer {
    pub backends: Vec<Backend>,
    pub current: usize,
    pub strategy: Strategy,
}

impl LoadBalancer {
    /// The cursor always stands on a valid index while the pool is
    /// non-empty; the pool's size is fixed after construction.
    pub open spec fn wf(self) -> bool {
        self.backends@.len() == 0 || self.current < self.backends@.len()
    }

    /// A pool with one fresh backend per address, in the given order, the
    /// cursor at the front, and the given strategy.
    pub fn new(addresses: Vec<String>, strategy: Strategy) -> (r: LoadBalancer)
        ensures
            r.wf(),
            r.backends@.len() == addresses@.len(),
            forall|i: int|
                0 <= i < addresses@.len() ==> {
                    &&& (#[trigger] r.backends@[i]).address == addresses@[i]
                    &&& r.backends@[i].active_connections == 0
                    &&& r.backends@[i].total_handled == 0
                    &&& !r.backends@[i].maintenance
                },
            r.current == 0,
            r.strategy == strategy,
    {
        let mut backends: Vec<Backend> = Vec::new();
        let n = addresses.len();
        let mut i: usize = 0;
        while i < n
            invariant
                n == addresses@.len(),
                i <= n,
                backends@.len() == i,
                forall|j: int|
                    0 <= j < i ==> {
                        &&& (#[trigger] backends@[j]).address == addresses@[j]
                        &&& backends@[j].active_connections == 0
                        &&& backends@[j].total_handled == 0
                        &&& !backends@[j].maintenance
                    },
            decreases n - i,
        {
            backends.push(Backend::new(addresses[i].clone()));
            i = i + 1;
        }
        LoadBalancer { backends, current: 0, strategy }
    }

    /// Select a backend under the configured strategy. The result is the
    /// pool index of the chosen backend, the caller's handle to it; it is
    /// empty exactly when the pool is empty or wholly in maintenance, and a
    /// chosen backend is never in maintenance. Round-robin advances the
    /// cursor one step past the chosen backend (through every skipped one);
    /// least-connections leaves it alone. Selection never touches the
    /// backends themselves.
    pub fn next_backend(&mut self) -> (r: Option<usize>)
        requires
            old(self).wf(),
        ensures
            final(self).wf(),
            final(self).backends@ == old(self).backends@,
            final(self).strategy == old(self).strategy,
            r is None <==> all_in_maintenance(old(self).backends@),
            r matches Some(i) ==> i < old(self).backends@.len() && !old(self).backends@[i as int].maintenance,
            old(self).strategy == Strategy::RoundRobin ==> match r {
                Some(i) => rr_pick(old(self).backends@, old(self).current as int) == Some(i as int)
                    && final(self).current as int == next_pos(
                    old(self).backends@.len() as int,
                    i as int,
                ),
                None => final(self).current == old(self).current,
            },
            old(self).strategy == Strategy::LeastConnections ==> final(self).current == old(self).current && (r matches Some(i) ==> is_least_loaded_choice(
                old(self).backends@,
                i as int,
            )),
    {
        if self.backends.len() == 0 {
            return None;
        }
        match self.strategy {
            Strategy::RoundRobin => self.round_robin(),
            Strategy::LeastConnections => self.least_connections(),
        }
    }

    /// One full cyclic scan from the cursor: examine at most `n` candidates,
    /// advancing the cursor past each examined one, and return the first not
    /// in maintenance.
    fn round_robin(&mut self) -> (r: Option<usize>)
        requires
            old(self).wf(),
            old(self).backends@.len() > 0,
        ensures
            final(self).wf(),
            final(self).backends@ == old(self).backends@,
            final(self).strategy == old(self).strategy,
            r is None <==> all_in_maintenance(old(self).backends@),
            match r {
                Some(i) => rr_pick(old(self).backends@, old(self).current as int) == Some(i as int)
                    && i < old(self).backends@.len() && !old(self).backends@[i as int].maintenance
                    && final(self).current as int == next_pos(
                    old(self).backends@.len() as int,
                    i as int,
                ),
                None => final(self).current == old(self).current,
            },
    {
        let n = self.backends.len();
        let ghost bs = self.backends@;
        let ghost cur0 = self.current as int;
        let mut steps: usize = 0;
        while steps < n
            invariant
                bs == old(self).backends@,
                cur0 == old(self).current as int,
                0 <= cur0 < n,
                self.backends@ == bs,
                self.strategy == old(self).strategy,
                n == bs.len(),
                0 < n,
                steps <= n,
                self.current < n,
                self.current as int == pos_after(n as int, cur0, steps as nat),
                rr_scan(bs, cur0, n as nat) == rr_scan(
                    bs,
                    self.current as int,
                    (n - steps) as nat,
                ),
            decreases n - steps,
        {
            let idx = self.current;
            proof {
                if idx + 1 == n {
                    lemma_mod_self_0(n as int);
                } else {
                    lemma_small_mod((idx + 1) as nat, n as nat);
                }
            }
            self.current = (self.current + 1) % n;
            assert(self.current as int == next_pos(n as int, idx as int));
            if !self.backends[idx].maintenance {
                proof {
                    assert(rr_scan(bs, idx as int, (n - steps) as nat) == Some(idx as int));
                    lemma_rr_pick_none_iff_all_maintenance(bs, cur0);
                }
                return Some(idx);
            }
            proof {
                lemma_pos_after_shift(n as int, cur0, steps as nat);
            }
            steps = steps + 1;
        }
        proof {
            assert(rr_pick(bs, cur0) is None);
            lemma_rr_pick_none_iff_all_maintenance(bs, cur0);
            lemma_pos_after_closed_form(n as int, cur0, n as nat);
        }
        None
    }

    /// Scan the whole pool and return the non-maintenance backend with the
    /// fewest active connections, the earliest such on a tie.
    fn least_connections(&self) -> (r: Option<usize>)
        ensures
            r is None <==> all_in_maintenance(self.backends@),
            r matches Some(i) ==> is_least_loaded_choice(self.backends@, i as int),
    {
        let n = self.backends.len();
        let mut best: Option<usize> = None;
        let mut i: usize = 0;
        while i < n
            invariant
                n == self.backends@.len(),
                i <= n,
                match best {
                    Some(b) => b < i && !self.backends@[b as int].maintenance && (forall|j: int|
                        0 <= j < i && !(#[trigger] self.backends@[j]).maintenance
                            ==> self.backends@[b as int].active_connections
                            <= self.backends@[j].active_connections) && (forall|j: int|
                        0 <= j < b && !(#[trigger] self.backends@[j]).maintenance
                            ==> self.backends@[j].active_connections
                            > self.backends@[b as int].active_connections),
                    None => forall|j: int| 0 <= j < i ==> (#[trigger] self.backends@[j]).maintenance,
                },
            decreases n - i,
        {
            if !self.backends[i].maintenance {
                match best {
                    None => { best = Some(i) },
                    Some(b) => {
                        if self.backends[i].active_connections
                            < self.backends[b].active_connections {
                            best = Some(i);
                        }
                    },
                }
            }
            i = i + 1;
        }
        best
    }

    /// The whole pool, read-only.
    pub fn backends(&self) -> (r: &Vec<Backend>)
        ensures
            r@ == self.backends@,
    {
        &self.backends
    }

    /// Mutable access to one backend by its index handle: for assignment
    /// and release, and for an outside collaborator to toggle maintenance.
    /// The rest of the pool and the cursor stay as they are.
    pub fn backend_mut(&mut self, i: usize) -> (b: &mut Backend)
        requires
            i < old(self).backends@.len(),
        ensures
            *b == old(self).backends@[i as int],
            final(self).backends@ == old(self).backends@.update(i as int, *final(b)),
            final(self).current == old(self).current,
            final(self).strategy == old(self).strategy,
    {
        &mut self.backends[i]
    }

    /// A read-only snapshot of every backend's state, for status reporting:
    /// element by element equal to the pool at the moment of the call.
    pub fn log_status(&self) -> (r: Vec<Backend>)
        ensures
            r@.len() == self.backends@.len(),
            forall|i: int| 0 <= i < r@.len() ==> r@[i] == self.backends@[i],
    {
        let n = self.backends.len();
        let mut snapshot: Vec<Backend> = Vec::new();
        let mut i: usize = 0;
        while i < n
            invariant
                n == self.backends@.len(),
                i <= n,
                snapshot@.len() == i,
                forall|j: int| 0 <= j < i ==> snapshot@[j] == self.backends@[j],
            decreases n - i,
        {
            let b = &self.backends[i];
            snapshot.push(
                Backend {
                    address: b.address.clone(),
                    active_connections: b.active_connections,
                    total_handled: b.total_handled,
                    maintenance: b.maintenance,
                },
            );
            i = i + 1;
        }
        snapshot
    }
}

} // verus!
