//! The pool of relayed ports: which ports of the configured range are free,
//! which client holds each of the others, and toward which peer it relays.

use crate::address::Address;
use vstd::prelude::*;

verus! {

/// The lowest port of the range used when nothing else is configured.
pub const DEFAULT_PORT_MIN: u16 = 49152;

/// The highest port of the range used when nothing else is configured.
pub const DEFAULT_PORT_MAX: u16 = 65535;

/// How many ports the default range holds.
pub fn capacity() -> (count: usize)
    ensures
        count == DEFAULT_PORT_MAX - DEFAULT_PORT_MIN + 1,
{
    (DEFAULT_PORT_MAX - DEFAULT_PORT_MIN) as usize + 1
}

/// Who holds a port, and the peer on the far side of the relay once one has
/// been bound.
#[derive(Clone, Copy, Debug, PartialEq, Eq)]
pub struct Lease {
    pub owner: Address,
    pub peer: Option<Address>,
}

/// Why the pool refused.
#[derive(Clone, Copy, Debug, PartialEq, Eq, Structural)]
pub enum PortError {
    /// No port of the range is free.
    NoCapacity,
    /// The port is not held by the client that asked.
    NotOwned,
}

/// A pool as mathematical values: its range and the ports that are held.
pub struct PortPoolView {
    pub lo: u16,
    pub hi: u16,
    pub leases: Map<u16, Lease>,
}

impl PortPoolView {
    /// Only ports of the range are held.
    pub open spec fn wf(self) -> bool {
        forall|port: u16| self.leases.contains_key(port) ==> self.lo <= port <= self.hi
    }

    /// Whether `port` is of the range and held by nobody.
    pub open spec fn is_free(self, port: u16) -> bool {
        self.lo <= port <= self.hi && !self.leases.contains_key(port)
    }

    /// The ports that are free.
    pub open spec fn free_set(self) -> Set<u16> {
        Set::new(|port: u16| self.is_free(port))
    }

    /// Whether `port` is the lowest free port.
    pub open spec fn is_lowest_free(self, port: u16) -> bool {
        self.is_free(port) && forall|other: u16| self.is_free(other) ==> port <= other
    }

    /// The lowest free port, if a port is free.
    pub open spec fn lowest_free(self) -> Option<u16> {
        if exists|port: u16| self.is_lowest_free(port) {
            Some(choose|port: u16| self.is_lowest_free(port))
        } else {
            None
        }
    }

    /// Whether `owner` holds `port`.
    pub open spec fn holds(self, owner: Address, port: u16) -> bool {
        self.leases.contains_key(port) && self.leases[port].owner == owner
    }

    /// Whether `owner` holds `port` and relays through it toward `peer`.
    pub open spec fn relays(self, owner: Address, port: u16, peer: Address) -> bool {
        self.holds(owner, port) && self.leases[port].peer == Some(peer)
    }

    /// The pool after `owner` has been given `port`.
    pub open spec fn allocated(self, owner: Address, port: u16) -> PortPoolView {
        PortPoolView { leases: self.leases.insert(port, Lease { owner, peer: None }), ..self }
    }

    /// The pool after `owner` has bound `port` toward `peer`.
    pub open spec fn bound(self, owner: Address, port: u16, peer: Address) -> PortPoolView {
        PortPoolView { leases: self.leases.insert(port, Lease { owner, peer: Some(peer) }), ..self }
    }

    /// The pool after everything that `owner` holds has been given back.
    pub open spec fn released(self, owner: Address) -> PortPoolView {
        PortPoolView {
            leases: Map::new(
                |port: u16| self.leases.contains_key(port) && self.leases[port].owner != owner,
                |port: u16| self.leases[port],
            ),
            ..self
        }
    }
}

/// Giving back what a client holds, right after it was given its only
/// port, leaves the pool as it was: the same ports are free again.
pub proof fn law_allocate_then_release(pool: PortPoolView, owner: Address, port: u16)
    requires
        pool.is_free(port),
        forall|other: u16| !pool.holds(owner, other),
    ensures
        pool.allocated(owner, port).released(owner).leases == pool.leases,
        pool.allocated(owner, port).released(owner).free_set() == pool.free_set(),
        pool.allocated(owner, port).released(owner) == pool,
{
    let after = pool.allocated(owner, port).released(owner);
    assert forall|other: u16| pool.leases.contains_key(other) implies pool.leases[other].owner
        != owner by {
        assert(!pool.holds(owner, other));
    }
    assert(after.leases =~= pool.leases);
    assert(after.free_set() =~= pool.free_set());
}

/// There is one lowest free port at most, and there is one as soon as a
/// port is free.
pub proof fn lemma_lowest_free(pool: PortPoolView)
    ensures
        forall|port: u16| pool.is_lowest_free(port) ==> pool.lowest_free() == Some(port),
        pool.lowest_free() is None <==> forall|port: u16| !pool.is_free(port),
{
    assert forall|port: u16| pool.is_lowest_free(port) implies pool.lowest_free() == Some(
        port,
    ) by {
        let other = choose|other: u16| pool.is_lowest_free(other);
        assert(pool.is_free(other) && pool.is_free(port));
    }
    if exists|port: u16| pool.is_free(port) {
        let some = choose|port: u16| pool.is_free(port);
        lemma_least_free_from(pool, some, some);
    }
}

/// Below a free port, from `from` down, there is a lowest free port.
proof fn lemma_least_free_from(pool: PortPoolView, best: u16, from: u16)
    requires
        pool.is_free(best),
        from <= best,
        forall|port: u16| from <= port < best ==> !pool.is_free(port),
    ensures
        exists|port: u16| pool.is_lowest_free(port),
    decreases from,
{
    if from == 0 {
        assert(pool.is_lowest_free(best));
    } else {
        let below: u16 = (from - 1) as u16;
        if pool.is_free(below) {
            lemma_least_free_from(pool, below, below);
        } else {
            lemma_least_free_from(pool, best, below);
        }
    }
}

/// After a release nothing is held by the client that released.
pub proof fn law_released_holds_nothing(pool: PortPoolView, owner: Address)
    ensures
        forall|port: u16| !pool.released(owner).holds(owner, port),
        forall|other: Address, port: u16|
            other != owner ==> (#[trigger] pool.released(owner).holds(other, port) == pool.holds(
                other,
                port,
            )),
{
}

/// The pool of relayed ports.
pub struct PortPool {
    lo: u16,
    hi: u16,
    /// One place for each port of the range, in ascending order.
    slots: Vec<Option<Lease>>,
    /// The free ports in descending order, so that the lowest is taken
    /// from the end.
    free: Vec<u16>,
}

impl View for PortPool {
    type V = PortPoolView;

    closed spec fn view(&self) -> PortPoolView {
        PortPoolView {
            lo: self.lo,
            hi: self.hi,
            leases: Map::new(
                |port: u16|
                    self.lo <= port <= self.hi && port - self.lo < self.slots@.len()
                        && self.slots@[port - self.lo] is Some,
                |port: u16| self.slots@[port - self.lo]->Some_0,
            ),
        }
    }
}

impl PortPool {
    /// What holds of the pool between any two operations: there is a place
    /// for each port of the range, and the free list names exactly the
    /// free ports, the lowest last.
    pub closed spec fn wf(&self) -> bool {
        &&& self.slots@.len() == (if self.lo <= self.hi {
            self.hi - self.lo + 1
        } else {
            0
        })
        &&& forall|i: int, j: int|
            0 <= i < j < self.free@.len() ==> #[trigger] self.free@[i] > #[trigger] self.free@[j]
        &&& forall|port: u16| self.free@.contains(port) <==> self@.is_free(port)
    }

    /// A pool over the ports from `lo` to `hi`, both included, all of them
    /// free. With `lo` above `hi` the pool has no port at all.
    pub fn new(lo: u16, hi: u16) -> (pool: PortPool)
        ensures
            pool.wf(),
            pool@.wf(),
            pool@.lo == lo,
            pool@.hi == hi,
            pool@.leases == Map::<u16, Lease>::empty(),
    {
        let mut slots: Vec<Option<Lease>> = Vec::new();
        let mut free: Vec<u16> = Vec::new();
        if lo <= hi {
            let count: usize = (hi - lo) as usize + 1;
            let mut i: usize = 0;
            while i < count
                invariant
                    lo <= hi,
                    count == hi - lo + 1,
                    i <= count,
                    slots@.len() == i,
                    free@.len() == i,
                    forall|k: int| 0 <= k < i ==> slots@[k] is None,
                    forall|k: int| 0 <= k < i ==> #[trigger] free@[k] == hi - k,
                decreases count - i,
            {
                slots.push(None);
                free.push((hi as usize - i) as u16);
                i += 1;
            }
        }
        let pool = PortPool { lo, hi, slots, free };
        assert(pool@.leases =~= Map::<u16, Lease>::empty());
        assert forall|port: u16| pool.free@.contains(port) <==> pool@.is_free(port) by {
            if pool@.is_free(port) {
                assert(pool.free@[hi - port] == port);
            }
        }
        pool
    }

    /// The pool over the default range.
    pub fn with_default_range() -> (pool: PortPool)
        ensures
            pool.wf(),
            pool@.wf(),
            pool@.lo == DEFAULT_PORT_MIN,
            pool@.hi == DEFAULT_PORT_MAX,
            pool@.leases == Map::<u16, Lease>::empty(),
    {
        PortPool::new(DEFAULT_PORT_MIN, DEFAULT_PORT_MAX)
    }

    /// Gives `owner` the lowest free port, or refuses with `NoCapacity`
    /// where none is free.
    pub fn allocate(&mut self, owner: &Address) -> (got: Result<u16, PortError>)
        requires
            old(self).wf(),
        ensures
            final(self).wf(),
            match got {
                Ok(port) => old(self)@.is_lowest_free(port) && final(self)@ == old(self)@.allocated(
                    *owner,
                    port,
                ),
                Err(e) => e == PortError::NoCapacity && (forall|port: u16|
                    !old(self)@.is_free(port)) && final(self)@ == old(self)@,
            },
            old(self)@.wf() ==> final(self)@.wf(),
    {
        let ghost before = *self;
        match self.free.pop() {
            Some(port) => {
                assert(before.free@.contains(port)) by {
                    assert(before.free@[before.free@.len() - 1] == port);
                }
                assert(before@.is_free(port));
                assert forall|other: u16| before@.is_free(other) implies port <= other by {
                    assert(before.free@.contains(other));
                    let k = choose|k: int| 0 <= k < before.free@.len() && before.free@[k] == other;
                    if k < before.free@.len() - 1 {
                        assert(before.free@[k] > before.free@[before.free@.len() - 1]);
                    }
                }
                self.slots.set((port - self.lo) as usize, Some(Lease { owner: *owner, peer: None }));
                assert(self@.leases =~= before@.allocated(*owner, port).leases);
                assert forall|other: u16| self.free@.contains(other) <==> self@.is_free(other) by {
                    let last = before.free@.len() - 1;
                    assert(before.free@[last] == port);
                    assert(self@.leases.contains_key(port));
                    if self.free@.contains(other) {
                        let k = choose|k: int| 0 <= k < self.free@.len() && self.free@[k] == other;
                        assert(before.free@[k] == other);
                        assert(before.free@[k] > before.free@[last]);
                        assert(before.free@.contains(other));
                        assert(before@.is_free(other));
                        assert(other != port);
                        assert(!self@.leases.contains_key(other));
                    }
                    if self@.is_free(other) {
                        assert(other != port);
                        assert(!before@.leases.contains_key(other));
                        assert(before@.is_free(other));
                        assert(before.free@.contains(other));
                        let k = choose|k: int|
                            0 <= k < before.free@.len() && before.free@[k] == other;
                        assert(k != last);
                        assert(self.free@[k] == other);
                    }
                }
                assert forall|i: int, j: int| 0 <= i < j < self.free@.len() implies #[trigger]
                    self.free@[i] > #[trigger] self.free@[j] by {
                    assert(before.free@[i] > before.free@[j]);
                }
                Ok(port)
            },
            None => {
                assert forall|port: u16| !before@.is_free(port) by {
                    assert(!before.free@.contains(port));
                }
                assert(self.free@ =~= before.free@);
                assert(self.slots@ == before.slots@);
                assert(self@ == before@);
                assert forall|port: u16| self.free@.contains(port) <==> self@.is_free(port) by {
                    assert(before.free@.contains(port) <==> before@.is_free(port));
                }
                Err(PortError::NoCapacity)
            },
        }
    }
}

impl PortPool {
    /// The lease on `port`, if it is held.
    pub fn lease(&self, port: u16) -> (found: Option<Lease>)
        requires
            self.wf(),
        ensures
            found == if self@.leases.contains_key(port) {
                Some(self@.leases[port])
            } else {
                None
            },
    {
        if self.lo <= port && port <= self.hi {
            self.slots[(port - self.lo) as usize]
        } else {
            None
        }
    }

    /// Records that `owner` relays through `port` toward `peer`, in place
    /// of any peer recorded before; refuses with `NotOwned` unless `owner`
    /// holds `port`.
    pub fn bind(&mut self, owner: &Address, port: u16, peer: &Address) -> (done: Result<
        (),
        PortError,
    >)
        requires
            old(self).wf(),
        ensures
            final(self).wf(),
            match done {
                Ok(_) => old(self)@.holds(*owner, port) && final(self)@ == old(self)@.bound(
                    *owner,
                    port,
                    *peer,
                ),
                Err(e) => e == PortError::NotOwned && !old(self)@.holds(*owner, port)
                    && final(self)@ == old(self)@,
            },
            old(self)@.wf() ==> final(self)@.wf(),
    {
        match self.lease(port) {
            Some(lease) => {
                if lease.owner == *owner {
                    let ghost before = *self;
                    self.slots.set(
                        (port - self.lo) as usize,
                        Some(Lease { owner: *owner, peer: Some(*peer) }),
                    );
                    assert(self@.leases =~= before@.bound(*owner, port, *peer).leases);
                    assert forall|other: u16| self.free@.contains(other) <==> self@.is_free(
                        other,
                    ) by {
                        assert(before.free@.contains(other) <==> before@.is_free(other));
                        assert(self@.leases.contains_key(other) == before@.leases.contains_key(
                            other,
                        ));
                    }
                    Ok(())
                } else {
                    Err(PortError::NotOwned)
                }
            },
            None => Err(PortError::NotOwned),
        }
    }

    /// The client that holds `port` and the peer it relays toward, where
    /// both are recorded.
    pub fn resolve_port(&self, port: u16) -> (found: Option<(Address, Address)>)
        requires
            self.wf(),
        ensures
            match found {
                Some((owner, peer)) => self@.relays(owner, port, peer),
                None => forall|owner: Address, peer: Address| !self@.relays(owner, port, peer),
            },
    {
        match self.lease(port) {
            Some(lease) => match lease.peer {
                Some(peer) => Some((lease.owner, peer)),
                None => None,
            },
            None => None,
        }
    }

    /// The lowest port through which `owner` relays toward `peer`, if
    /// there is one.
    pub fn resolve(&self, owner: &Address, peer: &Address) -> (found: Option<u16>)
        requires
            self.wf(),
        ensures
            match found {
                Some(port) => self@.relays(*owner, port, *peer) && forall|other: u16|
                    self@.relays(*owner, other, *peer) ==> port <= other,
                None => forall|port: u16| !self@.relays(*owner, port, *peer),
            },
    {
        let mut i: usize = 0;
        while i < self.slots.len()
            invariant
                self.wf(),
                i <= self.slots@.len(),
                forall|port: u16|
                    self.lo <= port < self.lo + i ==> !self@.relays(*owner, port, *peer),
            decreases self.slots.len() - i,
        {
            let port: u16 = (self.lo as usize + i) as u16;
            match self.slots[i] {
                Some(lease) => {
                    if lease.owner == *owner {
                        match lease.peer {
                            Some(p) => {
                                if p == *peer {
                                    assert(self@.relays(*owner, port, *peer));
                                    return Some(port);
                                }
                            },
                            None => {},
                        }
                    }
                },
                None => {},
            }
            assert(!self@.relays(*owner, port, *peer));
            i += 1;
        }
        None
    }
}

impl PortPool {
    /// Gives the held port `port` back to the free ports.
    fn put_back(&mut self, port: u16)
        requires
            old(self).wf(),
            old(self)@.leases.contains_key(port),
        ensures
            final(self).wf(),
            final(self)@.lo == old(self)@.lo,
            final(self)@.hi == old(self)@.hi,
            final(self)@.leases == old(self)@.leases.remove(port),
    {
        let ghost before = *self;
        self.slots.set((port - self.lo) as usize, None);
        assert(self@.leases =~= before@.leases.remove(port));
        assert(!before.free@.contains(port)) by {
            assert(!before@.is_free(port));
        }
        let mut at: usize = self.free.len();
        while at > 0 && self.free[at - 1] < port
            invariant
                at <= self.free@.len(),
                self.free@ == before.free@,
                forall|k: int| at <= k < self.free@.len() ==> #[trigger] self.free@[k] < port,
            decreases at,
        {
            at -= 1;
        }
        assert(at > 0 ==> self.free@[at - 1] > port) by {
            if at > 0 {
                assert(before.free@.contains(before.free@[at - 1]));
            }
        }
        self.free.insert(at, port);
        assert forall|i: int, j: int| 0 <= i < j < self.free@.len() implies #[trigger]
            self.free@[i] > #[trigger] self.free@[j] by {
            let i0 = if i < at { i } else { i - 1 };
            let j0 = if j < at { j } else { j - 1 };
            if i != at && j != at {
                assert(before.free@[i0] > before.free@[j0]);
            } else if i == at {
                assert(before.free@[j0] < port);
            } else {
                if i0 < at - 1 {
                    assert(before.free@[i0] > before.free@[at - 1]);
                }
            }
        }
        assert forall|other: u16| self.free@.contains(other) <==> self@.is_free(other) by {
            assert(before.free@.contains(other) <==> before@.is_free(other));
            if self.free@.contains(other) {
                let k = choose|k: int| 0 <= k < self.free@.len() && self.free@[k] == other;
                if k != at {
                    let k0 = if k < at { k } else { k - 1 };
                    assert(before.free@[k0] == other);
                }
            }
            if self@.is_free(other) {
                if other == port {
                    assert(self.free@[at as int] == other);
                } else {
                    let k0 = choose|k: int|
                        0 <= k < before.free@.len() && before.free@[k] == other;
                    let k = if k0 < at { k0 } else { k0 + 1 };
                    assert(self.free@[k] == other);
                }
            }
        }
    }

    /// Gives back every port that `owner` holds, with what was bound
    /// through it.
    pub fn release_all(&mut self, owner: &Address)
        requires
            old(self).wf(),
        ensures
            final(self).wf(),
            final(self)@ == old(self)@.released(*owner),
            old(self)@.wf() ==> final(self)@.wf(),
    {
        let count = self.slots.len();
        let mut i: usize = 0;
        while i < count
            invariant
                self.wf(),
                old(self).wf(),
                count == self.slots@.len(),
                count == old(self).slots@.len(),
                i <= count,
                self@.lo == old(self)@.lo,
                self@.hi == old(self)@.hi,
                self.lo == old(self).lo,
                forall|port: u16|
                    #[trigger] self@.leases.contains_key(port) <==> old(self)@.leases.contains_key(
                        port,
                    ) && (old(self)@.leases[port].owner != *owner || port >= self.lo + i),
                forall|port: u16|
                    self@.leases.contains_key(port) ==> #[trigger] self@.leases[port] == old(
                        self,
                    )@.leases[port],
            decreases count - i,
        {
            let port: u16 = (self.lo as usize + i) as u16;
            let ghost here = *self;
            match self.slots[i] {
                Some(lease) => {
                    assert(here@.leases.contains_key(port));
                    assert(here@.leases[port] == lease);
                    if lease.owner == *owner {
                        self.put_back(port);
                    }
                },
                None => {
                    assert(!here@.leases.contains_key(port));
                },
            }
            i += 1;
        }
        assert(self@.leases =~= old(self)@.released(*owner).leases) by {
            assert forall|port: u16| #[trigger]
                self@.leases.contains_key(port) == old(self)@.released(
                    *owner,
                ).leases.contains_key(port) by {
                if old(self)@.leases.contains_key(port) {
                    assert(port - self.lo < count);
                }
            }
        }
    }
}

} // verus!
