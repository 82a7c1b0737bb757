//! A map from client address to whatever a table keeps for that client,
//! held as a list in the order of the addresses and searched by bisection.

use crate::address::addr_before;
use crate::address::lemma_rank_tells_apart;
use crate::address::Address;
use vstd::prelude::*;

verus! {

/// The addresses stand in strictly ascending order, so none stands twice.
pub open spec fn owners_ascend<T>(list: Seq<(Address, T)>) -> bool {
    forall|i: int, j: int|
        0 <= i < j < list.len() ==> addr_before(#[trigger] list[i].0, #[trigger] list[j].0)
}

/// Whether `addr` is listed.
pub open spec fn lists_owner<T>(list: Seq<(Address, T)>, addr: Address) -> bool {
    exists|i: int| 0 <= i < list.len() && (#[trigger] list[i]).0 == addr
}

/// The place at which `addr` is listed.
pub open spec fn place_of<T>(list: Seq<(Address, T)>, addr: Address) -> int {
    choose|i: int| 0 <= i < list.len() && (#[trigger] list[i]).0 == addr
}

/// The list read as a map.
pub open spec fn as_map<T>(list: Seq<(Address, T)>) -> Map<Address, T> {
    Map::new(|addr: Address| lists_owner(list, addr), |addr: Address| list[place_of(list, addr)].1)
}

/// In an ascending list the map holds at each listed address what stands
/// beside it.
proof fn lemma_as_map_at<T>(list: Seq<(Address, T)>, i: int)
    requires
        owners_ascend(list),
        0 <= i < list.len(),
    ensures
        as_map(list).contains_key(list[i].0),
        as_map(list)[list[i].0] == list[i].1,
        place_of(list, list[i].0) == i,
{
    let j = place_of(list, list[i].0);
    if j < i {
        assert(addr_before(list[j].0, list[i].0));
    } else if i < j {
        assert(addr_before(list[i].0, list[j].0));
    }
}

/// Replacing what stands beside a listed address is the map's `insert`.
proof fn lemma_list_update<T>(list: Seq<(Address, T)>, at: int, value: T)
    requires
        owners_ascend(list),
        0 <= at < list.len(),
    ensures
        owners_ascend(list.update(at, (list[at].0, value))),
        as_map(list.update(at, (list[at].0, value))) == as_map(list).insert(list[at].0, value),
{
    let after = list.update(at, (list[at].0, value));
    assert forall|i: int, j: int| 0 <= i < j < after.len() implies addr_before(
        #[trigger] after[i].0,
        #[trigger] after[j].0,
    ) by {
        assert(after[i].0 == list[i].0);
        assert(after[j].0 == list[j].0);
    }
    assert forall|addr: Address| #[trigger]
        as_map(after).contains_key(addr) == as_map(list).insert(list[at].0, value).contains_key(
            addr,
        ) by {
        if lists_owner(after, addr) {
            let j = place_of(after, addr);
            assert(list[j].0 == addr);
        }
        if lists_owner(list, addr) {
            let j = place_of(list, addr);
            assert(after[j].0 == addr);
        }
        if addr == list[at].0 {
            assert(after[at].0 == addr);
        }
    }
    assert forall|addr: Address| as_map(after).contains_key(addr) implies #[trigger] as_map(
        after,
    )[addr] == as_map(list).insert(list[at].0, value)[addr] by {
        let j = place_of(after, addr);
        lemma_as_map_at(after, j);
        assert(list[j].0 == addr);
        lemma_as_map_at(list, j);
        lemma_as_map_at(list, at);
    }
    assert(as_map(after) =~= as_map(list).insert(list[at].0, value));
}

/// Listing a new address at the place where it belongs is the map's
/// `insert`.
proof fn lemma_list_insert<T>(list: Seq<(Address, T)>, at: int, addr: Address, value: T)
    requires
        owners_ascend(list),
        0 <= at <= list.len(),
        forall|i: int| 0 <= i < at ==> addr_before(#[trigger] list[i].0, addr),
        forall|i: int| at <= i < list.len() ==> addr_before(addr, #[trigger] list[i].0),
    ensures
        owners_ascend(list.insert(at, (addr, value))),
        as_map(list.insert(at, (addr, value))) == as_map(list).insert(addr, value),
{
    let after = list.insert(at, (addr, value));
    assert(after[at] == (addr, value));
    assert forall|i: int, j: int| 0 <= i < j < after.len() implies addr_before(
        #[trigger] after[i].0,
        #[trigger] after[j].0,
    ) by {
        let i0 = if i < at { i } else { i - 1 };
        let j0 = if j < at { j } else { j - 1 };
        if i != at {
            assert(after[i] == list[i0]);
        }
        if j != at {
            assert(after[j] == list[j0]);
        }
    }
    assert forall|other: Address| #[trigger]
        as_map(after).contains_key(other) == as_map(list).insert(addr, value).contains_key(
            other,
        ) by {
        if lists_owner(after, other) {
            let j = place_of(after, other);
            if j != at {
                let k = if j < at { j } else { j - 1 };
                assert(list[k] == after[j]);
            }
        }
        if lists_owner(list, other) {
            let k = place_of(list, other);
            let j = if k < at { k } else { k + 1 };
            assert(after[j] == list[k]);
        }
    }
    assert forall|other: Address| as_map(after).contains_key(other) implies #[trigger] as_map(
        after,
    )[other] == as_map(list).insert(addr, value)[other] by {
        let j = place_of(after, other);
        lemma_as_map_at(after, j);
        if j != at {
            let k = if j < at { j } else { j - 1 };
            assert(list[k] == after[j]);
            lemma_as_map_at(list, k);
        }
    }
    assert(as_map(after) =~= as_map(list).insert(addr, value));
}

/// Striking a listed address is the map's `remove`.
proof fn lemma_list_remove<T>(list: Seq<(Address, T)>, at: int)
    requires
        owners_ascend(list),
        0 <= at < list.len(),
    ensures
        owners_ascend(list.remove(at)),
        as_map(list.remove(at)) == as_map(list).remove(list[at].0),
{
    let after = list.remove(at);
    let addr = list[at].0;
    assert forall|i: int, j: int| 0 <= i < j < after.len() implies addr_before(
        #[trigger] after[i].0,
        #[trigger] after[j].0,
    ) by {
        let i0 = if i < at { i } else { i + 1 };
        let j0 = if j < at { j } else { j + 1 };
        assert(after[i] == list[i0]);
        assert(after[j] == list[j0]);
    }
    assert forall|other: Address| #[trigger]
        as_map(after).contains_key(other) == as_map(list).remove(addr).contains_key(other) by {
        if lists_owner(after, other) {
            let j = place_of(after, other);
            let k = if j < at { j } else { j + 1 };
            assert(list[k] == after[j]);
            if other == addr {
                lemma_as_map_at(list, k);
                lemma_as_map_at(list, at);
            }
        }
        if lists_owner(list, other) && other != addr {
            let k = place_of(list, other);
            let j = if k < at { k } else { k - 1 };
            assert(after[j] == list[k]);
        }
    }
    assert forall|other: Address| as_map(after).contains_key(other) implies #[trigger] as_map(
        after,
    )[other] == as_map(list).remove(addr)[other] by {
        let j = place_of(after, other);
        lemma_as_map_at(after, j);
        let k = if j < at { j } else { j + 1 };
        assert(list[k] == after[j]);
        lemma_as_map_at(list, k);
    }
    assert(as_map(after) =~= as_map(list).remove(addr));
}

/// What a table keeps for each client, by client address.
pub struct OwnerMap<T> {
    entries: Vec<(Address, T)>,
}

impl<T> View for OwnerMap<T> {
    type V = Map<Address, T>;

    closed spec fn view(&self) -> Map<Address, T> {
        as_map(self.entries@)
    }
}

impl<T> OwnerMap<T> {
    /// The list is in order.
    pub closed spec fn wf(&self) -> bool {
        owners_ascend(self.entries@)
    }

    /// The addresses that hold something, in ascending order.
    pub closed spec fn owners(&self) -> Seq<Address> {
        Seq::new(self.entries@.len(), |i: int| self.entries@[i].0)
    }

    /// The addresses listed are those that the map holds, each once.
    pub proof fn lemma_owners(&self)
        requires
            self.wf(),
        ensures
            self.owners().no_duplicates(),
            forall|addr: Address| self.owners().contains(addr) <==> self@.contains_key(addr),
            forall|i: int, j: int|
                0 <= i < j < self.owners().len() ==> addr_before(
                    #[trigger] self.owners()[i],
                    #[trigger] self.owners()[j],
                ),
    {
        assert forall|i: int, j: int|
            0 <= i < self.owners().len() && 0 <= j < self.owners().len() && i
                != j implies self.owners()[i] != self.owners()[j] by {
            if i < j {
                assert(addr_before(self.entries@[i].0, self.entries@[j].0));
            } else {
                assert(addr_before(self.entries@[j].0, self.entries@[i].0));
            }
        }
        assert forall|addr: Address| self.owners().contains(addr) <==> self@.contains_key(
            addr,
        ) by {
            if self.owners().contains(addr) {
                let i = choose|i: int| 0 <= i < self.owners().len() && self.owners()[i] == addr;
                assert(self.entries@[i].0 == addr);
            }
            if self@.contains_key(addr) {
                let i = place_of(self.entries@, addr);
                assert(self.owners()[i] == addr);
            }
        }
        assert forall|i: int, j: int| 0 <= i < j < self.owners().len() implies addr_before(
            #[trigger] self.owners()[i],
            #[trigger] self.owners()[j],
        ) by {
            assert(addr_before(self.entries@[i].0, self.entries@[j].0));
        }
    }

    /// A map that holds nothing.
    pub fn new() -> (table: OwnerMap<T>)
        ensures
            table.wf(),
            table@ == Map::<Address, T>::empty(),
            table.owners().len() == 0,
    {
        let table = OwnerMap { entries: Vec::new() };
        assert(table@ =~= Map::<Address, T>::empty());
        table
    }

    /// How many addresses hold something.
    pub fn len(&self) -> (count: usize)
        ensures
            count == self.owners().len(),
    {
        self.entries.len()
    }

    /// The `i`-th address in ascending order.
    pub fn owner_at(&self, i: usize) -> (addr: Address)
        requires
            i < self.owners().len(),
        ensures
            addr == self.owners()[i as int],
    {
        self.entries[i].0
    }

    /// Looks `addr` up by bisection: its place where it is listed, and else
    /// the place where it would have to stand.
    fn find(&self, addr: &Address) -> (place: (usize, bool))
        requires
            self.wf(),
        ensures
            place.0 <= self.entries@.len(),
            place.1 == self@.contains_key(*addr),
            place.1 ==> place.0 < self.entries@.len() && self.entries@[place.0 as int].0 == *addr,
            !place.1 ==> forall|i: int|
                0 <= i < place.0 ==> addr_before(#[trigger] self.entries@[i].0, *addr),
            !place.1 ==> forall|i: int|
                place.0 <= i < self.entries@.len() ==> addr_before(
                    *addr,
                    #[trigger] self.entries@[i].0,
                ),
    {
        let mut lo: usize = 0;
        let mut hi: usize = self.entries.len();
        while lo < hi
            invariant
                self.wf(),
                lo <= hi <= self.entries@.len(),
                forall|i: int| 0 <= i < lo ==> addr_before(#[trigger] self.entries@[i].0, *addr),
                forall|i: int|
                    hi <= i < self.entries@.len() ==> addr_before(
                        *addr,
                        #[trigger] self.entries@[i].0,
                    ),
            decreases hi - lo,
        {
            let mid = lo + (hi - lo) / 2;
            let here = self.entries[mid].0;
            if here.is_before(addr) {
                assert forall|i: int| 0 <= i < mid + 1 implies addr_before(
                    #[trigger] self.entries@[i].0,
                    *addr,
                ) by {
                    if i < mid {
                        assert(addr_before(self.entries@[i].0, self.entries@[mid as int].0));
                    }
                }
                lo = mid + 1;
            } else if addr.is_before(&here) {
                assert forall|i: int| mid <= i < self.entries@.len() implies addr_before(
                    *addr,
                    #[trigger] self.entries@[i].0,
                ) by {
                    if i > mid {
                        assert(addr_before(self.entries@[mid as int].0, self.entries@[i].0));
                    }
                }
                hi = mid;
            } else {
                proof {
                    lemma_rank_tells_apart(here, *addr);
                }
                return (mid, true);
            }
        }
        proof {
            if lists_owner(self.entries@, *addr) {
                let i = place_of(self.entries@, *addr);
                if i < lo {
                    assert(addr_before(self.entries@[i].0, *addr));
                } else {
                    assert(addr_before(*addr, self.entries@[i].0));
                }
            }
        }
        (lo, false)
    }

    /// Whether something is held for `addr`.
    pub fn contains(&self, addr: &Address) -> (held: bool)
        requires
            self.wf(),
        ensures
            held == self@.contains_key(*addr),
    {
        self.find(addr).1
    }

    /// What is held for `addr`, if anything.
    pub fn get(&self, addr: &Address) -> (found: Option<&T>)
        requires
            self.wf(),
        ensures
            found.is_some() == self@.contains_key(*addr),
            found matches Some(value) ==> *value == self@[*addr],
    {
        let (at, held) = self.find(addr);
        if held {
            proof {
                lemma_as_map_at(self.entries@, at as int);
            }
            Some(&self.entries[at].1)
        } else {
            None
        }
    }

    /// Holds `value` for `addr`, in place of what was held for it, which is
    /// handed back.
    pub fn insert(&mut self, addr: Address, value: T) -> (prev: Option<T>)
        requires
            old(self).wf(),
        ensures
            final(self).wf(),
            final(self)@ == old(self)@.insert(addr, value),
            prev.is_some() == old(self)@.contains_key(addr),
            prev matches Some(p) ==> p == old(self)@[addr],
            old(self)@.contains_key(addr) ==> final(self).owners() == old(self).owners(),
    {
        let (at, held) = self.find(&addr);
        if held {
            proof {
                lemma_as_map_at(self.entries@, at as int);
                lemma_list_update(self.entries@, at as int, value);
            }
            let mut prev = value;
            std::mem::swap(&mut self.entries[at].1, &mut prev);
            assert(self.entries@ =~= old(self).entries@.update(at as int, (addr, value)));
            assert(self.owners() =~= old(self).owners());
            Some(prev)
        } else {
            proof {
                lemma_list_insert(self.entries@, at as int, addr, value);
            }
            self.entries.insert(at, (addr, value));
            None
        }
    }

    /// Lets go of what is held for `addr` and hands it back.
    pub fn remove(&mut self, addr: &Address) -> (prev: Option<T>)
        requires
            old(self).wf(),
        ensures
            final(self).wf(),
            final(self)@ == old(self)@.remove(*addr),
            prev.is_some() == old(self)@.contains_key(*addr),
            prev matches Some(p) ==> p == old(self)@[*addr],
    {
        let (at, held) = self.find(addr);
        if held {
            proof {
                lemma_as_map_at(self.entries@, at as int);
                lemma_list_remove(self.entries@, at as int);
            }
            let (_, prev) = self.entries.remove(at);
            Some(prev)
        } else {
            assert(self@ =~= old(self)@.remove(*addr));
            None
        }
    }
}

} // verus!
