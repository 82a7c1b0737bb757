//! The permission table: for each client, the peer IP addresses it may
//! send to, each with the clock reading of its last grant.

use crate::address::Address;
use crate::address::IpAddress;
use crate::clock::elapsed_secs;
use crate::clock::has_elapsed;
use crate::router::owners::OwnerMap;
use vstd::prelude::*;

verus! {

/// Seconds a permission lasts when nothing else is configured.
pub const DEFAULT_PERMISSION_LIFETIME: u64 = 300;

/// One permission of a client: the peer IP address and the clock reading
/// of its last grant.
#[derive(Clone, Copy, Debug)]
pub struct Permission {
    pub ip: IpAddress,
    pub timer: u128,
}

/// The table as mathematical values: the reading of the last grant, by
/// client and peer IP address.
pub type PermissionView = Map<(Address, IpAddress), u128>;

/// Whether a permission granted at `timer` has run out at `now`, when
/// permissions last `lifetime` seconds.
pub open spec fn lapsed(timer: u128, now: u128, lifetime: u64) -> bool {
    elapsed_secs(timer, now) >= lifetime
}

/// The permissions that have not run out at `now`.
pub open spec fn swept(grants: PermissionView, now: u128, lifetime: u64) -> PermissionView {
    Map::new(
        |key: (Address, IpAddress)| grants.contains_key(key) && !lapsed(grants[key], now, lifetime),
        |key: (Address, IpAddress)| grants[key],
    )
}

/// The table without the permissions of `owner`.
pub open spec fn without_grants_of(grants: PermissionView, owner: Address) -> PermissionView {
    Map::new(
        |key: (Address, IpAddress)| grants.contains_key(key) && key.0 != owner,
        |key: (Address, IpAddress)| grants[key],
    )
}

/// Whether the list names `ip`.
pub open spec fn has_ip(list: Seq<Permission>, ip: IpAddress) -> bool {
    exists|i: int| 0 <= i < list.len() && (#[trigger] list[i]).ip == ip
}

/// The place at which the list names `ip`.
pub open spec fn place_of_ip(list: Seq<Permission>, ip: IpAddress) -> int {
    choose|i: int| 0 <= i < list.len() && (#[trigger] list[i]).ip == ip
}

/// No IP address stands twice in the list.
pub open spec fn ips_differ(list: Seq<Permission>) -> bool {
    forall|i: int, j: int|
        0 <= i < j < list.len() ==> (#[trigger] list[i]).ip != (#[trigger] list[j]).ip
}

/// In a list without repetition a listed IP address stands where it is
/// found.
proof fn lemma_place_of_ip(list: Seq<Permission>, i: int)
    requires
        ips_differ(list),
        0 <= i < list.len(),
    ensures
        has_ip(list, list[i].ip),
        place_of_ip(list, list[i].ip) == i,
{
    let j = place_of_ip(list, list[i].ip);
    if i < j {
        assert(list[i].ip != list[j].ip);
    } else if j < i {
        assert(list[j].ip != list[i].ip);
    }
}

/// The place at which the list names `ip`, if it does.
fn find_ip(list: &Vec<Permission>, ip: &IpAddress) -> (found: Option<usize>)
    ensures
        found.is_some() == has_ip(list@, *ip),
        found matches Some(i) ==> i < list@.len() && list@[i as int].ip == *ip,
{
    let mut i: usize = 0;
    while i < list.len()
        invariant
            i <= list@.len(),
            forall|k: int| 0 <= k < i ==> (#[trigger] list@[k]).ip != *ip,
        decreases list.len() - i,
    {
        if list[i].ip == *ip {
            return Some(i);
        }
        i += 1;
    }
    None
}

/// `kept` holds of `list` exactly the permissions that have not run out at
/// `now`, each with its reading.
pub open spec fn is_live_part(kept: Seq<Permission>, list: Seq<Permission>, now: u128, lifetime: u64)
    -> bool {
    &&& ips_differ(kept)
    &&& forall|ip: IpAddress|
        has_ip(kept, ip) <==> has_ip(list, ip) && !lapsed(
            list[place_of_ip(list, ip)].timer,
            now,
            lifetime,
        )
    &&& forall|ip: IpAddress|
        has_ip(kept, ip) ==> kept[place_of_ip(kept, ip)].timer == list[place_of_ip(list, ip)].timer
}

/// The permissions of `list` that have not run out at `now`, in their
/// order.
fn keep_live(list: &Vec<Permission>, now: u128, lifetime: u64) -> (kept: Vec<Permission>)
    requires
        ips_differ(list@),
    ensures
        is_live_part(kept@, list@, now, lifetime),
{
    let mut kept: Vec<Permission> = Vec::new();
    let ghost mut from: Seq<int> = Seq::empty();
    let mut i: usize = 0;
    while i < list.len()
        invariant
            i <= list@.len(),
            ips_differ(list@),
            from.len() == kept@.len(),
            forall|k: int| 0 <= k < kept@.len() ==> 0 <= #[trigger] from[k] < i,
            forall|k: int| 0 <= k < kept@.len() ==> #[trigger] kept@[k] == list@[from[k]],
            forall|k: int, m: int| 0 <= k < m < kept@.len() ==> #[trigger] from[k] < #[trigger] from[m],
            forall|k: int|
                0 <= k < kept@.len() ==> !lapsed((#[trigger] kept@[k]).timer, now, lifetime),
            forall|j: int|
                0 <= j < i && !lapsed((#[trigger] list@[j]).timer, now, lifetime) ==> exists|k: int|
                    0 <= k < kept@.len() && #[trigger] from[k] == j,
        decreases list.len() - i,
    {
        let entry = list[i];
        if !has_elapsed(entry.timer, now, lifetime) {
            let ghost before = kept@;
            let ghost before_from = from;
            kept.push(entry);
            proof {
                from = from.push(i as int);
                assert forall|j: int|
                    0 <= j < i + 1 && !lapsed(
                        (#[trigger] list@[j]).timer,
                        now,
                        lifetime,
                    ) implies exists|k: int| 0 <= k < kept@.len() && #[trigger] from[k] == j by {
                    if j < i {
                        let k = choose|k: int|
                            0 <= k < before.len() && #[trigger] before_from[k] == j;
                        assert(from[k] == j);
                    } else {
                        assert(from[before.len() as int] == j);
                    }
                }
            }
        }
        i += 1;
    }
    proof {
        assert forall|a: int, b: int| 0 <= a < b < kept@.len() implies (#[trigger] kept@[a]).ip != (
        #[trigger] kept@[b]).ip by {
            assert(from[a] < from[b]);
            assert(list@[from[a]].ip != list@[from[b]].ip);
        }
        assert forall|ip: IpAddress|
            has_ip(kept@, ip) <==> has_ip(list@, ip) && !lapsed(
                list@[place_of_ip(list@, ip)].timer,
                now,
                lifetime,
            ) by {
            if has_ip(kept@, ip) {
                let k = place_of_ip(kept@, ip);
                assert(kept@[k] == list@[from[k]]);
                lemma_place_of_ip(list@, from[k]);
            }
            if has_ip(list@, ip) && !lapsed(list@[place_of_ip(list@, ip)].timer, now, lifetime) {
                let j = place_of_ip(list@, ip);
                let k = choose|k: int| 0 <= k < kept@.len() && #[trigger] from[k] == j;
                assert(kept@[k].ip == ip);
            }
        }
        assert forall|ip: IpAddress| has_ip(kept@, ip) implies kept@[place_of_ip(kept@, ip)].timer
            == list@[place_of_ip(list@, ip)].timer by {
            let k = place_of_ip(kept@, ip);
            assert(kept@[k] == list@[from[k]]);
            lemma_place_of_ip(list@, from[k]);
        }
    }
    kept
}

/// The permissions of every client.
pub struct PermissionTable {
    table: OwnerMap<Vec<Permission>>,
    lifetime: u64,
}

impl View for PermissionTable {
    type V = PermissionView;

    closed spec fn view(&self) -> PermissionView {
        Map::new(
            |key: (Address, IpAddress)|
                self.table@.contains_key(key.0) && has_ip(self.table@[key.0]@, key.1),
            |key: (Address, IpAddress)|
                self.table@[key.0]@[place_of_ip(self.table@[key.0]@, key.1)].timer,
        )
    }
}

impl PermissionTable {
    /// Seconds a permission lasts.
    pub closed spec fn lifetime(&self) -> u64 {
        self.lifetime
    }

    /// What holds of the table between any two operations.
    pub closed spec fn wf(&self) -> bool {
        &&& self.table.wf()
        &&& forall|owner: Address|
            self.table@.contains_key(owner) ==> ips_differ((#[trigger] self.table@[owner])@)
    }

    /// Whether `owner` may send to `ip` at the reading `now`: it has been
    /// granted, and the grant has not run out.
    pub open spec fn permits(&self, owner: Address, ip: IpAddress, now: u128) -> bool {
        self@.contains_key((owner, ip)) && !lapsed(self@[(owner, ip)], now, self.lifetime())
    }

    /// A table without permissions, in which permissions last `lifetime`
    /// seconds.
    pub fn new(lifetime: u64) -> (table: PermissionTable)
        ensures
            table.wf(),
            table.lifetime() == lifetime,
            table@ == Map::<(Address, IpAddress), u128>::empty(),
    {
        let table = PermissionTable { table: OwnerMap::new(), lifetime };
        assert(table@ =~= Map::<(Address, IpAddress), u128>::empty());
        table
    }

    /// What the table reads at a place of a client's list.
    proof fn lemma_read_at(&self, owner: Address, i: int)
        requires
            self.wf(),
            self.table@.contains_key(owner),
            0 <= i < self.table@[owner]@.len(),
        ensures
            self@.contains_key((owner, self.table@[owner]@[i].ip)),
            self@[(owner, self.table@[owner]@[i].ip)] == self.table@[owner]@[i].timer,
    {
        lemma_place_of_ip(self.table@[owner]@, i);
    }

    /// Whether `owner` may send to `ip` at the reading `now`.
    pub fn check(&self, owner: &Address, ip: &IpAddress, now: u128) -> (allowed: bool)
        requires
            self.wf(),
        ensures
            allowed == self.permits(*owner, *ip, now),
    {
        match self.table.get(owner) {
            Some(list) => match find_ip(list, ip) {
                Some(i) => {
                    proof {
                        self.lemma_read_at(*owner, i as int);
                    }
                    !has_elapsed(list[i].timer, now, self.lifetime)
                },
                None => false,
            },
            None => false,
        }
    }

    /// Grants `owner` the permission to send to `ip`, counted from the
    /// reading `now`; a permission that is there already starts anew.
    pub fn grant(&mut self, owner: &Address, ip: &IpAddress, now: u128)
        requires
            old(self).wf(),
        ensures
            final(self).wf(),
            final(self).lifetime() == old(self).lifetime(),
            final(self)@ == old(self)@.insert((*owner, *ip), now),
    {
        let ghost before = *self;
        let mut list = match self.table.insert(*owner, Vec::new()) {
            Some(list) => list,
            None => Vec::new(),
        };
        let ghost old_list = list@;
        let entry = Permission { ip: *ip, timer: now };
        match find_ip(&list, ip) {
            Some(i) => {
                list.set(i, entry);
            },
            None => {
                list.push(entry);
            },
        }
        let ghost new_list = list@;
        self.table.insert(*owner, list);
        proof {
            assert(before.table@.contains_key(*owner) ==> before.table@[*owner]@ == old_list);
            assert(before.table@.contains_key(*owner) ==> ips_differ(before.table@[*owner]@));
            assert(ips_differ(old_list));
            assert(self.table@ =~= before.table@.insert(*owner, list));
            let at = if has_ip(old_list, *ip) {
                place_of_ip(old_list, *ip)
            } else {
                old_list.len() as int
            };
            assert(new_list[at] == entry);
            assert(forall|k: int| 0 <= k < old_list.len() && k != at ==> new_list[k] == old_list[k]);
            assert(ips_differ(new_list)) by {
                assert forall|i: int, j: int| 0 <= i < j < new_list.len() implies (
                #[trigger] new_list[i]).ip != (#[trigger] new_list[j]).ip by {
                    if i < old_list.len() && j < old_list.len() {
                        assert(old_list[i].ip != old_list[j].ip);
                    }
                }
            }
            assert(self.wf()) by {
                assert forall|other: Address| self.table@.contains_key(other) implies ips_differ(
                    (#[trigger] self.table@[other])@,
                ) by {
                    if other != *owner {
                        assert(ips_differ(before.table@[other]@));
                    }
                }
            }
            let goal = before@.insert((*owner, *ip), now);
            assert forall|key: (Address, IpAddress)| #[trigger]
                self@.contains_key(key) == goal.contains_key(key) by {
                if key.0 == *owner {
                    if has_ip(new_list, key.1) {
                        let i = place_of_ip(new_list, key.1);
                        if i != at {
                            assert(old_list[i].ip == key.1);
                        }
                    }
                    if has_ip(old_list, key.1) {
                        let i = place_of_ip(old_list, key.1);
                        assert(new_list[i].ip == key.1);
                    }
                    if key.1 == *ip {
                        assert(new_list[at].ip == *ip);
                    }
                }
            }
            assert forall|key: (Address, IpAddress)| self@.contains_key(key) implies #[trigger]
                self@[key] == goal[key] by {
                if key.0 == *owner {
                    let i = place_of_ip(new_list, key.1);
                    lemma_place_of_ip(new_list, at);
                    if i != at {
                        assert(old_list[i] == new_list[i]);
                        lemma_place_of_ip(old_list, i);
                    }
                }
            }
            assert(self@ =~= goal);
        }
    }

    /// Lets go of every permission of `owner`.
    pub fn release_all(&mut self, owner: &Address)
        requires
            old(self).wf(),
        ensures
            final(self).wf(),
            final(self).lifetime() == old(self).lifetime(),
            final(self)@ == without_grants_of(old(self)@, *owner),
    {
        self.table.remove(owner);
        assert(self.wf()) by {
            assert forall|other: Address| self.table@.contains_key(other) implies ips_differ(
                (#[trigger] self.table@[other])@,
            ) by {
                assert(ips_differ(old(self).table@[other]@));
            }
        }
        assert(self@ =~= without_grants_of(old(self)@, *owner));
    }
}

impl PermissionTable {
    /// Drops every permission that has run out at the reading `now`.
    pub fn sweep(&mut self, now: u128)
        requires
            old(self).wf(),
        ensures
            final(self).wf(),
            final(self).lifetime() == old(self).lifetime(),
            final(self)@ == swept(old(self)@, now, old(self).lifetime()),
    {
        let count = self.table.len();
        let lifetime = self.lifetime;
        let ghost owners = self.table.owners();
        proof {
            self.table.lemma_owners();
        }
        let mut i: usize = 0;
        while i < count
            invariant
                self.wf(),
                old(self).wf(),
                self.lifetime == lifetime,
                old(self).lifetime == lifetime,
                i <= count,
                count == owners.len(),
                owners == self.table.owners(),
                owners == old(self).table.owners(),
                owners.no_duplicates(),
                forall|addr: Address| owners.contains(addr) <==> self.table@.contains_key(addr),
                forall|addr: Address|
                    owners.contains(addr) <==> old(self).table@.contains_key(addr),
                forall|k: int|
                    0 <= k < i ==> is_live_part(
                        self.table@[#[trigger] owners[k]]@,
                        old(self).table@[owners[k]]@,
                        now,
                        lifetime,
                    ),
                forall|k: int|
                    i <= k < count ==> self.table@[#[trigger] owners[k]] == old(
                        self,
                    ).table@[owners[k]],
            decreases count - i,
        {
            let owner = self.table.owner_at(i);
            let ghost here = *self;
            assert(owners.contains(owner));
            assert(ips_differ(self.table@[owner]@));
            let list = match self.table.insert(owner, Vec::new()) {
                Some(list) => list,
                None => Vec::new(),
            };
            let kept = keep_live(&list, now, lifetime);
            self.table.insert(owner, kept);
            proof {
                assert(self.table@ =~= here.table@.insert(owner, kept));
                assert forall|other: Address| self.table@.contains_key(other) implies ips_differ(
                    (#[trigger] self.table@[other])@,
                ) by {
                    if other != owner {
                        assert(ips_differ(here.table@[other]@));
                    }
                }
                assert forall|k: int| 0 <= k < i + 1 implies is_live_part(
                    self.table@[#[trigger] owners[k]]@,
                    old(self).table@[owners[k]]@,
                    now,
                    lifetime,
                ) by {
                    if k < i {
                        assert(owners[k] != owners[i as int]);
                        assert(is_live_part(
                            here.table@[owners[k]]@,
                            old(self).table@[owners[k]]@,
                            now,
                            lifetime,
                        ));
                    }
                }
                assert forall|k: int| i + 1 <= k < count implies self.table@[#[trigger] owners[k]]
                    == old(self).table@[owners[k]] by {
                    assert(owners[k] != owners[i as int]);
                    assert(here.table@[owners[k]] == old(self).table@[owners[k]]);
                }
            }
            i += 1;
        }
        proof {
            let goal = swept(old(self)@, now, lifetime);
            assert forall|key: (Address, IpAddress)| #[trigger]
                self@.contains_key(key) == goal.contains_key(key) && (self@.contains_key(key)
                    ==> self@[key] == goal[key]) by {
                if owners.contains(key.0) {
                    let k = choose|k: int| 0 <= k < owners.len() && owners[k] == key.0;
                    assert(is_live_part(
                        self.table@[owners[k]]@,
                        old(self).table@[owners[k]]@,
                        now,
                        lifetime,
                    ));
                }
            }
            assert(self@ =~= goal);
        }
    }
}

} // verus!
