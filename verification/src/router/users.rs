//! The index from user name to the addresses that hold a session under it,
//! kept in the order of the names.

use crate::address::addr_of;
use crate::address::from_keys;
use crate::address::is_key;
use crate::address::key_of;
use crate::address::lemma_keys;
use crate::address::AddrKey;
use crate::address::Address;
use crate::router::names::compare_names;
use crate::router::names::lemma_name_before_irreflexive;
use crate::router::names::lemma_name_before_transitive;
use crate::router::names::name_before;
use crate::router::names::NameOrder;
use crate::router::tables::members;
use crate::router::tables::members_insert;
use crate::router::tables::members_is_empty;
use crate::router::tables::members_list;
use crate::router::tables::members_new;
use crate::router::tables::members_remove;
use crate::router::tables::AddressSet;
use vstd::prelude::*;

verus! {

/// One user name with the addresses of its sessions.
pub struct UserEntry {
    username: String,
    addrs: AddressSet,
}

/// The addresses of every user that has a session, by user name.
pub struct UserIndex {
    entries: Vec<UserEntry>,
}

/// The addresses whose numbers `set` holds.
pub open spec fn addrs_in(set: AddressSet) -> Set<Address> {
    Set::new(|addr: Address| members(set).contains(key_of(addr)))
}

/// Whether `set` holds nothing but the numbers of addresses.
pub open spec fn keys_only(set: AddressSet) -> bool {
    forall|key: AddrKey| members(set).contains(key) ==> is_key(key)
}

/// An index as mathematical values: the user names in their order, each with
/// its set of addresses.
pub type UserIndexView = Seq<(Seq<char>, Set<Address>)>;

/// The names stand in strictly ascending order, so none stands twice.
pub open spec fn names_ascend(index: UserIndexView) -> bool {
    forall|i: int, j: int|
        0 <= i < j < index.len() ==> name_before(#[trigger] index[i].0, #[trigger] index[j].0)
}

/// Whether `set` holds an address at all.
pub open spec fn holds_some(set: Set<Address>) -> bool {
    exists|addr: Address| set.contains(addr)
}

/// No user is listed without an address.
pub open spec fn none_empty(index: UserIndexView) -> bool {
    forall|i: int| 0 <= i < index.len() ==> holds_some(#[trigger] index[i].1)
}

/// Whether `name` is listed.
pub open spec fn lists_name(index: UserIndexView, name: Seq<char>) -> bool {
    exists|i: int| 0 <= i < index.len() && (#[trigger] index[i]).0 == name
}

/// The addresses listed under `name`: none where the name is not listed.
pub open spec fn addrs_under(index: UserIndexView, name: Seq<char>) -> Set<Address> {
    if lists_name(index, name) {
        let i = choose|i: int| 0 <= i < index.len() && (#[trigger] index[i]).0 == name;
        index[i].1
    } else {
        Set::empty()
    }
}

/// In an ascending index a name stands at one place only, and
/// `addrs_under` reads the set at that place.
proof fn lemma_addrs_under_at(index: UserIndexView, i: int)
    requires
        names_ascend(index),
        0 <= i < index.len(),
    ensures
        lists_name(index, index[i].0),
        addrs_under(index, index[i].0) == index[i].1,
{
    let name = index[i].0;
    let j = choose|j: int| 0 <= j < index.len() && (#[trigger] index[j]).0 == name;
    if j != i {
        lemma_name_before_irreflexive(name);
    }
}

/// Putting another set at a listed place changes what is listed under that
/// place's name and nothing else.
proof fn lemma_index_update(index: UserIndexView, at: int, set: Set<Address>)
    requires
        names_ascend(index),
        0 <= at < index.len(),
    ensures
        names_ascend(index.update(at, (index[at].0, set))),
        forall|name: Seq<char>|
            #[trigger] addrs_under(index.update(at, (index[at].0, set)), name) == if name
                == index[at].0 {
                set
            } else {
                addrs_under(index, name)
            },
{
    let after = index.update(at, (index[at].0, set));
    assert forall|i: int, j: int| 0 <= i < j < after.len() implies name_before(
        #[trigger] after[i].0,
        #[trigger] after[j].0,
    ) by {
        assert(after[i].0 == index[i].0);
        assert(after[j].0 == index[j].0);
    }
    assert forall|name: Seq<char>|
        #[trigger] addrs_under(after, name) == if name == index[at].0 {
            set
        } else {
            addrs_under(index, name)
        } by {
        if lists_name(after, name) {
            let j = choose|j: int| 0 <= j < after.len() && (#[trigger] after[j]).0 == name;
            lemma_addrs_under_at(after, j);
            assert(index[j].0 == name);
            lemma_addrs_under_at(index, j);
            if name == index[at].0 && j != at {
                lemma_addrs_under_at(index, at);
                lemma_name_before_irreflexive(name);
            }
        } else if lists_name(index, name) {
            let j = choose|j: int| 0 <= j < index.len() && (#[trigger] index[j]).0 == name;
            assert(after[j].0 == name);
        }
    }
}

/// Listing a new name at the place where it belongs adds what is listed
/// under it and changes nothing else.
proof fn lemma_index_insert(index: UserIndexView, at: int, name: Seq<char>, set: Set<Address>)
    requires
        names_ascend(index),
        0 <= at <= index.len(),
        forall|i: int| 0 <= i < at ==> name_before(#[trigger] index[i].0, name),
        forall|i: int| at <= i < index.len() ==> name_before(name, #[trigger] index[i].0),
    ensures
        names_ascend(index.insert(at, (name, set))),
        forall|other: Seq<char>|
            #[trigger] addrs_under(index.insert(at, (name, set)), other) == if other == name {
                set
            } else {
                addrs_under(index, other)
            },
{
    let after = index.insert(at, (name, set));
    assert forall|i: int, j: int| 0 <= i < j < after.len() implies name_before(
        #[trigger] after[i].0,
        #[trigger] after[j].0,
    ) by {
        if i < at && j > at {
            lemma_name_before_transitive(index[i].0, name, index[j - 1].0);
        }
    }
    assert forall|other: Seq<char>|
        #[trigger] addrs_under(after, other) == if other == name {
            set
        } else {
            addrs_under(index, other)
        } by {
        assert(after[at] == (name, set));
        if other == name {
            lemma_addrs_under_at(after, at);
        } else if lists_name(after, other) {
            let j = choose|j: int| 0 <= j < after.len() && (#[trigger] after[j]).0 == other;
            lemma_addrs_under_at(after, j);
            let k = if j < at { j } else { j - 1 };
            assert(index[k] == after[j]);
            lemma_addrs_under_at(index, k);
        } else if lists_name(index, other) {
            let k = choose|k: int| 0 <= k < index.len() && (#[trigger] index[k]).0 == other;
            let j = if k < at { k } else { k + 1 };
            assert(after[j] == index[k]);
        }
    }
}

/// Striking a place from the index empties what is listed under its name
/// and changes nothing else.
proof fn lemma_index_remove(index: UserIndexView, at: int)
    requires
        names_ascend(index),
        0 <= at < index.len(),
    ensures
        names_ascend(index.remove(at)),
        forall|other: Seq<char>|
            #[trigger] addrs_under(index.remove(at), other) == if other == index[at].0 {
                Set::empty()
            } else {
                addrs_under(index, other)
            },
{
    let after = index.remove(at);
    let name = index[at].0;
    assert forall|i: int, j: int| 0 <= i < j < after.len() implies name_before(
        #[trigger] after[i].0,
        #[trigger] after[j].0,
    ) by {
        let i0 = if i < at { i } else { i + 1 };
        let j0 = if j < at { j } else { j + 1 };
        assert(after[i] == index[i0]);
        assert(after[j] == index[j0]);
    }
    assert forall|other: Seq<char>|
        #[trigger] addrs_under(after, other) == if other == name {
            Set::empty()
        } else {
            addrs_under(index, other)
        } by {
        if lists_name(after, other) {
            let j = choose|j: int| 0 <= j < after.len() && (#[trigger] after[j]).0 == other;
            lemma_addrs_under_at(after, j);
            let k = if j < at { j } else { j + 1 };
            assert(index[k] == after[j]);
            lemma_addrs_under_at(index, k);
            if other == name {
                lemma_name_before_irreflexive(name);
            }
        } else if lists_name(index, other) {
            let k = choose|k: int| 0 <= k < index.len() && (#[trigger] index[k]).0 == other;
            if k != at {
                let j = if k < at { k } else { k - 1 };
                assert(after[j] == index[k]);
            }
        }
    }
}

/// How many users a page holds: what is left of `total` behind the first
/// `skip`, and no more than `limit`.
pub open spec fn page_len(total: nat, skip: nat, limit: nat) -> nat {
    if skip >= total {
        0
    } else if limit < total - skip {
        limit
    } else {
        (total - skip) as nat
    }
}

impl View for UserIndex {
    type V = UserIndexView;

    closed spec fn view(&self) -> UserIndexView {
        Seq::new(
            self.entries@.len(),
            |i: int| (self.entries@[i].username@, addrs_in(self.entries@[i].addrs)),
        )
    }
}

impl UserIndex {
    /// Every set holds nothing but the numbers of addresses.
    pub closed spec fn keys_wf(&self) -> bool {
        forall|i: int| 0 <= i < self.entries@.len() ==> keys_only(#[trigger] self.entries@[i].addrs)
    }

    /// What holds of every index: the names ascend and none is empty.
    pub open spec fn wf(&self) -> bool {
        names_ascend(self@) && none_empty(self@) && self.keys_wf()
    }

    /// An index that lists nobody.
    pub fn new() -> (index: UserIndex)
        ensures
            index@.len() == 0,
            index.wf(),
    {
        UserIndex { entries: Vec::new() }
    }

    /// How many users are listed.
    pub fn len(&self) -> (n: usize)
        ensures
            n == self@.len(),
    {
        self.entries.len()
    }

    /// Looks `name` up by bisection. The place returned is that of the name
    /// where it is listed, and else the place where it would have to stand.
    pub fn find(&self, name: &str) -> (place: (usize, bool))
        requires
            self.wf(),
        ensures
            place.0 <= self@.len(),
            place.1 == lists_name(self@, name@),
            place.1 ==> place.0 < self@.len() && self@[place.0 as int].0 == name@,
            forall|i: int| 0 <= i < place.0 ==> name_before(#[trigger] self@[i].0, name@),
            forall|i: int|
                place.0 <= i < self@.len() && !(place.1 && i == place.0) ==> name_before(
                    name@,
                    #[trigger] self@[i].0,
                ),
    {
        let mut lo: usize = 0;
        let mut hi: usize = self.entries.len();
        while lo < hi
            invariant
                self.wf(),
                lo <= hi <= self@.len(),
                self@.len() == self.entries@.len(),
                forall|i: int| 0 <= i < lo ==> name_before(#[trigger] self@[i].0, name@),
                forall|i: int| hi <= i < self@.len() ==> name_before(name@, #[trigger] self@[i].0),
            decreases hi - lo,
        {
            let mid = lo + (hi - lo) / 2;
            let order = compare_names(self.entries[mid].username.as_str(), name);
            assert(self@[mid as int].0 == self.entries@[mid as int].username@);
            match order {
                NameOrder::Before => {
                    assert forall|i: int| 0 <= i < mid + 1 implies name_before(
                        #[trigger] self@[i].0,
                        name@,
                    ) by {
                        if i < mid {
                            lemma_name_before_transitive(self@[i].0, self@[mid as int].0, name@);
                        }
                    }
                    lo = mid + 1;
                },
                NameOrder::Same => {
                    proof {
                        self.lemma_found_at(name@, mid as int);
                    }
                    return (mid, true);
                },
                NameOrder::After => {
                    assert forall|i: int| mid <= i < self@.len() implies name_before(
                        name@,
                        #[trigger] self@[i].0,
                    ) by {
                        if i > mid {
                            lemma_name_before_transitive(name@, self@[mid as int].0, self@[i].0);
                        }
                    }
                    hi = mid;
                },
            }
        }
        proof {
            self.lemma_absent_at(name@, lo as int);
        }
        (lo, false)
    }

    /// The addresses listed under `name`.
    pub open spec fn addrs_of(&self, name: Seq<char>) -> Set<Address> {
        addrs_under(self@, name)
    }

    /// Lists `addr` under `name`.
    pub fn add(&mut self, name: &str, addr: Address)
        requires
            old(self).wf(),
        ensures
            final(self).wf(),
            forall|other: Seq<char>|
                #[trigger] final(self).addrs_of(other) == if other == name@ {
                    old(self).addrs_of(name@).insert(addr)
                } else {
                    old(self).addrs_of(other)
                },
    {
        let (at, found) = self.find(name);
        let ghost before = self@;
        if found {
            proof {
                lemma_addrs_under_at(before, at as int);
                lemma_index_update(before, at as int, before[at as int].1.insert(addr));
            }
            members_insert(&mut self.entries[at].addrs, addr.key());
            proof {
                lemma_keys(addr, key_of(addr));
                assert(addrs_in(self.entries@[at as int].addrs) =~= before[at as int].1.insert(
                    addr,
                )) by {
                    assert forall|a: Address|
                        addrs_in(self.entries@[at as int].addrs).contains(a)
                            == before[at as int].1.insert(addr).contains(a) by {
                        lemma_keys(a, key_of(a));
                    }
                }
                assert forall|i: int| 0 <= i < self.entries@.len() implies keys_only(
                    #[trigger] self.entries@[i].addrs,
                ) by {
                    if i != at {
                        assert(self.entries@[i] == old(self).entries@[i]);
                    }
                }
            }
            assert(self@ =~= before.update(at as int, (name@, before[at as int].1.insert(addr))));
        } else {
            let mut addrs = members_new(5);
            members_insert(&mut addrs, addr.key());
            proof {
                lemma_keys(addr, key_of(addr));
                assert forall|a: Address|
                    addrs_in(addrs).contains(a) == Set::<Address>::empty().insert(addr).contains(
                        a,
                    ) by {
                    lemma_keys(a, key_of(a));
                }
            }
            assert(addrs_in(addrs) =~= Set::<Address>::empty().insert(addr));
            proof {
                lemma_index_insert(before, at as int, name@, addrs_in(addrs));
            }
            self.entries.insert(at, UserEntry { username: name.to_owned(), addrs });
            assert(self@ =~= before.insert(at as int, (name@, Set::<Address>::empty().insert(addr))));
            assert forall|i: int| 0 <= i < self.entries@.len() implies keys_only(
                #[trigger] self.entries@[i].addrs,
            ) by {
                if i < at {
                    assert(self.entries@[i] == old(self).entries@[i]);
                } else if i > at {
                    assert(self.entries@[i] == old(self).entries@[i - 1]);
                }
            }
        }
        assert forall|i: int| 0 <= i < self@.len() implies holds_some(
            #[trigger] self@[i].1,
        ) by {
            if found {
                if i == at {
                    assert(self@[i].1.contains(addr));
                } else {
                    assert(self@[i] == before[i]);
                }
            } else {
                if i == at {
                    assert(self@[i].1.contains(addr));
                } else {
                    let k = if i < at { i } else { i - 1 };
                    assert(self@[i] == before[k]);
                }
            }
        }
    }

    /// Strikes `addr` from what is listed under `name`, and the name with
    /// it once nothing is left under it.
    pub fn drop(&mut self, name: &str, addr: &Address)
        requires
            old(self).wf(),
        ensures
            final(self).wf(),
            forall|other: Seq<char>|
                #[trigger] final(self).addrs_of(other) == if other == name@ {
                    old(self).addrs_of(name@).remove(*addr)
                } else {
                    old(self).addrs_of(other)
                },
    {
        let (at, found) = self.find(name);
        let ghost before = self@;
        if found {
            proof {
                lemma_addrs_under_at(before, at as int);
                lemma_index_update(before, at as int, before[at as int].1.remove(*addr));
            }
            members_remove(&mut self.entries[at].addrs, &addr.key());
            let ghost mid = self@;
            let ghost mid_entries = self.entries@;
            proof {
                lemma_keys(*addr, key_of(*addr));
                assert(addrs_in(self.entries@[at as int].addrs) =~= before[at as int].1.remove(
                    *addr,
                )) by {
                    assert forall|a: Address|
                        addrs_in(self.entries@[at as int].addrs).contains(a)
                            == before[at as int].1.remove(*addr).contains(a) by {
                        lemma_keys(a, key_of(a));
                    }
                }
                assert forall|i: int| 0 <= i < self.entries@.len() implies keys_only(
                    #[trigger] self.entries@[i].addrs,
                ) by {
                    if i != at {
                        assert(self.entries@[i] == old(self).entries@[i]);
                    }
                }
            }
            assert(mid =~= before.update(at as int, (name@, before[at as int].1.remove(*addr))));
            if members_is_empty(&self.entries[at].addrs) {
                proof {
                    lemma_index_remove(mid, at as int);
                }
                self.entries.remove(at);
                assert(self@ =~= mid.remove(at as int));
                assert(mid[at as int].1 =~= Set::<Address>::empty());
                assert forall|i: int| 0 <= i < self.entries@.len() implies keys_only(
                    #[trigger] self.entries@[i].addrs,
                ) by {
                    let k = if i < at { i } else { i + 1 };
                    assert(self.entries@[i] == mid_entries[k]);
                }
                assert forall|i: int| 0 <= i < self@.len() implies holds_some(
                    #[trigger] self@[i].1,
                ) by {
                    let k = if i < at { i } else { i + 1 };
                    assert(self@[i] == before[k]);
                }
            } else {
                assert forall|i: int| 0 <= i < self@.len() implies holds_some(
                    #[trigger] self@[i].1,
                ) by {
                    if i != at {
                        assert(self@[i] == before[i]);
                    } else {
                        let key = choose|key: AddrKey| members(self.entries@[i].addrs).contains(key);
                        lemma_keys(addr_of(key), key);
                        assert(self@[i].1.contains(addr_of(key)));
                    }
                }
            }
        } else {
            assert(old(self).addrs_of(name@).remove(*addr) =~= old(self).addrs_of(name@));
        }
    }

    /// The addresses listed under `name`, each once, in no particular order.
    pub fn list(&self, name: &str) -> (addrs: Vec<Address>)
        requires
            self.wf(),
        ensures
            addrs@.no_duplicates(),
            forall|addr: Address| addrs@.contains(addr) <==> self.addrs_of(name@).contains(addr),
    {
        let (at, found) = self.find(name);
        if found {
            proof {
                lemma_addrs_under_at(self@, at as int);
            }
            let keys = members_list(&self.entries[at].addrs);
            assert forall|i: int| 0 <= i < keys@.len() implies is_key(#[trigger] keys@[i]) by {
                assert(keys@.contains(keys@[i]));
            }
            from_keys(&keys)
        } else {
            Vec::new()
        }
    }

    /// Up to `limit` users from the `skip`-th on, in the order of their
    /// names, each with its addresses in no particular order.
    pub fn page(&self, skip: usize, limit: usize) -> (users: Vec<(String, Vec<Address>)>)
        requires
            self.wf(),
        ensures
            users@.len() == page_len(self@.len(), skip as nat, limit as nat),
            forall|i: int|
                0 <= i < users@.len() ==> {
                    &&& (#[trigger] users@[i]).0@ == self@[skip + i].0
                    &&& users@[i].1@.no_duplicates()
                    &&& forall|addr: Address|
                        users@[i].1@.contains(addr) <==> self@[skip + i].1.contains(addr)
                },
    {
        let mut users: Vec<(String, Vec<Address>)> = Vec::new();
        let total = self.entries.len();
        if skip >= total {
            return users;
        }
        let count = if limit < total - skip { limit } else { total - skip };
        let mut i: usize = 0;
        while i < count
            invariant
                i <= count,
                self.wf(),
                skip + count <= total,
                total == self.entries@.len(),
                total == self@.len(),
                users@.len() == i,
                forall|k: int|
                    0 <= k < i ==> {
                        &&& (#[trigger] users@[k]).0@ == self@[skip + k].0
                        &&& users@[k].1@.no_duplicates()
                        &&& forall|addr: Address|
                            users@[k].1@.contains(addr) <==> self@[skip + k].1.contains(addr)
                    },
            decreases count - i,
        {
            let entry = &self.entries[skip + i];
            let name = entry.username.clone();
            let keys = members_list(&entry.addrs);
            assert forall|k: int| 0 <= k < keys@.len() implies is_key(#[trigger] keys@[k]) by {
                assert(keys@.contains(keys@[k]));
            }
            let addrs = from_keys(&keys);
            users.push((name, addrs));
            i += 1;
        }
        users
    }

    /// Around the place of a listed name, all names before it come before
    /// it and all names behind it come after it.
    proof fn lemma_found_at(&self, name: Seq<char>, at: int)
        requires
            self.wf(),
            0 <= at < self@.len(),
            self@[at].0 == name,
        ensures
            lists_name(self@, name),
            forall|i: int| 0 <= i < at ==> name_before(#[trigger] self@[i].0, name),
            forall|i: int| at < i < self@.len() ==> name_before(name, #[trigger] self@[i].0),
    {
    }

    /// A name that falls between two neighbours is not listed.
    proof fn lemma_absent_at(&self, name: Seq<char>, at: int)
        requires
            self.wf(),
            0 <= at <= self@.len(),
            forall|i: int| 0 <= i < at ==> name_before(#[trigger] self@[i].0, name),
            forall|i: int| at <= i < self@.len() ==> name_before(name, #[trigger] self@[i].0),
        ensures
            !lists_name(self@, name),
    {
        if lists_name(self@, name) {
            let i = choose|i: int| 0 <= i < self@.len() && (#[trigger] self@[i]).0 == name;
            lemma_name_before_irreflexive(name);
        }
    }
}

} // verus!
