//! The channel table: for each client, the channel numbers it has bound
//! and the peer behind each.

use crate::address::Address;
use crate::router::owners::OwnerMap;
use vstd::prelude::*;

verus! {

/// The lowest channel number that can be bound.
pub const CHANNEL_MIN: u16 = 0x4000;

/// The highest channel number that can be bound.
pub const CHANNEL_MAX: u16 = 0x7FFE;

/// Whether `number` can be bound as a channel number.
pub open spec fn valid_channel(number: u16) -> bool {
    CHANNEL_MIN <= number <= CHANNEL_MAX
}

/// Whether `number` can be bound as a channel number.
pub fn is_valid_channel(number: u16) -> (valid: bool)
    ensures
        valid == valid_channel(number),
{
    CHANNEL_MIN <= number && number <= CHANNEL_MAX
}

/// One channel of a client: its number and the peer behind it.
#[derive(Clone, Copy, Debug)]
pub struct ChannelBinding {
    pub number: u16,
    pub peer: Address,
}

/// Why the table refused to bind.
#[derive(Clone, Copy, Debug, PartialEq, Eq, Structural)]
pub enum ChannelError {
    /// The number is bound to another peer, or the peer to another number.
    InUse,
    /// The number is not one that can be bound.
    OutOfRange,
}

/// The table as mathematical values: the peer behind each bound channel,
/// by client and channel number.
pub type ChannelView = Map<(Address, u16), Address>;

/// Whether `owner` has bound `peer` to some channel.
pub open spec fn peer_is_bound(channels: ChannelView, owner: Address, peer: Address) -> bool {
    exists|number: u16| #[trigger]
        channels.contains_key((owner, number)) && channels[(owner, number)] == peer
}

/// Within one client, a peer stands behind one channel only, and every
/// bound number is one that can be bound.
pub open spec fn channels_wf(channels: ChannelView) -> bool {
    &&& forall|owner: Address, a: u16, b: u16|
        #![trigger channels[(owner, a)], channels[(owner, b)]]
        channels.contains_key((owner, a)) && channels.contains_key((owner, b)) && channels[(
            owner,
            a,
        )] == channels[(owner, b)] ==> a == b
    &&& forall|owner: Address, number: u16| #[trigger]
        channels.contains_key((owner, number)) ==> valid_channel(number)
}

/// What `bind` answers: nothing is wrong with a binding that is there
/// already; a number or a peer that is bound otherwise is in use.
pub open spec fn bind_verdict(channels: ChannelView, owner: Address, number: u16, peer: Address)
    -> Result<(), ChannelError> {
    if !valid_channel(number) {
        Err(ChannelError::OutOfRange)
    } else if channels.contains_key((owner, number)) {
        if channels[(owner, number)] == peer {
            Ok(())
        } else {
            Err(ChannelError::InUse)
        }
    } else if peer_is_bound(channels, owner, peer) {
        Err(ChannelError::InUse)
    } else {
        Ok(())
    }
}

/// The table without the channels of `owner`.
pub open spec fn without_owner(channels: ChannelView, owner: Address) -> ChannelView {
    Map::new(
        |key: (Address, u16)| channels.contains_key(key) && key.0 != owner,
        |key: (Address, u16)| channels[key],
    )
}

/// Whether the list names `number`.
pub open spec fn has_number(list: Seq<ChannelBinding>, number: u16) -> bool {
    exists|i: int| 0 <= i < list.len() && (#[trigger] list[i]).number == number
}

/// The place at which the list names `number`.
pub open spec fn place_of_number(list: Seq<ChannelBinding>, number: u16) -> int {
    choose|i: int| 0 <= i < list.len() && (#[trigger] list[i]).number == number
}

/// No number and no peer stands twice in the list, and every number is one
/// that can be bound.
pub open spec fn list_wf(list: Seq<ChannelBinding>) -> bool {
    &&& forall|i: int, j: int|
        0 <= i < j < list.len() ==> (#[trigger] list[i]).number != (#[trigger] list[j]).number
    &&& forall|i: int, j: int|
        0 <= i < j < list.len() ==> (#[trigger] list[i]).peer != (#[trigger] list[j]).peer
    &&& forall|i: int| 0 <= i < list.len() ==> valid_channel((#[trigger] list[i]).number)
}

/// The channels of every client.
pub struct ChannelTable {
    table: OwnerMap<Vec<ChannelBinding>>,
}

impl View for ChannelTable {
    type V = ChannelView;

    closed spec fn view(&self) -> ChannelView {
        Map::new(
            |key: (Address, u16)|
                self.table@.contains_key(key.0) && has_number(self.table@[key.0]@, key.1),
            |key: (Address, u16)|
                self.table@[key.0]@[place_of_number(self.table@[key.0]@, key.1)].peer,
        )
    }
}

impl ChannelTable {
    /// What holds of the table between any two operations.
    pub closed spec fn wf(&self) -> bool {
        &&& self.table.wf()
        &&& forall|owner: Address|
            self.table@.contains_key(owner) ==> list_wf((#[trigger] self.table@[owner])@)
    }

    /// In a well-formed table no peer stands behind two channels of one
    /// client, and every bound number is one that can be bound.
    pub proof fn law_one_peer_one_channel(&self)
        requires
            self.wf(),
        ensures
            channels_wf(self@),
    {
        assert forall|owner: Address, a: u16, b: u16|
            #![trigger self@[(owner, a)], self@[(owner, b)]]
            self@.contains_key((owner, a)) && self@.contains_key((owner, b)) && self@[(owner, a)]
                == self@[(owner, b)] implies a == b by {
            let list = self.table@[owner]@;
            let i = place_of_number(list, a);
            let j = place_of_number(list, b);
            if i < j {
                assert(list[i].peer != list[j].peer);
            } else if j < i {
                assert(list[j].peer != list[i].peer);
            }
        }
        assert forall|owner: Address, number: u16| #[trigger]
            self@.contains_key((owner, number)) implies valid_channel(number) by {
            let list = self.table@[owner]@;
            let i = place_of_number(list, number);
            assert(valid_channel(list[i].number));
        }
    }

    /// A table without channels.
    pub fn new() -> (table: ChannelTable)
        ensures
            table.wf(),
            table@ == Map::<(Address, u16), Address>::empty(),
    {
        let table = ChannelTable { table: OwnerMap::new() };
        assert(table@ =~= Map::<(Address, u16), Address>::empty());
        table
    }
}

/// The place at which the list names `number`, if it does.
fn find_number(list: &Vec<ChannelBinding>, number: u16) -> (found: Option<usize>)
    ensures
        found.is_some() == has_number(list@, number),
        found matches Some(i) ==> i < list@.len() && list@[i as int].number == number,
{
    let mut i: usize = 0;
    while i < list.len()
        invariant
            i <= list@.len(),
            forall|k: int| 0 <= k < i ==> (#[trigger] list@[k]).number != number,
        decreases list.len() - i,
    {
        if list[i].number == number {
            return Some(i);
        }
        i += 1;
    }
    None
}

/// The place at which the list names `peer`, if it does.
fn find_peer(list: &Vec<ChannelBinding>, peer: &Address) -> (found: Option<usize>)
    ensures
        found matches Some(i) ==> i < list@.len() && list@[i as int].peer == *peer,
        found is None ==> forall|k: int| 0 <= k < list@.len() ==> (#[trigger] list@[k]).peer != *peer,
{
    let mut i: usize = 0;
    while i < list.len()
        invariant
            i <= list@.len(),
            forall|k: int| 0 <= k < i ==> (#[trigger] list@[k]).peer != *peer,
        decreases list.len() - i,
    {
        if list[i].peer == *peer {
            return Some(i);
        }
        i += 1;
    }
    None
}

impl ChannelTable {
    /// What the table reads at a place of a client's list.
    proof fn lemma_read_at(&self, owner: Address, i: int)
        requires
            self.wf(),
            self.table@.contains_key(owner),
            0 <= i < self.table@[owner]@.len(),
        ensures
            self@.contains_key((owner, self.table@[owner]@[i].number)),
            self@[(owner, self.table@[owner]@[i].number)] == self.table@[owner]@[i].peer,
    {
        let list = self.table@[owner]@;
        let j = place_of_number(list, list[i].number);
        if i < j {
            assert(list[i].number != list[j].number);
        } else if j < i {
            assert(list[j].number != list[i].number);
        }
    }

    /// The peer behind the channel `number` of `owner`, if it is bound.
    pub fn peer_of(&self, owner: &Address, number: u16) -> (peer: Option<Address>)
        requires
            self.wf(),
        ensures
            peer == if self@.contains_key((*owner, number)) {
                Some(self@[(*owner, number)])
            } else {
                None
            },
    {
        match self.table.get(owner) {
            Some(list) => match find_number(list, number) {
                Some(i) => {
                    proof {
                        self.lemma_read_at(*owner, i as int);
                    }
                    Some(list[i].peer)
                },
                None => None,
            },
            None => None,
        }
    }

    /// The channel of `owner` behind which `peer` stands, if there is one.
    pub fn channel_of(&self, owner: &Address, peer: &Address) -> (number: Option<u16>)
        requires
            self.wf(),
        ensures
            number.is_some() == peer_is_bound(self@, *owner, *peer),
            number matches Some(n) ==> self@.contains_key((*owner, n)) && self@[(*owner, n)]
                == *peer,
    {
        match self.table.get(owner) {
            Some(list) => match find_peer(list, peer) {
                Some(i) => {
                    proof {
                        self.lemma_read_at(*owner, i as int);
                    }
                    Some(list[i].number)
                },
                None => {
                    proof {
                        self.lemma_peer_absent(*owner, *peer);
                    }
                    None
                },
            },
            None => {
                assert(!peer_is_bound(self@, *owner, *peer));
                None
            },
        }
    }

    /// A peer that stands nowhere in a client's list is behind none of its
    /// channels.
    proof fn lemma_peer_absent(&self, owner: Address, peer: Address)
        requires
            self.wf(),
            self.table@.contains_key(owner),
            forall|k: int|
                0 <= k < self.table@[owner]@.len() ==> (#[trigger] self.table@[owner]@[k]).peer
                    != peer,
        ensures
            !peer_is_bound(self@, owner, peer),
    {
        if peer_is_bound(self@, owner, peer) {
            let number = choose|number: u16| #[trigger]
                self@.contains_key((owner, number)) && self@[(owner, number)] == peer;
            let list = self.table@[owner]@;
            let i = place_of_number(list, number);
            assert(list[i].peer == peer);
        }
    }
}

impl ChannelTable {
    /// Binds the channel `number` of `owner` to `peer`. Binding what is
    /// bound already changes nothing; a number or a peer that is bound
    /// otherwise is refused, and so is a number that cannot be bound.
    pub fn bind(&mut self, owner: &Address, number: u16, peer: &Address) -> (done: Result<
        (),
        ChannelError,
    >)
        requires
            old(self).wf(),
        ensures
            final(self).wf(),
            done == bind_verdict(old(self)@, *owner, number, *peer),
            final(self)@ == if done is Ok {
                old(self)@.insert((*owner, number), *peer)
            } else {
                old(self)@
            },
    {
        if !is_valid_channel(number) {
            return Err(ChannelError::OutOfRange);
        }
        match self.table.get(owner) {
            Some(list) => match find_number(list, number) {
                Some(i) => {
                    proof {
                        self.lemma_read_at(*owner, i as int);
                    }
                    if list[i].peer == *peer {
                        assert(self@ =~= old(self)@.insert((*owner, number), *peer));
                        return Ok(());
                    } else {
                        return Err(ChannelError::InUse);
                    }
                },
                None => match find_peer(list, peer) {
                    Some(j) => {
                        proof {
                            self.lemma_read_at(*owner, j as int);
                        }
                        return Err(ChannelError::InUse);
                    },
                    None => {
                        proof {
                            self.lemma_peer_absent(*owner, *peer);
                        }
                    },
                },
            },
            None => {
                assert(!peer_is_bound(self@, *owner, *peer));
            },
        }
        let ghost before = *self;
        let mut list = match self.table.insert(*owner, Vec::new()) {
            Some(list) => list,
            None => Vec::new(),
        };
        let ghost old_list = list@;
        list.push(ChannelBinding { number, peer: *peer });
        let ghost new_list = list@;
        self.table.insert(*owner, list);
        proof {
            assert(before.table@.contains_key(*owner) ==> before.table@[*owner]@ == old_list);
            assert(!before.table@.contains_key(*owner) ==> old_list.len() == 0);
            assert(before.table@.contains_key(*owner) ==> list_wf(old_list));
            assert(list_wf(old_list));
            assert(!has_number(old_list, number));
            assert(forall|k: int| 0 <= k < old_list.len() ==> (#[trigger] old_list[k]).peer != *peer);
            assert(self.table@ =~= before.table@.insert(*owner, list));
            assert(list_wf(new_list)) by {
                assert forall|i: int, j: int| 0 <= i < j < new_list.len() implies (
                #[trigger] new_list[i]).number != (#[trigger] new_list[j]).number by {
                    if j == old_list.len() {
                        assert(old_list[i].number != number);
                    } else {
                        assert(old_list[i].number != old_list[j].number);
                    }
                }
                assert forall|i: int, j: int| 0 <= i < j < new_list.len() implies (
                #[trigger] new_list[i]).peer != (#[trigger] new_list[j]).peer by {
                    if j == old_list.len() {
                        assert(old_list[i].peer != *peer);
                    } else {
                        assert(old_list[i].peer != old_list[j].peer);
                    }
                }
                assert forall|i: int| 0 <= i < new_list.len() implies valid_channel(
                    (#[trigger] new_list[i]).number,
                ) by {
                    if i < old_list.len() {
                        assert(valid_channel(old_list[i].number));
                    }
                }
            }
            assert(self.wf()) by {
                assert forall|other: Address| self.table@.contains_key(other) implies list_wf(
                    (#[trigger] self.table@[other])@,
                ) by {
                    if other != *owner {
                        assert(list_wf(before.table@[other]@));
                    }
                }
            }
            let goal = before@.insert((*owner, number), *peer);
            assert forall|key: (Address, u16)| #[trigger]
                self@.contains_key(key) == goal.contains_key(key) by {
                if key.0 == *owner {
                    if has_number(new_list, key.1) {
                        let i = place_of_number(new_list, key.1);
                        if i < old_list.len() {
                            assert(old_list[i].number == key.1);
                        }
                    }
                    if has_number(old_list, key.1) {
                        let i = place_of_number(old_list, key.1);
                        assert(new_list[i].number == key.1);
                    }
                    if key.1 == number {
                        assert(new_list[old_list.len() as int].number == number);
                    }
                }
            }
            assert forall|key: (Address, u16)| self@.contains_key(key) implies #[trigger] self@[key]
                == goal[key] by {
                if key.0 == *owner {
                    let i = place_of_number(new_list, key.1);
                    self.lemma_read_at(*owner, i);
                    if i < old_list.len() {
                        assert(old_list[i] == new_list[i]);
                        before.lemma_read_at(*owner, i);
                    }
                }
            }
            assert(self@ =~= goal);
        }
        Ok(())
    }

    /// Lets go of every channel of `owner`.
    pub fn release_all(&mut self, owner: &Address)
        requires
            old(self).wf(),
        ensures
            final(self).wf(),
            final(self)@ == without_owner(old(self)@, *owner),
    {
        self.table.remove(owner);
        assert(self.wf()) by {
            assert forall|other: Address| self.table@.contains_key(other) implies list_wf(
                (#[trigger] self.table@[other])@,
            ) by {
                assert(list_wf(old(self).table@[other]@));
            }
        }
        assert(self@ =~= without_owner(old(self)@, *owner));
    }

    /// The channel numbers that `owner` has bound, each once.
    pub fn numbers_of(&self, owner: &Address) -> (numbers: Vec<u16>)
        requires
            self.wf(),
        ensures
            forall|number: u16| numbers@.contains(number) <==> self@.contains_key((*owner, number)),
            numbers@.no_duplicates(),
    {
        let mut numbers: Vec<u16> = Vec::new();
        match self.table.get(owner) {
            Some(list) => {
                let mut i: usize = 0;
                while i < list.len()
                    invariant
                        i <= list@.len(),
                        list_wf(list@),
                        numbers@.len() == i,
                        forall|k: int| 0 <= k < i ==> #[trigger] numbers@[k] == list@[k].number,
                    decreases list.len() - i,
                {
                    numbers.push(list[i].number);
                    i += 1;
                }
                assert forall|number: u16| numbers@.contains(number) <==> self@.contains_key(
                    (*owner, number),
                ) by {
                    if numbers@.contains(number) {
                        let k = choose|k: int| 0 <= k < numbers@.len() && numbers@[k] == number;
                        assert(list@[k].number == number);
                    }
                    if has_number(list@, number) {
                        let k = place_of_number(list@, number);
                        assert(numbers@[k] == number);
                    }
                }
                assert forall|a: int, b: int|
                    0 <= a < numbers@.len() && 0 <= b < numbers@.len() && a != b implies numbers@[a]
                    != numbers@[b] by {
                    if a < b {
                        assert(list@[a].number != list@[b].number);
                    } else {
                        assert(list@[b].number != list@[a].number);
                    }
                }
            },
            None => {},
        }
        numbers
    }
}

} // verus!
