//! The way from a request to its handler, and the periodic sweep.

use crate::address::Address;
use crate::processor::allocate::allocate_next;
use crate::processor::allocate::allocate_outcome;
use crate::processor::binding::binding_outcome;
use crate::processor::channel_bind::channel_bind_next;
use crate::processor::channel_bind::channel_bind_outcome;
use crate::processor::create_permission::create_permission_next;
use crate::processor::create_permission::create_permission_outcome;
use crate::processor::credentials::derive_key;
use crate::processor::credentials::long_key_of;
use crate::processor::indication::arrival_outcome;
use crate::processor::indication::channel_data_outcome;
use crate::processor::indication::send_outcome;
use crate::processor::key_for;
use crate::processor::message::Kind;
use crate::processor::message::Method;
use crate::processor::message::Outcome;
use crate::processor::message::Request;
use crate::processor::refresh::refresh_next;
use crate::processor::refresh::refresh_outcome;
use crate::processor::Processor;
use crate::processor::ProcessorView;
use crate::processor::RequestView;
use crate::router::listed_before;
use crate::router::nodes::deaths;
use crate::router::permissions::swept;
use crate::router::RouterView;
use vstd::prelude::*;

verus! {

/// The key that belongs to a signed request of the client at `addr`: for
/// Allocate the key of the credential that signed it, which becomes the
/// key of the session; for every other method the key of the session, and
/// the key of the credential where the client has no session.
pub open spec fn signing_key(
    state: ProcessorView,
    addr: Address,
    method: Method,
    username: Seq<char>,
    password: Seq<char>,
) -> [u8; 16] {
    if method == Method::Allocate(Kind::Request) {
        long_key_of(username, password, state.realm)
    } else {
        key_for(state, addr, username, password)
    }
}

/// What a request leads to: what the handler of its method decides. What
/// is no request and no Send indication leads to nothing.
pub open spec fn process_outcome(
    state: ProcessorView,
    addr: Address,
    request: RequestView,
    key: [u8; 16],
    now: u128,
) -> Outcome {
    match request.method {
        Method::Binding(Kind::Request) => binding_outcome(addr, request.transaction),
        Method::Allocate(Kind::Request) => allocate_outcome(state, addr, request, key, now),
        Method::CreatePermission(Kind::Request) => create_permission_outcome(
            state,
            addr,
            request,
            key,
        ),
        Method::ChannelBind(Kind::Request) => channel_bind_outcome(state, addr, request, key, now),
        Method::Refresh(Kind::Request) => refresh_outcome(state, addr, request, key),
        Method::SendIndication => send_outcome(state, addr, request, now),
        _ => Outcome { reply: None, effect: None },
    }
}

/// The state after a request.
pub open spec fn process_next(
    state: ProcessorView,
    addr: Address,
    request: RequestView,
    key: [u8; 16],
    now: u128,
) -> ProcessorView {
    match request.method {
        Method::Allocate(Kind::Request) => allocate_next(state, addr, request, key, now),
        Method::CreatePermission(Kind::Request) => create_permission_next(state, addr, request, now),
        Method::ChannelBind(Kind::Request) => channel_bind_next(state, addr, request, now),
        Method::Refresh(Kind::Request) => refresh_next(state, addr, request, now),
        _ => state,
    }
}

/// The state after the permissions that have run out at the reading `now`
/// have been dropped.
pub open spec fn permissions_swept(state: ProcessorView, now: u128) -> ProcessorView {
    ProcessorView {
        router: RouterView {
            permissions: swept(state.router.permissions, now, state.permission_lifetime),
            ..state.router
        },
        ..state
    }
}

/// The state after the sweep at the reading `now`: every client whose
/// session is dead is taken out, with all that was held in its name.
pub open spec fn reaped(state: ProcessorView, now: u128) -> ProcessorView {
    ProcessorView {
        router: state.router.without(deaths(state.router.nodes, now)),
        openers: state.openers.remove_keys(deaths(state.router.nodes, now)),
        ..state
    }
}

/// Whether `outcome` and `after` are what `request` of the client at
/// `addr` leads to from the state `before` at the reading `now`. Where the
/// request is signed, the key is the one that belongs to it; where it is
/// not, no key enters into what is decided.
pub open spec fn is_processed(
    before: ProcessorView,
    addr: Address,
    request: RequestView,
    now: u128,
    outcome: Outcome,
    after: ProcessorView,
) -> bool {
    match request.auth {
        Some(auth) => {
            let key = signing_key(before, addr, request.method, auth.0, auth.1);
            outcome == process_outcome(before, addr, request, key, now) && after == process_next(
                before,
                addr,
                request,
                key,
                now,
            )
        },
        None => forall|key: [u8; 16]|
            outcome == #[trigger] process_outcome(before, addr, request, key, now) && after
                == process_next(before, addr, request, key, now),
    }
}

impl Processor {
    /// Handles `request` of the client at `addr` at the time of the call:
    /// what it leads to is what `process` decides at the reading that the
    /// clock gives, which is not behind the reading it gave before.
    pub fn handle(&mut self, addr: &Address, request: &Request) -> (outcome: Outcome)
        requires
            old(self).wf(),
        ensures
            final(self).wf(),
            final(self).last_reading() >= old(self).last_reading(),
            is_processed(
                old(self)@,
                *addr,
                request@,
                final(self).last_reading(),
                outcome,
                final(self)@,
            ),
    {
        let now = self.clock.now();
        self.process(addr, request, now)
    }

    /// Handles a channel data frame of the client at `addr` under the
    /// channel `number` at the time of the call, as `channel_data` does at
    /// the reading that the clock gives, which is not behind the reading
    /// it gave before. Nothing but the clock changes.
    pub fn handle_channel_data(&mut self, addr: &Address, number: u16) -> (outcome: Outcome)
        requires
            old(self).wf(),
        ensures
            final(self).wf(),
            final(self)@ == old(self)@,
            final(self).last_reading() >= old(self).last_reading(),
            outcome == channel_data_outcome(
                old(self)@,
                *addr,
                number,
                final(self).last_reading(),
            ),
    {
        let now = self.clock.now();
        self.channel_data(addr, number, now)
    }

    /// Handles a datagram that arrives at the relayed port `port` from
    /// `peer` at the time of the call, as `arrival` does at the reading
    /// that the clock gives, which is not behind the reading it gave
    /// before. Nothing but the clock changes.
    pub fn handle_arrival(&mut self, port: u16, peer: &Address) -> (outcome: Outcome)
        requires
            old(self).wf(),
        ensures
            final(self).wf(),
            final(self)@ == old(self)@,
            final(self).last_reading() >= old(self).last_reading(),
            outcome == arrival_outcome(old(self)@, port, *peer, final(self).last_reading()),
    {
        let now = self.clock.now();
        self.arrival(port, peer, now)
    }

    /// Takes out every client whose session is dead at the time of the
    /// call, as `reap` does at the reading that the clock gives, which is
    /// not behind the reading it gave before, and then drops the
    /// permissions that have run out at that reading.
    pub fn tick(&mut self) -> (dead: Vec<Address>)
        requires
            old(self).wf(),
        ensures
            final(self).wf(),
            final(self).last_reading() >= old(self).last_reading(),
            dead@.no_duplicates(),
            forall|addr: Address|
                dead@.contains(addr) <==> deaths(
                    old(self)@.router.nodes,
                    final(self).last_reading(),
                ).contains(addr),
            final(self)@ == permissions_swept(
                reaped(old(self)@, final(self).last_reading()),
                final(self).last_reading(),
            ),
    {
        let now = self.clock.now();
        let dead = self.reap(now);
        self.sweep_permissions(now);
        dead
    }

    /// Drops every permission that has run out at the reading `now`.
    pub fn sweep_permissions(&mut self, now: u128)
        requires
            old(self).wf(),
        ensures
            final(self).wf(),
            final(self).last_reading() == old(self).last_reading(),
            final(self)@ == permissions_swept(old(self)@, now),
    {
        self.router.sweep_permissions(now);
    }

    /// Handles `request` of the client at `addr` with the key `key`, at
    /// the reading `now`.
    pub fn process_with_key(&mut self, addr: &Address, request: &Request, key: [u8; 16], now: u128)
        -> (outcome: Outcome)
        requires
            old(self).wf(),
        ensures
            final(self).wf(),
            final(self).last_reading() == old(self).last_reading(),
            outcome == process_outcome(old(self)@, *addr, request@, key, now),
            final(self)@ == process_next(old(self)@, *addr, request@, key, now),
    {
        match request.method {
            Method::Binding(Kind::Request) => self.binding(addr, request),
            Method::Allocate(Kind::Request) => self.allocate(addr, request, key, now),
            Method::CreatePermission(Kind::Request) => self.create_permission(
                addr,
                request,
                key,
                now,
            ),
            Method::ChannelBind(Kind::Request) => self.channel_bind(addr, request, key, now),
            Method::Refresh(Kind::Request) => self.refresh(addr, request, key, now),
            Method::SendIndication => self.send_indication(addr, request, now),
            _ => Outcome { reply: None, effect: None },
        }
    }

    /// Handles `request` of the client at `addr`, at the reading `now`.
    /// Where the request is signed, the key is the one that belongs to it;
    /// where it is not, no key enters into what is decided.
    pub fn process(&mut self, addr: &Address, request: &Request, now: u128) -> (outcome: Outcome)
        requires
            old(self).wf(),
        ensures
            final(self).wf(),
            final(self).last_reading() == old(self).last_reading(),
            is_processed(old(self)@, *addr, request@, now, outcome, final(self)@),
    {
        let key: [u8; 16] = match &request.auth {
            Some(auth) => match request.method {
                Method::Allocate(Kind::Request) => derive_key(
                    auth.username.as_str(),
                    auth.password.as_str(),
                    self.realm.as_str(),
                ),
                _ => self.get_key(addr, auth.username.as_str(), auth.password.as_str()),
            },
            None => [0u8; 16],
        };
        self.process_with_key(addr, request, key, now)
    }

    /// Takes out every client whose session is dead at the reading `now`,
    /// with all that is held in its name, and hands back their addresses,
    /// each once.
    pub fn reap(&mut self, now: u128) -> (dead: Vec<Address>)
        requires
            old(self).wf(),
        ensures
            final(self).wf(),
            final(self).last_reading() == old(self).last_reading(),
            dead@.no_duplicates(),
            forall|addr: Address|
                dead@.contains(addr) <==> deaths(old(self)@.router.nodes, now).contains(addr),
            final(self)@ == reaped(old(self)@, now),
    {
        let dead = self.router.reap(now);
        let mut i: usize = 0;
        assert(self.openers@ =~= old(self).openers@.remove_keys(listed_before(dead@, 0)));
        while i < dead.len()
            invariant
                i <= dead@.len(),
                self.openers.wf(),
                self.router.wf(),
                self.last_reading() == old(self).last_reading(),
                self.openers@ == old(self).openers@.remove_keys(listed_before(dead@, i as int)),
                self@ == (ProcessorView {
                    router: old(self)@.router.without(deaths(old(self)@.router.nodes, now)),
                    openers: self.openers@,
                    ..old(self)@
                }),
            decreases dead.len() - i,
        {
            self.openers.remove(&dead[i]);
            proof {
                let done = listed_before(dead@, i as int);
                let next = listed_before(dead@, i + 1);
                assert forall|a: Address| next.contains(a) == done.insert(dead@[i as int]).contains(
                    a,
                ) by {
                    if done.contains(a) {
                        let k = choose|k: int| 0 <= k < i && #[trigger] dead@[k] == a;
                        assert(0 <= k < i + 1 && dead@[k] == a);
                    }
                }
                assert(next =~= done.insert(dead@[i as int]));
                assert(self.openers@ =~= old(self).openers@.remove_keys(next));
            }
            i += 1;
        }
        proof {
            let all = listed_before(dead@, dead@.len() as int);
            assert forall|a: Address| all.contains(a) == deaths(
                old(self)@.router.nodes,
                now,
            ).contains(a) by {
                if dead@.contains(a) {
                    let k = choose|k: int| 0 <= k < dead@.len() && dead@[k] == a;
                    assert(all.contains(a));
                }
            }
            assert(all =~= deaths(old(self)@.router.nodes, now));
        }
        dead
    }
}

} // verus!
