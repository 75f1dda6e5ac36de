//! The server core: the state the event loop drives.
//!
//! One structure holds the authoritative world, the subscription table and
//! the broadcast scheduler, with the invariant that ties the last two
//! together: the scheduler queue holds exactly one token per subscribed
//! address. The transport layer owns the socket; on a readable event it
//! hands the datagram and the sender's address token to
//! [`ServerCore::process_command`], and on a writable event it asks
//! [`ServerCore::next_broadcast`] which address to send which bytes to.

use crate::sched::BASELINE_PRIORITY;
use crate::sched::ClientPriority;
use crate::sched::Scheduler;
use crate::sched::queue_has_headroom;
use crate::sched::serve_step;
use crate::sched::serve_index;
use crate::sched::served_address;
use crate::sched::lemma_serve_index_max;
use crate::table::Table;
use crate::wire::Command;
use crate::wire::DecodeError;
use crate::wire::Point;
use crate::wire::decode_command;
use crate::wire::encode_client_message;
use crate::wire::spec_decode_command;
use crate::wire::spec_encode_message;
use crate::world::Entity;
use crate::world::EntityV;
use crate::world::World;
use crate::world::entity_valid;
use crate::world::spec_snapshot;
use vstd::prelude::*;

verus! {

/// What the server keeps per subscribed remote address: the client's last
/// reported position. Scheduling does not read it today; it is stored for
/// future interest management.
#[derive(Clone, Copy, PartialEq, Eq, Structural, Debug)]
pub struct ClientState {
    pub position: Point,
}

/// The subscription table and the scheduler queue stand for one logical
/// set of subscribers: queue addresses are unique, every queued address is
/// subscribed, and every subscribed address is queued.
pub open spec fn links_wf(m: Map<u64, ClientState>, q: Seq<ClientPriority>) -> bool {
    &&& forall|a: int, b: int|
        0 <= a < b < q.len() ==> (#[trigger] q[a]).address != (#[trigger] q[b]).address
    &&& forall|a: int| 0 <= a < q.len() ==> m.contains_key((#[trigger] q[a]).address)
    &&& forall|k: u64|
        #[trigger] m.contains_key(k) ==> exists|a: int|
            0 <= a < q.len() && (#[trigger] q[a]).address == k
}

/// The server's world, subscription table and broadcast scheduler, kept in
/// step: one scheduler token per subscribed address and vice versa.
pub struct ServerCore {
    world: World,
    subscriptions: Table<ClientState>,
    scheduler: Scheduler,
}

impl ServerCore {
    /// The authoritative world.
    pub closed spec fn world(&self) -> World {
        self.world
    }

    /// The subscription table.
    pub closed spec fn subscriptions(&self) -> Table<ClientState> {
        self.subscriptions
    }

    /// The scheduler queue, oldest subscriber first.
    pub closed spec fn queue(&self) -> Seq<ClientPriority> {
        self.scheduler@
    }

    /// The invariant: all three parts well-formed, queue addresses unique,
    /// and the queue and the subscription table list the same addresses.
    pub open spec fn wf(&self) -> bool {
        &&& self.world().wf()
        &&& self.subscriptions().wf()
        &&& links_wf(self.subscriptions()@, self.queue())
    }

    /// A core around an existing world, with nobody subscribed yet.
    pub fn new(world: World) -> (c: ServerCore)
        requires
            world.wf(),
        ensures
            c.wf(),
            c.world() == world,
            c.subscriptions()@ == Map::<u64, ClientState>::empty(),
            c.queue() == Seq::<ClientPriority>::empty(),
    {
        ServerCore { world, subscriptions: Table::new(), scheduler: Scheduler::new() }
    }

    /// One incoming datagram from `address`: decode it as a [`Command`] and
    /// dispatch. A `Move` from a known address only refreshes its stored
    /// position; a `Move` from a new address also subscribes it, entering
    /// the scheduler at the baseline priority. A datagram that does not
    /// decode changes nothing and hands the error back to be reported.
    pub fn process_command(&mut self, data: &[u8], address: u64) -> (r: Result<(), DecodeError>)
        requires
            old(self).wf(),
        ensures
            final(self).wf(),
            final(self).world() == old(self).world(),
            match r {
                Ok(_) => spec_decode_command(data@) matches Ok(Command::Move(p)) && {
                    &&& final(self).subscriptions()@ == old(self).subscriptions()@.insert(
                        address,
                        ClientState { position: p },
                    )
                    &&& old(self).subscriptions()@.contains_key(address) ==> final(self).queue()
                        == old(self).queue()
                    &&& !old(self).subscriptions()@.contains_key(address) ==> final(self).queue()
                        == old(self).queue().push(
                        ClientPriority { priority: BASELINE_PRIORITY, address },
                    )
                },
                Err(e) => {
                    &&& spec_decode_command(data@) == Err::<Command, DecodeError>(e)
                    &&& final(self).subscriptions()@ == old(self).subscriptions()@
                    &&& final(self).queue() == old(self).queue()
                },
            },
    {
        match decode_command(data) {
            Err(e) => Err(e),
            Ok(Command::Move(p)) => {
                let known = match self.subscriptions.get(address) {
                    Some(_) => true,
                    None => false,
                };
                self.subscriptions.insert(address, ClientState { position: p });
                if !known {
                    proof {
                        assert forall|a: int| 0 <= a < self.queue().len() implies (
                        #[trigger] self.queue()[a]).address != address by {
                            if self.queue()[a].address == address {
                                assert(old(self).subscriptions()@.contains_key(address));
                            }
                        }
                    }
                    self.scheduler.push(ClientPriority { priority: BASELINE_PRIORITY, address });
                    proof {
                        let q = self.queue();
                        let oldq = old(self).queue();
                        assert forall|k: u64|
                            #[trigger] self.subscriptions()@.contains_key(k) implies exists|a: int|
                            0 <= a < q.len() && (#[trigger] q[a]).address == k by {
                            if k == address {
                                assert(q[oldq.len() as int].address == k);
                            } else {
                                assert(old(self).subscriptions()@.contains_key(k));
                                let a = choose|a: int|
                                    0 <= a < oldq.len() && (#[trigger] oldq[a]).address == k;
                                assert(q[a].address == k);
                            }
                        }
                    }
                } else {
                    proof {
                        assert forall|k: u64|
                            #[trigger] self.subscriptions()@.contains_key(k) implies exists|a: int|
                            0 <= a < self.queue().len() && (#[trigger] self.queue()[a]).address
                                == k by {
                            if k != address {
                                assert(old(self).subscriptions()@.contains_key(k));
                            }
                            let a = choose|a: int|
                                0 <= a < old(self).queue().len() && (#[trigger] old(
                                    self,
                                ).queue()[a]).address == k;
                            assert(self.queue()[a].address == k);
                        }
                    }
                }
                Ok(())
            },
        }
    }

    /// True when one more service opportunity cannot underflow any queued
    /// credit; the transport layer guards [`ServerCore::next_broadcast`]
    /// with this.
    pub fn can_serve(&self) -> (r: bool)
        ensures
            r == queue_has_headroom(self.queue()),
    {
        self.scheduler.can_serve()
    }

    /// One service opportunity: pop the best subscriber, decay its credit,
    /// and produce the encoded full-world snapshot to send to it. An empty
    /// queue is an idle opportunity and yields `None`; the transport layer
    /// should back off rather than spin. A failed send afterwards is the
    /// transport's affair: the subscriber keeps its place either way.
    pub fn next_broadcast(&mut self) -> (r: Option<(u64, Vec<u8>)>)
        requires
            old(self).wf(),
            queue_has_headroom(old(self).queue()),
        ensures
            final(self).wf(),
            final(self).world() == old(self).world(),
            final(self).subscriptions() == old(self).subscriptions(),
            old(self).queue().len() == 0 ==> r is None && final(self).queue() == old(self).queue(),
            old(self).queue().len() > 0 ==> {
                &&& final(self).queue() == serve_step(old(self).queue())
                &&& r matches Some(pair) && pair.0 == served_address(old(self).queue())
                    && pair.1@ == spec_encode_message(
                    spec_snapshot(old(self).world().entries()),
                )
            },
    {
        let served = self.scheduler.serve();
        match served {
            None => None,
            Some(address) => {
                proof {
                    let oldq = old(self).queue();
                    lemma_serve_index_max(oldq);
                    assert forall|j: int| 0 <= j < self.queue().len() implies (
                    #[trigger] self.queue()[j]).address == oldq[j].address by {
                        if j != serve_index(oldq) {
                            assert(self.queue()[j] == oldq[j]);
                        }
                    }
                    assert forall|k: u64|
                        #[trigger] self.subscriptions()@.contains_key(k) implies exists|a: int|
                        0 <= a < self.queue().len() && (#[trigger] self.queue()[a]).address
                            == k by {
                        let a = choose|a: int|
                            0 <= a < oldq.len() && (#[trigger] oldq[a]).address == k;
                        assert(self.queue()[a].address == k);
                    }
                }
                let message = self.world.build_snapshot();
                let bytes = encode_client_message(&message);
                Some((address, bytes))
            },
        }
    }

    /// Simulation capability: insert or replace an entity in the world.
    pub fn insert_entity(&mut self, identity: u64, e: Entity)
        requires
            old(self).wf(),
            entity_valid(e@),
        ensures
            final(self).wf(),
            final(self).world()@ == old(self).world()@.insert(identity, e@),
            final(self).subscriptions() == old(self).subscriptions(),
            final(self).queue() == old(self).queue(),
    {
        self.world.insert_entity(identity, e);
    }

    /// Simulation capability: move an entity to a finite location.
    pub fn set_location(&mut self, identity: u64, location: Point)
        requires
            old(self).wf(),
            crate::world::finite_point(location),
        ensures
            final(self).wf(),
            final(self).subscriptions() == old(self).subscriptions(),
            final(self).queue() == old(self).queue(),
            old(self).world()@.contains_key(identity) ==> final(self).world()@ == old(
                self,
            ).world()@.insert(
                identity,
                EntityV { location, appearance: old(self).world()@[identity].appearance },
            ),
            !old(self).world()@.contains_key(identity) ==> final(self).world()@ == old(
                self,
            ).world()@,
    {
        self.world.set_location(identity, location);
    }

    /// Simulation capability: remove an entity from the world.
    pub fn remove_entity(&mut self, identity: u64)
        requires
            old(self).wf(),
        ensures
            final(self).wf(),
            final(self).world()@ == old(self).world()@.remove(identity),
            final(self).subscriptions() == old(self).subscriptions(),
            final(self).queue() == old(self).queue(),
    {
        self.world.remove_entity(identity);
    }

    /// How many addresses are subscribed.
    pub fn subscriber_count(&self) -> (n: usize)
        ensures
            n == self.subscriptions().entries().len(),
    {
        self.subscriptions.len()
    }

    /// The stored record for a subscribed address.
    pub fn subscription(&self, address: u64) -> (r: Option<&ClientState>)
        requires
            self.wf(),
        ensures
            match r {
                Some(c) => self.subscriptions()@.contains_key(address) && *c
                    == self.subscriptions()@[address],
                None => !self.subscriptions()@.contains_key(address),
            },
    {
        self.subscriptions.get(address)
    }

    /// How many subscribers the scheduler queue holds.
    pub fn queue_len(&self) -> (n: usize)
        ensures
            n == self.queue().len(),
    {
        self.scheduler.len()
    }

    /// The scheduling token at a queue position.
    pub fn queue_token(&self, i: usize) -> (c: ClientPriority)
        requires
            i < self.queue().len(),
        ensures
            c == self.queue()[i as int],
    {
        self.scheduler.token_at(i)
    }

    /// How many entities the world holds.
    pub fn entity_count(&self) -> (n: usize)
        ensures
            n == self.world().entries().len(),
    {
        self.world.len()
    }
}

} // verus!
