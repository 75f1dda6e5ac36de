//! The authoritative world model: entity identity to location and
//! appearance.
//!
//! The simulation collaborator mutates the world through the narrow
//! capability here (insert, move, remove); the networking core only reads
//! it, taking a point-in-time snapshot to build one outbound message. Every
//! entity in the world has a non-empty appearance and a finite location;
//! the mutation capability maintains that invariant.

use crate::table::Table;
use crate::table::has_key;
use crate::table::key_index;
use crate::wire::ClientMessage;
use crate::wire::Point;
use crate::wire::Update;
use crate::wire::UpdateV;
use crate::wire::updates_view;
use vstd::prelude::*;

verus! {

/// True when a 32-bit pattern denotes a finite IEEE-754 single-precision
/// number: its exponent bits are not all ones (which would make it an
/// infinity or a NaN).
pub open spec fn finite_bits(b: u32) -> bool {
    (b >> 23) & 0xff != 0xff
}

/// True when every coordinate of the point is finite.
pub open spec fn finite_point(p: Point) -> bool {
    finite_bits(p.x) && finite_bits(p.y) && finite_bits(p.z)
}

/// Executable check of [`finite_bits`].
pub fn is_finite_bits(b: u32) -> (r: bool)
    ensures
        r == finite_bits(b),
{
    (b >> 23u32) & 0xff != 0xff
}

/// Executable check of [`finite_point`].
pub fn is_finite_point(p: &Point) -> (r: bool)
    ensures
        r == finite_point(*p),
{
    is_finite_bits(p.x) && is_finite_bits(p.y) && is_finite_bits(p.z)
}

/// One simulated object: where it is and what it looks like.
#[derive(Clone, Debug)]
pub struct Entity {
    pub location: Point,
    pub appearance: String,
}

impl Entity {
    pub fn new(location: Point, appearance: String) -> (e: Entity)
        ensures
            e.location == location,
            e.appearance == appearance,
    {
        Entity { location, appearance }
    }
}

/// The mathematical value of an [`Entity`].
pub struct EntityV {
    pub location: Point,
    pub appearance: Seq<char>,
}

impl View for Entity {
    type V = EntityV;

    open spec fn view(&self) -> EntityV {
        EntityV { location: self.location, appearance: self.appearance@ }
    }
}

/// The world invariant for one entity: a non-empty appearance and a finite
/// location.
pub open spec fn entity_valid(e: EntityV) -> bool {
    e.appearance.len() > 0 && finite_point(e.location)
}

/// The full-snapshot projection of world entries: one `EntityAlive` per
/// entity, in entry order. `EntityDead` is never emitted here; the protocol
/// reserves it for future selective removal.
pub open spec fn spec_snapshot(s: Seq<(u64, Entity)>) -> Seq<UpdateV> {
    Seq::new(
        s.len(),
        |i: int| UpdateV::Alive {
            identity: s[i].0,
            location: s[i].1.location,
            appearance: s[i].1.appearance@,
        },
    )
}

/// The authoritative mapping from entity identity to entity.
pub struct World {
    entities: Table<Entity>,
}

impl View for World {
    type V = Map<u64, EntityV>;

    open spec fn view(&self) -> Map<u64, EntityV> {
        Map::new(
            |k: u64| self.table()@.contains_key(k),
            |k: u64| self.table()@[k]@,
        )
    }
}

impl World {
    /// The backing table.
    pub closed spec fn table(&self) -> Table<Entity> {
        self.entities
    }

    /// The entries in snapshot order.
    pub open spec fn entries(&self) -> Seq<(u64, Entity)> {
        self.table().entries()
    }

    /// The world invariant: unique identities, and every entity valid.
    pub open spec fn wf(&self) -> bool {
        &&& self.table().wf()
        &&& forall|i: int|
            0 <= i < self.entries().len() ==> entity_valid((#[trigger] self.entries()[i]).1@)
    }

    /// An empty world.
    pub fn new() -> (w: World)
        ensures
            w.wf(),
            w@ == Map::<u64, EntityV>::empty(),
            w.entries().len() == 0,
    {
        let w = World { entities: Table::new() };
        proof {
            assert(w@ =~= Map::<u64, EntityV>::empty());
        }
        w
    }

    /// How many entities the world holds.
    pub fn len(&self) -> (n: usize)
        ensures
            n == self.entries().len(),
    {
        self.entities.len()
    }

    /// The entity under an identity, if present.
    pub fn get(&self, identity: u64) -> (r: Option<&Entity>)
        requires
            self.wf(),
        ensures
            match r {
                Some(e) => self@.contains_key(identity) && e@ == self@[identity],
                None => !self@.contains_key(identity),
            },
    {
        self.entities.get(identity)
    }

    /// Insert or replace an entity. Part of the simulation collaborator's
    /// mutation capability; the entity must satisfy the world invariant.
    pub fn insert_entity(&mut self, identity: u64, e: Entity)
        requires
            old(self).wf(),
            entity_valid(e@),
        ensures
            final(self).wf(),
            final(self)@ == old(self)@.insert(identity, e@),
            final(self).entries().len() <= old(self).entries().len() + 1,
    {
        let ghost olde = self.entries();
        self.entities.insert(identity, e);
        proof {
            if has_key(olde, identity) {
                assert(self.entries() == olde.update(key_index(olde, identity), (identity, e)));
            } else {
                assert(self.entries() == olde.push((identity, e)));
            }
            assert forall|i: int| 0 <= i < self.entries().len() implies entity_valid(
                (#[trigger] self.entries()[i]).1@,
            ) by {
                if self.entries()[i] != (identity, e) {
                    assert(self.entries()[i] == olde[i]);
                }
            }
            assert(self@ =~= old(self)@.insert(identity, e@));
        }
    }

    /// Move an entity. The location must be finite; a missing identity is a
    /// no-op.
    pub fn set_location(&mut self, identity: u64, location: Point)
        requires
            old(self).wf(),
            finite_point(location),
        ensures
            final(self).wf(),
            old(self)@.contains_key(identity) ==> final(self)@ == old(self)@.insert(
                identity,
                EntityV { location, appearance: old(self)@[identity].appearance },
            ),
            !old(self)@.contains_key(identity) ==> final(self)@ == old(self)@,
    {
        let found = match self.entities.get(identity) {
            Some(e) => Some(Entity { location, appearance: e.appearance.clone() }),
            None => None,
        };
        match found {
            Some(e) => {
                proof {
                    assert(entity_valid(e@)) by {
                        let ghost i = key_index(self.entries(), identity);
                        crate::table::lemma_key_at(self.entries(), i);
                    }
                }
                self.insert_entity(identity, e);
            },
            None => {},
        }
    }

    /// Remove an entity. Part of the simulation collaborator's mutation
    /// capability.
    pub fn remove_entity(&mut self, identity: u64)
        requires
            old(self).wf(),
        ensures
            final(self).wf(),
            final(self)@ == old(self)@.remove(identity),
    {
        let ghost olde = self.entries();
        self.entities.remove(identity);
        proof {
            assert forall|i: int| 0 <= i < self.entries().len() implies entity_valid(
                (#[trigger] self.entries()[i]).1@,
            ) by {
                if has_key(olde, identity) {
                    let j = key_index(olde, identity);
                    if i < j {
                        assert(self.entries()[i] == olde[i]);
                    } else {
                        assert(self.entries()[i] == olde[i + 1]);
                    }
                } else {
                    assert(self.entries()[i] == olde[i]);
                }
            }
            assert(self@ =~= old(self)@.remove(identity));
        }
    }

    /// A point-in-time snapshot of the whole world as one outbound message:
    /// every current entity as `EntityAlive`, in entry order. The caller is
    /// expected to hold the world lock for this call only, never across a
    /// send.
    pub fn build_snapshot(&self) -> (m: ClientMessage)
        ensures
            m@ == spec_snapshot(self.entries()),
    {
        let mut updates: Vec<Update> = Vec::new();
        let n = self.entities.len();
        proof {
            assert(updates_view(updates@) =~= spec_snapshot(self.entries()).take(0));
        }
        for i in 0..n
            invariant
                n == self.entries().len(),
                updates_view(updates@) == spec_snapshot(self.entries()).take(i as int),
        {
            let e = self.entities.entry_at(i);
            let up = Update::EntityAlive {
                identity: e.0,
                location: e.1.location,
                appearance: e.1.appearance.clone(),
            };
            proof {
                assert(*e == self.entries()[i as int]);
                assert(up@ == spec_snapshot(self.entries())[i as int]);
            }
            let ghost pre = updates@;
            updates.push(up);
            proof {
                let snap = spec_snapshot(self.entries());
                assert(updates_view(pre).len() == pre.len());
                assert(snap.take(i as int).len() == i);
                assert(pre.len() == i);
                assert(updates@ == pre.push(up));
                assert(updates@.len() == i + 1);
                assert forall|j: int| 0 <= j < i + 1 implies updates_view(updates@)[j] == snap.take(
                    i + 1,
                )[j] by {
                    if j < i {
                        assert(updates@[j] == pre[j]);
                        assert(updates_view(pre)[j] == snap.take(i as int)[j]);
                    } else {
                        assert(updates@[j] == up);
                    }
                }
                assert(updates_view(updates@) =~= snap.take(i + 1));
            }
        }
        proof {
            assert(spec_snapshot(self.entries()).take(n as int) =~= spec_snapshot(self.entries()));
        }
        ClientMessage { updates }
    }
}

} // verus!
