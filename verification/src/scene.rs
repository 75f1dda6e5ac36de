//! The client-side scene table: what the client currently believes the world
//! looks like, fed by decoded snapshot messages and read by a rendering
//! consumer at its own pace.
//!
//! Applying updates is idempotent and order-tolerant within the rules of the
//! protocol: each `EntityAlive` is an unconditional upsert, each `EntityDead`
//! an unconditional remove, so replaying a duplicate datagram cannot corrupt
//! the table. A message that fails to decode changes nothing: updates are
//! never half-applied.

use crate::table::Table;
use crate::wire::ClientMessage;
use crate::wire::DecodeError;
use crate::wire::Point;
use crate::wire::Update;
use crate::wire::UpdateV;
use crate::wire::decode_client_message;
use crate::wire::spec_decode_message;
use vstd::prelude::*;

verus! {

/// What the client knows of one entity: where it is and what it looks like.
#[derive(Clone, Debug)]
pub struct EntityInfo {
    pub location: Point,
    pub appearance: String,
}

impl EntityInfo {
    pub fn new(location: Point, appearance: String) -> (e: EntityInfo)
        ensures
            e.location == location,
            e.appearance == appearance,
    {
        EntityInfo { location, appearance }
    }
}

/// The mathematical value of an [`EntityInfo`]: the appearance is its
/// character sequence.
pub struct EntityInfoV {
    pub location: Point,
    pub appearance: Seq<char>,
}

impl View for EntityInfo {
    type V = EntityInfoV;

    open spec fn view(&self) -> EntityInfoV {
        EntityInfoV { location: self.location, appearance: self.appearance@ }
    }
}

/// What one update does to a scene mapping.
pub open spec fn spec_apply_update(
    m: Map<u64, EntityInfoV>,
    u: UpdateV,
) -> Map<u64, EntityInfoV> {
    match u {
        UpdateV::Alive { identity, location, appearance } => m.insert(
            identity,
            EntityInfoV { location, appearance },
        ),
        UpdateV::Dead { identity } => m.remove(identity),
    }
}

/// What a whole message does to a scene mapping: its updates applied in
/// order, so within one message the last write to an identity wins.
pub open spec fn spec_apply_updates(
    m: Map<u64, EntityInfoV>,
    s: Seq<UpdateV>,
) -> Map<u64, EntityInfoV>
    decreases s.len(),
{
    if s.len() == 0 {
        m
    } else {
        spec_apply_updates(spec_apply_update(m, s[0]), s.drop_first())
    }
}

/// `spec_apply_updates` distributes over appending one update.
pub proof fn lemma_apply_updates_snoc(m: Map<u64, EntityInfoV>, s: Seq<UpdateV>, u: UpdateV)
    ensures
        spec_apply_updates(m, s.push(u)) == spec_apply_update(spec_apply_updates(m, s), u),
    decreases s.len(),
{
    if s.len() == 0 {
        assert(s =~= Seq::<UpdateV>::empty());
        assert(s.push(u).drop_first() =~= s);
        assert(s.push(u)[0] == u);
        assert(spec_apply_updates(spec_apply_update(m, u), s) == spec_apply_update(m, u));
    } else {
        lemma_apply_updates_snoc(spec_apply_update(m, s[0]), s.drop_first(), u);
        assert(s.push(u).drop_first() =~= s.drop_first().push(u));
        assert(s.push(u)[0] == s[0]);
    }
}

/// Applying the same update to a scene twice yields the same scene as
/// applying it once, whichever variant the update is.
pub proof fn lemma_apply_update_idempotent(m: Map<u64, EntityInfoV>, u: UpdateV)
    ensures
        spec_apply_update(spec_apply_update(m, u), u) == spec_apply_update(m, u),
{
    match u {
        UpdateV::Alive { identity, location, appearance } => {
            assert(spec_apply_update(spec_apply_update(m, u), u) =~= spec_apply_update(m, u));
        },
        UpdateV::Dead { identity } => {
            assert(spec_apply_update(spec_apply_update(m, u), u) =~= spec_apply_update(m, u));
        },
    }
}

/// The scene table: entity identity to what is known of the entity. Shared
/// with the renderer; the transport layer is expected to hold its lock only
/// for a single message application, never across a socket wait.
pub struct Scene {
    entities: Table<EntityInfo>,
}

impl View for Scene {
    type V = Map<u64, EntityInfoV>;

    open spec fn view(&self) -> Map<u64, EntityInfoV> {
        Map::new(
            |k: u64| self.table()@.contains_key(k),
            |k: u64| self.table()@[k]@,
        )
    }
}

impl Scene {
    /// The backing table.
    pub closed spec fn table(&self) -> Table<EntityInfo> {
        self.entities
    }

    /// The scene's invariant.
    pub open spec fn wf(&self) -> bool {
        self.table().wf()
    }

    /// An empty scene.
    pub fn new() -> (s: Scene)
        ensures
            s.wf(),
            s@ == Map::<u64, EntityInfoV>::empty(),
    {
        let s = Scene { entities: Table::new() };
        proof {
            assert(s@ =~= Map::<u64, EntityInfoV>::empty());
        }
        s
    }

    /// How many entities the scene holds.
    pub fn len(&self) -> (n: usize)
        ensures
            n == self.table().entries().len(),
    {
        self.entities.len()
    }

    /// The entry at a position, for a consumer that walks the table.
    pub fn entry_at(&self, i: usize) -> (e: &(u64, EntityInfo))
        requires
            i < self.table().entries().len(),
        ensures
            *e == self.table().entries()[i as int],
    {
        self.entities.entry_at(i)
    }

    /// What is known of one entity.
    pub fn get(&self, identity: u64) -> (r: Option<&EntityInfo>)
        requires
            self.wf(),
        ensures
            match r {
                Some(e) => self@.contains_key(identity) && e@ == self@[identity],
                None => !self@.contains_key(identity),
            },
    {
        self.entities.get(identity)
    }

    /// Fold one update into the scene: upsert on `EntityAlive`, remove on
    /// `EntityDead`. On an upsert of a present entity the stored appearance
    /// string is kept when its value is unchanged, so a snapshot that moves
    /// an entity does not churn its appearance allocation.
    pub fn apply_update(&mut self, u: &Update)
        requires
            old(self).wf(),
        ensures
            final(self).wf(),
            final(self)@ == spec_apply_update(old(self)@, u@),
    {
        match u {
            Update::EntityAlive { identity, location, appearance } => {
                let info = match self.entities.get(*identity) {
                    Some(e) => {
                        if e.appearance == *appearance {
                            EntityInfo { location: *location, appearance: e.appearance.clone() }
                        } else {
                            EntityInfo { location: *location, appearance: appearance.clone() }
                        }
                    },
                    None => EntityInfo { location: *location, appearance: appearance.clone() },
                };
                self.entities.insert(*identity, info);
                proof {
                    assert(self@ =~= spec_apply_update(old(self)@, u@));
                }
            },
            Update::EntityDead { identity } => {
                self.entities.remove(*identity);
                proof {
                    assert(self@ =~= spec_apply_update(old(self)@, u@));
                }
            },
        }
    }

    /// Fold a whole decoded message into the scene, in order.
    pub fn apply_message(&mut self, m: &ClientMessage)
        requires
            old(self).wf(),
        ensures
            final(self).wf(),
            final(self)@ == spec_apply_updates(old(self)@, m@),
    {
        let n = m.updates.len();
        for j in 0..n
            invariant
                n == m.updates@.len(),
                self.wf(),
                self@ == spec_apply_updates(old(self)@, m@.take(j as int)),
        {
            self.apply_update(&m.updates[j]);
            proof {
                lemma_apply_updates_snoc(old(self)@, m@.take(j as int), m@[j as int]);
                assert(m@.take(j + 1 as int) =~= m@.take(j as int).push(m@[j as int]));
            }
        }
        proof {
            assert(m@.take(n as int) =~= m@);
        }
    }
}

/// The client receive path after the socket: decode one datagram as a
/// snapshot message and fold it into the scene. A datagram that fails to
/// decode is reported and leaves the scene untouched; nothing is
/// half-applied.
pub fn process_client_message(scene: &mut Scene, data: &[u8]) -> (r: Result<(), DecodeError>)
    requires
        old(scene).wf(),
    ensures
        final(scene).wf(),
        match r {
            Ok(_) => spec_decode_message(data@) matches Ok(s) && final(scene)@
                == spec_apply_updates(old(scene)@, s),
            Err(e) => spec_decode_message(data@) == Err::<Seq<UpdateV>, DecodeError>(e)
                && final(scene)@ == old(scene)@,
        },
{
    match decode_client_message(data) {
        Ok(msg) => {
            scene.apply_message(&msg);
            Ok(())
        },
        Err(e) => Err(e),
    }
}

} // verus!
