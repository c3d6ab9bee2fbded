use vstd::prelude::*;

use crate::components::{
    Component, ComponentKind, DetectionInfo, Entity, Moving, Sensor, SensorGhost, SensorStorage,
    Turn,
};
use crate::geometry::Point;

verus! {

/// What one entity holds, as stored.
pub struct EntityData {
    pub position: Option<Point>,
    pub moving: Option<Moving>,
    pub detectable: bool,
    pub sensor: Option<Sensor>,
    pub storage: Option<SensorStorage>,
    pub signal: Option<SensorGhost>,
    pub player: bool,
}

/// What one entity holds; a detection log is a sequence.
pub struct EntityView {
    pub position: Option<Point>,
    pub moving: Option<Moving>,
    pub detectable: bool,
    pub sensor: Option<Sensor>,
    pub log: Option<Seq<DetectionInfo>>,
    pub signal: Option<SensorGhost>,
    pub player: bool,
}

impl View for EntityData {
    type V = EntityView;

    open spec fn view(&self) -> EntityView {
        EntityView {
            position: self.position,
            moving: self.moving,
            detectable: self.detectable,
            sensor: self.sensor,
            log: match self.storage {
                Some(s) => Some(s.detections@),
                None => None,
            },
            signal: self.signal,
            player: self.player,
        }
    }
}

/// An entity with no component.
pub open spec fn empty_view() -> EntityView {
    EntityView {
        position: None,
        moving: None,
        detectable: false,
        sensor: None,
        log: None,
        signal: None,
        player: false,
    }
}

/// The entity `v` once `c` is attached (replacing one of the same kind).
pub open spec fn attach(v: EntityView, c: Component) -> EntityView {
    match c {
        Component::Position(p) => EntityView { position: Some(p), ..v },
        Component::Moving(m) => EntityView { moving: Some(m), ..v },
        Component::Detectable => EntityView { detectable: true, ..v },
        Component::Sensor(s) => EntityView { sensor: Some(s), ..v },
        Component::SensorStorage => EntityView { log: Some(Seq::empty()), ..v },
        Component::SensorGhost(g) => EntityView { signal: Some(g), ..v },
        Component::Player => EntityView { player: true, ..v },
    }
}

/// The entity `v` without its component of kind `k`.
pub open spec fn detach(v: EntityView, k: ComponentKind) -> EntityView {
    match k {
        ComponentKind::Position => EntityView { position: None, ..v },
        ComponentKind::Moving => EntityView { moving: None, ..v },
        ComponentKind::Detectable => EntityView { detectable: false, ..v },
        ComponentKind::Sensor => EntityView { sensor: None, ..v },
        ComponentKind::SensorStorage => EntityView { log: None, ..v },
        ComponentKind::SensorGhost => EntityView { signal: None, ..v },
        ComponentKind::Player => EntityView { player: false, ..v },
    }
}

/// One queued insertion applied; an entity that does not exist is left alone.
pub open spec fn apply_one(ents: Seq<EntityView>, op: (Entity, Component)) -> Seq<EntityView> {
    if op.0.id < ents.len() {
        ents.update(op.0.id as int, attach(ents[op.0.id as int], op.1))
    } else {
        ents
    }
}

/// The queued insertions `q` applied in order.
pub open spec fn apply_all(ents: Seq<EntityView>, q: Seq<(Entity, Component)>) -> Seq<EntityView>
    decreases q.len(),
{
    if q.len() == 0 {
        ents
    } else {
        apply_one(apply_all(ents, q.drop_last()), q.last())
    }
}

/// How many of the first `i` entities are signal records.
pub open spec fn count_signals(ents: Seq<EntityView>, i: int) -> nat
    decreases i,
{
    if i <= 0 {
        0
    } else {
        count_signals(ents, i - 1) + if ents[i - 1].signal.is_some() { 1nat } else { 0nat }
    }
}

/// The registry: entities with their components, the turn counter, and the insertions
/// that wait for the next synchronization point.
pub struct World {
    pub turn: Turn,
    pub entities: Vec<EntityData>,
    pub pending: Vec<(Entity, Component)>,
}

pub struct WorldView {
    pub turn: u64,
    pub entities: Seq<EntityView>,
    pub pending: Seq<(Entity, Component)>,
}

impl View for World {
    type V = WorldView;

    open spec fn view(&self) -> WorldView {
        WorldView {
            turn: self.turn.0,
            entities: self.entities@.map_values(|d: EntityData| d@),
            pending: self.pending@,
        }
    }
}

/// The view of the registry lists the views of the stored entities.
pub proof fn lemma_entities_view(w: &World)
    ensures
        w@.entities.len() == w.entities@.len(),
        forall|i: int| 0 <= i < w.entities@.len() ==> #[trigger] w@.entities[i] == w.entities@[i]@,
{
}

fn empty_data() -> (r: EntityData)
    ensures
        r@ == empty_view(),
{
    EntityData {
        position: None,
        moving: None,
        detectable: false,
        sensor: None,
        storage: None,
        signal: None,
        player: false,
    }
}

impl World {
    /// An empty registry at turn 0.
    pub fn new() -> (r: World)
        ensures
            r@.turn == 0,
            r@.entities == Seq::<EntityView>::empty(),
            r@.pending == Seq::<(Entity, Component)>::empty(),
    {
        let r = World { turn: Turn(0), entities: Vec::new(), pending: Vec::new() };
        assert(r@.entities =~= Seq::<EntityView>::empty());
        r
    }

    pub fn len(&self) -> (r: usize)
        ensures
            r == self@.entities.len(),
    {
        self.entities.len()
    }

    /// A fresh entity with no component.
    pub fn create(&mut self) -> (e: Entity)
        requires
            old(self)@.entities.len() < usize::MAX,
        ensures
            e.id == old(self)@.entities.len(),
            final(self)@.entities == old(self)@.entities.push(empty_view()),
            final(self)@.turn == old(self)@.turn,
            final(self)@.pending == old(self)@.pending,
    {
        let e = Entity { id: self.entities.len() };
        self.entities.push(empty_data());
        assert(self@.entities =~= old(self)@.entities.push(empty_view()));
        e
    }

    /// Attaches `c` to `e` at once; no effect where `e` does not exist.
    pub fn insert(&mut self, e: Entity, c: Component)
        ensures
            final(self)@.entities == apply_one(old(self)@.entities, (e, c)),
            final(self)@.turn == old(self)@.turn,
            final(self)@.pending == old(self)@.pending,
    {
        if e.id < self.entities.len() {
            match c {
                Component::Position(p) => { self.entities[e.id].position = Some(p); },
                Component::Moving(m) => { self.entities[e.id].moving = Some(m); },
                Component::Detectable => { self.entities[e.id].detectable = true; },
                Component::Sensor(s) => { self.entities[e.id].sensor = Some(s); },
                Component::SensorStorage => {
                    self.entities[e.id].storage = Some(SensorStorage::new());
                },
                Component::SensorGhost(g) => { self.entities[e.id].signal = Some(g); },
                Component::Player => { self.entities[e.id].player = true; },
            }
        }
        assert(self@.entities =~= apply_one(old(self)@.entities, (e, c)));
    }

    /// Takes the component of kind `k` from `e`; no effect where `e` does not exist.
    pub fn remove(&mut self, e: Entity, k: ComponentKind)
        ensures
            e.id < old(self)@.entities.len() ==> final(self)@.entities == old(self)@.entities.update(
                e.id as int,
                detach(old(self)@.entities[e.id as int], k),
            ),
            e.id >= old(self)@.entities.len() ==> final(self)@.entities == old(self)@.entities,
            final(self)@.turn == old(self)@.turn,
            final(self)@.pending == old(self)@.pending,
    {
        if e.id < self.entities.len() {
            match k {
                ComponentKind::Position => { self.entities[e.id].position = None; },
                ComponentKind::Moving => { self.entities[e.id].moving = None; },
                ComponentKind::Detectable => { self.entities[e.id].detectable = false; },
                ComponentKind::Sensor => { self.entities[e.id].sensor = None; },
                ComponentKind::SensorStorage => { self.entities[e.id].storage = None; },
                ComponentKind::SensorGhost => { self.entities[e.id].signal = None; },
                ComponentKind::Player => { self.entities[e.id].player = false; },
            }
            assert(self@.entities =~= old(self)@.entities.update(
                e.id as int,
                detach(old(self)@.entities[e.id as int], k),
            ));
        }
    }

    /// Queues the attachment of `c` to `e` until the next `maintain`.
    pub fn lazy_insert(&mut self, e: Entity, c: Component)
        ensures
            final(self)@.pending == old(self)@.pending.push((e, c)),
            final(self)@.entities == old(self)@.entities,
            final(self)@.turn == old(self)@.turn,
    {
        self.pending.push((e, c));
    }

    /// The synchronization point: applies the queued insertions in order and empties the queue.
    pub fn maintain(&mut self)
        ensures
            final(self)@.entities == apply_all(old(self)@.entities, old(self)@.pending),
            final(self)@.pending == Seq::<(Entity, Component)>::empty(),
            final(self)@.turn == old(self)@.turn,
    {
        let mut queue: Vec<(Entity, Component)> = Vec::new();
        std::mem::swap(&mut queue, &mut self.pending);
        let ghost q = queue@;
        let n = queue.len();
        let mut i: usize = 0;
        assert(q.take(0) =~= Seq::<(Entity, Component)>::empty());
        while i < n
            invariant
                n == q.len(),
                queue@ == q,
                q == old(self)@.pending,
                0 <= i <= n,
                self@.entities == apply_all(old(self)@.entities, q.take(i as int)),
                self@.pending == Seq::<(Entity, Component)>::empty(),
                self@.turn == old(self)@.turn,
            decreases n - i,
        {
            let (e, c) = queue[i];
            self.insert(e, c);
            assert(q.take(i + 1).drop_last() =~= q.take(i as int));
            i += 1;
        }
        assert(q.take(n as int) =~= q);
    }

    /// The position of `e`, if it has one.
    pub fn position(&self, e: Entity) -> (r: Option<Point>)
        ensures
            e.id < self@.entities.len() ==> r == self@.entities[e.id as int].position,
            e.id >= self@.entities.len() ==> r.is_none(),
    {
        if e.id < self.entities.len() {
            self.entities[e.id].position
        } else {
            None
        }
    }

    /// The signal record that `e` holds, if any.
    pub fn signal(&self, e: Entity) -> (r: Option<SensorGhost>)
        ensures
            e.id < self@.entities.len() ==> r == self@.entities[e.id as int].signal,
            e.id >= self@.entities.len() ==> r.is_none(),
    {
        if e.id < self.entities.len() {
            self.entities[e.id].signal
        } else {
            None
        }
    }

    /// The number of signal records in the registry.
    pub fn signal_count(&self) -> (r: usize)
        ensures
            r == count_signals(self@.entities, self@.entities.len() as int),
    {
        proof {
            lemma_entities_view(self);
        }
        let mut c: usize = 0;
        let mut i: usize = 0;
        while i < self.entities.len()
            invariant
                0 <= i <= self.entities@.len(),
                self@.entities.len() == self.entities@.len(),
                forall|k: int| 0 <= k < self.entities@.len() ==> #[trigger] self@.entities[k] == self.entities@[k]@,
                c == count_signals(self@.entities, i as int),
                c <= i,
            decreases self.entities@.len() - i,
        {
            if self.entities[i].signal.is_some() {
                c += 1;
            }
            i += 1;
        }
        c
    }

    /// The sensor log of `e`, oldest first; empty where `e` has none.
    pub fn detections(&self, e: Entity) -> (r: Vec<DetectionInfo>)
        ensures
            e.id < self@.entities.len() && self@.entities[e.id as int].log.is_some()
                ==> r@ == self@.entities[e.id as int].log.unwrap(),
            !(e.id < self@.entities.len() && self@.entities[e.id as int].log.is_some())
                ==> r@.len() == 0,
    {
        let mut r: Vec<DetectionInfo> = Vec::new();
        if e.id < self.entities.len() {
            match &self.entities[e.id].storage {
                Some(s) => {
                    let mut i: usize = 0;
                    while i < s.detections.len()
                        invariant
                            0 <= i <= s.detections@.len(),
                            r@ == s.detections@.take(i as int),
                        decreases s.detections@.len() - i,
                    {
                        r.push(s.detections[i]);
                        assert(s.detections@.take(i + 1) =~= s.detections@.take(i as int).push(
                            s.detections@[i as int],
                        ));
                        i += 1;
                    }
                    assert(s.detections@.take(i as int) =~= s.detections@);
                },
                None => {},
            }
        }
        r
    }
}

} // verus!
