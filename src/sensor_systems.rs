use vstd::prelude::*;

use crate::components::{Component, DetectionInfo, Entity, SensorGhost, Turn};
use crate::geometry::{dist_sq, distance_sq, in_range, is_travel, light_turns, lemma_travel_unique, within, Point};
use crate::world::{empty_view, lemma_entities_view, EntityView, World};

verus! {

/// The entity leaves a signal each turn: it has a position and is detectable.
pub open spec fn emits(v: EntityView) -> bool {
    v.position.is_some() && v.detectable
}

/// How many of the first `i` entities leave a signal.
pub open spec fn count_emitters(ents: Seq<EntityView>, i: int) -> nat
    decreases i,
{
    if i <= 0 {
        0
    } else {
        count_emitters(ents, i - 1) + if emits(ents[i - 1]) { 1nat } else { 0nat }
    }
}

/// The insertions that emission queues for the first `i` entities at turn `turn`: the k-th
/// emitter gets the fresh entity `ents.len() + k`, with its position and a signal record.
pub open spec fn emit_queue(ents: Seq<EntityView>, i: int, turn: u64) -> Seq<(Entity, Component)>
    decreases i,
{
    if i <= 0 {
        Seq::empty()
    } else {
        let prev = emit_queue(ents, i - 1, turn);
        let v = ents[i - 1];
        if emits(v) {
            let g = Entity { id: (ents.len() + count_emitters(ents, i - 1)) as usize };
            prev + seq![
                (g, Component::Position(v.position.unwrap())),
                (g, Component::SensorGhost(SensorGhost { emitter: Entity { id: (i - 1) as usize }, turn })),
            ]
        } else {
            prev
        }
    }
}

/// The number of entities that leave a signal each turn.
pub fn emitter_count(w: &World) -> (r: usize)
    ensures
        r == count_emitters(w@.entities, w@.entities.len() as int),
{
    proof {
        lemma_entities_view(w);
    }
    let mut c: usize = 0;
    let mut i: usize = 0;
    while i < w.entities.len()
        invariant
            0 <= i <= w.entities@.len(),
            w@.entities.len() == w.entities@.len(),
            forall|k: int| 0 <= k < w.entities@.len() ==> #[trigger] w@.entities[k] == w.entities@[k]@,
            c == count_emitters(w@.entities, i as int),
            c <= i,
        decreases w.entities@.len() - i,
    {
        if w.entities[i].position.is_some() && w.entities[i].detectable {
            c += 1;
        }
        i += 1;
    }
    c
}

/// Places a signal record for every detectable entity with a position.
pub struct GhostPlacer;

impl GhostPlacer {
    /// Creates one entity per emitter at once; its position and record wait for `maintain`.
    pub fn run(&mut self, w: &mut World)
        requires
            old(w)@.entities.len() + count_emitters(old(w)@.entities, old(w)@.entities.len() as int)
                < usize::MAX,
        ensures
            final(w)@.entities == old(w)@.entities + Seq::new(
                count_emitters(old(w)@.entities, old(w)@.entities.len() as int),
                |k: int| empty_view(),
            ),
            final(w)@.pending == old(w)@.pending + emit_queue(
                old(w)@.entities,
                old(w)@.entities.len() as int,
                old(w)@.turn,
            ),
            final(w)@.turn == old(w)@.turn,
    {
        let ghost ents = w@.entities;
        let n = w.entities.len();
        let turn = w.turn.0;
        let mut i: usize = 0;
        assert(ents + Seq::new(0, |k: int| empty_view()) =~= ents);
        assert(w@.pending + emit_queue(ents, 0, turn) =~= w@.pending);
        while i < n
            invariant
                n == ents.len(),
                ents == old(w)@.entities,
                turn == old(w)@.turn,
                0 <= i <= n,
                n + count_emitters(ents, n as int) < usize::MAX,
                count_emitters(ents, i as int) <= count_emitters(ents, n as int),
                w@.entities == ents + Seq::new(count_emitters(ents, i as int), |k: int| empty_view()),
                w@.pending == old(w)@.pending + emit_queue(ents, i as int, turn),
                w@.turn == turn,
            decreases n - i,
        {
            proof {
                lemma_count_mono(ents, i + 1, n as int);
                lemma_entities_view(w);
            }
            assert(w@.entities[i as int] == ents[i as int]);
            assert(w.entities@[i as int]@ == w@.entities[i as int]);
            let detectable = w.entities[i].detectable;
            match w.entities[i].position {
                Some(p) => {
                    if detectable {
                        let g = w.create();
                        w.lazy_insert(g, Component::Position(p));
                        w.lazy_insert(
                            g,
                            Component::SensorGhost(SensorGhost { emitter: Entity { id: i }, turn }),
                        );
                    }
                },
                None => {},
            }
            assert(w@.entities =~= ents + Seq::new(
                count_emitters(ents, i + 1),
                |k: int| empty_view(),
            ));
            assert(w@.pending =~= old(w)@.pending + emit_queue(ents, i + 1, turn));
            i += 1;
        }
    }
}

/// A sensor `me` at `sp` with range `range` perceives, at turn `turn`, the signal `g` that
/// lies at `gp`: the signal is in range, and its age equals the whole turns its light
/// needs, except an entity's own signal of the same turn.
pub open spec fn fires_at(sp: Point, range: u32, me: Entity, gp: Point, g: SensorGhost, turn: u64) -> bool {
    let d2 = dist_sq(sp, gp);
    &&& within(d2, range as int)
    &&& g.turn <= turn
    &&& is_travel(d2, turn - g.turn)
    &&& !(turn == g.turn && g.emitter == me)
}

/// Entity `s` is a sensor with a position and perceives the signal record of entity `j`.
pub open spec fn signal_fires(ents: Seq<EntityView>, s: int, j: int, turn: u64) -> bool {
    &&& ents[s].position.is_some()
    &&& ents[s].sensor.is_some()
    &&& ents[j].position.is_some()
    &&& ents[j].signal.is_some()
    &&& fires_at(
        ents[s].position.unwrap(),
        ents[s].sensor.unwrap().max_range,
        Entity { id: s as usize },
        ents[j].position.unwrap(),
        ents[j].signal.unwrap(),
        turn,
    )
}

/// What sensor `s` perceives at turn `turn` among the records of the first `k` entities.
pub open spec fn found(ents: Seq<EntityView>, s: int, k: int, turn: u64) -> Seq<DetectionInfo>
    decreases k,
{
    if k <= 0 {
        Seq::empty()
    } else if signal_fires(ents, s, k - 1, turn) {
        found(ents, s, k - 1, turn).push(
            DetectionInfo { position: ents[k - 1].position.unwrap(), turn: Turn(turn) },
        )
    } else {
        found(ents, s, k - 1, turn)
    }
}

/// Entity `s` after detection at turn `turn`: a sensor with a position and a log appends
/// what it perceives; any other entity is unchanged.
pub open spec fn detected(ents: Seq<EntityView>, s: int, turn: u64) -> EntityView {
    let v = ents[s];
    if v.position.is_some() && v.sensor.is_some() && v.log.is_some() {
        EntityView { log: Some(v.log.unwrap() + found(ents, s, ents.len() as int, turn)), ..v }
    } else {
        v
    }
}

/// Whether sensor `me` at `sp` perceives the signal `g` at `gp` in turn `turn`.
pub fn perceives(sp: Point, range: u32, me: Entity, gp: Point, g: SensorGhost, turn: u64) -> (r: bool)
    ensures
        r == fires_at(sp, range, me, gp, g, turn),
{
    let d2 = distance_sq(sp, gp);
    if !in_range(d2, range) || g.turn > turn {
        return false;
    }
    assert(d2 < 0x1_0000_0000_0000_0000) by (nonlinear_arith)
        requires d2 <= range as int * range as int, range <= 0xffff_ffff;
    let t = light_turns(d2);
    let age = turn - g.turn;
    proof {
        if is_travel(d2 as int, age as int) {
            lemma_travel_unique(d2 as int, age as int, t as int);
        }
    }
    t == age && !(t == 0 && g.emitter == me)
}

/// Appends to each sensor's log the signals whose light reaches it this turn.
pub struct Detector;

impl Detector {
    pub fn run(&mut self, w: &mut World)
        ensures
            final(w)@.entities == Seq::new(
                old(w)@.entities.len(),
                |i: int| detected(old(w)@.entities, i, old(w)@.turn),
            ),
            final(w)@.turn == old(w)@.turn,
            final(w)@.pending == old(w)@.pending,
    {
        let ghost ents = w@.entities;
        proof {
            lemma_entities_view(w);
        }
        let n = w.entities.len();
        let turn = w.turn.0;
        let mut s: usize = 0;
        while s < n
            invariant
                n == ents.len(),
                ents == old(w)@.entities,
                turn == old(w)@.turn,
                0 <= s <= n,
                w.entities@.len() == n,
                forall|k: int| 0 <= k < s ==> (#[trigger] w.entities@[k])@ == detected(ents, k, turn),
                forall|k: int| s <= k < n ==> (#[trigger] w.entities@[k])@ == ents[k],
                w@.turn == turn,
                w@.pending == old(w)@.pending,
            decreases n - s,
        {
            proof {
                lemma_entities_view(w);
            }
            let sp = w.entities[s].position;
            let sensor = w.entities[s].sensor;
            let taken = w.entities[s].storage.take();
            match (sp, sensor, taken) {
                (Some(sp), Some(sensor), Some(mut st)) => {
                    let ghost log0 = st.detections@;
                    let mut j: usize = 0;
                    while j < n
                        invariant
                            n == ents.len(),
                            0 <= s < n,
                            0 <= j <= n,
                            w.entities@.len() == n,
                            forall|k: int| 0 <= k < n ==> (#[trigger] w.entities@[k]).position == ents[k].position,
                            forall|k: int| 0 <= k < n ==> (#[trigger] w.entities@[k]).signal == ents[k].signal,
                            ents[s as int].position == Some(sp),
                            ents[s as int].sensor == Some(sensor),
                            st.detections@ == log0 + found(ents, s as int, j as int, turn),
                        decreases n - j,
                    {
                        match (w.entities[j].position, w.entities[j].signal) {
                            (Some(gp), Some(g)) => {
                                if perceives(sp, sensor.max_range, Entity { id: s }, gp, g, turn) {
                                    st.detections.push(DetectionInfo { position: gp, turn: Turn(turn) });
                                }
                            },
                            _ => {},
                        }
                        assert(st.detections@ =~= log0 + found(ents, s as int, j + 1, turn));
                        j += 1;
                    }
                    w.entities[s].storage = Some(st);
                },
                (sp, sensor, taken) => {
                    w.entities[s].storage = taken;
                },
            }
            assert(w.entities@[s as int]@ =~= detected(ents, s as int, turn));
            s += 1;
        }
        proof {
            lemma_entities_view(w);
        }
        assert(w@.entities =~= Seq::new(n as nat, |i: int| detected(ents, i, turn)));
    }
}

/// A signal within range reaches a sensor that holds still in exactly one turn: the turn
/// of its emission plus the whole turns its light needs, and in no other turn.
pub proof fn lemma_single_arrival(
    sp: Point,
    range: u32,
    me: Entity,
    gp: Point,
    g: SensorGhost,
    travel: int,
    t: u64,
)
    requires
        is_travel(dist_sq(sp, gp), travel),
        within(dist_sq(sp, gp), range as int),
        !(travel == 0 && g.emitter == me),
    ensures
        fires_at(sp, range, me, gp, g, t) <==> t == g.turn + travel,
{
    if fires_at(sp, range, me, gp, g, t) {
        lemma_travel_unique(dist_sq(sp, gp), t - g.turn, travel);
    }
}

/// A signal farther away than a sensor's range is never perceived by it.
pub proof fn lemma_range_exclusion(sp: Point, range: u32, me: Entity, gp: Point, g: SensorGhost, t: u64)
    requires
        !within(dist_sq(sp, gp), range as int),
    ensures
        !fires_at(sp, range, me, gp, g, t),
{
}

/// A sensor does not perceive its own signal in the turn it was emitted.
pub proof fn lemma_self_exclusion(sp: Point, range: u32, me: Entity, gp: Point, g: SensorGhost)
    requires
        g.emitter == me,
    ensures
        !fires_at(sp, range, me, gp, g, g.turn),
{
}

/// Each entry that detection appends carries the current turn and the position of a
/// record that the sensor perceives in that turn.
pub proof fn lemma_found_sound(ents: Seq<EntityView>, s: int, k: int, turn: u64, m: int)
    requires
        0 <= k <= ents.len(),
        0 <= m < found(ents, s, k, turn).len(),
    ensures
        found(ents, s, k, turn)[m].turn == Turn(turn),
        exists|j: int|
            0 <= j < k && signal_fires(ents, s, j, turn) && found(ents, s, k, turn)[m].position
                == ents[j].position.unwrap(),
    decreases k,
{
    if m < found(ents, s, k - 1, turn).len() {
        lemma_found_sound(ents, s, k - 1, turn, m);
        let j = choose|j: int|
            0 <= j < k - 1 && signal_fires(ents, s, j, turn) && found(ents, s, k - 1, turn)[m].position
                == ents[j].position.unwrap();
        assert(0 <= j < k && signal_fires(ents, s, j, turn));
    } else {
        assert(signal_fires(ents, s, k - 1, turn));
    }
}

/// Each record that a sensor perceives in a turn is in what detection appends in that turn.
pub proof fn lemma_found_complete(ents: Seq<EntityView>, s: int, k: int, turn: u64, j: int)
    requires
        0 <= j < k <= ents.len(),
        signal_fires(ents, s, j, turn),
    ensures
        found(ents, s, k, turn).contains(
            DetectionInfo { position: ents[j].position.unwrap(), turn: Turn(turn) },
        ),
    decreases k,
{
    let d = DetectionInfo { position: ents[j].position.unwrap(), turn: Turn(turn) };
    if j == k - 1 {
        assert(found(ents, s, k, turn).last() == d);
    } else {
        lemma_found_complete(ents, s, k - 1, turn, j);
        let m = choose|m: int| 0 <= m < found(ents, s, k - 1, turn).len() && #[trigger] found(ents, s, k - 1, turn)[m] == d;
        if signal_fires(ents, s, k - 1, turn) {
            assert(found(ents, s, k, turn)[m] == d);
        }
    }
}

/// Counting emitters over a longer prefix never gives fewer.
pub proof fn lemma_count_mono(ents: Seq<EntityView>, i: int, j: int)
    requires
        i <= j,
    ensures
        count_emitters(ents, i) <= count_emitters(ents, j),
    decreases j - i,
{
    if i < j {
        lemma_count_mono(ents, i, j - 1);
    }
}

} // verus!
