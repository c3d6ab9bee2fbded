use vstd::prelude::*;

use crate::components::{Component, Entity, SensorGhost};
use crate::geometry::Point;
use crate::movement_systems::{check_moves_fit, moved, moves_fit, Mover};
use crate::sensor_systems::{count_emitters, emits, emitter_count, lemma_count_mono, detected, emit_queue, Detector, GhostPlacer};
use crate::world::{apply_all, apply_one, count_signals, empty_view, EntityView, World, WorldView};

verus! {

/// The registry after the turn counter moves on by one.
pub open spec fn advanced(w: WorldView) -> WorldView {
    WorldView { turn: (w.turn + 1) as u64, ..w }
}

/// The registry after signal emission: fresh entities, and their components queued.
pub open spec fn emitted(w: WorldView) -> WorldView {
    let n = w.entities.len() as int;
    WorldView {
        entities: w.entities + Seq::new(count_emitters(w.entities, n), |k: int| empty_view()),
        pending: w.pending + emit_queue(w.entities, n, w.turn),
        ..w
    }
}

/// The registry after its synchronization point.
pub open spec fn synced(w: WorldView) -> WorldView {
    WorldView { entities: apply_all(w.entities, w.pending), pending: Seq::empty(), ..w }
}

/// The registry after one movement pass.
pub open spec fn moved_world(w: WorldView) -> WorldView {
    WorldView { entities: w.entities.map_values(|v: EntityView| moved(v)), ..w }
}

/// The registry after one detection pass.
pub open spec fn detected_world(w: WorldView) -> WorldView {
    WorldView {
        entities: Seq::new(w.entities.len(), |i: int| detected(w.entities, i, w.turn)),
        ..w
    }
}

/// One simulated turn: the clock advances, signals are emitted and committed, entities
/// move, and sensors detect.
pub open spec fn turn_step(w: WorldView) -> WorldView {
    detected_world(moved_world(synced(emitted(advanced(w)))))
}

/// `turn_step` applied `n` times.
pub open spec fn turns(w: WorldView, n: nat) -> WorldView
    decreases n,
{
    if n == 0 {
        w
    } else {
        turn_step(turns(w, (n - 1) as nat))
    }
}

/// The turn counter reads `n` more after `n` turns, and never goes back.
pub proof fn lemma_turn_clock(w: WorldView, n: nat)
    requires
        w.turn + n <= u64::MAX,
    ensures
        turns(w, n).turn == w.turn + n,
    decreases n,
{
    if n > 0 {
        lemma_turn_clock(w, (n - 1) as nat);
    }
}

/// Two registries that agree, entity by entity, on who emits and who is a signal record,
/// count the same numbers of both.
proof fn lemma_counts_agree(a: Seq<EntityView>, b: Seq<EntityView>, i: int)
    requires
        0 <= i <= a.len(),
        i <= b.len(),
        forall|j: int|
            0 <= j < i ==> emits(#[trigger] a[j]) == emits(b[j]) && a[j].signal.is_some()
                == b[j].signal.is_some(),
    ensures
        count_emitters(a, i) == count_emitters(b, i),
        count_signals(a, i) == count_signals(b, i),
    decreases i,
{
    if i > 0 {
        lemma_counts_agree(a, b, i - 1);
    }
}

/// Entities from `n` to `m` that are signal records and do not emit add to the records only.
proof fn lemma_counts_tail(a: Seq<EntityView>, n: int, m: int)
    requires
        0 <= n <= m <= a.len(),
        forall|j: int| n <= j < m ==> !emits(#[trigger] a[j]) && a[j].signal.is_some(),
    ensures
        count_emitters(a, m) == count_emitters(a, n),
        count_signals(a, m) == count_signals(a, n) + (m - n),
    decreases m - n,
{
    if n < m {
        lemma_counts_tail(a, n, m - 1);
    }
}

/// What the synchronization point makes of the first `i` entities' emissions: older entities
/// are untouched, each emission has become a record that does not emit, and the entities
/// still waiting for theirs are empty.
proof fn lemma_emission_applied(ents: Seq<EntityView>, i: int, turn: u64)
    requires
        0 <= i <= ents.len(),
        ents.len() + count_emitters(ents, ents.len() as int) <= usize::MAX,
    ensures
        ({
            let n = ents.len() as int;
            let c = count_emitters(ents, n) as int;
            let a = apply_all(ents + Seq::new(c as nat, |k: int| empty_view()), emit_queue(ents, i, turn));
            &&& a.len() == n + c
            &&& forall|j: int| 0 <= j < n ==> #[trigger] a[j] == ents[j]
            &&& forall|j: int|
                n <= j < n + count_emitters(ents, i) ==> !emits(#[trigger] a[j]) && a[j].signal.is_some()
            &&& forall|j: int| n + count_emitters(ents, i) <= j < n + c ==> #[trigger] a[j] == empty_view()
        }),
    decreases i,
{
    let n = ents.len() as int;
    let c = count_emitters(ents, n) as int;
    let e0 = ents + Seq::new(c as nat, |k: int| empty_view());
    if i == 0 {
        assert(emit_queue(ents, 0, turn) =~= Seq::<(Entity, Component)>::empty());
        assert(apply_all(e0, Seq::<(Entity, Component)>::empty()) == e0);
    } else {
        lemma_emission_applied(ents, i - 1, turn);
        lemma_count_mono(ents, i, n);
        let prev = emit_queue(ents, i - 1, turn);
        let v = ents[i - 1];
        if emits(v) {
            let g = Entity { id: (n + count_emitters(ents, i - 1)) as usize };
            let op1 = (g, Component::Position(v.position.unwrap()));
            let op2 = (g, Component::SensorGhost(SensorGhost { emitter: Entity { id: (i - 1) as usize }, turn }));
            let q = prev + seq![op1, op2];
            assert(q =~= emit_queue(ents, i, turn));
            assert(q.drop_last() =~= prev.push(op1));
            assert(prev.push(op1).drop_last() =~= prev);
            assert(q.last() == op2);
            assert(prev.push(op1).last() == op1);
            let a0 = apply_all(e0, prev);
            let k = n + count_emitters(ents, i - 1);
            assert(g.id == k);
            assert(k < n + c);
            assert(a0[k] == empty_view());
            let a1 = apply_one(a0, op1);
            let a2 = apply_one(a1, op2);
            assert(prev.push(op1).len() > 0);
            assert(apply_all(e0, prev.push(op1)) == apply_one(apply_all(e0, prev.push(op1).drop_last()), prev.push(op1).last()));
            assert(apply_all(e0, prev.push(op1)) == a1);
            assert(apply_all(e0, q) == apply_one(apply_all(e0, q.drop_last()), q.last()));
            assert(apply_all(e0, q) == a2);
            assert(a2[k].signal.is_some() && !a2[k].detectable);
            assert(forall|j: int| 0 <= j < n + c && j != k ==> #[trigger] a2[j] == a0[j]);
        } else {
            assert(emit_queue(ents, i, turn) == prev);
        }
    }
}

/// One turn from a registry with nothing queued adds one signal record per emitter, keeps
/// the emitters, and leaves nothing queued.
proof fn lemma_step_counts(w: WorldView)
    requires
        w.pending.len() == 0,
        w.entities.len() + count_emitters(w.entities, w.entities.len() as int) <= usize::MAX,
    ensures
        ({
            let n = w.entities.len() as int;
            let c = count_emitters(w.entities, n);
            let t = turn_step(w);
            &&& t.pending.len() == 0
            &&& t.entities.len() == n + c
            &&& count_emitters(t.entities, t.entities.len() as int) == c
            &&& count_signals(t.entities, t.entities.len() as int) == count_signals(w.entities, n) + c
        }),
{
    let a = advanced(w);
    let ents = w.entities;
    let n = ents.len() as int;
    let c = count_emitters(ents, n) as int;
    lemma_emission_applied(ents, n, a.turn);
    assert(emitted(a).pending =~= emit_queue(ents, n, a.turn));
    let r = synced(emitted(a)).entities;
    lemma_counts_tail(r, n, n + c);
    lemma_counts_agree(r, ents, n);
    let m = moved_world(synced(emitted(a))).entities;
    let d = turn_step(w).entities;
    assert forall|j: int| 0 <= j < n + c implies emits(#[trigger] d[j]) == emits(r[j]) && d[j].signal.is_some()
        == r[j].signal.is_some() by {
        assert(m[j] == moved(r[j]));
        assert(d[j] == detected(m, j, a.turn));
    }
    lemma_counts_agree(d, r, n + c);
}

/// After `t` turns from a registry with nothing queued and `d` emitters, there are `t * d`
/// more signal records, and still `d` emitters.
pub proof fn lemma_signal_growth(w: WorldView, t: nat)
    requires
        w.pending.len() == 0,
        w.entities.len() + t * count_emitters(w.entities, w.entities.len() as int) <= usize::MAX,
    ensures
        ({
            let d = count_emitters(w.entities, w.entities.len() as int);
            let r = turns(w, t);
            &&& r.pending.len() == 0
            &&& r.entities.len() == w.entities.len() + t * d
            &&& count_emitters(r.entities, r.entities.len() as int) == d
            &&& count_signals(r.entities, r.entities.len() as int)
                == count_signals(w.entities, w.entities.len() as int) + t * d
        }),
    decreases t,
{
    let d = count_emitters(w.entities, w.entities.len() as int);
    if t == 0 {
        assert(t * d == 0) by (nonlinear_arith)
            requires t == 0;
        assert(turns(w, t) == w);
    }
    if t > 0 {
        assert(t * d == (t - 1) * d + d) by (nonlinear_arith)
            requires t > 0;
        assert((t - 1) * d <= t * d) by (nonlinear_arith)
            requires t > 0;
        lemma_signal_growth(w, (t - 1) as nat);
        lemma_step_counts(turns(w, (t - 1) as nat));
    }
}

/// The clock can advance, and the registry can take this turn's signal records.
pub open spec fn fits_registry(w: WorldView) -> bool {
    &&& w.turn < u64::MAX
    &&& w.entities.len() + count_emitters(w.entities, w.entities.len() as int) < usize::MAX
}

/// A turn can be run from `w` without leaving the machine's integers.
pub open spec fn can_step(w: WorldView) -> bool {
    let e = advanced(w);
    &&& w.turn < u64::MAX
    &&& w.entities.len() + count_emitters(w.entities, w.entities.len() as int) < usize::MAX
    &&& moves_fit(synced(emitted(e)).entities)
}

/// The simulation: the registry and the view offset that the user controls.
pub struct State {
    pub ecs: World,
    pub view_translation: Point,
}

impl State {
    /// An empty simulation at turn 0.
    pub fn new() -> (r: State)
        ensures
            r.ecs@.turn == 0,
            r.ecs@.entities == Seq::<EntityView>::empty(),
            r.ecs@.pending == Seq::<(Entity, Component)>::empty(),
            r.view_translation == Point::zero_spec(),
    {
        State { ecs: World::new(), view_translation: Point::zero() }
    }

    /// The current turn.
    pub fn current_turn(&self) -> (r: u64)
        ensures
            r == self.ecs@.turn,
    {
        self.ecs.turn.0
    }

    /// Moves the turn counter on by one.
    pub fn advance(&mut self)
        requires
            old(self).ecs@.turn < u64::MAX,
        ensures
            final(self).ecs@ == advanced(old(self).ecs@),
            final(self).view_translation == old(self).view_translation,
    {
        self.ecs.turn.0 = self.ecs.turn.0 + 1;
    }

    /// Runs one simulated turn where that stays within the machine's integers. Otherwise
    /// returns `false`: the clock is at its largest value, the registry too large, or a
    /// movement would leave the `i32` plane, which it finds after emission and before any
    /// entity moves.
    pub fn try_tick(&mut self) -> (r: bool)
        ensures
            r == can_step(old(self).ecs@),
            r ==> final(self).ecs@ == turn_step(old(self).ecs@),
            !r && !fits_registry(old(self).ecs@) ==> final(self).ecs@ == old(self).ecs@,
            !r && fits_registry(old(self).ecs@) ==> final(self).ecs@ == synced(
                emitted(advanced(old(self).ecs@)),
            ),
            final(self).view_translation == old(self).view_translation,
    {
        if self.ecs.turn.0 == u64::MAX {
            return false;
        }
        let n = self.ecs.len();
        let c = emitter_count(&self.ecs);
        if c >= usize::MAX - n {
            return false;
        }
        self.advance();
        let mut placer = GhostPlacer;
        placer.run(&mut self.ecs);
        self.ecs.maintain();
        if !check_moves_fit(&self.ecs) {
            return false;
        }
        let mut mover = Mover;
        mover.run(&mut self.ecs);
        let mut detector = Detector;
        detector.run(&mut self.ecs);
        true
    }

    /// Runs one simulated turn.
    pub fn tick(&mut self)
        requires
            can_step(old(self).ecs@),
        ensures
            final(self).ecs@ == turn_step(old(self).ecs@),
            final(self).view_translation == old(self).view_translation,
    {
        self.advance();
        let mut placer = GhostPlacer;
        placer.run(&mut self.ecs);
        self.ecs.maintain();
        let mut mover = Mover;
        mover.run(&mut self.ecs);
        let mut detector = Detector;
        detector.run(&mut self.ecs);
    }
}

} // verus!
