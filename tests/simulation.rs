use lightspeed::components::{Component, ComponentKind, DetectionInfo, Entity, Moving, Sensor, SensorGhost, Turn};
use lightspeed::constants::LIGHTSPEED;
use lightspeed::geometry::{distance_sq, in_range, light_turns, Point};
use lightspeed::movement_systems::Mover;
use lightspeed::sensor_systems::{perceives, Detector, GhostPlacer};
use lightspeed::spawner_system::Spawner;
use lightspeed::state::State;
use lightspeed::world::World;

fn sensor_at(w: &mut World, p: Point, range: u32) -> Entity {
    let e = w.create();
    w.insert(e, Component::Position(p));
    w.insert(e, Component::Sensor(Sensor { max_range: range }));
    w.insert(e, Component::SensorStorage);
    e
}

fn entries_for(log: &[DetectionInfo], p: Point) -> Vec<u64> {
    log.iter().filter(|d| d.position == p).map(|d| d.turn.0).collect()
}

/// Runs turns until the clock reads `until`, with `target` detectable only in turn `at`.
fn run_single_emission(range: u32, until: u64) -> (State, Entity, Vec<Vec<DetectionInfo>>) {
    let mut st = State::new();
    let s = sensor_at(&mut st.ecs, Point::new(0, 0), range);
    let target = st.ecs.create();
    st.ecs.insert(target, Component::Position(Point::new(35, 0)));
    let mut logs = Vec::new();
    while st.current_turn() < until {
        let next = st.current_turn() + 1;
        if next == 5 {
            st.ecs.insert(target, Component::Detectable);
        } else {
            st.ecs.remove(target, ComponentKind::Detectable);
        }
        st.tick();
        logs.push(st.ecs.detections(s));
    }
    (st, s, logs)
}

#[test]
fn signal_arrives_after_travel_turns() {
    assert_eq!(LIGHTSPEED, 10);
    let (_st, _s, logs) = run_single_emission(100, 12);
    let p = Point::new(35, 0);
    // logs[k] is the log after turn k + 1
    assert!(entries_for(&logs[6], p).is_empty());
    assert_eq!(entries_for(&logs[7], p), vec![8]);
    assert_eq!(entries_for(&logs[8], p), vec![8]);
    assert_eq!(entries_for(&logs[11], p), vec![8]);
}

#[test]
fn signal_beyond_range_is_never_seen() {
    let (_st, _s, logs) = run_single_emission(30, 20);
    for log in &logs {
        assert!(entries_for(log, Point::new(35, 0)).is_empty());
    }
}

#[test]
fn turn_counter_counts_ticks() {
    let mut st = State::new();
    assert_eq!(st.current_turn(), 0);
    for n in 1..=7u64 {
        st.tick();
        assert_eq!(st.current_turn(), n);
    }
    st.advance();
    assert_eq!(st.current_turn(), 8);
}

#[test]
fn mover_adds_velocity() {
    let mut w = World::new();
    let a = w.create();
    w.insert(a, Component::Position(Point::new(1, 2)));
    w.insert(a, Component::Moving(Moving { velocity: Point::new(3, -4) }));
    let b = w.create();
    w.insert(b, Component::Position(Point::new(7, 7)));
    let c = w.create();
    w.insert(c, Component::Moving(Moving { velocity: Point::new(1, 1) }));
    Mover.run(&mut w);
    assert_eq!(w.position(a), Some(Point::new(4, -2)));
    assert_eq!(w.position(b), Some(Point::new(7, 7)));
    assert_eq!(w.position(c), None);
}

#[test]
fn signals_grow_by_detectables_each_turn() {
    let mut st = State::new();
    for i in 0..3 {
        let e = st.ecs.create();
        st.ecs.insert(e, Component::Position(Point::new(i, 0)));
        st.ecs.insert(e, Component::Detectable);
    }
    let plain = st.ecs.create();
    st.ecs.insert(plain, Component::Position(Point::new(9, 9)));
    for t in 1..=4usize {
        st.tick();
        assert_eq!(st.ecs.signal_count(), 3 * t);
    }
    assert_eq!(st.ecs.len(), 4 + 12);
}

#[test]
fn sensor_skips_own_signal_of_same_turn() {
    let mut st = State::new();
    let s = sensor_at(&mut st.ecs, Point::new(0, 0), 100);
    st.ecs.insert(s, Component::Detectable);
    for _ in 0..5 {
        st.tick();
        assert!(st.ecs.detections(s).is_empty());
    }
}

#[test]
fn sensor_sees_other_signal_in_same_cell_at_once() {
    let mut st = State::new();
    let s = sensor_at(&mut st.ecs, Point::new(0, 0), 100);
    let o = st.ecs.create();
    st.ecs.insert(o, Component::Position(Point::new(0, 0)));
    st.ecs.insert(o, Component::Detectable);
    st.tick();
    let log = st.ecs.detections(s);
    assert_eq!(log, vec![DetectionInfo { position: Point::new(0, 0), turn: Turn(1) }]);
}

#[test]
fn sensor_sees_static_entity_late() {
    // a static entity at distance 25 is seen in every turn from turn 3 on, two turns late
    let mut st = State::new();
    let s = sensor_at(&mut st.ecs, Point::new(0, 0), 100);
    let o = st.ecs.create();
    st.ecs.insert(o, Component::Position(Point::new(15, 20)));
    st.ecs.insert(o, Component::Detectable);
    st.tick();
    st.tick();
    assert!(st.ecs.detections(s).is_empty());
    st.tick();
    st.tick();
    let log = st.ecs.detections(s);
    assert_eq!(log, vec![
        DetectionInfo { position: Point::new(15, 20), turn: Turn(3) },
        DetectionInfo { position: Point::new(15, 20), turn: Turn(4) },
    ]);
}

#[test]
fn sensor_without_log_records_nothing() {
    let mut w = World::new();
    let s = w.create();
    w.insert(s, Component::Position(Point::new(0, 0)));
    w.insert(s, Component::Sensor(Sensor { max_range: 10 }));
    let g = w.create();
    w.insert(g, Component::Position(Point::new(1, 0)));
    w.insert(g, Component::SensorGhost(SensorGhost { emitter: Entity { id: 9 }, turn: 0 }));
    Detector.run(&mut w);
    assert!(w.detections(s).is_empty());
}

#[test]
fn exact_distances_and_travel_turns() {
    assert_eq!(distance_sq(Point::new(0, 0), Point::new(3, 4)), 25);
    assert_eq!(distance_sq(Point::new(-2, 5), Point::new(1, 1)), 25);
    assert_eq!(distance_sq(Point::new(i32::MIN, i32::MIN), Point::new(i32::MAX, i32::MAX)), 2 * (u32::MAX as u128) * (u32::MAX as u128));
    assert_eq!(light_turns(0), 0);
    assert_eq!(light_turns(99), 0);
    assert_eq!(light_turns(100), 1);
    assert_eq!(light_turns(1225), 3);
    assert_eq!(light_turns(1599), 3);
    assert_eq!(light_turns(1600), 4);
    assert_eq!(light_turns(u64::MAX as u128), 429496729);
    assert!(in_range(900, 30));
    assert!(!in_range(901, 30));
    assert!(in_range(u32::MAX as u128 * u32::MAX as u128, u32::MAX));
}

#[test]
fn perceives_only_at_arrival() {
    let me = Entity { id: 0 };
    let g = SensorGhost { emitter: Entity { id: 1 }, turn: 5 };
    let sp = Point::new(0, 0);
    let gp = Point::new(35, 0);
    assert!(!perceives(sp, 100, me, gp, g, 4));
    assert!(!perceives(sp, 100, me, gp, g, 7));
    assert!(perceives(sp, 100, me, gp, g, 8));
    assert!(!perceives(sp, 100, me, gp, g, 9));
    assert!(!perceives(sp, 30, me, gp, g, 8));
    assert!(perceives(sp, 35, me, gp, g, 8));
    let own = SensorGhost { emitter: me, turn: 5 };
    assert!(!perceives(sp, 100, me, sp, own, 5));
    assert!(perceives(sp, 100, Entity { id: 2 }, sp, own, 5));
}

#[test]
fn ghost_placer_defers_records() {
    let mut w = World::new();
    let a = w.create();
    w.insert(a, Component::Position(Point::new(4, 4)));
    w.insert(a, Component::Detectable);
    let b = w.create();
    w.insert(b, Component::Position(Point::new(5, 5)));
    GhostPlacer.run(&mut w);
    assert_eq!(w.len(), 3);
    let g = Entity { id: 2 };
    assert_eq!(w.position(g), None);
    assert_eq!(w.signal_count(), 0);
    w.maintain();
    assert_eq!(w.position(g), Some(Point::new(4, 4)));
    assert_eq!(w.signal(g), Some(SensorGhost { emitter: a, turn: 0 }));
    assert_eq!(w.signal_count(), 1);
}

#[test]
fn registry_insert_remove_and_missing_entity() {
    let mut w = World::new();
    let a = w.create();
    assert_eq!(a, Entity { id: 0 });
    w.insert(a, Component::Position(Point::new(1, 1)));
    w.insert(a, Component::Position(Point::new(2, 2)));
    assert_eq!(w.position(a), Some(Point::new(2, 2)));
    w.remove(a, ComponentKind::Position);
    assert_eq!(w.position(a), None);
    let missing = Entity { id: 5 };
    w.insert(missing, Component::Position(Point::new(1, 1)));
    w.lazy_insert(missing, Component::Position(Point::new(1, 1)));
    w.maintain();
    assert_eq!(w.len(), 1);
    assert_eq!(w.position(missing), None);
}

#[test]
fn spawner_seeds_a_row() {
    let mut w = World::new();
    Spawner.run(&mut w);
    assert_eq!(w.len(), 100);
    assert_eq!(w.position(Entity { id: 0 }), None);
    w.maintain();
    assert_eq!(w.position(Entity { id: 0 }), Some(Point::new(100, 10)));
    assert_eq!(w.position(Entity { id: 99 }), Some(Point::new(199, 10)));
    Mover.run(&mut w);
    assert_eq!(w.position(Entity { id: 42 }), Some(Point::new(142, 15)));
}

#[test]
fn try_tick_refuses_a_step_off_the_plane() {
    let mut st = State::new();
    let e = st.ecs.create();
    st.ecs.insert(e, Component::Position(Point::new(i32::MAX, 0)));
    st.ecs.insert(e, Component::Moving(Moving { velocity: Point::new(1, 0) }));
    st.ecs.insert(e, Component::Detectable);
    assert!(!st.try_tick());
    assert_eq!(st.current_turn(), 1);
    assert_eq!(st.ecs.position(e), Some(Point::new(i32::MAX, 0)));
    assert_eq!(st.ecs.signal_count(), 1);

    let mut ok = State::new();
    let f = ok.ecs.create();
    ok.ecs.insert(f, Component::Position(Point::new(i32::MAX - 1, 0)));
    ok.ecs.insert(f, Component::Moving(Moving { velocity: Point::new(1, 0) }));
    assert!(ok.try_tick());
    assert_eq!(ok.ecs.position(f), Some(Point::new(i32::MAX, 0)));
}
