use vstd::prelude::*;

use crate::geometry::Point;

verus! {

/// Identifier of an entity of the registry: its index, never reused.
#[derive(Clone, Copy, Debug, PartialEq, Eq, Structural)]
pub struct Entity {
    pub id: usize,
}

/// The simulation's turn counter.
#[derive(Clone, Copy, Debug, PartialEq, Eq, Structural)]
pub struct Turn(pub u64);

/// A position that an entity held at a past turn, travelling outward at light speed.
#[derive(Clone, Copy, Debug, PartialEq, Eq, Structural)]
pub struct SensorGhost {
    pub emitter: Entity,
    pub turn: u64,
}

/// Marks an entity whose position can be detected by sensors.
#[derive(Clone, Copy, Debug, PartialEq, Eq, Structural)]
pub struct Detectable {}

/// Marks an entity that detects signals up to `max_range`.
#[derive(Clone, Copy, Debug, PartialEq, Eq, Structural)]
pub struct Sensor {
    pub max_range: u32,
}

/// One signal that a sensor perceived, and the turn in which it did.
#[derive(Clone, Copy, Debug, PartialEq, Eq, Structural)]
pub struct DetectionInfo {
    pub position: Point,
    pub turn: Turn,
}

/// The readings that a sensor remembers, oldest first.
pub struct SensorStorage {
    pub detections: Vec<DetectionInfo>,
}

impl SensorStorage {
    pub fn new() -> (r: SensorStorage)
        ensures
            r.detections@ == Seq::<DetectionInfo>::empty(),
    {
        SensorStorage { detections: Vec::new() }
    }
}

/// Marks the entity that the user follows.
#[derive(Clone, Copy, Debug, PartialEq, Eq, Structural)]
pub struct Player {}

/// The displacement that an entity makes each turn.
#[derive(Clone, Copy, Debug, PartialEq, Eq, Structural)]
pub struct Moving {
    pub velocity: Point,
}

/// A component value, tagged by its kind. `SensorStorage` attaches an empty log.
#[derive(Clone, Copy, Debug, PartialEq, Eq, Structural)]
pub enum Component {
    Position(Point),
    Moving(Moving),
    Detectable,
    Sensor(Sensor),
    SensorStorage,
    SensorGhost(SensorGhost),
    Player,
}

/// The kinds of component that an entity can hold.
#[derive(Clone, Copy, Debug, PartialEq, Eq, Structural)]
pub enum ComponentKind {
    Position,
    Moving,
    Detectable,
    Sensor,
    SensorStorage,
    SensorGhost,
    Player,
}

} // verus!
