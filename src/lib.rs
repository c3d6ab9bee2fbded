pub mod constants;
pub mod geometry;
pub mod components;
pub mod world;
pub mod movement_systems;
pub mod sensor_systems;
pub mod spawner_system;
pub mod state;
