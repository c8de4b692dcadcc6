//! Simulation state for a small real-time game: an entity-component store
//! with dense component pools, and a quadtree that tracks where the entities
//! are inside a bounded rectangle.
//!
//! Coordinates are whole numbers of world units. The crate draws nothing and
//! reads no input device: a front end hands in key states and receives lists
//! of things to draw.

pub mod ecs;
pub mod quadtree;
