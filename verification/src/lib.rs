//! An N-dimensional rigid-body physics toolkit: a dimensional-analysis layer
//! of SI exponent vectors, axis-aligned bounding boxes with a median-split
//! broad-phase culler, and an exact sphere-sphere narrow-phase test.
//!
//! Positions and radii are integer coordinates (a caller working in floating
//! point quantizes conservatively: round boxes outward, so that every real
//! overlap is still an integer overlap and the broad phase keeps its
//! no-false-negative guarantee).

pub mod arith;
pub mod collision;
mod dimension;
mod object;
pub mod text;
mod unit;

pub use collision::BoundingBox;
pub use collision::Collider;
pub use collision::find_collisions;
pub use collision::possible_collisions;
pub use dimension::Dimension;
pub use dimension::DimensionError;
pub use dimension::SIPrefix;
pub use object::ObjectID;
pub use unit::Unit;
pub use unit::UnitError;
