//! A 2D rigid-polygon collision and movement-resolution engine.
//!
//! Convex polygon colliders are attached to point entities held in a world.
//! Overlap between two colliders is detected with the separating axis
//! theorem (SAT); the minimum translation vector (MTV) removes the
//! smallest-magnitude overlap; a requested entity move is resolved
//! iteratively against all other colliders until no solid overlap remains
//! or a fixed resolution budget is exhausted. Non-solid "trigger" colliders
//! report overlap without ever blocking movement.
//!
//! All geometry is exact rational arithmetic: every contract states the
//! precise value an operation produces. When a reduced rational would leave
//! the machine range, the affected operation gives up in band (an `Option`
//! or an unchanged position) instead of returning an approximate value.

pub mod rat;
pub mod vec2;
pub mod polygon;
pub mod sat;
pub mod world;
pub mod triggers;
