//! Continuous collision detection for bodies that move and turn on a sparse
//! quadtree grid, in whole numbers.
//!
//! Each body is a quadtree of solid and empty cells, placed in the world. In a
//! tick, every body is swept against every other: the corners of its solid
//! cells are followed, in the frame in which the other body is at rest, from
//! one cell boundary to the next, until one of them meets a solid cell. The
//! earliest such contact is resolved by stopping the two bodies against each
//! other along the walls met, and the search starts over for the rest of the
//! tick.
//!
//! The crate decides; it does no trigonometry. Whoever drives it follows the
//! path of a turning corner and hands back where the corner ends up, and
//! supplies the heading of a body whenever its rotation changes:
//!
//! - [`collisions::collect_collision_objects`] sets up the sweeps of a tick;
//! - [`search::Search`] hands out corners, earliest first, and keeps the
//!   earliest contact found;
//! - [`intersection`] tells where a corner stands and which lines it may
//!   cross next, and [`intersection::hitting_wall`] which walls it meets;
//! - [`driver::Substeps`] keeps account of the time of the tick, and
//!   [`driver::tick_entities`], [`driver::apply_normal_force`] and
//!   [`driver::apply_drag`] change the bodies.
//!
//! Lengths, times and angles are fixed-point numbers: see [`math`].

pub mod math;
pub mod zorder;
pub mod graph;
pub mod blocks;
pub mod partition;
pub mod corners;
pub mod particles;
pub mod entities;
pub mod collisions;
pub mod intersection;
pub mod search;
pub mod driver;
pub mod collision_utils;
