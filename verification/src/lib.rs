//! Geometric query core of a collision-detection library.
//!
//! Two cooperating layers:
//!
//! * a *support mapping* abstraction for convex shapes ([`implicit`]): a shape
//!   reports the point of its boundary furthest along a direction, inflated by
//!   a non-negative margin along the normalized direction, and
//! * a *query pipeline* ([`pipeline`]): glue that narrows the coarse candidate
//!   sets of an abstract broad-phase index down to exact, filtered, lazily
//!   produced matches for rays, points and axis-aligned bounding boxes.
//!
//! All geometry is carried in exact fixed-point coordinates ([`math::Vec2`]),
//! so every operation of the core is deterministic and fully specified.

pub mod ball;
pub mod geometry;
pub mod groups;
pub mod implicit;
pub mod math;
pub mod object;
pub mod pipeline;
pub mod scan;
pub mod world;
