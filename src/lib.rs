//! Physics core of a ball-and-paddle arcade game, in whole world units.
//!
//! The playfield has its origin in the top-left corner with `y` growing
//! downwards. The paddle and the shards of a level are axis-aligned
//! rectangles, so every contact normal in play is an axis-aligned unit vector
//! and every bounce is exact. A contact test against an arbitrary convex
//! polygon is offered as well; it reports the contact direction unscaled.
pub mod collision;
pub mod game;
pub mod geometry;
pub mod obstacle;
pub mod polygon;
