//! Geometry of an animated gear: a closed curve sampled into a polygon, spun
//! about its own axle, moved out by the axle separation, revolved about the
//! origin and mapped to screen pixels, all in exact integer arithmetic.
//!
//! Drawing, the clock, and the sines and cosines that turn an angle into a
//! rotor are left to the caller.
pub mod controls;
pub mod gear;
pub mod geometry;
