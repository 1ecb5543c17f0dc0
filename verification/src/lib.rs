//! Decisions of a bouncing, mutually attracting particle swarm, stated over
//! IEEE 754 single-precision bit patterns.
//!
//! The arithmetic of a frame (moving a particle, summing the pull of the
//! others) is done by the caller in hardware floating point. What is decided
//! here is when a velocity is turned around at a wall, in which order the
//! particles pull at each other, and which pairs pull at all.

pub mod attraction;
pub mod binary32;
pub mod walls;
