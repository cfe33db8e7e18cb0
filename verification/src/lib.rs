//! A pressure field on a fixed grid, and point entities that drift down its
//! gradient and bounce off walls and drains.
//!
//! Pressures, positions and velocities are IEEE 754 binary32 numbers. The
//! library holds each of them by its bit pattern, in a [`scalar::Scalar`].

pub mod entity;
pub mod scalar;
pub mod world;
