//! Gameplay core of an arcade climber: a point flies up a corridor, latches onto
//! circular nodes and orbits them.
//!
//! Every quantity is an integer. Lengths are counted in millionths of a world
//! unit, times in microseconds, and a direction is a vector whose length is one
//! million.
//!
//! Sines and cosines are never computed here. A tick that orbits is made in
//! two steps: [`world::World::orbit_angle`] tells the angle that the tick
//! sweeps, and the caller hands the cosine and sine of that angle to
//! [`world::World::try_update`], which holds them against the angle before it
//! turns the player by them.

pub mod attach;
pub mod field;
pub mod fixed;
pub mod geometry;
pub mod node;
pub mod player;
pub mod theorems;
pub mod vector;
pub mod world;
