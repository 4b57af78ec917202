//! The structural core of a torsional wave chain: a vertical stack of poles,
//! each linked to the pole below and the pole above it, and the angles that
//! every pole sees on its two sides when the wave torque of a frame is taken.
//!
//! The numeric type of an angle is left to the caller: the functions here only
//! select and move angles, so they are generic in it.

pub mod poles;
pub mod settings;
pub mod wave;
