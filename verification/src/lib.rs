//! The core of a particle simulator, written over the types of positions,
//! forces and energies rather than over one number type: the pair-force
//! engine with its per-worker accumulator, element-wise vector sums, the
//! layout of trajectory frames and the order of the stages of a run. The
//! caller supplies the arithmetic and the pair law.

pub mod algebra;
pub mod forces;
pub mod schedule;
pub mod types;
pub mod utility;
pub mod xyz;
