//! Particles and the coordinates that can be written into a trajectory.

use vstd::prelude::*;

verus! {

/// A point particle. `P` is the type of a position, `V` that of a velocity or
/// a force.
#[derive(Debug, Clone)]
pub struct Particle<P, V> {
    pub old_position: P,
    pub position: P,
    pub velocity: V,
    pub force: V,
}

/// The positions of the particles, in order.
pub open spec fn positions<P, V>(particles: Seq<Particle<P, V>>) -> Seq<P> {
    Seq::new(particles.len(), |k: int| particles[k].position)
}

/// The forces on the particles, in order.
pub open spec fn forces<P, V>(particles: Seq<Particle<P, V>>) -> Seq<V> {
    Seq::new(particles.len(), |k: int| particles[k].force)
}

/// A tuple of coordinates that can be written into a trajectory frame.
pub trait WritableTuple {
    /// Writes the tuple as text: its components, separated by tabs.
    fn write(&self) -> String;
}

} // verus!
