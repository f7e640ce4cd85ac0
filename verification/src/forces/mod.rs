//! The pair-force engine: every unordered pair of particles is put to a pair
//! law once, and what the pairs exchange is collected per worker and summed.
//!
//! The contracts speak of a table of answers, `hits`: row `i` holds, for each
//! partner `j < i`, what the pair law gave for the pair `(i, j)`: `None`
//! where the two do not interact, else the force that `i` loses and `j`
//! gains, and the energy of the pair.
//! * `engine` holds the executable pair loop.
//! * `outcome` says which buffers and energies a run can end with, whatever
//!   `+` and `-` give.
//! * `model` says what they are where sums and differences are exact.
//! * `agreement` proves that the outcome is then the model's.
//! * `exact` proves what holds of the model where forces form a commutative
//!   group: independence of the number of workers, Newton's third law, and
//!   that a pair which does not interact counts as nothing.

pub mod agreement;
pub mod engine;
pub mod exact;
pub mod model;
pub mod outcome;

pub use engine::accumulate_rows;
pub use engine::apply_pair_force;
pub use engine::compute_forces;
