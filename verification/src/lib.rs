//! An evolutionary-computation engine: populations of candidate solutions
//! are rated, grouped into compatibility-based niches, and reproduced
//! generation by generation through elitism, selection, and mating.

pub mod fraction;
pub mod individual;
pub mod mate;
pub mod niche;
pub mod population;
pub mod prob;
pub mod random;
pub mod runner;
pub mod sorting;

pub use fraction::Fraction;
pub use individual::{Fitness, Individual};
pub use mate::{AbsoluteDifference, BestParent, Distance, Evaluate, IdentityFitness, Mate};
pub use niche::{Niche, Niches};
pub use population::{Population, Rated, RatedSorted, Unrated};
pub use random::RandomSource;
pub use runner::{GenerationLimit, Goal, Runner};
