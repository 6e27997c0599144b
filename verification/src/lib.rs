pub mod base;
pub mod conservation;
pub mod equations;
pub mod rational;
pub mod schemes;

pub use base::Equation;
pub use rational::Rat;
pub use schemes::Scheme;
