//! Dynamic optical simulation of a telescope structure in closed loop with
//! its controllers: the discrete modal state space of the finite element
//! model, the tagged inputs and outputs that wire the components together,
//! the controllers, the wind loads and the data logger.
//!
//! The scalar type `T` of every vector is left to the caller. The library
//! moves scalars, adds them and compares them; it never looks inside one.
//! What a mode or a controller computes at a step is behind a trait.

pub mod controllers;
pub mod driver;
pub mod error;
pub mod feedback;
pub mod fem;
pub mod io;
pub mod matrices;
pub mod order;
pub mod search;
pub mod solver;
pub mod state_space;
pub mod tags;
pub mod telltale;
pub mod vectors;
pub mod wind_loads;

pub use controllers::{Controller, Port, StepFunction};
pub use driver::ControlLoop;
pub use error::DOSError;
pub use fem::{FemPort, MatchFEM, PortElement, FEM};
pub use io::{IOError, IO};
pub use solver::{DiscreteModalSolver, Solver};
pub use state_space::{DiscreteStateSpace, IOTags, ModalModel, SecondOrder, StateSpaceError};
pub use tags::Tag;
pub use telltale::{DataLogging, TellTale, TellTaleError};
pub use wind_loads::{Loads, MatchWindLoads, WindLoading, WindLoads, WindLoadsError};
