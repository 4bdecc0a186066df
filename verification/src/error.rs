//! The errors of the simulation.

use vstd::prelude::*;
use vstd::std_specs::convert::FromSpecImpl;
use vstd::string::StringExecFns;
use crate::io::IOError;
use crate::state_space::StateSpaceError;
use crate::tags::Tag;
use crate::telltale::TellTaleError;
use crate::wind_loads::WindLoadsError;

verus! {

/// What may go wrong in a component of the simulation.
#[derive(Debug)]
pub enum DOSError {
    /// A component was asked for its outputs and has none to give.
    Outputs,
    /// A component was handed other inputs than it declares: these declared
    /// inputs were not among them, or carried nothing.
    Inputs(Vec<Tag>),
    /// A component could not be stepped.
    Step,
    /// The state of a mode is not finite after a step.
    NumericOverflow,
    /// A component was asked for an output that it does not declare.
    OutputUnavailable(Tag),
    IO(IOError),
    WindLoads(WindLoadsError),
    StateSpace(StateSpaceError),
    TellTale(TellTaleError),
    Other(String),
}

impl From<IOError> for DOSError {
    fn from(e: IOError) -> (r: DOSError) {
        DOSError::IO(e)
    }
}

impl FromSpecImpl<IOError> for DOSError {
    open spec fn obeys_from_spec() -> bool {
        true
    }

    open spec fn from_spec(e: IOError) -> DOSError {
        DOSError::IO(e)
    }
}

impl From<WindLoadsError> for DOSError {
    fn from(e: WindLoadsError) -> (r: DOSError) {
        DOSError::WindLoads(e)
    }
}

impl FromSpecImpl<WindLoadsError> for DOSError {
    open spec fn obeys_from_spec() -> bool {
        true
    }

    open spec fn from_spec(e: WindLoadsError) -> DOSError {
        DOSError::WindLoads(e)
    }
}

impl From<StateSpaceError> for DOSError {
    fn from(e: StateSpaceError) -> (r: DOSError) {
        DOSError::StateSpace(e)
    }
}

impl FromSpecImpl<StateSpaceError> for DOSError {
    open spec fn obeys_from_spec() -> bool {
        true
    }

    open spec fn from_spec(e: StateSpaceError) -> DOSError {
        DOSError::StateSpace(e)
    }
}

impl From<TellTaleError> for DOSError {
    fn from(e: TellTaleError) -> (r: DOSError) {
        DOSError::TellTale(e)
    }
}

impl FromSpecImpl<TellTaleError> for DOSError {
    open spec fn obeys_from_spec() -> bool {
        true
    }

    open spec fn from_spec(e: TellTaleError) -> DOSError {
        DOSError::TellTale(e)
    }
}

impl From<String> for DOSError {
    fn from(e: String) -> (r: DOSError) {
        DOSError::Other(e)
    }
}

impl FromSpecImpl<String> for DOSError {
    open spec fn obeys_from_spec() -> bool {
        true
    }

    open spec fn from_spec(e: String) -> DOSError {
        DOSError::Other(e)
    }
}

impl IOError {
    /// What went wrong, in words.
    pub fn message(&self) -> (s: String)
        ensures
            s@ == "a tagged value carries nothing"@,
    {
        "a tagged value carries nothing".to_owned()
    }
}

impl TellTaleError {
    /// What went wrong, in words.
    pub fn message(&self) -> (s: String)
        ensures
            s@ == match self {
                TellTaleError::Step => "Failed stepping entry index"@,
                TellTaleError::Tale => "DOS inserting entry"@,
            },
    {
        match self {
            TellTaleError::Step => "Failed stepping entry index".to_owned(),
            TellTaleError::Tale => "DOS inserting entry".to_owned(),
        }
    }
}

impl WindLoadsError {
    /// What went wrong, in words.
    pub fn message(&self) -> (s: String)
        ensures
            s@ == match self {
                WindLoadsError::EmptyWindLoads => "No wind loads available"@,
                WindLoadsError::Outputs(_) => "Failed getting outputs"@,
            },
    {
        match self {
            WindLoadsError::EmptyWindLoads => "No wind loads available".to_owned(),
            WindLoadsError::Outputs(_) => "Failed getting outputs".to_owned(),
        }
    }
}

impl StateSpaceError {
    /// What went wrong, in words.
    pub fn message(&self) -> (s: String)
        ensures
            s@ == match self {
                StateSpaceError::FemInputs(_) => "No FEM inputs match DOS"@,
                StateSpaceError::FemOutputs(_) => "No FEM outputs match DOS"@,
                StateSpaceError::MissingArguments(name) => "Missing "@ + name@,
            },
    {
        match self {
            StateSpaceError::FemInputs(_) => "No FEM inputs match DOS".to_owned(),
            StateSpaceError::FemOutputs(_) => "No FEM outputs match DOS".to_owned(),
            StateSpaceError::MissingArguments(name) => {
                let mut s = "Missing ".to_owned();
                s.append(name.as_str());
                s
            },
        }
    }
}

impl DOSError {
    /// What went wrong, in words.
    pub fn message(&self) -> (s: String)
        ensures
            s@ == match self {
                DOSError::Outputs => "DOS Outputs failed"@,
                DOSError::Inputs(_) => "DOS Inputs: missing"@,
                DOSError::Step => "DOS Step failed"@,
                DOSError::NumericOverflow => "DOS Step gave a state that is not finite"@,
                DOSError::OutputUnavailable(_) => "DOS Outputs: not an output"@,
                DOSError::IO(_) => "a tagged value carries nothing"@,
                DOSError::WindLoads(WindLoadsError::EmptyWindLoads) => "No wind loads available"@,
                DOSError::WindLoads(WindLoadsError::Outputs(_)) => "Failed getting outputs"@,
                DOSError::StateSpace(StateSpaceError::FemInputs(_)) => "No FEM inputs match DOS"@,
                DOSError::StateSpace(StateSpaceError::FemOutputs(_)) => "No FEM outputs match DOS"@,
                DOSError::StateSpace(StateSpaceError::MissingArguments(name)) => "Missing "@
                    + name@,
                DOSError::TellTale(TellTaleError::Step) => "Failed stepping entry index"@,
                DOSError::TellTale(TellTaleError::Tale) => "DOS inserting entry"@,
                DOSError::Other(text) => text@,
            },
    {
        match self {
            DOSError::Outputs => "DOS Outputs failed".to_owned(),
            DOSError::Inputs(_) => "DOS Inputs: missing".to_owned(),
            DOSError::Step => "DOS Step failed".to_owned(),
            DOSError::NumericOverflow => "DOS Step gave a state that is not finite".to_owned(),
            DOSError::OutputUnavailable(_) => "DOS Outputs: not an output".to_owned(),
            DOSError::IO(e) => e.message(),
            DOSError::WindLoads(e) => e.message(),
            DOSError::StateSpace(e) => e.message(),
            DOSError::TellTale(e) => e.message(),
            DOSError::Other(text) => text.clone(),
        }
    }
}

} // verus!
