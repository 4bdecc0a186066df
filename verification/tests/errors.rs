use dos::{DOSError, IOError, StateSpaceError, Tag, TellTaleError, WindLoadsError};

#[test]
fn errors_say_what_went_wrong() {
    assert_eq!(DOSError::Outputs.message(), "DOS Outputs failed");
    assert_eq!(DOSError::Step.message(), "DOS Step failed");
    assert_eq!(DOSError::NumericOverflow.message(), "DOS Step gave a state that is not finite");
    assert_eq!(DOSError::Inputs(vec![Tag::MountCmd]).message(), "DOS Inputs: missing");
    assert_eq!(DOSError::OutputUnavailable(Tag::MountCmd).message(), "DOS Outputs: not an output");
    assert_eq!(DOSError::Other("anything".to_owned()).message(), "anything");
    assert_eq!(TellTaleError::Step.message(), "Failed stepping entry index");
    assert_eq!(TellTaleError::Tale.message(), "DOS inserting entry");
    assert_eq!(WindLoadsError::EmptyWindLoads.message(), "No wind loads available");
    assert_eq!(
        WindLoadsError::Outputs(IOError::Missing(Tag::OSSGIR6F)).message(),
        "Failed getting outputs"
    );
    assert_eq!(StateSpaceError::FemInputs(Tag::OSSGIR6F).message(), "No FEM inputs match DOS");
    assert_eq!(StateSpaceError::FemOutputs(Tag::OSSGIR6D).message(), "No FEM outputs match DOS");
    assert_eq!(StateSpaceError::MissingArguments("FEM".to_owned()).message(), "Missing FEM");
    assert_eq!(IOError::Missing(Tag::OSSGIR6F).message(), "a tagged value carries nothing");
}

#[test]
fn errors_of_the_components_become_errors_of_the_simulation() {
    assert!(matches!(DOSError::from(TellTaleError::Tale), DOSError::TellTale(TellTaleError::Tale)));
    assert!(matches!(
        DOSError::from(WindLoadsError::EmptyWindLoads),
        DOSError::WindLoads(WindLoadsError::EmptyWindLoads)
    ));
    assert!(matches!(
        DOSError::from(StateSpaceError::FemInputs(Tag::OSSGIR6F)),
        DOSError::StateSpace(StateSpaceError::FemInputs(Tag::OSSGIR6F))
    ));
    assert!(matches!(
        DOSError::from(IOError::Missing(Tag::OSSGIR6F)),
        DOSError::IO(IOError::Missing(Tag::OSSGIR6F))
    ));
    assert_eq!(DOSError::from("text".to_owned()).message(), "text");
    assert_eq!(DOSError::from(TellTaleError::Step).message(), "Failed stepping entry index");
    assert_eq!(
        DOSError::from(StateSpaceError::MissingArguments("sampling".to_owned())).message(),
        "Missing sampling"
    );
}
