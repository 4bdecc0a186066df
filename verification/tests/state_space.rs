use dos::fem::find_port;
use dos::state_space::{frequency_of, io2modes, modes2io, retained_modes, select_fem_io};
use dos::{
    DiscreteModalSolver, DiscreteStateSpace, FemPort, IOTags, MatchFEM, PortElement, Solver,
    StateSpaceError, Tag, FEM, IO,
};

/// A mode that keeps what it was built from, and gives `c` times the
/// product of `b` and the inputs.
#[derive(Debug, Clone, PartialEq)]
struct Probe {
    sampling: f64,
    eigen_frequency: f64,
    zeta: f64,
    b: Vec<f64>,
    c: Vec<f64>,
}

impl Solver<f64> for Probe {
    fn from_second_order(sampling: f64, eigen_frequency: f64, zeta: f64, b: Vec<f64>, c: Vec<f64>) -> Self {
        Probe { sampling, eigen_frequency, zeta, b, c }
    }

    fn solve(&mut self, u: &Vec<f64>) -> Vec<f64> {
        let v: f64 = self.b.iter().zip(u.iter()).map(|(b, u)| b * u).sum();
        self.c.iter().map(|c| c * v).collect()
    }

    fn is_finite(&self) -> bool {
        true
    }
}

fn model() -> FEM<f64> {
    FEM {
        eigen_frequencies: vec![1.0, 2.0],
        proportional_damping_vec: vec![0.1, 0.2],
        inputs_to_modal_forces: vec![1.0, 2.0, 3.0, 4.0, 5.0, 6.0],
        modal_disp_to_outputs: vec![10.0, 11.0, 20.0, 21.0, 30.0, 31.0],
        inputs: vec![
            Some(FemPort::new(Tag::OSSTruss6F, vec![PortElement::on(vec![1, 2])])),
            None,
            Some(FemPort::new(
                Tag::OSSAzDriveTorque,
                vec![PortElement::on(vec![3]), PortElement::off(vec![2])],
            )),
        ],
        outputs: vec![
            Some(FemPort::new(Tag::OSSAzEncoderAngle, vec![PortElement::on(vec![2])])),
            Some(FemPort::new(
                Tag::OSSM1Lcl,
                vec![PortElement::on(vec![1]), PortElement::on(vec![3])],
            )),
        ],
    }
}

fn builder() -> DiscreteStateSpace<f64> {
    DiscreteStateSpace::from(model())
        .sampling(1000.0)
        .inputs(vec![Tag::OSSAzDriveTorque, Tag::OSSTruss6F])
        .outputs(vec![Tag::OSSM1Lcl, Tag::OSSAzEncoderAngle])
}

fn missing_argument(e: StateSpaceError) -> String {
    match e {
        StateSpaceError::MissingArguments(name) => name,
        other => panic!("unexpected {:?}", other),
    }
}

#[test]
fn port_indices_skip_the_elements_out_of_use() {
    let fem = model();
    let port = fem.inputs[2].as_ref().unwrap();
    assert_eq!(port.indices(), vec![3]);
    assert_eq!(fem.inputs[0].as_ref().unwrap().indices(), vec![1, 2]);
    assert_eq!(fem.n_modes(), 2);
}

#[test]
fn a_port_is_found_by_its_name() {
    let fem = model();
    assert_eq!(find_port(&fem.inputs, Tag::OSSAzDriveTorque), Some(vec![3]));
    assert_eq!(find_port(&fem.inputs, Tag::OSSGIR6F), None);
    assert_eq!(find_port(&fem.outputs, Tag::OSSM1Lcl), Some(vec![1, 3]));
}

#[test]
fn a_tagged_value_matches_the_port_of_its_name() {
    let fem = model();
    let truss = fem.inputs[0].as_ref().unwrap();
    let io: IO<Vec<f64>> = IO::new(Tag::OSSTruss6F);
    assert_eq!(io.match_fem_inputs(truss), Some(vec![1, 2]));
    assert_eq!(Tag::OSSGIR6F.match_fem_inputs(truss), None);
    let m1 = fem.outputs[1].as_ref().unwrap();
    assert_eq!(Tag::OSSM1Lcl.match_fem_outputs(m1), Some(vec![1, 3]));
    assert_eq!(IO::<()>::new(Tag::OSSAzEncoderAngle).match_fem_outputs(m1), None);
}

#[test]
fn keep_inputs_drops_the_other_ports() {
    let mut fem = model();
    fem.keep_inputs(&vec![2]);
    assert!(fem.inputs[0].is_none());
    assert!(fem.inputs[1].is_none());
    assert_eq!(fem.inputs[2].as_ref().unwrap().tag, Tag::OSSAzDriveTorque);
    assert_eq!(fem.outputs.len(), 2);
    fem.keep_outputs(&vec![0, 5]);
    assert!(fem.outputs[0].is_some());
    assert!(fem.outputs[1].is_none());
}

#[test]
fn restriction_keeps_the_declared_ports_only() {
    let mut fem = model();
    select_fem_io(&mut fem, &vec![Tag::OSSAzDriveTorque, Tag::OSSGIR6F], &vec![Tag::OSSM1Lcl]);
    assert!(fem.inputs[0].is_none());
    assert!(fem.inputs[1].is_none());
    assert!(fem.inputs[2].is_some());
    assert!(fem.outputs[0].is_none());
    assert!(fem.outputs[1].is_some());
    assert_eq!(fem.inputs_to_modal_forces, model().inputs_to_modal_forces);
}

#[test]
fn input_columns_come_in_declared_order() {
    let fem = model();
    let b = io2modes(&fem, &vec![Tag::OSSAzDriveTorque, Tag::OSSTruss6F]).unwrap();
    assert_eq!(b, vec![3.0, 1.0, 2.0, 6.0, 4.0, 5.0]);
    let b = io2modes(&fem, &vec![Tag::OSSTruss6F]).unwrap();
    assert_eq!(b, vec![1.0, 2.0, 4.0, 5.0]);
}

#[test]
fn output_rows_come_tag_by_tag() {
    let fem = model();
    let c = modes2io(&fem, &vec![Tag::OSSM1Lcl, Tag::OSSAzEncoderAngle]).unwrap();
    assert_eq!(c, vec![vec![10.0, 11.0, 30.0, 31.0], vec![20.0, 21.0]]);
}

#[test]
fn port_mismatch_error() {
    let fem = model();
    let r = io2modes(&fem, &vec![Tag::OSSTruss6F, Tag::OSSElDriveTorque, Tag::OSSGIR6F]);
    assert!(matches!(r, Err(StateSpaceError::FemInputs(Tag::OSSElDriveTorque))));
    let r = modes2io(&fem, &vec![Tag::OSSHardpointD]);
    assert!(matches!(r, Err(StateSpaceError::FemOutputs(Tag::OSSHardpointD))));
    let r = DiscreteStateSpace::from(model())
        .sampling(1000.0)
        .inputs(vec![Tag::OSSElDriveTorque])
        .outputs(vec![Tag::OSSM1Lcl])
        .build::<Probe>();
    assert!(matches!(r, Err(StateSpaceError::FemInputs(Tag::OSSElDriveTorque))));
    let r = DiscreteStateSpace::from(model())
        .sampling(1000.0)
        .inputs(vec![Tag::OSSTruss6F])
        .outputs(vec![Tag::OSSM1Lcl, Tag::MCM2RB6D])
        .build::<Probe>();
    assert!(matches!(r, Err(StateSpaceError::FemOutputs(Tag::MCM2RB6D))));
}

#[test]
fn an_unmatched_input_is_reported_before_an_unmatched_output() {
    let r = DiscreteStateSpace::from(model())
        .sampling(1000.0)
        .inputs(vec![Tag::OSSGIR6F])
        .outputs(vec![Tag::MCM2RB6D])
        .build::<Probe>();
    assert!(matches!(r, Err(StateSpaceError::FemInputs(Tag::OSSGIR6F))));
}

#[test]
fn missing_arguments_are_named_in_order() {
    let r = DiscreteStateSpace::<f64>::new().build::<Probe>();
    assert_eq!(missing_argument(r.unwrap_err()), "sampling");
    let r = DiscreteStateSpace::<f64>::new().sampling(1.0).build::<Probe>();
    assert_eq!(missing_argument(r.unwrap_err()), "FEM");
    let r = DiscreteStateSpace::from(model()).sampling(1.0).build::<Probe>();
    assert_eq!(missing_argument(r.unwrap_err()), "inputs");
    let r = DiscreteStateSpace::from(model())
        .sampling(1.0)
        .inputs(vec![Tag::OSSTruss6F])
        .build::<Probe>();
    assert_eq!(missing_argument(r.unwrap_err()), "outputs");
    let r = DiscreteStateSpace::from(model())
        .outputs(vec![Tag::OSSM1Lcl])
        .inputs(vec![Tag::OSSTruss6F])
        .build::<Probe>();
    assert_eq!(missing_argument(r.unwrap_err()), "sampling");
}

#[test]
fn the_built_solver_is_as_wide_as_the_declared_ports() {
    let solver: DiscreteModalSolver<f64, Probe> = builder().build().unwrap();
    assert_eq!(solver.u, vec![0.0; 3]);
    assert_eq!(solver.y, vec![0.0; 3]);
    assert_eq!(solver.y_sizes, vec![2, 1]);
    assert_eq!(solver.y_sizes.iter().sum::<usize>(), solver.y.len());
    assert_eq!(solver.state_space.len(), 2);
}

#[test]
fn the_tags_come_back_in_declared_order() {
    let solver: DiscreteModalSolver<f64, Probe> = builder().build().unwrap();
    assert_eq!(solver.outputs_tags(), vec![Tag::OSSM1Lcl, Tag::OSSAzEncoderAngle]);
    assert_eq!(solver.inputs_tags(), vec![Tag::OSSAzDriveTorque, Tag::OSSTruss6F]);
}

#[test]
fn tags_declared_later_come_after_those_declared_before() {
    let b = DiscreteStateSpace::<f64>::new()
        .inputs(vec![Tag::OSSTruss6F])
        .inputs(vec![Tag::OSSAzDriveTorque, Tag::OSSGIR6F])
        .outputs(vec![Tag::OSSM1Lcl])
        .outputs(vec![Tag::OSSAzEncoderAngle]);
    assert_eq!(b.u, Some(vec![Tag::OSSTruss6F, Tag::OSSAzDriveTorque, Tag::OSSGIR6F]));
    assert_eq!(b.y, Some(vec![Tag::OSSM1Lcl, Tag::OSSAzEncoderAngle]));
}

#[test]
fn tags_are_taken_from_another_component() {
    let solver: DiscreteModalSolver<f64, Probe> = builder().build().unwrap();
    let b = DiscreteStateSpace::<f64>::new().inputs_from(&solver).outputs_to(&solver);
    assert_eq!(b.u, Some(vec![Tag::OSSM1Lcl, Tag::OSSAzEncoderAngle]));
    assert_eq!(b.y, Some(vec![Tag::OSSAzDriveTorque, Tag::OSSTruss6F]));
}

#[test]
fn each_mode_is_built_from_its_row_and_its_column() {
    let solver: DiscreteModalSolver<f64, Probe> = builder().build().unwrap();
    assert_eq!(
        solver.state_space,
        vec![
            Probe {
                sampling: 1000.0,
                eigen_frequency: 1.0,
                zeta: 0.1,
                b: vec![3.0, 1.0, 2.0],
                c: vec![10.0, 30.0, 20.0],
            },
            Probe {
                sampling: 1000.0,
                eigen_frequency: 2.0,
                zeta: 0.2,
                b: vec![6.0, 4.0, 5.0],
                c: vec![11.0, 31.0, 21.0],
            },
        ]
    );
}

#[test]
fn the_reduced_model_says_what_each_mode_is_made_of() {
    let model = builder().proportional_damping(0.02).reduce().unwrap();
    assert_eq!(model.sampling, 1000.0);
    assert_eq!(model.n_inputs, 3);
    assert_eq!(model.y_sizes, vec![2, 1]);
    assert_eq!(model.u_tags, vec![Tag::OSSAzDriveTorque, Tag::OSSTruss6F]);
    assert_eq!(model.modes.len(), 2);
    assert_eq!(model.modes[1].zeta, 0.02);
    assert_eq!(model.modes[1].eigen_frequency, 2.0);
    assert_eq!(model.modes[1].b, vec![6.0, 4.0, 5.0]);
    assert_eq!(model.modes[1].c, vec![11.0, 31.0, 21.0]);
}

#[test]
fn damping_is_replaced_for_all_the_modes() {
    let solver: DiscreteModalSolver<f64, Probe> =
        builder().proportional_damping(0.02).build().unwrap();
    assert_eq!(solver.state_space[0].zeta, 0.02);
    assert_eq!(solver.state_space[1].zeta, 0.02);
}

#[test]
fn eigen_frequencies_are_replaced_where_named() {
    let solver: DiscreteModalSolver<f64, Probe> = builder()
        .eigen_frequencies(vec![(1, 7.0), (1, 9.0)])
        .build()
        .unwrap();
    assert_eq!(solver.state_space[0].eigen_frequency, 1.0);
    assert_eq!(solver.state_space[1].eigen_frequency, 9.0);
    assert_eq!(frequency_of(&vec![1.0, 2.0], &vec![(0, 5.0), (1, 6.0)], 0), 5.0);
    assert_eq!(frequency_of(&vec![1.0, 2.0], &vec![], 1), 2.0);
}

#[test]
fn modes_above_the_bound_are_dropped() {
    let solver: DiscreteModalSolver<f64, Probe> =
        builder().max_eigen_frequency(1.5).build().unwrap();
    assert_eq!(solver.state_space.len(), 1);
    assert_eq!(solver.state_space[0].eigen_frequency, 1.0);
    assert_eq!(solver.y.len(), 3);
    assert_eq!(retained_modes(&vec![1.0, 2.0, 3.0, 0.5], &2.0), 3);
    assert_eq!(retained_modes(&vec![1.0, 2.0], &0.5), 0);
}

#[test]
fn modes_are_dropped_before_eigen_frequencies_are_replaced() {
    let solver: DiscreteModalSolver<f64, Probe> = builder()
        .max_eigen_frequency(1.5)
        .eigen_frequencies(vec![(0, 50.0)])
        .build()
        .unwrap();
    assert_eq!(solver.state_space.len(), 1);
    assert_eq!(solver.state_space[0].eigen_frequency, 50.0);
}

#[test]
fn the_eigen_frequencies_are_dumped_as_they_are() {
    let mut sink = vec![0.5];
    let b = builder().max_eigen_frequency(1.5).dump_eigen_frequencies(&mut sink);
    assert_eq!(sink, vec![0.5, 1.0, 2.0]);
    assert_eq!(b.max_eigen_frequency, Some(1.5));
}

#[test]
fn dropping_modes_takes_away_what_they_gave() {
    let forces = || {
        vec![
            IO::with(Tag::OSSTruss6F, vec![0.5, -1.0]),
            IO::with(Tag::OSSAzDriveTorque, vec![2.0]),
        ]
    };
    let mut whole: DiscreteModalSolver<f64, Probe> = builder().build().unwrap();
    let mut first: DiscreteModalSolver<f64, Probe> =
        builder().max_eigen_frequency(1.5).build().unwrap();
    whole.in_step_out(forces()).unwrap();
    first.in_step_out(forces()).unwrap();
    let mut dropped = whole.state_space[1].clone();
    let gave = dropped.solve(&whole.u);
    for i in 0..3 {
        assert_eq!(whole.y[i] - first.y[i], gave[i]);
        assert!(first.y[i].abs() <= whole.y[i].abs() + gave[i].abs());
    }
}

#[test]
fn a_model_hangs_together_where_its_shapes_agree() {
    assert!(model().is_well_formed());
    let mut fem = model();
    fem.proportional_damping_vec.pop();
    assert!(!fem.is_well_formed());
    let mut fem = model();
    fem.inputs_to_modal_forces.push(0.0);
    assert!(!fem.is_well_formed());
    let mut fem = model();
    fem.modal_disp_to_outputs.pop();
    assert!(!fem.is_well_formed());
    let mut fem = model();
    fem.inputs[0] = Some(FemPort::new(Tag::OSSTruss6F, vec![PortElement::on(vec![4])]));
    assert!(!fem.is_well_formed());
    let mut fem = model();
    fem.outputs[0] = Some(FemPort::new(Tag::OSSAzEncoderAngle, vec![PortElement::on(vec![0])]));
    assert!(!fem.is_well_formed());
    let mut fem = model();
    fem.inputs[0] = Some(FemPort::new(Tag::OSSTruss6F, vec![PortElement::off(vec![4])]));
    assert!(fem.is_well_formed());
    let empty: FEM<f64> = FEM {
        eigen_frequencies: vec![],
        proportional_damping_vec: vec![],
        inputs_to_modal_forces: vec![],
        modal_disp_to_outputs: vec![],
        inputs: vec![],
        outputs: vec![],
    };
    assert!(!empty.is_well_formed());
}

#[test]
fn a_builder_hangs_together_where_its_overrides_name_modes() {
    assert!(builder().is_well_formed());
    assert!(builder().eigen_frequencies(vec![(1, 3.0)]).is_well_formed());
    assert!(!builder().eigen_frequencies(vec![(0, 3.0), (2, 3.0)]).is_well_formed());
    assert!(DiscreteStateSpace::<f64>::new().eigen_frequencies(vec![(7, 3.0)]).is_well_formed());
}

#[test]
fn a_builder_with_an_input_declared_twice_does_not_hang_together() {
    assert!(!builder().inputs(vec![Tag::OSSTruss6F]).is_well_formed());
    assert!(!DiscreteStateSpace::<f64>::from(model())
        .inputs(vec![Tag::OSSAzDriveTorque, Tag::OSSAzDriveTorque])
        .is_well_formed());
    // an output may be declared twice, and a name may be an input and an output
    assert!(builder().outputs(vec![Tag::OSSM1Lcl]).is_well_formed());
    assert!(builder().outputs(vec![Tag::OSSTruss6F]).is_well_formed());
}
