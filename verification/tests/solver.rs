use dos::solver::{accumulate, accumulate_mode, zeros, zeros_of};
use dos::{DOSError, DiscreteModalSolver, IOTags, Solver, Tag, IO};

/// A mode that gives `c` times the product of `b` and the inputs, counts
/// its steps, and keeps that product as its state.
#[derive(Debug, Clone, PartialEq)]
struct Gain {
    b: Vec<f64>,
    c: Vec<f64>,
    steps: usize,
    seen: f64,
}

impl Solver<f64> for Gain {
    fn from_second_order(_: f64, _: f64, _: f64, b: Vec<f64>, c: Vec<f64>) -> Self {
        Gain { b, c, steps: 0, seen: 0.0 }
    }

    fn solve(&mut self, u: &Vec<f64>) -> Vec<f64> {
        self.steps += 1;
        let v: f64 = self.b.iter().zip(u.iter()).map(|(b, u)| b * u).sum();
        self.seen = v;
        self.c.iter().map(|c| c * v).collect()
    }

    fn is_finite(&self) -> bool {
        self.seen.is_finite()
    }
}

fn solver() -> DiscreteModalSolver<f64, Gain> {
    DiscreteModalSolver {
        u: vec![0.0; 3],
        u_tags: vec![Tag::OSSAzDriveTorque, Tag::OSSTruss6F],
        y: vec![0.0; 3],
        y_sizes: vec![2, 1],
        y_tags: vec![Tag::OSSM1Lcl, Tag::OSSAzEncoderAngle],
        state_space: vec![
            Gain { b: vec![1.0, 0.0, 0.0], c: vec![1.0, 2.0, 3.0], steps: 0, seen: 0.0 },
            Gain { b: vec![0.0, 1.0, 1.0], c: vec![10.0, 20.0, 30.0], steps: 0, seen: 0.0 },
            Gain { b: vec![1.0, 1.0, 1.0], c: vec![100.0, 0.0, 0.0], steps: 0, seen: 0.0 },
        ],
    }
}

fn forces() -> Vec<IO<Vec<f64>>> {
    vec![
        IO::with(Tag::OSSAzDriveTorque, vec![2.0]),
        IO::with(Tag::OSSTruss6F, vec![3.0, 4.0]),
    ]
}

fn payloads(out: Vec<IO<Vec<f64>>>) -> Vec<(Tag, Vec<f64>)> {
    out.into_iter().map(|io| (io.tag, io.data.unwrap())).collect()
}

#[test]
fn inputs_are_laid_in_declared_order() {
    let mut s = solver();
    assert!(s.inputs(forces()).is_ok());
    assert_eq!(s.u, vec![2.0, 3.0, 4.0]);
}

#[test]
fn inputs_are_routed_by_name_whatever_their_order() {
    let mut s = solver();
    let mut shuffled = forces();
    shuffled.reverse();
    assert!(s.inputs(shuffled).is_ok());
    assert_eq!(s.u, vec![2.0, 3.0, 4.0]);
}

#[test]
fn a_missing_input_is_named_and_the_solver_left_alone() {
    let mut s = solver();
    s.u = vec![7.0, 8.0, 9.0];
    let r = s.inputs(vec![IO::with(Tag::OSSTruss6F, vec![3.0, 4.0])]);
    match r {
        Err(DOSError::Inputs(missing)) => assert_eq!(missing, vec![Tag::OSSAzDriveTorque]),
        other => panic!("unexpected {:?}", other),
    }
    assert_eq!(s.u, vec![7.0, 8.0, 9.0]);
}

#[test]
fn an_input_that_carries_nothing_is_missing() {
    let mut s = solver();
    let r = s.inputs(vec![IO::new(Tag::OSSAzDriveTorque), IO::with(Tag::OSSTruss6F, vec![3.0, 4.0])]);
    match r {
        Err(DOSError::Inputs(missing)) => assert_eq!(missing, vec![Tag::OSSAzDriveTorque]),
        other => panic!("unexpected {:?}", other),
    }
}

#[test]
fn an_input_that_is_not_declared_is_refused() {
    let mut s = solver();
    let mut data = forces();
    data.push(IO::with(Tag::OSSGIR6F, vec![1.0]));
    match s.inputs(data) {
        Err(DOSError::Inputs(missing)) => assert!(missing.is_empty()),
        other => panic!("unexpected {:?}", other),
    }
    assert_eq!(s.u, vec![0.0; 3]);
    let data = vec![
        IO::with(Tag::OSSAzDriveTorque, vec![2.0]),
        IO::with(Tag::OSSTruss6F, vec![3.0, 4.0]),
        IO::with(Tag::OSSTruss6F, vec![5.0, 6.0]),
    ];
    assert!(matches!(s.inputs(data), Err(DOSError::Inputs(_))));
}

#[test]
fn outputs_are_cut_at_the_declared_widths() {
    let mut s = solver();
    s.y = vec![1.0, 2.0, 3.0];
    let out = s.outputs().unwrap();
    assert_eq!(
        payloads(out),
        vec![(Tag::OSSM1Lcl, vec![1.0, 2.0]), (Tag::OSSAzEncoderAngle, vec![3.0])]
    );
}

#[test]
fn a_step_adds_up_what_the_modes_give() {
    let mut s = solver();
    s.inputs(forces()).unwrap();
    assert_eq!(s.next(), Some(()));
    // mode 1 sees 2, mode 2 sees 3 + 4, mode 3 sees 2 + 3 + 4
    assert_eq!(s.y, vec![2.0 + 70.0 + 900.0, 4.0 + 140.0, 6.0 + 210.0]);
    assert_eq!(s.u, vec![2.0, 3.0, 4.0]);
    assert!(s.state_space.iter().all(|m| m.steps == 1));
}

#[test]
fn a_step_with_no_mode_gives_zeros() {
    let mut s = solver();
    s.state_space.clear();
    s.y = vec![5.0, 6.0, 7.0];
    assert!(s.step().is_ok());
    assert_eq!(s.y, vec![0.0; 3]);
}

#[test]
fn a_step_under_zero_inputs_gives_zero_outputs() {
    let mut s = solver();
    for _ in 0..10 {
        s.step().unwrap();
    }
    assert_eq!(s.y, vec![0.0; 3]);
}

#[test]
fn in_step_out_is_inputs_then_step_then_outputs() {
    let mut one = solver();
    let mut other = solver();
    for tick in 0..5 {
        let data = vec![
            IO::with(Tag::OSSTruss6F, vec![tick as f64, 1.0]),
            IO::with(Tag::OSSAzDriveTorque, vec![0.5 * tick as f64]),
        ];
        let together = one.in_step_out(data.iter().map(|io| io.duplicate()).collect()).unwrap();
        other.inputs(data).unwrap();
        other.step().unwrap();
        let apart = other.outputs();
        assert_eq!(payloads(together.unwrap()), payloads(apart.unwrap()));
        assert_eq!(one.u, other.u);
        assert_eq!(one.y, other.y);
    }
}

#[test]
fn in_step_out_leaves_the_solver_alone_where_the_inputs_are_refused() {
    let mut s = solver();
    s.inputs(forces()).unwrap();
    s.step().unwrap();
    let before = (s.u.clone(), s.y.clone(), s.state_space.clone());
    let r = s.in_step_out(vec![IO::with(Tag::OSSTruss6F, vec![3.0, 4.0])]);
    assert!(matches!(r, Err(DOSError::Inputs(_))));
    assert_eq!((s.u.clone(), s.y.clone(), s.state_space.clone()), before);
}

#[test]
fn the_same_steps_give_the_same_outputs_again() {
    let mut one = solver();
    let mut other = solver();
    for tick in 0..1000 {
        let data = |t: usize| {
            vec![
                IO::with(Tag::OSSAzDriveTorque, vec![(t as f64 * 0.01).sin()]),
                IO::with(Tag::OSSTruss6F, vec![(t as f64 * 0.02).cos(), 0.25]),
            ]
        };
        one.in_step_out(data(tick)).unwrap();
        other.in_step_out(data(tick)).unwrap();
        let peak = one.y.iter().fold(0.0f64, |a, y| a.max(y.abs()));
        let gap = one.y.iter().zip(other.y.iter()).fold(0.0f64, |a, (x, y)| a.max((x - y).abs()));
        assert!(gap <= 1e-12 * peak.max(1e-300));
    }
}

#[test]
fn the_solver_lists_its_tags() {
    let s = solver();
    assert_eq!(s.inputs_tags(), vec![Tag::OSSAzDriveTorque, Tag::OSSTruss6F]);
    assert_eq!(s.outputs_tags(), vec![Tag::OSSM1Lcl, Tag::OSSAzEncoderAngle]);
}

#[test]
fn accumulate_adds_as_far_as_the_second_vector_reaches() {
    assert_eq!(accumulate(vec![1.0, 2.0, 3.0], &vec![10.0, 20.0]), vec![11.0, 22.0, 3.0]);
    assert_eq!(accumulate(vec![1.0], &vec![10.0, 20.0]), vec![11.0]);
    let mut mode = Gain { b: vec![1.0], c: vec![2.0, 3.0], steps: 0, seen: 0.0 };
    assert_eq!(accumulate_mode(vec![1.0, 1.0, 1.0], &mut mode, &vec![4.0]), vec![9.0, 13.0, 1.0]);
    assert_eq!(mode.steps, 1);
}

#[test]
fn zeros_are_as_many_as_asked_for() {
    assert_eq!(zeros::<f64>(4), vec![0.0; 4]);
    assert_eq!(zeros_of::<f64>(&vec![2, 0, 3]), vec![0.0; 5]);
    assert_eq!(zeros_of::<f64>(&vec![]), Vec::<f64>::new());
}

#[test]
fn a_solver_hangs_together_where_the_widths_come_to_the_outputs() {
    let mut s = solver();
    assert!(s.is_well_formed());
    s.y_sizes = vec![2, 2];
    assert!(!s.is_well_formed());
    s.y_sizes = vec![3];
    assert!(!s.is_well_formed());
    s.y_sizes = vec![1, 1];
    assert!(!s.is_well_formed());
    s.y_sizes = vec![0, 3];
    assert!(s.is_well_formed());
    s.y_sizes = vec![usize::MAX, 3];
    assert!(!s.is_well_formed());
}

#[test]
fn a_step_fails_where_a_state_is_not_finite() {
    let mut s = solver();
    s.inputs(vec![
        IO::with(Tag::OSSAzDriveTorque, vec![f64::INFINITY]),
        IO::with(Tag::OSSTruss6F, vec![3.0, 4.0]),
    ])
    .unwrap();
    assert_eq!(s.next(), None);
    assert!(s.state_space.iter().all(|m| m.steps == 1));
    assert!(matches!(s.step(), Err(DOSError::NumericOverflow)));
    assert!(s.state_space.iter().all(|m| m.steps == 2));
    s.inputs(forces()).unwrap();
    assert_eq!(s.next(), Some(()));
    assert!(s.step().is_ok());
}

#[test]
fn a_step_fails_where_one_state_alone_is_not_a_number() {
    let mut s = solver();
    s.inputs(forces()).unwrap();
    s.state_space[1].b = vec![0.0, f64::NAN, 0.0];
    assert_eq!(s.next(), None);
    s.state_space[1].b = vec![0.0, 1.0, 1.0];
    assert_eq!(s.next(), Some(()));
}

#[test]
fn in_step_out_fails_where_a_state_is_not_finite() {
    let mut s = solver();
    let r = s.in_step_out(vec![
        IO::with(Tag::OSSAzDriveTorque, vec![1.0]),
        IO::with(Tag::OSSTruss6F, vec![f64::NEG_INFINITY, 4.0]),
    ]);
    assert!(matches!(r, Err(DOSError::NumericOverflow)));
    assert_eq!(s.u, vec![1.0, f64::NEG_INFINITY, 4.0]);
    assert!(s.state_space.iter().all(|m| m.steps == 1));
}

#[test]
fn a_step_with_no_mode_succeeds() {
    let mut s = solver();
    s.state_space.clear();
    s.u = vec![f64::INFINITY, 0.0, 0.0];
    assert_eq!(s.next(), Some(()));
    assert_eq!(s.y, vec![0.0; 3]);
}

#[test]
fn a_solver_with_a_name_declared_twice_does_not_hang_together() {
    let mut s = solver();
    s.u_tags = vec![Tag::OSSTruss6F, Tag::OSSTruss6F];
    assert!(!s.is_well_formed());
    s.u_tags = vec![Tag::OSSTruss6F, Tag::OSSAzDriveTorque];
    assert!(s.is_well_formed());
    // a name may stand among the inputs and among the outputs
    s.y_tags = vec![Tag::OSSTruss6F, Tag::OSSAzEncoderAngle];
    assert!(s.is_well_formed());
}

#[test]
fn a_value_that_carries_nothing_is_refused_and_nothing_is_laid() {
    let mut s = solver();
    s.u = vec![7.0, 8.0, 9.0];
    let r = s.inputs(vec![IO::with(Tag::OSSAzDriveTorque, vec![2.0]), IO::new(Tag::OSSTruss6F)]);
    match r {
        Err(DOSError::Inputs(missing)) => assert_eq!(missing, vec![Tag::OSSTruss6F]),
        other => panic!("unexpected {:?}", other),
    }
    assert_eq!(s.u, vec![7.0, 8.0, 9.0]);
    // also beside a value of the same name that carries something
    let r = s.inputs(vec![
        IO::new(Tag::OSSTruss6F),
        IO::with(Tag::OSSAzDriveTorque, vec![2.0]),
        IO::with(Tag::OSSTruss6F, vec![3.0, 4.0]),
    ]);
    assert!(matches!(r, Err(DOSError::Inputs(_))));
    assert_eq!(s.u, vec![7.0, 8.0, 9.0]);
    assert_eq!(s.y, vec![0.0; 3]);
    assert!(s.state_space.iter().all(|m| m.steps == 0));
}
