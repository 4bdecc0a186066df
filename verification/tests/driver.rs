use dos::driver::{add_at, copies, extend_with, fold_in, run_m1, run_mount, sub_at};
use dos::feedback::Hold;
use dos::{
    ControlLoop, Controller, DOSError, DataLogging, DiscreteModalSolver, IOError, Loads, Port,
    Solver, StepFunction, Tag, WindLoads, IO,
};

/// A mode that gives the sum of the inputs at each output, and keeps that
/// sum as its state.
struct Through {
    n: usize,
    last: f64,
}

impl Solver<f64> for Through {
    fn from_second_order(_: f64, _: f64, _: f64, _: Vec<f64>, c: Vec<f64>) -> Self {
        Through { n: c.len(), last: 0.0 }
    }

    fn solve(&mut self, u: &Vec<f64>) -> Vec<f64> {
        self.last = u.iter().sum();
        vec![self.last; self.n]
    }

    fn is_finite(&self) -> bool {
        self.last.is_finite()
    }
}

/// A step function that gives its step count at each entry of each output.
struct Count {
    widths: Vec<usize>,
    steps: usize,
}

impl StepFunction<f64> for Count {
    fn advance(&mut self, _: &Vec<Vec<f64>>) -> Vec<Vec<f64>> {
        self.steps += 1;
        self.widths.iter().map(|w| vec![self.steps as f64; *w]).collect()
    }
}

fn controller(u: &[(Tag, usize)], y: &[(Tag, usize)]) -> Controller<f64, Count> {
    Controller::new(
        u.iter().map(|p| Port { tag: p.0, width: p.1 }).collect(),
        y.iter().map(|p| Port { tag: p.0, width: p.1 }).collect(),
        Count { widths: y.iter().map(|p| p.1).collect(), steps: 0 },
    )
}

fn control_loop(samples: usize) -> ControlLoop<f64, Through, Count, Count, Count, Count> {
    let series = |base: f64| -> Vec<Vec<f64>> { (0..samples).map(|k| vec![base + k as f64]).collect() };
    let wind = WindLoads::new(
        vec![
            Some(Loads { tag: Tag::OSSM1Lcl6F, samples: series(10.0) }),
            Some(Loads { tag: Tag::OSSCellLcl6F, samples: series(20.0) }),
        ],
        vec![],
    )
    .m1_segments()
    .unwrap()
    .m1_cell()
    .unwrap()
    .build()
    .unwrap();
    let fem = DiscreteModalSolver {
        u: vec![0.0; 3],
        u_tags: vec![Tag::OSSM1Lcl6F, Tag::OSSCellLcl6F, Tag::OSSAzDriveTorque],
        y: vec![0.0; 3],
        y_sizes: vec![1, 1, 1],
        y_tags: vec![Tag::OSSM1Lcl, Tag::OSSAzEncoderAngle, Tag::OSSHardpointD],
        state_space: vec![Through { n: 3, last: 0.0 }],
    };
    ControlLoop::new(
        wind,
        fem,
        controller(&[(Tag::OSSAzEncoderAngle, 1)], &[(Tag::MountCmd, 1)]),
        controller(&[(Tag::MountCmd, 1), (Tag::OSSAzEncoderAngle, 1)], &[(Tag::OSSAzDriveTorque, 1)]),
        controller(&[(Tag::M1HPCmd, 2), (Tag::OSSHardpointD, 1)], &[(Tag::M1HPLC, 2)]),
        controller(&[(Tag::M1HPLC, 2)], &[(Tag::M1CGFM, 1)]),
        DataLogging::new().key(Tag::OSSM1Lcl).build(),
        vec![IO::with(Tag::OSSAzDriveTorque, vec![0.0])],
        10,
    )
}

#[test]
fn the_loop_ends_with_the_wind_loads() {
    let mut sim = control_loop(25);
    let mut ticks = 0;
    while sim.tick().unwrap().is_some() {
        ticks += 1;
    }
    assert_eq!(ticks, 25);
    assert!(sim.tick().unwrap().is_none());
    assert_eq!(sim.wind_loading.tick, 25);
    assert_eq!(sim.data.index, Some(24));
    assert_eq!(sim.mnt_ctrl.kernel.steps, 25);
    assert_eq!(sim.mnt_drives.kernel.steps, 25);
}

#[test]
fn a_slow_controller_runs_every_tenth_tick_and_is_held_between() {
    let mut sim = control_loop(35);
    let mut seen = Vec::new();
    while sim.tick().unwrap().is_some() {
        seen.push(sim.m1_cg_fm.held().unwrap()[0].data.as_ref().unwrap()[0]);
    }
    for (tick, held) in seen.iter().enumerate() {
        assert_eq!(*held, (tick / 10 + 1) as f64, "tick {}", tick);
    }
    assert_eq!(sim.m1_hardpoints.kernel.steps, 4);
    assert_eq!(sim.m1_ctrl.kernel.steps, 4);
    assert_eq!(sim.m1_hardpoints.u[0], vec![0.0, 0.0]);
}

#[test]
fn the_forces_of_the_controllers_are_folded_in() {
    let mut sim = control_loop(3);
    let out = sim.tick().unwrap().unwrap();
    // wind 10 and 20, torque 0, nothing held yet
    assert_eq!(sim.fem.u, vec![10.0, 20.0, 0.0]);
    assert_eq!(sim.fem.y, vec![30.0; 3]);
    let gave: Vec<(Tag, Vec<f64>)> = out.into_iter().map(|io| (io.tag, io.data.unwrap())).collect();
    assert_eq!(
        gave,
        vec![
            (Tag::OSSM1Lcl, vec![30.0]),
            (Tag::OSSAzEncoderAngle, vec![30.0]),
            (Tag::OSSHardpointD, vec![30.0])
        ]
    );
    assert!(sim.tick().unwrap().is_some());
    // wind 11 and 21, torque 1 of the drives, force 1 of the primary mirror
    assert_eq!(sim.fem.u, vec![11.0 + 1.0, 21.0 - 1.0, 1.0]);
    assert_eq!(sim.fem.y, vec![33.0; 3]);
    let series = sim.data.time_series(Tag::OSSM1Lcl).data.unwrap();
    assert_eq!(series, vec![(0, vec![30.0]), (1, vec![33.0])]);
}

#[test]
fn a_tick_fails_where_a_controller_misses_an_input() {
    let mut sim = control_loop(3);
    sim.mnt_ctrl.u_ports.push(Port { tag: Tag::OSSElEncoderAngle, width: 1 });
    sim.mnt_ctrl.u.push(vec![0.0]);
    match sim.tick() {
        Err(DOSError::Inputs(missing)) => assert_eq!(missing, vec![Tag::OSSElEncoderAngle]),
        other => panic!("unexpected {:?}", other),
    }
    assert_eq!(sim.wind_loading.tick, 1);
    assert_eq!(sim.data.index, None);
}

#[test]
fn values_are_copied_and_laid_at_the_end() {
    let a = vec![IO::with(Tag::OSSM1Lcl6F, vec![1.0]), IO::new(Tag::OSSCellLcl6F)];
    let mut b = copies(&a);
    extend_with(&mut b, &vec![IO::with(Tag::MountCmd, vec![2.0, 3.0])]);
    let seen: Vec<(Tag, Option<Vec<f64>>)> = b.into_iter().map(|io| (io.tag, io.data)).collect();
    assert_eq!(
        seen,
        vec![
            (Tag::OSSM1Lcl6F, Some(vec![1.0])),
            (Tag::OSSCellLcl6F, None),
            (Tag::MountCmd, Some(vec![2.0, 3.0]))
        ]
    );
}

#[test]
fn a_force_is_added_under_its_name() {
    let mut data = vec![
        IO::with(Tag::OSSM1Lcl6F, vec![1.0, 2.0]),
        IO::with(Tag::OSSCellLcl6F, vec![1.0, 2.0]),
    ];
    let force = IO::with(Tag::M1CGFM, vec![0.5, 0.25]);
    assert_eq!(add_at(&mut data, Tag::OSSM1Lcl6F, &force), Ok(()));
    assert_eq!(sub_at(&mut data, Tag::OSSCellLcl6F, &force), Ok(()));
    assert_eq!(data[0].data, Some(vec![1.5, 2.25]));
    assert_eq!(data[1].data, Some(vec![0.5, 1.75]));
    assert_eq!(add_at(&mut data, Tag::OSSGIR6F, &force), Err(IOError::Missing(Tag::OSSGIR6F)));
    assert_eq!(sub_at(&mut data, Tag::OSSGIR6F, &force), Err(IOError::Missing(Tag::OSSGIR6F)));
    assert_eq!(data[0].data, Some(vec![1.5, 2.25]));
}

#[test]
fn a_tick_fails_where_the_forces_have_no_place_to_go() {
    let mut sim = control_loop(3);
    sim.wind_loading.loads.pop();
    sim.fem.u_tags = vec![Tag::OSSM1Lcl6F, Tag::OSSAzDriveTorque];
    assert!(sim.tick().unwrap().is_some());
    match sim.tick() {
        Err(DOSError::IO(IOError::Missing(tag))) => assert_eq!(tag, Tag::OSSCellLcl6F),
        other => panic!("unexpected {:?}", other),
    }
}

#[test]
fn a_tick_fails_where_a_step_has_the_wrong_shape() {
    let mut sim = control_loop(3);
    sim.mnt_drives.kernel.widths = vec![2];
    assert!(matches!(sim.tick(), Err(DOSError::Step)));
    assert_eq!(sim.mount_drives_forces.len(), 1);
    assert_eq!(sim.mount_drives_forces[0].data, Some(vec![0.0]));
}

fn values(data: Vec<IO<Vec<f64>>>) -> Vec<(Tag, Option<Vec<f64>>)> {
    data.into_iter().map(|io| (io.tag, io.data)).collect()
}

#[test]
fn forces_are_laid_one_after_the_other_where_nothing_is_held() {
    let wind = vec![IO::with(Tag::OSSM1Lcl6F, vec![1.0]), IO::with(Tag::OSSCellLcl6F, vec![2.0])];
    let torques = vec![IO::with(Tag::OSSAzDriveTorque, vec![3.0])];
    let forces = fold_in(wind, &torques, &Hold::new(10)).unwrap();
    assert_eq!(
        values(forces),
        vec![
            (Tag::OSSM1Lcl6F, Some(vec![1.0])),
            (Tag::OSSCellLcl6F, Some(vec![2.0])),
            (Tag::OSSAzDriveTorque, Some(vec![3.0]))
        ]
    );
}

#[test]
fn held_forces_are_added_to_the_segments_and_subtracted_from_the_cells() {
    let wind = || {
        vec![
            IO::with(Tag::OSSTruss6F, vec![9.0]),
            IO::with(Tag::OSSCellLcl6F, vec![2.0, 2.0]),
            IO::with(Tag::OSSM1Lcl6F, vec![1.0, 1.0]),
            IO::with(Tag::OSSM1Lcl6F, vec![7.0, 7.0]),
        ]
    };
    let mut held = Hold::new(10);
    held.store(vec![IO::with(Tag::M1CGFM, vec![0.5, 0.25]), IO::with(Tag::M1HPLC, vec![8.0])]);
    let forces = fold_in(wind(), &vec![], &held).unwrap();
    assert_eq!(
        values(forces),
        vec![
            (Tag::OSSTruss6F, Some(vec![9.0])),
            (Tag::OSSCellLcl6F, Some(vec![1.5, 1.75])),
            (Tag::OSSM1Lcl6F, Some(vec![1.5, 1.25])),
            (Tag::OSSM1Lcl6F, Some(vec![7.0, 7.0]))
        ]
    );
    let mut empty = Hold::new(10);
    empty.store(vec![]);
    assert_eq!(values(fold_in(wind(), &vec![], &empty).unwrap()), values(wind()));
}

#[test]
fn folding_in_fails_at_the_first_name_that_is_missing() {
    let mut held = Hold::new(10);
    held.store(vec![IO::with(Tag::M1CGFM, vec![0.5])]);
    let r = fold_in(vec![IO::with(Tag::OSSTruss6F, vec![9.0])], &vec![], &held);
    assert_eq!(r.unwrap_err(), IOError::Missing(Tag::OSSM1Lcl6F));
    let r = fold_in(vec![IO::with(Tag::OSSM1Lcl6F, vec![9.0])], &vec![], &held);
    assert_eq!(r.unwrap_err(), IOError::Missing(Tag::OSSCellLcl6F));
    let r = fold_in(vec![], &vec![IO::with(Tag::OSSCellLcl6F, vec![9.0])], &held);
    assert_eq!(r.unwrap_err(), IOError::Missing(Tag::OSSM1Lcl6F));
}

#[test]
fn the_drives_take_the_command_before_what_the_structure_gave() {
    let mut ctrl = controller(&[(Tag::OSSAzEncoderAngle, 1)], &[(Tag::MountCmd, 2)]);
    let mut drives = controller(
        &[(Tag::MountCmd, 2), (Tag::OSSAzEncoderAngle, 1)],
        &[(Tag::OSSAzDriveTorque, 1)],
    );
    let outputs = vec![
        IO::with(Tag::MountCmd, vec![-1.0, -1.0]),
        IO::with(Tag::OSSAzEncoderAngle, vec![0.25]),
    ];
    let torques = run_mount(&mut ctrl, &mut drives, &outputs).unwrap();
    assert_eq!(ctrl.u, vec![vec![0.25]]);
    assert_eq!(drives.u, vec![vec![1.0, 1.0], vec![0.25]]);
    assert_eq!(values(torques), vec![(Tag::OSSAzDriveTorque, Some(vec![1.0]))]);
    let r = run_mount(&mut ctrl, &mut drives, &vec![]);
    match r {
        Err(DOSError::Inputs(missing)) => assert_eq!(missing, vec![Tag::OSSAzEncoderAngle]),
        other => panic!("unexpected {:?}", other),
    }
    assert_eq!(drives.kernel.steps, 1);
}

#[test]
fn the_hardpoints_are_commanded_with_zeros() {
    let mut hardpoints =
        controller(&[(Tag::M1HPCmd, 2), (Tag::OSSHardpointD, 1)], &[(Tag::M1HPLC, 2)]);
    hardpoints.u[0] = vec![5.0, 5.0];
    let mut cg = controller(&[(Tag::M1HPLC, 2)], &[(Tag::M1CGFM, 1)]);
    let outputs = vec![
        IO::with(Tag::M1HPCmd, vec![4.0, 4.0]),
        IO::with(Tag::OSSHardpointD, vec![0.5]),
    ];
    let forces = run_m1(&mut hardpoints, &mut cg, &outputs).unwrap();
    assert_eq!(hardpoints.u, vec![vec![0.0, 0.0], vec![0.5]]);
    assert_eq!(cg.u, vec![vec![1.0, 1.0]]);
    assert_eq!(values(forces), vec![(Tag::M1CGFM, Some(vec![1.0]))]);
    let r = run_m1(&mut hardpoints, &mut cg, &vec![]);
    match r {
        Err(DOSError::Inputs(missing)) => assert_eq!(missing, vec![Tag::OSSHardpointD]),
        other => panic!("unexpected {:?}", other),
    }
    assert_eq!(cg.kernel.steps, 1);
}

#[test]
fn a_loop_of_components_that_hang_together_hangs_together() {
    let mut sim = control_loop(3);
    assert!(sim.is_well_formed());
    sim.tick().unwrap();
    assert!(sim.is_well_formed());
    sim.m1_cg_fm.period = 0;
    assert!(!sim.is_well_formed());
    let mut sim = control_loop(3);
    sim.fem.y_sizes.push(1);
    assert!(!sim.is_well_formed());
    let mut sim = control_loop(3);
    sim.mnt_drives.y[0].push(0.0);
    assert!(!sim.is_well_formed());
}

#[test]
fn a_tick_fails_where_a_state_of_the_structure_is_not_finite() {
    let mut sim = control_loop(5);
    assert!(sim.tick().unwrap().is_some());
    sim.mount_drives_forces = vec![IO::with(Tag::OSSAzDriveTorque, vec![f64::INFINITY])];
    assert!(matches!(sim.tick(), Err(DOSError::NumericOverflow)));
    // the structure has run, nothing after it has
    assert_eq!(sim.wind_loading.tick, 2);
    assert_eq!(sim.fem.u[2], f64::INFINITY);
    assert_eq!(sim.mnt_ctrl.kernel.steps, 1);
    assert_eq!(sim.mnt_drives.kernel.steps, 1);
    assert_eq!(sim.m1_hardpoints.kernel.steps, 1);
    assert_eq!(sim.data.index, Some(0));
    assert_eq!(sim.mount_drives_forces[0].data, Some(vec![f64::INFINITY]));
    // with finite forces the loop goes on
    sim.mount_drives_forces = vec![IO::with(Tag::OSSAzDriveTorque, vec![0.5])];
    assert!(sim.tick().unwrap().is_some());
    assert_eq!(sim.data.index, Some(1));
}
