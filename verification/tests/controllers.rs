use dos::controllers::{
    is_shaped, m1_cg_inputs, m1_cg_outputs, m1_hardpoints_inputs, m1_hardpoints_outputs,
    mount_controller_inputs, mount_controller_outputs, mount_drives_inputs, mount_drives_outputs,
    overlaid, port_position, scratch, tags_of_ports,
};
use dos::feedback::{differences, is_due, sums, Hold};
use dos::{Controller, DOSError, IOTags, Port, StepFunction, Tag, IO};

/// A step function that gives, for each output port, the sum of all its
/// inputs as many times as the port is wide.
struct Sum {
    widths: Vec<usize>,
    steps: usize,
}

impl StepFunction<f64> for Sum {
    fn advance(&mut self, u: &Vec<Vec<f64>>) -> Vec<Vec<f64>> {
        self.steps += 1;
        let s: f64 = u.iter().flatten().sum();
        self.widths.iter().map(|w| vec![s; *w]).collect()
    }
}

fn mount_drives() -> Controller<f64, Sum> {
    Controller::new(
        vec![
            Port { tag: Tag::MountCmd, width: 3 },
            Port { tag: Tag::OSSAzEncoderAngle, width: 2 },
        ],
        vec![
            Port { tag: Tag::OSSAzDriveTorque, width: 2 },
            Port { tag: Tag::OSSElDriveTorque, width: 1 },
        ],
        Sum { widths: vec![2, 1], steps: 0 },
    )
}

fn payloads(out: Vec<IO<Vec<f64>>>) -> Vec<(Tag, Vec<f64>)> {
    out.into_iter().map(|io| (io.tag, io.data.unwrap())).collect()
}

#[test]
fn a_fresh_controller_holds_zeros_of_the_widths_of_its_ports() {
    let c = mount_drives();
    assert_eq!(c.u, vec![vec![0.0; 3], vec![0.0; 2]]);
    assert_eq!(c.y, vec![vec![0.0; 2], vec![0.0; 1]]);
    assert_eq!(c.inputs_tags(), vec![Tag::MountCmd, Tag::OSSAzEncoderAngle]);
    assert_eq!(c.outputs_tags(), vec![Tag::OSSAzDriveTorque, Tag::OSSElDriveTorque]);
    assert_eq!(scratch::<f64>(&c.u_ports), c.u);
    assert_eq!(tags_of_ports(&c.y_ports), c.outputs_tags());
}

#[test]
fn inputs_are_copied_to_the_port_of_their_name() {
    let mut c = mount_drives();
    let r = c.inputs(vec![
        IO::with(Tag::OSSGIR6F, vec![9.0]),
        IO::with(Tag::OSSAzEncoderAngle, vec![4.0, 5.0]),
        IO::with(Tag::MountCmd, vec![1.0, 2.0, 3.0]),
    ]);
    assert!(r.is_ok());
    assert_eq!(c.u, vec![vec![1.0, 2.0, 3.0], vec![4.0, 5.0]]);
}

#[test]
fn inputs_are_copied_as_far_as_the_port_is_wide() {
    let mut c = mount_drives();
    c.inputs(vec![
        IO::with(Tag::OSSAzEncoderAngle, vec![4.0, 5.0, 6.0]),
        IO::with(Tag::MountCmd, vec![1.0]),
    ])
    .unwrap();
    assert_eq!(c.u, vec![vec![1.0, 0.0, 0.0], vec![4.0, 5.0]]);
    assert_eq!(overlaid(&vec![1.0, 2.0, 3.0], &vec![7.0]), vec![7.0, 2.0, 3.0]);
    assert_eq!(overlaid(&vec![1.0], &vec![7.0, 8.0]), vec![7.0]);
}

#[test]
fn missing_inputs_are_named() {
    let mut c = mount_drives();
    let r = c.inputs(vec![IO::with(Tag::OSSAzEncoderAngle, vec![4.0, 5.0]), IO::new(Tag::MountCmd)]);
    match r {
        Err(DOSError::Inputs(missing)) => assert_eq!(missing, vec![Tag::MountCmd]),
        other => panic!("unexpected {:?}", other),
    }
    assert_eq!(c.u, vec![vec![0.0; 3], vec![4.0, 5.0]]);
    match c.inputs(vec![]) {
        Err(DOSError::Inputs(missing)) => {
            assert_eq!(missing, vec![Tag::MountCmd, Tag::OSSAzEncoderAngle])
        }
        other => panic!("unexpected {:?}", other),
    }
}

#[test]
fn a_step_keeps_what_the_step_function_gives() {
    let mut c = mount_drives();
    c.inputs(vec![
        IO::with(Tag::OSSAzEncoderAngle, vec![4.0, 5.0]),
        IO::with(Tag::MountCmd, vec![1.0, 2.0, 3.0]),
    ])
    .unwrap();
    assert!(c.step().is_ok());
    assert_eq!(c.kernel.steps, 1);
    assert_eq!(c.y, vec![vec![15.0, 15.0], vec![15.0]]);
    assert_eq!(
        payloads(c.outputs().unwrap()),
        vec![(Tag::OSSAzDriveTorque, vec![15.0, 15.0]), (Tag::OSSElDriveTorque, vec![15.0])]
    );
}

#[test]
fn a_step_of_the_wrong_shape_fails() {
    let mut c = mount_drives();
    c.y = vec![vec![1.0, 2.0], vec![3.0]];
    c.kernel.widths = vec![2, 2];
    assert!(matches!(c.step(), Err(DOSError::Step)));
    assert_eq!(c.y, vec![vec![1.0, 2.0], vec![3.0]]);
    c.kernel.widths = vec![2];
    assert!(matches!(c.in_step_out(vec![
        IO::with(Tag::OSSAzEncoderAngle, vec![4.0, 5.0]),
        IO::with(Tag::MountCmd, vec![1.0, 2.0, 3.0]),
    ]), Err(DOSError::Step)));
    assert!(is_shaped(&c.y, &c.y_ports));
    assert!(!is_shaped(&vec![vec![1.0]], &c.y_ports));
}

#[test]
fn outputs_are_given_for_the_tags_asked_for() {
    let mut c = mount_drives();
    c.y = vec![vec![1.0, 2.0], vec![3.0]];
    let out = c.outputs_for(&vec![Tag::OSSElDriveTorque, Tag::OSSAzDriveTorque]).unwrap();
    assert_eq!(
        payloads(out),
        vec![(Tag::OSSElDriveTorque, vec![3.0]), (Tag::OSSAzDriveTorque, vec![1.0, 2.0])]
    );
    let r = c.outputs_for(&vec![Tag::OSSElDriveTorque, Tag::OSSRotDriveTorque, Tag::MountCmd]);
    assert!(matches!(r, Err(DOSError::OutputUnavailable(Tag::OSSRotDriveTorque))));
    assert_eq!(port_position(&c.y_ports, Tag::OSSElDriveTorque), Some(1));
    assert_eq!(port_position(&c.y_ports, Tag::MountCmd), None);
}

#[test]
fn in_step_out_is_inputs_then_step_then_outputs_of_a_controller() {
    let mut c = mount_drives();
    let out = c
        .in_step_out(vec![
            IO::with(Tag::MountCmd, vec![1.0, 1.0, 1.0]),
            IO::with(Tag::OSSAzEncoderAngle, vec![0.5, 0.5]),
        ])
        .unwrap()
        .unwrap();
    assert_eq!(
        payloads(out),
        vec![(Tag::OSSAzDriveTorque, vec![4.0, 4.0]), (Tag::OSSElDriveTorque, vec![4.0])]
    );
    let r = c.in_step_out(vec![IO::with(Tag::MountCmd, vec![1.0, 1.0, 1.0])]);
    match r {
        Err(DOSError::Inputs(missing)) => assert_eq!(missing, vec![Tag::OSSAzEncoderAngle]),
        other => panic!("unexpected {:?}", other),
    }
    assert_eq!(c.kernel.steps, 1);
    assert_eq!(c.y, vec![vec![4.0, 4.0], vec![4.0]]);
}

#[test]
fn forces_are_added_and_subtracted_entry_by_entry() {
    let mut m1 = IO::with(Tag::OSSM1Lcl6F, vec![1.0, 2.0, 3.0]);
    let mut cell = IO::with(Tag::OSSCellLcl6F, vec![1.0, 2.0, 3.0]);
    let cg = IO::with(Tag::M1CGFM, vec![0.5, 0.25, 0.125]);
    m1.add_assign(&cg);
    cell.sub_assign(&cg);
    assert_eq!(m1.tag, Tag::OSSM1Lcl6F);
    assert_eq!(m1.data, Some(vec![1.5, 2.25, 3.125]));
    assert_eq!(cell.data, Some(vec![0.5, 1.75, 2.875]));
    assert_eq!(sums(&vec![1.0, 2.0], &vec![10.0]), vec![11.0]);
    assert_eq!(differences(&vec![1.0], &vec![10.0, 20.0]), vec![-9.0]);
}

#[test]
fn a_value_that_carries_nothing_is_left_alone() {
    let mut nothing: IO<Vec<f64>> = IO::new(Tag::OSSM1Lcl6F);
    nothing.add_assign(&IO::with(Tag::M1CGFM, vec![1.0]));
    assert_eq!(nothing.data, None);
    let mut m1 = IO::with(Tag::OSSM1Lcl6F, vec![1.0]);
    m1.sub_assign(&IO::new(Tag::M1CGFM));
    assert_eq!(m1.data, Some(vec![1.0]));
}

#[test]
fn rate_division() {
    let mut slow: Hold<Vec<f64>> = Hold::new(10);
    let mut seen = Vec::new();
    for tick in 0..35usize {
        if slow.is_due(tick) {
            slow.store(vec![tick as f64]);
        }
        seen.push(slow.held().unwrap()[0]);
    }
    for tick in 0..35usize {
        assert_eq!(seen[tick], (tick / 10 * 10) as f64);
    }
    assert!(is_due(0, 10) && is_due(20, 10) && !is_due(19, 10) && !is_due(21, 10));
    let fresh: Hold<f64> = Hold::new(3);
    assert!(fresh.held().is_none());
}

#[test]
fn the_controllers_of_the_telescope_have_their_ports() {
    let ports = |p: Vec<Port>| -> Vec<(Tag, usize)> { p.iter().map(|p| (p.tag, p.width)).collect() };
    let encoders =
        vec![(Tag::OSSAzEncoderAngle, 6), (Tag::OSSElEncoderAngle, 4), (Tag::OSSRotEncoderAngle, 4)];
    assert_eq!(ports(mount_controller_inputs()), encoders);
    assert_eq!(ports(mount_controller_outputs()), vec![(Tag::MountCmd, 3)]);
    let mut drives = vec![(Tag::MountCmd, 3)];
    drives.extend_from_slice(&encoders);
    assert_eq!(ports(mount_drives_inputs()), drives);
    assert_eq!(
        ports(mount_drives_outputs()),
        vec![(Tag::OSSAzDriveTorque, 12), (Tag::OSSElDriveTorque, 4), (Tag::OSSRotDriveTorque, 4)]
    );
    assert_eq!(ports(m1_hardpoints_inputs()), vec![(Tag::M1HPCmd, 42), (Tag::OSSHardpointD, 42)]);
    assert_eq!(ports(m1_hardpoints_outputs()), vec![(Tag::M1HPLC, 42)]);
    assert_eq!(ports(m1_cg_inputs()), vec![(Tag::M1HPLC, 42)]);
    assert_eq!(ports(m1_cg_outputs()), vec![(Tag::M1CGFM, 42)]);
    let drives = Controller::new(
        mount_drives_inputs(),
        mount_drives_outputs(),
        Sum { widths: vec![12, 4, 4], steps: 0 },
    );
    assert_eq!(
        drives.outputs_tags(),
        vec![Tag::OSSAzDriveTorque, Tag::OSSElDriveTorque, Tag::OSSRotDriveTorque]
    );
    assert_eq!(
        drives.inputs_tags(),
        vec![Tag::MountCmd, Tag::OSSAzEncoderAngle, Tag::OSSElEncoderAngle, Tag::OSSRotEncoderAngle]
    );
}
