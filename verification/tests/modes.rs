use dos::{DiscreteModalSolver, DiscreteStateSpace, FemPort, PortElement, Solver, Tag, FEM, IO};

/// A second order mode made discrete by the exponential of its state matrix,
/// for a damping below one.
#[derive(Debug, Clone)]
struct Exponential {
    q: [f64; 4],
    m: [f64; 2],
    b: Vec<f64>,
    c: Vec<f64>,
    x: (f64, f64),
}

impl Solver<f64> for Exponential {
    fn from_second_order(sampling: f64, eigen_frequency: f64, zeta: f64, b: Vec<f64>, c: Vec<f64>) -> Self {
        let tau = 1.0 / sampling;
        let w = 2.0 * std::f64::consts::PI * eigen_frequency;
        let wd = w * (1.0 - zeta * zeta).sqrt();
        let e = (-zeta * w * tau).exp();
        let (s, co) = (wd * tau).sin_cos();
        let q = [
            e * (co + zeta * w / wd * s),
            e * s / wd,
            -e * w * w / wd * s,
            e * (co - zeta * w / wd * s),
        ];
        // A^-1 (Ad - I) [0, 1]
        let m = [(1.0 - q[0]) / (w * w), q[1]];
        Exponential { q, m, b, c, x: (0.0, 0.0) }
    }

    fn solve(&mut self, u: &Vec<f64>) -> Vec<f64> {
        let (x0, x1) = self.x;
        let y = self.c.iter().map(|c| c * x0).collect();
        let v: f64 = self.b.iter().zip(u.iter()).map(|(b, u)| b * u).sum();
        self.x.0 = self.q[0] * x0 + self.q[1] * x1 + self.m[0] * v;
        self.x.1 = self.q[2] * x0 + self.q[3] * x1 + self.m[1] * v;
        y
    }

    fn is_finite(&self) -> bool {
        self.x.0.is_finite() && self.x.1.is_finite()
    }
}

fn one_mode(b: f64, c: f64) -> DiscreteModalSolver<f64, Exponential> {
    let fem = FEM {
        eigen_frequencies: vec![10.0],
        proportional_damping_vec: vec![0.01],
        inputs_to_modal_forces: vec![b],
        modal_disp_to_outputs: vec![c],
        inputs: vec![Some(FemPort::new(Tag::OSSAzDriveTorque, vec![PortElement::on(vec![1])]))],
        outputs: vec![Some(FemPort::new(Tag::OSSAzEncoderAngle, vec![PortElement::on(vec![1])]))],
    };
    DiscreteStateSpace::from(fem)
        .sampling(2000.0)
        .inputs(vec![Tag::OSSAzDriveTorque])
        .outputs(vec![Tag::OSSAzEncoderAngle])
        .build()
        .unwrap()
}

fn output(out: Option<Vec<IO<Vec<f64>>>>) -> f64 {
    out.unwrap()[0].data.as_ref().unwrap()[0]
}

#[test]
fn free_response() {
    let mut solver = one_mode(1.0, 1.0);
    solver.state_space[0].x = (1.0, 0.0);
    let mut y = Vec::new();
    for _ in 0..=2000 {
        y.push(output(solver.in_step_out(vec![IO::with(Tag::OSSAzDriveTorque, vec![0.0])]).unwrap()));
    }
    let w = 2.0 * std::f64::consts::PI * 10.0;
    let wd = w * (1.0f64 - 1e-4).sqrt();
    for k in [0usize, 1, 50, 100, 777, 2000] {
        let t = k as f64 / 2000.0;
        let exact = (-0.01 * w * t).exp() * ((wd * t).cos() + 0.01 * w / wd * (wd * t).sin());
        assert!((y[k] - exact).abs() < 1e-9, "tick {}: {} against {}", k, y[k], exact);
    }
    // the trough of the first half period comes at tick 100, the next peak at tick 200
    assert!(y[100] < y[99] && y[100] < y[101]);
    let envelope = (-0.01 * w * 1.0).exp();
    assert!((envelope - 0.5335).abs() < 1e-4);
    assert!((y[2000] - envelope).abs() < 1e-3);
}

#[test]
fn forced_step() {
    let (b, c) = (3.0, 0.5);
    let mut solver = one_mode(b, c);
    let mut y = 0.0;
    for _ in 0..=200_000 {
        y = output(solver.in_step_out(vec![IO::with(Tag::OSSAzDriveTorque, vec![1.0])]).unwrap());
    }
    let w = 2.0 * std::f64::consts::PI * 10.0;
    assert!((y * w * w / (b * c) - 1.0).abs() < 1e-6);
}

#[test]
fn the_step_response_is_that_of_the_continuous_mode() {
    let mut solver = one_mode(1.0, 1.0);
    let w = 2.0 * std::f64::consts::PI * 10.0;
    let wd = w * (1.0f64 - 1e-4).sqrt();
    for k in 0..4000 {
        let y = output(solver.in_step_out(vec![IO::with(Tag::OSSAzDriveTorque, vec![1.0])]).unwrap());
        let t = k as f64 / 2000.0;
        let exact = (1.0 - (-0.01 * w * t).exp() * ((wd * t).cos() + 0.01 * w / wd * (wd * t).sin())) / (w * w);
        assert!((y - exact).abs() <= 1e-8 * exact.abs().max(1.0 / (w * w)));
    }
}

#[test]
fn a_solver_at_rest_stays_at_rest_under_zero_inputs() {
    let mut solver = one_mode(1.0, 1.0);
    for _ in 0..100 {
        let y = output(solver.in_step_out(vec![IO::with(Tag::OSSAzDriveTorque, vec![0.0])]).unwrap());
        assert!(y.abs() <= 1e-12);
    }
}

/// A step function that gives, at each output, a gain times the sum of its
/// inputs.
struct Proportional {
    gain: f64,
    widths: Vec<usize>,
}

impl dos::StepFunction<f64> for Proportional {
    fn advance(&mut self, u: &Vec<Vec<f64>>) -> Vec<Vec<f64>> {
        let s: f64 = u.iter().flatten().sum();
        self.widths.iter().map(|w| vec![self.gain * s; *w]).collect()
    }
}

#[test]
fn closed_loop_regulation() {
    let mut solver = one_mode(1.0, 1.0);
    let mut mount = dos::Controller::new(
        vec![dos::Port { tag: Tag::OSSAzEncoderAngle, width: 1 }],
        vec![dos::Port { tag: Tag::OSSAzDriveTorque, width: 1 }],
        Proportional { gain: -1.0, widths: vec![1] },
    );
    let disturbance = IO::with(Tag::OSSAzDriveTorque, vec![1.0]);
    let mut torque = IO::with(Tag::OSSAzDriveTorque, vec![0.0]);
    let mut angle = 0.0f64;
    for tick in 0..2000 {
        let mut force = disturbance.duplicate();
        force.add_assign(&torque);
        let encoders = solver.in_step_out(vec![force]).unwrap().unwrap();
        angle = encoders[0].data.as_ref().unwrap()[0];
        assert!(angle.is_finite() && angle.abs() < 1e-2, "tick {}: {}", tick, angle);
        torque = mount.in_step_out(encoders).unwrap().unwrap().remove(0);
    }
    let w = 2.0 * std::f64::consts::PI * 10.0;
    assert!(angle > 0.0 && angle < 2.0 / (w * w));
}

fn thousand_modes() -> DiscreteModalSolver<f64, Exponential> {
    let n = 1000;
    let fem = FEM {
        eigen_frequencies: (0..n).map(|k| 1.0 + 0.1 * k as f64).collect(),
        proportional_damping_vec: vec![0.02; n],
        inputs_to_modal_forces: (0..2 * n).map(|k| ((k * 37 % 101) as f64 - 50.0) * 1e-2).collect(),
        modal_disp_to_outputs: (0..3 * n).map(|k| ((k * 53 % 97) as f64 - 48.0) * 1e-2).collect(),
        inputs: vec![Some(FemPort::new(Tag::OSSTruss6F, vec![PortElement::on(vec![1, 2])]))],
        outputs: vec![Some(FemPort::new(Tag::OSSM1Lcl, vec![PortElement::on(vec![1, 2, 3])]))],
    };
    assert!(fem.is_well_formed());
    DiscreteStateSpace::from(fem)
        .sampling(1000.0)
        .inputs(vec![Tag::OSSTruss6F])
        .outputs(vec![Tag::OSSM1Lcl])
        .build()
        .unwrap()
}

fn trace(workers: usize) -> Vec<Vec<f64>> {
    let pool = rayon::ThreadPoolBuilder::new().num_threads(workers).build().unwrap();
    pool.install(|| {
        let mut solver = thousand_modes();
        (0..1000)
            .map(|t| {
                let u = vec![(t as f64 * 0.01).sin(), (t as f64 * 0.003).cos()];
                solver.in_step_out(vec![IO::with(Tag::OSSTruss6F, u)]).unwrap();
                solver.y.clone()
            })
            .collect()
    })
}

#[test]
fn parallel_determinism_within_tolerance() {
    let one = trace(1);
    let four = trace(4);
    let peak = one.iter().flatten().fold(0.0f64, |a, y| a.max(y.abs()));
    let gap = one
        .iter()
        .flatten()
        .zip(four.iter().flatten())
        .fold(0.0f64, |a, (x, y)| a.max((x - y).abs()));
    assert!(peak > 0.0);
    assert!(gap / peak <= 1e-12, "{} against {}", gap, peak);
}

#[test]
fn a_mode_driven_out_of_range_fails_the_step() {
    let mut solver = one_mode(1.0, 1.0);
    assert!(solver.in_step_out(vec![IO::with(Tag::OSSAzDriveTorque, vec![1.0])]).is_ok());
    let r = solver.in_step_out(vec![IO::with(Tag::OSSAzDriveTorque, vec![f64::INFINITY])]);
    assert!(matches!(r, Err(dos::DOSError::NumericOverflow)));
    assert!(!solver.state_space[0].x.0.is_finite());
    let r = solver.in_step_out(vec![IO::with(Tag::OSSAzDriveTorque, vec![0.0])]);
    assert!(matches!(r, Err(dos::DOSError::NumericOverflow)));
}
