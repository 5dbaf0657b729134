use gravity_sim::force_pass::{ForceAction, ForcePass};
use gravity_sim::pairs::UniqueIndexPairs;
use gravity_sim::recording::{state_to_image, FrameAction, FramePlan, RecordingSettings};
use gravity_sim::run::{RunAction, RunPlan};
use gravity_sim::step::{StepAction, StepPlan};
use nalgebra::Vector3 as v3;

#[derive(Clone, Debug, PartialEq)]
struct BodyState {
    m: f32,
    r: v3<f32>,
    v: v3<f32>,
    a: v3<f32>,
    f: v3<f32>,
}

impl BodyState {
    fn new(m: f32, r: v3<f32>, v: v3<f32>, a: v3<f32>, f: v3<f32>) -> BodyState {
        BodyState { m, r, v, a, f }
    }

    fn get_force_from(&self, other: &BodyState, g: f32) -> v3<f32> {
        let d12 = other.r - self.r;
        let d = d12.normalize() / d12.norm_squared();
        g * self.m * other.m * d
    }
}

fn get_new_pos_and_vel_by_newton(b: &BodyState, dt: f32) -> (v3<f32>, v3<f32>) {
    let r = b.r + b.v * dt + 0.5 * b.a * dt * dt;
    let v = b.v + b.a * dt;
    (r, v)
}

fn perform_force_action(bodies: &mut Vec<BodyState>, g: f32, action: ForceAction) {
    match action {
        ForceAction::Pair { on, from } => {
            let f = bodies[on].get_force_from(&bodies[from], g);
            bodies[on].f += f;
            bodies[from].f += -f;
        }
        ForceAction::Settle { body } => {
            bodies[body].a = bodies[body].f / bodies[body].m;
        }
    }
}

fn foreach_body_pair_add_force_contrib(bodies: &mut Vec<BodyState>, g: f32) {
    let mut pass = ForcePass::over(bodies.len());
    while let Some(action) = pass.next() {
        perform_force_action(bodies, g, action);
    }
}

fn step_by_newton(bodies: &mut Vec<BodyState>, dt: f32, g: f32) {
    let mut plan = StepPlan::for_bodies(bodies.len());
    while let Some(action) = plan.next() {
        match action {
            StepAction::ResetForce { body } => bodies[body].f = v3::new(0.0, 0.0, 0.0),
            StepAction::Force(force) => perform_force_action(bodies, g, force),
            StepAction::Integrate { body } => {
                let (r, v) = get_new_pos_and_vel_by_newton(&bodies[body], dt);
                bodies[body].r = r;
                bodies[body].v = v;
            }
        }
    }
}

fn single_step_by(bodies: &mut Vec<BodyState>, dt: f32, g: f32) {
    for body in bodies.iter_mut() {
        body.a = v3::new(0.0, 0.0, 0.0);
    }
    if !bodies.is_empty() {
        let mut pairs = UniqueIndexPairs::up_to(bodies.len() - 1);
        while let Some((i, j)) = pairs.next() {
            let f = bodies[i].get_force_from(&bodies[j], g);
            bodies[i].a += f;
            bodies[j].a -= f;
        }
    }
    for body in bodies.iter_mut() {
        body.a /= body.m;
        let (r, v) = get_new_pos_and_vel_by_newton(body, dt);
        body.r = r;
        body.v = v;
    }
}

fn zero() -> v3<f32> {
    v3::new(0.0, 0.0, 0.0)
}

fn three_bodies_at_rest() -> Vec<BodyState> {
    vec![
        BodyState::new(1.0, v3::new(0.0, 0.0, 0.0), zero(), zero(), zero()),
        BodyState::new(2.0, v3::new(1.0, 0.0, 0.0), zero(), zero(), zero()),
        BodyState::new(3.0, v3::new(0.0, 1.0, 0.0), zero(), zero(), zero()),
    ]
}

#[test]
fn step_by_newton_changes_the_state() {
    let dt = 10.0;
    let g = 1.0;
    let initial = three_bodies_at_rest();
    let mut bodies = initial.clone();
    step_by_newton(&mut bodies, dt, g);
    assert_ne!(bodies[0].a, initial[0].a, "assert acceleration of body 1 changed");
    assert_ne!(bodies[1].a, initial[1].a, "assert acceleration of body 2 changed");
    assert_ne!(bodies[2].a, initial[2].a, "assert acceleration of body 3 changed");
    assert_ne!(bodies[0].v, initial[0].v, "assert velocity of body 1 changed");
    assert_ne!(bodies[1].v, initial[1].v, "assert velocity of body 2 changed");
    assert_ne!(bodies[2].v, initial[2].v, "assert velocity of body 3 changed");
    assert_ne!(bodies[0].r, initial[0].r, "assert position of body 1 changed");
    assert_ne!(bodies[1].r, initial[1].r, "assert position of body 2 changed");
    assert_ne!(bodies[2].r, initial[2].r, "assert position of body 3 changed");
}

#[test]
fn system_test_that_function_sums_force_contributions_correctly() {
    let g = 1.0;
    let mut bodies = three_bodies_at_rest();

    let expected_a1 = v3::new(2.0, 3.0, 0.0);
    let expected_a2 = ((3.0 / 2.0) * v3::new(-2.0_f32.sqrt(), 2.0_f32.sqrt(), 0.0)
        - v3::new(2.0, 0.0, 0.0))
        / 2.0;
    let expected_a3 = (-(3.0 / 2.0) * v3::new(-2.0_f32.sqrt(), 2.0_f32.sqrt(), 0.0)
        - v3::new(0.0, 3.0, 0.0))
        / 3.0;

    foreach_body_pair_add_force_contrib(&mut bodies, g);

    assert_eq!(bodies[0].a, expected_a1, "failed for body no. 1");
    assert_eq!(bodies[1].a, expected_a2, "failed for body no. 2");
    assert_eq!(bodies[2].a, expected_a3, "failed for body no. 3");
}

#[test]
fn mod_test_that_function_sums_force_contributions_correctly() {
    let g = 1.0;
    let mut bodies = three_bodies_at_rest();
    foreach_body_pair_add_force_contrib(&mut bodies, g);
    assert_eq!(1, 1);
}

#[test]
fn single_step_by_changes_the_state() {
    let g = 1.0;
    let mut bodies = three_bodies_at_rest();
    single_step_by(&mut bodies, 0.5, g);
    assert_eq!(1, 1);
}

#[test]
fn both_engines_accumulate_the_same_forces() {
    let g = 1.0;
    let mut stepped = three_bodies_at_rest();
    let mut paired = three_bodies_at_rest();
    step_by_newton(&mut stepped, 0.5, g);
    single_step_by(&mut paired, 0.5, g);
    for body in 0..3 {
        assert_eq!(stepped[body].a, paired[body].a);
        assert_eq!(stepped[body].r, paired[body].r);
        assert_eq!(stepped[body].v, paired[body].v);
    }
}

#[test]
fn first_body_of_three_accelerates_towards_both_others() {
    let mut bodies = three_bodies_at_rest();
    foreach_body_pair_add_force_contrib(&mut bodies, 1.0);
    assert_eq!(bodies[0].a, v3::new(2.0, 3.0, 0.0));
}

#[test]
fn single_body_moves_by_its_velocity() {
    let mut bodies = vec![BodyState::new(1.0, zero(), v3::new(1.0, 1.0, 1.0), zero(), zero())];
    step_by_newton(&mut bodies, 13.0, 1.0);
    assert_eq!(bodies[0].r, v3::new(13.0, 13.0, 13.0));
    assert_eq!(bodies[0].v, v3::new(1.0, 1.0, 1.0));
}

#[test]
fn a_step_from_the_same_state_gives_the_same_state() {
    let start = vec![
        BodyState::new(1.0, v3::new(0.0, 0.0, 0.0), v3::new(0.1, 0.0, 0.0), zero(), zero()),
        BodyState::new(0.1, v3::new(10.0, 0.0, 0.0), v3::new(0.0, -0.3, 0.0), zero(), zero()),
        BodyState::new(2.5, v3::new(-3.0, 4.0, 1.0), v3::new(0.0, 0.2, -0.1), zero(), zero()),
    ];
    let mut first = start.clone();
    let mut second = start.clone();
    step_by_newton(&mut first, 0.01, 0.667);
    step_by_newton(&mut second, 0.01, 0.667);
    assert_eq!(first, second);
}

#[test]
fn forces_of_a_pair_cancel() {
    let mut bodies = vec![
        BodyState::new(1.0, v3::new(0.0, 0.0, 0.0), zero(), zero(), zero()),
        BodyState::new(0.1, v3::new(10.0, 2.0, -1.0), zero(), zero(), zero()),
    ];
    foreach_body_pair_add_force_contrib(&mut bodies, 600.67);
    assert_eq!(bodies[0].f, -bodies[1].f);
    assert_ne!(bodies[0].f, zero());
}

#[test]
fn run_with_remainder_takes_the_shorter_step_last() {
    let dt = 2.0;
    let remainder = 0.5;
    let mut bodies = vec![BodyState::new(1.0, zero(), v3::new(1.0, 0.0, 0.0), zero(), zero())];
    let mut plan = RunPlan::new(3, true);
    while let Some(action) = plan.next() {
        match action {
            RunAction::FullStep => step_by_newton(&mut bodies, dt, 1.0),
            RunAction::RemainderStep => step_by_newton(&mut bodies, remainder, 1.0),
        }
    }
    assert_eq!(bodies[0].r, v3::new(6.5, 0.0, 0.0));
}

#[test]
fn simple_recording_recording_while_simulating() {
    let earth = BodyState::new(1.0, v3::new(0.0, 0.0, 0.0), v3::new(0.0, 0.0, 0.0), zero(), zero());
    let moon = BodyState::new(0.1, v3::new(0.0, -0.3, 0.0), v3::new(0.0, 0.0, 0.0), zero(), zero());
    let mut body_states = vec![earth, moon];
    let steps_per_frame: usize = 1;
    let number_of_frames: usize = 5;
    let recording_settings = RecordingSettings::default()
        .steps_per_frame(steps_per_frame)
        .number_of_frames(number_of_frames)
        .build()
        .unwrap();
    let dt = 1.0;
    let g = 600.67;
    let body_states_len = body_states.len();
    let mut images: Vec<Vec<v3<f32>>> = vec![];
    let mut plan = FramePlan::of(&recording_settings);
    while let Some(action) = plan.next() {
        match action {
            FrameAction::Step => single_step_by(&mut body_states, dt, g),
            FrameAction::Snapshot => images.push(state_to_image(&body_states, |body| body.r)),
        }
    }
    assert_eq!(images.len(), number_of_frames);
    for image in images {
        assert_eq!(image.len(), body_states_len, "");
    }
}

#[test]
fn recording_recording_while_simulating() {
    let earth = BodyState::new(
        1.0,
        v3::new(0.0, 0.0, 0.0),
        v3::new(0.0, 0.0, 0.0),
        v3::new(0.0, 0.0, 0.0),
        v3::new(0.0, 0.0, 0.0),
    );
    let moon = BodyState::new(
        0.1,
        v3::new(10.0, 0.0, 0.0),
        v3::new(0.0, -0.3, 0.0),
        v3::new(0.0, 0.0, 0.0),
        v3::new(0.0, 0.0, 0.0),
    );
    let mut body_states = vec![earth, moon];
    let steps_per_frame: usize = 1;
    let number_of_frames: usize = 5;
    let recording_settings = RecordingSettings::new()
        .with_steps_per_frame(steps_per_frame)
        .with_number_of_frames(number_of_frames);
    let dt = 1.0;
    let g = 600.67;
    let body_states_len = body_states.len();
    let mut images: Vec<Vec<v3<f32>>> = vec![];
    let mut plan = FramePlan::of(&recording_settings);
    while let Some(action) = plan.next() {
        match action {
            FrameAction::Step => step_by_newton(&mut body_states, dt, g),
            FrameAction::Snapshot => images.push(state_to_image(&body_states, |body| body.r)),
        }
    }
    assert_eq!(images.len(), number_of_frames);
    for image in images {
        assert_eq!(image.len(), body_states_len, "");
    }
}
