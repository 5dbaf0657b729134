use gravity_sim::recording::{
    state_to_image, FrameAction, FramePlan, RecordingSettings, RecordingSettingsBuilderError,
    SettingsField, SimpleRecording,
};

fn collect_frames(steps_per_frame: usize, number_of_frames: usize) -> Vec<FrameAction> {
    let settings = RecordingSettings::new()
        .with_steps_per_frame(steps_per_frame)
        .with_number_of_frames(number_of_frames);
    let mut plan = FramePlan::of(&settings);
    let mut all = vec![];
    while let Some(action) = plan.next() {
        all.push(action);
    }
    all
}

#[test]
fn simple_recording_recording_settings_builder_works() {
    let steps_per_frame: usize = 10;
    let number_of_frames: usize = 101;
    let settings = RecordingSettings::default()
        .steps_per_frame(steps_per_frame)
        .number_of_frames(number_of_frames)
        .build()
        .unwrap();
    assert_eq!(settings.steps_per_frame, steps_per_frame);
}

#[test]
fn recording_recording_settings_builder_works() {
    let steps_per_frame = 10;
    let number_of_frames = 101;
    let settings = RecordingSettings::new()
        .with_steps_per_frame(steps_per_frame)
        .with_number_of_frames(number_of_frames);
    assert_eq!(settings.steps_per_frame, steps_per_frame);
}

#[test]
fn settings_keep_both_numbers() {
    let built = RecordingSettings::default()
        .number_of_frames(101)
        .steps_per_frame(10)
        .build()
        .unwrap();
    let chained = RecordingSettings::new()
        .with_number_of_frames(101)
        .with_steps_per_frame(10);
    assert_eq!(built.steps_per_frame, 10);
    assert_eq!(built.number_of_frames, 101);
    assert_eq!(built, chained);
}

#[test]
fn new_settings_are_zero() {
    let settings = RecordingSettings::new();
    assert_eq!(settings.steps_per_frame, 0);
    assert_eq!(settings.number_of_frames, 0);
}

#[test]
fn later_setting_replaces_earlier() {
    let settings = RecordingSettings::new()
        .with_steps_per_frame(3)
        .with_steps_per_frame(4);
    assert_eq!(settings.steps_per_frame, 4);
    let built = RecordingSettings::default()
        .steps_per_frame(3)
        .steps_per_frame(4)
        .number_of_frames(1)
        .build();
    assert_eq!(built, Ok(RecordingSettings { steps_per_frame: 4, number_of_frames: 1 }));
}

#[test]
fn builder_without_steps_per_frame_fails() {
    let built = RecordingSettings::default().number_of_frames(5).build();
    assert_eq!(
        built,
        Err(RecordingSettingsBuilderError::UninitializedField(SettingsField::StepsPerFrame))
    );
}

#[test]
fn builder_without_number_of_frames_fails() {
    let built = RecordingSettings::default().steps_per_frame(5).build();
    assert_eq!(
        built,
        Err(RecordingSettingsBuilderError::UninitializedField(SettingsField::NumberOfFrames))
    );
}

#[test]
fn builder_without_anything_names_the_first_setting() {
    let built = RecordingSettings::default().build();
    assert_eq!(
        built,
        Err(RecordingSettingsBuilderError::UninitializedField(SettingsField::StepsPerFrame))
    );
}

#[test]
fn frames_of_two_steps() {
    assert_eq!(
        collect_frames(2, 2),
        vec![
            FrameAction::Step,
            FrameAction::Step,
            FrameAction::Snapshot,
            FrameAction::Step,
            FrameAction::Step,
            FrameAction::Snapshot,
        ]
    );
}

#[test]
fn frames_without_steps_are_snapshots_only() {
    assert_eq!(collect_frames(0, 3), vec![FrameAction::Snapshot; 3]);
}

#[test]
fn no_frames_no_actions() {
    assert_eq!(collect_frames(7, 0), vec![]);
    let mut plan = FramePlan::of(&RecordingSettings::new());
    assert_eq!(plan.next(), None);
    assert_eq!(plan.next(), None);
}

#[test]
fn frame_and_step_counts_are_exact() {
    for steps_per_frame in 0..6usize {
        for number_of_frames in 0..6usize {
            let all = collect_frames(steps_per_frame, number_of_frames);
            let snapshots = all.iter().filter(|a| **a == FrameAction::Snapshot).count();
            let steps = all.iter().filter(|a| **a == FrameAction::Step).count();
            assert_eq!(snapshots, number_of_frames);
            assert_eq!(steps, number_of_frames * steps_per_frame);
        }
    }
}

#[test]
fn every_frame_ends_with_its_snapshot() {
    let steps_per_frame = 3;
    let all = collect_frames(steps_per_frame, 4);
    for (k, action) in all.iter().enumerate() {
        let expected = if k % (steps_per_frame + 1) == steps_per_frame {
            FrameAction::Snapshot
        } else {
            FrameAction::Step
        };
        assert_eq!(*action, expected);
    }
}

#[test]
fn one_step_per_frame_gives_as_many_snapshots_as_frames() {
    let number_of_frames = 600;
    let bodies: Vec<(u32, i64)> = vec![(1, -4), (2, 0), (3, 9)];
    let settings = RecordingSettings::default()
        .steps_per_frame(1usize)
        .number_of_frames(number_of_frames)
        .build()
        .unwrap();
    let mut state = bodies.clone();
    let mut images: Vec<Vec<i64>> = vec![];
    let mut plan = FramePlan::of(&settings);
    while let Some(action) = plan.next() {
        match action {
            FrameAction::Step => {
                for body in &mut state {
                    body.1 += body.0 as i64;
                }
            }
            FrameAction::Snapshot => images.push(state_to_image(&state, |body| body.1)),
        }
    }
    assert_eq!(images.len(), number_of_frames);
    for image in &images {
        assert_eq!(image.len(), bodies.len());
    }
    assert_eq!(images[0], vec![-3, 2, 12]);
    assert_eq!(images[599], vec![596, 1200, 1809]);
}

#[test]
fn state_to_image_keeps_the_order_of_the_bodies() {
    let state = vec![(10u8, 'a'), (20, 'b'), (30, 'c')];
    assert_eq!(state_to_image(&state, |body| body.1), vec!['a', 'b', 'c']);
    assert_eq!(state_to_image(&state, |body| body.0), vec![10, 20, 30]);
    let nothing: Vec<(u8, char)> = vec![];
    assert_eq!(state_to_image(&nothing, |body| body.0), vec![]);
}

#[test]
fn new_recording_holds_one_empty_image() {
    let recording: SimpleRecording<i32> = SimpleRecording::new();
    assert_eq!(recording.get_images(), &vec![Vec::<i32>::new()]);
    assert_eq!(recording.time_evolution_per_body(), Vec::<Vec<i32>>::new());
}

#[test]
fn time_evolution_is_per_body() {
    let recording = SimpleRecording::of(vec![vec![1, 2], vec![3, 4], vec![5, 6]]);
    assert_eq!(recording.get_images(), &vec![vec![1, 2], vec![3, 4], vec![5, 6]]);
    assert_eq!(
        recording.time_evolution_per_body(),
        vec![vec![1, 3, 5], vec![2, 4, 6]]
    );
}

#[test]
fn time_evolution_follows_the_first_image() {
    let recording = SimpleRecording::of(vec![vec![1], vec![3, 4], vec![5, 6, 7]]);
    assert_eq!(recording.time_evolution_per_body(), vec![vec![1, 3, 5]]);
}

#[test]
fn time_evolution_twice_gives_the_images_back() {
    let images = vec![vec![1, 2, 3], vec![4, 5, 6]];
    let once = SimpleRecording::of(images.clone()).time_evolution_per_body();
    let twice = SimpleRecording::of(once).time_evolution_per_body();
    assert_eq!(twice, images);
}
