//! Recording a simulation frame by frame.
//!
//! A recording takes a snapshot of the system after every `steps_per_frame`
//! steps, `number_of_frames` times.  A snapshot (an image) holds one entry per
//! body, in the order of the bodies.  For playback the images are laid out
//! the other way round: per body, its entries over time.

use vstd::prelude::*;
use crate::cursor::handed_out;
use vstd::seq_lib::{lemma_multiset_commutative, to_multiset_build};

verus! {

/// How often a recording takes a snapshot, and how many it takes.
#[derive(Clone, Copy, Debug, PartialEq, Eq, Structural)]
pub struct RecordingSettings {
    /// The number of steps between two snapshots.
    pub steps_per_frame: usize,
    /// The number of snapshots.
    pub number_of_frames: usize,
}

/// A setting of a recording.
#[derive(Clone, Copy, Debug, PartialEq, Eq, Structural)]
pub enum SettingsField {
    StepsPerFrame,
    NumberOfFrames,
}

/// Why recording settings could not be built.
#[derive(Clone, Copy, Debug, PartialEq, Eq, Structural)]
pub enum RecordingSettingsBuilderError {
    /// The named setting was never given a value.
    UninitializedField(SettingsField),
}

/// Recording settings in the making: each setting is given a value, or not
/// yet.
#[derive(Clone, Copy, Debug, PartialEq, Eq, Structural)]
pub struct RecordingSettingsBuilder {
    pub steps_per_frame: Option<usize>,
    pub number_of_frames: Option<usize>,
}

impl RecordingSettings {
    /// Settings with both numbers zero: a recording without frames.
    pub fn new() -> (settings: RecordingSettings)
        ensures
            settings == (RecordingSettings { steps_per_frame: 0, number_of_frames: 0 }),
    {
        RecordingSettings { steps_per_frame: 0, number_of_frames: 0 }
    }

    /// The same settings but for the number of steps between two snapshots.
    pub fn with_steps_per_frame(self, steps_per_frame: usize) -> (settings: RecordingSettings)
        ensures
            settings == (RecordingSettings { steps_per_frame, ..self }),
    {
        RecordingSettings { steps_per_frame, ..self }
    }

    /// The same settings but for the number of snapshots.
    pub fn with_number_of_frames(self, number_of_frames: usize) -> (settings: RecordingSettings)
        ensures
            settings == (RecordingSettings { number_of_frames, ..self }),
    {
        RecordingSettings { number_of_frames, ..self }
    }

    /// A builder in which no setting has a value yet.
    pub fn default() -> (builder: RecordingSettingsBuilder)
        ensures
            builder == (RecordingSettingsBuilder { steps_per_frame: None, number_of_frames: None }),
    {
        RecordingSettingsBuilder { steps_per_frame: None, number_of_frames: None }
    }
}

impl RecordingSettingsBuilder {
    /// Gives the number of steps between two snapshots.
    pub fn steps_per_frame(self, value: usize) -> (builder: RecordingSettingsBuilder)
        ensures
            builder == (RecordingSettingsBuilder { steps_per_frame: Some(value), ..self }),
    {
        RecordingSettingsBuilder { steps_per_frame: Some(value), ..self }
    }

    /// Gives the number of snapshots.
    pub fn number_of_frames(self, value: usize) -> (builder: RecordingSettingsBuilder)
        ensures
            builder == (RecordingSettingsBuilder { number_of_frames: Some(value), ..self }),
    {
        RecordingSettingsBuilder { number_of_frames: Some(value), ..self }
    }

    /// What `build` returns.
    pub open spec fn built(self) -> Result<RecordingSettings, RecordingSettingsBuilderError> {
        match (self.steps_per_frame, self.number_of_frames) {
            (Some(steps_per_frame), Some(number_of_frames)) => Ok(
                RecordingSettings { steps_per_frame, number_of_frames },
            ),
            (None, _) => Err(
                RecordingSettingsBuilderError::UninitializedField(SettingsField::StepsPerFrame),
            ),
            (Some(_), None) => Err(
                RecordingSettingsBuilderError::UninitializedField(SettingsField::NumberOfFrames),
            ),
        }
    }

    /// The settings, if both have been given a value; else the first setting
    /// that has none.
    pub fn build(&self) -> (result: Result<RecordingSettings, RecordingSettingsBuilderError>)
        ensures
            result == self.built(),
    {
        match self.steps_per_frame {
            None => Err(
                RecordingSettingsBuilderError::UninitializedField(SettingsField::StepsPerFrame),
            ),
            Some(steps_per_frame) => match self.number_of_frames {
                None => Err(
                    RecordingSettingsBuilderError::UninitializedField(
                        SettingsField::NumberOfFrames,
                    ),
                ),
                Some(number_of_frames) => Ok(
                    RecordingSettings { steps_per_frame, number_of_frames },
                ),
            },
        }
    }
}

/// One thing to do during a recording.
#[derive(Clone, Copy, Debug, PartialEq, Eq, Structural)]
pub enum FrameAction {
    /// Advance the system by one full step.
    Step,
    /// Take a snapshot of the system: a copy of every body's position.
    Snapshot,
}

/// `count` steps.
pub open spec fn steps(count: usize) -> Seq<FrameAction> {
    Seq::new(count as nat, |k: int| FrameAction::Step)
}

/// One frame: `steps_per_frame` steps, then the snapshot.
pub open spec fn frame(steps_per_frame: usize) -> Seq<FrameAction> {
    steps(steps_per_frame).push(FrameAction::Snapshot)
}

/// `count` frames, one after the other.
pub open spec fn frames(steps_per_frame: usize, count: usize) -> Seq<FrameAction>
    decreases count,
{
    if count == 0 {
        Seq::empty()
    } else {
        frame(steps_per_frame) + frames(steps_per_frame, (count - 1) as usize)
    }
}

/// The whole recording that `settings` ask for.
pub open spec fn recording_actions(settings: RecordingSettings) -> Seq<FrameAction> {
    frames(settings.steps_per_frame, settings.number_of_frames)
}

/// How often `action` occurs among `actions`.
pub open spec fn occurrences(actions: Seq<FrameAction>, action: FrameAction) -> nat {
    actions.to_multiset().count(action)
}

/// `count` steps hold `count` steps and no snapshot.
proof fn lemma_steps_occurrences(count: usize)
    ensures
        occurrences(steps(count), FrameAction::Step) == count,
        occurrences(steps(count), FrameAction::Snapshot) == 0,
    decreases count,
{
    if count == 0 {
        assert(steps(count) =~= Seq::empty());
        Seq::<FrameAction>::empty().to_multiset_ensures();
        assert(steps(count).to_multiset().len() == 0);
    } else {
        let fewer: usize = (count - 1) as usize;
        lemma_steps_occurrences(fewer);
        assert(steps(count) =~= steps(fewer).push(FrameAction::Step));
        to_multiset_build(steps(fewer), FrameAction::Step);
    }
}

/// A recording of `count` frames takes exactly `count` snapshots and exactly
/// `steps_per_frame` steps before each: no frame is missing, and no step is
/// skipped or merged.
pub proof fn lemma_frames_occurrences(steps_per_frame: usize, count: usize)
    ensures
        occurrences(frames(steps_per_frame, count), FrameAction::Snapshot) == count,
        occurrences(frames(steps_per_frame, count), FrameAction::Step) == count * steps_per_frame,
        frames(steps_per_frame, count).len() == count * (steps_per_frame + 1),
    decreases count,
{
    if count == 0 {
        Seq::<FrameAction>::empty().to_multiset_ensures();
        assert(frames(steps_per_frame, count).to_multiset().len() == 0);
    } else {
        let fewer: usize = (count - 1) as usize;
        lemma_frames_occurrences(steps_per_frame, fewer);
        lemma_steps_occurrences(steps_per_frame);
        to_multiset_build(steps(steps_per_frame), FrameAction::Snapshot);
        lemma_multiset_commutative(frame(steps_per_frame), frames(steps_per_frame, fewer));
        assert(count * steps_per_frame == steps_per_frame + fewer * steps_per_frame)
            by (nonlinear_arith)
            requires
                count == fewer + 1,
        ;
        assert(count * (steps_per_frame + 1) == (steps_per_frame + 1) + fewer * (steps_per_frame
            + 1)) by (nonlinear_arith)
            requires
                count == fewer + 1,
        ;
    }
}

/// Every frame ends with its snapshot: the snapshot of frame `f` stands
/// behind `steps_per_frame` steps, at place `f * (steps_per_frame + 1) +
/// steps_per_frame`.
pub proof fn lemma_frames_places(steps_per_frame: usize, count: usize, f: int, s: int)
    requires
        0 <= f < count,
        0 <= s <= steps_per_frame,
    ensures
        0 <= f * (steps_per_frame + 1) + s < frames(steps_per_frame, count).len(),
        frames(steps_per_frame, count)[f * (steps_per_frame + 1) + s] == (if s
            == steps_per_frame {
            FrameAction::Snapshot
        } else {
            FrameAction::Step
        }),
    decreases count,
{
    let fewer: usize = (count - 1) as usize;
    let all = frames(steps_per_frame, count);
    let first = frame(steps_per_frame);
    lemma_frames_occurrences(steps_per_frame, count);
    lemma_frames_occurrences(steps_per_frame, fewer);
    assert(all == first + frames(steps_per_frame, fewer));
    if f == 0 {
        assert(f * (steps_per_frame + 1) + s == s) by (nonlinear_arith)
            requires
                f == 0,
        ;
        assert(all[s] == first[s]);
    } else {
        lemma_frames_places(steps_per_frame, fewer, f - 1, s);
        assert(f * (steps_per_frame + 1) + s == (steps_per_frame + 1) + ((f - 1) * (
        steps_per_frame + 1) + s)) by (nonlinear_arith);
        assert(all[first.len() + ((f - 1) * (steps_per_frame + 1) + s)] == frames(
            steps_per_frame,
            fewer,
        )[(f - 1) * (steps_per_frame + 1) + s]);
    }
}

/// A cursor over the actions of one recording.
pub struct FramePlan {
    steps_per_frame: usize,
    frames_left: usize,
    steps_done: usize,
}

impl View for FramePlan {
    type V = Seq<FrameAction>;

    /// The actions that are still to come, in order.
    closed spec fn view(&self) -> Seq<FrameAction> {
        if self.frames_left == 0 {
            Seq::empty()
        } else {
            frame(self.steps_per_frame).skip(self.steps_done as int) + frames(
                self.steps_per_frame,
                (self.frames_left - 1) as usize,
            )
        }
    }
}

impl FramePlan {
    #[verifier::type_invariant]
    spec fn inv(self) -> bool {
        self.steps_done <= self.steps_per_frame
    }

    /// Starts the recording that `settings` ask for.
    pub fn of(settings: &RecordingSettings) -> (plan: FramePlan)
        ensures
            plan@ == recording_actions(*settings),
    {
        let plan = FramePlan {
            steps_per_frame: settings.steps_per_frame,
            frames_left: settings.number_of_frames,
            steps_done: 0,
        };
        assert(frame(settings.steps_per_frame).skip(0) =~= frame(settings.steps_per_frame));
        plan
    }

    /// Hands out the next action, or `None` once the recording is complete.
    pub fn next(&mut self) -> (action: Option<FrameAction>)
        ensures
            handed_out(old(self)@, action, final(self)@),
    {
        proof {
            use_type_invariant(&*self);
        }
        if self.frames_left == 0 {
            return None;
        }
        let ghost before = self@;
        let ghost whole = frame(self.steps_per_frame);
        let ghost later = frames(self.steps_per_frame, (self.frames_left - 1) as usize);
        assert(before == whole.skip(self.steps_done as int) + later);
        assert(before[0] == whole[self.steps_done as int]);
        if self.steps_done < self.steps_per_frame {
            self.steps_done = self.steps_done + 1;
            assert(self@ =~= before.skip(1));
            Some(FrameAction::Step)
        } else {
            self.frames_left = self.frames_left - 1;
            self.steps_done = 0;
            assert(whole.skip(0) =~= whole);
            assert(self@ =~= before.skip(1));
            Some(FrameAction::Snapshot)
        }
    }
}

/// The images as sequences: one sequence per image.
pub open spec fn images_view<T>(images: Vec<Vec<T>>) -> Seq<Seq<T>> {
    Seq::new(images@.len(), |t: int| images@[t]@)
}

/// Whether there is an image and no image is shorter than the first.
pub open spec fn covers_first_image<T>(images: Seq<Seq<T>>) -> bool {
    &&& images.len() > 0
    &&& forall|t: int| 0 <= t < images.len() ==> (#[trigger] images[t]).len() >= images[0].len()
}

/// The images laid out per body: entry `t` of sequence `b` is entry `b` of
/// image `t`, for every body of the first image.
pub open spec fn per_body<T>(images: Seq<Seq<T>>) -> Seq<Seq<T>> {
    Seq::new(images[0].len(), |b: int| Seq::new(images.len(), |t: int| images[t][b]))
}

/// Laying out per body twice gives the images back, where all images have
/// the length of the first and hold at least one body.
pub proof fn lemma_per_body_twice<T>(images: Seq<Seq<T>>)
    requires
        images.len() > 0,
        images[0].len() > 0,
        forall|t: int| 0 <= t < images.len() ==> (#[trigger] images[t]).len() == images[0].len(),
    ensures
        per_body(per_body(images)) == images,
{
    let once = per_body(images);
    let twice = per_body(once);
    assert(once[0].len() == images.len());
    assert(twice.len() == images.len());
    assert forall|t: int| 0 <= t < images.len() implies #[trigger] twice[t] == images[t] by {
        assert(twice[t].len() == once.len());
        assert forall|b: int| 0 <= b < images[t].len() implies twice[t][b] == images[t][b] by {
            assert(twice[t][b] == once[b][t]);
        }
        assert(twice[t] =~= images[t]);
    }
    assert(twice =~= images);
}

/// The snapshot of a system: for each of its bodies, in order, what
/// `position` gives for it.
pub fn state_to_image<B, P, F: Fn(&B) -> P>(state: &Vec<B>, position: F) -> (image: Vec<P>)
    requires
        forall|b: int| 0 <= b < state.len() ==> call_requires(position, (&#[trigger] state[b],)),
    ensures
        image.len() == state.len(),
        forall|b: int|
            0 <= b < state.len() ==> call_ensures(position, (&state[b],), #[trigger] image[b]),
{
    let mut image: Vec<P> = Vec::with_capacity(state.len());
    let mut b: usize = 0;
    while b < state.len()
        invariant
            b <= state.len(),
            image.len() == b,
            forall|k: int| 0 <= k < state.len() ==> call_requires(position, (&#[trigger] state[k],)),
            forall|k: int| 0 <= k < b ==> call_ensures(position, (&state[k],), #[trigger] image[k]),
        decreases state.len() - b,
    {
        let entry = position(&state[b]);
        image.push(entry);
        b = b + 1;
    }
    image
}

/// The images of a recording, in the order in which they were taken.
pub struct SimpleRecording<T> {
    images: Vec<Vec<T>>,
}

impl<T> View for SimpleRecording<T> {
    type V = Seq<Seq<T>>;

    /// The images as sequences.
    closed spec fn view(&self) -> Seq<Seq<T>> {
        images_view(self.images)
    }
}

impl<T: Copy> SimpleRecording<T> {
    /// A recording of a single image without bodies.
    pub fn new() -> (recording: SimpleRecording<T>)
        ensures
            recording@ == seq![Seq::<T>::empty()],
    {
        let mut images: Vec<Vec<T>> = Vec::new();
        images.push(Vec::new());
        let recording = SimpleRecording { images };
        assert(recording@ =~= seq![Seq::<T>::empty()]);
        recording
    }

    /// The recording that holds `images`.
    pub fn of(images: Vec<Vec<T>>) -> (recording: SimpleRecording<T>)
        ensures
            recording@ == images_view(images),
    {
        SimpleRecording { images }
    }

    /// Replaces the images of the recording by `images`.
    pub fn record(&mut self, images: Vec<Vec<T>>)
        ensures
            final(self)@ == images_view(images),
    {
        self.images = images;
    }

    /// The images of the recording.
    pub fn get_images(&self) -> (images: &Vec<Vec<T>>)
        ensures
            images_view(*images) == self@,
    {
        &self.images
    }

    /// The recording laid out per body: for every body of the first image,
    /// its entries over all images.
    pub fn time_evolution_per_body(&self) -> (slices: Vec<Vec<T>>)
        requires
            covers_first_image(self@),
        ensures
            images_view(slices) == per_body(self@),
            slices.len() == self@[0].len(),
            forall|b: int| 0 <= b < slices.len() ==> (#[trigger] slices[b]).len() == self@.len(),
    {
        let mut slices: Vec<Vec<T>> = Vec::new();
        let bodies: usize = self.images[0].len();
        let times: usize = self.images.len();
        let mut obj_idx: usize = 0;
        while obj_idx < bodies
            invariant
                covers_first_image(self@),
                bodies == self@[0].len(),
                times == self@.len(),
                times == self.images.len(),
                obj_idx <= bodies,
                slices.len() == obj_idx,
                forall|b: int| 0 <= b < obj_idx ==> (#[trigger] slices[b])@ == per_body(self@)[b],
            decreases bodies - obj_idx,
        {
            let mut slice: Vec<T> = Vec::with_capacity(times);
            let mut time_idx: usize = 0;
            while time_idx < times
                invariant
                    covers_first_image(self@),
                    bodies == self@[0].len(),
                    times == self@.len(),
                    times == self.images.len(),
                    obj_idx < bodies,
                    time_idx <= times,
                    slice.len() == time_idx,
                    forall|t: int| 0 <= t < time_idx ==> #[trigger] slice[t] == self@[t][obj_idx as int],
                decreases times - time_idx,
            {
                assert(self@[time_idx as int].len() >= self@[0].len());
                assert(self@[time_idx as int] == self.images[time_idx as int]@);
                slice.push(self.images[time_idx][obj_idx]);
                time_idx = time_idx + 1;
            }
            assert(slice@ =~= per_body(self@)[obj_idx as int]);
            slices.push(slice);
            obj_idx = obj_idx + 1;
        }
        assert(images_view(slices) =~= per_body(self@));
        slices
    }
}

} // verus!
