//! The work on one source image, step by step: decode it, bring it upright,
//! store the corrected copy, then one scaled variant for each width. What
//! is already stored is never made again. The machine decides and computes;
//! reading, probing and storing files is the caller's part.

use vstd::prelude::*;
use crate::codec::{
    decoded_image, encode_image, encoded_image, read_image_to_buffer, EncodeError,
};
use crate::layout::{
    corrected_path, corrected_path_spec, join, joined, variant_path, variant_path_spec,
};
use crate::names::{extension, extension_of};
use crate::orientation::ExifRotation;
use crate::pixels::{PixelBuffer, PixelGrid};
use crate::scaling::{can_scale, scale, scaled_grid};

verus! {

/// Why the work on a source image was given up.
#[derive(PartialEq, Eq, Structural, Debug, Clone, Copy)]
pub enum AssetError {
    /// The source file could not be read.
    Unreadable,
    /// The source file's bytes do not decode as the format of its extension.
    Undecodable,
    /// The picture or a variant of it is too large to be resampled.
    TooLarge,
    /// The target's extension is none of the supported formats.
    UnsupportedExtension,
    /// The encoder refused a picture.
    EncoderRejected,
    /// A file could not be stored.
    StoreFailed,
    /// The caller reported something that the machine had not asked for.
    UnexpectedOutcome,
}

/// A scaled variant of a source image.
#[derive(Debug)]
pub struct DerivativeAsset {
    /// The width that the variant is scaled to.
    pub width: u32,
    /// Where the variant is stored.
    pub path: String,
}

/// What the machine asks of its caller.
#[derive(Debug)]
pub enum Task {
    /// Read the file at this path and report its bytes.
    Read(String),
    /// Nothing to do outside: report `Resumed`. The flag says whether the
    /// picture is taken for upright because its metadata names no orientation.
    Proceed(bool),
    /// Report whether a file exists at this path.
    Probe(String),
    /// Store these bytes at this path, making the directories above it as
    /// needed, and report whether that worked.
    Store(String, Vec<u8>),
    /// The work is done: the corrected copy and these variants are stored.
    Done(Vec<DerivativeAsset>),
    /// The work was given up.
    Abandon(AssetError),
}

/// What the caller reports back.
pub enum Outcome {
    /// The bytes of the file that was to be read; `None` where reading failed.
    Contents(Option<Vec<u8>>),
    /// The answer to `Proceed`.
    Resumed,
    /// Whether the probed file exists.
    Exists(bool),
    /// Whether the bytes were stored.
    Stored(bool),
}

/// A variant, as mathematics.
pub struct DerivativeView {
    pub width: u32,
    pub path: Seq<char>,
}

/// A task, as mathematics.
pub enum TaskView {
    Read(Seq<char>),
    Proceed(bool),
    Probe(Seq<char>),
    Store(Seq<char>, Seq<u8>),
    Done(Seq<DerivativeView>),
    Abandon(AssetError),
}

/// An outcome, as mathematics.
pub enum OutcomeView {
    Contents(Option<Seq<u8>>),
    Resumed,
    Exists(bool),
    Stored(bool),
}

/// How far the work on an image has come. Targets are counted from 0, the
/// corrected copy; target `k` above 0 is the variant of the width at place
/// `k - 1`.
pub enum ProgressView {
    /// The source's bytes are waited for.
    Discovered,
    /// The pixels are decoded and the recorded orientation is known.
    Decoded(PixelGrid, ExifRotation),
    /// The picture is upright; whether the target of this number exists is
    /// waited for.
    Probing(PixelGrid, nat),
    /// The picture is upright; the storing of the target of this number is
    /// waited for.
    Storing(PixelGrid, nat),
    /// All targets are stored.
    Complete,
    /// The work was given up.
    Failed(AssetError),
}

/// The stages that the work on an image goes through.
#[derive(PartialEq, Eq, Structural, Debug, Clone, Copy)]
pub enum Stage {
    Discovered,
    Decoded,
    OrientationCorrected,
    WidthVariantPersisted,
    Complete,
    Failed,
}

/// The state of the work on one image, as mathematics.
pub struct GeneratorView {
    /// The directory that the source lies below.
    pub input_root: Seq<char>,
    /// The path of the source below the input root.
    pub asset: Seq<char>,
    /// The directory that the targets are stored below.
    pub output_root: Seq<char>,
    /// The widths of the variants, in the order in which they are made.
    pub widths: Seq<u32>,
    pub progress: ProgressView,
}

impl View for DerivativeAsset {
    type V = DerivativeView;

    open spec fn view(&self) -> DerivativeView {
        DerivativeView { width: self.width, path: self.path@ }
    }
}

/// The variants that a list holds, as mathematics.
pub open spec fn derivative_views(list: Seq<DerivativeAsset>) -> Seq<DerivativeView> {
    Seq::new(list.len(), |i: int| list[i]@)
}

impl View for Task {
    type V = TaskView;

    open spec fn view(&self) -> TaskView {
        match self {
            Task::Read(path) => TaskView::Read(path@),
            Task::Proceed(assumed) => TaskView::Proceed(*assumed),
            Task::Probe(path) => TaskView::Probe(path@),
            Task::Store(path, bytes) => TaskView::Store(path@, bytes@),
            Task::Done(list) => TaskView::Done(derivative_views(list@)),
            Task::Abandon(error) => TaskView::Abandon(*error),
        }
    }
}

impl View for Outcome {
    type V = OutcomeView;

    open spec fn view(&self) -> OutcomeView {
        match self {
            Outcome::Contents(Some(bytes)) => OutcomeView::Contents(Some(bytes@)),
            Outcome::Contents(None) => OutcomeView::Contents(None),
            Outcome::Resumed => OutcomeView::Resumed,
            Outcome::Exists(exists) => OutcomeView::Exists(*exists),
            Outcome::Stored(stored) => OutcomeView::Stored(*stored),
        }
    }
}

impl GeneratorView {
    /// The path of the source file.
    pub open spec fn source_path(self) -> Seq<char> {
        joined(self.input_root, self.asset)
    }

    /// How many targets there are: the corrected copy and one variant for
    /// each width.
    pub open spec fn targets(self) -> nat {
        self.widths.len() + 1
    }

    /// Where the target of number `k` is stored.
    pub open spec fn target_path(self, k: nat) -> Seq<char> {
        if k == 0 {
            corrected_path_spec(self.output_root, self.asset)
        } else {
            variant_path_spec(self.output_root, self.widths[k - 1], self.asset)
        }
    }

    /// The bytes that are stored for the target of number `k`: the upright
    /// picture, for a variant scaled to its width, encoded in the format of
    /// the source's extension.
    pub open spec fn target_bytes(self, upright: PixelGrid, k: nat) -> Result<Seq<u8>, AssetError> {
        match extension(self.asset) {
            None => Err(AssetError::UnsupportedExtension),
            Some(ext) => {
                if k > 0 && !can_scale(upright, self.widths[k - 1]) {
                    Err(AssetError::TooLarge)
                } else {
                    let picture = if k == 0 {
                        upright
                    } else {
                        scaled_grid(upright, self.widths[k - 1])
                    };
                    match encoded_image(picture, ext) {
                        Ok(bytes) => Ok(bytes),
                        Err(EncodeError::UnsupportedExtension) => Err(
                            AssetError::UnsupportedExtension,
                        ),
                        Err(EncodeError::Rejected) => Err(AssetError::EncoderRejected),
                    }
                }
            },
        }
    }

    /// The variants of the image, one for each width.
    pub open spec fn derivatives(self) -> Seq<DerivativeView> {
        Seq::new(
            self.widths.len(),
            |i: int|
                DerivativeView {
                    width: self.widths[i],
                    path: variant_path_spec(self.output_root, self.widths[i], self.asset),
                },
        )
    }

    /// This state with another progress.
    pub open spec fn at(self, progress: ProgressView) -> GeneratorView {
        GeneratorView { progress, ..self }
    }

    /// Giving the work up.
    pub open spec fn fail(self, error: AssetError) -> (GeneratorView, TaskView) {
        (self.at(ProgressView::Failed(error)), TaskView::Abandon(error))
    }

    /// Turning to the target of number `k`: it is probed, and where there is
    /// none of that number the work is done.
    pub open spec fn turn_to(self, upright: PixelGrid, k: nat) -> (GeneratorView, TaskView) {
        if k < self.targets() {
            (self.at(ProgressView::Probing(upright, k)), TaskView::Probe(self.target_path(k)))
        } else {
            (self.at(ProgressView::Complete), TaskView::Done(self.derivatives()))
        }
    }

    /// The state that follows on an outcome, and the task that goes with it.
    ///
    /// The bytes of the source are decoded; then the picture is brought
    /// upright; then each target in turn is probed and, where it does not
    /// exist yet, made and stored. A target that exists is left alone. An
    /// outcome that was not asked for, a source that cannot be read or
    /// decoded, a picture that cannot be scaled or encoded and a file that
    /// cannot be stored all give the work up, for good.
    pub open spec fn transition(self, outcome: OutcomeView) -> (GeneratorView, TaskView) {
        match self.progress {
            ProgressView::Discovered => match outcome {
                OutcomeView::Contents(Some(bytes)) => match decoded_image(self.asset, bytes) {
                    Some(grid) => (
                        self.at(ProgressView::Decoded(grid, ExifRotation::recorded_in(bytes))),
                        TaskView::Proceed(ExifRotation::is_assumed(ExifRotation::tag_in(bytes))),
                    ),
                    None => self.fail(AssetError::Undecodable),
                },
                OutcomeView::Contents(None) => self.fail(AssetError::Unreadable),
                _ => self.fail(AssetError::UnexpectedOutcome),
            },
            ProgressView::Decoded(grid, rotation) => match outcome {
                OutcomeView::Resumed => self.turn_to(rotation.apply_spec(grid), 0),
                _ => self.fail(AssetError::UnexpectedOutcome),
            },
            ProgressView::Probing(upright, k) => match outcome {
                OutcomeView::Exists(true) => self.turn_to(upright, k + 1),
                OutcomeView::Exists(false) => match self.target_bytes(upright, k) {
                    Ok(bytes) => (
                        self.at(ProgressView::Storing(upright, k)),
                        TaskView::Store(self.target_path(k), bytes),
                    ),
                    Err(error) => self.fail(error),
                },
                _ => self.fail(AssetError::UnexpectedOutcome),
            },
            ProgressView::Storing(upright, k) => match outcome {
                OutcomeView::Stored(true) => self.turn_to(upright, k + 1),
                OutcomeView::Stored(false) => self.fail(AssetError::StoreFailed),
                _ => self.fail(AssetError::UnexpectedOutcome),
            },
            ProgressView::Complete => (self, TaskView::Done(self.derivatives())),
            ProgressView::Failed(error) => (self, TaskView::Abandon(error)),
        }
    }

    /// The stage that the work is in. Once a variant is stored or found
    /// stored, the stage is `WidthVariantPersisted`.
    pub open spec fn stage(self) -> Stage {
        match self.progress {
            ProgressView::Discovered => Stage::Discovered,
            ProgressView::Decoded(_, _) => Stage::Decoded,
            ProgressView::Probing(_, k) => if k <= 1 {
                Stage::OrientationCorrected
            } else {
                Stage::WidthVariantPersisted
            },
            ProgressView::Storing(_, k) => if k <= 1 {
                Stage::OrientationCorrected
            } else {
                Stage::WidthVariantPersisted
            },
            ProgressView::Complete => Stage::Complete,
            ProgressView::Failed(_) => Stage::Failed,
        }
    }

    /// The state is one that a machine can be in: a target that is probed or
    /// stored is one of the targets.
    pub open spec fn well_formed(self) -> bool {
        match self.progress {
            ProgressView::Probing(_, k) => k < self.targets(),
            ProgressView::Storing(_, k) => k < self.targets(),
            _ => true,
        }
    }

    /// An upper bound on the number of tasks that are still to come.
    pub open spec fn remaining(self) -> nat {
        match self.progress {
            ProgressView::Discovered => 2 * self.targets() + 3,
            ProgressView::Decoded(_, _) => 2 * self.targets() + 2,
            ProgressView::Probing(_, k) => if k < self.targets() {
                (2 * (self.targets() - k) + 1) as nat
            } else {
                0
            },
            ProgressView::Storing(_, k) => if k < self.targets() {
                (2 * (self.targets() - k)) as nat
            } else {
                0
            },
            ProgressView::Complete => 0,
            ProgressView::Failed(_) => 0,
        }
    }
}

/// How far the work has come, with the pixels in hand.
enum Progress {
    Discovered,
    Decoded(PixelBuffer, ExifRotation),
    Probing(PixelBuffer, usize),
    Storing(PixelBuffer, usize),
    Complete,
    Failed(AssetError),
}

/// What the work is about: the image, the roots and the widths.
struct Job {
    input_root: String,
    asset: String,
    output_root: String,
    widths: Vec<u32>,
}

/// The work on one source image.
pub struct Generator {
    job: Job,
    progress: Progress,
}

impl Job {
    /// The state of the work on this job at a given progress.
    spec fn at(&self, progress: ProgressView) -> GeneratorView {
        GeneratorView {
            input_root: self.input_root@,
            asset: self.asset@,
            output_root: self.output_root@,
            widths: self.widths@,
            progress,
        }
    }

    /// The path of the target of number `k`.
    fn target_path(&self, k: usize) -> (path: String)
        requires
            k <= self.widths@.len(),
        ensures
            path@ == self.at(ProgressView::Discovered).target_path(k as nat),
    {
        if k == 0 {
            corrected_path(self.output_root.as_str(), self.asset.as_str())
        } else {
            variant_path(self.output_root.as_str(), self.widths[k - 1], self.asset.as_str())
        }
    }

    /// The bytes to store for the target of number `k`.
    fn target_bytes(&self, upright: &PixelBuffer, k: usize) -> (bytes: Result<Vec<u8>, AssetError>)
        requires
            k <= self.widths@.len(),
        ensures
            bytes matches Ok(b) ==> self.at(ProgressView::Discovered).target_bytes(
                upright@,
                k as nat,
            ) == Ok::<Seq<u8>, AssetError>(b@),
            bytes matches Err(e) ==> self.at(ProgressView::Discovered).target_bytes(
                upright@,
                k as nat,
            ) == Err::<Seq<u8>, AssetError>(e),
    {
        let ext = match extension_of(self.asset.as_str()) {
            Some(ext) => ext,
            None => {
                return Err(AssetError::UnsupportedExtension);
            },
        };
        let encoded = if k == 0 {
            encode_image(upright, ext)
        } else {
            match scale(upright, self.widths[k - 1]) {
                Some(scaled) => encode_image(&scaled, ext),
                None => {
                    return Err(AssetError::TooLarge);
                },
            }
        };
        match encoded {
            Ok(bytes) => Ok(bytes),
            Err(EncodeError::UnsupportedExtension) => Err(AssetError::UnsupportedExtension),
            Err(EncodeError::Rejected) => Err(AssetError::EncoderRejected),
        }
    }

    /// The variants of the image, one for each width.
    fn derivatives(&self) -> (list: Vec<DerivativeAsset>)
        ensures
            derivative_views(list@) == self.at(ProgressView::Discovered).derivatives(),
    {
        let mut list: Vec<DerivativeAsset> = Vec::new();
        let mut i: usize = 0;
        while i < self.widths.len()
            invariant
                i <= self.widths.len(),
                list@.len() == i,
                forall|j: int|
                    0 <= j < i ==> (#[trigger] list@[j])@ == (DerivativeView {
                        width: self.widths@[j],
                        path: variant_path_spec(self.output_root@, self.widths@[j], self.asset@),
                    }),
            decreases self.widths.len() - i,
        {
            let width = self.widths[i];
            let path = variant_path(self.output_root.as_str(), width, self.asset.as_str());
            list.push(DerivativeAsset { width, path });
            i = i + 1;
        }
        assert(derivative_views(list@) =~= self.at(ProgressView::Discovered).derivatives());
        list
    }
}

impl View for Generator {
    type V = GeneratorView;

    closed spec fn view(&self) -> GeneratorView {
        self.job.at(
            match self.progress {
                Progress::Discovered => ProgressView::Discovered,
                Progress::Decoded(pixels, rotation) => ProgressView::Decoded(pixels@, rotation),
                Progress::Probing(upright, k) => ProgressView::Probing(upright@, k as nat),
                Progress::Storing(upright, k) => ProgressView::Storing(upright@, k as nat),
                Progress::Complete => ProgressView::Complete,
                Progress::Failed(error) => ProgressView::Failed(error),
            },
        )
    }
}

impl Generator {
    #[verifier::type_invariant]
    spec fn sound(&self) -> bool {
        self@.well_formed()
    }

    /// Starts the work on the image at path `asset` below `input_root`. The
    /// first task is to read the source file.
    pub fn new(input_root: &str, asset: &str, widths: Vec<u32>, output_root: &str) -> (start: (
        Generator,
        Task,
    ))
        ensures
            start.0@ == (GeneratorView {
                input_root: input_root@,
                asset: asset@,
                output_root: output_root@,
                widths: widths@,
                progress: ProgressView::Discovered,
            }),
            start.0@.well_formed(),
            start.1@ == TaskView::Read(start.0@.source_path()),
    {
        let source = join(input_root, asset);
        let job = Job {
            input_root: input_root.to_owned(),
            asset: asset.to_owned(),
            output_root: output_root.to_owned(),
            widths,
        };
        (Generator { job, progress: Progress::Discovered }, Task::Read(source))
    }

    /// The stage that the work is in.
    pub fn stage(&self) -> (stage: Stage)
        ensures
            stage == self@.stage(),
    {
        match &self.progress {
            Progress::Discovered => Stage::Discovered,
            Progress::Decoded(_, _) => Stage::Decoded,
            Progress::Probing(_, k) => if *k <= 1 {
                Stage::OrientationCorrected
            } else {
                Stage::WidthVariantPersisted
            },
            Progress::Storing(_, k) => if *k <= 1 {
                Stage::OrientationCorrected
            } else {
                Stage::WidthVariantPersisted
            },
            Progress::Complete => Stage::Complete,
            Progress::Failed(_) => Stage::Failed,
        }
    }

    /// Gives the work on a job up.
    fn fail(job: Job, error: AssetError) -> (next: (Generator, Task))
        ensures
            next.0@ == job.at(ProgressView::Failed(error)),
            next.1@ == TaskView::Abandon(error),
    {
        (Generator { job, progress: Progress::Failed(error) }, Task::Abandon(error))
    }

    /// Ends the work on a job.
    fn finish(job: Job) -> (next: (Generator, Task))
        ensures
            next.0@ == job.at(ProgressView::Complete),
            next.1@ == TaskView::Done(job.at(ProgressView::Complete).derivatives()),
    {
        let list = job.derivatives();
        (Generator { job, progress: Progress::Complete }, Task::Done(list))
    }

    /// Turns to the target of number `k`, which is probed.
    fn probe(job: Job, upright: PixelBuffer, k: usize) -> (next: (Generator, Task))
        requires
            k <= job.widths@.len(),
        ensures
            (next.0@, next.1@) == job.at(ProgressView::Discovered).turn_to(upright@, k as nat),
    {
        let path = job.target_path(k);
        (Generator { job, progress: Progress::Probing(upright, k) }, Task::Probe(path))
    }

    /// Turns to the target after the one of number `k`, or ends the work
    /// where that was the last.
    fn turn_past(job: Job, upright: PixelBuffer, k: usize) -> (next: (Generator, Task))
        requires
            k <= job.widths@.len(),
        ensures
            (next.0@, next.1@) == job.at(ProgressView::Discovered).turn_to(
                upright@,
                (k + 1) as nat,
            ),
    {
        if k < job.widths.len() {
            Self::probe(job, upright, k + 1)
        } else {
            Self::finish(job)
        }
    }

    /// Takes the outcome of the last task and says what to do next. The
    /// state that follows and the task are those of `transition`.
    pub fn advance(self, outcome: Outcome) -> (next: (Generator, Task))
        ensures
            (next.0@, next.1@) == self@.transition(outcome@),
            self@.well_formed(),
            next.0@.well_formed(),
    {
        proof {
            use_type_invariant(&self);
            crate::rerun::lemma_transition_progresses(self@, outcome@);
        }
        let Generator { job, progress } = self;
        match progress {
            Progress::Discovered => match outcome {
                Outcome::Contents(Some(bytes)) => {
                    match read_image_to_buffer(job.asset.as_str(), bytes.as_slice()) {
                        Some(pixels) => {
                            let raw_tag = ExifRotation::read_orientation_tag(bytes.as_slice());
                            let assumed = ExifRotation::assumes_upright(raw_tag);
                            let rotation = ExifRotation::resolve(raw_tag);
                            let progress = Progress::Decoded(pixels, rotation);
                            (Generator { job, progress }, Task::Proceed(assumed))
                        },
                        None => Self::fail(job, AssetError::Undecodable),
                    }
                },
                Outcome::Contents(None) => Self::fail(job, AssetError::Unreadable),
                _ => Self::fail(job, AssetError::UnexpectedOutcome),
            },
            Progress::Decoded(pixels, rotation) => match outcome {
                Outcome::Resumed => Self::probe(job, rotation.apply(pixels), 0),
                _ => Self::fail(job, AssetError::UnexpectedOutcome),
            },
            Progress::Probing(upright, k) => match outcome {
                Outcome::Exists(true) => Self::turn_past(job, upright, k),
                Outcome::Exists(false) => match job.target_bytes(&upright, k) {
                    Ok(bytes) => {
                        let path = job.target_path(k);
                        let progress = Progress::Storing(upright, k);
                        (Generator { job, progress }, Task::Store(path, bytes))
                    },
                    Err(error) => Self::fail(job, error),
                },
                _ => Self::fail(job, AssetError::UnexpectedOutcome),
            },
            Progress::Storing(upright, k) => match outcome {
                Outcome::Stored(true) => Self::turn_past(job, upright, k),
                Outcome::Stored(false) => Self::fail(job, AssetError::StoreFailed),
                _ => Self::fail(job, AssetError::UnexpectedOutcome),
            },
            Progress::Complete => Self::finish(job),
            Progress::Failed(error) => Self::fail(job, error),
        }
    }
}

} // verus!
