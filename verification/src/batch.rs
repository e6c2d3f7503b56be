//! The work on many source images, one after the other. An image whose work
//! is given up is reported and the next one is taken up as if nothing had
//! happened: no image's failure touches another's work.

use vstd::prelude::*;
use crate::generator::{
    derivative_views, AssetError, DerivativeAsset, DerivativeView, Generator, GeneratorView,
    Outcome, OutcomeView, Task, TaskView,
};
use crate::rerun::{lemma_transition_progresses, start};

verus! {

/// How the work on one image ended.
#[derive(Debug)]
pub struct AssetReport {
    /// The image's path below the input root.
    pub asset: String,
    /// Its variants where the work was done, the reason where it was given up.
    pub result: Result<Vec<DerivativeAsset>, AssetError>,
}

/// What a batch asks of its caller.
#[derive(Debug)]
pub enum BatchTask {
    /// Carry the task out for the image of this number, and report the outcome.
    Work(usize, Task),
    /// The work on an image has ended: take note, and report `Resumed`.
    Report(AssetReport),
    /// Every image has been dealt with.
    Finished,
}

/// A report, as mathematics.
pub struct ReportView {
    pub asset: Seq<char>,
    pub result: Result<Seq<DerivativeView>, AssetError>,
}

/// A batch's task, as mathematics.
pub enum BatchTaskView {
    Work(nat, TaskView),
    Report(ReportView),
    Finished,
}

/// The state of a batch, as mathematics.
pub struct BatchView {
    pub input_root: Seq<char>,
    pub output_root: Seq<char>,
    pub widths: Seq<u32>,
    /// The images, by their paths below the input root.
    pub assets: Seq<Seq<char>>,
    /// How many images have been reported on. The image of this number is
    /// the one that is being worked on, or that is taken up next.
    pub reported: nat,
    /// The work on the image that is being worked on.
    pub current: Option<GeneratorView>,
}

impl View for AssetReport {
    type V = ReportView;

    open spec fn view(&self) -> ReportView {
        ReportView {
            asset: self.asset@,
            result: match self.result {
                Ok(list) => Ok(derivative_views(list@)),
                Err(error) => Err(error),
            },
        }
    }
}

/// The texts that a list of strings holds.
pub open spec fn asset_texts(assets: Seq<String>) -> Seq<Seq<char>> {
    Seq::new(assets.len(), |i: int| assets[i]@)
}

impl View for BatchTask {
    type V = BatchTaskView;

    open spec fn view(&self) -> BatchTaskView {
        match self {
            BatchTask::Work(number, task) => BatchTaskView::Work(*number as nat, task@),
            BatchTask::Report(report) => BatchTaskView::Report(report@),
            BatchTask::Finished => BatchTaskView::Finished,
        }
    }
}

impl BatchView {
    /// Taking up the next image: its work starts afresh with the reading of
    /// its source. Where every image is reported on, the batch is finished.
    pub open spec fn take_up(self) -> (BatchView, BatchTaskView) {
        if self.reported < self.assets.len() {
            let work = start(
                self.input_root,
                self.assets[self.reported as int],
                self.widths,
                self.output_root,
            );
            (
                BatchView { current: Some(work), ..self },
                BatchTaskView::Work(self.reported, TaskView::Read(work.source_path())),
            )
        } else {
            (BatchView { current: None, ..self }, BatchTaskView::Finished)
        }
    }

    /// Reporting on the image that was worked on.
    pub open spec fn report(self, report: ReportView) -> (BatchView, BatchTaskView) {
        (
            BatchView { reported: self.reported + 1, current: None, ..self },
            BatchTaskView::Report(report),
        )
    }

    /// The state that follows on an outcome, and the task that goes with it.
    /// While an image is worked on, the outcome goes to its work; where that
    /// ends, done or given up, it is reported. After a report, and at the
    /// start, the next image is taken up, whatever the outcome says.
    pub open spec fn transition(self, outcome: OutcomeView) -> (BatchView, BatchTaskView) {
        match self.current {
            None => self.take_up(),
            Some(work) => {
                let next = work.transition(outcome);
                match next.1 {
                    TaskView::Done(list) => self.report(
                        ReportView { asset: work.asset, result: Ok(list) },
                    ),
                    TaskView::Abandon(error) => self.report(
                        ReportView { asset: work.asset, result: Err(error) },
                    ),
                    task => (
                        BatchView { current: Some(next.0), ..self },
                        BatchTaskView::Work(self.reported, task),
                    ),
                }
            },
        }
    }

    /// The state is one that a batch can be in: no more images are reported
    /// on than there are, and the current work is that on the next image.
    pub open spec fn well_formed(self) -> bool {
        &&& self.reported <= self.assets.len()
        &&& self.current matches Some(work) ==> {
            &&& self.reported < self.assets.len()
            &&& work.well_formed()
            &&& work.input_root == self.input_root
            &&& work.output_root == self.output_root
            &&& work.widths == self.widths
            &&& work.asset == self.assets[self.reported as int]
        }
    }
}

/// Every image is reported on once, in the images' order, before a batch
/// finishes: a step that reports does so on the image whose number is the
/// number of reports so far, no other step changes that number, and a batch
/// finishes only when it is the number of images.
pub proof fn lemma_batch_reports_every_image(state: BatchView, outcome: OutcomeView)
    requires
        state.well_formed(),
    ensures
        state.transition(outcome).0.well_formed(),
        state.transition(outcome).0.assets == state.assets,
        state.transition(outcome).1 matches BatchTaskView::Report(report) ==> {
            &&& state.reported < state.assets.len()
            &&& report.asset == state.assets[state.reported as int]
            &&& state.transition(outcome).0.reported == state.reported + 1
        },
        !(state.transition(outcome).1 is Report) ==> state.transition(outcome).0.reported
            == state.reported,
        state.transition(outcome).1 is Finished ==> state.reported == state.assets.len(),
        state.transition(outcome).1 matches BatchTaskView::Work(number, task) ==> number
            == state.reported && number < state.assets.len() && !(task is Done) && !(task
            is Abandon),
{
    match state.current {
        None => {},
        Some(work) => {
            lemma_transition_progresses(work, outcome);
        },
    }
}

/// The only files that a batch asks to be read are the sources of its
/// images: a task to read is for the source of the image that it names.
pub proof fn lemma_batch_reads_only_sources(state: BatchView, outcome: OutcomeView)
    requires
        state.well_formed(),
    ensures
        state.transition(outcome).1 matches BatchTaskView::Work(number, TaskView::Read(path))
            ==> number < state.assets.len() && path == start(
            state.input_root,
            state.assets[number as int],
            state.widths,
            state.output_root,
        ).source_path(),
{
}

/// After a report the next image's work starts from its very beginning,
/// whether the image before it was done or given up: how one image fares
/// changes nothing for the next.
pub proof fn lemma_next_image_starts_afresh(
    state: BatchView,
    outcome: OutcomeView,
    resumed: OutcomeView,
)
    requires
        state.well_formed(),
        state.transition(outcome).1 is Report,
        state.reported + 1 < state.assets.len(),
    ensures
        state.transition(outcome).0.transition(resumed).0.current == Some(
            start(
                state.input_root,
                state.assets[state.reported as int + 1],
                state.widths,
                state.output_root,
            ),
        ),
        state.transition(outcome).0.transition(resumed).1 == BatchTaskView::Work(
            state.reported + 1,
            TaskView::Read(
                start(
                    state.input_root,
                    state.assets[state.reported as int + 1],
                    state.widths,
                    state.output_root,
                ).source_path(),
            ),
        ),
{
}

/// The work on a list of source images.
pub struct Batch {
    input_root: String,
    output_root: String,
    widths: Vec<u32>,
    assets: Vec<String>,
    reported: usize,
    current: Option<Generator>,
}

impl View for Batch {
    type V = BatchView;

    closed spec fn view(&self) -> BatchView {
        BatchView {
            input_root: self.input_root@,
            output_root: self.output_root@,
            widths: self.widths@,
            assets: asset_texts(self.assets@),
            reported: self.reported as nat,
            current: match self.current {
                Some(work) => Some(work@),
                None => None,
            },
        }
    }
}

/// A copy of a list of widths.
fn copy_widths(widths: &Vec<u32>) -> (copy: Vec<u32>)
    ensures
        copy@ == widths@,
{
    let mut copy: Vec<u32> = Vec::with_capacity(widths.len());
    let mut i: usize = 0;
    while i < widths.len()
        invariant
            i <= widths.len(),
            copy@ == widths@.take(i as int),
        decreases widths.len() - i,
    {
        copy.push(widths[i]);
        assert(widths@.take(i as int).push(widths@[i as int]) =~= widths@.take(i + 1));
        i = i + 1;
    }
    assert(widths@.take(widths@.len() as int) =~= widths@);
    copy
}

impl Batch {
    #[verifier::type_invariant]
    spec fn sound(&self) -> bool {
        self@.well_formed()
    }

    /// A batch of the images at the given paths below `input_root`, with no
    /// image taken up yet. Whatever is reported to it first, it takes up the
    /// first image.
    pub fn new(input_root: &str, assets: Vec<String>, widths: Vec<u32>, output_root: &str) -> (batch:
        Batch)
        ensures
            batch@ == (BatchView {
                input_root: input_root@,
                output_root: output_root@,
                widths: widths@,
                assets: asset_texts(assets@),
                reported: 0,
                current: None,
            }),
            batch@.well_formed(),
    {
        Batch {
            input_root: input_root.to_owned(),
            output_root: output_root.to_owned(),
            widths,
            assets,
            reported: 0,
            current: None,
        }
    }

    /// Takes the outcome of the last task and says what to do next. The
    /// state that follows and the task are those of `transition`.
    pub fn advance(self, outcome: Outcome) -> (next: (Batch, BatchTask))
        ensures
            (next.0@, next.1@) == self@.transition(outcome@),
            self@.well_formed(),
            next.0@.well_formed(),
    {
        proof {
            use_type_invariant(&self);
            lemma_batch_reports_every_image(self@, outcome@);
        }
        let Batch { input_root, output_root, widths, assets, reported, current } = self;
        let count = assets.len();
        match current {
            None => {
                if reported < count {
                    let started = Generator::new(
                        input_root.as_str(),
                        assets[reported].as_str(),
                        copy_widths(&widths),
                        output_root.as_str(),
                    );
                    let current = Some(started.0);
                    let batch = Batch { input_root, output_root, widths, assets, reported, current };
                    (batch, BatchTask::Work(reported, started.1))
                } else {
                    let batch = Batch {
                        input_root,
                        output_root,
                        widths,
                        assets,
                        reported,
                        current: None,
                    };
                    (batch, BatchTask::Finished)
                }
            },
            Some(work) => {
                let next = work.advance(outcome);
                let result = match next.1 {
                    Task::Done(list) => Ok(list),
                    Task::Abandon(error) => Err(error),
                    task => {
                        let current = Some(next.0);
                        let batch = Batch {
                            input_root,
                            output_root,
                            widths,
                            assets,
                            reported,
                            current,
                        };
                        return (batch, BatchTask::Work(reported, task));
                    },
                };
                let report = AssetReport { asset: assets[reported].clone(), result };
                let batch = Batch {
                    input_root,
                    output_root,
                    widths,
                    assets,
                    reported: reported + 1,
                    current: None,
                };
                (batch, BatchTask::Report(report))
            },
        }
    }
}

} // verus!
