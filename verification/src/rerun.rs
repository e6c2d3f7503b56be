//! Running the work on an image against a tree of files, and what a second
//! run finds: everything stored, and nothing to do.

use vstd::prelude::*;
use crate::generator::{GeneratorView, OutcomeView, ProgressView, TaskView};
use crate::layout::{lemma_corrected_path_is_no_variant, lemma_variant_paths_distinct};

verus! {

/// A tree of files: the bytes stored at each path.
pub type FileTree = Map<Seq<char>, Seq<u8>>;

/// What a run came to.
pub struct RunView {
    /// The tree after the run.
    pub tree: FileTree,
    /// How many files the run stored.
    pub stored: nat,
    /// The task that ended the run: `Done` or `Abandon`.
    pub last: TaskView,
}

/// What a caller reports who carries a task out on a tree, and for whom
/// storing always works.
pub open spec fn answer(tree: FileTree, task: TaskView) -> OutcomeView {
    match task {
        TaskView::Read(path) => OutcomeView::Contents(
            if tree.dom().contains(path) {
                Some(tree[path])
            } else {
                None
            },
        ),
        TaskView::Probe(path) => OutcomeView::Exists(tree.dom().contains(path)),
        TaskView::Store(_, _) => OutcomeView::Stored(true),
        _ => OutcomeView::Resumed,
    }
}

/// The tree after a task is carried out on it.
pub open spec fn effect(tree: FileTree, task: TaskView) -> FileTree {
    match task {
        TaskView::Store(path, bytes) => tree.insert(path, bytes),
        _ => tree,
    }
}

/// The start of the work on an image.
pub open spec fn start(
    input_root: Seq<char>,
    asset: Seq<char>,
    widths: Seq<u32>,
    output_root: Seq<char>,
) -> GeneratorView {
    GeneratorView { input_root, asset, output_root, widths, progress: ProgressView::Discovered }
}

/// The run that carries out `task` and every task after it on a tree, up to
/// the task that ends the work.
pub open spec fn run(state: GeneratorView, task: TaskView, tree: FileTree) -> RunView
    decreases state.remaining(),
{
    match task {
        TaskView::Done(_) => RunView { tree, stored: 0, last: task },
        TaskView::Abandon(_) => RunView { tree, stored: 0, last: task },
        _ => {
            let next = state.transition(answer(tree, task));
            if next.0.remaining() < state.remaining() {
                let rest = run(next.0, next.1, effect(tree, task));
                RunView {
                    stored: rest.stored + (if task is Store {
                        1nat
                    } else {
                        0nat
                    }),
                    ..rest
                }
            } else {
                RunView { tree, stored: 0, last: task }
            }
        },
    }
}

/// The whole run of the work on one image.
pub open spec fn run_from_start(
    input_root: Seq<char>,
    asset: Seq<char>,
    widths: Seq<u32>,
    output_root: Seq<char>,
    tree: FileTree,
) -> RunView {
    let state = start(input_root, asset, widths, output_root);
    run(state, TaskView::Read(state.source_path()), tree)
}

/// Every step of the work leads to a state that a machine can be in, and
/// either ends the work or leaves fewer tasks to come: the work ends.
pub proof fn lemma_transition_progresses(state: GeneratorView, outcome: OutcomeView)
    requires
        state.well_formed(),
    ensures
        state.transition(outcome).0.well_formed(),
        state.transition(outcome).0.remaining() < state.remaining() || state.transition(
            outcome,
        ).1 is Done || state.transition(outcome).1 is Abandon,
        state.transition(outcome).0.input_root == state.input_root,
        state.transition(outcome).0.asset == state.asset,
        state.transition(outcome).0.output_root == state.output_root,
        state.transition(outcome).0.widths == state.widths,
{
}

/// Work that is done stays done and work that was given up stays given up,
/// whatever is reported: neither is taken up again.
pub proof fn lemma_end_states_are_final(state: GeneratorView, outcome: OutcomeView)
    requires
        state.progress is Complete || state.progress is Failed,
    ensures
        state.transition(outcome).0 == state,
        state.progress is Complete ==> state.transition(outcome).1 == TaskView::Done(
            state.derivatives(),
        ),
        state.progress matches ProgressView::Failed(error) ==> state.transition(outcome).1
            == TaskView::Abandon(error),
{
}

/// Work that has not ended can be given up at every step: there is an
/// outcome that leads to `Failed`.
pub proof fn lemma_failure_is_always_possible(state: GeneratorView)
    requires
        !(state.progress is Complete),
    ensures
        exists|outcome: OutcomeView| #[trigger] state.transition(outcome).0.progress is Failed,
{
    let outcome = if state.progress is Discovered {
        OutcomeView::Resumed
    } else {
        OutcomeView::Contents(None)
    };
    assert(state.transition(outcome).0.progress is Failed);
}

/// Where no width is asked for twice, no two targets of an image share a
/// path: each is stored in a place of its own.
pub proof fn lemma_targets_are_apart(state: GeneratorView, j: nat, k: nat)
    requires
        forall|a: int, b: int|
            0 <= a < b < state.widths.len() ==> state.widths[a] != state.widths[b],
        j < k < state.targets(),
    ensures
        state.target_path(j) != state.target_path(k),
{
    if j == 0 {
        lemma_corrected_path_is_no_variant(state.output_root, state.widths[k - 1], state.asset);
    } else if state.target_path(j) == state.target_path(k) {
        lemma_variant_paths_distinct(
            state.output_root,
            state.widths[j - 1],
            state.asset,
            state.widths[k - 1],
            state.asset,
        );
    }
}

/// A target that exists is never stored again: the answer that it exists
/// leads to the next target or to the end, never to a `Store`.
pub proof fn lemma_existing_target_is_kept(state: GeneratorView)
    requires
        state.progress is Probing,
    ensures
        !(state.transition(OutcomeView::Exists(true)).1 is Store),
        state.transition(OutcomeView::Exists(true)).1 is Probe || state.transition(
            OutcomeView::Exists(true),
        ).1 is Done,
{
}

/// A run only adds files: from the probing of a target on, no file that was
/// there is changed or removed, however the run ends.
pub proof fn lemma_run_keeps_files(state: GeneratorView, tree: FileTree, path: Seq<char>)
    requires
        state.well_formed(),
        state.progress is Probing,
        tree.dom().contains(path),
    ensures
        run(
            state,
            TaskView::Probe(state.target_path(state.progress->Probing_1)),
            tree,
        ).tree.dom().contains(path),
        run(state, TaskView::Probe(state.target_path(state.progress->Probing_1)), tree).tree[path]
            == tree[path],
    decreases state.targets() - state.progress->Probing_1,
{
    reveal_with_fuel(run, 3);
    let k = state.progress->Probing_1;
    let upright = state.progress->Probing_0;
    let exists = tree.dom().contains(state.target_path(k));
    let next = state.transition(OutcomeView::Exists(exists));
    if exists {
        if k + 1 < state.targets() {
            assert(next.0.target_path((k + 1) as nat) == state.target_path((k + 1) as nat));
            lemma_run_keeps_files(next.0, tree, path);
        }
    } else if state.target_bytes(upright, k) is Ok {
        let bytes = state.target_bytes(upright, k)->Ok_0;
        let stored = tree.insert(state.target_path(k), bytes);
        let after = next.0.transition(OutcomeView::Stored(true));
        if k + 1 < state.targets() {
            assert(after.0.target_path((k + 1) as nat) == state.target_path((k + 1) as nat));
            lemma_run_keeps_files(after.0, stored, path);
        }
    }
}

/// From the probing of target `k` on, a run that ends with `Done` leaves
/// every target stored.
proof fn lemma_run_stores_targets(state: GeneratorView, tree: FileTree, k: nat)
    requires
        state.well_formed(),
        state.progress matches ProgressView::Probing(_, at) && at == k,
        forall|j: nat| j < k ==> tree.dom().contains(#[trigger] state.target_path(j)),
        run(state, TaskView::Probe(state.target_path(k)), tree).last is Done,
    ensures
        forall|j: nat|
            j < state.targets() ==> run(
                state,
                TaskView::Probe(state.target_path(k)),
                tree,
            ).tree.dom().contains(#[trigger] state.target_path(j)),
    decreases state.targets() - k,
{
    reveal_with_fuel(run, 3);
    let upright = state.progress->Probing_0;
    let probe = TaskView::Probe(state.target_path(k));
    let exists = tree.dom().contains(state.target_path(k));
    let next = state.transition(OutcomeView::Exists(exists));
    let bytes = state.target_bytes(upright, k)->Ok_0;
    let tree_after = if exists {
        tree
    } else {
        tree.insert(state.target_path(k), bytes)
    };
    let state_after = if exists {
        next.0
    } else {
        next.0.transition(OutcomeView::Stored(true)).0
    };
    if k + 1 < state.targets() {
        assert forall|j: nat| j < k + 1 implies tree_after.dom().contains(
            #[trigger] state_after.target_path(j),
        ) by {
            assert(state_after.target_path(j) == state.target_path(j));
        }
        lemma_run_stores_targets(state_after, tree_after, k + 1);
        assert forall|j: nat| j < state.targets() implies run(
            state,
            probe,
            tree,
        ).tree.dom().contains(#[trigger] state.target_path(j)) by {
            assert(state_after.target_path(j) == state.target_path(j));
        }
    } else {
        assert forall|j: nat| j < state.targets() implies tree_after.dom().contains(
            #[trigger] state.target_path(j),
        ) by {
            if j == k {
            }
        }
    }
}

/// From the probing of target `k` on, a run on a tree that holds every
/// target stores nothing, leaves the tree as it is and ends with `Done`.
proof fn lemma_run_on_full_tree(state: GeneratorView, tree: FileTree, k: nat)
    requires
        state.well_formed(),
        state.progress matches ProgressView::Probing(_, at) && at == k,
        forall|j: nat| j < state.targets() ==> tree.dom().contains(#[trigger] state.target_path(j)),
    ensures
        run(state, TaskView::Probe(state.target_path(k)), tree) == (RunView {
            tree,
            stored: 0,
            last: TaskView::Done(state.derivatives()),
        }),
    decreases state.targets() - k,
{
    reveal_with_fuel(run, 2);
    assert(tree.dom().contains(state.target_path(k)));
    let next = state.transition(OutcomeView::Exists(true));
    if k + 1 < state.targets() {
        assert forall|j: nat| j < next.0.targets() implies tree.dom().contains(
            #[trigger] next.0.target_path(j),
        ) by {
            assert(next.0.target_path(j) == state.target_path(j));
        }
        lemma_run_on_full_tree(next.0, tree, k + 1);
    }
}

/// Whether `task` is what the work asks for in `state` on the way of a run
/// over `tree`: the reading of the source at the start, the probing of the
/// target that is turned to, and the storing of a target that was probed
/// and is not there.
pub open spec fn asked_for(state: GeneratorView, task: TaskView, tree: FileTree) -> bool {
    match state.progress {
        ProgressView::Discovered => task == TaskView::Read(state.source_path()),
        ProgressView::Decoded(_, _) => task is Proceed,
        ProgressView::Probing(_, k) => task == TaskView::Probe(state.target_path(k)),
        ProgressView::Storing(_, k) => task matches TaskView::Store(path, _) && path
            == state.target_path(k) && !tree.dom().contains(path),
        ProgressView::Complete => task is Done,
        ProgressView::Failed(_) => task is Abandon,
    }
}

/// No step of the work asks for a file to be read: the one file that is
/// read is the source, which the work starts with.
pub proof fn lemma_only_the_source_is_read(state: GeneratorView, outcome: OutcomeView)
    ensures
        !(state.transition(outcome).1 is Read),
{
}

/// A run leaves every file that was there as it was, and the files that it
/// adds are targets of its image: nothing else is written, changed or
/// removed, however the run ends.
pub proof fn lemma_run_touches_only_targets(
    state: GeneratorView,
    task: TaskView,
    tree: FileTree,
    path: Seq<char>,
)
    requires
        state.well_formed(),
        asked_for(state, task, tree),
    ensures
        tree.dom().contains(path) ==> run(state, task, tree).tree.dom().contains(path) && run(
            state,
            task,
            tree,
        ).tree[path] == tree[path],
        run(state, task, tree).tree.dom().contains(path) && !tree.dom().contains(path)
            ==> exists|k: nat| k < state.targets() && path == #[trigger] state.target_path(k),
    decreases state.remaining(),
{
    reveal_with_fuel(run, 2);
    if !(task is Done) && !(task is Abandon) {
        let outcome = answer(tree, task);
        let next = state.transition(outcome);
        let tree_after = effect(tree, task);
        lemma_transition_progresses(state, outcome);
        if next.0.remaining() < state.remaining() {
            assert(asked_for(next.0, next.1, tree_after));
            lemma_run_touches_only_targets(next.0, next.1, tree_after, path);
            assert(run(state, task, tree).tree == run(next.0, next.1, tree_after).tree);
            if run(state, task, tree).tree.dom().contains(path) && !tree.dom().contains(path) {
                if tree_after.dom().contains(path) {
                    let k = state.progress->Storing_1;
                    assert(path == state.target_path(k));
                } else {
                    let k = choose|k: nat|
                        k < next.0.targets() && path == #[trigger] next.0.target_path(k);
                    assert(path == state.target_path(k));
                }
            }
        }
    }
}

/// The whole work on an image leaves every file that was there as it was,
/// the source among them, and adds nothing but targets of the image.
pub proof fn lemma_work_touches_only_targets(
    input_root: Seq<char>,
    asset: Seq<char>,
    widths: Seq<u32>,
    output_root: Seq<char>,
    tree: FileTree,
    path: Seq<char>,
)
    ensures
        tree.dom().contains(path) ==> run_from_start(
            input_root,
            asset,
            widths,
            output_root,
            tree,
        ).tree.dom().contains(path) && run_from_start(
            input_root,
            asset,
            widths,
            output_root,
            tree,
        ).tree[path] == tree[path],
        run_from_start(input_root, asset, widths, output_root, tree).tree.dom().contains(path)
            && !tree.dom().contains(path) ==> exists|k: nat|
            k < widths.len() + 1 && path == #[trigger] start(
                input_root,
                asset,
                widths,
                output_root,
            ).target_path(k),
{
    let state = start(input_root, asset, widths, output_root);
    lemma_run_touches_only_targets(state, TaskView::Read(state.source_path()), tree, path);
}

/// A second run does no work. Where the work on an image is run to its end
/// on a tree of files and then run again on the tree that it left, the
/// second run stores no file, leaves the tree as it found it, and ends with
/// the same variants as the first.
pub proof fn lemma_second_run_stores_nothing(
    input_root: Seq<char>,
    asset: Seq<char>,
    widths: Seq<u32>,
    output_root: Seq<char>,
    tree: FileTree,
)
    requires
        run_from_start(input_root, asset, widths, output_root, tree).last is Done,
    ensures
        run_from_start(
            input_root,
            asset,
            widths,
            output_root,
            run_from_start(input_root, asset, widths, output_root, tree).tree,
        ) == (RunView {
            tree: run_from_start(input_root, asset, widths, output_root, tree).tree,
            stored: 0,
            last: run_from_start(input_root, asset, widths, output_root, tree).last,
        }),
{
    reveal_with_fuel(run, 3);
    let state = start(input_root, asset, widths, output_root);
    let source = state.source_path();
    let first = run_from_start(input_root, asset, widths, output_root, tree);
    let read = state.transition(answer(tree, TaskView::Read(source)));
    assert(read.1 is Proceed);
    assert(tree.dom().contains(source));
    let resumed = read.0.transition(OutcomeView::Resumed);
    let probing = resumed.0;
    assert(resumed.1 == TaskView::Probe(probing.target_path(0)));
    assert(first == run(probing, resumed.1, tree));
    lemma_run_stores_targets(probing, tree, 0);
    lemma_run_keeps_files(probing, tree, source);
    assert(first.tree.dom().contains(source));
    assert(first.tree[source] == tree[source]);
    assert(answer(first.tree, TaskView::Read(source)) == answer(tree, TaskView::Read(source)));
    lemma_run_on_full_tree(probing, first.tree, 0);
    let second = run_from_start(input_root, asset, widths, output_root, first.tree);
    assert(second == run(probing, resumed.1, first.tree));
    assert(first.last is Done);
    lemma_run_ends_with_derivatives(probing, resumed.1, tree);
}

/// A run that ends with `Done` ends with the variants of the image.
proof fn lemma_run_ends_with_derivatives(state: GeneratorView, task: TaskView, tree: FileTree)
    requires
        state.well_formed(),
        run(state, task, tree).last is Done,
        task is Done ==> task == TaskView::Done(state.derivatives()),
    ensures
        run(state, task, tree).last == TaskView::Done(state.derivatives()),
    decreases state.remaining(),
{
    reveal_with_fuel(run, 2);
    match task {
        TaskView::Done(_) => {},
        TaskView::Abandon(_) => {},
        _ => {
            let next = state.transition(answer(tree, task));
            lemma_transition_progresses(state, answer(tree, task));
            if next.0.remaining() < state.remaining() {
                lemma_run_ends_with_derivatives(next.0, next.1, effect(tree, task));
            }
        },
    }
}

} // verus!
