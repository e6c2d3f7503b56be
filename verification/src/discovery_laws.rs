//! What a whole walk finds: exactly the source images of the tree that lie
//! in directories the walk passes through.

use vstd::prelude::*;
use crate::discovery::{is_candidate, subdirectories, DiscoveryView, Listing};

verus! {

/// A tree of directories: the listing of each directory by its path below
/// the root. A directory that is missing from the map cannot be listed.
pub type DirectoryTree = Map<Seq<char>, Listing>;

/// What listing a directory of a tree gives.
pub open spec fn listing_of(tree: DirectoryTree, directory: Seq<char>) -> Listing {
    if tree.dom().contains(directory) {
        tree[directory]
    } else {
        Listing::Unreadable
    }
}

/// Whether `path` is a source image that lies `depth` directories below
/// `directory`, each of them one that a walk goes into.
pub open spec fn found_below(
    tree: DirectoryTree,
    widths: Seq<u32>,
    reserved: Seq<Seq<char>>,
    directory: Seq<char>,
    path: Seq<char>,
    depth: nat,
) -> bool
    decreases depth,
{
    match listing_of(tree, directory) {
        Listing::Unreadable => false,
        Listing::Entries(entries) => if depth == 0 {
            is_candidate(directory, entries@, widths, reserved, path)
        } else {
            exists|i: int|
                0 <= i < subdirectories(directory, entries@, widths, reserved).len()
                    && found_below(
                    tree,
                    widths,
                    reserved,
                    #[trigger] subdirectories(directory, entries@, widths, reserved)[i],
                    path,
                    (depth - 1) as nat,
                )
        },
    }
}

/// Whether `path` is a source image of the tree: one that lies at some
/// depth below the root, which has the empty path.
pub open spec fn is_source(
    tree: DirectoryTree,
    widths: Seq<u32>,
    reserved: Seq<Seq<char>>,
    path: Seq<char>,
) -> bool {
    exists|depth: nat| found_below(tree, widths, reserved, Seq::<char>::empty(), path, depth)
}

/// Whether `path` is the path of an entry in the listing of `directory`
/// that is classified as a source image.
pub open spec fn listed_as_candidate(
    tree: DirectoryTree,
    widths: Seq<u32>,
    reserved: Seq<Seq<char>>,
    directory: Seq<char>,
    path: Seq<char>,
) -> bool {
    listing_of(tree, directory) matches Listing::Entries(entries) && is_candidate(
        directory,
        entries@,
        widths,
        reserved,
        path,
    )
}

/// Every source image of a tree is an entry of some directory's listing
/// that is classified as a source image: nothing else is ever found.
pub proof fn lemma_sources_are_listed_candidates(
    tree: DirectoryTree,
    widths: Seq<u32>,
    reserved: Seq<Seq<char>>,
    path: Seq<char>,
)
    requires
        is_source(tree, widths, reserved, path),
    ensures
        exists|directory: Seq<char>|
            #[trigger] listed_as_candidate(tree, widths, reserved, directory, path),
{
    let depth = choose|depth: nat|
        found_below(tree, widths, reserved, Seq::<char>::empty(), path, depth);
    lemma_found_below_is_listed(tree, widths, reserved, Seq::<char>::empty(), path, depth);
}

/// What is found below a directory is listed as a source image somewhere.
proof fn lemma_found_below_is_listed(
    tree: DirectoryTree,
    widths: Seq<u32>,
    reserved: Seq<Seq<char>>,
    directory: Seq<char>,
    path: Seq<char>,
    depth: nat,
)
    requires
        found_below(tree, widths, reserved, directory, path, depth),
    ensures
        exists|at: Seq<char>| #[trigger] listed_as_candidate(tree, widths, reserved, at, path),
    decreases depth,
{
    let entries = listing_of(tree, directory)->Entries_0;
    if depth == 0 {
        assert(listed_as_candidate(tree, widths, reserved, directory, path));
    } else {
        let below = subdirectories(directory, entries@, widths, reserved);
        let i = choose|i: int|
            0 <= i < below.len() && found_below(
                tree,
                widths,
                reserved,
                #[trigger] below[i],
                path,
                (depth - 1) as nat,
            );
        lemma_found_below_is_listed(tree, widths, reserved, below[i], path, (depth - 1) as nat);
    }
}

/// The directories that a walk has yet to deal with: the pending ones and
/// the one whose listing it waits for.
pub open spec fn open_directories(state: DiscoveryView) -> Seq<Seq<char>> {
    match state.awaited {
        Some(directory) => state.pending.push(directory),
        None => state.pending,
    }
}

/// Whether everything found below `directory` is a source image of the tree.
pub open spec fn leads_to_sources(
    tree: DirectoryTree,
    widths: Seq<u32>,
    reserved: Seq<Seq<char>>,
    directory: Seq<char>,
) -> bool {
    forall|path: Seq<char>, depth: nat|
        found_below(tree, widths, reserved, directory, path, depth) ==> is_source(
            tree,
            widths,
            reserved,
            path,
        )
}

/// Whether `path` lies below one of the directories that the walk has yet to
/// deal with.
pub open spec fn still_to_come(tree: DirectoryTree, state: DiscoveryView, path: Seq<char>) -> bool {
    exists|i: int, depth: nat|
        0 <= i < open_directories(state).len() && #[trigger] found_below(
            tree,
            state.widths,
            state.reserved,
            open_directories(state)[i],
            path,
            depth,
        )
}

/// What holds of every state of a walk over a tree that has not failed:
/// what it found are source images of the tree, every directory it has yet
/// to deal with leads to source images only, and every source image of the
/// tree is found already or lies below one of those directories.
pub open spec fn on_course(tree: DirectoryTree, state: DiscoveryView) -> bool {
    &&& forall|i: int|
        0 <= i < open_directories(state).len() ==> leads_to_sources(
            tree,
            state.widths,
            state.reserved,
            #[trigger] open_directories(state)[i],
        )
    &&& forall|path: Seq<char>|
        state.found.contains(path) ==> is_source(tree, state.widths, state.reserved, path)
    &&& forall|path: Seq<char>|
        is_source(tree, state.widths, state.reserved, path) ==> state.found.contains(path)
            || still_to_come(tree, state, path)
}

/// A walk starts on course.
pub proof fn lemma_start_is_on_course(tree: DirectoryTree, state: DiscoveryView)
    requires
        state.pending == seq![Seq::<char>::empty()],
        state.found == Seq::<Seq<char>>::empty(),
        state.awaited is None,
    ensures
        on_course(tree, state),
{
    let open = open_directories(state);
    assert(open[0] == Seq::<char>::empty());
    assert forall|path: Seq<char>|
        is_source(tree, state.widths, state.reserved, path) implies still_to_come(
        tree,
        state,
        path,
    ) by {
        let depth = choose|depth: nat|
            found_below(tree, state.widths, state.reserved, Seq::<char>::empty(), path, depth);
        assert(found_below(tree, state.widths, state.reserved, open[0], path, depth));
    }
}

/// Asking for the next directory keeps a walk on course.
pub proof fn lemma_asking_stays_on_course(
    tree: DirectoryTree,
    state: DiscoveryView,
    after: DiscoveryView,
)
    requires
        on_course(tree, state),
        state.awaited is None,
        state.pending.len() > 0,
        after == (DiscoveryView {
            pending: state.pending.drop_last(),
            awaited: Some(state.pending.last()),
            ..state
        }),
    ensures
        on_course(tree, after),
{
    assert(open_directories(after) =~= open_directories(state));
    assert forall|path: Seq<char>|
        is_source(tree, after.widths, after.reserved, path) implies after.found.contains(path)
        || still_to_come(tree, after, path) by {
        if !state.found.contains(path) {
            assert(still_to_come(tree, state, path));
            let (i, depth) = choose|i: int, depth: nat|
                0 <= i < open_directories(state).len() && #[trigger] found_below(
                    tree,
                    state.widths,
                    state.reserved,
                    open_directories(state)[i],
                    path,
                    depth,
                );
            assert(found_below(
                tree,
                after.widths,
                after.reserved,
                open_directories(after)[i],
                path,
                depth,
            ));
        }
    }
}

/// Taking the listing that the tree gives for the directory asked for keeps
/// a walk on course, unless the directory cannot be listed.
pub proof fn lemma_recording_stays_on_course(
    tree: DirectoryTree,
    state: DiscoveryView,
    after: DiscoveryView,
)
    requires
        on_course(tree, state),
        state.unreadable is None,
        state.awaited is Some,
        listing_of(tree, state.awaited->0) is Entries,
        state.recorded(listing_of(tree, state.awaited->0), after),
    ensures
        on_course(tree, after),
{
    let directory = state.awaited->0;
    let entries = listing_of(tree, directory)->Entries_0;
    let widths = state.widths;
    let reserved = state.reserved;
    let below = subdirectories(directory, entries@, widths, reserved);
    let open = open_directories(state);
    let open_after = open_directories(after);
    assert(open[state.pending.len() as int] == directory);
    assert(open_after =~= state.pending + below);
    assert(leads_to_sources(tree, widths, reserved, directory));
    assert forall|i: int| 0 <= i < open_after.len() implies leads_to_sources(
        tree,
        widths,
        reserved,
        #[trigger] open_after[i],
    ) by {
        if i < state.pending.len() {
            assert(open_after[i] == open[i]);
        } else {
            let k = i - state.pending.len();
            assert(open_after[i] == below[k]);
            assert forall|path: Seq<char>, depth: nat|
                found_below(tree, widths, reserved, below[k], path, depth) implies is_source(
                tree,
                widths,
                reserved,
                path,
            ) by {
                assert(found_below(tree, widths, reserved, directory, path, depth + 1));
            }
        }
    }
    assert forall|path: Seq<char>| after.found.contains(path) implies is_source(
        tree,
        widths,
        reserved,
        path,
    ) by {
        if !state.found.contains(path) {
            assert(is_candidate(directory, entries@, widths, reserved, path));
            assert(found_below(tree, widths, reserved, directory, path, 0));
        }
    }
    assert forall|path: Seq<char>|
        is_source(tree, widths, reserved, path) implies after.found.contains(path)
        || still_to_come(tree, after, path) by {
        if !state.found.contains(path) {
            assert(still_to_come(tree, state, path));
            let (i, depth) = choose|i: int, depth: nat|
                0 <= i < open.len() && #[trigger] found_below(
                    tree,
                    widths,
                    reserved,
                    open[i],
                    path,
                    depth,
                );
            if i < state.pending.len() {
                assert(open_after[i] == open[i]);
                assert(found_below(tree, widths, reserved, open_after[i], path, depth));
            } else if depth == 0 {
                assert(is_candidate(directory, entries@, widths, reserved, path));
            } else {
                let k = choose|k: int|
                    0 <= k < below.len() && found_below(
                        tree,
                        widths,
                        reserved,
                        #[trigger] below[k],
                        path,
                        (depth - 1) as nat,
                    );
                assert(open_after[state.pending.len() + k] == below[k]);
                assert(found_below(
                    tree,
                    widths,
                    reserved,
                    open_after[state.pending.len() + k],
                    path,
                    (depth - 1) as nat,
                ));
            }
        }
    }
}

/// A walk that stayed on course and has nothing left to deal with has found
/// the source images of the tree, all of them and nothing else.
pub proof fn lemma_finished_walk_found_the_sources(
    tree: DirectoryTree,
    state: DiscoveryView,
    path: Seq<char>,
)
    requires
        on_course(tree, state),
        state.awaited is None,
        state.pending.len() == 0,
    ensures
        state.found.contains(path) <==> is_source(tree, state.widths, state.reserved, path),
{
    if is_source(tree, state.widths, state.reserved, path) && !state.found.contains(path) {
        assert(still_to_come(tree, state, path));
        assert(false);
    }
}

} // verus!
