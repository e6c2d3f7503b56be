//! What goes into the archive of a tree: one entry for each file that a walk
//! of the tree came by, named by its path below the root.

use vstd::prelude::*;
use crate::layout::{entry_name, entry_name_spec};

verus! {

/// One thing that a walk of a tree came by.
pub struct WalkEntry {
    /// Its path, the root's path included.
    pub path: String,
    /// Whether it is a file, as against a directory.
    pub is_file: bool,
}

/// One entry of the archive.
#[derive(Debug)]
pub struct ArchiveEntry {
    /// The entry's name in the archive.
    pub name: String,
    /// The file whose bytes the entry holds.
    pub path: String,
}

/// Why no archive is made.
#[derive(Debug)]
pub enum ArchiveError {
    /// The walk came by a path that does not lie below the root.
    OutsideRoot(String),
}

/// An archive entry, as mathematics.
pub struct ArchiveEntryView {
    pub name: Seq<char>,
    pub path: Seq<char>,
}

impl View for ArchiveEntry {
    type V = ArchiveEntryView;

    open spec fn view(&self) -> ArchiveEntryView {
        ArchiveEntryView { name: self.name@, path: self.path@ }
    }
}

/// The entries that a list holds, as mathematics.
pub open spec fn entry_views(entries: Seq<ArchiveEntry>) -> Seq<ArchiveEntryView> {
    Seq::new(entries.len(), |i: int| entries[i]@)
}

/// The entries of the archive of a walk: the files that the walk came by, in
/// its order, each under its path below the root. The first path of the
/// walk that does not lie below the root, file or not, is an error instead.
pub open spec fn archive_plan(root: Seq<char>, walked: Seq<WalkEntry>) -> Result<
    Seq<ArchiveEntryView>,
    Seq<char>,
>
    decreases walked.len(),
{
    if walked.len() == 0 {
        Ok(Seq::empty())
    } else {
        match archive_plan(root, walked.drop_last()) {
            Err(path) => Err(path),
            Ok(before) => match entry_name_spec(root, walked.last().path@) {
                None => Err(walked.last().path@),
                Some(name) => if walked.last().is_file {
                    Ok(before.push(ArchiveEntryView { name, path: walked.last().path@ }))
                } else {
                    Ok(before)
                },
            },
        }
    }
}

/// The archive holds nothing but files of the walk: each entry is a file
/// that the walk came by, under its path below the root.
pub proof fn lemma_entries_are_walked_files(root: Seq<char>, walked: Seq<WalkEntry>, k: int)
    requires
        archive_plan(root, walked) is Ok,
        0 <= k < archive_plan(root, walked)->Ok_0.len(),
    ensures
        exists|i: int|
            0 <= i < walked.len() && (#[trigger] walked[i]).is_file && archive_plan(
                root,
                walked,
            )->Ok_0[k].path == walked[i].path@ && entry_name_spec(root, walked[i].path@) == Some(
                archive_plan(root, walked)->Ok_0[k].name,
            ),
    decreases walked.len(),
{
    let before = archive_plan(root, walked.drop_last())->Ok_0;
    if k < before.len() {
        lemma_entries_are_walked_files(root, walked.drop_last(), k);
        let i = choose|i: int|
            0 <= i < walked.drop_last().len() && (#[trigger] walked.drop_last()[i]).is_file
                && before[k].path == walked.drop_last()[i].path@ && entry_name_spec(
                root,
                walked.drop_last()[i].path@,
            ) == Some(before[k].name);
        assert(walked[i] == walked.drop_last()[i]);
    } else {
        assert(walked[walked.len() - 1] == walked.last());
    }
}

/// The archive holds every file of the walk: each file that the walk came
/// by has an entry.
pub proof fn lemma_walked_files_have_entries(root: Seq<char>, walked: Seq<WalkEntry>, i: int)
    requires
        archive_plan(root, walked) is Ok,
        0 <= i < walked.len(),
        walked[i].is_file,
    ensures
        exists|k: int|
            0 <= k < archive_plan(root, walked)->Ok_0.len() && (#[trigger] archive_plan(
                root,
                walked,
            )->Ok_0[k]).path == walked[i].path@,
    decreases walked.len(),
{
    let before = archive_plan(root, walked.drop_last())->Ok_0;
    let entries = archive_plan(root, walked)->Ok_0;
    if i < walked.len() - 1 {
        assert(walked.drop_last()[i] == walked[i]);
        lemma_walked_files_have_entries(root, walked.drop_last(), i);
        let k = choose|k: int|
            0 <= k < before.len() && (#[trigger] before[k]).path == walked.drop_last()[i].path@;
        assert(entries[k] == before[k]);
    } else {
        assert(entries[entries.len() - 1].path == walked[i].path@);
    }
}

/// Plans the archive of a tree from a walk of it.
pub fn archive_entries(root: &str, walked: &Vec<WalkEntry>) -> (plan: Result<
    Vec<ArchiveEntry>,
    ArchiveError,
>)
    ensures
        plan matches Ok(entries) ==> archive_plan(root@, walked@) == Ok::<
            Seq<ArchiveEntryView>,
            Seq<char>,
        >(entry_views(entries@)),
        plan matches Err(ArchiveError::OutsideRoot(path)) ==> archive_plan(root@, walked@) == Err::<
            Seq<ArchiveEntryView>,
            Seq<char>,
        >(path@),
{
    let mut entries: Vec<ArchiveEntry> = Vec::new();
    let mut i: usize = 0;
    proof {
        assert(walked@.take(0) =~= Seq::<WalkEntry>::empty());
        assert(entry_views(entries@) =~= Seq::<ArchiveEntryView>::empty());
    }
    while i < walked.len()
        invariant
            i <= walked.len(),
            archive_plan(root@, walked@.take(i as int)) == Ok::<Seq<ArchiveEntryView>, Seq<char>>(
                entry_views(entries@),
            ),
        decreases walked.len() - i,
    {
        let entry = &walked[i];
        proof {
            assert(walked@.take(i + 1).drop_last() =~= walked@.take(i as int));
            assert(walked@.take(i + 1).last() == walked@[i as int]);
        }
        let ghost before = entry_views(entries@);
        match entry_name(root, entry.path.as_str()) {
            None => {
                proof {
                    lemma_plan_fails_for_good(root@, walked@, i + 1);
                }
                return Err(ArchiveError::OutsideRoot(entry.path.clone()));
            },
            Some(name) => {
                if entry.is_file {
                    entries.push(ArchiveEntry { name, path: entry.path.clone() });
                    proof {
                        assert(entry_views(entries@) =~= before.push(
                            ArchiveEntryView { name: name@, path: entry.path@ },
                        ));
                    }
                }
            },
        }
        i = i + 1;
    }
    proof {
        assert(walked@.take(walked@.len() as int) =~= walked@);
    }
    Ok(entries)
}

/// Once a path of the walk lies outside the root, the plan fails with that
/// path, whatever the walk comes by later.
proof fn lemma_plan_fails_for_good(root: Seq<char>, walked: Seq<WalkEntry>, count: int)
    requires
        0 <= count <= walked.len(),
        archive_plan(root, walked.take(count)) is Err,
    ensures
        archive_plan(root, walked) == archive_plan(root, walked.take(count)),
    decreases walked.len() - count,
{
    if count < walked.len() {
        assert(walked.take(count + 1).drop_last() =~= walked.take(count));
        lemma_plan_fails_for_good(root, walked, count + 1);
    } else {
        assert(walked.take(count) =~= walked);
    }
}

} // verus!
