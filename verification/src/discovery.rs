//! Finding the source images below a root directory. The walk is a small
//! machine: it names the directory to be listed next, takes the listing, and
//! in the end hands out the source images it found, sorted by path. Listing
//! a directory is the caller's part.

use vstd::prelude::*;
use crate::layout::{join_chars, joined};
use crate::names::{classify, classify_spec, Classification, ClassifierConfig};
use crate::text::{chars_of, string_of};

verus! {

/// One entry of a directory listing.
pub struct Entry {
    /// The entry's name within its directory.
    pub name: String,
    /// Whether the entry is a directory.
    pub is_directory: bool,
}

/// What came of listing a directory.
pub enum Listing {
    /// The entries of the directory, in any order.
    Entries(Vec<Entry>),
    /// The directory could not be listed.
    Unreadable,
}

/// Why a walk found nothing.
#[derive(Debug)]
pub enum DiscoveryError {
    /// The root or a directory below it could not be listed; the path is
    /// relative to the root, and empty for the root itself.
    DirectoryUnreadable(String),
}

/// What a walk asks of its caller next.
pub enum DiscoveryStep {
    /// List the directory at this path below the root, and record the listing.
    List(String),
    /// The walk is over: these are the source images, by their paths below
    /// the root, in ascending order.
    Finished(Vec<String>),
    /// The walk is over without a result.
    Failed(DiscoveryError),
}

/// How two texts stand to each other in the order of paths.
#[derive(PartialEq, Eq, Structural, Debug, Clone, Copy)]
pub enum Relation {
    Before,
    Same,
    After,
}

/// `a` and `b` agree on their first `k` characters, and then `a` ends or
/// goes on with a smaller character than `b`.
pub open spec fn precedes_at(a: Seq<char>, b: Seq<char>, k: int) -> bool {
    &&& 0 <= k <= a.len()
    &&& k < b.len()
    &&& forall|j: int| 0 <= j < k ==> a[j] == b[j]
    &&& (k == a.len() || a[k] < b[k])
}

/// The order of paths: character by character, a prefix before its extensions.
pub open spec fn precedes(a: Seq<char>, b: Seq<char>) -> bool {
    exists|k: int| precedes_at(a, b, k)
}

/// Each path comes before all that follow it: sorted, and none twice.
pub open spec fn strictly_ascending(paths: Seq<Seq<char>>) -> bool {
    forall|i: int, j: int| 0 <= i < j < paths.len() ==> precedes(paths[i], paths[j])
}

/// The texts that a list of character vectors holds.
pub open spec fn texts(paths: Seq<Vec<char>>) -> Seq<Seq<char>> {
    Seq::new(paths.len(), |i: int| paths[i]@)
}

/// The texts that a list of strings holds.
pub open spec fn string_texts(paths: Seq<String>) -> Seq<Seq<char>> {
    Seq::new(paths.len(), |i: int| paths[i]@)
}

/// The directories to walk into among the entries of `directory`, by path,
/// in the order of the listing.
pub open spec fn subdirectories(
    directory: Seq<char>,
    entries: Seq<Entry>,
    widths: Seq<u32>,
    reserved: Seq<Seq<char>>,
) -> Seq<Seq<char>>
    decreases entries.len(),
{
    if entries.len() == 0 {
        Seq::empty()
    } else {
        let before = subdirectories(directory, entries.drop_last(), widths, reserved);
        let entry = entries.last();
        if classify_spec(entry.name@, entry.is_directory, widths, reserved)
            == Classification::Directory {
            before.push(joined(directory, entry.name@))
        } else {
            before
        }
    }
}

/// Whether `path` is the path of a source image among the entries of `directory`.
pub open spec fn is_candidate(
    directory: Seq<char>,
    entries: Seq<Entry>,
    widths: Seq<u32>,
    reserved: Seq<Seq<char>>,
    path: Seq<char>,
) -> bool {
    exists|i: int|
        0 <= i < entries.len() && classify_spec(
            (#[trigger] entries[i]).name@,
            entries[i].is_directory,
            widths,
            reserved,
        ) == Classification::SourceCandidate && path == joined(directory, entries[i].name@)
}

/// The order of paths is transitive.
pub proof fn lemma_precedes_transitive(a: Seq<char>, b: Seq<char>, c: Seq<char>)
    requires
        precedes(a, b),
        precedes(b, c),
    ensures
        precedes(a, c),
{
    let k1 = choose|k: int| precedes_at(a, b, k);
    let k2 = choose|k: int| precedes_at(b, c, k);
    if k1 <= k2 {
        assert(precedes_at(a, c, k1));
    } else {
        assert(precedes_at(a, c, k2));
    }
}

/// No path comes before itself, and of two paths at most one comes before
/// the other.
pub proof fn lemma_precedes_asymmetric(a: Seq<char>, b: Seq<char>)
    ensures
        !precedes(a, a),
        !(precedes(a, b) && precedes(b, a)),
{
    if precedes(a, a) {
        let k = choose|k: int| precedes_at(a, a, k);
        assert(false);
    }
    if precedes(a, b) && precedes(b, a) {
        let k1 = choose|k: int| precedes_at(a, b, k);
        let k2 = choose|k: int| precedes_at(b, a, k);
        if k1 < k2 {
            assert(b[k1] == a[k1]);
        } else if k2 < k1 {
            assert(a[k2] == b[k2]);
        }
        assert(false);
    }
}

/// An ascending list is fixed by what it holds: two ascending lists that
/// hold the same paths are the same list.
pub proof fn lemma_ascending_list_is_unique(a: Seq<Seq<char>>, b: Seq<Seq<char>>)
    requires
        strictly_ascending(a),
        strictly_ascending(b),
        forall|path: Seq<char>| a.contains(path) <==> b.contains(path),
    ensures
        a == b,
    decreases a.len(),
{
    if a.len() == 0 {
        if b.len() > 0 {
            assert(b.contains(b[0]));
        }
        assert(a =~= b);
    } else {
        assert(a.contains(a.last()));
        assert(b.contains(a.last()));
        let i = choose|i: int| 0 <= i < b.len() && b[i] == a.last();
        assert(b.contains(b.last()));
        assert(a.contains(b.last()));
        let j = choose|j: int| 0 <= j < a.len() && a[j] == b.last();
        lemma_precedes_asymmetric(a.last(), b.last());
        assert(i == b.len() - 1 && j == a.len() - 1) by {
            if i < b.len() - 1 {
                assert(precedes(b[i], b[b.len() - 1]));
            }
            if j < a.len() - 1 {
                assert(precedes(a[j], a[a.len() - 1]));
            }
        }
        let shorter_a = a.drop_last();
        let shorter_b = b.drop_last();
        assert forall|path: Seq<char>| shorter_a.contains(path) <==> shorter_b.contains(
            path,
        ) by {
            lemma_precedes_asymmetric(path, path);
            if shorter_a.contains(path) {
                let k = choose|k: int| 0 <= k < shorter_a.len() && shorter_a[k] == path;
                assert(a[k] == path);
                assert(precedes(a[k], a[a.len() - 1]));
                assert(a.contains(path));
                let m = choose|m: int| 0 <= m < b.len() && b[m] == path;
                assert(m < b.len() - 1);
                assert(shorter_b[m] == path);
            }
            if shorter_b.contains(path) {
                let k = choose|k: int| 0 <= k < shorter_b.len() && shorter_b[k] == path;
                assert(b[k] == path);
                assert(precedes(b[k], b[b.len() - 1]));
                assert(b.contains(path));
                let m = choose|m: int| 0 <= m < a.len() && a[m] == path;
                assert(m < a.len() - 1);
                assert(shorter_a[m] == path);
            }
        }
        assert forall|x: int, y: int| 0 <= x < y < shorter_a.len() implies precedes(
            shorter_a[x],
            shorter_a[y],
        ) by {
            assert(shorter_a[x] == a[x] && shorter_a[y] == a[y]);
        }
        assert forall|x: int, y: int| 0 <= x < y < shorter_b.len() implies precedes(
            shorter_b[x],
            shorter_b[y],
        ) by {
            assert(shorter_b[x] == b[x] && shorter_b[y] == b[y]);
        }
        lemma_ascending_list_is_unique(shorter_a, shorter_b);
        assert(a =~= shorter_a.push(a.last()));
        assert(b =~= shorter_b.push(b.last()));
    }
}

/// How `a` stands to `b` in the order of paths.
pub fn compare(a: &Vec<char>, b: &Vec<char>) -> (relation: Relation)
    ensures
        relation == Relation::Before ==> precedes(a@, b@),
        relation == Relation::Same ==> a@ == b@,
        relation == Relation::After ==> precedes(b@, a@),
{
    let mut i: usize = 0;
    while i < a.len() && i < b.len()
        invariant
            i <= a.len(),
            i <= b.len(),
            forall|j: int| 0 <= j < i ==> a@[j] == b@[j],
        decreases a.len() - i,
    {
        if a[i] < b[i] {
            assert(precedes_at(a@, b@, i as int));
            return Relation::Before;
        }
        if b[i] < a[i] {
            assert(precedes_at(b@, a@, i as int));
            return Relation::After;
        }
        i = i + 1;
    }
    if i < b.len() {
        assert(precedes_at(a@, b@, i as int));
        Relation::Before
    } else if i < a.len() {
        assert(precedes_at(b@, a@, i as int));
        Relation::After
    } else {
        assert(a@ =~= b@);
        Relation::Same
    }
}

/// Puts a path at its place in an ascending list, unless the list holds it.
pub(crate) fn insert_ascending(paths: &mut Vec<Vec<char>>, path: Vec<char>)
    requires
        strictly_ascending(texts(old(paths)@)),
    ensures
        strictly_ascending(texts(final(paths)@)),
        forall|p: Seq<char>|
            texts(final(paths)@).contains(p) <==> texts(old(paths)@).contains(p) || p == path@,
{
    let ghost before = texts(paths@);
    let mut at: usize = 0;
    let mut searching = true;
    while searching && at < paths.len()
        invariant
            at <= paths.len(),
            paths@ == old(paths)@,
            before == texts(paths@),
            strictly_ascending(before),
            forall|i: int| 0 <= i < at ==> precedes(#[trigger] before[i], path@),
            !searching ==> at < paths.len() && precedes(path@, before[at as int]),
        decreases paths.len() - at + (if searching { 1nat } else { 0nat }),
    {
        assert(before[at as int] == paths@[at as int]@);
        match compare(&paths[at], &path) {
            Relation::Before => {
                at = at + 1;
            },
            Relation::Same => {
                assert(before.contains(path@));
                return ;
            },
            Relation::After => {
                searching = false;
            },
        }
    }
    let ghost text = path@;
    paths.insert(at, path);
    proof {
        let after = texts(paths@);
        assert(after =~= before.insert(at as int, text));
        assert forall|i: int, j: int| 0 <= i < j < after.len() implies precedes(
            after[i],
            after[j],
        ) by {
            if j < at {
                assert(after[i] == before[i] && after[j] == before[j]);
            } else if j == at {
                assert(after[i] == before[i]);
            } else if i < at {
                assert(after[i] == before[i] && after[j] == before[j - 1]);
                if j - 1 > i {
                } else {
                    assert(false);
                }
            } else if i == at {
                assert(after[j] == before[j - 1]);
                if j - 1 > at {
                    lemma_precedes_transitive(text, before[at as int], before[j - 1]);
                }
            } else {
                assert(after[i] == before[i - 1] && after[j] == before[j - 1]);
            }
        }
        assert forall|p: Seq<char>| after.contains(p) <==> before.contains(p) || p == text by {
            if after.contains(p) {
                let i = choose|i: int| 0 <= i < after.len() && after[i] == p;
                if i < at {
                    assert(before[i] == p);
                } else if i > at {
                    assert(before[i - 1] == p);
                }
            }
            if before.contains(p) {
                let i = choose|i: int| 0 <= i < before.len() && before[i] == p;
                if i < at {
                    assert(after[i] == p);
                } else {
                    assert(after[i + 1] == p);
                }
            }
            if p == text {
                assert(after[at as int] == p);
            }
        }
    }
}

/// Only directories are walked into, and never one that holds generated
/// output: each path among the subdirectories of a listing is that of an
/// entry which is a directory and is not named as generated output.
pub proof fn lemma_subdirectories_are_walked(
    directory: Seq<char>,
    entries: Seq<Entry>,
    widths: Seq<u32>,
    reserved: Seq<Seq<char>>,
    i: int,
)
    requires
        0 <= i < subdirectories(directory, entries, widths, reserved).len(),
    ensures
        exists|j: int|
            0 <= j < entries.len() && (#[trigger] entries[j]).is_directory
                && !crate::names::is_generated_directory(entries[j].name@, widths, reserved)
                && subdirectories(directory, entries, widths, reserved)[i] == joined(
                directory,
                entries[j].name@,
            ),
    decreases entries.len(),
{
    let before = subdirectories(directory, entries.drop_last(), widths, reserved);
    if i < before.len() {
        lemma_subdirectories_are_walked(directory, entries.drop_last(), widths, reserved, i);
        let j = choose|j: int|
            0 <= j < entries.drop_last().len() && (#[trigger] entries.drop_last()[j]).is_directory
                && !crate::names::is_generated_directory(
                entries.drop_last()[j].name@,
                widths,
                reserved,
            ) && before[i] == joined(directory, entries.drop_last()[j].name@);
        assert(entries[j] == entries.drop_last()[j]);
    } else {
        assert(entries[entries.len() - 1] == entries.last());
    }
}

/// Taking one more entry of a listing into account adds its path to the
/// source images if it is one, and nothing else.
proof fn lemma_candidate_step(
    directory: Seq<char>,
    entries: Seq<Entry>,
    widths: Seq<u32>,
    reserved: Seq<Seq<char>>,
    count: int,
    path: Seq<char>,
)
    requires
        0 <= count < entries.len(),
    ensures
        is_candidate(directory, entries.take(count + 1), widths, reserved, path) <==> is_candidate(
            directory,
            entries.take(count),
            widths,
            reserved,
            path,
        ) || (classify_spec(
            entries[count].name@,
            entries[count].is_directory,
            widths,
            reserved,
        ) == Classification::SourceCandidate && path == joined(directory, entries[count].name@)),
{
    let shorter = entries.take(count);
    let longer = entries.take(count + 1);
    if is_candidate(directory, longer, widths, reserved, path) {
        let i = choose|i: int|
            0 <= i < longer.len() && classify_spec(
                (#[trigger] longer[i]).name@,
                longer[i].is_directory,
                widths,
                reserved,
            ) == Classification::SourceCandidate && path == joined(directory, longer[i].name@);
        if i < count {
            assert(shorter[i] == longer[i]);
        }
    }
    if is_candidate(directory, shorter, widths, reserved, path) {
        let i = choose|i: int|
            0 <= i < shorter.len() && classify_spec(
                (#[trigger] shorter[i]).name@,
                shorter[i].is_directory,
                widths,
                reserved,
            ) == Classification::SourceCandidate && path == joined(directory, shorter[i].name@);
        assert(longer[i] == shorter[i]);
    }
    if classify_spec(entries[count].name@, entries[count].is_directory, widths, reserved)
        == Classification::SourceCandidate && path == joined(directory, entries[count].name@) {
        assert(longer[count] == entries[count]);
    }
}

/// The state of a walk, as mathematics.
pub struct DiscoveryView {
    /// The derivative widths that the walk passes over as directory names.
    pub widths: Seq<u32>,
    /// The reserved directory names that the walk passes over.
    pub reserved: Seq<Seq<char>>,
    /// The directories still to be listed; the last one is listed next.
    pub pending: Seq<Seq<char>>,
    /// The source images found so far.
    pub found: Seq<Seq<char>>,
    /// The directory whose listing the walk waits for.
    pub awaited: Option<Seq<char>>,
    /// The directory that could not be listed.
    pub unreadable: Option<Seq<char>>,
}

impl DiscoveryView {
    /// The source images found so far are in ascending order, none twice.
    /// Every walk starts so and stays so.
    pub open spec fn well_formed(self) -> bool {
        strictly_ascending(self.found)
    }

    /// The state after the listing that the walk waits for has come. A walk
    /// that waits for none, or has failed, stays as it is. An unreadable
    /// directory fails the walk. Otherwise the directories of the listing that
    /// are walked into become pending, in the listing's order, and its source
    /// images are among those found, which stay in ascending order.
    pub open spec fn recorded(self, listing: Listing, after: DiscoveryView) -> bool {
        if self.unreadable is Some || self.awaited is None {
            after == self
        } else {
            let directory = self.awaited->0;
            match listing {
                Listing::Unreadable => after == (DiscoveryView {
                    awaited: None,
                    unreadable: Some(directory),
                    ..self
                }),
                Listing::Entries(entries) => {
                    &&& after.widths == self.widths
                    &&& after.reserved == self.reserved
                    &&& after.awaited is None
                    &&& after.unreadable is None
                    &&& after.pending == self.pending + subdirectories(
                        directory,
                        entries@,
                        self.widths,
                        self.reserved,
                    )
                    &&& strictly_ascending(after.found)
                    &&& forall|path: Seq<char>|
                        after.found.contains(path) <==> self.found.contains(path) || is_candidate(
                            directory,
                            entries@,
                            self.widths,
                            self.reserved,
                            path,
                        )
                },
            }
        }
    }
}

/// A walk over the directories below a root.
pub struct Discovery {
    config: ClassifierConfig,
    pending: Vec<Vec<char>>,
    found: Vec<Vec<char>>,
    awaited: Option<Vec<char>>,
    unreadable: Option<Vec<char>>,
}

/// The text of a path that may be missing.
pub open spec fn optional_text(path: Option<Vec<char>>) -> Option<Seq<char>> {
    match path {
        Some(p) => Some(p@),
        None => None,
    }
}

impl View for Discovery {
    type V = DiscoveryView;

    closed spec fn view(&self) -> DiscoveryView {
        DiscoveryView {
            widths: self.config.widths@,
            reserved: self.config.reserved_names(),
            pending: texts(self.pending@),
            found: texts(self.found@),
            awaited: optional_text(self.awaited),
            unreadable: optional_text(self.unreadable),
        }
    }
}

impl Discovery {
    #[verifier::type_invariant]
    spec fn ordered(&self) -> bool {
        strictly_ascending(texts(self.found@))
    }

    /// A walk that has yet to list the root, which has the empty path.
    pub fn new(config: ClassifierConfig) -> (walk: Discovery)
        ensures
            walk@ == (DiscoveryView {
                widths: config.widths@,
                reserved: config.reserved_names(),
                pending: seq![Seq::<char>::empty()],
                found: Seq::<Seq<char>>::empty(),
                awaited: None,
                unreadable: None,
            }),
            walk@.well_formed(),
    {
        let mut pending: Vec<Vec<char>> = Vec::new();
        pending.push(Vec::new());
        let found: Vec<Vec<char>> = Vec::new();
        proof {
            assert(texts(pending@) =~= seq![Seq::<char>::empty()]);
            assert(texts(found@) =~= Seq::<Seq<char>>::empty());
        }
        Discovery { config, pending, found, awaited: None, unreadable: None }
    }

    /// What the walk asks for next, and the walk as it goes on. A failed walk
    /// says so, each time. A walk that waits for a listing asks for it again.
    /// Otherwise the directory that became pending last is asked for; where
    /// none is pending, the walk is over and hands out what it found.
    pub fn next(self) -> (asked: (Discovery, DiscoveryStep))
        ensures
            self@.well_formed(),
            asked.0@.well_formed(),
            match asked.1 {
                DiscoveryStep::Failed(DiscoveryError::DirectoryUnreadable(directory)) => {
                    &&& self@.unreadable == Some(directory@)
                    &&& asked.0@ == self@
                },
                DiscoveryStep::List(directory) => {
                    &&& self@.unreadable is None
                    &&& match self@.awaited {
                        Some(awaited) => directory@ == awaited && asked.0@ == self@,
                        None => {
                            &&& self@.pending.len() > 0
                            &&& directory@ == self@.pending.last()
                            &&& asked.0@ == (DiscoveryView {
                                pending: self@.pending.drop_last(),
                                awaited: Some(directory@),
                                ..self@
                            })
                        },
                    }
                },
                DiscoveryStep::Finished(paths) => {
                    &&& self@.unreadable is None
                    &&& self@.awaited is None
                    &&& self@.pending.len() == 0
                    &&& string_texts(paths@) == self@.found
                    &&& asked.0@ == self@
                },
            },
    {
        proof {
            use_type_invariant(&self);
        }
        let Discovery { config, mut pending, found, awaited, unreadable } = self;
        if let Some(directory) = &unreadable {
            let step = DiscoveryStep::Failed(
                DiscoveryError::DirectoryUnreadable(string_of(directory)),
            );
            return (Discovery { config, pending, found, awaited, unreadable }, step);
        }
        if let Some(directory) = &awaited {
            let step = DiscoveryStep::List(string_of(directory));
            return (Discovery { config, pending, found, awaited, unreadable }, step);
        }
        let ghost before = texts(pending@);
        match pending.pop() {
            Some(directory) => {
                let asked = string_of(&directory);
                proof {
                    assert(texts(pending@) =~= before.drop_last());
                }
                let walk = Discovery {
                    config,
                    pending,
                    found,
                    awaited: Some(directory),
                    unreadable,
                };
                (walk, DiscoveryStep::List(asked))
            },
            None => {
                let mut paths: Vec<String> = Vec::new();
                let mut i: usize = 0;
                while i < found.len()
                    invariant
                        i <= found.len(),
                        paths@.len() == i,
                        forall|j: int| 0 <= j < i ==> paths@[j]@ == found@[j]@,
                    decreases found.len() - i,
                {
                    paths.push(string_of(&found[i]));
                    i = i + 1;
                }
                proof {
                    assert(string_texts(paths@) =~= texts(found@));
                    assert(texts(pending@) =~= before);
                }
                let walk = Discovery { config, pending, found, awaited, unreadable };
                (walk, DiscoveryStep::Finished(paths))
            },
        }
    }

    /// Takes the listing that the walk waits for.
    pub fn record(self, listing: Listing) -> (walk: Discovery)
        ensures
            self@.well_formed(),
            walk@.well_formed(),
            self@.recorded(listing, walk@),
    {
        proof {
            use_type_invariant(&self);
        }
        let Discovery { config, mut pending, mut found, awaited, unreadable } = self;
        if unreadable.is_some() {
            return Discovery { config, pending, found, awaited, unreadable };
        }
        let directory = match awaited {
            Some(directory) => directory,
            None => {
                return Discovery { config, pending, found, awaited: None, unreadable };
            },
        };
        let entries = match listing {
            Listing::Entries(entries) => entries,
            Listing::Unreadable => {
                return Discovery {
                    config,
                    pending,
                    found,
                    awaited: None,
                    unreadable: Some(directory),
                };
            },
        };
        let ghost widths = config.widths@;
        let ghost reserved = config.reserved_names();
        let ghost pending_before = texts(pending@);
        let ghost found_before = texts(found@);
        let mut i: usize = 0;
        proof {
            assert(entries@.take(0) =~= Seq::<Entry>::empty());
            assert(texts(pending@) =~= pending_before + subdirectories(
                directory@,
                entries@.take(0),
                widths,
                reserved,
            ));
        }
        while i < entries.len()
            invariant
                i <= entries.len(),
                widths == config.widths@,
                reserved == config.reserved_names(),
                texts(pending@) == pending_before + subdirectories(
                    directory@,
                    entries@.take(i as int),
                    widths,
                    reserved,
                ),
                strictly_ascending(texts(found@)),
                forall|path: Seq<char>|
                    texts(found@).contains(path) <==> found_before.contains(path) || is_candidate(
                        directory@,
                        entries@.take(i as int),
                        widths,
                        reserved,
                        path,
                    ),
            decreases entries.len() - i,
        {
            let entry = &entries[i];
            let ghost pending_now = texts(pending@);
            let ghost found_now = texts(found@);
            proof {
                assert(entries@.take(i + 1).drop_last() =~= entries@.take(i as int));
                assert(entries@.take(i + 1).last() == entries@[i as int]);
            }
            let ghost class = classify_spec(entry.name@, entry.is_directory, widths, reserved);
            match classify(entry.name.as_str(), entry.is_directory, &config) {
                Classification::Directory => {
                    let path = join_chars(&directory, &chars_of(entry.name.as_str()));
                    pending.push(path);
                    proof {
                        assert(texts(pending@) =~= pending_now.push(
                            joined(directory@, entry.name@),
                        ));
                    }
                },
                Classification::SourceCandidate => {
                    let path = join_chars(&directory, &chars_of(entry.name.as_str()));
                    insert_ascending(&mut found, path);
                },
                Classification::Ignore => {},
            }
            proof {
                let found_after = texts(found@);
                assert forall|path: Seq<char>|
                    found_after.contains(path) <==> found_before.contains(path) || is_candidate(
                        directory@,
                        entries@.take(i + 1),
                        widths,
                        reserved,
                        path,
                    ) by {
                    lemma_candidate_step(directory@, entries@, widths, reserved, i as int, path);
                    assert(found_now.contains(path) <==> found_before.contains(path)
                        || is_candidate(
                        directory@,
                        entries@.take(i as int),
                        widths,
                        reserved,
                        path,
                    ));
                    if class == Classification::SourceCandidate {
                        assert(found_after.contains(path) <==> found_now.contains(path) || path
                            == joined(directory@, entry.name@));
                    } else {
                        assert(found_after == found_now);
                    }
                }
            }
            i = i + 1;
        }
        proof {
            assert(entries@.take(entries@.len() as int) =~= entries@);
        }
        Discovery { config, pending, found, awaited: None, unreadable }
    }
}

} // verus!
