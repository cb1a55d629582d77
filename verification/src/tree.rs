//! What a seeding run makes of a whole directory tree.
//!
//! A disk is a map from directories to their entries. A caller that does what each
//! [`SeedAction`](crate::seed::SeedAction) says, and hands over what it saw, is modelled by
//! [`run_from`]; the laws say what such a caller ends up with.

use vstd::prelude::*;

use crate::seed;
use crate::seed::EntryKind;
use crate::seed::SeedActionView;
use crate::seed::SeedEvent;
use crate::seed::SeedingView;

verus! {

/// A directory entry as the caller finds it on disk.
pub struct DiskEntry<P> {
    pub path: P,
    pub name: String,
    /// The path as text.
    pub shown: String,
    /// Absent where it cannot be determined.
    pub kind: Option<EntryKind>,
    /// Absent where it cannot be determined.
    pub size: Option<u64>,
    /// Whether the store takes the file.
    pub storable: bool,
}

impl<P> DiskEntry<P> {
    /// The entry as it is handed over when its directory is listed.
    pub open spec fn seen(self) -> SeedEvent<P> {
        SeedEvent::Entry { path: self.path, name: self.name, kind: self.kind }
    }

    /// The entry is a directory that the walk goes into.
    pub open spec fn is_entered(self) -> bool {
        self.kind == Some(EntryKind::Directory) && !seed::is_skipped(self.name@)
    }

    /// The entry is a file whose size can be determined.
    pub open spec fn is_measurable(self) -> bool {
        self.kind == Some(EntryKind::File) && self.size is Some
    }

    /// The entry is a file whose size can be determined and that the store takes.
    pub open spec fn is_taken(self) -> bool {
        self.is_measurable() && self.storable
    }

    /// The entry is one that the walk passes over: a directory that never holds repository content,
    /// or neither a directory nor a file, such as a link.
    pub open spec fn is_passed_over(self) -> bool {
        ||| self.kind == Some(EntryKind::Directory) && seed::is_skipped(self.name@)
        ||| self.kind == Some(EntryKind::Other)
    }

    /// The entry is a bad file: its kind or its size cannot be determined, or the store does not take
    /// it.
    pub open spec fn is_bad(self) -> bool {
        ||| self.kind is None
        ||| self.kind == Some(EntryKind::File) && !self.is_taken()
    }
}

/// The entries of each directory; a directory that is not in the map cannot be listed.
pub type Disk<P> = Map<P, Seq<DiskEntry<P>>>;

/// What there is to find in a part of the disk.
pub struct Tally {
    /// The files that can be stored.
    pub files: nat,
    /// The sum of their sizes.
    pub bytes: nat,
    /// The directories, entries and files that cannot be listed, determined or stored.
    pub unreadable: nat,
    /// The directories to list.
    pub directories: nat,
}

impl Tally {
    pub open spec fn nothing() -> Tally {
        Tally { files: 0, bytes: 0, unreadable: 0, directories: 0 }
    }

    pub open spec fn plus(self, other: Tally) -> Tally {
        Tally {
            files: self.files + other.files,
            bytes: self.bytes + other.bytes,
            unreadable: self.unreadable + other.unreadable,
            directories: self.directories + other.directories,
        }
    }
}

/// What there is to find in an entry that is not entered.
pub open spec fn in_leaf<P>(entry: DiskEntry<P>) -> Tally {
    match (entry.kind, entry.size) {
        (None, _) => Tally { unreadable: 1, ..Tally::nothing() },
        (Some(EntryKind::File), None) => Tally { unreadable: 1, ..Tally::nothing() },
        (Some(EntryKind::File), Some(size)) => if entry.storable {
            Tally { files: 1, bytes: size as nat, ..Tally::nothing() }
        } else {
            Tally { unreadable: 1, ..Tally::nothing() }
        },
        _ => Tally::nothing(),
    }
}

/// What there is to find under a directory. `height` is larger for a directory than for those in it.
pub open spec fn in_directory<P>(disk: Disk<P>, height: spec_fn(P) -> nat, directory: P) -> Tally
    decreases height(directory), disk[directory].len() + 1,
{
    if disk.contains_key(directory) {
        Tally { directories: 1, ..Tally::nothing() }.plus(
            in_entries(disk, height, height(directory), disk[directory]),
        )
    } else {
        Tally { unreadable: 1, directories: 1, ..Tally::nothing() }
    }
}

/// What there is to find in and under entries whose directories are lower than `bound`.
pub open spec fn in_entries<P>(
    disk: Disk<P>,
    height: spec_fn(P) -> nat,
    bound: nat,
    entries: Seq<DiskEntry<P>>,
) -> Tally
    decreases bound, entries.len(),
{
    if entries.len() == 0 {
        Tally::nothing()
    } else {
        let entry = entries.last();
        in_entries(disk, height, bound, entries.drop_last()).plus(
            if entry.is_entered() && height(entry.path) < bound {
                in_directory(disk, height, entry.path)
            } else {
                in_leaf(entry)
            },
        )
    }
}

/// What there is to find under directories.
pub open spec fn in_directories<P>(
    disk: Disk<P>,
    height: spec_fn(P) -> nat,
    directories: Seq<P>,
) -> Tally
    decreases directories.len(),
{
    if directories.len() == 0 {
        Tally::nothing()
    } else {
        in_directories(disk, height, directories.drop_last()).plus(
            in_directory(disk, height, directories.last()),
        )
    }
}

/// The disk is a forest: a directory is higher than those in it.
pub open spec fn is_forest<P>(disk: Disk<P>, height: spec_fn(P) -> nat) -> bool {
    forall|directory: P, i: int|
        disk.contains_key(directory) && 0 <= i < disk[directory].len()
            && #[trigger] disk[directory][i].is_entered() ==> height(disk[directory][i].path)
            < height(directory)
}

/// A run under way: the walk, and everything that the caller was told to do so far.
pub struct Run<P> {
    pub walk: SeedingView<P>,
    pub actions: Seq<SeedActionView<P>>,
}

impl<P> Run<P> {
    /// A run that has yet to list `source`.
    pub open spec fn from(source: P) -> Run<P> {
        Run { walk: seed::walk_from(source), actions: seq![] }
    }

    /// The run after the caller has handed over an event.
    pub open spec fn after(self, event: SeedEvent<P>) -> Run<P> {
        Run {
            walk: self.walk.after(event),
            actions: self.actions.push(self.walk.answer(event)),
        }
    }

    /// No directory is left to list.
    pub open spec fn is_over(self) -> bool {
        self.walk.pending.len() == 0
    }

    /// The directories that were listed, in order.
    pub open spec fn listed(self) -> Seq<P> {
        seed::listed(self.actions)
    }

    /// The files that the caller was to read into the store, in order.
    pub open spec fn requested(self) -> Seq<P> {
        seed::requested(self.actions)
    }

    /// The paths and sizes of the files that the caller was to report, in order.
    pub open spec fn reported(self) -> Seq<(Seq<char>, nat)> {
        seed::reported(self.actions)
    }

    /// The counts in the reports of an end that the caller was to give, in order.
    pub open spec fn ended(self) -> Seq<(nat, nat, nat)> {
        seed::ended(self.actions)
    }
}

/// The run after the caller has handed over an entry and done what it was told to do with it.
pub open spec fn visited<P>(run: Run<P>, entry: DiskEntry<P>) -> Run<P> {
    let after_entry = run.after(entry.seen());
    match run.walk.answer(entry.seen()) {
        SeedActionView::Measure(path) => {
            let measured = SeedEvent::Measured { path, size: entry.size };
            let after_measure = after_entry.after(measured);
            match after_entry.walk.answer(measured) {
                SeedActionView::Store { size, .. } => after_measure.after(
                    SeedEvent::Stored { shown: entry.shown, size, stored: entry.storable },
                ),
                _ => after_measure,
            }
        },
        _ => after_entry,
    }
}

/// The run after the caller has handed over entries, one after the other.
pub open spec fn all_visited<P>(run: Run<P>, entries: Seq<DiskEntry<P>>) -> Run<P>
    decreases entries.len(),
{
    if entries.len() == 0 {
        run
    } else {
        visited(all_visited(run, entries.drop_last()), entries.last())
    }
}

/// The run after the caller has listed the directory that it was told to list next, and handed over
/// its entries; the run as it is, once there is none.
pub open spec fn listed_next<P>(disk: Disk<P>, run: Run<P>) -> Run<P> {
    match run.walk.answer(SeedEvent::Advance) {
        SeedActionView::List(directory) => {
            let advanced = run.after(SeedEvent::Advance);
            if disk.contains_key(directory) {
                all_visited(advanced, disk[directory])
            } else {
                advanced.after(SeedEvent::Unlisted)
            }
        },
        _ => run,
    }
}

/// The run from `source` after the caller has listed so many directories, or all there are.
pub open spec fn run_from<P>(disk: Disk<P>, source: P, times: nat) -> Run<P>
    decreases times,
{
    if times == 0 {
        Run::from(source)
    } else {
        listed_next(disk, run_from(disk, source, (times - 1) as nat))
    }
}

/// What a walk has counted, and what there is to find under the directories that it still has to
/// list.
pub open spec fn counted_and_due<P>(
    disk: Disk<P>,
    height: spec_fn(P) -> nat,
    walk: SeedingView<P>,
) -> Tally {
    Tally { files: walk.files, bytes: walk.bytes, unreadable: walk.skipped, directories: 0 }.plus(
        in_directories(disk, height, walk.pending),
    )
}

/// Handing over an entry adds what there is to find in and under it.
proof fn lemma_visited<P>(
    disk: Disk<P>,
    height: spec_fn(P) -> nat,
    bound: nat,
    run: Run<P>,
    entry: DiskEntry<P>,
)
    requires
        entry.is_entered() ==> height(entry.path) < bound,
    ensures
        counted_and_due(disk, height, visited(run, entry).walk) == counted_and_due(
            disk,
            height,
            run.walk,
        ).plus(
            if entry.is_entered() && height(entry.path) < bound {
                in_directory(disk, height, entry.path)
            } else {
                in_leaf(entry)
            },
        ),
{
    if entry.is_entered() {
        assert(run.walk.pending.push(entry.path).drop_last() =~= run.walk.pending);
    }
}

/// Handing over entries adds what there is to find in and under them.
proof fn lemma_all_visited<P>(
    disk: Disk<P>,
    height: spec_fn(P) -> nat,
    bound: nat,
    run: Run<P>,
    entries: Seq<DiskEntry<P>>,
)
    requires
        forall|i: int|
            0 <= i < entries.len() && #[trigger] entries[i].is_entered() ==> height(entries[i].path)
                < bound,
    ensures
        counted_and_due(disk, height, all_visited(run, entries).walk) == counted_and_due(
            disk,
            height,
            run.walk,
        ).plus(in_entries(disk, height, bound, entries)),
    decreases entries.len(),
{
    if entries.len() > 0 {
        let earlier = entries.drop_last();
        assert forall|i: int| 0 <= i < earlier.len() && #[trigger] earlier[i].is_entered() implies height(
        earlier[i].path) < bound by {
            assert(entries[i].is_entered());
        }
        lemma_all_visited(disk, height, bound, run, earlier);
        assert(entries[entries.len() - 1].is_entered() ==> height(entries.last().path) < bound);
        lemma_visited(disk, height, bound, all_visited(run, earlier), entries.last());
    }
}

/// Listing a directory moves what there is to find in it from what is due to what is counted:
/// nothing is lost and nothing is counted twice, and one directory less is due.
pub proof fn law_listing_loses_nothing<P>(
    disk: Disk<P>,
    height: spec_fn(P) -> nat,
    run: Run<P>,
)
    requires
        is_forest(disk, height),
        !run.is_over(),
    ensures
        counted_and_due(disk, height, listed_next(disk, run).walk).plus(
            Tally { directories: 1, ..Tally::nothing() },
        ) == counted_and_due(disk, height, run.walk),
{
    let directory = run.walk.pending.last();
    let advanced = run.after(SeedEvent::Advance);
    if disk.contains_key(directory) {
        let entries = disk[directory];
        assert forall|i: int| 0 <= i < entries.len() && #[trigger] entries[i].is_entered() implies height(
        entries[i].path) < height(directory) by {
            assert(disk[directory][i].is_entered());
        }
        lemma_all_visited(disk, height, height(directory), advanced, entries);
    }
}

/// Every directory counts as one to list, so directories are left if and only if some are due.
proof fn lemma_directories_are_due<P>(
    disk: Disk<P>,
    height: spec_fn(P) -> nat,
    directories: Seq<P>,
)
    ensures
        in_directories(disk, height, directories).directories >= directories.len(),
    decreases directories.len(),
{
    if directories.len() > 0 {
        lemma_directories_are_due(disk, height, directories.drop_last());
    }
}

/// As long as fewer directories have been listed than there are, the rest are due, and nothing has
/// been lost.
proof fn lemma_run_from<P>(disk: Disk<P>, height: spec_fn(P) -> nat, source: P, times: nat)
    requires
        is_forest(disk, height),
        times <= in_directory(disk, height, source).directories,
    ensures
        counted_and_due(disk, height, run_from(disk, source, times).walk).plus(
            Tally { directories: times, ..Tally::nothing() },
        ) == in_directory(disk, height, source),
    decreases times,
{
    if times == 0 {
        let pending = Run::from(source).walk.pending;
        assert(pending.last() == source);
        assert(in_directories(disk, height, pending.drop_last()) == Tally::nothing());
    } else {
        let before = run_from(disk, source, (times - 1) as nat);
        lemma_run_from(disk, height, source, (times - 1) as nat);
        assert(before.is_over() ==> in_directories(
            disk,
            height,
            before.walk.pending,
        ).directories == 0);
        law_listing_loses_nothing(disk, height, before);
    }
}

/// A run over a directory tree comes to its end, after it has listed as many directories as the tree
/// has outside of those that are skipped. Its counts are then those of the whole tree: the files that
/// the store takes, empty ones too, their bytes, and everything that could not be read.
pub proof fn law_run_reads_the_whole_tree<P>(disk: Disk<P>, height: spec_fn(P) -> nat, source: P)
    requires
        is_forest(disk, height),
    ensures
        ({
            let found = in_directory(disk, height, source);
            run_from(disk, source, found.directories).walk == SeedingView {
                pending: Seq::<P>::empty(),
                files: found.files,
                bytes: found.bytes,
                skipped: found.unreadable,
            }
        }),
{
    let found = in_directory(disk, height, source);
    let end = run_from(disk, source, found.directories).walk;
    lemma_run_from(disk, height, source, found.directories);
    lemma_directories_are_due(disk, height, end.pending);
    assert(end.pending =~= Seq::<P>::empty());
}

/// The entries of directories that can be listed, in order.
pub open spec fn entries_of<P>(disk: Disk<P>, directories: Seq<P>) -> Seq<DiskEntry<P>>
    decreases directories.len(),
{
    if directories.len() == 0 {
        seq![]
    } else if disk.contains_key(directories.last()) {
        entries_of(disk, directories.drop_last()) + disk[directories.last()]
    } else {
        entries_of(disk, directories.drop_last())
    }
}

/// The paths of the directories among entries that the walk goes into.
pub open spec fn entered_of<P>(entries: Seq<DiskEntry<P>>) -> Seq<P> {
    entries.filter(|entry: DiskEntry<P>| entry.is_entered()).map_values(
        |entry: DiskEntry<P>| entry.path,
    )
}

/// The paths of the measurable files among entries.
pub open spec fn measurable_of<P>(entries: Seq<DiskEntry<P>>) -> Seq<P> {
    entries.filter(|entry: DiskEntry<P>| entry.is_measurable()).map_values(
        |entry: DiskEntry<P>| entry.path,
    )
}

/// The shown paths and the sizes of the files among entries that the store takes.
pub open spec fn taken_of<P>(entries: Seq<DiskEntry<P>>) -> Seq<(Seq<char>, nat)> {
    entries.filter(|entry: DiskEntry<P>| entry.is_taken()).map_values(
        |entry: DiskEntry<P>| (entry.shown@, entry.size->0 as nat),
    )
}

/// What one more entry adds.
proof fn lemma_one_more_entry<P>(entries: Seq<DiskEntry<P>>, entry: DiskEntry<P>)
    ensures
        entered_of(entries.push(entry)) == if entry.is_entered() {
            entered_of(entries).push(entry.path)
        } else {
            entered_of(entries)
        },
        measurable_of(entries.push(entry)) == if entry.is_measurable() {
            measurable_of(entries).push(entry.path)
        } else {
            measurable_of(entries)
        },
        taken_of(entries.push(entry)) == if entry.is_taken() {
            taken_of(entries).push((entry.shown@, entry.size->0 as nat))
        } else {
            taken_of(entries)
        },
{
    reveal(Seq::filter);
    assert(entries.push(entry).drop_last() =~= entries);
    assert(entered_of(entries.push(entry)) =~= if entry.is_entered() {
        entered_of(entries).push(entry.path)
    } else {
        entered_of(entries)
    });
    assert(measurable_of(entries.push(entry)) =~= if entry.is_measurable() {
        measurable_of(entries).push(entry.path)
    } else {
        measurable_of(entries)
    });
    assert(taken_of(entries.push(entry)) =~= if entry.is_taken() {
        taken_of(entries).push((entry.shown@, entry.size->0 as nat))
    } else {
        taken_of(entries)
    });
}

/// What one more event adds to what the caller was told to do.
proof fn lemma_one_more_event<P>(run: Run<P>, event: SeedEvent<P>)
    ensures
        run.after(event).listed() == match run.walk.answer(event) {
            SeedActionView::List(directory) => run.listed().push(directory),
            _ => run.listed(),
        },
        run.after(event).requested() == match run.walk.answer(event) {
            SeedActionView::Store { path, .. } => run.requested().push(path),
            _ => run.requested(),
        },
        run.after(event).reported() == match run.walk.answer(event) {
            SeedActionView::ReportFile { path, size } => run.reported().push((path, size)),
            _ => run.reported(),
        },
        run.after(event).ended() == match run.walk.answer(event) {
            SeedActionView::ReportEnd { files, bytes, skipped } => {
                run.ended().push((files, bytes, skipped))
            },
            _ => run.ended(),
        },
{
    assert(run.after(event).actions.drop_last() =~= run.actions);
}

/// What handing over an entry adds to what the caller was told to do, and to the directories that it
/// still has to list.
proof fn lemma_visited_trace<P>(run: Run<P>, entry: DiskEntry<P>)
    ensures
        visited(run, entry).ended() == run.ended(),
        visited(run, entry).listed() == run.listed(),
        visited(run, entry).requested() == if entry.is_measurable() {
            run.requested().push(entry.path)
        } else {
            run.requested()
        },
        visited(run, entry).reported() == if entry.is_taken() {
            run.reported().push((entry.shown@, entry.size->0 as nat))
        } else {
            run.reported()
        },
        visited(run, entry).walk.pending == if entry.is_entered() {
            run.walk.pending.push(entry.path)
        } else {
            run.walk.pending
        },
{
    lemma_one_more_event(run, entry.seen());
    if entry.kind == Some(EntryKind::File) {
        let after_entry = run.after(entry.seen());
        let measured = SeedEvent::Measured { path: entry.path, size: entry.size };
        lemma_one_more_event(after_entry, measured);
        if let Some(size) = entry.size {
            lemma_one_more_event(
                after_entry.after(measured),
                SeedEvent::Stored { shown: entry.shown, size, stored: entry.storable },
            );
        }
    }
}

/// What handing over entries adds to what the caller was told to do, and to the directories that it
/// still has to list.
proof fn lemma_all_visited_trace<P>(
    run: Run<P>,
    seen: Seq<DiskEntry<P>>,
    entries: Seq<DiskEntry<P>>,
)
    requires
        run.requested() == measurable_of(seen),
        run.reported() == taken_of(seen),
    ensures
        all_visited(run, entries).listed() == run.listed(),
        all_visited(run, entries).requested() == measurable_of(seen + entries),
        all_visited(run, entries).reported() == taken_of(seen + entries),
        all_visited(run, entries).walk.pending == run.walk.pending + entered_of(entries),
    decreases entries.len(),
{
    if entries.len() == 0 {
        reveal(Seq::filter);
        assert(seen + entries =~= seen);
        assert(entered_of(entries) =~= seq![]);
        assert(run.walk.pending + entered_of(entries) =~= run.walk.pending);
    } else {
        let earlier = entries.drop_last();
        let entry = entries.last();
        lemma_all_visited_trace(run, seen, earlier);
        lemma_visited_trace(all_visited(run, earlier), entry);
        lemma_one_more_entry(seen + earlier, entry);
        lemma_one_more_entry(earlier, entry);
        assert((seen + earlier).push(entry) =~= seen + entries);
        assert(earlier.push(entry) =~= entries);
        assert(all_visited(run, entries).walk.pending =~= run.walk.pending + entered_of(entries));
    }
}

/// What listing the next directory adds to what the caller was told to do, and to the directories
/// that it still has to list.
proof fn lemma_listed_next_trace<P>(disk: Disk<P>, run: Run<P>)
    requires
        !run.is_over(),
        run.requested() == measurable_of(entries_of(disk, run.listed())),
        run.reported() == taken_of(entries_of(disk, run.listed())),
    ensures
        ({
            let directory = run.walk.pending.last();
            let next = listed_next(disk, run);
            &&& next.listed() == run.listed().push(directory)
            &&& next.requested() == measurable_of(entries_of(disk, next.listed()))
            &&& next.reported() == taken_of(entries_of(disk, next.listed()))
            &&& next.walk.pending == if disk.contains_key(directory) {
                run.walk.pending.drop_last() + entered_of(disk[directory])
            } else {
                run.walk.pending.drop_last()
            }
        }),
{
    let directory = run.walk.pending.last();
    let advanced = run.after(SeedEvent::Advance);
    let seen = entries_of(disk, run.listed());
    lemma_one_more_event(run, SeedEvent::Advance);
    assert(run.listed().push(directory).drop_last() =~= run.listed());
    if disk.contains_key(directory) {
        lemma_all_visited_trace(advanced, seen, disk[directory]);
    } else {
        lemma_one_more_event(advanced, SeedEvent::Unlisted);
    }
}

/// The files that a run reads into the store are, at any point, the measurable files of the
/// directories that it has listed, and no others, in the order in which they are found; and the files
/// that it reports are those among them that the store takes.
pub proof fn law_run_stores_the_files_it_finds<P>(disk: Disk<P>, source: P, times: nat)
    ensures
        ({
            let run = run_from(disk, source, times);
            let found = entries_of(disk, run.listed());
            &&& run.requested() == measurable_of(found)
            &&& run.reported() == taken_of(found)
        }),
    decreases times,
{
    if times == 0 {
        let run = run_from(disk, source, times);
        reveal(Seq::filter);
        assert(run.requested() =~= measurable_of(entries_of(disk, run.listed())));
        assert(run.reported() =~= taken_of(entries_of(disk, run.listed())));
    } else {
        let before = run_from(disk, source, (times - 1) as nat);
        law_run_stores_the_files_it_finds(disk, source, (times - 1) as nat);
        if !before.is_over() {
            lemma_listed_next_trace(disk, before);
        }
    }
}

/// No two entries of the disk have the same path.
pub open spec fn has_distinct_paths<P>(disk: Disk<P>) -> bool {
    forall|a: P, i: int, b: P, j: int|
        disk.contains_key(a) && 0 <= i < disk[a].len() && disk.contains_key(b) && 0 <= j
            < disk[b].len() && (#[trigger] disk[a][i]).path == (#[trigger] disk[b][j]).path ==> a
            == b && i == j
}

/// `path` is that of a directory in `directory` that the walk goes into.
pub open spec fn enters<P>(disk: Disk<P>, directory: P, path: P) -> bool {
    &&& disk.contains_key(directory)
    &&& exists|i: int|
        0 <= i < disk[directory].len() && (#[trigger] disk[directory][i]).is_entered()
            && disk[directory][i].path == path
}

/// `path` is that of a measurable file in `directory`.
pub open spec fn offers<P>(disk: Disk<P>, directory: P, path: P) -> bool {
    &&& disk.contains_key(directory)
    &&& exists|i: int|
        0 <= i < disk[directory].len() && (#[trigger] disk[directory][i]).is_measurable()
            && disk[directory][i].path == path
}

/// The paths among entries are those of the entries, each once where the entries' paths differ.
proof fn lemma_paths_among_entries<P>(entries: Seq<DiskEntry<P>>)
    ensures
        forall|path: P| #[trigger]
            entered_of(entries).contains(path) <==> exists|i: int|
                0 <= i < entries.len() && (#[trigger] entries[i]).is_entered() && entries[i].path
                    == path,
        forall|path: P| #[trigger]
            measurable_of(entries).contains(path) <==> exists|i: int|
                0 <= i < entries.len() && (#[trigger] entries[i]).is_measurable()
                    && entries[i].path == path,
        (forall|i: int, j: int|
            0 <= i < j < entries.len() ==> (#[trigger] entries[i]).path != (
            #[trigger] entries[j]).path) ==> entered_of(entries).no_duplicates() && measurable_of(
            entries,
        ).no_duplicates(),
    decreases entries.len(),
{
    if entries.len() == 0 {
        reveal(Seq::filter);
        assert(entered_of(entries) =~= seq![]);
        assert(measurable_of(entries) =~= seq![]);
    } else {
        let earlier = entries.drop_last();
        let entry = entries.last();
        let last = entries.len() - 1;
        lemma_paths_among_entries(earlier);
        lemma_one_more_entry(earlier, entry);
        assert(earlier.push(entry) =~= entries);
        assert forall|path: P| #[trigger]
            entered_of(entries).contains(path) <==> exists|i: int|
                0 <= i < entries.len() && (#[trigger] entries[i]).is_entered() && entries[i].path
                    == path by {
            lemma_push_contains(entered_of(earlier), entry.path, path);
            if entered_of(earlier).contains(path) {
                let i = choose|i: int|
                    0 <= i < earlier.len() && (#[trigger] earlier[i]).is_entered()
                        && earlier[i].path == path;
                assert(entries[i].is_entered());
            }
            if exists|i: int|
                0 <= i < entries.len() && (#[trigger] entries[i]).is_entered() && entries[i].path
                    == path {
                let i = choose|i: int|
                    0 <= i < entries.len() && (#[trigger] entries[i]).is_entered()
                        && entries[i].path == path;
                if i < last {
                    assert(earlier[i].is_entered());
                }
            }
            assert(entries[last] == entry);
        }
        assert forall|path: P| #[trigger]
            measurable_of(entries).contains(path) <==> exists|i: int|
                0 <= i < entries.len() && (#[trigger] entries[i]).is_measurable()
                    && entries[i].path == path by {
            lemma_push_contains(measurable_of(earlier), entry.path, path);
            if measurable_of(earlier).contains(path) {
                let i = choose|i: int|
                    0 <= i < earlier.len() && (#[trigger] earlier[i]).is_measurable()
                        && earlier[i].path == path;
                assert(entries[i].is_measurable());
            }
            if exists|i: int|
                0 <= i < entries.len() && (#[trigger] entries[i]).is_measurable()
                    && entries[i].path == path {
                let i = choose|i: int|
                    0 <= i < entries.len() && (#[trigger] entries[i]).is_measurable()
                        && entries[i].path == path;
                if i < last {
                    assert(earlier[i].is_measurable());
                }
            }
            assert(entries[last] == entry);
        }
        if forall|i: int, j: int|
            0 <= i < j < entries.len() ==> (#[trigger] entries[i]).path != (
            #[trigger] entries[j]).path {
            assert forall|i: int, j: int| 0 <= i < j < earlier.len() implies (
            #[trigger] earlier[i]).path != (#[trigger] earlier[j]).path by {
                assert(entries[i].path != entries[j].path);
            }
            assert(!entered_of(earlier).contains(entry.path)) by {
                if entered_of(earlier).contains(entry.path) {
                    let i = choose|i: int|
                        0 <= i < earlier.len() && (#[trigger] earlier[i]).is_entered()
                            && earlier[i].path == entry.path;
                    assert(entries[i].path != entries[last].path);
                }
            }
            assert(!measurable_of(earlier).contains(entry.path)) by {
                if measurable_of(earlier).contains(entry.path) {
                    let i = choose|i: int|
                        0 <= i < earlier.len() && (#[trigger] earlier[i]).is_measurable()
                            && earlier[i].path == entry.path;
                    assert(entries[i].path != entries[last].path);
                }
            }
        }
    }
}

/// A sequence with one more item holds what it held, and that item.
proof fn lemma_push_contains<P>(items: Seq<P>, item: P, wanted: P)
    ensures
        items.push(item).contains(wanted) <==> items.contains(wanted) || item == wanted,
{
    if items.contains(wanted) {
        let i = choose|i: int| 0 <= i < items.len() && items[i] == wanted;
        assert(items.push(item)[i] == wanted);
    }
    assert(items.push(item)[items.len() as int] == item);
}

/// What a run over a directory tree keeps to: the directories that it has listed or still has to list
/// are all different; they are `source` and those that a listed directory holds; and none is higher
/// than `source`.
spec fn is_walk_over<P>(
    disk: Disk<P>,
    height: spec_fn(P) -> nat,
    source: P,
    run: Run<P>,
) -> bool {
    let known = run.listed() + run.walk.pending;
    &&& known.no_duplicates()
    &&& known.contains(source)
    &&& forall|path: P| #[trigger] known.contains(path) ==> height(path) <= height(source)
    &&& forall|path: P| #[trigger]
        known.contains(path) && path != source ==> exists|directory: P| #[trigger]
            run.listed().contains(directory) && enters(disk, directory, path)
    &&& forall|directory: P, path: P| #[trigger]
        run.listed().contains(directory) && #[trigger] enters(disk, directory, path)
            ==> known.contains(path)
}

/// Listing the next directory of a tree keeps to what a run keeps to.
proof fn lemma_listed_next_is_walk<P>(
    disk: Disk<P>,
    height: spec_fn(P) -> nat,
    source: P,
    run: Run<P>,
)
    requires
        is_forest(disk, height),
        has_distinct_paths(disk),
        !run.is_over(),
        run.requested() == measurable_of(entries_of(disk, run.listed())),
        run.reported() == taken_of(entries_of(disk, run.listed())),
        is_walk_over(disk, height, source, run),
    ensures
        is_walk_over(disk, height, source, listed_next(disk, run)),
{
    let next = listed_next(disk, run);
    let directory = run.walk.pending.last();
    let known = run.listed() + run.walk.pending;
    let rest = run.walk.pending.drop_last();
    let moved = run.listed().push(directory) + rest;
    let found = if disk.contains_key(directory) {
        entered_of(disk[directory])
    } else {
        Seq::<P>::empty()
    };
    lemma_listed_next_trace(disk, run);
    let new_known = next.listed() + next.walk.pending;
    assert(new_known =~= moved + found);
    assert(known[known.len() - 1] == directory);
    assert(known.contains(directory));
    assert(!run.listed().contains(directory)) by {
        if run.listed().contains(directory) {
            let i = choose|i: int| 0 <= i < run.listed().len() && run.listed()[i] == directory;
            assert(known[i] == known[known.len() - 1]);
        }
    }
    let split = run.listed().len() as int;
    assert(moved.no_duplicates()) by {
        assert forall|i: int, j: int|
            0 <= i < moved.len() && 0 <= j < moved.len() && i != j implies moved[i] != moved[j] by {
            let a = if i < split {
                i
            } else if i == split {
                known.len() - 1
            } else {
                i - 1
            };
            let b = if j < split {
                j
            } else if j == split {
                known.len() - 1
            } else {
                j - 1
            };
            assert(moved[i] == known[a]);
            assert(moved[j] == known[b]);
        }
    }
    assert forall|path: P| moved.contains(path) <==> known.contains(path) by {
        if moved.contains(path) {
            let i = choose|i: int| 0 <= i < moved.len() && moved[i] == path;
            assert(known[if i < split {
                i
            } else if i == split {
                known.len() - 1
            } else {
                i - 1
            }] == path);
        }
        if known.contains(path) {
            let i = choose|i: int| 0 <= i < known.len() && known[i] == path;
            assert(moved[if i < split {
                i
            } else if i == known.len() - 1 {
                split
            } else {
                i + 1
            }] == path);
        }
    }
    assert forall|path: P| #[trigger] found.contains(path) <==> enters(disk, directory, path) by {
        if disk.contains_key(directory) {
            lemma_paths_among_entries(disk[directory]);
        }
    }
    assert(found.no_duplicates()) by {
        if disk.contains_key(directory) {
            lemma_paths_among_entries(disk[directory]);
        }
    }
    assert forall|path: P| #[trigger] found.contains(path) implies !known.contains(path)
        && height(path) < height(directory) by {
        let i = choose|i: int|
            0 <= i < disk[directory].len() && (#[trigger] disk[directory][i]).is_entered()
                && disk[directory][i].path == path;
        if known.contains(path) {
            let other = choose|other: P| #[trigger]
                run.listed().contains(other) && enters(disk, other, path);
            let j = choose|j: int|
                0 <= j < disk[other].len() && (#[trigger] disk[other][j]).is_entered()
                    && disk[other][j].path == path;
            assert(disk[other][j].path == disk[directory][i].path);
        }
    }
    assert forall|i: int, j: int| 0 <= i < moved.len() && 0 <= j < found.len() implies moved[i]
        != found[j] by {
        assert(found.contains(found[j]));
        assert(moved.contains(moved[i]));
    }
    vstd::seq_lib::lemma_no_dup_in_concat(moved, found);
    assert forall|path: P| new_known.contains(path) <==> known.contains(path) || found.contains(
        path,
    ) by {
        lemma_concat_contains(moved, found, path);
    }
    assert forall|path: P| next.listed().contains(path) <==> run.listed().contains(path) || path
        == directory by {
        lemma_push_contains(run.listed(), directory, path);
    }
    assert forall|path: P| #[trigger] new_known.contains(path) && path != source implies exists|d: P|
     #[trigger] next.listed().contains(d) && enters(disk, d, path) by {
        if known.contains(path) {
            let d = choose|d: P| #[trigger] run.listed().contains(d) && enters(disk, d, path);
            assert(next.listed().contains(d));
        } else {
            assert(next.listed().contains(directory));
        }
    }
}

/// A sequence followed by another holds what the two hold.
proof fn lemma_concat_contains<P>(a: Seq<P>, b: Seq<P>, wanted: P)
    ensures
        (a + b).contains(wanted) <==> a.contains(wanted) || b.contains(wanted),
{
    if a.contains(wanted) {
        let i = choose|i: int| 0 <= i < a.len() && a[i] == wanted;
        assert((a + b)[i] == wanted);
    }
    if b.contains(wanted) {
        let i = choose|i: int| 0 <= i < b.len() && b[i] == wanted;
        assert((a + b)[a.len() + i] == wanted);
    }
}

/// A run over a directory tree keeps to what a run keeps to.
proof fn lemma_run_is_walk<P>(disk: Disk<P>, height: spec_fn(P) -> nat, source: P, times: nat)
    requires
        is_forest(disk, height),
        has_distinct_paths(disk),
    ensures
        is_walk_over(disk, height, source, run_from(disk, source, times)),
    decreases times,
{
    if times == 0 {
        let run = Run::from(source);
        let known = run.listed() + run.walk.pending;
        assert(known =~= seq![source]);
        assert(known[0] == source);
    } else {
        let before = run_from(disk, source, (times - 1) as nat);
        lemma_run_is_walk(disk, height, source, (times - 1) as nat);
        if !before.is_over() {
            law_run_stores_the_files_it_finds(disk, source, (times - 1) as nat);
            lemma_listed_next_is_walk(disk, height, source, before);
        }
    }
}

/// The entry is that of one of the directories.
pub open spec fn is_entry_of<P>(disk: Disk<P>, directories: Seq<P>, entry: DiskEntry<P>) -> bool {
    exists|d: P, i: int|
        directories.contains(d) && disk.contains_key(d) && 0 <= i < disk[d].len()
            && #[trigger] disk[d][i] == entry
}

/// The entries of different directories have different paths, and are those of the directories.
proof fn lemma_entries_of<P>(disk: Disk<P>, directories: Seq<P>)
    requires
        has_distinct_paths(disk),
        directories.no_duplicates(),
    ensures
        forall|i: int, j: int|
            0 <= i < j < entries_of(disk, directories).len() ==> (#[trigger] entries_of(
                disk,
                directories,
            )[i]).path != (#[trigger] entries_of(disk, directories)[j]).path,
        forall|k: int|
            0 <= k < entries_of(disk, directories).len() ==> is_entry_of(
                disk,
                directories,
                #[trigger] entries_of(disk, directories)[k],
            ),
        forall|d: P, i: int|
            directories.contains(d) && disk.contains_key(d) && 0 <= i < disk[d].len()
                ==> entries_of(disk, directories).contains(#[trigger] disk[d][i]),
    decreases directories.len(),
{
    if directories.len() > 0 {
        let earlier = directories.drop_last();
        let last = directories.last();
        let before = entries_of(disk, earlier);
        let entries = entries_of(disk, directories);
        lemma_entries_of(disk, earlier);
        assert(earlier.push(last) =~= directories);
        assert forall|d: P| directories.contains(d) <==> earlier.contains(d) || d == last by {
            lemma_push_contains(earlier, last, d);
        }
        assert(!earlier.contains(last));
        let added = if disk.contains_key(last) {
            disk[last]
        } else {
            Seq::empty()
        };
        assert(entries =~= before + added);
        assert forall|k: int| 0 <= k < entries.len() implies is_entry_of(
            disk,
            directories,
            #[trigger] entries[k],
        ) by {
            if k < before.len() {
                assert(is_entry_of(disk, earlier, before[k]));
                let (d, i) = choose|d: P, i: int|
                    earlier.contains(d) && disk.contains_key(d) && 0 <= i < disk[d].len()
                        && #[trigger] disk[d][i] == before[k];
                assert(disk[d][i] == entries[k]);
            } else {
                assert(disk[last][k - before.len()] == entries[k]);
            }
        }
        assert forall|i: int, j: int| 0 <= i < j < entries.len() implies (#[trigger] entries[i]).path
            != (#[trigger] entries[j]).path by {
            if j < before.len() {
                assert(before[i].path != before[j].path);
            } else if i < before.len() {
                assert(is_entry_of(disk, earlier, before[i]));
                let (d, k) = choose|d: P, k: int|
                    earlier.contains(d) && disk.contains_key(d) && 0 <= k < disk[d].len()
                        && #[trigger] disk[d][k] == before[i];
                assert(disk[d][k].path != disk[last][j - before.len()].path);
            } else {
                assert(disk[last][i - before.len()].path != disk[last][j - before.len()].path);
            }
        }
        assert forall|d: P, i: int|
            directories.contains(d) && disk.contains_key(d) && 0 <= i
                < disk[d].len() implies entries.contains(#[trigger] disk[d][i]) by {
            if d == last {
                assert(entries[before.len() + i] == disk[d][i]);
            } else {
                assert(before.contains(disk[d][i]));
                lemma_concat_contains(before, added, disk[d][i]);
            }
        }
    }
}

/// A run over a directory tree whose entries have different paths lists no directory twice, and reads
/// no file into the store twice. The files that it reads are exactly the measurable files of the
/// directories that it has listed; and it reports, once each, exactly those that the store takes.
pub proof fn law_each_file_is_read_once<P>(
    disk: Disk<P>,
    height: spec_fn(P) -> nat,
    source: P,
    times: nat,
)
    requires
        is_forest(disk, height),
        has_distinct_paths(disk),
    ensures
        ({
            let run = run_from(disk, source, times);
            &&& run.listed().no_duplicates()
            &&& run.requested().no_duplicates()
            &&& forall|path: P| #[trigger]
                run.requested().contains(path) <==> exists|directory: P| #[trigger]
                    run.listed().contains(directory) && offers(disk, directory, path)
            &&& run.reported() == taken_of(entries_of(disk, run.listed()))
            &&& entries_of(disk, run.listed()).no_duplicates()
            &&& forall|entry: DiskEntry<P>| #[trigger]
                entries_of(disk, run.listed()).contains(entry) <==> is_entry_of(
                    disk,
                    run.listed(),
                    entry,
                )
        }),
{
    let run = run_from(disk, source, times);
    let entries = entries_of(disk, run.listed());
    lemma_run_is_walk(disk, height, source, times);
    law_run_stores_the_files_it_finds(disk, source, times);
    assert(run.listed().no_duplicates()) by {
        let known = run.listed() + run.walk.pending;
        assert forall|i: int, j: int|
            0 <= i < run.listed().len() && 0 <= j < run.listed().len() && i
                != j implies run.listed()[i] != run.listed()[j] by {
            assert(known[i] != known[j]);
        }
    }
    lemma_entries_of(disk, run.listed());
    lemma_paths_among_entries(entries);
    assert forall|path: P| #[trigger]
        run.requested().contains(path) <==> exists|directory: P| #[trigger]
            run.listed().contains(directory) && offers(disk, directory, path) by {
        if run.requested().contains(path) {
            let k = choose|k: int|
                0 <= k < entries.len() && (#[trigger] entries[k]).is_measurable()
                    && entries[k].path == path;
            assert(is_entry_of(disk, run.listed(), entries[k]));
            let (d, i) = choose|d: P, i: int|
                run.listed().contains(d) && disk.contains_key(d) && 0 <= i < disk[d].len()
                    && #[trigger] disk[d][i] == entries[k];
            assert(disk[d][i].is_measurable());
            assert(offers(disk, d, path));
        }
        if exists|directory: P| #[trigger]
            run.listed().contains(directory) && offers(disk, directory, path) {
            let d = choose|d: P| #[trigger] run.listed().contains(d) && offers(disk, d, path);
            let i = choose|i: int|
                0 <= i < disk[d].len() && (#[trigger] disk[d][i]).is_measurable()
                    && disk[d][i].path == path;
            assert(entries.contains(disk[d][i]));
            let k = choose|k: int| 0 <= k < entries.len() && entries[k] == disk[d][i];
            assert(entries[k].is_measurable());
        }
    }
}

/// By the time a run over a directory tree is over, it has listed exactly the directories of the
/// tree: `source`, and every directory in a listed one that the walk goes into.
pub proof fn law_finished_run_has_walked_the_tree<P>(
    disk: Disk<P>,
    height: spec_fn(P) -> nat,
    source: P,
    times: nat,
)
    requires
        is_forest(disk, height),
        has_distinct_paths(disk),
        run_from(disk, source, times).is_over(),
    ensures
        ({
            let listed = run_from(disk, source, times).listed();
            &&& listed.contains(source)
            &&& forall|directory: P, path: P| #[trigger]
                listed.contains(directory) && #[trigger] enters(disk, directory, path)
                    ==> listed.contains(path)
            &&& forall|path: P| #[trigger]
                listed.contains(path) && path != source ==> exists|directory: P| #[trigger]
                    listed.contains(directory) && enters(disk, directory, path)
        }),
{
    let run = run_from(disk, source, times);
    lemma_run_is_walk(disk, height, source, times);
    assert(run.listed() + run.walk.pending =~= run.listed());
}

/// A content-addressed store after a run: it holds what it held, and the content of every file that
/// it took from the directories that were listed, at the address that the content hashes to.
pub open spec fn store_after<P, A>(
    disk: Disk<P>,
    run: Run<P>,
    address_of: spec_fn(P) -> A,
    store: Set<A>,
) -> Set<A> {
    let found = entries_of(disk, run.listed());
    store.union(
        found.filter(|entry: DiskEntry<P>| entry.is_taken()).map_values(
            |entry: DiskEntry<P>| address_of(entry.path),
        ).to_set(),
    )
}

/// A run that is over stays as it is.
proof fn lemma_run_stays_over<P>(disk: Disk<P>, source: P, times: nat, more: nat)
    requires
        run_from(disk, source, times).is_over(),
        times <= more,
    ensures
        run_from(disk, source, more) == run_from(disk, source, times),
    decreases more,
{
    if times < more {
        lemma_run_stays_over(disk, source, times, (more - 1) as nat);
    }
}

/// Two runs over the same disk do and count the same. A run removes nothing from a content-addressed
/// store, and the second of the two leaves the store as the first has left it: content that is
/// already held is counted again, and adds nothing.
pub proof fn law_second_run_changes_nothing<P, A>(
    disk: Disk<P>,
    source: P,
    first: nat,
    second: nat,
    address_of: spec_fn(P) -> A,
    store: Set<A>,
)
    requires
        run_from(disk, source, first).is_over(),
        run_from(disk, source, second).is_over(),
    ensures
        run_from(disk, source, second) == run_from(disk, source, first),
        ({
            let once = store_after(disk, run_from(disk, source, first), address_of, store);
            &&& store.subset_of(once)
            &&& store_after(disk, run_from(disk, source, second), address_of, once) == once
        }),
{
    if first <= second {
        lemma_run_stays_over(disk, source, first, second);
    } else {
        lemma_run_stays_over(disk, source, second, first);
    }
    let run = run_from(disk, source, first);
    let once = store_after(disk, run, address_of, store);
    assert(store_after(disk, run, address_of, once) =~= once);
}

/// Handing over entries gives no end to report.
proof fn lemma_all_visited_ends<P>(run: Run<P>, entries: Seq<DiskEntry<P>>)
    ensures
        all_visited(run, entries).ended() == run.ended(),
    decreases entries.len(),
{
    if entries.len() > 0 {
        lemma_all_visited_ends(run, entries.drop_last());
        lemma_visited_trace(all_visited(run, entries.drop_last()), entries.last());
    }
}

/// The end is reported once, when seeding finishes: a run under way has given no end to report, and
/// goes on with a directory; a run that is over is told to report its end when it goes on, with the
/// counts of the run, and that is then the one report of an end.
pub proof fn law_end_is_reported_once<P>(disk: Disk<P>, source: P, times: nat)
    ensures
        ({
            let run = run_from(disk, source, times);
            let next = run.after(SeedEvent::Advance);
            &&& run.ended() == Seq::<(nat, nat, nat)>::empty()
            &&& run.is_over() ==> {
                &&& next.walk == run.walk
                &&& next.ended() == seq![(run.walk.files, run.walk.bytes, run.walk.skipped)]
            }
            &&& !run.is_over() ==> {
                &&& next.ended() == Seq::<(nat, nat, nat)>::empty()
                &&& next.listed() == run.listed().push(run.walk.pending.last())
            }
        }),
    decreases times,
{
    let run = run_from(disk, source, times);
    if times > 0 {
        let before = run_from(disk, source, (times - 1) as nat);
        law_end_is_reported_once(disk, source, (times - 1) as nat);
        if !before.is_over() {
            let directory = before.walk.pending.last();
            let advanced = before.after(SeedEvent::Advance);
            if disk.contains_key(directory) {
                lemma_all_visited_ends(advanced, disk[directory]);
            } else {
                lemma_one_more_event(advanced, SeedEvent::Unlisted);
            }
        }
    }
    lemma_one_more_event(run, SeedEvent::Advance);
}

/// What stands in a directory that a run does not list, such as one that is skipped, changes nothing:
/// the run is the same over every disk that holds the same in the directories that it lists.
pub proof fn law_only_listed_directories_matter<P>(
    disk: Disk<P>,
    other: Disk<P>,
    source: P,
    times: nat,
)
    requires
        forall|directory: P| #[trigger]
            run_from(disk, source, times).listed().contains(directory) ==> {
                &&& disk.contains_key(directory) == other.contains_key(directory)
                &&& disk.contains_key(directory) ==> disk[directory] == other[directory]
            },
    ensures
        run_from(other, source, times) == run_from(disk, source, times),
    decreases times,
{
    if times > 0 {
        let before = run_from(disk, source, (times - 1) as nat);
        let listed = run_from(disk, source, times).listed();
        if !before.is_over() {
            law_run_stores_the_files_it_finds(disk, source, (times - 1) as nat);
            lemma_listed_next_trace(disk, before);
        }
        assert forall|directory: P| #[trigger] before.listed().contains(directory) implies {
            &&& disk.contains_key(directory) == other.contains_key(directory)
            &&& disk.contains_key(directory) ==> disk[directory] == other[directory]
        } by {
            lemma_push_contains(before.listed(), before.walk.pending.last(), directory);
            assert(listed.contains(directory));
        }
        law_only_listed_directories_matter(disk, other, source, (times - 1) as nat);
        if !before.is_over() {
            let next = before.walk.pending.last();
            lemma_push_contains(before.listed(), next, next);
            assert(listed.contains(next));
        }
    }
}

/// The disk with one more entry in a directory.
pub open spec fn with_entry<P>(disk: Disk<P>, directory: P, at: int, entry: DiskEntry<P>) -> Disk<P> {
    disk.insert(directory, disk[directory].insert(at, entry))
}

/// Two runs have done the same, but for files that were not taken and failures that were counted.
spec fn does_the_same<P>(a: Run<P>, b: Run<P>) -> bool {
    &&& a.walk.pending == b.walk.pending
    &&& a.walk.files == b.walk.files
    &&& a.walk.bytes == b.walk.bytes
    &&& a.listed() == b.listed()
    &&& a.reported() == b.reported()
}

/// What handing over an entry adds to the counts.
proof fn lemma_visited_counts<P>(run: Run<P>, entry: DiskEntry<P>)
    ensures
        visited(run, entry).walk.files == run.walk.files + in_leaf(entry).files,
        visited(run, entry).walk.bytes == run.walk.bytes + in_leaf(entry).bytes,
        visited(run, entry).walk.skipped == run.walk.skipped + in_leaf(entry).unreadable,
{
}

/// Two runs that have done the same do the same with the same entries, and one of them does so with
/// one more entry that is bad or passed over.
proof fn lemma_one_entry_more<P>(
    a: Run<P>,
    b: Run<P>,
    entries: Seq<DiskEntry<P>>,
    at: int,
    entry: DiskEntry<P>,
)
    requires
        does_the_same(a, b),
        entry.is_bad() || entry.is_passed_over(),
        0 <= at <= entries.len(),
    ensures
        ({
            let without = all_visited(a, entries);
            let same = all_visited(b, entries);
            let with = all_visited(b, entries.insert(at, entry));
            &&& does_the_same(without, same)
            &&& same.walk.skipped - without.walk.skipped == b.walk.skipped - a.walk.skipped
            &&& a.requested() == b.requested() ==> without.requested() == same.requested()
            &&& does_the_same(without, with)
            &&& with.walk.skipped == same.walk.skipped + if entry.is_bad() {
                1nat
            } else {
                0nat
            }
            &&& a.requested() == b.requested() && !entry.is_measurable() ==> without.requested()
                == with.requested()
        }),
    decreases entries.len(),
{
    let more = entries.insert(at, entry);
    if entries.len() > 0 {
        let earlier = entries.drop_last();
        let last = entries.last();
        lemma_one_entry_more(
            a,
            b,
            earlier,
            if at < entries.len() {
                at
            } else {
                at - 1
            },
            entry,
        );
        lemma_visited_trace(all_visited(a, earlier), last);
        lemma_visited_trace(all_visited(b, earlier), last);
        lemma_visited_counts(all_visited(a, earlier), last);
        lemma_visited_counts(all_visited(b, earlier), last);
        if at < entries.len() {
            assert(more.drop_last() =~= earlier.insert(at, entry));
            lemma_visited_trace(all_visited(b, earlier.insert(at, entry)), last);
            lemma_visited_counts(all_visited(b, earlier.insert(at, entry)), last);
        }
    }
    if at == entries.len() {
        assert(more.drop_last() =~= entries);
        lemma_visited_trace(all_visited(b, entries), entry);
        lemma_visited_counts(all_visited(b, entries), entry);
    }
}

/// One more entry that is bad or passed over leaves the work of a run, and adds a failure each time
/// that its directory is listed where it is bad.
proof fn lemma_run_with_entry<P>(
    disk: Disk<P>,
    source: P,
    times: nat,
    directory: P,
    at: int,
    entry: DiskEntry<P>,
)
    requires
        disk.contains_key(directory),
        0 <= at <= disk[directory].len(),
        entry.is_bad() || entry.is_passed_over(),
    ensures
        ({
            let a = run_from(disk, source, times);
            let b = run_from(with_entry(disk, directory, at, entry), source, times);
            &&& does_the_same(a, b)
            &&& b.walk.skipped == a.walk.skipped + if entry.is_bad() {
                a.listed().to_multiset().count(directory)
            } else {
                0nat
            }
            &&& !entry.is_measurable() ==> a.requested() == b.requested()
        }),
    decreases times,
{
    broadcast use vstd::seq_lib::group_to_multiset_ensures;

    let more = with_entry(disk, directory, at, entry);
    if times == 0 {
        assert(Run::<P>::from(source).listed() =~= seq![]);
    } else {
        let a = run_from(disk, source, (times - 1) as nat);
        let b = run_from(more, source, (times - 1) as nat);
        lemma_run_with_entry(disk, source, (times - 1) as nat, directory, at, entry);
        if !a.is_over() {
            let next = a.walk.pending.last();
            let advanced_a = a.after(SeedEvent::Advance);
            let advanced_b = b.after(SeedEvent::Advance);
            lemma_one_more_event(a, SeedEvent::Advance);
            lemma_one_more_event(b, SeedEvent::Advance);
            if disk.contains_key(next) {
                if next == directory {
                    lemma_one_entry_more(advanced_a, advanced_b, disk[next], at, entry);
                } else {
                    lemma_one_entry_more(advanced_a, advanced_b, disk[next], 0, entry);
                }
            } else {
                lemma_one_more_event(advanced_a, SeedEvent::Unlisted);
                lemma_one_more_event(advanced_b, SeedEvent::Unlisted);
            }
            law_run_stores_the_files_it_finds(disk, source, (times - 1) as nat);
            lemma_listed_next_trace(disk, a);
        }
    }
}

/// One bad file does not discard the work done for the good ones: with one more bad file in a
/// directory, a run over a directory tree lists the same directories, reports the same files and
/// counts the same files and bytes. It counts one more failure, once it has listed that directory.
pub proof fn law_bad_file_keeps_the_work<P>(
    disk: Disk<P>,
    height: spec_fn(P) -> nat,
    source: P,
    times: nat,
    directory: P,
    at: int,
    entry: DiskEntry<P>,
)
    requires
        is_forest(disk, height),
        has_distinct_paths(disk),
        disk.contains_key(directory),
        0 <= at <= disk[directory].len(),
        entry.is_bad(),
    ensures
        ({
            let without = run_from(disk, source, times);
            let with = run_from(with_entry(disk, directory, at, entry), source, times);
            &&& with.walk == SeedingView {
                skipped: without.walk.skipped + if without.listed().contains(directory) {
                    1nat
                } else {
                    0nat
                },
                ..without.walk
            }
            &&& with.listed() == without.listed()
            &&& with.reported() == without.reported()
        }),
{
    let listed = run_from(disk, source, times).listed();
    lemma_run_with_entry(disk, source, times, directory, at, entry);
    law_each_file_is_read_once(disk, height, source, times);
    listed.lemma_multiset_has_no_duplicates();
    broadcast use vstd::seq_lib::group_to_multiset_ensures;

    assert(listed.contains(directory) <==> listed.to_multiset().count(directory) > 0);
}

/// A directory that never holds repository content is skipped wholesale, and a link is followed by
/// neither the walk nor the read: with one more of them in a directory, a run lists, reads, reports
/// and counts the same.
pub proof fn law_passed_over_entries_change_nothing<P>(
    disk: Disk<P>,
    source: P,
    times: nat,
    directory: P,
    at: int,
    entry: DiskEntry<P>,
)
    requires
        disk.contains_key(directory),
        0 <= at <= disk[directory].len(),
        entry.is_passed_over(),
    ensures
        ({
            let without = run_from(disk, source, times);
            let with = run_from(with_entry(disk, directory, at, entry), source, times);
            &&& with.walk == without.walk
            &&& with.listed() == without.listed()
            &&& with.requested() == without.requested()
            &&& with.reported() == without.reported()
        }),
{
    lemma_run_with_entry(disk, source, times, directory, at, entry);
}

/// A file that the store takes is among those that it takes of the entries.
proof fn lemma_taken_is_among_entries<P>(entries: Seq<DiskEntry<P>>, i: int)
    requires
        0 <= i < entries.len(),
        entries[i].is_taken(),
    ensures
        taken_of(entries).contains((entries[i].shown@, entries[i].size->0 as nat)),
    decreases entries.len(),
{
    let earlier = entries.drop_last();
    let entry = entries.last();
    let wanted = (entries[i].shown@, entries[i].size->0 as nat);
    lemma_one_more_entry(earlier, entry);
    assert(earlier.push(entry) =~= entries);
    if i < earlier.len() {
        lemma_taken_is_among_entries(earlier, i);
    }
    lemma_push_contains(taken_of(earlier), (entry.shown@, entry.size->0 as nat), wanted);
}

/// By the time a run over a directory tree is over, everything in a directory that it has listed has
/// been dealt with by what it is: a directory has been listed unless its name is exactly one of
/// `.lore`, `.urc`, `.git`, `.svn` and `node_modules`; a file whose size can be determined has been
/// read into the store, and reported with its size where the store takes it.
pub proof fn law_finished_run_leaves_nothing_out<P>(
    disk: Disk<P>,
    height: spec_fn(P) -> nat,
    source: P,
    times: nat,
    directory: P,
    i: int,
)
    requires
        is_forest(disk, height),
        has_distinct_paths(disk),
        run_from(disk, source, times).is_over(),
        run_from(disk, source, times).listed().contains(directory),
        disk.contains_key(directory),
        0 <= i < disk[directory].len(),
    ensures
        ({
            let run = run_from(disk, source, times);
            let entry = disk[directory][i];
            &&& run.listed().contains(source)
            &&& entry.kind == Some(EntryKind::Directory) && entry.name@ != ".lore"@ && entry.name@
                != ".urc"@ && entry.name@ != ".git"@ && entry.name@ != ".svn"@ && entry.name@
                != "node_modules"@ ==> run.listed().contains(entry.path)
            &&& entry.kind == Some(EntryKind::File) && entry.size is Some
                ==> run.requested().contains(entry.path)
            &&& entry.kind == Some(EntryKind::File) && entry.size is Some && entry.storable
                ==> run.reported().contains((entry.shown@, entry.size->0 as nat))
        }),
{
    let run = run_from(disk, source, times);
    let entry = disk[directory][i];
    law_finished_run_has_walked_the_tree(disk, height, source, times);
    law_each_file_is_read_once(disk, height, source, times);
    if entry.is_entered() {
        assert(enters(disk, directory, entry.path));
    }
    if entry.is_measurable() {
        assert(offers(disk, directory, entry.path));
    }
    if entry.is_taken() {
        let found = entries_of(disk, run.listed());
        assert(is_entry_of(disk, run.listed(), entry));
        assert(found.contains(entry));
        let k = choose|k: int| 0 <= k < found.len() && found[k] == entry;
        lemma_taken_is_among_entries(found, k);
    }
}

/// A run counts the files that it reports and the bytes that they have together.
pub proof fn law_run_counts_what_it_reports<P>(disk: Disk<P>, source: P, times: nat)
    ensures
        ({
            let run = run_from(disk, source, times);
            &&& run.walk.files == run.reported().len()
            &&& run.walk.bytes == run.reported().fold_left(
                0nat,
                |sum: nat, report: (Seq<char>, nat)| sum + report.1,
            )
        }),
    decreases times,
{
    if times > 0 {
        let before = run_from(disk, source, (times - 1) as nat);
        law_run_counts_what_it_reports(disk, source, (times - 1) as nat);
        if !before.is_over() {
            let next = before.walk.pending.last();
            let advanced = before.after(SeedEvent::Advance);
            lemma_one_more_event(before, SeedEvent::Advance);
            if disk.contains_key(next) {
                lemma_all_visited_counts(advanced, disk[next]);
            } else {
                lemma_one_more_event(advanced, SeedEvent::Unlisted);
            }
        }
    }
}

/// Handing over entries keeps the counts those of what is reported.
proof fn lemma_all_visited_counts<P>(run: Run<P>, entries: Seq<DiskEntry<P>>)
    requires
        run.walk.files == run.reported().len(),
        run.walk.bytes == run.reported().fold_left(
            0nat,
            |sum: nat, report: (Seq<char>, nat)| sum + report.1,
        ),
    ensures
        ({
            let after = all_visited(run, entries);
            &&& after.walk.files == after.reported().len()
            &&& after.walk.bytes == after.reported().fold_left(
                0nat,
                |sum: nat, report: (Seq<char>, nat)| sum + report.1,
            )
        }),
    decreases entries.len(),
{
    if entries.len() > 0 {
        let before = all_visited(run, entries.drop_last());
        let entry = entries.last();
        lemma_all_visited_counts(run, entries.drop_last());
        lemma_visited_trace(before, entry);
        lemma_visited_counts(before, entry);
        if entry.is_taken() {
            assert(visited(before, entry).reported().drop_last() =~= before.reported());
        }
    }
}

} // verus!
