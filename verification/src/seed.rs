//! Seeding the local store from files already on disk.
//!
//! A clone downloads every fragment it needs. When the same content is already present locally (an
//! export, an older checkout, a copy from a colleague) those fragments can be produced from disk
//! instead of the network.
//!
//! This is safe because fragments are content-addressed: seeding a file yields the address its bytes
//! hash to and nothing else. A stale or unrelated file contributes an address no revision asks for,
//! so a clone simply never reads it. Nothing is deleted, moved, or overwritten: the seed directory is
//! only ever read.
//!
//! The walk is a machine: the caller touches the disk and the store, hands each outcome over as a
//! [`SeedEvent`], and does what the [`SeedAction`] that comes back says. It is iterative, so the depth
//! of a tree is never on the stack.

use vstd::prelude::*;

use crate::error;
use crate::text;

verus! {

/// Why seeding could not start.
#[derive(Debug)]
pub enum SeedError {
    InvalidArguments { reason: String },
}

/// A `SeedError` with its text as a sequence of characters.
pub enum SeedErrorView {
    InvalidArguments { reason: Seq<char> },
}

impl DeepView for SeedError {
    type V = SeedErrorView;

    open spec fn deep_view(&self) -> SeedErrorView {
        match *self {
            SeedError::InvalidArguments { reason } => SeedErrorView::InvalidArguments {
                reason: reason@,
            },
        }
    }
}

/// The kinds of error that an event carries to the interface.
#[derive(Debug, Clone, Copy, PartialEq, Eq, Structural)]
pub enum LoreError {
    Internal,
}

impl SeedError {
    /// The error as the interface reports it.
    pub fn translated(&self) -> (error: LoreError)
        ensures
            error == LoreError::Internal,
    {
        LoreError::Internal
    }
}

/// Reported once per file that was read into the store.
#[derive(Clone, PartialEq, Debug)]
pub struct LoreRepositorySeedFileEventData {
    /// Path of the file that was seeded.
    pub path: String,
    /// Size of the file in bytes.
    pub size: u64,
}

/// Reported once when seeding finishes.
#[derive(Debug, Clone, Copy, PartialEq, Eq, Structural)]
pub struct LoreRepositorySeedEndEventData {
    /// Files read into the store.
    pub file_count: u64,
    /// Total bytes read from the seed directory.
    pub byte_count: u64,
    /// Files that could not be read, and were skipped.
    pub skipped_count: u64,
}

/// What a seeding run produced.
#[derive(Debug, Clone, Copy, PartialEq, Eq, Structural)]
pub struct SeedResult {
    pub file_count: u64,
    pub byte_count: u64,
    pub skipped_count: u64,
}

impl Default for SeedResult {
    fn default() -> (result: SeedResult)
        ensures
            result == (SeedResult { file_count: 0, byte_count: 0, skipped_count: 0 }),
    {
        SeedResult { file_count: 0, byte_count: 0, skipped_count: 0 }
    }
}

impl Default for LoreRepositorySeedEndEventData {
    fn default() -> (data: LoreRepositorySeedEndEventData)
        ensures
            data == (LoreRepositorySeedEndEventData {
                file_count: 0,
                byte_count: 0,
                skipped_count: 0,
            }),
    {
        LoreRepositorySeedEndEventData { file_count: 0, byte_count: 0, skipped_count: 0 }
    }
}

/// What a directory entry is, its own type and not that of a link's target.
#[derive(Debug, Clone, Copy, PartialEq, Eq, Structural)]
pub enum EntryKind {
    Directory,
    File,
    /// A symbolic link, a device, or anything else that is followed by neither the walk nor the
    /// read: the target of a link is either inside the tree and seeded on its own, or outside it.
    Other,
}

/// What the caller saw or did. `P` is the type of the caller's paths.
#[derive(Debug)]
pub enum SeedEvent<P> {
    /// Every entry of the last directory has been handed over.
    Advance,
    /// The directory to list could not be listed.
    Unlisted,
    /// The listed directory has this entry; the kind is absent where it could not be determined.
    Entry { path: P, name: String, kind: Option<EntryKind> },
    /// The file to measure has this size; it is absent where it could not be determined.
    Measured { path: P, size: Option<u64> },
    /// The file to store was stored, or could not be. `shown` is its path as text.
    Stored { shown: String, size: u64, stored: bool },
}

/// What the caller is to do next.
#[derive(Debug)]
pub enum SeedAction<P> {
    /// Go on with what is at hand.
    Proceed,
    /// List this directory.
    List(P),
    /// Determine the size of this file.
    Measure(P),
    /// Read this file into the store.
    Store { path: P, size: u64 },
    /// Report a file that was read into the store.
    ReportFile(LoreRepositorySeedFileEventData),
    /// Report the end of the run.
    ReportEnd(LoreRepositorySeedEndEventData),
}

/// A `SeedAction` with its text as a sequence of characters and its counts as numbers.
pub enum SeedActionView<P> {
    Proceed,
    List(P),
    Measure(P),
    Store { path: P, size: u64 },
    ReportFile { path: Seq<char>, size: nat },
    ReportEnd { files: nat, bytes: nat, skipped: nat },
}

impl<P> View for SeedAction<P> {
    type V = SeedActionView<P>;

    open spec fn view(&self) -> SeedActionView<P> {
        match *self {
            SeedAction::Proceed => SeedActionView::Proceed,
            SeedAction::List(path) => SeedActionView::List(path),
            SeedAction::Measure(path) => SeedActionView::Measure(path),
            SeedAction::Store { path, size } => SeedActionView::Store { path, size },
            SeedAction::ReportFile(data) => SeedActionView::ReportFile {
                path: data.path@,
                size: data.size as nat,
            },
            SeedAction::ReportEnd(data) => SeedActionView::ReportEnd {
                files: data.file_count as nat,
                bytes: data.byte_count as nat,
                skipped: data.skipped_count as nat,
            },
        }
    }
}

/// A walk under way: the directories still to list, and what has come of the rest.
#[derive(Debug)]
pub struct Seeding<P> {
    /// The directories still to list; the last one is listed next.
    pub pending: Vec<P>,
    /// What the run has produced so far.
    pub result: SeedResult,
}

/// A `Seeding` with its counts as numbers.
pub struct SeedingView<P> {
    pub pending: Seq<P>,
    pub files: nat,
    pub bytes: nat,
    pub skipped: nat,
}

impl<P> View for Seeding<P> {
    type V = SeedingView<P>;

    open spec fn view(&self) -> SeedingView<P> {
        SeedingView {
            pending: self.pending@,
            files: self.result.file_count as nat,
            bytes: self.result.byte_count as nat,
            skipped: self.result.skipped_count as nat,
        }
    }
}

impl<P> DeepView for Seeding<P> {
    type V = SeedingView<P>;

    open spec fn deep_view(&self) -> SeedingView<P> {
        self@
    }
}

/// A walk that has seen nothing yet and will list `source` first.
pub open spec fn walk_from<P>(source: P) -> SeedingView<P> {
    SeedingView { pending: seq![source], files: 0, bytes: 0, skipped: 0 }
}

/// A directory of this name never holds repository content and is skipped wholesale.
pub open spec fn is_skipped(name: Seq<char>) -> bool {
    ||| name == ".lore"@
    ||| name == ".urc"@
    ||| name == ".git"@
    ||| name == ".svn"@
    ||| name == "node_modules"@
}

/// The entry is a directory that the walk goes into.
pub open spec fn admits<P>(event: SeedEvent<P>) -> bool {
    event matches SeedEvent::Entry { name, kind, .. } && kind == Some(EntryKind::Directory)
        && !is_skipped(name@)
}

/// The event is about something that could not be read or stored.
pub open spec fn is_failure<P>(event: SeedEvent<P>) -> bool {
    match event {
        SeedEvent::Advance => false,
        SeedEvent::Unlisted => true,
        SeedEvent::Entry { kind, .. } => kind is None,
        SeedEvent::Measured { size, .. } => size is None,
        SeedEvent::Stored { stored, .. } => !stored,
    }
}

impl<P> SeedingView<P> {
    /// The counts are numbers that a `u64` holds.
    pub open spec fn fits(self) -> bool {
        &&& self.files <= u64::MAX
        &&& self.bytes <= u64::MAX
        &&& self.skipped <= u64::MAX
    }

    /// The walk after an event: a directory that the walk goes into is to be listed before those
    /// that were found earlier, a stored file and its bytes are counted, and so is a failure.
    pub open spec fn after(self, event: SeedEvent<P>) -> SeedingView<P> {
        SeedingView {
            pending: match event {
                SeedEvent::Advance if self.pending.len() > 0 => self.pending.drop_last(),
                SeedEvent::Entry { path, .. } if admits(event) => self.pending.push(path),
                _ => self.pending,
            },
            files: match event {
                SeedEvent::Stored { stored, .. } if stored => self.files + 1,
                _ => self.files,
            },
            bytes: match event {
                SeedEvent::Stored { size, stored, .. } if stored => self.bytes + size as nat,
                _ => self.bytes,
            },
            skipped: if is_failure(event) {
                self.skipped + 1
            } else {
                self.skipped
            },
        }
    }

    /// What the caller is to do upon an event: a file is measured, one that was measured is stored,
    /// one that was stored is reported, and the run ends when no directory is left.
    pub open spec fn answer(self, event: SeedEvent<P>) -> SeedActionView<P> {
        match event {
            SeedEvent::Advance => if self.pending.len() > 0 {
                SeedActionView::List(self.pending.last())
            } else {
                SeedActionView::ReportEnd {
                    files: self.files,
                    bytes: self.bytes,
                    skipped: self.skipped,
                }
            },
            SeedEvent::Entry { path, kind, .. } if kind == Some(EntryKind::File) => {
                SeedActionView::Measure(path)
            },
            SeedEvent::Measured { path, size: Some(size) } => SeedActionView::Store { path, size },
            SeedEvent::Stored { shown, size, stored } if stored => {
                SeedActionView::ReportFile { path: shown@, size: size as nat }
            },
            _ => SeedActionView::Proceed,
        }
    }
}

/// Whether a directory of this name is skipped wholesale.
fn skips(name: &str) -> (skipped: bool)
    ensures
        skipped == is_skipped(name@),
{
    text::same_text(name, ".lore") || text::same_text(name, ".urc") || text::same_text(
        name,
        ".git",
    ) || text::same_text(name, ".svn") || text::same_text(name, "node_modules")
}

/// Starts a walk that reads every file under `source` into the repository's immutable store.
///
/// `is_directory` is what the metadata of `source` says, or the message of the error that reading
/// them gave.
///
/// The store is content-addressed, so a file whose content the repository already holds costs
/// nothing beyond the read, and a file it never needs is simply never referenced. Unreadable files
/// are counted and skipped rather than failing the run: a seed directory is untrusted input, and one
/// bad file must not discard the work done for thousands of good ones.
pub fn seed<P>(source: P, is_directory: Result<bool, String>) -> (seeding: Result<
    Seeding<P>,
    SeedError,
>)
    ensures
        error::outcome(seeding) == match is_directory {
            Ok(true) => Ok(walk_from(source)),
            Ok(false) => Err(
                SeedErrorView::InvalidArguments { reason: "seed path is not a directory"@ },
            ),
            Err(message) => Err(
                SeedErrorView::InvalidArguments {
                    reason: "seed path does not exist or is not accessible: "@ + message@,
                },
            ),
        },
{
    match is_directory {
        Ok(true) => {
            let mut pending: Vec<P> = Vec::new();
            pending.push(source);
            assert(pending@ =~= seq![source]);
            Ok(Seeding { pending, result: SeedResult::default() })
        },
        Ok(false) => Err(
            SeedError::InvalidArguments { reason: "seed path is not a directory".to_owned() },
        ),
        Err(message) => {
            let mut reason = "seed path does not exist or is not accessible: ".to_owned();
            reason.append(message.as_str());
            Err(SeedError::InvalidArguments { reason })
        },
    }
}

impl<P> Seeding<P> {
    /// Whether the counts after an event are numbers that a `u64` holds.
    pub fn has_room_for(&self, event: &SeedEvent<P>) -> (room: bool)
        ensures
            room == self@.after(*event).fits(),
    {
        match event {
            SeedEvent::Advance => true,
            SeedEvent::Unlisted => self.result.skipped_count < u64::MAX,
            SeedEvent::Entry { kind: None, .. } => self.result.skipped_count < u64::MAX,
            SeedEvent::Entry { .. } => true,
            SeedEvent::Measured { size: None, .. } => self.result.skipped_count < u64::MAX,
            SeedEvent::Measured { .. } => true,
            SeedEvent::Stored { size, stored, .. } => {
                if *stored {
                    self.result.file_count < u64::MAX && self.result.byte_count <= u64::MAX - *size
                } else {
                    self.result.skipped_count < u64::MAX
                }
            },
        }
    }

    /// Takes note of an event and says what to do next.
    ///
    /// The counts after the event have to be numbers that a `u64` holds, as `has_room_for` says.
    pub fn step(&mut self, event: SeedEvent<P>) -> (action: SeedAction<P>)
        requires
            old(self)@.after(event).fits(),
        ensures
            final(self)@ == old(self)@.after(event),
            action@ == old(self)@.answer(event),
    {
        match event {
            SeedEvent::Advance => match self.pending.pop() {
                Some(directory) => SeedAction::List(directory),
                None => SeedAction::ReportEnd(
                    LoreRepositorySeedEndEventData {
                        file_count: self.result.file_count,
                        byte_count: self.result.byte_count,
                        skipped_count: self.result.skipped_count,
                    },
                ),
            },
            SeedEvent::Unlisted => {
                self.result.skipped_count += 1;
                SeedAction::Proceed
            },
            SeedEvent::Entry { path, name, kind } => match kind {
                None => {
                    self.result.skipped_count += 1;
                    SeedAction::Proceed
                },
                Some(EntryKind::Directory) => {
                    if !skips(name.as_str()) {
                        self.pending.push(path);
                    }
                    SeedAction::Proceed
                },
                Some(EntryKind::File) => SeedAction::Measure(path),
                Some(EntryKind::Other) => SeedAction::Proceed,
            },
            SeedEvent::Measured { path, size } => match size {
                None => {
                    self.result.skipped_count += 1;
                    SeedAction::Proceed
                },
                Some(size) => SeedAction::Store { path, size },
            },
            SeedEvent::Stored { shown, size, stored } => {
                if stored {
                    self.result.file_count += 1;
                    self.result.byte_count += size;
                    SeedAction::ReportFile(LoreRepositorySeedFileEventData { path: shown, size })
                } else {
                    self.result.skipped_count += 1;
                    SeedAction::Proceed
                }
            },
        }
    }
}

impl<P> SeedingView<P> {
    /// The walk after a series of events.
    pub open spec fn after_all(self, events: Seq<SeedEvent<P>>) -> SeedingView<P>
        decreases events.len(),
    {
        if events.len() == 0 {
            self
        } else {
            self.after_all(events.drop_last()).after(events.last())
        }
    }

    /// What the caller is to do upon each of a series of events.
    pub open spec fn answers(self, events: Seq<SeedEvent<P>>) -> Seq<SeedActionView<P>>
        decreases events.len(),
    {
        if events.len() == 0 {
            seq![]
        } else {
            self.answers(events.drop_last()).push(
                self.after_all(events.drop_last()).answer(events.last()),
            )
        }
    }
}

/// The directories that the caller was to list, in order.
pub open spec fn listed<P>(actions: Seq<SeedActionView<P>>) -> Seq<P>
    decreases actions.len(),
{
    if actions.len() == 0 {
        seq![]
    } else {
        match actions.last() {
            SeedActionView::List(directory) => listed(actions.drop_last()).push(directory),
            _ => listed(actions.drop_last()),
        }
    }
}

/// The files that the caller was to read into the store, in order.
pub open spec fn requested<P>(actions: Seq<SeedActionView<P>>) -> Seq<P>
    decreases actions.len(),
{
    if actions.len() == 0 {
        seq![]
    } else {
        match actions.last() {
            SeedActionView::Store { path, .. } => requested(actions.drop_last()).push(path),
            _ => requested(actions.drop_last()),
        }
    }
}

/// The paths and sizes of the files that the caller was to report, in order.
pub open spec fn reported<P>(actions: Seq<SeedActionView<P>>) -> Seq<(Seq<char>, nat)>
    decreases actions.len(),
{
    if actions.len() == 0 {
        seq![]
    } else {
        match actions.last() {
            SeedActionView::ReportFile { path, size } => {
                reported(actions.drop_last()).push((path, size))
            },
            _ => reported(actions.drop_last()),
        }
    }
}

/// The counts in the reports of an end that the caller was to give, in order: files, bytes, failures.
pub open spec fn ended<P>(actions: Seq<SeedActionView<P>>) -> Seq<(nat, nat, nat)>
    decreases actions.len(),
{
    if actions.len() == 0 {
        seq![]
    } else {
        match actions.last() {
            SeedActionView::ReportEnd { files, bytes, skipped } => {
                ended(actions.drop_last()).push((files, bytes, skipped))
            },
            _ => ended(actions.drop_last()),
        }
    }
}

/// The directories among the entries that the walk goes into, in order.
pub open spec fn admitted<P>(events: Seq<SeedEvent<P>>) -> Seq<P>
    decreases events.len(),
{
    if events.len() == 0 {
        seq![]
    } else {
        match events.last() {
            SeedEvent::Entry { path, .. } if admits(events.last()) => {
                admitted(events.drop_last()).push(path)
            },
            _ => admitted(events.drop_last()),
        }
    }
}

/// The sum of the sizes of reported files.
pub open spec fn total(reports: Seq<(Seq<char>, nat)>) -> nat
    decreases reports.len(),
{
    if reports.len() == 0 {
        0
    } else {
        total(reports.drop_last()) + reports.last().1
    }
}

/// The number of events that are failures.
pub open spec fn failures<P>(events: Seq<SeedEvent<P>>) -> nat
    decreases events.len(),
{
    if events.len() == 0 {
        0
    } else if is_failure(events.last()) {
        failures(events.drop_last()) + 1
    } else {
        failures(events.drop_last())
    }
}

/// Every directory that the walk goes into, the seed directory among them, is listed exactly once or
/// is still to be listed; and no other directory is either.
pub proof fn law_each_directory_is_listed_once<P>(source: P, events: Seq<SeedEvent<P>>)
    ensures
        walk_from(source).after_all(events).pending.to_multiset().add(
            listed(walk_from(source).answers(events)).to_multiset(),
        ) == admitted(events).to_multiset().insert(source),
    decreases events.len(),
{
    broadcast use vstd::seq_lib::group_to_multiset_ensures;
    let start = walk_from(source);
    if events.len() == 0 {
        assert(start.pending =~= Seq::<P>::empty().push(source));
        assert(start.pending.to_multiset() =~= Seq::<P>::empty().to_multiset().insert(source));
        assert(start.after_all(events).pending.to_multiset().add(
            listed(start.answers(events)).to_multiset(),
        ) =~= admitted(events).to_multiset().insert(source));
    } else {
        let earlier = events.drop_last();
        let event = events.last();
        let before = start.after_all(earlier);
        law_each_directory_is_listed_once(source, earlier);
        assert(start.answers(events).drop_last() =~= start.answers(earlier));
        let old_listed = listed(start.answers(earlier));
        match event {
            SeedEvent::Advance if before.pending.len() > 0 => {
                let directory = before.pending.last();
                assert(before.pending =~= before.pending.drop_last().push(directory));
                assert(before.pending.to_multiset()
                    =~= before.pending.drop_last().to_multiset().insert(directory));
                assert(start.after_all(events).pending.to_multiset().add(
                    listed(start.answers(events)).to_multiset(),
                ) =~= before.pending.to_multiset().add(old_listed.to_multiset()));
            },
            SeedEvent::Entry { path, .. } if admits(event) => {
                assert(start.after_all(events).pending.to_multiset().add(
                    listed(start.answers(events)).to_multiset(),
                ) =~= before.pending.to_multiset().add(old_listed.to_multiset()).insert(path));
                assert(admitted(events).to_multiset().insert(source)
                    =~= admitted(earlier).to_multiset().insert(source).insert(path));
            },
            _ => {},
        }
    }
}

/// By the time no directory is left to list, the seed directory and every directory among the entries
/// that the walk goes into have been listed, each once, and no other has.
pub proof fn law_finished_walk_has_listed_everything<P>(source: P, events: Seq<SeedEvent<P>>)
    requires
        walk_from(source).after_all(events).pending.len() == 0,
    ensures
        listed(walk_from(source).answers(events)).to_multiset() == admitted(
            events,
        ).to_multiset().insert(source),
{
    broadcast use vstd::seq_lib::group_to_multiset_ensures;
    let walk = walk_from(source);
    law_each_directory_is_listed_once(source, events);
    assert(walk.after_all(events).pending =~= Seq::<P>::empty());
    assert(listed(walk.answers(events)).to_multiset() =~= walk.after_all(
        events,
    ).pending.to_multiset().add(listed(walk.answers(events)).to_multiset()));
}

/// Every file that an entry names is measured, and every file that was measured is read into the
/// store, an empty one too.
pub proof fn law_every_file_is_read<P>(walk: SeedingView<P>, path: P, name: String, size: u64)
    ensures
        walk.answer(SeedEvent::Entry { path, name, kind: Some(EntryKind::File) })
            == SeedActionView::Measure(path),
        walk.answer(SeedEvent::Measured { path, size: Some(size) }) == (SeedActionView::Store {
            path,
            size,
        }),
{
}

/// A directory that never holds repository content is skipped wholesale: the walk goes on as if it
/// were not there.
pub proof fn law_directories_without_content_are_skipped<P>(
    walk: SeedingView<P>,
    path: P,
    name: String,
)
    requires
        is_skipped(name@),
    ensures
        walk.after(SeedEvent::Entry { path, name, kind: Some(EntryKind::Directory) }) == walk,
        walk.answer(SeedEvent::Entry { path, name, kind: Some(EntryKind::Directory) })
            == SeedActionView::<P>::Proceed,
{
}

/// A symbolic link is followed by neither the walk nor the read: the walk goes on as if it were not
/// there.
pub proof fn law_links_are_passed_over<P>(walk: SeedingView<P>, path: P, name: String)
    ensures
        walk.after(SeedEvent::Entry { path, name, kind: Some(EntryKind::Other) }) == walk,
        walk.answer(SeedEvent::Entry { path, name, kind: Some(EntryKind::Other) })
            == SeedActionView::<P>::Proceed,
{
}

/// The files that a run counts are those that it reports, one report for each, and the bytes that it
/// counts are the sum of their sizes.
pub proof fn law_counts_are_what_is_reported<P>(source: P, events: Seq<SeedEvent<P>>)
    ensures
        walk_from(source).after_all(events).files == reported(
            walk_from(source).answers(events),
        ).len(),
        walk_from(source).after_all(events).bytes == total(
            reported(walk_from(source).answers(events)),
        ),
    decreases events.len(),
{
    let start = walk_from(source);
    if events.len() > 0 {
        let earlier = events.drop_last();
        law_counts_are_what_is_reported(source, earlier);
        assert(start.answers(events).drop_last() =~= start.answers(earlier));
        if let SeedActionView::ReportFile { size, .. } = start.answers(events).last() {
            assert(reported(start.answers(events)).drop_last() =~= reported(
                start.answers(earlier),
            ));
        }
    }
}

/// Every failure is counted, and nothing else is counted as one.
pub proof fn law_each_failure_is_counted<P>(source: P, events: Seq<SeedEvent<P>>)
    ensures
        walk_from(source).after_all(events).skipped == failures(events),
    decreases events.len(),
{
    if events.len() > 0 {
        law_each_failure_is_counted(source, events.drop_last());
    }
}

/// A failure discards nothing: the files and bytes counted so far and the directories still to list
/// stay, and the caller goes on.
pub proof fn law_failure_keeps_the_work<P>(walk: SeedingView<P>, event: SeedEvent<P>)
    requires
        is_failure(event),
    ensures
        walk.after(event).files == walk.files,
        walk.after(event).bytes == walk.bytes,
        walk.after(event).pending == walk.pending,
        walk.answer(event) == SeedActionView::<P>::Proceed,
{
}

/// The end is reported only when no directory is left to list, and what is reported are the counts
/// of the run.
pub proof fn law_end_is_reported_when_nothing_is_left<P>(
    walk: SeedingView<P>,
    event: SeedEvent<P>,
    files: nat,
    bytes: nat,
    skipped: nat,
)
    ensures
        walk.answer(event) == (SeedActionView::<P>::ReportEnd { files, bytes, skipped }) <==> {
            &&& event is Advance
            &&& walk.pending.len() == 0
            &&& walk.files == files
            &&& walk.bytes == bytes
            &&& walk.skipped == skipped
        },
{
}

/// Seeding starts where the source is a directory, with the source as the one directory to list and
/// with nothing counted; it is refused otherwise, and the error says why.
pub proof fn law_seeding_starts_at_the_source<P>(
    source: P,
    is_directory: Result<bool, String>,
    seeding: Result<Seeding<P>, SeedError>,
)
    requires
        call_ensures(seed::<P>, (source, is_directory), seeding),
    ensures
        match is_directory {
            Ok(true) => {
                &&& seeding matches Ok(walk)
                &&& walk.pending@.len() == 1
                &&& walk.pending@[0] == source
                &&& walk.result.file_count == 0
                &&& walk.result.byte_count == 0
                &&& walk.result.skipped_count == 0
            },
            Ok(false) => seeding matches Err(SeedError::InvalidArguments { reason }) && reason@
                == "seed path is not a directory"@,
            Err(message) => seeding matches Err(SeedError::InvalidArguments { reason }) && reason@
                == "seed path does not exist or is not accessible: "@ + message@,
        },
{
}

/// Every error of seeding is an internal one to the interface, and what counts starts at zero.
pub proof fn law_counts_start_at_zero(
    error: SeedError,
    translated: LoreError,
    result: SeedResult,
    data: LoreRepositorySeedEndEventData,
)
    requires
        call_ensures(SeedError::translated, (&error,), translated),
        call_ensures(SeedResult::default, (), result),
        call_ensures(LoreRepositorySeedEndEventData::default, (), data),
    ensures
        translated == LoreError::Internal,
        result.file_count == 0 && result.byte_count == 0 && result.skipped_count == 0,
        data.file_count == 0 && data.byte_count == 0 && data.skipped_count == 0,
{
}

/// A directory is to be listed, before those that were found earlier, unless its name is exactly one
/// of `.lore`, `.urc`, `.git`, `.svn` and `node_modules`; then the walk stays as it is. Nothing is
/// counted for it.
pub proof fn law_directories_are_listed_but_for_five<P>(path: P, name: String)
    ensures
        forall|walk: &mut Seeding<P>, action: SeedAction<P>| #[trigger]
            call_ensures(
                Seeding::<P>::step,
                (walk, SeedEvent::Entry { path, name, kind: Some(EntryKind::Directory) }),
                action,
            ) ==> {
                &&& action is Proceed
                &&& final(walk).result == walk.result
                &&& final(walk).pending@ == if name@ == ".lore"@ || name@ == ".urc"@ || name@
                    == ".git"@ || name@ == ".svn"@ || name@ == "node_modules"@ {
                    walk.pending@
                } else {
                    walk.pending@.push(path)
                }
            },
{
}

/// A file is to be measured, whatever its name; what is neither a directory nor a file is passed
/// over; and what cannot be told is counted as skipped. The directories to list stay as they are.
pub proof fn law_files_are_measured<P>(path: P, name: String)
    ensures
        forall|walk: &mut Seeding<P>, action: SeedAction<P>| #[trigger]
            call_ensures(
                Seeding::<P>::step,
                (walk, SeedEvent::Entry { path, name, kind: Some(EntryKind::File) }),
                action,
            ) ==> action == SeedAction::Measure(path) && final(walk).pending@ == walk.pending@
                && final(walk).result == walk.result,
        forall|walk: &mut Seeding<P>, action: SeedAction<P>| #[trigger]
            call_ensures(
                Seeding::<P>::step,
                (walk, SeedEvent::Entry { path, name, kind: Some(EntryKind::Other) }),
                action,
            ) ==> action is Proceed && final(walk).pending@ == walk.pending@ && final(walk).result
                == walk.result,
        forall|walk: &mut Seeding<P>, action: SeedAction<P>| #[trigger]
            call_ensures(
                Seeding::<P>::step,
                (walk, SeedEvent::Entry { path, name, kind: None }),
                action,
            ) ==> action is Proceed && final(walk).pending@ == walk.pending@
                && final(walk).result.file_count == walk.result.file_count
                && final(walk).result.byte_count == walk.result.byte_count
                && final(walk).result.skipped_count == walk.result.skipped_count + 1,
{
}

/// A file that was measured is to be stored, whatever its size, and nothing is counted yet; one that
/// could not be measured is counted as skipped.
pub proof fn law_measured_files_are_stored<P>(path: P, size: u64)
    ensures
        forall|walk: &mut Seeding<P>, action: SeedAction<P>| #[trigger]
            call_ensures(
                Seeding::<P>::step,
                (walk, SeedEvent::Measured { path, size: Some(size) }),
                action,
            ) ==> action == (SeedAction::Store { path, size }) && final(walk).pending@
                == walk.pending@ && final(walk).result == walk.result,
        forall|walk: &mut Seeding<P>, action: SeedAction<P>| #[trigger]
            call_ensures(
                Seeding::<P>::step,
                (walk, SeedEvent::Measured { path, size: None }),
                action,
            ) ==> action is Proceed && final(walk).pending@ == walk.pending@
                && final(walk).result.file_count == walk.result.file_count
                && final(walk).result.byte_count == walk.result.byte_count
                && final(walk).result.skipped_count == walk.result.skipped_count + 1,
{
}

/// A file that was stored counts as one file and as its bytes, and is reported by its path and its
/// size; one that was not is counted as skipped, and is not reported.
pub proof fn law_stored_files_are_counted_and_reported<P>(shown: String, size: u64)
    ensures
        forall|walk: &mut Seeding<P>, action: SeedAction<P>| #[trigger]
            call_ensures(
                Seeding::<P>::step,
                (walk, SeedEvent::Stored { shown, size, stored: true }),
                action,
            ) ==> {
                &&& action matches SeedAction::ReportFile(data)
                &&& data.path@ == shown@
                &&& data.size == size
                &&& final(walk).pending@ == walk.pending@
                &&& final(walk).result.file_count == walk.result.file_count + 1
                &&& final(walk).result.byte_count == walk.result.byte_count + size
                &&& final(walk).result.skipped_count == walk.result.skipped_count
            },
        forall|walk: &mut Seeding<P>, action: SeedAction<P>| #[trigger]
            call_ensures(
                Seeding::<P>::step,
                (walk, SeedEvent::Stored { shown, size, stored: false }),
                action,
            ) ==> {
                &&& action is Proceed
                &&& final(walk).pending@ == walk.pending@
                &&& final(walk).result.file_count == walk.result.file_count
                &&& final(walk).result.byte_count == walk.result.byte_count
                &&& final(walk).result.skipped_count == walk.result.skipped_count + 1
            },
{
}

/// A walk goes on with the directory that was found last, which is then no longer to be listed; where
/// none is left, it ends with a report of its counts, each under its own name. A directory that could
/// not be listed is counted as skipped.
pub proof fn law_walk_goes_on_until_nothing_is_left<P>()
    ensures
        forall|walk: &mut Seeding<P>, action: SeedAction<P>| #[trigger]
            call_ensures(Seeding::<P>::step, (walk, SeedEvent::Advance), action) ==> {
                &&& final(walk).result == walk.result
                &&& walk.pending@.len() > 0 ==> {
                    &&& action == SeedAction::List(walk.pending@[walk.pending@.len() - 1])
                    &&& final(walk).pending@ == walk.pending@.take(walk.pending@.len() - 1)
                }
                &&& walk.pending@.len() == 0 ==> {
                    &&& action matches SeedAction::ReportEnd(data)
                    &&& data.file_count == walk.result.file_count
                    &&& data.byte_count == walk.result.byte_count
                    &&& data.skipped_count == walk.result.skipped_count
                    &&& final(walk).pending@.len() == 0
                }
            },
        forall|walk: &mut Seeding<P>, action: SeedAction<P>| #[trigger]
            call_ensures(Seeding::<P>::step, (walk, SeedEvent::Unlisted), action) ==> {
                &&& action is Proceed
                &&& final(walk).pending@ == walk.pending@
                &&& final(walk).result.file_count == walk.result.file_count
                &&& final(walk).result.byte_count == walk.result.byte_count
                &&& final(walk).result.skipped_count == walk.result.skipped_count + 1
            },
{
}

/// There is room for an event unless a count that it raises would be more than a `u64` holds.
pub proof fn law_room_is_short_only_at_the_limit<P>(
    walk: Seeding<P>,
    event: SeedEvent<P>,
    room: bool,
)
    requires
        call_ensures(Seeding::<P>::has_room_for, (&walk, &event), room),
    ensures
        match event {
            SeedEvent::Advance => room,
            SeedEvent::Unlisted => room <==> walk.result.skipped_count < u64::MAX,
            SeedEvent::Entry { kind, .. } => room <==> kind is Some || walk.result.skipped_count
                < u64::MAX,
            SeedEvent::Measured { size, .. } => room <==> size is Some || walk.result.skipped_count
                < u64::MAX,
            SeedEvent::Stored { size, stored, .. } => if stored {
                room <==> walk.result.file_count < u64::MAX && walk.result.byte_count + size
                    <= u64::MAX
            } else {
                room <==> walk.result.skipped_count < u64::MAX
            },
        },
{
}

} // verus!
