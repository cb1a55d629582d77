use std::collections::BTreeSet;

use lore::seed::{
    seed, EntryKind, LoreError, LoreRepositorySeedEndEventData, LoreRepositorySeedFileEventData,
    SeedAction, SeedError, SeedEvent, SeedResult, Seeding,
};

fn walk(source: &str) -> Seeding<String> {
    seed(source.to_string(), Ok(true)).expect("a directory")
}

fn entry(path: &str, name: &str, kind: Option<EntryKind>) -> SeedEvent<String> {
    SeedEvent::Entry { path: path.to_string(), name: name.to_string(), kind }
}

fn measured(path: &str, size: Option<u64>) -> SeedEvent<String> {
    SeedEvent::Measured { path: path.to_string(), size }
}

fn stored(path: &str, size: u64, stored: bool) -> SeedEvent<String> {
    SeedEvent::Stored { shown: path.to_string(), size, stored }
}

#[test]
fn a_seed_path_has_to_be_a_directory() {
    let SeedError::InvalidArguments { reason } = seed(1u8, Ok(false)).expect_err("no directory");
    assert_eq!(reason, "seed path is not a directory");
    let error = seed(1u8, Err("gone".to_string())).expect_err("no path");
    assert_eq!(error.translated(), LoreError::Internal);
    let SeedError::InvalidArguments { reason } = error;
    assert_eq!(reason, "seed path does not exist or is not accessible: gone");
}

#[test]
fn a_run_counts_and_reports_what_it_stores() {
    let mut run = walk("root");
    assert!(matches!(run.step(SeedEvent::Advance), SeedAction::List(p) if p == "root"));
    assert!(matches!(
        run.step(entry("root/a", "a", Some(EntryKind::File))),
        SeedAction::Measure(p) if p == "root/a"
    ));
    assert!(matches!(
        run.step(measured("root/a", Some(7))),
        SeedAction::Store { path, size: 7 } if path == "root/a"
    ));
    match run.step(stored("root/a", 7, true)) {
        SeedAction::ReportFile(data) => assert_eq!(
            data,
            LoreRepositorySeedFileEventData { path: "root/a".to_string(), size: 7 }
        ),
        _ => panic!("a stored file is reported"),
    }
    assert!(matches!(run.step(stored("root/b", 9, false)), SeedAction::Proceed));
    match run.step(SeedEvent::Advance) {
        SeedAction::ReportEnd(data) => assert_eq!(
            data,
            LoreRepositorySeedEndEventData { file_count: 1, byte_count: 7, skipped_count: 1 }
        ),
        _ => panic!("nothing is left to list"),
    }
    assert_eq!(run.result, SeedResult { file_count: 1, byte_count: 7, skipped_count: 1 });
}

#[test]
fn directories_are_listed_once_and_the_last_found_first() {
    let mut run = walk("r");
    let mut listed: Vec<String> = Vec::new();
    loop {
        match run.step(SeedEvent::Advance) {
            SeedAction::List(directory) => {
                if directory == "r" {
                    run.step(entry("r/a", "a", Some(EntryKind::Directory)));
                    run.step(entry("r/b", "b", Some(EntryKind::Directory)));
                } else if directory == "r/b" {
                    run.step(entry("r/b/c", "c", Some(EntryKind::Directory)));
                }
                listed.push(directory);
            }
            SeedAction::ReportEnd(_) => break,
            _ => panic!("a directory or the end was expected"),
        }
    }
    assert_eq!(listed, vec!["r", "r/b", "r/b/c", "r/a"]);
}

#[test]
fn directories_without_repository_content_are_skipped() {
    let mut run = walk("r");
    run.step(SeedEvent::Advance);
    for name in [".lore", ".urc", ".git", ".svn", "node_modules"] {
        assert!(matches!(
            run.step(entry(name, name, Some(EntryKind::Directory))),
            SeedAction::Proceed
        ));
    }
    assert!(run.pending.is_empty());
    run.step(entry(".github", ".github", Some(EntryKind::Directory)));
    run.step(entry("Node_modules", "Node_modules", Some(EntryKind::Directory)));
    assert_eq!(run.pending, vec![".github".to_string(), "Node_modules".to_string()]);
    assert!(matches!(
        run.step(entry(".git", ".git", Some(EntryKind::File))),
        SeedAction::Measure(_)
    ));
    assert_eq!(run.result, SeedResult::default());
}

#[test]
fn failures_are_counted_and_keep_the_work() {
    let mut run = walk("r");
    run.step(stored("r/a", 3, true));
    for event in [
        SeedEvent::Unlisted,
        entry("r/b", "b", None),
        measured("r/c", None),
        stored("r/d", 5, false),
    ] {
        assert!(run.has_room_for(&event));
        assert!(matches!(run.step(event), SeedAction::Proceed));
    }
    assert_eq!(run.result, SeedResult { file_count: 1, byte_count: 3, skipped_count: 4 });
    assert_eq!(run.pending, vec!["r".to_string()]);
}

#[test]
fn links_are_passed_over() {
    let mut run = walk("r");
    assert!(matches!(
        run.step(entry("r/l", "l", Some(EntryKind::Other))),
        SeedAction::Proceed
    ));
    assert_eq!(run.result, SeedResult::default());
    assert_eq!(run.pending, vec!["r".to_string()]);
}

#[test]
fn room_is_what_the_counts_leave() {
    let mut run = walk("r");
    run.step(stored("r/a", u64::MAX - 2, true));
    assert!(run.has_room_for(&stored("r/b", 2, true)));
    assert!(!run.has_room_for(&stored("r/b", 3, true)));
    run.result.skipped_count = u64::MAX;
    assert!(!run.has_room_for(&SeedEvent::Unlisted));
    assert!(!run.has_room_for(&entry("r/b", "b", None)));
    assert!(!run.has_room_for(&measured("r/b", None)));
    assert!(!run.has_room_for(&stored("r/b", 0, false)));
    assert!(run.has_room_for(&SeedEvent::Advance));
    assert!(run.has_room_for(&entry("r/b", "b", Some(EntryKind::File))));
    assert!(run.has_room_for(&measured("r/b", Some(1))));
}

#[test]
fn an_end_event_starts_at_zero() {
    assert_eq!(
        LoreRepositorySeedEndEventData::default(),
        LoreRepositorySeedEndEventData { file_count: 0, byte_count: 0, skipped_count: 0 }
    );
}

/// Path, name, kind, size, and whether the store takes the file.
type DiskEntry = (&'static str, &'static str, Option<EntryKind>, Option<u64>, bool);

fn listing(directory: &str) -> Option<Vec<DiskEntry>> {
    let directories = Some(EntryKind::Directory);
    let files = Some(EntryKind::File);
    match directory {
        "r" => Some(vec![
            ("r/a", "a", directories, None, true),
            ("r/.git", ".git", directories, None, true),
            ("r/f", "f", files, Some(10), true),
            ("r/gone", "gone", directories, None, true),
            ("r/e", "e", files, Some(0), true),
        ]),
        "r/a" => Some(vec![
            ("r/a/g", "g", files, Some(5), true),
            ("r/a/h", "h", files, Some(3), false),
            ("r/a/i", "i", files, None, true),
            ("r/a/j", "j", None, None, true),
            ("r/a/b", "b", directories, None, true),
            ("r/a/l", "l", Some(EntryKind::Other), Some(8), true),
        ]),
        "r/a/b" => Some(vec![("r/a/b/k", "k", files, Some(1), true)]),
        "r/.git" => Some(vec![("r/.git/x", "x", files, Some(100), true)]),
        _ => None,
    }
}

/// The directories listed, the paths given to the store, the reports, and the counts of a run.
type Outcome = (Vec<String>, Vec<String>, Vec<LoreRepositorySeedFileEventData>, SeedResult);

fn seeded(listing: impl Fn(&str) -> Option<Vec<DiskEntry>>) -> Outcome {
    let mut run = walk("r");
    let mut listed: Vec<String> = Vec::new();
    let mut requested: Vec<String> = Vec::new();
    let mut reports: Vec<LoreRepositorySeedFileEventData> = Vec::new();
    while let SeedAction::List(directory) = run.step(SeedEvent::Advance) {
        match listing(&directory) {
            None => {
                run.step(SeedEvent::Unlisted);
            }
            Some(entries) => {
                for (path, name, kind, size, storable) in entries {
                    if let SeedAction::Measure(path) = run.step(entry(path, name, kind)) {
                        if let SeedAction::Store { path, size } = run.step(measured(&path, size)) {
                            let outcome = stored(&path, size, storable);
                            requested.push(path);
                            if let SeedAction::ReportFile(data) = run.step(outcome) {
                                reports.push(data);
                            }
                        }
                    }
                }
            }
        }
        listed.push(directory);
    }
    (listed, requested, reports, run.result)
}

#[test]
fn a_run_reads_the_whole_tree() {
    let (listed, requested, reports, result) = seeded(listing);
    assert_eq!(listed, vec!["r", "r/gone", "r/a", "r/a/b"]);
    assert_eq!(result, SeedResult { file_count: 4, byte_count: 16, skipped_count: 4 });
    assert_eq!(requested, vec!["r/f", "r/e", "r/a/g", "r/a/h", "r/a/b/k"]);
    let reported: Vec<&str> = reports.iter().map(|report| report.path.as_str()).collect();
    assert_eq!(reported, vec!["r/f", "r/e", "r/a/g", "r/a/b/k"]);
    assert_eq!(reports.iter().map(|report| report.size).sum::<u64>(), 16);
}

#[test]
fn a_bad_file_keeps_the_work() {
    let (listed, requested, reports, result) = seeded(listing);
    let bad: [DiskEntry; 3] = [
        ("r/a/x", "x", Some(EntryKind::File), None, true),
        ("r/a/x", "x", None, None, true),
        ("r/a/x", "x", Some(EntryKind::File), Some(7), false),
    ];
    for (at, file) in bad.into_iter().enumerate() {
        let (listed_with, requested_with, reports_with, result_with) = seeded(|directory| {
            let mut entries = listing(directory)?;
            if directory == "r/a" {
                entries.insert(at, file);
            }
            Some(entries)
        });
        assert_eq!(listed_with, listed);
        assert_eq!(reports_with, reports);
        assert_eq!(
            result_with,
            SeedResult {
                file_count: result.file_count,
                byte_count: result.byte_count,
                skipped_count: result.skipped_count + 1,
            }
        );
        let taken: Vec<String> =
            requested_with.into_iter().filter(|path| path != "r/a/x").collect();
        assert_eq!(taken, requested);
    }
}

#[test]
fn entries_that_are_passed_over_change_nothing() {
    let plain = seeded(listing);
    let with = seeded(|directory| {
        let mut entries = match directory {
            "r/.svn" => vec![("r/.svn/y", "y", Some(EntryKind::File), Some(9), true)],
            _ => listing(directory)?,
        };
        if directory == "r" {
            entries.insert(0, ("r/.svn", ".svn", Some(EntryKind::Directory), None, true));
            entries.insert(3, ("r/link", "link", Some(EntryKind::Other), Some(4), true));
        }
        Some(entries)
    });
    assert_eq!(with, plain);
}

#[test]
fn the_end_is_reported_once() {
    let mut run = walk("r");
    assert!(matches!(run.step(SeedEvent::Advance), SeedAction::List(path) if path == "r"));
    assert!(matches!(
        run.step(entry("r/a", "a", Some(EntryKind::Directory))),
        SeedAction::Proceed
    ));
    assert!(matches!(run.step(SeedEvent::Advance), SeedAction::List(path) if path == "r/a"));
    assert!(matches!(run.step(SeedEvent::Unlisted), SeedAction::Proceed));
    match run.step(SeedEvent::Advance) {
        SeedAction::ReportEnd(data) => {
            assert_eq!(data.file_count, 0);
            assert_eq!(data.byte_count, 0);
            assert_eq!(data.skipped_count, 1);
        }
        _ => panic!("the end is reported when no directory is left"),
    }
}

#[test]
fn a_second_run_changes_nothing() {
    let mut store: BTreeSet<String> = BTreeSet::new();
    let (_, _, reports, first) = seeded(listing);
    store.extend(reports.into_iter().map(|report| report.path));
    let after_first = store.clone();
    let (_, _, reports, second) = seeded(listing);
    store.extend(reports.into_iter().map(|report| report.path));
    assert_eq!(second, first);
    assert_eq!(store, after_first);
    assert_eq!(store.len(), 4);
}

#[test]
fn an_empty_file_is_read_into_the_store() {
    let mut run = walk("r");
    run.step(SeedEvent::Advance);
    run.step(entry("r/empty", "empty", Some(EntryKind::File)));
    assert!(matches!(
        run.step(measured("r/empty", Some(0))),
        SeedAction::Store { path, size: 0 } if path == "r/empty"
    ));
    match run.step(stored("r/empty", 0, true)) {
        SeedAction::ReportFile(data) => assert_eq!(
            data,
            LoreRepositorySeedFileEventData { path: "r/empty".to_string(), size: 0 }
        ),
        _ => panic!("a stored file is reported"),
    }
    assert!(matches!(run.step(SeedEvent::Advance), SeedAction::ReportEnd(_)));
    assert_eq!(run.result, SeedResult { file_count: 1, byte_count: 0, skipped_count: 0 });
}
