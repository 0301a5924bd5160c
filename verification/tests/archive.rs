use super_copier::archive::create::{
    compression_level, create_zip, stored_mode, CreateRun, CreateStep, InspectedStep, OpenedStep,
    WriteEnd,
};
use super_copier::archive::extract::{
    entry_name, extracted_mode, inspect_zip, safe_relative_path, safe_relative_path_on, EntryInfo,
    EntryStep, ExtractRun, ExtractStep, FileStep,
};
use super_copier::archive::{
    archive_name, archive_place, from_zip_time, is_the_archive, partial_path, plan_zip,
    to_zip_time, ArchiveEvent, ArchiveSummary, ClockTime, FoundEntry, FoundKind, ZipOptions,
    ZipSource,
};
use super_copier::paths::FilePath;
use super_copier::{CancelToken, EngineError};

fn path(s: &str) -> FilePath {
    FilePath::parse(s)
}

fn file(size: u64) -> ZipSource {
    ZipSource::File { size, is_archive: false }
}

#[test]
fn safe_relative_path_keeps_good_names_and_refuses_escapes() {
    let ok = |n: &str| safe_relative_path(n).map(|p| p.display().replace('\\', "/"));
    assert_eq!(ok("a/b.txt").as_deref(), Some("a/b.txt"));
    assert_eq!(ok("dir/").as_deref(), Some("dir"));
    assert_eq!(ok("./a//b").as_deref(), Some("a/b"), "empty and . components are dropped");
    assert_eq!(ok("/etc/passwd").as_deref(), Some("etc/passwd"), "absolute paths are re-rooted");
    assert_eq!(ok("win\\style\\file.txt").as_deref(), Some("win/style/file.txt"));
    assert_eq!(ok("café ☕/文件.txt").as_deref(), Some("café ☕/文件.txt"));
    for bad in ["../x", "a/../../x", "a/..", "..\\x", "a\\..\\..\\x", "", "/", "./", "a\0b"] {
        assert_eq!(ok(bad), None, "{bad:?} must be refused");
    }
}

#[test]
fn a_colon_is_refused_on_windows_alone() {
    assert_eq!(safe_relative_path_on("C:/x", true), None);
    assert_eq!(safe_relative_path_on("C:/x", false).unwrap().display(), "C:/x");
    let here = safe_relative_path("C:/x");
    assert_eq!(here.is_some(), !std::path::is_separator('\\'));
}

#[test]
fn colliding_names_are_rejected_before_anything_is_written() {
    let r = plan_zip(&vec![(path("/d/x/report.txt"), file(1)), (path("/d/y/report.txt"), file(1))]);
    assert!(r.unwrap_err().message().contains("report.txt"));
}

#[test]
fn single_files_and_folders_can_be_mixed_and_the_archive_never_contains_itself() {
    let found = |p: &str, kind: FoundKind, is_archive: bool| FoundEntry { path: path(p), kind, size: 1, is_archive };
    let plan = plan_zip(&vec![
        (
            path("/d/docs"),
            ZipSource::Folder(vec![
                found("/d/docs", FoundKind::Folder, false),
                found("/d/docs/one.txt", FoundKind::File, false),
                found("/d/docs/docs.zip", FoundKind::File, true),
                found("/d/docs/link", FoundKind::Special, false),
            ]),
        ),
        (path("/d/loose.txt"), file(1)),
    ])
    .unwrap();
    let names: Vec<String> = plan.iter().filter(|e| !e.is_dir).map(|e| e.name.clone()).collect();
    assert_eq!(names.len(), 2, "only one.txt and loose.txt — not docs.zip itself");
    assert!(names.contains(&"docs/one.txt".to_owned()) && names.contains(&"loose.txt".to_owned()), "{names:?}");
    assert_eq!(plan[0].name, "docs");
    assert!(plan[0].is_dir);
}

#[test]
fn what_was_packed_comes_back_at_the_same_place() {
    let found = |p: &str, kind: FoundKind| FoundEntry { path: path(p), kind, size: 5, is_archive: false };
    let plan = plan_zip(&vec![(
        path("/home/me/photos"),
        ZipSource::Folder(vec![
            found("/home/me/photos", FoundKind::Folder),
            found("/home/me/photos/a.txt", FoundKind::File),
            found("/home/me/photos/sub/deep/café ☕.txt", FoundKind::File),
            found("/home/me/photos/empty_dir", FoundKind::Folder),
        ]),
    )])
    .unwrap();
    let back: Vec<String> = plan
        .iter()
        .map(|e| {
            let stored = if e.is_dir { format!("{}/", e.name) } else { e.name.clone() };
            path("/out").join(&safe_relative_path(&stored).unwrap()).display()
        })
        .collect();
    assert_eq!(
        back,
        vec!["/out/photos", "/out/photos/a.txt", "/out/photos/sub/deep/café ☕.txt", "/out/photos/empty_dir"]
    );
}

#[test]
fn a_source_that_cannot_be_read_fails_the_plan() {
    let e = EngineError::Io { path: path("/gone"), message: "no such file".to_string() };
    let r = plan_zip(&vec![(path("/gone"), ZipSource::Unreadable(e))]);
    assert_eq!(r.unwrap_err().message(), "io error at \"/gone\": no such file");
    assert!(plan_zip(&vec![(path("/dev/null"), ZipSource::Other)]).unwrap().is_empty());
}

#[test]
fn a_cancelled_create_leaves_no_archive_or_partial_file_behind() {
    let plan = plan_zip(&vec![(path("/d/src/big.bin"), file(5_000_000))]).unwrap();
    let (run, started) = CreateRun::new(plan);
    assert_eq!(started, ArchiveEvent::Started { files: 1, bytes: 5_000_000 });
    assert_eq!(run.next(true), CreateStep::Stop);
    assert_eq!(create_zip(Some(&EngineError::Cancelled)), WriteEnd::Discard(Some(ArchiveEvent::Cancelled)));
    assert_eq!(create_zip(Some(&EngineError::Other("x".to_string()))), WriteEnd::Discard(None));
    assert_eq!(partial_path(&path("/d/o.zip")).display(), "/d/o.zip.partial");
}

/// What is done with an archive, from the plan to the end, when the user
/// asks for a stop before the file numbered `stop` or inside of it.
fn pack_until(sources: &Vec<(FilePath, ZipSource)>, stop: usize, inside: bool) -> WriteEnd {
    let mut cancel = CancelToken::new();
    let (mut run, _) = CreateRun::new(plan_zip(sources).unwrap());
    let mut files = 0;
    loop {
        if files == stop && !inside {
            cancel.cancel();
        }
        match run.next(cancel.is_cancelled()) {
            CreateStep::Inspect(_) => {
                run.inspected(None);
                run.opened(None);
                if files == stop {
                    cancel.cancel();
                }
                if let Err(e) = run.go_on(&cancel) {
                    return create_zip(Some(&e));
                }
                run.moved(3, 0);
                run.moved(0, 0);
                files += 1;
            }
            CreateStep::Stop => return create_zip(Some(&EngineError::Cancelled)),
            CreateStep::Done(_) => return create_zip(None),
            other => panic!("{other:?}"),
        }
    }
}

#[test]
fn cancelling_never_clobbers_an_existing_archive() {
    let sources = vec![(
        path("/d/src"),
        ZipSource::Folder(vec![FoundEntry {
            path: path("/d/src/f.txt"),
            kind: FoundKind::File,
            size: 3,
            is_archive: false,
        }]),
    )];
    // Writing goes to another file. A stop throws that one away, so that the
    // old archive stays as it is.
    assert_ne!(partial_path(&path("/d/o.zip")), path("/d/o.zip"));
    assert_eq!(pack_until(&sources, 0, false), WriteEnd::Discard(Some(ArchiveEvent::Cancelled)));
    assert_eq!(pack_until(&sources, 0, true), WriteEnd::Discard(Some(ArchiveEvent::Cancelled)));
    assert_eq!(pack_until(&sources, 9, false), WriteEnd::MoveIntoPlace);
}

#[test]
fn a_stop_is_heeded_inside_a_file_that_is_unpacked() {
    let (mut run, _) = ExtractRun::new(path("/dest"), false, false, vec![entry("big.bin", 1 << 40)]);
    let mut cancel = CancelToken::new();
    assert_eq!(run.next(cancel.is_cancelled()), ExtractStep::Open(0));
    assert_eq!(run.go_on(&cancel), Ok(()));
    cancel.cancel();
    assert_eq!(run.go_on(&cancel), Err(EngineError::Cancelled));
}

#[test]
fn packing_counts_files_and_bytes() {
    let plan = plan_zip(&vec![(path("/a.txt"), file(10)), (path("/b.txt"), file(5)), (path("/c.txt"), file(0))]).unwrap();
    let (mut run, _) = CreateRun::new(plan);
    assert_eq!(run.next(false), CreateStep::Inspect(path("/a.txt")));
    assert_eq!(run.inspected(None), InspectedStep::Open(path("/a.txt")));
    assert_eq!(run.opened(None), OpenedStep::Start { name: "a.txt".to_string(), large: false });
    assert_eq!(run.moved(6, 0), Some(ArchiveEvent::Progress { done: 6, total: 15 }));
    assert_eq!(run.moved(4, 79), None, "told only every so often");
    assert_eq!(run.moved(0, 80), None);
    assert_eq!(
        run.inspected(Some("gone".to_string())),
        InspectedStep::Failed(ArchiveEvent::FileError { path: "b.txt".to_string(), message: "gone".to_string() })
    );
    assert_eq!(run.inspected(None), InspectedStep::Open(path("/c.txt")));
    assert!(matches!(run.opened(Some("locked".to_string())), OpenedStep::Failed(_)));
    assert_eq!(run.next(false), CreateStep::Done(ArchiveEvent::Progress { done: 15, total: 15 }));
    let (summary, event) = run.finished(100);
    assert_eq!(summary, ArchiveSummary { files: 1, skipped: 0, failed: 2, bytes: 10, archive_bytes: 100 });
    assert_eq!(event, ArchiveEvent::Finished(summary));
}

fn entry(name: &str, size: u64) -> EntryInfo {
    EntryInfo { name: name.to_string(), size, compressed: size / 2, is_dir: name.ends_with('/') }
}

/// Extracts entries into `/dest`, where `present` are the files that are there.
fn extract(entries: Vec<EntryInfo>, overwrite: bool, present: &[&str]) -> (ArchiveSummary, Vec<ArchiveEvent>, Vec<String>) {
    let sizes: Vec<u64> = entries.iter().map(|e| e.size).collect();
    let (mut run, started) = ExtractRun::new(path("/dest"), overwrite, false, entries);
    let mut events = vec![started];
    let mut written = Vec::new();
    loop {
        match run.next(false) {
            ExtractStep::Open(i) => match run.opened(None) {
                EntryStep::Failed(e) => events.push(e),
                EntryStep::Folder(_) => events.extend(run.folder_made(None)),
                EntryStep::File(p) => {
                    let shown = p.display();
                    match run.found(present.contains(&shown.as_str())) {
                        FileStep::Skipped(e) => events.push(e),
                        FileStep::Write => {
                            events.extend(run.moved(sizes[i], 0));
                            run.written(Ok(()));
                            written.push(shown);
                        }
                    }
                }
            },
            ExtractStep::Done(e) => {
                events.push(e);
                break;
            }
            ExtractStep::Stop(e) => {
                events.push(e);
                break;
            }
        }
    }
    let (summary, event) = run.finished();
    events.push(event);
    (summary, events, written)
}

#[test]
fn a_folder_makes_the_round_trip() {
    let found = |p: &str, kind: FoundKind| FoundEntry { path: path(p), kind, size: 5, is_archive: false };
    let plan = plan_zip(&vec![(
        path("/home/me/photos"),
        ZipSource::Folder(vec![
            found("/home/me/photos", FoundKind::Folder),
            found("/home/me/photos/a.txt", FoundKind::File),
            found("/home/me/photos/sub", FoundKind::Folder),
            found("/home/me/photos/sub/café ☕.txt", FoundKind::File),
            found("/home/me/photos/empty_dir", FoundKind::Folder),
        ]),
    )])
    .unwrap();
    let (mut run, _) = CreateRun::new(plan);
    let mut stored = Vec::new();
    while let CreateStep::Inspect(_) = run.next(false) {
        match run.inspected(None) {
            InspectedStep::AddDirectory(name) => stored.push(entry(&format!("{name}/"), 0)),
            InspectedStep::Open(_) => {
                if let OpenedStep::Start { name, .. } = run.opened(None) {
                    run.moved(5, 0);
                    run.moved(0, 0);
                    stored.push(entry(&name, 5));
                }
            }
            other => panic!("{other:?}"),
        }
    }
    let (packed, _) = run.finished(100);
    assert_eq!((packed.files, packed.failed), (2, 0));
    let (unpacked, _, written) = extract(stored, false, &[]);
    assert_eq!((unpacked.files, unpacked.failed, unpacked.skipped), (packed.files, 0, 0));
    assert_eq!(written, vec!["/dest/photos/a.txt", "/dest/photos/sub/café ☕.txt"]);
    for mode in [0o100644u32, 0o100755, 0o104777, 0o100400, 0o100000] {
        assert_eq!(extracted_mode(stored_mode(mode)) & 0o7777, (mode & 0o777) | 0o600);
    }
}

#[test]
fn zip_slip_entries_cannot_write_outside_the_destination() {
    let (summary, events, written) = extract(
        vec![
            entry("../escaped.txt", 7),
            entry("sub/../../escaped2.txt", 7),
            entry("/tmp/absolute-escape.txt", 7),
            entry("good.txt", 7),
        ],
        false,
        &[],
    );
    assert!(written.contains(&"/dest/good.txt".to_string()), "the harmless entry still extracts");
    assert!(written.iter().all(|p| p.starts_with("/dest/") && !p.contains("..")));
    assert!(
        written.contains(&"/dest/tmp/absolute-escape.txt".to_string()),
        "absolute path should be re-rooted inside dest"
    );
    assert_eq!(summary.failed, 2);
    assert_eq!(summary.files, 2);
    let unsafe_reports = events
        .iter()
        .filter(|e| matches!(e, ArchiveEvent::FileError { message, .. } if message.contains("unsafe path")))
        .count();
    assert_eq!(unsafe_reports, 2, "each escaping entry is reported, not silently dropped");
}

#[test]
fn existing_files_are_skipped_unless_overwrite_is_on() {
    let (s, events, _) = extract(vec![entry("src/f.txt", 8)], false, &["/dest/src/f.txt"]);
    assert_eq!((s.skipped, s.files), (1, 0));
    assert!(events.iter().any(|e| matches!(e, ArchiveEvent::FileSkipped { .. })));

    let (s, _, _) = extract(vec![entry("src/f.txt", 8)], true, &["/dest/src/f.txt"]);
    assert_eq!((s.skipped, s.files), (0, 1));
}

#[test]
fn extract_reports_full_progress_and_can_be_cancelled() {
    let (_, events, _) = extract(vec![entry("src/", 0), entry("src/a.bin", 2_000_000)], false, &[]);
    assert!(events
        .iter()
        .any(|e| matches!(e, ArchiveEvent::Progress { done, total } if done == total && *total == 2_000_000)));

    let (run, _) = ExtractRun::new(path("/nope"), false, false, vec![entry("a", 1)]);
    assert_eq!(run.next(true), ExtractStep::Stop(ArchiveEvent::Cancelled));
}

#[test]
fn symlink_entries_become_plain_files_and_setuid_bits_are_dropped() {
    assert_eq!(extracted_mode(0o104755) & 0o7000, 0, "setuid/setgid/sticky must be stripped");
    assert_eq!(extracted_mode(0o104755) & 0o777, 0o755);
    assert_eq!(stored_mode(0o100755), 0o755);
}

#[test]
fn level_zero_stores_without_compressing() {
    assert_eq!(compression_level(&ZipOptions { level: 0 }), None);
    assert_eq!(compression_level(&ZipOptions { level: 6 }), Some(6));
    assert_eq!(compression_level(&ZipOptions { level: 200 }), Some(9));
    assert_eq!(ZipOptions::default().level, 6);
}

#[test]
fn an_archive_is_summed_up() {
    let info = inspect_zip(&vec![entry("d/", 0), entry("d/a", 10), entry("d/b", 20)]);
    assert_eq!((info.entries, info.files, info.uncompressed, info.compressed), (3, 2, 30, 15));
}

#[test]
fn stored_times_read_back_to_even_seconds() {
    let t = ClockTime { year: 2020, month: 9, day: 13, hour: 12, minute: 26, second: 40 };
    let stored = to_zip_time(&t).unwrap();
    assert_eq!(from_zip_time(&stored), Some(stored));
    assert_eq!((stored.year, stored.hour, stored.second), (2020, 12, 40));
    assert_eq!(to_zip_time(&ClockTime { year: 1979, ..t }), None, "the format starts in 1980");
    assert_eq!(from_zip_time(&ClockTime { month: 2, day: 30, ..t }), None);
    assert_eq!(from_zip_time(&ClockTime { hour: 24, ..t }), None);
}

#[test]
fn old_names_are_kept_where_they_are_not_utf8() {
    assert_eq!(entry_name("naïve".as_bytes().to_vec(), "x".to_string()), "naïve");
    assert_eq!(entry_name(vec![0x6e, 0x8b], "n\u{ef}".to_string()), "n\u{ef}");
}

#[test]
fn the_archive_is_told_by_name_and_place() {
    let dest = path("/d/docs.zip");
    let place = archive_place(&dest, Some(path("/real")));
    assert_eq!(place, Some(path("/real/docs.zip")));
    assert!(is_the_archive(&path("/link/docs.zip"), &place, &dest, &place));
    assert!(!is_the_archive(&path("/d/other.zip"), &place, &dest, &place));
    assert!(!is_the_archive(&path("/d/docs.zip"), &None, &dest, &place));
    assert_eq!(archive_name(&path("a/b/c.txt")), "a/b/c.txt");
}
