use super_copier::big_folders::{BigFolderEvent, BigFoldersOptions, BigFoldersRun};
use super_copier::bootable::Os;
use super_copier::calendar::folder_of_timestamp;
use super_copier::copy::{
    after_check, after_copy, after_hashes, after_parent, clone_not_possible, copy_one_file,
    copy_route, may_remove_originals, plan_copy, started, thread_count, CopyEvent, CopyOptions,
    CopyRoute, CopySummary, FileAsk, MoveRun, MoveTreeStep, OverwritePolicy,
    PlanResult, PlannedFile, SourceInfo,
};
use super_copier::diskusage::{disk_space, drive_usage, DiskSpace};
use super_copier::drives::{list_drives, DriveProbe};
use super_copier::duplicates::{
    collisions, hashing_event, total_candidates, DupEvent, DupOptions, DupRun, DupStep,
    PARTIAL_HASH_BYTES,
};
use super_copier::fsops::{
    after_rename, apply_rename_pattern, batch_target, category_for_extension, date_folder_name,
    is_cross_device, rename_target, BatchRun, BatchStep, MoveStep, OrganizeEvent, OrganizeRun, OrganizeStep,
    OrganizeStrategy, RenameOutcome, System, TreeCopy,
};
use super_copier::hash::{same_hash, to_hex, FullHash, PartialHash};
use super_copier::large_files::{LargeFileEvent, LargeFilesOptions, LargeFilesRun};
use super_copier::paths::FilePath;
use super_copier::platform::{ChunkedCopy, OpenHow};
use super_copier::search::{SearchEvent, SearchOptions, SearchRun, VisitKind};
use super_copier::sync::{
    accepted, plan_sync, snapshot, Entry, SyncEvent, SyncOutcome, SyncRun, SyncStep, SyncSummary,
};
use super_copier::{io_err, CancelToken, EngineError};

fn path(s: &str) -> FilePath {
    FilePath::parse(s)
}

fn shown(list: &[FilePath]) -> Vec<String> {
    list.iter().map(|p| p.display()).collect()
}

/// Copies planned files one after the other and records how each of them
/// went; `there` are the sizes of the destinations that exist.
fn copy_into(
    result: &mut PlanResult,
    plan: &[PlannedFile],
    options: &CopyOptions,
    there: &[(&str, u64)],
) -> Vec<CopyEvent> {
    let mut events = Vec::new();
    for file in plan {
        let mut ask = copy_one_file(file);
        let outcome = loop {
            ask = match ask {
                FileAsk::CreateParent(_) => after_parent(Ok(())),
                FileAsk::CheckDestination => {
                    let found = there.iter().find(|t| path(t.0) == file.dst).map(|t| Some(t.1));
                    let (event, next) = after_check(file, options, Os::Linux, found);
                    events.extend(event);
                    next
                }
                FileAsk::RemoveDestination => {
                    let (event, next) = super_copier::copy::after_remove(file, options, Os::Linux);
                    events.push(event);
                    next
                }
                FileAsk::Copy(_) => {
                    let (event, next) = after_copy(file, options, Ok(file.size));
                    events.extend(event);
                    next
                }
                FileAsk::SetTimes => {
                    let (event, next) = super_copier::copy::after_times(file, options, file.size);
                    events.extend(event);
                    next
                }
                FileAsk::HashBoth => {
                    let (more, next) = after_hashes(file, file.size, Ok(([1; 32], [1; 32])));
                    events.extend(more);
                    next
                }
                FileAsk::Finished(outcome) => break outcome,
            };
        };
        events.extend(result.record(file, outcome));
    }
    events
}

fn copy_all(plan: &[PlannedFile], options: &CopyOptions, there: &[(&str, u64)]) -> (CopySummary, Vec<CopyEvent>) {
    let mut result = PlanResult::new();
    let mut events = copy_into(&mut result, plan, options, there);
    let (summary, event) = result.finish();
    events.push(event);
    (summary, events)
}

fn tree() -> Vec<(FilePath, SourceInfo)> {
    vec![
        (path("/src/a.txt"), SourceInfo::File(5)),
        (path("/src/nested"), SourceInfo::Folder(vec![(path("/src/nested/b.txt"), 5)])),
    ]
}

#[test]
fn copy_tree_copies_files_and_nested_dirs() {
    let plan = plan_copy(&tree(), &path("/dst")).unwrap();
    assert_eq!(started(&plan), CopyEvent::Started { total_files: 2, total_bytes: 10 });
    let (summary, _) = copy_all(&plan, &CopyOptions::default(), &[]);
    assert_eq!(summary.files_copied, 2);
    assert_eq!(summary.files_failed, 0);
    let to: Vec<String> = plan.iter().map(|f| f.dst.display()).collect();
    assert_eq!(to, vec!["/dst/a.txt", "/dst/nested/b.txt"]);
}

#[test]
fn the_largest_file_is_copied_first() {
    let sizes = vec![
        (path("/s/small"), SourceInfo::File(1)),
        (path("/s/large"), SourceInfo::File(900)),
        (path("/s/medium"), SourceInfo::File(30)),
    ];
    let plan = plan_copy(&sizes, &path("/d")).unwrap();
    let to: Vec<String> = plan.iter().map(|f| f.dst.display()).collect();
    assert_eq!(to, vec!["/d/large", "/d/medium", "/d/small"]);
}

#[test]
fn copy_tree_skips_already_copied_files_on_rerun() {
    let plan = plan_copy(&vec![(path("/src/a.txt"), SourceInfo::File(5))], &path("/dst")).unwrap();
    let options = CopyOptions { overwrite: OverwritePolicy::SkipIfSameSize, ..CopyOptions::default() };
    let (first, _) = copy_all(&plan, &options, &[]);
    assert_eq!(first.files_copied, 1);
    let (second, events) = copy_all(&plan, &options, &[("/dst/a.txt", 5)]);
    assert_eq!(second.files_copied, 0);
    assert_eq!(second.files_skipped, 1);
    assert_eq!(
        events[0],
        CopyEvent::FileSkipped { path: path("/src/a.txt"), reason: "already copied (same size)".to_string() }
    );
    let (other_size, _) = copy_all(&plan, &options, &[("/dst/a.txt", 4)]);
    assert_eq!(other_size.files_copied, 1);
    let skip = CopyOptions { overwrite: OverwritePolicy::Skip, ..CopyOptions::default() };
    let (skipped, events) = copy_all(&plan, &skip, &[("/dst/a.txt", 4)]);
    assert_eq!(skipped.files_skipped, 1);
    assert_eq!(
        events[0],
        CopyEvent::FileSkipped { path: path("/src/a.txt"), reason: "destination exists".to_string() }
    );
}

#[test]
fn copy_tree_with_verify_produces_byte_identical_output() {
    let plan = plan_copy(&vec![(path("/src/a.bin"), SourceInfo::File(200_000))], &path("/dst")).unwrap();
    let options = CopyOptions { verify: true, ..CopyOptions::default() };
    let (summary, events) = copy_all(&plan, &options, &[]);
    assert_eq!(summary.files_copied, 1);
    assert_eq!(summary.files_failed, 0);
    assert_eq!(summary.bytes_copied, 200_000);
    assert!(events.contains(&CopyEvent::FileVerified { path: path("/src/a.bin") }));

    let (_, ask) = after_hashes(&plan[0], 200_000, Ok(([1; 32], [2; 32])));
    match ask {
        FileAsk::Finished(Err(e)) => assert_eq!(e.message(), "verification failed for /src/a.bin"),
        other => panic!("{other:?}"),
    }
}

#[test]
fn an_unreadable_source_fails_the_copy_before_it_starts() {
    let e = io_err(&path("/gone"), "no such file".to_string());
    let r = plan_copy(&vec![(path("/gone"), SourceInfo::Unreadable(e))], &path("/dst"));
    assert_eq!(r.unwrap_err().message(), "io error at \"/gone\": no such file");
    assert!(plan_copy(&vec![(path("/x"), SourceInfo::Other)], &path("/dst")).unwrap().is_empty());
}

#[test]
fn failures_are_counted_and_told() {
    let plan = plan_copy(&tree(), &path("/dst")).unwrap();
    let mut result = PlanResult::new();
    let event = result.record(&plan[0], Err(EngineError::Other("disk full".to_string())));
    assert_eq!(
        event,
        Some(CopyEvent::FileError { path: plan[0].src.clone(), message: "disk full".to_string() })
    );
    assert_eq!(result.record(&plan[1], Err(EngineError::Cancelled)), None);
    assert!(!may_remove_originals(&result));
    assert_eq!(result.finish().1, CopyEvent::Cancelled);
    assert_eq!(PlanResult::all_failed(&plan).files_failed, 2);
}

#[test]
fn files_are_copied_by_the_best_route() {
    let fast = CopyOptions::default();
    let slow = CopyOptions { use_fast_path: false, ..CopyOptions::default() };
    assert_eq!(copy_route(Os::MacOs, &fast), CopyRoute::Clone);
    assert_eq!(copy_route(Os::Windows, &fast), CopyRoute::System);
    assert_eq!(copy_route(Os::Linux, &fast), CopyRoute::Chunked);
    assert_eq!(copy_route(Os::MacOs, &slow), CopyRoute::Chunked);
    assert!(clone_not_possible(Some(45), &vec![45, 18]));
    assert!(!clone_not_possible(Some(2), &vec![45, 18]));
    assert!(!clone_not_possible(None, &vec![45, 18]));
    assert_eq!(thread_count(3, Some(16)), 3);
    assert_eq!(thread_count(0, Some(16)), 8);
    assert_eq!(thread_count(0, Some(1)), 2);
    assert_eq!(thread_count(0, None), 4);
}

#[test]
fn a_chunked_copy_can_resume() {
    let mut fresh = ChunkedCopy::new(100, None);
    assert_eq!(fresh.open_how(), OpenHow::Create);
    assert_eq!(fresh.moved(60), Some(60));
    assert_eq!(fresh.moved(40), Some(100));
    assert_eq!(fresh.moved(0), None);
    assert_eq!(fresh.copied, 100);
    let resumed = ChunkedCopy::new(100, Some(30));
    assert_eq!(resumed.open_how(), OpenHow::Resume { offset: 30 });
    let mut cancel = CancelToken::new();
    assert!(resumed.go_on(&cancel).is_ok());
    cancel.cancel();
    assert_eq!(resumed.go_on(&cancel), Err(EngineError::Cancelled));
}

#[test]
fn a_copy_that_was_stopped_is_copied_again() {
    let plan = plan_copy(&vec![(path("/src/a.bin"), SourceInfo::File(100))], &path("/dst")).unwrap();
    let mut stopped = ChunkedCopy::new(100, None);
    stopped.moved(60);
    // The destination was created empty and holds what was moved.
    let left = [("/dst/a.bin", stopped.copied)];
    for overwrite in [OverwritePolicy::SkipIfSameSize, OverwritePolicy::Always] {
        let options = CopyOptions { overwrite, ..CopyOptions::default() };
        let (summary, _) = copy_all(&plan, &options, &left);
        assert_eq!((summary.files_copied, summary.files_skipped), (1, 0));
        assert_eq!(summary.bytes_copied, 100);
    }
}

/// Runs a plan over a tree of files at their destinations. Contents move ten
/// bytes at a time; when `budget` bytes have moved, the user asks for a stop.
fn copy_tree_until(
    plan: &[PlannedFile],
    contents: &[(&str, Vec<u8>)],
    tree: &mut Vec<(String, Vec<u8>)>,
    mut budget: usize,
) -> CopySummary {
    let options = CopyOptions::default();
    let mut cancel = CancelToken::new();
    let mut result = PlanResult::new();
    for file in plan {
        if cancel.is_cancelled() {
            result.not_started();
            continue;
        }
        let source = &contents.iter().find(|c| path(c.0) == file.src).unwrap().1;
        let dst = file.dst.display();
        let mut ask = copy_one_file(file);
        let outcome = loop {
            ask = match ask {
                FileAsk::CreateParent(_) => after_parent(Ok(())),
                FileAsk::CheckDestination => {
                    let found = tree.iter().find(|f| f.0 == dst).map(|f| Some(f.1.len() as u64));
                    after_check(file, &options, Os::Linux, found).1
                }
                FileAsk::RemoveDestination => {
                    tree.retain(|f| f.0 != dst);
                    super_copier::copy::after_remove(file, &options, Os::Linux).1
                }
                FileAsk::Copy(route) => {
                    assert_eq!(route, CopyRoute::Chunked);
                    let mut copy = ChunkedCopy::new(file.size, None);
                    assert_eq!(copy.open_how(), OpenHow::Create);
                    tree.push((dst.clone(), Vec::new()));
                    let moved = loop {
                        if budget == 0 {
                            cancel.cancel();
                        }
                        if let Err(e) = copy.go_on(&cancel) {
                            break Err(e);
                        }
                        let at = copy.copied as usize;
                        let n = 10.min(source.len() - at).min(budget);
                        tree.last_mut().unwrap().1.extend_from_slice(&source[at..at + n]);
                        budget -= n;
                        if copy.moved(n as u64).is_none() {
                            break Ok(copy.copied);
                        }
                    };
                    after_copy(file, &options, moved).1
                }
                FileAsk::SetTimes => super_copier::copy::after_times(file, &options, file.size).1,
                FileAsk::HashBoth => unreachable!(),
                FileAsk::Finished(outcome) => break outcome,
            };
        };
        result.record(file, outcome);
    }
    result.finish().0
}

#[test]
fn an_interrupted_copy_is_completed_wherever_it_stopped() {
    let contents: Vec<(&str, Vec<u8>)> = vec![
        ("/src/a.bin", (0..25).collect()),
        ("/src/nested/b.bin", (100..140).collect()),
        ("/src/nested/empty", Vec::new()),
    ];
    let sources = vec![
        (path("/src/a.bin"), SourceInfo::File(25)),
        (
            path("/src/nested"),
            SourceInfo::Folder(vec![(path("/src/nested/b.bin"), 40), (path("/src/nested/empty"), 0)]),
        ),
    ];
    let plan = plan_copy(&sources, &path("/dst")).unwrap();
    let mut complete: Vec<(String, Vec<u8>)> =
        contents.iter().map(|c| (c.0.replace("/src", "/dst"), c.1.clone())).collect();
    complete.sort();
    for budget in 0..=65 {
        let mut tree = vec![("/dst/a.bin".to_string(), vec![7; 3])];
        copy_tree_until(&plan, &contents, &mut tree, budget);
        let summary = copy_tree_until(&plan, &contents, &mut tree, 1000);
        assert_eq!(summary.files_failed, 0);
        tree.sort();
        assert_eq!(tree, complete, "stopped after {budget} bytes");
    }
}

/// Moves sources; `taken` are the sizes of the destinations that exist, so
/// that a rename cannot be used. Gives the summary and the originals that are
/// gone.
fn move_all(
    sources: Vec<(FilePath, SourceInfo)>,
    taken: &[(&str, u64)],
    overwrite: OverwritePolicy,
) -> (CopySummary, Vec<String>) {
    let plan = plan_copy(&sources, &path("/dst")).unwrap();
    let mut run = MoveRun::new(path("/dst"), sources.into_iter().map(|s| s.0).collect(), plan);
    let mut gone = Vec::new();
    let mut rest = Vec::new();
    loop {
        match run.next(false) {
            MoveTreeStep::TryRename { src, dst } => {
                let free = !taken.iter().any(|t| path(t.0) == dst);
                if free {
                    gone.push(src.display());
                } else {
                    rest.push(src.display());
                }
                run.renamed(free);
            }
            MoveTreeStep::CopyRest => break,
            _ => {}
        }
    }
    let options = CopyOptions { overwrite, ..CopyOptions::default() };
    let mut result = PlanResult::new();
    copy_into(&mut result, &run.fallback_plan, &options, taken);
    if may_remove_originals(&result) {
        gone.append(&mut rest);
    }
    (run.finish(&result).0, gone)
}

#[test]
fn move_tree_moves_files_and_removes_originals() {
    let (summary, gone) = move_all(tree(), &[], CopyOptions::default().overwrite);
    assert_eq!(summary.files_copied, 2);
    assert_eq!(summary.files_failed, 0);
    assert_eq!(gone, vec!["/src/a.txt", "/src/nested"]);
}

#[test]
fn move_tree_falls_back_and_still_removes_original_when_dest_name_taken() {
    let sources = vec![(path("/src/a.txt"), SourceInfo::File("new content".len() as u64))];
    let taken = [("/dst/a.txt", "old content".len() as u64)];
    let (summary, gone) = move_all(sources, &taken, OverwritePolicy::Always);
    assert_eq!(summary.files_copied, 1);
    assert_eq!(summary.files_failed, 0);
    assert_eq!(summary.bytes_copied, 11);
    assert_eq!(gone, vec!["/src/a.txt"]);
}

#[test]
fn a_move_keeps_the_originals_of_files_that_were_not_copied() {
    let sources = || vec![(path("/src/a.txt"), SourceInfo::File("new content".len() as u64))];
    let taken = [("/dst/a.txt", "old content".len() as u64)];
    for overwrite in [OverwritePolicy::SkipIfSameSize, OverwritePolicy::Skip] {
        let (summary, gone) = move_all(sources(), &taken, overwrite);
        assert_eq!((summary.files_copied, summary.files_skipped), (0, 1));
        assert!(gone.is_empty(), "the destination may hold something else");
    }
    let (summary, gone) = move_all(sources(), &[("/dst/a.txt", 3)], OverwritePolicy::SkipIfSameSize);
    assert_eq!(summary.files_copied, 1);
    assert_eq!(gone, vec!["/src/a.txt"]);
}

#[test]
fn apply_rename_pattern_expands_all_tokens() {
    assert_eq!(apply_rename_pattern("{name}.{ext}", "photo", "jpg", 1), "photo.jpg");
    assert_eq!(apply_rename_pattern("vacation_{nnn}.{ext}", "img1234", "png", 7), "vacation_007.png");
    assert_eq!(apply_rename_pattern("{n}_{name}", "a", "", 12), "12_a");
}

#[test]
fn other_tokens_stay_as_they_are() {
    assert_eq!(apply_rename_pattern("{date}-{nn}", "a", "b", 123), "{date}-123");
    assert_eq!(apply_rename_pattern("{", "a", "b", 1), "{");
    assert_eq!(apply_rename_pattern("{}", "a", "b", 1), "{}");
}

#[test]
fn what_a_token_puts_in_is_not_looked_at_again() {
    assert_eq!(apply_rename_pattern("{name}", "a{n}", "txt", 7), "a{n}");
    assert_eq!(apply_rename_pattern("{name}.{ext}", "{ext}", "txt", 7), "{ext}.txt");
    assert_eq!(apply_rename_pattern("{ext}_{nn}", "a", "{name}", 7), "{name}_07");
    assert_eq!(apply_rename_pattern("{{name}}", "n", "txt", 7), "{n}");
}

/// Renames files by a pattern; those in `stuck` cannot be renamed. Gives the
/// renames that were made, and how the batch ended.
fn rename_all(names: &[&str], pattern: &str, stuck: &[&str]) -> (Vec<(String, String)>, Result<Vec<String>, String>) {
    let mut run = BatchRun::new(names.iter().map(|n| path(n)).collect(), pattern.to_string());
    let mut made = Vec::new();
    loop {
        match run.next() {
            BatchStep::Rename { from, to } => {
                if stuck.iter().any(|s| path(s) == from) {
                    run.tried(to, Err(io_err(&from, "busy".to_string())));
                } else {
                    made.push((from.display(), to.display()));
                    run.tried(to, Ok(()));
                }
            }
            BatchStep::Stopped | BatchStep::Done => break,
        }
    }
    let end = match run.finish() {
        Ok(renamed) => Ok(shown(&renamed)),
        Err(e) => Err(e.message()),
    };
    (made, end)
}

#[test]
fn rename_batch_renames_in_order() {
    let (made, renamed) = rename_all(&["/d/one.txt", "/d/two.txt"], "item_{nn}.{ext}", &[]);
    let renamed = renamed.unwrap();
    assert_eq!(path(&renamed[0]).file_name().unwrap(), "item_01.txt");
    assert_eq!(path(&renamed[1]).file_name().unwrap(), "item_02.txt");
    let pair = |a: &str, b: &str| (a.to_string(), b.to_string());
    assert_eq!(made, vec![pair("/d/one.txt", "/d/item_01.txt"), pair("/d/two.txt", "/d/item_02.txt")]);
}

#[test]
fn a_batch_stops_at_the_first_failure() {
    let (made, end) = rename_all(&["/d/a", "/d/b", "/d/c"], "{n}", &["/d/b"]);
    assert_eq!(made, vec![("/d/a".to_string(), "/d/1".to_string())], "what was renamed stays so");
    assert_eq!(end, Err("io error at \"/d/b\": busy".to_string()));
    let (made, end) = rename_all(&["/d/a", "/", "/d/c"], "{n}", &[]);
    assert_eq!(made.len(), 1);
    assert_eq!(end, Err("no parent for /".to_string()));
    assert_eq!(rename_all(&[], "{n}", &[]), (vec![], Ok(vec![])));
    assert_eq!(batch_target(&path("/"), "x", 0).unwrap_err().message(), "no parent for /");
    assert_eq!(rename_target(&path("/d/x"), "y").unwrap().display(), "/d/y");
}

#[test]
fn a_move_across_drives_copies() {
    assert!(is_cross_device(Some(18), System::Unix));
    assert!(is_cross_device(Some(17), System::Windows));
    assert!(!is_cross_device(Some(18), System::Other));
    let refused = |code: i32| RenameOutcome::Refused { code: Some(code), message: "no".to_string() };
    assert_eq!(after_rename(&path("/a"), RenameOutcome::Renamed, System::Unix), MoveStep::Finished);
    assert_eq!(after_rename(&path("/a"), refused(18), System::Unix), MoveStep::CopyThenRemove);
    match after_rename(&path("/a"), refused(13), System::Unix) {
        MoveStep::Fail(e) => assert_eq!(e.message(), "io error at \"/a\": no"),
        other => panic!("{other:?}"),
    }
    let mut copy = TreeCopy::new(&path("/s"), &path("/d"));
    let (s, d) = copy.next().unwrap();
    copy.entered(&s, &d, &vec!["x".to_string(), "y".to_string()]);
    assert_eq!(copy.next(), Some((path("/s/y"), path("/d/y"))));
    assert_eq!(copy.next(), Some((path("/s/x"), path("/d/x"))));
    assert_eq!(copy.next(), None);
}

#[test]
fn organize_dir_sorts_files_by_extension_category() {
    let entries = vec![path("/d/photo.jpg"), path("/d/report.pdf"), path("/d/mystery.xyz")];
    let mut run = OrganizeRun::new(path("/d"), OrganizeStrategy::ByExtension, entries);
    let mut placed = Vec::new();
    loop {
        match run.next(false, Ok(0)) {
            OrganizeStep::Move { from, to } => {
                placed.push(to.display());
                let event = run.moved(from.clone(), to.clone(), Ok(()));
                assert_eq!(event, OrganizeEvent::FileMoved { from, to });
            }
            OrganizeStep::Done => break,
            other => panic!("{other:?}"),
        }
    }
    let (event, summary) = run.finished();
    assert_eq!(summary.moved, 3);
    assert_eq!(event, OrganizeEvent::Finished { moved: 3 });
    assert_eq!(placed, vec!["/d/Images/photo.jpg", "/d/Documents/report.pdf", "/d/Other/mystery.xyz"]);
}

#[test]
fn files_can_be_sorted_by_date() {
    let mut run = OrganizeRun::new(path("/d"), OrganizeStrategy::ByExtensionAndDate, vec![path("/d/a.PNG"), path("/d/b.png")]);
    match run.next(false, Ok(1_600_000_000)) {
        OrganizeStep::Move { to, .. } => assert_eq!(to.display(), "/d/Images/2020-09/a.PNG"),
        other => panic!("{other:?}"),
    }
    match run.next(false, Ok(i64::MAX)) {
        OrganizeStep::Stop(e) => assert_eq!(e.message(), "invalid mtime"),
        other => panic!("{other:?}"),
    }
    let mut cancelled = OrganizeRun::new(path("/d"), OrganizeStrategy::ByDate, vec![path("/d/a.png")]);
    assert_eq!(cancelled.next(true, Ok(0)), OrganizeStep::Stop(EngineError::Cancelled));
    assert_eq!(date_folder_name(Ok(0)), Ok("1970-01".to_string()));
    assert_eq!(category_for_extension("MP3"), category_for_extension("mp3"));
}

#[test]
fn timestamps_fall_into_months() {
    assert_eq!(folder_of_timestamp(1_600_000_000).as_deref(), Some("2020-09"));
    assert_eq!(folder_of_timestamp(-1).as_deref(), Some("1969-12"));
    assert_eq!(folder_of_timestamp(951_782_400).as_deref(), Some("2000-02"));
    assert_eq!(folder_of_timestamp(i64::MAX), None);
}

fn full_hash(bytes: &[u8]) -> [u8; 32] {
    let mut h = FullHash::new();
    for piece in bytes.chunks(7) {
        h.absorb(piece);
    }
    h.finish()
}

fn partial_hash(bytes: &[u8]) -> [u8; 32] {
    let mut h = PartialHash::new(PARTIAL_HASH_BYTES);
    let mut at = 0;
    loop {
        let n = h.want().min(bytes.len() - at);
        if n == 0 {
            break;
        }
        h.absorb(&bytes[at..at + n]);
        at += n;
    }
    h.finish()
}

#[test]
fn hashes_are_those_of_blake3() {
    assert_eq!(full_hash(b"hello"), *blake3::hash(b"hello").as_bytes());
    assert_eq!(full_hash(b""), *blake3::hash(b"").as_bytes());
    let long = vec![9u8; PARTIAL_HASH_BYTES + 10];
    assert_eq!(partial_hash(&long), *blake3::hash(&long[..PARTIAL_HASH_BYTES]).as_bytes());
    assert_eq!(partial_hash(b"short"), full_hash(b"short"));
    assert_eq!(to_hex(&[0, 255, 16]), "00ff10");
    assert!(same_hash(&None, &None));
    assert!(!same_hash(&Some([1; 32]), &None));
}

#[test]
fn find_duplicates_groups_identical_files_only() {
    let files: [(&str, &[u8]); 3] = [
        ("/d/a.txt", b"same content here"),
        ("/d/b.txt", b"same content here"),
        ("/d/c.txt", b"different content"),
    ];
    let contents = |p: &FilePath| files.iter().find(|f| path(f.0) == *p).unwrap().1;
    let mut run = DupRun::new(DupOptions { min_size: 0 });
    for (name, bytes) in &files {
        run.found(path(name), bytes.len() as u64);
    }
    assert_eq!(run.scanned(), DupEvent::Scanning { files_found: 3 });
    assert_eq!(total_candidates(&run.classes), 3);
    let mut groups = Vec::new();
    loop {
        match run.next(false) {
            DupStep::Class(class) => {
                let partials = class.paths.iter().map(|p| Some(partial_hash(contents(p)))).collect();
                for group in collisions(&class.paths, &partials) {
                    let fulls = group.iter().map(|p| Some(full_hash(contents(p)))).collect();
                    groups.extend(run.confirm(class.size, &group, &fulls));
                }
            }
            DupStep::Done => break,
            DupStep::Stop => unreachable!(),
        }
    }
    assert_eq!(groups.len(), 1);
    assert_eq!(groups[0].paths.len(), 2);
    assert_eq!(shown(&groups[0].paths), vec!["/d/a.txt", "/d/b.txt"]);
    assert_eq!(groups[0].hash, to_hex(&full_hash(b"same content here")));
    assert_eq!(run.finished(), DupEvent::Finished { groups: 1, wasted_bytes: 17 });
    assert_eq!(hashing_event(50, 100), Some(DupEvent::Hashing { done: 50, total: 100 }));
    assert_eq!(hashing_event(51, 100), None);
}

#[test]
fn small_files_and_unreadable_ones_are_no_duplicates() {
    let mut run = DupRun::new(DupOptions { min_size: 10 });
    assert_eq!(run.found(path("/a"), 9), None);
    assert_eq!(run.files_found, 0);
    let none = collisions(&vec![path("/a"), path("/b")], &vec![None, None]);
    assert!(none.is_empty());
    let mut cancelled = DupRun::new(DupOptions::default());
    cancelled.found(path("/a"), 5000);
    cancelled.found(path("/b"), 5000);
    cancelled.scanned();
    assert!(matches!(cancelled.next(true), DupStep::Stop));
}

fn entries(root: &str, files: &[(&str, u64, i64)]) -> super_copier::sync::Snapshot {
    let found = files
        .iter()
        .map(|f| (path(root).join_text(f.0), Some(Entry { size: f.1, mtime: f.2 })))
        .collect();
    snapshot(&path(root), &found)
}

fn sync(src: &[(&str, u64, i64)], dst: &[(&str, u64, i64)], mirror: bool) -> (SyncSummary, Vec<SyncEvent>) {
    let plan = plan_sync(&entries("/s", src), &entries("/d", dst), mirror);
    let mut run = SyncRun::new(path("/s"), path("/d"), plan);
    let mut events = vec![run.planned()];
    loop {
        match run.next(false) {
            SyncStep::Copy { from, to } => {
                events.push(run.copied(from, to, SyncOutcome::Copied { bytes: 4, same: true }))
            }
            SyncStep::Delete(p) => events.push(run.deleted(p, Ok(()))),
            SyncStep::Done => break,
            SyncStep::Stop => unreachable!(),
        }
    }
    let (event, summary) = run.finished();
    events.push(event);
    (summary, events)
}

#[test]
fn sync_dirs_copies_then_mirrors_deletions() {
    let both = [("keep.txt", 4, 100), ("remove_me.txt", 4, 100)];
    let (summary, _) = sync(&both, &[], false);
    assert_eq!(summary.copied, 2);

    let keep = [("keep.txt", 4, 100)];
    let (summary2, events) = sync(&keep, &both, true);
    assert_eq!(summary2.deleted, 1);
    assert_eq!(summary2.copied, 0);
    assert!(events.contains(&SyncEvent::FileDeleted { path: path("/d/remove_me.txt") }));
    let (summary3, _) = sync(&keep, &both, false);
    assert_eq!(summary3.deleted, 0, "nothing is deleted without mirroring");
}

#[test]
fn a_changed_file_is_updated_and_a_second_sync_does_nothing() {
    let (summary, _) = sync(&[("a", 5, 100)], &[("a", 4, 100)], false);
    assert_eq!((summary.copied, summary.updated), (0, 1));
    let (newer, _) = sync(&[("a", 4, 200)], &[("a", 4, 100)], false);
    assert_eq!(newer.updated, 1);
    let (again, events) = sync(&[("a", 4, 100)], &[("a", 4, 100)], true);
    assert_eq!(again, SyncSummary::default());
    assert_eq!(events[0], SyncEvent::Planned { to_copy: 0, to_update: 0, to_delete: 0 });
}

#[test]
fn a_mirror_takes_the_older_file_too() {
    let (plain, _) = sync(&[("a", 4, 100)], &[("a", 4, 200)], false);
    assert_eq!(plain, SyncSummary::default(), "a later destination is left alone");
    let (mirror, events) = sync(&[("a", 4, 100)], &[("a", 4, 200)], true);
    assert_eq!((mirror.copied, mirror.updated, mirror.deleted), (0, 1, 0));
    assert_eq!(events[0], SyncEvent::Planned { to_copy: 0, to_update: 1, to_delete: 0 });
}

#[test]
fn a_compared_copy_is_accepted_only_when_both_hashes_agree() {
    let one = Some([1u8; 32]);
    let other = Some([2u8; 32]);
    assert!(accepted(true, &one, &one));
    assert!(!accepted(true, &one, &other));
    assert!(!accepted(true, &None, &one));
    assert!(!accepted(true, &one, &None));
    assert!(!accepted(true, &None, &None));
    assert!(accepted(false, &one, &other));
    assert!(accepted(false, &None, &None));
}

#[test]
fn failed_files_of_a_sync_are_told() {
    let plan = plan_sync(&entries("/s", &[("a", 1, 1)]), &entries("/d", &[("x", 1, 1)]), true);
    let mut run = SyncRun::new(path("/s"), path("/d"), plan);
    let event = run.copied(path("/s/a"), path("/d/a"), SyncOutcome::Copied { bytes: 1, same: false });
    assert_eq!(event, SyncEvent::FileError { path: path("/s/a"), message: "verification mismatch".to_string() });
    let event = run.deleted(path("/d/x"), Err(EngineError::Other("busy".to_string())));
    assert_eq!(event, SyncEvent::FileError { path: path("/d/x"), message: "busy".to_string() });
    assert_eq!(run.finished().1.failed, 2);
    assert_eq!(run.next(true), SyncStep::Done, "nothing is left to cancel");
}

#[test]
fn find_large_files_returns_only_files_over_the_threshold_sorted_desc() {
    let mut run = LargeFilesRun::new(LargeFilesOptions { min_size: 1_000 });
    for (name, size) in [("/d/small.txt", 10), ("/d/medium.bin", 5_000), ("/d/large.bin", 20_000)] {
        assert_eq!(run.scanned(), None);
        run.sized(path(name), size);
    }
    let (results, event) = run.finish();
    assert_eq!(results.len(), 2);
    assert_eq!(results[0].path.file_name().unwrap(), "large.bin");
    assert_eq!(results[0].size, 20_000);
    assert_eq!(results[1].path.file_name().unwrap(), "medium.bin");
    assert_eq!(results[1].size, 5_000);
    assert_eq!(event, LargeFileEvent::Finished { count: 2, total_bytes: 25_000 });
}

#[test]
fn folders_count_everything_below_them() {
    let mut run = BigFoldersRun::new(BigFoldersOptions { min_size: 100 });
    for (name, size) in [("/r/a/x", 60), ("/r/a/b/y", 50), ("/r/c/z", 10)] {
        run.scanned();
        run.totals.add_file(&path("/r"), &path(name), size);
    }
    let (found, event) = run.finish();
    let list: Vec<(String, u64, usize)> =
        found.iter().map(|f| (f.path.display(), f.size, f.file_count)).collect();
    assert_eq!(list, vec![("/r".to_string(), 120, 3), ("/r/a".to_string(), 110, 2)]);
    assert_eq!(event, BigFolderEvent::Finished { count: 2 });
    assert_eq!(BigFoldersOptions::default().min_size, 524_288_000);
}

#[test]
fn search_files_matches_by_name_case_insensitively_and_skips_dirs_by_default() {
    let mut run = SearchRun::new(SearchOptions {
        query: "vacation".to_string(),
        case_sensitive: false,
        include_dirs: false,
    });
    let mut results = Vec::new();
    for (p, kind) in [
        ("/d/Vacation_Photo.jpg", VisitKind::File),
        ("/d/other.txt", VisitKind::File),
        ("/d/subdir", VisitKind::Folder),
        ("/d/subdir/vacation_notes.txt", VisitKind::File),
        ("/d/vacation_folder", VisitKind::Folder),
        ("/d/vacation_pipe", VisitKind::Other),
    ] {
        let (event, matches) = run.visit(&path(p).file_name().unwrap(), kind);
        assert_eq!(event, None);
        if matches {
            if let SearchEvent::Found(m) = run.found(path(p), 1, kind == VisitKind::Folder) {
                results.push(m);
            }
        }
    }
    let names: Vec<String> = results.iter().map(|m| m.path.file_name().unwrap()).collect();
    assert_eq!(results.len(), 2);
    assert!(names.contains(&"Vacation_Photo.jpg".to_string()));
    assert!(names.contains(&"vacation_notes.txt".to_string()));
    assert!(results.iter().all(|m| !m.is_dir));
    assert_eq!(run.finished(), SearchEvent::Finished { count: 2 });
}

#[test]
fn a_case_sensitive_search_and_one_for_nothing() {
    let search = |query: &str, name: &str| {
        let mut run = SearchRun::new(SearchOptions {
            query: query.to_string(),
            case_sensitive: true,
            include_dirs: true,
        });
        run.visit(name, VisitKind::Folder).1
    };
    assert!(search("Vac", "Vacation"));
    assert!(!search("vac", "Vacation"));
    assert!(!search("", "Vacation"));
}

#[test]
fn scans_tell_of_their_progress_every_so_often() {
    let mut search = SearchRun::new(SearchOptions {
        query: "x".to_string(),
        case_sensitive: false,
        include_dirs: false,
    });
    let told = (0..4_000).filter(|_| search.visit("y", VisitKind::File).0.is_some()).count();
    assert_eq!(told, 2);
    let mut large = LargeFilesRun::new(LargeFilesOptions::default());
    let told = (0..3_000).filter(|_| large.scanned().is_some()).count();
    assert_eq!(told, 3);
    let mut dup = DupRun::new(DupOptions { min_size: 0 });
    let told = (0..1_000u64).filter(|i| dup.found(path("/x"), *i).is_some()).count();
    assert_eq!(told, 2);
}

#[test]
fn list_drives_returns_at_least_one_existing_path() {
    let drives = list_drives(&DriveProbe::SingleRoot);
    assert!(!drives.is_empty());
    for d in &drives {
        assert!(
            std::path::Path::new(&d.display()).exists(),
            "listed drive {} does not exist",
            d.display()
        );
    }
}

#[test]
fn drives_are_listed_by_letter_or_volume() {
    assert_eq!(shown(&list_drives(&DriveProbe::Letters(vec!['D', 'C']))), vec!["C:\\", "D:\\"]);
    assert_eq!(
        shown(&list_drives(&DriveProbe::Volumes(vec![path("/Volumes/STICK")]))),
        vec!["/", "/Volumes/STICK"]
    );
}

#[test]
fn disk_space_reports_sane_totals_for_every_drive() {
    let drives = list_drives(&DriveProbe::Volumes(vec![path("/Volumes/STICK")]));
    let spaces = vec![Some(disk_space(1000, 250, 4096)), Some(disk_space(500, 500, 512))];
    let usage = drive_usage(&drives, &spaces);
    assert!(!usage.is_empty());
    for u in &usage {
        let space = u.space.unwrap_or_else(|| panic!("no usage reported for {}", u.path.display()));
        assert!(space.total > 0, "{} reported zero total space", u.path.display());
        assert!(
            space.free <= space.total,
            "{} reported free ({}) > total ({})",
            u.path.display(),
            space.free,
            space.total
        );
    }
}

#[test]
fn space_is_counted_in_bytes_and_may_be_unknown() {
    let drives = list_drives(&DriveProbe::Volumes(vec![path("/Volumes/STICK")]));
    let usage = drive_usage(&drives, &vec![Some(disk_space(1000, 250, 4096)), None]);
    let space = usage[0].space.unwrap();
    assert_eq!(space, DiskSpace { total: 4_096_000, free: 1_024_000 });
    assert_eq!(space.used(), 3_072_000);
    assert_eq!(DiskSpace { total: 1, free: 2 }.used(), 0);
    assert_eq!(usage[1].space, None);
}
