use super_copier::archive::extract::ZipInfo;
use super_copier::archive::{ArchiveEvent, ArchiveSummary};
use super_copier::big_folders::{BigFolderEvent, FolderEntry};
use super_copier::bootable::image::{ImageInfo, ImageKind};
use super_copier::bootable::{Device, Event, Mode};
use super_copier::copy::{CopyEvent, CopySummary, OverwritePolicy};
use super_copier::dialog::{DeferredPicker, PickKind};
use super_copier::diskusage::DiskSpace;
use super_copier::dnd::Dropped;
use super_copier::duplicates::{DupEvent, DuplicateGroup};
use super_copier::fsops::{OrganizeEvent, OrganizeStrategy};
use super_copier::ipc::IpcMessage;
use super_copier::large_files::{FileEntry, LargeFileEvent};
use super_copier::paths::FilePath;
use super_copier::search::{SearchEvent, SearchMatch};
use super_copier::share::discovery::DiscoveryEvent;
use super_copier::share::transfer::{ReceiveEvent, SendEvent};
use super_copier::share::{HostAddr, IncomingManifest, PeerAddr, PeerInfo};
use super_copier::sync::{SyncEvent, SyncSummary};
use super_copier::ui::archive_tab::{
    default_zip_name, done_label, failed_label, find_zip, level_name, skipped_label, ArchiveJob,
    ArchiveMode, ArchiveOutcome, ArchiveTab, FreeName, Suggestion,
};
use super_copier::ui::big_folders_tab::{count_label, BigFoldersTab};
use super_copier::ui::big_tab::{BigMode, BigTab};
use super_copier::ui::boot_tab::{erase_label, BootOutcome, BootTab};
use super_copier::ui::copy_tab::{policy_label, ActiveFile, CopyTab, TransferMode};
use super_copier::ui::disk_usage_tab::{free_label, used_label, DiskUsageTab};
use super_copier::ui::dup_tab::DupTab;
use super_copier::ui::large_files_tab::LargeFilesTab;
use super_copier::ui::listing::SortBy;
use super_copier::ui::organize_tab::OrganizeTab;
use super_copier::ui::search_tab::{size_label, SearchTab};
use super_copier::ui::selection::Selection;
use super_copier::ui::share_tab::{
    file_to_send, received_dir, request_files, request_heading, request_more, request_total,
    ShareTab, Visibility,
};
use super_copier::ui::shell::{tab_label, take_messages, toggle_label, toggled_theme, Tab, Theme};
use super_copier::ui::sync_tab::{folder_label, DropSpot, SyncTab};
use super_copier::ui::write_speed;
use super_copier::util::Log;

fn path(s: &str) -> FilePath {
    FilePath::parse(s)
}

/// The lines of a log, the oldest first.
fn lines(log: &Log) -> Vec<&str> {
    log.iter().rev().map(|l| l.as_str()).collect()
}

fn shown(list: &[FilePath]) -> Vec<String> {
    list.iter().map(|p| p.display()).collect()
}

fn folder(s: &str) -> Dropped {
    Dropped { path: path(s), is_dir: true }
}

/// The first free name, where `taken` are those in use.
fn unique_path(wanted: &str, taken: &[&str]) -> String {
    let mut name = FreeName::new(path(wanted));
    while taken.iter().any(|t| path(t) == name.candidate()) {
        name.taken();
    }
    name.candidate().display()
}

fn first(suggestion: Suggestion) -> Option<FilePath> {
    match suggestion {
        Suggestion::FirstFree(name) => Some(name.candidate()),
        _ => None,
    }
}

#[test]
fn suggested_names_follow_what_is_being_zipped() {
    assert_eq!(default_zip_name(&vec![path("/x/Holiday Photos")]), "Holiday Photos.zip");
    assert_eq!(default_zip_name(&vec![path("/x/report.pdf")]), "report.zip", "extension isn't doubled up");
    assert_eq!(default_zip_name(&vec![path("/a"), path("/b")]), "Archive.zip");
    assert_eq!(default_zip_name(&vec![]), "Archive.zip");
}

#[test]
fn a_default_output_never_replaces_an_existing_file() {
    assert_eq!(unique_path("/d/notes.zip", &[]), "/d/notes.zip", "free name is used as-is");
    assert_eq!(unique_path("/d/notes.zip", &["/d/notes.zip"]), "/d/notes 2.zip");
    assert_eq!(unique_path("/d/notes.zip", &["/d/notes.zip", "/d/notes 2.zip"]), "/d/notes 3.zip");
}

#[test]
fn adding_items_picks_a_default_output_next_to_them_until_the_user_chooses_one() {
    let mut tab = ArchiveTab::default();
    assert!(!tab.can_start());
    tab.add_sources(&vec![path("/d/proj")]);
    tab.output = first(tab.refresh_default_output());
    assert_eq!(tab.output, Some(path("/d/proj.zip")));
    assert!(tab.can_start());

    tab.output_picked(path("/chosen/mine"));
    assert_eq!(tab.output, Some(path("/chosen/mine.zip")));
    tab.add_sources(&vec![path("/d/other"), path("/d/proj")]);
    assert!(
        matches!(tab.refresh_default_output(), Suggestion::Keep),
        "a chosen path is never overwritten"
    );
    assert_eq!(shown(&tab.sources), vec!["/d/proj", "/d/other"]);
    tab.clear_sources();
    assert!(matches!(tab.refresh_default_output(), Suggestion::Nothing));
}

#[test]
fn choosing_a_zip_suggests_a_folder_beside_it_and_flags_unreadable_files() {
    let mut tab = ArchiveTab { mode: ArchiveMode::Extract, ..ArchiveTab::default() };
    tab.dest = first(tab.set_zip(path("/d/broken.zip"), Err("not a zip".to_string())));
    assert!(matches!(tab.zip_info, Some(Err(_))));
    assert!(!tab.can_start(), "an unreadable zip can't be extracted");
    assert_eq!(tab.dest, Some(path("/d/broken")));
    assert_eq!(tab.info_label().unwrap(), "Can't read that as a zip file: not a zip");
}

#[test]
fn a_zip_job_runs_to_its_end() {
    let mut tab = ArchiveTab::default();
    tab.add_sources(&vec![path("/d/proj")]);
    tab.output_picked(path("/d/proj.zip"));
    match tab.start() {
        Some(ArchiveJob::Zip { sources, out, options }) => {
            assert_eq!(shown(&sources), vec!["/d/proj"]);
            assert_eq!(out.display(), "/d/proj.zip");
            assert_eq!(options.level, 6);
        }
        other => panic!("{other:?}"),
    }
    assert_eq!(lines(&tab.log), vec!["Creating /d/proj.zip"]);
    tab.on_event(ArchiveEvent::Started { files: 1, bytes: 2048 }, "0s");
    tab.on_event(ArchiveEvent::Progress { done: 1024, total: 2048 }, "1s");
    assert_eq!(
        tab.progress_label(Some(1024), Some("1s"), "1s"),
        "1.0 KB of 2.0 KB — 1.0 KB/s — ~1s remaining — 1s elapsed"
    );
    let summary = ArchiveSummary { files: 1, bytes: 2048, archive_bytes: 1024, ..ArchiveSummary::default() };
    let notice = tab.on_event(ArchiveEvent::Finished(summary), "2s").unwrap();
    assert_eq!((notice.summary.as_str(), notice.body.as_str()), ("Zip finished", "1 file(s)"));
    assert!(!tab.is_running());
    assert_eq!(tab.outcome, Some(ArchiveOutcome::Done { summary, reveal: path("/d/proj.zip") }));
    assert!(done_label(&summary, "50").contains("1 file(s)"));
    assert_eq!(failed_label(&summary), None);
    let odd = ArchiveSummary { failed: 2, skipped: 3, ..ArchiveSummary::default() };
    assert_eq!(failed_label(&odd).unwrap(), "2 item(s) couldn't be processed — see the log.");
    assert_eq!(skipped_label(&odd).unwrap(), "3 existing file(s) were left alone.");
    assert_eq!(level_name(9), "Smallest");
    assert_eq!(find_zip(&vec![path("/a.txt"), path("/b.ZIP")]).unwrap().display(), "/b.ZIP");
}

#[test]
fn an_unzip_job_can_be_cancelled() {
    let mut tab = ArchiveTab { mode: ArchiveMode::Extract, ..ArchiveTab::default() };
    assert_eq!(tab.start(), None);
    let info = ZipInfo { entries: 3, files: 2, uncompressed: 1000, compressed: 400 };
    tab.set_zip(path("/d/x.zip"), Ok(info));
    assert_eq!(tab.info_label().unwrap(), "2 file(s) — 1000 B once extracted (400 B zipped)");
    tab.dest_picked(path("/out"));
    assert_eq!(
        tab.start(),
        Some(ArchiveJob::Unzip { zip: path("/d/x.zip"), dest: path("/out"), overwrite: false })
    );
    tab.cancel();
    tab.on_event(ArchiveEvent::Cancelled, "1s");
    assert_eq!(tab.outcome, Some(ArchiveOutcome::Cancelled));
    assert_eq!(tab.stopped_label().unwrap(), "Cancelled. Files extracted so far were left in place.");
}

fn device(id: &str, size: u64) -> Device {
    Device {
        id: id.to_string(),
        node: format!("/dev/r{id}"),
        name: "Test Stick".to_string(),
        size,
        bus: "USB".to_string(),
        mounted: vec![],
        is_system: false,
        is_virtual: false,
    }
}

fn ready_tab(kind: ImageKind, image_size: u64, stick_size: u64) -> BootTab {
    BootTab {
        scanned_once: true,
        image: Some(path("/tmp/x.iso")),
        info: Some(ImageInfo { size: image_size, kind }),
        devices: vec![device("disk4", stick_size)],
        selected: Some("disk4".to_string()),
        ..BootTab::default()
    }
}

#[test]
fn start_is_blocked_until_the_drive_id_is_typed_exactly() {
    let mut tab = ready_tab(ImageKind::Hybrid, 1000, 8000);
    assert!(!tab.can_start(), "nothing typed yet");
    tab.confirm_text = "disk5".to_string();
    assert!(!tab.can_start(), "the wrong drive's name must not unlock it");
    tab.confirm_text = " DISK4 ".to_string();
    assert!(tab.can_start(), "case and surrounding spaces are forgiven");
}

#[test]
fn start_is_blocked_when_the_image_does_not_fit_or_cant_be_written() {
    let mut too_big = ready_tab(ImageKind::Hybrid, 9000, 8000);
    too_big.confirm_text = "disk4".to_string();
    assert!(!too_big.can_start());

    let mut unknown = ready_tab(ImageKind::Unknown, 1000, 8000);
    unknown.confirm_text = "disk4".to_string();
    assert!(!unknown.can_start(), "an unrecognised image needs the explicit raw-write opt-in");
    unknown.force_raw = true;
    assert!(unknown.can_start());

    let mut no_drive = ready_tab(ImageKind::Hybrid, 1000, 8000);
    no_drive.selected = None;
    no_drive.confirm_text = "disk4".to_string();
    assert!(!no_drive.can_start());
}

#[test]
fn image_kind_decides_the_write_mode() {
    assert_eq!(ready_tab(ImageKind::Hybrid, 1, 2).mode(), Some(Mode::Raw));
    assert_eq!(ready_tab(ImageKind::OpticalOnly, 1, 2).mode(), Some(Mode::WindowsFiles));
    assert_eq!(ready_tab(ImageKind::Unknown, 1, 2).mode(), None);
}

#[test]
fn a_drive_is_written_and_the_confirmation_is_asked_anew() {
    let mut tab = ready_tab(ImageKind::Hybrid, 1000, 8000);
    tab.confirm_text = "disk4".to_string();
    let request = tab.start().unwrap();
    assert_eq!(request.device_id, "disk4");
    assert!(request.verify);
    assert_eq!(lines(&tab.log), vec!["Writing /tmp/x.iso to disk4 (Test Stick)"]);
    tab.on_started(Ok(()));
    assert!(tab.is_running());
    tab.on_event(Event::Phase { name: "Writing".to_string() });
    tab.on_event(Event::Progress { done: 500, total: 1000 });
    assert_eq!((tab.phase.as_str(), tab.done, tab.total), ("Writing", 500, 1000));
    let notice = tab.on_event(Event::Finished).unwrap();
    assert_eq!(notice.summary, "Bootable USB ready");
    assert_eq!(tab.outcome, Some(BootOutcome::Success));
    assert_eq!(tab.confirm_text, "");
    assert!(!tab.is_running());

    tab.on_started(Err("no permission".to_string()));
    assert_eq!(tab.outcome_label().unwrap(), "✗ Failed: no permission");
}

#[test]
fn drives_that_vanish_are_let_go() {
    let mut tab = ready_tab(ImageKind::Hybrid, 1000, 8000);
    assert!(tab.refresh_devices());
    assert!(!tab.refresh_devices(), "one scan at a time");
    tab.on_scan(Ok(vec![device("disk9", 500)]));
    assert_eq!(tab.selected, None);
    assert!(tab.is_too_small(&tab.devices[0]));
    assert!(tab.device_label(&tab.devices[0]).ends_with("— too small for this image"));
    tab.choose_device(0);
    assert_eq!(tab.selected, None);
    tab.on_scan(Err("no diskutil".to_string()));
    assert_eq!(tab.scan_error.as_deref(), Some("no diskutil"));
    assert_eq!(erase_label(&device("disk4", 2048)), "This will ERASE disk4 (Test Stick, 2.0 KB).");
}

#[test]
fn clicking_the_toggle_flips_between_light_and_dark() {
    assert_eq!(toggled_theme(true), Theme::Light);
    assert_eq!(toggled_theme(false), Theme::Dark);
    assert_eq!(toggled_theme(toggled_theme(true) == Theme::Dark), Theme::Dark);
    assert_eq!(toggle_label(true), "☀ Light mode");
    assert_eq!(toggle_label(false), "🌙 Dark mode");
}

#[test]
fn a_second_launch_opens_the_copy_tab() {
    let mut tab = Tab::Boot;
    assert!(take_messages(&mut tab, &vec![]).is_none());
    assert_eq!(tab, Tab::Boot);
    let messages = vec![IpcMessage::Path("/a".to_string()), IpcMessage::UseMoveMode];
    let arrivals = take_messages(&mut tab, &messages).unwrap();
    assert_eq!(tab, Tab::Copy);
    assert_eq!(arrivals.paths, vec!["/a"]);
    assert!(arrivals.use_move_mode);
    assert_eq!(tab_label(Tab::Share), "📡 Share");
}

fn found(p: &str, size: u64, is_dir: bool) -> SearchEvent {
    SearchEvent::Found(SearchMatch { path: path(p), size, is_dir })
}

#[test]
fn a_search_runs_and_its_results_can_go() {
    let mut tab = SearchTab::default();
    assert!(tab.start(&vec![path("/")]).is_none(), "there is nothing to look for");
    tab.query = "cat".to_string();
    let (roots, options) = tab.start(&vec![path("/")]).unwrap();
    assert_eq!(shown(&roots), vec!["/"], "without folders the whole disk is searched");
    assert_eq!(options.query, "cat");
    assert_eq!(tab.scope_label(), "Scope: entire disk");
    tab.on_event(SearchEvent::Scanning { files_scanned: 2000 }, "1s");
    tab.on_event(found("/a/cat.txt", 2048, false), "1s");
    tab.on_event(found("/a/cats", 0, true), "1s");
    assert_eq!(tab.progress_label("1s"), "Scanning… 2000 checked, 2 match so far — 1s elapsed");
    let notice = tab.on_event(SearchEvent::Finished { count: 2 }, "2s").unwrap();
    assert_eq!(notice.body, "2 match(es) for \"cat\"");
    assert_eq!(lines(&tab.log).last(), Some(&"Found 2 match(es) in 2s."));
    assert_eq!(size_label(&tab.results[0]), "2.0 KB");
    assert_eq!(size_label(&tab.results[1]), "—");

    tab.select_all();
    tab.tick(1, false);
    assert!(tab.can_delete());
    let going = tab.delete_selected().unwrap();
    assert_eq!(shown(&going), vec!["/a/cat.txt"]);
    assert!(tab.delete_selected().is_none(), "one deletion at a time");
    tab.on_deleted(Ok(1));
    assert_eq!(tab.results_label(), "1 result(s)");
    assert!(tab.selected.is_empty());
    assert_eq!(lines(&tab.log).last(), Some(&"Moved 1 item(s) to trash."));
}

#[test]
fn moved_results_leave_the_list_only_if_they_are_gone() {
    let mut tab = SearchTab::default();
    tab.on_event(found("/a/x", 1, false), "");
    tab.on_event(found("/a/y", 1, false), "");
    tab.select_all();
    assert_eq!(tab.move_selected(&path("/dst")).unwrap().len(), 2);
    assert!(tab.is_waiting());
    let summary = CopySummary { files_copied: 1, files_failed: 1, ..CopySummary::default() };
    assert!(tab.on_move_event(&CopyEvent::Finished(summary)));
    tab.on_moved(&vec![false, true]);
    assert_eq!(tab.results.len(), 1);
    assert_eq!(tab.results[0].path, path("/a/y"));
    assert_eq!(lines(&tab.log), vec!["Moving 2 item(s) to /dst…", "Moved 1 file(s), 1 failed."]);
    let mut failed = SearchTab::default();
    failed.on_event(found("/a/x", 1, false), "");
    failed.select_all();
    failed.delete_selected();
    failed.on_deleted(Err("no trash".to_string()));
    assert_eq!((failed.results.len(), failed.selected.len()), (1, 1));
    assert_eq!(lines(&failed.log), vec!["Delete failed: no trash"]);
}

fn large(p: &str, size: u64) -> LargeFileEvent {
    LargeFileEvent::Found(FileEntry { path: path(p), size })
}

#[test]
fn large_files_are_listed_filtered_and_forgotten() {
    let mut tab = LargeFilesTab::default();
    assert!(tab.start(1000).is_none());
    assert_eq!(lines(&tab.log), vec!["Add at least one folder to scan first."]);
    tab.add_dropped(&vec![folder("/r"), folder("/r"), Dropped { path: path("/s/f.txt"), is_dir: false }]);
    assert_eq!(shown(&tab.roots), vec!["/r", "/s"], "a file stands for its folder");
    assert_eq!(tab.start(1000).unwrap().1.min_size, 1000);
    for event in [large("/r/b.bin", 1024), large("/r/a.bin", 4096), large("/r/note.txt", 2048)] {
        tab.on_event(event);
    }
    assert_eq!(tab.total_bytes, 7168);
    assert_eq!(tab.filtered_sorted(), vec![1, 2, 0]);
    tab.sort_by = SortBy::NameAsc;
    assert_eq!(tab.filtered_sorted(), vec![1, 0, 2]);
    tab.search = "BIN".to_string();
    let list = tab.filtered_sorted();
    assert_eq!(list, vec![1, 0]);
    tab.select_shown(&list);
    assert_eq!(shown(&tab.delete_selected().unwrap()), vec!["/r/a.bin", "/r/b.bin"]);
    tab.on_deleted(Ok(()));
    assert_eq!(tab.results.len(), 1);
    assert!(tab.delete_selected().is_none());
    tab.on_event(LargeFileEvent::Finished { count: 3, total_bytes: 7168 });
    assert_eq!(lines(&tab.log).last(), Some(&"Found 3 file(s) over the threshold, 7.0 KB"));
    assert_eq!(tab.results_label(1), "1 of 1 file(s) — 7.0 KB total");
}

#[test]
fn big_folders_keep_their_listing_until_something_changes() {
    let mut tab = BigFoldersTab::default();
    assert!(tab.scan_entire_disk(vec![path("/")], 10).is_some());
    for (p, size) in [("/a", 10), ("/b", 30)] {
        tab.on_event(BigFolderEvent::Found(FolderEntry { path: path(p), size, file_count: 2 }), "");
    }
    tab.refresh_filtered();
    assert_eq!(tab.filtered_indices, vec![1, 0]);
    tab.search = "a".to_string();
    tab.refresh_filtered();
    assert_eq!(tab.filtered_indices, vec![0]);
    assert_eq!(tab.results_label(), "1 of 2 folder(s)");
    tab.select_shown();
    assert_eq!(shown(&tab.delete_selected().unwrap()), vec!["/a"]);
    assert!(!tab.can_delete());
    tab.on_deleted(Ok(1));
    assert_eq!(tab.results.len(), 1);
    assert_eq!(count_label(&tab.results[0]), "(2 files)");
    let notice = tab.on_event(BigFolderEvent::Finished { count: 2 }, "3s").unwrap();
    assert_eq!(notice.body, "2 folder(s) found");
    assert!(!tab.is_running());
}

#[test]
fn the_two_big_tabs_share_their_folders() {
    let mut tab = BigTab::default();
    tab.add_dropped(&vec![folder("/r")]);
    tab.show(BigMode::Folders);
    assert_eq!(shown(&tab.folders.roots), vec!["/r"]);
    tab.add_dropped(&vec![folder("/s")]);
    tab.folders.running = true;
    tab.show(BigMode::Files);
    assert_eq!(tab.mode, BigMode::Folders, "a running scan stays in view");
    tab.folders.running = false;
    tab.show(BigMode::Files);
    assert_eq!(shown(&tab.files.roots), vec!["/r", "/s"]);
}

fn group(paths: &[&str], size: u64) -> DupEvent {
    DupEvent::GroupFound(DuplicateGroup {
        hash: "00".to_string(),
        size,
        paths: paths.iter().map(|p| path(p)).collect(),
    })
}

#[test]
fn one_file_of_each_group_stays() {
    let mut tab = DupTab::default();
    assert!(tab.start(4096).is_none());
    tab.add_dropped(&vec![folder("/r")]);
    assert_eq!(tab.start(4096).unwrap().1.min_size, 4096);
    tab.on_event(group(&["/r/a", "/r/b", "/r/c"], 1024), "");
    tab.on_event(group(&["/r/d", "/r/e"], 10), "");
    assert_eq!(tab.wasted_bytes, 2058);
    assert_eq!(tab.group_label(0), "Group 1 — 3 × 1.0 KB (2.0 KB wasted)");
    tab.select_all_but_first();
    let mut going = shown(&tab.delete_selected().unwrap());
    going.sort();
    assert_eq!(going, vec!["/r/b", "/r/c", "/r/e"]);
    tab.selected.remove(&path("/r/c"));
    tab.on_deleted(Ok(()));
    assert_eq!(tab.groups.len(), 1, "a group of one is no group");
    assert_eq!(shown(&tab.groups[0].paths), vec!["/r/a", "/r/c"]);
    let notice = tab.on_event(DupEvent::Finished { groups: 2, wasted_bytes: 2058 }, "1s").unwrap();
    assert_eq!(notice.body, "2 group(s) found, 2.0 KB wasted");
}

#[test]
fn organizing_needs_a_folder() {
    let mut tab = OrganizeTab::default();
    assert!(tab.start().is_none());
    assert_eq!(tab.dir_label(), "(no folder selected)");
    tab.add_dropped(&vec![Dropped { path: path("/d/x.txt"), is_dir: false }]);
    let (dir, strategy) = tab.start().unwrap();
    assert_eq!((dir.display().as_str(), strategy), ("/d", OrganizeStrategy::ByExtension));
    tab.on_event(OrganizeEvent::FileMoved { from: path("/d/x.txt"), to: path("/d/Documents/x.txt") });
    assert_eq!(tab.moved_label(), "Moved: 1");
    tab.on_event(OrganizeEvent::Finished { moved: 1 });
    assert!(!tab.is_running());
}

#[test]
fn a_sync_needs_both_folders() {
    let mut tab = SyncTab::default();
    assert!(tab.start().is_none());
    assert_eq!(lines(&tab.log), vec!["Choose both a source and destination folder first."]);
    tab.add_dropped(&vec![folder("/s")], DropSpot::Elsewhere);
    tab.add_dropped(&vec![folder("/d")], DropSpot::Elsewhere);
    assert_eq!((folder_label(&tab.src).as_str(), folder_label(&tab.dst).as_str()), ("/s", "/d"));
    tab.add_dropped(&vec![folder("/t")], DropSpot::Source);
    tab.mirror = true;
    let (src, _, options) = tab.start().unwrap();
    assert_eq!(src.display(), "/t");
    assert!(options.mirror && !options.verify);
    tab.on_event(SyncEvent::Planned { to_copy: 1, to_update: 2, to_delete: 3 });
    assert_eq!(tab.planned, Some((1, 2, 3)));
    let summary = SyncSummary { copied: 1, ..SyncSummary::default() };
    tab.on_event(SyncEvent::Finished(summary));
    assert!(tab.summary_label().unwrap().starts_with("Finished: "));
    assert!(!tab.is_running());
}

#[test]
fn disk_usage_is_told_in_words() {
    let mut tab = DiskUsageTab::default();
    let space = DiskSpace { total: 4096, free: 1024 };
    tab.refresh(&vec![path("/")], &vec![Some(space)]);
    assert_eq!(tab.drives[0].path.display(), "/");
    assert_eq!(used_label(&space, "75"), "3.0 KB used of 4.0 KB (75%)");
    assert_eq!(free_label(&space), "1.0 KB free");
}

#[test]
fn a_transfer_is_followed_file_by_file() {
    let mut tab = CopyTab::default();
    assert!(tab.start().is_none());
    tab.add_dropped(vec![path("/s/a"), path("/s/b")]);
    assert!(tab.start().is_none());
    assert_eq!(
        lines(&tab.log),
        vec!["Add at least one source file or folder first.", "Choose a destination folder first."]
    );
    tab.dest = Some(path("/d"));
    tab.set_move_mode();
    let job = tab.start().unwrap();
    assert!(job.is_move);
    assert_eq!(job.options.overwrite, OverwritePolicy::SkipIfSameSize);
    tab.on_event(CopyEvent::Started { total_files: 2, total_bytes: 3072 }, "");
    tab.on_event(CopyEvent::FileStarted { path: path("/s/a"), size: 2048 }, "");
    tab.on_event(CopyEvent::FileStarted { path: path("/s/b"), size: 1024 }, "");
    tab.on_event(CopyEvent::FileProgress { path: path("/s/a"), bytes_done: 512, size: 2048 }, "");
    tab.on_event(CopyEvent::FileProgress { path: path("/s/b"), bytes_done: 1024, size: 1024 }, "");
    assert_eq!(tab.bytes_in_flight(), 1536);
    assert_eq!(tab.shown_active().len(), 2);
    tab.on_event(CopyEvent::FileDone { path: path("/s/b") }, "");
    assert_eq!(tab.bytes_done(), 1536);
    assert_eq!(tab.overall_label(), "Overall: 1/2 files, 1.5 KB / 3.0 KB");
    assert_eq!(tab.active, vec![ActiveFile { path: path("/s/a"), bytes_done: 512, size: 2048 }]);
    tab.on_event(CopyEvent::FileDone { path: path("/s/a") }, "");
    let summary = CopySummary { files_copied: 2, bytes_copied: 3072, ..CopySummary::default() };
    tab.on_event(CopyEvent::Finished(summary), "1.0");
    assert!(tab.finished_label().unwrap().ends_with("3.0 KB in 1.0s"));
    assert_eq!(policy_label(OverwritePolicy::Skip), "Skip existing");
}

#[test]
fn a_rename_is_previewed_and_carried_out() {
    let mut tab = CopyTab { mode: TransferMode::Rename, ..CopyTab::default() };
    assert!(!tab.do_rename());
    tab.add_dropped(vec![path("/d/a.txt"), path("/d/b.txt")]);
    tab.rename_pattern = "{nn}.{ext}".to_string();
    let preview = tab.rename_preview();
    assert_eq!(preview[1], ("b.txt".to_string(), "02.txt".to_string()));
    assert!(tab.do_rename());
    tab.on_renamed(Ok(vec![path("/d/01.txt"), path("/d/02.txt")]));
    assert_eq!(shown(&tab.sources), vec!["/d/01.txt", "/d/02.txt"]);
    assert_eq!(lines(&tab.log).len(), 2);
    tab.do_rename();
    tab.on_renamed(Err("busy".to_string()));
    assert_eq!(lines(&tab.log), vec!["✗ Rename failed: busy"]);
}

fn share_tab() -> ShareTab {
    ShareTab::new("Me".to_string(), [7; 16], path("/home/me/Downloads"))
}

fn peer(last: u8) -> PeerInfo {
    PeerInfo { name: format!("Peer {last}"), addr: PeerAddr { host: HostAddr::V4(0x0a00_0000 + last as u32), port: 5 } }
}

#[test]
fn peers_are_listed_once() {
    let mut tab = share_tab();
    assert_eq!(tab.set_discoverable(true), Visibility::Start);
    assert_eq!(tab.set_discoverable(true), Visibility::Same);
    tab.on_discovery(DiscoveryEvent::PeerFound(peer(1)));
    tab.on_discovery(DiscoveryEvent::PeerFound(peer(1)));
    tab.on_discovery(DiscoveryEvent::PeerFound(peer(2)));
    assert_eq!(tab.peers_label(), "2 nearby device(s):");
    tab.on_discovery(DiscoveryEvent::PeerLost(peer(1).addr));
    assert_eq!(tab.peers[0].name, "Peer 2");
    assert_eq!(tab.set_discoverable(false), Visibility::Stop);
    assert!(tab.peers.is_empty());
}

#[test]
fn files_are_sent_to_a_peer() {
    let mut tab = share_tab();
    assert!(!tab.can_send());
    tab.sources.push(path("/d/proj"));
    assert!(tab.send_to(peer(1), vec![]).is_none());
    let file = file_to_send(&path("/d/proj/sub/a.txt"), &path("/d/proj"), 2048);
    assert_eq!(file.rel_path, "proj/sub/a.txt");
    let job = tab.send_to(peer(1), vec![file]).unwrap();
    assert_eq!((job.sender_name.as_str(), job.addr), ("Me", peer(1).addr));
    assert_eq!(lines(&tab.log), vec!["Sending 1 file(s) to Peer 1…"]);
    tab.on_send(SendEvent::Progress {
        file: "a.txt".to_string(),
        bytes_done: 1024,
        file_size: 2048,
        files_done: 0,
        total_files: 1,
    });
    assert!(tab.send_label().unwrap().starts_with("Sending a.txt to Peer 1"));
    let notice = tab.on_send(SendEvent::Finished { files_sent: 1, bytes_sent: 2048 }).unwrap();
    assert_eq!(notice.body, "1 file(s) sent");
    assert!(!tab.is_running());
}

#[test]
fn an_offer_is_answered_once() {
    let mut tab = share_tab();
    let manifest = IncomingManifest {
        sender_name: "Ann".to_string(),
        files: (0..10).map(|i| (format!("f{i}"), 1024)).collect(),
        total_bytes: 10240,
    };
    assert_eq!(request_heading(&manifest), "📥 Ann wants to send you:");
    assert_eq!(request_total(&manifest), "Total: 10 file(s), 10.0 KB");
    assert_eq!(request_files(&manifest).len(), 8);
    assert_eq!(request_more(&manifest).unwrap(), "  …and 2 more");
    tab.on_receive(ReceiveEvent::IncomingRequest { manifest });
    assert_eq!(tab.respond(false, false), None);
    assert_eq!(tab.respond(true, false), Some(true));
    assert_eq!(tab.respond(true, false), None);
    let notice = tab
        .on_receive(ReceiveEvent::Finished { files_received: 1, bytes_received: 5, dest: path("/x") })
        .unwrap();
    assert_eq!(notice.summary, "Files received");
    tab.on_receive(ReceiveEvent::Failed("lost".to_string()));
    assert_eq!(lines(&tab.log).last(), Some(&"Receive failed: lost"));
    let home = received_dir(&Some(path("/home/me")), &path("/tmp"));
    assert!(home.display().starts_with("/home/me/"));
    assert!(received_dir(&None, &path("/tmp")).display().starts_with("/tmp"));
}

#[test]
fn selections_hold_each_path_once() {
    let mut s = Selection::of(&vec![path("/a"), path("/b"), path("/a")]);
    assert_eq!(s.len(), 2);
    s.insert(path("/b"));
    s.remove_all(&vec![path("/a")]);
    assert_eq!(shown(&s.paths()), vec!["/b"]);
    assert!(s.contains(&path("/b")) && !s.contains(&path("/a")));
    s.clear();
    assert!(s.is_empty());
}

#[test]
fn a_dialog_is_shown_once_for_each_request() {
    let mut picker = DeferredPicker::default();
    assert_eq!(picker.take(), None);
    picker.request_save_zip("a.zip".to_string());
    assert_eq!(picker.take(), Some(PickKind::Save("a.zip".to_string())));
    assert_eq!(picker.take(), None);
}

#[test]
fn speed_is_told_where_it_is_known() {
    assert_eq!(write_speed(0, 2048, None, None), "0 B of 2.0 KB");
}
