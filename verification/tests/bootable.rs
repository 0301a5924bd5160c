use super_copier::bootable::devices::{
    list_devices, list_safe_targets, parse_get_disk, parse_info, parse_lsblk, parse_plutil,
    DriveListing,
};
use super_copier::bootable::helper::{
    applescript_escape, choose_target, elevation_script, new_job, osascript_result, pkexec_result,
    run_helper, shell_quote, FlashWatch, ProgressReader,
};
use super_copier::bootable::image::{analyze_image, ImageKind, ISO_MAGIC_OFFSET};
use super_copier::bootable::tools::{capture_result, command_result, run_result, ToolOutcome};
use super_copier::bootable::winmedia::{
    attached_iso, boot_sector_command, flash_windows_files, free_drive_letter, linux_format_commands,
    macos_format_commands, mounted_letter, partition_node, plan_file, powershell_quote, settles_before, split_wim,
    windows_format_script, CopyAction, IsoRun, IsoStep, WindowsAction, FAT32_MAX_FILE,
};
use super_copier::bootable::write::{
    check_fits, eject_command, flash_raw, flush_device, prepare_device, progress_event, round_up,
    verify_stream, windows_disk_number, write_stream, FlashAction, PreparePlan, Throttle,
    VerifyRun, WriteRun, CHUNK, SECTOR,
};
use super_copier::bootable::{Device, Event, Mode, Os};
use super_copier::json::{parse_json, Json};
use super_copier::paths::FilePath;
use super_copier::{CancelToken, EngineError};

fn data(len: usize) -> Vec<u8> {
    (0..len).map(|i| (i * 31 % 251) as u8).collect()
}

/// Writes an image block by block; `report` sees how much is written and may
/// ask to stop.
fn write_all(
    src: &[u8],
    total: u64,
    out: &mut Vec<u8>,
    cancel: &mut CancelToken,
    report: &mut dyn FnMut(u64, &mut CancelToken),
) -> Result<(), EngineError> {
    let mut run = WriteRun::new(total);
    let mut at = 0;
    while run.progress() < total {
        let want = run.want(cancel)?;
        let end = src.len().min(at + want);
        let block = write_stream(&mut run, src[at..end].to_vec())?;
        at = end;
        out.extend_from_slice(&block);
        report(run.progress(), cancel);
    }
    Ok(())
}

fn verify_all(src: &[u8], device: &[u8], total: u64) -> Result<u64, EngineError> {
    let cancel = CancelToken::new();
    let mut run = VerifyRun::new(total);
    let (mut at, mut from) = (0, 0);
    while run.progress() < total {
        let (want, block) = run.want(&cancel)?;
        let (end, to) = (src.len().min(at + want), device.len().min(from + block));
        verify_stream(&mut run, &src[at..end], &device[from..to])?;
        at = end;
        from = to;
    }
    Ok(run.progress())
}

#[test]
fn write_pads_the_last_chunk_to_a_whole_sector_and_reports_progress() {
    let src = data(CHUNK + 1000);
    let mut out = Vec::new();
    let mut last = 0;
    write_all(&src, src.len() as u64, &mut out, &mut CancelToken::new(), &mut |d, _| last = d).unwrap();
    assert_eq!(last, src.len() as u64);
    assert_eq!(out.len(), CHUNK + SECTOR, "1000 leftover bytes round up to one 4096 sector");
    assert_eq!(&out[..src.len()], &src[..]);
    assert!(out[src.len()..].iter().all(|&b| b == 0));
}

#[test]
fn verify_accepts_a_faithful_copy_and_pinpoints_corruption() {
    let src = data(CHUNK * 2 + 777);
    let mut good = Vec::new();
    write_all(&src, src.len() as u64, &mut good, &mut CancelToken::new(), &mut |_, _| {}).unwrap();
    assert_eq!(verify_all(&src, &good, src.len() as u64).unwrap(), src.len() as u64);

    let bad_at = CHUNK + 12345;
    good[bad_at] ^= 0xFF;
    let err = verify_all(&src, &good, src.len() as u64).unwrap_err().message();
    assert!(err.contains(&bad_at.to_string()), "error should name the bad byte: {err}");
}

#[test]
fn cancelling_stops_the_write_early() {
    let src = data(CHUNK * 3);
    let mut out = Vec::new();
    let r = write_all(&src, src.len() as u64, &mut out, &mut CancelToken::new(), &mut |_, cancel| {
        cancel.cancel()
    });
    assert!(matches!(r, Err(EngineError::Cancelled)));
    assert_eq!(out.len(), CHUNK, "only the first chunk should have been written");
}

#[test]
fn a_truncated_image_is_an_error_not_silent_padding() {
    let src = data(1000);
    let r = write_all(&src, 5000, &mut Vec::new(), &mut CancelToken::new(), &mut |_, _| {});
    assert!(r.is_err());
    assert_eq!(r.unwrap_err().message(), "image ended earlier than expected");
}

#[test]
fn a_device_that_returns_too_little_fails_the_verification() {
    let src = data(5000);
    let err = verify_all(&src, &src[..4096], 5000).unwrap_err();
    assert_eq!(err.message(), "device returned too little data at 0 bytes");
}

#[test]
fn sizes_round_up_to_whole_sectors() {
    assert_eq!(round_up(0), 0);
    assert_eq!(round_up(1), 4096);
    assert_eq!(round_up(4096), 4096);
    assert_eq!(round_up(4097), 8192);
}

#[test]
fn quoting_survives_spaces_and_quotes() {
    assert_eq!(shell_quote("/Applications/Super Copier.app/x"), "'/Applications/Super Copier.app/x'");
    assert_eq!(shell_quote("it's"), r"'it'\''s'");
    assert_eq!(applescript_escape(r#"a "b" \c"#), r#"a \"b\" \\c"#);
}

#[test]
fn the_elevation_script_quotes_every_argument() {
    let args = vec!["--flash-helper".to_string(), "/tmp/a b/job.json".to_string()];
    assert_eq!(
        elevation_script("/opt/x y", &args),
        "do shell script \"'/opt/x y' '--flash-helper' '/tmp/a b/job.json'\" with administrator privileges"
    );
}

#[test]
fn oversized_wims_are_split_but_other_oversized_files_are_refused() {
    let plan = |p: &str, size: u64| plan_file(&FilePath::parse(p), size);
    assert_eq!(plan("sources/boot.wim", 500_000_000).unwrap(), CopyAction::Copy);
    assert_eq!(plan("sources/install.wim", FAT32_MAX_FILE).unwrap(), CopyAction::Copy);
    assert_eq!(plan("sources/install.wim", FAT32_MAX_FILE + 1).unwrap(), CopyAction::SplitWim);
    assert_eq!(
        plan("sources/INSTALL.WIM", 6_000_000_000).unwrap(),
        CopyAction::SplitWim,
        "extension match is case-insensitive"
    );
    assert!(plan("extras/big.iso", 6_000_000_000).is_err());
}

/// Runs the copy of an ISO's files as if every file were read in pieces.
fn copy_iso(files: &[(&str, u64)], cancel_after_progress: bool) -> (IsoRun, Vec<Event>, Vec<String>, bool) {
    let mut run = IsoRun::new(FilePath::parse("/iso"), FilePath::parse("/usb"));
    for (name, size) in files {
        run.add(&FilePath::parse(name), *size).unwrap();
    }
    let mut events = vec![run.start()];
    let mut copied = Vec::new();
    let mut cancelled = false;
    let mut left = 0;
    loop {
        match run.next(cancelled) {
            IsoStep::Stop => return (run, events, copied, true),
            IsoStep::Copy { src, dst } => {
                let shown = src.display();
                left = files.iter().find(|f| f.0 == shown).unwrap().1;
                copied.push(dst.display());
            }
            IsoStep::Read => {
                let n = left.min(1_000_000);
                left -= n;
                if let Some(e) = run.moved(n, 0) {
                    events.push(e);
                    cancelled = cancel_after_progress;
                }
            }
            IsoStep::Copied(e) => {
                events.push(e);
                break;
            }
            _ => {}
        }
    }
    (run, events, copied, false)
}

#[test]
fn copies_the_whole_tree_and_reports_full_progress() {
    let (_, events, copied, stopped) = copy_iso(
        &[("/iso/bootmgr", 3000), ("/iso/sources/install.wim", 2_500_000), ("/iso/efi/boot/bootx64.efi", 3)],
        false,
    );
    assert!(!stopped);
    assert_eq!(copied, vec!["/usb/bootmgr", "/usb/sources/install.wim", "/usb/efi/boot/bootx64.efi"]);
    let total = 3000 + 2_500_000 + 3;
    assert!(events.contains(&Event::Progress { done: total, total }));
    assert_eq!(events[0], Event::Phase { name: "Copying files".to_string() });
}

#[test]
fn cancelling_stops_before_copying_everything() {
    let files = [
        ("/iso/f0", 4_000_000),
        ("/iso/f1", 4_000_000),
        ("/iso/f2", 4_000_000),
        ("/iso/f3", 4_000_000),
        ("/iso/f4", 4_000_000),
    ];
    let (_, _, copied, stopped) = copy_iso(&files, true);
    assert!(stopped);
    assert!(copied.len() < 5, "cancel should stop the copy early, but {} of 5 files were copied", copied.len());
}

#[test]
fn an_oversized_wim_is_never_copied_whole_onto_fat32() {
    let (mut run, _, copied, _) =
        copy_iso(&[("/iso/sources/install.wim", 4_500_000_000), ("/iso/bootmgr", 1)], false);
    assert_eq!(copied, vec!["/usb/bootmgr"], "the oversized WIM must not be copied as-is");
    match run.next_split() {
        IsoStep::Split { wim, dest_dir, .. } => {
            assert_eq!(wim.display(), "/iso/sources/install.wim");
            assert_eq!(dest_dir.display(), "/usb/sources");
        }
        other => panic!("expected a split, got {other:?}"),
    }
    assert_eq!(run.next_split(), IsoStep::Skip);
    assert_eq!(run.next_split(), IsoStep::Done);

    let command = split_wim(false, &FilePath::parse("/iso/sources/install.wim"), &FilePath::parse("/usb/sources"));
    assert!(command.what.starts_with("splitting install.wim (install wimlib:"));
    assert_eq!(split_wim(true, &FilePath::parse("/iso/sources/install.wim"), &FilePath::parse("/usb/sources")).what, "splitting install.wim");
    let r = run_result(
        &command.program,
        &command.what,
        ToolOutcome::NotStarted { not_found: true, message: "no such file".to_string() },
    );
    assert!(r.unwrap_err().message().contains("splitting install.wim"));
}

#[test]
fn lsblk_only_offers_removable_disks_and_flags_system_ones() {
    let json = r#"{"blockdevices":[
          {"name":"nvme0n1","path":"/dev/nvme0n1","size":512110190592,"rm":false,"hotplug":false,"tran":"nvme","type":"disk","model":"Samsung","vendor":null,"mountpoint":null,
           "children":[{"name":"nvme0n1p2","type":"part","mountpoint":"/"}]},
          {"name":"sdb","path":"/dev/sdb","size":16008609792,"rm":true,"hotplug":true,"tran":"usb","type":"disk","model":"Ultra Fit","vendor":"SanDisk ","mountpoint":null,
           "children":[{"name":"sdb1","type":"part","mountpoint":"/media/me/USB"}]},
          {"name":"sdc","path":"/dev/sdc","size":8000000000,"rm":"1","hotplug":"1","tran":"usb","type":"disk","model":"Boot stick","vendor":"","mountpoint":null,
           "children":[{"name":"sdc1","type":"part","mountpoint":"/"}]},
          {"name":"loop0","path":"/dev/loop0","size":1000,"rm":false,"type":"loop","mountpoint":"/snap/core"}
        ]}"#;
    let devs = parse_lsblk(json).unwrap();
    assert_eq!(devs.len(), 2, "internal NVMe and loop devices must not be listed");
    let sdb = devs.iter().find(|d| d.id == "sdb").unwrap();
    assert!(sdb.is_safe_target(false));
    assert_eq!(sdb.name, "SanDisk Ultra Fit");
    assert_eq!(sdb.mounted, vec!["/media/me/USB"]);
    let sdc = devs.iter().find(|d| d.id == "sdc").unwrap();
    assert!(sdc.is_system && !sdc.is_safe_target(false), "a USB disk holding / must be refused");

    let listing = DriveListing::Lsblk(json.to_string());
    assert_eq!(list_devices(&listing).unwrap(), devs);
    let safe = list_safe_targets(&listing, false).unwrap();
    assert_eq!(safe.len(), 1);
    assert_eq!(safe[0].id, "sdb");
}

#[test]
fn get_disk_only_offers_usb_and_refuses_boot_disks() {
    let one = r#"{"Number":1,"FriendlyName":"SanDisk Ultra","Size":16008609792,"BusType":"USB","IsBoot":false,"IsSystem":false}"#;
    let devs = parse_get_disk(one).unwrap();
    assert_eq!(devs.len(), 1);
    assert_eq!(devs[0].node, r"\\.\PhysicalDrive1");
    assert!(devs[0].is_safe_target(false));

    let many = r#"[{"Number":0,"FriendlyName":"NVMe","Size":512110190592,"BusType":"NVMe","IsBoot":true,"IsSystem":true},
                       {"Number":2,"FriendlyName":"USB boot","Size":8000000000,"BusType":"USB","IsBoot":true,"IsSystem":false}]"#;
    let devs = parse_get_disk(many).unwrap();
    assert_eq!(devs.len(), 1, "non-USB bus types are never listed");
    assert!(!devs[0].is_safe_target(false), "a USB disk Windows booted from must be refused");
    assert!(parse_get_disk("  \n").unwrap().is_empty());
}

#[test]
fn macos_info_flags_boot_disk_and_virtual_images() {
    let parse = |s: &str| parse_json(s).unwrap();
    let ext = parse(
        r#"{"WholeDisk":true,"Internal":false,"RemovableMedia":true,"DeviceIdentifier":"disk4","MediaName":"Cruzer","Size":16008609792,"BusProtocol":"USB","VirtualOrPhysical":"Physical"}"#,
    );
    let d = parse_info(&ext, vec![], Some("disk3")).unwrap();
    assert_eq!(d.node, "/dev/rdisk4");
    assert!(d.is_safe_target(false));

    let boot = parse(
        r#"{"WholeDisk":true,"Internal":false,"RemovableMedia":true,"DeviceIdentifier":"disk4","Size":1000,"BusProtocol":"USB"}"#,
    );
    assert!(!parse_info(&boot, vec![], Some("disk4")).unwrap().is_safe_target(false));

    let internal = parse(
        r#"{"WholeDisk":true,"Internal":true,"RemovableMedia":false,"DeviceIdentifier":"disk0","Size":500000000000}"#,
    );
    assert!(parse_info(&internal, vec![], None).is_none(), "internal fixed disks are never listed");

    let image = parse(
        r#"{"WholeDisk":true,"Internal":false,"RemovableMedia":true,"DeviceIdentifier":"disk8","Size":1000,"BusProtocol":"Disk Image","VirtualOrPhysical":"Virtual"}"#,
    );
    let img = parse_info(&image, vec![], None).unwrap();
    assert!(img.is_virtual);
    assert!(!img.is_safe_target(false));
    assert!(img.is_safe_target(true));
}

#[test]
fn listings_that_are_no_json_are_errors() {
    let e = parse_lsblk("nonsense").unwrap_err().message();
    assert!(e.starts_with("bad lsblk output: "), "{e}");
    let e = parse_get_disk("nonsense").unwrap_err().message();
    assert!(e.starts_with("bad Get-Disk output: "), "{e}");
    let e = parse_plutil("nonsense").unwrap_err().message();
    assert!(e.starts_with("bad plutil output: "), "{e}");
    assert!(list_devices(&DriveListing::Unsupported).is_err());
}

#[test]
fn a_mac_listing_puts_disks_and_mounts_together() {
    let listing = parse_json(
        r#"{"WholeDisks":["disk0","disk4"],"AllDisksAndPartitions":[{"DeviceIdentifier":"disk4","Partitions":[{"DeviceIdentifier":"disk4s1","MountPoint":"/Volumes/STICK"}]}]}"#,
    )
    .unwrap();
    let internal = parse_json(
        r#"{"WholeDisk":true,"Internal":true,"RemovableMedia":false,"DeviceIdentifier":"disk0","Size":5}"#,
    )
    .unwrap();
    let stick = parse_json(
        r#"{"WholeDisk":true,"Internal":false,"RemovableMedia":true,"DeviceIdentifier":"disk4","MediaName":"Cruzer","Size":16,"BusProtocol":"USB"}"#,
    )
    .unwrap();
    let devs = list_devices(&DriveListing::Diskutil {
        listing,
        boot: None,
        infos: vec![Some(internal), Some(stick)],
    })
    .unwrap();
    assert_eq!(devs.len(), 1);
    assert_eq!(devs[0].id, "disk4");
    assert_eq!(devs[0].mounted, vec!["/Volumes/STICK"]);
}

fn image(boot_sig: bool, iso: bool, len: usize) -> Vec<u8> {
    let mut data = vec![0u8; len];
    if boot_sig {
        data[510] = 0x55;
        data[511] = 0xAA;
    }
    if iso {
        let o = ISO_MAGIC_OFFSET as usize;
        data[o] = 1;
        data[o + 1..o + 6].copy_from_slice(b"CD001");
    }
    data
}

fn analyze(data: &[u8]) -> super_copier::bootable::image::ImageInfo {
    let head = &data[..data.len().min(512)];
    let at = ISO_MAGIC_OFFSET as usize;
    let descriptor = if data.len() > at { &data[at..data.len().min(at + 6)] } else { &[] };
    analyze_image(data.len() as u64, head, descriptor)
}

#[test]
fn classifies_hybrid_optical_and_unknown_images() {
    let hybrid = analyze(&image(true, true, 40_000));
    assert_eq!(hybrid.kind, ImageKind::Hybrid, "an ISO with an MBR is raw-writable");
    assert_eq!(hybrid.size, 40_000);

    let windows_like = analyze(&image(false, true, 40_000));
    assert_eq!(windows_like.kind, ImageKind::OpticalOnly);

    let junk = analyze(&image(false, false, 40_000));
    assert_eq!(junk.kind, ImageKind::Unknown);

    let tiny = analyze(&image(false, false, 100));
    assert_eq!(tiny.kind, ImageKind::Unknown, "files shorter than a sector must not panic");
}

#[test]
fn progress_reader_returns_only_complete_new_lines() {
    let mut reader = ProgressReader::new(FilePath::parse("/tmp/p.jsonl"));
    assert!(reader.poll("").is_empty());

    let line = "{\"kind\":\"Phase\",\"name\":\"Writing image\"}";
    let half = "{\"kind\":\"Progress\",\"done\":5,";
    assert_eq!(reader.poll(&format!("{line}\n{half}")), vec![line]);
    assert_eq!(reader.offset, (line.len() + 1 + half.len()) as u64);

    assert_eq!(reader.poll("\"total\":10}\n"), vec!["{\"kind\":\"Progress\",\"done\":5,\"total\":10}"]);
    assert!(reader.poll("").is_empty(), "nothing new the second time");
}

#[test]
fn portions_of_the_progress_file_do_not_matter() {
    let whole = "{\"kind\":\"Phase\"}\n{\"kind\":\"Finished\"}\n";
    let mut at_once = ProgressReader::new(FilePath::parse("/p"));
    let all = at_once.poll(whole);
    let mut by_char = ProgressReader::new(FilePath::parse("/p"));
    let mut collected = Vec::new();
    for c in whole.chars() {
        collected.extend(by_char.poll(&c.to_string()));
    }
    assert_eq!(all, collected);
    assert_eq!(all.len(), 2);
}

fn device(id: &str, size: u64, is_system: bool) -> Device {
    Device {
        id: id.to_string(),
        node: format!("/dev/{id}"),
        name: "Stick".to_string(),
        size,
        bus: "USB".to_string(),
        mounted: vec!["/media/me/USB".to_string()],
        is_system,
        is_virtual: false,
    }
}

#[test]
fn the_helper_refuses_a_target_that_isnt_in_the_safe_list() {
    let refused = choose_target(Ok(vec![device("sdb", 8000, false)]), "definitely-not-a-real-disk", false);
    let (event, code) = run_helper(refused.map(|_| ()));
    assert_eq!(code, 1);
    assert!(matches!(event, Event::Failed { .. }), "got {event:?}");

    assert!(choose_target(Ok(vec![device("sda", 8000, true)]), "sda", false).is_err());
    let chosen = choose_target(Ok(vec![device("sda", 8000, true), device("sdb", 8000, false)]), "sdb", false);
    assert_eq!(chosen.unwrap().id, "sdb");
}

#[test]
fn the_helper_ends_with_one_event_and_a_code() {
    assert_eq!(run_helper(Ok(())), (Event::Finished, 0));
    assert_eq!(run_helper(Err(EngineError::Cancelled)), (Event::Cancelled, 2));
    let (event, code) = run_helper(Err(EngineError::Other("boom".to_string())));
    assert_eq!((event, code), (Event::Failed { message: "boom".to_string() }, 1));
}

/// An event as the helper writes it.
fn event_of(line: &str) -> Event {
    let json = parse_json(line).unwrap();
    match json.text_field("kind").as_deref() {
        Some("Phase") => Event::Phase { name: json.text_field("name").unwrap() },
        Some("Progress") => Event::Progress { done: json.number_field("done"), total: json.number_field("total") },
        Some("Finished") => Event::Finished,
        other => panic!("{other:?}"),
    }
}

#[test]
fn events_from_the_helper_reach_the_gui_in_order() {
    let written = concat_lines(&[
        r#"{"kind":"Phase","name":"Writing image"}"#,
        r#"{"kind":"Progress","done":5,"total":10}"#,
        r#"{"kind":"Finished"}"#,
    ]);
    for portion in [1, 7, 50, written.len()] {
        let mut reader = ProgressReader::new(FilePath::parse("/tmp/job/progress.jsonl"));
        let mut watch = FlashWatch::new();
        let mut events = Vec::new();
        let mut at = 0;
        while at < written.len() {
            assert!(!watch.saw_terminal);
            let end = (at + portion).min(written.len());
            for line in reader.poll(&written[at..end]) {
                let event = event_of(&line);
                watch.saw(&event);
                events.push(event);
            }
            at = end;
        }
        assert_eq!(
            events,
            vec![
                Event::Phase { name: "Writing image".to_string() },
                Event::Progress { done: 5, total: 10 },
                Event::Finished,
            ]
        );
        assert!(watch.saw_terminal);
        assert_eq!(watch.conclude(Ok(0)), None);
    }
}

fn concat_lines(lines: &[&str]) -> String {
    lines.iter().map(|l| format!("{l}\n")).collect()
}

#[test]
fn cancelling_creates_the_cancel_file_and_the_helper_answers() {
    let mut watch = FlashWatch::new();
    assert!(!watch.wants_cancel_file(false));
    assert!(watch.wants_cancel_file(true));
    watch.cancel_file_written(true);
    assert!(!watch.wants_cancel_file(true), "the file is written once");
    watch.saw(&Event::Cancelled);
    assert_eq!(watch.conclude(Ok(2)), None);
}

#[test]
fn a_helper_that_dies_without_a_final_event_is_reported_as_a_failure() {
    let mut watch = FlashWatch::new();
    watch.saw(&Event::Phase { name: "Writing image".to_string() });
    match watch.conclude(Ok(7)) {
        Some(Event::Failed { message }) => assert!(message.contains("exit code 7"), "{message}"),
        other => panic!("expected a Failed event, got {other:?}"),
    }
    match watch.conclude(Ok(-1)) {
        Some(Event::Failed { message }) => {
            assert_eq!(message, "the flashing helper stopped unexpectedly (exit code -1)")
        }
        other => panic!("expected a Failed event, got {other:?}"),
    }
    match watch.conclude(Err(EngineError::Other("no".to_string()))) {
        Some(Event::Failed { message }) => assert_eq!(message, "no"),
        other => panic!("expected a Failed event, got {other:?}"),
    }
}

#[test]
fn a_job_keeps_its_files_in_one_folder() {
    let job = new_job(
        FilePath::parse("/x.iso"),
        "disk9".to_string(),
        Mode::Raw,
        true,
        &FilePath::parse("/tmp/job"),
    );
    assert_eq!(job.progress_file.display(), "/tmp/job/progress.jsonl");
    assert_eq!(job.cancel_file.display(), "/tmp/job/cancel");
    assert_eq!(job.device_id, "disk9");
}

#[test]
fn refused_permission_is_told_apart_from_failure() {
    assert_eq!(pkexec_result(Some(0)), Ok(0));
    assert_eq!(pkexec_result(None), Ok(-1));
    for refused in [126, 127] {
        assert_eq!(pkexec_result(Some(refused)).unwrap_err().message(), "Administrator permission was not granted.");
    }
    assert_eq!(osascript_result(true, &vec![], Some(0)), Ok(0));
    let err = osascript_result(false, &b"execution error: User canceled. (-128)".to_vec(), Some(1));
    assert_eq!(err.unwrap_err().message(), "Administrator permission was not granted.");
    assert_eq!(osascript_result(false, &b"other".to_vec(), Some(1)), Ok(1));
}

#[test]
fn an_image_must_fit_the_drive() {
    assert!(check_fits(4096, 4096).is_ok());
    assert_eq!(
        check_fits(4097, 8000).unwrap_err().message(),
        "the image (4097) is larger than the drive (8000)",
        "whole sectors are written"
    );
    assert!(flash_raw(9000, &device("sdb", 8000, false), true).is_err());
    assert_eq!(
        flash_raw(4000, &device("sdb", 8000, false), true).unwrap(),
        vec![
            FlashAction::Prepare,
            FlashAction::Write,
            FlashAction::Flush,
            FlashAction::Verify,
            FlashAction::Finish
        ]
    );
    assert_eq!(flash_raw(4000, &device("sdb", 8000, false), false).unwrap().len(), 4);
}

#[test]
fn progress_is_told_at_most_every_150_milliseconds_and_at_the_end() {
    let mut throttle = Throttle::new();
    assert_eq!(progress_event(&mut throttle, 0, 1, 10), Some(Event::Progress { done: 1, total: 10 }));
    assert_eq!(progress_event(&mut throttle, 149, 2, 10), None);
    assert_eq!(progress_event(&mut throttle, 150, 3, 10), Some(Event::Progress { done: 3, total: 10 }));
    assert_eq!(progress_event(&mut throttle, 151, 10, 10), Some(Event::Progress { done: 10, total: 10 }));
}

#[test]
fn every_system_lets_go_of_a_drive_in_its_own_way() {
    let stick = device("sdb", 8000, false);
    match prepare_device(Os::Linux, &stick) {
        (None, Ok(PreparePlan::Commands(list))) => {
            assert_eq!(list.len(), 1);
            assert_eq!(list[0].args.last().unwrap(), "/media/me/USB");
        }
        other => panic!("{other:?}"),
    }
    match prepare_device(Os::Windows, &device("Disk 3", 8000, false)) {
        (Some(Event::Log { line }), Ok(PreparePlan::Diskpart(script))) => {
            assert_eq!(line, "Clearing existing partitions");
            assert_eq!(script, "select disk 3\nclean\n");
        }
        other => panic!("{other:?}"),
    }
    match prepare_device(Os::MacOs, &device("disk4", 8000, false)) {
        (None, Ok(PreparePlan::Commands(list))) => {
            assert_eq!(list[0].program, "diskutil");
            assert_eq!(list[0].args, vec!["unmountDisk", "force", "disk4"]);
        }
        other => panic!("{other:?}"),
    }
    let (_, r) = prepare_device(Os::Other, &stick);
    assert_eq!(r.unwrap_err().message(), "unsupported platform");
    assert_eq!(eject_command(Os::MacOs, &device("disk4", 1, false)).unwrap().args, vec!["eject", "disk4"]);
    assert!(eject_command(Os::Linux, &stick).is_none());
}

#[test]
fn disk_numbers_come_from_identifiers() {
    assert_eq!(windows_disk_number("Disk 12"), Ok(12));
    assert_eq!(windows_disk_number("sdb").unwrap_err().message(), "unexpected disk id sdb");
}

#[test]
fn flushing_may_be_unsupported() {
    assert!(flush_device(Some(22), "x", &vec![22]).is_ok());
    assert_eq!(
        flush_device(Some(5), "I/O error", &vec![22]).unwrap_err().message(),
        "flushing the drive failed: I/O error"
    );
}

#[test]
fn partitions_are_named_after_the_drive() {
    assert_eq!(partition_node("/dev/sdb"), "/dev/sdb1");
    assert_eq!(partition_node("/dev/mmcblk0"), "/dev/mmcblk0p1");
}

#[test]
fn the_highest_free_letter_is_taken() {
    assert_eq!(free_drive_letter(&vec!['C']), Ok('Z'));
    assert_eq!(free_drive_letter(&vec!['C', 'Z', 'Y']), Ok('X'));
    let all: Vec<char> = ('A'..='Z').collect();
    assert_eq!(free_drive_letter(&all).unwrap_err().message(), "no free drive letter available");
}

#[test]
fn formatting_takes_the_tools_of_each_system() {
    let linux = linux_format_commands("/dev/sdb", "/dev/sdb1");
    assert!(linux.iter().any(|c| c.args.iter().any(|a| a == "/dev/sdb1")));
    let mac = macos_format_commands(&device("disk4", 1, false));
    assert_eq!(mac[1].args, vec!["eraseDisk", "MS-DOS", "WINSETUP", "MBR", "disk4"]);
    let script = windows_format_script(&device("Disk 2", 1, false), 'X').unwrap();
    assert!(script.starts_with("select disk 2\nclean\n"));
    assert!(script.ends_with("assign letter=X\n"));
    assert!(windows_format_script(&device("sdb", 1, false), 'X').is_err());
}

#[test]
fn a_mounted_iso_is_found_in_the_report() {
    let report = parse_json(
        r#"{"system-entities":[{"dev-entry":"/dev/disk5"},{"dev-entry":"/dev/disk5s1","mount-point":"/Volumes/CCCOMA"}]}"#,
    )
    .unwrap();
    assert_eq!(attached_iso(&report), Ok(("/Volumes/CCCOMA".to_string(), "/dev/disk5".to_string())));
    assert_eq!(attached_iso(&Json::Null).unwrap_err().message(), "the ISO didn't mount a volume");
    assert_eq!(mounted_letter(" E\r\n"), Ok('E'));
    assert_eq!(mounted_letter(" \r\n").unwrap_err().message(), "the ISO didn't get a drive letter");
    assert_eq!(powershell_quote("it's"), "it''s");
}

#[test]
fn boot_sectors_are_written_on_windows_only() {
    assert!(flash_windows_files(true).contains(&WindowsAction::BootSector));
    assert!(!flash_windows_files(false).contains(&WindowsAction::BootSector));
}

#[test]
fn a_boot_sector_takes_a_letter_and_the_tool() {
    let c = boot_sector_command("E:\\boot\\bootsect.exe", true, Some('X')).unwrap();
    assert_eq!(c.program, "E:\\boot\\bootsect.exe");
    assert_eq!(c.args, vec!["/nt60", "X:", "/force", "/mbr"]);
    assert_eq!(c.what, "writing the boot sector");
    assert!(boot_sector_command("b.exe", false, Some('X')).is_none());
    assert!(boot_sector_command("b.exe", true, None).is_none());
}

#[test]
fn the_system_settles_before_the_drive_is_formatted() {
    let commands = linux_format_commands("/dev/sdb", "/dev/sdb1");
    let settled: Vec<&str> = (0..commands.len())
        .filter(|i| settles_before(commands.len(), *i))
        .map(|i| commands[i].what.as_str())
        .collect();
    assert_eq!(settled, vec!["formatting the drive"]);
}

#[test]
fn tools_that_fail_are_named() {
    let failed = || ToolOutcome::Exited { success: false, stdout: b"out".to_vec(), stderr: b" bad\n".to_vec() };
    assert_eq!(capture_result("lsblk", failed()).unwrap_err().message(), "\"lsblk\" failed: bad");
    assert_eq!(command_result("ejecting", failed()).unwrap_err().message(), "ejecting failed: outbad");
    assert_eq!(run_result("dism", "splitting", failed()).unwrap_err().message(), "splitting failed: out bad");
    let missing = ToolOutcome::NotStarted { not_found: true, message: "x".to_string() };
    assert_eq!(
        run_result("dism", "splitting", missing).unwrap_err().message(),
        "splitting: required tool \"dism\" isn't installed"
    );
    let ok = ToolOutcome::Exited { success: true, stdout: vec![0x61, 0xff], stderr: vec![] };
    assert_eq!(capture_result("lsblk", ok), Ok("a\u{fffd}".to_string()));
}
