use super_copier::dnd::{add_root, as_dir, find_folder, Dropped};
use super_copier::drives::{list_drives, DriveProbe};
use super_copier::index::PathIndex;
use super_copier::ipc::{forward, initial_messages, listen, read_arguments, IpcMessage, Launch};
use super_copier::json::{json_bool, json_u64, parse_json};
use super_copier::order::{by_name, largest_first};
use super_copier::paths::{file_extension, file_stem, FilePath};
use super_copier::text;
use super_copier::util::{human_bytes, human_rate, Log};
use super_copier::{io_err, CancelToken, EngineError};

fn path(s: &str) -> FilePath {
    FilePath::parse(s)
}

fn strings(list: &[&str]) -> Vec<String> {
    list.iter().map(|s| s.to_string()).collect()
}

#[test]
fn sizes_are_readable() {
    assert_eq!(human_bytes(0), "0 B");
    assert_eq!(human_bytes(1023), "1023 B");
    assert_eq!(human_bytes(1024), "1.0 KB");
    assert_eq!(human_bytes(1536), "1.5 KB");
    assert_eq!(human_bytes(5 * 1024 * 1024), "5.0 MB");
    assert_eq!(human_bytes(3 << 30), "3.0 GB");
    assert_eq!(human_bytes(1 << 40), "1.0 TB");
    assert_eq!(human_bytes(1 << 50), "1.0 PB");
    assert_eq!(human_bytes(1 << 60), "1024.0 PB");
    assert_eq!(human_rate(2048), "2.0 KB/s");
}

#[test]
fn sizes_read_as_a_float_would_print_them() {
    for bytes in [1025u64, 1029, 1030, 2047, 123_456, 999_999, 1_048_575, 7_654_321, u32::MAX as u64, u64::MAX / 7] {
        let mut size = bytes as f64;
        let mut unit = 0;
        while size >= 1024.0 && unit < 5 {
            size /= 1024.0;
            unit += 1;
        }
        let units = ["B", "KB", "MB", "GB", "TB", "PB"];
        assert_eq!(human_bytes(bytes), format!("{:.1} {}", size, units[unit]));
    }
}

#[test]
fn a_log_keeps_its_last_lines() {
    let mut log = Log::new(2);
    assert!(log.is_empty());
    for line in ["a", "b", "c"] {
        log.push(line.to_string());
    }
    assert_eq!(log.iter().cloned().collect::<Vec<String>>(), vec!["c", "b"], "newest first");
    log.clear();
    assert!(log.is_empty());
    let mut full = Log::default();
    for i in 0..250 {
        full.push(i.to_string());
    }
    assert_eq!(full.iter().count(), 200);
}

#[test]
fn paths_are_taken_apart() {
    let p = path("/a/b.tar.gz");
    assert_eq!(p.display(), "/a/b.tar.gz");
    assert_eq!(p.parent().unwrap().display(), "/a");
    assert_eq!(p.file_name().unwrap(), "b.tar.gz");
    assert_eq!(path("/").parent(), None);
    assert_eq!(path("/").file_name(), None);
    assert_eq!(path("/a").join_text("b/c").display(), "/a/b/c");
    assert_eq!(path("/a").join_text("/b").display(), "/b");
    assert_eq!(path("/a/b/c").strip_prefix(&path("/a")).unwrap().display(), "b/c");
    assert_eq!(path("/ab").strip_prefix(&path("/a")), None);
    assert!(path("/a/b").starts_with(&path("/a")));
    assert!(path("/a/b").same(&path("/a/b")));
    assert_eq!(file_stem("b.tar.gz"), "b.tar");
    assert_eq!(file_extension("b.tar.gz").as_deref(), Some("gz"));
    assert_eq!(file_stem(".hidden"), ".hidden");
    assert_eq!(file_extension(".hidden"), None);
    assert_eq!(file_extension("plain"), None);
}

#[test]
fn errors_are_sentences() {
    assert_eq!(io_err(&path("/a b"), "denied".to_string()).message(), "io error at \"/a b\": denied");
    assert_eq!(EngineError::Cancelled.message(), "operation cancelled");
    assert_eq!(EngineError::Other("odd".to_string()).message(), "odd");
    assert_eq!(io_err(&path("/q\"t"), "x".to_string()).message(), "io error at \"/q\\\"t\": x");
    assert_eq!(EngineError::Cancelled.copy(), EngineError::Cancelled);
}

#[test]
fn cancelling_is_for_good() {
    let mut cancel = CancelToken::default();
    assert!(!cancel.is_cancelled());
    cancel.cancel();
    cancel.cancel();
    assert!(cancel.is_cancelled());
}

#[test]
fn numbers_read_back() {
    for n in [0u64, 7, 10, 12345, u64::MAX] {
        assert_eq!(text::decimal(n), n.to_string());
        assert_eq!(text::parse_unsigned(&text::decimal(n), u64::MAX), Some(n));
    }
    assert_eq!(text::parse_unsigned("256", 255), None);
    assert_eq!(text::parse_unsigned("", 255), None);
    assert_eq!(text::parse_unsigned("1x", 255), None);
    assert_eq!(text::decimal_padded(7, 3), "007");
    assert_eq!(text::decimal_signed(-5), "-5");
    assert_eq!(text::decimal_signed(i32::MIN), "-2147483648");
}

#[test]
fn splitting_undoes_joining() {
    let parts = strings(&["a", "", "b"]);
    let joined = text::join(&parts, '/');
    assert_eq!(joined, "a//b");
    assert_eq!(text::split(&joined, '/'), parts);
}

#[test]
fn text_is_trimmed_and_compared() {
    assert_eq!(text::trim(" \u{2003}a b\t\n"), "a b");
    assert_eq!(text::trim("  "), "");
    assert!(text::eq_ignore_ascii_case("DISK4", "disk4"));
    assert!(!text::eq_ignore_ascii_case("É", "é"));
    assert!(text::contains_text("abcabd", "abd"));
    assert!(text::contains_text("x", ""));
    assert!(!text::contains_text("ab", "abc"));
}

#[test]
fn the_largest_come_first_and_equals_keep_their_order() {
    assert_eq!(largest_first(&vec![5, 9, 5, 1]), vec![1, 0, 2, 3]);
    let names = vec![Some("b".to_string()), None, Some("B".to_string()), Some("a".to_string())];
    assert_eq!(by_name(&names), vec![1, 2, 3, 0]);
}

#[test]
fn an_index_holds_each_path_once() {
    let mut index = PathIndex::new();
    assert_eq!(index.insert(path("/a")), 0);
    assert_eq!(index.insert(path("/b")), 1);
    assert_eq!(index.insert(path("/a")), 0);
    assert_eq!(index.len(), 2);
    assert_eq!(index.get(1), &path("/b"));
    assert_eq!(index.find(&path("/c")), None);
}

#[test]
fn a_forwarded_launch_arrives_as_it_was() {
    let paths = strings(&["/a b", "C:\\x"]);
    let arrived: Vec<IpcMessage> = forward(&paths, true).into_iter().filter_map(listen).collect();
    assert_eq!(arrived, initial_messages(&paths, true));
    assert_eq!(listen(String::new()), None);
}

#[test]
fn arguments_say_how_the_program_was_started() {
    match read_arguments(&strings(&["--flash-helper", "/tmp/job.json"])) {
        Launch::Helper { job } => assert_eq!(job.as_deref(), Some("/tmp/job.json")),
        other => panic!("{other:?}"),
    }
    match read_arguments(&strings(&["--flash-helper"])) {
        Launch::Helper { job } => assert_eq!(job, None),
        other => panic!("{other:?}"),
    }
    match read_arguments(&strings(&["/a", "--move", "/b"])) {
        Launch::Window { paths, move_mode } => {
            assert_eq!(paths, strings(&["/a", "/b"]));
            assert!(move_mode);
        }
        other => panic!("{other:?}"),
    }
}

#[test]
fn dropped_files_stand_for_their_folders() {
    assert_eq!(as_dir(&path("/a/f.txt"), false).unwrap().display(), "/a");
    assert_eq!(as_dir(&path("/a"), true).unwrap().display(), "/a");
    assert_eq!(as_dir(&path("/"), false), None);
    let dropped = vec![Dropped { path: path("/"), is_dir: false }, Dropped { path: path("/b"), is_dir: true }];
    assert_eq!(find_folder(&dropped).unwrap().display(), "/b");
    let mut roots = vec![path("/b")];
    add_root(&mut roots, path("/b"));
    assert_eq!(roots.len(), 1);
}

#[test]
fn drives_without_any_letter_are_none() {
    assert!(list_drives(&DriveProbe::Letters(vec![])).len() <= 1);
}

#[test]
fn json_is_read_leniently() {
    let json = parse_json(r#"{"a":"7","b":8,"c":true,"d":"1","e":null,"n":-1}"#).unwrap();
    assert_eq!(json.text_field("a").as_deref(), Some("7"));
    assert_eq!(json.number_field("a"), 7);
    assert_eq!(json.number_field("b"), 8);
    assert_eq!(json.number_field("n"), 0);
    assert!(json.bool_field("c"));
    assert!(json.bool_field("d"));
    assert!(!json.bool_field("e"));
    assert_eq!(json.text_field_or("zz", "other"), "other");
    assert!(json_bool(json.field("c").unwrap()));
    assert_eq!(json_u64(json.field("b").unwrap()), 8);
    let error = parse_json("{").unwrap_err();
    assert!(error.contains("EOF"), "{error}");
}

#[test]
fn white_space_is_what_unicode_says() {
    for c in (0..=char::MAX as u32).filter_map(char::from_u32) {
        let around = format!("{c}x{c}");
        assert_eq!(text::trim(&around) == "x", c.is_whitespace(), "{:?}", c);
    }
}
