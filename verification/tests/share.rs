use super_copier::paths::FilePath;
use super_copier::share::discovery::{announce_due, random_session_id, DiscoveryEvent, PeerTable};
use super_copier::share::transfer::{
    answer_byte, failure_event, sanitize_relative_path, ReceiveEvent, ReceiveRun, ReceiveStep,
    SendEvent, SendRun, SendStep,
};
use super_copier::share::{
    build_announcement, build_manifest, parse_announcement, FileToSend, HostAddr, IncomingManifest,
    ManifestReader, ManifestStage, PeerAddr, PeerInfo, TRANSFER_PORT,
};
use super_copier::EngineError;

fn read_manifest(bytes: &[u8]) -> Result<IncomingManifest, EngineError> {
    let mut reader = ManifestReader::new();
    let mut at = 0;
    while reader.stage != ManifestStage::Done && reader.stage != ManifestStage::Failed {
        let want = reader.want;
        reader.feed(&bytes[at..at + want]);
        at += want;
    }
    reader.finish()
}

fn file(abs: &str, rel: &str, size: u64) -> FileToSend {
    FileToSend { abs_path: FilePath::parse(abs), rel_path: rel.to_string(), size }
}

/// Receives the contents of files, which come one after the other as `wire`.
/// Gives the files that were created, with what each of them holds.
fn receive(dest: &str, files: Vec<(String, u64)>, wire: &[u8]) -> (Vec<(String, Vec<u8>)>, ReceiveEvent) {
    let mut run = ReceiveRun::new(FilePath::parse(dest), false, files);
    let mut stored: Vec<(String, Vec<u8>)> = Vec::new();
    let mut at = 0;
    loop {
        match run.next(false) {
            ReceiveStep::Create(p) => stored.push((p.display(), Vec::new())),
            ReceiveStep::Move(n) => {
                stored.last_mut().unwrap().1.extend_from_slice(&wire[at..at + n]);
                at += n;
                run.moved();
            }
            ReceiveStep::Drop(n) => {
                at += n;
                run.dropped();
            }
            ReceiveStep::Skip | ReceiveStep::Close => {}
            ReceiveStep::Done => break,
            ReceiveStep::Stop => unreachable!(),
        }
    }
    assert_eq!(at, wire.len(), "everything that was sent is read");
    (stored, run.finished())
}

fn holding(name: &str, contents: &[u8]) -> (String, Vec<u8>) {
    (name.to_string(), contents.to_vec())
}

#[test]
fn share_transfer_and_discovery() {
    let files = vec![file("/src/a.txt", "a.txt", 5), file("/src/sub/b.txt", "../../etc/evil.txt", 5)];
    let manifest = read_manifest(&build_manifest("test-sender", &files)).unwrap();
    assert_eq!(manifest.sender_name, "test-sender");
    assert_eq!(manifest.files.len(), 2);
    assert_eq!(manifest.total_bytes, 10);

    assert!(SendRun::accepted(answer_byte(Some(true))));
    let (stored, end) = receive("/dst", manifest.files, b"helloworld");
    assert_eq!(stored[0], holding("/dst/a.txt", b"hello"));
    assert_eq!(stored[1], holding("/dst/etc/evil.txt", b"world"), "the climbing components are stripped");
    assert!(matches!(end, ReceiveEvent::Finished { files_received: 2, bytes_received: 10, .. }));

    let a = build_announcement(&[1u8; 16], "Peer A", TRANSFER_PORT);
    let b = build_announcement(&[2u8; 16], "Peer B", TRANSFER_PORT);
    let host = HostAddr::V4(0x7f00_0001);
    assert_eq!(parse_announcement(&b, &[1u8; 16], host).unwrap().name, "Peer B");
    assert_eq!(parse_announcement(&a, &[2u8; 16], host).unwrap().name, "Peer A");
    assert!(parse_announcement(&a, &[1u8; 16], host).is_none(), "nobody discovers themselves");
}

#[test]
fn an_announcement_reads_back_with_its_port() {
    let data = build_announcement(&[7u8; 16], "Büro ☕", 50_000);
    let peer = parse_announcement(&data, &[8u8; 16], HostAddr::V6(1)).unwrap();
    assert_eq!(peer, PeerInfo { name: "Büro ☕".to_string(), addr: PeerAddr { host: HostAddr::V6(1), port: 50_000 } });
    for cut in 0..data.len() {
        assert!(parse_announcement(&data[..cut], &[8u8; 16], HostAddr::V4(1)).is_none());
    }
    let mut foreign = data.clone();
    foreign[0] ^= 1;
    assert!(parse_announcement(&foreign, &[8u8; 16], HostAddr::V4(1)).is_none());
}

#[test]
fn a_manifest_reads_back() {
    let files = vec![file("/a", "dir/a.txt", 3), file("/b", "naïve.bin", u64::MAX)];
    let manifest = read_manifest(&build_manifest("Me", &files)).unwrap();
    assert_eq!(
        manifest.files,
        vec![("dir/a.txt".to_string(), 3), ("naïve.bin".to_string(), u64::MAX)]
    );
    assert_eq!(manifest.total_bytes, 2, "sums wrap around");
}

#[test]
fn what_is_no_manifest_is_refused() {
    let mut bytes = build_manifest("Me", &vec![]);
    bytes[0] = 0;
    assert!(read_manifest(&bytes).is_err());
    let mut long = build_manifest("Me", &vec![]);
    long[5] = 0xff;
    assert!(read_manifest(&long).is_err(), "a name cannot be that long");
    let mut bad_text = build_manifest("Me", &vec![]);
    bad_text[9] = 0xff;
    assert!(read_manifest(&bad_text).is_err(), "a name is UTF-8");
}

#[test]
fn received_paths_stay_inside() {
    let place = |raw: &str, windows: bool| sanitize_relative_path(raw, windows).map(|p| p.display());
    assert_eq!(place("a/b.txt", false).as_deref(), Some("a/b.txt"));
    assert_eq!(place("../../etc/evil.txt", false).as_deref(), Some("etc/evil.txt"));
    assert_eq!(place("/abs\\x", false).as_deref(), Some("abs/x"));
    assert_eq!(place("..", false), None);
    assert_eq!(place("", false), None);
    assert_eq!(place("C:/x", true), None);
    assert_eq!(place("C:/x", false).as_deref(), Some("C:/x"));
}

#[test]
fn every_file_gets_the_bytes_sent_for_it() {
    let contents = vec![b"first".to_vec(), Vec::new(), vec![7u8; 1_500_000], b"last".to_vec()];
    let wire: Vec<u8> = contents.concat();
    let names = ["a", "sub/empty", "sub/big", "z"];
    let files = names.iter().zip(&contents).map(|(n, c)| (n.to_string(), c.len() as u64)).collect();
    let (stored, end) = receive("/dst", files, &wire);
    let got: Vec<Vec<u8>> = stored.into_iter().map(|f| f.1).collect();
    assert!(got == contents);
    assert!(matches!(end, ReceiveEvent::Finished { files_received: 4, bytes_received: 1_500_009, .. }));
}

#[test]
fn a_file_without_a_safe_place_is_left_out() {
    let files = vec![("..".to_string(), 2), ("b.txt".to_string(), 3)];
    let (stored, end) = receive("/dst", files, b"XXabc");
    assert_eq!(stored, vec![holding("/dst/b.txt", b"abc")]);
    assert!(matches!(end, ReceiveEvent::Finished { files_received: 2, bytes_received: 3, .. }));
}

#[test]
fn a_refused_file_of_any_size_does_not_shift_the_others() {
    let big = 2_000_000u64;
    let files = vec![("a".to_string(), 1), ("/".to_string(), big), ("..".to_string(), 0), ("c".to_string(), 2)];
    let mut wire = b"A".to_vec();
    wire.resize(1 + big as usize, b'X');
    wire.extend_from_slice(b"CC");
    let (stored, _) = receive("/dst", files, &wire);
    assert_eq!(stored, vec![holding("/dst/a", b"A"), holding("/dst/c", b"CC")]);
}

#[test]
fn sending_tells_of_every_piece() {
    let mut run = SendRun::new(vec![file("/a", "a", 3), file("/b", "b", 2)]);
    assert_eq!(run.next(false), SendStep::Open(0));
    assert_eq!(run.next(false), SendStep::Read);
    assert_eq!(
        run.moved(3),
        Some(SendEvent::Progress { file: "a".to_string(), bytes_done: 3, file_size: 3, files_done: 0, total_files: 2 })
    );
    assert_eq!(run.moved(0), None);
    assert_eq!(run.next(true), SendStep::Stop);
    assert_eq!(run.next(false), SendStep::Open(1));
    run.moved(2);
    run.moved(0);
    assert_eq!(run.next(false), SendStep::Done);
    assert_eq!(run.finished(), SendEvent::Finished { files_sent: 2, bytes_sent: 5 });
}

#[test]
fn no_answer_is_a_rejection() {
    assert_eq!(answer_byte(None), 0);
    assert_eq!(answer_byte(Some(false)), 0);
    assert!(!SendRun::accepted(answer_byte(None)));
    assert_eq!(failure_event(&EngineError::Cancelled), None);
    assert_eq!(
        failure_event(&EngineError::Other("x".to_string())),
        Some(ReceiveEvent::Failed("x".to_string()))
    );
}

#[test]
fn peers_come_and_go() {
    let mut table = PeerTable::new();
    let peer = |port: u16| PeerInfo { name: "P".to_string(), addr: PeerAddr { host: HostAddr::V4(1), port } };
    assert_eq!(table.heard(peer(1), 0), Some(DiscoveryEvent::PeerFound(peer(1))));
    assert_eq!(table.heard(peer(1), 5_000), None);
    assert!(table.heard(peer(2), 5_000).is_some());
    assert!(table.expire(15_000).is_empty());
    table.heard(peer(2), 15_000);
    assert_eq!(table.expire(15_001), vec![peer(1).addr]);
    assert!(table.heard(peer(1), 15_002).is_some(), "a lost peer can be found again");
    assert!(announce_due(None, 0));
    assert!(!announce_due(Some(0), 1_999));
    assert!(announce_due(Some(0), 2_000));
}

#[test]
fn session_identifiers_are_random_uuids() {
    let (a, b) = (random_session_id(), random_session_id());
    assert_ne!(a, b);
    assert_eq!(a[6] & 0xf0, 0x40);
    assert_eq!(a[8] & 0xc0, 0x80);
}
