//! Peer discovery and file transfer on the local network: the wire format
//! and the rules that both ends follow.
//!
//! All integers are big-endian; a string is a four-byte length followed by
//! that many bytes of UTF-8.
//!
//! - An announcement is `SCDISC1`, a session id of sixteen bytes, the name of
//!   the sender (string) and its transfer port (two bytes).
//! - A transfer starts with `SCXF1`, the name of the sender (string) and the
//!   number of files (four bytes), then for each file its relative path
//!   (string) and its size (eight bytes). The receiver answers with one byte,
//!   1 to accept and 0 to reject. After an accept the contents of the files
//!   follow back to back, in the order of the manifest.

pub mod discovery;
pub mod transfer;

use vstd::prelude::*;
use vstd::utf8::{encode_utf8_decode_utf8, encode_utf8_valid_utf8};

use crate::bytes;
use crate::paths::FilePath;
use crate::{EngineError, ErrorView};

verus! {

broadcast use {encode_utf8_valid_utf8, encode_utf8_decode_utf8};

pub const DISCOVERY_PORT: u16 = 47824;

pub const TRANSFER_PORT: u16 = 47825;

/// Milliseconds without an announcement after which a peer counts as gone.
pub const PEER_TIMEOUT_MS: u64 = 10_000;

/// Milliseconds between two announcements of our own.
pub const ANNOUNCE_EVERY_MS: u64 = 2_000;

/// The longest string, in bytes, that is accepted from the network.
pub const MAX_STRING_LEN: u64 = 10_000;

/// The most bytes moved in one go.
pub const TRANSFER_CHUNK: u64 = 1_048_576;

/// `SCDISC1` as bytes.
pub open spec fn discovery_magic() -> Seq<u8> {
    seq![83, 67, 68, 73, 83, 67, 49]
}

/// `SCXF1` as bytes.
pub open spec fn transfer_magic() -> Seq<u8> {
    seq![83, 67, 88, 70, 49]
}

/// The bytes of a string on the wire.
pub open spec fn wire_string(s: Seq<char>) -> Seq<u8> {
    let b = vstd::utf8::encode_utf8(s);
    bytes::be(b.len(), 4) + b
}

/// The bytes of an announcement.
pub open spec fn announcement(id: Seq<u8>, name: Seq<char>, port: u16) -> Seq<u8> {
    discovery_magic() + id + wire_string(name) + bytes::be(port as nat, 2)
}

/// Where a peer can be reached.
#[derive(Debug, Clone, Copy, PartialEq, Eq, Structural)]
pub enum HostAddr {
    V4(u32),
    V6(u128),
}

#[derive(Debug, Clone, Copy, PartialEq, Eq, Structural)]
pub struct PeerAddr {
    pub host: HostAddr,
    pub port: u16,
}

/// Another running instance, as found on the network.
#[derive(Debug, PartialEq, Eq)]
pub struct PeerInfo {
    pub name: String,
    /// Where to connect for a transfer.
    pub addr: PeerAddr,
}

/// What an announcement says, when it is one from somebody else: the name and
/// the port.
pub open spec fn announced(data: Seq<u8>, our_id: Seq<u8>) -> Option<(Seq<char>, u16)> {
    if data.len() < 27 || data.subrange(0, 7) != discovery_magic() || data.subrange(7, 23)
        == our_id {
        None
    } else {
        let len = bytes::be_value(data.subrange(23, 27));
        if data.len() < 27 + len + 2 || len > MAX_STRING_LEN {
            None
        } else {
            let name = data.subrange(27, 27 + len as int);
            if vstd::utf8::valid_utf8(name) {
                Some(
                    (
                        vstd::utf8::decode_utf8(name),
                        bytes::be_value(data.subrange(27 + len as int, 29 + len as int)) as u16,
                    ),
                )
            } else {
                None
            }
        }
    }
}

fn push_discovery_magic(buf: &mut Vec<u8>)
    ensures
        final(buf)@ == old(buf)@ + discovery_magic(),
{
    let m: [u8; 7] = [83, 67, 68, 73, 83, 67, 49];
    bytes::push_bytes(buf, &m);
    proof {
        assert(m@ =~= discovery_magic());
    }
}

/// Appends a string in its wire form.
pub fn write_string(buf: &mut Vec<u8>, s: &str)
    ensures
        final(buf)@ == old(buf)@ + wire_string(s@),
{
    let b = s.as_bytes();
    let len: usize = b.len();
    bytes::push_be(buf, len as u64, 4);
    bytes::push_bytes(buf, b);
    proof {
        assert(final(buf)@ =~= old(buf)@ + wire_string(s@));
    }
}

/// The announcement of this instance.
pub fn build_announcement(session_id: &[u8; 16], name: &str, port: u16) -> (buf: Vec<u8>)
    ensures
        buf@ == announcement(session_id@, name@, port),
{
    let mut buf: Vec<u8> = Vec::new();
    push_discovery_magic(&mut buf);
    bytes::push_bytes(&mut buf, session_id);
    write_string(&mut buf, name);
    bytes::push_be(&mut buf, port as u64, 2);
    proof {
        assert(buf@ =~= announcement(session_id@, name@, port));
    }
    buf
}

/// Reads an announcement received from `src`; `None` for anything else and
/// for our own.
pub fn parse_announcement(data: &[u8], our_session_id: &[u8; 16], src: HostAddr) -> (r: Option<
    PeerInfo,
>)
    ensures
        match announced(data@, our_session_id@) {
            Some((name, port)) => {
                &&& r is Some
                &&& r->0.name@ == name
                &&& r->0.addr == (PeerAddr { host: src, port })
            },
            None => r is None,
        },
{
    if data.len() < 27 {
        return None;
    }
    let mut magic: Vec<u8> = Vec::new();
    push_discovery_magic(&mut magic);
    proof {
        assert(magic@ =~= discovery_magic());
    }
    if !bytes::same_bytes(vstd::slice::slice_subrange(data, 0, 7), magic.as_slice()) {
        return None;
    }
    if bytes::same_bytes(vstd::slice::slice_subrange(data, 7, 23), our_session_id) {
        return None;
    }
    let len: u64 = bytes::read_be(data, 23, 4);
    if len > MAX_STRING_LEN || data.len() < 29 + len as usize {
        return None;
    }
    let n: usize = len as usize;
    let port: u64 = bytes::read_be(data, 27 + n, 2);
    proof {
        bytes::lemma_pow256_values();
    }
    match bytes::utf8_to_string(bytes::copy_range(data, 27, 27 + n)) {
        Ok(name) => Some(PeerInfo { name, addr: PeerAddr { host: src, port: port as u16 } }),
        Err(_) => None,
    }
}

/// What one instance announces is what every other instance reads, and the
/// instance itself ignores it.
pub proof fn law_announcement_round_trip(
    id: Seq<u8>,
    name: Seq<char>,
    port: u16,
    listener: Seq<u8>,
)
    requires
        id.len() == 16,
        listener.len() == 16,
        vstd::utf8::encode_utf8(name).len() <= MAX_STRING_LEN,
    ensures
        announced(announcement(id, name, port), listener) == (if listener == id {
            None
        } else {
            Some((name, port))
        }),
{
    let b = vstd::utf8::encode_utf8(name);
    let data = announcement(id, name, port);
    let len = bytes::be(b.len(), 4);
    let tail = bytes::be(port as nat, 2);
    bytes::lemma_be_len(b.len(), 4);
    bytes::lemma_be_len(port as nat, 2);
    bytes::lemma_pow256_values();
    bytes::law_be_round_trip(b.len(), 4);
    bytes::law_be_round_trip(port as nat, 2);
    assert(data.subrange(0, 7) =~= discovery_magic());
    assert(data.subrange(7, 23) =~= id);
    assert(data.subrange(23, 27) =~= len);
    assert(data.subrange(27, 27 + b.len() as int) =~= b);
    assert(data.subrange(27 + b.len() as int, 29 + b.len() as int) =~= tail);
}

/// A file that is part of a transfer.
#[derive(Debug, PartialEq, Eq)]
pub struct FileToSend {
    pub abs_path: FilePath,
    pub rel_path: String,
    pub size: u64,
}

/// The relative paths and sizes of the files to send.
pub open spec fn outgoing(files: Seq<FileToSend>) -> Seq<(Seq<char>, u64)> {
    files.map_values(|f: FileToSend| (f.rel_path@, f.size))
}

/// The relative paths and sizes that a manifest lists.
pub open spec fn listed(files: Seq<(String, u64)>) -> Seq<(Seq<char>, u64)> {
    files.map_values(|f: (String, u64)| (f.0@, f.1))
}

/// The wire form of the files from position `i` on.
pub open spec fn wire_files(files: Seq<(Seq<char>, u64)>, i: int) -> Seq<u8>
    decreases files.len() - i,
{
    if i < 0 || i >= files.len() {
        Seq::empty()
    } else {
        wire_string(files[i].0) + bytes::be(files[i].1 as nat, 8) + wire_files(files, i + 1)
    }
}

/// The bytes that open a transfer.
pub open spec fn manifest_bytes(name: Seq<char>, files: Seq<(Seq<char>, u64)>) -> Seq<u8> {
    transfer_magic() + wire_string(name) + bytes::be(files.len(), 4) + wire_files(files, 0)
}

fn push_transfer_magic(buf: &mut Vec<u8>)
    ensures
        final(buf)@ == old(buf)@ + transfer_magic(),
{
    let m: [u8; 5] = [83, 67, 88, 70, 49];
    bytes::push_bytes(buf, &m);
    proof {
        assert(m@ =~= transfer_magic());
    }
}

/// The bytes that open a transfer of `files`.
pub fn build_manifest(sender_name: &str, files: &Vec<FileToSend>) -> (buf: Vec<u8>)
    ensures
        buf@ == manifest_bytes(sender_name@, outgoing(files@)),
{
    let mut buf: Vec<u8> = Vec::new();
    push_transfer_magic(&mut buf);
    write_string(&mut buf, sender_name);
    let count: usize = files.len();
    bytes::push_be(&mut buf, count as u64, 4);
    proof {
        assert(buf@ + wire_files(outgoing(files@), 0) =~= manifest_bytes(
            sender_name@,
            outgoing(files@),
        ));
    }
    let mut i: usize = 0;
    while i < files.len()
        invariant
            i <= files@.len(),
            buf@ + wire_files(outgoing(files@), i as int) == manifest_bytes(
                sender_name@,
                outgoing(files@),
            ),
        decreases files@.len() - i,
    {
        let ghost before = buf@;
        write_string(&mut buf, files[i].rel_path.as_str());
        bytes::push_be(&mut buf, files[i].size, 8);
        proof {
            let all = outgoing(files@);
            assert(all[i as int] == (files@[i as int].rel_path@, files@[i as int].size));
            assert(before + wire_files(all, i as int) =~= buf@ + wire_files(all, i + 1));
        }
        i = i + 1;
    }
    proof {
        assert(buf@ + Seq::<u8>::empty() =~= buf@);
    }
    buf
}

/// Sum of the sizes of the first `n` files, modulo 2^64.
pub open spec fn total_size(files: Seq<(Seq<char>, u64)>, n: int) -> u64
    decreases n,
{
    if n <= 0 {
        0
    } else {
        total_size(files, n - 1).wrapping_add(files[n - 1].1)
    }
}

/// What a sender offers.
#[derive(Debug, PartialEq, Eq)]
pub struct IncomingManifest {
    pub sender_name: String,
    pub files: Vec<(String, u64)>,
    pub total_bytes: u64,
}

/// What the next bytes of a manifest are.
#[derive(Debug, Clone, Copy, PartialEq, Eq, Structural)]
pub enum ManifestStage {
    Magic,
    NameLength,
    Name,
    Count,
    PathLength,
    Path,
    Size,
    Done,
    Failed,
}

/// Reads the opening of a transfer piece by piece, as it comes in.
#[derive(Debug)]
pub struct ManifestReader {
    pub stage: ManifestStage,
    /// How many bytes the next piece has.
    pub want: usize,
    pub sender_name: String,
    pub count: u64,
    pub path: String,
    pub files: Vec<(String, u64)>,
    pub total_bytes: u64,
    pub error: String,
}

#[verifier::ext_equal]
pub ghost struct ReaderView {
    pub stage: ManifestStage,
    pub want: nat,
    pub sender_name: Seq<char>,
    pub count: nat,
    pub path: Seq<char>,
    pub files: Seq<(Seq<char>, u64)>,
    pub total_bytes: u64,
    pub error: Seq<char>,
}

impl View for ManifestReader {
    type V = ReaderView;

    open spec fn view(&self) -> ReaderView {
        ReaderView {
            stage: self.stage,
            want: self.want as nat,
            sender_name: self.sender_name@,
            count: self.count as nat,
            path: self.path@,
            files: listed(self.files@),
            total_bytes: self.total_bytes,
            error: self.error@,
        }
    }
}

impl ReaderView {
    pub open spec fn start() -> ReaderView {
        ReaderView {
            stage: ManifestStage::Magic,
            want: 5,
            sender_name: Seq::empty(),
            count: 0,
            path: Seq::empty(),
            files: Seq::empty(),
            total_bytes: 0,
            error: Seq::empty(),
        }
    }

    /// The number of bytes wanted is that of the piece that comes next.
    pub open spec fn wf(self) -> bool {
        match self.stage {
            ManifestStage::Magic => self.want == 5,
            ManifestStage::NameLength | ManifestStage::Count | ManifestStage::PathLength => self.want
                == 4,
            ManifestStage::Size => self.want == 8,
            ManifestStage::Name | ManifestStage::Path => self.want <= MAX_STRING_LEN,
            ManifestStage::Done | ManifestStage::Failed => self.want == 0,
        }
    }

    pub open spec fn at(self, stage: ManifestStage, want: nat) -> ReaderView {
        ReaderView { stage, want, ..self }
    }

    pub open spec fn failed(self, error: Seq<char>) -> ReaderView {
        ReaderView { stage: ManifestStage::Failed, want: 0, error, ..self }
    }

    /// The state after the next piece.
    pub open spec fn step(self, b: Seq<u8>) -> ReaderView {
        match self.stage {
            ManifestStage::Magic => if b == transfer_magic() {
                self.at(ManifestStage::NameLength, 4)
            } else {
                self.failed("bad transfer handshake"@)
            },
            ManifestStage::NameLength => if bytes::be_value(b) > MAX_STRING_LEN {
                self.failed("string too long"@)
            } else {
                self.at(ManifestStage::Name, bytes::be_value(b))
            },
            ManifestStage::Name => if vstd::utf8::valid_utf8(b) {
                ReaderView { sender_name: vstd::utf8::decode_utf8(b), ..self }.at(
                    ManifestStage::Count,
                    4,
                )
            } else {
                self.failed(bytes::utf8_error_text(b))
            },
            ManifestStage::Count => {
                let next = ReaderView { count: bytes::be_value(b), ..self };
                if next.count == 0 {
                    next.at(ManifestStage::Done, 0)
                } else {
                    next.at(ManifestStage::PathLength, 4)
                }
            },
            ManifestStage::PathLength => if bytes::be_value(b) > MAX_STRING_LEN {
                self.failed("string too long"@)
            } else {
                self.at(ManifestStage::Path, bytes::be_value(b))
            },
            ManifestStage::Path => if vstd::utf8::valid_utf8(b) {
                ReaderView { path: vstd::utf8::decode_utf8(b), ..self }.at(ManifestStage::Size, 8)
            } else {
                self.failed(bytes::utf8_error_text(b))
            },
            ManifestStage::Size => {
                let size = bytes::be_value(b) as u64;
                let next = ReaderView {
                    files: self.files.push((self.path, size)),
                    total_bytes: self.total_bytes.wrapping_add(size),
                    ..self
                };
                if next.files.len() >= next.count {
                    next.at(ManifestStage::Done, 0)
                } else {
                    next.at(ManifestStage::PathLength, 4)
                }
            },
            ManifestStage::Done => self,
            ManifestStage::Failed => self,
        }
    }

    /// The state after reading as much of `b` as makes up whole pieces.
    pub open spec fn read(self, b: Seq<u8>) -> ReaderView
        decreases
                2 * b.len() + (if self.want == 0 {
                    1int
                } else {
                    0
                }),
    {
        if self.stage is Done || self.stage is Failed || b.len() < self.want {
            self
        } else {
            let next = self.step(b.take(self.want as int));
            if self.want == 0 && next.want == 0 {
                next
            } else {
                next.read(b.skip(self.want as int))
            }
        }
    }
}

impl ManifestReader {
    pub fn new() -> (r: ManifestReader)
        ensures
            r@ == ReaderView::start(),
            r@.wf(),
    {
        let r = ManifestReader {
            stage: ManifestStage::Magic,
            want: 5,
            sender_name: String::new(),
            count: 0,
            path: String::new(),
            files: Vec::new(),
            total_bytes: 0,
            error: String::new(),
        };
        proof {
            assert(r@ =~= ReaderView::start());
        }
        r
    }

    fn fail(&mut self, error: String)
        ensures
            final(self)@ == old(self)@.failed(error@),
    {
        self.stage = ManifestStage::Failed;
        self.want = 0;
        self.error = error;
    }

    /// Takes in the next piece, which has as many bytes as were wanted.
    pub fn feed(&mut self, b: &[u8])
        requires
            old(self)@.wf(),
            b@.len() == old(self).want,
        ensures
            final(self)@ == old(self)@.step(b@),
            final(self)@.wf(),
    {
        let ghost start = self@;
        match self.stage {
            ManifestStage::Magic => {
                let mut magic: Vec<u8> = Vec::new();
                push_transfer_magic(&mut magic);
                proof {
                    assert(magic@ =~= transfer_magic());
                }
                if bytes::same_bytes(b, magic.as_slice()) {
                    self.stage = ManifestStage::NameLength;
                    self.want = 4;
                } else {
                    self.fail("bad transfer handshake".to_owned());
                }
            },
            ManifestStage::NameLength => {
                let len: u64 = bytes::read_be(b, 0, 4);
                proof {
                    assert(b@.subrange(0, 4) =~= b@);
                }
                if len > MAX_STRING_LEN {
                    self.fail("string too long".to_owned());
                } else {
                    self.stage = ManifestStage::Name;
                    self.want = len as usize;
                }
            },
            ManifestStage::Name => {
                match bytes::utf8_to_string(vstd::slice::slice_to_vec(b)) {
                    Ok(name) => {
                        self.sender_name = name;
                        self.stage = ManifestStage::Count;
                        self.want = 4;
                    },
                    Err(e) => self.fail(e),
                }
            },
            ManifestStage::Count => {
                self.count = bytes::read_be(b, 0, 4);
                proof {
                    assert(b@.subrange(0, 4) =~= b@);
                }
                if self.count == 0 {
                    self.stage = ManifestStage::Done;
                    self.want = 0;
                } else {
                    self.stage = ManifestStage::PathLength;
                    self.want = 4;
                }
            },
            ManifestStage::PathLength => {
                let len: u64 = bytes::read_be(b, 0, 4);
                proof {
                    assert(b@.subrange(0, 4) =~= b@);
                }
                if len > MAX_STRING_LEN {
                    self.fail("string too long".to_owned());
                } else {
                    self.stage = ManifestStage::Path;
                    self.want = len as usize;
                }
            },
            ManifestStage::Path => {
                match bytes::utf8_to_string(vstd::slice::slice_to_vec(b)) {
                    Ok(path) => {
                        self.path = path;
                        self.stage = ManifestStage::Size;
                        self.want = 8;
                    },
                    Err(e) => self.fail(e),
                }
            },
            ManifestStage::Size => {
                let size: u64 = bytes::read_be(b, 0, 8);
                proof {
                    assert(b@.subrange(0, 8) =~= b@);
                }
                self.files.push((self.path.clone(), size));
                self.total_bytes = self.total_bytes.wrapping_add(size);
                let got: usize = self.files.len();
                proof {
                    assert(listed(self.files@) =~= start.files.push((start.path, size)));
                }
                if got as u64 >= self.count {
                    self.stage = ManifestStage::Done;
                    self.want = 0;
                } else {
                    self.stage = ManifestStage::PathLength;
                    self.want = 4;
                }
            },
            ManifestStage::Done => {},
            ManifestStage::Failed => {},
        }
        proof {
            assert(self@ =~= start.step(b@));
        }
    }

    /// The manifest that was read, or why the opening was refused.
    pub fn finish(self) -> (r: Result<IncomingManifest, EngineError>)
        requires
            self.stage is Done || self.stage is Failed,
        ensures
            self.stage is Done ==> {
                &&& r is Ok
                &&& r->Ok_0.sender_name@ == self@.sender_name
                &&& listed(r->Ok_0.files@) == self@.files
                &&& r->Ok_0.total_bytes == self@.total_bytes
            },
            self.stage is Failed ==> r is Err && r->Err_0@ == ErrorView::Other(self@.error),
    {
        match self.stage {
            ManifestStage::Failed => Err(EngineError::Other(self.error)),
            _ => Ok(
                IncomingManifest {
                    sender_name: self.sender_name,
                    files: self.files,
                    total_bytes: self.total_bytes,
                },
            ),
        }
    }
}

/// Whether every string of a manifest is short enough to be accepted and the
/// number of files fits its field.
pub open spec fn sendable(name: Seq<char>, files: Seq<(Seq<char>, u64)>) -> bool {
    &&& vstd::utf8::encode_utf8(name).len() <= MAX_STRING_LEN
    &&& files.len() <= u32::MAX
    &&& forall|i: int|
        0 <= i < files.len() ==> vstd::utf8::encode_utf8(#[trigger] files[i].0).len()
            <= MAX_STRING_LEN
}

proof fn lemma_read_files(v: ReaderView, files: Seq<(Seq<char>, u64)>, i: int)
    requires
        0 <= i < files.len(),
        files.len() <= u32::MAX,
        v.stage is PathLength,
        v.want == 4,
        v.files == files.take(i),
        v.count == files.len(),
        v.total_bytes == total_size(files, i),
        forall|i: int|
            0 <= i < files.len() ==> vstd::utf8::encode_utf8(#[trigger] files[i].0).len()
                <= MAX_STRING_LEN,
    ensures
        ({
            let end = v.read(wire_files(files, i));
            &&& end.stage is Done
            &&& end.sender_name == v.sender_name
            &&& end.files == files
            &&& end.total_bytes == total_size(files, files.len() as int)
        }),
    decreases files.len() - i,
{
    let path = files[i].0;
    let size = files[i].1;
    let b = vstd::utf8::encode_utf8(path);
    assert(b.len() <= MAX_STRING_LEN);
    let len = bytes::be(b.len(), 4);
    let sz = bytes::be(size as nat, 8);
    let rest = wire_files(files, i + 1);
    let all = wire_files(files, i);
    bytes::lemma_be_len(b.len(), 4);
    bytes::lemma_be_len(size as nat, 8);
    bytes::lemma_pow256_values();
    bytes::law_be_round_trip(b.len(), 4);
    bytes::law_be_round_trip(size as nat, 8);
    assert(all =~= len + (b + (sz + rest)));
    let v1 = v.step(len);
    assert(all.take(4) =~= len);
    assert(all.skip(4) =~= b + (sz + rest));
    assert(v.read(all) == v1.read(b + (sz + rest)));
    let v2 = v1.step(b);
    assert((b + (sz + rest)).take(b.len() as int) =~= b);
    assert((b + (sz + rest)).skip(b.len() as int) =~= sz + rest);
    assert(v1.read(b + (sz + rest)) == v2.read(sz + rest));
    let v3 = v2.step(sz);
    assert((sz + rest).take(8) =~= sz);
    assert((sz + rest).skip(8) =~= rest);
    assert(v2.read(sz + rest) == v3.read(rest));
    assert(v3.files =~= files.take(i + 1));
    if i + 1 < files.len() {
        lemma_read_files(v3, files, i + 1);
    } else {
        assert(files.take(i + 1) =~= files);
    }
}

/// The receiver reads back exactly the manifest that the sender wrote.
pub proof fn law_manifest_round_trip(name: Seq<char>, files: Seq<(Seq<char>, u64)>)
    requires
        sendable(name, files),
    ensures
        ({
            let end = ReaderView::start().read(manifest_bytes(name, files));
            &&& end.stage is Done
            &&& end.sender_name == name
            &&& end.files == files
            &&& end.total_bytes == total_size(files, files.len() as int)
        }),
{
    let v0 = ReaderView::start();
    let b = vstd::utf8::encode_utf8(name);
    let magic = transfer_magic();
    let len = bytes::be(b.len(), 4);
    let count = bytes::be(files.len(), 4);
    let rest = wire_files(files, 0);
    let all = manifest_bytes(name, files);
    bytes::lemma_be_len(b.len(), 4);
    bytes::lemma_be_len(files.len(), 4);
    bytes::lemma_pow256_values();
    bytes::law_be_round_trip(b.len(), 4);
    bytes::law_be_round_trip(files.len(), 4);
    assert(all =~= magic + (len + (b + (count + rest))));
    assert(all.take(5) =~= magic);
    assert(all.skip(5) =~= len + (b + (count + rest)));
    let v1 = v0.step(magic);
    assert(v0.read(all) == v1.read(len + (b + (count + rest))));
    assert((len + (b + (count + rest))).take(4) =~= len);
    assert((len + (b + (count + rest))).skip(4) =~= b + (count + rest));
    let v2 = v1.step(len);
    assert(v1.read(len + (b + (count + rest))) == v2.read(b + (count + rest)));
    assert((b + (count + rest)).take(b.len() as int) =~= b);
    assert((b + (count + rest)).skip(b.len() as int) =~= count + rest);
    let v3 = v2.step(b);
    assert(v2.read(b + (count + rest)) == v3.read(count + rest));
    assert((count + rest).take(4) =~= count);
    assert((count + rest).skip(4) =~= rest);
    let v4 = v3.step(count);
    assert(v3.read(count + rest) == v4.read(rest));
    assert(v4.files =~= files.take(0));
    if files.len() > 0 {
        lemma_read_files(v4, files, 0);
    } else {
        assert(v4.files =~= files);
    }
}

/// An announcement is laid out as the format says: the letters SCDISC1, the
/// session, the length of the name in four bytes with the most significant one
/// first, the name in UTF-8, and the port in two bytes in the same order.
pub proof fn law_announcement_layout(session_id: &[u8; 16], name: &str, port: u16, buf: Vec<u8>)
    requires
        call_ensures(build_announcement, (session_id, name, port), buf),
        vstd::utf8::encode_utf8(name@).len() <= u32::MAX,
    ensures
        ({
            let n = vstd::utf8::encode_utf8(name@).len() as int;
            let b = buf@;
            &&& b.len() == 29 + n
            &&& b[0] == 'S' as int && b[1] == 'C' as int && b[2] == 'D' as int && b[3] == 'I' as int
            &&& b[4] == 'S' as int && b[5] == 'C' as int && b[6] == '1' as int
            &&& b.subrange(7, 23) == session_id@
            &&& b[23] * 0x100_0000 + b[24] * 0x1_0000 + b[25] * 256 + b[26] == n
            &&& b.subrange(27, 27 + n) == vstd::utf8::encode_utf8(name@)
            &&& b[27 + n] * 256 + b[28 + n] == port
        }),
{
    let e = vstd::utf8::encode_utf8(name@);
    let n = e.len() as int;
    let b = buf@;
    bytes::law_most_significant_byte_first(e.len(), 4);
    bytes::law_most_significant_byte_first(port as nat, 2);
    let len = bytes::be(e.len(), 4);
    let p = bytes::be(port as nat, 2);
    assert(session_id@.len() == 16);
    assert(b == discovery_magic() + session_id@ + (len + e) + p);
    assert(b.subrange(7, 23) =~= session_id@);
    assert(b.subrange(27, 27 + n) =~= e);
    assert(b[23] == len[0] && b[24] == len[1] && b[25] == len[2] && b[26] == len[3]);
    assert(b[27 + n] == p[0] && b[28 + n] == p[1]);
}

/// What one instance announces another one reads, with the address that it
/// came from; nobody listens to itself.
pub proof fn law_announcements_are_understood(
    session_id: &[u8; 16],
    name: &str,
    port: u16,
    buf: Vec<u8>,
    data: &[u8],
    listener: &[u8; 16],
    src: HostAddr,
    r: Option<PeerInfo>,
)
    requires
        call_ensures(build_announcement, (session_id, name, port), buf),
        data@ == buf@,
        call_ensures(parse_announcement, (data, listener, src), r),
        vstd::utf8::encode_utf8(name@).len() <= 10_000,
    ensures
        listener@ == session_id@ ==> r is None,
        listener@ != session_id@ ==> r is Some && r->0.name@ == name@ && r->0.addr.port == port
            && r->0.addr.host == src,
{
    law_announcement_round_trip(session_id@, name@, port, listener@);
}

proof fn lemma_wire_push(files: Seq<(Seq<char>, u64)>, f: (Seq<char>, u64), i: int)
    requires
        0 <= i <= files.len(),
    ensures
        wire_files(files.push(f), i) == wire_files(files, i) + wire_string(f.0) + bytes::be(
            f.1 as nat,
            8,
        ),
    decreases files.len() - i,
{
    let all = files.push(f);
    if i < files.len() {
        lemma_wire_push(files, f, i + 1);
        assert(all[i] == files[i]);
        assert(wire_files(all, i) =~= wire_files(files, i) + wire_string(f.0) + bytes::be(
            f.1 as nat,
            8,
        ));
    } else {
        assert(all[i] == f);
        assert(wire_files(all, i + 1) =~= Seq::<u8>::empty());
        assert(wire_files(files, i) =~= Seq::<u8>::empty());
        assert(wire_files(all, i) =~= wire_files(files, i) + wire_string(f.0) + bytes::be(
            f.1 as nat,
            8,
        ));
    }
}

/// The opening of a transfer is laid out as the format says: the letters SCXF1,
/// the name of the sender with its length in front, and the number of files in
/// four bytes; nothing follows when there are none, and one more file adds its
/// path, with its length in four bytes in front, and its size in eight bytes.
/// The most significant byte always comes first.
pub proof fn law_manifest_layout(
    sender_name: &str,
    files: &Vec<FileToSend>,
    more: &Vec<FileToSend>,
    f: FileToSend,
    a: Vec<u8>,
    b: Vec<u8>,
)
    requires
        call_ensures(build_manifest, (sender_name, files), a),
        call_ensures(build_manifest, (sender_name, more), b),
        more@ == files@.push(f),
        more@.len() <= u32::MAX,
        vstd::utf8::encode_utf8(sender_name@).len() <= u32::MAX,
        vstd::utf8::encode_utf8(f.rel_path@).len() <= u32::MAX,
    ensures
        ({
            let n = vstd::utf8::encode_utf8(sender_name@).len() as int;
            let path = vstd::utf8::encode_utf8(f.rel_path@);
            let end = a@.len() as int;
            let p = path.len() as int;
            &&& a@[0] == 'S' as int && a@[1] == 'C' as int && a@[2] == 'X' as int
            &&& a@[3] == 'F' as int && a@[4] == '1' as int
            &&& a@[5] * 0x100_0000 + a@[6] * 0x1_0000 + a@[7] * 256 + a@[8] == n
            &&& a@.subrange(9, 9 + n) == vstd::utf8::encode_utf8(sender_name@)
            &&& a@[9 + n] * 0x100_0000 + a@[10 + n] * 0x1_0000 + a@[11 + n] * 256 + a@[12 + n]
                == files@.len()
            &&& files@.len() == 0 ==> end == 13 + n
            &&& b@.len() == end + 4 + p + 8
            &&& b@.subrange(13 + n, end) == a@.subrange(13 + n, end)
            &&& b@[end] * 0x100_0000 + b@[end + 1] * 0x1_0000 + b@[end + 2] * 256 + b@[end + 3]
                == p
            &&& b@.subrange(end + 4, end + 4 + p) == path
            &&& b@[end + p + 4] * 0x100_0000_0000_0000 + b@[end + p + 5] * 0x1_0000_0000_0000
                + b@[end + p + 6] * 0x100_0000_0000 + b@[end + p + 7] * 0x1_0000_0000 + b@[end + p
                + 8] * 0x100_0000 + b@[end + p + 9] * 0x1_0000 + b@[end + p + 10] * 0x100 + b@[end
                + p + 11] == f.size
        }),
{
    let name = vstd::utf8::encode_utf8(sender_name@);
    let n = name.len() as int;
    let path = vstd::utf8::encode_utf8(f.rel_path@);
    let p = path.len() as int;
    let listed_files = outgoing(files@);
    let all = outgoing(more@);
    assert(all =~= listed_files.push((f.rel_path@, f.size)));
    lemma_wire_push(listed_files, (f.rel_path@, f.size), 0);
    bytes::law_most_significant_byte_first(name.len(), 4);
    bytes::law_most_significant_byte_first(files@.len(), 4);
    bytes::law_most_significant_byte_first(more@.len(), 4);
    bytes::law_most_significant_byte_first(path.len(), 4);
    bytes::law_most_significant_byte_first(f.size as nat, 8);
    let len = bytes::be(name.len(), 4);
    let count = bytes::be(files@.len(), 4);
    let count2 = bytes::be(more@.len(), 4);
    let plen = bytes::be(path.len(), 4);
    let size = bytes::be(f.size as nat, 8);
    let body = wire_files(listed_files, 0);
    let end = a@.len() as int;
    assert(a@ == transfer_magic() + (len + name) + count + body);
    assert(b@ == transfer_magic() + (len + name) + count2 + (body + (plen + path) + size));
    assert(end == 13 + n + body.len());
    assert(a@.subrange(9, 9 + n) =~= name);
    assert(a@[5] == len[0] && a@[6] == len[1] && a@[7] == len[2] && a@[8] == len[3]);
    assert(a@[9 + n] == count[0] && a@[10 + n] == count[1] && a@[11 + n] == count[2] && a@[12 + n]
        == count[3]);
    assert(a@.subrange(13 + n, end) =~= body);
    assert(b@.subrange(13 + n, end) =~= body);
    assert(b@[end] == plen[0] && b@[end + 1] == plen[1] && b@[end + 2] == plen[2] && b@[end + 3]
        == plen[3]);
    assert(b@.subrange(end + 4, end + 4 + p) =~= path);
    bytes::lemma_eight_bytes(f.size);
    assert(b@[end + p + 4] == size[0] && b@[end + p + 5] == size[1] && b@[end + p + 6] == size[2]
        && b@[end + p + 7] == size[3]);
    assert(b@[end + p + 8] == size[4] && b@[end + p + 9] == size[5] && b@[end + p + 10] == size[6]
        && b@[end + p + 11] == size[7]);
}

/// An offer is read piece by piece: each length asks for that many bytes or is
/// refused as too long, and each file is listed under the path that came before
/// its size, with all sizes added up.
pub proof fn law_offer_is_read_piece_by_piece(reader: &mut ManifestReader, b: &[u8], u: ())
    requires
        reader@.wf(),
        b@.len() == reader.want,
        call_ensures(ManifestReader::feed, (reader, b), u),
    ensures
        ({
            let n = bytes::be_value(b@);
            let before = old(reader)@;
            let after = final(reader)@;
            &&& before.stage is Magic ==> (after.stage is Failed <==> b@ != transfer_magic())
            &&& before.stage is NameLength || before.stage is PathLength ==> (after.stage is Failed
                <==> n > 10_000)
            &&& before.stage is NameLength && n <= 10_000 ==> after.stage is Name && after.want == n
            &&& before.stage is PathLength && n <= 10_000 ==> after.stage is Path && after.want == n
            &&& before.stage is Name && after.stage is Count ==> after.sender_name
                == vstd::utf8::decode_utf8(b@)
            &&& before.stage is Count ==> after.count == n && (after.stage is Done <==> n == 0)
            &&& before.stage is Size ==> {
                &&& after.files.len() == before.files.len() + 1
                &&& after.files.last().0 == before.path
                &&& after.files.last().1 == n as u64
                &&& after.files.drop_last() == before.files
                &&& before.total_bytes + n as u64 <= u64::MAX ==> after.total_bytes
                    == before.total_bytes + n as u64
                &&& after.stage is Done <==> after.files.len() >= before.count
            }
            &&& !(before.stage is Size) ==> after.files == before.files
        }),
{
}

} // verus!
