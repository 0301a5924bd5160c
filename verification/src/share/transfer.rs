//! The two ends of a transfer once the manifest is known: what is sent and
//! received next, and where received files are stored.

use vstd::prelude::*;

use crate::paths::{FilePath, PathView};
use crate::share::{FileToSend, IncomingManifest, TRANSFER_CHUNK};
use crate::text;
use crate::EngineError;

verus! {

/// The text with every backslash turned into a slash.
pub open spec fn with_slashes(raw: Seq<char>) -> Seq<char> {
    raw.map_values(
        |c: char|
            if c == '\\' {
                '/'
            } else {
                c
            },
    )
}

/// Whether a piece of a received path names something: not empty, `.` or `..`.
pub open spec fn names_something(piece: Seq<char>) -> bool {
    piece.len() > 0 && piece != seq!['.'] && piece != seq!['.', '.']
}

/// The pieces among the first `n` that name something.
pub open spec fn named_pieces(ps: Seq<Seq<char>>, n: int) -> Seq<Seq<char>>
    decreases n,
{
    if n <= 0 {
        Seq::empty()
    } else if names_something(ps[n - 1]) {
        named_pieces(ps, n - 1).push(ps[n - 1])
    } else {
        named_pieces(ps, n - 1)
    }
}

/// Where a received path is stored below the destination: the pieces that
/// name something. There is no such place when nothing is left or, on
/// Windows, when a piece holds a colon.
pub open spec fn sanitized(raw: Seq<char>, windows: bool) -> Option<PathView> {
    let ps = text::pieces(with_slashes(raw), '/');
    let parts = named_pieces(ps, ps.len() as int);
    if parts.len() == 0 || (windows && exists|i: int|
        0 <= i < parts.len() && (#[trigger] parts[i]).contains(':')) {
        None
    } else {
        Some(PathView { root: Seq::empty(), parts })
    }
}

pub(crate) fn slashed(raw: &str) -> (r: String)
    ensures
        r@ == with_slashes(raw@),
{
    let v = text::chars_of(raw);
    let mut r = String::new();
    let mut i: usize = 0;
    while i < v.len()
        invariant
            v@ == raw@,
            i <= v@.len(),
            r@ == with_slashes(raw@).take(i as int),
        decreases v@.len() - i,
    {
        if v[i] == '\\' {
            r.push('/');
        } else {
            r.push(v[i]);
        }
        i = i + 1;
        proof {
            assert(r@ =~= with_slashes(raw@).take(i as int));
        }
    }
    proof {
        assert(r@ =~= with_slashes(raw@));
    }
    r
}

fn piece_names_something(piece: &Vec<char>) -> (r: bool)
    ensures
        r == names_something(piece@),
{
    let dot = piece.len() == 1 && piece[0] == '.';
    let dots = piece.len() == 2 && piece[0] == '.' && piece[1] == '.';
    proof {
        if dot {
            assert(piece@ =~= seq!['.']);
        }
        if dots {
            assert(piece@ =~= seq!['.', '.']);
        }
    }
    piece.len() > 0 && !dot && !dots
}

/// Where a received path is stored below the destination, so that it can
/// never lead out of it whatever the sender claims.
pub fn sanitize_relative_path(raw: &str, windows: bool) -> (r: Option<FilePath>)
    ensures
        sanitized(raw@, windows) is None ==> r is None,
        sanitized(raw@, windows) is Some ==> r is Some && r->0@ == sanitized(raw@, windows)->0,
{
    broadcast use text::views_push;

    let ps = text::split(slashed(raw).as_str(), '/');
    let ghost all = text::pieces(with_slashes(raw@), '/');
    let mut parts: Vec<String> = Vec::new();
    let mut colon = false;
    let mut i: usize = 0;
    while i < ps.len()
        invariant
            i <= ps@.len(),
            text::views(ps@) == all,
            text::views(parts@) == named_pieces(all, i as int),
            colon == exists|j: int|
                0 <= j < parts@.len() && (#[trigger] text::views(parts@)[j]).contains(':'),
        decreases ps@.len() - i,
    {
        let piece = text::chars_of(ps[i].as_str());
        proof {
            assert(piece@ == all[i as int]);
        }
        if piece_names_something(&piece) {
            let ghost before = text::views(parts@);
            let at: usize = text::find_char(&piece, ':', 0);
            parts.push(ps[i].clone());
            proof {
                let after = text::views(parts@);
                assert(after =~= before.push(piece@));
                assert(forall|j: int| 0 <= j < before.len() ==> after[j] == before[j]);
                assert((at < piece@.len()) == piece@.contains(':')) by {
                    if at < piece@.len() {
                        assert(piece@[at as int] == ':');
                    }
                }
                assert(after[before.len() as int] == piece@);
                if colon {
                    let j = choose|j: int| 0 <= j < before.len() && (#[trigger] before[j]).contains(':');
                    assert(after[j].contains(':'));
                }
            }
            colon = colon || at < piece.len();
        }
        i = i + 1;
    }
    proof {
        assert(all.len() == ps@.len());
    }
    if parts.len() == 0 || (windows && colon) {
        return None;
    }
    let r = FilePath { root: String::new(), parts };
    proof {
        assert(r@.root =~= Seq::<char>::empty());
    }
    Some(r)
}

proof fn lemma_named_pieces(ps: Seq<Seq<char>>, n: int)
    requires
        n <= ps.len(),
    ensures
        forall|i: int|
            0 <= i < named_pieces(ps, n).len() ==> names_something(
                #[trigger] named_pieces(ps, n)[i],
            ),
    decreases n,
{
    if n > 0 {
        lemma_named_pieces(ps, n - 1);
        let before = named_pieces(ps, n - 1);
        let after = named_pieces(ps, n);
        assert forall|i: int| 0 <= i < after.len() implies names_something(#[trigger] after[i]) by {
            if i < before.len() {
                assert(after[i] == before[i]);
            }
        }
    }
}

/// A received path always stays below the destination: it is stored under it
/// and no component leads up again.
pub proof fn law_received_path_stays_inside(raw: Seq<char>, windows: bool, dest: PathView)
    requires
        sanitized(raw, windows) is Some,
    ensures
        ({
            let stored = dest.joined(sanitized(raw, windows)->0);
            &&& stored.under(dest)
            &&& stored.parts.len() > dest.parts.len()
            &&& forall|i: int|
                dest.parts.len() <= i < stored.parts.len() ==> names_something(
                    #[trigger] stored.parts[i],
                )
        }),
{
    let ps = text::pieces(with_slashes(raw), '/');
    lemma_named_pieces(ps, ps.len() as int);
    let rel = sanitized(raw, windows)->0;
    let stored = dest.joined(rel);
    assert(stored.parts.take(dest.parts.len() as int) =~= dest.parts);
    assert forall|i: int| dest.parts.len() <= i < stored.parts.len() implies names_something(
        #[trigger] stored.parts[i],
    ) by {
        assert(stored.parts[i] == rel.parts[i - dest.parts.len()]);
    }
}

proof fn lemma_all_named(ps: Seq<Seq<char>>, n: int)
    requires
        0 <= n <= ps.len(),
        forall|i: int| 0 <= i < ps.len() ==> names_something(#[trigger] ps[i]),
    ensures
        named_pieces(ps, n) == ps.take(n),
    decreases n,
{
    if n > 0 {
        lemma_all_named(ps, n - 1);
        assert(names_something(ps[n - 1]));
        assert(ps.take(n) =~= ps.take(n - 1).push(ps[n - 1]));
    } else {
        assert(ps.take(0) =~= Seq::<Seq<char>>::empty());
    }
}

/// Turning backslashes changes nothing where there are none.
pub proof fn lemma_no_backslash(s: Seq<char>)
    requires
        !s.contains('\\'),
    ensures
        with_slashes(s) == s,
{
    assert forall|i: int| 0 <= i < s.len() implies #[trigger] with_slashes(s)[i] == s[i] by {
        assert(s.contains(s[i]));
    }
    assert(with_slashes(s) =~= s);
}

/// Whether a component can be sent: it names something, holds no separator of
/// any system and, towards Windows, no colon.
pub open spec fn is_sendable(part: Seq<char>, windows: bool) -> bool {
    &&& names_something(part)
    &&& !part.contains('/')
    &&& !part.contains('\\')
    &&& windows ==> !part.contains(':')
}

/// A relative path that was sent is stored under the same relative path.
pub proof fn law_structure_is_preserved(rel: PathView, windows: bool)
    requires
        rel.root.len() == 0,
        rel.parts.len() > 0,
        forall|i: int| 0 <= i < rel.parts.len() ==> is_sendable(#[trigger] rel.parts[i], windows),
    ensures
        sanitized(with_slashes(rel.shown()), windows) == Some(rel),
{
    let parts = rel.parts;
    assert(rel.root =~= Seq::<char>::empty());
    assert(rel.shown() =~= text::joined(parts, '/'));
    assert forall|i: int| 0 <= i < parts.len() implies !(#[trigger] parts[i]).contains('/')
        && !parts[i].contains('\\') && names_something(parts[i]) by {
        assert(is_sendable(parts[i], windows));
    }
    text::lemma_joined_lacks(parts, '/', '\\');
    lemma_no_backslash(rel.shown());
    text::law_split_undoes_join(parts, '/');
    lemma_all_named(parts, parts.len() as int);
    assert(parts.take(parts.len() as int) =~= parts);
    assert forall|i: int| windows && 0 <= i < parts.len() implies !(#[trigger] parts[i]).contains(
        ':',
    ) by {
        assert(is_sendable(parts[i], windows));
    }
}

/// What a sender tells about its progress.
#[derive(Debug, PartialEq, Eq)]
pub enum SendEvent {
    Connecting,
    WaitingForAccept,
    Rejected,
    Progress {
        file: String,
        bytes_done: u64,
        file_size: u64,
        files_done: usize,
        total_files: usize,
    },
    Finished { files_sent: usize, bytes_sent: u64 },
}

/// What a sender does next.
#[derive(Debug, Clone, Copy, PartialEq, Eq, Structural)]
pub enum SendStep {
    /// Stop: the user asked for it.
    Stop,
    /// Open the file at this position of the list.
    Open(usize),
    /// Read up to `TRANSFER_CHUNK` bytes from the open file and pass them on.
    Read,
    /// All files were sent.
    Done,
}

/// The state of sending the contents of the files after an accept.
#[derive(Debug)]
pub struct SendRun {
    pub files: Vec<FileToSend>,
    /// How many files are finished.
    pub index: usize,
    pub open: bool,
    /// Bytes of the open file passed on so far.
    pub sent: u64,
    pub bytes_sent: u64,
}

impl SendRun {
    pub open spec fn wf(self) -> bool {
        &&& self.index <= self.files@.len()
        &&& self.open ==> self.index < self.files@.len()
    }

    pub fn new(files: Vec<FileToSend>) -> (r: SendRun)
        ensures
            r.wf(),
            r == (SendRun { files, index: 0, open: false, sent: 0, bytes_sent: 0 }),
    {
        SendRun { files, index: 0, open: false, sent: 0, bytes_sent: 0 }
    }

    /// Whether the receiver's one-byte answer accepts the transfer.
    pub fn accepted(answer: u8) -> (r: bool)
        ensures
            r == (answer == 1),
    {
        answer == 1
    }

    /// What to do next, given whether a stop was asked for.
    pub fn next(&mut self, cancelled: bool) -> (step: SendStep)
        requires
            old(self).wf(),
        ensures
            final(self).wf(),
            !old(self).open && old(self).index == old(self).files@.len() ==> step is Done
                && *final(self) == *old(self),
            (old(self).open || old(self).index < old(self).files@.len()) && cancelled
                ==> step is Stop && *final(self) == *old(self),
            old(self).open && !cancelled ==> step is Read && *final(self) == *old(self),
            !old(self).open && old(self).index < old(self).files@.len() && !cancelled ==> step
                == SendStep::Open(old(self).index) && *final(self) == (SendRun {
                open: true,
                sent: 0,
                ..*old(self)
            }),
    {
        if !self.open && self.index == self.files.len() {
            return SendStep::Done;
        }
        if cancelled {
            return SendStep::Stop;
        }
        if self.open {
            return SendStep::Read;
        }
        self.open = true;
        self.sent = 0;
        SendStep::Open(self.index)
    }

    /// Takes note that `n` bytes of the open file were passed on; none means
    /// that the file has ended.
    pub fn moved(&mut self, n: u64) -> (event: Option<SendEvent>)
        requires
            old(self).wf(),
            old(self).open,
        ensures
            final(self).wf(),
            n == 0 ==> event is None && *final(self) == (SendRun {
                open: false,
                index: (old(self).index + 1) as usize,
                ..*old(self)
            }),
            n > 0 ==> {
                let sent = old(self).sent.wrapping_add(n);
                let file = old(self).files@[old(self).index as int];
                &&& *final(self) == (SendRun {
                    sent,
                    bytes_sent: old(self).bytes_sent.wrapping_add(n),
                    ..*old(self)
                })
                &&& event is Some
                &&& event->0 matches SendEvent::Progress {
                    file: name,
                    bytes_done,
                    file_size,
                    files_done,
                    total_files,
                }
                &&& name@ == file.rel_path@
                &&& bytes_done == sent
                &&& file_size == file.size
                &&& files_done == old(self).index
                &&& total_files == old(self).files@.len()
            },
    {
        if n == 0 {
            assert(self.files.len() <= usize::MAX);
            self.open = false;
            self.index = self.index + 1;
            return None;
        }
        self.sent = self.sent.wrapping_add(n);
        self.bytes_sent = self.bytes_sent.wrapping_add(n);
        Some(
            SendEvent::Progress {
                file: self.files[self.index].rel_path.clone(),
                bytes_done: self.sent,
                file_size: self.files[self.index].size,
                files_done: self.index,
                total_files: self.files.len(),
            },
        )
    }

    /// The event that ends a complete transfer.
    pub fn finished(&self) -> (event: SendEvent)
        ensures
            event == (SendEvent::Finished {
                files_sent: self.files.len(),
                bytes_sent: self.bytes_sent,
            }),
    {
        SendEvent::Finished { files_sent: self.files.len(), bytes_sent: self.bytes_sent }
    }
}

/// What a receiver tells about its progress.
#[derive(Debug, PartialEq, Eq)]
pub enum ReceiveEvent {
    /// Somebody wants to send; the user accepts or rejects.
    IncomingRequest { manifest: IncomingManifest },
    Progress {
        file: String,
        bytes_done: u64,
        file_size: u64,
        files_done: usize,
        total_files: usize,
    },
    Finished { files_received: usize, bytes_received: u64, dest: FilePath },
    Failed(String),
}

/// The answer to an offer: no answer in time counts as a rejection.
pub fn answer_byte(response: Option<bool>) -> (b: u8)
    ensures
        b == (if response == Some(true) {
            1u8
        } else {
            0u8
        }),
{
    match response {
        Some(true) => 1,
        _ => 0,
    }
}

/// What a receiver does next.
#[derive(Debug, PartialEq, Eq)]
pub enum ReceiveStep {
    /// Stop: the user asked for it.
    Stop,
    /// The next file has no place below the destination; it is left out.
    Skip,
    /// Create this file, and the folder that holds it.
    Create(FilePath),
    /// Read exactly this many bytes and write them to the open file.
    Move(usize),
    /// Read exactly this many bytes of a file that is left out and drop them.
    Drop(usize),
    /// The current file is complete.
    Close,
    /// All files are handled.
    Done,
}

/// The state of receiving the contents of the files after an accept.
#[derive(Debug)]
pub struct ReceiveRun {
    pub dest: FilePath,
    pub windows: bool,
    pub files: Vec<(String, u64)>,
    /// How many files are handled.
    pub index: usize,
    /// Whether the bytes of the current file are coming, and whether they are
    /// stored; otherwise the file is left out and they are dropped.
    pub open: bool,
    pub stored: bool,
    /// Bytes of the current file still to come, and those that came.
    pub remaining: u64,
    pub done: u64,
    /// Bytes that were stored.
    pub bytes_received: u64,
    /// Bytes that were read, stored or not.
    pub bytes_taken: u64,
}

/// How many of the `remaining` bytes are moved in one go.
pub open spec fn chunk_of(remaining: u64) -> u64 {
    if remaining < TRANSFER_CHUNK {
        remaining
    } else {
        TRANSFER_CHUNK
    }
}

fn next_chunk(remaining: u64) -> (n: u64)
    ensures
        n == chunk_of(remaining),
{
    if remaining < TRANSFER_CHUNK {
        remaining
    } else {
        TRANSFER_CHUNK
    }
}

/// Bytes that the first `n` files bring, modulo 2^64: those of the files that
/// have a place below the destination.
pub open spec fn stored_size(files: Seq<(String, u64)>, windows: bool, n: int) -> u64
    decreases n,
{
    if n <= 0 {
        0
    } else if sanitized(files[n - 1].0@, windows) is Some {
        stored_size(files, windows, n - 1).wrapping_add(files[n - 1].1)
    } else {
        stored_size(files, windows, n - 1)
    }
}

/// Bytes that are sent for the first `n` files, modulo 2^64.
pub open spec fn sent_size(files: Seq<(String, u64)>, n: int) -> u64
    decreases n,
{
    if n <= 0 {
        0
    } else {
        sent_size(files, n - 1).wrapping_add(files[n - 1].1)
    }
}

impl ReceiveRun {
    /// How many bytes of the current file have come.
    pub open spec fn came(self) -> u64 {
        if self.open {
            self.done
        } else {
            0
        }
    }

    /// The current file is accounted for to the byte; the bytes read are those
    /// of all files so far, the bytes stored those of the files that have a
    /// place.
    pub open spec fn wf(self) -> bool {
        let before = stored_size(self.files@, self.windows, self.index as int);
        &&& self.index <= self.files@.len()
        &&& self.bytes_taken == sent_size(self.files@, self.index as int).wrapping_add(self.came())
        &&& if self.open {
            &&& self.index < self.files@.len()
            &&& self.stored == (sanitized(self.files@[self.index as int].0@, self.windows) is Some)
            &&& self.done + self.remaining == self.files@[self.index as int].1
            &&& self.bytes_received == (if self.stored {
                before.wrapping_add(self.done)
            } else {
                before
            })
        } else {
            self.bytes_received == before
        }
    }

    pub fn new(dest: FilePath, windows: bool, files: Vec<(String, u64)>) -> (r: ReceiveRun)
        ensures
            r.wf(),
            r == (ReceiveRun {
                dest,
                windows,
                files,
                index: 0,
                open: false,
                stored: false,
                remaining: 0,
                done: 0,
                bytes_received: 0,
                bytes_taken: 0,
            }),
    {
        ReceiveRun {
            dest,
            windows,
            files,
            index: 0,
            open: false,
            stored: false,
            remaining: 0,
            done: 0,
            bytes_received: 0,
            bytes_taken: 0,
        }
    }

    /// What to do next, given whether a stop was asked for.
    pub fn next(&mut self, cancelled: bool) -> (step: ReceiveStep)
        requires
            old(self).wf(),
        ensures
            final(self).wf(),
            old(self).open && old(self).remaining == 0 ==> step is Close && *final(self) == (
            ReceiveRun { open: false, index: (old(self).index + 1) as usize, ..*old(self) }),
            old(self).open && old(self).remaining > 0 && cancelled ==> step is Stop
                && *final(self) == *old(self),
            old(self).open && old(self).remaining > 0 && !cancelled ==> *final(self) == *old(self)
                && step == (if old(self).stored {
                ReceiveStep::Move(chunk_of(old(self).remaining) as usize)
            } else {
                ReceiveStep::Drop(chunk_of(old(self).remaining) as usize)
            }),
            !old(self).open && old(self).index == old(self).files@.len() ==> step is Done
                && *final(self) == *old(self),
            !old(self).open && old(self).index < old(self).files@.len() && cancelled
                ==> step is Stop && *final(self) == *old(self),
            !old(self).open && old(self).index < old(self).files@.len() && !cancelled ==> {
                let (name, size) = old(self).files@[old(self).index as int];
                match sanitized(name@, old(self).windows) {
                    None => step is Skip && *final(self) == (ReceiveRun {
                        open: true,
                        stored: false,
                        remaining: size,
                        done: 0,
                        ..*old(self)
                    }),
                    Some(rel) => {
                        &&& step matches ReceiveStep::Create(place)
                        &&& place@ == old(self).dest@.joined(rel)
                        &&& *final(self) == (ReceiveRun {
                            open: true,
                            stored: true,
                            remaining: size,
                            done: 0,
                            ..*old(self)
                        })
                    },
                }
            },
    {
        let count: usize = self.files.len();
        if self.open {
            if self.remaining == 0 {
                self.open = false;
                self.index = self.index + 1;
                return ReceiveStep::Close;
            }
            if cancelled {
                return ReceiveStep::Stop;
            }
            let want: u64 = next_chunk(self.remaining);
            if self.stored {
                return ReceiveStep::Move(want as usize);
            }
            return ReceiveStep::Drop(want as usize);
        }
        if self.index == count {
            return ReceiveStep::Done;
        }
        if cancelled {
            return ReceiveStep::Stop;
        }
        match sanitize_relative_path(self.files[self.index].0.as_str(), self.windows) {
            None => {
                self.open = true;
                self.stored = false;
                self.remaining = self.files[self.index].1;
                self.done = 0;
                ReceiveStep::Skip
            },
            Some(rel) => {
                let place = self.dest.join(&rel);
                self.open = true;
                self.stored = true;
                self.remaining = self.files[self.index].1;
                self.done = 0;
                ReceiveStep::Create(place)
            },
        }
    }

    /// Takes note that the bytes last asked for were read and dropped.
    pub fn dropped(&mut self)
        requires
            old(self).wf(),
            old(self).open,
            !old(self).stored,
        ensures
            final(self).wf(),
            ({
                let n = chunk_of(old(self).remaining);
                *final(self) == (ReceiveRun {
                    remaining: (old(self).remaining - n) as u64,
                    done: (old(self).done + n) as u64,
                    bytes_taken: old(self).bytes_taken.wrapping_add(n),
                    ..*old(self)
                })
            }),
    {
        let n: u64 = next_chunk(self.remaining);
        self.remaining = self.remaining - n;
        self.done = self.done + n;
        self.bytes_taken = self.bytes_taken.wrapping_add(n);
    }

    /// Takes note that the bytes last asked for were moved.
    pub fn moved(&mut self) -> (event: ReceiveEvent)
        requires
            old(self).wf(),
            old(self).open,
            old(self).stored,
        ensures
            final(self).wf(),
            ({
                let n = chunk_of(old(self).remaining);
                let (name, size) = old(self).files@[old(self).index as int];
                &&& *final(self) == (ReceiveRun {
                    remaining: (old(self).remaining - n) as u64,
                    done: (old(self).done + n) as u64,
                    bytes_received: old(self).bytes_received.wrapping_add(n),
                    bytes_taken: old(self).bytes_taken.wrapping_add(n),
                    ..*old(self)
                })
                &&& event matches ReceiveEvent::Progress {
                    file,
                    bytes_done,
                    file_size,
                    files_done,
                    total_files,
                }
                &&& file@ == name@
                &&& bytes_done == old(self).done + n
                &&& file_size == size
                &&& files_done == old(self).index
                &&& total_files == old(self).files@.len()
            }),
    {
        let n: u64 = next_chunk(self.remaining);
        self.remaining = self.remaining - n;
        self.done = self.done + n;
        self.bytes_received = self.bytes_received.wrapping_add(n);
        self.bytes_taken = self.bytes_taken.wrapping_add(n);
        ReceiveEvent::Progress {
            file: self.files[self.index].0.clone(),
            bytes_done: self.done,
            file_size: self.files[self.index].1,
            files_done: self.index,
            total_files: self.files.len(),
        }
    }

    /// The event that ends a complete transfer.
    pub fn finished(&self) -> (event: ReceiveEvent)
        ensures
            event matches ReceiveEvent::Finished { files_received, bytes_received, dest }
                && files_received == self.files@.len() && bytes_received == self.bytes_received
                && dest@ == self.dest@,
    {
        ReceiveEvent::Finished {
            files_received: self.files.len(),
            bytes_received: self.bytes_received,
            dest: self.dest.clone(),
        }
    }
}

/// What a sender puts on the wire after an accept: the contents of the first
/// `n` files back to back.
pub open spec fn sent_bytes(contents: Seq<Seq<u8>>, n: int) -> Seq<u8>
    decreases n,
{
    if n <= 0 {
        Seq::empty()
    } else {
        sent_bytes(contents, n - 1) + contents[n - 1]
    }
}

proof fn lemma_sent_before(contents: Seq<Seq<u8>>, i: int, n: int)
    requires
        0 <= i < n <= contents.len(),
    ensures
        sent_bytes(contents, i).len() + contents[i].len() <= sent_bytes(contents, n).len(),
        sent_bytes(contents, n).subrange(
            sent_bytes(contents, i).len() as int,
            (sent_bytes(contents, i).len() + contents[i].len()) as int,
        ) == contents[i],
    decreases n,
{
    let from = sent_bytes(contents, i).len() as int;
    let to = from + contents[i].len();
    let all = sent_bytes(contents, n);
    if i == n - 1 {
        assert(all.subrange(from, to) =~= contents[i]);
    } else {
        lemma_sent_before(contents, i, n - 1);
        let before = sent_bytes(contents, n - 1);
        assert(all.subrange(from, to) =~= before.subrange(from, to));
    }
}

proof fn lemma_sent_size(files: Seq<(String, u64)>, contents: Seq<Seq<u8>>, i: int)
    requires
        0 <= i <= files.len(),
        contents.len() == files.len(),
        forall|j: int| 0 <= j < files.len() ==> (#[trigger] contents[j]).len() == files[j].1,
        sent_bytes(contents, i).len() <= u64::MAX,
    ensures
        sent_size(files, i) == sent_bytes(contents, i).len(),
    decreases i,
{
    if i > 0 {
        lemma_sent_size(files, contents, i - 1);
        assert(contents[i - 1].len() == files[i - 1].1);
    }
}

/// At every moment the bytes that come next on the wire are those of the
/// current file that have not come yet, whether the files before it were
/// stored or left out: every file gets the bytes that were sent for it.
pub proof fn law_files_arrive_intact(run: ReceiveRun, contents: Seq<Seq<u8>>)
    requires
        run.wf(),
        run.index < run.files@.len(),
        contents.len() == run.files@.len(),
        forall|j: int|
            0 <= j < run.files@.len() ==> (#[trigger] contents[j]).len() == run.files@[j].1,
        sent_bytes(contents, contents.len() as int).len() <= u64::MAX,
    ensures
        ({
            let all = sent_bytes(contents, contents.len() as int);
            let content = contents[run.index as int];
            let came = run.came() as int;
            let at = run.bytes_taken as int;
            &&& at + content.len() - came <= all.len()
            &&& all.subrange(at, at + content.len() - came) == content.skip(came)
        }),
{
    let i = run.index as int;
    let all = sent_bytes(contents, contents.len() as int);
    let from = sent_bytes(contents, i).len() as int;
    let content = contents[i];
    let came = run.came() as int;
    lemma_sent_before(contents, i, contents.len() as int);
    lemma_sent_size(run.files@, contents, i);
    assert(content.len() == run.files@[i].1);
    assert(run.bytes_taken == from + came);
    let whole = all.subrange(from, from + content.len());
    assert(all.subrange(from + came, from + content.len()) =~= whole.skip(came));
}

/// The event for a transfer that ended with an error: none when the user
/// stopped it.
pub fn failure_event(e: &EngineError) -> (r: Option<ReceiveEvent>)
    ensures
        e is Cancelled ==> r is None,
        !(e is Cancelled) ==> {
            &&& r is Some
            &&& r->0 matches ReceiveEvent::Failed(text)
            &&& text@ == e@.sentence()
        },
{
    match e {
        EngineError::Cancelled => None,
        _ => Some(ReceiveEvent::Failed(e.message())),
    }
}

/// A received path never leads out of the destination: what is left of it
/// names something in every component, and none of them holds a slash.
pub proof fn law_received_paths_are_tame(raw: &str, windows: bool, r: Option<FilePath>)
    requires
        call_ensures(sanitize_relative_path, (raw, windows), r),
        r is Some,
    ensures
        r->0@.root.len() == 0,
        r->0@.parts.len() > 0,
        forall|i: int|
            0 <= i < r->0@.parts.len() ==> (#[trigger] r->0@.parts[i]).len() > 0 && r->0@.parts[i]
                != seq!['.'] && r->0@.parts[i] != seq!['.', '.'],
        windows ==> forall|i: int|
            0 <= i < r->0@.parts.len() ==> !(#[trigger] r->0@.parts[i]).contains(':'),
{
    let ps = text::pieces(with_slashes(raw@), '/');
    lemma_named_pieces(ps, ps.len() as int);
}

/// A path of components that can be sent is stored under the same components,
/// none left out and in the same order; both slashes separate them.
pub proof fn law_received_paths_keep_their_shape(
    raw: &str,
    windows: bool,
    r: Option<FilePath>,
    parts: Seq<Seq<char>>,
)
    requires
        call_ensures(sanitize_relative_path, (raw, windows), r),
        parts.len() > 0,
        forall|i: int| 0 <= i < parts.len() ==> is_sendable(#[trigger] parts[i], windows),
        with_slashes(raw@) == text::joined(parts, '/'),
    ensures
        r is Some,
        r->0@.root.len() == 0,
        r->0@.parts == parts,
{
    assert forall|i: int| 0 <= i < parts.len() implies !(#[trigger] parts[i]).contains('/')
        && names_something(parts[i]) by {
        assert(is_sendable(parts[i], windows));
    }
    text::law_split_undoes_join(parts, '/');
    lemma_all_named(parts, parts.len() as int);
    assert(parts.take(parts.len() as int) =~= parts);
    assert forall|i: int| windows && 0 <= i < parts.len() implies !(#[trigger] parts[i]).contains(
        ':',
    ) by {
        assert(is_sendable(parts[i], windows));
    }
}

/// Only a user who accepts makes the sender send: the answer is read as an
/// accept exactly when it was one, and no answer is a refusal.
pub proof fn law_only_an_accept_is_one(response: Option<bool>, b: u8, r: bool, other: u8, o: bool)
    requires
        call_ensures(answer_byte, (response,), b),
        call_ensures(SendRun::accepted, (b,), r),
        call_ensures(SendRun::accepted, (other,), o),
    ensures
        r == (response == Some(true)),
        b == 0 || b == 1,
        o ==> other == 1,
{
}

/// The files are sent in the order of the manifest, each to its end, and every
/// byte of them counts.
pub proof fn law_files_are_sent_in_order(
    run: &mut SendRun,
    step: SendStep,
    moving: &mut SendRun,
    n: u64,
    event: Option<SendEvent>,
)
    requires
        call_ensures(SendRun::next, (run, false), step),
        call_ensures(SendRun::moved, (moving, n), event),
        run.wf(),
        moving.wf(),
        moving.open,
        moving.sent + n <= u64::MAX,
        moving.bytes_sent + n <= u64::MAX,
    ensures
        step is Open == (!old(run).open && old(run).index < old(run).files@.len()),
        step is Open ==> step == SendStep::Open(old(run).index),
        step is Done == (!old(run).open && old(run).index == old(run).files@.len()),
        final(run).index == old(run).index,
        final(moving).index == old(moving).index + (if n == 0 {
            1int
        } else {
            0int
        }),
        final(moving).bytes_sent == old(moving).bytes_sent + n,
        n > 0 ==> final(moving).open && final(moving).sent == old(moving).sent + n,
        n == 0 ==> !final(moving).open,
        event is Some == (n > 0),
{
    assert(moving.files.len() <= usize::MAX);
}

/// A file is stored below the destination under what its path comes to, or its
/// bytes are dropped; either way exactly as many bytes are read for it as the
/// manifest says, and never more than it has left.
pub proof fn law_files_are_stored_where_they_belong(
    run: &mut ReceiveRun,
    step: ReceiveStep,
    raw: &str,
    rel: Option<FilePath>,
)
    requires
        call_ensures(ReceiveRun::next, (run, false), step),
        run.wf(),
        run.index < run.files@.len(),
        raw@ == run.files@[run.index as int].0@,
        call_ensures(sanitize_relative_path, (raw, run.windows), rel),
    ensures
        !old(run).open && rel is Some ==> (step matches ReceiveStep::Create(p) && p@.root == old(
            run).dest@.root && p@.parts == old(run).dest@.parts + rel->0@.parts),
        !old(run).open && rel is None ==> step is Skip,
        !old(run).open ==> final(run).open && final(run).remaining == old(run).files@[old(
            run).index as int].1 && final(run).stored == rel is Some,
        step matches ReceiveStep::Move(n) ==> old(run).stored && 0 < n <= old(run).remaining,
        step matches ReceiveStep::Drop(n) ==> !old(run).stored && 0 < n <= old(run).remaining,
        step is Close ==> old(run).remaining == 0 && final(run).index == old(run).index + 1,
{
    assert(run.files.len() <= usize::MAX);
}

/// The bytes asked for are counted as taken, and as stored only when they were
/// written to a file.
pub proof fn law_taken_bytes_are_accounted_for(
    run: &mut ReceiveRun,
    event: ReceiveEvent,
    other: &mut ReceiveRun,
    u: (),
    asking: &mut ReceiveRun,
    step: ReceiveStep,
)
    requires
        call_ensures(ReceiveRun::moved, (run,), event),
        call_ensures(ReceiveRun::dropped, (other,), u),
        call_ensures(ReceiveRun::next, (asking, false), step),
        *asking == *run,
        run.wf(),
        run.open,
        run.stored,
        run.remaining > 0,
        other.wf(),
        other.open,
        !other.stored,
        run.bytes_taken + run.remaining <= u64::MAX,
        run.bytes_received + run.remaining <= u64::MAX,
    ensures
        step matches ReceiveStep::Move(n) && final(run).done == old(run).done + n
            && final(run).remaining == old(run).remaining - n && final(run).bytes_taken
            == old(run).bytes_taken + n && final(run).bytes_received == old(run).bytes_received + n,
        final(other).bytes_received == old(other).bytes_received,
        final(other).done + final(other).remaining == old(other).done + old(other).remaining,
        old(other).remaining > 0 ==> final(other).remaining < old(other).remaining,
        final(run).index == old(run).index,
        final(other).index == old(other).index,
{
}

/// Sending starts with the files that were given, receiving with the offer that
/// was accepted, and both tell at the end what they counted.
pub proof fn law_transfers_start_and_end_as_counted(
    files: Vec<FileToSend>,
    sending: SendRun,
    dest: FilePath,
    windows: bool,
    offered: Vec<(String, u64)>,
    receiving: ReceiveRun,
    s: &SendRun,
    sent: SendEvent,
    t: &ReceiveRun,
    received: ReceiveEvent,
)
    requires
        call_ensures(SendRun::new, (files,), sending),
        call_ensures(ReceiveRun::new, (dest, windows, offered), receiving),
        call_ensures(SendRun::finished, (s,), sent),
        call_ensures(ReceiveRun::finished, (t,), received),
    ensures
        sending.files == files && sending.index == 0 && sending.bytes_sent == 0,
        receiving.dest == dest && receiving.files == offered && receiving.index == 0
            && receiving.bytes_received == 0,
        sent matches SendEvent::Finished { files_sent, bytes_sent } && files_sent == s.files@.len()
            && bytes_sent == s.bytes_sent,
        received matches ReceiveEvent::Finished { files_received, bytes_received, dest: place }
            && files_received == t.files@.len() && bytes_received == t.bytes_received && place@
            == t.dest@,
{
}

/// A stop is no failure, and every other error is told.
pub proof fn law_stops_are_no_failures(e: &EngineError, r: Option<ReceiveEvent>)
    requires
        call_ensures(failure_event, (e,), r),
    ensures
        *e is Cancelled <==> r is None,
        r is Some ==> r->0 is Failed,
{
}

} // verus!
