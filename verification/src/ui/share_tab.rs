//! The tab that sends files to other computers and receives theirs.

use vstd::prelude::*;

use crate::paths;
use crate::paths::{FilePath, PathView};
use crate::share;
use crate::share::discovery::DiscoveryEvent;
use crate::share::transfer;
use crate::share::transfer::{ReceiveEvent, SendEvent};
use crate::share::{FileToSend, IncomingManifest, PeerAddr, PeerInfo};
use crate::text;
use crate::ui;
use crate::ui::Notice;
use crate::util;
use crate::util::Log;

verus! {

/// How far a transfer is.
#[derive(Debug, PartialEq, Eq)]
pub struct Progress {
    pub file: String,
    pub bytes_done: u64,
    pub file_size: u64,
    pub files_done: usize,
    pub total_files: usize,
}

/// What the tab remembers.
#[derive(Debug)]
pub struct ShareTab {
    pub device_name: String,
    pub discoverable: bool,
    pub session_id: [u8; 16],
    pub peers: Vec<PeerInfo>,
    pub dest_dir: FilePath,
    /// Somebody's offer that awaits an answer.
    pub pending_request: Option<IncomingManifest>,
    pub receive_progress: Option<Progress>,
    pub sources: Vec<FilePath>,
    pub sending: bool,
    pub send_target: Option<PeerInfo>,
    pub send_progress: Option<Progress>,
    pub log: Log,
}

/// What the switch for being found by others asks for.
#[derive(Debug, Clone, Copy, PartialEq, Eq, Structural)]
pub enum Visibility {
    /// Nothing has changed.
    Same,
    /// Announce this computer and wait for transfers.
    Start,
    /// Stop both.
    Stop,
}

/// What is to be sent, and where to.
#[derive(Debug, PartialEq, Eq)]
pub struct SendJob {
    pub addr: PeerAddr,
    pub sender_name: String,
    pub files: Vec<FileToSend>,
}

/// Where received files go: below the downloads of the user, or among
/// temporary files where there is no home.
pub open spec fn received_place(home: Option<PathView>, temp: PathView) -> PathView {
    (match home {
        Some(h) => h.child("Downloads"@),
        None => temp,
    }).child("SuperCopierReceived"@)
}

/// Where received files go.
pub fn received_dir(home: &Option<FilePath>, temp: &FilePath) -> (r: FilePath)
    ensures
        r@ == received_place(
            match *home {
                Some(h) => Some(h@),
                None => None,
            },
            temp@,
        ),
{
    let base = match home {
        Some(h) => h.child("Downloads"),
        None => temp.clone(),
    };
    base.child("SuperCopierReceived")
}

/// The folder of what was chosen for sending.
pub open spec fn folder_around(source: PathView) -> PathView {
    match source.parent() {
        Some(p) => p,
        None => source,
    }
}

/// The path that a file is sent under: the one below the folder of what was
/// chosen, with slashes.
pub open spec fn sent_name(path: PathView, source: PathView) -> Seq<char> {
    transfer::with_slashes(paths::relative_to(path, folder_around(source)).shown())
}

/// Whether all components of a relative path can be sent.
pub open spec fn all_sendable(rel: PathView, windows: bool) -> bool {
    &&& rel.parts.len() > 0
    &&& forall|i: int|
        0 <= i < rel.parts.len() ==> transfer::is_sendable(#[trigger] rel.parts[i], windows)
}

/// A file found in what was chosen for sending.
pub fn file_to_send(path: &FilePath, source: &FilePath, size: u64) -> (r: FileToSend)
    ensures
        r.abs_path@ == path@,
        r.rel_path@ == sent_name(path@, source@),
        r.size == size,
{
    let base = match source.parent() {
        Some(p) => p,
        None => source.clone(),
    };
    let rel = match path.strip_prefix(&base) {
        Some(rel) => rel,
        None => path.clone(),
    };
    FileToSend {
        abs_path: path.clone(),
        rel_path: transfer::slashed(rel.display().as_str()),
        size,
    }
}

/// A file that is sent is stored on the other side where it was below the
/// folder of what was chosen.
pub proof fn law_sent_file_keeps_its_place(path: PathView, source: PathView, windows: bool)
    requires
        path.under(folder_around(source)),
        all_sendable(paths::relative_to(path, folder_around(source)), windows),
    ensures
        transfer::sanitized(sent_name(path, source), windows) == Some(
            paths::relative_to(path, folder_around(source)),
        ),
{
    transfer::law_structure_is_preserved(
        paths::relative_to(path, folder_around(source)),
        windows,
    );
}

/// Whether a peer has an address.
pub open spec fn knows(peers: Seq<PeerInfo>, addr: PeerAddr) -> bool {
    exists|i: int| 0 <= i < peers.len() && (#[trigger] peers[i]).addr == addr
}

/// The peers but for those at an address.
pub open spec fn others(peers: Seq<PeerInfo>, addr: PeerAddr) -> Seq<PeerInfo> {
    peers.filter(|p: PeerInfo| p.addr != addr)
}

/// How far a transfer is, in words.
pub open spec fn progress_line(start: Seq<char>, p: Progress) -> Seq<char> {
    start + " ("@ + text::dec(p.files_done.wrapping_add(1) as nat) + "/"@ + text::dec(
        p.total_files as nat,
    ) + ")…"@
}

fn write_progress(start: &str, p: &Progress) -> (r: String)
    ensures
        r@ == progress_line(start@, *p),
{
    let mut r = start.to_owned();
    r.append(" (");
    r.append(text::decimal(p.files_done.wrapping_add(1) as u64).as_str());
    r.append("/");
    r.append(text::decimal(p.total_files as u64).as_str());
    r.append(")…");
    r
}

impl ShareTab {
    pub fn new(device_name: String, session_id: [u8; 16], dest_dir: FilePath) -> (r: ShareTab)
        ensures
            r.wf(),
            r.device_name == device_name,
            r.session_id == session_id,
            r.dest_dir == dest_dir,
            !r.discoverable,
            r.peers@.len() == 0,
            r.pending_request is None,
            r.receive_progress is None,
            r.sources@.len() == 0,
            !r.sending,
            r.send_target is None,
            r.send_progress is None,
            r.log@.len() == 0,
            r.log.cap() == 200,
    {
        ShareTab {
            device_name,
            discoverable: false,
            session_id,
            peers: Vec::new(),
            dest_dir,
            pending_request: None,
            receive_progress: None,
            sources: Vec::new(),
            sending: false,
            send_target: None,
            send_progress: None,
            log: Log::default(),
        }
    }

    pub open spec fn wf(self) -> bool {
        self.log.wf()
    }

    pub fn is_running(&self) -> (r: bool)
        ensures
            r == (self.discoverable || self.sending),
    {
        self.discoverable || self.sending
    }

    /// Lets others find this computer, or no longer.
    pub fn set_discoverable(&mut self, on: bool) -> (r: Visibility)
        requires
            old(self).wf(),
        ensures
            final(self).wf(),
            on == old(self).discoverable ==> r is Same && *final(self) == *old(self),
            on != old(self).discoverable ==> {
                &&& r == (if on {
                    Visibility::Start
                } else {
                    Visibility::Stop
                })
                &&& final(self).peers@.len() == 0
                &&& ui::wrote(
                    old(self).log,
                    final(self).log,
                    if on {
                        "Now discoverable on the local network."@
                    } else {
                        "No longer discoverable."@
                    },
                )
                &&& *final(self) == (ShareTab {
                    discoverable: on,
                    peers: final(self).peers,
                    log: final(self).log,
                    ..*old(self)
                })
            },
    {
        if on == self.discoverable {
            return Visibility::Same;
        }
        self.discoverable = on;
        self.peers.clear();
        if on {
            self.log.push("Now discoverable on the local network.".to_owned());
            Visibility::Start
        } else {
            self.log.push("No longer discoverable.".to_owned());
            Visibility::Stop
        }
    }

    fn is_known(&self, addr: PeerAddr) -> (r: bool)
        ensures
            r == knows(self.peers@, addr),
    {
        let mut i: usize = 0;
        while i < self.peers.len()
            invariant
                i <= self.peers@.len(),
                forall|j: int| 0 <= j < i ==> (#[trigger] self.peers@[j]).addr != addr,
            decreases self.peers@.len() - i,
        {
            if self.peers[i].addr == addr {
                return true;
            }
            i = i + 1;
        }
        false
    }

    /// Another computer was found, or is gone.
    pub fn on_discovery(&mut self, event: DiscoveryEvent)
        requires
            old(self).wf(),
        ensures
            final(self).wf(),
            final(self).peers@ == (match event {
                DiscoveryEvent::PeerFound(p) => if knows(old(self).peers@, p.addr) {
                    old(self).peers@
                } else {
                    old(self).peers@.push(p)
                },
                DiscoveryEvent::PeerLost(addr) => others(old(self).peers@, addr),
            }),
            *final(self) == (ShareTab { peers: final(self).peers, ..*old(self) }),
    {
        match event {
            DiscoveryEvent::PeerFound(p) => {
                if !self.is_known(p.addr) {
                    self.peers.push(p);
                }
            },
            DiscoveryEvent::PeerLost(addr) => {
                let mut peers: Vec<PeerInfo> = Vec::new();
                std::mem::swap(&mut peers, &mut self.peers);
                let ghost all = peers@;
                let mut keep: Vec<bool> = Vec::new();
                let mut i: usize = 0;
                while i < peers.len()
                    invariant
                        i <= peers@.len(),
                        keep@.len() == i,
                        forall|j: int|
                            0 <= j < i ==> #[trigger] keep@[j] == (peers@[j].addr != addr),
                    decreases peers@.len() - i,
                {
                    keep.push(peers[i].addr != addr);
                    i = i + 1;
                }
                proof {
                    ui::selection::lemma_kept(
                        all,
                        keep@,
                        |p: PeerInfo| p.addr != addr,
                        all.len() as int,
                    );
                    assert(all.take(all.len() as int) =~= all);
                }
                self.peers = ui::selection::keep_at(peers, &keep);
            },
        }
    }

    /// Somebody sends files here.
    pub fn on_receive(&mut self, event: ReceiveEvent) -> (notice: Option<Notice>)
        requires
            old(self).wf(),
        ensures
            final(self).wf(),
            match event {
                ReceiveEvent::IncomingRequest { manifest } => {
                    &&& *final(self) == (ShareTab {
                        pending_request: Some(manifest),
                        ..*old(self)
                    })
                    &&& notice is None
                },
                ReceiveEvent::Progress { file, bytes_done, file_size, files_done, total_files } => {
                    &&& *final(self) == (ShareTab {
                        receive_progress: Some(
                            Progress { file, bytes_done, file_size, files_done, total_files },
                        ),
                        ..*old(self)
                    })
                    &&& notice is None
                },
                ReceiveEvent::Finished { files_received, bytes_received, dest } => {
                    &&& ui::wrote(
                        old(self).log,
                        final(self).log,
                        "Received "@ + text::dec(files_received as nat) + " file(s), "@
                            + util::readable(bytes_received) + " → "@ + dest@.shown(),
                    )
                    &&& *final(self) == (ShareTab {
                        receive_progress: None,
                        log: final(self).log,
                        ..*old(self)
                    })
                    &&& notice is Some
                    &&& notice->0.says(
                        "Files received"@,
                        text::dec(files_received as nat) + " file(s) from a peer"@,
                    )
                },
                ReceiveEvent::Failed(message) => {
                    &&& ui::wrote(
                        old(self).log,
                        final(self).log,
                        "Receive failed: "@ + message@,
                    )
                    &&& *final(self) == (ShareTab {
                        receive_progress: None,
                        log: final(self).log,
                        ..*old(self)
                    })
                    &&& notice is None
                },
            },
    {
        match event {
            ReceiveEvent::IncomingRequest { manifest } => {
                self.pending_request = Some(manifest);
                None
            },
            ReceiveEvent::Progress { file, bytes_done, file_size, files_done, total_files } => {
                self.receive_progress = Some(
                    Progress { file, bytes_done, file_size, files_done, total_files },
                );
                None
            },
            ReceiveEvent::Finished { files_received, bytes_received, dest } => {
                self.receive_progress = None;
                let mut line = "Received ".to_owned();
                line.append(text::decimal(files_received as u64).as_str());
                line.append(" file(s), ");
                line.append(util::human_bytes(bytes_received).as_str());
                line.append(" → ");
                line.append(dest.display().as_str());
                self.log.push(line);
                let body = ui::counted(files_received, " file(s) from a peer");
                Some(Notice { summary: "Files received".to_owned(), body })
            },
            ReceiveEvent::Failed(message) => {
                self.receive_progress = None;
                let mut line = "Receive failed: ".to_owned();
                line.append(message.as_str());
                self.log.push(line);
                None
            },
        }
    }

    /// Files are being sent.
    pub fn on_send(&mut self, event: SendEvent) -> (notice: Option<Notice>)
        requires
            old(self).wf(),
        ensures
            final(self).wf(),
            match event {
                SendEvent::Connecting => {
                    &&& ui::wrote(old(self).log, final(self).log, "Connecting…"@)
                    &&& *final(self) == (ShareTab { log: final(self).log, ..*old(self) })
                    &&& notice is None
                },
                SendEvent::WaitingForAccept => {
                    &&& ui::wrote(
                        old(self).log,
                        final(self).log,
                        "Waiting for the other side to accept…"@,
                    )
                    &&& *final(self) == (ShareTab { log: final(self).log, ..*old(self) })
                    &&& notice is None
                },
                SendEvent::Rejected => {
                    &&& ui::wrote(
                        old(self).log,
                        final(self).log,
                        "The other side declined the transfer."@,
                    )
                    &&& *final(self) == (ShareTab {
                        sending: false,
                        log: final(self).log,
                        ..*old(self)
                    })
                    &&& notice is None
                },
                SendEvent::Progress { file, bytes_done, file_size, files_done, total_files } => {
                    &&& *final(self) == (ShareTab {
                        send_progress: Some(
                            Progress { file, bytes_done, file_size, files_done, total_files },
                        ),
                        ..*old(self)
                    })
                    &&& notice is None
                },
                SendEvent::Finished { files_sent, bytes_sent } => {
                    &&& ui::wrote(
                        old(self).log,
                        final(self).log,
                        "Sent "@ + text::dec(files_sent as nat) + " file(s), "@ + util::readable(
                            bytes_sent,
                        ),
                    )
                    &&& *final(self) == (ShareTab {
                        sending: false,
                        send_progress: None,
                        log: final(self).log,
                        ..*old(self)
                    })
                    &&& notice is Some
                    &&& notice->0.says(
                        "Files sent"@,
                        text::dec(files_sent as nat) + " file(s) sent"@,
                    )
                },
            },
    {
        match event {
            SendEvent::Connecting => {
                self.log.push("Connecting…".to_owned());
                None
            },
            SendEvent::WaitingForAccept => {
                self.log.push("Waiting for the other side to accept…".to_owned());
                None
            },
            SendEvent::Rejected => {
                self.log.push("The other side declined the transfer.".to_owned());
                self.sending = false;
                None
            },
            SendEvent::Progress { file, bytes_done, file_size, files_done, total_files } => {
                self.send_progress = Some(
                    Progress { file, bytes_done, file_size, files_done, total_files },
                );
                None
            },
            SendEvent::Finished { files_sent, bytes_sent } => {
                self.send_progress = None;
                let mut line = "Sent ".to_owned();
                line.append(text::decimal(files_sent as u64).as_str());
                line.append(" file(s), ");
                line.append(util::human_bytes(bytes_sent).as_str());
                self.log.push(line);
                self.sending = false;
                let body = ui::counted(files_sent, " file(s) sent");
                Some(Notice { summary: "Files sent".to_owned(), body })
            },
        }
    }

    pub fn can_send(&self) -> (r: bool)
        ensures
            r == (self.sources@.len() > 0 && !self.sending),
    {
        self.sources.len() > 0 && !self.sending
    }

    /// Starts sending the files found in what was chosen.
    pub fn send_to(&mut self, peer: PeerInfo, files: Vec<FileToSend>) -> (r: Option<SendJob>)
        requires
            old(self).wf(),
        ensures
            final(self).wf(),
            ({
                let can = old(self).sources@.len() > 0 && !old(self).sending;
                &&& !can ==> r is None && *final(self) == *old(self)
                &&& can && files@.len() == 0 ==> {
                    &&& r is None
                    &&& ui::wrote(
                        old(self).log,
                        final(self).log,
                        "Nothing to send — the selected item(s) contain no files."@,
                    )
                    &&& *final(self) == (ShareTab { log: final(self).log, ..*old(self) })
                }
                &&& can && files@.len() > 0 ==> {
                    &&& r matches Some(job)
                    &&& job.addr == peer.addr
                    &&& job.sender_name@ == old(self).device_name@
                    &&& job.files == files
                    &&& ui::began(
                        old(self).log,
                        final(self).log,
                        "Sending "@ + text::dec(files@.len()) + " file(s) to "@ + peer.name@ + "…"@,
                    )
                    &&& *final(self) == (ShareTab {
                        sending: true,
                        send_target: Some(peer),
                        log: final(self).log,
                        ..*old(self)
                    })
                }
            }),
    {
        if !self.can_send() {
            return None;
        }
        if files.len() == 0 {
            self.log.push("Nothing to send — the selected item(s) contain no files.".to_owned());
            return None;
        }
        self.log.clear();
        let mut line = "Sending ".to_owned();
        line.append(text::decimal(files.len() as u64).as_str());
        line.append(" file(s) to ");
        line.append(peer.name.as_str());
        line.append("…");
        self.log.push(line);
        let addr = peer.addr;
        self.send_target = Some(peer);
        self.sending = true;
        Some(SendJob { addr, sender_name: self.device_name.clone(), files })
    }

    /// Answers the offer that awaits an answer. Without a click it keeps
    /// waiting; of two, the one that accepts counts.
    pub fn respond(&mut self, accept: bool, reject: bool) -> (answer: Option<bool>)
        requires
            old(self).wf(),
        ensures
            final(self).wf(),
            old(self).pending_request is None || !(accept || reject) ==> answer is None
                && *final(self) == *old(self),
            old(self).pending_request is Some && (accept || reject) ==> answer == Some(accept)
                && *final(self) == (ShareTab { pending_request: None, ..*old(self) }),
    {
        if self.pending_request.is_none() || !(accept || reject) {
            return None;
        }
        self.pending_request = None;
        Some(accept)
    }

    pub fn receive_label(&self) -> (r: Option<String>)
        ensures
            match self.receive_progress {
                Some(p) => r is Some && r->0@ == progress_line("Receiving "@ + p.file@, p),
                None => r is None,
            },
    {
        match &self.receive_progress {
            Some(p) => {
                let mut start = "Receiving ".to_owned();
                start.append(p.file.as_str());
                Some(write_progress(start.as_str(), p))
            },
            None => None,
        }
    }

    pub fn send_label(&self) -> (r: Option<String>)
        ensures
            match self.send_progress {
                Some(p) => r is Some && r->0@ == progress_line(
                    "Sending "@ + p.file@ + " to "@ + (match self.send_target {
                        Some(t) => t.name@,
                        None => "peer"@,
                    }),
                    p,
                ),
                None => r is None,
            },
    {
        match &self.send_progress {
            Some(p) => {
                let mut start = "Sending ".to_owned();
                start.append(p.file.as_str());
                start.append(" to ");
                match &self.send_target {
                    Some(t) => start.append(t.name.as_str()),
                    None => start.append("peer"),
                }
                Some(write_progress(start.as_str(), p))
            },
            None => None,
        }
    }

    pub fn peers_label(&self) -> (r: String)
        ensures
            r@ == text::dec(self.peers@.len()) + " nearby device(s):"@,
    {
        ui::counted(self.peers.len(), " nearby device(s):")
    }

    pub fn staged_label(&self) -> (r: String)
        ensures
            r@ == text::dec(self.sources@.len()) + " item(s) staged to send:"@,
    {
        ui::counted(self.sources.len(), " item(s) staged to send:")
    }
}

/// A file of an offer, in words.
pub open spec fn offered_line(f: (Seq<char>, u64)) -> Seq<char> {
    "  "@ + f.0 + " ("@ + util::readable(f.1) + ")"@
}

/// The files of an offer that are listed: the first eight.
pub open spec fn offered_lines(files: Seq<(Seq<char>, u64)>) -> Seq<Seq<char>> {
    files.take(
        if files.len() > 8 {
            8
        } else {
            files.len() as int
        },
    ).map_values(|f: (Seq<char>, u64)| offered_line(f))
}

/// The files of an offer that are listed.
pub fn request_files(manifest: &IncomingManifest) -> (r: Vec<String>)
    ensures
        text::views(r@) == offered_lines(share::listed(manifest.files@)),
{
    let ghost all = share::listed(manifest.files@);
    let mut r: Vec<String> = Vec::new();
    let n: usize = if manifest.files.len() > 8 {
        8
    } else {
        manifest.files.len()
    };
    let mut i: usize = 0;
    while i < n
        invariant
            i <= n <= manifest.files@.len(),
            all == share::listed(manifest.files@),
            n == (if all.len() > 8 {
                8
            } else {
                all.len() as int
            }),
            text::views(r@) == offered_lines(all).take(i as int),
        decreases n - i,
    {
        let f = &manifest.files[i];
        let mut line = "  ".to_owned();
        line.append(f.0.as_str());
        line.append(" (");
        line.append(util::human_bytes(f.1).as_str());
        line.append(")");
        proof {
            assert(all[i as int] == (f.0@, f.1));
            assert(offered_lines(all)[i as int] == line@);
            text::views_push(r@, line);
            assert(offered_lines(all).take(i + 1) =~= offered_lines(all).take(i as int).push(
                line@,
            ));
        }
        r.push(line);
        i = i + 1;
    }
    proof {
        assert(offered_lines(all).take(n as int) =~= offered_lines(all));
    }
    r
}

/// How many files of an offer are not listed, if any.
pub fn request_more(manifest: &IncomingManifest) -> (r: Option<String>)
    ensures
        manifest.files@.len() <= 8 ==> r is None,
        manifest.files@.len() > 8 ==> r is Some && r->0@ == "  …and "@ + text::dec(
            (manifest.files@.len() - 8) as nat,
        ) + " more"@,
{
    if manifest.files.len() <= 8 {
        return None;
    }
    let mut r = "  …and ".to_owned();
    r.append(text::decimal((manifest.files.len() - 8) as u64).as_str());
    r.append(" more");
    Some(r)
}

pub fn request_heading(manifest: &IncomingManifest) -> (r: String)
    ensures
        r@ == "📥 "@ + manifest.sender_name@ + " wants to send you:"@,
{
    let mut r = "📥 ".to_owned();
    r.append(manifest.sender_name.as_str());
    r.append(" wants to send you:");
    r
}

pub fn request_total(manifest: &IncomingManifest) -> (r: String)
    ensures
        r@ == "Total: "@ + text::dec(manifest.files@.len()) + " file(s), "@ + util::readable(
            manifest.total_bytes,
        ),
{
    let mut r = "Total: ".to_owned();
    r.append(text::decimal(manifest.files.len() as u64).as_str());
    r.append(" file(s), ");
    r.append(util::human_bytes(manifest.total_bytes).as_str());
    r
}

/// A peer is listed once, and one that is gone is not listed; others stay.
pub proof fn law_listed_peers_are_there(tab: &mut ShareTab, event: DiscoveryEvent, u: (), q: PeerInfo)
    requires
        tab.wf(),
        call_ensures(ShareTab::on_discovery, (tab, event), u),
    ensures
        event matches DiscoveryEvent::PeerFound(p) ==> knows(final(tab).peers@, p.addr),
        event matches DiscoveryEvent::PeerFound(p) ==> final(tab).peers@.len() <= old(tab).peers@.len() + 1,
        event is PeerFound && old(tab).peers@.contains(q) ==> final(tab).peers@.contains(q),
        event matches DiscoveryEvent::PeerLost(addr) ==> !knows(final(tab).peers@, addr),
        event matches DiscoveryEvent::PeerLost(addr) ==> (final(tab).peers@.contains(q) <==> old(tab).peers@.contains(q) && q.addr != addr),
{
    let a = tab.peers@;
    let b = final(tab).peers@;
    match event {
        DiscoveryEvent::PeerFound(p) => {
            if !knows(a, p.addr) {
                assert(b.last() == p);
                assert(b[b.len() - 1].addr == p.addr);
            }
            if a.contains(q) {
                let k = choose|k: int| 0 <= k < a.len() && a[k] == q;
                assert(b[k] == q);
            }
        },
        DiscoveryEvent::PeerLost(addr) => {
            let keep = |p: PeerInfo| p.addr != addr;
            assert(b == a.filter(keep));
            broadcast use vstd::seq_lib::group_filter_ensures;
            if b.contains(q) {
                let k = choose|k: int| 0 <= k < b.len() && b[k] == q;
                assert(keep(b[k]));
                a.lemma_filter_contains_rev(keep, q);
            }
            if a.contains(q) && q.addr != addr {
                assert(keep(q));
            }
            if knows(b, addr) {
                let k = choose|k: int| 0 <= k < b.len() && (#[trigger] b[k]).addr == addr;
                assert(keep(b[k]));
            }
        },
    }
}

/// An offer is taken only by the click that accepts it, and answered once.
pub proof fn law_offers_are_answered_once(
    tab: &mut ShareTab,
    accept: bool,
    reject: bool,
    answer: Option<bool>,
)
    requires
        tab.wf(),
        call_ensures(ShareTab::respond, (tab, accept, reject), answer),
    ensures
        answer == Some(true) ==> accept && old(tab).pending_request is Some,
        answer is Some ==> final(tab).pending_request is None,
        answer is None ==> final(tab).pending_request == old(tab).pending_request,
        old(tab).pending_request is Some && accept ==> answer == Some(true),
        old(tab).pending_request is Some && reject && !accept ==> answer == Some(false),
        !accept && !reject ==> answer is None,
{
}

/// What is sent goes to the peer that was chosen, under the name of this
/// computer, and one transfer at a time.
pub proof fn law_files_go_to_the_chosen_peer(
    tab: &mut ShareTab,
    peer: PeerInfo,
    files: Vec<FileToSend>,
    r: Option<SendJob>,
)
    requires
        tab.wf(),
        call_ensures(ShareTab::send_to, (tab, peer, files), r),
    ensures
        r matches Some(job) ==> {
            &&& job.addr == peer.addr
            &&& job.sender_name@ == old(tab).device_name@
            &&& job.files == files
            &&& final(tab).sending
            &&& final(tab).send_target == Some(peer)
        },
        r is Some <==> old(tab).sources@.len() > 0 && !old(tab).sending && files@.len() > 0,
        r is None ==> final(tab).sending == old(tab).sending,
{
}

/// The end of a transfer frees the tab for the next one, and only that does.
pub proof fn law_sending_ends(tab: &mut ShareTab, event: SendEvent, notice: Option<Notice>)
    requires
        tab.wf(),
        call_ensures(ShareTab::on_send, (tab, event), notice),
    ensures
        event is Finished || event is Rejected ==> !final(tab).sending,
        event is Connecting || event is WaitingForAccept || event is Progress ==> final(tab).sending
            == old(tab).sending,
        notice is Some <==> event is Finished,
{
}

/// Being found by others starts and stops with the switch, and what was found
/// before does not count after it.
pub proof fn law_switch_decides(tab: &mut ShareTab, on: bool, r: Visibility)
    requires
        tab.wf(),
        call_ensures(ShareTab::set_discoverable, (tab, on), r),
    ensures
        final(tab).discoverable == on,
        r is Start <==> on && !old(tab).discoverable,
        r is Stop <==> !on && old(tab).discoverable,
        !(r is Same) ==> final(tab).peers@.len() == 0,
        r is Same ==> final(tab).peers == old(tab).peers,
{
}

/// A file is sent from where it is, with its size, and under its path below the
/// folder of what was chosen.
pub proof fn law_sent_files_are_those_found(
    path: &FilePath,
    source: &FilePath,
    size: u64,
    r: FileToSend,
    windows: bool,
)
    requires
        call_ensures(file_to_send, (path, source, size), r),
        source@.parts.len() > 0,
        path@.under(source@),
        all_sendable(
            (PathView {
                root: Seq::empty(),
                parts: path@.parts.skip(source@.parts.len() - 1),
            }),
            windows,
        ),
    ensures
        r.abs_path@ == path@,
        r.size == size,
        transfer::sanitized(r.rel_path@, windows) == Some(
            (PathView {
                root: Seq::empty(),
                parts: path@.parts.skip(source@.parts.len() - 1),
            }),
        ),
{
    let around = folder_around(source@);
    let n = around.parts.len() as int;
    assert(path@.parts.take(n) =~= around.parts) by {
        assert(path@.parts.take(source@.parts.len() as int) == source@.parts);
        assert forall|i: int| 0 <= i < n implies path@.parts[i] == around.parts[i] by {
            assert(path@.parts.take(source@.parts.len() as int)[i] == source@.parts[i]);
        }
    }
    assert(path@.under(around));
    law_sent_file_keeps_its_place(path@, source@, windows);
}

/// Received files go below the downloads of the user.
pub proof fn law_received_files_go_to_downloads(home: &Option<FilePath>, temp: &FilePath, r: FilePath)
    requires
        call_ensures(received_dir, (home, temp), r),
    ensures
        *home matches Some(h) ==> r@ == h@.child("Downloads"@).child("SuperCopierReceived"@),
        *home is None ==> r@ == temp@.child("SuperCopierReceived"@),
{
}

/// The list of an offer names its first files in order, each with its size, and
/// says how many more there are.
pub proof fn law_offer_is_listed(
    manifest: &IncomingManifest,
    r: Vec<String>,
    more: Option<String>,
    i: int,
)
    requires
        call_ensures(request_files, (manifest,), r),
        call_ensures(request_more, (manifest,), more),
        0 <= i < r@.len(),
    ensures
        r@.len() <= 8,
        r@.len() <= manifest.files@.len(),
        more is None ==> r@.len() == manifest.files@.len(),
        more is Some ==> more->0@ == "  …and "@ + text::dec(
            (manifest.files@.len() - r@.len()) as nat,
        ) + " more"@,
        r@[i]@ == "  "@ + share::listed(manifest.files@)[i].0 + " ("@ + util::readable(
            share::listed(manifest.files@)[i].1,
        ) + ")"@,
{
    let files = share::listed(manifest.files@);
    let v = text::views(r@);
    assert(files.len() == manifest.files@.len());
    assert(v.len() == r@.len());
    assert(v[i] == r@[i]@);
    assert(v[i] == offered_line(files[i]));
}

/// An offer is shown until it is answered, and progress and end of what is
/// received are shown as told.
pub proof fn law_received_files_are_told(
    tab: &mut ShareTab,
    event: ReceiveEvent,
    notice: Option<Notice>,
)
    requires
        tab.wf(),
        call_ensures(ShareTab::on_receive, (tab, event), notice),
    ensures
        event matches ReceiveEvent::IncomingRequest { manifest } ==> final(tab).pending_request
            == Some(manifest),
        !(event is IncomingRequest) ==> final(tab).pending_request == old(tab).pending_request,
        event matches ReceiveEvent::Progress { file, bytes_done, .. } ==> (
        final(tab).receive_progress matches Some(p) && p.file == file && p.bytes_done == bytes_done),
        event is Finished || event is Failed ==> final(tab).receive_progress is None,
        notice is Some <==> event is Finished,
        final(tab).sending == old(tab).sending,
{
}

} // verus!
