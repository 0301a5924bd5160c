//! Extracting an archive entry by entry, and looking at what it holds.

use vstd::prelude::*;

use crate::archive;
use crate::archive::create;
use crate::archive::create::CreateRun;
use crate::archive::{
    ArchiveEvent, ArchiveEventView, ArchiveSummary, EntryView, FoundEntry, ZipSource,
};
use crate::bytes;
use crate::paths;
use crate::paths::{FilePath, PathView};
use crate::share::transfer;
use crate::text;
use crate::{go_on_unless, CancelToken, EngineError, EngineResult, ErrorView};

verus! {

/// The name of an entry: its bytes as UTF-8 or, when they are not, as the
/// older encoding has it.
pub fn entry_name(raw: Vec<u8>, older: String) -> (r: String)
    ensures
        vstd::utf8::valid_utf8(raw@) ==> r@ == vstd::utf8::decode_utf8(raw@),
        !vstd::utf8::valid_utf8(raw@) ==> r@ == older@,
{
    match bytes::utf8_to_string(raw) {
        Ok(name) => name,
        Err(_) => older,
    }
}

/// The pieces among the first `n` that are components: neither empty nor `.`.
pub open spec fn kept_pieces(ps: Seq<Seq<char>>, n: int) -> Seq<Seq<char>>
    decreases n,
{
    if n <= 0 {
        Seq::empty()
    } else if ps[n - 1].len() == 0 || ps[n - 1] == seq!['.'] {
        kept_pieces(ps, n - 1)
    } else {
        kept_pieces(ps, n - 1).push(ps[n - 1])
    }
}

/// The path, taken from the destination, that an entry's name stands for.
/// There is none when the name holds a zero character or a component `..`,
/// when no component is left or, on Windows, when a component holds a colon.
pub open spec fn safe_path(name: Seq<char>, windows: bool) -> Option<PathView> {
    let ps = text::pieces(transfer::with_slashes(name), '/');
    let parts = kept_pieces(ps, ps.len() as int);
    if name.contains('\0') || parts.contains(seq!['.', '.']) || (windows && exists|i: int|
        0 <= i < parts.len() && (#[trigger] parts[i]).contains(':')) || parts.len() == 0 {
        None
    } else {
        Some(PathView { root: Seq::empty(), parts })
    }
}

fn has_char(v: &Vec<char>, c: char) -> (r: bool)
    ensures
        r == v@.contains(c),
{
    let at: usize = text::find_char(v, c, 0);
    proof {
        if at < v@.len() {
            assert(v@[at as int] == c);
        }
    }
    at < v.len()
}

/// Turns the name of an entry into a path that stays inside whatever folder
/// it is joined onto; `None` when it cannot be made safe. Both slashes
/// separate components; an absolute name is taken from the folder; any `..`
/// is refused.
pub fn safe_relative_path_on(name: &str, windows: bool) -> (r: Option<FilePath>)
    ensures
        match safe_path(name@, windows) {
            Some(p) => r is Some && r->0@ == p,
            None => r is None,
        },
{
    let v = text::chars_of(name);
    if has_char(&v, '\0') {
        return None;
    }
    let slashed = transfer::slashed(name);
    let ps = text::split(slashed.as_str(), '/');
    let ghost all = text::pieces(transfer::with_slashes(name@), '/');
    let mut parts: Vec<String> = Vec::new();
    let mut colon = false;
    let mut up = false;
    let mut i: usize = 0;
    while i < ps.len()
        invariant
            i <= ps@.len(),
            text::views(ps@) == all,
            text::views(parts@) == kept_pieces(all, i as int),
            colon == exists|j: int|
                0 <= j < parts@.len() && (#[trigger] text::views(parts@)[j]).contains(':'),
            up == text::views(parts@).contains(seq!['.', '.']),
        decreases ps@.len() - i,
    {
        let piece = text::chars_of(ps[i].as_str());
        let dot = piece.len() == 1 && piece[0] == '.';
        let dots = piece.len() == 2 && piece[0] == '.' && piece[1] == '.';
        proof {
            assert(piece@ == all[i as int]);
            if dot {
                assert(piece@ =~= seq!['.']);
            }
            if dots {
                assert(piece@ =~= seq!['.', '.']);
            }
        }
        if piece.len() > 0 && !dot {
            let ghost before = text::views(parts@);
            let ghost old_parts = parts@;
            let here = has_char(&piece, ':');
            let part = ps[i].clone();
            parts.push(part);
            proof {
                text::views_push(old_parts, part);
                let after = text::views(parts@);
                assert(after =~= before.push(piece@));
                assert(forall|j: int| 0 <= j < before.len() ==> after[j] == before[j]);
                assert(after[before.len() as int] == piece@);
                if colon {
                    let j = choose|j: int|
                        0 <= j < before.len() && (#[trigger] before[j]).contains(':');
                    assert(after[j].contains(':'));
                }
                if before.contains(seq!['.', '.']) {
                    let j = choose|j: int| 0 <= j < before.len() && before[j] == seq!['.', '.'];
                    assert(after[j] == seq!['.', '.']);
                }
                if after.contains(seq!['.', '.']) && !before.contains(seq!['.', '.']) {
                    let j = choose|j: int| 0 <= j < after.len() && after[j] == seq!['.', '.'];
                    if j < before.len() {
                        assert(before[j] == seq!['.', '.']);
                    }
                }
            }
            colon = colon || here;
            up = up || dots;
        }
        i = i + 1;
    }
    proof {
        assert(all.len() == ps@.len());
    }
    if up || (windows && colon) || parts.len() == 0 {
        return None;
    }
    let r = FilePath { root: String::new(), parts };
    proof {
        assert(r@.root =~= Seq::<char>::empty());
    }
    Some(r)
}

/// `std::path::is_separator` on a backslash: true on Windows alone.
#[verifier::external_body]
fn host_is_windows() -> bool {
    std::path::is_separator('\\')
}

/// Turns the name of an entry into a safe path by the rules of the system
/// that this runs on; they differ only in what a colon means.
pub fn safe_relative_path(name: &str) -> (r: Option<FilePath>)
    ensures
        exists|windows: bool|
            match #[trigger] safe_path(name@, windows) {
                Some(p) => r is Some && r->0@ == p,
                None => r is None,
            },
        !name@.contains(':') ==> match safe_path(name@, false) {
            Some(p) => r is Some && r->0@ == p,
            None => r is None,
        },
{
    let windows = host_is_windows();
    let r = safe_relative_path_on(name, windows);
    proof {
        if !name@.contains(':') {
            lemma_no_colon(name@);
        }
    }
    r
}

proof fn lemma_piece_chars(s: Seq<char>, sep: char, at: int, c: char)
    requires
        0 <= at <= s.len(),
        !s.contains(c),
    ensures
        forall|i: int|
            0 <= i < text::pieces_from(s, sep, at).len() ==> !(#[trigger] text::pieces_from(
                s,
                sep,
                at,
            )[i]).contains(c),
    decreases s.len() - at,
{
    let end = text::find_from(s, sep, at);
    let all = text::pieces_from(s, sep, at);
    if 0 <= at <= end < s.len() {
        lemma_piece_chars(s, sep, end + 1, c);
        let rest = text::pieces_from(s, sep, end + 1);
        assert forall|i: int| 0 <= i < all.len() implies !(#[trigger] all[i]).contains(c) by {
            if i == 0 {
                assert(all[0] == s.subrange(at, end));
                if all[0].contains(c) {
                    let j = choose|j: int| 0 <= j < all[0].len() && all[0][j] == c;
                    assert(s[at + j] == c);
                }
            } else {
                assert(all[i] == rest[i - 1]);
            }
        }
    } else {
        assert forall|i: int| 0 <= i < all.len() implies !(#[trigger] all[i]).contains(c) by {
            assert(all[i] == s.subrange(at, s.len() as int));
            if all[i].contains(c) {
                let j = choose|j: int| 0 <= j < all[i].len() && all[i][j] == c;
                assert(s[at + j] == c);
            }
        }
    }
}

proof fn lemma_kept_from(ps: Seq<Seq<char>>, n: int)
    requires
        n <= ps.len(),
    ensures
        forall|i: int|
            0 <= i < kept_pieces(ps, n).len() ==> {
                let p = #[trigger] kept_pieces(ps, n)[i];
                &&& ps.contains(p)
                &&& p.len() > 0
                &&& p != seq!['.']
            },
    decreases n,
{
    if n > 0 {
        lemma_kept_from(ps, n - 1);
        let before = kept_pieces(ps, n - 1);
        let after = kept_pieces(ps, n);
        assert forall|i: int| 0 <= i < after.len() implies {
            let p = #[trigger] after[i];
            &&& ps.contains(p)
            &&& p.len() > 0
            &&& p != seq!['.']
        } by {
            if i < before.len() {
                assert(after[i] == before[i]);
            } else {
                assert(after[i] == ps[n - 1]);
            }
        }
    }
}

proof fn lemma_no_colon(name: Seq<char>)
    requires
        !name.contains(':'),
    ensures
        safe_path(name, true) == safe_path(name, false),
{
    let s = transfer::with_slashes(name);
    assert(!s.contains(':')) by {
        if s.contains(':') {
            let j = choose|j: int| 0 <= j < s.len() && s[j] == ':';
            assert(name[j] == ':');
        }
    }
    lemma_piece_chars(s, '/', 0, ':');
    let ps = text::pieces(s, '/');
    lemma_kept_from(ps, ps.len() as int);
    let parts = kept_pieces(ps, ps.len() as int);
    assert forall|i: int| 0 <= i < parts.len() implies !(#[trigger] parts[i]).contains(':') by {
        assert(ps.contains(parts[i]));
        let j = choose|j: int| 0 <= j < ps.len() && ps[j] == parts[i];
        assert(!ps[j].contains(':'));
    }
}

/// An entry is only ever written below the destination: the path of its file
/// starts with the destination and no component leads up again.
pub proof fn law_entries_stay_inside(name: Seq<char>, windows: bool, dest: PathView)
    requires
        safe_path(name, windows) is Some,
    ensures
        ({
            let out = dest.joined(safe_path(name, windows)->0);
            &&& out.under(dest)
            &&& out.parts.len() > dest.parts.len()
            &&& forall|i: int|
                dest.parts.len() <= i < out.parts.len() ==> (#[trigger] out.parts[i]) != seq![
                    '.',
                    '.',
                ] && out.parts[i].len() > 0
        }),
{
    let ps = text::pieces(transfer::with_slashes(name), '/');
    lemma_kept_from(ps, ps.len() as int);
    let rel = safe_path(name, windows)->0;
    let out = dest.joined(rel);
    assert(out.parts.take(dest.parts.len() as int) =~= dest.parts);
    assert forall|i: int| dest.parts.len() <= i < out.parts.len() implies (#[trigger] out.parts[i])
        != seq!['.', '.'] && out.parts[i].len() > 0 by {
        let j = i - dest.parts.len();
        assert(out.parts[i] == rel.parts[j]);
        assert(rel.parts.contains(rel.parts[j]));
    }
}

proof fn lemma_all_kept(ps: Seq<Seq<char>>, n: int)
    requires
        0 <= n <= ps.len(),
        forall|i: int|
            0 <= i < ps.len() ==> (#[trigger] ps[i]).len() > 0 && ps[i] != seq!['.'],
    ensures
        kept_pieces(ps, n) == ps.take(n),
    decreases n,
{
    if n > 0 {
        lemma_all_kept(ps, n - 1);
        assert(ps[n - 1].len() > 0);
        assert(ps.take(n) =~= ps.take(n - 1).push(ps[n - 1]));
    } else {
        assert(ps.take(0) =~= Seq::<Seq<char>>::empty());
    }
}

/// Whether a component can be packed and unpacked again: it names something,
/// holds no separator of any system, no zero character and, on Windows, no
/// colon.
pub open spec fn is_packable(part: Seq<char>, windows: bool) -> bool {
    transfer::is_sendable(part, windows) && !part.contains('\0')
}

proof fn lemma_safe_pieces(name: Seq<char>, parts: Seq<Seq<char>>, windows: bool)
    requires
        !name.contains('\0'),
        parts.len() > 0,
        forall|i: int| 0 <= i < parts.len() ==> is_packable(#[trigger] parts[i], windows),
        ({
            let ps = text::pieces(transfer::with_slashes(name), '/');
            kept_pieces(ps, ps.len() as int) == parts
        }),
    ensures
        safe_path(name, windows) == Some(PathView { root: Seq::empty(), parts }),
{
    assert(!parts.contains(seq!['.', '.'])) by {
        if parts.contains(seq!['.', '.']) {
            let i = choose|i: int| 0 <= i < parts.len() && parts[i] == seq!['.', '.'];
            assert(is_packable(parts[i], windows));
        }
    }
    assert forall|i: int| windows && 0 <= i < parts.len() implies !(#[trigger] parts[i]).contains(
        ':',
    ) by {
        assert(is_packable(parts[i], windows));
    }
}

/// What was packed under a relative path is unpacked under the same relative
/// path, as a file and, with the slash that marks one, as a folder.
pub proof fn law_packed_path_comes_back(rel: PathView, windows: bool)
    requires
        rel.root.len() == 0,
        rel.parts.len() > 0,
        forall|i: int| 0 <= i < rel.parts.len() ==> is_packable(#[trigger] rel.parts[i], windows),
    ensures
        safe_path(archive::archive_name_of(rel), windows) == Some(rel),
        safe_path(archive::archive_name_of(rel).push('/'), windows) == Some(rel),
{
    let parts = rel.parts;
    let name = archive::archive_name_of(rel);
    assert(rel =~= PathView { root: Seq::empty(), parts });
    assert forall|i: int| 0 <= i < parts.len() implies !(#[trigger] parts[i]).contains('/')
        && !parts[i].contains('\\') && !parts[i].contains('\0') && parts[i].len() > 0 && parts[i]
        != seq!['.'] by {
        assert(is_packable(parts[i], windows));
    }
    text::lemma_joined_lacks(parts, '/', '\\');
    text::lemma_joined_lacks(parts, '/', '\0');
    transfer::lemma_no_backslash(name);
    text::law_split_undoes_join(parts, '/');
    lemma_all_kept(parts, parts.len() as int);
    assert(parts.take(parts.len() as int) =~= parts);
    lemma_safe_pieces(name, parts, windows);
    let folder = name.push('/');
    assert(!folder.contains('\\') && !folder.contains('\0')) by {
        assert forall|i: int| 0 <= i < folder.len() implies folder[i] != '\\' && folder[i] != '\0' by {
            if i < name.len() {
                assert(name.contains(name[i]));
            }
        }
    }
    transfer::lemma_no_backslash(folder);
    text::lemma_pieces_push(name, '/');
    let ps = parts.push(Seq::empty());
    lemma_kept_prefix(parts, ps, parts.len() as int);
    lemma_safe_pieces(folder, parts, windows);
}

proof fn lemma_kept_prefix(a: Seq<Seq<char>>, b: Seq<Seq<char>>, n: int)
    requires
        n <= a.len() <= b.len(),
        forall|i: int| 0 <= i < a.len() ==> a[i] == b[i],
    ensures
        kept_pieces(a, n) == kept_pieces(b, n),
    decreases n,
{
    if n > 0 {
        lemma_kept_prefix(a, b, n - 1);
    }
}

/// What is known of an entry from the table of contents.
#[derive(Debug)]
pub struct EntryInfo {
    pub name: String,
    pub size: u64,
    pub compressed: u64,
    pub is_dir: bool,
}

/// What an archive holds.
#[derive(Debug, Clone, Copy, PartialEq, Eq, Structural)]
pub struct ZipInfo {
    pub entries: usize,
    pub files: usize,
    pub uncompressed: u64,
    pub compressed: u64,
}

impl Default for ZipInfo {
    fn default() -> (r: ZipInfo)
        ensures
            r == (ZipInfo { entries: 0, files: 0, uncompressed: 0, compressed: 0 }),
    {
        ZipInfo { entries: 0, files: 0, uncompressed: 0, compressed: 0 }
    }
}

/// How many of the first `n` entries are files.
pub open spec fn files_among(entries: Seq<EntryInfo>, n: int) -> nat
    decreases n,
{
    if n <= 0 {
        0
    } else if entries[n - 1].is_dir {
        files_among(entries, n - 1)
    } else {
        files_among(entries, n - 1) + 1
    }
}

/// Bytes of the first `n` entries, folders left out if so asked, modulo 2^64.
pub open spec fn bytes_among(entries: Seq<EntryInfo>, n: int, files_only: bool) -> u64
    decreases n,
{
    if n <= 0 {
        0
    } else if files_only && entries[n - 1].is_dir {
        bytes_among(entries, n - 1, files_only)
    } else {
        bytes_among(entries, n - 1, files_only).wrapping_add(entries[n - 1].size)
    }
}

/// Compressed bytes of the first `n` entries, modulo 2^64.
pub open spec fn compressed_among(entries: Seq<EntryInfo>, n: int) -> u64
    decreases n,
{
    if n <= 0 {
        0
    } else {
        compressed_among(entries, n - 1).wrapping_add(entries[n - 1].compressed)
    }
}

/// Sums up a table of contents.
pub fn inspect_zip(entries: &Vec<EntryInfo>) -> (info: ZipInfo)
    ensures
        info.entries == entries@.len(),
        info.files == files_among(entries@, entries@.len() as int),
        info.uncompressed == bytes_among(entries@, entries@.len() as int, false),
        info.compressed == compressed_among(entries@, entries@.len() as int),
{
    let mut info = ZipInfo { entries: entries.len(), files: 0, uncompressed: 0, compressed: 0 };
    let mut i: usize = 0;
    while i < entries.len()
        invariant
            i <= entries@.len(),
            info.entries == entries@.len(),
            info.files <= i,
            info.files == files_among(entries@, i as int),
            info.uncompressed == bytes_among(entries@, i as int, false),
            info.compressed == compressed_among(entries@, i as int),
        decreases entries@.len() - i,
    {
        if !entries[i].is_dir {
            info.files = info.files + 1;
        }
        info.uncompressed = info.uncompressed.wrapping_add(entries[i].size);
        info.compressed = info.compressed.wrapping_add(entries[i].compressed);
        i = i + 1;
    }
    info
}

/// The permissions that an extracted file gets: those stored for owner, group
/// and others, and the owner can always read and write.
pub open spec fn extracted(mode: u32) -> u32 {
    (mode & 0o777) | 0o600
}

/// The permissions that an extracted file gets.
pub fn extracted_mode(mode: u32) -> (r: u32)
    ensures
        r == extracted(mode),
{
    (mode & 0o777) | 0o600
}

/// No extracted file runs with the rights of another user, whatever the
/// archive says; the owner can read and write it. Otherwise a file gets back
/// the permissions that it was packed with.
pub proof fn law_extracted_mode_is_tame(mode: u32)
    ensures
        extracted(mode) & 0o7000 == 0,
        extracted(mode) & 0o600 == 0o600,
        extracted(mode) <= 0o777,
        mode & 0o600 == 0o600 ==> extracted(mode) == mode & 0o777,
        extracted(mode & 0o777) == extracted(mode),
{
    assert(((mode & 0o777) | 0o600) & 0o7000 == 0) by (bit_vector);
    assert(((mode & 0o777) | 0o600) & 0o600 == 0o600) by (bit_vector);
    assert(((mode & 0o777) | 0o600) <= 0o777) by (bit_vector);
    assert(mode & 0o600 == 0o600 ==> ((mode & 0o777) | 0o600) == mode & 0o777) by (bit_vector);
    assert((mode & 0o777) & 0o777 == mode & 0o777) by (bit_vector);
}

/// What extracting does next.
#[derive(Debug, PartialEq, Eq)]
pub enum ExtractStep {
    /// Stop: the user asked for it; the event tells so.
    Stop(ArchiveEvent),
    /// Open the entry at this position.
    Open(usize),
    /// All entries are handled.
    Done(ArchiveEvent),
}

/// What follows opening an entry.
#[derive(Debug, PartialEq, Eq)]
pub enum EntryStep {
    /// It is left out; the event says why.
    Failed(ArchiveEvent),
    /// Create this folder.
    Folder(FilePath),
    /// This file, unless it is there already.
    File(FilePath),
}

/// What follows finding out whether a file is there already.
#[derive(Debug, PartialEq, Eq)]
pub enum FileStep {
    /// It is left alone; the event says why.
    Skipped(ArchiveEvent),
    /// Write it, in a folder that may have to be created.
    Write,
}

/// What follows writing a file.
#[derive(Debug, PartialEq, Eq)]
pub enum WrittenStep {
    /// Set its time and its permissions.
    Finish,
    /// Remove it and stop; the event tells so.
    Stop(ArchiveEvent),
    /// Remove it and go on; the event says why.
    Failed(ArchiveEvent),
}

/// Where an entry is unpacked: below the destination, or nowhere when its name
/// is not safe.
pub open spec fn place_of(e: EntryInfo, dest: PathView, windows: bool) -> Option<PathView> {
    match safe_path(e.name@, windows) {
        Some(rel) => Some(dest.joined(rel)),
        None => None,
    }
}

/// The state of extracting an archive.
#[derive(Debug)]
pub struct ExtractRun {
    pub dest: FilePath,
    pub overwrite: bool,
    pub windows: bool,
    pub entries: Vec<EntryInfo>,
    pub total: u64,
    pub index: usize,
    pub done: u64,
    /// Bytes handled before the current file.
    pub done_before: u64,
    /// When progress was last told, in milliseconds.
    pub told: Option<u64>,
    pub summary: ArchiveSummary,
}

impl ExtractRun {
    pub open spec fn entry(self) -> EntryInfo {
        self.entries@[self.index as int]
    }

    /// Every file that was handled is counted once, as unpacked, as skipped or
    /// as failed; a folder is counted only when it failed.
    pub open spec fn wf(self) -> bool {
        let files = files_among(self.entries@, self.index as int);
        let done = self.summary.files + self.summary.skipped;
        &&& self.index <= self.entries@.len()
        &&& done <= files <= done + self.summary.failed <= self.index
    }

    /// This run after the current entry was left out.
    pub open spec fn after_failure(self) -> ExtractRun {
        ExtractRun {
            index: (self.index + 1) as usize,
            summary: ArchiveSummary {
                failed: (self.summary.failed + 1) as usize,
                ..self.summary
            },
            ..self
        }
    }

    /// A run over an archive, and the event that opens it.
    pub fn new(dest: FilePath, overwrite: bool, windows: bool, entries: Vec<EntryInfo>) -> (r: (
        ExtractRun,
        ArchiveEvent,
    ))
        ensures
            r.0.wf(),
            r.0 == (ExtractRun {
                dest,
                overwrite,
                windows,
                entries,
                total: bytes_among(entries@, entries@.len() as int, true),
                index: 0,
                done: 0,
                done_before: 0,
                told: None,
                summary: ArchiveSummary {
                    files: 0,
                    skipped: 0,
                    failed: 0,
                    bytes: 0,
                    archive_bytes: 0,
                },
            }),
            r.1@ == (ArchiveEventView::Started {
                files: files_among(entries@, entries@.len() as int) as usize,
                bytes: bytes_among(entries@, entries@.len() as int, true),
            }),
    {
        let mut files: usize = 0;
        let mut total: u64 = 0;
        let mut i: usize = 0;
        while i < entries.len()
            invariant
                i <= entries@.len(),
                files <= i,
                files == files_among(entries@, i as int),
                total == bytes_among(entries@, i as int, true),
            decreases entries@.len() - i,
        {
            if !entries[i].is_dir {
                files = files + 1;
                total = total.wrapping_add(entries[i].size);
            }
            i = i + 1;
        }
        (
            ExtractRun {
                dest,
                overwrite,
                windows,
                entries,
                total,
                index: 0,
                done: 0,
                done_before: 0,
                told: None,
                summary: ArchiveSummary::default(),
            },
            ArchiveEvent::Started { files, bytes: total },
        )
    }

    /// What to do next, given whether a stop was asked for.
    pub fn next(&self, cancelled: bool) -> (step: ExtractStep)
        requires
            self.wf(),
        ensures
            self.index == self.entries@.len() ==> {
                &&& step matches ExtractStep::Done(event)
                &&& event@ == (ArchiveEventView::Progress { done: self.total, total: self.total })
            },
            self.index < self.entries@.len() && cancelled ==> {
                &&& step matches ExtractStep::Stop(event)
                &&& event@ is Cancelled
            },
            self.index < self.entries@.len() && !cancelled ==> step == ExtractStep::Open(self.index),
    {
        if self.index == self.entries.len() {
            return ExtractStep::Done(
                ArchiveEvent::Progress { done: self.total, total: self.total },
            );
        }
        if cancelled {
            return ExtractStep::Stop(ArchiveEvent::Cancelled);
        }
        ExtractStep::Open(self.index)
    }

    /// Takes note of opening the current entry: what was wrong when it failed.
    /// An entry that could land outside the destination is left out.
    pub fn opened(&mut self, failure: Option<String>) -> (step: EntryStep)
        requires
            old(self).wf(),
            old(self).index < old(self).entries@.len(),
        ensures
            final(self).wf(),
            match failure {
                Some(message) => {
                    &&& step matches EntryStep::Failed(event)
                    &&& event@ == (ArchiveEventView::FileError {
                        path: old(self).entry().name@,
                        message: message@,
                    })
                    &&& *final(self) == old(self).after_failure()
                },
                None => match place_of(old(self).entry(), old(self).dest@, old(self).windows) {
                    None => {
                        &&& step matches EntryStep::Failed(event)
                        &&& event@ == (ArchiveEventView::FileError {
                            path: old(self).entry().name@,
                            message:
                                "unsafe path (would land outside the destination) — skipped"@,
                        })
                        &&& *final(self) == old(self).after_failure()
                    },
                    Some(place) => if old(self).entry().is_dir {
                        &&& step matches EntryStep::Folder(p)
                        &&& p@ == place
                        &&& *final(self) == *old(self)
                    } else {
                        &&& step matches EntryStep::File(p)
                        &&& p@ == place
                        &&& *final(self) == *old(self)
                    },
                },
            },
    {
        let i: usize = self.index;
        assert(self.entries.len() <= usize::MAX);
        match failure {
            Some(message) => {
                self.index = self.index + 1;
                self.summary.failed = self.summary.failed + 1;
                EntryStep::Failed(
                    ArchiveEvent::FileError { path: self.entries[i].name.clone(), message },
                )
            },
            None => match safe_relative_path_on(self.entries[i].name.as_str(), self.windows) {
                None => {
                    self.index = self.index + 1;
                    self.summary.failed = self.summary.failed + 1;
                    EntryStep::Failed(
                        ArchiveEvent::FileError {
                            path: self.entries[i].name.clone(),
                            message: "unsafe path (would land outside the destination) — skipped".to_owned(),
                        },
                    )
                },
                Some(rel) => {
                    let out = self.dest.join(&rel);
                    if self.entries[i].is_dir {
                        EntryStep::Folder(out)
                    } else {
                        EntryStep::File(out)
                    }
                },
            },
        }
    }

    /// Takes note of creating a folder: what the system said when it failed.
    pub fn folder_made(&mut self, failure: Option<String>) -> (event: Option<ArchiveEvent>)
        requires
            old(self).wf(),
            old(self).index < old(self).entries@.len(),
            old(self).entry().is_dir,
        ensures
            final(self).wf(),
            match failure {
                Some(message) => {
                    &&& event is Some
                    &&& event->0@ == (ArchiveEventView::FileError {
                        path: old(self).entry().name@,
                        message: message@,
                    })
                    &&& *final(self) == old(self).after_failure()
                },
                None => event is None && *final(self) == (ExtractRun {
                    index: (old(self).index + 1) as usize,
                    ..*old(self)
                }),
            },
    {
        let i: usize = self.index;
        assert(self.entries.len() <= usize::MAX);
        self.index = self.index + 1;
        match failure {
            Some(message) => {
                self.summary.failed = self.summary.failed + 1;
                Some(ArchiveEvent::FileError { path: self.entries[i].name.clone(), message })
            },
            None => None,
        }
    }

    /// Decides about the current file, given whether it is there already.
    pub fn found(&mut self, present: bool) -> (step: FileStep)
        requires
            old(self).wf(),
            old(self).index < old(self).entries@.len(),
            !old(self).entry().is_dir,
        ensures
            final(self).wf(),
            present && !old(self).overwrite ==> {
                &&& step matches FileStep::Skipped(event)
                &&& event@ == (ArchiveEventView::FileSkipped {
                    path: old(self).entry().name@,
                    reason: "already exists"@,
                })
                &&& *final(self) == (ExtractRun {
                    index: (old(self).index + 1) as usize,
                    done: old(self).done.wrapping_add(old(self).entry().size),
                    summary: ArchiveSummary {
                        skipped: (old(self).summary.skipped + 1) as usize,
                        ..old(self).summary
                    },
                    ..*old(self)
                })
            },
            !present || old(self).overwrite ==> step is Write && *final(self) == (ExtractRun {
                done_before: old(self).done,
                ..*old(self)
            }),
    {
        let i: usize = self.index;
        assert(self.entries.len() <= usize::MAX);
        if present && !self.overwrite {
            self.index = self.index + 1;
            self.summary.skipped = self.summary.skipped + 1;
            self.done = self.done.wrapping_add(self.entries[i].size);
            return FileStep::Skipped(
                ArchiveEvent::FileSkipped {
                    path: self.entries[i].name.clone(),
                    reason: "already exists".to_owned(),
                },
            );
        }
        self.done_before = self.done;
        FileStep::Write
    }

    /// Whether to go on with the current file, asked before each piece.
    pub fn go_on(&self, cancel: &CancelToken) -> (r: EngineResult<()>)
        ensures
            cancel@ ==> r == Err::<(), EngineError>(EngineError::Cancelled),
            !cancel@ ==> r is Ok,
    {
        go_on_unless(cancel)
    }

    /// Takes note that `n` bytes of the current file were written.
    pub fn moved(&mut self, n: u64, now: u64) -> (event: Option<ArchiveEvent>)
        requires
            old(self).wf(),
        ensures
            final(self).wf(),
            ({
                let done = old(self).done.wrapping_add(n);
                let due = create::progress_due(old(self).told, now);
                &&& *final(self) == (ExtractRun {
                    done,
                    told: if due {
                        Some(now)
                    } else {
                        old(self).told
                    },
                    summary: ArchiveSummary {
                        bytes: old(self).summary.bytes.wrapping_add(n),
                        ..old(self).summary
                    },
                    ..*old(self)
                })
                &&& event == (if due {
                    Some(ArchiveEvent::Progress { done, total: old(self).total })
                } else {
                    None
                })
            }),
    {
        self.done = self.done.wrapping_add(n);
        self.summary.bytes = self.summary.bytes.wrapping_add(n);
        if create::is_progress_due(self.told, now) {
            self.told = Some(now);
            Some(ArchiveEvent::Progress { done: self.done, total: self.total })
        } else {
            None
        }
    }

    /// The error for an entry that cannot be read.
    pub fn read_error(&self, message: &str) -> (e: EngineError)
        requires
            self.wf(),
            self.index < self.entries@.len(),
        ensures
            e@ == ErrorView::Other("reading "@ + self.entry().name@ + ": "@ + message@),
    {
        let mut m = "reading ".to_owned();
        m.append(self.entries[self.index].name.as_str());
        m.append(": ");
        m.append(message);
        EngineError::Other(m)
    }

    /// Takes note of how the current file was written. After a failure the
    /// bar moves past it.
    pub fn written(&mut self, result: EngineResult<()>) -> (step: WrittenStep)
        requires
            old(self).wf(),
            old(self).index < old(self).entries@.len(),
            !old(self).entry().is_dir,
        ensures
            final(self).wf(),
            match result {
                Ok(_) => step is Finish && *final(self) == (ExtractRun {
                    index: (old(self).index + 1) as usize,
                    summary: ArchiveSummary {
                        files: (old(self).summary.files + 1) as usize,
                        ..old(self).summary
                    },
                    ..*old(self)
                }),
                Err(EngineError::Cancelled) => {
                    &&& step matches WrittenStep::Stop(event)
                    &&& event@ is Cancelled
                    &&& *final(self) == *old(self)
                },
                Err(e) => {
                    &&& step matches WrittenStep::Failed(event)
                    &&& event@ == (ArchiveEventView::FileError {
                        path: old(self).entry().name@,
                        message: e@.sentence(),
                    })
                    &&& *final(self) == (ExtractRun {
                        done: old(self).done_before.wrapping_add(old(self).entry().size),
                        ..old(self).after_failure()
                    })
                },
            },
    {
        let i: usize = self.index;
        assert(self.entries.len() <= usize::MAX);
        match result {
            Ok(_) => {
                self.index = self.index + 1;
                self.summary.files = self.summary.files + 1;
                WrittenStep::Finish
            },
            Err(EngineError::Cancelled) => WrittenStep::Stop(ArchiveEvent::Cancelled),
            Err(e) => {
                self.index = self.index + 1;
                self.summary.failed = self.summary.failed + 1;
                self.done = self.done_before.wrapping_add(self.entries[i].size);
                WrittenStep::Failed(
                    ArchiveEvent::FileError {
                        path: self.entries[i].name.clone(),
                        message: e.message(),
                    },
                )
            },
        }
    }

    /// The summary and the event that end a complete run.
    pub fn finished(&self) -> (r: (ArchiveSummary, ArchiveEvent))
        ensures
            r.0 == self.summary,
            r.1@ == ArchiveEventView::Finished(self.summary),
    {
        (self.summary, ArchiveEvent::Finished(self.summary))
    }
}

/// The name under which an entry stands in an archive: that of a folder ends
/// with a slash.
pub open spec fn stored_name(e: EntryView) -> Seq<char> {
    if e.is_dir {
        e.name.push('/')
    } else {
        e.name
    }
}

/// Whether an archive has exactly the entries of a plan, in their order.
pub open spec fn holds(stored: Seq<EntryInfo>, plan: Seq<EntryView>) -> bool {
    &&& stored.len() == plan.len()
    &&& forall|k: int|
        0 <= k < plan.len() ==> (#[trigger] stored[k]).name@ == stored_name(plan[k])
            && stored[k].is_dir == plan[k].is_dir
}

/// Whether an entry is unpacked under a relative path of the destination, as a
/// folder or as a file.
pub open spec fn unpacks_to(
    e: EntryInfo,
    dest: PathView,
    rel: PathView,
    is_dir: bool,
    windows: bool,
) -> bool {
    place_of(e, dest, windows) == Some(dest.joined(rel)) && e.is_dir == is_dir
}

/// Whether something found lies below `base`, under components that can be
/// packed and unpacked again.
pub open spec fn all_packable(path: PathView, base: PathView, windows: bool) -> bool {
    let rel = paths::relative_to(path, base);
    &&& path.under(base)
    &&& rel.parts.len() > 0
    &&& forall|i: int| 0 <= i < rel.parts.len() ==> is_packable(#[trigger] rel.parts[i], windows)
}

proof fn lemma_found_are_planned(base: PathView, found: Seq<FoundEntry>, n: int, i: int)
    requires
        0 <= i < n <= found.len(),
        archive::found_view(base, found[i]) is Some,
    ensures
        archive::found_views(base, found, n).contains(archive::found_view(base, found[i])->0),
    decreases n,
{
    let e = archive::found_view(base, found[i])->0;
    let before = archive::found_views(base, found, n - 1);
    let all = archive::found_views(base, found, n);
    if i == n - 1 {
        assert(all[before.len() as int] == e);
    } else {
        lemma_found_are_planned(base, found, n - 1, i);
        let k = choose|k: int| 0 <= k < before.len() && before[k] == e;
        assert(all[k] == e);
    }
}

proof fn lemma_planned_were_found(base: PathView, found: Seq<FoundEntry>, n: int, k: int) -> (i: int)
    requires
        0 <= n <= found.len(),
        0 <= k < archive::found_views(base, found, n).len(),
    ensures
        0 <= i < n,
        archive::found_view(base, found[i]) == Some(archive::found_views(base, found, n)[k]),
    decreases n,
{
    let before = archive::found_views(base, found, n - 1);
    if n > 0 && k < before.len() {
        lemma_planned_were_found(base, found, n - 1, k)
    } else {
        n - 1
    }
}

proof fn lemma_entry_comes_back(base: PathView, f: FoundEntry, windows: bool)
    requires
        archive::found_view(base, f) is Some,
        all_packable(f.path@, base, windows),
    ensures
        safe_path(stored_name(archive::found_view(base, f)->0), windows) == Some(
            paths::relative_to(f.path@, base),
        ),
{
    law_packed_path_comes_back(paths::relative_to(f.path@, base), windows);
}

/// A folder that was packed comes back whole: everything that was packed of it
/// is unpacked at the destination under the path that it had beside the
/// folder, files as files and folders as folders, empty ones too; and nothing
/// else is unpacked.
pub proof fn law_folder_comes_back(
    src: PathView,
    found: Seq<FoundEntry>,
    stored: Seq<EntryInfo>,
    dest: PathView,
    windows: bool,
)
    requires
        holds(stored, archive::found_views(archive::base_of(src), found, found.len() as int)),
        forall|i: int|
            0 <= i < found.len() && archive::found_view(
                archive::base_of(src),
                #[trigger] found[i],
            ) is Some ==> all_packable(found[i].path@, archive::base_of(src), windows),
    ensures
        forall|i: int|
            0 <= i < found.len() && archive::found_view(
                archive::base_of(src),
                #[trigger] found[i],
            ) is Some ==> exists|k: int|
                0 <= k < stored.len() && unpacks_to(
                    #[trigger] stored[k],
                    dest,
                    paths::relative_to(found[i].path@, archive::base_of(src)),
                    found[i].kind is Folder,
                    windows,
                ),
        forall|k: int|
            0 <= k < stored.len() ==> exists|i: int|
                0 <= i < found.len() && unpacks_to(
                    #[trigger] stored[k],
                    dest,
                    paths::relative_to(
                        (#[trigger] found[i]).path@,
                        archive::base_of(src),
                    ),
                    found[i].kind is Folder,
                    windows,
                ),
{
    let base = archive::base_of(src);
    let plan = archive::found_views(base, found, found.len() as int);
    assert forall|i: int|
        0 <= i < found.len() && archive::found_view(base, #[trigger] found[i]) is Some implies exists|
        k: int,
    |
        0 <= k < stored.len() && unpacks_to(
            #[trigger] stored[k],
            dest,
            paths::relative_to(found[i].path@, base),
            found[i].kind is Folder,
            windows,
        ) by {
        lemma_found_are_planned(base, found, found.len() as int, i);
        lemma_entry_comes_back(base, found[i], windows);
        let e = archive::found_view(base, found[i])->0;
        let k = choose|k: int| 0 <= k < plan.len() && plan[k] == e;
        assert(unpacks_to(
            stored[k],
            dest,
            paths::relative_to(found[i].path@, base),
            found[i].kind is Folder,
            windows,
        ));
    }
    assert forall|k: int| 0 <= k < stored.len() implies exists|i: int|
        0 <= i < found.len() && unpacks_to(
            #[trigger] stored[k],
            dest,
            paths::relative_to((#[trigger] found[i]).path@, base),
            found[i].kind is Folder,
            windows,
        ) by {
        let i = lemma_planned_were_found(base, found, found.len() as int, k);
        lemma_entry_comes_back(base, found[i], windows);
        assert(unpacks_to(
            stored[k],
            dest,
            paths::relative_to(found[i].path@, base),
            found[i].kind is Folder,
            windows,
        ));
    }
}

proof fn lemma_source_is_planned(sources: Seq<(FilePath, ZipSource)>, n: int, j: int, e: EntryView)
    requires
        0 <= j < n <= sources.len(),
        archive::all_entries(sources, n) is Ok,
    ensures
        archive::source_entries(sources[j].0@, sources[j].1) is Ok,
        archive::source_entries(sources[j].0@, sources[j].1)->Ok_0.contains(e)
            ==> archive::all_entries(sources, n)->Ok_0.contains(e),
    decreases n,
{
    let before = archive::all_entries(sources, n - 1)->Ok_0;
    let all = archive::all_entries(sources, n)->Ok_0;
    if j == n - 1 {
        let more = archive::source_entries(sources[j].0@, sources[j].1)->Ok_0;
        if more.contains(e) {
            let k = choose|k: int| 0 <= k < more.len() && more[k] == e;
            assert(all[before.len() + k] == e);
        }
    } else {
        lemma_source_is_planned(sources, n - 1, j, e);
        if before.contains(e) {
            let k = choose|k: int| 0 <= k < before.len() && before[k] == e;
            assert(all[k] == e);
        }
    }
}

/// Files and folders that were packed together all come back: whatever is in
/// the plan because of one of the sources is unpacked at the destination under
/// the path that it had beside that source.
pub proof fn law_plan_comes_back(
    sources: Seq<(FilePath, ZipSource)>,
    j: int,
    stored: Seq<EntryInfo>,
    dest: PathView,
    windows: bool,
)
    requires
        0 <= j < sources.len(),
        archive::all_entries(sources, sources.len() as int) matches Ok(plan) && holds(stored, plan),
    ensures
        match sources[j].1 {
            ZipSource::Folder(found) => forall|i: int|
                0 <= i < found@.len() && archive::found_view(
                    archive::base_of(sources[j].0@),
                    #[trigger] found@[i],
                ) is Some && all_packable(
                    found@[i].path@,
                    archive::base_of(sources[j].0@),
                    windows,
                ) ==> exists|k: int|
                    0 <= k < stored.len() && unpacks_to(
                        #[trigger] stored[k],
                        dest,
                        paths::relative_to(found@[i].path@, archive::base_of(sources[j].0@)),
                        found@[i].kind is Folder,
                        windows,
                    ),
            ZipSource::File { is_archive, .. } => !is_archive && is_packable(
                sources[j].0@.file_name()->0,
                windows,
            ) ==> exists|k: int|
                0 <= k < stored.len() && unpacks_to(
                    #[trigger] stored[k],
                    dest,
                    PathView { root: Seq::empty(), parts: seq![sources[j].0@.file_name()->0] },
                    false,
                    windows,
                ),
            _ => true,
        },
{
    let src = sources[j].0@;
    let base = archive::base_of(src);
    let n = sources.len() as int;
    let plan = archive::all_entries(sources, n)->Ok_0;
    match sources[j].1 {
        ZipSource::Folder(found) => {
            assert forall|i: int|
                0 <= i < found@.len() && archive::found_view(base, #[trigger] found@[i]) is Some
                    && all_packable(found@[i].path@, base, windows) implies exists|k: int|
                0 <= k < stored.len() && unpacks_to(
                    #[trigger] stored[k],
                    dest,
                    paths::relative_to(found@[i].path@, base),
                    found@[i].kind is Folder,
                    windows,
                ) by {
                let e = archive::found_view(base, found@[i])->0;
                lemma_found_are_planned(base, found@, found@.len() as int, i);
                lemma_source_is_planned(sources, n, j, e);
                lemma_entry_comes_back(base, found@[i], windows);
                let k = choose|k: int| 0 <= k < plan.len() && plan[k] == e;
                assert(unpacks_to(
                    stored[k],
                    dest,
                    paths::relative_to(found@[i].path@, base),
                    found@[i].kind is Folder,
                    windows,
                ));
            }
        },
        ZipSource::File { size, is_archive } => {
            let name = src.file_name()->0;
            if !is_archive && is_packable(name, windows) {
                let e = EntryView { path: src, name, size, is_dir: false };
                lemma_source_is_planned(sources, n, j, e);
                assert(archive::source_entries(src, sources[j].1)->Ok_0[0] == e);
                let k = choose|k: int| 0 <= k < plan.len() && plan[k] == e;
                let rel = PathView { root: Seq::empty(), parts: seq![name] };
                law_packed_path_comes_back(rel, windows);
                assert(rel.parts.drop_last() =~= Seq::<Seq<char>>::empty());
                assert(archive::archive_name_of(rel) =~= name);
                assert(stored[k].name@ == stored_name(plan[k]));
                assert(unpacks_to(stored[k], dest, rel, false, windows));
            }
        },
        _ => {},
    }
}

proof fn lemma_same_file_count(stored: Seq<EntryInfo>, plan: Seq<EntryView>, n: int)
    requires
        holds(stored, plan),
        0 <= n <= plan.len(),
    ensures
        files_among(stored, n) == create::file_count(plan, n),
    decreases n,
{
    if n > 0 {
        lemma_same_file_count(stored, plan, n - 1);
        assert(stored[n - 1].is_dir == plan[n - 1].is_dir);
    }
}

/// When nothing failed and nothing was there already, as many files are
/// unpacked as were packed: all of the plan.
pub proof fn law_as_many_files_come_back(packed: CreateRun, unpacked: ExtractRun)
    requires
        packed.wf(),
        packed.index == packed.plan@.len(),
        packed.summary.failed == 0,
        unpacked.wf(),
        unpacked.index == unpacked.entries@.len(),
        unpacked.summary.failed == 0,
        unpacked.summary.skipped == 0,
        holds(unpacked.entries@, archive::entry_views(packed.plan@)),
    ensures
        unpacked.summary.files == packed.summary.files,
        packed.summary.files == create::file_count(
            archive::entry_views(packed.plan@),
            packed.plan@.len() as int,
        ),
{
    let plan = archive::entry_views(packed.plan@);
    lemma_same_file_count(unpacked.entries@, plan, plan.len() as int);
}

/// A folder that was packed and unpacked comes back as it was: every entry has
/// a place below the destination, and no two have the same one, so that none
/// is refused or stands in the way of another; everything packed is at its
/// place, files as files and folders as folders, and nothing else is; what is
/// unpacked under some components was read from under the same components of
/// the folder around the source; as many files come back as were packed; and a file with the permissions `modes[k]`
/// gets them back, except that its owner can always read and write it.
pub proof fn law_round_trip(
    src: PathView,
    found: Seq<FoundEntry>,
    packed: CreateRun,
    unpacked: ExtractRun,
    modes: Seq<u32>,
)
    requires
        packed.wf(),
        archive::entry_views(packed.plan@) == archive::found_views(
            archive::base_of(src),
            found,
            found.len() as int,
        ),
        archive::first_repeat(archive::entry_views(packed.plan@), 0) is None,
        packed.index == packed.plan@.len(),
        packed.summary.failed == 0,
        unpacked.wf(),
        holds(unpacked.entries@, archive::entry_views(packed.plan@)),
        unpacked.index == unpacked.entries@.len(),
        unpacked.summary.failed == 0,
        unpacked.summary.skipped == 0,
        forall|i: int|
            0 <= i < found.len() && archive::found_view(
                archive::base_of(src),
                #[trigger] found[i],
            ) is Some ==> all_packable(found[i].path@, archive::base_of(src), unpacked.windows),
    ensures
        unpacked.summary.files == packed.summary.files,
        forall|k: int|
            0 <= k < unpacked.entries@.len() ==> place_of(
                #[trigger] unpacked.entries@[k],
                unpacked.dest@,
                unpacked.windows,
            ) is Some,
        forall|k: int, m: int|
            0 <= k < m < unpacked.entries@.len() ==> place_of(
                #[trigger] unpacked.entries@[k],
                unpacked.dest@,
                unpacked.windows,
            ) != place_of(#[trigger] unpacked.entries@[m], unpacked.dest@, unpacked.windows),
        forall|i: int|
            0 <= i < found.len() && archive::found_view(
                archive::base_of(src),
                #[trigger] found[i],
            ) is Some ==> exists|k: int|
                0 <= k < unpacked.entries@.len() && unpacks_to(
                    #[trigger] unpacked.entries@[k],
                    unpacked.dest@,
                    paths::relative_to(found[i].path@, archive::base_of(src)),
                    found[i].kind is Folder,
                    unpacked.windows,
                ),
        forall|k: int|
            0 <= k < unpacked.entries@.len() ==> exists|i: int|
                0 <= i < found.len() && unpacks_to(
                    #[trigger] unpacked.entries@[k],
                    unpacked.dest@,
                    paths::relative_to(
                        (#[trigger] found[i]).path@,
                        archive::base_of(src),
                    ),
                    found[i].kind is Folder,
                    unpacked.windows,
                ),
        forall|k: int|
            0 <= k < unpacked.entries@.len() ==> exists|rel: Seq<Seq<char>>|
                packed.plan@[k].path@.root == archive::base_of(src).root
                    && packed.plan@[k].path@.parts == archive::base_of(src).parts + rel && place_of(
                    #[trigger] unpacked.entries@[k],
                    unpacked.dest@,
                    unpacked.windows,
                ) == Some(
                    PathView {
                        root: unpacked.dest@.root,
                        parts: #[trigger] (unpacked.dest@.parts + rel),
                    },
                ),
        forall|k: int|
            0 <= k < modes.len() ==> extracted(#[trigger] modes[k] & 0o777) & 0o7777 == (modes[k]
                & 0o777) | 0o600,
{
    let base = archive::base_of(src);
    let plan = archive::entry_views(packed.plan@);
    let stored = unpacked.entries@;
    let dest = unpacked.dest@;
    let windows = unpacked.windows;
    law_as_many_files_come_back(packed, unpacked);
    law_folder_comes_back(src, found, stored, dest, windows);
    assert forall|k: int| 0 <= k < stored.len() implies place_of(
        #[trigger] stored[k],
        dest,
        windows,
    ) is Some by {
        let i = lemma_planned_were_found(base, found, found.len() as int, k);
        lemma_entry_comes_back(base, found[i], windows);
    }
    assert forall|k: int, m: int| 0 <= k < m < stored.len() implies place_of(
        #[trigger] stored[k],
        dest,
        windows,
    ) != place_of(#[trigger] stored[m], dest, windows) by {
        let i = lemma_planned_were_found(base, found, found.len() as int, k);
        let j = lemma_planned_were_found(base, found, found.len() as int, m);
        lemma_entry_comes_back(base, found[i], windows);
        lemma_entry_comes_back(base, found[j], windows);
        archive::law_names_are_unique(plan, k, m);
        let a = paths::relative_to(found[i].path@, base);
        let b = paths::relative_to(found[j].path@, base);
        if dest.joined(a) == dest.joined(b) {
            let n = dest.parts.len() as int;
            assert((dest.parts + a.parts).skip(n) =~= a.parts);
            assert((dest.parts + b.parts).skip(n) =~= b.parts);
            assert(a == b);
        }
    }
    assert forall|k: int| 0 <= k < stored.len() implies exists|rel: Seq<Seq<char>>|
        packed.plan@[k].path@.root == base.root && packed.plan@[k].path@.parts == base.parts + rel
            && place_of(#[trigger] stored[k], dest, windows) == Some(
            PathView { root: dest.root, parts: #[trigger] (dest.parts + rel) },
        ) by {
        let i = lemma_planned_were_found(base, found, found.len() as int, k);
        lemma_entry_comes_back(base, found[i], windows);
        let rel = paths::relative_to(found[i].path@, base).parts;
        assert(plan[k] == packed.plan@[k]@);
        assert(found[i].path@.parts =~= base.parts + rel);
        assert(place_of(stored[k], dest, windows) == Some(
            PathView { root: dest.root, parts: dest.parts + rel },
        ));
    }
    assert forall|k: int| 0 <= k < modes.len() implies extracted(#[trigger] modes[k] & 0o777)
        & 0o7777 == (modes[k] & 0o777) | 0o600 by {
        let mode = modes[k];
        assert((((mode & 0o777) & 0o777) | 0o600) & 0o7777 == (mode & 0o777) | 0o600)
            by (bit_vector);
    }
}

proof fn lemma_all_or_none(sources: Seq<(FilePath, ZipSource)>, n: int, k: int) -> (j: int)
    requires
        0 <= n <= sources.len(),
        archive::all_entries(sources, n) is Ok,
        0 <= k < archive::all_entries(sources, n)->Ok_0.len(),
    ensures
        0 <= j < n,
        archive::source_entries(sources[j].0@, sources[j].1) is Ok,
        archive::source_entries(sources[j].0@, sources[j].1)->Ok_0.contains(
            archive::all_entries(sources, n)->Ok_0[k],
        ),
    decreases n,
{
    if n <= 0 {
        assert(archive::all_entries(sources, n)->Ok_0.len() == 0);
        0
    } else {
        let before = archive::all_entries(sources, n - 1)->Ok_0;
        let more = archive::source_entries(sources[n - 1].0@, sources[n - 1].1)->Ok_0;
        if k < before.len() {
            assert(archive::all_entries(sources, n)->Ok_0[k] == before[k]);
            lemma_all_or_none(sources, n - 1, k)
        } else {
            assert((before + more)[k] == more[k - before.len()]);
            n - 1
        }
    }
}

/// What is packed of a folder is read from where it was found: a file that
/// lies under the components `rel` of the folder around the source is in the
/// plan with its own path and its size, under a name that is unpacked under
/// the same components.
pub proof fn law_packed_from_where_it_was_found(
    sources: &Vec<(FilePath, ZipSource)>,
    r: EngineResult<Vec<archive::PlannedEntry>>,
    j: int,
    i: int,
    rel: Seq<Seq<char>>,
    windows: bool,
)
    requires
        call_ensures(archive::plan_zip, (sources,), r),
        r is Ok,
        0 <= j < sources@.len(),
        sources@[j].1 is Folder,
        sources@[j].0@.parts.len() > 0,
        0 <= i < sources@[j].1->Folder_0@.len(),
        !(sources@[j].1->Folder_0@[i].kind is Special),
        !sources@[j].1->Folder_0@[i].is_archive,
        sources@[j].1->Folder_0@[i].path@.root == sources@[j].0@.root,
        sources@[j].1->Folder_0@[i].path@.parts == sources@[j].0@.parts.drop_last() + rel,
        rel.len() > 0,
        forall|c: int| 0 <= c < rel.len() ==> is_packable(#[trigger] rel[c], windows),
    ensures
        exists|k: int|
            0 <= k < r->Ok_0@.len() && (#[trigger] r->Ok_0@[k]).path@
                == sources@[j].1->Folder_0@[i].path@ && r->Ok_0@[k].is_dir
                == (sources@[j].1->Folder_0@[i].kind is Folder) && (
            sources@[j].1->Folder_0@[i].kind is File ==> r->Ok_0@[k].size
                == sources@[j].1->Folder_0@[i].size) && safe_path(r->Ok_0@[k].name@, windows)
                == Some(PathView { root: Seq::empty(), parts: rel }),
{
    let src = sources@[j].0@;
    let found = sources@[j].1->Folder_0@;
    let base = archive::base_of(src);
    let f = found[i];
    let n = sources@.len() as int;
    let path = f.path@;
    assert(path.parts.take(base.parts.len() as int) =~= base.parts);
    assert(path.parts.skip(base.parts.len() as int) =~= rel);
    let below = PathView { root: Seq::empty(), parts: rel };
    assert(paths::relative_to(path, base) == below);
    law_packed_path_comes_back(below, windows);
    if archive::archive_name_of(below).len() == 0 {
        let none = Seq::<char>::empty();
        assert(archive::archive_name_of(below) =~= none);
        lemma_empty_name(windows);
    }
    let e = archive::found_view(base, f)->0;
    lemma_found_are_planned(base, found, found.len() as int, i);
    lemma_source_is_planned(sources@, n, j, e);
    let plan = archive::entry_views(r->Ok_0@);
    let k = choose|k: int| 0 <= k < plan.len() && plan[k] == e;
    assert(r->Ok_0@[k]@ == e);
}

proof fn lemma_empty_name(windows: bool)
    ensures
        safe_path(Seq::empty(), windows) is None,
{
    let s = Seq::<char>::empty();
    let t = transfer::with_slashes(s);
    assert(t =~= s);
    text::lemma_one_piece(t, '/');
    let ps = text::pieces(t, '/');
    assert(ps.len() == 1 && ps[0].len() == 0);
    reveal_with_fuel(kept_pieces, 2);
}

/// Nothing goes into an archive but what was asked for: an entry is one of the
/// sources under its name, or was found in one of them; links, other special
/// files and the archive itself stay out.
pub proof fn law_only_sources_are_packed(
    sources: &Vec<(FilePath, ZipSource)>,
    r: EngineResult<Vec<archive::PlannedEntry>>,
    k: int,
)
    requires
        call_ensures(archive::plan_zip, (sources,), r),
        r is Ok,
        0 <= k < r->Ok_0@.len(),
    ensures
        exists|j: int|
            0 <= j < sources@.len() && match (#[trigger] sources@[j]).1 {
                ZipSource::File { size, is_archive } => {
                    &&& !is_archive
                    &&& r->Ok_0@[k].path@ == sources@[j].0@
                    &&& r->Ok_0@[k].size == size
                    &&& !r->Ok_0@[k].is_dir
                    &&& r->Ok_0@[k].name@ == sources@[j].0@.parts.last()
                },
                ZipSource::Folder(found) => exists|i: int|
                    0 <= i < found@.len() && (#[trigger] found@[i]).path@ == r->Ok_0@[k].path@
                        && !(found@[i].kind is Special) && (found@[i].kind is Folder)
                        == r->Ok_0@[k].is_dir && (found@[i].kind is File ==> !found@[i].is_archive
                        && found@[i].size == r->Ok_0@[k].size),
                _ => false,
            },
{
    let n = sources@.len() as int;
    let plan = archive::entry_views(r->Ok_0@);
    let j = lemma_all_or_none(sources@, n, k);
    let e = plan[k];
    assert(e == r->Ok_0@[k]@);
    let more = archive::source_entries(sources@[j].0@, sources@[j].1)->Ok_0;
    let m = choose|m: int| 0 <= m < more.len() && more[m] == e;
    match sources@[j].1 {
        ZipSource::Folder(found) => {
            let base = archive::base_of(sources@[j].0@);
            let i = lemma_planned_were_found(base, found@, found@.len() as int, m);
            assert(found@[i].path@ == e.path);
        },
        _ => {},
    }
}

/// A plan never has one name twice: two sources with the same name are refused
/// before anything is written.
pub proof fn law_one_name_one_entry(
    sources: &Vec<(FilePath, ZipSource)>,
    r: EngineResult<Vec<archive::PlannedEntry>>,
    k: int,
    m: int,
)
    requires
        call_ensures(archive::plan_zip, (sources,), r),
        r is Ok,
        0 <= k < m < r->Ok_0@.len(),
    ensures
        r->Ok_0@[k].name@ != r->Ok_0@[m].name@,
{
    let plan = archive::entry_views(r->Ok_0@);
    archive::law_names_are_unique(plan, k, m);
    assert(plan[k].name == r->Ok_0@[k].name@ && plan[m].name == r->Ok_0@[m].name@);
}

/// Both slashes separate the components of a name.
pub proof fn law_slashes_are_alike(
    a: &str,
    b: &str,
    windows: bool,
    ra: Option<FilePath>,
    rb: Option<FilePath>,
)
    requires
        call_ensures(safe_relative_path_on, (a, windows), ra),
        call_ensures(safe_relative_path_on, (b, windows), rb),
        a@.len() == b@.len(),
        forall|i: int|
            0 <= i < a@.len() ==> #[trigger] b@[i] == a@[i] || (a@[i] == '\\' && b@[i] == '/'),
    ensures
        ra is Some == rb is Some,
        ra is Some ==> ra->0@ == rb->0@,
{
    assert(transfer::with_slashes(a@) =~= transfer::with_slashes(b@));
    assert(a@.contains('\0') == b@.contains('\0')) by {
        if a@.contains('\0') {
            let i = choose|i: int| 0 <= i < a@.len() && a@[i] == '\0';
            assert(b@[i] == '\0');
        }
        if b@.contains('\0') {
            let i = choose|i: int| 0 <= i < b@.len() && b@[i] == '\0';
            assert(b@[i] == '\0');
            assert(a@[i] == '\0');
        }
    }
}

/// A name in any archive, however it was made, is unpacked below the
/// destination or not at all, and never under a component that leads up.
pub proof fn law_nothing_is_unpacked_outside(
    run: &mut ExtractRun,
    failure: Option<String>,
    step: EntryStep,
)
    requires
        call_ensures(ExtractRun::opened, (run, failure), step),
        run.wf(),
        run.index < run.entries@.len(),
    ensures
        failure is Some ==> step is Failed,
        step is Folder ==> old(run).entries@[old(run).index as int].is_dir,
        step is File ==> !old(run).entries@[old(run).index as int].is_dir,
        step is Failed ==> final(run).summary.failed == old(run).summary.failed + 1
            && final(run).index == old(run).index + 1,
        !(step is Failed) ==> {
            let out = if step is Folder {
                step->Folder_0@
            } else {
                step->File_0@
            };
            &&& out.root == old(run).dest@.root
            &&& old(run).dest@.parts.is_prefix_of(out.parts)
            &&& out.parts.len() > old(run).dest@.parts.len()
            &&& forall|i: int|
                old(run).dest@.parts.len() <= i < out.parts.len() ==> (#[trigger] out.parts[i])
                    != seq!['.', '.'] && out.parts[i].len() > 0
        },
{
    assert(run.entries.len() <= usize::MAX);
    if !(step is Failed) {
        let out = if step is Folder {
            step->Folder_0@
        } else {
            step->File_0@
        };
        law_entries_stay_inside(run.entry().name@, run.windows, run.dest@);
        assert(run.dest@.parts =~= out.parts.subrange(0, run.dest@.parts.len() as int));
    }
}

/// A file that is there already is written over only by a run that may; and it
/// is counted as what happened to it.
pub proof fn law_existing_files_are_kept(run: &mut ExtractRun, present: bool, step: FileStep)
    requires
        call_ensures(ExtractRun::found, (run, present), step),
        run.wf(),
        run.index < run.entries@.len(),
        !run.entries@[run.index as int].is_dir,
    ensures
        step is Write == (!present || old(run).overwrite),
        step is Skipped ==> final(run).summary.skipped == old(run).summary.skipped + 1
            && final(run).index == old(run).index + 1,
        step is Write ==> final(run).index == old(run).index && final(run).summary
            == old(run).summary,
{
    assert(run.entries.len() <= usize::MAX);
}

/// The totals of a table of contents: one more file is one more entry and one
/// more file, with its sizes; one more folder is one more entry.
pub proof fn law_contents_add_up(
    a: &Vec<EntryInfo>,
    b: &Vec<EntryInfo>,
    e: EntryInfo,
    x: ZipInfo,
    y: ZipInfo,
)
    requires
        call_ensures(inspect_zip, (a,), x),
        call_ensures(inspect_zip, (b,), y),
        b@ == a@.push(e),
        x.uncompressed + e.size <= u64::MAX,
        x.compressed + e.compressed <= u64::MAX,
    ensures
        y.entries == x.entries + 1,
        y.files == x.files + (if e.is_dir {
            0int
        } else {
            1int
        }),
        y.uncompressed == x.uncompressed + e.size,
        y.compressed == x.compressed + e.compressed,
{
    let n = a@.len() as int;
    lemma_sums_prefix(a@, b@, n);
}

proof fn lemma_sums_prefix(a: Seq<EntryInfo>, b: Seq<EntryInfo>, n: int)
    requires
        0 <= n <= a.len() <= b.len(),
        forall|i: int| 0 <= i < a.len() ==> a[i] == b[i],
    ensures
        files_among(a, n) == files_among(b, n),
        bytes_among(a, n, false) == bytes_among(b, n, false),
        bytes_among(a, n, true) == bytes_among(b, n, true),
        compressed_among(a, n) == compressed_among(b, n),
    decreases n,
{
    if n > 0 {
        lemma_sums_prefix(a, b, n - 1);
    }
}

/// Entries are opened one after the other, and a stop is seen before the next
/// one.
pub proof fn law_entries_are_opened_in_order(run: &ExtractRun, cancelled: bool, step: ExtractStep)
    requires
        run.wf(),
        call_ensures(ExtractRun::next, (run, cancelled), step),
    ensures
        step matches ExtractStep::Open(i) ==> i == run.index && i < run.entries@.len() && !cancelled,
        step is Done <==> run.index == run.entries@.len(),
        step is Stop <==> cancelled && run.index < run.entries@.len(),
{
}

/// A file counts as unpacked only when it was written, and as failed when it was
/// not; a stop counts as neither.
pub proof fn law_written_files_count(run: &mut ExtractRun, result: EngineResult<()>, step: WrittenStep)
    requires
        run.wf(),
        run.index < run.entries@.len(),
        !run.entry().is_dir,
        run.summary.files < usize::MAX,
        run.summary.failed < usize::MAX,
        call_ensures(ExtractRun::written, (run, result), step),
    ensures
        result is Ok ==> {
            &&& step is Finish
            &&& final(run).summary.files == old(run).summary.files + 1
            &&& final(run).summary.failed == old(run).summary.failed
            &&& final(run).index == old(run).index + 1
        },
        result == Err::<(), EngineError>(EngineError::Cancelled) ==> step is Stop && final(run).index
            == old(run).index && final(run).summary == old(run).summary,
        result is Err && !(result->Err_0 is Cancelled) ==> {
            &&& step is Failed
            &&& final(run).summary.files == old(run).summary.files
            &&& final(run).summary.failed == old(run).summary.failed + 1
            &&& final(run).index == old(run).index + 1
        },
        final(run).entries == old(run).entries,
        final(run).dest == old(run).dest,
{
    assert(run.entries.len() <= usize::MAX);
}

/// Bytes that were unpacked count, once.
pub proof fn law_unpacked_bytes_count(
    run: &mut ExtractRun,
    n: u64,
    now: u64,
    event: Option<ArchiveEvent>,
)
    requires
        run.wf(),
        run.done + n <= u64::MAX,
        run.summary.bytes + n <= u64::MAX,
        call_ensures(ExtractRun::moved, (run, n, now), event),
    ensures
        final(run).done == old(run).done + n,
        final(run).summary.bytes == old(run).summary.bytes + n,
        final(run).summary.files == old(run).summary.files,
        final(run).index == old(run).index,
        event matches Some(e) ==> e == (ArchiveEvent::Progress {
            done: final(run).done,
            total: old(run).total,
        }),
{
}

/// Unpacking goes to the chosen folder and starts with nothing counted.
pub proof fn law_unpacking_starts_as_asked(
    dest: FilePath,
    overwrite: bool,
    windows: bool,
    entries: Vec<EntryInfo>,
    r: (ExtractRun, ArchiveEvent),
)
    requires
        call_ensures(ExtractRun::new, (dest, overwrite, windows, entries), r),
    ensures
        r.0.dest == dest,
        r.0.overwrite == overwrite,
        r.0.entries == entries,
        r.0.index == 0 && r.0.done == 0,
        r.0.summary.files == 0 && r.0.summary.skipped == 0 && r.0.summary.failed == 0
            && r.0.summary.bytes == 0,
        (r.1@ matches ArchiveEventView::Started { bytes, .. } && bytes == r.0.total),
{
}

/// What is told at the end is what was counted.
pub proof fn law_unpacking_tells_what_was_counted(run: &ExtractRun, r: (ArchiveSummary, ArchiveEvent))
    requires
        call_ensures(ExtractRun::finished, (run,), r),
    ensures
        r.0 == run.summary,
        r.1@ == ArchiveEventView::Finished(run.summary),
{
}

} // verus!
