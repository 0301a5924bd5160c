//! Creating and extracting `.zip` archives: what goes into an archive, where
//! its entries may land, and what is counted.
//!
//! An archive is never trusted: an entry whose name leads out of the
//! destination is refused, links are written as plain files, and permissions
//! are cut down.

pub mod create;
pub mod extract;

use vstd::prelude::*;

use crate::calendar;
use crate::index::PathIndex;
use crate::paths;
use crate::paths::{FilePath, PathView};
use crate::text;
use crate::{EngineError, EngineResult, ErrorView};

verus! {

/// The most bytes moved in one go.
pub const CHUNK: usize = 1_048_576;

/// Milliseconds between two progress events.
pub const PROGRESS_EVERY_MS: u64 = 80;

#[derive(Debug, Clone, Copy, PartialEq, Eq, Structural)]
pub struct ZipOptions {
    /// 0 stores files as they are; 1 (fastest) to 9 (smallest) compresses.
    pub level: u8,
}

impl Default for ZipOptions {
    fn default() -> (r: ZipOptions)
        ensures
            r.level == 6,
    {
        ZipOptions { level: 6 }
    }
}

#[derive(Debug, Clone, Copy, PartialEq, Eq, Structural)]
pub struct ArchiveSummary {
    pub files: usize,
    pub skipped: usize,
    pub failed: usize,
    /// Uncompressed bytes processed.
    pub bytes: u64,
    /// Size of the archive made; 0 when extracting.
    pub archive_bytes: u64,
}

impl Default for ArchiveSummary {
    fn default() -> (r: ArchiveSummary)
        ensures
            r == (ArchiveSummary { files: 0, skipped: 0, failed: 0, bytes: 0, archive_bytes: 0 }),
    {
        ArchiveSummary { files: 0, skipped: 0, failed: 0, bytes: 0, archive_bytes: 0 }
    }
}

/// What work on an archive tells about its progress.
#[derive(Debug, PartialEq, Eq)]
pub enum ArchiveEvent {
    Started { files: usize, bytes: u64 },
    Progress { done: u64, total: u64 },
    FileSkipped { path: String, reason: String },
    FileError { path: String, message: String },
    Finished(ArchiveSummary),
    Cancelled,
}

/// What an event says, as characters.
#[verifier::ext_equal]
pub ghost enum ArchiveEventView {
    Started { files: usize, bytes: u64 },
    Progress { done: u64, total: u64 },
    FileSkipped { path: Seq<char>, reason: Seq<char> },
    FileError { path: Seq<char>, message: Seq<char> },
    Finished(ArchiveSummary),
    Cancelled,
}

impl View for ArchiveEvent {
    type V = ArchiveEventView;

    open spec fn view(&self) -> ArchiveEventView {
        match self {
            ArchiveEvent::Started { files, bytes } => ArchiveEventView::Started {
                files: *files,
                bytes: *bytes,
            },
            ArchiveEvent::Progress { done, total } => ArchiveEventView::Progress {
                done: *done,
                total: *total,
            },
            ArchiveEvent::FileSkipped { path, reason } => ArchiveEventView::FileSkipped {
                path: path@,
                reason: reason@,
            },
            ArchiveEvent::FileError { path, message } => ArchiveEventView::FileError {
                path: path@,
                message: message@,
            },
            ArchiveEvent::Finished(summary) => ArchiveEventView::Finished(*summary),
            ArchiveEvent::Cancelled => ArchiveEventView::Cancelled,
        }
    }
}

/// A point in time as a calendar and a clock show it.
#[derive(Debug, Clone, Copy, PartialEq, Eq, Structural)]
pub struct ClockTime {
    pub year: i32,
    pub month: u8,
    pub day: u8,
    pub hour: u8,
    pub minute: u8,
    pub second: u8,
}

impl ClockTime {
    /// Whether an archive can hold this time.
    pub open spec fn storable(self) -> bool {
        &&& 1980 <= self.year <= 2107
        &&& calendar::is_date(self.year as int, self.month as int, self.day as int)
        &&& self.hour <= 23
        &&& self.minute <= 59
        &&& self.second <= 60
    }

    /// The time as an archive holds it: seconds are even and at most 58.
    pub open spec fn stored(self) -> ClockTime {
        let s: u8 = if self.second < 58 {
            self.second
        } else {
            58
        };
        ClockTime { second: (s / 2 * 2) as u8, ..self }
    }
}

/// `zip::DateTime::from_date_and_time`, with what it gives taken apart again
/// by `year`, `month`, `day`, `hour`, `minute` and `second`: the time as an
/// archive holds it, when it can hold it.
#[verifier::external_body]
fn zip_time(year: u16, month: u8, day: u8, hour: u8, minute: u8, second: u8) -> (r: Option<
    ClockTime,
>)
    ensures
        ({
            let t = ClockTime { year: year as i32, month, day, hour, minute, second };
            r == (if t.storable() {
                Some(t.stored())
            } else {
                None
            })
        }),
{
    let t = zip::DateTime::from_date_and_time(year, month, day, hour, minute, second).ok()?;
    Some(ClockTime {
        year: i32::from(t.year()),
        month: t.month(),
        day: t.day(),
        hour: t.hour(),
        minute: t.minute(),
        second: t.second(),
    })
}

/// The modification time that is stored for a file with this local time;
/// `None` when an archive cannot hold it.
pub fn to_zip_time(local: &ClockTime) -> (r: Option<ClockTime>)
    ensures
        r == (if local.storable() {
            Some(local.stored())
        } else {
            None
        }),
{
    if local.year < 0 || local.year > 65_535 {
        return None;
    }
    zip_time(
        local.year as u16,
        local.month,
        local.day,
        local.hour,
        local.minute,
        local.second,
    )
}

/// The local time that a stored time stands for; `None` when there is no such
/// date or time of day.
pub fn from_zip_time(t: &ClockTime) -> (r: Option<ClockTime>)
    ensures
        r == (if calendar::is_date(t.year as int, t.month as int, t.day as int)
            && calendar::year_in_range(t.year as int) && t.hour < 24 && t.minute < 60 && t.second
            < 60 {
            Some(*t)
        } else {
            None
        }),
{
    if calendar::date_exists(t.year, t.month as u32, t.day as u32) && calendar::time_exists(
        t.hour as u32,
        t.minute as u32,
        t.second as u32,
    ) {
        Some(*t)
    } else {
        None
    }
}

/// What is stored of a time can be read back, and is at most two seconds
/// earlier.
pub proof fn law_stored_time_reads_back(t: ClockTime)
    requires
        t.storable(),
    ensures
        ({
            let s = t.stored();
            &&& calendar::is_date(s.year as int, s.month as int, s.day as int)
            &&& calendar::year_in_range(s.year as int)
            &&& s.hour < 24 && s.minute < 60 && s.second < 60
            &&& (ClockTime { second: t.second, ..s }) == t
            &&& t.second - 2 <= s.second <= t.second
        }),
{
}

/// An entry that goes into an archive.
#[derive(Debug)]
pub struct PlannedEntry {
    pub path: FilePath,
    /// Its name in the archive, with `/` between components.
    pub name: String,
    pub size: u64,
    pub is_dir: bool,
}

#[verifier::ext_equal]
pub ghost struct EntryView {
    pub path: PathView,
    pub name: Seq<char>,
    pub size: u64,
    pub is_dir: bool,
}

impl View for PlannedEntry {
    type V = EntryView;

    open spec fn view(&self) -> EntryView {
        EntryView { path: self.path@, name: self.name@, size: self.size, is_dir: self.is_dir }
    }
}

pub open spec fn entry_views(v: Seq<PlannedEntry>) -> Seq<EntryView> {
    v.map_values(|e: PlannedEntry| e@)
}

proof fn lemma_entry_views_push(v: Seq<PlannedEntry>, e: PlannedEntry)
    ensures
        entry_views(v.push(e)) == entry_views(v).push(e@),
{
    assert(entry_views(v.push(e)) =~= entry_views(v).push(e@));
}

/// What something found in a folder is.
#[derive(Debug, Clone, Copy, PartialEq, Eq, Structural)]
pub enum FoundKind {
    File,
    Folder,
    /// A link or another special file.
    Special,
}

/// Something found in a folder.
#[derive(Debug)]
pub struct FoundEntry {
    pub path: FilePath,
    pub kind: FoundKind,
    pub size: u64,
    /// Whether this is the archive that is being written.
    pub is_archive: bool,
}

/// What a source of an archive turned out to be.
#[derive(Debug)]
pub enum ZipSource {
    File { size: u64, is_archive: bool },
    /// A folder, with everything below it, itself included.
    Folder(Vec<FoundEntry>),
    /// Neither; nothing is packed of it.
    Other,
    Unreadable(EngineError),
}

/// The name of a path in an archive: its components with `/` between them.
pub open spec fn archive_name_of(p: PathView) -> Seq<char> {
    if p.root.len() > 0 {
        text::joined(seq![p.root] + p.parts, '/')
    } else {
        text::joined(p.parts, '/')
    }
}

/// The name of a path in an archive.
pub fn archive_name(p: &FilePath) -> (r: String)
    ensures
        r@ == archive_name_of(p@),
{
    if p.root.as_str().is_empty() {
        return text::join(&p.parts, '/');
    }
    let mut all: Vec<String> = Vec::new();
    all.push(p.root.clone());
    let mut i: usize = 0;
    proof {
        assert(text::views(all@) =~= seq![p@.root] + p@.parts.take(0));
    }
    while i < p.parts.len()
        invariant
            i <= p.parts@.len(),
            text::views(all@) == seq![p@.root] + p@.parts.take(i as int),
        decreases p.parts@.len() - i,
    {
        let ghost before = all@;
        let part = p.parts[i].clone();
        all.push(part);
        i = i + 1;
        proof {
            text::views_push(before, part);
            assert(text::views(all@) =~= seq![p@.root] + p@.parts.take(i as int));
        }
    }
    proof {
        assert(p@.parts.take(i as int) =~= p@.parts);
    }
    text::join(&all, '/')
}

/// What something found below `base` adds to the archive.
pub open spec fn found_view(base: PathView, e: FoundEntry) -> Option<EntryView> {
    let name = archive_name_of(paths::relative_to(e.path@, base));
    if e.kind is Special || (e.kind is File && e.is_archive) || name.len() == 0 {
        None
    } else {
        Some(
            EntryView {
                path: e.path@,
                name,
                size: if e.kind is File {
                    e.size
                } else {
                    0
                },
                is_dir: e.kind is Folder,
            },
        )
    }
}

/// What the first `n` things found below `base` add to the archive.
pub open spec fn found_views(base: PathView, found: Seq<FoundEntry>, n: int) -> Seq<EntryView>
    decreases n,
{
    if n <= 0 {
        Seq::empty()
    } else {
        match found_view(base, found[n - 1]) {
            Some(e) => found_views(base, found, n - 1).push(e),
            None => found_views(base, found, n - 1),
        }
    }
}

/// What a path lies in; the empty path when it lies in nothing.
pub open spec fn base_of(p: PathView) -> PathView {
    match p.parent() {
        Some(parent) => parent,
        None => PathView { root: Seq::empty(), parts: Seq::empty() },
    }
}

/// What one source adds to the archive.
pub open spec fn source_entries(src: PathView, info: ZipSource) -> Result<
    Seq<EntryView>,
    ErrorView,
> {
    match info {
        ZipSource::Unreadable(e) => Err(e@),
        ZipSource::Other => Ok(Seq::empty()),
        ZipSource::File { size, is_archive } => if is_archive {
            Ok(Seq::empty())
        } else {
            match src.file_name() {
                Some(name) => Ok(seq![EntryView { path: src, name, size, is_dir: false }]),
                None => Err(ErrorView::Other("bad path "@ + src.shown())),
            }
        },
        ZipSource::Folder(found) => Ok(found_views(base_of(src), found@, found@.len() as int)),
    }
}

/// What the first `n` sources add to the archive; the first source that
/// cannot be packed is an error.
pub open spec fn all_entries(sources: Seq<(FilePath, ZipSource)>, n: int) -> Result<
    Seq<EntryView>,
    ErrorView,
>
    decreases n,
{
    if n <= 0 {
        Ok(Seq::empty())
    } else {
        match all_entries(sources, n - 1) {
            Err(e) => Err(e),
            Ok(before) => match source_entries(sources[n - 1].0@, sources[n - 1].1) {
                Err(e) => Err(e),
                Ok(more) => Ok(before + more),
            },
        }
    }
}

/// Whether entry `i` has the name of an earlier one.
pub open spec fn repeats(entries: Seq<EntryView>, i: int) -> bool {
    exists|j: int| 0 <= j < i && (#[trigger] entries[j]).name == entries[i].name
}

/// The first entry from position `i` on that has the name of an earlier one.
pub open spec fn first_repeat(entries: Seq<EntryView>, i: int) -> Option<Seq<char>>
    decreases entries.len() - i,
{
    if i < 0 || i >= entries.len() {
        None
    } else if repeats(entries, i) {
        Some(entries[i].name)
    } else {
        first_repeat(entries, i + 1)
    }
}

fn push_zip_source(src: &FilePath, info: &ZipSource, plan: &mut Vec<PlannedEntry>) -> (r:
    EngineResult<()>)
    ensures
        match source_entries(src@, *info) {
            Ok(more) => r is Ok && entry_views(final(plan)@) == entry_views(old(plan)@) + more,
            Err(e) => r is Err && r->Err_0@ == e,
        },
{
    let ghost start = entry_views(plan@);
    proof {
        assert(start + Seq::<EntryView>::empty() =~= start);
    }
    match info {
        ZipSource::Unreadable(e) => Err(e.copy()),
        ZipSource::Other => Ok(()),
        ZipSource::File { size, is_archive } => {
            if *is_archive {
                return Ok(());
            }
            match src.file_name() {
                Some(name) => {
                    let ghost before = plan@;
                    let entry = PlannedEntry {
                        path: src.clone(),
                        name,
                        size: *size,
                        is_dir: false,
                    };
                    plan.push(entry);
                    proof {
                        lemma_entry_views_push(before, entry);
                        assert(entry_views(plan@) =~= start + seq![entry@]);
                    }
                    Ok(())
                },
                None => {
                    let mut m = "bad path ".to_owned();
                    m.append(src.display().as_str());
                    Err(EngineError::Other(m))
                },
            }
        },
        ZipSource::Folder(found) => {
            let base = match src.parent() {
                Some(p) => p,
                None => {
                    let p = FilePath { root: String::new(), parts: Vec::new() };
                    proof {
                        assert(p@ =~= PathView { root: Seq::empty(), parts: Seq::empty() });
                    }
                    p
                },
            };
            let mut i: usize = 0;
            while i < found.len()
                invariant
                    i <= found@.len(),
                    base@ == base_of(src@),
                    entry_views(plan@) == start + found_views(base@, found@, i as int),
                decreases found@.len() - i,
            {
                let rel = match found[i].path.strip_prefix(&base) {
                    Some(rel) => rel,
                    None => found[i].path.clone(),
                };
                let name = archive_name(&rel);
                let (is_file, is_dir) = match found[i].kind {
                    FoundKind::File => (true, false),
                    FoundKind::Folder => (false, true),
                    FoundKind::Special => (false, false),
                };
                let left_out = (!is_file && !is_dir) || (is_file && found[i].is_archive)
                    || name.as_str().is_empty();
                if !left_out {
                    let ghost before = plan@;
                    let entry = PlannedEntry {
                        path: found[i].path.clone(),
                        name,
                        size: if is_file {
                            found[i].size
                        } else {
                            0
                        },
                        is_dir,
                    };
                    plan.push(entry);
                    proof {
                        lemma_entry_views_push(before, entry);
                        assert(found_view(base@, found@[i as int]) == Some(entry@));
                        assert(entry_views(plan@) =~= start + found_views(base@, found@, i + 1));
                    }
                }
                i = i + 1;
            }
            Ok(())
        },
    }
}

fn name_key(name: &str) -> (p: FilePath)
    ensures
        p@ == (PathView { root: Seq::empty(), parts: seq![name@] }),
{
    let mut parts: Vec<String> = Vec::new();
    parts.push(name.to_owned());
    let p = FilePath { root: String::new(), parts };
    proof {
        assert(p@ =~= PathView { root: Seq::empty(), parts: seq![name@] });
    }
    p
}

spec fn key_of(name: Seq<char>) -> PathView {
    PathView { root: Seq::empty(), parts: seq![name] }
}

fn find_repeat(plan: &Vec<PlannedEntry>) -> (r: Option<String>)
    ensures
        match first_repeat(entry_views(plan@), 0) {
            Some(name) => r is Some && r->0@ == name,
            None => r is None,
        },
{
    let ghost all = entry_views(plan@);
    let mut names = PathIndex::new();
    let mut i: usize = 0;
    while i < plan.len()
        invariant
            i <= plan@.len(),
            all == entry_views(plan@),
            names.wf(),
            forall|n: Seq<char>|
                #![trigger key_of(n)]
                names@.contains(key_of(n)) <==> exists|j: int|
                    0 <= j < i && (#[trigger] all[j]).name == n,
            first_repeat(all, 0) == first_repeat(all, i as int),
        decreases plan@.len() - i,
    {
        proof {
            assert(all[i as int] == plan@[i as int]@);
        }
        let key = name_key(plan[i].name.as_str());
        let ghost before = names@;
        proof {
            assert(key@ == key_of(all[i as int].name));
        }
        if names.find(&key).is_some() {
            proof {
                assert(names@.contains(key_of(all[i as int].name)));
            }
            return Some(plan[i].name.clone());
        }
        names.insert(key);
        proof {
            assert(!repeats(all, i as int));
            assert forall|n: Seq<char>|
                #![trigger key_of(n)]
                names@.contains(key_of(n)) <==> exists|j: int|
                    0 <= j < i + 1 && (#[trigger] all[j]).name == n by {
                let mine = all[i as int].name;
                assert(names@ == before.push(key_of(mine)));
                if before.contains(key_of(n)) {
                    let x = choose|x: int| 0 <= x < before.len() && before[x] == key_of(n);
                    assert(names@[x] == key_of(n));
                }
                if n == mine {
                    assert(names@[before.len() as int] == key_of(n));
                    assert(all[i as int].name == n);
                }
                if names@.contains(key_of(n)) && !before.contains(key_of(n)) {
                    let x = choose|x: int| 0 <= x < names@.len() && names@[x] == key_of(n);
                    if x < before.len() {
                        assert(before[x] == key_of(n));
                    }
                    assert(key_of(n).parts[0] == key_of(mine).parts[0]);
                }
            }
        }
        i = i + 1;
    }
    None
}

/// The error for two entries with one name.
pub open spec fn collision(name: Seq<char>) -> ErrorView {
    ErrorView::Other(
        "two items would both be stored as \""@ + name + "\" — rename one and try again"@,
    )
}

/// What goes into an archive made of the sources. Two entries with the same
/// name are an error, before anything is written.
pub fn plan_zip(sources: &Vec<(FilePath, ZipSource)>) -> (r: EngineResult<Vec<PlannedEntry>>)
    ensures
        match all_entries(sources@, sources@.len() as int) {
            Err(e) => r is Err && r->Err_0@ == e,
            Ok(entries) => match first_repeat(entries, 0) {
                Some(name) => r is Err && r->Err_0@ == collision(name),
                None => r is Ok && entry_views(r->Ok_0@) == entries,
            },
        },
{
    let mut plan: Vec<PlannedEntry> = Vec::new();
    proof {
        assert(entry_views(plan@) =~= Seq::<EntryView>::empty());
    }
    let mut i: usize = 0;
    while i < sources.len()
        invariant
            i <= sources@.len(),
            all_entries(sources@, i as int) == Ok::<Seq<EntryView>, ErrorView>(entry_views(plan@)),
        decreases sources@.len() - i,
    {
        match push_zip_source(&sources[i].0, &sources[i].1, &mut plan) {
            Ok(_) => {},
            Err(e) => {
                proof {
                    lemma_first_zip_error(sources@, i + 1, sources@.len() as int);
                }
                return Err(e);
            },
        }
        i = i + 1;
    }
    match find_repeat(&plan) {
        Some(name) => {
            let mut m = "two items would both be stored as \"".to_owned();
            m.append(name.as_str());
            m.append("\" — rename one and try again");
            Err(EngineError::Other(m))
        },
        None => Ok(plan),
    }
}

proof fn lemma_first_zip_error(sources: Seq<(FilePath, ZipSource)>, k: int, n: int)
    requires
        0 <= k <= n,
        all_entries(sources, k) is Err,
    ensures
        all_entries(sources, n) == all_entries(sources, k),
    decreases n,
{
    if k < n {
        lemma_first_zip_error(sources, k, n - 1);
    }
}

proof fn lemma_no_repeat(entries: Seq<EntryView>, i: int, k: int)
    requires
        0 <= i <= k < entries.len(),
        first_repeat(entries, i) is None,
    ensures
        !repeats(entries, k),
    decreases k - i,
{
    if i < k {
        lemma_no_repeat(entries, i + 1, k);
    }
}

/// No two entries of a plan have the same name.
pub proof fn law_names_are_unique(entries: Seq<EntryView>, i: int, j: int)
    requires
        first_repeat(entries, 0) is None,
        0 <= i < j < entries.len(),
    ensures
        entries[i].name != entries[j].name,
{
    lemma_no_repeat(entries, 0, j);
}

/// The name under which an archive is built before it is moved into place.
pub fn partial_path(dest: &FilePath) -> (r: FilePath)
    ensures
        r@ == (match dest@.file_name() {
            Some(name) => base_of(dest@).child(name + ".partial"@),
            None => dest@.child(".partial"@),
        }),
{
    match dest.file_name() {
        Some(name) => {
            let mut n = name.clone();
            n.append(".partial");
            match dest.parent() {
                Some(parent) => parent.child(n.as_str()),
                None => dest.child(n.as_str()),
            }
        },
        None => dest.child(".partial"),
    }
}

/// Where an archive will be, as far as its folder is known.
pub fn archive_place(dest: &FilePath, folder: Option<FilePath>) -> (r: Option<FilePath>)
    ensures
        match (folder, dest@.file_name()) {
            (Some(f), Some(name)) => r is Some && r->0@ == f@.child(name),
            _ => r is None,
        },
{
    match (folder, dest.file_name()) {
        (Some(f), Some(name)) => Some(f.child(name.as_str())),
        _ => None,
    }
}

/// Whether a file is the archive that is being written: it has its name and
/// is in its place, as far as both places are known.
pub fn is_the_archive(
    path: &FilePath,
    place: &Option<FilePath>,
    dest: &FilePath,
    dest_place: &Option<FilePath>,
) -> (r: bool)
    ensures
        r == (path@.file_name() == dest@.file_name() && (match (place, dest_place) {
            (Some(a), Some(b)) => a@ == b@,
            (None, None) => true,
            _ => false,
        })),
{
    let same_name = match (path.file_name(), dest.file_name()) {
        (Some(a), Some(b)) => text::same_text(a.as_str(), b.as_str()),
        (None, None) => true,
        _ => false,
    };
    let same_place = match (place, dest_place) {
        (Some(a), Some(b)) => a.same(b),
        (None, None) => true,
        _ => false,
    };
    same_name && same_place
}

/// An archive is built beside the place that it will have, under a name that
/// no other archive can have: its own with something after it.
pub proof fn law_partial_is_beside_the_archive(
    dest: &FilePath,
    other: &FilePath,
    r: FilePath,
    o: FilePath,
)
    requires
        call_ensures(partial_path, (dest,), r),
        call_ensures(partial_path, (other,), o),
        dest@.file_name() is Some,
        other@.file_name() is Some,
    ensures
        r@ != dest@,
        r@.root == dest@.root,
        r@.parts.len() == dest@.parts.len(),
        r@.parts.drop_last() == dest@.parts.drop_last(),
        r@.parts.last().len() > dest@.parts.last().len(),
        dest@.parts.last().is_prefix_of(r@.parts.last()),
        r@ == o@ ==> dest@ == other@,
{
    reveal_strlit(".partial");
    let name = dest@.parts.last();
    let tail = ".partial"@;
    assert(r@.parts.drop_last() =~= dest@.parts.drop_last());
    assert(r@.parts.last() == name + tail);
    assert(name =~= (name + tail).subrange(0, name.len() as int));
    assert(o@.parts.drop_last() =~= other@.parts.drop_last());
    let name2 = other@.parts.last();
    assert(o@.parts.last() == name2 + tail);
    if r@ == o@ {
        assert((name + tail).len() == (name2 + tail).len());
        assert(name =~= (name + tail).take(name.len() as int));
        assert(name2 =~= (name2 + tail).take(name2.len() as int));
        assert(dest@.parts =~= dest@.parts.drop_last().push(name));
        assert(other@.parts =~= other@.parts.drop_last().push(name2));
        assert(dest@ =~= other@);
    }
}

/// The archive is known by its name and its place: a file with another name or
/// in another place is not taken for it.
pub proof fn law_archive_is_known(
    path: &FilePath,
    place: &Option<FilePath>,
    dest: &FilePath,
    dest_place: &Option<FilePath>,
    r: bool,
    back: bool,
)
    requires
        call_ensures(is_the_archive, (path, place, dest, dest_place), r),
        call_ensures(is_the_archive, (dest, dest_place, path, place), back),
    ensures
        r == back,
        r ==> path@.file_name() == dest@.file_name(),
        r && place is Some ==> dest_place is Some && place->0@ == dest_place->0@,
        path@ == dest@ && place is Some && dest_place is Some && place->0@ == dest_place->0@ ==> r,
{
}

/// What is stored of a time is that time to two seconds, and reading it back
/// changes nothing.
pub proof fn law_times_come_back(local: &ClockTime, r: Option<ClockTime>, back: Option<ClockTime>)
    requires
        call_ensures(to_zip_time, (local,), r),
        r is Some,
        call_ensures(from_zip_time, (&r->0,), back),
    ensures
        back == r,
        r->0.year == local.year,
        r->0.month == local.month,
        r->0.day == local.day,
        r->0.hour == local.hour,
        r->0.minute == local.minute,
        local.second - 2 <= r->0.second <= local.second,
{
    law_stored_time_reads_back(*local);
}

/// The archive lies in the folder that it was asked for in, under its own name.
pub proof fn law_archive_keeps_its_name(
    dest: &FilePath,
    folder: Option<FilePath>,
    r: Option<FilePath>,
)
    requires
        call_ensures(archive_place, (dest, folder), r),
    ensures
        folder is None ==> r is None,
        r is Some ==> r->0@.parent() == Some(folder->0@) && r->0@.file_name() == dest@.file_name(),
        folder is Some && dest@.file_name() is Some ==> r is Some,
{
    if r is Some {
        assert(r->0@.parts.drop_last() =~= folder->0@.parts);
    }
}

/// The name of an entry is its path with slashes between the components: one
/// more component comes behind the others.
pub proof fn law_entry_names_follow_the_path(p: &FilePath, q: &FilePath, name: Seq<char>, a: String, b: String)
    requires
        p@.root.len() == 0,
        q@ == p@.child(name),
        call_ensures(archive_name, (p,), a),
        call_ensures(archive_name, (q,), b),
    ensures
        p@.parts.len() == 0 ==> b@ == name,
        p@.parts.len() > 0 ==> b@ == a@.push('/') + name,
{
    let ps = q@.parts;
    assert(ps.drop_last() =~= p@.parts);
    assert(ps.last() == name);
    reveal_with_fuel(text::joined, 2);
}

} // verus!
