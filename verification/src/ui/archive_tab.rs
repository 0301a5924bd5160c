//! The tab that packs files into an archive and unpacks archives.

use vstd::prelude::*;

use crate::archive::extract::ZipInfo;
use crate::archive::{ArchiveEvent, ArchiveEventView, ArchiveSummary, ZipOptions};
use crate::dialog::DeferredPicker;
use crate::dnd;
use crate::paths;
use crate::paths::{FilePath, PathView};
use crate::text;
use crate::ui;
use crate::ui::selection;
use crate::ui::Notice;
use crate::util;
use crate::util::Log;

verus! {

#[derive(Debug, Clone, Copy, PartialEq, Eq, Structural)]
pub enum ArchiveMode {
    Compress,
    Extract,
}

/// How the work ended.
#[derive(Debug, PartialEq, Eq)]
pub enum ArchiveOutcome {
    Done { summary: ArchiveSummary, reveal: FilePath },
    Failed(String),
    Cancelled,
}

/// The name suggested for an archive: that of the one thing packed, otherwise
/// a general one.
pub open spec fn zip_name(sources: Seq<PathView>) -> Seq<char> {
    if sources.len() == 1 && sources[0].file_name() is Some && paths::stem(
        sources[0].file_name()->0,
    ).len() > 0 {
        paths::stem(sources[0].file_name()->0) + ".zip"@
    } else {
        "Archive"@ + ".zip"@
    }
}

/// The name suggested for an archive of these files and folders.
pub fn default_zip_name(sources: &Vec<FilePath>) -> (r: String)
    ensures
        r@ == zip_name(paths::views(sources@)),
{
    let ghost all = paths::views(sources@);
    let mut name = "Archive".to_owned();
    if sources.len() == 1 {
        proof {
            assert(all[0] == sources@[0]@);
        }
        match sources[0].file_name() {
            Some(n) => {
                let stem = paths::file_stem(n.as_str());
                if !stem.as_str().is_empty() {
                    name = stem;
                }
            },
            None => {},
        }
    }
    name.append(".zip");
    name
}

/// The path with another name in place of its own.
pub open spec fn renamed_to(path: PathView, name: Seq<char>) -> PathView {
    match (path.file_name(), path.parent()) {
        (Some(_), Some(parent)) => parent.child(name),
        _ => path.child(name),
    }
}

/// The name `n` that is tried for a path: at first its own, then with a number
/// behind the stem.
pub open spec fn numbered(path: PathView, n: nat) -> PathView {
    if n <= 1 {
        path
    } else {
        let name = match path.file_name() {
            Some(name) => name,
            None => Seq::empty(),
        };
        let ext = match paths::extension(name) {
            Some(e) => "."@ + e,
            None => Seq::empty(),
        };
        renamed_to(path, paths::stem(name) + " "@ + text::dec(n) + ext)
    }
}

/// A search for a name that is not in use.
#[derive(Debug)]
pub struct FreeName {
    pub path: FilePath,
    pub number: u64,
}

impl FreeName {
    pub fn new(path: FilePath) -> (r: FreeName)
        ensures
            r.path == path,
            r.number == 1,
    {
        FreeName { path, number: 1 }
    }

    /// The path to try.
    pub fn candidate(&self) -> (r: FilePath)
        ensures
            r@ == numbered(self.path@, self.number as nat),
    {
        if self.number <= 1 {
            return self.path.clone();
        }
        let (name, had_name) = match self.path.file_name() {
            Some(name) => (name, true),
            None => ("".to_owned(), false),
        };
        let mut new_name = paths::file_stem(name.as_str());
        new_name.append(" ");
        new_name.append(text::decimal(self.number).as_str());
        proof {
            reveal_strlit("");
            if !had_name {
                assert(name@ =~= Seq::<char>::empty());
            }
        }
        match paths::file_extension(name.as_str()) {
            Some(e) => {
                proof {
                    assert(new_name@ + ("."@ + e@) =~= new_name@ + "."@ + e@);
                }
                new_name.append(".");
                new_name.append(e.as_str());
            },
            None => {
                proof {
                    assert(new_name@ + Seq::<char>::empty() =~= new_name@);
                }
            },
        }
        if had_name {
            match self.path.parent() {
                Some(parent) => return parent.child(new_name.as_str()),
                None => {},
            }
        }
        self.path.child(new_name.as_str())
    }

    /// The path is in use: the next one is to be tried.
    pub fn taken(&mut self)
        requires
            old(self).number < u64::MAX,
        ensures
            *final(self) == (FreeName {
                number: (old(self).number + 1) as u64,
                ..*old(self)
            }),
    {
        self.number = self.number + 1;
    }
}

/// No path is tried twice, so that one in use is never taken for free later.
pub proof fn law_tried_names_differ(path: PathView, m: nat, n: nat)
    requires
        1 < m < n,
    ensures
        numbered(path, m) != numbered(path, n),
{
    let name = match path.file_name() {
        Some(name) => name,
        None => Seq::empty(),
    };
    let ext = match paths::extension(name) {
        Some(e) => "."@ + e,
        None => Seq::empty(),
    };
    let stem = paths::stem(name);
    let a = stem + " "@ + text::dec(m) + ext;
    let b = stem + " "@ + text::dec(n) + ext;
    if numbered(path, m) == numbered(path, n) {
        assert(renamed_to(path, a).parts.last() == a);
        assert(renamed_to(path, b).parts.last() == b);
        let front = stem + " "@;
        let k = front.len() as int;
        assert(a.len() == b.len());
        assert(text::dec(m) =~= a.subrange(k, a.len() - ext.len()));
        assert(text::dec(n) =~= b.subrange(k, b.len() - ext.len()));
        text::law_decimal_reads_back(m);
        text::law_decimal_reads_back(n);
    }
}

/// Whether a path has the extension of an archive, in any case.
pub open spec fn named_zip(p: PathView) -> bool {
    &&& p.file_name() matches Some(name)
    &&& paths::extension(name) matches Some(ext)
    &&& text::same_ignoring_ascii_case(ext, "zip"@)
}

pub fn is_zip(p: &FilePath) -> (r: bool)
    ensures
        r == named_zip(p@),
{
    match p.file_name() {
        Some(name) => match paths::file_extension(name.as_str()) {
            Some(ext) => text::eq_ignore_ascii_case(ext.as_str(), "zip"),
            None => false,
        },
        None => false,
    }
}

/// The path with the extension of an archive.
pub open spec fn as_zip(p: PathView) -> PathView {
    match p.file_name() {
        Some(name) => if named_zip(p) {
            p
        } else {
            renamed_to(p, paths::stem(name) + ".zip"@)
        },
        None => p,
    }
}

fn with_zip_extension(p: FilePath) -> (r: FilePath)
    ensures
        r@ == as_zip(p@),
{
    if is_zip(&p) {
        return p;
    }
    match p.file_name() {
        Some(name) => {
            let mut new_name = paths::file_stem(name.as_str());
            new_name.append(".zip");
            match p.parent() {
                Some(parent) => parent.child(new_name.as_str()),
                None => p.child(new_name.as_str()),
            }
        },
        None => p,
    }
}

/// What becomes of a path that is suggested.
#[derive(Debug)]
pub enum Suggestion {
    /// The user has chosen one: it stays.
    Keep,
    /// There is nothing to suggest.
    Nothing,
    /// The first free one of these.
    FirstFree(FreeName),
}

impl Suggestion {
    /// Whether this suggests a path, tried from its own name on.
    pub open spec fn suggests(self, wanted: Option<PathView>) -> bool {
        match wanted {
            Some(p) => self matches Suggestion::FirstFree(f) && f.path@ == p && f.number == 1,
            None => self is Nothing,
        }
    }
}

/// What is to be done with an archive.
#[derive(Debug, PartialEq, Eq)]
pub enum ArchiveJob {
    Zip { sources: Vec<FilePath>, out: FilePath, options: ZipOptions },
    Unzip { zip: FilePath, dest: FilePath, overwrite: bool },
}

/// What the tab remembers.
#[derive(Debug)]
pub struct ArchiveTab {
    pub mode: ArchiveMode,
    pub sources: Vec<FilePath>,
    pub output: Option<FilePath>,
    pub output_is_custom: bool,
    pub level: u8,
    pub zip: Option<FilePath>,
    pub zip_info: Option<Result<ZipInfo, String>>,
    pub dest: Option<FilePath>,
    pub dest_is_custom: bool,
    pub overwrite: bool,
    pub add_files: DeferredPicker,
    pub add_folder: DeferredPicker,
    pub save_zip: DeferredPicker,
    pub pick_zip: DeferredPicker,
    pub pick_dest: DeferredPicker,
    pub running: bool,
    pub job_reveal: Option<FilePath>,
    pub done: u64,
    pub total: u64,
    pub last_error: Option<String>,
    pub cancel_requested: bool,
    pub outcome: Option<ArchiveOutcome>,
    pub log: Log,
}

impl Default for ArchiveTab {
    fn default() -> (r: ArchiveTab)
        ensures
            r.wf(),
            r.mode is Compress,
            r.sources@.len() == 0,
            r.output is None,
            !r.output_is_custom,
            r.level == 6,
            r.zip is None,
            r.zip_info is None,
            r.dest is None,
            !r.dest_is_custom,
            !r.overwrite,
            r.add_files.requested is None,
            r.add_folder.requested is None,
            r.save_zip.requested is None,
            r.pick_zip.requested is None,
            r.pick_dest.requested is None,
            !r.running,
            r.job_reveal is None,
            r.done == 0,
            r.total == 0,
            r.last_error is None,
            !r.cancel_requested,
            r.outcome is None,
            r.log@.len() == 0,
            r.log.cap() == 200,
    {
        ArchiveTab {
            mode: ArchiveMode::Compress,
            sources: Vec::new(),
            output: None,
            output_is_custom: false,
            level: 6,
            zip: None,
            zip_info: None,
            dest: None,
            dest_is_custom: false,
            overwrite: false,
            add_files: DeferredPicker::default(),
            add_folder: DeferredPicker::default(),
            save_zip: DeferredPicker::default(),
            pick_zip: DeferredPicker::default(),
            pick_dest: DeferredPicker::default(),
            running: false,
            job_reveal: None,
            done: 0,
            total: 0,
            last_error: None,
            cancel_requested: false,
            outcome: None,
            log: Log::default(),
        }
    }
}

/// The first path that names an archive, from `i` on.
pub open spec fn first_zip(list: Seq<FilePath>, i: int) -> Option<PathView>
    decreases list.len() - i,
{
    if i < 0 || i >= list.len() {
        None
    } else if named_zip(list[i]@) {
        Some(list[i]@)
    } else {
        first_zip(list, i + 1)
    }
}

/// The first of the things dropped that names an archive.
pub fn find_zip(list: &Vec<FilePath>) -> (r: Option<FilePath>)
    ensures
        match first_zip(list@, 0) {
            Some(p) => r is Some && r->0@ == p,
            None => r is None,
        },
{
    let mut i: usize = 0;
    while i < list.len()
        invariant
            i <= list@.len(),
            first_zip(list@, 0) == first_zip(list@, i as int),
        decreases list@.len() - i,
    {
        if is_zip(&list[i]) {
            return Some(list[i].clone());
        }
        i = i + 1;
    }
    None
}

/// Where an archive of the sources is suggested: beside the first of them.
pub open spec fn wanted_output(sources: Seq<PathView>) -> Option<PathView> {
    if sources.len() == 0 {
        None
    } else {
        match sources[0].parent() {
            Some(dir) => Some(dir.child(zip_name(sources))),
            None => None,
        }
    }
}

/// Where an archive is to be unpacked: in a folder of its name beside it.
pub open spec fn wanted_dest(zip: PathView) -> Option<PathView> {
    match zip.parent() {
        Some(dir) => Some(
            dir.child(
                match zip.file_name() {
                    Some(name) => paths::stem(name),
                    None => "Extracted"@,
                },
            ),
        ),
        None => None,
    }
}

impl ArchiveTab {
    pub open spec fn wf(self) -> bool {
        self.log.wf()
    }

    pub fn is_running(&self) -> (r: bool)
        ensures
            r == self.running,
    {
        self.running
    }

    /// Adds files and folders that are not there yet.
    pub fn add_sources(&mut self, more: &Vec<FilePath>)
        requires
            old(self).wf(),
        ensures
            final(self).wf(),
            paths::views(final(self).sources@) == selection::with_all(
                paths::views(old(self).sources@),
                paths::views(more@),
                more@.len() as int,
            ),
            *final(self) == (ArchiveTab { sources: final(self).sources, ..*old(self) }),
    {
        let ghost start = paths::views(self.sources@);
        let mut i: usize = 0;
        while i < more.len()
            invariant
                i <= more@.len(),
                self.wf(),
                *self == (ArchiveTab { sources: self.sources, ..*old(self) }),
                paths::views(self.sources@) == selection::with_all(
                    start,
                    paths::views(more@),
                    i as int,
                ),
            decreases more@.len() - i,
        {
            proof {
                assert(paths::views(more@)[i as int] == more@[i as int]@);
            }
            dnd::add_root(&mut self.sources, more[i].clone());
            i = i + 1;
        }
    }

    /// Takes all sources away, and what was chosen for them.
    pub fn clear_sources(&mut self)
        requires
            old(self).wf(),
        ensures
            final(self).wf(),
            final(self).sources@.len() == 0,
            *final(self) == (ArchiveTab {
                sources: final(self).sources,
                output_is_custom: false,
                ..*old(self)
            }),
    {
        self.sources.clear();
        self.output_is_custom = false;
    }

    /// What to suggest for the new archive.
    pub fn refresh_default_output(&self) -> (r: Suggestion)
        ensures
            self.output_is_custom ==> r is Keep,
            !self.output_is_custom ==> r.suggests(wanted_output(paths::views(self.sources@))),
    {
        if self.output_is_custom {
            return Suggestion::Keep;
        }
        if self.sources.len() == 0 {
            return Suggestion::Nothing;
        }
        proof {
            assert(paths::views(self.sources@)[0] == self.sources@[0]@);
        }
        match self.sources[0].parent() {
            Some(dir) => Suggestion::FirstFree(
                FreeName::new(dir.child(default_zip_name(&self.sources).as_str())),
            ),
            None => Suggestion::Nothing,
        }
    }

    /// Takes an archive to unpack, or what kept it from being read.
    pub fn set_zip(&mut self, path: FilePath, info: Result<ZipInfo, String>) -> (r: Suggestion)
        requires
            old(self).wf(),
        ensures
            final(self).wf(),
            *final(self) == (ArchiveTab {
                zip: Some(path),
                zip_info: Some(info),
                outcome: None,
                ..*old(self)
            }),
            old(self).dest_is_custom ==> r is Keep,
            !old(self).dest_is_custom ==> r.suggests(wanted_dest(path@)),
    {
        let r = if self.dest_is_custom {
            Suggestion::Keep
        } else {
            match path.parent() {
                Some(dir) => {
                    let name = match path.file_name() {
                        Some(name) => paths::file_stem(name.as_str()),
                        None => "Extracted".to_owned(),
                    };
                    Suggestion::FirstFree(FreeName::new(dir.child(name.as_str())))
                },
                None => Suggestion::Nothing,
            }
        };
        self.zip = Some(path);
        self.zip_info = Some(info);
        self.outcome = None;
        r
    }

    /// The user has chosen where to save the archive.
    pub fn output_picked(&mut self, path: FilePath)
        requires
            old(self).wf(),
        ensures
            final(self).wf(),
            final(self).output is Some,
            final(self).output->0@ == as_zip(path@),
            *final(self) == (ArchiveTab {
                output: final(self).output,
                output_is_custom: true,
                ..*old(self)
            }),
    {
        self.output = Some(with_zip_extension(path));
        self.output_is_custom = true;
    }

    /// The user has chosen where to unpack to.
    pub fn dest_picked(&mut self, path: FilePath)
        requires
            old(self).wf(),
        ensures
            final(self).wf(),
            *final(self) == (ArchiveTab { dest: Some(path), dest_is_custom: true, ..*old(self) }),
    {
        self.dest = Some(path);
        self.dest_is_custom = true;
    }

    /// Whether the work can begin.
    pub open spec fn ready(self) -> bool {
        &&& !self.running
        &&& match self.mode {
            ArchiveMode::Compress => self.sources@.len() > 0 && self.output is Some,
            ArchiveMode::Extract => self.zip_info matches Some(info) && info is Ok && self.dest
                is Some,
        }
    }

    pub fn can_start(&self) -> (r: bool)
        ensures
            r == self.ready(),
    {
        if self.running {
            return false;
        }
        match self.mode {
            ArchiveMode::Compress => self.sources.len() > 0 && self.output.is_some(),
            ArchiveMode::Extract => {
                let readable = match &self.zip_info {
                    Some(Ok(_)) => true,
                    _ => false,
                };
                readable && self.dest.is_some()
            },
        }
    }

    /// Starts the work.
    pub fn start(&mut self) -> (r: Option<ArchiveJob>)
        requires
            old(self).wf(),
        ensures
            final(self).wf(),
            *final(self) == (ArchiveTab {
                outcome: None,
                last_error: None,
                cancel_requested: false,
                done: 0,
                total: 0,
                running: final(self).running,
                job_reveal: final(self).job_reveal,
                log: final(self).log,
                ..*old(self)
            }),
            r is None ==> ui::emptied(old(self).log, final(self).log) && final(self).running
                == old(self).running && final(self).job_reveal == old(self).job_reveal,
            r is Some ==> final(self).running,
            match old(self).mode {
                ArchiveMode::Compress => {
                    &&& (r is Some) == (old(self).output is Some && old(self).sources@.len() > 0)
                    &&& r is Some ==> {
                        let place = old(self).output->0@;
                        &&& r matches Some(ArchiveJob::Zip { sources, out, options })
                        &&& paths::views(sources@) == paths::views(old(self).sources@)
                        &&& out@ == place
                        &&& options.level == old(self).level
                        &&& ui::began(
                            old(self).log,
                            final(self).log,
                            "Creating "@ + place.shown(),
                        )
                        &&& final(self).job_reveal is Some
                        &&& final(self).job_reveal->0@ == place
                    }
                },
                ArchiveMode::Extract => {
                    &&& (r is Some) == (old(self).zip is Some && old(self).dest is Some)
                    &&& r is Some ==> {
                        let from = old(self).zip->0@;
                        let to = old(self).dest->0@;
                        &&& r matches Some(ArchiveJob::Unzip { zip, dest, overwrite })
                        &&& zip@ == from
                        &&& dest@ == to
                        &&& overwrite == old(self).overwrite
                        &&& ui::began(
                            old(self).log,
                            final(self).log,
                            "Extracting "@ + from.shown() + " to "@ + to.shown(),
                        )
                        &&& final(self).job_reveal is Some
                        &&& final(self).job_reveal->0@ == to
                    }
                },
            },
    {
        self.log.clear();
        self.outcome = None;
        self.last_error = None;
        self.cancel_requested = false;
        self.done = 0;
        self.total = 0;
        match self.mode {
            ArchiveMode::Compress => {
                let out = match &self.output {
                    Some(out) => out.clone(),
                    None => return None,
                };
                if self.sources.len() == 0 {
                    return None;
                }
                let mut line = "Creating ".to_owned();
                line.append(out.display().as_str());
                self.log.push(line);
                self.job_reveal = Some(out.clone());
                self.running = true;
                Some(
                    ArchiveJob::Zip {
                        sources: paths::clone_paths(&self.sources),
                        out,
                        options: ZipOptions { level: self.level },
                    },
                )
            },
            ArchiveMode::Extract => {
                let (zip, dest) = match (&self.zip, &self.dest) {
                    (Some(zip), Some(dest)) => (zip.clone(), dest.clone()),
                    _ => return None,
                };
                let mut line = "Extracting ".to_owned();
                line.append(zip.display().as_str());
                line.append(" to ");
                line.append(dest.display().as_str());
                self.log.push(line);
                self.job_reveal = Some(dest.clone());
                self.running = true;
                Some(ArchiveJob::Unzip { zip, dest, overwrite: self.overwrite })
            },
        }
    }

    /// The user asks to stop.
    pub fn cancel(&mut self)
        requires
            old(self).wf(),
        ensures
            final(self).wf(),
            *final(self) == (ArchiveTab { cancel_requested: true, ..*old(self) }),
    {
        self.cancel_requested = true;
    }

    /// The line for an event, if it has one. `elapsed` is how long the work has
    /// taken.
    pub open spec fn line_for(self, event: ArchiveEventView, elapsed: Seq<char>) -> Option<
        Seq<char>,
    > {
        match event {
            ArchiveEventView::Started { files, bytes } => Some(
                text::dec(files as nat) + " file(s), "@ + util::readable(bytes),
            ),
            ArchiveEventView::Progress { done, total } => None,
            ArchiveEventView::FileSkipped { path, reason } => Some(
                "skipped "@ + path + " — "@ + reason,
            ),
            ArchiveEventView::FileError { path, message } => Some(ui::error_line(path, message)),
            ArchiveEventView::Finished(s) => Some(
                (match self.mode {
                    ArchiveMode::Compress => "Zipped"@,
                    ArchiveMode::Extract => "Extracted"@,
                }) + " "@ + text::dec(s.files as nat) + " file(s), "@ + util::readable(s.bytes)
                    + " — "@ + elapsed,
            ),
            ArchiveEventView::Cancelled => Some("Stopped."@),
        }
    }

    /// How the work ended, if an event ends it. A fatal error comes as an error
    /// with a file, followed by the end; a stop that the user asked for is no
    /// error.
    pub open spec fn ended(self, event: ArchiveEvent, outcome: Option<ArchiveOutcome>) -> bool {
        match event {
            ArchiveEvent::Finished(summary) => {
                &&& outcome matches Some(ArchiveOutcome::Done { summary: s, reveal: place })
                &&& s == summary
                &&& match self.job_reveal {
                    Some(p) => place@ == p@,
                    None => place@ == paths::parsed(""@),
                }
            },
            ArchiveEvent::Cancelled => match self.last_error {
                Some(e) if !self.cancel_requested => {
                    &&& outcome matches Some(ArchiveOutcome::Failed(m))
                    &&& m@ == e@
                },
                _ => outcome == Some(ArchiveOutcome::Cancelled),
            },
            _ => outcome == self.outcome,
        }
    }

    fn write_line(&self, event: &ArchiveEvent, elapsed: &str) -> (r: Option<String>)
        ensures
            match self.line_for(event@, elapsed@) {
                Some(line) => r is Some && r->0@ == line,
                None => r is None,
            },
    {
        match event {
            ArchiveEvent::Started { files, bytes } => {
                let mut line = ui::counted(*files, " file(s), ");
                line.append(util::human_bytes(*bytes).as_str());
                Some(line)
            },
            ArchiveEvent::Progress { done, total } => None,
            ArchiveEvent::FileSkipped { path, reason } => {
                let mut line = "skipped ".to_owned();
                line.append(path.as_str());
                line.append(" — ");
                line.append(reason.as_str());
                Some(line)
            },
            ArchiveEvent::FileError { path, message } => Some(
                ui::write_error(path.as_str(), message.as_str()),
            ),
            ArchiveEvent::Finished(s) => {
                let mut line = match self.mode {
                    ArchiveMode::Compress => "Zipped".to_owned(),
                    ArchiveMode::Extract => "Extracted".to_owned(),
                };
                line.append(" ");
                line.append(text::decimal(s.files as u64).as_str());
                line.append(" file(s), ");
                line.append(util::human_bytes(s.bytes).as_str());
                line.append(" — ");
                line.append(elapsed);
                Some(line)
            },
            ArchiveEvent::Cancelled => Some("Stopped.".to_owned()),
        }
    }

    /// The work tells about its progress. `elapsed` is how long it has taken.
    pub fn on_event(&mut self, event: ArchiveEvent, elapsed: &str) -> (notice: Option<Notice>)
        requires
            old(self).wf(),
        ensures
            final(self).wf(),
            match old(self).line_for(event@, elapsed@) {
                Some(line) => ui::wrote(old(self).log, final(self).log, line),
                None => final(self).log == old(self).log,
            },
            old(self).ended(event, final(self).outcome),
            match event {
                ArchiveEvent::Finished(s) => {
                    &&& notice is Some
                    &&& notice->0.says(
                        match old(self).mode {
                            ArchiveMode::Compress => "Zip finished"@,
                            ArchiveMode::Extract => "Unzip finished"@,
                        },
                        text::dec(s.files as nat) + " file(s)"@,
                    )
                },
                _ => notice is None,
            },
            match event@ {
                ArchiveEventView::FileError { path, message } => final(self).last_error is Some
                    && final(self).last_error->0@ == path + ": "@ + message,
                _ => final(self).last_error == old(self).last_error,
            },
            *final(self) == (ArchiveTab {
                total: match event {
                    ArchiveEvent::Started { files, bytes } => bytes,
                    ArchiveEvent::Progress { done, total } => total,
                    _ => old(self).total,
                },
                done: match event {
                    ArchiveEvent::Progress { done, total } => done,
                    _ => old(self).done,
                },
                running: old(self).running && !(event is Finished || event is Cancelled),
                last_error: final(self).last_error,
                outcome: final(self).outcome,
                log: final(self).log,
                ..*old(self)
            }),
    {
        match self.write_line(&event, elapsed) {
            Some(line) => self.log.push(line),
            None => {},
        }
        match event {
            ArchiveEvent::Started { files, bytes } => {
                self.total = bytes;
                None
            },
            ArchiveEvent::Progress { done, total } => {
                self.done = done;
                self.total = total;
                None
            },
            ArchiveEvent::FileSkipped { path, reason } => None,
            ArchiveEvent::FileError { path, message } => {
                let mut error = path.clone();
                error.append(": ");
                error.append(message.as_str());
                self.last_error = Some(error);
                None
            },
            ArchiveEvent::Finished(summary) => {
                let place = match &self.job_reveal {
                    Some(p) => p.clone(),
                    None => FilePath::parse(""),
                };
                self.outcome = Some(ArchiveOutcome::Done { summary, reveal: place });
                self.running = false;
                let heading = match self.mode {
                    ArchiveMode::Compress => "Zip finished".to_owned(),
                    ArchiveMode::Extract => "Unzip finished".to_owned(),
                };
                Some(Notice { summary: heading, body: ui::counted(summary.files, " file(s)") })
            },
            ArchiveEvent::Cancelled => {
                self.outcome = Some(
                    match &self.last_error {
                        Some(e) if !self.cancel_requested => ArchiveOutcome::Failed(e.clone()),
                        _ => ArchiveOutcome::Cancelled,
                    },
                );
                self.running = false;
                None
            },
        }
    }

    /// How far the work is; the speed and the time left where they are known.
    pub fn progress_label(&self, rate: Option<u64>, left: Option<&str>, elapsed: &str) -> (r:
        String)
        ensures
            r@ == ui::speed_line(self.done, self.total, rate, ui::text_of(left)) + " — "@ + elapsed@
                + " elapsed"@,
    {
        let mut r = ui::write_speed(self.done, self.total, rate, left);
        r.append(" — ");
        r.append(elapsed);
        r.append(" elapsed");
        r
    }

    /// What the archive holds, or why it cannot be read.
    pub fn info_label(&self) -> (r: Option<String>)
        ensures
            match self.zip_info {
                Some(Ok(info)) => r is Some && r->0@ == text::dec(info.files as nat)
                    + " file(s) — "@ + util::readable(info.uncompressed) + " once extracted ("@
                    + util::readable(info.compressed) + " zipped)"@,
                Some(Err(e)) => r is Some && r->0@ == "Can't read that as a zip file: "@ + e@,
                None => r is None,
            },
    {
        match &self.zip_info {
            Some(Ok(info)) => {
                let mut r = ui::counted(info.files, " file(s) — ");
                r.append(util::human_bytes(info.uncompressed).as_str());
                r.append(" once extracted (");
                r.append(util::human_bytes(info.compressed).as_str());
                r.append(" zipped)");
                Some(r)
            },
            Some(Err(e)) => {
                let mut r = "Can't read that as a zip file: ".to_owned();
                r.append(e.as_str());
                Some(r)
            },
            None => None,
        }
    }

    /// What is said when the work ended early.
    pub fn stopped_label(&self) -> (r: Option<String>)
        ensures
            match self.outcome {
                Some(ArchiveOutcome::Failed(m)) => r is Some && r->0@ == "✗ Failed: "@ + m@,
                Some(ArchiveOutcome::Cancelled) => r is Some && r->0@ == (match self.mode {
                    ArchiveMode::Compress => "Cancelled. No zip was created."@,
                    ArchiveMode::Extract =>
                        "Cancelled. Files extracted so far were left in place."@,
                }),
                _ => r is None,
            },
    {
        match &self.outcome {
            Some(ArchiveOutcome::Failed(m)) => {
                let mut r = "✗ Failed: ".to_owned();
                r.append(m.as_str());
                Some(r)
            },
            Some(ArchiveOutcome::Cancelled) => match self.mode {
                ArchiveMode::Compress => Some("Cancelled. No zip was created.".to_owned()),
                ArchiveMode::Extract => Some(
                    "Cancelled. Files extracted so far were left in place.".to_owned(),
                ),
            },
            _ => None,
        }
    }
}

/// What is said of finished work; `percent` is the size of the archive as a
/// share of what it holds, shown where both are known.
pub open spec fn done_line(s: ArchiveSummary, percent: Seq<char>) -> Seq<char> {
    let start = "✔ Done — "@ + text::dec(s.files as nat) + " file(s), "@ + util::readable(s.bytes);
    if s.archive_bytes > 0 && s.bytes > 0 {
        start + " → "@ + util::readable(s.archive_bytes) + " ("@ + percent + "% of original)"@
    } else {
        start
    }
}

pub fn done_label(s: &ArchiveSummary, percent: &str) -> (r: String)
    ensures
        r@ == done_line(*s, percent@),
{
    let mut r = "✔ Done — ".to_owned();
    r.append(text::decimal(s.files as u64).as_str());
    r.append(" file(s), ");
    r.append(util::human_bytes(s.bytes).as_str());
    if s.archive_bytes > 0 && s.bytes > 0 {
        r.append(" → ");
        r.append(util::human_bytes(s.archive_bytes).as_str());
        r.append(" (");
        r.append(percent);
        r.append("% of original)");
    }
    r
}

/// What is said of items that could not be processed, if any.
pub fn failed_label(s: &ArchiveSummary) -> (r: Option<String>)
    ensures
        s.failed == 0 ==> r is None,
        s.failed > 0 ==> r is Some && r->0@ == text::dec(s.failed as nat)
            + " item(s) couldn't be processed — see the log."@,
{
    if s.failed == 0 {
        return None;
    }
    Some(ui::counted(s.failed, " item(s) couldn't be processed — see the log."))
}

/// What is said of files that were there already, if any.
pub fn skipped_label(s: &ArchiveSummary) -> (r: Option<String>)
    ensures
        s.skipped == 0 ==> r is None,
        s.skipped > 0 ==> r is Some && r->0@ == text::dec(s.skipped as nat)
            + " existing file(s) were left alone."@,
{
    if s.skipped == 0 {
        return None;
    }
    Some(ui::counted(s.skipped, " existing file(s) were left alone."))
}

/// The name of a level of compression.
pub fn level_name(level: u8) -> (r: &'static str)
    ensures
        r@ == (if level == 1 {
            "Fast"@
        } else if level == 9 {
            "Smallest"@
        } else if level == 0 {
            "None (store only)"@
        } else {
            "Normal"@
        }),
{
    if level == 1 {
        "Fast"
    } else if level == 9 {
        "Smallest"
    } else if level == 0 {
        "None (store only)"
    } else {
        "Normal"
    }
}

/// A job packs or unpacks what was chosen, and to where that was chosen.
pub proof fn law_archive_job_does_what_was_chosen(tab: &mut ArchiveTab, r: Option<ArchiveJob>)
    requires
        tab.wf(),
        call_ensures(ArchiveTab::start, (tab,), r),
    ensures
        old(tab).mode is Compress && old(tab).output is Some && old(tab).sources@.len() > 0 ==> (
        r matches Some(ArchiveJob::Zip { sources, out, options }) && paths::views(sources@)
            == paths::views(old(tab).sources@) && out@ == old(tab).output->0@ && options.level
            == old(tab).level),
        old(tab).mode is Extract && old(tab).zip is Some && old(tab).dest is Some ==> (
        r matches Some(ArchiveJob::Unzip { zip, dest, overwrite }) && zip@ == old(tab).zip->0@
            && dest@ == old(tab).dest->0@ && overwrite == old(tab).overwrite),
        old(tab).mode is Compress && old(tab).sources@.len() == 0 ==> r is None,
        r is Some ==> final(tab).running && final(tab).done == 0 && final(tab).total == 0,
        final(tab).sources == old(tab).sources,
{
}

/// The archive is saved under a name of its kind, in the folder that was
/// chosen; a name that is already of that kind stays as it is.
pub proof fn law_archives_are_saved_as_chosen(tab: &mut ArchiveTab, path: FilePath, u: ())
    requires
        tab.wf(),
        path@.file_name() is Some,
        call_ensures(ArchiveTab::output_picked, (tab, path), u),
    ensures
        final(tab).output is Some,
        final(tab).output_is_custom,
        final(tab).output->0@.parent() == path@.parent(),
        forall|stem: Seq<char>|
            path@.parts.last() == #[trigger] (stem + ".zip"@) && stem.len() > 0 && !stem.contains('.')
                ==> final(tab).output->0@ == path@,
        forall|stem: Seq<char>|
            path@.parts.last() == stem && stem.len() > 0 && !(#[trigger] stem.contains('.'))
                ==> final(tab).output->0@.parts.last() == stem + ".zip"@,
{
    reveal_strlit(".zip");
    reveal_strlit("zip");
    let name = path@.parts.last();
    let n = name.len() as int;
    paths::lemma_last_dot(name, n);
    let d = paths::last_dot(name, n);
    let out = final(tab).output->0@;
    if !named_zip(path@) {
        assert(out.parts.drop_last() =~= path@.parts.drop_last());
    }
    assert forall|stem: Seq<char>|
        path@.parts.last() == #[trigger] (stem + ".zip"@) && stem.len() > 0 && !stem.contains(
            '.',
        ) implies out == path@ by {
        let k = stem.len() as int;
        assert(name[k] == '.' && name[k + 1] != '.' && name[k + 2] != '.' && name[k + 3] != '.');
        assert(d == k);
        assert(name.skip(d + 1) =~= "zip"@);
        assert(named_zip(path@));
    }
    assert forall|stem: Seq<char>|
        path@.parts.last() == stem && stem.len() > 0 && !(#[trigger] stem.contains(
            '.',
        )) implies out.parts.last() == stem + ".zip"@ by {
        if d > 0 {
            assert(stem.contains(stem[d]));
        }
    }
}

/// Nothing that is packed twice is listed twice, and nothing listed is lost.
pub proof fn law_added_sources_are_listed(
    tab: &mut ArchiveTab,
    more: &Vec<FilePath>,
    u: (),
    p: PathView,
)
    requires
        tab.wf(),
        call_ensures(ArchiveTab::add_sources, (tab, more), u),
    ensures
        paths::views(final(tab).sources@).contains(p) <==> paths::views(
            old(tab).sources@,
        ).contains(p) || paths::views(more@).contains(p),
{
    let v = paths::views(more@);
    selection::lemma_with_all(paths::views(tab.sources@), v, v.len() as int, p);
    assert(v.take(v.len() as int) =~= v);
    assert(v.len() == more@.len());
}

/// An archive is suggested beside the first source, and unpacking beside the
/// archive; what the user chose stays.
pub proof fn law_suggestions_stay_beside(
    tab: &ArchiveTab,
    r: Suggestion,
)
    requires
        call_ensures(ArchiveTab::refresh_default_output, (tab,), r),
    ensures
        tab.output_is_custom ==> r is Keep,
        (!tab.output_is_custom && tab.sources@.len() > 0 && tab.sources@[0]@.parts.len() > 0) ==> (
        r matches Suggestion::FirstFree(f) && f.number == 1 && f.path@.parent()
            == tab.sources@[0]@.parent()),
        !tab.output_is_custom && tab.sources@.len() == 0 ==> r is Nothing,
{
    let v = paths::views(tab.sources@);
    assert(v.len() == tab.sources@.len());
    if v.len() > 0 {
        assert(v[0] == tab.sources@[0]@);
        if v[0].parts.len() > 0 && !tab.output_is_custom {
            let dir = v[0].parent()->0;
            assert(dir.child(zip_name(v)).parts.drop_last() =~= dir.parts);
        }
    }
}

/// A name that is tried in place of another lies in the same folder.
pub proof fn law_tried_names_stay_in_the_folder(name: &FreeName, r: FilePath)
    requires
        call_ensures(FreeName::candidate, (name,), r),
        name.path@.file_name() is Some,
    ensures
        r@.parent() == name.path@.parent(),
        name.number <= 1 ==> r@ == name.path@,
{
    assert(r@.parts.drop_last() =~= name.path@.parts.drop_last());
}

/// Work that ended well is told so, a stop that was asked for is no failure, and
/// an error that ended the work is shown.
pub proof fn law_archive_ends_are_told(
    tab: &mut ArchiveTab,
    event: ArchiveEvent,
    elapsed: &str,
    notice: Option<Notice>,
)
    requires
        tab.wf(),
        call_ensures(ArchiveTab::on_event, (tab, event, elapsed), notice),
    ensures
        event is Finished ==> !final(tab).running && notice is Some && (
        final(tab).outcome matches Some(ArchiveOutcome::Done { .. })),
        event is Cancelled ==> !final(tab).running && notice is None,
        event is Cancelled && old(tab).cancel_requested ==> final(tab).outcome == Some(
            ArchiveOutcome::Cancelled,
        ),
        event is Cancelled && !old(tab).cancel_requested && old(tab).last_error is Some ==> (
        final(tab).outcome matches Some(ArchiveOutcome::Failed(m)) && m@ == old(tab).last_error->0@),
        event matches ArchiveEvent::Progress { done, total } ==> final(tab).done == done && final(tab).total == total && final(tab).running == old(tab).running,
{
}

/// Unpacking is suggested in a folder beside the archive, with its name; what
/// the user chose stays.
pub proof fn law_unpacking_is_suggested_beside(
    tab: &mut ArchiveTab,
    path: FilePath,
    info: Result<ZipInfo, String>,
    r: Suggestion,
)
    requires
        tab.wf(),
        path@.parts.len() > 0,
        call_ensures(ArchiveTab::set_zip, (tab, path, info), r),
    ensures
        final(tab).zip == Some(path),
        final(tab).zip_info == Some(info),
        old(tab).dest_is_custom ==> r is Keep,
        !old(tab).dest_is_custom ==> (r matches Suggestion::FirstFree(f) && f.path@.parent()
            == path@.parent()),
        final(tab).dest == old(tab).dest,
{
    if !tab.dest_is_custom {
        let dir = path@.parent()->0;
        let name = match path@.file_name() {
            Some(name) => paths::stem(name),
            None => "Extracted"@,
        };
        assert(dir.child(name).parts.drop_last() =~= dir.parts);
    }
}

/// Work begins only when everything it needs was chosen, and not twice.
pub proof fn law_work_begins_when_all_is_chosen(tab: &ArchiveTab, r: bool)
    requires
        call_ensures(ArchiveTab::can_start, (tab,), r),
    ensures
        r && tab.mode is Compress ==> tab.sources@.len() > 0 && tab.output is Some,
        r && tab.mode is Extract ==> tab.dest is Some && (tab.zip_info matches Some(i) && i is Ok),
        tab.running ==> !r,
        !tab.running && tab.mode is Compress && tab.sources@.len() > 0 && tab.output is Some ==> r,
{
}

} // verus!
