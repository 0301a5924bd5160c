//! Moving, renaming and organizing files.

use vstd::prelude::*;

use crate::calendar;
use crate::paths;
use crate::paths::{FilePath, PathView};
use crate::text;
use crate::{io_err, EngineError, EngineResult, ErrorView};

verus! {

/// The token for the name of a file: `{name}`.
pub open spec fn name_token() -> Seq<char> {
    seq!['{', 'n', 'a', 'm', 'e', '}']
}

/// The token for the extension of a file: `{ext}`.
pub open spec fn ext_token() -> Seq<char> {
    seq!['{', 'e', 'x', 't', '}']
}

/// Whether a counter stands at `at`: one or more `n`s in braces.
pub open spec fn counter_at(s: Seq<char>, at: int) -> bool {
    let close = text::find_from(s, '}', at);
    &&& 0 <= at < s.len()
    &&& s[at] == '{'
    &&& at + 1 < close < s.len()
    &&& text::all_are(s.subrange(at + 1, close), 'n')
}

/// A rename pattern from position `at` on, filled in from left to right. What
/// is filled in is not looked at again. `inside` tells that the position lies
/// between an opening brace of no known token and the next closing one, where
/// no counter begins.
pub open spec fn expanded(
    s: Seq<char>,
    stem: Seq<char>,
    ext: Seq<char>,
    index: nat,
    at: int,
    inside: bool,
) -> Seq<char>
    decreases s.len() - at,
{
    if at < 0 || at >= s.len() {
        Seq::empty()
    } else if text::stands_at(s, name_token(), at) {
        stem + expanded(s, stem, ext, index, at + 6, inside)
    } else if text::stands_at(s, ext_token(), at) {
        ext + expanded(s, stem, ext, index, at + 5, inside)
    } else if !inside && counter_at(s, at) {
        let close = text::find_from(s, '}', at);
        text::dec_padded(index, (close - at - 1) as nat) + expanded(
            s,
            stem,
            ext,
            index,
            close + 1,
            false,
        )
    } else {
        seq![s[at]] + expanded(
            s,
            stem,
            ext,
            index,
            at + 1,
            s[at] == '{' || (inside && s[at] != '}'),
        )
    }
}

/// A rename pattern filled in.
pub open spec fn renamed(pattern: Seq<char>, stem: Seq<char>, ext: Seq<char>, index: nat) -> Seq<
    char,
> {
    expanded(pattern, stem, ext, index, 0, false)
}

fn is_counter(v: &Vec<char>, from: usize, to: usize) -> (r: bool)
    requires
        from <= to <= v@.len(),
    ensures
        r == (from < to && text::all_are(v@.subrange(from as int, to as int), 'n')),
{
    let mut i: usize = from;
    while i < to
        invariant
            from <= i <= to <= v@.len(),
            forall|j: int| from <= j < i ==> v@[j] == 'n',
        decreases to - i,
    {
        if v[i] != 'n' {
            proof {
                assert(v@.subrange(from as int, to as int)[i - from] != 'n');
            }
            return false;
        }
        i = i + 1;
    }
    from < to
}

/// Expands a rename pattern for one item:
/// - `{name}` is the file name without its extension,
/// - `{ext}` is the extension without the dot,
/// - `{n}`, `{nn}`, `{nnn}`, ... is the index, with zeros in front up to as
///   many digits as there are `n`s.
///
/// Other tokens in braces stay as they are, and so does a token that a name or
/// an extension brings along.
pub fn apply_rename_pattern(pattern: &str, stem: &str, ext: &str, index: usize) -> (r: String)
    ensures
        r@ == renamed(pattern@, stem@, ext@, index as nat),
{
    let full = text::chars_of(pattern);
    let name_mark = text::chars_of("{name}");
    let ext_mark = text::chars_of("{ext}");
    proof {
        reveal_strlit("{name}");
        reveal_strlit("{ext}");
        assert(name_mark@ =~= name_token());
        assert(ext_mark@ =~= ext_token());
    }
    let ghost all = renamed(pattern@, stem@, ext@, index as nat);
    let mut out = String::new();
    let mut at: usize = 0;
    let mut inside = false;
    proof {
        assert(out@ + all =~= all);
    }
    while at < full.len()
        invariant
            at <= full@.len(),
            name_mark@ == name_token(),
            ext_mark@ == ext_token(),
            out@ + expanded(full@, stem@, ext@, index as nat, at as int, inside) == all,
        decreases full@.len() - at,
    {
        let ghost before = out@;
        let ghost from = at as int;
        let ghost was = inside;
        let close: usize = text::find_char(&full, '}', at);
        if text::pattern_at(&full, &name_mark, at) {
            out.append(stem);
            at = at + 6;
        } else if text::pattern_at(&full, &ext_mark, at) {
            out.append(ext);
            at = at + 5;
        } else if !inside && full[at] == '{' && close < full.len() && is_counter(
            &full,
            at + 1,
            close,
        ) {
            out.append(text::decimal_padded(index as u64, close - at - 1).as_str());
            at = close + 1;
        } else {
            let c = full[at];
            out.push(c);
            inside = c == '{' || (inside && c != '}');
            at = at + 1;
        }
        proof {
            assert(before + expanded(full@, stem@, ext@, index as nat, from, was) =~= out@
                + expanded(full@, stem@, ext@, index as nat, at as int, inside));
        }
    }
    proof {
        assert(out@ =~= all);
    }
    out
}

/// A pattern that only names the parts of a file name gives them back as they
/// are, whatever braces they hold.
pub proof fn law_plain_pattern_keeps_the_name(stem: Seq<char>, ext: Seq<char>, index: nat)
    ensures
        renamed(name_token(), stem, ext, index) == stem,
        renamed(name_token() + seq!['.'] + ext_token(), stem, ext, index) == stem + seq!['.'] + ext,
{
    let one = name_token();
    assert(text::stands_at(one, name_token(), 0)) by {
        assert(one.subrange(0, 6) =~= name_token());
    }
    assert(expanded(one, stem, ext, index, 6, false) == Seq::<char>::empty());
    assert(stem + Seq::<char>::empty() =~= stem);
    let two = name_token() + seq!['.'] + ext_token();
    assert(text::stands_at(two, name_token(), 0)) by {
        assert(two.subrange(0, 6) =~= name_token());
    }
    assert(!text::stands_at(two, name_token(), 6)) by {
        assert(two.subrange(6, 12)[0] == '.');
    }
    assert(!text::stands_at(two, ext_token(), 6)) by {
        assert(two.subrange(6, 11)[0] == '.');
    }
    assert(!text::stands_at(two, name_token(), 7));
    assert(text::stands_at(two, ext_token(), 7)) by {
        assert(two.subrange(7, 12) =~= ext_token());
    }
    assert(expanded(two, stem, ext, index, 12, false) == Seq::<char>::empty());
    assert(expanded(two, stem, ext, index, 7, false) =~= ext);
    assert(expanded(two, stem, ext, index, 6, false) =~= seq!['.'] + ext);
    assert(renamed(two, stem, ext, index) =~= stem + seq!['.'] + ext);
}

/// The error for a path that has nothing above it.
pub open spec fn no_parent(p: PathView) -> ErrorView {
    ErrorView::Other("no parent for "@ + p.shown())
}

fn no_parent_error(path: &FilePath) -> (e: EngineError)
    ensures
        e@ == no_parent(path@),
{
    let mut m = "no parent for ".to_owned();
    m.append(path.display().as_str());
    EngineError::Other(m)
}

/// Where a file goes when it gets a new name in the same folder.
pub fn rename_target(path: &FilePath, new_name: &str) -> (r: EngineResult<FilePath>)
    ensures
        match path@.parent() {
            Some(parent) => r is Ok && r->Ok_0@ == parent.joined(paths::parsed(new_name@)),
            None => r is Err && r->Err_0@ == no_parent(path@),
        },
{
    match path.parent() {
        Some(parent) => Ok(parent.join_text(new_name)),
        None => Err(no_parent_error(path)),
    }
}

/// The name that a pattern gives to the item at position `i`, counted from 0.
pub open spec fn batch_name(p: PathView, pattern: Seq<char>, i: nat) -> Seq<char> {
    let name = match p.file_name() {
        Some(n) => n,
        None => Seq::empty(),
    };
    let ext = match paths::extension(name) {
        Some(e) => e,
        None => Seq::empty(),
    };
    renamed(pattern, paths::stem(name), ext, i + 1)
}

/// The name that a pattern gives to the item at position `i`, counted from 0.
pub fn new_name(path: &FilePath, pattern: &str, i: usize) -> (r: String)
    requires
        i < usize::MAX,
    ensures
        r@ == batch_name(path@, pattern@, i as nat),
{
    let name = match path.file_name() {
        Some(n) => n,
        None => String::new(),
    };
    let stem = paths::file_stem(name.as_str());
    let ext = match paths::file_extension(name.as_str()) {
        Some(e) => e,
        None => String::new(),
    };
    proof {
        if path@.file_name() is None {
            assert(name@ =~= Seq::<char>::empty());
        }
        if paths::extension(name@) is None {
            assert(ext@ =~= Seq::<char>::empty());
        }
    }
    apply_rename_pattern(pattern, stem.as_str(), ext.as_str(), i + 1)
}

/// Where the item at position `i` of a batch goes under a rename pattern;
/// nowhere when nothing is above it.
pub open spec fn batch_place(p: PathView, pattern: Seq<char>, i: nat) -> Option<PathView> {
    match p.parent() {
        Some(parent) => Some(parent.joined(paths::parsed(batch_name(p, pattern, i)))),
        None => None,
    }
}

/// Where the item at position `i` of a batch goes under a rename pattern. The
/// items are numbered from 1 in the order given.
pub fn batch_target(path: &FilePath, pattern: &str, i: usize) -> (r: EngineResult<FilePath>)
    requires
        i < usize::MAX,
    ensures
        match batch_place(path@, pattern@, i as nat) {
            Some(to) => r is Ok && r->Ok_0@ == to,
            None => r is Err && r->Err_0@ == no_parent(path@),
        },
{
    match path.parent() {
        Some(parent) => Ok(parent.join_text(new_name(path, pattern, i).as_str())),
        None => Err(no_parent_error(path)),
    }
}

/// What renaming a batch does next.
#[derive(Debug, PartialEq, Eq)]
pub enum BatchStep {
    Rename { from: FilePath, to: FilePath },
    /// A rename failed; no other is tried.
    Stopped,
    /// Every item has its new name.
    Done,
}

/// The state of renaming files in place by a pattern. It ends with the first
/// failure; what has its new name by then keeps it.
#[derive(Debug)]
pub struct BatchRun {
    pub paths: Vec<FilePath>,
    pub pattern: String,
    /// The new paths of the items renamed so far.
    pub renamed: Vec<FilePath>,
    pub failure: Option<EngineError>,
}

impl BatchRun {
    /// The items renamed are the first ones, each with the name that the
    /// pattern gives it; after a failure at least one is left.
    pub open spec fn wf(self) -> bool {
        &&& self.renamed@.len() <= self.paths@.len()
        &&& self.failure is Some ==> self.renamed@.len() < self.paths@.len()
        &&& forall|i: int|
            0 <= i < self.renamed@.len() ==> batch_place(
                self.paths@[i]@,
                self.pattern@,
                i as nat,
            ) == Some((#[trigger] self.renamed@[i])@)
    }

    /// The item that is next.
    pub open spec fn current(self) -> PathView {
        self.paths@[self.renamed@.len() as int]@
    }

    /// Where the next item goes.
    pub open spec fn place(self) -> Option<PathView> {
        batch_place(self.current(), self.pattern@, self.renamed@.len())
    }

    pub fn new(paths: Vec<FilePath>, pattern: String) -> (r: BatchRun)
        ensures
            r.wf(),
            r.paths == paths,
            r.pattern == pattern,
            r.renamed@.len() == 0,
            r.failure is None,
    {
        BatchRun { paths, pattern, renamed: Vec::new(), failure: None }
    }

    /// What to do next. An item with nothing above it ends the batch.
    pub fn next(&mut self) -> (step: BatchStep)
        requires
            old(self).wf(),
        ensures
            final(self).wf(),
            old(self).failure is Some ==> step is Stopped && *final(self) == *old(self),
            old(self).failure is None && old(self).renamed@.len() == old(self).paths@.len()
                ==> step is Done && *final(self) == *old(self),
            old(self).failure is None && old(self).renamed@.len() < old(self).paths@.len()
                ==> match old(self).place() {
                Some(place) => {
                    &&& step matches BatchStep::Rename { from, to }
                    &&& from@ == old(self).current()
                    &&& to@ == place
                    &&& *final(self) == *old(self)
                },
                None => {
                    &&& step is Stopped
                    &&& final(self).failure is Some
                    &&& final(self).failure->0@ == no_parent(old(self).current())
                    &&& *final(self) == (BatchRun {
                        failure: final(self).failure,
                        ..*old(self)
                    })
                },
            },
    {
        if self.failure.is_some() {
            return BatchStep::Stopped;
        }
        let i: usize = self.renamed.len();
        if i == self.paths.len() {
            return BatchStep::Done;
        }
        match batch_target(&self.paths[i], self.pattern.as_str(), i) {
            Ok(to) => BatchStep::Rename { from: self.paths[i].clone(), to },
            Err(e) => {
                self.failure = Some(e);
                BatchStep::Stopped
            },
        }
    }

    /// Takes note of how the rename asked for last ended.
    pub fn tried(&mut self, to: FilePath, result: EngineResult<()>)
        requires
            old(self).wf(),
            old(self).failure is None,
            old(self).renamed@.len() < old(self).paths@.len(),
            old(self).place() == Some(to@),
        ensures
            final(self).wf(),
            match result {
                Ok(_) => {
                    &&& final(self).renamed@ == old(self).renamed@.push(to)
                    &&& *final(self) == (BatchRun { renamed: final(self).renamed, ..*old(self) })
                },
                Err(e) => *final(self) == (BatchRun { failure: Some(e), ..*old(self) }),
            },
    {
        match result {
            Ok(_) => {
                self.renamed.push(to);
            },
            Err(e) => {
                self.failure = Some(e);
            },
        }
    }

    /// The new paths in the order given, or the failure that ended the batch.
    pub fn finish(self) -> (r: EngineResult<Vec<FilePath>>)
        requires
            self.wf(),
            self.failure is Some || self.renamed@.len() == self.paths@.len(),
        ensures
            match self.failure {
                Some(e) => r == Err::<Vec<FilePath>, EngineError>(e),
                None => {
                    &&& r is Ok
                    &&& r->Ok_0@ == self.renamed@
                    &&& r->Ok_0@.len() == self.paths@.len()
                },
            },
    {
        match self.failure {
            Some(e) => Err(e),
            None => Ok(self.renamed),
        }
    }
}

/// A batch that ran to its end has given every item the name that the pattern
/// has for it, in the order given. One that failed has renamed the items before
/// the one that failed and no other.
pub proof fn law_batch_stops_at_the_first_failure(run: BatchRun, i: int)
    requires
        run.wf(),
        run.failure is Some || run.renamed@.len() == run.paths@.len(),
        0 <= i < run.paths@.len(),
    ensures
        run.failure is None ==> i < run.renamed@.len(),
        i < run.renamed@.len() ==> batch_place(run.paths@[i]@, run.pattern@, i as nat) == Some(
            run.renamed@[i]@,
        ),
        run.failure is Some ==> run.renamed@.len() < run.paths@.len(),
{
}

/// The kind of system, as far as error codes go.
#[derive(Debug, Clone, Copy, PartialEq, Eq, Structural)]
pub enum System {
    Unix,
    Windows,
    Other,
}

/// Whether an error code of the system says that source and destination are
/// on different volumes.
pub fn is_cross_device(code: Option<i32>, system: System) -> (r: bool)
    ensures
        r == match system {
            System::Unix => code == Some(18i32),
            System::Windows => code == Some(17i32),
            System::Other => false,
        },
{
    match (system, code) {
        (System::Unix, Some(c)) => c == 18,
        (System::Windows, Some(c)) => c == 17,
        _ => false,
    }
}

/// How a rename ended: done, or the error code and what the system said.
#[derive(Debug, PartialEq, Eq)]
pub enum RenameOutcome {
    Renamed,
    Refused { code: Option<i32>, message: String },
}

/// What follows a rename.
#[derive(Debug, PartialEq, Eq)]
pub enum MoveStep {
    /// The move is complete.
    Finished,
    /// Copy everything to the destination, then remove the source.
    CopyThenRemove,
    Fail(EngineError),
}

/// What follows a rename of `src`: a move between volumes falls back to
/// copying, any other failure ends it.
pub fn after_rename(src: &FilePath, outcome: RenameOutcome, system: System) -> (step: MoveStep)
    ensures
        match outcome {
            RenameOutcome::Renamed => step is Finished,
            RenameOutcome::Refused { code, message } => if (system is Unix && code == Some(18i32))
                || (system is Windows && code == Some(17i32)) {
                step is CopyThenRemove
            } else {
                &&& step matches MoveStep::Fail(e)
                &&& e@ == (ErrorView::Io { path: src@, message: message@ })
            },
        },
{
    match outcome {
        RenameOutcome::Renamed => MoveStep::Finished,
        RenameOutcome::Refused { code, message } => {
            if is_cross_device(code, system) {
                MoveStep::CopyThenRemove
            } else {
                MoveStep::Fail(io_err(src, message))
            }
        },
    }
}

/// What is still to be copied of a tree: pairs of source and destination.
#[derive(Debug)]
pub struct TreeCopy {
    pub pending: Vec<(FilePath, FilePath)>,
}

/// The pairs that the entries of a folder add.
pub open spec fn entry_pairs(src: PathView, dst: PathView, names: Seq<Seq<char>>) -> Seq<
    (PathView, PathView),
> {
    names.map_values(|n: Seq<char>| (src.child(n), dst.child(n)))
}

pub open spec fn pairs(v: Seq<(FilePath, FilePath)>) -> Seq<(PathView, PathView)> {
    v.map_values(|p: (FilePath, FilePath)| (p.0@, p.1@))
}

impl TreeCopy {
    pub fn new(src: &FilePath, dst: &FilePath) -> (r: TreeCopy)
        ensures
            pairs(r.pending@) == seq![(src@, dst@)],
    {
        let mut pending: Vec<(FilePath, FilePath)> = Vec::new();
        pending.push((src.clone(), dst.clone()));
        proof {
            assert(pairs(pending@) =~= seq![(src@, dst@)]);
        }
        TreeCopy { pending }
    }

    /// The next pair to copy; `None` when all is copied.
    pub fn next(&mut self) -> (r: Option<(FilePath, FilePath)>)
        ensures
            pairs(old(self).pending@).len() == 0 ==> r is None && final(self).pending@ == old(self).pending@,
            pairs(old(self).pending@).len() > 0 ==> {
                &&& r matches Some((src, dst))
                &&& (src@, dst@) == pairs(old(self).pending@).last()
                &&& pairs(final(self).pending@) == pairs(old(self).pending@).drop_last()
            },
    {
        let ghost before = self.pending@;
        let r = self.pending.pop();
        proof {
            if before.len() > 0 {
                assert(pairs(self.pending@) =~= pairs(before).drop_last());
            }
        }
        r
    }

    /// Adds the entries of the folder `src`, which is copied to `dst`.
    pub fn entered(&mut self, src: &FilePath, dst: &FilePath, names: &Vec<String>)
        ensures
            pairs(final(self).pending@) == pairs(old(self).pending@) + entry_pairs(
                src@,
                dst@,
                text::views(names@),
            ),
    {
        let ghost start = pairs(self.pending@);
        let ghost added = entry_pairs(src@, dst@, text::views(names@));
        let mut i: usize = 0;
        while i < names.len()
            invariant
                i <= names@.len(),
                added == entry_pairs(src@, dst@, text::views(names@)),
                pairs(self.pending@) == start + added.take(i as int),
            decreases names@.len() - i,
        {
            let ghost before = self.pending@;
            let name = names[i].as_str();
            let pair = (src.child(name), dst.child(name));
            self.pending.push(pair);
            i = i + 1;
            proof {
                assert(pairs(self.pending@) =~= pairs(before).push((pair.0@, pair.1@)));
                assert(pairs(self.pending@) =~= start + added.take(i as int));
            }
        }
        proof {
            assert(added.take(i as int) =~= added);
        }
    }
}

/// How files are sorted into folders.
#[derive(Debug, Clone, Copy, PartialEq, Eq, Structural)]
pub enum OrganizeStrategy {
    /// `Images/photo.jpg`, `Documents/report.pdf`, ...
    ByExtension,
    /// `2026-09/photo.jpg`, by modification time.
    ByDate,
    /// `Images/2026-09/photo.jpg`
    ByExtensionAndDate,
}

/// What organizing a folder tells about its progress.
#[derive(Debug, PartialEq, Eq)]
pub enum OrganizeEvent {
    FileMoved { from: FilePath, to: FilePath },
    FileError { path: FilePath, message: String },
    Finished { moved: usize },
}

#[derive(Debug, Clone, Copy, PartialEq, Eq)]
pub struct OrganizeSummary {
    pub moved: usize,
}

impl Default for OrganizeSummary {
    fn default() -> (r: OrganizeSummary)
        ensures
            r.moved == 0,
    {
        OrganizeSummary { moved: 0 }
    }
}

/// The folder for a lower-case extension.
pub open spec fn category(ext: Seq<char>) -> Seq<char> {
    if seq![
        "jpg"@,
        "jpeg"@,
        "png"@,
        "gif"@,
        "heic"@,
        "webp"@,
        "bmp"@,
        "tiff"@,
        "raw"@,
    ].contains(ext) {
        "Images"@
    } else if seq!["mp4"@, "mov"@, "avi"@, "mkv"@, "webm"@, "m4v"@].contains(ext) {
        "Videos"@
    } else if seq!["mp3"@, "wav"@, "flac"@, "aac"@, "m4a"@, "ogg"@].contains(ext) {
        "Audio"@
    } else if seq!["pdf"@, "doc"@, "docx"@, "txt"@, "rtf"@, "odt"@, "pages"@].contains(ext) {
        "Documents"@
    } else if seq!["xls"@, "xlsx"@, "csv"@, "numbers"@].contains(ext) {
        "Spreadsheets"@
    } else if seq!["ppt"@, "pptx"@, "key"@].contains(ext) {
        "Presentations"@
    } else if seq!["zip"@, "rar"@, "7z"@, "tar"@, "gz"@, "dmg"@].contains(ext) {
        "Archives"@
    } else if seq!["exe"@, "msi"@, "app"@, "pkg"@, "apk"@].contains(ext) {
        "Installers"@
    } else {
        "Other"@
    }
}

/// The folder for an extension given in lower case.
pub fn category_of_lowercase(ext: &str) -> (r: &'static str)
    ensures
        r@ == category(ext@),
{
    let images: [&str; 9] = ["jpg", "jpeg", "png", "gif", "heic", "webp", "bmp", "tiff", "raw"];
    let videos: [&str; 6] = ["mp4", "mov", "avi", "mkv", "webm", "m4v"];
    let audio: [&str; 6] = ["mp3", "wav", "flac", "aac", "m4a", "ogg"];
    let documents: [&str; 7] = ["pdf", "doc", "docx", "txt", "rtf", "odt", "pages"];
    let sheets: [&str; 4] = ["xls", "xlsx", "csv", "numbers"];
    let slides: [&str; 3] = ["ppt", "pptx", "key"];
    let archives: [&str; 6] = ["zip", "rar", "7z", "tar", "gz", "dmg"];
    let installers: [&str; 5] = ["exe", "msi", "app", "pkg", "apk"];
    proof {
        assert(text::literals(images@) =~= seq![
            "jpg"@,
            "jpeg"@,
            "png"@,
            "gif"@,
            "heic"@,
            "webp"@,
            "bmp"@,
            "tiff"@,
            "raw"@,
        ]);
        assert(text::literals(videos@) =~= seq![
            "mp4"@,
            "mov"@,
            "avi"@,
            "mkv"@,
            "webm"@,
            "m4v"@,
        ]);
        assert(text::literals(audio@) =~= seq![
            "mp3"@,
            "wav"@,
            "flac"@,
            "aac"@,
            "m4a"@,
            "ogg"@,
        ]);
        assert(text::literals(documents@) =~= seq![
            "pdf"@,
            "doc"@,
            "docx"@,
            "txt"@,
            "rtf"@,
            "odt"@,
            "pages"@,
        ]);
        assert(text::literals(sheets@) =~= seq!["xls"@, "xlsx"@, "csv"@, "numbers"@]);
        assert(text::literals(slides@) =~= seq!["ppt"@, "pptx"@, "key"@]);
        assert(text::literals(archives@) =~= seq!["zip"@, "rar"@, "7z"@, "tar"@, "gz"@, "dmg"@]);
        assert(text::literals(installers@) =~= seq!["exe"@, "msi"@, "app"@, "pkg"@, "apk"@]);
    }
    if text::one_of(ext, &images) {
        "Images"
    } else if text::one_of(ext, &videos) {
        "Videos"
    } else if text::one_of(ext, &audio) {
        "Audio"
    } else if text::one_of(ext, &documents) {
        "Documents"
    } else if text::one_of(ext, &sheets) {
        "Spreadsheets"
    } else if text::one_of(ext, &slides) {
        "Presentations"
    } else if text::one_of(ext, &archives) {
        "Archives"
    } else if text::one_of(ext, &installers) {
        "Installers"
    } else {
        "Other"
    }
}

/// The folder for an extension, in whatever case it is written.
pub fn category_for_extension(ext: &str) -> (r: &'static str)
    ensures
        r@ == category(text::lowercase(ext@)),
{
    category_of_lowercase(text::to_lower(ext).as_str())
}

/// The folder name for a file by its modification time, in seconds.
pub fn date_folder_name(mtime: EngineResult<i64>) -> (r: EngineResult<String>)
    ensures
        match mtime {
            Err(e) => r is Err && r->Err_0 == e,
            Ok(secs) => if calendar::datable(secs) {
                r is Ok && r->Ok_0@ == calendar::folder_text(secs)
            } else {
                r is Err && r->Err_0@ == ErrorView::Other("invalid mtime"@)
            },
        },
{
    match mtime {
        Err(e) => Err(e),
        Ok(secs) => match calendar::folder_of_timestamp(secs) {
            Some(name) => Ok(name),
            None => Err(EngineError::Other("invalid mtime".to_owned())),
        },
    }
}

/// What happens to one file when its folder is organized.
#[derive(Debug, PartialEq, Eq)]
pub enum Placement {
    /// It is where it belongs, or has no name.
    Stay,
    Move(FilePath),
    /// Its date cannot be told; organizing ends with this error.
    Fail(EngineError),
}

/// The extension of a path in lower case; empty when it has none.
pub open spec fn lower_extension(p: PathView) -> Seq<char> {
    text::lowercase(
        match p.file_name() {
            Some(name) => match paths::extension(name) {
                Some(e) => e,
                None => Seq::empty(),
            },
            None => Seq::empty(),
        },
    )
}

/// The folder below the organized one for a file with the given date folder.
pub open spec fn subfolder(strategy: OrganizeStrategy, p: PathView, date: Seq<char>) -> Seq<char> {
    match strategy {
        OrganizeStrategy::ByExtension => category(lower_extension(p)),
        OrganizeStrategy::ByDate => date,
        OrganizeStrategy::ByExtensionAndDate => category(lower_extension(p)) + "/"@ + date,
    }
}

/// Where a file with the given date folder belongs; `None` when it stays.
pub open spec fn place(
    dir: PathView,
    strategy: OrganizeStrategy,
    p: PathView,
    date: Seq<char>,
) -> Option<PathView> {
    match p.file_name() {
        None => None,
        Some(name) => {
            let to = dir.joined(paths::parsed(subfolder(strategy, p, date))).child(name);
            if to == p {
                None
            } else {
                Some(to)
            }
        },
    }
}

/// Whether a strategy looks at modification times.
pub open spec fn dated(strategy: OrganizeStrategy) -> bool {
    !(strategy is ByExtension)
}

/// Whether the modification time of each file is needed.
pub fn needs_date(strategy: OrganizeStrategy) -> (r: bool)
    ensures
        r == dated(strategy),
{
    match strategy {
        OrganizeStrategy::ByExtension => false,
        _ => true,
    }
}

/// Decides what happens to one file of the folder `dir`. Its modification
/// time, in seconds, is looked at only where the strategy needs it.
pub fn place_file(
    dir: &FilePath,
    strategy: OrganizeStrategy,
    path: &FilePath,
    mtime: EngineResult<i64>,
) -> (r: Placement)
    ensures
        dated(strategy) && mtime is Err ==> r == Placement::Fail(mtime->Err_0),
        dated(strategy) && mtime is Ok && !calendar::datable(mtime->Ok_0) ==> {
            &&& r matches Placement::Fail(e)
            &&& e@ == ErrorView::Other("invalid mtime"@)
        },
        dated(strategy) && mtime is Ok && calendar::datable(mtime->Ok_0) ==> {
            match place(dir@, strategy, path@, calendar::folder_text(mtime->Ok_0)) {
                None => r is Stay,
                Some(to) => r matches Placement::Move(dest) && dest@ == to,
            }
        },
        !dated(strategy) ==> match place(dir@, strategy, path@, Seq::empty()) {
            None => r is Stay,
            Some(to) => r matches Placement::Move(dest) && dest@ == to,
        },
{
    let date = if needs_date(strategy) {
        match date_folder_name(mtime) {
            Ok(name) => name,
            Err(e) => return Placement::Fail(e),
        }
    } else {
        String::new()
    };
    proof {
        if !dated(strategy) {
            assert(date@ =~= Seq::<char>::empty());
        }
    }
    let name = path.file_name();
    let ext = match &name {
        Some(n) => match paths::file_extension(n.as_str()) {
            Some(e) => e,
            None => String::new(),
        },
        None => String::new(),
    };
    proof {
        if path@.file_name() is None || paths::extension(path@.file_name()->0) is None {
            assert(ext@ =~= Seq::<char>::empty());
        }
        assert(text::lowercase(ext@) == lower_extension(path@));
    }
    let folder = match strategy {
        OrganizeStrategy::ByExtension => category_for_extension(ext.as_str()).to_owned(),
        OrganizeStrategy::ByDate => date.clone(),
        OrganizeStrategy::ByExtensionAndDate => {
            let mut f = category_for_extension(ext.as_str()).to_owned();
            f.append("/");
            f.append(date.as_str());
            f
        },
    };
    match name {
        None => Placement::Stay,
        Some(n) => {
            let to = dir.join_text(folder.as_str()).child(n.as_str());
            if to.same(path) {
                Placement::Stay
            } else {
                Placement::Move(to)
            }
        },
    }
}

/// What organizing a folder does next.
#[derive(Debug, PartialEq, Eq)]
pub enum OrganizeStep {
    /// All files are handled.
    Done,
    /// Stop with this error.
    Stop(EngineError),
    /// The file stays where it is.
    Skip,
    Move { from: FilePath, to: FilePath },
}

/// The state of organizing the files that lie directly in a folder.
#[derive(Debug)]
pub struct OrganizeRun {
    pub dir: FilePath,
    pub strategy: OrganizeStrategy,
    pub entries: Vec<FilePath>,
    pub index: usize,
    pub moved: usize,
}

impl OrganizeRun {
    pub open spec fn wf(self) -> bool {
        self.moved <= self.index <= self.entries@.len()
    }

    pub fn new(dir: FilePath, strategy: OrganizeStrategy, entries: Vec<FilePath>) -> (r: OrganizeRun)
        ensures
            r == (OrganizeRun { dir, strategy, entries, index: 0, moved: 0 }),
            r.wf(),
    {
        OrganizeRun { dir, strategy, entries, index: 0, moved: 0 }
    }

    /// The file that `next` decides on.
    pub fn current(&self) -> (r: Option<FilePath>)
        ensures
            r is Some == (self.index < self.entries@.len()),
            r is Some ==> r->0@ == self.entries@[self.index as int]@,
    {
        if self.index < self.entries.len() {
            Some(self.entries[self.index].clone())
        } else {
            None
        }
    }

    /// What to do with the current file, given whether a stop was asked for
    /// and the file's modification time.
    pub fn next(&mut self, cancelled: bool, mtime: EngineResult<i64>) -> (step: OrganizeStep)
        requires
            old(self).wf(),
        ensures
            final(self).wf(),
            old(self).index == old(self).entries@.len() ==> step is Done && *final(self) == *old(self),
            old(self).index < old(self).entries@.len() ==> {
                let path = old(self).entries@[old(self).index as int]@;
                let dir = old(self).dir@;
                let strategy = old(self).strategy;
                &&& *final(self) == (OrganizeRun {
                    index: (old(self).index + 1) as usize,
                    ..*old(self)
                })
                &&& if cancelled {
                    step == OrganizeStep::Stop(EngineError::Cancelled)
                } else if dated(strategy) && mtime is Err {
                    step == OrganizeStep::Stop(mtime->Err_0)
                } else if dated(strategy) && !calendar::datable(mtime->Ok_0) {
                    &&& step matches OrganizeStep::Stop(e)
                    &&& e@ == ErrorView::Other("invalid mtime"@)
                } else {
                    let date = if dated(strategy) {
                        calendar::folder_text(mtime->Ok_0)
                    } else {
                        Seq::empty()
                    };
                    match place(dir, strategy, path, date) {
                        None => step is Skip,
                        Some(dest) => {
                            &&& step matches OrganizeStep::Move { from, to }
                            &&& from@ == path
                            &&& to@ == dest
                        },
                    }
                }
            },
    {
        let count: usize = self.entries.len();
        if self.index == count {
            return OrganizeStep::Done;
        }
        let path = self.entries[self.index].clone();
        self.index = self.index + 1;
        if cancelled {
            return OrganizeStep::Stop(EngineError::Cancelled);
        }
        match place_file(&self.dir, self.strategy, &path, mtime) {
            Placement::Stay => OrganizeStep::Skip,
            Placement::Move(to) => OrganizeStep::Move { from: path, to },
            Placement::Fail(e) => OrganizeStep::Stop(e),
        }
    }

    /// Takes note of how a move ended; a failed move does not end the run.
    pub fn moved(&mut self, from: FilePath, to: FilePath, result: EngineResult<()>) -> (event:
        OrganizeEvent)
        requires
            old(self).moved < old(self).index <= old(self).entries@.len(),
        ensures
            final(self).wf(),
            match result {
                Ok(_) => {
                    &&& event == (OrganizeEvent::FileMoved { from, to })
                    &&& *final(self) == (OrganizeRun {
                        moved: (old(self).moved + 1) as usize,
                        ..*old(self)
                    })
                },
                Err(e) => {
                    &&& *final(self) == *old(self)
                    &&& event matches OrganizeEvent::FileError { path, message }
                    &&& path == from
                    &&& message@ == e@.sentence()
                },
            },
    {
        match result {
            Ok(_) => {
                self.moved = self.moved + 1;
                OrganizeEvent::FileMoved { from, to }
            },
            Err(e) => OrganizeEvent::FileError { path: from, message: e.message() },
        }
    }

    /// The event and the summary that end a complete run.
    pub fn finished(&self) -> (r: (OrganizeEvent, OrganizeSummary))
        ensures
            r.0 == (OrganizeEvent::Finished { moved: self.moved }),
            r.1.moved == self.moved,
    {
        (OrganizeEvent::Finished { moved: self.moved }, OrganizeSummary { moved: self.moved })
    }
}

/// Whether a text is a folder name of one component.
spec fn is_plain(s: Seq<char>) -> bool {
    s.len() > 1 && !s.contains('/')
}

proof fn lemma_category_is_plain(ext: Seq<char>)
    ensures
        is_plain(category(ext)),
{
    reveal_strlit("Images");
    reveal_strlit("Videos");
    reveal_strlit("Audio");
    reveal_strlit("Documents");
    reveal_strlit("Spreadsheets");
    reveal_strlit("Presentations");
    reveal_strlit("Archives");
    reveal_strlit("Installers");
    reveal_strlit("Other");
}

/// The folder for a month has at least two characters, none of them a slash.
proof fn lemma_month_is_plain(secs: i64)
    ensures
        is_plain(calendar::folder_text(secs)),
{
    reveal_strlit("-");
    let date = calendar::date_of(secs);
    let year = calendar::year_text(date.0);
    let month = text::dec_padded(date.1 as nat, 2);
    text::law_decimal_reads_back(date.0 as nat);
    text::law_decimal_reads_back((-date.0) as nat);
    text::law_decimal_reads_back(date.1 as nat);
    let all = calendar::folder_text(secs);
    assert(all == year + "-"@ + month);
    assert forall|i: int| 0 <= i < all.len() implies #[trigger] all[i] != '/' by {
        if i < year.len() {
            assert(all[i] == year[i]);
        } else if i > year.len() {
            assert(all[i] == month[i - year.len() - 1]);
        }
    }
}

proof fn lemma_plain_components(ps: Seq<Seq<char>>, n: int)
    requires
        0 <= n <= ps.len(),
        forall|i: int| 0 <= i < ps.len() ==> is_plain(#[trigger] ps[i]),
    ensures
        paths::components(ps, true, n) == ps.take(n),
    decreases n,
{
    if n > 0 {
        lemma_plain_components(ps, n - 1);
        assert(ps[n - 1] != seq!['.']);
        assert(ps.take(n) =~= ps.take(n - 1).push(ps[n - 1]));
    } else {
        assert(ps.take(0) =~= Seq::<Seq<char>>::empty());
    }
}

proof fn lemma_plain_path(ps: Seq<Seq<char>>)
    requires
        ps.len() > 0,
        forall|i: int| 0 <= i < ps.len() ==> is_plain(#[trigger] ps[i]),
    ensures
        paths::parsed(text::joined(ps, '/')) == (PathView { root: Seq::empty(), parts: ps }),
{
    text::law_split_undoes_join(ps, '/');
    lemma_plain_components(ps, ps.len() as int);
    assert(ps.take(ps.len() as int) =~= ps);
    lemma_joined_starts(ps);
}

proof fn lemma_joined_starts(ps: Seq<Seq<char>>)
    requires
        ps.len() > 0,
        is_plain(ps[0]),
    ensures
        text::joined(ps, '/').len() > 0,
        text::joined(ps, '/')[0] == ps[0][0],
        ps[0][0] != '/',
    decreases ps.len(),
{
    if ps.len() > 1 {
        lemma_joined_starts(ps.drop_last());
    }
}

/// Organizing moves a file to the folder of its type, of its month, or of its
/// month inside that of its type, directly below the organized folder; there
/// it keeps its name.
pub proof fn law_organized_place(
    dir: PathView,
    strategy: OrganizeStrategy,
    p: PathView,
    name: Seq<char>,
    secs: i64,
)
    requires
        p.file_name() == Some(name),
    ensures
        ({
            let kind = category(lower_extension(p));
            let month = calendar::folder_text(secs);
            let to = match strategy {
                OrganizeStrategy::ByExtension => dir.child(kind).child(name),
                OrganizeStrategy::ByDate => dir.child(month).child(name),
                OrganizeStrategy::ByExtensionAndDate => dir.child(kind).child(month).child(name),
            };
            &&& to != p ==> place(dir, strategy, p, month) == Some(to)
            &&& to == p ==> place(dir, strategy, p, month) is None
            &&& to.under(dir)
        }),
{
    let kind = category(lower_extension(p));
    let month = calendar::folder_text(secs);
    lemma_category_is_plain(lower_extension(p));
    lemma_month_is_plain(secs);
    let folders = match strategy {
        OrganizeStrategy::ByExtension => seq![kind],
        OrganizeStrategy::ByDate => seq![month],
        OrganizeStrategy::ByExtensionAndDate => seq![kind, month],
    };
    lemma_plain_path(folders);
    reveal_strlit("/");
    reveal_with_fuel(text::joined, 2);
    if strategy is ByExtensionAndDate {
        assert(folders.drop_last() =~= seq![kind]);
        assert(kind.push('/') + month =~= kind + "/"@ + month);
    }
    assert(text::joined(folders, '/') == subfolder(strategy, p, month));
    let to = PathView { root: dir.root, parts: dir.parts + folders }.child(name);
    assert(to.parts.take(dir.parts.len() as int) =~= dir.parts);
    if strategy is ByExtensionAndDate {
        assert(dir.child(kind).child(month).child(name) =~= to);
    } else {
        assert(dir.child(folders[0]).child(name) =~= to);
    }
}

proof fn lemma_stands_shift(s: Seq<char>, pattern: Seq<char>, by: int, at: int)
    requires
        0 <= by,
        0 <= at,
        by + at <= s.len(),
    ensures
        text::stands_at(s, pattern, by + at) == text::stands_at(s.skip(by), pattern, at),
{
    let n = pattern.len();
    if at + n <= s.skip(by).len() {
        assert(s.subrange(by + at, by + at + n) =~= s.skip(by).subrange(at, at + n));
    }
}

proof fn lemma_expanded_shift(
    s: Seq<char>,
    stem: Seq<char>,
    ext: Seq<char>,
    index: nat,
    by: int,
    at: int,
    inside: bool,
)
    requires
        0 <= by,
        0 <= at,
        by + at <= s.len(),
    ensures
        expanded(s, stem, ext, index, by + at, inside) == expanded(
            s.skip(by),
            stem,
            ext,
            index,
            at,
            inside,
        ),
    decreases s.len() - at,
{
    let t = s.skip(by);
    if by + at < s.len() {
        lemma_stands_shift(s, name_token(), by, at);
        lemma_stands_shift(s, ext_token(), by, at);
        text::lemma_find_shift(s, '}', by, at);
        text::lemma_find_bounds(t, '}', at);
        let close = text::find_from(t, '}', at);
        assert(s[by + at] == t[at]);
        if at + 1 < close < t.len() {
            assert(s.subrange(by + at + 1, by + close) =~= t.subrange(at + 1, close));
        }
        if text::stands_at(t, name_token(), at) {
            lemma_expanded_shift(s, stem, ext, index, by, at + 6, inside);
        } else if text::stands_at(t, ext_token(), at) {
            lemma_expanded_shift(s, stem, ext, index, by, at + 5, inside);
        } else if !inside && counter_at(t, at) {
            lemma_expanded_shift(s, stem, ext, index, by, close + 1, false);
        } else {
            lemma_expanded_shift(
                s,
                stem,
                ext,
                index,
                by,
                at + 1,
                t[at] == '{' || (inside && t[at] != '}'),
            );
        }
    }
}

proof fn lemma_expanded_plain(
    s: Seq<char>,
    stem: Seq<char>,
    ext: Seq<char>,
    index: nat,
    n: int,
    inside: bool,
)
    requires
        0 <= n <= s.len(),
        forall|i: int| 0 <= i < n ==> #[trigger] s[i] != '{',
        inside ==> forall|i: int| 0 <= i < n ==> #[trigger] s[i] != '}',
    ensures
        expanded(s, stem, ext, index, 0, inside) == s.take(n) + expanded(
            s.skip(n),
            stem,
            ext,
            index,
            0,
            inside,
        ),
    decreases n,
{
    if n > 0 {
        assert(s[0] != '{');
        if text::stands_at(s, name_token(), 0) {
            assert(s.subrange(0, 6)[0] == s[0]);
        }
        if text::stands_at(s, ext_token(), 0) {
            assert(s.subrange(0, 5)[0] == s[0]);
        }
        lemma_expanded_shift(s, stem, ext, index, 1, 0, inside);
        let t = s.skip(1);
        assert forall|i: int| 0 <= i < n - 1 implies #[trigger] t[i] != '{' by {
            assert(s[i + 1] != '{');
        }
        if inside {
            assert(s[0] != '}');
            assert forall|i: int| 0 <= i < n - 1 implies #[trigger] t[i] != '}' by {
                assert(s[i + 1] != '}');
            }
        }
        lemma_expanded_plain(t, stem, ext, index, n - 1, inside);
        assert(t.skip(n - 1) =~= s.skip(n));
        assert(seq![s[0]] + t.take(n - 1) =~= s.take(n));
        assert(expanded(s, stem, ext, index, 0, inside) =~= s.take(n) + expanded(
            s.skip(n),
            stem,
            ext,
            index,
            0,
            inside,
        ));
    } else {
        assert(s.skip(0) =~= s);
        assert(s.take(0) + expanded(s, stem, ext, index, 0, inside) =~= expanded(
            s,
            stem,
            ext,
            index,
            0,
            inside,
        ));
    }
}

proof fn lemma_close(s: Seq<char>, at: int, close: int)
    requires
        0 <= at <= close < s.len(),
        s[close] == '}',
        forall|i: int| at <= i < close ==> #[trigger] s[i] != '}',
    ensures
        text::find_from(s, '}', at) == close,
    decreases close - at,
{
    if at < close {
        assert(s[at] != '}');
        lemma_close(s, at + 1, close);
    }
}

/// A pattern is filled in from left to right: `{name}` and `{ext}` stand for
/// the stem and the extension as they are, and text without a brace stays.
pub proof fn law_tokens_are_filled_in(
    pattern: &str,
    rest: &str,
    stem: &str,
    ext: &str,
    index: usize,
    head: Seq<char>,
    whole: String,
    tail: String,
)
    requires
        call_ensures(apply_rename_pattern, (pattern, stem, ext, index), whole),
        call_ensures(apply_rename_pattern, (rest, stem, ext, index), tail),
        pattern@ == head + rest@,
    ensures
        head == seq!['{', 'n', 'a', 'm', 'e', '}'] ==> whole@ == stem@ + tail@,
        head == seq!['{', 'e', 'x', 't', '}'] ==> whole@ == ext@ + tail@,
        !head.contains('{') ==> whole@ == head + tail@,
        rest@.len() == 0 ==> tail@.len() == 0,
{
    let s = pattern@;
    let n = head.len() as int;
    assert(s.skip(n) =~= rest@);
    lemma_expanded_shift(s, stem@, ext@, index as nat, n, 0, false);
    if head == name_token() {
        assert(s.subrange(0, 6) =~= name_token());
    }
    if head == ext_token() {
        assert(s.subrange(0, 5) =~= ext_token());
        if text::stands_at(s, name_token(), 0) {
            assert(s.subrange(0, 6)[1] == s.subrange(0, 5)[1]);
        }
    }
    if !head.contains('{') {
        assert forall|i: int| 0 <= i < n implies #[trigger] s[i] != '{' by {
            assert(head[i] == s[i]);
            assert(head.contains(head[i]));
        }
        lemma_expanded_plain(s, stem@, ext@, index as nat, n, false);
        assert(s.take(n) =~= head);
    }
}

/// A counter stands for the number of the item, with at least as many digits
/// as there are `n`s and with zeros in front only to get there.
pub proof fn law_counters_are_filled_in(
    pattern: &str,
    rest: &str,
    stem: &str,
    ext: &str,
    index: usize,
    width: nat,
    whole: String,
    tail: String,
)
    requires
        call_ensures(apply_rename_pattern, (pattern, stem, ext, index), whole),
        call_ensures(apply_rename_pattern, (rest, stem, ext, index), tail),
        width > 0,
        pattern@ == seq!['{'] + Seq::new(width, |i: int| 'n') + seq!['}'] + rest@,
    ensures
        exists|digits: Seq<char>|
            whole@ == #[trigger] (digits + tail@) && text::all_digits(digits) && text::dec_value(
                digits,
            ) == index && digits.len() >= width && (digits.len() > width && index > 0
                ==> digits[0] != '0'),
{
    let s = pattern@;
    let n = width + 2;
    let close = (width + 1) as int;
    assert(s.skip(n as int) =~= rest@);
    assert(s[0] == '{');
    assert(s[1] == 'n');
    assert(s[close] == '}');
    assert forall|i: int| 0 <= i < close implies #[trigger] s[i] != '}' by {
        if i > 0 {
            assert(s[i] == 'n');
        }
    }
    lemma_close(s, 0, close);
    assert(text::all_are(s.subrange(1, close), 'n')) by {
        assert forall|i: int| 0 <= i < s.subrange(1, close).len() implies #[trigger] s.subrange(
            1,
            close,
        )[i] == 'n' by {
            assert(s[i + 1] == 'n');
        }
    }
    if text::stands_at(s, name_token(), 0) {
        assert(s.subrange(0, 6)[2] == 'a');
        assert(s[2] == 'a');
    }
    if text::stands_at(s, ext_token(), 0) {
        assert(s.subrange(0, 5)[1] == 'e');
    }
    assert(counter_at(s, 0));
    lemma_expanded_shift(s, stem@, ext@, index as nat, n as int, 0, false);
    let digits = text::dec_padded(index as nat, width);
    text::law_padded_number(index as nat, width);
    assert(whole@ == digits + tail@);
}

/// Any other token in braces stays as it is.
pub proof fn law_unknown_tokens_stay(
    pattern: &str,
    rest: &str,
    stem: &str,
    ext: &str,
    index: usize,
    word: Seq<char>,
    whole: String,
    tail: String,
)
    requires
        call_ensures(apply_rename_pattern, (pattern, stem, ext, index), whole),
        call_ensures(apply_rename_pattern, (rest, stem, ext, index), tail),
        pattern@ == seq!['{'] + word + seq!['}'] + rest@,
        !word.contains('{'),
        !word.contains('}'),
        word != seq!['n', 'a', 'm', 'e'],
        word != seq!['e', 'x', 't'],
        word.len() == 0 || exists|i: int| 0 <= i < word.len() && #[trigger] word[i] != 'n',
    ensures
        whole@ == seq!['{'] + word + seq!['}'] + tail@,
{
    let s = pattern@;
    let close = (word.len() + 1) as int;
    let n = close + 1;
    let (st, ex, ix) = (stem@, ext@, index as nat);
    assert(s[0] == '{' && s[close] == '}');
    assert forall|i: int| 0 <= i < word.len() implies #[trigger] s[i + 1] == word[i] && s[i + 1]
        != '{' && s[i + 1] != '}' by {
        assert(word.contains(word[i]));
    }
    assert forall|i: int| 0 <= i < close implies #[trigger] s[i] != '}' by {
        if i > 0 {
            assert(s[(i - 1) + 1] == word[i - 1]);
        }
    }
    lemma_close(s, 0, close);
    if text::stands_at(s, name_token(), 0) {
        assert(s.subrange(0, 6)[5] == '}');
        assert(s[5] == '}');
        assert(close == 5);
        assert(word =~= seq!['n', 'a', 'm', 'e']) by {
            assert(s.subrange(0, 6)[1] == 'n' && s.subrange(0, 6)[2] == 'a');
            assert(s.subrange(0, 6)[3] == 'm' && s.subrange(0, 6)[4] == 'e');
            assert(s[0int + 1] == word[0] && s[1int + 1] == word[1] && s[2int + 1] == word[2] && s[3int + 1]
                == word[3]);
        }
    }
    if text::stands_at(s, ext_token(), 0) {
        assert(s.subrange(0, 5)[4] == '}');
        assert(s[4] == '}');
        assert(close == 4);
        assert(word =~= seq!['e', 'x', 't']) by {
            assert(s.subrange(0, 5)[1] == 'e' && s.subrange(0, 5)[2] == 'x');
            assert(s.subrange(0, 5)[3] == 't');
            assert(s[0int + 1] == word[0] && s[1int + 1] == word[1] && s[2int + 1] == word[2]);
        }
    }
    if counter_at(s, 0) {
        let i = choose|i: int| 0 <= i < word.len() && #[trigger] word[i] != 'n';
        assert(s.subrange(1, close)[i] == s[i + 1]);
    }
    lemma_expanded_shift(s, st, ex, ix, 1, 0, true);
    let t = s.skip(1);
    assert forall|i: int| 0 <= i < word.len() implies #[trigger] t[i] != '{' && t[i] != '}' by {
        assert(s[i + 1] == word[i]);
    }
    lemma_expanded_plain(t, st, ex, ix, word.len() as int, true);
    assert(t.take(word.len() as int) =~= word);
    let u = t.skip(word.len() as int);
    assert(u[0] == '}');
    if text::stands_at(u, name_token(), 0) {
        assert(u.subrange(0, 6)[0] == '{');
    }
    if text::stands_at(u, ext_token(), 0) {
        assert(u.subrange(0, 5)[0] == '{');
    }
    lemma_expanded_shift(u, st, ex, ix, 1, 0, false);
    assert(u.skip(1) =~= rest@);
    assert(whole@ =~= seq!['{'] + word + seq!['}'] + tail@);
}

/// A file that gets a new name stays in its folder.
pub proof fn law_renamed_in_its_folder(
    path: &FilePath,
    new_name: &str,
    r: EngineResult<FilePath>,
)
    requires
        call_ensures(rename_target, (path, new_name), r),
        new_name@.len() > 0,
        new_name@ != seq!['.'],
        !new_name@.contains('/'),
    ensures
        r is Ok == (path@.parts.len() > 0),
        r is Ok ==> r->Ok_0@.root == path@.root && r->Ok_0@.parts == path@.parts.drop_last().push(
            new_name@,
        ),
{
    paths::lemma_one_component(new_name@);
    if r is Ok {
        assert(path@.parts.drop_last() + seq![new_name@] =~= path@.parts.drop_last().push(
            new_name@,
        ));
    }
}

/// The items of a batch are numbered from 1 in the order given, and each gets
/// the name that the pattern makes of its own stem and extension, in its own
/// folder.
pub proof fn law_batch_numbers_from_one(
    path: &FilePath,
    pattern: &str,
    i: usize,
    name: &str,
    stem: String,
    ext: Option<String>,
    stem_text: &str,
    ext_text: &str,
    filled: String,
    made: String,
    target: EngineResult<FilePath>,
)
    requires
        i < usize::MAX,
        path@.file_name() == Some(name@),
        call_ensures(paths::file_stem, (name,), stem),
        call_ensures(paths::file_extension, (name,), ext),
        stem_text@ == stem@,
        ext_text@ == (match ext {
            Some(e) => e@,
            None => Seq::empty(),
        }),
        call_ensures(apply_rename_pattern, (pattern, stem_text, ext_text, (i + 1) as usize), filled),
        call_ensures(new_name, (path, pattern, i), made),
        call_ensures(batch_target, (path, pattern, i), target),
    ensures
        made@ == filled@,
        target is Ok,
        filled@.len() > 0 && filled@ != seq!['.'] && !filled@.contains('/')
            ==> target->Ok_0@.root == path@.root && target->Ok_0@.parts
            == path@.parts.drop_last().push(filled@),
{
    if filled@.len() > 0 && filled@ != seq!['.'] && !filled@.contains('/') {
        paths::lemma_one_component(filled@);
        assert(path@.parts.drop_last() + seq![filled@] =~= path@.parts.drop_last().push(filled@));
    }
}

/// A batch renames each item itself, and nothing after a failure.
pub proof fn law_batch_renames_what_was_given(run: &mut BatchRun, step: BatchStep)
    requires
        call_ensures(BatchRun::next, (run,), step),
        run.wf(),
    ensures
        step matches BatchStep::Rename { from, to } ==> {
            &&& old(run).failure is None
            &&& old(run).renamed@.len() < old(run).paths@.len()
            &&& from@ == old(run).paths@[old(run).renamed@.len() as int]@
        },
        step is Done ==> old(run).failure is None && old(run).renamed@.len()
            == old(run).paths@.len(),
        old(run).failure is Some ==> step is Stopped,
        final(run).renamed == old(run).renamed,
        final(run).paths == old(run).paths,
{
}

/// A move falls back to copying exactly when the system says that the two
/// places are on different volumes; any other refusal ends it.
pub proof fn law_only_other_volumes_are_copied_to(
    src: &FilePath,
    code: Option<i32>,
    message: String,
    system: System,
    crossing: bool,
    step: MoveStep,
    done: MoveStep,
)
    requires
        call_ensures(is_cross_device, (code, system), crossing),
        call_ensures(
            after_rename,
            (src, RenameOutcome::Refused { code, message }, system),
            step,
        ),
        call_ensures(after_rename, (src, RenameOutcome::Renamed, system), done),
    ensures
        done is Finished,
        step is CopyThenRemove == crossing,
        step is Fail == !crossing,
        crossing ==> code is Some,
        system is Other ==> !crossing,
{
}

/// What is copied of a folder keeps its name and its place in the tree.
pub proof fn law_tree_copy_keeps_names(
    copy: &mut TreeCopy,
    src: &FilePath,
    dst: &FilePath,
    names: &Vec<String>,
    u: (),
)
    requires
        call_ensures(TreeCopy::entered, (copy, src, dst, names), u),
    ensures
        final(copy).pending@.len() == old(copy).pending@.len() + names@.len(),
        forall|k: int|
            0 <= k < names@.len() ==> {
                let (from, to) = #[trigger] final(copy).pending@[old(copy).pending@.len() + k];
                &&& from@.root == src@.root
                &&& from@.parts == src@.parts.push(names@[k]@)
                &&& to@.root == dst@.root
                &&& to@.parts == dst@.parts.push(names@[k]@)
            },
{
    let before = pairs(copy.pending@);
    let more = entry_pairs(src@, dst@, text::views(names@));
    let after = pairs(final(copy).pending@);
    assert(after == before + more);
    assert(after.len() == final(copy).pending@.len());
    assert forall|k: int| 0 <= k < names@.len() implies {
        let (from, to) = #[trigger] final(copy).pending@[copy.pending@.len() + k];
        &&& from@.root == src@.root
        &&& from@.parts == src@.parts.push(names@[k]@)
        &&& to@.root == dst@.root
        &&& to@.parts == dst@.parts.push(names@[k]@)
    } by {
        assert(after[before.len() + k] == more[k]);
        assert(text::views(names@)[k] == names@[k]@);
    }
}

/// An organized file keeps its name and goes to a folder of the organized one:
/// that of its type, that of its month, or that of its month in that of its
/// type; one that is there already stays.
pub proof fn law_organized_files_keep_their_names(
    dir: &FilePath,
    strategy: OrganizeStrategy,
    path: &FilePath,
    secs: i64,
    name: &str,
    ext: Option<String>,
    ext_text: &str,
    kind: &'static str,
    month: EngineResult<String>,
    r: Placement,
)
    requires
        path@.file_name() == Some(name@),
        call_ensures(paths::file_extension, (name,), ext),
        ext_text@ == (match ext {
            Some(e) => e@,
            None => Seq::empty(),
        }),
        call_ensures(category_for_extension, (ext_text,), kind),
        call_ensures(date_folder_name, (Ok::<i64, EngineError>(secs),), month),
        month is Ok,
        call_ensures(place_file, (dir, strategy, path, Ok::<i64, EngineError>(secs)), r),
    ensures
        ({
            let folders = match strategy {
                OrganizeStrategy::ByExtension => seq![kind@],
                OrganizeStrategy::ByDate => seq![month->Ok_0@],
                OrganizeStrategy::ByExtensionAndDate => seq![kind@, month->Ok_0@],
            };
            let there = dir@.parts + folders + seq![name@];
            let stays = path@.root == dir@.root && path@.parts == there;
            &&& r is Stay == stays
            &&& r is Move == !stays
            &&& r is Move ==> r->Move_0@.root == dir@.root && r->Move_0@.parts == there
        }),
{
    law_organized_place(dir@, strategy, path@, name@, secs);
    let k = category(lower_extension(path@));
    let m = calendar::folder_text(secs);
    assert(kind@ == k);
    let folders = match strategy {
        OrganizeStrategy::ByExtension => seq![kind@],
        OrganizeStrategy::ByDate => seq![month->Ok_0@],
        OrganizeStrategy::ByExtensionAndDate => seq![kind@, month->Ok_0@],
    };
    let there = dir@.parts + folders + seq![name@];
    let to = match strategy {
        OrganizeStrategy::ByExtension => dir@.child(k).child(name@),
        OrganizeStrategy::ByDate => dir@.child(m).child(name@),
        OrganizeStrategy::ByExtensionAndDate => dir@.child(k).child(m).child(name@),
    };
    assert(to.parts =~= there);
    if strategy is ByExtension {
        assert(place(dir@, strategy, path@, m) == place(dir@, strategy, path@, Seq::empty()));
    }
}

/// Organizing goes through the files one after the other and does with each
/// what was decided for it.
pub proof fn law_organizing_follows_the_decision(
    run: &mut OrganizeRun,
    mtime: EngineResult<i64>,
    path: &FilePath,
    dir: &FilePath,
    decided: Placement,
    step: OrganizeStep,
)
    requires
        call_ensures(OrganizeRun::next, (run, false, mtime), step),
        run.wf(),
        run.index < run.entries@.len(),
        path@ == run.entries@[run.index as int]@,
        dir@ == run.dir@,
        call_ensures(place_file, (dir, run.strategy, path, mtime), decided),
    ensures
        final(run).index == old(run).index + 1,
        final(run).entries == old(run).entries,
        step is Skip == decided is Stay,
        step is Move == decided is Move,
        step is Stop == decided is Fail,
        step is Move ==> step->from@ == path@ && step->to@ == decided->Move_0@,
{
    assert(run.entries.len() <= usize::MAX);
}

proof fn lemma_images(ext: Seq<char>)
    ensures
        seq!["jpg"@, "jpeg"@, "png"@, "gif"@, "heic"@, "webp"@, "bmp"@, "tiff"@, "raw"@].contains(ext)
            <==> ext == "jpg"@ || ext == "jpeg"@ || ext == "png"@ || ext == "gif"@
            || ext == "heic"@ || ext == "webp"@ || ext == "bmp"@ || ext == "tiff"@
            || ext == "raw"@,
{
    let list = seq!["jpg"@, "jpeg"@, "png"@, "gif"@, "heic"@, "webp"@, "bmp"@, "tiff"@, "raw"@];
    assert(list[0] == "jpg"@);
    assert(list[1] == "jpeg"@);
    assert(list[2] == "png"@);
    assert(list[3] == "gif"@);
    assert(list[4] == "heic"@);
    assert(list[5] == "webp"@);
    assert(list[6] == "bmp"@);
    assert(list[7] == "tiff"@);
    assert(list[8] == "raw"@);
    if list.contains(ext) {
        let i = choose|i: int| 0 <= i < list.len() && list[i] == ext;
        assert(0 <= i < 9);
    }
}

proof fn lemma_videos(ext: Seq<char>)
    ensures
        seq!["mp4"@, "mov"@, "avi"@, "mkv"@, "webm"@, "m4v"@].contains(ext) <==> ext == "mp4"@
            || ext == "mov"@ || ext == "avi"@ || ext == "mkv"@ || ext == "webm"@
            || ext == "m4v"@,
{
    let list = seq!["mp4"@, "mov"@, "avi"@, "mkv"@, "webm"@, "m4v"@];
    assert(list[0] == "mp4"@);
    assert(list[1] == "mov"@);
    assert(list[2] == "avi"@);
    assert(list[3] == "mkv"@);
    assert(list[4] == "webm"@);
    assert(list[5] == "m4v"@);
    if list.contains(ext) {
        let i = choose|i: int| 0 <= i < list.len() && list[i] == ext;
        assert(0 <= i < 6);
    }
}

proof fn lemma_audio(ext: Seq<char>)
    ensures
        seq!["mp3"@, "wav"@, "flac"@, "aac"@, "m4a"@, "ogg"@].contains(ext) <==> ext == "mp3"@
            || ext == "wav"@ || ext == "flac"@ || ext == "aac"@ || ext == "m4a"@
            || ext == "ogg"@,
{
    let list = seq!["mp3"@, "wav"@, "flac"@, "aac"@, "m4a"@, "ogg"@];
    assert(list[0] == "mp3"@);
    assert(list[1] == "wav"@);
    assert(list[2] == "flac"@);
    assert(list[3] == "aac"@);
    assert(list[4] == "m4a"@);
    assert(list[5] == "ogg"@);
    if list.contains(ext) {
        let i = choose|i: int| 0 <= i < list.len() && list[i] == ext;
        assert(0 <= i < 6);
    }
}

proof fn lemma_documents(ext: Seq<char>)
    ensures
        seq!["pdf"@, "doc"@, "docx"@, "txt"@, "rtf"@, "odt"@, "pages"@].contains(ext)
            <==> ext == "pdf"@ || ext == "doc"@ || ext == "docx"@ || ext == "txt"@
            || ext == "rtf"@ || ext == "odt"@ || ext == "pages"@,
{
    let list = seq!["pdf"@, "doc"@, "docx"@, "txt"@, "rtf"@, "odt"@, "pages"@];
    assert(list[0] == "pdf"@);
    assert(list[1] == "doc"@);
    assert(list[2] == "docx"@);
    assert(list[3] == "txt"@);
    assert(list[4] == "rtf"@);
    assert(list[5] == "odt"@);
    assert(list[6] == "pages"@);
    if list.contains(ext) {
        let i = choose|i: int| 0 <= i < list.len() && list[i] == ext;
        assert(0 <= i < 7);
    }
}

proof fn lemma_spreadsheets(ext: Seq<char>)
    ensures
        seq!["xls"@, "xlsx"@, "csv"@, "numbers"@].contains(ext) <==> ext == "xls"@
            || ext == "xlsx"@ || ext == "csv"@ || ext == "numbers"@,
{
    let list = seq!["xls"@, "xlsx"@, "csv"@, "numbers"@];
    assert(list[0] == "xls"@);
    assert(list[1] == "xlsx"@);
    assert(list[2] == "csv"@);
    assert(list[3] == "numbers"@);
    if list.contains(ext) {
        let i = choose|i: int| 0 <= i < list.len() && list[i] == ext;
        assert(0 <= i < 4);
    }
}

proof fn lemma_presentations(ext: Seq<char>)
    ensures
        seq!["ppt"@, "pptx"@, "key"@].contains(ext) <==> ext == "ppt"@ || ext == "pptx"@
            || ext == "key"@,
{
    let list = seq!["ppt"@, "pptx"@, "key"@];
    assert(list[0] == "ppt"@);
    assert(list[1] == "pptx"@);
    assert(list[2] == "key"@);
    if list.contains(ext) {
        let i = choose|i: int| 0 <= i < list.len() && list[i] == ext;
        assert(0 <= i < 3);
    }
}

proof fn lemma_archives(ext: Seq<char>)
    ensures
        seq!["zip"@, "rar"@, "7z"@, "tar"@, "gz"@, "dmg"@].contains(ext) <==> ext == "zip"@
            || ext == "rar"@ || ext == "7z"@ || ext == "tar"@ || ext == "gz"@ || ext == "dmg"@,
{
    let list = seq!["zip"@, "rar"@, "7z"@, "tar"@, "gz"@, "dmg"@];
    assert(list[0] == "zip"@);
    assert(list[1] == "rar"@);
    assert(list[2] == "7z"@);
    assert(list[3] == "tar"@);
    assert(list[4] == "gz"@);
    assert(list[5] == "dmg"@);
    if list.contains(ext) {
        let i = choose|i: int| 0 <= i < list.len() && list[i] == ext;
        assert(0 <= i < 6);
    }
}

proof fn lemma_installers(ext: Seq<char>)
    ensures
        seq!["exe"@, "msi"@, "app"@, "pkg"@, "apk"@].contains(ext) <==> ext == "exe"@
            || ext == "msi"@ || ext == "app"@ || ext == "pkg"@ || ext == "apk"@,
{
    let list = seq!["exe"@, "msi"@, "app"@, "pkg"@, "apk"@];
    assert(list[0] == "exe"@);
    assert(list[1] == "msi"@);
    assert(list[2] == "app"@);
    assert(list[3] == "pkg"@);
    assert(list[4] == "apk"@);
    if list.contains(ext) {
        let i = choose|i: int| 0 <= i < list.len() && list[i] == ext;
        assert(0 <= i < 5);
    }
}

/// Every extension that is known leads to the folder for its kind, and every
/// other one to the folder for the rest.
pub proof fn law_kinds_have_their_folders(ext: &str, r: &'static str)
    requires
        call_ensures(category_of_lowercase, (ext,), r),
    ensures
        ext@ == "jpg"@ || ext@ == "jpeg"@ || ext@ == "png"@ || ext@ == "gif"@ || ext@ == "heic"@
            || ext@ == "webp"@ || ext@ == "bmp"@ || ext@ == "tiff"@ || ext@ == "raw"@
            ==> r@ == "Images"@,
        ext@ == "mp4"@ || ext@ == "mov"@ || ext@ == "avi"@ || ext@ == "mkv"@ || ext@ == "webm"@
            || ext@ == "m4v"@ ==> r@ == "Videos"@,
        ext@ == "mp3"@ || ext@ == "wav"@ || ext@ == "flac"@ || ext@ == "aac"@ || ext@ == "m4a"@
            || ext@ == "ogg"@ ==> r@ == "Audio"@,
        ext@ == "pdf"@ || ext@ == "doc"@ || ext@ == "docx"@ || ext@ == "txt"@ || ext@ == "rtf"@
            || ext@ == "odt"@ || ext@ == "pages"@ ==> r@ == "Documents"@,
        ext@ == "xls"@ || ext@ == "xlsx"@ || ext@ == "csv"@ || ext@ == "numbers"@
            ==> r@ == "Spreadsheets"@,
        ext@ == "ppt"@ || ext@ == "pptx"@ || ext@ == "key"@ ==> r@ == "Presentations"@,
        ext@ == "zip"@ || ext@ == "rar"@ || ext@ == "7z"@ || ext@ == "tar"@ || ext@ == "gz"@
            || ext@ == "dmg"@ ==> r@ == "Archives"@,
        ext@ == "exe"@ || ext@ == "msi"@ || ext@ == "app"@ || ext@ == "pkg"@ || ext@ == "apk"@
            ==> r@ == "Installers"@,
        !(ext@ == "jpg"@ || ext@ == "jpeg"@ || ext@ == "png"@ || ext@ == "gif"@
            || ext@ == "heic"@ || ext@ == "webp"@ || ext@ == "bmp"@ || ext@ == "tiff"@
            || ext@ == "raw"@ || ext@ == "mp4"@ || ext@ == "mov"@ || ext@ == "avi"@
            || ext@ == "mkv"@ || ext@ == "webm"@ || ext@ == "m4v"@ || ext@ == "mp3"@
            || ext@ == "wav"@ || ext@ == "flac"@ || ext@ == "aac"@ || ext@ == "m4a"@
            || ext@ == "ogg"@ || ext@ == "pdf"@ || ext@ == "doc"@ || ext@ == "docx"@
            || ext@ == "txt"@ || ext@ == "rtf"@ || ext@ == "odt"@ || ext@ == "pages"@
            || ext@ == "xls"@ || ext@ == "xlsx"@ || ext@ == "csv"@ || ext@ == "numbers"@
            || ext@ == "ppt"@ || ext@ == "pptx"@ || ext@ == "key"@ || ext@ == "zip"@
            || ext@ == "rar"@ || ext@ == "7z"@ || ext@ == "tar"@ || ext@ == "gz"@
            || ext@ == "dmg"@ || ext@ == "exe"@ || ext@ == "msi"@ || ext@ == "app"@
            || ext@ == "pkg"@ || ext@ == "apk"@) ==> r@ == "Other"@,
{
    reveal_strlit("jpg");
    assert("jpg"@[0] == 'j' && "jpg"@[1] == 'p' && "jpg"@[2] == 'g');
    reveal_strlit("jpeg");
    assert("jpeg"@[0] == 'j' && "jpeg"@[1] == 'p' && "jpeg"@[2] == 'e' && "jpeg"@[3] == 'g');
    reveal_strlit("png");
    assert("png"@[0] == 'p' && "png"@[1] == 'n' && "png"@[2] == 'g');
    reveal_strlit("gif");
    assert("gif"@[0] == 'g' && "gif"@[1] == 'i' && "gif"@[2] == 'f');
    reveal_strlit("heic");
    assert("heic"@[0] == 'h' && "heic"@[1] == 'e' && "heic"@[2] == 'i' && "heic"@[3] == 'c');
    reveal_strlit("webp");
    assert("webp"@[0] == 'w' && "webp"@[1] == 'e' && "webp"@[2] == 'b' && "webp"@[3] == 'p');
    reveal_strlit("bmp");
    assert("bmp"@[0] == 'b' && "bmp"@[1] == 'm' && "bmp"@[2] == 'p');
    reveal_strlit("tiff");
    assert("tiff"@[0] == 't' && "tiff"@[1] == 'i' && "tiff"@[2] == 'f' && "tiff"@[3] == 'f');
    reveal_strlit("raw");
    assert("raw"@[0] == 'r' && "raw"@[1] == 'a' && "raw"@[2] == 'w');
    reveal_strlit("mp4");
    assert("mp4"@[0] == 'm' && "mp4"@[1] == 'p' && "mp4"@[2] == '4');
    reveal_strlit("mov");
    assert("mov"@[0] == 'm' && "mov"@[1] == 'o' && "mov"@[2] == 'v');
    reveal_strlit("avi");
    assert("avi"@[0] == 'a' && "avi"@[1] == 'v' && "avi"@[2] == 'i');
    reveal_strlit("mkv");
    assert("mkv"@[0] == 'm' && "mkv"@[1] == 'k' && "mkv"@[2] == 'v');
    reveal_strlit("webm");
    assert("webm"@[0] == 'w' && "webm"@[1] == 'e' && "webm"@[2] == 'b' && "webm"@[3] == 'm');
    reveal_strlit("m4v");
    assert("m4v"@[0] == 'm' && "m4v"@[1] == '4' && "m4v"@[2] == 'v');
    reveal_strlit("mp3");
    assert("mp3"@[0] == 'm' && "mp3"@[1] == 'p' && "mp3"@[2] == '3');
    reveal_strlit("wav");
    assert("wav"@[0] == 'w' && "wav"@[1] == 'a' && "wav"@[2] == 'v');
    reveal_strlit("flac");
    assert("flac"@[0] == 'f' && "flac"@[1] == 'l' && "flac"@[2] == 'a' && "flac"@[3] == 'c');
    reveal_strlit("aac");
    assert("aac"@[0] == 'a' && "aac"@[1] == 'a' && "aac"@[2] == 'c');
    reveal_strlit("m4a");
    assert("m4a"@[0] == 'm' && "m4a"@[1] == '4' && "m4a"@[2] == 'a');
    reveal_strlit("ogg");
    assert("ogg"@[0] == 'o' && "ogg"@[1] == 'g' && "ogg"@[2] == 'g');
    reveal_strlit("pdf");
    assert("pdf"@[0] == 'p' && "pdf"@[1] == 'd' && "pdf"@[2] == 'f');
    reveal_strlit("doc");
    assert("doc"@[0] == 'd' && "doc"@[1] == 'o' && "doc"@[2] == 'c');
    reveal_strlit("docx");
    assert("docx"@[0] == 'd' && "docx"@[1] == 'o' && "docx"@[2] == 'c' && "docx"@[3] == 'x');
    reveal_strlit("txt");
    assert("txt"@[0] == 't' && "txt"@[1] == 'x' && "txt"@[2] == 't');
    reveal_strlit("rtf");
    assert("rtf"@[0] == 'r' && "rtf"@[1] == 't' && "rtf"@[2] == 'f');
    reveal_strlit("odt");
    assert("odt"@[0] == 'o' && "odt"@[1] == 'd' && "odt"@[2] == 't');
    reveal_strlit("pages");
    assert("pages"@[0] == 'p' && "pages"@[1] == 'a' && "pages"@[2] == 'g' && "pages"@[3] == 'e'
        && "pages"@[4] == 's');
    reveal_strlit("xls");
    assert("xls"@[0] == 'x' && "xls"@[1] == 'l' && "xls"@[2] == 's');
    reveal_strlit("xlsx");
    assert("xlsx"@[0] == 'x' && "xlsx"@[1] == 'l' && "xlsx"@[2] == 's' && "xlsx"@[3] == 'x');
    reveal_strlit("csv");
    assert("csv"@[0] == 'c' && "csv"@[1] == 's' && "csv"@[2] == 'v');
    reveal_strlit("numbers");
    assert("numbers"@[0] == 'n' && "numbers"@[1] == 'u' && "numbers"@[2] == 'm'
        && "numbers"@[3] == 'b' && "numbers"@[4] == 'e' && "numbers"@[5] == 'r'
        && "numbers"@[6] == 's');
    reveal_strlit("ppt");
    assert("ppt"@[0] == 'p' && "ppt"@[1] == 'p' && "ppt"@[2] == 't');
    reveal_strlit("pptx");
    assert("pptx"@[0] == 'p' && "pptx"@[1] == 'p' && "pptx"@[2] == 't' && "pptx"@[3] == 'x');
    reveal_strlit("key");
    assert("key"@[0] == 'k' && "key"@[1] == 'e' && "key"@[2] == 'y');
    reveal_strlit("zip");
    assert("zip"@[0] == 'z' && "zip"@[1] == 'i' && "zip"@[2] == 'p');
    reveal_strlit("rar");
    assert("rar"@[0] == 'r' && "rar"@[1] == 'a' && "rar"@[2] == 'r');
    reveal_strlit("7z");
    assert("7z"@[0] == '7' && "7z"@[1] == 'z');
    reveal_strlit("tar");
    assert("tar"@[0] == 't' && "tar"@[1] == 'a' && "tar"@[2] == 'r');
    reveal_strlit("gz");
    assert("gz"@[0] == 'g' && "gz"@[1] == 'z');
    reveal_strlit("dmg");
    assert("dmg"@[0] == 'd' && "dmg"@[1] == 'm' && "dmg"@[2] == 'g');
    reveal_strlit("exe");
    assert("exe"@[0] == 'e' && "exe"@[1] == 'x' && "exe"@[2] == 'e');
    reveal_strlit("msi");
    assert("msi"@[0] == 'm' && "msi"@[1] == 's' && "msi"@[2] == 'i');
    reveal_strlit("app");
    assert("app"@[0] == 'a' && "app"@[1] == 'p' && "app"@[2] == 'p');
    reveal_strlit("pkg");
    assert("pkg"@[0] == 'p' && "pkg"@[1] == 'k' && "pkg"@[2] == 'g');
    reveal_strlit("apk");
    assert("apk"@[0] == 'a' && "apk"@[1] == 'p' && "apk"@[2] == 'k');
    lemma_images(ext@);
    lemma_videos(ext@);
    lemma_audio(ext@);
    lemma_documents(ext@);
    lemma_spreadsheets(ext@);
    lemma_presentations(ext@);
    lemma_archives(ext@);
    lemma_installers(ext@);
}

/// A rename that worked is recorded under the new name, in order; one that did
/// not ends the batch.
pub proof fn law_batch_records_what_worked(
    run: &mut BatchRun,
    to: FilePath,
    result: EngineResult<()>,
    u: (),
)
    requires
        run.wf(),
        run.failure is None,
        run.renamed@.len() < run.paths@.len(),
        run.place() == Some(to@),
        call_ensures(BatchRun::tried, (run, to, result), u),
    ensures
        result is Ok ==> final(run).renamed@ == old(run).renamed@.push(to) && final(run).failure
            is None,
        result is Err ==> final(run).renamed == old(run).renamed && final(run).failure == Some(
            result->Err_0,
        ),
        final(run).paths == old(run).paths,
{
}

/// A batch gives the new names of all its files, or says what stopped it.
pub proof fn law_batch_gives_all_names(run: BatchRun, r: EngineResult<Vec<FilePath>>)
    requires
        run.wf(),
        run.failure is Some || run.renamed@.len() == run.paths@.len(),
        call_ensures(BatchRun::finish, (run,), r),
    ensures
        r is Ok <==> run.failure is None,
        r is Ok ==> r->Ok_0@ == run.renamed@ && r->Ok_0@.len() == run.paths@.len(),
        r is Err ==> r->Err_0 == run.failure->0,
{
}

/// A move that worked counts once and is told with both places; one that did not
/// counts not at all and is told as an error of the file.
pub proof fn law_organized_files_are_counted(
    run: &mut OrganizeRun,
    from: FilePath,
    to: FilePath,
    result: EngineResult<()>,
    event: OrganizeEvent,
)
    requires
        run.moved < run.index <= run.entries@.len(),
        call_ensures(OrganizeRun::moved, (run, from, to, result), event),
    ensures
        result is Ok ==> final(run).moved == old(run).moved + 1 && event
            == (OrganizeEvent::FileMoved { from, to }),
        result is Err ==> final(run).moved == old(run).moved && (
        event matches OrganizeEvent::FileError { path, .. } && path == from),
        final(run).index == old(run).index,
{
    assert(run.entries.len() <= usize::MAX);
}

/// Each operation starts with what it was given, and with nothing done.
pub proof fn law_operations_start_as_asked(
    paths: Vec<FilePath>,
    pattern: String,
    batch: BatchRun,
    src: &FilePath,
    dst: &FilePath,
    tree: TreeCopy,
    dir: FilePath,
    strategy: OrganizeStrategy,
    entries: Vec<FilePath>,
    run: OrganizeRun,
)
    requires
        call_ensures(BatchRun::new, (paths, pattern), batch),
        call_ensures(TreeCopy::new, (src, dst), tree),
        call_ensures(OrganizeRun::new, (dir, strategy, entries), run),
    ensures
        batch.paths == paths && batch.pattern == pattern,
        batch.renamed@.len() == 0 && batch.failure is None,
        pairs(tree.pending@).len() == 1 && pairs(tree.pending@)[0] == (src@, dst@),
        run.dir == dir && run.strategy == strategy && run.entries == entries,
        run.index == 0 && run.moved == 0,
{
}

/// A tree is copied pair by pair, each once.
pub proof fn law_tree_is_copied_once(tree: &mut TreeCopy, r: Option<(FilePath, FilePath)>)
    requires
        call_ensures(TreeCopy::next, (tree,), r),
    ensures
        r is None <==> pairs(old(tree).pending@).len() == 0,
        r matches Some((src, dst)) ==> pairs(old(tree).pending@) == pairs(
            final(tree).pending@,
        ).push((src@, dst@)),
{
    let v = pairs(tree.pending@);
    if v.len() > 0 {
        assert(v =~= v.drop_last().push(v.last()));
    }
}

/// The file that is looked at is the next one in the folder, and what is told at
/// the end is what was counted.
pub proof fn law_files_are_organized_in_order(
    run: &OrganizeRun,
    r: Option<FilePath>,
    end: (OrganizeEvent, OrganizeSummary),
)
    requires
        call_ensures(OrganizeRun::current, (run,), r),
        call_ensures(OrganizeRun::finished, (run,), end),
    ensures
        r is Some <==> run.index < run.entries@.len(),
        r is Some ==> r->0@ == run.entries@[run.index as int]@,
        end.0 == (OrganizeEvent::Finished { moved: run.moved }),
        end.1.moved == run.moved,
{
}

/// The case of an extension does not matter for its kind.
pub proof fn law_kinds_ignore_case(
    ext: &str,
    low: &str,
    a: &'static str,
    b: &'static str,
)
    requires
        low@ == text::lowercase(ext@),
        call_ensures(category_for_extension, (ext,), a),
        call_ensures(category_of_lowercase, (low,), b),
    ensures
        a@ == b@,
{
}

} // verus!
