//! Searching for files and folders by name.

use vstd::prelude::*;

use crate::paths::FilePath;
use crate::text;

verus! {

#[derive(Debug, PartialEq, Eq)]
pub struct SearchOptions {
    /// Text to look for in names.
    pub query: String,
    pub case_sensitive: bool,
    /// Look at the names of folders too.
    pub include_dirs: bool,
}

#[derive(Debug, PartialEq, Eq)]
pub struct SearchMatch {
    pub path: FilePath,
    pub size: u64,
    pub is_dir: bool,
}

impl Clone for SearchMatch {
    fn clone(&self) -> (r: SearchMatch)
        ensures
            r.path@ == self.path@,
            r.size == self.size,
            r.is_dir == self.is_dir,
    {
        SearchMatch { path: self.path.clone(), size: self.size, is_dir: self.is_dir }
    }
}

/// What a search tells about its progress.
#[derive(Debug, PartialEq, Eq)]
pub enum SearchEvent {
    Scanning { files_scanned: usize },
    Found(SearchMatch),
    Finished { count: usize },
    Cancelled,
}

/// What something found on the way is.
#[derive(Debug, Clone, Copy, PartialEq, Eq, Structural)]
pub enum VisitKind {
    File,
    Folder,
    Other,
}

/// What is looked for: the query, in lower case unless case counts.
pub open spec fn needle_of(query: Seq<char>, case_sensitive: bool) -> Seq<char> {
    if case_sensitive {
        query
    } else {
        text::lowercase(query)
    }
}

/// Whether a name matches a query. An empty query matches nothing.
pub open spec fn name_matches(name: Seq<char>, query: Seq<char>, case_sensitive: bool) -> bool {
    let needle = needle_of(query, case_sensitive);
    needle.len() > 0 && text::contains(
        if case_sensitive {
            name
        } else {
            text::lowercase(name)
        },
        needle,
    )
}

/// Whether a name holds what is looked for, both in the case that counts.
pub fn holds_needle(name: &str, needle: &str) -> (r: bool)
    ensures
        r == (needle@.len() > 0 && text::contains(name@, needle@)),
{
    !needle.is_empty() && text::contains_text(name, needle)
}

/// Whether names of this kind are looked at.
pub open spec fn looked_at(kind: VisitKind, include_dirs: bool) -> bool {
    kind is File || (kind is Folder && include_dirs)
}

/// The state of a search.
#[derive(Debug)]
pub struct SearchRun {
    pub options: SearchOptions,
    pub needle: String,
    pub files_scanned: usize,
    pub count: usize,
}

impl SearchRun {
    /// The needle is the one of the query.
    pub open spec fn wf(self) -> bool {
        self.needle@ == needle_of(self.options.query@, self.options.case_sensitive)
    }

    pub fn new(options: SearchOptions) -> (r: SearchRun)
        ensures
            r.wf(),
            r.options == options,
            r.files_scanned == 0,
            r.count == 0,
    {
        let needle = if options.case_sensitive {
            options.query.clone()
        } else {
            text::to_lower(options.query.as_str())
        };
        SearchRun { options, needle, files_scanned: 0, count: 0 }
    }

    /// Looks at something with the given name: an event every 2000 names, and
    /// whether it matches.
    pub fn visit(&mut self, name: &str, kind: VisitKind) -> (r: (Option<SearchEvent>, bool))
        requires
            old(self).wf(),
            old(self).files_scanned < usize::MAX,
        ensures
            final(self).wf(),
            !looked_at(kind, old(self).options.include_dirs) ==> r.0 is None && !r.1
                && *final(self) == *old(self),
            looked_at(kind, old(self).options.include_dirs) ==> {
                let n = (old(self).files_scanned + 1) as usize;
                &&& *final(self) == (SearchRun { files_scanned: n, ..*old(self) })
                &&& r.0 == (if n % 2000 == 0 {
                    Some(SearchEvent::Scanning { files_scanned: n })
                } else {
                    None
                })
                &&& r.1 == name_matches(
                    name@,
                    old(self).options.query@,
                    old(self).options.case_sensitive,
                )
            },
    {
        let looked = match kind {
            VisitKind::File => true,
            VisitKind::Folder => self.options.include_dirs,
            VisitKind::Other => false,
        };
        if !looked {
            return (None, false);
        }
        self.files_scanned = self.files_scanned + 1;
        let event = if self.files_scanned % 2000 == 0 {
            Some(SearchEvent::Scanning { files_scanned: self.files_scanned })
        } else {
            None
        };
        let matched = if self.options.case_sensitive {
            holds_needle(name, self.needle.as_str())
        } else {
            holds_needle(text::to_lower(name).as_str(), self.needle.as_str())
        };
        (event, matched)
    }

    /// Takes note of a match.
    pub fn found(&mut self, path: FilePath, size: u64, is_dir: bool) -> (event: SearchEvent)
        requires
            old(self).wf(),
        ensures
            final(self).wf(),
            event == SearchEvent::Found(SearchMatch { path, size, is_dir }),
            *final(self) == (SearchRun { count: old(self).count.wrapping_add(1), ..*old(self) }),
    {
        self.count = self.count.wrapping_add(1);
        SearchEvent::Found(SearchMatch { path, size, is_dir })
    }

    /// The event that ends a complete search.
    pub fn finished(&self) -> (event: SearchEvent)
        ensures
            event == (SearchEvent::Finished { count: self.count }),
    {
        SearchEvent::Finished { count: self.count }
    }
}

/// A file with the query anywhere in its name is found, whatever stands before
/// and after it. Where case does not count, the lower-case forms are compared.
pub proof fn law_query_is_found_anywhere(
    run: &mut SearchRun,
    name: &str,
    r: (Option<SearchEvent>, bool),
    a: Seq<char>,
    b: Seq<char>,
)
    requires
        call_ensures(SearchRun::visit, (run, name, VisitKind::File), r),
        run.options.query@.len() > 0,
        run.options.case_sensitive ==> name@ == a + run.options.query@ + b,
        !run.options.case_sensitive ==> {
            &&& text::lowercase(run.options.query@).len() > 0
            &&& text::lowercase(name@) == a + text::lowercase(run.options.query@) + b
        },
    ensures
        r.1,
{
    let q = if run.options.case_sensitive {
        run.options.query@
    } else {
        text::lowercase(run.options.query@)
    };
    let whole = a + q + b;
    let at = a.len() as int;
    assert(whole.subrange(at, at + q.len()) =~= q);
    assert(text::stands_at(whole, q, at));
}

/// Whatever is found has the query in its name, and is a file, or a folder
/// where folders were asked for. A search for nothing finds nothing.
pub proof fn law_found_names_have_the_query(
    run: &mut SearchRun,
    name: &str,
    kind: VisitKind,
    r: (Option<SearchEvent>, bool),
)
    requires
        call_ensures(SearchRun::visit, (run, name, kind), r),
        r.1,
    ensures
        kind != VisitKind::Other,
        kind == VisitKind::Folder ==> old(run).options.include_dirs,
        old(run).options.case_sensitive ==> old(run).options.query@.len() > 0 && exists|
            a: Seq<char>,
            b: Seq<char>,
        |
            name@ == #[trigger] (a + old(run).options.query@ + b),
        !old(run).options.case_sensitive ==> text::lowercase(old(run).options.query@).len() > 0 && exists|
            a: Seq<char>,
            b: Seq<char>,
        |
            text::lowercase(name@) == #[trigger] (a + text::lowercase(old(run).options.query@) + b),
{
    let (s, q) = if run.options.case_sensitive {
        (name@, run.options.query@)
    } else {
        (text::lowercase(name@), text::lowercase(run.options.query@))
    };
    let at = choose|i: int| text::stands_at(s, q, i);
    let a = s.subrange(0, at);
    let b = s.subrange(at + q.len(), s.len() as int);
    assert(s =~= a + q + b);
}

/// A folder is found exactly where a file of that name would be, when folders
/// were asked for; and every name looked at is counted.
pub proof fn law_folders_are_found_like_files(
    one: &mut SearchRun,
    other: &mut SearchRun,
    name: &str,
    file: (Option<SearchEvent>, bool),
    folder: (Option<SearchEvent>, bool),
)
    requires
        call_ensures(SearchRun::visit, (one, name, VisitKind::File), file),
        call_ensures(SearchRun::visit, (other, name, VisitKind::Folder), folder),
        *one == *other,
        one.files_scanned < usize::MAX,
        one.options.include_dirs,
    ensures
        folder.1 == file.1,
        final(one).files_scanned == old(one).files_scanned + 1,
        final(other).files_scanned == old(other).files_scanned + 1,
{
}

/// What is found is told as it is, and counted once.
pub proof fn law_matches_are_told_and_counted(
    run: &mut SearchRun,
    path: FilePath,
    size: u64,
    is_dir: bool,
    event: SearchEvent,
    later: &SearchRun,
    end: SearchEvent,
)
    requires
        run.wf(),
        run.count < usize::MAX,
        call_ensures(SearchRun::found, (run, path, size, is_dir), event),
        *later == *final(run),
        call_ensures(SearchRun::finished, (later,), end),
    ensures
        event matches SearchEvent::Found(m) && m.path == path && m.size == size && m.is_dir == is_dir,
        end == (SearchEvent::Finished { count: (old(run).count + 1) as usize }),
{
}

/// A search looks for what it was given, as it was given, and starts with
/// nothing counted.
pub proof fn law_search_starts_as_asked(options: SearchOptions, run: SearchRun)
    requires
        call_ensures(SearchRun::new, (options,), run),
    ensures
        run.options.query@ == options.query@,
        run.options.case_sensitive == options.case_sensitive,
        run.options.include_dirs == options.include_dirs,
        run.count == 0 && run.files_scanned == 0,
{
}

} // verus!
