//! The tab that brings one folder up to date with another.

use vstd::prelude::*;

use crate::dnd;
use crate::dnd::Dropped;
use crate::paths::FilePath;
use crate::sync::{SyncEvent, SyncOptions, SyncSummary};
use crate::text;
use crate::ui;
use crate::util::Log;

verus! {

/// What the tab remembers.
#[derive(Debug)]
pub struct SyncTab {
    pub src: Option<FilePath>,
    pub dst: Option<FilePath>,
    pub mirror: bool,
    pub verify: bool,
    pub running: bool,
    pub planned: Option<(usize, usize, usize)>,
    pub summary: Option<SyncSummary>,
    pub log: Log,
}

impl Default for SyncTab {
    fn default() -> (r: SyncTab)
        ensures
            r.wf(),
            r.src is None,
            r.dst is None,
            !r.mirror,
            !r.verify,
            !r.running,
            r.planned is None,
            r.summary is None,
            r.log@.len() == 0,
            r.log.cap() == 200,
    {
        SyncTab {
            src: None,
            dst: None,
            mirror: false,
            verify: false,
            running: false,
            planned: None,
            summary: None,
            log: Log::default(),
        }
    }
}

/// Where something was dropped.
#[derive(Debug, Clone, Copy, PartialEq, Eq, Structural)]
pub enum DropSpot {
    Source,
    Destination,
    Elsewhere,
}

/// What is planned, in words.
pub open spec fn plan_line(to_copy: usize, to_update: usize, to_delete: usize) -> Seq<char> {
    "Plan: "@ + text::dec(to_copy as nat) + " to copy, "@ + text::dec(to_update as nat)
        + " to update, "@ + text::dec(to_delete as nat) + " to delete"@
}

/// What was done, in words.
pub open spec fn summary_line(heading: Seq<char>, s: SyncSummary) -> Seq<char> {
    heading + text::dec(s.copied as nat) + " copied, "@ + text::dec(s.updated as nat)
        + " updated, "@ + text::dec(s.deleted as nat) + " deleted, "@ + text::dec(s.failed as nat)
        + " failed"@
}

/// The line for an event.
pub open spec fn event_line(event: SyncEvent) -> Seq<char> {
    match event {
        SyncEvent::Planned { to_copy, to_update, to_delete } => plan_line(
            to_copy,
            to_update,
            to_delete,
        ),
        SyncEvent::FileCopied { path } => "+ "@ + path@.shown(),
        SyncEvent::FileUpdated { path } => "↻ "@ + path@.shown(),
        SyncEvent::FileDeleted { path } => "- "@ + path@.shown(),
        SyncEvent::FileError { path, message } => ui::error_line(path@.shown(), message@),
        SyncEvent::Finished(summary) => summary_line("Done: "@, summary),
        SyncEvent::Cancelled => "Cancelled."@,
    }
}

fn write_plan(to_copy: usize, to_update: usize, to_delete: usize) -> (r: String)
    ensures
        r@ == plan_line(to_copy, to_update, to_delete),
{
    let mut r = "Plan: ".to_owned();
    r.append(text::decimal(to_copy as u64).as_str());
    r.append(" to copy, ");
    r.append(text::decimal(to_update as u64).as_str());
    r.append(" to update, ");
    r.append(text::decimal(to_delete as u64).as_str());
    r.append(" to delete");
    r
}

fn write_summary(heading: &str, s: &SyncSummary) -> (r: String)
    ensures
        r@ == summary_line(heading@, *s),
{
    let mut r = heading.to_owned();
    r.append(text::decimal(s.copied as u64).as_str());
    r.append(" copied, ");
    r.append(text::decimal(s.updated as u64).as_str());
    r.append(" updated, ");
    r.append(text::decimal(s.deleted as u64).as_str());
    r.append(" deleted, ");
    r.append(text::decimal(s.failed as u64).as_str());
    r.append(" failed");
    r
}

fn write_event(event: &SyncEvent) -> (r: String)
    ensures
        r@ == event_line(*event),
{
    match event {
        SyncEvent::Planned { to_copy, to_update, to_delete } => write_plan(
            *to_copy,
            *to_update,
            *to_delete,
        ),
        SyncEvent::FileCopied { path } => {
            let mut r = "+ ".to_owned();
            r.append(path.display().as_str());
            r
        },
        SyncEvent::FileUpdated { path } => {
            let mut r = "↻ ".to_owned();
            r.append(path.display().as_str());
            r
        },
        SyncEvent::FileDeleted { path } => {
            let mut r = "- ".to_owned();
            r.append(path.display().as_str());
            r
        },
        SyncEvent::FileError { path, message } => ui::write_error(
            path.display().as_str(),
            message.as_str(),
        ),
        SyncEvent::Finished(summary) => write_summary("Done: ", summary),
        SyncEvent::Cancelled => "Cancelled.".to_owned(),
    }
}

impl SyncTab {
    pub open spec fn wf(self) -> bool {
        self.log.wf()
    }

    pub fn is_running(&self) -> (r: bool)
        ensures
            r == self.running,
    {
        self.running
    }

    /// The work tells about its progress.
    pub fn on_event(&mut self, event: SyncEvent)
        requires
            old(self).wf(),
        ensures
            final(self).wf(),
            ui::wrote(old(self).log, final(self).log, event_line(event)),
            *final(self) == (SyncTab {
                planned: match event {
                    SyncEvent::Planned { to_copy, to_update, to_delete } => Some(
                        (to_copy, to_update, to_delete),
                    ),
                    _ => old(self).planned,
                },
                summary: match event {
                    SyncEvent::Finished(summary) => Some(summary),
                    _ => old(self).summary,
                },
                running: old(self).running && !(event is Finished || event is Cancelled),
                log: final(self).log,
                ..*old(self)
            }),
    {
        self.log.push(write_event(&event));
        match event {
            SyncEvent::Planned { to_copy, to_update, to_delete } => {
                self.planned = Some((to_copy, to_update, to_delete));
            },
            SyncEvent::Finished(summary) => {
                self.summary = Some(summary);
                self.running = false;
            },
            SyncEvent::Cancelled => {
                self.running = false;
            },
            _ => {},
        }
    }

    /// Starts the work: from where, to where, and how.
    pub fn start(&mut self) -> (r: Option<(FilePath, FilePath, SyncOptions)>)
        requires
            old(self).wf(),
        ensures
            final(self).wf(),
            match (old(self).src, old(self).dst) {
                (Some(src), Some(dst)) => {
                    &&& r matches Some((from, to, options))
                    &&& from@ == src@
                    &&& to@ == dst@
                    &&& options.mirror == old(self).mirror
                    &&& options.verify == old(self).verify
                    &&& ui::emptied(old(self).log, final(self).log)
                    &&& *final(self) == (SyncTab {
                        planned: None,
                        summary: None,
                        running: true,
                        log: final(self).log,
                        ..*old(self)
                    })
                },
                _ => {
                    &&& r is None
                    &&& ui::wrote(
                        old(self).log,
                        final(self).log,
                        "Choose both a source and destination folder first."@,
                    )
                    &&& *final(self) == (SyncTab { log: final(self).log, ..*old(self) })
                },
            },
    {
        let (from, to) = match (&self.src, &self.dst) {
            (Some(src), Some(dst)) => (src.clone(), dst.clone()),
            _ => {
                self.log.push("Choose both a source and destination folder first.".to_owned());
                return None;
            },
        };
        self.planned = None;
        self.summary = None;
        self.log.clear();
        self.running = true;
        Some((from, to, SyncOptions { mirror: self.mirror, verify: self.verify }))
    }

    /// Takes the folder that the first thing dropped stands for: where it was
    /// dropped, and elsewhere as the source until there is one.
    pub fn add_dropped(&mut self, dropped: &Vec<Dropped>, spot: DropSpot)
        requires
            old(self).wf(),
        ensures
            final(self).wf(),
            ({
                let dir = if dropped@.len() > 0 {
                    dnd::folder_of(dropped@[0].path@, dropped@[0].is_dir)
                } else {
                    None
                };
                let to_source = spot is Source || (spot is Elsewhere && old(self).src is None);
                &&& dir is None ==> *final(self) == *old(self)
                &&& dir is Some && to_source ==> final(self).src is Some && final(self).src->0@
                    == dir->0 && *final(self) == (SyncTab { src: final(self).src, ..*old(self) })
                &&& dir is Some && !to_source ==> final(self).dst is Some && final(self).dst->0@
                    == dir->0 && *final(self) == (SyncTab { dst: final(self).dst, ..*old(self) })
            }),
    {
        if dropped.len() == 0 {
            return;
        }
        let dir = match dropped[0].as_dir() {
            Some(dir) => dir,
            None => return,
        };
        let to_source = match spot {
            DropSpot::Source => true,
            DropSpot::Destination => false,
            DropSpot::Elsewhere => self.src.is_none(),
        };
        if to_source {
            self.src = Some(dir);
        } else {
            self.dst = Some(dir);
        }
    }

    pub fn planned_label(&self) -> (r: Option<String>)
        ensures
            match self.planned {
                Some((a, b, c)) => r is Some && r->0@ == plan_line(a, b, c),
                None => r is None,
            },
    {
        match &self.planned {
            Some(p) => Some(write_plan(p.0, p.1, p.2)),
            None => None,
        }
    }

    pub fn summary_label(&self) -> (r: Option<String>)
        ensures
            match self.summary {
                Some(s) => r is Some && r->0@ == summary_line("Finished: "@, s),
                None => r is None,
            },
    {
        match &self.summary {
            Some(s) => Some(write_summary("Finished: ", s)),
            None => None,
        }
    }
}

/// What a box for a folder shows.
pub fn folder_label(current: &Option<FilePath>) -> (r: String)
    ensures
        r@ == (match *current {
            Some(dir) => dir@.shown(),
            None => "(none — click or drop a folder here)"@,
        }),
{
    match current {
        Some(dir) => dir.display(),
        None => "(none — click or drop a folder here)".to_owned(),
    }
}

/// Files go from the source that was chosen to the destination that was chosen,
/// and something is deleted only where that was asked for.
pub proof fn law_sync_goes_from_source_to_destination(
    tab: &mut SyncTab,
    r: Option<(FilePath, FilePath, SyncOptions)>,
)
    requires
        tab.wf(),
        call_ensures(SyncTab::start, (tab,), r),
    ensures
        r is Some <==> old(tab).src is Some && old(tab).dst is Some,
        r matches Some((from, to, options)) ==> {
            &&& from@ == old(tab).src->0@
            &&& to@ == old(tab).dst->0@
            &&& options.mirror == old(tab).mirror
            &&& options.verify == old(tab).verify
            &&& final(tab).running
        },
        final(tab).src == old(tab).src && final(tab).dst == old(tab).dst,
        r is None ==> final(tab).running == old(tab).running,
{
}

/// A folder that is dropped on a box fills that box and leaves the other one.
pub proof fn law_dropped_folders_fill_their_box(
    tab: &mut SyncTab,
    dropped: &Vec<Dropped>,
    spot: DropSpot,
    u: (),
)
    requires
        tab.wf(),
        dropped@.len() > 0,
        dropped@[0].is_dir,
        call_ensures(SyncTab::add_dropped, (tab, dropped, spot), u),
    ensures
        spot is Source ==> final(tab).src is Some && final(tab).src->0@ == dropped@[0].path@
            && final(tab).dst == old(tab).dst,
        spot is Destination ==> final(tab).dst is Some && final(tab).dst->0@ == dropped@[0].path@
            && final(tab).src == old(tab).src,
        spot is Elsewhere && old(tab).src is None ==> final(tab).src is Some && final(tab).dst
            == old(tab).dst,
        spot is Elsewhere && old(tab).src is Some ==> final(tab).src == old(tab).src && final(tab).dst is Some && final(tab).dst->0@ == dropped@[0].path@,
{
}

/// The work is over when it says so, and then what it came to is shown.
pub proof fn law_sync_ends_are_shown(tab: &mut SyncTab, event: SyncEvent, u: ())
    requires
        tab.wf(),
        call_ensures(SyncTab::on_event, (tab, event), u),
    ensures
        event is Finished || event is Cancelled ==> !final(tab).running,
        !(event is Finished || event is Cancelled) ==> final(tab).running == old(tab).running,
        event matches SyncEvent::Finished(s) ==> final(tab).summary == Some(s),
        event matches SyncEvent::Planned { to_copy, to_update, to_delete } ==> final(tab).planned
            == Some((to_copy, to_update, to_delete)),
{
}

/// The numbers of a plan and of a summary stand with the words they belong to.
pub proof fn law_numbers_stand_with_their_words(
    tab: &SyncTab,
    plan: Option<String>,
    end: Option<String>,
    counts: (usize, usize, usize),
    s: SyncSummary,
)
    requires
        tab.planned == Some(counts),
        tab.summary == Some(s),
        call_ensures(SyncTab::planned_label, (tab,), plan),
        call_ensures(SyncTab::summary_label, (tab,), end),
    ensures
        plan is Some && plan->0@ == "Plan: "@ + text::dec(counts.0 as nat) + " to copy, "@
            + text::dec(counts.1 as nat) + " to update, "@ + text::dec(counts.2 as nat)
            + " to delete"@,
        end is Some && end->0@ == "Finished: "@ + text::dec(s.copied as nat) + " copied, "@
            + text::dec(s.updated as nat) + " updated, "@ + text::dec(s.deleted as nat)
            + " deleted, "@ + text::dec(s.failed as nat) + " failed"@,
{
}

} // verus!
