//! The tab that sorts the files of a folder into subfolders.

use vstd::prelude::*;

use crate::dnd;
use crate::dnd::Dropped;
use crate::fsops::{OrganizeEvent, OrganizeStrategy};
use crate::paths::FilePath;
use crate::text;
use crate::ui;
use crate::util::Log;

verus! {

/// What the tab remembers.
#[derive(Debug)]
pub struct OrganizeTab {
    pub dir: Option<FilePath>,
    pub strategy: OrganizeStrategy,
    pub running: bool,
    pub moved: usize,
    pub log: Log,
}

impl Default for OrganizeTab {
    fn default() -> (r: OrganizeTab)
        ensures
            r.wf(),
            r.dir is None,
            r.strategy is ByExtension,
            !r.running,
            r.moved == 0,
            r.log@.len() == 0,
            r.log.cap() == 200,
    {
        OrganizeTab {
            dir: None,
            strategy: OrganizeStrategy::ByExtension,
            running: false,
            moved: 0,
            log: Log::default(),
        }
    }
}

/// The line for an event.
pub open spec fn event_line(event: OrganizeEvent) -> Seq<char> {
    match event {
        OrganizeEvent::FileMoved { from, to } => from@.shown() + " → "@ + to@.shown(),
        OrganizeEvent::FileError { path, message } => ui::error_line(path@.shown(), message@),
        OrganizeEvent::Finished { moved } => "Done: moved "@ + text::dec(moved as nat)
            + " file(s)."@,
    }
}

impl OrganizeTab {
    pub open spec fn wf(self) -> bool {
        self.log.wf()
    }

    pub fn is_running(&self) -> (r: bool)
        ensures
            r == self.running,
    {
        self.running
    }

    /// Takes the first folder that the things dropped stand for.
    pub fn add_dropped(&mut self, dropped: &Vec<Dropped>)
        requires
            old(self).wf(),
        ensures
            final(self).wf(),
            match dnd::first_folder(dropped@, 0) {
                Some(p) => final(self).dir is Some && final(self).dir->0@ == p && *final(self)
                    == (OrganizeTab { dir: final(self).dir, ..*old(self) }),
                None => *final(self) == *old(self),
            },
    {
        match dnd::find_folder(dropped) {
            Some(p) => {
                self.dir = Some(p);
            },
            None => {},
        }
    }

    /// The work tells about its progress.
    pub fn on_event(&mut self, event: OrganizeEvent)
        requires
            old(self).wf(),
        ensures
            final(self).wf(),
            ui::wrote(old(self).log, final(self).log, event_line(event)),
            *final(self) == (OrganizeTab {
                moved: if event is FileMoved {
                    old(self).moved.wrapping_add(1)
                } else {
                    old(self).moved
                },
                running: old(self).running && !(event is Finished),
                log: final(self).log,
                ..*old(self)
            }),
    {
        match event {
            OrganizeEvent::FileMoved { from, to } => {
                self.moved = self.moved.wrapping_add(1);
                let mut line = from.display();
                line.append(" → ");
                line.append(to.display().as_str());
                self.log.push(line);
            },
            OrganizeEvent::FileError { path, message } => {
                let line = ui::write_error(path.display().as_str(), message.as_str());
                self.log.push(line);
            },
            OrganizeEvent::Finished { moved } => {
                let mut line = "Done: moved ".to_owned();
                line.append(text::decimal(moved as u64).as_str());
                line.append(" file(s).");
                self.log.push(line);
                self.running = false;
            },
        }
    }

    /// Starts the work: on which folder, and how.
    pub fn start(&mut self) -> (r: Option<(FilePath, OrganizeStrategy)>)
        requires
            old(self).wf(),
        ensures
            final(self).wf(),
            match old(self).dir {
                None => {
                    &&& r is None
                    &&& ui::wrote(old(self).log, final(self).log, "Choose a folder first."@)
                    &&& *final(self) == (OrganizeTab { log: final(self).log, ..*old(self) })
                },
                Some(dir) => {
                    &&& r matches Some((which, strategy))
                    &&& which@ == dir@
                    &&& strategy == old(self).strategy
                    &&& ui::emptied(old(self).log, final(self).log)
                    &&& *final(self) == (OrganizeTab {
                        moved: 0,
                        running: true,
                        log: final(self).log,
                        ..*old(self)
                    })
                },
            },
    {
        let dir = match &self.dir {
            Some(dir) => dir.clone(),
            None => {
                self.log.push("Choose a folder first.".to_owned());
                return None;
            },
        };
        self.moved = 0;
        self.log.clear();
        self.running = true;
        Some((dir, self.strategy))
    }

    pub fn dir_label(&self) -> (r: String)
        ensures
            r@ == (match self.dir {
                Some(dir) => dir@.shown(),
                None => "(no folder selected)"@,
            }),
    {
        match &self.dir {
            Some(dir) => dir.display(),
            None => "(no folder selected)".to_owned(),
        }
    }

    pub fn moved_label(&self) -> (r: String)
        ensures
            r@ == "Moved: "@ + text::dec(self.moved as nat),
    {
        let mut r = "Moved: ".to_owned();
        r.append(text::decimal(self.moved as u64).as_str());
        r
    }
}

pub fn strategy_label(strategy: OrganizeStrategy) -> (r: &'static str)
    ensures
        r@ == (match strategy {
            OrganizeStrategy::ByExtension => "By type"@,
            OrganizeStrategy::ByDate => "By date (YYYY-MM)"@,
            OrganizeStrategy::ByExtensionAndDate => "By type, then date"@,
        }),
{
    match strategy {
        OrganizeStrategy::ByExtension => "By type",
        OrganizeStrategy::ByDate => "By date (YYYY-MM)",
        OrganizeStrategy::ByExtensionAndDate => "By type, then date",
    }
}

/// The folder that was chosen is put in order, in the way that was chosen.
pub proof fn law_chosen_folder_is_organized(
    tab: &mut OrganizeTab,
    r: Option<(FilePath, OrganizeStrategy)>,
)
    requires
        tab.wf(),
        call_ensures(OrganizeTab::start, (tab,), r),
    ensures
        r is Some <==> old(tab).dir is Some,
        r matches Some((dir, strategy)) ==> dir@ == old(tab).dir->0@ && strategy == old(tab).strategy && final(tab).running && final(tab).moved == 0,
        r is None ==> final(tab).running == old(tab).running,
        final(tab).dir == old(tab).dir,
{
}

/// Each file that was moved counts once, and the work is over when it says so.
pub proof fn law_moved_files_count_once(tab: &mut OrganizeTab, event: OrganizeEvent, u: ())
    requires
        tab.wf(),
        tab.moved < usize::MAX,
        call_ensures(OrganizeTab::on_event, (tab, event), u),
    ensures
        event is FileMoved ==> final(tab).moved == old(tab).moved + 1,
        !(event is FileMoved) ==> final(tab).moved == old(tab).moved,
        event is Finished ==> !final(tab).running,
        !(event is Finished) ==> final(tab).running == old(tab).running,
{
}

} // verus!
