//! The tab for what takes up space: files on one side, folders on the other.

use vstd::prelude::*;

use crate::dnd;
use crate::dnd::Dropped;
use crate::paths;
use crate::ui::big_folders_tab::BigFoldersTab;
use crate::ui::large_files_tab::LargeFilesTab;

verus! {

#[derive(Debug, Clone, Copy, PartialEq, Eq, Structural)]
pub enum BigMode {
    Files,
    Folders,
}

/// Both sides, and which is shown. Each has its own results; where to look is
/// taken along when the side changes.
#[derive(Debug)]
pub struct BigTab {
    pub mode: BigMode,
    pub files: LargeFilesTab,
    pub folders: BigFoldersTab,
}

impl Default for BigTab {
    fn default() -> (r: BigTab)
        ensures
            r.wf(),
            r.mode is Files,
            r.files.is_new(),
            r.folders.is_new(),
    {
        BigTab {
            mode: BigMode::Files,
            files: LargeFilesTab::default(),
            folders: BigFoldersTab::default(),
        }
    }
}

impl BigTab {
    pub open spec fn wf(self) -> bool {
        self.files.wf() && self.folders.wf()
    }

    pub fn is_running(&self) -> (r: bool)
        ensures
            r == (self.files.running || self.folders.running),
    {
        self.files.is_running() || self.folders.is_running()
    }

    /// Adds what was dropped to the side that is shown.
    pub fn add_dropped(&mut self, dropped: &Vec<Dropped>)
        requires
            old(self).wf(),
        ensures
            final(self).wf(),
            match old(self).mode {
                BigMode::Files => {
                    &&& paths::views(final(self).files.roots@) == dnd::with_folders(
                        paths::views(old(self).files.roots@),
                        dropped@,
                        dropped@.len() as int,
                    )
                    &&& *final(self) == (BigTab {
                        files: LargeFilesTab {
                            roots: final(self).files.roots,
                            ..old(self).files
                        },
                        ..*old(self)
                    })
                },
                BigMode::Folders => {
                    &&& paths::views(final(self).folders.roots@) == dnd::with_folders(
                        paths::views(old(self).folders.roots@),
                        dropped@,
                        dropped@.len() as int,
                    )
                    &&& *final(self) == (BigTab {
                        folders: BigFoldersTab {
                            roots: final(self).folders.roots,
                            ..old(self).folders
                        },
                        ..*old(self)
                    })
                },
            },
    {
        match self.mode {
            BigMode::Files => self.files.add_dropped(dropped),
            BigMode::Folders => self.folders.add_dropped(dropped),
        }
    }

    /// Shows the other side, unless a search is running: only the side that is
    /// shown follows its search.
    pub fn show(&mut self, mode: BigMode)
        requires
            old(self).wf(),
        ensures
            final(self).wf(),
            ({
                let stays = old(self).files.running || old(self).folders.running || mode
                    == old(self).mode;
                &&& stays ==> *final(self) == *old(self)
                &&& !stays ==> final(self).mode == mode
                &&& !stays && mode is Folders ==> {
                    &&& final(self).files == old(self).files
                    &&& paths::views(final(self).folders.roots@) == paths::views(
                        old(self).files.roots@,
                    )
                    &&& final(self).folders == (BigFoldersTab {
                        roots: final(self).folders.roots,
                        ..old(self).folders
                    })
                }
                &&& !stays && mode is Files ==> {
                    &&& final(self).folders == old(self).folders
                    &&& paths::views(final(self).files.roots@) == paths::views(
                        old(self).folders.roots@,
                    )
                    &&& final(self).files == (LargeFilesTab {
                        roots: final(self).files.roots,
                        ..old(self).files
                    })
                }
            }),
    {
        if self.is_running() || mode == self.mode {
            return;
        }
        self.mode = mode;
        match mode {
            BigMode::Folders => {
                self.folders.roots = paths::clone_paths(&self.files.roots);
            },
            BigMode::Files => {
                self.files.roots = paths::clone_paths(&self.folders.roots);
            },
        }
    }
}

/// The other side is shown with the same roots, and not while a search runs;
/// what either side has found stays.
pub proof fn law_roots_are_taken_along(tab: &mut BigTab, mode: BigMode, u: ())
    requires
        tab.wf(),
        call_ensures(BigTab::show, (tab, mode), u),
    ensures
        old(tab).files.running || old(tab).folders.running ==> final(tab).mode == old(tab).mode,
        !(old(tab).files.running || old(tab).folders.running) ==> final(tab).mode == mode,
        final(tab).mode is Folders && old(tab).mode is Files ==> paths::views(
            final(tab).folders.roots@,
        ) == paths::views(old(tab).files.roots@),
        final(tab).mode is Files && old(tab).mode is Folders ==> paths::views(
            final(tab).files.roots@,
        ) == paths::views(old(tab).folders.roots@),
        final(tab).files.results == old(tab).files.results,
        final(tab).folders.results == old(tab).folders.results,
{
}

} // verus!
