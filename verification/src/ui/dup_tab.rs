//! The tab that finds duplicates.

use vstd::prelude::*;

use crate::dnd;
use crate::dnd::Dropped;
use crate::duplicates::{DupEvent, DupOptions, DuplicateGroup};
use crate::paths;
use crate::paths::{FilePath, PathView};
use crate::text;
use crate::ui;
use crate::ui::selection;
use crate::ui::selection::Selection;
use crate::ui::Notice;
use crate::util;
use crate::util::Log;

verus! {

/// What the tab remembers.
#[derive(Debug)]
pub struct DupTab {
    pub roots: Vec<FilePath>,
    pub running: bool,
    pub files_found: usize,
    pub hashing_done: usize,
    pub hashing_total: usize,
    pub groups: Vec<DuplicateGroup>,
    pub wasted_bytes: u64,
    pub selected: Selection,
    pub log: Log,
}

impl Default for DupTab {
    fn default() -> (r: DupTab)
        ensures
            r.wf(),
            r.roots@.len() == 0,
            !r.running,
            r.files_found == 0,
            r.hashing_done == 0,
            r.hashing_total == 0,
            r.groups@.len() == 0,
            r.wasted_bytes == 0,
            r.selected@.len() == 0,
            r.log@.len() == 0,
            r.log.cap() == 200,
    {
        DupTab {
            roots: Vec::new(),
            running: false,
            files_found: 0,
            hashing_done: 0,
            hashing_total: 0,
            groups: Vec::new(),
            wasted_bytes: 0,
            selected: Selection::new(),
            log: Log::default(),
        }
    }
}

/// A group, as characters.
#[verifier::ext_equal]
pub ghost struct GroupView {
    pub hash: Seq<char>,
    pub size: u64,
    pub paths: Seq<PathView>,
}

pub open spec fn group_view(g: DuplicateGroup) -> GroupView {
    GroupView { hash: g.hash@, size: g.size, paths: paths::views(g.paths@) }
}

pub open spec fn group_views(v: Seq<DuplicateGroup>) -> Seq<GroupView> {
    v.map_values(|g: DuplicateGroup| group_view(g))
}

/// What all files but one of a group take up, modulo 2^64.
pub open spec fn waste(size: u64, files: usize) -> u64 {
    size.wrapping_mul((files as u64).wrapping_sub(1))
}

fn wasted(size: u64, files: usize) -> (r: u64)
    ensures
        r == waste(size, files),
{
    size.wrapping_mul((files as u64).wrapping_sub(1))
}

/// What is left of the first `n` groups when some files are gone: groups that
/// still have several files.
pub open spec fn left_over(groups: Seq<GroupView>, gone: Seq<PathView>, n: int) -> Seq<GroupView>
    decreases n,
{
    if n <= 0 {
        Seq::empty()
    } else {
        let paths = selection::without(groups[n - 1].paths, gone);
        if paths.len() > 1 {
            left_over(groups, gone, n - 1).push(GroupView { paths, ..groups[n - 1] })
        } else {
            left_over(groups, gone, n - 1)
        }
    }
}

/// All files of the first `n` groups but the first of each.
pub open spec fn all_but_first(groups: Seq<GroupView>, n: int) -> Seq<PathView>
    decreases n,
{
    if n <= 0 {
        Seq::empty()
    } else {
        let paths = groups[n - 1].paths;
        all_but_first(groups, n - 1) + (if paths.len() > 0 {
            paths.drop_first()
        } else {
            paths
        })
    }
}

/// Whether no file is in two places of the groups.
pub open spec fn all_apart(groups: Seq<GroupView>) -> bool {
    forall|g: int, i: int, h: int, j: int|
        0 <= g < groups.len() && 0 <= h < groups.len() && 0 <= i < groups[g].paths.len() && 0 <= j
            < groups[h].paths.len() && (g != h || i != j) ==> #[trigger] groups[g].paths[i]
            != #[trigger] groups[h].paths[j]
}

proof fn lemma_all_but_first(groups: Seq<GroupView>, n: int, g: int, i: int)
    requires
        all_apart(groups),
        0 <= n <= groups.len(),
        0 <= g < groups.len(),
        0 <= i < groups[g].paths.len(),
    ensures
        all_but_first(groups, n).contains(groups[g].paths[i]) == (g < n && i > 0),
    decreases n,
{
    if n > 0 {
        lemma_all_but_first(groups, n - 1, g, i);
        let p = groups[g].paths[i];
        let before = all_but_first(groups, n - 1);
        let all = groups[n - 1].paths;
        let more = if all.len() > 0 {
            all.drop_first()
        } else {
            all
        };
        let after = before + more;
        if before.contains(p) {
            let x = choose|x: int| 0 <= x < before.len() && before[x] == p;
            assert(after[x] == p);
        }
        if g == n - 1 && i > 0 {
            assert(more[i - 1] == p);
            assert(after[before.len() + i - 1] == p);
        }
        if after.contains(p) {
            let x = choose|x: int| 0 <= x < after.len() && after[x] == p;
            if x < before.len() {
                assert(before[x] == p);
            } else {
                let j = x - before.len() + 1;
                assert(all[j] == p);
                assert(groups[n - 1].paths[j] == groups[g].paths[i]);
            }
        }
    }
}

/// Ticking all but the first of each group leaves exactly one file of each
/// group unticked.
pub proof fn law_one_file_of_each_group_stays(groups: Seq<GroupView>, g: int, i: int)
    requires
        all_apart(groups),
        0 <= g < groups.len(),
        0 <= i < groups[g].paths.len(),
    ensures
        ({
            let others = all_but_first(groups, groups.len() as int);
            selection::with_all(Seq::empty(), others, others.len() as int).contains(
                groups[g].paths[i],
            ) == (i > 0)
        }),
{
    let others = all_but_first(groups, groups.len() as int);
    lemma_all_but_first(groups, groups.len() as int, g, i);
    selection::lemma_with_all(
        Seq::empty(),
        others,
        others.len() as int,
        groups[g].paths[i],
    );
    assert(others.take(others.len() as int) =~= others);
}

/// The files that are not ticked.
fn unticked(list: &Vec<FilePath>, selected: &Selection) -> (r: Vec<FilePath>)
    requires
        selected.wf(),
    ensures
        paths::views(r@) == selection::without(paths::views(list@), selected@),
{
    let ghost all = paths::views(list@);
    let ghost keep = |p: PathView| !selected@.contains(p);
    let mut r: Vec<FilePath> = Vec::new();
    proof {
        reveal(Seq::filter);
        assert(all.take(0) =~= Seq::<PathView>::empty());
        assert(paths::views(r@) =~= Seq::<PathView>::empty());
    }
    let mut i: usize = 0;
    while i < list.len()
        invariant
            i <= list@.len(),
            all == paths::views(list@),
            selected.wf(),
            keep == (|p: PathView| !selected@.contains(p)),
            paths::views(r@) == all.take(i as int).filter(keep),
        decreases list@.len() - i,
    {
        proof {
            reveal(Seq::filter);
            assert(all.take(i + 1).drop_last() =~= all.take(i as int));
            assert(all.take(i + 1).last() == list@[i as int]@);
        }
        if !selected.contains(&list[i]) {
            let p = list[i].clone();
            proof {
                paths::paths_push(r@, p);
            }
            r.push(p);
        }
        i = i + 1;
    }
    proof {
        assert(all.take(i as int) =~= all);
    }
    r
}

impl DupTab {
    pub open spec fn wf(self) -> bool {
        self.selected.wf() && self.log.wf()
    }

    pub fn is_running(&self) -> (r: bool)
        ensures
            r == self.running,
    {
        self.running
    }

    pub fn add_dropped(&mut self, dropped: &Vec<Dropped>)
        requires
            old(self).wf(),
        ensures
            final(self).wf(),
            *final(self) == (DupTab { roots: final(self).roots, ..*old(self) }),
            paths::views(final(self).roots@) == dnd::with_folders(
                paths::views(old(self).roots@),
                dropped@,
                dropped@.len() as int,
            ),
    {
        dnd::add_folders(&mut self.roots, dropped);
    }

    /// The search tells about its progress. `elapsed` is how long it has taken.
    pub fn on_event(&mut self, event: DupEvent, elapsed: &str) -> (notice: Option<Notice>)
        requires
            old(self).wf(),
        ensures
            final(self).wf(),
            match event {
                DupEvent::Scanning { files_found } => {
                    &&& *final(self) == (DupTab { files_found, ..*old(self) })
                    &&& notice is None
                },
                DupEvent::Hashing { done, total } => {
                    &&& *final(self) == (DupTab {
                        hashing_done: done,
                        hashing_total: total,
                        ..*old(self)
                    })
                    &&& notice is None
                },
                DupEvent::GroupFound(group) => {
                    &&& final(self).groups@ == old(self).groups@.push(group)
                    &&& *final(self) == (DupTab {
                        groups: final(self).groups,
                        wasted_bytes: old(self).wasted_bytes.wrapping_add(
                            waste(group.size, group.paths@.len() as usize),
                        ),
                        ..*old(self)
                    })
                    &&& notice is None
                },
                DupEvent::Finished { groups, wasted_bytes } => {
                    &&& ui::wrote(
                        old(self).log,
                        final(self).log,
                        "Found "@ + text::dec(groups as nat) + " duplicate group(s), wasting "@
                            + util::readable(wasted_bytes) + " — "@ + elapsed@,
                    )
                    &&& *final(self) == (DupTab {
                        running: false,
                        wasted_bytes,
                        log: final(self).log,
                        ..*old(self)
                    })
                    &&& notice is Some
                    &&& notice->0.says(
                        "Duplicate scan finished"@,
                        text::dec(groups as nat) + " group(s) found, "@ + util::readable(
                            wasted_bytes,
                        ) + " wasted"@,
                    )
                },
                DupEvent::Cancelled => {
                    &&& ui::wrote(old(self).log, final(self).log, "Cancelled."@)
                    &&& *final(self) == (DupTab {
                        running: false,
                        log: final(self).log,
                        ..*old(self)
                    })
                    &&& notice is None
                },
            },
    {
        match event {
            DupEvent::Scanning { files_found } => {
                self.files_found = files_found;
                None
            },
            DupEvent::Hashing { done, total } => {
                self.hashing_done = done;
                self.hashing_total = total;
                None
            },
            DupEvent::GroupFound(group) => {
                let more: u64 = wasted(group.size, group.paths.len());
                self.wasted_bytes = self.wasted_bytes.wrapping_add(more);
                self.groups.push(group);
                None
            },
            DupEvent::Finished { groups, wasted_bytes } => {
                self.wasted_bytes = wasted_bytes;
                let size = util::human_bytes(wasted_bytes);
                let mut line = "Found ".to_owned();
                line.append(text::decimal(groups as u64).as_str());
                line.append(" duplicate group(s), wasting ");
                line.append(size.as_str());
                line.append(" — ");
                line.append(elapsed);
                self.log.push(line);
                self.running = false;
                let mut body = ui::counted(groups, " group(s) found, ");
                body.append(size.as_str());
                body.append(" wasted");
                Some(Notice { summary: "Duplicate scan finished".to_owned(), body })
            },
            DupEvent::Cancelled => {
                self.log.push("Cancelled.".to_owned());
                self.running = false;
                None
            },
        }
    }

    /// Whether a search with these roots was started, or refused for want of
    /// any.
    pub open spec fn starts(
        self,
        after: DupTab,
        roots: Seq<PathView>,
        min_size: u64,
        r: Option<(Vec<FilePath>, DupOptions)>,
    ) -> bool {
        if roots.len() == 0 {
            &&& r is None
            &&& ui::wrote(self.log, after.log, "Add at least one folder to scan first."@)
            &&& after == (DupTab { roots: after.roots, log: after.log, ..self })
        } else {
            &&& r matches Some((where_to, options))
            &&& paths::views(where_to@) == roots
            &&& options.min_size == min_size
            &&& after.groups@.len() == 0
            &&& after.selected@.len() == 0
            &&& ui::emptied(self.log, after.log)
            &&& after == (DupTab {
                roots: after.roots,
                groups: after.groups,
                selected: after.selected,
                wasted_bytes: 0,
                files_found: 0,
                hashing_done: 0,
                hashing_total: 0,
                running: true,
                log: after.log,
                ..self
            })
        }
    }

    /// Starts a search among files of at least `min_size` bytes: where, and for
    /// what.
    pub fn start(&mut self, min_size: u64) -> (r: Option<(Vec<FilePath>, DupOptions)>)
        requires
            old(self).wf(),
        ensures
            final(self).wf(),
            final(self).roots == old(self).roots,
            old(self).starts(*final(self), paths::views(old(self).roots@), min_size, r),
    {
        if self.roots.len() == 0 {
            self.log.push("Add at least one folder to scan first.".to_owned());
            return None;
        }
        self.groups.clear();
        self.selected.clear();
        self.wasted_bytes = 0;
        self.files_found = 0;
        self.hashing_done = 0;
        self.hashing_total = 0;
        self.log.clear();
        self.running = true;
        Some((paths::clone_paths(&self.roots), DupOptions { min_size }))
    }

    /// Starts a search of all drives.
    pub fn scan_entire_disk(&mut self, drives: Vec<FilePath>, min_size: u64) -> (r: Option<
        (Vec<FilePath>, DupOptions),
    >)
        requires
            old(self).wf(),
        ensures
            final(self).wf(),
            final(self).roots@ == drives@,
            old(self).starts(*final(self), paths::views(drives@), min_size, r),
    {
        self.roots = drives;
        self.start(min_size)
    }

    /// Ticks all files but the first of each group.
    pub fn select_all_but_first(&mut self)
        requires
            old(self).wf(),
        ensures
            final(self).wf(),
            ({
                let groups = group_views(old(self).groups@);
                let others = all_but_first(groups, groups.len() as int);
                final(self).selected@ == selection::with_all(
                    Seq::empty(),
                    others,
                    others.len() as int,
                )
            }),
            *final(self) == (DupTab { selected: final(self).selected, ..*old(self) }),
    {
        let ghost groups = group_views(self.groups@);
        let mut others: Vec<FilePath> = Vec::new();
        proof {
            assert(paths::views(others@) =~= Seq::<PathView>::empty());
        }
        let mut g: usize = 0;
        while g < self.groups.len()
            invariant
                g <= self.groups@.len(),
                groups == group_views(self.groups@),
                paths::views(others@) == all_but_first(groups, g as int),
            decreases self.groups@.len() - g,
        {
            let list = &self.groups[g].paths;
            let ghost all = paths::views(list@);
            let ghost before = paths::views(others@);
            proof {
                assert(groups[g as int].paths == all);
                assert(before + all.subrange(0, 0) =~= before);
            }
            let mut i: usize = 1;
            while i < list.len()
                invariant
                    all == paths::views(list@),
                    list@.len() > 0 ==> 1 <= i <= list@.len(),
                    list@.len() == 0 ==> i == 1,
                    paths::views(others@) == before + (if list@.len() > 0 {
                        all.subrange(1, i as int)
                    } else {
                        all
                    }),
                decreases list@.len() - i,
            {
                let p = list[i].clone();
                proof {
                    paths::paths_push(others@, p);
                    assert(all.subrange(1, i + 1) =~= all.subrange(1, i as int).push(p@));
                }
                others.push(p);
                i = i + 1;
            }
            proof {
                if all.len() > 0 {
                    assert(all.drop_first() =~= all.subrange(1, all.len() as int));
                }
            }
            g = g + 1;
        }
        self.selected.clear();
        self.selected.add(&others);
    }

    /// What to send to the trash, if something is ticked.
    pub fn delete_selected(&self) -> (r: Option<Vec<FilePath>>)
        ensures
            self.selected@.len() == 0 ==> r is None,
            self.selected@.len() > 0 ==> r is Some && paths::views(r->0@) == self.selected@,
    {
        if self.selected.is_empty() {
            return None;
        }
        Some(self.selected.paths())
    }

    /// The trash has answered. Groups that have lost all but one file go.
    pub fn on_deleted(&mut self, result: Result<(), String>)
        requires
            old(self).wf(),
        ensures
            final(self).wf(),
            match result {
                Ok(_) => {
                    &&& ui::wrote(
                        old(self).log,
                        final(self).log,
                        "Moved "@ + text::dec(old(self).selected@.len()) + " file(s) to trash."@,
                    )
                    &&& group_views(final(self).groups@) == left_over(
                        group_views(old(self).groups@),
                        old(self).selected@,
                        old(self).groups@.len() as int,
                    )
                    &&& final(self).selected@ == Seq::<PathView>::empty()
                    &&& *final(self) == (DupTab {
                        groups: final(self).groups,
                        selected: final(self).selected,
                        log: final(self).log,
                        ..*old(self)
                    })
                },
                Err(e) => {
                    &&& ui::wrote(old(self).log, final(self).log, "Delete failed: "@ + e@)
                    &&& *final(self) == (DupTab { log: final(self).log, ..*old(self) })
                },
            },
    {
        match result {
            Ok(_) => {
                let mut line = "Moved ".to_owned();
                line.append(text::decimal(self.selected.len() as u64).as_str());
                line.append(" file(s) to trash.");
                self.log.push(line);
                let ghost all = group_views(self.groups@);
                let mut left: Vec<DuplicateGroup> = Vec::new();
                proof {
                    assert(group_views(left@) =~= Seq::<GroupView>::empty());
                }
                let mut g: usize = 0;
                while g < self.groups.len()
                    invariant
                        g <= self.groups@.len(),
                        all == group_views(self.groups@),
                        self.selected.wf(),
                        group_views(left@) == left_over(all, self.selected@, g as int),
                    decreases self.groups@.len() - g,
                {
                    let group = &self.groups[g];
                    let rest = unticked(&group.paths, &self.selected);
                    let ghost before = left@;
                    proof {
                        assert(all[g as int] == group_view(*group));
                    }
                    if rest.len() > 1 {
                        let kept = DuplicateGroup {
                            hash: group.hash.clone(),
                            size: group.size,
                            paths: rest,
                        };
                        left.push(kept);
                        proof {
                            assert(group_views(left@) =~= group_views(before).push(
                                group_view(kept),
                            ));
                        }
                    }
                    g = g + 1;
                }
                self.groups = left;
                self.selected.clear();
            },
            Err(e) => {
                let mut line = "Delete failed: ".to_owned();
                line.append(e.as_str());
                self.log.push(line);
            },
        }
    }

    pub fn progress_label(&self, elapsed: &str) -> (r: String)
        ensures
            r@ == "Scanning… "@ + text::dec(self.files_found as nat) + " files found — "@ + elapsed@
                + " elapsed"@,
    {
        let mut r = "Scanning… ".to_owned();
        r.append(text::decimal(self.files_found as u64).as_str());
        r.append(" files found — ");
        r.append(elapsed);
        r.append(" elapsed");
        r
    }

    pub fn results_label(&self) -> (r: String)
        ensures
            r@ == text::dec(self.groups@.len()) + " duplicate group(s) — "@ + text::dec(
                self.selected@.len(),
            ) + " selected — "@ + util::readable(self.wasted_bytes) + " wasted"@,
    {
        let mut r = ui::counted(self.groups.len(), " duplicate group(s) — ");
        r.append(text::decimal(self.selected.len() as u64).as_str());
        r.append(" selected — ");
        r.append(util::human_bytes(self.wasted_bytes).as_str());
        r.append(" wasted");
        r
    }

    /// The heading of a group.
    pub fn group_label(&self, g: usize) -> (r: String)
        requires
            g < self.groups.len(),
        ensures
            ({
                let group = self.groups@[g as int];
                r@ == "Group "@ + text::dec((g + 1) as nat) + " — "@ + text::dec(
                    group.paths@.len(),
                ) + " × "@ + util::readable(group.size) + " ("@ + util::readable(
                    waste(group.size, group.paths@.len() as usize),
                ) + " wasted)"@
            }),
    {
        let group = &self.groups[g];
        let count: usize = group.paths.len();
        let mut r = "Group ".to_owned();
        r.append(text::decimal(g as u64 + 1).as_str());
        r.append(" — ");
        r.append(text::decimal(count as u64).as_str());
        r.append(" × ");
        r.append(util::human_bytes(group.size).as_str());
        r.append(" (");
        r.append(util::human_bytes(wasted(group.size, count)).as_str());
        r.append(" wasted)");
        r
    }

    /// The line for a folder that could not be opened.
    pub fn reveal_failed(&mut self, message: &str)
        requires
            old(self).wf(),
        ensures
            final(self).wf(),
            ui::wrote(old(self).log, final(self).log, "Couldn't open folder: "@ + message@),
            *final(self) == (DupTab { log: final(self).log, ..*old(self) }),
    {
        let mut line = "Couldn't open folder: ".to_owned();
        line.append(message);
        self.log.push(line);
    }
}

/// Ticking the copies leaves the first file of each group and ticks every other
/// one.
pub proof fn law_first_files_are_not_ticked(tab: &mut DupTab, u: (), g: int, i: int)
    requires
        tab.wf(),
        all_apart(group_views(tab.groups@)),
        0 <= g < tab.groups@.len(),
        0 <= i < tab.groups@[g].paths@.len(),
        call_ensures(DupTab::select_all_but_first, (tab,), u),
    ensures
        final(tab).selected@.contains(old(tab).groups@[g].paths@[i]@) <==> i > 0,
        final(tab).groups == old(tab).groups,
{
    let v = group_views(tab.groups@);
    assert(v.len() == tab.groups@.len());
    assert(v[g] == group_view(tab.groups@[g]));
    assert(v[g].paths[i] == tab.groups@[g].paths@[i]@);
    law_one_file_of_each_group_stays(v, g, i);
}

/// What is sent to the trash is what is ticked.
pub proof fn law_ticked_files_go_to_the_trash(tab: &DupTab, r: Option<Vec<FilePath>>, p: PathView)
    requires
        call_ensures(DupTab::delete_selected, (tab,), r),
    ensures
        r is Some ==> (paths::views(r->0@).contains(p) <==> tab.selected@.contains(p)),
        r is None ==> !tab.selected@.contains(p),
{
}

proof fn lemma_left_over(groups: Seq<GroupView>, gone: Seq<PathView>, n: int)
    requires
        0 <= n <= groups.len(),
    ensures
        left_over(groups, gone, n).len() <= n,
        forall|k: int|
            0 <= k < left_over(groups, gone, n).len() ==> (#[trigger] left_over(
                groups,
                gone,
                n,
            )[k]).paths.len() > 1 && exists|g: int|
                0 <= g < n && (#[trigger] groups[g]).hash == left_over(groups, gone, n)[k].hash
                    && groups[g].size == left_over(groups, gone, n)[k].size
                    && selection::without(groups[g].paths, gone) == left_over(
                    groups,
                    gone,
                    n,
                )[k].paths,
    decreases n,
{
    if n > 0 {
        lemma_left_over(groups, gone, n - 1);
        let before = left_over(groups, gone, n - 1);
        let all = left_over(groups, gone, n);
        assert forall|k: int| 0 <= k < all.len() implies (#[trigger] all[k]).paths.len() > 1
            && exists|g: int|
            0 <= g < n && (#[trigger] groups[g]).hash == all[k].hash && groups[g].size
                == all[k].size && selection::without(groups[g].paths, gone) == all[k].paths by {
            if k < before.len() {
                assert(all[k] == before[k]);
                let g = choose|g: int|
                    0 <= g < n - 1 && (#[trigger] groups[g]).hash == before[k].hash
                        && groups[g].size == before[k].size && selection::without(
                        groups[g].paths,
                        gone,
                    ) == before[k].paths;
                assert(groups[g].hash == all[k].hash);
            } else {
                assert(groups[n - 1].hash == all[k].hash);
            }
        }
    }
}

/// After files went to the trash, a group that is still shown has several files,
/// none of which is gone.
pub proof fn law_groups_keep_what_is_left(
    tab: &mut DupTab,
    result: Result<(), String>,
    u: (),
    k: int,
    i: int,
)
    requires
        tab.wf(),
        call_ensures(DupTab::on_deleted, (tab, result), u),
        0 <= k < final(tab).groups@.len(),
        0 <= i < final(tab).groups@[k].paths@.len(),
    ensures
        result is Ok ==> {
            &&& final(tab).groups@[k].paths@.len() > 1
            &&& !old(tab).selected@.contains(final(tab).groups@[k].paths@[i]@)
            &&& final(tab).selected@.len() == 0
        },
        result is Err ==> final(tab).groups == old(tab).groups && final(tab).selected == old(tab).selected,
{
    if result is Ok {
        let v = group_views(tab.groups@);
        let w = group_views(final(tab).groups@);
        assert(v.len() == tab.groups@.len() && w.len() == final(tab).groups@.len());
        lemma_left_over(v, tab.selected@, v.len() as int);
        let group = final(tab).groups@[k];
        assert(w[k] == group_view(group));
        let ps = w[k].paths;
        assert(ps.len() == group.paths@.len());
        assert(ps[i] == group.paths@[i]@);
        let g = choose|g: int|
            0 <= g < v.len() && (#[trigger] v[g]).hash == w[k].hash && v[g].size == w[k].size
                && selection::without(v[g].paths, tab.selected@) == w[k].paths;
        selection::law_without(v[g].paths, tab.selected@, ps[i]);
        assert(ps.contains(ps[i]));
    }
}

/// A search looks where it was told to and for files of at least the size that
/// was asked for, and starts with nothing found and nothing ticked.
pub proof fn law_search_for_copies_as_asked(
    tab: &mut DupTab,
    min_size: u64,
    r: Option<(Vec<FilePath>, DupOptions)>,
)
    requires
        tab.wf(),
        call_ensures(DupTab::start, (tab, min_size), r),
    ensures
        r is Some <==> old(tab).roots@.len() > 0,
        r matches Some((places, options)) ==> {
            &&& paths::views(places@) == paths::views(old(tab).roots@)
            &&& options.min_size == min_size
            &&& final(tab).running
            &&& final(tab).groups@.len() == 0
            &&& final(tab).selected@.len() == 0
            &&& final(tab).wasted_bytes == 0
        },
        r is None ==> final(tab).running == old(tab).running && final(tab).groups == old(tab).groups,
{
    assert(paths::views(tab.roots@).len() == tab.roots@.len());
}

/// What is found is shown, and what all but one of its files take up counts.
pub proof fn law_found_groups_are_shown(
    tab: &mut DupTab,
    group: DuplicateGroup,
    elapsed: &str,
    notice: Option<Notice>,
)
    requires
        tab.wf(),
        group.paths@.len() > 0,
        group.size * (group.paths@.len() - 1) + tab.wasted_bytes <= u64::MAX,
        call_ensures(DupTab::on_event, (tab, DupEvent::GroupFound(group), elapsed), notice),
    ensures
        final(tab).groups@ == old(tab).groups@.push(group),
        final(tab).wasted_bytes == old(tab).wasted_bytes + group.size * (group.paths@.len() - 1),
        final(tab).running == old(tab).running,
{
    assert(group.paths.len() <= usize::MAX);
    let n = group.paths@.len();
    assert(n as usize == n);
    assert(group.size * (n - 1) <= u64::MAX);
    assert((n as usize as u64).wrapping_sub(1) == n - 1);
}

/// A folder that is dropped is looked in from then on, beside those that were.
pub proof fn law_dropped_folders_are_roots(tab: &mut DupTab, dropped: &Vec<Dropped>, u: (), i: int, k: int)
    requires
        tab.wf(),
        0 <= i < dropped@.len(),
        dropped@[i].is_dir,
        call_ensures(DupTab::add_dropped, (tab, dropped), u),
    ensures
        paths::views(final(tab).roots@).contains(dropped@[i].path@),
        0 <= k < old(tab).roots@.len() ==> k < final(tab).roots@.len() && final(tab).roots@[k]@
            == old(tab).roots@[k]@,
        final(tab).selected == old(tab).selected,
        final(tab).running == old(tab).running,
{
    let a = paths::views(tab.roots@);
    let b = paths::views(final(tab).roots@);
    dnd::lemma_with_folders(a, dropped@, dropped@.len() as int);
    assert(a.len() == tab.roots@.len() && b.len() == final(tab).roots@.len());
    assert(dnd::folder_of(dropped@[i].path@, dropped@[i].is_dir) == Some(dropped@[i].path@));
    if 0 <= k < tab.roots@.len() {
        assert(b[k] == a[k]);
        assert(a[k] == tab.roots@[k]@);
        assert(b[k] == final(tab).roots@[k]@);
    }
}

/// The heading of a group shows its number, how many files it has and how large
/// each is.
pub proof fn law_groups_are_headed(tab: &DupTab, g: usize, size: String, r: String)
    requires
        g < tab.groups@.len(),
        call_ensures(util::human_bytes, (tab.groups@[g as int].size,), size),
        call_ensures(DupTab::group_label, (tab, g), r),
    ensures
        ({
            let start = "Group "@ + text::dec((g + 1) as nat) + " — "@ + text::dec(
                tab.groups@[g as int].paths@.len(),
            ) + " × "@ + size@;
            r@.len() > start.len() && r@.take(start.len() as int) == start
        }),
{
    reveal_strlit(" wasted)");
    let start = "Group "@ + text::dec((g + 1) as nat) + " — "@ + text::dec(
        tab.groups@[g as int].paths@.len(),
    ) + " × "@ + size@;
    assert(r@.take(start.len() as int) =~= start);
}

} // verus!
