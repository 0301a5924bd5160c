//! The tab that shows how full the drives are.

use vstd::prelude::*;

use crate::diskusage;
use crate::diskusage::{DiskSpace, DriveUsage};
use crate::paths::FilePath;
use crate::util;

verus! {

/// What the tab remembers.
#[derive(Debug)]
pub struct DiskUsageTab {
    pub drives: Vec<DriveUsage>,
}

impl Default for DiskUsageTab {
    fn default() -> (r: DiskUsageTab)
        ensures
            r.drives@.len() == 0,
    {
        DiskUsageTab { drives: Vec::new() }
    }
}

impl DiskUsageTab {
    /// Takes note of the drives and of the space found on each.
    pub fn refresh(&mut self, drives: &Vec<FilePath>, spaces: &Vec<Option<DiskSpace>>)
        requires
            drives@.len() == spaces@.len(),
        ensures
            diskusage::usage_views(final(self).drives@) == Seq::new(
                drives@.len(),
                |i: int| (drives@[i]@, spaces@[i]),
            ),
    {
        self.drives = diskusage::drive_usage(drives, spaces);
    }
}

/// How much of a drive is in use; `percent` is that as a share.
pub fn used_label(space: &DiskSpace, percent: &str) -> (r: String)
    ensures
        r@ == util::readable(
            if space.total >= space.free {
                (space.total - space.free) as u64
            } else {
                0
            },
        ) + " used of "@ + util::readable(space.total) + " ("@ + percent@ + "%)"@,
{
    let mut r = util::human_bytes(space.used());
    r.append(" used of ");
    r.append(util::human_bytes(space.total).as_str());
    r.append(" (");
    r.append(percent);
    r.append("%)");
    r
}

pub fn free_label(space: &DiskSpace) -> (r: String)
    ensures
        r@ == util::readable(space.free) + " free"@,
{
    let mut r = util::human_bytes(space.free);
    r.append(" free");
    r
}

/// Every drive is shown once, in order, with the space that was found on it.
pub proof fn law_drives_are_shown_with_their_space(
    tab: &mut DiskUsageTab,
    drives: &Vec<FilePath>,
    spaces: &Vec<Option<DiskSpace>>,
    u: (),
    i: int,
)
    requires
        drives@.len() == spaces@.len(),
        0 <= i < drives@.len(),
        call_ensures(DiskUsageTab::refresh, (tab, drives, spaces), u),
    ensures
        final(tab).drives@.len() == drives@.len(),
        final(tab).drives@[i].path@ == drives@[i]@,
        final(tab).drives@[i].space == spaces@[i],
{
    let v = diskusage::usage_views(final(tab).drives@);
    assert(v.len() == final(tab).drives@.len());
    assert(v[i] == (final(tab).drives@[i].path@, final(tab).drives@[i].space));
    assert(v[i] == (drives@[i]@, spaces@[i]));
}

/// What is shown of a drive is what is used of it and what there is, and what is
/// free.
pub proof fn law_space_is_shown(
    space: &DiskSpace,
    percent: &str,
    used: u64,
    used_text: String,
    total_text: String,
    free_text: String,
    a: String,
    b: String,
)
    requires
        call_ensures(DiskSpace::used, (space,), used),
        call_ensures(util::human_bytes, (used,), used_text),
        call_ensures(util::human_bytes, (space.total,), total_text),
        call_ensures(util::human_bytes, (space.free,), free_text),
        call_ensures(used_label, (space, percent), a),
        call_ensures(free_label, (space,), b),
    ensures
        a@ == used_text@ + " used of "@ + total_text@ + " ("@ + percent@ + "%)"@,
        b@ == free_text@ + " free"@,
{
}

} // verus!
