//! Space on drives.

use vstd::prelude::*;

use crate::paths::{FilePath, PathView};

verus! {

#[derive(Debug, Clone, Copy, PartialEq, Eq, Structural)]
pub struct DiskSpace {
    pub total: u64,
    pub free: u64,
}

impl DiskSpace {
    /// The space in use; none when more is free than there is.
    pub fn used(&self) -> (r: u64)
        ensures
            r == (if self.total >= self.free {
                self.total - self.free
            } else {
                0
            }),
    {
        self.total.saturating_sub(self.free)
    }
}

/// A drive and the space on it, as far as it is known.
#[derive(Debug, PartialEq, Eq)]
pub struct DriveUsage {
    pub path: FilePath,
    pub space: Option<DiskSpace>,
}

pub open spec fn usage_views(v: Seq<DriveUsage>) -> Seq<(PathView, Option<DiskSpace>)> {
    v.map_values(|d: DriveUsage| (d.path@, d.space))
}

/// Puts each drive together with the space that was found on it.
pub fn drive_usage(drives: &Vec<FilePath>, spaces: &Vec<Option<DiskSpace>>) -> (r: Vec<DriveUsage>)
    requires
        drives@.len() == spaces@.len(),
    ensures
        usage_views(r@) == Seq::new(
            drives@.len(),
            |i: int| (drives@[i]@, spaces@[i]),
        ),
{
    let mut r: Vec<DriveUsage> = Vec::new();
    let mut i: usize = 0;
    while i < drives.len()
        invariant
            i <= drives@.len(),
            drives@.len() == spaces@.len(),
            r@.len() == i,
            forall|j: int|
                0 <= j < i ==> (#[trigger] r@[j]).path@ == drives@[j]@ && r@[j].space == spaces@[j],
        decreases drives@.len() - i,
    {
        r.push(DriveUsage { path: drives[i].clone(), space: spaces[i] });
        i = i + 1;
    }
    proof {
        assert(usage_views(r@) =~= Seq::new(drives@.len(), |i: int| (drives@[i]@, spaces@[i])));
    }
    r
}

/// The space on a volume that is counted in blocks, modulo 2^64.
pub fn disk_space(blocks: u64, available: u64, block_size: u64) -> (r: DiskSpace)
    ensures
        r.total == blocks.wrapping_mul(block_size),
        r.free == available.wrapping_mul(block_size),
{
    DiskSpace {
        total: blocks.wrapping_mul(block_size),
        free: available.wrapping_mul(block_size),
    }
}

/// What is used and what is free add up to what there is.
pub proof fn law_used_and_free_add_up(space: &DiskSpace, used: u64)
    requires
        call_ensures(DiskSpace::used, (space,), used),
    ensures
        space.free <= space.total ==> used + space.free == space.total,
        space.free > space.total ==> used == 0,
{
}

/// Blocks are counted with their size: the total is that of all blocks, and
/// the free space that of those available.
pub proof fn law_blocks_have_their_size(
    blocks: u64,
    available: u64,
    block_size: u64,
    r: DiskSpace,
)
    requires
        call_ensures(disk_space, (blocks, available, block_size), r),
        blocks * block_size <= u64::MAX,
        available * block_size <= u64::MAX,
    ensures
        r.total == blocks * block_size,
        r.free == available * block_size,
{
}

/// Every drive is listed once, in order, with the space that was found on it.
pub proof fn law_each_drive_has_its_space(
    drives: &Vec<FilePath>,
    spaces: &Vec<Option<DiskSpace>>,
    r: Vec<DriveUsage>,
)
    requires
        drives@.len() == spaces@.len(),
        call_ensures(drive_usage, (drives, spaces), r),
    ensures
        r@.len() == drives@.len(),
        forall|i: int|
            0 <= i < r@.len() ==> (#[trigger] r@[i]).path@ == drives@[i]@ && r@[i].space == spaces@[i],
{
    let v = usage_views(r@);
    assert(v.len() == r@.len());
    assert forall|i: int| 0 <= i < r@.len() implies (#[trigger] r@[i]).path@ == drives@[i]@
        && r@[i].space == spaces@[i] by {
        assert(v[i] == (r@[i].path@, r@[i].space));
        assert(v[i] == (drives@[i]@, spaces@[i]));
    }
}

} // verus!
