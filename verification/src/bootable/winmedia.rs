//! Drives for installing Windows: the device is formatted as FAT32 and the
//! files of the ISO are copied onto it. A file that FAT32 cannot hold is split
//! when it is a WIM image.

use vstd::prelude::*;

use crate::bootable::tools;
use crate::bootable::tools::{CommandView, ToolCommand};
use crate::bootable::write::Throttle;
use crate::bootable::{Device, Event, EventView};
use crate::json::{Json, JsonView};
use crate::paths;
use crate::paths::{FilePath, PathView};
use crate::text;
use crate::{EngineError, EngineResult, ErrorView};

verus! {

/// The largest file that FAT32 can hold: 4 GiB minus one byte.
pub const FAT32_MAX_FILE: u64 = 4_294_967_295;

/// What happens to a file of the ISO.
#[derive(Debug, Clone, Copy, PartialEq, Eq, Structural)]
pub enum CopyAction {
    Copy,
    /// A WIM image too large for FAT32: split instead of copied.
    SplitWim,
}

/// Whether a path names a WIM image, by its extension in whatever case.
pub open spec fn is_wim(rel: PathView) -> bool {
    match rel.file_name() {
        Some(name) => match paths::extension(name) {
            Some(ext) => text::same_ignoring_ascii_case(ext, "wim"@),
            None => false,
        },
        None => false,
    }
}

/// What happens to a file of the given size.
pub open spec fn planned(rel: PathView, size: u64) -> Result<CopyAction, ErrorView> {
    if size <= FAT32_MAX_FILE {
        Ok(CopyAction::Copy)
    } else if is_wim(rel) {
        Ok(CopyAction::SplitWim)
    } else {
        Err(
            ErrorView::Other(
                rel.shown() + " is "@ + text::dec(size as nat)
                    + " bytes, over FAT32's 4 GiB file limit, and can't be split automatically"@,
            ),
        )
    }
}

fn names_wim(rel: &FilePath) -> (r: bool)
    ensures
        r == is_wim(rel@),
{
    match rel.file_name() {
        Some(name) => match paths::file_extension(name.as_str()) {
            Some(ext) => text::eq_ignore_ascii_case(ext.as_str(), "wim"),
            None => false,
        },
        None => false,
    }
}

/// Decides what happens to a file, or refuses one that cannot fit on FAT32
/// and cannot be split.
pub fn plan_file(rel: &FilePath, size: u64) -> (r: EngineResult<CopyAction>)
    ensures
        match planned(rel@, size) {
            Ok(action) => r is Ok && r->Ok_0 == action,
            Err(e) => r is Err && r->Err_0@ == e,
        },
{
    if size <= FAT32_MAX_FILE {
        return Ok(CopyAction::Copy);
    }
    if names_wim(rel) {
        Ok(CopyAction::SplitWim)
    } else {
        let mut m = rel.display();
        m.append(" is ");
        m.append(text::decimal(size).as_str());
        m.append(" bytes, over FAT32's 4 GiB file limit, and can't be split automatically");
        Err(EngineError::Other(m))
    }
}

/// No file that is copied is too large for FAT32.
pub proof fn law_copied_files_fit(rel: PathView, size: u64)
    requires
        planned(rel, size) == Ok::<CopyAction, ErrorView>(CopyAction::Copy),
    ensures
        size <= FAT32_MAX_FILE,
{
}

/// A file of the ISO and what happens to it.
#[derive(Debug)]
pub struct PlannedFile {
    pub rel: FilePath,
    pub size: u64,
    pub action: CopyAction,
}

/// What copying the ISO does next.
#[derive(Debug, PartialEq, Eq)]
pub enum IsoStep {
    /// Stop: the user asked for it.
    Stop,
    /// A file that is split later.
    Skip,
    /// Start to copy a file, in a folder that may have to be created.
    Copy { src: FilePath, dst: FilePath },
    /// Read the next piece of the open file and write it.
    Read,
    /// All copying is done; the event tells so.
    Copied(Event),
    /// Split a WIM image into a folder, after this event.
    Split { event: Event, wim: FilePath, dest_dir: FilePath },
    Done,
}

/// The state of copying the files of an ISO.
#[derive(Debug)]
pub struct IsoRun {
    pub src_root: FilePath,
    pub dst_root: FilePath,
    pub plan: Vec<PlannedFile>,
    /// Bytes to copy, without the files that are split.
    pub total: u64,
    /// How many files of the plan are handled.
    pub index: usize,
    pub open: bool,
    pub copied: bool,
    pub done: u64,
    pub throttle: Throttle,
    /// How many files of the plan are looked at for splitting.
    pub split: usize,
}

impl IsoRun {
    /// Every file of the plan is handled as `plan_file` decides.
    pub open spec fn wf(self) -> bool {
        &&& self.index <= self.plan@.len()
        &&& self.open ==> self.index < self.plan@.len() && self.plan@[self.index as int].action
            is Copy
        &&& self.split <= self.plan@.len()
        &&& forall|i: int|
            0 <= i < self.plan@.len() ==> planned(
                (#[trigger] self.plan@[i]).rel@,
                self.plan@[i].size,
            ) == Ok::<CopyAction, ErrorView>(self.plan@[i].action)
    }

    pub fn new(src_root: FilePath, dst_root: FilePath) -> (r: IsoRun)
        ensures
            r.wf(),
            r.plan@.len() == 0,
            r.src_root == src_root,
            r.dst_root == dst_root,
            r.total == 0,
            r.index == 0,
            !r.open,
            !r.copied,
            r.done == 0,
            r.throttle.last is None,
            r.split == 0,
    {
        IsoRun {
            src_root,
            dst_root,
            plan: Vec::new(),
            total: 0,
            index: 0,
            open: false,
            copied: false,
            done: 0,
            throttle: Throttle::new(),
            split: 0,
        }
    }

    /// Plans a file found in the ISO.
    pub fn add(&mut self, path: &FilePath, size: u64) -> (r: EngineResult<()>)
        requires
            old(self).wf(),
            !old(self).open,
        ensures
            final(self).wf(),
            match planned(paths::relative_to(path@, old(self).src_root@), size) {
                Ok(action) => {
                    &&& r is Ok
                    &&& final(self).plan@.len() == old(self).plan@.len() + 1
                    &&& final(self).plan@.drop_last() == old(self).plan@
                    &&& final(self).plan@.last().rel@ == paths::relative_to(path@, old(self).src_root@)
                    &&& final(self).plan@.last().size == size
                    &&& final(self).plan@.last().action == action
                    &&& *final(self) == (IsoRun {
                        plan: final(self).plan,
                        total: if action is Copy {
                            old(self).total.wrapping_add(size)
                        } else {
                            old(self).total
                        },
                        ..*old(self)
                    })
                },
                Err(e) => r is Err && r->Err_0@ == e && *final(self) == *old(self),
            },
    {
        let rel = match path.strip_prefix(&self.src_root) {
            Some(rel) => rel,
            None => path.clone(),
        };
        let action = match plan_file(&rel, size) {
            Ok(action) => action,
            Err(e) => return Err(e),
        };
        match action {
            CopyAction::Copy => {
                self.total = self.total.wrapping_add(size);
            },
            CopyAction::SplitWim => {},
        }
        let ghost before = self.plan@;
        self.plan.push(PlannedFile { rel, size, action });
        proof {
            assert(self.plan@.drop_last() =~= before);
        }
        Ok(())
    }

    /// The event that opens the copying.
    pub fn start(&self) -> (event: Event)
        ensures
            event@ == (EventView::Phase { name: "Copying files"@ }),
    {
        Event::Phase { name: "Copying files".to_owned() }
    }

    /// What to do next while files are copied, given whether a stop was asked
    /// for.
    pub fn next(&mut self, cancelled: bool) -> (step: IsoStep)
        requires
            old(self).wf(),
            !old(self).copied,
        ensures
            final(self).wf(),
            (old(self).open || old(self).index < old(self).plan@.len()) && cancelled ==> step
                == IsoStep::Stop && *final(self) == *old(self),
            old(self).open && !cancelled ==> step == IsoStep::Read && *final(self) == *old(self),
            !old(self).open && old(self).index == old(self).plan@.len() ==> step
                == IsoStep::Copied(
                Event::Progress { done: old(self).total, total: old(self).total },
            ) && *final(self) == (IsoRun { copied: true, ..*old(self) }),
            !old(self).open && old(self).index < old(self).plan@.len() && !cancelled ==> {
                let file = old(self).plan@[old(self).index as int];
                match file.action {
                    CopyAction::SplitWim => step == IsoStep::Skip && *final(self) == (IsoRun {
                        index: (old(self).index + 1) as usize,
                        ..*old(self)
                    }),
                    CopyAction::Copy => {
                        &&& step matches IsoStep::Copy { src, dst }
                        &&& src@ == old(self).src_root@.joined(file.rel@)
                        &&& dst@ == old(self).dst_root@.joined(file.rel@)
                        &&& file.size <= FAT32_MAX_FILE
                        &&& *final(self) == (IsoRun { open: true, ..*old(self) })
                    },
                }
            },
    {
        let count: usize = self.plan.len();
        if !self.open && self.index == count {
            self.copied = true;
            return IsoStep::Copied(Event::Progress { done: self.total, total: self.total });
        }
        if cancelled {
            return IsoStep::Stop;
        }
        if self.open {
            return IsoStep::Read;
        }
        match self.plan[self.index].action {
            CopyAction::SplitWim => {
                self.index = self.index + 1;
                IsoStep::Skip
            },
            CopyAction::Copy => {
                let src = self.src_root.join(&self.plan[self.index].rel);
                let dst = self.dst_root.join(&self.plan[self.index].rel);
                self.open = true;
                IsoStep::Copy { src, dst }
            },
        }
    }

    /// Takes note that `n` bytes of the open file were written; none means
    /// that the file has ended.
    pub fn moved(&mut self, n: u64, now: u64) -> (event: Option<Event>)
        requires
            old(self).wf(),
            old(self).open,
        ensures
            final(self).wf(),
            n == 0 ==> event is None && *final(self) == (IsoRun {
                open: false,
                index: (old(self).index + 1) as usize,
                ..*old(self)
            }),
            n > 0 ==> {
                let done = old(self).done.wrapping_add(n);
                let due = old(self).throttle.last is None || now - old(self).throttle.last->0
                    >= 150;
                &&& *final(self) == (IsoRun {
                    done,
                    throttle: Throttle {
                        last: if due {
                            Some(now)
                        } else {
                            old(self).throttle.last
                        },
                    },
                    ..*old(self)
                })
                &&& event == (if due {
                    Some(Event::Progress { done, total: old(self).total })
                } else {
                    None
                })
            },
    {
        if n == 0 {
            assert(self.plan.len() <= usize::MAX);
            self.open = false;
            self.index = self.index + 1;
            return None;
        }
        self.done = self.done.wrapping_add(n);
        if self.throttle.ready(now) {
            Some(Event::Progress { done: self.done, total: self.total })
        } else {
            None
        }
    }

    /// What to split next, after everything is copied.
    pub fn next_split(&mut self) -> (step: IsoStep)
        requires
            old(self).wf(),
        ensures
            final(self).wf(),
            old(self).split == old(self).plan@.len() ==> step == IsoStep::Done && *final(self)
                == *old(self),
            old(self).split < old(self).plan@.len() ==> {
                let file = old(self).plan@[old(self).split as int];
                &&& *final(self) == (IsoRun {
                    split: (old(self).split + 1) as usize,
                    ..*old(self)
                })
                &&& match file.action {
                    CopyAction::Copy => step == IsoStep::Skip,
                    CopyAction::SplitWim => {
                        &&& step matches IsoStep::Split { event, wim, dest_dir }
                        &&& event@ == (EventView::Phase {
                            name:
                                "Splitting install.wim for FAT32 (this can take several minutes)"@,
                        })
                        &&& wim@ == old(self).src_root@.joined(file.rel@)
                        &&& dest_dir@ == old(self).dst_root@.joined(
                            match file.rel@.parent() {
                                Some(p) => p,
                                None => PathView { root: Seq::empty(), parts: Seq::empty() },
                            },
                        )
                    },
                }
            },
    {
        let count: usize = self.plan.len();
        if self.split == count {
            return IsoStep::Done;
        }
        let i: usize = self.split;
        self.split = self.split + 1;
        match self.plan[i].action {
            CopyAction::Copy => IsoStep::Skip,
            CopyAction::SplitWim => {
                let parent = match self.plan[i].rel.parent() {
                    Some(p) => p,
                    None => {
                        let p = FilePath { root: String::new(), parts: Vec::new() };
                        proof {
                            assert(p@ =~= PathView { root: Seq::empty(), parts: Seq::empty() });
                        }
                        p
                    },
                };
                IsoStep::Split {
                    event: Event::Phase {
                        name: "Splitting install.wim for FAT32 (this can take several minutes)".to_owned(),
                    },
                    wim: self.src_root.join(&self.plan[i].rel),
                    dest_dir: self.dst_root.join(&parent),
                }
            },
        }
    }
}

/// The command that splits a WIM image into pieces below the limit.
pub open spec fn split_command_view(windows: bool, wim: Seq<char>, swm: Seq<char>) -> CommandView {
    if windows {
        CommandView {
            program: "dism"@,
            args: seq![
                "/Split-Image"@,
                "/ImageFile:"@ + wim,
                "/SWMFile:"@ + swm,
                "/FileSize:3800"@,
            ],
            what: "splitting install.wim"@,
        }
    } else {
        CommandView {
            program: "wimlib-imagex"@,
            args: seq!["split"@, wim, swm, "3800"@],
            what:
                "splitting install.wim (install wimlib: `brew install wimlib` or your package manager's wimtools)"@,
        }
    }
}

/// The command that splits `wim` into pieces in `dest_dir`.
pub fn split_wim(windows: bool, wim: &FilePath, dest_dir: &FilePath) -> (c: ToolCommand)
    ensures
        c@ == split_command_view(windows, wim@.shown(), dest_dir@.child("install.swm"@).shown()),
{
    let source = wim.display();
    let swm = dest_dir.child("install.swm").display();
    if windows {
        let mut image = "/ImageFile:".to_owned();
        image.append(source.as_str());
        let mut pieces = "/SWMFile:".to_owned();
        pieces.append(swm.as_str());
        let args: [&str; 4] = ["/Split-Image", image.as_str(), pieces.as_str(), "/FileSize:3800"];
        let c = tools::tool("dism", &args, "splitting install.wim");
        proof {
            assert(text::literals(args@) =~= split_command_view(
                windows,
                wim@.shown(),
                dest_dir@.child("install.swm"@).shown(),
            ).args);
        }
        c
    } else {
        let args: [&str; 4] = ["split", source.as_str(), swm.as_str(), "3800"];
        let c = tools::tool(
            "wimlib-imagex",
            &args,
            "splitting install.wim (install wimlib: `brew install wimlib` or your package manager's wimtools)",
        );
        proof {
            assert(text::literals(args@) =~= split_command_view(
                windows,
                wim@.shown(),
                dest_dir@.child("install.swm"@).shown(),
            ).args);
        }
        c
    }
}

/// The node of the first partition on a drive: `/dev/sdb1`, `/dev/mmcblk0p1`.
pub fn partition_node(node: &str) -> (r: String)
    ensures
        r@ == (if node@.len() > 0 && '0' <= node@.last() <= '9' {
            node@ + "p1"@
        } else {
            node@ + "1"@
        }),
{
    let v = text::chars_of(node);
    let n: usize = v.len();
    let mut r = node.to_owned();
    if n > 0 && '0' <= v[n - 1] && v[n - 1] <= '9' {
        r.append("p1");
    } else {
        r.append("1");
    }
    r
}

/// The commands that put a partition on a drive, in order; the last one
/// formats it.
pub open spec fn linux_format_views(node: Seq<char>, part: Seq<char>) -> Seq<CommandView> {
    seq![
        CommandView {
            program: "parted"@,
            args: seq!["-s"@, node, "mklabel"@, "msdos"@],
            what: "creating the partition table"@,
        },
        CommandView {
            program: "parted"@,
            args: seq!["-s"@, node, "mkpart"@, "primary"@, "fat32"@, "1MiB"@, "100%"@],
            what: "creating the partition"@,
        },
        CommandView {
            program: "parted"@,
            args: seq!["-s"@, node, "set"@, "1"@, "boot"@, "on"@],
            what: "marking the partition bootable"@,
        },
        CommandView {
            program: "mkfs.vfat"@,
            args: seq!["-F"@, "32"@, "-n"@, "WINSETUP"@, part],
            what: "formatting the drive"@,
        },
    ]
}

/// Whether the system has to settle before the command at `i` is run: the
/// last one formats a partition that the others have only just made.
pub fn settles_before(commands: usize, i: usize) -> (r: bool)
    requires
        i < commands,
    ensures
        r == (i == commands - 1),
{
    i == commands - 1
}

/// The commands that partition and format a drive on Linux. Before the last
/// one the system has to settle.
pub fn linux_format_commands(node: &str, part: &str) -> (r: Vec<ToolCommand>)
    ensures
        tools::command_views(r@) == linux_format_views(node@, part@),
{
    let a: [&str; 4] = ["-s", node, "mklabel", "msdos"];
    let b: [&str; 7] = ["-s", node, "mkpart", "primary", "fat32", "1MiB", "100%"];
    let c: [&str; 6] = ["-s", node, "set", "1", "boot", "on"];
    let d: [&str; 5] = ["-F", "32", "-n", "WINSETUP", part];
    let mut r: Vec<ToolCommand> = Vec::new();
    r.push(tools::tool("parted", &a, "creating the partition table"));
    r.push(tools::tool("parted", &b, "creating the partition"));
    r.push(tools::tool("parted", &c, "marking the partition bootable"));
    r.push(tools::tool("mkfs.vfat", &d, "formatting the drive"));
    proof {
        let want = linux_format_views(node@, part@);
        assert(text::literals(a@) =~= want[0].args);
        assert(text::literals(b@) =~= want[1].args);
        assert(text::literals(c@) =~= want[2].args);
        assert(text::literals(d@) =~= want[3].args);
        assert(tools::command_views(r@) =~= want);
    }
    r
}

/// The commands that unmount and format a drive on macOS.
pub fn macos_format_commands(device: &Device) -> (r: Vec<ToolCommand>)
    ensures
        tools::command_views(r@) == seq![
            CommandView {
                program: "diskutil"@,
                args: seq!["unmountDisk"@, "force"@, device@.id],
                what: "unmounting the drive"@,
            },
            CommandView {
                program: "diskutil"@,
                args: seq!["eraseDisk"@, "MS-DOS"@, "WINSETUP"@, "MBR"@, device@.id],
                what: "formatting the drive"@,
            },
        ],
{
    let a: [&str; 3] = ["unmountDisk", "force", device.id.as_str()];
    let b: [&str; 5] = ["eraseDisk", "MS-DOS", "WINSETUP", "MBR", device.id.as_str()];
    let mut r: Vec<ToolCommand> = Vec::new();
    r.push(tools::tool("diskutil", &a, "unmounting the drive"));
    r.push(tools::tool("diskutil", &b, "formatting the drive"));
    proof {
        assert(text::literals(a@) =~= seq!["unmountDisk"@, "force"@, device@.id]);
        assert(text::literals(b@) =~= seq![
            "eraseDisk"@,
            "MS-DOS"@,
            "WINSETUP"@,
            "MBR"@,
            device@.id,
        ]);
        assert(tools::command_views(r@) =~= seq![
            CommandView {
                program: "diskutil"@,
                args: seq!["unmountDisk"@, "force"@, device@.id],
                what: "unmounting the drive"@,
            },
            CommandView {
                program: "diskutil"@,
                args: seq!["eraseDisk"@, "MS-DOS"@, "WINSETUP"@, "MBR"@, device@.id],
                what: "formatting the drive"@,
            },
        ]);
    }
    r
}

/// The `diskpart` script that formats a drive on Windows and gives it a
/// letter.
pub fn windows_format_script(device: &Device, letter: char) -> (r: EngineResult<String>)
    ensures
        match text::unsigned(crate::bootable::write::after_disk(device@.id), u32::MAX as nat) {
            Some(n) => r is Ok && r->Ok_0@ == "select disk "@ + text::dec(n)
                + "\nclean\ncreate partition primary\nselect partition 1\nactive\nformat fs=fat32 quick label=WINSETUP\nassign letter="@
                + seq![letter] + "\n"@,
            None => r is Err && r->Err_0@ == ErrorView::Other("unexpected disk id "@ + device@.id),
        },
{
    match crate::bootable::write::windows_disk_number(device.id.as_str()) {
        Ok(n) => {
            let mut s = "select disk ".to_owned();
            s.append(text::decimal(n as u64).as_str());
            s.append(
                "\nclean\ncreate partition primary\nselect partition 1\nactive\nformat fs=fat32 quick label=WINSETUP\nassign letter=",
            );
            let ghost before = s@;
            s.push(letter);
            proof {
                assert(s@ =~= before + seq![letter]);
            }
            s.append("\n");
            Ok(s)
        },
        Err(e) => Err(e),
    }
}

/// The last free drive letter from the one with the code `n` down to `D`.
pub open spec fn free_letter(used: Seq<char>, n: int) -> Option<char>
    decreases n,
{
    if n < 'D' as int {
        None
    } else if !used.contains(n as char) {
        Some(n as char)
    } else {
        free_letter(used, n - 1)
    }
}

fn is_used(used: &Vec<char>, letter: char) -> (r: bool)
    ensures
        r == used@.contains(letter),
{
    let at: usize = text::find_char(used, letter, 0);
    proof {
        if at < used@.len() {
            assert(used@[at as int] == letter);
        }
    }
    at < used.len()
}

/// The last drive letter from D to Z that is not in use.
pub fn free_drive_letter(used: &Vec<char>) -> (r: EngineResult<char>)
    ensures
        match free_letter(used@, 'Z' as int) {
            Some(c) => r is Ok && r->Ok_0 == c,
            None => r is Err && r->Err_0@ == ErrorView::Other("no free drive letter available"@),
        },
{
    let mut letter: u8 = 90;
    while letter >= 68
        invariant
            67 <= letter <= 90,
            free_letter(used@, 'Z' as int) == free_letter(used@, letter as int),
        decreases letter,
    {
        if !is_used(used, letter as char) {
            return Ok(letter as char);
        }
        letter = letter - 1;
    }
    Err(EngineError::Other("no free drive letter available".to_owned()))
}

/// The first text in a field of the items, from position `i` on.
pub open spec fn first_text(items: Seq<JsonView>, key: Seq<char>, i: int) -> Option<Seq<char>>
    decreases items.len() - i,
{
    if i < 0 || i >= items.len() {
        None
    } else if items[i].field(key).as_text() is Some {
        items[i].field(key).as_text()
    } else {
        first_text(items, key, i + 1)
    }
}

fn find_text(root: &Json, key: &str) -> (r: Option<String>)
    ensures
        match first_text(root@.field("system-entities"@).items(), key@, 0) {
            Some(s) => r is Some && r->0@ == s,
            None => r is None,
        },
{
    match root.field("system-entities") {
        Some(Json::List(list)) => {
            let ghost items = root@.field("system-entities"@).items();
            proof {
                reveal_with_fuel(Json::tree, 2);
            }
            let mut i: usize = 0;
            while i < list.len()
                invariant
                    i <= list@.len(),
                    items == root@.field("system-entities"@).items(),
                    items.len() == list@.len(),
                    forall|j: int| 0 <= j < list@.len() ==> #[trigger] items[j] == list@[j]@,
                    first_text(items, key@, 0) == first_text(items, key@, i as int),
                decreases list@.len() - i,
            {
                proof {
                    assert(items[i as int] == list@[i as int]@);
                }
                match list[i].text_field(key) {
                    Some(s) => return Some(s),
                    None => {},
                }
                i = i + 1;
            }
            None
        },
        _ => None,
    }
}

/// Where `hdiutil` mounted an ISO, and the device that it made for it.
pub fn attached_iso(root: &Json) -> (r: EngineResult<(String, String)>)
    ensures
        ({
            let items = root@.field("system-entities"@).items();
            match (first_text(items, "mount-point"@, 0), first_text(items, "dev-entry"@, 0)) {
                (None, _) => r is Err && r->Err_0@ == ErrorView::Other(
                    "the ISO didn't mount a volume"@,
                ),
                (Some(_), None) => r is Err && r->Err_0@ == ErrorView::Other(
                    "the ISO reported no device"@,
                ),
                (Some(m), Some(d)) => r matches Ok((mount, dev)) && mount@ == m && dev@ == d,
            }
        }),
{
    let mount = match find_text(root, "mount-point") {
        Some(m) => m,
        None => return Err(EngineError::Other("the ISO didn't mount a volume".to_owned())),
    };
    let dev = match find_text(root, "dev-entry") {
        Some(d) => d,
        None => return Err(EngineError::Other("the ISO reported no device".to_owned())),
    };
    Ok((mount, dev))
}

/// A text for use between single quotes in PowerShell.
pub fn powershell_quote(s: &str) -> (r: String)
    ensures
        r@ == text::replaced_from(s@, seq!['\''], seq!['\'', '\''], 0),
{
    let mut one: Vec<char> = Vec::new();
    one.push('\'');
    let mut two: Vec<char> = Vec::new();
    two.push('\'');
    two.push('\'');
    proof {
        assert(one@ =~= seq!['\'']);
        assert(two@ =~= seq!['\'', '\'']);
    }
    text::string_of(&text::replace_all(&text::chars_of(s), &one, &two))
}

/// The drive letter that PowerShell printed for a mounted ISO.
pub fn mounted_letter(output: &str) -> (r: EngineResult<char>)
    ensures
        ({
            let s = text::trimmed(output@);
            if s.len() > 0 {
                r is Ok && r->Ok_0 == s[0]
            } else {
                r is Err && r->Err_0@ == ErrorView::Other("the ISO didn't get a drive letter"@)
            }
        }),
{
    let v = text::chars_of(text::trim(output).as_str());
    if v.len() > 0 {
        Ok(v[0])
    } else {
        Err(EngineError::Other("the ISO didn't get a drive letter".to_owned()))
    }
}

/// What making a drive for installing Windows consists of.
#[derive(Debug, Clone, Copy, PartialEq, Eq, Structural)]
pub enum WindowsAction {
    Format,
    MountIso,
    /// Copy the files of the ISO.
    CopyFiles,
    /// Write a boot sector for legacy systems, where the ISO brings the tool.
    BootSector,
    /// Let go of the ISO and of the drive.
    Finish,
}

/// The phase announced before an action; copying announces its own.
pub open spec fn windows_phase(action: WindowsAction) -> Option<Seq<char>> {
    match action {
        WindowsAction::Format => Some("Formatting the drive as FAT32"@),
        WindowsAction::MountIso => Some("Opening the ISO"@),
        WindowsAction::CopyFiles => None,
        WindowsAction::BootSector => Some("Writing the boot sector"@),
        WindowsAction::Finish => Some("Finishing up"@),
    }
}

/// The event that announces an action.
pub fn windows_phase_event(action: WindowsAction) -> (r: Option<Event>)
    ensures
        match windows_phase(action) {
            Some(name) => r is Some && r->0@ == (EventView::Phase { name }),
            None => r is None,
        },
{
    match action {
        WindowsAction::Format => Some(
            Event::Phase { name: "Formatting the drive as FAT32".to_owned() },
        ),
        WindowsAction::MountIso => Some(Event::Phase { name: "Opening the ISO".to_owned() }),
        WindowsAction::CopyFiles => None,
        WindowsAction::BootSector => Some(
            Event::Phase { name: "Writing the boot sector".to_owned() },
        ),
        WindowsAction::Finish => Some(Event::Phase { name: "Finishing up".to_owned() }),
    }
}

/// The actions of making a drive for installing Windows, in order. The boot
/// sector is written on Windows, where the tool for it runs.
pub fn flash_windows_files(on_windows: bool) -> (r: Vec<WindowsAction>)
    ensures
        r@ == (if on_windows {
            seq![
                WindowsAction::Format,
                WindowsAction::MountIso,
                WindowsAction::CopyFiles,
                WindowsAction::BootSector,
                WindowsAction::Finish,
            ]
        } else {
            seq![
                WindowsAction::Format,
                WindowsAction::MountIso,
                WindowsAction::CopyFiles,
                WindowsAction::Finish,
            ]
        }),
{
    let mut r: Vec<WindowsAction> = Vec::new();
    r.push(WindowsAction::Format);
    r.push(WindowsAction::MountIso);
    r.push(WindowsAction::CopyFiles);
    if on_windows {
        r.push(WindowsAction::BootSector);
    }
    r.push(WindowsAction::Finish);
    r
}

/// How often a new volume is looked for before it is given up, and for how
/// long to wait after each time, in milliseconds.
pub const VOLUME_TRIES: u32 = 20;

pub const VOLUME_WAIT_MS: u64 = 500;

/// The command that writes a boot sector for legacy systems.
pub open spec fn boot_sector_view(tool: Seq<char>, letter: char) -> CommandView {
    CommandView {
        program: tool,
        args: seq!["/nt60"@, seq![letter, ':'], "/force"@, "/mbr"@],
        what: "writing the boot sector"@,
    }
}

/// The command that writes a boot sector, which only a drive with a letter
/// gets, and only where the ISO brings the tool for it. Without one the drive
/// still starts UEFI systems.
pub fn boot_sector_command(tool: &str, present: bool, letter: Option<char>) -> (c: Option<ToolCommand>)
    ensures
        c is Some <==> present && letter is Some,
        c is Some ==> c->0@ == boot_sector_view(tool@, letter->0),
{
    if !present {
        return None;
    }
    match letter {
        None => None,
        Some(letter) => {
            let mut drive = String::new();
            drive.push(letter);
            drive.push(':');
            let args: [&str; 4] = ["/nt60", drive.as_str(), "/force", "/mbr"];
            let c = tools::tool(tool, &args, "writing the boot sector");
            proof {
                assert(drive@ =~= seq![letter, ':']);
                assert(text::literals(args@) =~= boot_sector_view(tool@, letter).args);
            }
            Some(c)
        },
    }
}

/// The event for a boot sector that could not be written: no failure.
pub fn boot_sector_event(e: &EngineError) -> (event: Event)
    ensures
        event@ == (EventView::Log {
            line: "Boot sector step failed (UEFI boot still works): "@ + e@.sentence(),
        }),
{
    let mut line = "Boot sector step failed (UEFI boot still works): ".to_owned();
    line.append(e.message().as_str());
    Event::Log { line }
}

/// Splitting reads the image and writes the pieces: in the command the path of
/// the image stands where the tool takes its input and the path of the first
/// piece where it takes its output, and FAT32 can hold a piece of the size
/// that is asked for.
pub proof fn law_split_reads_the_image(
    windows: bool,
    wim: &FilePath,
    dest_dir: &FilePath,
    c: ToolCommand,
)
    requires
        call_ensures(split_wim, (windows, wim, dest_dir), c),
    ensures
        ({
            let args = text::views(c.args@);
            let size = if windows {
                args[3].skip("/FileSize:"@.len() as int)
            } else {
                args[3]
            };
            &&& args.len() == 4
            &&& windows ==> args[1] == "/ImageFile:"@ + wim@.shown()
            &&& windows ==> args[2] == "/SWMFile:"@ + dest_dir@.child("install.swm"@).shown()
            &&& windows ==> args[3].take("/FileSize:"@.len() as int) == "/FileSize:"@
            &&& !windows ==> args[0] == "split"@
            &&& !windows ==> args[1] == wim@.shown()
            &&& !windows ==> args[2] == dest_dir@.child("install.swm"@).shown()
            &&& text::all_digits(size)
            &&& 0 < text::dec_value(size) * 1_048_576 <= FAT32_MAX_FILE
        }),
{
    reveal_strlit("/FileSize:");
    reveal_strlit("/FileSize:3800");
    reveal_strlit("3800");
    let size = if windows {
        text::views(c.args@)[3].skip("/FileSize:"@.len() as int)
    } else {
        text::views(c.args@)[3]
    };
    assert(size =~= seq!['3', '8', '0', '0']);
    assert(size.drop_last() =~= seq!['3', '8', '0']);
    assert(size.drop_last().drop_last() =~= seq!['3', '8']);
    assert(size.drop_last().drop_last().drop_last() =~= seq!['3']);
    reveal_with_fuel(text::dec_value, 5);
    if windows {
        assert(text::views(c.args@)[3].take("/FileSize:"@.len() as int) =~= "/FileSize:"@);
    }
}

/// A file of the ISO is copied whole wherever FAT32 can hold it; a larger one
/// is split if its extension says that it is a WIM image and refused if it has
/// no extension.
pub proof fn law_files_that_fit_are_copied(
    rel: &FilePath,
    size: u64,
    stem: Seq<char>,
    r: EngineResult<CopyAction>,
)
    requires
        call_ensures(plan_file, (rel, size), r),
        stem.len() > 0,
        !stem.contains('.'),
        rel@.parts.len() > 0,
    ensures
        r == Ok::<CopyAction, EngineError>(CopyAction::Copy) <==> size < 0x1_0000_0000,
        size >= 0x1_0000_0000 && rel@.parts.last() == stem + ".wim"@ ==> r == Ok::<
            CopyAction,
            EngineError,
        >(CopyAction::SplitWim),
        size >= 0x1_0000_0000 && rel@.parts.last() == stem + ".WIM"@ ==> r == Ok::<
            CopyAction,
            EngineError,
        >(CopyAction::SplitWim),
        size >= 0x1_0000_0000 && rel@.parts.last() == stem ==> r is Err,
        size >= 0x1_0000_0000 && rel@.parts.last() == stem + ".iso"@ ==> r is Err,
{
    reveal_strlit(".wim");
    reveal_strlit(".WIM");
    reveal_strlit(".iso");
    reveal_strlit("wim");
    let name = rel@.parts.last();
    let n = name.len() as int;
    paths::lemma_last_dot(name, n);
    let d = paths::last_dot(name, n);
    let k = stem.len() as int;
    let low = |c: char| text::ascii_lower(c);
    if name == stem {
        assert(name[0] != '.') by {
            assert(stem.contains(stem[0]));
        }
        if d > 0 {
            assert(stem.contains(stem[d]));
        }
    } else if name == stem + ".wim"@ || name == stem + ".WIM"@ || name == stem + ".iso"@ {
        assert(name[k] == '.');
        assert(name[k + 1] != '.' && name[k + 2] != '.' && name[k + 3] != '.');
        assert(d == k);
        let e = name.skip(d + 1);
        assert(e.len() == 3 && e[0] == name[k + 1] && e[1] == name[k + 2] && e[2] == name[k + 3]);
        if name == stem + ".iso"@ {
            assert(e.map_values(low)[0] == 'i');
            assert("wim"@.map_values(low)[0] == 'w');
        } else {
            assert(e.map_values(low) =~= "wim"@.map_values(low));
        }
    }
}

/// A file is copied from its place in the ISO to the same place on the drive.
pub proof fn law_iso_files_keep_their_place(
    run: &mut IsoRun,
    path: &FilePath,
    size: u64,
    added: EngineResult<()>,
)
    requires
        run.wf(),
        !run.open,
        call_ensures(IsoRun::add, (run, path, size), added),
    ensures
        added is Ok ==> {
            let i = old(run).plan@.len() as int;
            &&& final(run).plan@.len() == i + 1
            &&& final(run).plan@[i].size == size
            &&& final(run).plan@[i].rel@ == paths::relative_to(path@, old(run).src_root@)
            &&& forall|k: int| 0 <= k < i ==> final(run).plan@[k] == #[trigger] old(run).plan@[k]
            &&& final(run).src_root == old(run).src_root
            &&& final(run).dst_root == old(run).dst_root
            &&& final(run).index == old(run).index
        },
        added is Err ==> *final(run) == *old(run) && size >= 0x1_0000_0000,
        size < 0x1_0000_0000 ==> added is Ok && final(run).plan@.last().action is Copy,
        (size < 0x1_0000_0000 && old(run).total + size <= u64::MAX) ==> final(run).total == old(run).total + size,
        size >= 0x1_0000_0000 ==> final(run).total == old(run).total,
{
    if added is Ok {
        let i = run.plan@.len() as int;
        assert forall|k: int| 0 <= k < i implies final(run).plan@[k] == #[trigger] old(run).plan@[k] by {
            assert(final(run).plan@.drop_last()[k] == final(run).plan@[k]);
        }
    }
}

/// Copying takes the planned files in order: it reads each below the ISO and
/// writes it below the drive, at the same relative place, and passes over none
/// but those that are split.
pub proof fn law_iso_copies_to_the_same_place(run: &mut IsoRun, cancelled: bool, step: IsoStep)
    requires
        run.wf(),
        !run.copied,
        call_ensures(IsoRun::next, (run, cancelled), step),
    ensures
        step matches IsoStep::Copy { src, dst } ==> {
            let file = old(run).plan@[old(run).index as int];
            &&& src@ == old(run).src_root@.joined(file.rel@)
            &&& dst@ == old(run).dst_root@.joined(file.rel@)
            &&& file.size < 0x1_0000_0000
            &&& final(run).open
            &&& final(run).index == old(run).index
        },
        step == IsoStep::Skip ==> old(run).plan@[old(run).index as int].size >= 0x1_0000_0000
            && final(run).index == old(run).index + 1,
        step is Copied ==> old(run).index == old(run).plan@.len() && !old(run).open,
        step == IsoStep::Stop ==> cancelled,
        step == IsoStep::Read ==> old(run).open && final(run).open,
        cancelled && old(run).index < old(run).plan@.len() ==> step == IsoStep::Stop,
        !(step is Split) && step != IsoStep::Done,
        final(run).plan == old(run).plan,
        final(run).done == old(run).done,
{
    assert(run.plan.len() <= usize::MAX);
    if run.index < run.plan@.len() {
        let file = run.plan@[run.index as int];
        assert(planned(file.rel@, file.size) == Ok::<CopyAction, ErrorView>(file.action));
    }
}

/// Bytes that were copied count, and a file ends when none come.
pub proof fn law_copied_bytes_count(run: &mut IsoRun, n: u64, now: u64, event: Option<Event>)
    requires
        run.wf(),
        run.open,
        call_ensures(IsoRun::moved, (run, n, now), event),
    ensures
        old(run).done + n <= u64::MAX ==> final(run).done == old(run).done + n,
        final(run).open == (n > 0),
        final(run).index == old(run).index + (if n == 0 {
            1int
        } else {
            0int
        }),
        event matches Some(e) ==> e == (Event::Progress {
            done: final(run).done,
            total: old(run).total,
        }),
        final(run).plan == old(run).plan,
        final(run).total == old(run).total,
{
    assert(run.plan.len() <= usize::MAX);
}

/// Every file that is too large for FAT32 is split, from its place in the ISO
/// into the folder on the drive in which it would have been; no other file is.
pub proof fn law_large_images_are_split(run: &mut IsoRun, step: IsoStep, parts: Seq<Seq<char>>)
    requires
        run.wf(),
        call_ensures(IsoRun::next_split, (run,), step),
    ensures
        step == IsoStep::Done <==> old(run).split == old(run).plan@.len(),
        old(run).split < old(run).plan@.len() ==> {
            let file = old(run).plan@[old(run).split as int];
            &&& final(run).split == old(run).split + 1
            &&& step is Split <==> file.size >= 0x1_0000_0000
            &&& (step matches IsoStep::Split { event, wim, dest_dir } ==> {
                &&& wim@ == old(run).src_root@.joined(file.rel@)
                &&& (file.rel@.root.len() == 0 && parts.len() > 0 && file.rel@.parts == parts) ==> {
                    &&& dest_dir@.root == old(run).dst_root@.root
                    &&& dest_dir@.parts == old(run).dst_root@.parts + parts.drop_last()
                }
            })
        },
{
    assert(run.plan.len() <= usize::MAX);
    if run.split < run.plan@.len() {
        let file = run.plan@[run.split as int];
        assert(planned(file.rel@, file.size) == Ok::<CopyAction, ErrorView>(file.action));
    }
}

/// The first partition has the node of its drive in front, and a number that
/// cannot run into one of the drive's own.
pub proof fn law_partition_belongs_to_its_drive(node: &str, r: String)
    requires
        call_ensures(partition_node, (node,), r),
    ensures
        r@.len() > node@.len(),
        r@.take(node@.len() as int) == node@,
        r@.last() == '1',
        node@.len() > 0 && '0' <= node@.last() <= '9' ==> r@[node@.len() as int] == 'p' && r@.len()
            == node@.len() + 2,
        !(node@.len() > 0 && '0' <= node@.last() <= '9') ==> r@.len() == node@.len() + 1,
{
    reveal_strlit("p1");
    reveal_strlit("1");
    assert(r@.take(node@.len() as int) =~= node@);
}

/// Formatting works on the drive, from the partition table to the file system,
/// and makes the file system on the partition and not on the drive.
pub proof fn law_the_partition_is_formatted(node: &str, part: &str, r: Vec<ToolCommand>)
    requires
        call_ensures(linux_format_commands, (node, part), r),
    ensures
        r@.len() == 4,
        forall|i: int|
            0 <= i < 3 ==> (#[trigger] r@[i]).program@ == "parted"@ && r@[i].args@[1]@ == node@,
        r@[0].args@[2]@ == "mklabel"@,
        r@[1].args@[2]@ == "mkpart"@,
        r@[2].args@[2]@ == "set"@,
        r@[3].program@ == "mkfs.vfat"@,
        r@[3].args@.last()@ == part@,
{
    let v = tools::command_views(r@);
    assert(v.len() == r@.len());
    assert(v[0] == r@[0]@ && v[1] == r@[1]@ && v[2] == r@[2]@ && v[3] == r@[3]@);
    let a = text::views(r@[0].args@);
    let b = text::views(r@[1].args@);
    let c = text::views(r@[2].args@);
    let d = text::views(r@[3].args@);
    assert(a.len() == 4 && b.len() == 7 && c.len() == 6 && d.len() == 5);
    assert(a[1] == r@[0].args@[1]@ && a[2] == r@[0].args@[2]@);
    assert(b[1] == r@[1].args@[1]@ && b[2] == r@[1].args@[2]@);
    assert(c[1] == r@[2].args@[1]@ && c[2] == r@[2].args@[2]@);
    assert(d[4] == r@[3].args@[4]@);
}

/// On macOS the drive is unmounted before it is erased, and both name it.
pub proof fn law_the_drive_is_erased(device: &Device, r: Vec<ToolCommand>)
    requires
        call_ensures(macos_format_commands, (device,), r),
    ensures
        r@.len() == 2,
        r@[0].args@[0]@ == "unmountDisk"@,
        r@[1].args@[0]@ == "eraseDisk"@,
        r@[0].args@.last()@ == device.id@,
        r@[1].args@.last()@ == device.id@,
{
    let v = tools::command_views(r@);
    assert(v.len() == r@.len());
    assert(v[0] == r@[0]@ && v[1] == r@[1]@);
    let a = text::views(r@[0].args@);
    let b = text::views(r@[1].args@);
    assert(a.len() == 3 && b.len() == 5);
    assert(a[0] == r@[0].args@[0]@ && a[2] == r@[0].args@[2]@);
    assert(b[0] == r@[1].args@[0]@ && b[4] == r@[1].args@[4]@);
}

proof fn lemma_free_letter(used: Seq<char>, n: int)
    requires
        n <= 'Z' as int,
    ensures
        free_letter(used, n) matches Some(c) ==> {
            &&& 'D' <= c
            &&& c as int <= n
            &&& !used.contains(c)
        },
        forall|x: char|
            'D' <= x && x as int <= n && (free_letter(used, n) is None || free_letter(used, n)->0 < x)
                ==> #[trigger] used.contains(x),
    decreases n,
{
    if n >= 'D' as int {
        let c = n as char;
        assert(c as int == n);
        lemma_free_letter(used, n - 1);
        assert forall|x: char|
            'D' <= x && x as int <= n && (free_letter(used, n) is None || free_letter(used, n)->0
                < x) implies #[trigger] used.contains(x) by {
            if x as int == n {
                assert(x == c);
            }
        }
    }
}

/// A letter that is given out is free, from D to Z and the last such; there is
/// none only where all of them are taken.
pub proof fn law_letter_is_free(used: &Vec<char>, r: EngineResult<char>, other: char)
    requires
        call_ensures(free_drive_letter, (used,), r),
        'D' <= other <= 'Z',
    ensures
        r matches Ok(c) ==> 'D' <= c <= 'Z' && !used@.contains(c),
        r is Ok && !used@.contains(other) ==> other <= r->Ok_0,
        r is Err ==> used@.contains(other),
{
    lemma_free_letter(used@, 'Z' as int);
}

/// The letter is the first character of what was printed that is no white
/// space.
pub proof fn law_letter_is_what_was_printed(output: &str, r: EngineResult<char>, i: int)
    requires
        call_ensures(mounted_letter, (output,), r),
        0 <= i < output@.len(),
        !text::is_white(output@[i]),
        forall|k: int| 0 <= k < i ==> text::is_white(#[trigger] output@[k]),
    ensures
        r == Ok::<char, EngineError>(output@[i]),
{
    text::lemma_trimmed_start(output@, i);
}

/// The drive is formatted before anything is copied to it, and the files are
/// copied before the boot sector is written.
pub proof fn law_media_steps_in_order(on_windows: bool, r: Vec<WindowsAction>)
    requires
        call_ensures(flash_windows_files, (on_windows,), r),
    ensures
        r@.len() >= 4,
        r@[0] == WindowsAction::Format,
        r@[1] == WindowsAction::MountIso,
        r@[2] == WindowsAction::CopyFiles,
        r@.last() == WindowsAction::Finish,
        r@.contains(WindowsAction::BootSector) == on_windows,
        on_windows ==> r@[3] == WindowsAction::BootSector,
{
    if on_windows {
        assert(r@[3] == WindowsAction::BootSector);
    } else {
        assert(r@[3] == WindowsAction::Finish);
        assert(r@.len() == 4);
    }
}

/// The boot sector goes to the drive with the letter.
pub proof fn law_boot_sector_goes_to_the_letter(
    tool: &str,
    present: bool,
    letter: Option<char>,
    c: Option<ToolCommand>,
)
    requires
        call_ensures(boot_sector_command, (tool, present, letter), c),
    ensures
        c is Some <==> present && letter is Some,
        c matches Some(command) ==> {
            &&& command.program@ == tool@
            &&& command.args@.len() == 4
            &&& command.args@[1]@ == seq![letter->0, ':']
        },
{
    if c is Some {
        let a = text::views(c->0.args@);
        assert(a == boot_sector_view(tool@, letter->0).args);
        assert(a.len() == 4 && a[1] == c->0.args@[1]@);
    }
}

/// Quoting goes character by character: quotes are doubled, and every other
/// character stays as it is.
pub proof fn law_powershell_quotes_are_doubled(
    whole: &str,
    front: &str,
    c: char,
    r: String,
    rest: String,
)
    requires
        whole@ == front@.push(c),
        call_ensures(powershell_quote, (whole,), r),
        call_ensures(powershell_quote, (front,), rest),
    ensures
        r@ == rest@ + (if c == '\'' {
            seq!['\'', '\'']
        } else {
            seq![c]
        }),
{
    assert(whole@ =~= front@ + seq![c]);
    text::lemma_replaced_parts(front@, seq![c], '\'', seq!['\'', '\'']);
    text::lemma_replaced_one(c, '\'', seq!['\'', '\'']);
}

/// The script works on the disk with the number in its name, and gives the
/// letter that was chosen.
pub proof fn law_script_names_disk_and_letter(
    device: &Device,
    letter: char,
    n: u32,
    r: EngineResult<String>,
)
    requires
        device.id@ == "Disk "@ + text::dec(n as nat),
        call_ensures(windows_format_script, (device, letter), r),
    ensures
        r is Ok,
        ({
            let start = "select disk "@ + text::dec(n as nat);
            r->Ok_0@.len() > start.len() && r->Ok_0@.take(start.len() as int) == start
        }),
        r->Ok_0@.len() > 2,
        r->Ok_0@[r->Ok_0@.len() - 2] == letter,
{
    reveal_strlit("\n");
    crate::bootable::write::lemma_after_disk_number(device.id@, n as nat);
    text::law_decimal_reads_back(n as nat);
    assert('0' <= text::dec(n as nat)[0] <= '9');
    assert(device@.id == device.id@);
    let start = "select disk "@ + text::dec(n as nat);
    let s = r->Ok_0@;
    assert(s.take(start.len() as int) =~= start);
}

proof fn lemma_first_text(items: Seq<JsonView>, key: Seq<char>, at: int, i: int)
    requires
        0 <= at <= i < items.len(),
        items[i].field(key).as_text() is Some,
        forall|k: int| at <= k < i ==> (#[trigger] items[k]).field(key).as_text() is None,
    ensures
        first_text(items, key, at) == items[i].field(key).as_text(),
    decreases i - at,
{
    if at < i {
        lemma_first_text(items, key, at + 1, i);
    }
}

/// An ISO is found where its volume was mounted, and let go of through the device
/// that was made for it.
pub proof fn law_mounted_iso_is_found(
    root: &Json,
    r: EngineResult<(String, String)>,
    i: int,
    j: int,
)
    requires
        call_ensures(attached_iso, (root,), r),
        ({
            let items = root@.field("system-entities"@).items();
            &&& 0 <= i < items.len()
            &&& 0 <= j < items.len()
            &&& items[i].field("mount-point"@).as_text() is Some
            &&& items[j].field("dev-entry"@).as_text() is Some
            &&& forall|k: int|
                0 <= k < i ==> (#[trigger] items[k]).field("mount-point"@).as_text() is None
            &&& forall|k: int|
                0 <= k < j ==> (#[trigger] items[k]).field("dev-entry"@).as_text() is None
        }),
    ensures
        r matches Ok((mount, dev)) && {
            let items = root@.field("system-entities"@).items();
            &&& Some(mount@) == items[i].field("mount-point"@).as_text()
            &&& Some(dev@) == items[j].field("dev-entry"@).as_text()
        },
{
    let items = root@.field("system-entities"@).items();
    lemma_first_text(items, "mount-point"@, 0, i);
    lemma_first_text(items, "dev-entry"@, 0, j);
}

} // verus!
