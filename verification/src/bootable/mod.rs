//! Creating bootable USB drives from ISO and IMG files.
//!
//! Two ways of doing it, chosen by what the image is:
//! - **Raw**: the image is written byte for byte to the device, then read
//!   back and compared. Works for hybrid images, which carry their own
//!   partition table and boot code.
//! - **Windows files**: the device is formatted and the files of the ISO are
//!   copied onto it.
//!
//! Writing to a raw device is destructive and needs administrator rights, so
//! it runs in a separate elevated helper process that checks again that the
//! target is a safe device before touching it.

pub mod devices;
pub mod helper;
pub mod image;
pub mod tools;
pub mod winmedia;
pub mod write;

use vstd::prelude::*;

use crate::paths::FilePath;
use crate::text;

verus! {

/// The system that the program runs on.
#[derive(Debug, Clone, Copy, PartialEq, Eq, Structural)]
pub enum Os {
    MacOs,
    Linux,
    Windows,
    Other,
}

/// A physical drive that could be turned into a bootable stick.
#[derive(Debug, PartialEq, Eq)]
pub struct Device {
    /// Short stable identifier shown to, and typed by, the user: `disk4`,
    /// `sdb`, `Disk 2`.
    pub id: String,
    /// Path opened for raw writes: `/dev/rdisk4`, `/dev/sdb`,
    /// `\\.\PhysicalDrive2`.
    pub node: String,
    pub name: String,
    pub size: u64,
    pub bus: String,
    /// Mount points of volumes on this device.
    pub mounted: Vec<String>,
    /// Whether the running system needs this disk.
    pub is_system: bool,
    /// Whether this is a disk image mounted as a virtual disk.
    pub is_virtual: bool,
}

/// What a device is, as characters.
#[verifier::ext_equal]
pub ghost struct DeviceView {
    pub id: Seq<char>,
    pub node: Seq<char>,
    pub name: Seq<char>,
    pub size: u64,
    pub bus: Seq<char>,
    pub mounted: Seq<Seq<char>>,
    pub is_system: bool,
    pub is_virtual: bool,
}

impl View for Device {
    type V = DeviceView;

    open spec fn view(&self) -> DeviceView {
        DeviceView {
            id: self.id@,
            node: self.node@,
            name: self.name@,
            size: self.size,
            bus: self.bus@,
            mounted: text::views(self.mounted@),
            is_system: self.is_system,
            is_virtual: self.is_virtual,
        }
    }
}

impl Clone for Device {
    fn clone(&self) -> (r: Device)
        ensures
            r@ == self@,
    {
        Device {
            id: self.id.clone(),
            node: self.node.clone(),
            name: self.name.clone(),
            size: self.size,
            bus: self.bus.clone(),
            mounted: text::clone_strings(&self.mounted),
            is_system: self.is_system,
            is_virtual: self.is_virtual,
        }
    }
}

impl DeviceView {
    /// Whether a device may be written to: not one the system needs, not an
    /// empty one, and a virtual one only where those are allowed.
    pub open spec fn safe_target(self, allow_virtual: bool) -> bool {
        !self.is_system && self.size != 0 && (self.is_virtual ==> allow_virtual)
    }
}

impl Device {
    /// Whether this may be offered, and accepted, as a write target.
    pub fn is_safe_target(&self, allow_virtual: bool) -> (r: bool)
        ensures
            r == self@.safe_target(allow_virtual),
    {
        if self.is_system || self.size == 0 {
            return false;
        }
        if self.is_virtual && !allow_virtual {
            return false;
        }
        true
    }
}

#[derive(Debug, Clone, Copy, PartialEq, Eq, Structural)]
pub enum Mode {
    Raw,
    WindowsFiles,
}

/// Everything the elevated helper needs.
#[derive(Debug, PartialEq, Eq)]
pub struct FlashJob {
    pub image: FilePath,
    pub device_id: String,
    pub mode: Mode,
    pub verify: bool,
    /// The helper appends one event per line here.
    pub progress_file: FilePath,
    /// The helper stops as soon as this file exists.
    pub cancel_file: FilePath,
}

/// What the helper tells about its work.
#[derive(Debug, PartialEq, Eq)]
pub enum Event {
    Phase { name: String },
    Progress { done: u64, total: u64 },
    Log { line: String },
    Finished,
    Failed { message: String },
    Cancelled,
}

/// What an event says, as characters.
#[verifier::ext_equal]
pub ghost enum EventView {
    Phase { name: Seq<char> },
    Progress { done: u64, total: u64 },
    Log { line: Seq<char> },
    Finished,
    Failed { message: Seq<char> },
    Cancelled,
}

impl View for Event {
    type V = EventView;

    open spec fn view(&self) -> EventView {
        match self {
            Event::Phase { name } => EventView::Phase { name: name@ },
            Event::Progress { done, total } => EventView::Progress { done: *done, total: *total },
            Event::Log { line } => EventView::Log { line: line@ },
            Event::Finished => EventView::Finished,
            Event::Failed { message } => EventView::Failed { message: message@ },
            Event::Cancelled => EventView::Cancelled,
        }
    }
}

impl EventView {
    /// Whether nothing comes after this event.
    pub open spec fn terminal(self) -> bool {
        self is Finished || self is Failed || self is Cancelled
    }
}

impl Event {
    /// Whether this event ends the work.
    pub fn is_terminal(&self) -> (r: bool)
        ensures
            r == self@.terminal(),
    {
        match self {
            Event::Finished => true,
            Event::Failed { .. } => true,
            Event::Cancelled => true,
            _ => false,
        }
    }
}

/// A drive that the system needs, or one without space, is never offered, and
/// a mounted image only where those are allowed.
pub proof fn law_needed_drives_are_safe(device: &Device, allow_virtual: bool, r: bool)
    requires
        call_ensures(Device::is_safe_target, (device, allow_virtual), r),
    ensures
        device.is_system || device.size == 0 ==> !r,
        device.is_virtual && !allow_virtual ==> !r,
        !device.is_system && device.size > 0 && !device.is_virtual ==> r,
        !device.is_system && device.size > 0 && allow_virtual ==> r,
{
}

/// Work goes on after an event that only tells of it, and is over after each
/// that tells of its end.
pub proof fn law_events_end_the_work(event: &Event, r: bool)
    requires
        call_ensures(Event::is_terminal, (event,), r),
    ensures
        *event is Phase || *event is Progress || *event is Log ==> !r,
        *event is Finished || *event is Failed || *event is Cancelled ==> r,
{
}

} // verus!
