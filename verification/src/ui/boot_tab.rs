//! The tab that makes bootable drives.

use vstd::prelude::*;

use crate::bootable::image::{ImageInfo, ImageKind};
use crate::bootable::{Device, Event, EventView, Mode};
use crate::dialog::DeferredPicker;
use crate::paths::FilePath;
use crate::text;
use crate::ui;
use crate::ui::Notice;
use crate::util;
use crate::util::Log;

verus! {

/// How the work ended.
#[derive(Debug, PartialEq, Eq)]
pub enum BootOutcome {
    Success,
    Failed(String),
    Cancelled,
}

/// What is to be written where.
#[derive(Debug, PartialEq, Eq)]
pub struct FlashRequest {
    pub image: FilePath,
    pub device_id: String,
    pub mode: Mode,
    pub verify: bool,
}

/// What the tab remembers.
#[derive(Debug)]
pub struct BootTab {
    pub image: Option<FilePath>,
    pub info: Option<ImageInfo>,
    pub image_error: Option<String>,
    /// Whether to write an image that was not recognised all the same.
    pub force_raw: bool,
    pub verify: bool,
    pub devices: Vec<Device>,
    pub scanning: bool,
    pub scan_error: Option<String>,
    pub scanned_once: bool,
    pub selected: Option<String>,
    pub confirm_text: String,
    pub picker: DeferredPicker,
    pub running: bool,
    pub phase: String,
    pub done: u64,
    pub total: u64,
    pub outcome: Option<BootOutcome>,
    pub log: Log,
}

impl Default for BootTab {
    fn default() -> (r: BootTab)
        ensures
            r.wf(),
            r.image is None,
            r.info is None,
            r.image_error is None,
            !r.force_raw,
            r.verify,
            r.devices@.len() == 0,
            !r.scanning,
            r.scan_error is None,
            !r.scanned_once,
            r.selected is None,
            r.confirm_text@ == ""@,
            r.picker.requested is None,
            !r.running,
            r.phase@ == ""@,
            r.done == 0,
            r.total == 0,
            r.outcome is None,
            r.log@.len() == 0,
            r.log.cap() == 200,
    {
        BootTab {
            image: None,
            info: None,
            image_error: None,
            force_raw: false,
            verify: true,
            devices: Vec::new(),
            scanning: false,
            scan_error: None,
            scanned_once: false,
            selected: None,
            confirm_text: "".to_owned(),
            picker: DeferredPicker::default(),
            running: false,
            phase: "".to_owned(),
            done: 0,
            total: 0,
            outcome: None,
            log: Log::default(),
        }
    }
}

/// Where the first drive with an identifier is, from `i` on; behind all of them
/// if there is none.
pub open spec fn place_of(devices: Seq<Device>, id: Seq<char>, i: int) -> int
    decreases devices.len() - i,
{
    if i < 0 || i >= devices.len() {
        devices.len() as int
    } else if devices[i].id@ == id {
        i
    } else {
        place_of(devices, id, i + 1)
    }
}

fn find_device(devices: &Vec<Device>, id: &str) -> (i: usize)
    ensures
        i == place_of(devices@, id@, 0),
        i <= devices@.len(),
        i < devices@.len() ==> devices@[i as int].id@ == id@,
{
    let mut i: usize = 0;
    while i < devices.len()
        invariant
            i <= devices@.len(),
            place_of(devices@, id@, 0) == place_of(devices@, id@, i as int),
        decreases devices@.len() - i,
    {
        if text::same_text(devices[i].id.as_str(), id) {
            return i;
        }
        i = i + 1;
    }
    i
}

/// How an image of a kind is written, if it can be.
pub open spec fn mode_for(kind: ImageKind, force_raw: bool) -> Option<Mode> {
    match kind {
        ImageKind::Hybrid => Some(Mode::Raw),
        ImageKind::OpticalOnly => Some(Mode::WindowsFiles),
        ImageKind::Unknown => if force_raw {
            Some(Mode::Raw)
        } else {
            None
        },
    }
}

impl BootTab {
    pub open spec fn wf(self) -> bool {
        self.log.wf()
    }

    pub fn is_running(&self) -> (r: bool)
        ensures
            r == (self.running || self.scanning),
    {
        self.running || self.scanning
    }

    /// Takes an image, or what kept it from being read.
    pub fn set_image(&mut self, path: FilePath, result: Result<ImageInfo, String>)
        requires
            old(self).wf(),
        ensures
            final(self).wf(),
            *final(self) == (BootTab {
                image: Some(path),
                info: match result {
                    Ok(info) => Some(info),
                    Err(_) => None,
                },
                image_error: match result {
                    Ok(_) => None,
                    Err(e) => Some(e),
                },
                force_raw: false,
                outcome: None,
                ..*old(self)
            }),
    {
        match result {
            Ok(info) => {
                self.info = Some(info);
                self.image_error = None;
            },
            Err(e) => {
                self.info = None;
                self.image_error = Some(e);
            },
        }
        self.image = Some(path);
        self.force_raw = false;
        self.outcome = None;
    }

    /// How the image is written, if there is one that can be.
    pub open spec fn chosen_mode(self) -> Option<Mode> {
        match self.info {
            Some(info) => mode_for(info.kind, self.force_raw),
            None => None,
        }
    }

    /// How the image is written, if there is one that can be.
    pub fn mode(&self) -> (r: Option<Mode>)
        ensures
            r == self.chosen_mode(),
    {
        match &self.info {
            Some(info) => match info.kind {
                ImageKind::Hybrid => Some(Mode::Raw),
                ImageKind::OpticalOnly => Some(Mode::WindowsFiles),
                ImageKind::Unknown => {
                    if self.force_raw {
                        Some(Mode::Raw)
                    } else {
                        None
                    }
                },
            },
            None => None,
        }
    }

    /// Whether to look for drives now: not while that is going on.
    pub fn refresh_devices(&mut self) -> (go: bool)
        requires
            old(self).wf(),
        ensures
            final(self).wf(),
            go == !old(self).scanning,
            go ==> *final(self) == (BootTab { scanning: true, scanned_once: true, ..*old(self) }),
            !go ==> *final(self) == *old(self),
    {
        if self.scanning {
            return false;
        }
        self.scanning = true;
        self.scanned_once = true;
        true
    }

    /// The position of the drive that is chosen; behind all of them if there is
    /// none.
    pub open spec fn chosen_device(self) -> int {
        match self.selected {
            Some(id) => place_of(self.devices@, id@, 0),
            None => self.devices@.len() as int,
        }
    }

    /// The drive that is chosen.
    pub fn selected_device(&self) -> (r: Option<&Device>)
        ensures
            match r {
                Some(d) => self.chosen_device() < self.devices@.len() && 0 <= self.chosen_device()
                    && *d == self.devices@[self.chosen_device()],
                None => self.chosen_device() == self.devices@.len(),
            },
    {
        match &self.selected {
            Some(id) => {
                let i: usize = find_device(&self.devices, id.as_str());
                if i < self.devices.len() {
                    Some(&self.devices[i])
                } else {
                    None
                }
            },
            None => None,
        }
    }

    /// Whether writing can begin: the image can be written and fits the chosen
    /// drive, and the identifier of that drive was typed.
    pub open spec fn ready(self) -> bool {
        let i = self.chosen_device();
        &&& !self.running
        &&& 0 <= i < self.devices@.len()
        &&& self.info matches Some(info)
        &&& self.chosen_mode() is Some
        &&& info.size <= self.devices@[i].size
        &&& text::same_ignoring_ascii_case(
            text::trimmed(self.confirm_text@),
            self.devices@[i].id@,
        )
    }

    pub fn can_start(&self) -> (r: bool)
        ensures
            r == self.ready(),
    {
        let size: u64 = match &self.info {
            Some(info) => info.size,
            None => return false,
        };
        if self.mode().is_none() || self.running {
            return false;
        }
        match self.selected_device() {
            Some(d) => size <= d.size && text::eq_ignore_ascii_case(
                text::trim(self.confirm_text.as_str()).as_str(),
                d.id.as_str(),
            ),
            None => false,
        }
    }

    /// What to write, if everything is chosen.
    pub fn start(&mut self) -> (r: Option<FlashRequest>)
        requires
            old(self).wf(),
        ensures
            final(self).wf(),
            ({
                let i = old(self).chosen_device();
                let go = old(self).image is Some && 0 <= i < old(self).devices@.len() && old(self).chosen_mode() is Some;
                &&& !go ==> r is None && *final(self) == *old(self)
                &&& go ==> {
                    let d = old(self).devices@[i];
                    let mode = old(self).chosen_mode()->0;
                    &&& r matches Some(request)
                    &&& request.image@ == old(self).image->0@
                    &&& request.device_id@ == d.id@
                    &&& request.mode == mode
                    &&& request.verify == (old(self).verify && mode is Raw)
                    &&& final(self).phase@ == "Waiting for administrator permission…"@
                    &&& ui::began(
                        old(self).log,
                        final(self).log,
                        "Writing "@ + old(self).image->0@.shown() + " to "@ + d.id@ + " ("@
                            + d.name@ + ")"@,
                    )
                    &&& *final(self) == (BootTab {
                        outcome: None,
                        done: 0,
                        total: 0,
                        phase: final(self).phase,
                        log: final(self).log,
                        ..*old(self)
                    })
                }
            }),
    {
        let mode = match self.mode() {
            Some(mode) => mode,
            None => return None,
        };
        let image = match &self.image {
            Some(image) => image.clone(),
            None => return None,
        };
        let (device_id, device_name) = match self.selected_device() {
            Some(d) => (d.id.clone(), d.name.clone()),
            None => return None,
        };
        self.log.clear();
        self.outcome = None;
        self.done = 0;
        self.total = 0;
        self.phase = "Waiting for administrator permission…".to_owned();
        let mut line = "Writing ".to_owned();
        line.append(image.display().as_str());
        line.append(" to ");
        line.append(device_id.as_str());
        line.append(" (");
        line.append(device_name.as_str());
        line.append(")");
        self.log.push(line);
        let verify = self.verify && mode == Mode::Raw;
        Some(FlashRequest { image, device_id, mode, verify })
    }

    /// The work has begun, or could not.
    pub fn on_started(&mut self, result: Result<(), String>)
        requires
            old(self).wf(),
        ensures
            final(self).wf(),
            match result {
                Ok(_) => *final(self) == (BootTab { running: true, ..*old(self) }),
                Err(e) => *final(self) == (BootTab {
                    outcome: Some(BootOutcome::Failed(e)),
                    ..*old(self)
                }),
            },
    {
        match result {
            Ok(_) => {
                self.running = true;
            },
            Err(e) => {
                self.outcome = Some(BootOutcome::Failed(e));
            },
        }
    }

    /// The drives were listed, or could not be. A chosen drive that is gone is
    /// no longer chosen.
    pub fn on_scan(&mut self, result: Result<Vec<Device>, String>)
        requires
            old(self).wf(),
        ensures
            final(self).wf(),
            match result {
                Ok(list) => *final(self) == (BootTab {
                    devices: list,
                    selected: match old(self).selected {
                        Some(id) if place_of(list@, id@, 0) >= list@.len() => None,
                        _ => old(self).selected,
                    },
                    scan_error: None,
                    scanning: false,
                    ..*old(self)
                }),
                Err(e) => *final(self) == (BootTab {
                    scan_error: Some(e),
                    scanning: false,
                    ..*old(self)
                }),
            },
    {
        match result {
            Ok(list) => {
                let gone = match &self.selected {
                    Some(id) => find_device(&list, id.as_str()) >= list.len(),
                    None => false,
                };
                if gone {
                    self.selected = None;
                }
                self.devices = list;
                self.scan_error = None;
            },
            Err(e) => {
                self.scan_error = Some(e);
            },
        }
        self.scanning = false;
    }

    /// The line for an event, if it has one.
    pub open spec fn line_for(event: EventView) -> Option<Seq<char>> {
        match event {
            EventView::Phase { name } => Some(name),
            EventView::Progress { done, total } => None,
            EventView::Log { line } => Some(line),
            EventView::Finished => Some("Done — the drive is ready to boot from."@),
            EventView::Failed { message } => Some("Failed: "@ + message),
            EventView::Cancelled => Some(
                "Cancelled — the drive may be left unusable until it's written again."@,
            ),
        }
    }

    fn write_line(event: &Event) -> (r: Option<String>)
        ensures
            match Self::line_for(event@) {
                Some(line) => r is Some && r->0@ == line,
                None => r is None,
            },
    {
        match event {
            Event::Phase { name } => Some(name.clone()),
            Event::Progress { done, total } => None,
            Event::Log { line } => Some(line.clone()),
            Event::Finished => Some("Done — the drive is ready to boot from.".to_owned()),
            Event::Failed { message } => {
                let mut line = "Failed: ".to_owned();
                line.append(message.as_str());
                Some(line)
            },
            Event::Cancelled => Some(
                "Cancelled — the drive may be left unusable until it's written again.".to_owned(),
            ),
        }
    }

    /// The work tells about its progress. When it is over the identifier has to
    /// be typed anew, and the drives are to be listed again.
    pub fn on_event(&mut self, event: Event) -> (notice: Option<Notice>)
        requires
            old(self).wf(),
        ensures
            final(self).wf(),
            match Self::line_for(event@) {
                Some(line) => ui::wrote(old(self).log, final(self).log, line),
                None => final(self).log == old(self).log,
            },
            match event@ {
                EventView::Phase { name } => {
                    &&& final(self).phase@ == name
                    &&& *final(self) == (BootTab {
                        phase: final(self).phase,
                        done: 0,
                        total: 0,
                        log: final(self).log,
                        ..*old(self)
                    })
                },
                EventView::Progress { done, total } => *final(self) == (BootTab {
                    done,
                    total,
                    ..*old(self)
                }),
                EventView::Log { line } => *final(self) == (BootTab {
                    log: final(self).log,
                    ..*old(self)
                }),
                EventView::Finished => final(self).outcome == Some(BootOutcome::Success),
                EventView::Failed { message } => {
                    &&& final(self).outcome matches Some(BootOutcome::Failed(m))
                    &&& m@ == message
                },
                EventView::Cancelled => final(self).outcome == Some(BootOutcome::Cancelled),
            },
            event@.terminal() ==> {
                &&& final(self).confirm_text@ == ""@
                &&& *final(self) == (BootTab {
                    running: false,
                    confirm_text: final(self).confirm_text,
                    outcome: final(self).outcome,
                    log: final(self).log,
                    ..*old(self)
                })
            },
            match event@ {
                EventView::Finished => notice is Some && notice->0.says(
                    "Bootable USB ready"@,
                    "The drive is ready. Safe to unplug."@,
                ),
                EventView::Failed { message } => notice is Some && notice->0.says(
                    "Bootable USB failed"@,
                    message,
                ),
                _ => notice is None,
            },
    {
        match Self::write_line(&event) {
            Some(line) => self.log.push(line),
            None => {},
        }
        if event.is_terminal() {
            self.running = false;
            self.confirm_text = "".to_owned();
        }
        match event {
            Event::Phase { name } => {
                self.phase = name;
                self.done = 0;
                self.total = 0;
                None
            },
            Event::Progress { done, total } => {
                self.done = done;
                self.total = total;
                None
            },
            Event::Log { line } => None,
            Event::Finished => {
                self.outcome = Some(BootOutcome::Success);
                Some(
                    Notice {
                        summary: "Bootable USB ready".to_owned(),
                        body: "The drive is ready. Safe to unplug.".to_owned(),
                    },
                )
            },
            Event::Failed { message } => {
                let body = message.clone();
                self.outcome = Some(BootOutcome::Failed(message));
                Some(Notice { summary: "Bootable USB failed".to_owned(), body })
            },
            Event::Cancelled => {
                self.outcome = Some(BootOutcome::Cancelled);
                None
            },
        }
    }

    /// Whether a drive is too small for the image.
    pub fn is_too_small(&self, device: &Device) -> (r: bool)
        ensures
            r == (self.info matches Some(info) && info.size > device.size),
    {
        match &self.info {
            Some(info) => info.size > device.size,
            None => false,
        }
    }

    /// Chooses a drive, unless it is too small. What was typed for another one
    /// does not count for it.
    pub fn choose_device(&mut self, i: usize)
        requires
            old(self).wf(),
            i < old(self).devices@.len(),
        ensures
            final(self).wf(),
            ({
                let d = old(self).devices@[i as int];
                let too_small = old(self).info matches Some(info) && info.size > d.size;
                let same = old(self).selected matches Some(id) && id@ == d.id@;
                &&& too_small ==> *final(self) == *old(self)
                &&& !too_small ==> {
                    &&& final(self).selected is Some
                    &&& final(self).selected->0@ == d.id@
                    &&& same ==> final(self).confirm_text == old(self).confirm_text
                    &&& !same ==> final(self).confirm_text@ == ""@
                    &&& *final(self) == (BootTab {
                        selected: final(self).selected,
                        confirm_text: final(self).confirm_text,
                        ..*old(self)
                    })
                }
            }),
    {
        if self.is_too_small(&self.devices[i]) {
            return;
        }
        let id = self.devices[i].id.clone();
        let same = match &self.selected {
            Some(chosen) => text::same_text(chosen.as_str(), id.as_str()),
            None => false,
        };
        if !same {
            self.confirm_text = "".to_owned();
        }
        self.selected = Some(id);
    }

    /// What the list shows of a drive.
    pub fn device_label(&self, device: &Device) -> (r: String)
        ensures
            ({
                let line = device.id@ + " — "@ + device.name@ + " ("@ + util::readable(device.size)
                    + ", "@ + device.bus@ + ")"@;
                let too_small = self.info matches Some(info) && info.size > device.size;
                r@ == (if too_small {
                    line + "  — too small for this image"@
                } else {
                    line
                })
            }),
    {
        let mut r = device.id.clone();
        r.append(" — ");
        r.append(device.name.as_str());
        r.append(" (");
        r.append(util::human_bytes(device.size).as_str());
        r.append(", ");
        r.append(device.bus.as_str());
        r.append(")");
        if self.is_too_small(device) {
            r.append("  — too small for this image");
        }
        r
    }

    /// How far the current step is; the speed and the time left where they are
    /// known.
    pub fn progress_label(&self, rate: Option<u64>, left: Option<&str>) -> (r: String)
        ensures
            r@ == ui::speed_line(self.done, self.total, rate, ui::text_of(left)),
    {
        ui::write_speed(self.done, self.total, rate, left)
    }

    /// Whether to say that there are no drives.
    pub fn found_nothing(&self) -> (r: bool)
        ensures
            r == (self.devices@.len() == 0 && !self.scanning && self.scan_error is None),
    {
        self.devices.len() == 0 && !self.scanning && self.scan_error.is_none()
    }

    pub fn outcome_label(&self) -> (r: Option<String>)
        ensures
            match self.outcome {
                Some(BootOutcome::Success) => r is Some && r->0@
                    == "✔ Done. You can unplug the drive and boot from it."@,
                Some(BootOutcome::Failed(m)) => r is Some && r->0@ == "✗ Failed: "@ + m@,
                Some(BootOutcome::Cancelled) => r is Some && r->0@
                    == "Cancelled. The drive may not boot until it's written again."@,
                None => r is None,
            },
    {
        match &self.outcome {
            Some(BootOutcome::Success) => Some(
                "✔ Done. You can unplug the drive and boot from it.".to_owned(),
            ),
            Some(BootOutcome::Failed(m)) => {
                let mut r = "✗ Failed: ".to_owned();
                r.append(m.as_str());
                Some(r)
            },
            Some(BootOutcome::Cancelled) => Some(
                "Cancelled. The drive may not boot until it's written again.".to_owned(),
            ),
            None => None,
        }
    }
}

/// Nothing is written before the identifier of the chosen drive was typed: with
/// nothing typed, as after every run, writing cannot begin.
pub proof fn law_nothing_typed_nothing_written(tab: BootTab)
    requires
        tab.confirm_text@.len() == 0,
        forall|i: int| 0 <= i < tab.devices@.len() ==> (#[trigger] tab.devices@[i]).id@.len() > 0,
    ensures
        !tab.ready(),
{
    let typed = text::trimmed(tab.confirm_text@);
    assert(typed.len() == 0);
    let i = tab.chosen_device();
    if 0 <= i < tab.devices@.len() {
        let id = tab.devices@[i].id@;
        assert(typed.map_values(|c: char| text::ascii_lower(c)).len() == typed.len());
        assert(id.map_values(|c: char| text::ascii_lower(c)).len() == id.len());
    }
}

/// What is said before a drive is erased.
pub fn erase_label(device: &Device) -> (r: String)
    ensures
        r@ == "This will ERASE "@ + device.id@ + " ("@ + device.name@ + ", "@ + util::readable(
            device.size,
        ) + ")."@,
{
    let mut r = "This will ERASE ".to_owned();
    r.append(device.id.as_str());
    r.append(" (");
    r.append(device.name.as_str());
    r.append(", ");
    r.append(util::human_bytes(device.size).as_str());
    r.append(").");
    r
}

/// What is said of a kind of image.
pub fn kind_label(kind: ImageKind) -> (r: &'static str)
    ensures
        r@ == (match kind {
            ImageKind::Hybrid =>
                "✔ Bootable image — it will be written to the drive as-is, then verified."@,
            ImageKind::OpticalOnly =>
                "ℹ Disc-only ISO (like a Windows installer). Its files will be copied onto a FAT32 drive, and install.wim is split if it's over 4 GB."@,
            ImageKind::Unknown => "This doesn't look like a bootable ISO or disk image."@,
        }),
{
    match kind {
        ImageKind::Hybrid =>
            "✔ Bootable image — it will be written to the drive as-is, then verified.",
        ImageKind::OpticalOnly =>
            "ℹ Disc-only ISO (like a Windows installer). Its files will be copied onto a FAT32 drive, and install.wim is split if it's over 4 GB.",
        ImageKind::Unknown => "This doesn't look like a bootable ISO or disk image.",
    }
}

proof fn lemma_place_of(devices: Seq<Device>, id: Seq<char>, i: int)
    requires
        0 <= i <= devices.len(),
    ensures
        i <= place_of(devices, id, i) <= devices.len(),
        place_of(devices, id, i) < devices.len() ==> devices[place_of(devices, id, i)].id@ == id,
        forall|k: int| i <= k < place_of(devices, id, i) ==> (#[trigger] devices[k]).id@ != id,
    decreases devices.len() - i,
{
    if i < devices.len() && devices[i].id@ != id {
        lemma_place_of(devices, id, i + 1);
    }
}

/// Writing can begin only when the image fits the drive that is chosen and what
/// was typed is the identifier of that drive.
pub proof fn law_typed_drive_is_the_chosen_one(tab: &BootTab, go: bool, d: Option<&Device>)
    requires
        call_ensures(BootTab::can_start, (tab,), go),
        call_ensures(BootTab::selected_device, (tab,), d),
    ensures
        go ==> {
            &&& d is Some
            &&& tab.selected is Some && d->0.id@ == tab.selected->0@
            &&& tab.info is Some && tab.info->0.size <= d->0.size
            &&& !tab.running
            &&& text::trimmed(tab.confirm_text@).len() == d->0.id@.len()
            &&& tab.info->0.kind is Unknown ==> tab.force_raw
        },
        (d is Some && !tab.running && tab.info is Some && tab.info->0.size <= d->0.size && (
        !(tab.info->0.kind is Unknown) || tab.force_raw) && text::trimmed(tab.confirm_text@)
            == d->0.id@) ==> go,
{
    if tab.selected is Some {
        lemma_place_of(tab.devices@, tab.selected->0@, 0);
    }
    if go {
        let low = |c: char| text::ascii_lower(c);
        assert(text::trimmed(tab.confirm_text@).map_values(low).len() == d->0.id@.map_values(
            low,
        ).len());
    }
}

/// What is written is the image that was chosen, to the drive that was chosen;
/// only what is written as it is can be compared afterwards.
pub proof fn law_chosen_image_to_chosen_drive(tab: &mut BootTab, r: Option<FlashRequest>)
    requires
        tab.wf(),
        call_ensures(BootTab::start, (tab,), r),
    ensures
        r matches Some(request) ==> {
            &&& old(tab).image is Some && request.image@ == old(tab).image->0@
            &&& old(tab).selected is Some && request.device_id@ == old(tab).selected->0@
            &&& old(tab).info is Some
            &&& old(tab).info->0.kind is Hybrid ==> request.mode is Raw
            &&& old(tab).info->0.kind is OpticalOnly ==> request.mode is WindowsFiles
            &&& old(tab).info->0.kind is Unknown ==> request.mode is Raw && old(tab).force_raw
            &&& request.verify ==> old(tab).verify && request.mode is Raw
            &&& request.mode is Raw && old(tab).verify ==> request.verify
        },
        r is None ==> *final(tab) == *old(tab),
        old(tab).selected is None ==> r is None,
        old(tab).image is None ==> r is None,
{
    if tab.selected is Some {
        lemma_place_of(tab.devices@, tab.selected->0@, 0);
    }
}

/// A new image is looked at afresh: what was decided for another one does not
/// count for it.
pub proof fn law_new_image_is_looked_at_afresh(
    tab: &mut BootTab,
    path: FilePath,
    result: Result<ImageInfo, String>,
    u: (),
)
    requires
        tab.wf(),
        call_ensures(BootTab::set_image, (tab, path, result), u),
    ensures
        final(tab).image == Some(path),
        !final(tab).force_raw,
        final(tab).outcome is None,
        result matches Ok(info) ==> final(tab).info == Some(info) && final(tab).image_error is None,
        result is Err ==> final(tab).info is None && final(tab).image_error is Some,
        final(tab).selected == old(tab).selected,
{
}

/// A drive that is gone is no longer chosen; one that is still there stays
/// chosen.
pub proof fn law_gone_drives_are_not_chosen(
    tab: &mut BootTab,
    list: Vec<Device>,
    u: (),
    i: int,
)
    requires
        tab.wf(),
        tab.selected is Some,
        call_ensures(BootTab::on_scan, (tab, Ok(list)), u),
    ensures
        !final(tab).scanning,
        final(tab).devices == list,
        0 <= i < list@.len() && list@[i].id@ == old(tab).selected->0@ ==> final(tab).selected
            == old(tab).selected,
        (forall|k: int| 0 <= k < list@.len() ==> (#[trigger] list@[k]).id@ != old(tab).selected->0@)
            ==> final(tab).selected is None,
{
    lemma_place_of(list@, tab.selected->0@, 0);
    let p = place_of(list@, tab.selected->0@, 0);
    if p < list@.len() {
        assert(list@[p].id@ == tab.selected->0@);
    }
}

/// When the work is over nothing typed is left, and how it ended is shown.
pub proof fn law_every_run_is_confirmed_anew(
    tab: &mut BootTab,
    event: Event,
    notice: Option<Notice>,
)
    requires
        tab.wf(),
        call_ensures(BootTab::on_event, (tab, event), notice),
    ensures
        event is Finished || event is Failed || event is Cancelled ==> {
            &&& !final(tab).running
            &&& final(tab).confirm_text@.len() == 0
            &&& final(tab).outcome is Some
        },
        event is Finished <==> (notice is Some && final(tab).outcome == Some(BootOutcome::Success)),
        event is Cancelled ==> final(tab).outcome == Some(BootOutcome::Cancelled) && notice is None,
        event is Phase || event is Progress || event is Log ==> final(tab).running == old(tab).running && final(tab).outcome == old(tab).outcome && notice is None,
{
    reveal_strlit("");
}

/// A drive that is too small is not chosen, and what was typed for one drive
/// never counts for another.
pub proof fn law_typing_counts_for_one_drive(tab: &mut BootTab, i: usize, u: ())
    requires
        tab.wf(),
        i < tab.devices@.len(),
        call_ensures(BootTab::choose_device, (tab, i), u),
    ensures
        ({
            let d = old(tab).devices@[i as int];
            let fits = old(tab).info is None || old(tab).info->0.size <= d.size;
            &&& fits ==> final(tab).selected is Some && final(tab).selected->0@ == d.id@
            &&& !fits ==> final(tab).selected == old(tab).selected
            &&& (final(tab).selected is Some && (old(tab).selected is None || old(tab).selected->0@ != final(tab).selected->0@)) ==> final(tab).confirm_text@.len() == 0
        }),
{
    reveal_strlit("");
}

/// An image that can be started from is written as it is, the files of a disc
/// are copied, and what was not recognised is written only if the user insists.
pub proof fn law_images_are_written_by_kind(tab: &BootTab, r: Option<Mode>)
    requires
        call_ensures(BootTab::mode, (tab,), r),
    ensures
        tab.info is None ==> r is None,
        tab.info matches Some(info) ==> {
            &&& info.kind is Hybrid ==> r == Some(Mode::Raw)
            &&& info.kind is OpticalOnly ==> r == Some(Mode::WindowsFiles)
            &&& info.kind is Unknown && tab.force_raw ==> r == Some(Mode::Raw)
            &&& info.kind is Unknown && !tab.force_raw ==> r is None
        },
{
}

/// A drive is too small just where it has less space than the image.
pub proof fn law_small_drives_are_told(tab: &BootTab, device: &Device, r: bool)
    requires
        call_ensures(BootTab::is_too_small, (tab, device), r),
    ensures
        tab.info matches Some(info) ==> (r <==> device.size < info.size),
        tab.info is None ==> !r,
{
}

/// The warning names the drive that is erased.
pub proof fn law_warning_names_the_drive(device: &Device, size: String, r: String)
    requires
        call_ensures(util::human_bytes, (device.size,), size),
        call_ensures(erase_label, (device,), r),
    ensures
        r@ == "This will ERASE "@ + device.id@ + " ("@ + device.name@ + ", "@ + size@ + ")."@,
{
}

} // verus!
