//! Drives that could become bootable sticks, read from what the tools of each
//! system list. The disk that the system needs is always marked.

use vstd::prelude::*;

use crate::bootable::{Device, DeviceView};
use crate::json;
use crate::json::{Json, JsonView};
use crate::text;
use crate::{EngineError, EngineResult, ErrorView};

verus! {

broadcast use text::views_push;

proof fn lemma_field_from_smaller(fields: Seq<(Seq<char>, JsonView)>, key: Seq<char>, i: int)
    requires
        0 <= i,
    ensures
        json::field_from(fields, key, i) is Null || decreases_to!(fields => json::field_from(fields, key, i)),
    decreases fields.len() - i,
{
    if i < fields.len() {
        if fields[i].0 == key {
            let f = fields[i];
            assert(decreases_to!(fields => fields[i]));
            assert(decreases_to!(f => f.1));
        } else {
            lemma_field_from_smaller(fields, key, i + 1);
        }
    }
}

/// The items of a field are a smaller part of the value.
pub proof fn lemma_items_smaller(node: JsonView, key: Seq<char>)
    ensures
        node.field(key).items().len() > 0 ==> decreases_to!(node => node.field(key).items()),
{
    match node {
        JsonView::Object(fields) => {
            lemma_field_from_smaller(fields, key, 0);
            assert(decreases_to!(node => node->Object_0));
            let f = json::field_from(fields, key, 0);
            match f {
                JsonView::List(v) => {
                    assert(decreases_to!(f => f->List_0));
                },
                _ => {},
            }
        },
        _ => {},
    }
}

/// The texts among the first `n` items.
pub open spec fn texts(items: Seq<JsonView>, n: int) -> Seq<Seq<char>>
    decreases n,
{
    if n <= 0 {
        Seq::empty()
    } else {
        match items[n - 1].as_text() {
            Some(s) => texts(items, n - 1).push(s),
            None => texts(items, n - 1),
        }
    }
}

/// Where a block device itself is mounted.
pub open spec fn own_mounts(node: JsonView) -> Seq<Seq<char>> {
    let items = node.field("mountpoints"@).items();
    (match node.field("mountpoint"@).as_text() {
        Some(s) => seq![s],
        None => Seq::empty(),
    }) + texts(items, items.len() as int)
}

/// Where a block device and everything below it is mounted.
pub open spec fn all_mounts(node: JsonView) -> Seq<Seq<char>>
    decreases node, 0int,
{
    let children = node.field("children"@).items();
    if children.len() == 0 {
        own_mounts(node)
    } else {
        proof {
            lemma_items_smaller(node, "children"@);
        }
        own_mounts(node) + mounts_among(children, children.len() as int)
    }
}

/// Where the first `n` of the block devices, and everything below them, are
/// mounted.
pub open spec fn mounts_among(nodes: Seq<JsonView>, n: int) -> Seq<Seq<char>>
    decreases nodes, n,
{
    if n <= 0 || n > nodes.len() {
        Seq::empty()
    } else {
        mounts_among(nodes, n - 1) + all_mounts(nodes[n - 1])
    }
}

fn push_texts(v: &Json, out: &mut Vec<String>)
    ensures
        text::views(final(out)@) == text::views(old(out)@) + texts(
            v@.items(),
            v@.items().len() as int,
        ),
{
    match v {
        Json::List(items) => {
            let ghost start = text::views(out@);
            let ghost all = v@.items();
            proof {
                reveal_with_fuel(Json::tree, 2);
                assert(start + Seq::<Seq<char>>::empty() =~= start);
            }
            let mut i: usize = 0;
            while i < items.len()
                invariant
                    i <= items@.len(),
                    all.len() == items@.len(),
                    forall|j: int| 0 <= j < items@.len() ==> #[trigger] all[j] == items@[j]@,
                    text::views(out@) == start + texts(all, i as int),
                decreases items@.len() - i,
            {
                proof {
                    assert(all[i as int] == items@[i as int]@);
                }
                match &items[i] {
                    Json::Text(s) => {
                        let ghost before = text::views(out@);
                        out.push(s.clone());
                        proof {
                            assert(text::views(out@) =~= start + texts(all, i as int).push(s@));
                        }
                    },
                    _ => {},
                }
                i = i + 1;
            }
        },
        _ => {
            proof {
                assert(text::views(out@) + Seq::<Seq<char>>::empty() =~= text::views(out@));
            }
        },
    }
}

/// Adds where a block device and everything below it is mounted.
pub fn collect_mounts(node: &Json, out: &mut Vec<String>)
    ensures
        text::views(final(out)@) == text::views(old(out)@) + all_mounts(node@),
    decreases node@,
{
    let ghost start = text::views(out@);
    match node.text_field("mountpoint") {
        Some(m) => {
            out.push(m);
        },
        None => {},
    }
    match node.field("mountpoints") {
        Some(list) => push_texts(list, out),
        None => {
            proof {
                assert(texts(node@.field("mountpoints"@).items(), 0) =~= Seq::<Seq<char>>::empty());
            }
        },
    }
    proof {
        assert(text::views(out@) =~= start + own_mounts(node@));
    }
    match node.field("children") {
        Some(Json::List(children)) => {
            let ghost all = node@.field("children"@).items();
            let ghost own = text::views(out@);
            proof {
                reveal_with_fuel(Json::tree, 2);
                assert(own + Seq::<Seq<char>>::empty() =~= own);
            }
            let mut i: usize = 0;
            while i < children.len()
                invariant
                    i <= children@.len(),
                    all == node@.field("children"@).items(),
                    all.len() == children@.len(),
                    forall|j: int| 0 <= j < children@.len() ==> #[trigger] all[j] == children@[j]@,
                    text::views(out@) == own + mounts_among(all, i as int),
                decreases children@.len() - i,
            {
                proof {
                    lemma_items_smaller(node@, "children"@);
                    assert(all[i as int] == children@[i as int]@);
                    assert(decreases_to!(all => all[i as int]));
                }
                let ghost before = text::views(out@);
                collect_mounts(&children[i], out);
                proof {
                    assert(text::views(out@) =~= own + mounts_among(all, i + 1));
                }
                i = i + 1;
            }
            proof {
                assert(text::views(out@) =~= start + all_mounts(node@));
            }
        },
        _ => {},
    }
}

/// Mount points that the running system needs.
pub open spec fn critical_mounts() -> Seq<Seq<char>> {
    seq![
        "/"@,
        "/boot"@,
        "/boot/efi"@,
        "/home"@,
        "/usr"@,
        "/var"@,
        "/etc"@,
        "/opt"@,
        "/nix"@,
        "[SWAP]"@,
    ]
}

fn is_critical(mount: &str) -> (r: bool)
    ensures
        r == critical_mounts().contains(mount@),
{
    let list: [&str; 10] = [
        "/",
        "/boot",
        "/boot/efi",
        "/home",
        "/usr",
        "/var",
        "/etc",
        "/opt",
        "/nix",
        "[SWAP]",
    ];
    proof {
        assert(text::literals(list@) =~= critical_mounts());
    }
    text::one_of(mount, &list)
}

/// Whether one of the mount points is one that the system needs.
pub open spec fn holds_system(mounts: Seq<Seq<char>>) -> bool {
    exists|i: int| 0 <= i < mounts.len() && critical_mounts().contains(#[trigger] mounts[i])
}

fn any_critical(mounts: &Vec<String>) -> (r: bool)
    ensures
        r == holds_system(text::views(mounts@)),
{
    let ghost all = text::views(mounts@);
    let mut i: usize = 0;
    while i < mounts.len()
        invariant
            i <= mounts@.len(),
            all == text::views(mounts@),
            forall|j: int| 0 <= j < i ==> !critical_mounts().contains(#[trigger] all[j]),
        decreases mounts@.len() - i,
    {
        proof {
            assert(all[i as int] == mounts@[i as int]@);
        }
        if is_critical(mounts[i].as_str()) {
            return true;
        }
        i = i + 1;
    }
    false
}

/// The mount points among the first `n` that are folders, not swap space.
pub open spec fn folders(mounts: Seq<Seq<char>>, n: int) -> Seq<Seq<char>>
    decreases n,
{
    if n <= 0 {
        Seq::empty()
    } else if mounts[n - 1] == "[SWAP]"@ {
        folders(mounts, n - 1)
    } else {
        folders(mounts, n - 1).push(mounts[n - 1])
    }
}

fn without_swap(mounts: &Vec<String>) -> (r: Vec<String>)
    ensures
        text::views(r@) == folders(text::views(mounts@), mounts@.len() as int),
{
    let ghost all = text::views(mounts@);
    let mut r: Vec<String> = Vec::new();
    let mut i: usize = 0;
    while i < mounts.len()
        invariant
            i <= mounts@.len(),
            all == text::views(mounts@),
            text::views(r@) == folders(all, i as int),
        decreases mounts@.len() - i,
    {
        proof {
            assert(all[i as int] == mounts@[i as int]@);
        }
        if !text::same_text(mounts[i].as_str(), "[SWAP]") {
            r.push(mounts[i].clone());
        }
        i = i + 1;
    }
    r
}

/// The name shown for a drive: vendor and model, or a stand-in.
pub open spec fn drive_label(vendor: Seq<char>, model: Seq<char>) -> Seq<char> {
    let label = text::trimmed(text::trimmed(vendor) + " "@ + text::trimmed(model));
    if label.len() == 0 {
        "Unknown drive"@
    } else {
        label
    }
}

/// The drive that an entry of `lsblk` describes: a disk that can be removed.
pub open spec fn lsblk_device(d: JsonView) -> Option<DeviceView> {
    let bus = d.field("tran"@).text_or(""@);
    let removable = d.field("rm"@).truth() || d.field("hotplug"@).truth() || bus == "usb"@;
    let mounts = all_mounts(d);
    match d.field("name"@).as_text() {
        Some(name) if d.field("type"@).as_text() == Some("disk"@) && removable => Some(
            DeviceView {
                id: name,
                node: d.field("path"@).text_or("/dev/"@ + name),
                name: drive_label(
                    d.field("vendor"@).text_or(""@),
                    d.field("model"@).text_or(""@),
                ),
                size: d.field("size"@).number() as u64,
                bus,
                mounted: folders(mounts, mounts.len() as int),
                is_system: holds_system(mounts),
                is_virtual: false,
            },
        ),
        _ => None,
    }
}

fn read_lsblk_device(d: &Json) -> (r: Option<Device>)
    ensures
        match lsblk_device(d@) {
            Some(v) => r is Some && r->0@ == v,
            None => r is None,
        },
{
    match d.text_field("type") {
        Some(t) => {
            if !text::same_text(t.as_str(), "disk") {
                return None;
            }
        },
        None => return None,
    }
    let bus = d.text_field_or("tran", "");
    if !(d.bool_field("rm") || d.bool_field("hotplug") || text::same_text(bus.as_str(), "usb")) {
        return None;
    }
    let name = match d.text_field("name") {
        Some(n) => n,
        None => return None,
    };
    let mut mounts: Vec<String> = Vec::new();
    collect_mounts(d, &mut mounts);
    proof {
        assert(text::views(mounts@) =~= all_mounts(d@));
    }
    let is_system = any_critical(&mounts);
    let mut label = text::trim(d.text_field_or("vendor", "").as_str());
    label.append(" ");
    label.append(text::trim(d.text_field_or("model", "").as_str()).as_str());
    let label = text::trim(label.as_str());
    let mut fallback = "/dev/".to_owned();
    fallback.append(name.as_str());
    let node = d.text_field_or("path", fallback.as_str());
    let shown = if label.as_str().is_empty() {
        "Unknown drive".to_owned()
    } else {
        label
    };
    let device = Device {
        id: name,
        node,
        name: shown,
        size: d.number_field("size"),
        bus,
        mounted: without_swap(&mounts),
        is_system,
        is_virtual: false,
    };
    proof {
        assert(device@ =~= lsblk_device(d@)->0);
    }
    Some(device)
}

pub open spec fn device_views(v: Seq<Device>) -> Seq<DeviceView> {
    v.map_values(|d: Device| d@)
}

proof fn lemma_device_views_push(v: Seq<Device>, d: Device)
    ensures
        device_views(v.push(d)) == device_views(v).push(d@),
{
    assert(device_views(v.push(d)) =~= device_views(v).push(d@));
}

/// The drives that the first `n` entries of `lsblk` describe.
pub open spec fn lsblk_devices(items: Seq<JsonView>, n: int) -> Seq<DeviceView>
    decreases n,
{
    if n <= 0 {
        Seq::empty()
    } else {
        match lsblk_device(items[n - 1]) {
            Some(d) => lsblk_devices(items, n - 1).push(d),
            None => lsblk_devices(items, n - 1),
        }
    }
}

/// The drives in the listing of `lsblk`.
pub fn lsblk_listing(root: &Json) -> (r: Vec<Device>)
    ensures
        ({
            let items = root@.field("blockdevices"@).items();
            device_views(r@) == lsblk_devices(items, items.len() as int)
        }),
{
    let mut r: Vec<Device> = Vec::new();
    proof {
        assert(device_views(r@) =~= Seq::<DeviceView>::empty());
    }
    match root.field("blockdevices") {
        Some(Json::List(entries)) => {
            let ghost items = root@.field("blockdevices"@).items();
            proof {
                reveal_with_fuel(Json::tree, 2);
            }
            let mut i: usize = 0;
            while i < entries.len()
                invariant
                    i <= entries@.len(),
                    items == root@.field("blockdevices"@).items(),
                    items.len() == entries@.len(),
                    forall|j: int| 0 <= j < entries@.len() ==> #[trigger] items[j] == entries@[j]@,
                    device_views(r@) == lsblk_devices(items, i as int),
                decreases entries@.len() - i,
            {
                proof {
                    assert(items[i as int] == entries@[i as int]@);
                }
                match read_lsblk_device(&entries[i]) {
                    Some(d) => {
                        proof {
                            lemma_device_views_push(r@, d);
                        }
                        r.push(d);
                    },
                    None => {},
                }
                i = i + 1;
            }
        },
        _ => {},
    }
    r
}

/// The drives in the output of `lsblk`.
pub fn parse_lsblk(output: &str) -> (r: EngineResult<Vec<Device>>)
    ensures
        match json::json_value(output@) {
            Some(root) => {
                let items = root.field("blockdevices"@).items();
                r is Ok && device_views(r->Ok_0@) == lsblk_devices(items, items.len() as int)
            },
            None => r is Err && r->Err_0@ == ErrorView::Other(
                "bad lsblk output: "@ + json::json_error(output@),
            ),
        },
{
    match json::parse_json(output) {
        Ok(root) => Ok(lsblk_listing(&root)),
        Err(e) => {
            let mut m = "bad lsblk output: ".to_owned();
            m.append(e.as_str());
            Err(EngineError::Other(m))
        },
    }
}

/// A disk that `lsblk` lists and on which the system has something it needs is
/// never a safe target.
pub proof fn law_system_disk_is_refused(d: JsonView, allow_virtual: bool)
    requires
        lsblk_device(d) is Some,
        holds_system(all_mounts(d)),
    ensures
        !lsblk_device(d)->0.safe_target(allow_virtual),
{
}

/// The bus that an entry of `Get-Disk` names, as text or by number.
pub open spec fn bus_name(v: JsonView) -> Seq<char> {
    match v {
        JsonView::Text(s) => s,
        JsonView::Number(Some(n)) => text::dec(n as nat),
        _ => ""@,
    }
}

/// The buses that removable drives are on.
pub open spec fn removable_bus(bus: Seq<char>) -> bool {
    seq!["USB"@, "SD"@, "MMC"@, "7"@, "12"@, "13"@].contains(bus)
}

/// The drive that an entry of `Get-Disk` describes: one on a removable bus.
pub open spec fn get_disk_device(d: JsonView) -> Option<DeviceView> {
    let bus = bus_name(d.field("BusType"@));
    match d.field("Number"@) {
        JsonView::Number(Some(n)) if removable_bus(bus) => Some(
            DeviceView {
                id: "Disk "@ + text::dec(n as nat),
                node: "\\\\.\\PhysicalDrive"@ + text::dec(n as nat),
                name: text::trimmed(d.field("FriendlyName"@).text_or("Unknown drive"@)),
                size: d.field("Size"@).number() as u64,
                bus,
                mounted: Seq::empty(),
                is_system: d.field("IsBoot"@).truth() || d.field("IsSystem"@).truth(),
                is_virtual: false,
            },
        ),
        _ => None,
    }
}

fn read_get_disk_device(d: &Json) -> (r: Option<Device>)
    ensures
        match get_disk_device(d@) {
            Some(v) => r is Some && r->0@ == v,
            None => r is None,
        },
{
    let bus = match d.field("BusType") {
        Some(Json::Text(s)) => s.clone(),
        Some(Json::Number(n)) => match n {
            Some(k) => text::decimal(*k),
            None => "".to_owned(),
        },
        _ => "".to_owned(),
    };
    proof {
        reveal_with_fuel(Json::tree, 2);
        assert(bus@ == bus_name(d@.field("BusType"@)));
    }
    let buses: [&str; 6] = ["USB", "SD", "MMC", "7", "12", "13"];
    proof {
        assert(text::literals(buses@) =~= seq!["USB"@, "SD"@, "MMC"@, "7"@, "12"@, "13"@]);
    }
    if !text::one_of(bus.as_str(), &buses) {
        return None;
    }
    let number: u64 = match d.field("Number") {
        Some(Json::Number(n)) => match n {
            Some(k) => *k,
            None => return None,
        },
        _ => return None,
    };
    let digits = text::decimal(number);
    let mut id = "Disk ".to_owned();
    id.append(digits.as_str());
    let mut node = "\\\\.\\PhysicalDrive".to_owned();
    node.append(digits.as_str());
    let device = Device {
        id,
        node,
        name: text::trim(d.text_field_or("FriendlyName", "Unknown drive").as_str()),
        size: d.number_field("Size"),
        bus,
        mounted: Vec::new(),
        is_system: d.bool_field("IsBoot") || d.bool_field("IsSystem"),
        is_virtual: false,
    };
    proof {
        assert(text::views(device.mounted@) =~= Seq::<Seq<char>>::empty());
        assert(device@ =~= get_disk_device(d@)->0);
    }
    Some(device)
}

/// The drives that the first `n` entries of `Get-Disk` describe.
pub open spec fn get_disk_devices(items: Seq<JsonView>, n: int) -> Seq<DeviceView>
    decreases n,
{
    if n <= 0 {
        Seq::empty()
    } else {
        match get_disk_device(items[n - 1]) {
            Some(d) => get_disk_devices(items, n - 1).push(d),
            None => get_disk_devices(items, n - 1),
        }
    }
}

/// The entries of `Get-Disk`: it prints a list, or one bare entry.
pub open spec fn get_disk_entries(root: JsonView) -> Seq<JsonView> {
    match root {
        JsonView::List(v) => v,
        other => seq![other],
    }
}

/// The drives in the listing of `Get-Disk`.
pub fn get_disk_listing(root: Json) -> (r: Vec<Device>)
    ensures
        ({
            let items = get_disk_entries(root@);
            device_views(r@) == get_disk_devices(items, items.len() as int)
        }),
{
    let ghost items = get_disk_entries(root@);
    proof {
        reveal_with_fuel(Json::tree, 2);
    }
    let entries: Vec<Json> = match root {
        Json::List(v) => v,
        other => {
            let mut one: Vec<Json> = Vec::new();
            one.push(other);
            one
        },
    };
    let mut r: Vec<Device> = Vec::new();
    proof {
        assert(device_views(r@) =~= Seq::<DeviceView>::empty());
    }
    let mut i: usize = 0;
    while i < entries.len()
        invariant
            i <= entries@.len(),
            items.len() == entries@.len(),
            forall|j: int| 0 <= j < entries@.len() ==> #[trigger] items[j] == entries@[j]@,
            device_views(r@) == get_disk_devices(items, i as int),
        decreases entries@.len() - i,
    {
        proof {
            assert(items[i as int] == entries@[i as int]@);
        }
        match read_get_disk_device(&entries[i]) {
            Some(d) => {
                proof {
                    lemma_device_views_push(r@, d);
                }
                r.push(d);
            },
            None => {},
        }
        i = i + 1;
    }
    r
}

/// The drives in the output of `Get-Disk`, which is empty when there are none.
pub fn parse_get_disk(output: &str) -> (r: EngineResult<Vec<Device>>)
    ensures
        ({
            let s = text::trimmed(output@);
            if s.len() == 0 {
                r is Ok && device_views(r->Ok_0@) == Seq::<DeviceView>::empty()
            } else {
                match json::json_value(s) {
                    Some(root) => {
                        let items = get_disk_entries(root);
                        r is Ok && device_views(r->Ok_0@) == get_disk_devices(
                            items,
                            items.len() as int,
                        )
                    },
                    None => r is Err && r->Err_0@ == ErrorView::Other(
                        "bad Get-Disk output: "@ + json::json_error(s),
                    ),
                }
            }
        }),
{
    let s = text::trim(output);
    if s.as_str().is_empty() {
        let none: Vec<Device> = Vec::new();
        proof {
            assert(device_views(none@) =~= Seq::<DeviceView>::empty());
        }
        return Ok(none);
    }
    match json::parse_json(s.as_str()) {
        Ok(root) => Ok(get_disk_listing(root)),
        Err(e) => {
            let mut m = "bad Get-Disk output: ".to_owned();
            m.append(e.as_str());
            Err(EngineError::Other(m))
        },
    }
}

/// The drive that `diskutil info` describes: a whole disk that is external or
/// can be removed. The disk that the system runs from is marked.
pub open spec fn diskutil_device(
    info: JsonView,
    mounted: Seq<Seq<char>>,
    boot_disk: Option<Seq<char>>,
) -> Option<DeviceView> {
    let internal = info.field("Internal"@).truth();
    let removable = info.field("RemovableMedia"@).truth() || info.field(
        "RemovableMediaOrExternalDevice"@,
    ).truth();
    match info.field("DeviceIdentifier"@).as_text() {
        Some(id) if info.field("WholeDisk"@).truth() && (internal ==> removable) => Some(
            DeviceView {
                id,
                node: "/dev/r"@ + id,
                name: text::trimmed(info.field("MediaName"@).text_or("Unknown drive"@)),
                size: info.field("Size"@).number() as u64,
                bus: info.field("BusProtocol"@).text_or(""@),
                mounted,
                is_system: boot_disk == Some(id) || info.field("SystemImage"@).truth(),
                is_virtual: info.field("VirtualOrPhysical"@).as_text() == Some("Virtual"@)
                    || info.field("BusProtocol"@).as_text() == Some("Disk Image"@),
            },
        ),
        _ => None,
    }
}

fn field_is(v: &Json, key: &str, s: &str) -> (r: bool)
    ensures
        r == (v@.field(key@).as_text() == Some(s@)),
{
    match v.text_field(key) {
        Some(t) => text::same_text(t.as_str(), s),
        None => false,
    }
}

/// Reads what `diskutil info` tells of a disk.
pub fn parse_info(info: &Json, mounted: Vec<String>, boot_disk: Option<&str>) -> (r: Option<Device>)
    ensures
        match diskutil_device(
            info@,
            text::views(mounted@),
            match boot_disk {
                Some(b) => Some(b@),
                None => None,
            },
        ) {
            Some(v) => r is Some && r->0@ == v,
            None => r is None,
        },
{
    if !info.bool_field("WholeDisk") {
        return None;
    }
    let internal = info.bool_field("Internal");
    let removable = info.bool_field("RemovableMedia") || info.bool_field(
        "RemovableMediaOrExternalDevice",
    );
    if internal && !removable {
        return None;
    }
    let id = match info.text_field("DeviceIdentifier") {
        Some(id) => id,
        None => return None,
    };
    let is_virtual = field_is(info, "VirtualOrPhysical", "Virtual") || field_is(
        info,
        "BusProtocol",
        "Disk Image",
    );
    let is_boot = match boot_disk {
        Some(b) => text::same_text(b, id.as_str()),
        None => false,
    };
    let is_system = is_boot || info.bool_field("SystemImage");
    let mut node = "/dev/r".to_owned();
    node.append(id.as_str());
    Some(
        Device {
            node,
            name: text::trim(info.text_field_or("MediaName", "Unknown drive").as_str()),
            size: info.number_field("Size"),
            bus: info.text_field_or("BusProtocol", ""),
            mounted,
            is_system,
            is_virtual,
            id,
        },
    )
}

/// A drive that `Get-Disk` marks as one the system starts or runs from, and the
/// disk that `diskutil` names as holding the system's volume, are never safe
/// targets.
pub proof fn law_boot_disk_is_refused(
    d: JsonView,
    mounted: Seq<Seq<char>>,
    boot_disk: Seq<char>,
    allow_virtual: bool,
)
    ensures
        get_disk_device(d) is Some && (d.field("IsBoot"@).truth() || d.field("IsSystem"@).truth())
            ==> !get_disk_device(d)->0.safe_target(allow_virtual),
        diskutil_device(d, mounted, Some(boot_disk)) is Some && d.field(
            "DeviceIdentifier"@,
        ).as_text() == Some(boot_disk) ==> !diskutil_device(
            d,
            mounted,
            Some(boot_disk),
        )->0.safe_target(allow_virtual),
{
}

/// Where the partitions of one disk of the listing, and the disk itself, are
/// mounted.
pub open spec fn disk_mounts(disk: JsonView) -> Seq<Seq<char>> {
    let parts = disk.field("Partitions"@).items();
    let points = Seq::new(parts.len(), |i: int| parts[i].field("MountPoint"@));
    texts(points, points.len() as int) + (match disk.field("MountPoint"@).as_text() {
        Some(s) => seq![s],
        None => Seq::empty(),
    })
}

/// Where the disk `whole` is mounted according to the first `n` entries.
pub open spec fn mounts_listed(disks: Seq<JsonView>, whole: Seq<char>, n: int) -> Seq<Seq<char>>
    decreases n,
{
    if n <= 0 {
        Seq::empty()
    } else if disks[n - 1].field("DeviceIdentifier"@).as_text() == Some(whole) {
        mounts_listed(disks, whole, n - 1) + disk_mounts(disks[n - 1])
    } else {
        mounts_listed(disks, whole, n - 1)
    }
}

fn push_disk_mounts(disk: &Json, out: &mut Vec<String>)
    ensures
        text::views(final(out)@) == text::views(old(out)@) + disk_mounts(disk@),
{
    let ghost start = text::views(out@);
    let ghost parts = disk@.field("Partitions"@).items();
    let ghost points = Seq::new(parts.len(), |i: int| parts[i].field("MountPoint"@));
    match disk.field("Partitions") {
        Some(Json::List(list)) => {
            proof {
                reveal_with_fuel(Json::tree, 2);
                assert(start + Seq::<Seq<char>>::empty() =~= start);
            }
            let mut i: usize = 0;
            while i < list.len()
                invariant
                    i <= list@.len(),
                    points == Seq::new(parts.len(), |i: int| parts[i].field("MountPoint"@)),
                    parts.len() == list@.len(),
                    forall|j: int| 0 <= j < list@.len() ==> #[trigger] parts[j] == list@[j]@,
                    text::views(out@) == start + texts(points, i as int),
                decreases list@.len() - i,
            {
                proof {
                    assert(parts[i as int] == list@[i as int]@);
                    assert(points[i as int] == parts[i as int].field("MountPoint"@));
                }
                match list[i].text_field("MountPoint") {
                    Some(m) => {
                        let ghost before = text::views(out@);
                        out.push(m);
                        proof {
                            assert(text::views(out@) =~= start + texts(points, i as int).push(m@));
                        }
                    },
                    None => {},
                }
                i = i + 1;
            }
        },
        _ => {
            proof {
                assert(points.len() == 0);
                assert(start + texts(points, 0) =~= start);
            }
        },
    }
    let ghost before = text::views(out@);
    match disk.text_field("MountPoint") {
        Some(m) => {
            out.push(m);
        },
        None => {},
    }
    proof {
        assert(text::views(out@) =~= start + disk_mounts(disk@));
    }
}

/// Where the disk `whole` is mounted according to `diskutil list`.
pub fn mount_points_of(listing: &Json, whole: &str) -> (r: Vec<String>)
    ensures
        ({
            let disks = listing@.field("AllDisksAndPartitions"@).items();
            text::views(r@) == mounts_listed(disks, whole@, disks.len() as int)
        }),
{
    let mut r: Vec<String> = Vec::new();
    proof {
        assert(text::views(r@) =~= Seq::<Seq<char>>::empty());
    }
    match listing.field("AllDisksAndPartitions") {
        Some(Json::List(list)) => {
            let ghost disks = listing@.field("AllDisksAndPartitions"@).items();
            proof {
                reveal_with_fuel(Json::tree, 2);
            }
            let mut i: usize = 0;
            while i < list.len()
                invariant
                    i <= list@.len(),
                    disks == listing@.field("AllDisksAndPartitions"@).items(),
                    disks.len() == list@.len(),
                    forall|j: int| 0 <= j < list@.len() ==> #[trigger] disks[j] == list@[j]@,
                    text::views(r@) == mounts_listed(disks, whole@, i as int),
                decreases list@.len() - i,
            {
                proof {
                    assert(disks[i as int] == list@[i as int]@);
                }
                if field_is(&list[i], "DeviceIdentifier", whole) {
                    push_disk_mounts(&list[i], &mut r);
                }
                i = i + 1;
            }
        },
        _ => {},
    }
    r
}

/// The whole disks that `diskutil list` names.
pub fn whole_disks(listing: &Json) -> (r: Vec<String>)
    ensures
        ({
            let items = listing@.field("WholeDisks"@).items();
            text::views(r@) == texts(items, items.len() as int)
        }),
{
    let mut r: Vec<String> = Vec::new();
    match listing.field("WholeDisks") {
        Some(list) => push_texts(list, &mut r),
        None => {},
    }
    proof {
        let items = listing@.field("WholeDisks"@).items();
        assert(text::views(r@) =~= texts(items, items.len() as int));
    }
    r
}

/// What the tools of a system told of its drives.
#[derive(Debug)]
pub enum DriveListing {
    Lsblk(String),
    GetDisk(String),
    Diskutil {
        listing: Json,
        /// What is known of the volume the system runs from.
        boot: Option<Json>,
        /// What is known of each of the whole disks, in their order.
        infos: Vec<Option<Json>>,
    },
    Unsupported,
}

/// The drives that `diskutil` told of, for the first `n` whole disks.
pub open spec fn diskutil_devices(
    listing: JsonView,
    boot_disk: Option<Seq<char>>,
    ids: Seq<Seq<char>>,
    infos: Seq<Option<Json>>,
    n: int,
) -> Seq<DeviceView>
    decreases n,
{
    if n <= 0 {
        Seq::empty()
    } else {
        let before = diskutil_devices(listing, boot_disk, ids, infos, n - 1);
        let disks = listing.field("AllDisksAndPartitions"@).items();
        match infos[n - 1] {
            Some(info) if n <= infos.len() => {
                match diskutil_device(
                    info@,
                    mounts_listed(disks, ids[n - 1], disks.len() as int),
                    boot_disk,
                ) {
                    Some(d) => before.push(d),
                    None => before,
                }
            },
            _ => before,
        }
    }
}

/// The disk that holds the volume the system runs from.
pub open spec fn boot_disk_of(boot: Option<Json>) -> Option<Seq<char>> {
    match boot {
        Some(info) => info@.field("ParentWholeDisk"@).as_text(),
        None => None,
    }
}

/// The drives that `diskutil` told of.
pub fn diskutil_listing(listing: &Json, boot: &Option<Json>, infos: &Vec<Option<Json>>) -> (r: Vec<
    Device,
>)
    ensures
        ({
            let items = listing@.field("WholeDisks"@).items();
            let ids = texts(items, items.len() as int);
            device_views(r@) == diskutil_devices(
                listing@,
                boot_disk_of(*boot),
                ids,
                infos@,
                ids.len() as int,
            )
        }),
{
    let boot_disk: Option<String> = match boot {
        Some(info) => info.text_field("ParentWholeDisk"),
        None => None,
    };
    let ids = whole_disks(listing);
    let ghost names = text::views(ids@);
    let ghost boot_name = boot_disk_of(*boot);
    let mut r: Vec<Device> = Vec::new();
    proof {
        assert(device_views(r@) =~= Seq::<DeviceView>::empty());
    }
    let mut i: usize = 0;
    while i < ids.len()
        invariant
            i <= ids@.len(),
            names == text::views(ids@),
            boot_name == (match boot_disk {
                Some(b) => Some(b@),
                None => None::<Seq<char>>,
            }),
            device_views(r@) == diskutil_devices(
                listing@,
                boot_name,
                names,
                infos@,
                i as int,
            ),
        decreases ids@.len() - i,
    {
        proof {
            assert(names[i as int] == ids@[i as int]@);
        }
        if i < infos.len() {
            match &infos[i] {
                Some(info) => {
                    let mounted = mount_points_of(listing, ids[i].as_str());
                    let boot_text: Option<&str> = match &boot_disk {
                        Some(b) => Some(b.as_str()),
                        None => None,
                    };
                    match parse_info(info, mounted, boot_text) {
                        Some(d) => {
                            proof {
                                lemma_device_views_push(r@, d);
                            }
                            r.push(d);
                        },
                        None => {},
                    }
                },
                None => {},
            }
        }
        i = i + 1;
    }
    r
}

/// The drives that the tools told of, or what is wrong with what they told.
pub open spec fn listed_devices(listing: DriveListing) -> Result<Seq<DeviceView>, ErrorView> {
    match listing {
        DriveListing::Lsblk(output) => match json::json_value(output@) {
            Some(root) => {
                let items = root.field("blockdevices"@).items();
                Ok(lsblk_devices(items, items.len() as int))
            },
            None => Err(ErrorView::Other("bad lsblk output: "@ + json::json_error(output@))),
        },
        DriveListing::GetDisk(output) => {
            let s = text::trimmed(output@);
            if s.len() == 0 {
                Ok(Seq::empty())
            } else {
                match json::json_value(s) {
                    Some(root) => {
                        let items = get_disk_entries(root);
                        Ok(get_disk_devices(items, items.len() as int))
                    },
                    None => Err(ErrorView::Other("bad Get-Disk output: "@ + json::json_error(s))),
                }
            }
        },
        DriveListing::Diskutil { listing, boot, infos } => {
            let items = listing@.field("WholeDisks"@).items();
            let ids = texts(items, items.len() as int);
            Ok(diskutil_devices(listing@, boot_disk_of(boot), ids, infos@, ids.len() as int))
        },
        DriveListing::Unsupported => Err(
            ErrorView::Other("bootable USB creation isn't supported on this platform"@),
        ),
    }
}

/// Every drive that the tools told of, whether it is a safe target or not.
pub fn list_devices(listing: &DriveListing) -> (r: EngineResult<Vec<Device>>)
    ensures
        match listed_devices(*listing) {
            Ok(all) => r is Ok && device_views(r->Ok_0@) == all,
            Err(e) => r is Err && r->Err_0@ == e,
        },
{
    match listing {
        DriveListing::Lsblk(output) => parse_lsblk(output.as_str()),
        DriveListing::GetDisk(output) => parse_get_disk(output.as_str()),
        DriveListing::Diskutil { listing, boot, infos } => Ok(
            diskutil_listing(listing, boot, infos),
        ),
        DriveListing::Unsupported => Err(
            EngineError::Other("bootable USB creation isn't supported on this platform".to_owned()),
        ),
    }
}

/// The safe targets among the first `n` drives.
pub open spec fn safe_among(devices: Seq<DeviceView>, allow_virtual: bool, n: int) -> Seq<DeviceView>
    decreases n,
{
    if n <= 0 {
        Seq::empty()
    } else if devices[n - 1].safe_target(allow_virtual) {
        safe_among(devices, allow_virtual, n - 1).push(devices[n - 1])
    } else {
        safe_among(devices, allow_virtual, n - 1)
    }
}

/// The safe targets among the drives listed.
pub fn safe_targets(devices: &Vec<Device>, allow_virtual: bool) -> (r: Vec<Device>)
    ensures
        device_views(r@) == safe_among(
            device_views(devices@),
            allow_virtual,
            devices@.len() as int,
        ),
{
    let ghost all = device_views(devices@);
    let mut r: Vec<Device> = Vec::new();
    proof {
        assert(device_views(r@) =~= Seq::<DeviceView>::empty());
    }
    let mut i: usize = 0;
    while i < devices.len()
        invariant
            i <= devices@.len(),
            all == device_views(devices@),
            device_views(r@) == safe_among(all, allow_virtual, i as int),
        decreases devices@.len() - i,
    {
        proof {
            assert(all[i as int] == devices@[i as int]@);
        }
        if devices[i].is_safe_target(allow_virtual) {
            let d = devices[i].clone();
            proof {
                lemma_device_views_push(r@, d);
            }
            r.push(d);
        }
        i = i + 1;
    }
    r
}

/// The drives that may be offered as write targets.
pub fn list_safe_targets(listing: &DriveListing, allow_virtual: bool) -> (r: EngineResult<
    Vec<Device>,
>)
    ensures
        match listed_devices(*listing) {
            Ok(all) => r is Ok && device_views(r->Ok_0@) == safe_among(
                all,
                allow_virtual,
                all.len() as int,
            ),
            Err(e) => r is Err && r->Err_0@ == e,
        },
        forall|i: int|
            r is Ok && 0 <= i < r->Ok_0@.len() ==> (#[trigger] r->Ok_0@[i])@.safe_target(
                allow_virtual,
            ),
{
    match list_devices(listing) {
        Ok(devices) => {
            let r = safe_targets(&devices, allow_virtual);
            proof {
                lemma_safe_among(device_views(devices@), allow_virtual, devices@.len() as int);
                assert(device_views(devices@).len() == devices@.len());
                assert forall|i: int| 0 <= i < r@.len() implies (#[trigger] r@[i])@.safe_target(
                    allow_virtual,
                ) by {
                    assert(device_views(r@)[i] == r@[i]@);
                }
            }
            Ok(r)
        },
        Err(e) => Err(e),
    }
}

proof fn lemma_safe_among(devices: Seq<DeviceView>, allow_virtual: bool, n: int)
    requires
        n <= devices.len(),
    ensures
        forall|i: int|
            0 <= i < safe_among(devices, allow_virtual, n).len() ==> (#[trigger] safe_among(
                devices,
                allow_virtual,
                n,
            )[i]).safe_target(allow_virtual),
    decreases n,
{
    if n > 0 {
        lemma_safe_among(devices, allow_virtual, n - 1);
        let before = safe_among(devices, allow_virtual, n - 1);
        let after = safe_among(devices, allow_virtual, n);
        assert forall|i: int| 0 <= i < after.len() implies (#[trigger] after[i]).safe_target(
            allow_virtual,
        ) by {
            if i < before.len() {
                assert(after[i] == before[i]);
            }
        }
    }
}

/// Reads what `plutil` made of a property list.
pub fn parse_plutil(output: &str) -> (r: EngineResult<Json>)
    ensures
        match json::json_value(output@) {
            Some(tree) => r is Ok && r->Ok_0@ == tree,
            None => r is Err && r->Err_0@ == ErrorView::Other(
                "bad plutil output: "@ + json::json_error(output@),
            ),
        },
{
    match json::parse_json(output) {
        Ok(v) => Ok(v),
        Err(e) => {
            let mut m = "bad plutil output: ".to_owned();
            m.append(e.as_str());
            Err(EngineError::Other(m))
        },
    }
}

proof fn lemma_texts(items: Seq<JsonView>, n: int)
    requires
        0 <= n <= items.len(),
    ensures
        forall|i: int|
            0 <= i < n && (#[trigger] items[i]).as_text() is Some ==> texts(items, n).contains(
                items[i].as_text()->0,
            ),
        forall|k: int|
            0 <= k < texts(items, n).len() ==> exists|i: int|
                0 <= i < n && (#[trigger] items[i]).as_text() == Some(#[trigger] texts(items, n)[k]),
    decreases n,
{
    if n > 0 {
        lemma_texts(items, n - 1);
        let before = texts(items, n - 1);
        let all = texts(items, n);
        assert forall|i: int| 0 <= i < n && (#[trigger] items[i]).as_text() is Some implies all.contains(
            items[i].as_text()->0,
        ) by {
            if i < n - 1 {
                let t = items[i].as_text()->0;
                let k = choose|k: int| 0 <= k < before.len() && before[k] == t;
                assert(all[k] == t);
            } else {
                assert(all.last() == items[i].as_text()->0);
            }
        }
        assert forall|k: int| 0 <= k < all.len() implies exists|i: int|
            0 <= i < n && (#[trigger] items[i]).as_text() == Some(#[trigger] all[k]) by {
            if k < before.len() {
                assert(all[k] == before[k]);
                let i = choose|i: int|
                    0 <= i < n - 1 && (#[trigger] items[i]).as_text() == Some(before[k]);
                assert(items[i].as_text() == Some(all[k]));
            } else {
                assert(items[n - 1].as_text() == Some(all[k]));
            }
        }
    }
}

proof fn lemma_mounts_among(nodes: Seq<JsonView>, n: int, i: int, m: Seq<char>)
    requires
        0 <= i < n <= nodes.len(),
        all_mounts(nodes[i]).contains(m),
    ensures
        mounts_among(nodes, n).contains(m),
    decreases n,
{
    let before = mounts_among(nodes, n - 1);
    let own = all_mounts(nodes[n - 1]);
    let all = before + own;
    assert(mounts_among(nodes, n) == all);
    if i < n - 1 {
        lemma_mounts_among(nodes, n - 1, i, m);
        let k = choose|k: int| 0 <= k < before.len() && before[k] == m;
        assert(all[k] == m);
    } else {
        let k = choose|k: int| 0 <= k < own.len() && own[k] == m;
        assert(all[before.len() + k] == m);
    }
}

/// Where a block device, or a part of it, is mounted is found in either field
/// that tells of it, and so is everything that is found for a part, at any
/// depth.
pub proof fn law_mounts_of_parts_are_found(
    node: &Json,
    out: &mut Vec<String>,
    u: (),
    m: Seq<char>,
    i: int,
)
    requires
        call_ensures(collect_mounts, (node, out), u),
    ensures
        text::views(old(out)@).contains(m) ==> text::views(final(out)@).contains(m),
        node@.field("mountpoint"@).as_text() == Some(m) ==> text::views(final(out)@).contains(m),
        ({
            let items = node@.field("mountpoints"@).items();
            0 <= i < items.len() && items[i].as_text() == Some(m) ==> text::views(
                final(out)@,
            ).contains(m)
        }),
        ({
            let parts = node@.field("children"@).items();
            0 <= i < parts.len() && all_mounts(parts[i]).contains(m) ==> text::views(
                final(out)@,
            ).contains(m)
        }),
{
    let before = text::views(out@);
    let own = own_mounts(node@);
    let parts = node@.field("children"@).items();
    let items = node@.field("mountpoints"@).items();
    let found = all_mounts(node@);
    let after = before + found;
    assert(text::views(final(out)@) == after);
    lemma_texts(items, items.len() as int);
    if before.contains(m) {
        let k = choose|k: int| 0 <= k < before.len() && before[k] == m;
        assert(after[k] == m);
    }
    if node@.field("mountpoint"@).as_text() == Some(m) {
        assert(own[0] == m);
        assert(found[0] == m);
        assert(after[before.len() as int] == m);
    }
    if 0 <= i < items.len() && items[i].as_text() == Some(m) {
        let t = texts(items, items.len() as int);
        assert(t.contains(m));
        let k = choose|k: int| 0 <= k < t.len() && t[k] == m;
        let d = own.len() - t.len();
        assert(own[d + k] == m);
        assert(found[d + k] == m);
        assert(after[before.len() + d + k] == m);
    }
    if 0 <= i < parts.len() && all_mounts(parts[i]).contains(m) {
        lemma_mounts_among(parts, parts.len() as int, i, m);
        let t = mounts_among(parts, parts.len() as int);
        assert(found == own + t);
        let k = choose|k: int| 0 <= k < t.len() && t[k] == m;
        assert(found[own.len() + k] == m);
        assert(after[before.len() + own.len() + k] == m);
    }
}

proof fn lemma_lsblk_devices(items: Seq<JsonView>, n: int)
    requires
        0 <= n <= items.len(),
    ensures
        forall|i: int|
            0 <= i < n && lsblk_device(#[trigger] items[i]) is Some ==> lsblk_devices(
                items,
                n,
            ).contains(lsblk_device(items[i])->0),
        forall|k: int|
            0 <= k < lsblk_devices(items, n).len() ==> exists|i: int|
                0 <= i < n && lsblk_device(#[trigger] items[i]) == Some(
                    #[trigger] lsblk_devices(items, n)[k],
                ),
    decreases n,
{
    if n > 0 {
        lemma_lsblk_devices(items, n - 1);
        let before = lsblk_devices(items, n - 1);
        let all = lsblk_devices(items, n);
        assert forall|i: int| 0 <= i < n && lsblk_device(#[trigger] items[i]) is Some implies all.contains(
            lsblk_device(items[i])->0,
        ) by {
            let d = lsblk_device(items[i])->0;
            if i < n - 1 {
                let k = choose|k: int| 0 <= k < before.len() && before[k] == d;
                assert(all[k] == d);
            } else {
                assert(all.last() == d);
            }
        }
        assert forall|k: int| 0 <= k < all.len() implies exists|i: int|
            0 <= i < n && lsblk_device(#[trigger] items[i]) == Some(#[trigger] all[k]) by {
            if k < before.len() {
                assert(all[k] == before[k]);
                let i = choose|i: int|
                    0 <= i < n - 1 && lsblk_device(#[trigger] items[i]) == Some(before[k]);
                assert(lsblk_device(items[i]) == Some(all[k]));
            } else {
                assert(lsblk_device(items[n - 1]) == Some(all[k]));
            }
        }
    }
}

proof fn lemma_critical(m: Seq<char>)
    ensures
        critical_mounts().contains(m) <==> m == "/"@ || m == "/boot"@ || m == "/boot/efi"@ || m
            == "/home"@ || m == "/usr"@ || m == "/var"@ || m == "/etc"@ || m == "/opt"@ || m
            == "/nix"@ || m == "[SWAP]"@,
{
    let c = critical_mounts();
    assert(c[0] == "/"@ && c[1] == "/boot"@ && c[2] == "/boot/efi"@ && c[3] == "/home"@ && c[4]
        == "/usr"@ && c[5] == "/var"@ && c[6] == "/etc"@ && c[7] == "/opt"@ && c[8] == "/nix"@
        && c[9] == "[SWAP]"@);
}

/// Every disk in the listing that can be removed is found, under its name, and
/// marked as one the system needs where such a place is on it.
pub proof fn law_removable_disks_are_found(
    root: &Json,
    r: Vec<Device>,
    i: int,
    name: Seq<char>,
    m: Seq<char>,
)
    requires
        call_ensures(lsblk_listing, (root,), r),
        0 <= i < root@.field("blockdevices"@).items().len(),
        ({
            let d = root@.field("blockdevices"@).items()[i];
            &&& d.field("name"@).as_text() == Some(name)
            &&& d.field("type"@).as_text() == Some("disk"@)
            &&& d.field("rm"@).truth() || d.field("hotplug"@).truth() || d.field(
                "tran"@,
            ).as_text() == Some("usb"@)
        }),
    ensures
        exists|k: int|
            #![trigger r@[k]]
            {
                let d = root@.field("blockdevices"@).items()[i];
                &&& 0 <= k < r@.len()
                &&& r@[k].id@ == name
                &&& (d.field("path"@).as_text() matches Some(path) ==> r@[k].node@ == path)
                &&& (d.field("path"@).as_text() is None ==> r@[k].node@ == "/dev/"@ + name)
                &&& (d.field("size"@) matches JsonView::Number(Some(n)) ==> r@[k].size == n)
                &&& all_mounts(d).contains(m) && (m == "/"@ || m == "/boot"@ || m == "/boot/efi"@
                    || m == "/home"@ || m == "/usr"@ || m == "/var"@ || m == "/etc"@ || m == "/opt"@
                    || m == "/nix"@ || m == "[SWAP]"@) ==> r@[k].is_system
                &&& all_mounts(d).len() == 0 ==> !r@[k].is_system
                &&& !r@[k].is_virtual
            },
{
    let items = root@.field("blockdevices"@).items();
    let d = items[i];
    lemma_lsblk_devices(items, items.len() as int);
    let v = lsblk_devices(items, items.len() as int);
    assert(device_views(r@) == v);
    assert(lsblk_device(items[i]) is Some);
    let w = lsblk_device(items[i])->0;
    let k = choose|k: int| 0 <= k < v.len() && v[k] == w;
    assert(device_views(r@).len() == r@.len());
    assert(device_views(r@)[k] == r@[k]@);
    lemma_critical(m);
    if all_mounts(d).contains(m) && critical_mounts().contains(m) {
        let j = choose|j: int| 0 <= j < all_mounts(d).len() && all_mounts(d)[j] == m;
        assert(critical_mounts().contains(all_mounts(d)[j]));
        assert(holds_system(all_mounts(d)));
    }
    assert(r@[k].id@ == name);
}

/// Nothing but a disk that can be removed is found.
pub proof fn law_only_removable_disks_are_found(root: &Json, r: Vec<Device>, k: int)
    requires
        call_ensures(lsblk_listing, (root,), r),
        0 <= k < r@.len(),
    ensures
        exists|i: int|
            #![trigger root@.field("blockdevices"@).items()[i]]
            {
                let items = root@.field("blockdevices"@).items();
                &&& 0 <= i < items.len()
                &&& items[i].field("name"@).as_text() == Some(r@[k].id@)
                &&& items[i].field("type"@).as_text() == Some("disk"@)
                &&& items[i].field("rm"@).truth() || items[i].field("hotplug"@).truth() || r@[k].bus@
                    == "usb"@
            },
{
    let items = root@.field("blockdevices"@).items();
    lemma_lsblk_devices(items, items.len() as int);
    let v = lsblk_devices(items, items.len() as int);
    assert(device_views(r@) == v);
    assert(device_views(r@).len() == r@.len());
    assert(device_views(r@)[k] == r@[k]@);
    let i = choose|i: int| 0 <= i < items.len() && lsblk_device(#[trigger] items[i]) == Some(v[k]);
    assert(items[i].field("name"@).as_text() == Some(r@[k].id@));
}

proof fn lemma_get_disk_devices(items: Seq<JsonView>, n: int)
    requires
        0 <= n <= items.len(),
    ensures
        forall|i: int|
            0 <= i < n && get_disk_device(#[trigger] items[i]) is Some ==> get_disk_devices(
                items,
                n,
            ).contains(get_disk_device(items[i])->0),
        forall|k: int|
            0 <= k < get_disk_devices(items, n).len() ==> exists|i: int|
                0 <= i < n && get_disk_device(#[trigger] items[i]) == Some(
                    #[trigger] get_disk_devices(items, n)[k],
                ),
    decreases n,
{
    if n > 0 {
        lemma_get_disk_devices(items, n - 1);
        let before = get_disk_devices(items, n - 1);
        let all = get_disk_devices(items, n);
        assert forall|i: int|
            0 <= i < n && get_disk_device(#[trigger] items[i]) is Some implies all.contains(
            get_disk_device(items[i])->0,
        ) by {
            let d = get_disk_device(items[i])->0;
            if i < n - 1 {
                let k = choose|k: int| 0 <= k < before.len() && before[k] == d;
                assert(all[k] == d);
            } else {
                assert(all.last() == d);
            }
        }
        assert forall|k: int| 0 <= k < all.len() implies exists|i: int|
            0 <= i < n && get_disk_device(#[trigger] items[i]) == Some(#[trigger] all[k]) by {
            if k < before.len() {
                assert(all[k] == before[k]);
                let i = choose|i: int|
                    0 <= i < n - 1 && get_disk_device(#[trigger] items[i]) == Some(before[k]);
                assert(get_disk_device(items[i]) == Some(all[k]));
            } else {
                assert(get_disk_device(items[n - 1]) == Some(all[k]));
            }
        }
    }
}

/// Every numbered disk on a removable bus is found, whether it is told alone or
/// in a list; its node and its name hold its number, and it is marked as one
/// the system needs just where it is told to be.
pub proof fn law_numbered_disks_are_found(root: Json, r: Vec<Device>, d: JsonView, n: u64)
    requires
        call_ensures(get_disk_listing, (root,), r),
        (root@ == d && !(d is List)) || (root@ matches JsonView::List(v) && v.contains(d)),
        d.field("Number"@) == JsonView::Number(Some(n)),
        ({
            let bus = d.field("BusType"@);
            ||| bus == JsonView::Text("USB"@)
            ||| bus == JsonView::Text("SD"@)
            ||| bus == JsonView::Text("MMC"@)
        }),
    ensures
        exists|k: int|
            #![trigger r@[k]]
            {
                &&& 0 <= k < r@.len()
                &&& r@[k].id@ == "Disk "@ + text::dec(n as nat)
                &&& r@[k].node@ == "\\\\.\\PhysicalDrive"@ + text::dec(n as nat)
                &&& (d.field("Size"@) matches JsonView::Number(Some(size)) ==> r@[k].size == size)
                &&& r@[k].is_system == (d.field("IsBoot"@).truth() || d.field("IsSystem"@).truth())
            },
{
    let items = get_disk_entries(root@);
    let i = if root@ is List {
        choose|i: int| 0 <= i < items.len() && items[i] == d
    } else {
        0
    };
    assert(items[i] == d);
    lemma_get_disk_devices(items, items.len() as int);
    let v = get_disk_devices(items, items.len() as int);
    let buses = seq!["USB"@, "SD"@, "MMC"@, "7"@, "12"@, "13"@];
    assert(buses[0] == "USB"@ && buses[1] == "SD"@ && buses[2] == "MMC"@);
    assert(removable_bus(bus_name(d.field("BusType"@))));
    assert(get_disk_device(items[i]) is Some);
    let w = get_disk_device(items[i])->0;
    let k = choose|k: int| 0 <= k < v.len() && v[k] == w;
    assert(device_views(r@).len() == r@.len());
    assert(device_views(r@)[k] == r@[k]@);
    assert(r@[k].id@ == "Disk "@ + text::dec(n as nat));
}

/// A disk on any other bus that is named is not found.
pub proof fn law_built_in_disks_are_not_found(root: Json, r: Vec<Device>, k: int)
    requires
        call_ensures(get_disk_listing, (root,), r),
        0 <= k < r@.len(),
    ensures
        r@[k].bus@ == "USB"@ || r@[k].bus@ == "SD"@ || r@[k].bus@ == "MMC"@ || r@[k].bus@ == "7"@
            || r@[k].bus@ == "12"@ || r@[k].bus@ == "13"@,
{
    let items = get_disk_entries(root@);
    lemma_get_disk_devices(items, items.len() as int);
    let v = get_disk_devices(items, items.len() as int);
    assert(device_views(r@).len() == r@.len());
    assert(device_views(r@)[k] == r@[k]@);
    let i = choose|i: int|
        0 <= i < items.len() && get_disk_device(#[trigger] items[i]) == Some(v[k]);
    let buses = seq!["USB"@, "SD"@, "MMC"@, "7"@, "12"@, "13"@];
    assert(buses.contains(r@[k].bus@));
    assert(buses.len() == 6);
}

/// A whole disk is found unless it is built in and cannot be removed; the one
/// that the system runs from is marked, and so is a disk image.
pub proof fn law_whole_disks_are_found(
    info: &Json,
    mounted: Vec<String>,
    boot: &str,
    id: Seq<char>,
    r: Option<Device>,
)
    requires
        call_ensures(parse_info, (info, mounted, Some(boot)), r),
        info@.field("DeviceIdentifier"@).as_text() == Some(id),
    ensures
        r is Some <==> info@.field("WholeDisk"@).truth() && (!info@.field("Internal"@).truth()
            || info@.field("RemovableMedia"@).truth() || info@.field(
            "RemovableMediaOrExternalDevice"@,
        ).truth()),
        r matches Some(d) ==> {
            &&& d.id@ == id
            &&& d.node@ == "/dev/r"@ + id
            &&& text::views(d.mounted@) == text::views(mounted@)
            &&& (info@.field("Size"@) matches JsonView::Number(Some(n)) ==> d.size == n)
            &&& d.is_system == (boot@ == id || info@.field("SystemImage"@).truth())
            &&& d.is_virtual == (info@.field("VirtualOrPhysical"@).as_text() == Some("Virtual"@)
                || info@.field("BusProtocol"@).as_text() == Some("Disk Image"@))
        },
{
}

proof fn lemma_mounts_listed(disks: Seq<JsonView>, whole: Seq<char>, n: int, i: int, m: Seq<char>)
    requires
        0 <= n <= disks.len(),
    ensures
        (0 <= i < n && disks[i].field("DeviceIdentifier"@).as_text() == Some(whole) && disk_mounts(
            disks[i],
        ).contains(m)) ==> mounts_listed(disks, whole, n).contains(m),
        (forall|k: int|
            0 <= k < n ==> (#[trigger] disks[k]).field("DeviceIdentifier"@).as_text() != Some(whole))
            ==> mounts_listed(disks, whole, n).len() == 0,
    decreases n,
{
    if n > 0 {
        lemma_mounts_listed(disks, whole, n - 1, i, m);
        let before = mounts_listed(disks, whole, n - 1);
        let all = mounts_listed(disks, whole, n);
        if before.contains(m) {
            let k = choose|k: int| 0 <= k < before.len() && before[k] == m;
            assert(all[k] == m);
        }
        if i == n - 1 && disks[i].field("DeviceIdentifier"@).as_text() == Some(whole)
            && disk_mounts(disks[i]).contains(m) {
            let own = disk_mounts(disks[i]);
            let k = choose|k: int| 0 <= k < own.len() && own[k] == m;
            assert(all[before.len() + k] == m);
        }
    }
}

/// The mount points of a disk are those of its partitions and its own; those of
/// another disk are not among them.
pub proof fn law_partitions_are_looked_at(
    listing: &Json,
    whole: &str,
    r: Vec<String>,
    i: int,
    p: int,
    m: Seq<char>,
)
    requires
        call_ensures(mount_points_of, (listing, whole), r),
    ensures
        ({
            let disks = listing@.field("AllDisksAndPartitions"@).items();
            let parts = disks[i].field("Partitions"@).items();
            &&& (0 <= i < disks.len() && disks[i].field("DeviceIdentifier"@).as_text() == Some(
                whole@,
            )) ==> {
                &&& (0 <= p < parts.len() && parts[p].field("MountPoint"@).as_text() == Some(m))
                    ==> text::views(r@).contains(m)
                &&& disks[i].field("MountPoint"@).as_text() == Some(m) ==> text::views(r@).contains(m)
            }
            &&& (forall|k: int|
                0 <= k < disks.len() ==> (#[trigger] disks[k]).field("DeviceIdentifier"@).as_text()
                    != Some(whole@)) ==> r@.len() == 0
        }),
{
    let disks = listing@.field("AllDisksAndPartitions"@).items();
    let parts = disks[i].field("Partitions"@).items();
    let points = Seq::new(parts.len(), |i: int| parts[i].field("MountPoint"@));
    let t = texts(points, points.len() as int);
    let own = disk_mounts(disks[i]);
    lemma_texts(points, points.len() as int);
    if 0 <= p < parts.len() && parts[p].field("MountPoint"@).as_text() == Some(m) {
        assert(points[p].as_text() == Some(m));
        let k = choose|k: int| 0 <= k < t.len() && t[k] == m;
        assert(own[k] == m);
    }
    if disks[i].field("MountPoint"@).as_text() == Some(m) {
        assert(own[t.len() as int] == m);
    }
    lemma_mounts_listed(disks, whole@, disks.len() as int, i, m);
    assert(text::views(r@).len() == r@.len());
}

/// A drive is offered just where it is one that may be written to, in the order
/// of the listing; `i` is where it stands there.
pub proof fn law_safe_drives_are_offered(
    devices: &Vec<Device>,
    allow_virtual: bool,
    r: Vec<Device>,
    i: int,
)
    requires
        call_ensures(safe_targets, (devices, allow_virtual), r),
        0 <= i < devices@.len(),
    ensures
        (!devices@[i].is_system && devices@[i].size > 0 && (devices@[i].is_virtual
            ==> allow_virtual)) ==> device_views(r@).contains(devices@[i]@),
        forall|k: int|
            0 <= k < r@.len() ==> {
                &&& !(#[trigger] r@[k]).is_system
                &&& r@[k].size > 0
                &&& r@[k].is_virtual ==> allow_virtual
                &&& device_views(devices@).contains(r@[k]@)
            },
        r@.len() <= devices@.len(),
{
    let all = device_views(devices@);
    assert(all.len() == devices@.len());
    lemma_safe_among_all(all, allow_virtual, devices@.len() as int);
    lemma_safe_among(all, allow_virtual, devices@.len() as int);
    let v = device_views(r@);
    assert(v.len() == r@.len());
    assert(all[i] == devices@[i]@);
    assert forall|k: int| 0 <= k < r@.len() implies {
        &&& !(#[trigger] r@[k]).is_system
        &&& r@[k].size > 0
        &&& r@[k].is_virtual ==> allow_virtual
        &&& all.contains(r@[k]@)
    } by {
        assert(v[k] == r@[k]@);
    }
}

proof fn lemma_safe_among_all(devices: Seq<DeviceView>, allow_virtual: bool, n: int)
    requires
        0 <= n <= devices.len(),
    ensures
        safe_among(devices, allow_virtual, n).len() <= n,
        forall|i: int|
            0 <= i < n && (#[trigger] devices[i]).safe_target(allow_virtual) ==> safe_among(
                devices,
                allow_virtual,
                n,
            ).contains(devices[i]),
        forall|k: int|
            0 <= k < safe_among(devices, allow_virtual, n).len() ==> devices.contains(
                #[trigger] safe_among(devices, allow_virtual, n)[k],
            ),
    decreases n,
{
    if n > 0 {
        lemma_safe_among_all(devices, allow_virtual, n - 1);
        let before = safe_among(devices, allow_virtual, n - 1);
        let all = safe_among(devices, allow_virtual, n);
        assert forall|i: int|
            0 <= i < n && (#[trigger] devices[i]).safe_target(allow_virtual) implies all.contains(
            devices[i],
        ) by {
            if i < n - 1 {
                let k = choose|k: int| 0 <= k < before.len() && before[k] == devices[i];
                assert(all[k] == devices[i]);
            } else {
                assert(all.last() == devices[i]);
            }
        }
        assert forall|k: int| 0 <= k < all.len() implies devices.contains(#[trigger] all[k]) by {
            if k < before.len() {
                assert(all[k] == before[k]);
            } else {
                assert(all[k] == devices[n - 1]);
            }
        }
    }
}

/// Of the drives that are listed those are offered that may be written to, and
/// all of those.
pub proof fn law_offered_drives_are_safe_ones(
    listing: &DriveListing,
    allow_virtual: bool,
    all: EngineResult<Vec<Device>>,
    safe: EngineResult<Vec<Device>>,
    i: int,
    k: int,
)
    requires
        call_ensures(list_devices, (listing,), all),
        call_ensures(list_safe_targets, (listing, allow_virtual), safe),
    ensures
        all is Ok <==> safe is Ok,
        (all is Ok && 0 <= i < all->Ok_0@.len() && !all->Ok_0@[i].is_system && all->Ok_0@[i].size > 0
            && (all->Ok_0@[i].is_virtual ==> allow_virtual)) ==> device_views(
            safe->Ok_0@,
        ).contains(all->Ok_0@[i]@),
        (safe is Ok && 0 <= k < safe->Ok_0@.len()) ==> {
            &&& !safe->Ok_0@[k].is_system
            &&& safe->Ok_0@[k].size > 0
            &&& safe->Ok_0@[k].is_virtual ==> allow_virtual
            &&& device_views(all->Ok_0@).contains(safe->Ok_0@[k]@)
        },
{
    if all is Ok {
        let v = device_views(all->Ok_0@);
        let w = device_views(safe->Ok_0@);
        assert(v.len() == all->Ok_0@.len() && w.len() == safe->Ok_0@.len());
        lemma_safe_among_all(v, allow_virtual, v.len() as int);
        lemma_safe_among(v, allow_virtual, v.len() as int);
        if 0 <= i < v.len() {
            assert(v[i] == all->Ok_0@[i]@);
        }
        if 0 <= k < w.len() {
            assert(w[k] == safe->Ok_0@[k]@);
        }
    }
}

/// The output of a tool is listed as what it says.
pub proof fn law_output_is_listed(
    output: &str,
    root: &Json,
    parsed: Result<Json, String>,
    direct: Vec<Device>,
    r: EngineResult<Vec<Device>>,
)
    requires
        call_ensures(json::parse_json, (output,), parsed),
        parsed is Ok ==> *root == parsed->Ok_0,
        call_ensures(lsblk_listing, (root,), direct),
        call_ensures(parse_lsblk, (output,), r),
    ensures
        r is Ok <==> parsed is Ok,
        r is Ok ==> device_views(r->Ok_0@) == device_views(direct@),
{
}

proof fn lemma_diskutil_devices(
    listing: JsonView,
    boot_disk: Option<Seq<char>>,
    ids: Seq<Seq<char>>,
    infos: Seq<Option<Json>>,
    n: int,
    i: int,
    d: DeviceView,
)
    requires
        0 <= i < n,
        i < infos.len(),
        infos[i] is Some,
        ({
            let disks = listing.field("AllDisksAndPartitions"@).items();
            diskutil_device(
                infos[i]->0@,
                mounts_listed(disks, ids[i], disks.len() as int),
                boot_disk,
            ) == Some(d)
        }),
    ensures
        diskutil_devices(listing, boot_disk, ids, infos, n).contains(d),
    decreases n,
{
    let before = diskutil_devices(listing, boot_disk, ids, infos, n - 1);
    let all = diskutil_devices(listing, boot_disk, ids, infos, n);
    if i < n - 1 {
        lemma_diskutil_devices(listing, boot_disk, ids, infos, n - 1, i, d);
        let k = choose|k: int| 0 <= k < before.len() && before[k] == d;
        assert(all[k] == d);
    } else {
        assert(all.last() == d);
    }
}

/// Every whole disk that is external or can be removed is found; the one that
/// the system runs from is marked.
pub proof fn law_external_disks_are_found(
    listing: &Json,
    boot: &Option<Json>,
    infos: &Vec<Option<Json>>,
    r: Vec<Device>,
    names: Vec<String>,
    i: int,
    id: Seq<char>,
)
    requires
        call_ensures(diskutil_listing, (listing, boot, infos), r),
        call_ensures(whole_disks, (listing,), names),
        0 <= i < names@.len(),
        i < infos@.len(),
        infos@[i] is Some,
        infos@[i]->0@.field("DeviceIdentifier"@).as_text() == Some(id),
        infos@[i]->0@.field("WholeDisk"@).truth(),
        !infos@[i]->0@.field("Internal"@).truth() || infos@[i]->0@.field("RemovableMedia"@).truth(),
    ensures
        exists|k: int|
            #![trigger r@[k]]
            {
                &&& 0 <= k < r@.len()
                &&& r@[k].id@ == id
                &&& r@[k].node@ == "/dev/r"@ + id
                &&& (*boot matches Some(b) && b@.field("ParentWholeDisk"@).as_text() == Some(id))
                    ==> r@[k].is_system
            },
{
    let items = listing@.field("WholeDisks"@).items();
    let ids = texts(items, items.len() as int);
    assert(text::views(names@) == ids);
    assert(ids.len() == names@.len());
    let disks = listing@.field("AllDisksAndPartitions"@).items();
    let d = diskutil_device(
        infos@[i]->0@,
        mounts_listed(disks, ids[i], disks.len() as int),
        boot_disk_of(*boot),
    )->0;
    lemma_diskutil_devices(
        listing@,
        boot_disk_of(*boot),
        ids,
        infos@,
        ids.len() as int,
        i,
        d,
    );
    let v = device_views(r@);
    assert(v.len() == r@.len());
    let k = choose|k: int| 0 <= k < v.len() && v[k] == d;
    assert(v[k] == r@[k]@);
    assert(r@[k].id@ == id);
}

} // verus!
