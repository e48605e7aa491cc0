//! GPUs: their names from the PCI identity database, and the registry that
//! groups device nodes by the PCI bus address behind them.

use vstd::prelude::*;
use vstd::string::StringSliceAdditionalSpecFns;
use vstd::utf8::*;
use crate::text::{
    field, field_of, find_line, find_line_from, has_prefix_at, is_line_start, lemma_content_end,
    lemma_find_line_absent, lemma_line_end, lemma_short_line_empty_field, line, line_bounds,
    next_line, starts_with, trim, trimmed, HASH, TAB,
};

verus! {

broadcast use {vstd::utf8::encode_utf8_valid_utf8, vstd::utf8::encode_utf8_decode_utf8};

/// The device name that the device list starting at line `s` gives for the
/// device code `d` (its bytes): the first line `\t<d>...` before the list
/// ends, skipping comments and other indented lines.
pub open spec fn find_device(b: Seq<u8>, d: Seq<u8>, s: int) -> Option<Seq<char>>
    decreases b.len() + 1 - s,
    when 0 <= s
    via find_device_decreases
{
    if s >= b.len() {
        None
    } else if starts_with(line(b, s), seq![TAB] + d) {
        Some(field(b, s, 5))
    } else if line(b, s).len() > 0 && (line(b, s)[0] == HASH || line(b, s)[0] == TAB) {
        find_device(b, d, next_line(b, s))
    } else {
        None
    }
}

#[via_fn]
proof fn find_device_decreases(b: Seq<u8>, d: Seq<u8>, s: int) {
    if 0 <= s < b.len() {
        lemma_line_end(b, s);
    }
}

/// The vendor name that the database `db` gives for the vendor code `v`:
/// from column 4 of the first line that starts with `v`.
pub open spec fn vendor_name_in(db: Seq<u8>, v: Seq<char>) -> Option<Seq<char>> {
    match find_line(db, encode_utf8(v), 0) {
        Some(s) => Some(field(db, s, 4)),
        None => None,
    }
}

/// The device name that the database `db` gives for device `d` of vendor
/// `v`: looked up in the device list under the vendor's line.
pub open spec fn device_name_in(db: Seq<u8>, v: Seq<char>, d: Seq<char>) -> Option<Seq<char>> {
    match find_line(db, encode_utf8(v), 0) {
        Some(s) => find_device(db, encode_utf8(d), next_line(db, s)),
        None => None,
    }
}

/// `s` without a leading `0x`.
pub open spec fn strip_hex_prefix(s: Seq<char>) -> Seq<char> {
    if s.len() >= 2 && s[0] == '0' && s[1] == 'x' {
        s.subrange(2, s.len() as int)
    } else {
        s
    }
}

/// The PCI code that a sysfs attribute holding `raw` gives: trimmed, and
/// without a leading `0x`.
pub open spec fn pci_code_of(raw: Seq<char>) -> Seq<char> {
    strip_hex_prefix(trimmed(raw))
}

/// What is known of one physical GPU.
pub struct DeviceView {
    pub vendor_id: Seq<char>,
    pub vendor_name: Option<Seq<char>>,
    pub device_id: Seq<char>,
    pub device_name: Option<Seq<char>>,
    pub drm_paths: Seq<Seq<char>>,
}

/// The GPU that the codes `v` and `d` name in `db`, with one device node.
pub open spec fn identified(v: Seq<char>, d: Seq<char>, path: Seq<char>, db: Seq<u8>) -> DeviceView {
    DeviceView {
        vendor_id: v,
        vendor_name: vendor_name_in(db, v),
        device_id: d,
        device_name: device_name_in(db, v, d),
        drm_paths: seq![path],
    }
}

pub open spec fn opt_view(o: Option<String>) -> Option<Seq<char>> {
    match o {
        Some(s) => Some(s@),
        None => None,
    }
}

pub open spec fn opt_str_view(o: Option<&str>) -> Option<Seq<char>> {
    match o {
        Some(s) => Some(s@),
        None => None,
    }
}

#[derive(Debug)]
pub struct Device {
    device_name: Option<String>,
    device_id: String,
    vendor_name: Option<String>,
    vendor_id: String,
    drm_path: Vec<String>,
}

impl View for Device {
    type V = DeviceView;

    closed spec fn view(&self) -> DeviceView {
        DeviceView {
            vendor_id: self.vendor_id@,
            vendor_name: opt_view(self.vendor_name),
            device_id: self.device_id@,
            device_name: opt_view(self.device_name),
            drm_paths: self.drm_path@.map_values(|p: String| p@),
        }
    }
}

/// The device name for `device` in the device list that starts at line `s`.
fn find_device_name(db: &str, device: &str, s: usize) -> (r: Option<String>)
    requires
        s <= db.spec_bytes().len(),
    ensures
        opt_view(r) == find_device(db.spec_bytes(), device.spec_bytes(), s as int),
{
    let b = db.as_bytes();
    let d = device.as_bytes();
    let mut i: usize = s;
    while i < b.len()
        invariant
            b@ == db.spec_bytes(),
            d@ == device.spec_bytes(),
            i <= b@.len(),
            find_device(b@, d@, s as int) == find_device(b@, d@, i as int),
        decreases b@.len() - i,
    {
        let (ce, e) = line_bounds(b, i);
        proof {
            lemma_content_end(b@, i as int);
        }
        let l = Ghost(line(b@, i as int));
        let indented = ce > i && b[i] == TAB;
        if indented && has_prefix_at(b, i + 1, ce, d) {
            proof {
                assert(l@.subrange(0, d@.len() + 1int) =~= seq![TAB] + b@.subrange(
                    i + 1,
                    ce as int,
                ).subrange(0, d@.len() as int));
            }
            return Some(field_of(db, i, 5));
        }
        proof {
            if starts_with(l@, seq![TAB] + d@) {
                assert((seq![TAB] + d@)[0] == TAB);
                assert(l@[0] == TAB);
                assert(b@.subrange(i + 1, ce as int).subrange(0, d@.len() as int) =~= l@.subrange(
                    1,
                    d@.len() + 1int,
                ));
                assert(l@.subrange(1, d@.len() + 1int) =~= (seq![TAB] + d@).subrange(
                    1,
                    d@.len() + 1int,
                ));
                assert((seq![TAB] + d@).subrange(1, d@.len() + 1int) =~= d@);
            }
        }
        if !(ce > i && (b[i] == HASH || b[i] == TAB)) {
            return None;
        }
        if e >= b.len() {
            assert(find_device(b@, d@, (e + 1) as int) == None::<Seq<char>>);
            return None;
        }
        i = e + 1;
    }
    None
}

impl Device {
    /// The GPU with vendor code `vendor` and device code `device`, named
    /// through the identity database `pci_ids`, with the one device node
    /// `drm_path`. A code that the database lacks leaves its name unresolved.
    pub fn new(vendor: &str, device: &str, drm_path: String, pci_ids: &str) -> (r: Device)
        ensures
            r@ == identified(vendor@, device@, drm_path@, pci_ids.spec_bytes()),
    {
        Self::get_device_from_pciid(vendor, device, drm_path, pci_ids)
    }

    fn get_device_from_pciid(vendor: &str, device: &str, drm_path: String, pci_ids: &str) -> (r:
        Device)
        ensures
            r@ == identified(vendor@, device@, drm_path@, pci_ids.spec_bytes()),
    {
        let mut dev = Device {
            device_id: String::from_str(device),
            device_name: None,
            vendor_id: String::from_str(vendor),
            vendor_name: None,
            drm_path: vec![drm_path],
        };
        let db = Ghost(pci_ids.spec_bytes());
        let found = find_line_from(pci_ids, vendor.as_bytes(), 0);
        if let Some(s) = found {
            dev.vendor_name = Some(field_of(pci_ids, s, 4));
            let (_ce, e) = line_bounds(pci_ids.as_bytes(), s);
            proof {
                lemma_line_end(db@, s as int);
            }
            if e < pci_ids.as_bytes().len() {
                dev.device_name = find_device_name(pci_ids, device, e + 1);
            } else {
                assert(find_device(db@, device.spec_bytes(), (e + 1) as int) == None::<Seq<char>>);
            }
        }
        proof {
            assert(dev@.drm_paths =~= seq![drm_path@]);
        }
        dev
    }
}

/// The PCI code in the contents `raw` of a sysfs `vendor` or `device`
/// attribute: `0x1002\n` gives `1002`.
pub fn pci_code(raw: &str) -> (r: String)
    ensures
        r@ == pci_code_of(raw@),
{
    let t = trim(raw);
    let n = t.unicode_len();
    if n >= 2 && t.get_char(0) == '0' && t.get_char(1) == 'x' {
        String::from_str(t.substring_char(2, n))
    } else {
        String::from_str(t)
    }
}

/// The registry `r` after the device node `path`, whose sysfs entry gives
/// the bus address `bus` and the raw codes `vendor_raw` and `device_raw`, is
/// added to it: appended to the GPU at `bus` if there is one, else a new GPU
/// named through `db`.
pub open spec fn with_node(
    r: Seq<(Seq<char>, DeviceView)>,
    bus: Seq<char>,
    vendor_raw: Seq<char>,
    device_raw: Seq<char>,
    path: Seq<char>,
    db: Seq<u8>,
) -> Seq<(Seq<char>, DeviceView)> {
    if exists|i: int| 0 <= i < r.len() && r[i].0 == bus {
        let i = choose|i: int| 0 <= i < r.len() && r[i].0 == bus;
        r.update(i, (bus, DeviceView { drm_paths: r[i].1.drm_paths.push(path), ..r[i].1 }))
    } else {
        r.push((bus, identified(pci_code_of(vendor_raw), pci_code_of(device_raw), path, db)))
    }
}

/// No two GPUs of `r` share a bus address.
pub open spec fn buses_unique(r: Seq<(Seq<char>, DeviceView)>) -> bool {
    forall|i: int, j: int| 0 <= i < j < r.len() ==> r[i].0 != r[j].0
}

/// The GPUs found, each under the PCI bus address of its device nodes, in
/// the order in which they were first seen.
#[derive(Debug)]
pub struct GpuRegistry {
    buses: Vec<String>,
    devices: Vec<Device>,
}

impl View for GpuRegistry {
    type V = Seq<(Seq<char>, DeviceView)>;

    closed spec fn view(&self) -> Seq<(Seq<char>, DeviceView)> {
        Seq::new(self.buses@.len(), |i: int| (self.buses@[i]@, self.devices@[i]@))
    }
}

impl Device {
    fn add_path(&mut self, path: String)
        ensures
            final(self)@ == (DeviceView {
                drm_paths: old(self)@.drm_paths.push(path@),
                ..old(self)@
            }),
    {
        self.drm_path.push(path);
        proof {
            assert(self@.drm_paths =~= old(self)@.drm_paths.push(path@));
        }
    }
}

impl Device {
    pub fn get_device_name(&self) -> (r: Option<&str>)
        ensures
            opt_str_view(r) == self@.device_name,
    {
        match &self.device_name {
            Some(n) => Some(n.as_str()),
            None => None,
        }
    }

    pub fn get_device_id(&self) -> (r: &str)
        ensures
            r@ == self@.device_id,
    {
        self.device_id.as_str()
    }

    pub fn get_vendor_name(&self) -> (r: Option<&str>)
        ensures
            opt_str_view(r) == self@.vendor_name,
    {
        match &self.vendor_name {
            Some(n) => Some(n.as_str()),
            None => None,
        }
    }

    pub fn get_vendor_id(&self) -> (r: &str)
        ensures
            r@ == self@.vendor_id,
    {
        self.vendor_id.as_str()
    }

    /// The device nodes of this GPU, in the order in which they were found.
    pub fn get_drm_path(&self) -> (r: &[String])
        ensures
            r@.map_values(|p: String| p@) == self@.drm_paths,
    {
        self.drm_path.as_slice()
    }

    /// Whether `path` is one of this GPU's device nodes.
    pub fn contains_path(&self, path: &String) -> (r: bool)
        ensures
            r == self@.drm_paths.contains(path@),
    {
        let mut i: usize = 0;
        while i < self.drm_path.len()
            invariant
                0 <= i <= self.drm_path@.len(),
                forall|k: int| 0 <= k < i ==> self@.drm_paths[k] != path@,
            decreases self.drm_path@.len() - i,
        {
            if self.drm_path[i] == *path {
                assert(self@.drm_paths[i as int] == path@);
                return true;
            }
            i = i + 1;
        }
        false
    }

    /// The vendor name, or `Unknown Manufacturer` when it is unresolved.
    pub fn vendor_name_pretty(&self) -> (r: &str)
        ensures
            r@ == (match self@.vendor_name {
                Some(n) => n,
                None => "Unknown Manufacturer"@,
            }),
    {
        match &self.vendor_name {
            Some(n) => n.as_str(),
            None => "Unknown Manufacturer",
        }
    }

    /// The device name, or `Unknown Device` when it is unresolved.
    pub fn device_name_pretty(&self) -> (r: &str)
        ensures
            r@ == (match self@.device_name {
                Some(n) => n,
                None => "Unknown Device"@,
            }),
    {
        match &self.device_name {
            Some(n) => n.as_str(),
            None => "Unknown Device",
        }
    }
}

impl GpuRegistry {
    pub closed spec fn wf(&self) -> bool {
        &&& self.buses@.len() == self.devices@.len()
        &&& buses_unique(self@)
    }

    /// A registry without GPUs.
    pub fn new() -> (r: GpuRegistry)
        ensures
            r.wf(),
            r@ == Seq::<(Seq<char>, DeviceView)>::empty(),
    {
        let r = GpuRegistry { buses: Vec::new(), devices: Vec::new() };
        proof {
            assert(r@ =~= Seq::<(Seq<char>, DeviceView)>::empty());
        }
        r
    }

    /// The number of GPUs.
    pub fn len(&self) -> (r: usize)
        requires
            self.wf(),
        ensures
            r == self@.len(),
    {
        self.buses.len()
    }

    /// The PCI bus address of the GPU at `i`.
    pub fn bus(&self, i: usize) -> (r: &str)
        requires
            self.wf(),
            i < self@.len(),
        ensures
            r@ == self@[i as int].0,
    {
        self.buses[i].as_str()
    }

    /// The GPU at `i`.
    pub fn device(&self, i: usize) -> (r: &Device)
        requires
            self.wf(),
            i < self@.len(),
        ensures
            r@ == self@[i as int].1,
    {
        &self.devices[i]
    }

    /// Adds the device node `drm_path`, whose sysfs entry gives the bus
    /// address `bus` and the raw attribute contents `vendor_raw` and
    /// `device_raw`; a new GPU is named through the identity database
    /// `pci_ids`.
    pub fn add_node(
        &mut self,
        bus: String,
        vendor_raw: &str,
        device_raw: &str,
        drm_path: String,
        pci_ids: &str,
    )
        requires
            old(self).wf(),
        ensures
            final(self).wf(),
            final(self)@ == with_node(
                old(self)@,
                bus@,
                vendor_raw@,
                device_raw@,
                drm_path@,
                pci_ids.spec_bytes(),
            ),
    {
        let mut i: usize = 0;
        while i < self.buses.len()
            invariant
                self.wf(),
                self@ == old(self)@,
                0 <= i <= self@.len(),
                forall|k: int| 0 <= k < i ==> self@[k].0 != bus@,
            decreases self@.len() - i,
        {
            if self.buses[i] == bus {
                let ghost before = self@;
                assert(before[i as int].0 == bus@);
                self.devices[i].add_path(drm_path);
                proof {
                    let want = with_node(old(self)@, bus@, vendor_raw@, device_raw@, drm_path@, pci_ids.spec_bytes());
                    let j = choose|j: int| 0 <= j < before.len() && before[j].0 == bus@;
                    assert(j == i);
                    assert(self@ =~= want);
                }
                return;
            }
            i = i + 1;
        }
        let vendor = pci_code(vendor_raw);
        let device = pci_code(device_raw);
        let dev = Device::new(vendor.as_str(), device.as_str(), drm_path, pci_ids);
        self.buses.push(bus);
        self.devices.push(dev);
        proof {
            let want = with_node(old(self)@, bus@, vendor_raw@, device_raw@, drm_path@, pci_ids.spec_bytes());
            assert(self@ =~= want);
        }
    }
}

/// A GPU whose vendor code starts no line of the identity database keeps
/// its codes as given and has neither name resolved.
pub proof fn lemma_absent_codes_unresolved(db: Seq<u8>, v: Seq<char>, d: Seq<char>, path: Seq<char>)
    requires
        forall|t: int| is_line_start(db, t) ==> !starts_with(#[trigger] line(db, t), encode_utf8(v)),
    ensures
        identified(v, d, path, db).vendor_id == v,
        identified(v, d, path, db).device_id == d,
        identified(v, d, path, db).vendor_name is None,
        identified(v, d, path, db).device_name is None,
{
    lemma_find_line_absent(db, encode_utf8(v), 0);
}

/// A vendor line too short to reach the name column gives an empty vendor
/// name, not an error.
pub proof fn lemma_short_vendor_line_empty_name(db: Seq<u8>, v: Seq<char>, s: int)
    requires
        find_line(db, encode_utf8(v), 0) == Some(s),
        line(db, s).len() < 4,
    ensures
        vendor_name_in(db, v) == Some(Seq::<char>::empty()),
{
    lemma_find_line_at(db, encode_utf8(v), 0);
    lemma_short_line_empty_field(db, s, 4);
}

proof fn lemma_find_line_at(b: Seq<u8>, p: Seq<u8>, s: int)
    requires
        0 <= s,
    ensures
        find_line(b, p, s) matches Some(t) ==> s <= t < b.len(),
    decreases b.len() + 1 - s,
{
    if s < b.len() && !starts_with(line(b, s), p) {
        lemma_line_end(b, s);
        lemma_find_line_at(b, p, next_line(b, s));
    }
}

/// Two device nodes behind the same new bus address make one GPU, which
/// lists both nodes in the order in which they were added; the GPUs before
/// it stay as they were.
pub proof fn lemma_same_bus_grouped(
    r: Seq<(Seq<char>, DeviceView)>,
    bus: Seq<char>,
    vendor_raw1: Seq<char>,
    device_raw1: Seq<char>,
    path1: Seq<char>,
    vendor_raw2: Seq<char>,
    device_raw2: Seq<char>,
    path2: Seq<char>,
    db: Seq<u8>,
)
    requires
        buses_unique(r),
        forall|i: int| 0 <= i < r.len() ==> (#[trigger] r[i]).0 != bus,
    ensures
        ({
            let r2 = with_node(
                with_node(r, bus, vendor_raw1, device_raw1, path1, db),
                bus,
                vendor_raw2,
                device_raw2,
                path2,
                db,
            );
            &&& r2.len() == r.len() + 1
            &&& r2.subrange(0, r.len() as int) == r
            &&& r2[r.len() as int].0 == bus
            &&& r2[r.len() as int].1.drm_paths == seq![path1, path2]
            &&& r2[r.len() as int].1.vendor_id == pci_code_of(vendor_raw1)
            &&& r2[r.len() as int].1.device_id == pci_code_of(device_raw1)
            &&& buses_unique(r2)
        }),
{
    let r1 = with_node(r, bus, vendor_raw1, device_raw1, path1, db);
    assert(r1 == r.push((bus, identified(pci_code_of(vendor_raw1), pci_code_of(device_raw1), path1, db))));
    let n = r.len() as int;
    assert(r1[n].0 == bus);
    let i = choose|i: int| 0 <= i < r1.len() && r1[i].0 == bus;
    assert(i == n);
    let r2 = with_node(r1, bus, vendor_raw2, device_raw2, path2, db);
    assert(r2.subrange(0, n) =~= r);
    assert(r2[n].1.drm_paths =~= seq![path1, path2]);
}

} // verus!
