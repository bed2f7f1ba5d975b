//! Block devices: identity, inventory rows and the names by which the kernel
//! speaks of a disk.

use crate::alert::now;
use crate::json::{decode, decoded, Json, JsonView};
use crate::strmap::{ascending_members, ordered, StrMap, StrSet};
use crate::text::{
    all_digits, begins, chars, contains_char, copy_list, decimal, decimal_text, digit, from_chars,
    is_digit, is_white, parse_u64, parsed_u64, same, starts_with, strip_prefix, trim, trimmed,
    white, without_prefix,
};
use vstd::prelude::*;
use vstd::utf8::encode_utf8;

verus! {

#[derive(Clone, Copy, Debug, PartialEq, Eq, Structural)]
pub enum Kind {
    Hdd,
    Ssd,
    Nvme,
}

#[derive(Debug)]
pub struct Device {
    pub path: String,
    pub model: String,
    pub serial: String,
    pub wwn: String,
    pub kind: Kind,
    /// Names by which kernel messages may speak of the disk.
    pub aliases: Vec<String>,
    /// The sequence number that the kernel gave to this use of the path.
    pub diskseq: Option<u64>,
    pub discovered_at: u64,
    /// A Western Digital disk behind USB, as the inventory confirmed it. Only
    /// such a disk may spell its serial number in another encoding.
    pub wd_usb: bool,
}

/// What is known of a device.
pub struct DeviceView {
    pub path: Seq<char>,
    pub model: Seq<char>,
    pub serial: Seq<char>,
    pub wwn: Seq<char>,
    pub kind: Kind,
    pub aliases: Seq<Seq<char>>,
    pub diskseq: Option<u64>,
    pub discovered_at: u64,
    pub wd_usb: bool,
}

impl View for Device {
    type V = DeviceView;

    open spec fn view(&self) -> DeviceView {
        DeviceView {
            path: self.path@,
            model: self.model@,
            serial: self.serial@,
            wwn: self.wwn@,
            kind: self.kind,
            aliases: self.aliases.deep_view(),
            diskseq: self.diskseq,
            discovered_at: self.discovered_at,
            wd_usb: self.wd_usb,
        }
    }
}

impl DeepView for Device {
    type V = DeviceView;

    open spec fn deep_view(&self) -> DeviceView {
        self@
    }
}

impl Clone for Device {
    fn clone(&self) -> (r: Self)
        ensures
            r@ == self@,
    {
        Device {
            path: self.path.clone(),
            model: self.model.clone(),
            serial: self.serial.clone(),
            wwn: self.wwn.clone(),
            kind: self.kind,
            aliases: copy_list(&self.aliases),
            diskseq: self.diskseq,
            discovered_at: self.discovered_at,
            wd_usb: self.wd_usb,
        }
    }
}

// ---------------------------------------------------------------------------
// Identity
// ---------------------------------------------------------------------------

/// A character that can stand in an all-zero WWN.
pub open spec fn blank(c: char) -> bool {
    c == '0' || c == ':' || c == '-' || white(c)
}

/// The digits of a WWN: what stands behind `0x` or `0X`.
pub open spec fn wwn_digits(value: Seq<char>) -> Seq<char> {
    match without_prefix(value, "0x"@) {
        Some(d) => d,
        None => match without_prefix(value, "0X"@) {
            Some(d) => d,
            None => value,
        },
    }
}

/// One of the digits is not zero.
pub open spec fn nonzero(digits: Seq<char>) -> bool {
    exists|i: int| 0 <= i < digits.len() && !blank(#[trigger] digits[i])
}

/// The trimmed WWN, where it identifies something: one of its digits is not zero.
pub open spec fn known_wwn(value: Seq<char>) -> Option<Seq<char>> {
    let v = trimmed(value);
    if nonzero(wwn_digits(v)) {
        Some(v)
    } else {
        None
    }
}

/// The trimmed WWN, empty where it identifies nothing.
pub open spec fn clean_wwn(value: Seq<char>) -> Seq<char> {
    match known_wwn(value) {
        Some(v) => v,
        None => Seq::empty(),
    }
}

/// Treats an all-zero WWN, in any of the usual notations, as unavailable.
pub fn nonzero_wwn(value: &str) -> (r: Option<&str>)
    ensures
        match r {
            Some(v) => known_wwn(value@) == Some(v@),
            None => known_wwn(value@) is None,
        },
{
    let v: &str = trim(value);
    let digits: &str = match strip_prefix(v, "0x") {
        Some(d) => d,
        None => match strip_prefix(v, "0X") {
            Some(d) => d,
            None => v,
        },
    };
    let cs: Vec<char> = chars(digits);
    let mut i: usize = 0;
    while i < cs.len()
        invariant
            i <= cs.len(),
            cs@ == digits@,
            digits@ == wwn_digits(v@),
            v@ == trimmed(value@),
            forall|j: int| 0 <= j < i ==> blank(#[trigger] cs@[j]),
        decreases cs.len() - i,
    {
        let c: char = cs[i];
        if c != '0' && c != ':' && c != '-' && !is_white(c) {
            assert(!blank(wwn_digits(v@)[i as int]));
            return Some(v);
        }
        i += 1;
    }
    None
}

/// The WWN without surrounding white space, empty where it identifies nothing.
pub fn cleaned_wwn(value: &str) -> (r: String)
    ensures
        r@ == clean_wwn(value@),
{
    match nonzero_wwn(value) {
        Some(v) => v.to_owned(),
        None => {
            let r: String = String::new();
            assert(r@ =~= Seq::<char>::empty());
            r
        },
    }
}

/// A hexadecimal digit in either case.
pub open spec fn hex_digit(c: char) -> bool {
    digit(c) || 'a' <= c <= 'f' || 'A' <= c <= 'F'
}

pub open spec fn hex_digit_value(c: char) -> int {
    if digit(c) {
        c as int - '0' as int
    } else if 'a' <= c <= 'f' {
        c as int - 'a' as int + 10
    } else {
        c as int - 'A' as int + 10
    }
}

/// `s` is a string of bytes written as pairs of hexadecimal digits.
pub open spec fn hex_encoded(s: Seq<char>) -> bool {
    s.len() > 0 && s.len() % 2 == 0 && forall|i: int| 0 <= i < s.len() ==> hex_digit(#[trigger] s[i])
}

/// The byte that the pair of digits at position `i` spells.
pub open spec fn hex_pair(s: Seq<char>, i: int) -> int {
    16 * hex_digit_value(s[2 * i]) + hex_digit_value(s[2 * i + 1])
}

/// The characters that pairs of hexadecimal digits spell.
pub open spec fn hex_decoded(s: Seq<char>) -> Seq<char> {
    Seq::new(s.len() / 2, |i: int| hex_pair(s, i) as u8 as char)
}

/// The serial number that a USB bridge of Western Digital reports, decoded where
/// it is hexadecimal. `None` where that decodes to something that is no text.
pub open spec fn usb_serial(s: Seq<char>) -> Option<Seq<char>> {
    if !hex_encoded(s) {
        Some(s)
    } else if forall|i: int| 0 <= i < s.len() / 2 ==> '!' as int <= #[trigger] hex_pair(s, i) <= '~' as int {
        Some(hex_decoded(s))
    } else {
        None
    }
}

/// The serial number without the maker's prefix.
pub open spec fn bare_serial(s: Seq<char>) -> Seq<char> {
    match without_prefix(s, "WD-"@) {
        Some(t) => t,
        None => s,
    }
}

impl DeviceView {
    /// The serial number that SMART reports can be that of this device.
    pub open spec fn serial_agrees(self, serial: Seq<char>) -> bool {
        ||| self.serial == serial
        ||| {
            &&& self.wd_usb
            &&& usb_serial(self.serial) matches Some(t)
            &&& bare_serial(t).len() > 0
            &&& bare_serial(t) == bare_serial(serial)
        }
    }

    /// Both are the same disk by a stable identity.
    pub open spec fn same_disk(self, other: DeviceView) -> bool {
        if self.serial.len() > 0 && other.serial.len() > 0 && self.serial != other.serial {
            false
        } else if known_wwn(self.wwn) is Some && known_wwn(other.wwn) is Some {
            known_wwn(self.wwn) == known_wwn(other.wwn)
        } else {
            self.model.len() > 0 && self.serial.len() > 0 && self.model == other.model
                && self.serial == other.serial
        }
    }

    /// The name under which the disk is remembered.
    pub open spec fn key(self) -> Seq<char> {
        match known_wwn(self.wwn) {
            Some(w) => "wwn:"@ + w,
            None => if self.serial.len() > 0 {
                "serial:"@ + decimal(encode_utf8(self.model).len()) + seq![':'] + self.model
                    + seq![':'] + self.serial
            } else {
                "path:"@ + self.path
            },
        }
    }

    /// The alias that names the whole disk in sysfs.
    pub open spec fn block_alias(self) -> Option<Seq<char>> {
        first_block_name(self.aliases)
    }
}

fn is_hex_digit(c: char) -> (r: bool)
    ensures
        r == hex_digit(c),
{
    is_digit(c) || ('a' <= c && c <= 'f') || ('A' <= c && c <= 'F')
}

fn value_of_hex_digit(c: char) -> (r: u8)
    requires
        hex_digit(c),
    ensures
        r == hex_digit_value(c),
        r < 16,
{
    if is_digit(c) {
        c as u8 - 48
    } else if 'a' <= c && c <= 'f' {
        c as u8 - 87
    } else {
        c as u8 - 55
    }
}

fn is_hex_encoded(cs: &Vec<char>) -> (r: bool)
    ensures
        r == hex_encoded(cs@),
{
    if cs.len() == 0 || cs.len() % 2 != 0 {
        return false;
    }
    let mut i: usize = 0;
    while i < cs.len()
        invariant
            i <= cs.len(),
            forall|j: int| 0 <= j < i ==> hex_digit(#[trigger] cs@[j]),
        decreases cs.len() - i,
    {
        if !is_hex_digit(cs[i]) {
            return false;
        }
        i += 1;
    }
    true
}

fn decode_usb_serial(serial: &str) -> (r: Option<String>)
    ensures
        r.deep_view() == usb_serial(serial@),
{
    let cs: Vec<char> = chars(serial);
    if !is_hex_encoded(&cs) {
        return Some(serial.to_owned());
    }
    let mut out: Vec<char> = Vec::new();
    let mut i: usize = 0;
    while i < cs.len()
        invariant
            i <= cs.len(),
            i % 2 == 0,
            cs@ == serial@,
            hex_encoded(cs@),
            out@.len() == i / 2,
            forall|j: int| 0 <= j < i / 2 ==> '!' as int <= #[trigger] hex_pair(cs@, j) <= '~' as int,
            forall|j: int| 0 <= j < i / 2 ==> (#[trigger] out@[j]) == hex_pair(cs@, j) as u8 as char,
        decreases cs.len() - i,
    {
        let b: u8 = 16 * value_of_hex_digit(cs[i]) + value_of_hex_digit(cs[i + 1]);
        assert(2 * (i / 2) == i);
        assert(b == hex_pair(cs@, i as int / 2));
        if b < 33 || b > 126 {
            return None;
        }
        out.push(b as char);
        i += 2;
    }
    assert(out@ =~= hex_decoded(serial@));
    Some(from_chars(&out))
}

fn strip_maker<'a>(serial: &'a str) -> (r: &'a str)
    ensures
        r@ == bare_serial(serial@),
{
    match strip_prefix(serial, "WD-") {
        Some(t) => t,
        None => serial,
    }
}

impl Device {
    /// Whether `serial`, as SMART reports it, can be that of this device.
    pub fn matches_smart_serial(&self, serial: &str) -> (r: bool)
        ensures
            r == self@.serial_agrees(serial@),
    {
        if same(self.serial.as_str(), serial) {
            return true;
        }
        if !self.wd_usb {
            return false;
        }
        match decode_usb_serial(self.serial.as_str()) {
            None => false,
            Some(text) => {
                let discovery: &str = strip_maker(text.as_str());
                !discovery.is_empty() && same(discovery, strip_maker(serial))
            },
        }
    }

    /// Whether both are the same disk by a stable identity, never by a path.
    pub fn same_identity(&self, other: &Self) -> (r: bool)
        ensures
            r == self@.same_disk(other@),
    {
        if !self.serial.as_str().is_empty() && !other.serial.as_str().is_empty() && !same(
            self.serial.as_str(),
            other.serial.as_str(),
        ) {
            return false;
        }
        match (nonzero_wwn(self.wwn.as_str()), nonzero_wwn(other.wwn.as_str())) {
            (Some(a), Some(b)) => same(a, b),
            _ => !self.model.as_str().is_empty() && !self.serial.as_str().is_empty() && same(
                self.model.as_str(),
                other.model.as_str(),
            ) && same(self.serial.as_str(), other.serial.as_str()),
        }
    }

    /// The name under which the disk is remembered: its WWN, else model and
    /// serial number, else its path.
    pub fn key(&self) -> (r: String)
        ensures
            r@ == self@.key(),
    {
        match nonzero_wwn(self.wwn.as_str()) {
            Some(w) => {
                let mut r: String = "wwn:".to_owned();
                r.append(w);
                r
            },
            None => if !self.serial.as_str().is_empty() {
                let mut r: String = "serial:".to_owned();
                r.append(decimal_text(self.model.as_str().as_bytes().len() as u64).as_str());
                r.push(':');
                r.append(self.model.as_str());
                r.push(':');
                r.append(self.serial.as_str());
                assert(r@ =~= self@.key());
                r
            } else {
                let mut r: String = "path:".to_owned();
                r.append(self.path.as_str());
                r
            },
        }
    }
}

// ---------------------------------------------------------------------------
// Inventory
// ---------------------------------------------------------------------------

/// The member `name` of `v` as trimmed text, empty where it is no text.
pub open spec fn trimmed_field(v: JsonView, name: Seq<char>) -> Seq<char> {
    match v.at(name).text() {
        Some(s) => trimmed(s),
        None => Seq::empty(),
    }
}

/// The member `name` of `v` as trimmed text, empty where it is no text.
pub fn trimmed_text(v: &Json, name: &str) -> (r: String)
    ensures
        r@ == trimmed_field(v@, name@),
{
    match v.field(name).as_str() {
        Some(s) => trim(s).to_owned(),
        None => {
            let r: String = String::new();
            assert(r@ =~= Seq::<char>::empty());
            r
        },
    }
}

/// The number of decimal digits at the front of `s`.
pub open spec fn leading_digits(s: Seq<char>) -> nat
    decreases s.len(),
{
    if s.len() > 0 && digit(s[0]) {
        1 + leading_digits(s.skip(1))
    } else {
        0
    }
}

/// The controller that the name of an NVMe device belongs to.
pub open spec fn controller_of(name: Seq<char>) -> Option<Seq<char>> {
    match without_prefix(name, "nvme"@) {
        None => None,
        Some(rest) => {
            let n = leading_digits(rest);
            if n > 0 && (rest.len() == n || rest[n as int] == 'n') {
                Some(name.take(4 + n as int))
            } else {
                None
            }
        },
    }
}

fn count_leading_digits(cs: &Vec<char>, from: usize) -> (r: usize)
    requires
        from <= cs.len(),
    ensures
        r == leading_digits(cs@.skip(from as int)),
        from + r <= cs.len(),
{
    let mut n: usize = 0;
    assert(cs@.skip(from as int).skip(0) =~= cs@.skip(from as int));
    while from + n < cs.len() && is_digit(cs[from + n])
        invariant
            from + n <= cs.len(),
            leading_digits(cs@.skip(from as int)) == n + leading_digits(cs@.skip(from + n)),
        decreases cs.len() - from - n,
    {
        assert(cs@.skip(from + n).skip(1) =~= cs@.skip(from + n + 1));
        n += 1;
    }
    n
}

/// The controller that the name of an NVMe device belongs to.
pub fn controller(name: &str) -> (r: Option<&str>)
    ensures
        match r {
            Some(c) => controller_of(name@) == Some(c@),
            None => controller_of(name@) is None,
        },
{
    proof {
        reveal_strlit("nvme");
    }
    if !starts_with(name, "nvme") {
        return None;
    }
    let cs: Vec<char> = chars(name);
    let n: usize = count_leading_digits(&cs, 4);
    if n == 0 {
        return None;
    }
    if cs.len() == 4 + n || cs[4 + n] == 'n' {
        let c: &str = name.substring_char(0, 4 + n);
        assert(c@ =~= name@.take(4 + n));
        Some(c)
    } else {
        None
    }
}

/// The kernel's name for the device of an inventory row.
pub open spec fn row_name(row: JsonView) -> Seq<char> {
    let path = trimmed_field(row, "name"@);
    match without_prefix(path, "/dev/"@) {
        Some(n) => n,
        None => path,
    }
}

/// A name that the kernel gives to something that is no physical disk.
pub open spec fn virtual_name(name: Seq<char>) -> bool {
    begins(name, "loop"@) || begins(name, "ram"@) || begins(name, "zram"@) || begins(name, "dm-"@)
        || begins(name, "md"@)
}

/// The row is about a physical disk directly under `/dev/`.
pub open spec fn physical(row: JsonView) -> bool {
    &&& row.at("type"@).text() == Some("disk"@)
    &&& !virtual_name(row_name(row))
    &&& begins(trimmed_field(row, "name"@), "/dev/"@)
    &&& !row_name(row).contains('/')
}

/// The path that is monitored for the row: the controller of an NVMe namespace,
/// else the device itself.
pub open spec fn row_target(row: JsonView) -> Seq<char> {
    match controller_of(row_name(row)) {
        Some(c) => "/dev/"@ + c,
        None => trimmed_field(row, "name"@),
    }
}

/// The names that the row adds to those of the device.
pub open spec fn row_aliases(row: JsonView) -> Seq<Seq<char>> {
    match controller_of(row_name(row)) {
        Some(c) => seq![row_name(row), c],
        None => seq![row_name(row)],
    }
}

pub open spec fn row_kind(row: JsonView) -> Kind {
    if controller_of(row_name(row)) is Some {
        Kind::Nvme
    } else if row.at("rota"@) == JsonView::Bool(true) || row.at("rota"@).signed() == Some(1i64) {
        Kind::Hdd
    } else {
        Kind::Ssd
    }
}

/// The device behind a Western Digital USB bridge.
pub open spec fn row_wd_usb(row: JsonView) -> bool {
    let vendor = trimmed_field(row, "vendor"@);
    trimmed_field(row, "tran"@) == "usb"@ && (vendor == "WD"@ || vendor == "WDC"@ || vendor
        == "Western Digital"@)
}

/// What the first row of a device says of it. The WWN of an NVMe row identifies
/// a namespace, not the controller, and is left out.
pub open spec fn row_device(row: JsonView, now: u64) -> DeviceView {
    DeviceView {
        path: row_target(row),
        model: trimmed_field(row, "model"@),
        serial: trimmed_field(row, "serial"@),
        wwn: if controller_of(row_name(row)) is Some {
            Seq::empty()
        } else {
            clean_wwn(trimmed_field(row, "wwn"@))
        },
        kind: row_kind(row),
        aliases: Seq::empty(),
        diskseq: None,
        discovered_at: now,
        wd_usb: row_wd_usb(row),
    }
}

/// The devices by path, after one more row.
pub open spec fn with_row(
    known: Map<Seq<char>, DeviceView>,
    row: JsonView,
    now: u64,
) -> Map<Seq<char>, DeviceView> {
    if !physical(row) {
        known
    } else {
        let path = row_target(row);
        let d = if known.contains_key(path) {
            known[path]
        } else {
            row_device(row, now)
        };
        known.insert(path, DeviceView { aliases: d.aliases + row_aliases(row), ..d })
    }
}

/// The devices of all rows by path.
pub open spec fn inventory(rows: Seq<JsonView>, now: u64) -> Map<Seq<char>, DeviceView>
    decreases rows.len(),
{
    if rows.len() == 0 {
        Map::empty()
    } else {
        with_row(inventory(rows.drop_last(), now), rows.last(), now)
    }
}

/// The devices of an `lsblk` document in the order of their paths. `None` where
/// the document has no list of block devices.
pub open spec fn listed_devices(root: JsonView, now: u64) -> Option<Seq<DeviceView>> {
    match root.at("blockdevices"@).array() {
        Some(rows) => Some(
            ordered(inventory(rows, now)).map_values(|e: (Seq<char>, DeviceView)| e.1),
        ),
        None => None,
    }
}

/// Why an inventory could not be read.
#[derive(Debug)]
pub enum InventoryError {
    /// The text is no JSON, with the reason.
    Json(String),
    /// The document has no list of block devices.
    NoDevices,
}

impl InventoryError {
    pub open spec fn text(self) -> Seq<char> {
        match self {
            InventoryError::Json(e) => e@,
            InventoryError::NoDevices => "lsblk missing blockdevices"@,
        }
    }

    pub fn message(&self) -> (r: String)
        ensures
            r@ == self.text(),
    {
        match self {
            InventoryError::Json(e) => e.clone(),
            InventoryError::NoDevices => "lsblk missing blockdevices".to_owned(),
        }
    }
}

fn is_virtual_name(name: &str) -> (r: bool)
    ensures
        r == virtual_name(name@),
{
    starts_with(name, "loop") || starts_with(name, "ram") || starts_with(name, "zram")
        || starts_with(name, "dm-") || starts_with(name, "md")
}

fn add_row(known: &mut StrMap<Device>, row: &Json, now: u64)
    ensures
        final(known)@ == with_row(old(known)@, row@, now),
{
    if !row.field("type").is_text("disk") {
        return;
    }
    let path: String = trimmed_text(row, "name");
    let name: &str = match strip_prefix(path.as_str(), "/dev/") {
        Some(n) => n,
        None => path.as_str(),
    };
    assert(name@ == row_name(row@));
    if is_virtual_name(name) || !starts_with(path.as_str(), "/dev/") || contains_char(name, '/') {
        return;
    }
    let nvme: Option<&str> = controller(name);
    let target: String = match nvme {
        Some(c) => {
            let mut t: String = "/dev/".to_owned();
            t.append(c);
            t
        },
        None => path.clone(),
    };
    assert(target@ == row_target(row@));
    let mut device: Device = match known.remove(target.as_str()) {
        Some(d) => d,
        None => {
            let vendor: String = trimmed_text(row, "vendor");
            let rota: &Json = row.field("rota");
            let wwn: String = if nvme.is_some() {
                String::new()
            } else {
                cleaned_wwn(trimmed_text(row, "wwn").as_str())
            };
            let fresh: Device = Device {
                path: target.clone(),
                model: trimmed_text(row, "model"),
                serial: trimmed_text(row, "serial"),
                wwn,
                kind: if nvme.is_some() {
                    Kind::Nvme
                } else if rota.as_bool() == Some(true) || rota.as_i64() == Some(1i64) {
                    Kind::Hdd
                } else {
                    Kind::Ssd
                },
                aliases: Vec::new(),
                diskseq: None,
                discovered_at: now,
                wd_usb: same(trimmed_text(row, "tran").as_str(), "usb") && (same(
                    vendor.as_str(),
                    "WD",
                ) || same(vendor.as_str(), "WDC") || same(vendor.as_str(), "Western Digital")),
            };
            assert(fresh@.wwn =~= row_device(row@, now).wwn);
            assert(fresh@.aliases =~= Seq::<Seq<char>>::empty());
            fresh
        },
    };
    let ghost base = device@;
    device.aliases.push(name.to_owned());
    if let Some(c) = nvme {
        device.aliases.push(c.to_owned());
    }
    assert(device@.aliases =~= base.aliases + row_aliases(row@));
    let ghost grown = device@;
    known.insert(target, device);
    assert(known@ =~= old(known)@.insert(row_target(row@), grown));
}

/// The devices of a decoded `lsblk` document.
pub fn from_document(root: &Json, now: u64) -> (r: Result<Vec<Device>, InventoryError>)
    ensures
        match r {
            Ok(devices) => listed_devices(root@, now) == Some(devices.deep_view()),
            Err(e) => e is NoDevices && listed_devices(root@, now) is None,
        },
{
    match root.field("blockdevices").as_array() {
        None => Err(InventoryError::NoDevices),
        Some(rows) => {
            let mut known: StrMap<Device> = StrMap::new();
            let ghost all = rows.deep_view();
            let mut i: usize = 0;
            while i < rows.len()
                invariant
                    i <= rows.len(),
                    all == rows.deep_view(),
                    known@ == inventory(all.take(i as int), now),
                decreases rows.len() - i,
            {
                add_row(&mut known, &rows[i], now);
                i += 1;
                assert(all.take(i as int).drop_last() =~= all.take(i - 1));
            }
            assert(all.take(i as int) =~= all);
            Ok(known.into_values())
        },
    }
}

/// The devices of an `lsblk` report that was read at time `now`.
pub fn parse_at(data: &[u8], now: u64) -> (r: Result<Vec<Device>, InventoryError>)
    ensures
        match r {
            Ok(devices) => decoded(data@) matches Ok(root) && listed_devices(root, now) == Some(
                devices.deep_view(),
            ),
            Err(InventoryError::Json(e)) => decoded(data@) == Err::<JsonView, Seq<char>>(e@),
            Err(InventoryError::NoDevices) => decoded(data@) matches Ok(root) && listed_devices(
                root,
                now,
            ) is None,
        },
{
    match decode(data) {
        Ok(root) => from_document(&root, now),
        Err(e) => Err(InventoryError::Json(e)),
    }
}

/// The devices of an `lsblk` report that is read now.
pub fn parse(data: &[u8]) -> (r: Result<Vec<Device>, InventoryError>)
    ensures
        match r {
            Ok(devices) => decoded(data@) matches Ok(root) && exists|time: u64| #[trigger]
                listed_devices(root, time) == Some(devices.deep_view()),
            Err(InventoryError::Json(e)) => decoded(data@) == Err::<JsonView, Seq<char>>(e@),
            Err(InventoryError::NoDevices) => decoded(data@) matches Ok(root) && root.at(
                "blockdevices"@,
            ).array() is None,
        },
{
    parse_at(data, now())
}

// ---------------------------------------------------------------------------
// Names in sysfs
// ---------------------------------------------------------------------------

/// The name of a whole block device: no ATA port and no NVMe controller.
pub open spec fn block_name(name: Seq<char>) -> bool {
    !begins(name, "ata"@) && (!begins(name, "nvme"@) || name.skip(4).contains('n'))
}

pub open spec fn first_block_name(names: Seq<Seq<char>>) -> Option<Seq<char>>
    decreases names.len(),
{
    if names.len() == 0 {
        None
    } else if block_name(names[0]) {
        Some(names[0])
    } else {
        first_block_name(names.skip(1))
    }
}

fn is_block_name(name: &str) -> (r: bool)
    ensures
        r == block_name(name@),
{
    proof {
        reveal_strlit("nvme");
    }
    if starts_with(name, "ata") {
        return false;
    }
    match strip_prefix(name, "nvme") {
        None => true,
        Some(rest) => contains_char(rest, 'n'),
    }
}

/// The name of an ATA port, such as `ata3`.
pub open spec fn ata_port(name: Seq<char>) -> bool {
    without_prefix(name, "ata"@) matches Some(n) && n.len() > 0 && all_digits(n)
}

/// Whether a component of a device's path in sysfs names its ATA port.
pub fn is_ata_port(name: &str) -> (r: bool)
    ensures
        r == ata_port(name@),
{
    match strip_prefix(name, "ata") {
        None => false,
        Some(n) => {
            let cs: Vec<char> = chars(n);
            let mut i: usize = 0;
            while i < cs.len()
                invariant
                    i <= cs.len(),
                    cs@ == n@,
                    without_prefix(name@, "ata"@) == Some(n@),
                    forall|j: int| 0 <= j < i ==> digit(#[trigger] cs@[j]),
                decreases cs.len() - i,
            {
                if !is_digit(cs[i]) {
                    assert(!digit(n@[i as int]));
                    return false;
                }
                i += 1;
            }
            cs.len() > 0
        },
    }
}

/// The sequence number that the text of a `diskseq` file in sysfs spells.
pub fn diskseq_from(text: &str) -> (r: Option<u64>)
    ensures
        r == parsed_u64(trimmed(text@)),
{
    parse_u64(trim(text))
}

proof fn lemma_set_after_push(s: Seq<Seq<char>>, x: Seq<char>)
    ensures
        s.push(x).to_set() == s.to_set().insert(x),
{
    broadcast use vstd::seq_lib::group_seq_properties;

    assert(s.push(x).to_set() =~= s.to_set().insert(x));
}

impl Device {
    /// The alias whose directory in sysfs holds the sequence number of the disk.
    pub fn block_alias(&self) -> (r: Option<&str>)
        ensures
            match r {
                Some(a) => self@.block_alias() == Some(a@),
                None => self@.block_alias() is None,
            },
    {
        let ghost all = self.aliases.deep_view();
        let mut i: usize = 0;
        assert(all.skip(0) =~= all);
        while i < self.aliases.len()
            invariant
                i <= self.aliases.len(),
                all == self.aliases.deep_view(),
                first_block_name(all) == first_block_name(all.skip(i as int)),
            decreases self.aliases.len() - i,
        {
            assert(all.skip(i as int)[0] == self.aliases@[i as int]@);
            assert(all.skip(i as int).skip(1) =~= all.skip(i + 1));
            if is_block_name(self.aliases[i].as_str()) {
                return Some(self.aliases[i].as_str());
            }
            i += 1;
        }
        None
    }

    /// Adds names to those of the device, and keeps each name once, in order.
    pub fn add_aliases(&mut self, names: &Vec<String>)
        ensures
            final(self)@ == (DeviceView {
                aliases: ascending_members(
                    (old(self)@.aliases + names.deep_view()).to_set(),
                ),
                ..old(self)@
            }),
    {
        let ghost first = self.aliases.deep_view();
        let ghost second = names.deep_view();
        let ghost all = first + second;
        let mut set: StrSet = StrSet::new();
        let mut i: usize = 0;
        assert(all.take(0).to_set() =~= Set::<Seq<char>>::empty());
        while i < self.aliases.len()
            invariant
                i <= self.aliases.len(),
                first == self.aliases.deep_view(),
                all == first + second,
                set@ == all.take(i as int).to_set(),
                *self == *old(self),
            decreases self.aliases.len() - i,
        {
            set.insert(self.aliases[i].clone());
            assert(all.take(i + 1) =~= all.take(i as int).push(all[i as int]));
            proof {
                lemma_set_after_push(all.take(i as int), all[i as int]);
            }
            i += 1;
        }
        let mut j: usize = 0;
        while j < names.len()
            invariant
                j <= names.len(),
                second == names.deep_view(),
                all == first + second,
                set@ == all.take(first.len() + j).to_set(),
            decreases names.len() - j,
        {
            set.insert(names[j].clone());
            let ghost at = first.len() + j;
            assert(all[at as int] == names@[j as int]@);
            assert(all.take(at + 1) =~= all.take(at as int).push(all[at as int]));
            proof {
                lemma_set_after_push(all.take(at as int), all[at as int]);
            }
            j += 1;
        }
        assert(all.take(all.len() as int) =~= all);
        let mut out: Vec<String> = Vec::new();
        let n: usize = set.len();
        let mut k: usize = 0;
        while k < n
            invariant
                k <= n,
                n == ascending_members(set@).len(),
                out@.len() == k,
                forall|m: int| 0 <= m < k ==> (#[trigger] out@[m])@ == ascending_members(set@)[m],
            decreases n - k,
        {
            out.push(set.at(k).to_owned());
            k += 1;
        }
        assert(out.deep_view() =~= ascending_members(set@));
        self.aliases = out;
    }
}

} // verus!
