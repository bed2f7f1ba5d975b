//! SMART reports: what `smartctl` printed, as measurements of one disk.

use crate::devices::{
    clean_wwn, cleaned_wwn, known_wwn, nonzero_wwn, trimmed_field, trimmed_text, Device,
    DeviceView, Kind,
};
use crate::json::{decode, decoded, text_of, Json, JsonView};
use crate::strmap::{lemma_all_seen, lemma_seen, lists, ordered, seen, StrMap, StrSet};
use crate::text::{
    chars, copy_option, debug_quoted, debug_text, decimal, decimal_text, hex_fixed,
    hex_fixed_text, lowered, parse_u64, parsed_u64, remove_chars, same, strip_prefix,
    strip_suffix, to_lowercase, to_uppercase, trim, trimmed, uppered, without_chars,
    without_prefix, without_suffix,
};
use vstd::prelude::*;

verus! {

// ---------------------------------------------------------------------------
// Values
// ---------------------------------------------------------------------------

/// The bits of the exit status of `smartctl`.
#[derive(Clone, Copy, Debug)]
pub struct ExitStatus {
    pub mask: u8,
    pub incomplete: bool,
    pub disk_failing: bool,
    pub prefailure: bool,
    pub past_threshold: bool,
    pub error_log: bool,
    pub self_test_log: bool,
}

/// What the bits of an exit status say.
pub open spec fn exit_status(mask: u8) -> ExitStatus {
    ExitStatus {
        mask,
        incomplete: mask & 7 != 0,
        disk_failing: mask & 8 != 0,
        prefailure: mask & 16 != 0,
        past_threshold: mask & 32 != 0,
        error_log: mask & 64 != 0,
        self_test_log: mask & 128 != 0,
    }
}

impl ExitStatus {
    pub fn new(mask: u8) -> (r: Self)
        ensures
            r == exit_status(mask),
    {
        ExitStatus {
            mask,
            incomplete: mask & 7 != 0,
            disk_failing: mask & 8 != 0,
            prefailure: mask & 16 != 0,
            past_threshold: mask & 32 != 0,
            error_log: mask & 64 != 0,
            self_test_log: mask & 128 != 0,
        }
    }
}

/// The exit status of a run that had nothing to report.
pub open spec fn clean_exit() -> ExitStatus {
    ExitStatus {
        mask: 0,
        incomplete: false,
        disk_failing: false,
        prefailure: false,
        past_threshold: false,
        error_log: false,
        self_test_log: false,
    }
}

impl Default for ExitStatus {
    fn default() -> (r: Self)
        ensures
            r == clean_exit(),
    {
        ExitStatus {
            mask: 0,
            incomplete: false,
            disk_failing: false,
            prefailure: false,
            past_threshold: false,
            error_log: false,
            self_test_log: false,
        }
    }
}

#[derive(Clone, Copy, Debug, PartialEq, Eq, Structural)]
pub enum SelfTestStatus {
    Passed,
    Failed,
    Aborted,
    InProgress,
    Unknown,
}

/// The measurements of one disk. What is `None` is not known.
#[derive(Debug)]
pub struct Snapshot {
    pub model: String,
    pub serial: String,
    pub wwn: String,
    pub firmware: String,
    pub passed: Option<bool>,
    pub temperature: Option<i64>,
    pub power_on_hours: Option<u64>,
    pub counters: StrMap<u64>,
    /// Vendor data that is kept for inspection and never raises an alert.
    pub unknown_attributes: StrMap<Json>,
    pub available_spare: Option<u64>,
    pub spare_threshold: Option<u64>,
    pub percentage_used: Option<u64>,
    pub remaining_life: Option<u64>,
    pub critical_warning: Option<u64>,
    pub prefailure: Option<bool>,
    pub self_test: Option<String>,
    pub self_test_hours: Option<u64>,
    pub self_test_status: Option<SelfTestStatus>,
    pub exit: ExitStatus,
    pub issue: Option<String>,
    /// The fields and counters that hold an earlier value.
    pub stale_fields: StrSet,
}

/// What a snapshot says.
pub struct SnapshotView {
    pub model: Seq<char>,
    pub serial: Seq<char>,
    pub wwn: Seq<char>,
    pub firmware: Seq<char>,
    pub passed: Option<bool>,
    pub temperature: Option<i64>,
    pub power_on_hours: Option<u64>,
    pub counters: Map<Seq<char>, u64>,
    pub unknown_attributes: Map<Seq<char>, JsonView>,
    pub available_spare: Option<u64>,
    pub spare_threshold: Option<u64>,
    pub percentage_used: Option<u64>,
    pub remaining_life: Option<u64>,
    pub critical_warning: Option<u64>,
    pub prefailure: Option<bool>,
    pub self_test: Option<Seq<char>>,
    pub self_test_hours: Option<u64>,
    pub self_test_status: Option<SelfTestStatus>,
    pub exit: ExitStatus,
    pub issue: Option<Seq<char>>,
    pub stale_fields: Set<Seq<char>>,
}

impl View for Snapshot {
    type V = SnapshotView;

    open spec fn view(&self) -> SnapshotView {
        SnapshotView {
            model: self.model@,
            serial: self.serial@,
            wwn: self.wwn@,
            firmware: self.firmware@,
            passed: self.passed,
            temperature: self.temperature,
            power_on_hours: self.power_on_hours,
            counters: self.counters@,
            unknown_attributes: self.unknown_attributes@,
            available_spare: self.available_spare,
            spare_threshold: self.spare_threshold,
            percentage_used: self.percentage_used,
            remaining_life: self.remaining_life,
            critical_warning: self.critical_warning,
            prefailure: self.prefailure,
            self_test: self.self_test.deep_view(),
            self_test_hours: self.self_test_hours,
            self_test_status: self.self_test_status,
            exit: self.exit,
            issue: self.issue.deep_view(),
            stale_fields: self.stale_fields@,
        }
    }
}

impl DeepView for Snapshot {
    type V = SnapshotView;

    open spec fn deep_view(&self) -> SnapshotView {
        self@
    }
}

/// A snapshot that knows nothing.
pub open spec fn blank_snapshot() -> SnapshotView {
    SnapshotView {
        model: Seq::empty(),
        serial: Seq::empty(),
        wwn: Seq::empty(),
        firmware: Seq::empty(),
        passed: None,
        temperature: None,
        power_on_hours: None,
        counters: Map::empty(),
        unknown_attributes: Map::empty(),
        available_spare: None,
        spare_threshold: None,
        percentage_used: None,
        remaining_life: None,
        critical_warning: None,
        prefailure: None,
        self_test: None,
        self_test_hours: None,
        self_test_status: None,
        exit: clean_exit(),
        issue: None,
        stale_fields: Set::empty(),
    }
}

impl Default for Snapshot {
    fn default() -> (r: Self)
        ensures
            r@ == blank_snapshot(),
    {
        let r: Snapshot = Snapshot {
            model: String::new(),
            serial: String::new(),
            wwn: String::new(),
            firmware: String::new(),
            passed: None,
            temperature: None,
            power_on_hours: None,
            counters: StrMap::new(),
            unknown_attributes: StrMap::new(),
            available_spare: None,
            spare_threshold: None,
            percentage_used: None,
            remaining_life: None,
            critical_warning: None,
            prefailure: None,
            self_test: None,
            self_test_hours: None,
            self_test_status: None,
            exit: ExitStatus::default(),
            issue: None,
            stale_fields: StrSet::new(),
        };
        assert(r@.model =~= Seq::<char>::empty());
        r
    }
}

impl Clone for Snapshot {
    fn clone(&self) -> (r: Self)
        ensures
            r@ == self@,
    {
        Snapshot {
            model: self.model.clone(),
            serial: self.serial.clone(),
            wwn: self.wwn.clone(),
            firmware: self.firmware.clone(),
            passed: self.passed,
            temperature: self.temperature,
            power_on_hours: self.power_on_hours,
            counters: self.counters.clone(),
            unknown_attributes: self.unknown_attributes.clone(),
            available_spare: self.available_spare,
            spare_threshold: self.spare_threshold,
            percentage_used: self.percentage_used,
            remaining_life: self.remaining_life,
            critical_warning: self.critical_warning,
            prefailure: self.prefailure,
            self_test: copy_option(&self.self_test),
            self_test_hours: self.self_test_hours,
            self_test_status: self.self_test_status,
            exit: self.exit,
            issue: copy_option(&self.issue),
            stale_fields: self.stale_fields.clone(),
        }
    }
}

// ---------------------------------------------------------------------------
// Earlier values
// ---------------------------------------------------------------------------

/// The value to go on with: the new one, else the earlier one.
pub open spec fn kept<T>(new: Option<T>, old: Option<T>) -> Option<T> {
    if new is None {
        old
    } else {
        new
    }
}

/// The field `name`, where its value is an earlier one.
pub open spec fn lost<T>(new: Option<T>, old: Option<T>, name: Seq<char>) -> Set<Seq<char>> {
    if new is None && old is Some {
        set![name]
    } else {
        Set::empty()
    }
}

/// The fields of `new` that would go on with their value in `old`.
pub open spec fn lost_fields(new: SnapshotView, old: SnapshotView) -> Set<Seq<char>> {
    lost(new.passed, old.passed, "passed"@).union(
        lost(new.temperature, old.temperature, "temperature"@),
    ).union(lost(new.power_on_hours, old.power_on_hours, "power_on_hours"@)).union(
        lost(new.available_spare, old.available_spare, "available_spare"@),
    ).union(lost(new.spare_threshold, old.spare_threshold, "spare_threshold"@)).union(
        lost(new.percentage_used, old.percentage_used, "percentage_used"@),
    ).union(lost(new.remaining_life, old.remaining_life, "remaining_life"@)).union(
        lost(new.critical_warning, old.critical_warning, "critical_warning"@),
    ).union(lost(new.prefailure, old.prefailure, "prefailure"@)).union(
        lost(new.self_test, old.self_test, "self_test"@),
    ).union(lost(new.self_test_hours, old.self_test_hours, "self_test_hours"@)).union(
        lost(new.self_test_status, old.self_test_status, "self_test_status"@),
    )
}

/// The counters of `old` that `new` does not have.
pub open spec fn lost_counters(new: SnapshotView, old: SnapshotView) -> Set<Seq<char>> {
    old.counters.dom().difference(new.counters.dom())
}

impl SnapshotView {
    /// The snapshot, with earlier measurements where there is no new one, each of
    /// them marked as stale.
    pub open spec fn retaining(self, old: SnapshotView) -> SnapshotView {
        SnapshotView {
            passed: kept(self.passed, old.passed),
            temperature: kept(self.temperature, old.temperature),
            power_on_hours: kept(self.power_on_hours, old.power_on_hours),
            counters: old.counters.union_prefer_right(self.counters),
            available_spare: kept(self.available_spare, old.available_spare),
            spare_threshold: kept(self.spare_threshold, old.spare_threshold),
            percentage_used: kept(self.percentage_used, old.percentage_used),
            remaining_life: kept(self.remaining_life, old.remaining_life),
            critical_warning: kept(self.critical_warning, old.critical_warning),
            prefailure: kept(self.prefailure, old.prefailure),
            self_test: kept(self.self_test, old.self_test),
            self_test_hours: kept(self.self_test_hours, old.self_test_hours),
            self_test_status: kept(self.self_test_status, old.self_test_status),
            stale_fields: self.stale_fields.union(lost_fields(self, old)).union(
                lost_counters(self, old),
            ),
            ..self
        }
    }

    /// The report leaves open whether the disk is well.
    pub open spec fn uncertain(self) -> bool {
        self.issue is Some || self.stale_fields != Set::<Seq<char>>::empty() || self.passed is None
    }
}

fn retain<T: Copy>(new: &mut Option<T>, earlier: Option<T>, stale: &mut StrSet, name: &str)
    ensures
        *final(new) == kept(*old(new), earlier),
        final(stale)@ == old(stale)@.union(lost(*old(new), earlier, name@)),
{
    if new.is_none() && earlier.is_some() {
        *new = earlier;
        stale.insert(name.to_owned());
        assert(stale@ =~= old(stale)@.union(set![name@]));
    } else {
        assert(stale@ =~= old(stale)@.union(Set::<Seq<char>>::empty()));
    }
}

impl Snapshot {
    /// Goes on with the last known measurements where there is no new one, and
    /// marks each of them as unavailable now.
    pub fn retain_missing(&mut self, earlier: &Self)
        ensures
            final(self)@ == old(self)@.retaining(earlier@),
    {
        let ghost start = self@;
        retain(&mut self.passed, earlier.passed, &mut self.stale_fields, "passed");
        retain(&mut self.temperature, earlier.temperature, &mut self.stale_fields, "temperature");
        retain(
            &mut self.power_on_hours,
            earlier.power_on_hours,
            &mut self.stale_fields,
            "power_on_hours",
        );
        retain(
            &mut self.available_spare,
            earlier.available_spare,
            &mut self.stale_fields,
            "available_spare",
        );
        retain(
            &mut self.spare_threshold,
            earlier.spare_threshold,
            &mut self.stale_fields,
            "spare_threshold",
        );
        retain(
            &mut self.percentage_used,
            earlier.percentage_used,
            &mut self.stale_fields,
            "percentage_used",
        );
        retain(
            &mut self.remaining_life,
            earlier.remaining_life,
            &mut self.stale_fields,
            "remaining_life",
        );
        retain(
            &mut self.critical_warning,
            earlier.critical_warning,
            &mut self.stale_fields,
            "critical_warning",
        );
        retain(&mut self.prefailure, earlier.prefailure, &mut self.stale_fields, "prefailure");
        let ghost stale = self.stale_fields@;
        if self.self_test.is_none() && earlier.self_test.is_some() {
            self.self_test = copy_option(&earlier.self_test);
            self.stale_fields.insert("self_test".to_owned());
        }
        assert(self.stale_fields@ =~= stale.union(
            lost(start.self_test, earlier@.self_test, "self_test"@),
        ));
        retain(
            &mut self.self_test_hours,
            earlier.self_test_hours,
            &mut self.stale_fields,
            "self_test_hours",
        );
        retain(
            &mut self.self_test_status,
            earlier.self_test_status,
            &mut self.stale_fields,
            "self_test_status",
        );
        assert(self.stale_fields@ =~= start.stale_fields.union(lost_fields(start, earlier@)));
        self.retain_counters(earlier);
    }

    fn retain_counters(&mut self, earlier: &Self)
        ensures
            final(self)@ == (SnapshotView {
                counters: earlier@.counters.union_prefer_right(old(self)@.counters),
                stale_fields: old(self)@.stale_fields.union(lost_counters(old(self)@, earlier@)),
                ..old(self)@
            }),
    {
        let ghost start = self@;
        let ghost listing = ordered(earlier@.counters);
        let n: usize = earlier.counters.len();
        let mut i: usize = 0;
        while i < n
            invariant
                i <= n,
                n == listing.len(),
                listing == ordered(earlier@.counters),
                lists(listing, earlier@.counters),
                self@ == (SnapshotView {
                    counters: self@.counters,
                    stale_fields: self@.stale_fields,
                    ..start
                }),
                forall|k: Seq<char>|
                    #[trigger] self@.counters.contains_key(k) <==> start.counters.contains_key(k)
                        || seen(listing, i as int, k),
                forall|k: Seq<char>|
                    #[trigger] self@.stale_fields.contains(k) <==> start.stale_fields.contains(k)
                        || !start.counters.contains_key(k) && seen(listing, i as int, k),
                forall|k: Seq<char>| #[trigger]
                    self@.counters.contains_key(k) ==> self@.counters[k]
                        == (if start.counters.contains_key(k) {
                        start.counters[k]
                    } else {
                        earlier@.counters[k]
                    }),
            decreases n - i,
        {
            proof {
                lemma_seen(listing, i as int);
            }
            let name: &str = earlier.counters.key_at(i);
            let value: u64 = *earlier.counters.value_at(i);
            if !self.counters.contains_key(name) {
                self.counters.insert(name.to_owned(), value);
                self.stale_fields.insert(name.to_owned());
            }
            i += 1;
        }
        proof {
            lemma_all_seen(listing, earlier@.counters);
        }
        assert(self@.counters =~= earlier@.counters.union_prefer_right(start.counters));
        assert(self@.stale_fields =~= start.stale_fields.union(lost_counters(start, earlier@)));
    }

    /// Whether the report leaves open if the disk is well.
    pub fn unknown(&self) -> (r: bool)
        ensures
            r == self@.uncertain(),
    {
        self.issue.is_some() || !self.stale_fields.is_empty() || self.passed.is_none()
    }
}

// ---------------------------------------------------------------------------
// Parts of a report
// ---------------------------------------------------------------------------

/// The name of the counter that an attribute holds, in one spelling for all the
/// names that vendors use.
pub open spec fn counter_key(name: Seq<char>) -> Option<Seq<char>> {
    if name == "Reallocated_Sector_Ct"@ || name == "Reallocated_Sector_Count"@ {
        Some("Reallocated_Sector_Ct"@)
    } else if name == "Reallocated_Event_Count"@ {
        Some("Reallocated_Event_Count"@)
    } else if name == "Current_Pending_Sector"@ || name == "Pending_Sector_Count"@ {
        Some("Current_Pending_Sector"@)
    } else if name == "Offline_Uncorrectable"@ {
        Some("Offline_Uncorrectable"@)
    } else if name == "Reported_Uncorrect"@ {
        Some("Reported_Uncorrect"@)
    } else if name == "UDMA_CRC_Error_Count"@ || name == "CRC_Error_Count"@ || name
        == "SATA_CRC_Error_Count"@ {
        Some("UDMA_CRC_Error_Count"@)
    } else if name == "Command_Timeout"@ || name == "Command_Timeouts"@ {
        Some("Command_Timeout"@)
    } else {
        None
    }
}

/// The name of the counter that an attribute holds.
pub fn counter_name(name: &str) -> (r: Option<&'static str>)
    ensures
        match r {
            Some(k) => counter_key(name@) == Some(k@),
            None => counter_key(name@) is None,
        },
{
    if same(name, "Reallocated_Sector_Ct") || same(name, "Reallocated_Sector_Count") {
        Some("Reallocated_Sector_Ct")
    } else if same(name, "Reallocated_Event_Count") {
        Some("Reallocated_Event_Count")
    } else if same(name, "Current_Pending_Sector") || same(name, "Pending_Sector_Count") {
        Some("Current_Pending_Sector")
    } else if same(name, "Offline_Uncorrectable") {
        Some("Offline_Uncorrectable")
    } else if same(name, "Reported_Uncorrect") {
        Some("Reported_Uncorrect")
    } else if same(name, "UDMA_CRC_Error_Count") || same(name, "CRC_Error_Count") || same(
        name,
        "SATA_CRC_Error_Count",
    ) {
        Some("UDMA_CRC_Error_Count")
    } else if same(name, "Command_Timeout") || same(name, "Command_Timeouts") {
        Some("Command_Timeout")
    } else {
        None
    }
}

/// What a table of attributes comes to.
pub struct AttributesView {
    pub counters: Map<Seq<char>, u64>,
    pub unknown: Map<Seq<char>, JsonView>,
    pub remaining_life: Option<u64>,
}

pub open spec fn attribute_name(a: JsonView) -> Seq<char> {
    match a.at("name"@).text() {
        Some(n) => n,
        None => "Unknown"@,
    }
}

/// The raw value is one number: the formatted value, if there is one, says the
/// same. Packed values, such as three 16-bit counts in one, say otherwise.
pub open spec fn scalar(a: JsonView) -> bool {
    match a.at("raw"@).at("string"@).text() {
        Some(t) => parsed_u64(trimmed(t)) == a.at("raw"@).at("value"@).unsigned(),
        None => true,
    }
}

/// The counter and its value that an attribute gives. Command timeouts are often
/// packed, so they count only where a formatted value confirms the number.
pub open spec fn counted(a: JsonView) -> Option<(Seq<char>, u64)> {
    match (counter_key(attribute_name(a)), a.at("raw"@).at("value"@).unsigned()) {
        (Some(key), Some(n)) => if scalar(a) && (key != "Command_Timeout"@ || a.at("raw"@).at(
            "string"@,
        ).text() is Some) {
            Some((key, n))
        } else {
            None
        },
        _ => None,
    }
}

/// The attribute tells how much of an SSD's life is left, in percent.
pub open spec fn tells_life(name: Seq<char>) -> bool {
    name == "SSD_Life_Left"@ || name == "Percent_Lifetime_Remain"@ || name
        == "Media_Wearout_Indicator"@
}

/// A percentage, where it is one.
pub open spec fn percentage(v: JsonView) -> Option<u64> {
    match v.unsigned() {
        Some(n) => if n <= 100 {
            Some(n)
        } else {
            None
        },
        None => None,
    }
}

pub open spec fn with_attribute(all: AttributesView, a: JsonView) -> AttributesView {
    let name = attribute_name(a);
    AttributesView {
        counters: match counted(a) {
            Some((key, n)) => all.counters.insert(key, n),
            None => all.counters,
        },
        unknown: match counted(a) {
            Some(_) => all.unknown,
            None => all.unknown.insert(text_of(a.at("id"@)) + seq![':'] + name, a.at("raw"@)),
        },
        remaining_life: if tells_life(name) {
            percentage(a.at("value"@))
        } else {
            all.remaining_life
        },
    }
}

/// What the rows of the attribute table come to, one after the other.
pub open spec fn attributes(rows: Seq<JsonView>) -> AttributesView
    decreases rows.len(),
{
    if rows.len() == 0 {
        AttributesView { counters: Map::empty(), unknown: Map::empty(), remaining_life: None }
    } else {
        with_attribute(attributes(rows.drop_last()), rows.last())
    }
}

/// The rows of the ATA attribute table, none where there is no table.
pub open spec fn attribute_rows(v: JsonView) -> Seq<JsonView> {
    match v.at("ata_smart_attributes"@).at("table"@).array() {
        Some(rows) => rows,
        None => Seq::empty(),
    }
}

/// The counters of an NVMe health log, added to those of the attribute table.
pub open spec fn with_counter(
    counters: Map<Seq<char>, u64>,
    log: JsonView,
    key: Seq<char>,
) -> Map<Seq<char>, u64> {
    match log.at(key).unsigned() {
        Some(n) => counters.insert(key, n),
        None => counters,
    }
}

/// The newest entry of a self-test log.
pub struct SelfTestView {
    pub text: Option<Seq<char>>,
    pub hours: Option<u64>,
    pub status: SelfTestStatus,
}

pub open spec fn ata_test_entry(v: JsonView, section: Seq<char>) -> Option<JsonView> {
    match v.child("ata_smart_self_test_log"@) {
        Some(log) => match log.child(section) {
            Some(part) => match part.child("table"@) {
                Some(table) => table.first(),
                None => None,
            },
            None => None,
        },
        None => None,
    }
}

/// The upper four bits of an ATA self-test status byte.
pub open spec fn ata_test_status(value: Option<u64>) -> SelfTestStatus {
    match value {
        Some(n) => if n / 16 == 0 {
            SelfTestStatus::Passed
        } else if n / 16 == 1 || n / 16 == 2 {
            SelfTestStatus::Aborted
        } else if 3 <= n / 16 <= 8 {
            SelfTestStatus::Failed
        } else if n / 16 == 15 {
            SelfTestStatus::InProgress
        } else {
            SelfTestStatus::Unknown
        },
        None => SelfTestStatus::Unknown,
    }
}

pub open spec fn ata_test(entry: JsonView) -> SelfTestView {
    SelfTestView {
        text: entry.at("status"@).at("string"@).text(),
        hours: entry.at("lifetime_hours"@).unsigned(),
        status: ata_test_status(entry.at("status"@).at("value"@).unsigned()),
    }
}

pub open spec fn nvme_test_entry(v: JsonView) -> Option<JsonView> {
    match v.child("nvme_self_test_log"@) {
        Some(log) => match log.child("table"@) {
            Some(table) => table.first(),
            None => None,
        },
        None => None,
    }
}

pub open spec fn nvme_test_status(value: Option<u64>) -> SelfTestStatus {
    match value {
        Some(n) => if n == 0 {
            SelfTestStatus::Passed
        } else if 1 <= n <= 4 || n == 8 || n == 9 {
            SelfTestStatus::Aborted
        } else if 5 <= n <= 7 {
            SelfTestStatus::Failed
        } else {
            SelfTestStatus::Unknown
        },
        None => SelfTestStatus::Unknown,
    }
}

pub open spec fn nvme_test(entry: JsonView) -> SelfTestView {
    SelfTestView {
        text: entry.at("self_test_result"@).at("string"@).text(),
        hours: entry.at("power_on_hours"@).unsigned(),
        status: nvme_test_status(entry.at("self_test_result"@).at("value"@).unsigned()),
    }
}

/// The newest self-test that the report speaks of: that of the NVMe log, else
/// that of the extended ATA log, else that of the standard ATA log.
pub open spec fn newest_test(v: JsonView) -> Option<SelfTestView> {
    match nvme_test_entry(v) {
        Some(entry) => Some(nvme_test(entry)),
        None => match kept(ata_test_entry(v, "extended"@), ata_test_entry(v, "standard"@)) {
            Some(entry) => Some(ata_test(entry)),
            None => None,
        },
    }
}

/// The WWN that a report gives, as sixteen hexadecimal digits where its three
/// parts are there and fit, else as the text of the logical unit.
pub open spec fn reported_wwn(v: JsonView) -> Seq<char> {
    let w = v.at("wwn"@);
    match (w.at("naa"@).unsigned(), w.at("oui"@).unsigned(), w.at("id"@).unsigned()) {
        (Some(naa), Some(oui), Some(id)) => if naa < 16 && oui < 0x100_0000 && id < 0x10_0000_0000 {
            hex_fixed((naa * 0x1000_0000_0000_0000 + oui * 0x10_0000_0000 + id) as nat, 16)
        } else {
            trimmed_field(v, "logical_unit_id"@)
        },
        _ => trimmed_field(v, "logical_unit_id"@),
    }
}

// ---------------------------------------------------------------------------
// Parts of a report, read
// ---------------------------------------------------------------------------

struct Attributes {
    counters: StrMap<u64>,
    unknown: StrMap<Json>,
    remaining_life: Option<u64>,
}

impl View for Attributes {
    type V = AttributesView;

    closed spec fn view(&self) -> AttributesView {
        AttributesView {
            counters: self.counters@,
            unknown: self.unknown@,
            remaining_life: self.remaining_life,
        }
    }
}

fn is_scalar(a: &Json) -> (r: bool)
    ensures
        r == scalar(a@),
{
    let raw: Option<u64> = a.field("raw").field("value").as_u64();
    match a.field("raw").field("string").as_str() {
        Some(t) => match (parse_u64(trim(t)), raw) {
            (Some(x), Some(y)) => x == y,
            (None, None) => true,
            _ => false,
        },
        None => true,
    }
}

fn count(a: &Json, name: &str) -> (r: Option<(&'static str, u64)>)
    requires
        name@ == attribute_name(a@),
    ensures
        match r {
            Some((key, n)) => counted(a@) == Some((key@, n)),
            None => counted(a@) is None,
        },
{
    match (counter_name(name), a.field("raw").field("value").as_u64()) {
        (Some(key), Some(n)) => if is_scalar(a) && (!same(key, "Command_Timeout") || a.field(
            "raw",
        ).field("string").as_str().is_some()) {
            Some((key, n))
        } else {
            None
        },
        _ => None,
    }
}

fn add_attribute(all: &mut Attributes, a: &Json)
    ensures
        final(all)@ == with_attribute(old(all)@, a@),
{
    let name: &str = match a.field("name").as_str() {
        Some(n) => n,
        None => "Unknown",
    };
    match count(a, name) {
        Some((key, n)) => {
            all.counters.insert(key.to_owned(), n);
        },
        None => {
            let mut key: String = a.field("id").to_text();
            key.push(':');
            key.append(name);
            assert(key@ =~= text_of(a@.at("id"@)) + seq![':'] + name@);
            all.unknown.insert(key, a.field("raw").copy());
        },
    }
    if same(name, "SSD_Life_Left") || same(name, "Percent_Lifetime_Remain") || same(
        name,
        "Media_Wearout_Indicator",
    ) {
        all.remaining_life = match a.field("value").as_u64() {
            Some(n) => if n <= 100 {
                Some(n)
            } else {
                None
            },
            None => None,
        };
    }
}

fn read_attributes(v: &Json) -> (r: Attributes)
    ensures
        r@ == attributes(attribute_rows(v@)),
{
    let mut all: Attributes = Attributes {
        counters: StrMap::new(),
        unknown: StrMap::new(),
        remaining_life: None,
    };
    match v.field("ata_smart_attributes").field("table").as_array() {
        None => {},
        Some(rows) => {
            let ghost listing = rows.deep_view();
            let mut i: usize = 0;
            while i < rows.len()
                invariant
                    i <= rows.len(),
                    listing == rows.deep_view(),
                    all@ == attributes(listing.take(i as int)),
                decreases rows.len() - i,
            {
                add_attribute(&mut all, &rows[i]);
                i += 1;
                assert(listing.take(i as int).drop_last() =~= listing.take(i - 1));
            }
            assert(listing.take(i as int) =~= listing);
        },
    }
    all
}

fn add_counter(counters: &mut StrMap<u64>, log: &Json, key: &str)
    ensures
        final(counters)@ == with_counter(old(counters)@, log@, key@),
{
    if let Some(n) = log.field(key).as_u64() {
        counters.insert(key.to_owned(), n);
    }
}

struct SelfTest {
    text: Option<String>,
    hours: Option<u64>,
    status: SelfTestStatus,
}

impl View for SelfTest {
    type V = SelfTestView;

    closed spec fn view(&self) -> SelfTestView {
        SelfTestView { text: self.text.deep_view(), hours: self.hours, status: self.status }
    }
}

fn owned_text(v: &Json) -> (r: Option<String>)
    ensures
        r.deep_view() == v@.text(),
{
    match v.as_str() {
        Some(t) => Some(t.to_owned()),
        None => None,
    }
}

fn find_ata_test<'a>(v: &'a Json, section: &str) -> (r: Option<&'a Json>)
    ensures
        match r {
            Some(j) => ata_test_entry(v@, section@) == Some(j@),
            None => ata_test_entry(v@, section@) is None,
        },
{
    match v.child("ata_smart_self_test_log") {
        Some(log) => match log.child(section) {
            Some(part) => match part.child("table") {
                Some(table) => table.first(),
                None => None,
            },
            None => None,
        },
        None => None,
    }
}

fn read_ata_test(entry: &Json) -> (r: SelfTest)
    ensures
        r@ == ata_test(entry@),
{
    let status: SelfTestStatus = match entry.field("status").field("value").as_u64() {
        Some(n) => {
            let k: u64 = n / 16;
            if k == 0 {
                SelfTestStatus::Passed
            } else if k == 1 || k == 2 {
                SelfTestStatus::Aborted
            } else if 3 <= k && k <= 8 {
                SelfTestStatus::Failed
            } else if k == 15 {
                SelfTestStatus::InProgress
            } else {
                SelfTestStatus::Unknown
            }
        },
        None => SelfTestStatus::Unknown,
    };
    SelfTest {
        text: owned_text(entry.field("status").field("string")),
        hours: entry.field("lifetime_hours").as_u64(),
        status,
    }
}

fn find_nvme_test(v: &Json) -> (r: Option<&Json>)
    ensures
        match r {
            Some(j) => nvme_test_entry(v@) == Some(j@),
            None => nvme_test_entry(v@) is None,
        },
{
    match v.child("nvme_self_test_log") {
        Some(log) => match log.child("table") {
            Some(table) => table.first(),
            None => None,
        },
        None => None,
    }
}

fn read_nvme_test(entry: &Json) -> (r: SelfTest)
    ensures
        r@ == nvme_test(entry@),
{
    let result: &Json = entry.field("self_test_result");
    let status: SelfTestStatus = match result.field("value").as_u64() {
        Some(n) => if n == 0 {
            SelfTestStatus::Passed
        } else if (1 <= n && n <= 4) || n == 8 || n == 9 {
            SelfTestStatus::Aborted
        } else if 5 <= n && n <= 7 {
            SelfTestStatus::Failed
        } else {
            SelfTestStatus::Unknown
        },
        None => SelfTestStatus::Unknown,
    };
    SelfTest {
        text: owned_text(result.field("string")),
        hours: entry.field("power_on_hours").as_u64(),
        status,
    }
}

fn read_newest_test(v: &Json) -> (r: Option<SelfTest>)
    ensures
        match r {
            Some(t) => newest_test(v@) == Some(t@),
            None => newest_test(v@) is None,
        },
{
    if let Some(entry) = find_nvme_test(v) {
        return Some(read_nvme_test(entry));
    }
    if let Some(entry) = find_ata_test(v, "extended") {
        return Some(read_ata_test(entry));
    }
    match find_ata_test(v, "standard") {
        Some(entry) => Some(read_ata_test(entry)),
        None => None,
    }
}

fn read_wwn(v: &Json) -> (r: String)
    ensures
        r@ == reported_wwn(v@),
{
    let w: &Json = v.field("wwn");
    match (w.field("naa").as_u64(), w.field("oui").as_u64(), w.field("id").as_u64()) {
        (Some(naa), Some(oui), Some(id)) => if naa < 16 && oui < 0x100_0000 && id < 0x10_0000_0000 {
            hex_fixed_text(naa * 0x1000_0000_0000_0000 + oui * 0x10_0000_0000 + id, 16)
        } else {
            trimmed_text(v, "logical_unit_id")
        },
        _ => trimmed_text(v, "logical_unit_id"),
    }
}

// ---------------------------------------------------------------------------
// The whole report
// ---------------------------------------------------------------------------

/// A message of `smartctl` that says no more than that a USB bridge does not pass
/// the status registers on, or that the verdict rests on the attributes.
pub open spec fn status_limitation(v: JsonView, message: JsonView) -> bool {
    ||| {
        &&& message.at("string"@).text() matches Some(t)
        &&& trimmed(t)
            == "SMART Status not supported: Incomplete response, ATA output registers missing"@
    }
    ||| {
        &&& v.at("smart_status"@).at("passed"@).boolean() is Some
        &&& message.at("severity"@).text() == Some("warning"@)
        &&& message.at("string"@).text() matches Some(t)
        &&& trimmed(t) == "Warning: This result is based on an Attribute check."@
    }
}

/// The messages of the report are a limitation of the status, and nothing worse
/// than that.
pub open spec fn only_status_limited(v: JsonView) -> bool {
    &&& v.at("smartctl"@).at("messages"@).array() matches Some(messages)
    &&& exists|i: int| 0 <= i < messages.len() && status_limitation(v, #[trigger] messages[i])
    &&& forall|i: int|
        0 <= i < messages.len() ==> status_limitation(v, #[trigger] messages[i]) || messages[i].at(
            "severity"@,
        ).text() == Some("info"@)
}

/// The attribute has a name and a raw number.
pub open spec fn readable_attribute(row: JsonView) -> bool {
    row.at("name"@).text() is Some && row.at("raw"@).at("value"@).unsigned() is Some
}

/// A command failed, but only the one that a USB bridge cannot pass on, and the
/// attributes are there all the same.
pub open spec fn excused(v: JsonView, mask: u8) -> bool {
    &&& mask & 7 == 4
    &&& exists|i: int|
        0 <= i < attribute_rows(v).len() && readable_attribute(#[trigger] attribute_rows(v)[i])
    &&& only_status_limited(v)
}

/// All the exit bits: those of the process and those in the document.
pub open spec fn full_mask(v: JsonView, process_mask: u8) -> u8 {
    match v.at("smartctl"@).at("exit_status"@).unsigned() {
        Some(n) => if n <= 255 {
            process_mask | (n as u8)
        } else {
            process_mask
        },
        None => process_mask,
    }
}

/// The exit status of the report.
pub open spec fn report_exit(v: JsonView, process_mask: u8) -> ExitStatus {
    let mask = full_mask(v, process_mask);
    if excused(v, mask) {
        ExitStatus { incomplete: false, ..exit_status(mask) }
    } else {
        exit_status(mask)
    }
}

/// The report has a section with health data.
pub open spec fn usable(v: JsonView) -> bool {
    v.at("smart_status"@) is Object || v.at("ata_smart_attributes"@) is Object || v.at(
        "nvme_smart_health_information_log"@,
    ) is Object || v.at("scsi_error_counter_log"@) is Object
}

/// The measurements of the report cannot be relied on.
pub open spec fn incomplete(v: JsonView, process_mask: u8) -> bool {
    report_exit(v, process_mask).incomplete || !usable(v)
}

/// The messages of `smartctl` as text.
pub open spec fn messages_text(v: JsonView) -> Seq<char> {
    text_of(v.at("smartctl"@).at("messages"@))
}

pub open spec fn issue_text(mask: u8, messages: Seq<char>) -> Seq<char> {
    "incomplete SMART data (exit mask "@ + decimal(mask as nat) + "): "@ + messages
}

/// What an incomplete report still tells: who the disk is, and what the exit bits
/// say of it. Nothing is inferred from measurements that may be wrong.
pub open spec fn identified(v: JsonView, process_mask: u8) -> SnapshotView {
    let exit = report_exit(v, process_mask);
    SnapshotView {
        model: if trimmed_field(v, "model_name"@).len() > 0 {
            trimmed_field(v, "model_name"@)
        } else {
            trimmed_field(v, "product"@)
        },
        serial: trimmed_field(v, "serial_number"@),
        firmware: trimmed_field(v, "firmware_version"@),
        wwn: clean_wwn(reported_wwn(v)),
        passed: if exit.disk_failing {
            Some(false)
        } else {
            None
        },
        prefailure: if exit.prefailure {
            Some(true)
        } else {
            None
        },
        exit,
        issue: if incomplete(v, process_mask) {
            Some(issue_text(exit.mask, messages_text(v)))
        } else {
            None
        },
        ..blank_snapshot()
    }
}

/// What a complete report tells.
pub open spec fn measured(v: JsonView, process_mask: u8) -> SnapshotView {
    let base = identified(v, process_mask);
    let table = attributes(attribute_rows(v));
    let log = v.at("nvme_smart_health_information_log"@);
    let test = newest_test(v);
    SnapshotView {
        passed: kept(base.passed, v.at("smart_status"@).at("passed"@).boolean()),
        prefailure: Some(base.exit.prefailure),
        temperature: kept(
            v.at("temperature"@).at("current"@).signed(),
            log.at("temperature"@).signed(),
        ),
        power_on_hours: kept(
            v.at("power_on_time"@).at("hours"@).unsigned(),
            log.at("power_on_hours"@).unsigned(),
        ),
        counters: with_counter(
            with_counter(table.counters, log, "media_errors"@),
            log,
            "num_err_log_entries"@,
        ),
        unknown_attributes: table.unknown,
        remaining_life: table.remaining_life,
        critical_warning: log.at("critical_warning"@).unsigned(),
        available_spare: log.at("available_spare"@).unsigned(),
        spare_threshold: log.at("available_spare_threshold"@).unsigned(),
        percentage_used: log.at("percentage_used"@).unsigned(),
        self_test: match test {
            Some(t) => t.text,
            None => None,
        },
        self_test_hours: match test {
            Some(t) => t.hours,
            None => None,
        },
        self_test_status: match test {
            Some(t) => Some(t.status),
            None => None,
        },
        ..base
    }
}

/// Why there is no reading of a disk.
#[derive(Debug)]
pub enum SmartError {
    /// `smartctl` was ended by a signal.
    Signal,
    /// The exit status is no byte.
    ExitStatus,
    /// The report is no JSON, with the reason.
    Json(String),
    /// The report has no health data and no exit bit stands for any: the exit
    /// bits, and the messages of `smartctl`.
    NoData(u8, String),
    /// The report on a sleeping disk is no JSON, with the reason.
    SleepingJson(String),
    /// The exit status is that of a sleeping disk, but the report does not say
    /// that the disk sleeps.
    NotSleeping,
}

/// What an error says.
pub enum SmartErrorView {
    Signal,
    ExitStatus,
    Json(Seq<char>),
    NoData(u8, Seq<char>),
    SleepingJson(Seq<char>),
    NotSleeping,
}

impl View for SmartError {
    type V = SmartErrorView;

    open spec fn view(&self) -> SmartErrorView {
        match self {
            SmartError::Signal => SmartErrorView::Signal,
            SmartError::ExitStatus => SmartErrorView::ExitStatus,
            SmartError::Json(e) => SmartErrorView::Json(e@),
            SmartError::NoData(mask, messages) => SmartErrorView::NoData(*mask, messages@),
            SmartError::SleepingJson(e) => SmartErrorView::SleepingJson(e@),
            SmartError::NotSleeping => SmartErrorView::NotSleeping,
        }
    }
}

impl SmartErrorView {
    pub open spec fn text(self) -> Seq<char> {
        match self {
            SmartErrorView::Signal => "smartctl terminated by signal"@,
            SmartErrorView::ExitStatus =>
                "invalid smartctl exit status: out of range integral type conversion attempted"@,
            SmartErrorView::Json(e) => "invalid smartctl JSON: "@ + e,
            SmartErrorView::NoData(mask, messages) => "no usable SMART data (exit mask "@ + decimal(
                mask as nat,
            ) + "): "@ + messages,
            SmartErrorView::SleepingJson(e) => "invalid sleeping SMART JSON: "@ + e,
            SmartErrorView::NotSleeping => "SMART failed with exit 3 without a sleeping indication"@,
        }
    }
}

impl SmartError {
    pub fn message(&self) -> (r: String)
        ensures
            r@ == self@.text(),
    {
        match self {
            SmartError::Signal => "smartctl terminated by signal".to_owned(),
            SmartError::ExitStatus =>
                "invalid smartctl exit status: out of range integral type conversion attempted".to_owned(),
            SmartError::Json(e) => {
                let mut r: String = "invalid smartctl JSON: ".to_owned();
                r.append(e.as_str());
                r
            },
            SmartError::NoData(mask, messages) => {
                let mut r: String = "no usable SMART data (exit mask ".to_owned();
                r.append(decimal_text(*mask as u64).as_str());
                r.append("): ");
                r.append(messages.as_str());
                r
            },
            SmartError::SleepingJson(e) => {
                let mut r: String = "invalid sleeping SMART JSON: ".to_owned();
                r.append(e.as_str());
                r
            },
            SmartError::NotSleeping => {
                "SMART failed with exit 3 without a sleeping indication".to_owned()
            },
        }
    }
}

/// What a report comes to, given the exit bits of the process.
pub open spec fn interpreted(v: JsonView, process_mask: u8) -> Result<
    SnapshotView,
    SmartErrorView,
> {
    let mask = full_mask(v, process_mask);
    if !usable(v) && mask & 0xf8 == 0 {
        Err(SmartErrorView::NoData(mask, messages_text(v)))
    } else if incomplete(v, process_mask) {
        Ok(identified(v, process_mask))
    } else {
        Ok(measured(v, process_mask))
    }
}

/// What the output of `smartctl` comes to, given its exit status. The bits for a
/// failing disk count even where the document cannot be read.
pub open spec fn parsed(bytes: Seq<u8>, exit_code: i32) -> Result<SnapshotView, SmartErrorView> {
    if !(0 <= exit_code <= 255) {
        Err(SmartErrorView::ExitStatus)
    } else {
        match decoded(bytes) {
            Ok(v) => interpreted(v, exit_code as u8),
            Err(e) => if (exit_code as u8) & 0x18 != 0 {
                interpreted(JsonView::Null, exit_code as u8)
            } else {
                Err(SmartErrorView::Json(e))
            },
        }
    }
}

fn is_status_limitation(v: &Json, message: &Json) -> (r: bool)
    ensures
        r == status_limitation(v@, message@),
{
    match message.field("string").as_str() {
        None => false,
        Some(t) => {
            let text: &str = trim(t);
            same(
                text,
                "SMART Status not supported: Incomplete response, ATA output registers missing",
            ) || (v.field("smart_status").field("passed").as_bool().is_some() && message.field(
                "severity",
            ).is_text("warning") && same(
                text,
                "Warning: This result is based on an Attribute check.",
            ))
        },
    }
}

fn is_only_status_limited(v: &Json) -> (r: bool)
    ensures
        r == only_status_limited(v@),
{
    match v.field("smartctl").field("messages").as_array() {
        None => false,
        Some(messages) => {
            let ghost all = messages.deep_view();
            let mut any: bool = false;
            let mut i: usize = 0;
            while i < messages.len()
                invariant
                    i <= messages.len(),
                    all == messages.deep_view(),
                    v@.at("smartctl"@).at("messages"@).array() == Some(all),
                    any <==> exists|j: int| 0 <= j < i && status_limitation(v@, #[trigger] all[j]),
                    forall|j: int|
                        0 <= j < i ==> status_limitation(v@, #[trigger] all[j]) || all[j].at(
                            "severity"@,
                        ).text() == Some("info"@),
                decreases messages.len() - i,
            {
                let m: &Json = &messages[i];
                assert(all[i as int] == m@);
                if is_status_limitation(v, m) {
                    any = true;
                } else if !m.field("severity").is_text("info") {
                    return false;
                }
                i += 1;
            }
            any
        },
    }
}

fn has_readable_attribute(v: &Json) -> (r: bool)
    ensures
        r == exists|i: int|
            0 <= i < attribute_rows(v@).len() && readable_attribute(
                #[trigger] attribute_rows(v@)[i],
            ),
{
    match v.field("ata_smart_attributes").field("table").as_array() {
        None => false,
        Some(rows) => {
            let mut i: usize = 0;
            while i < rows.len()
                invariant
                    i <= rows.len(),
                    attribute_rows(v@) == rows.deep_view(),
                    forall|j: int| 0 <= j < i ==> !readable_attribute(#[trigger] attribute_rows(v@)[j]),
                decreases rows.len() - i,
            {
                let row: &Json = &rows[i];
                assert(attribute_rows(v@)[i as int] == row@);
                if row.field("name").as_str().is_some() && row.field("raw").field(
                    "value",
                ).as_u64().is_some() {
                    return true;
                }
                i += 1;
            }
            false
        },
    }
}

fn read_mask(v: &Json, process_mask: u8) -> (r: u8)
    ensures
        r == full_mask(v@, process_mask),
{
    match v.field("smartctl").field("exit_status").as_u64() {
        Some(n) => if n <= 255 {
            process_mask | (n as u8)
        } else {
            process_mask
        },
        None => process_mask,
    }
}

fn read_exit(v: &Json, process_mask: u8) -> (r: ExitStatus)
    ensures
        r == report_exit(v@, process_mask),
{
    let mask: u8 = read_mask(v, process_mask);
    let mut exit: ExitStatus = ExitStatus::new(mask);
    if mask & 7 == 4 && has_readable_attribute(v) && is_only_status_limited(v) {
        exit.incomplete = false;
    }
    exit
}

fn is_usable(v: &Json) -> (r: bool)
    ensures
        r == usable(v@),
{
    v.field("smart_status").is_object() || v.field("ata_smart_attributes").is_object() || v.field(
        "nvme_smart_health_information_log",
    ).is_object() || v.field("scsi_error_counter_log").is_object()
}

fn identify(v: &Json, process_mask: u8) -> (r: Snapshot)
    ensures
        r@ == identified(v@, process_mask),
{
    let exit: ExitStatus = read_exit(v, process_mask);
    let mut out: Snapshot = Snapshot::default();
    out.model = trimmed_text(v, "model_name");
    if out.model.as_str().is_empty() {
        out.model = trimmed_text(v, "product");
    }
    out.serial = trimmed_text(v, "serial_number");
    out.firmware = trimmed_text(v, "firmware_version");
    out.wwn = cleaned_wwn(read_wwn(v).as_str());
    if exit.disk_failing {
        out.passed = Some(false);
    }
    if exit.prefailure {
        out.prefailure = Some(true);
    }
    out.exit = exit;
    if exit.incomplete || !is_usable(v) {
        let mut issue: String = "incomplete SMART data (exit mask ".to_owned();
        issue.append(decimal_text(exit.mask as u64).as_str());
        issue.append("): ");
        issue.append(v.field("smartctl").field("messages").to_text().as_str());
        out.issue = Some(issue);
    }
    out
}

fn first_u64(a: Option<u64>, b: Option<u64>) -> (r: Option<u64>)
    ensures
        r == kept(a, b),
{
    match a {
        Some(n) => Some(n),
        None => b,
    }
}

fn measure(v: &Json, base: Snapshot, Ghost(process_mask): Ghost<u8>) -> (r: Snapshot)
    requires
        base@ == identified(v@, process_mask),
    ensures
        r@ == measured(v@, process_mask),
{
    let mut out: Snapshot = base;
    if out.passed.is_none() {
        out.passed = v.field("smart_status").field("passed").as_bool();
    }
    out.prefailure = Some(out.exit.prefailure);
    let log: &Json = v.field("nvme_smart_health_information_log");
    out.temperature = match v.field("temperature").field("current").as_i64() {
        Some(t) => Some(t),
        None => log.field("temperature").as_i64(),
    };
    out.power_on_hours = first_u64(
        v.field("power_on_time").field("hours").as_u64(),
        log.field("power_on_hours").as_u64(),
    );
    let table: Attributes = read_attributes(v);
    out.counters = table.counters;
    out.unknown_attributes = table.unknown;
    out.remaining_life = table.remaining_life;
    add_counter(&mut out.counters, log, "media_errors");
    add_counter(&mut out.counters, log, "num_err_log_entries");
    out.critical_warning = log.field("critical_warning").as_u64();
    out.available_spare = log.field("available_spare").as_u64();
    out.spare_threshold = log.field("available_spare_threshold").as_u64();
    out.percentage_used = log.field("percentage_used").as_u64();
    if let Some(test) = read_newest_test(v) {
        out.self_test = test.text;
        out.self_test_hours = test.hours;
        out.self_test_status = Some(test.status);
    }
    out
}

/// Reads a report that has been decoded, given the exit bits of the process.
pub fn interpret(v: &Json, process_mask: u8) -> (r: Result<Snapshot, SmartError>)
    ensures
        match r {
            Ok(s) => interpreted(v@, process_mask) == Ok::<SnapshotView, SmartErrorView>(s@),
            Err(e) => interpreted(v@, process_mask) == Err::<SnapshotView, SmartErrorView>(e@),
        },
{
    let mask: u8 = read_mask(v, process_mask);
    if !is_usable(v) && mask & 0xf8 == 0 {
        return Err(
            SmartError::NoData(mask, v.field("smartctl").field("messages").to_text()),
        );
    }
    let base: Snapshot = identify(v, process_mask);
    if base.issue.is_some() {
        Ok(base)
    } else {
        Ok(measure(v, base, Ghost(process_mask)))
    }
}

/// Reads the output of `smartctl`, given its exit status.
pub fn parse(bytes: &[u8], exit_code: i32) -> (r: Result<Snapshot, SmartError>)
    ensures
        match r {
            Ok(s) => parsed(bytes@, exit_code) == Ok::<SnapshotView, SmartErrorView>(s@),
            Err(e) => parsed(bytes@, exit_code) == Err::<SnapshotView, SmartErrorView>(e@),
        },
{
    if exit_code < 0 || exit_code > 255 {
        return Err(SmartError::ExitStatus);
    }
    let mask: u8 = exit_code as u8;
    match decode(bytes) {
        Ok(v) => interpret(&v, mask),
        Err(e) => if mask & 0x18 != 0 {
            interpret(&Json::Null, mask)
        } else {
            Err(SmartError::Json(e))
        },
    }
}

/// Why a report could not be read, where its exit bits are kept all the same.
pub open spec fn passed_over(bytes: Seq<u8>, exit_code: i32) -> Option<Seq<char>> {
    if 0 <= exit_code <= 255 && (exit_code as u8) & 0x18 != 0 {
        match decoded(bytes) {
            Ok(_) => None,
            Err(e) => Some(e),
        }
    } else {
        None
    }
}

/// Why a report could not be read, where `parse` keeps its exit bits all the same. The
/// user is to be warned of it.
pub fn unreadable(bytes: &[u8], exit_code: i32) -> (r: Option<String>)
    ensures
        r.deep_view() == passed_over(bytes@, exit_code),
{
    if exit_code < 0 || exit_code > 255 {
        return None;
    }
    let mask: u8 = exit_code as u8;
    if mask & 0x18 == 0 {
        return None;
    }
    match decode(bytes) {
        Ok(_) => None,
        Err(e) => Some(e),
    }
}

// ---------------------------------------------------------------------------
// Identity
// ---------------------------------------------------------------------------

/// `s` without every `0x` at its front.
pub open spec fn unprefixed(s: Seq<char>) -> Seq<char>
    decreases s.len(),
{
    if s.len() >= 2 && s[0] == '0' && s[1] == 'x' {
        unprefixed(s.skip(2))
    } else {
        s
    }
}

/// A WWN in the form in which two of them are compared.
pub open spec fn normal_wwn(s: Seq<char>) -> Seq<char> {
    lowered(without_chars(unprefixed(trimmed(s)), ':', ' '))
}

pub open spec fn change_text(what: Seq<char>, from: Seq<char>, to: Seq<char>) -> Seq<char> {
    what + " changed during check: "@ + debug_quoted(from) + " -> "@ + debug_quoted(to)
}

/// How the report speaks of another disk than the one that was asked for. The
/// model counts only where neither side has a serial number or a WWN.
pub open spec fn mismatch(d: DeviceView, s: SnapshotView) -> Option<Seq<char>> {
    let wwns = known_wwn(d.wwn) is Some && known_wwn(s.wwn) is Some;
    let nameless = d.serial.len() == 0 && s.serial.len() == 0 && known_wwn(d.wwn) is None
        && known_wwn(s.wwn) is None;
    if d.serial.len() > 0 && s.serial.len() > 0 && !d.serial_agrees(s.serial) {
        Some(change_text("serial"@, d.serial, s.serial))
    } else if wwns && normal_wwn(d.wwn) != normal_wwn(s.wwn) {
        Some(change_text("WWN"@, d.wwn, s.wwn))
    } else if nameless && d.model.len() > 0 && s.model.len() > 0 && d.model != s.model {
        Some(change_text("model"@, d.model, s.model))
    } else {
        None
    }
}

fn normalise_wwn(s: &str) -> (r: String)
    ensures
        r@ == normal_wwn(s@),
{
    let t: &str = trim(s);
    let cs: Vec<char> = chars(t);
    let mut from: usize = 0;
    assert(t@.skip(0) =~= t@);
    while cs.len() - from >= 2 && cs[from] == '0' && cs[from + 1] == 'x'
        invariant
            from <= cs.len(),
            cs@ == t@,
            unprefixed(t@) == unprefixed(t@.skip(from as int)),
        decreases cs.len() - from,
    {
        assert(t@.skip(from as int).skip(2) =~= t@.skip(from + 2));
        from += 2;
    }
    let rest: &str = t.substring_char(from, cs.len());
    assert(rest@ =~= unprefixed(t@));
    to_lowercase(remove_chars(rest, ':', ' ').as_str())
}

fn describe_change(what: &str, from: &str, to: &str) -> (r: String)
    ensures
        r@ == change_text(what@, from@, to@),
{
    let mut r: String = what.to_owned();
    r.append(" changed during check: ");
    r.append(debug_text(from).as_str());
    r.append(" -> ");
    r.append(debug_text(to).as_str());
    r
}

/// How the report speaks of another disk than the one that was asked for.
pub fn identity_mismatch(d: &Device, s: &Snapshot) -> (r: Option<String>)
    ensures
        r.deep_view() == mismatch(d@, s@),
{
    let serials: bool = !d.serial.as_str().is_empty() && !s.serial.as_str().is_empty();
    let d_wwn: bool = nonzero_wwn(d.wwn.as_str()).is_some();
    let s_wwn: bool = nonzero_wwn(s.wwn.as_str()).is_some();
    if serials && !d.matches_smart_serial(s.serial.as_str()) {
        Some(describe_change("serial", d.serial.as_str(), s.serial.as_str()))
    } else if d_wwn && s_wwn && !same(
        normalise_wwn(d.wwn.as_str()).as_str(),
        normalise_wwn(s.wwn.as_str()).as_str(),
    ) {
        Some(describe_change("WWN", d.wwn.as_str(), s.wwn.as_str()))
    } else if d.serial.as_str().is_empty() && s.serial.as_str().is_empty() && !d_wwn && !s_wwn
        && !d.model.as_str().is_empty() && !s.model.as_str().is_empty() && !same(
        d.model.as_str(),
        s.model.as_str(),
    ) {
        Some(describe_change("model", d.model.as_str(), s.model.as_str()))
    } else {
        None
    }
}

// ---------------------------------------------------------------------------
// Readings
// ---------------------------------------------------------------------------

/// The outcome of asking a disk.
#[derive(Debug)]
pub enum Reading {
    Checked(Box<Snapshot>),
    /// The disk is asleep and was left alone.
    Sleeping,
}

pub enum ReadingView {
    Checked(SnapshotView),
    Sleeping,
}

impl View for Reading {
    type V = ReadingView;

    open spec fn view(&self) -> ReadingView {
        match self {
            Reading::Checked(s) => ReadingView::Checked(s@),
            Reading::Sleeping => ReadingView::Sleeping,
        }
    }
}

/// Only a hard disk can be asleep, and it is left alone where the settings say so.
pub open spec fn spares_sleep(kind: Kind, skip_sleeping: bool) -> bool {
    skip_sleeping && kind == Kind::Hdd
}

/// The arguments for `smartctl`.
pub open spec fn smartctl_call(d: DeviceView, skip_sleeping: bool) -> Seq<Seq<char>> {
    if spares_sleep(d.kind, skip_sleeping) {
        seq!["-j"@, "-a"@, "-n"@, "standby,3"@, d.path]
    } else {
        seq!["-j"@, "-a"@, d.path]
    }
}

/// A power mode in which the disk does not spin.
pub open spec fn sleeping_mode(mode: Seq<char>) -> bool {
    uppered(mode) == "STANDBY"@ || uppered(mode) == "STANDBY_Y"@ || uppered(mode) == "STANDBY_Z"@
        || uppered(mode) == "SLEEP"@
}

/// The power mode that a report names, empty where it names none.
pub open spec fn power_mode(v: JsonView) -> Seq<char> {
    match kept(v.at("power_mode"@).at("name"@).text(), v.at("power_mode"@).text()) {
        Some(m) => m,
        None => Seq::empty(),
    }
}

/// A message, as older versions print it, that the disk was skipped in its sleep.
pub open spec fn sleeping_message(m: JsonView) -> bool {
    &&& m.at("string"@).text() matches Some(t)
    &&& without_prefix(trimmed(t), "Device is in "@) matches Some(rest)
    &&& without_suffix(rest, " mode, exit(3)"@) matches Some(mode)
    &&& sleeping_mode(mode)
}

pub open spec fn sleep_reported(messages: Seq<JsonView>) -> bool {
    exists|i: int| 0 <= i < messages.len() && sleeping_message(#[trigger] messages[i])
}

/// The report says that the disk sleeps.
pub open spec fn sleeping(v: JsonView) -> bool {
    ||| sleeping_mode(power_mode(v))
    ||| {
        &&& power_mode(v).len() == 0
        &&& v.at("smartctl"@).at("messages"@).array() matches Some(messages)
        &&& sleep_reported(messages)
    }
}

/// What a run of `smartctl` comes to: `code` is its exit status, `None` where a
/// signal ended it.
pub open spec fn outcome(
    kind: Kind,
    skip_sleeping: bool,
    code: Option<i32>,
    bytes: Seq<u8>,
) -> Result<ReadingView, SmartErrorView> {
    match code {
        None => Err(SmartErrorView::Signal),
        Some(c) => if spares_sleep(kind, skip_sleeping) && c == 3 {
            match decoded(bytes) {
                Err(e) => Err(SmartErrorView::SleepingJson(e)),
                Ok(v) => if sleeping(v) {
                    Ok(ReadingView::Sleeping)
                } else {
                    Err(SmartErrorView::NotSleeping)
                },
            }
        } else {
            match parsed(bytes, c) {
                Ok(s) => Ok(ReadingView::Checked(s)),
                Err(e) => Err(e),
            }
        },
    }
}

/// The arguments for `smartctl`.
pub fn arguments(device: &Device, skip_sleeping: bool) -> (r: Vec<String>)
    ensures
        r.deep_view() == smartctl_call(device@, skip_sleeping),
{
    let mut r: Vec<String> = Vec::new();
    r.push("-j".to_owned());
    r.push("-a".to_owned());
    if skip_sleeping && device.kind == Kind::Hdd {
        r.push("-n".to_owned());
        r.push("standby,3".to_owned());
    }
    r.push(device.path.clone());
    assert(r.deep_view() =~= smartctl_call(device@, skip_sleeping));
    r
}

fn is_sleeping_mode(mode: &str) -> (r: bool)
    ensures
        r == sleeping_mode(mode@),
{
    let m: String = to_uppercase(mode);
    same(m.as_str(), "STANDBY") || same(m.as_str(), "STANDBY_Y") || same(m.as_str(), "STANDBY_Z")
        || same(m.as_str(), "SLEEP")
}

fn is_sleeping_message(m: &Json) -> (r: bool)
    ensures
        r == sleeping_message(m@),
{
    match m.field("string").as_str() {
        None => false,
        Some(t) => match strip_prefix(trim(t), "Device is in ") {
            None => false,
            Some(rest) => match strip_suffix(rest, " mode, exit(3)") {
                None => false,
                Some(mode) => is_sleeping_mode(mode),
            },
        },
    }
}

/// Whether the report says that the disk sleeps.
pub fn is_sleeping(v: &Json) -> (r: bool)
    ensures
        r == sleeping(v@),
{
    let mode: &str = match v.field("power_mode").field("name").as_str() {
        Some(m) => m,
        None => match v.field("power_mode").as_str() {
            Some(m) => m,
            None => "",
        },
    };
    proof {
        reveal_strlit("");
        assert(mode@ =~= power_mode(v@));
    }
    if is_sleeping_mode(mode) {
        return true;
    }
    if !mode.is_empty() {
        return false;
    }
    match v.field("smartctl").field("messages").as_array() {
        None => false,
        Some(messages) => {
            let ghost all = messages.deep_view();
            let mut i: usize = 0;
            while i < messages.len()
                invariant
                    i <= messages.len(),
                    all == messages.deep_view(),
                    v@.at("smartctl"@).at("messages"@).array() == Some(all),
                    power_mode(v@).len() == 0,
                    !sleeping_mode(power_mode(v@)),
                    forall|j: int| 0 <= j < i ==> !sleeping_message(#[trigger] all[j]),
                decreases messages.len() - i,
            {
                assert(all[i as int] == messages@[i as int]@);
                if is_sleeping_message(&messages[i]) {
                    assert(sleep_reported(all));
                    return true;
                }
                i += 1;
            }
            false
        },
    }
}

/// Reads what a run of `smartctl` printed. `code` is its exit status, `None` where
/// a signal ended it.
pub fn read(kind: Kind, skip_sleeping: bool, code: Option<i32>, bytes: &[u8]) -> (r: Result<
    Reading,
    SmartError,
>)
    ensures
        match r {
            Ok(x) => outcome(kind, skip_sleeping, code, bytes@) == Ok::<
                ReadingView,
                SmartErrorView,
            >(x@),
            Err(e) => outcome(kind, skip_sleeping, code, bytes@) == Err::<
                ReadingView,
                SmartErrorView,
            >(e@),
        },
{
    match code {
        None => Err(SmartError::Signal),
        Some(c) => if skip_sleeping && kind == Kind::Hdd && c == 3 {
            match decode(bytes) {
                Err(e) => Err(SmartError::SleepingJson(e)),
                Ok(v) => if is_sleeping(&v) {
                    Ok(Reading::Sleeping)
                } else {
                    Err(SmartError::NotSleeping)
                },
            }
        } else {
            match parse(bytes, c) {
                Ok(s) => Ok(Reading::Checked(Box::new(s))),
                Err(e) => Err(e),
            }
        },
    }
}

} // verus!
