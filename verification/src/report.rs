//! What is printed: the summary, the details, and the list of devices.

use crate::alert::{option_number, severity_text, show_number, Event, EventView, Severity};
use crate::config::{Config, ConfigView};
use crate::devices::{Device, DeviceView, Kind};
use crate::smart::{SelfTestStatus, Snapshot, SnapshotView};
use crate::state::{CheckStatus, DiskState, DiskView, State, StateView};
use crate::strmap::{ascending_members, ordered, StrSet};
use crate::text::{
    debug_quoted, debug_text, decimal, decimal_signed, decimal_text, escaped, escaped_text,
    lemma_join, lemma_join3, lemma_join4, lemma_join5, lemma_join6, list_contains, same, signed_text,
    to_uppercase, uppered,
};
use vstd::prelude::*;

verus! {

// ---------------------------------------------------------------------------
// Reasons
// ---------------------------------------------------------------------------

/// One line of the reasons for a verdict.
pub open spec fn reason(key: Seq<char>, value: Seq<char>, stale: bool) -> Seq<char> {
    "    "@ + key + "="@ + value + (if stale {
        " (stale)"@
    } else {
        Seq::empty()
    }) + "\n"@
}

/// A line of the reasons, where it applies.
pub open spec fn reason_if(show: bool, key: Seq<char>, value: Seq<char>, stale: bool) -> Seq<char> {
    if show {
        reason(key, value, stale)
    } else {
        Seq::empty()
    }
}

fn add_reason(out: &mut String, show: bool, key: &str, value: &str, stale: bool)
    ensures
        final(out)@ == old(out)@ + reason_if(show, key@, value@, stale),
{
    if show {
        out.append("    ");
        out.append(key);
        out.append("=");
        out.append(value);
        if stale {
            out.append(" (stale)");
        }
        out.append("\n");
    }
    assert(out@ =~= old(out)@ + reason_if(show, key@, value@, stale));
}

/// How the last attempt to read the disk ended, where it did not succeed.
pub open spec fn check_word(status: CheckStatus) -> Option<Seq<char>> {
    match status {
        CheckStatus::Checked => None,
        CheckStatus::Never => Some("not_checked"@),
        CheckStatus::Partial => Some("partial"@),
        CheckStatus::Sleeping => Some("skipped_sleeping"@),
        CheckStatus::Failed => Some("failed"@),
        CheckStatus::StaleRace => Some("stale_identity_race"@),
        CheckStatus::Disabled => Some("disabled"@),
    }
}

fn word_for_check(status: CheckStatus) -> (r: Option<&'static str>)
    ensures
        match r {
            Some(w) => check_word(status) == Some(w@),
            None => check_word(status) is None,
        },
{
    match status {
        CheckStatus::Checked => None,
        CheckStatus::Never => Some("not_checked"),
        CheckStatus::Partial => Some("partial"),
        CheckStatus::Sleeping => Some("skipped_sleeping"),
        CheckStatus::Failed => Some("failed"),
        CheckStatus::StaleRace => Some("stale_identity_race"),
        CheckStatus::Disabled => Some("disabled"),
    }
}

/// The short name of a counter.
pub open spec fn counter_label(key: Seq<char>) -> Seq<char> {
    if key == "Current_Pending_Sector"@ {
        "pending"@
    } else if key == "Offline_Uncorrectable"@ {
        "offline_uncorrectable"@
    } else if key == "Reallocated_Event_Count"@ {
        "reallocated_events"@
    } else if key == "Reallocated_Sector_Ct"@ {
        "reallocated"@
    } else if key == "Reported_Uncorrect"@ {
        "reported_uncorrect"@
    } else if key == "UDMA_CRC_Error_Count"@ {
        "crc_errors"@
    } else if key == "Command_Timeout"@ {
        "command_timeouts"@
    } else {
        key
    }
}

fn label_of_counter<'a>(key: &'a str) -> (r: &'a str)
    ensures
        r@ == counter_label(key@),
{
    if same(key, "Current_Pending_Sector") {
        "pending"
    } else if same(key, "Offline_Uncorrectable") {
        "offline_uncorrectable"
    } else if same(key, "Reallocated_Event_Count") {
        "reallocated_events"
    } else if same(key, "Reallocated_Sector_Ct") {
        "reallocated"
    } else if same(key, "Reported_Uncorrect") {
        "reported_uncorrect"
    } else if same(key, "UDMA_CRC_Error_Count") {
        "crc_errors"
    } else if same(key, "Command_Timeout") {
        "command_timeouts"
    } else {
        key
    }
}

/// The reasons in the counters of a listing that are not zero.
pub open spec fn counter_reasons(listing: Seq<(Seq<char>, u64)>, stale: Set<Seq<char>>) -> Seq<char>
    decreases listing.len(),
{
    if listing.len() == 0 {
        Seq::empty()
    } else {
        let (key, n) = listing.last();
        counter_reasons(listing.drop_last(), stale) + reason_if(
            n != 0,
            escaped_text(counter_label(key)),
            decimal(n as nat),
            stale.contains(key),
        )
    }
}

fn add_counter_reasons(out: &mut String, s: &Snapshot)
    ensures
        final(out)@ == old(out)@ + counter_reasons(ordered(s@.counters), s@.stale_fields),
{
    let ghost listing = ordered(s@.counters);
    let ghost stale = s@.stale_fields;
    let ghost start = out@;
    let n: usize = s.counters.len();
    let mut i: usize = 0;
    assert(start + counter_reasons(listing.take(0), stale) =~= start);
    while i < n
        invariant
            i <= n,
            n == listing.len(),
            listing == ordered(s@.counters),
            stale == s@.stale_fields,
            out@ == start + counter_reasons(listing.take(i as int), stale),
        decreases n - i,
    {
        let key: &str = s.counters.key_at(i);
        let value: u64 = *s.counters.value_at(i);
        assert(listing.take(i + 1).drop_last() =~= listing.take(i as int));
        assert(listing.take(i + 1).last() == listing[i as int]);
        add_reason(
            out,
            value != 0,
            escaped(label_of_counter(key)).as_str(),
            decimal_text(value).as_str(),
            s.stale_fields.contains(key),
        );
        assert(out@ =~= start + counter_reasons(listing.take(i + 1), stale));
        i += 1;
    }
    assert(listing.take(i as int) =~= listing);
}

/// A number, zero where it is not known.
pub open spec fn number_or_zero(n: Option<u64>) -> Seq<char> {
    match n {
        Some(k) => decimal(k as nat),
        None => decimal(0),
    }
}

fn number_text(n: Option<u64>) -> (r: String)
    ensures
        r@ == number_or_zero(n),
{
    match n {
        Some(k) => decimal_text(k),
        None => decimal_text(0),
    }
}

/// The temperature in degrees, where it is known.
pub open spec fn degrees(t: Option<i64>) -> Seq<char> {
    match t {
        Some(n) => decimal_signed(n as int) + "C"@,
        None => "unknown"@,
    }
}

fn degrees_text(t: Option<i64>) -> (r: String)
    ensures
        r@ == degrees(t),
{
    match t {
        Some(n) => {
            let mut r: String = signed_text(n);
            r.append("C");
            r
        },
        None => "unknown".to_owned(),
    }
}

impl SnapshotView {
    /// The reasons that make a disk critical.
    pub open spec fn grave_reasons(self) -> Seq<char> {
        reason_if(
            self.passed == Some(false),
            "smart_passed"@,
            "no"@,
            self.stale_fields.contains("passed"@),
        ) + reason_if(
            self.prefailure == Some(true),
            "prefailure"@,
            "yes"@,
            self.stale_fields.contains("prefailure"@),
        ) + reason_if(
            self.warns() == Some(true),
            "critical_warning"@,
            number_or_zero(self.critical_warning),
            self.stale_fields.contains("critical_warning"@),
        )
    }

    /// The reasons in tests and wear.
    pub open spec fn wear_reasons(self) -> Seq<char> {
        reason_if(
            self.self_test_status == Some(SelfTestStatus::Failed),
            "self_test"@,
            "failed"@,
            self.stale_fields.contains("self_test_status"@),
        ) + reason_if(
            self.spare_low() == Some(true),
            "available_spare"@,
            number_or_zero(self.available_spare),
            self.stale_fields.contains("available_spare"@),
        ) + reason_if(
            self.worn_out() == Some(true),
            "percentage_used"@,
            number_or_zero(self.percentage_used),
            self.stale_fields.contains("percentage_used"@),
        ) + reason_if(
            self.life_low() == Some(true),
            "remaining_life"@,
            number_or_zero(self.remaining_life),
            self.stale_fields.contains("remaining_life"@),
        )
    }

    /// The reasons in the past.
    pub open spec fn past_reasons(self) -> Seq<char> {
        reason_if(
            self.exit.past_threshold,
            "past_threshold"@,
            "yes"@,
            self.stale_fields.contains("past_threshold"@),
        ) + reason_if(
            self.exit.error_log,
            "error_log"@,
            "yes"@,
            self.stale_fields.contains("error_log"@),
        ) + reason_if(
            self.exit.self_test_log,
            "self_test_log"@,
            "yes"@,
            self.stale_fields.contains("self_test_log"@),
        )
    }

    /// The reasons why the report leaves something open.
    pub open spec fn doubt_reasons(self) -> Seq<char> {
        reason_if(self.passed is None, "smart_health"@, "unknown"@, false) + reason_if(
            self.stale_fields != Set::<Seq<char>>::empty(),
            "stale_fields"@,
            "yes"@,
            false,
        ) + reason_if(self.issue is Some, "smart_data"@, "incomplete"@, false)
    }

    /// All the reasons in the measurements of a disk.
    pub open spec fn reasons(self, hot: bool) -> Seq<char> {
        counter_reasons(ordered(self.counters), self.stale_fields) + reason_if(
            hot,
            "temperature"@,
            degrees(self.temperature),
            self.stale_fields.contains("temperature"@),
        ) + self.grave_reasons() + self.wear_reasons() + self.past_reasons() + self.doubt_reasons()
    }
}

fn add_grave_reasons(out: &mut String, s: &Snapshot)
    ensures
        final(out)@ == old(out)@ + s@.grave_reasons(),
{
    let f: &StrSet = &s.stale_fields;
    add_reason(out, s.passed == Some(false), "smart_passed", "no", f.contains("passed"));
    add_reason(out, s.prefailure == Some(true), "prefailure", "yes", f.contains("prefailure"));
    add_reason(
        out,
        s.warns() == Some(true),
        "critical_warning",
        number_text(s.critical_warning).as_str(),
        f.contains("critical_warning"),
    );
    proof {
        lemma_join3(
            old(out)@,
            reason_if(
                s@.passed == Some(false),
                "smart_passed"@,
                "no"@,
                s@.stale_fields.contains("passed"@),
            ),
            reason_if(
                s@.prefailure == Some(true),
                "prefailure"@,
                "yes"@,
                s@.stale_fields.contains("prefailure"@),
            ),
            reason_if(
                s@.warns() == Some(true),
                "critical_warning"@,
                number_or_zero(s@.critical_warning),
                s@.stale_fields.contains("critical_warning"@),
            ),
        );
    }
}

fn add_wear_reasons(out: &mut String, s: &Snapshot)
    ensures
        final(out)@ == old(out)@ + s@.wear_reasons(),
{
    let f: &StrSet = &s.stale_fields;
    add_reason(
        out,
        s.self_test_status == Some(SelfTestStatus::Failed),
        "self_test",
        "failed",
        f.contains("self_test_status"),
    );
    add_reason(
        out,
        s.spare_low() == Some(true),
        "available_spare",
        number_text(s.available_spare).as_str(),
        f.contains("available_spare"),
    );
    add_reason(
        out,
        s.worn_out() == Some(true),
        "percentage_used",
        number_text(s.percentage_used).as_str(),
        f.contains("percentage_used"),
    );
    add_reason(
        out,
        s.life_low() == Some(true),
        "remaining_life",
        number_text(s.remaining_life).as_str(),
        f.contains("remaining_life"),
    );
    proof {
        lemma_join4(
            old(out)@,
            reason_if(
                s@.self_test_status == Some(SelfTestStatus::Failed),
                "self_test"@,
                "failed"@,
                s@.stale_fields.contains("self_test_status"@),
            ),
            reason_if(
                s@.spare_low() == Some(true),
                "available_spare"@,
                number_or_zero(s@.available_spare),
                s@.stale_fields.contains("available_spare"@),
            ),
            reason_if(
                s@.worn_out() == Some(true),
                "percentage_used"@,
                number_or_zero(s@.percentage_used),
                s@.stale_fields.contains("percentage_used"@),
            ),
            reason_if(
                s@.life_low() == Some(true),
                "remaining_life"@,
                number_or_zero(s@.remaining_life),
                s@.stale_fields.contains("remaining_life"@),
            ),
        );
    }
}

fn add_past_reasons(out: &mut String, s: &Snapshot)
    ensures
        final(out)@ == old(out)@ + s@.past_reasons(),
{
    let f: &StrSet = &s.stale_fields;
    add_reason(
        out,
        s.exit.past_threshold,
        "past_threshold",
        "yes",
        f.contains("past_threshold"),
    );
    add_reason(out, s.exit.error_log, "error_log", "yes", f.contains("error_log"));
    add_reason(out, s.exit.self_test_log, "self_test_log", "yes", f.contains("self_test_log"));
    assert(out@ =~= old(out)@ + s@.past_reasons());
}

fn add_doubt_reasons(out: &mut String, s: &Snapshot)
    ensures
        final(out)@ == old(out)@ + s@.doubt_reasons(),
{
    add_reason(out, s.passed.is_none(), "smart_health", "unknown", false);
    add_reason(out, !s.stale_fields.is_empty(), "stale_fields", "yes", false);
    add_reason(out, s.issue.is_some(), "smart_data", "incomplete", false);
    assert(out@ =~= old(out)@ + s@.doubt_reasons());
}

fn add_snapshot_reasons(out: &mut String, s: &Snapshot, hot: bool)
    ensures
        final(out)@ == old(out)@ + s@.reasons(hot),
{
    add_counter_reasons(out, s);
    add_reason(
        out,
        hot,
        "temperature",
        degrees_text(s.temperature).as_str(),
        s.stale_fields.contains("temperature"),
    );
    add_grave_reasons(out, s);
    add_wear_reasons(out, s);
    add_past_reasons(out, s);
    add_doubt_reasons(out, s);
    proof {
        lemma_join6(
            old(out)@,
            counter_reasons(ordered(s@.counters), s@.stale_fields),
            reason_if(
                hot,
                "temperature"@,
                degrees(s@.temperature),
                s@.stale_fields.contains("temperature"@),
            ),
            s@.grave_reasons(),
            s@.wear_reasons(),
            s@.past_reasons(),
            s@.doubt_reasons(),
        );
    }
}

/// The word for the last attempt, empty where it succeeded.
pub open spec fn check_value(status: CheckStatus) -> Seq<char> {
    match check_word(status) {
        Some(w) => w,
        None => ""@,
    }
}

impl DiskView {
    /// The reasons in the measurements, or that there are none.
    pub open spec fn data_reasons(self) -> Seq<char> {
        match self.snapshot {
            Some(s) => s.reasons(self.hot),
            None => reason("smart_data"@, "unavailable"@, false),
        }
    }

    /// All the reasons for the verdict on a disk.
    pub open spec fn reasons(self) -> Seq<char> {
        reason_if(
            check_word(self.check_status) is Some,
            "smart_check"@,
            check_value(self.check_status),
            false,
        ) + self.data_reasons() + reason_if(
            self.smart_error is Some && check_word(self.check_status) is None,
            "smart_error"@,
            "yes"@,
            false,
        ) + reason_if(
            self.kernel_severity is Some && self.kernel_severity->0 != Severity::Info,
            "kernel_io_errors"@,
            "yes"@,
            false,
        )
    }
}

fn add_data_reasons(out: &mut String, d: &DiskState)
    ensures
        final(out)@ == old(out)@ + d@.data_reasons(),
{
    match &d.snapshot {
        Some(s) => add_snapshot_reasons(out, s, d.hot),
        None => add_reason(out, true, "smart_data", "unavailable", false),
    }
}

fn add_disk_reasons(out: &mut String, d: &DiskState)
    ensures
        final(out)@ == old(out)@ + d@.reasons(),
{
    let check: Option<&'static str> = word_for_check(d.check_status);
    add_reason(
        out,
        check.is_some(),
        "smart_check",
        match check {
            Some(w) => w,
            None => "",
        },
        false,
    );
    add_data_reasons(out, d);
    add_reason(out, d.smart_error.is_some() && check.is_none(), "smart_error", "yes", false);
    let kernel: bool = match d.kernel_severity {
        Some(s) => s != Severity::Info,
        None => false,
    };
    add_reason(out, kernel, "kernel_io_errors", "yes", false);
    proof {
        lemma_join4(
            old(out)@,
            reason_if(
                check_word(d@.check_status) is Some,
                "smart_check"@,
                check_value(d@.check_status),
                false,
            ),
            d@.data_reasons(),
            reason_if(
                d@.smart_error is Some && check_word(d@.check_status) is None,
                "smart_error"@,
                "yes"@,
                false,
            ),
            reason_if(
                d@.kernel_severity is Some && d@.kernel_severity->0 != Severity::Info,
                "kernel_io_errors"@,
                "yes"@,
                false,
            ),
        );
    }
}

// ---------------------------------------------------------------------------
// The summary
// ---------------------------------------------------------------------------

/// The disks of a listing that are there, in its order.
pub open spec fn present_disks(listing: Seq<(Seq<char>, DiskView)>) -> Seq<DiskView>
    decreases listing.len(),
{
    if listing.len() == 0 {
        Seq::empty()
    } else if listing.last().1.present {
        present_disks(listing.drop_last()).push(listing.last().1)
    } else {
        present_disks(listing.drop_last())
    }
}

/// The number of disks with this verdict.
pub open spec fn health_count(disks: Seq<DiskView>, health: Seq<char>) -> nat
    decreases disks.len(),
{
    if disks.len() == 0 {
        0
    } else {
        health_count(disks.drop_last(), health) + (if disks.last().health() == health {
            1nat
        } else {
            0
        })
    }
}

/// The number of disks of this model.
pub open spec fn model_count(disks: Seq<DiskView>, model: Seq<char>) -> nat
    decreases disks.len(),
{
    if disks.len() == 0 {
        0
    } else {
        model_count(disks.drop_last(), model) + (if disks.last().device.model == model {
            1nat
        } else {
            0
        })
    }
}

/// How many disks have this verdict.
pub open spec fn count_line(disks: Seq<DiskView>, health: Seq<char>) -> Seq<char> {
    uppered(health) + ": "@ + decimal(health_count(disks, health)) + "\n"@
}

/// How many disks there are, and how many of each verdict.
pub open spec fn counts(disks: Seq<DiskView>) -> Seq<char> {
    "DISKS: "@ + decimal(disks.len()) + "\n"@ + count_line(disks, "OK"@) + count_line(
        disks,
        "Warning"@,
    ) + count_line(disks, "Critical"@) + count_line(disks, "Unknown"@)
}

/// There are disks, and they are all well.
pub open spec fn all_well(disks: Seq<DiskView>) -> bool {
    disks.len() > 0 && health_count(disks, "OK"@) == disks.len()
}

/// The serial number, where it is needed to tell disks of one model apart.
pub open spec fn serial_part(d: DiskView, disks: Seq<DiskView>) -> Seq<char> {
    if d.device.serial.len() > 0 && model_count(disks, d.device.model) > 1 {
        " serial="@ + escaped_text(d.device.serial)
    } else {
        Seq::empty()
    }
}

/// A disk and the reasons for the verdict.
pub open spec fn disk_block(d: DiskView, disks: Seq<DiskView>) -> Seq<char> {
    "  "@ + escaped_text(d.device.model) + " "@ + escaped_text(d.device.path) + serial_part(
        d,
        disks,
    ) + "\n"@ + d.reasons()
}

/// The disks of a list that have this verdict; `disks` are all the disks.
pub open spec fn blocks(some: Seq<DiskView>, health: Seq<char>, disks: Seq<DiskView>) -> Seq<char>
    decreases some.len(),
{
    if some.len() == 0 {
        Seq::empty()
    } else {
        blocks(some.drop_last(), health, disks) + (if some.last().health() == health {
            disk_block(some.last(), disks)
        } else {
            Seq::empty()
        })
    }
}

/// The section on the disks with this verdict; nothing where there is none.
pub open spec fn section(disks: Seq<DiskView>, health: Seq<char>) -> Seq<char> {
    if health_count(disks, health) == 0 {
        Seq::empty()
    } else {
        "\n"@ + uppered(health) + ":\n"@ + blocks(disks, health, disks)
    }
}

/// The summary of the disks that are there.
pub open spec fn summary(disks: Seq<DiskView>) -> Seq<char> {
    counts(disks) + (if all_well(disks) {
        "\nAll disks OK\n"@
    } else {
        Seq::empty()
    }) + section(disks, "Critical"@) + section(disks, "Warning"@) + section(disks, "Unknown"@)
}

fn collect_present<'a>(state: &'a State) -> (r: Vec<&'a DiskState>)
    ensures
        r.deep_view() == present_disks(ordered(state@.disks)),
{
    let ghost listing = ordered(state@.disks);
    let n: usize = state.disks.len();
    let mut out: Vec<&'a DiskState> = Vec::new();
    let mut i: usize = 0;
    assert(out.deep_view() =~= present_disks(listing.take(0)));
    while i < n
        invariant
            i <= n,
            n == listing.len(),
            listing == ordered(state@.disks),
            out.deep_view() == present_disks(listing.take(i as int)),
        decreases n - i,
    {
        let d: &'a DiskState = state.disks.value_at(i);
        assert(listing.take(i + 1).drop_last() =~= listing.take(i as int));
        assert(listing.take(i + 1).last() == listing[i as int]);
        if d.present {
            let ghost before = out.deep_view();
            out.push(d);
            assert(out.deep_view() =~= before.push(d@));
        }
        i += 1;
    }
    assert(listing.take(i as int) =~= listing);
    out
}

fn count_health(disks: &Vec<&DiskState>, health: &str) -> (r: usize)
    ensures
        r == health_count(disks.deep_view(), health@),
        r <= disks.len(),
{
    let ghost all = disks.deep_view();
    let mut n: usize = 0;
    let mut i: usize = 0;
    while i < disks.len()
        invariant
            i <= disks.len(),
            all == disks.deep_view(),
            n == health_count(all.take(i as int), health@),
            n <= i,
        decreases disks.len() - i,
    {
        assert(all.take(i + 1).drop_last() =~= all.take(i as int));
        assert(all.take(i + 1).last() == disks@[i as int]@);
        if same(disks[i].health(), health) {
            n += 1;
        }
        i += 1;
    }
    assert(all.take(i as int) =~= all);
    n
}

fn count_model(disks: &Vec<&DiskState>, model: &str) -> (r: usize)
    ensures
        r == model_count(disks.deep_view(), model@),
{
    let ghost all = disks.deep_view();
    let mut n: usize = 0;
    let mut i: usize = 0;
    while i < disks.len()
        invariant
            i <= disks.len(),
            all == disks.deep_view(),
            n == model_count(all.take(i as int), model@),
            n <= i,
        decreases disks.len() - i,
    {
        assert(all.take(i + 1).drop_last() =~= all.take(i as int));
        assert(all.take(i + 1).last() == disks@[i as int]@);
        if same(disks[i].device.model.as_str(), model) {
            n += 1;
        }
        i += 1;
    }
    assert(all.take(i as int) =~= all);
    n
}

fn add_count_line(out: &mut String, disks: &Vec<&DiskState>, health: &str)
    ensures
        final(out)@ == old(out)@ + count_line(disks.deep_view(), health@),
{
    out.append(to_uppercase(health).as_str());
    out.append(": ");
    out.append(decimal_text(count_health(disks, health) as u64).as_str());
    out.append("\n");
    proof {
        lemma_join4(
            old(out)@,
            uppered(health@),
            ": "@,
            decimal(health_count(disks.deep_view(), health@)),
            "\n"@,
        );
    }
}

fn write_counts(disks: &Vec<&DiskState>) -> (r: String)
    ensures
        r@ == counts(disks.deep_view()),
{
    let mut out: String = "DISKS: ".to_owned();
    out.append(decimal_text(disks.len() as u64).as_str());
    out.append("\n");
    add_count_line(&mut out, disks, "OK");
    add_count_line(&mut out, disks, "Warning");
    add_count_line(&mut out, disks, "Critical");
    add_count_line(&mut out, disks, "Unknown");
    out
}

fn add_disk_block(out: &mut String, d: &DiskState, disks: &Vec<&DiskState>)
    ensures
        final(out)@ == old(out)@ + disk_block(d@, disks.deep_view()),
{
    let mut block: String = "  ".to_owned();
    block.append(escaped(d.device.model.as_str()).as_str());
    block.append(" ");
    block.append(escaped(d.device.path.as_str()).as_str());
    let ghost names = block@;
    if !d.device.serial.as_str().is_empty() && count_model(disks, d.device.model.as_str()) > 1 {
        block.append(" serial=");
        block.append(escaped(d.device.serial.as_str()).as_str());
        proof {
            lemma_join(names, " serial="@, escaped_text(d.device.serial@));
        }
    } else {
        assert(names + Seq::<char>::empty() =~= names);
    }
    assert(block@ == names + serial_part(d@, disks.deep_view()));
    block.append("\n");
    add_disk_reasons(&mut block, d);
    out.append(block.as_str());
}

fn add_section(out: &mut String, disks: &Vec<&DiskState>, health: &str)
    ensures
        final(out)@ == old(out)@ + section(disks.deep_view(), health@),
{
    let ghost all = disks.deep_view();
    if count_health(disks, health) == 0 {
        assert(out@ + Seq::<char>::empty() =~= out@);
        return;
    }
    let mut part: String = "\n".to_owned();
    part.append(to_uppercase(health).as_str());
    part.append(":\n");
    let ghost title = part@;
    let mut i: usize = 0;
    assert(title + blocks(all.take(0), health@, all) =~= title);
    while i < disks.len()
        invariant
            i <= disks.len(),
            all == disks.deep_view(),
            part@ == title + blocks(all.take(i as int), health@, all),
        decreases disks.len() - i,
    {
        assert(all.take(i + 1).drop_last() =~= all.take(i as int));
        assert(all.take(i + 1).last() == disks@[i as int]@);
        let ghost before = blocks(all.take(i as int), health@, all);
        if same(disks[i].health(), health) {
            add_disk_block(&mut part, disks[i], disks);
            proof {
                lemma_join(title, before, disk_block(disks@[i as int]@, all));
            }
        } else {
            assert(before + Seq::<char>::empty() =~= before);
        }
        i += 1;
    }
    assert(all.take(i as int) =~= all);
    out.append(part.as_str());
}

/// The summary of the disks that are there: how many there are of each verdict, and
/// for each disk that is not well the reasons.
pub fn status_summary(state: &State) -> (r: String)
    ensures
        r@ == summary(present_disks(ordered(state@.disks))),
{
    let disks: Vec<&DiskState> = collect_present(state);
    let ghost all = disks.deep_view();
    let mut out: String = write_counts(&disks);
    if disks.len() > 0 && count_health(&disks, "OK") == disks.len() {
        out.append("\nAll disks OK\n");
    } else {
        assert(out@ + Seq::<char>::empty() =~= out@);
    }
    add_section(&mut out, &disks, "Critical");
    add_section(&mut out, &disks, "Warning");
    add_section(&mut out, &disks, "Unknown");
    out
}

// ---------------------------------------------------------------------------
// The details
// ---------------------------------------------------------------------------

/// A truth value as it is printed.
pub open spec fn bool_text(b: bool) -> Seq<char> {
    if b {
        "true"@
    } else {
        "false"@
    }
}

fn show_bool(b: bool) -> (r: &'static str)
    ensures
        r@ == bool_text(b),
{
    if b {
        "true"
    } else {
        "false"
    }
}

/// An optional truth value as `Debug` prints it.
pub open spec fn option_flag(b: Option<bool>) -> Seq<char> {
    match b {
        Some(v) => "Some("@ + bool_text(v) + ")"@,
        None => "None"@,
    }
}

fn show_flag(b: Option<bool>) -> (r: String)
    ensures
        r@ == option_flag(b),
{
    match b {
        Some(v) => {
            let mut r: String = "Some(".to_owned();
            r.append(show_bool(v));
            r.append(")");
            r
        },
        None => "None".to_owned(),
    }
}

/// An optional signed number as `Debug` prints it.
pub open spec fn option_signed(n: Option<i64>) -> Seq<char> {
    match n {
        Some(k) => "Some("@ + decimal_signed(k as int) + ")"@,
        None => "None"@,
    }
}

fn show_signed(n: Option<i64>) -> (r: String)
    ensures
        r@ == option_signed(n),
{
    match n {
        Some(k) => {
            let mut r: String = "Some(".to_owned();
            r.append(signed_text(k).as_str());
            r.append(")");
            r
        },
        None => "None".to_owned(),
    }
}

/// An optional test result as `Debug` prints it.
pub open spec fn option_test(t: Option<SelfTestStatus>) -> Seq<char> {
    match t {
        Some(SelfTestStatus::Passed) => "Some(Passed)"@,
        Some(SelfTestStatus::Failed) => "Some(Failed)"@,
        Some(SelfTestStatus::Aborted) => "Some(Aborted)"@,
        Some(SelfTestStatus::InProgress) => "Some(InProgress)"@,
        Some(SelfTestStatus::Unknown) => "Some(Unknown)"@,
        None => "None"@,
    }
}

fn show_test(t: Option<SelfTestStatus>) -> (r: &'static str)
    ensures
        r@ == option_test(t),
{
    match t {
        Some(SelfTestStatus::Passed) => "Some(Passed)",
        Some(SelfTestStatus::Failed) => "Some(Failed)",
        Some(SelfTestStatus::Aborted) => "Some(Aborted)",
        Some(SelfTestStatus::InProgress) => "Some(InProgress)",
        Some(SelfTestStatus::Unknown) => "Some(Unknown)",
        None => "None",
    }
}

/// The name of a check status.
pub open spec fn check_name(status: CheckStatus) -> Seq<char> {
    match status {
        CheckStatus::Never => "Never"@,
        CheckStatus::Checked => "Checked"@,
        CheckStatus::Partial => "Partial"@,
        CheckStatus::Sleeping => "Sleeping"@,
        CheckStatus::Failed => "Failed"@,
        CheckStatus::StaleRace => "StaleRace"@,
        CheckStatus::Disabled => "Disabled"@,
    }
}

fn show_check(status: CheckStatus) -> (r: &'static str)
    ensures
        r@ == check_name(status),
{
    match status {
        CheckStatus::Never => "Never",
        CheckStatus::Checked => "Checked",
        CheckStatus::Partial => "Partial",
        CheckStatus::Sleeping => "Sleeping",
        CheckStatus::Failed => "Failed",
        CheckStatus::StaleRace => "StaleRace",
        CheckStatus::Disabled => "Disabled",
    }
}

/// The names as `Debug` prints them, with commas between them.
pub open spec fn quoted_names(names: Seq<Seq<char>>) -> Seq<char>
    decreases names.len(),
{
    if names.len() == 0 {
        Seq::empty()
    } else if names.len() == 1 {
        debug_quoted(names[0])
    } else {
        quoted_names(names.drop_last()) + ", "@ + debug_quoted(names.last())
    }
}

fn add_name(out: &mut String, name: &str, Ghost(names): Ghost<Seq<Seq<char>>>, first: bool)
    requires
        old(out)@ == quoted_names(names),
        first == (names.len() == 0),
    ensures
        final(out)@ == quoted_names(names.push(name@)),
{
    assert(names.push(name@).drop_last() =~= names);
    if !first {
        out.append(", ");
    }
    out.append(debug_text(name).as_str());
    assert(out@ =~= quoted_names(names.push(name@)));
}

fn quote_members(set: &StrSet) -> (r: String)
    ensures
        r@ == quoted_names(ascending_members(set@)),
{
    let ghost names = ascending_members(set@);
    let n: usize = set.len();
    let mut out: String = String::new();
    let mut i: usize = 0;
    assert(out@ =~= quoted_names(names.take(0)));
    while i < n
        invariant
            i <= n,
            n == names.len(),
            names == ascending_members(set@),
            out@ == quoted_names(names.take(i as int)),
        decreases n - i,
    {
        add_name(&mut out, set.at(i), Ghost(names.take(i as int)), i == 0);
        assert(names.take(i + 1) =~= names.take(i as int).push(names[i as int]));
        i += 1;
    }
    assert(names.take(i as int) =~= names);
    out
}

/// The keys of a listing.
pub open spec fn keys_of<T>(listing: Seq<(Seq<char>, T)>) -> Seq<Seq<char>> {
    Seq::new(listing.len(), |i: int| listing[i].0)
}

fn quote_keys(s: &Snapshot) -> (r: String)
    ensures
        r@ == quoted_names(keys_of(ordered(s@.unknown_attributes))),
{
    let ghost names = keys_of(ordered(s@.unknown_attributes));
    let n: usize = s.unknown_attributes.len();
    let mut out: String = String::new();
    let mut i: usize = 0;
    assert(out@ =~= quoted_names(names.take(0)));
    while i < n
        invariant
            i <= n,
            n == names.len(),
            names == keys_of(ordered(s@.unknown_attributes)),
            out@ == quoted_names(names.take(i as int)),
        decreases n - i,
    {
        add_name(
            &mut out,
            s.unknown_attributes.key_at(i),
            Ghost(names.take(i as int)),
            i == 0,
        );
        assert(names.take(i + 1) =~= names.take(i as int).push(names[i as int]));
        i += 1;
    }
    assert(names.take(i as int) =~= names);
    out
}

/// A line with a title.
pub open spec fn line(title: Seq<char>, value: Seq<char>, end: Seq<char>) -> Seq<char> {
    title + value + end
}

/// A line with a title, where it applies.
pub open spec fn line_if(show: bool, title: Seq<char>, value: Seq<char>, end: Seq<char>) -> Seq<char> {
    if show {
        line(title, value, end)
    } else {
        Seq::empty()
    }
}

fn add_line(out: &mut String, title: &str, value: &str, end: &str)
    ensures
        final(out)@ == old(out)@ + line(title@, value@, end@),
{
    out.append(title);
    out.append(value);
    out.append(end);
    proof {
        lemma_join3(old(out)@, title@, value@, end@);
    }
}

proof fn lemma_add_nothing(s: Seq<char>)
    ensures
        s + Seq::<char>::empty() == s,
{
    assert(s + Seq::<char>::empty() =~= s);
}

/// The counters of a listing, one a line.
pub open spec fn counter_lines(listing: Seq<(Seq<char>, u64)>) -> Seq<char>
    decreases listing.len(),
{
    if listing.len() == 0 {
        Seq::empty()
    } else {
        counter_lines(listing.drop_last()) + ("  "@ + listing.last().0 + ": "@ + decimal(
            listing.last().1 as nat,
        ) + "\n"@)
    }
}

fn add_counter_lines(out: &mut String, s: &Snapshot)
    ensures
        final(out)@ == old(out)@ + counter_lines(ordered(s@.counters)),
{
    let ghost listing = ordered(s@.counters);
    let ghost start = out@;
    let n: usize = s.counters.len();
    let mut i: usize = 0;
    assert(start + counter_lines(listing.take(0)) =~= start);
    while i < n
        invariant
            i <= n,
            n == listing.len(),
            listing == ordered(s@.counters),
            out@ == start + counter_lines(listing.take(i as int)),
        decreases n - i,
    {
        let ghost before = counter_lines(listing.take(i as int));
        assert(listing.take(i + 1).drop_last() =~= listing.take(i as int));
        assert(listing.take(i + 1).last() == listing[i as int]);
        let mut line: String = "  ".to_owned();
        line.append(s.counters.key_at(i));
        line.append(": ");
        line.append(decimal_text(*s.counters.value_at(i)).as_str());
        line.append("\n");
        out.append(line.as_str());
        proof {
            lemma_join(start, before, line@);
        }
        i += 1;
    }
    assert(listing.take(i as int) =~= listing);
}

impl SnapshotView {
    /// What is not known now, and what is not understood.
    pub open spec fn open_lines(self) -> Seq<char> {
        line_if(
            self.stale_fields != Set::<Seq<char>>::empty(),
            "  stale/unknown fields: {"@,
            quoted_names(ascending_members(self.stale_fields)),
            "}\n"@,
        ) + line_if(
            ordered(self.unknown_attributes).len() > 0,
            "  uninterpreted vendor attributes: ["@,
            quoted_names(keys_of(ordered(self.unknown_attributes))),
            "]\n"@,
        )
    }

    /// The measurements that every disk has.
    pub open spec fn basic_lines(self) -> Seq<char> {
        line("  SMART overall passed: "@, option_flag(self.passed), "\n"@) + line("  firmware: "@,
            escaped_text(self.firmware),
            "\n"@,
        ) + line("  temperature: "@, option_signed(self.temperature), " C\n"@) + line("  power-on hours: "@,
            option_number(self.power_on_hours),
            "\n"@,
        )
    }

    /// The measurements of an NVMe disk.
    pub open spec fn nvme_lines(self) -> Seq<char> {
        line("  critical_warning: "@, option_number(self.critical_warning), "\n"@)
            + line("  available_spare: "@, option_number(self.available_spare), "\n"@)
            + line("  percentage_used: "@, option_number(self.percentage_used), "\n"@)
    }

    /// The life that is left, and the last test.
    pub open spec fn late_lines(self) -> Seq<char> {
        (match self.remaining_life {
            Some(n) => line("  remaining life: "@, decimal(n as nat), "%\n"@),
            None => Seq::empty(),
        }) + (match self.self_test {
            Some(t) => line("  self-test: "@,
                option_test(self.self_test_status) + ": "@ + escaped_text(t),
                "\n"@,
            ),
            None => Seq::empty(),
        })
    }

    /// All the measurements of a disk.
    pub open spec fn details(self, kind: Kind) -> Seq<char> {
        self.open_lines() + self.basic_lines() + counter_lines(ordered(self.counters)) + (if kind
            == Kind::Nvme {
            self.nvme_lines()
        } else {
            Seq::empty()
        }) + self.late_lines()
    }
}

fn add_open_lines(out: &mut String, s: &Snapshot)
    ensures
        final(out)@ == old(out)@ + s@.open_lines(),
{
    let ghost start = out@;
    let ghost a = line_if(
        s@.stale_fields != Set::<Seq<char>>::empty(),
        "  stale/unknown fields: {"@,
        quoted_names(ascending_members(s@.stale_fields)),
        "}\n"@,
    );
    let ghost b = line_if(
        ordered(s@.unknown_attributes).len() > 0,
        "  uninterpreted vendor attributes: ["@,
        quoted_names(keys_of(ordered(s@.unknown_attributes))),
        "]\n"@,
    );
    if !s.stale_fields.is_empty() {
        add_line(
            out,
            "  stale/unknown fields: {",
            quote_members(&s.stale_fields).as_str(),
            "}\n",
        );
    } else {
        proof {
            lemma_add_nothing(out@);
        }
    }
    assert(out@ == start + a);
    if !s.unknown_attributes.is_empty() {
        add_line(out, "  uninterpreted vendor attributes: [", quote_keys(s).as_str(), "]\n");
    } else {
        proof {
            lemma_add_nothing(out@);
        }
    }
    proof {
        lemma_join(start, a, b);
    }
}

fn add_basic_lines(out: &mut String, s: &Snapshot)
    ensures
        final(out)@ == old(out)@ + s@.basic_lines(),
{
    let ghost start = out@;
    add_line(out, "  SMART overall passed: ", show_flag(s.passed).as_str(), "\n");
    add_line(out, "  firmware: ", escaped(s.firmware.as_str()).as_str(), "\n");
    add_line(out, "  temperature: ", show_signed(s.temperature).as_str(), " C\n");
    add_line(out, "  power-on hours: ", show_number(s.power_on_hours).as_str(), "\n");
    proof {
        lemma_join4(
            start,
            line("  SMART overall passed: "@, option_flag(s@.passed), "\n"@),
            line("  firmware: "@, escaped_text(s@.firmware), "\n"@),
            line("  temperature: "@, option_signed(s@.temperature), " C\n"@),
            line("  power-on hours: "@, option_number(s@.power_on_hours), "\n"@),
        );
    }
}

fn add_nvme_lines(out: &mut String, s: &Snapshot)
    ensures
        final(out)@ == old(out)@ + s@.nvme_lines(),
{
    let ghost start = out@;
    add_line(out, "  critical_warning: ", show_number(s.critical_warning).as_str(), "\n");
    add_line(out, "  available_spare: ", show_number(s.available_spare).as_str(), "\n");
    add_line(out, "  percentage_used: ", show_number(s.percentage_used).as_str(), "\n");
    proof {
        lemma_join3(
            start,
            line("  critical_warning: "@, option_number(s@.critical_warning), "\n"@),
            line("  available_spare: "@, option_number(s@.available_spare), "\n"@),
            line("  percentage_used: "@, option_number(s@.percentage_used), "\n"@),
        );
    }
}

fn add_late_lines(out: &mut String, s: &Snapshot)
    ensures
        final(out)@ == old(out)@ + s@.late_lines(),
{
    let ghost start = out@;
    match s.remaining_life {
        Some(n) => add_line(out, "  remaining life: ", decimal_text(n).as_str(), "%\n"),
        None => {
            proof {
                lemma_add_nothing(out@);
            }
        },
    }
    let ghost middle = out@;
    match &s.self_test {
        Some(t) => {
            let mut value: String = show_test(s.self_test_status).to_owned();
            value.append(": ");
            value.append(escaped(t.as_str()).as_str());
            add_line(out, "  self-test: ", value.as_str(), "\n");
        },
        None => {
            proof {
                lemma_add_nothing(out@);
            }
        },
    }
    proof {
        let a = match s@.remaining_life {
            Some(n) => line("  remaining life: "@, decimal(n as nat), "%\n"@),
            None => Seq::empty(),
        };
        let b = match s@.self_test {
            Some(t) => line("  self-test: "@,
                option_test(s@.self_test_status) + ": "@ + escaped_text(t),
                "\n"@,
            ),
            None => Seq::empty(),
        };
        assert(middle == start + a);
        assert(out@ == middle + b);
        lemma_join(start, a, b);
    }
}

fn add_details(out: &mut String, s: &Snapshot, kind: Kind)
    ensures
        final(out)@ == old(out)@ + s@.details(kind),
{
    let ghost start = out@;
    add_open_lines(out, s);
    add_basic_lines(out, s);
    add_counter_lines(out, s);
    if kind == Kind::Nvme {
        add_nvme_lines(out, s);
    } else {
        proof {
            lemma_add_nothing(out@);
        }
    }
    add_late_lines(out, s);
    proof {
        lemma_join5(
            start,
            s@.open_lines(),
            s@.basic_lines(),
            counter_lines(ordered(s@.counters)),
            (if kind == Kind::Nvme {
                s@.nvme_lines()
            } else {
                Seq::empty()
            }),
            s@.late_lines(),
        );
    }
}

impl DiskView {
    /// Who the disk is, and whether it is there.
    pub open spec fn name_lines(self) -> Seq<char> {
        line(""@, escaped_text(self.device.model), "\n"@) + line("  serial: "@,
            escaped_text(self.device.serial),
            "\n"@,
        ) + line("  device: "@, escaped_text(self.device.path), "\n"@) + line("  present: "@,
            bool_text(self.present),
            "\n"@,
        )
    }

    /// The verdict on the disk, and what it rests on.
    pub open spec fn verdict_lines(self) -> Seq<char> {
        line(if self.present {
                "  health: "@
            } else {
                "  last known health: "@
            },
            self.health(),
            "\n"@,
        ) + line("  last SMART check (Unix seconds): "@,
            option_number(self.checked_at),
            "\n"@,
        ) + line("  SMART check: "@, check_name(self.check_status), ""@) + line("; last known severity: "@,
            severity_text(self.severity()),
            "\n"@,
        )
    }

    pub open spec fn snapshot_lines(self) -> Seq<char> {
        match self.snapshot {
            Some(s) => s.details(self.device.kind),
            None => line("  SMART: unavailable / not checked"@, ""@, "\n"@),
        }
    }

    pub open spec fn error_lines(self) -> Seq<char> {
        match self.smart_error {
            Some(e) => line("  SMART error (previous snapshot may be stale): "@,
                escaped_text(e),
                "\n"@,
            ),
            None => Seq::empty(),
        }
    }

    pub open spec fn kernel_lines(self) -> Seq<char> {
        match self.kernel_last_message {
            Some(m) => line("  kernel I/O errors observed (historical, "@,
                option_number(self.kernel_last_seen) + "): "@ + escaped_text(m),
                "\n"@,
            ),
            None => Seq::empty(),
        }
    }

    /// All that is known of the disk.
    pub open spec fn details(self) -> Seq<char> {
        self.name_lines() + self.verdict_lines() + self.snapshot_lines() + self.error_lines()
            + self.kernel_lines()
    }
}

fn add_name_lines(out: &mut String, d: &DiskState)
    ensures
        final(out)@ == old(out)@ + d@.name_lines(),
{
    let ghost start = out@;
    add_line(out, "", escaped(d.device.model.as_str()).as_str(), "\n");
    add_line(out, "  serial: ", escaped(d.device.serial.as_str()).as_str(), "\n");
    add_line(out, "  device: ", escaped(d.device.path.as_str()).as_str(), "\n");
    add_line(out, "  present: ", show_bool(d.present), "\n");
    proof {
        lemma_join4(
            start,
            line(""@, escaped_text(d@.device.model), "\n"@),
            line("  serial: "@, escaped_text(d@.device.serial), "\n"@),
            line("  device: "@, escaped_text(d@.device.path), "\n"@),
            line("  present: "@, bool_text(d@.present), "\n"@),
        );
    }
}

fn add_verdict_lines(out: &mut String, d: &DiskState)
    ensures
        final(out)@ == old(out)@ + d@.verdict_lines(),
{
    let ghost start = out@;
    let title: &str = if d.present {
        "  health: "
    } else {
        "  last known health: "
    };
    add_line(out, title, d.health(), "\n");
    add_line(
        out,
        "  last SMART check (Unix seconds): ",
        show_number(d.checked_at).as_str(),
        "\n",
    );
    add_line(out, "  SMART check: ", show_check(d.check_status), "");
    add_line(out, "; last known severity: ", d.severity().name(), "\n");
    proof {
        lemma_join4(
            start,
            line(title@, d@.health(), "\n"@),
            line("  last SMART check (Unix seconds): "@,
                option_number(d@.checked_at),
                "\n"@,
            ),
            line("  SMART check: "@, check_name(d@.check_status), ""@),
            line("; last known severity: "@, severity_text(d@.severity()), "\n"@),
        );
    }
}

fn add_disk_details(out: &mut String, d: &DiskState)
    ensures
        final(out)@ == old(out)@ + d@.details(),
{
    let ghost start = out@;
    add_name_lines(out, d);
    add_verdict_lines(out, d);
    match &d.snapshot {
        Some(s) => add_details(out, s, d.device.kind),
        None => add_line(out, "  SMART: unavailable / not checked", "", "\n"),
    }
    match &d.smart_error {
        Some(e) => add_line(
            out,
            "  SMART error (previous snapshot may be stale): ",
            escaped(e.as_str()).as_str(),
            "\n",
        ),
        None => {
            proof {
                lemma_add_nothing(out@);
            }
        },
    }
    match &d.kernel_last_message {
        Some(m) => {
            let mut value: String = show_number(d.kernel_last_seen);
            value.append("): ");
            value.append(escaped(m.as_str()).as_str());
            add_line(out, "  kernel I/O errors observed (historical, ", value.as_str(), "\n");
        },
        None => {
            proof {
                lemma_add_nothing(out@);
            }
        },
    }
    proof {
        lemma_join5(
            start,
            d@.name_lines(),
            d@.verdict_lines(),
            d@.snapshot_lines(),
            d@.error_lines(),
            d@.kernel_lines(),
        );
    }
}

/// All that is known of the disks of a listing.
pub open spec fn disks_details(listing: Seq<(Seq<char>, DiskView)>) -> Seq<char>
    decreases listing.len(),
{
    if listing.len() == 0 {
        Seq::empty()
    } else {
        disks_details(listing.drop_last()) + listing.last().1.details()
    }
}

fn add_disks_details(out: &mut String, state: &State)
    ensures
        final(out)@ == old(out)@ + disks_details(ordered(state@.disks)),
{
    let ghost listing = ordered(state@.disks);
    let ghost start = out@;
    let n: usize = state.disks.len();
    let mut i: usize = 0;
    assert(start + disks_details(listing.take(0)) =~= start);
    while i < n
        invariant
            i <= n,
            n == listing.len(),
            listing == ordered(state@.disks),
            out@ == start + disks_details(listing.take(i as int)),
        decreases n - i,
    {
        assert(listing.take(i + 1).drop_last() =~= listing.take(i as int));
        assert(listing.take(i + 1).last() == listing[i as int]);
        add_disk_details(out, state.disks.value_at(i));
        proof {
            lemma_join(start, disks_details(listing.take(i as int)), listing[i as int].1.details());
        }
        i += 1;
    }
    assert(listing.take(i as int) =~= listing);
}

/// One event as a line.
pub open spec fn event_line(e: EventView) -> Seq<char> {
    "  "@ + decimal(e.timestamp as nat) + " "@ + severity_text(e.severity) + " "@ + (match e.disk {
        Some(d) => escaped_text(d.path),
        None => "uncorrelated"@,
    }) + " "@ + escaped_text(e.message) + "\n"@
}

/// The last `n` events of a list, the newest first.
pub open spec fn event_lines(events: Seq<EventView>, n: nat) -> Seq<char>
    decreases n,
{
    if n == 0 || events.len() == 0 {
        Seq::empty()
    } else {
        event_line(events.last()) + event_lines(events.drop_last(), (n - 1) as nat)
    }
}

/// The last twenty events, under a title.
pub open spec fn recent_events(events: Seq<EventView>) -> Seq<char> {
    if events.len() == 0 {
        Seq::empty()
    } else {
        "Recent events:\n"@ + event_lines(events, 20)
    }
}

fn write_event_line(e: &Event) -> (r: String)
    ensures
        r@ == event_line(e@),
{
    let mut r: String = "  ".to_owned();
    r.append(decimal_text(e.timestamp).as_str());
    r.append(" ");
    r.append(e.severity.name());
    r.append(" ");
    match &e.disk {
        Some(d) => r.append(escaped(d.path.as_str()).as_str()),
        None => r.append("uncorrelated"),
    }
    r.append(" ");
    r.append(escaped(e.message.as_str()).as_str());
    r.append("\n");
    r
}

fn write_recent_events(events: &Vec<Event>) -> (r: String)
    ensures
        r@ == recent_events(events.deep_view()),
{
    let ghost all = events.deep_view();
    if events.len() == 0 {
        let r: String = String::new();
        assert(r@ =~= Seq::<char>::empty());
        return r;
    }
    let mut out: String = "Recent events:\n".to_owned();
    let ghost title = out@;
    let mut left: usize = events.len();
    let mut n: u8 = 20;
    assert(all.take(left as int) =~= all);
    while n > 0 && left > 0
        invariant
            left <= events.len(),
            all == events.deep_view(),
            out@ + event_lines(all.take(left as int), n as nat) == title + event_lines(all, 20),
        decreases n,
    {
        let ghost rest = all.take(left as int);
        assert(rest.drop_last() =~= all.take(left - 1));
        assert(rest.last() == events@[left - 1]@);
        let ghost before = out@;
        out.append(write_event_line(&events[left - 1]).as_str());
        left -= 1;
        n -= 1;
        proof {
            lemma_join(
                before,
                event_line(rest.last()),
                event_lines(all.take(left as int), n as nat),
            );
        }
    }
    assert(out@ + Seq::<char>::empty() =~= out@);
    out
}

/// All that is remembered, as text.
pub open spec fn full_report(state: StateView) -> Seq<char> {
    (if ordered(state.disks).len() == 0 {
        "No known physical disks.\n"@
    } else {
        Seq::empty()
    }) + disks_details(ordered(state.disks)) + recent_events(state.recent_alerts)
}

/// All that is remembered, as text.
pub fn display(state: &State) -> (r: String)
    ensures
        r@ == full_report(state@),
{
    let mut out: String = String::new();
    if state.disks.is_empty() {
        out.append("No known physical disks.\n");
    }
    assert(out@ =~= (if ordered(state@.disks).len() == 0 {
        "No known physical disks.\n"@
    } else {
        Seq::empty()
    }));
    add_disks_details(&mut out, state);
    out.append(write_recent_events(&state.recent_alerts).as_str());
    out
}

// ---------------------------------------------------------------------------
// Devices and tasks
// ---------------------------------------------------------------------------

/// The name of a kind of disk.
pub open spec fn kind_name(kind: Kind) -> Seq<char> {
    match kind {
        Kind::Hdd => "Hdd"@,
        Kind::Ssd => "Ssd"@,
        Kind::Nvme => "Nvme"@,
    }
}

fn show_kind(kind: Kind) -> (r: &'static str)
    ensures
        r@ == kind_name(kind),
{
    match kind {
        Kind::Hdd => "Hdd",
        Kind::Ssd => "Ssd",
        Kind::Nvme => "Nvme",
    }
}

/// One device as a line.
pub open spec fn device_line(d: DeviceView) -> Seq<char> {
    escaped_text(d.path) + " "@ + kind_name(d.kind) + " model="@ + escaped_text(d.model)
        + " serial="@ + escaped_text(d.serial) + " wwn="@ + escaped_text(d.wwn) + "\n"@
}

/// The devices that are not to be left alone, one a line.
pub open spec fn device_lines(devices: Seq<DeviceView>, cfg: ConfigView) -> Seq<char>
    decreases devices.len(),
{
    if devices.len() == 0 {
        Seq::empty()
    } else {
        device_lines(devices.drop_last(), cfg) + (if cfg.ignore_serials.contains(
            devices.last().serial,
        ) {
            Seq::empty()
        } else {
            device_line(devices.last())
        })
    }
}

fn write_device_line(d: &Device) -> (r: String)
    ensures
        r@ == device_line(d@),
{
    let mut r: String = escaped(d.path.as_str());
    r.append(" ");
    r.append(show_kind(d.kind));
    r.append(" model=");
    r.append(escaped(d.model.as_str()).as_str());
    r.append(" serial=");
    r.append(escaped(d.serial.as_str()).as_str());
    r.append(" wwn=");
    r.append(escaped(d.wwn.as_str()).as_str());
    r.append("\n");
    r
}

/// The list of devices that are not to be left alone.
pub fn device_list(devices: &Vec<Device>, cfg: &Config) -> (r: String)
    ensures
        r@ == device_lines(devices.deep_view(), cfg@),
{
    let ghost all = devices.deep_view();
    let mut out: String = String::new();
    let mut i: usize = 0;
    assert(out@ =~= device_lines(all.take(0), cfg@));
    while i < devices.len()
        invariant
            i <= devices.len(),
            all == devices.deep_view(),
            out@ == device_lines(all.take(i as int), cfg@),
        decreases devices.len() - i,
    {
        assert(all.take(i + 1).drop_last() =~= all.take(i as int));
        assert(all.take(i + 1).last() == devices@[i as int]@);
        if !list_contains(&cfg.devices.ignore_serials, devices[i].serial.as_str()) {
            out.append(write_device_line(&devices[i]).as_str());
        } else {
            proof {
                lemma_add_nothing(out@);
            }
        }
        i += 1;
    }
    assert(all.take(i as int) =~= all);
    out
}

/// Why a background task stopped: the error, or `None` where it simply ended, which
/// it never should.
pub fn background_exit(name: &str, error: Option<&str>) -> (r: String)
    ensures
        r@ == name@ + " task stopped: "@ + (match error {
            Some(e) => e@,
            None => "unexpected normal exit"@,
        }),
{
    let mut r: String = name.to_owned();
    r.append(" task stopped: ");
    match error {
        Some(e) => r.append(e),
        None => r.append("unexpected normal exit"),
    }
    r
}

} // verus!
