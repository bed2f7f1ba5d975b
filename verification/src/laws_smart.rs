//! What holds of the reading of a SMART report: when it counts, and that each value of
//! the snapshot is that of its own place in the report.

use crate::devices::{clean_wwn, Kind, DeviceView};
use crate::json::{decoded, text_of, JsonView};
use crate::smart::{
    attributes, counter_key, interpreted, outcome, parsed, passed_over, sleeping,
    smartctl_call, ExitStatus, ReadingView, SelfTestStatus, SmartErrorView, SnapshotView,
};
use crate::text::{
    decimal, hex_fixed, parsed_u64, trimmed, uppered,
};
use vstd::prelude::*;

verus! {

// ---------------------------------------------------------------------------
// When a report counts
// ---------------------------------------------------------------------------

/// The exit bits of the process, and those in the document where they are a byte.
pub open spec fn all_bits(v: JsonView, process: u8) -> u8 {
    if v.at("smartctl"@).at("exit_status"@) is Unsigned && v.at("smartctl"@).at(
        "exit_status"@,
    )->Unsigned_0 <= 255 {
        process | (v.at("smartctl"@).at("exit_status"@)->Unsigned_0 as u8)
    } else {
        process
    }
}

/// The report has a section on the health of the disk.
pub open spec fn has_section(v: JsonView) -> bool {
    v.at("smart_status"@) is Object || v.at("ata_smart_attributes"@) is Object || v.at(
        "nvme_smart_health_information_log"@,
    ) is Object || v.at("scsi_error_counter_log"@) is Object
}

/// The rows of the attribute table of an ATA disk.
pub open spec fn table_of(v: JsonView) -> Seq<JsonView> {
    if v.at("ata_smart_attributes"@).at("table"@) is Array {
        v.at("ata_smart_attributes"@).at("table"@)->Array_0
    } else {
        Seq::empty()
    }
}

/// The message tells only that the status cannot be had, or where the verdict comes from.
pub open spec fn harmless(v: JsonView, message: JsonView) -> bool {
    let said = message.at("string"@);
    &&& said is Text
    &&& {
        ||| trimmed(said->Text_0)
            == "SMART Status not supported: Incomplete response, ATA output registers missing"@
        ||| trimmed(said->Text_0) == "Warning: This result is based on an Attribute check."@
            && message.at("severity"@) == JsonView::Text("warning"@) && v.at("smart_status"@).at(
            "passed"@,
        ) is Bool
    }
}

/// The only command that failed is the one that a bridge does not pass on: the messages
/// say so, nothing else but information, and some attribute could be read.
pub open spec fn bridge_only(v: JsonView, bits: u8) -> bool {
    let said = v.at("smartctl"@).at("messages"@);
    &&& bits & 7 == 4
    &&& exists|i: int|
        0 <= i < table_of(v).len() && (#[trigger] table_of(v)[i]).at("name"@) is Text
            && table_of(v)[i].at("raw"@).at("value"@) is Unsigned
    &&& said is Array
    &&& exists|i: int| 0 <= i < said->Array_0.len() && harmless(v, #[trigger] said->Array_0[i])
    &&& forall|i: int|
        0 <= i < said->Array_0.len() ==> harmless(v, #[trigger] said->Array_0[i])
            || said->Array_0[i].at("severity"@) == JsonView::Text("info"@)
}

proof fn lemma_bridge_only(v: JsonView, bits: u8)
    ensures
        crate::smart::excused(v, bits) == bridge_only(v, bits),
{
    let rows = table_of(v);
    assert(crate::smart::attribute_rows(v) == rows);
    assert forall|i: int| 0 <= i < rows.len() implies crate::smart::readable_attribute(
        #[trigger] rows[i],
    ) == (rows[i].at("name"@) is Text && rows[i].at("raw"@).at("value"@) is Unsigned) by {}
    if v.at("smartctl"@).at("messages"@) is Array {
        let said = v.at("smartctl"@).at("messages"@)->Array_0;
        assert forall|i: int| 0 <= i < said.len() implies crate::smart::status_limitation(
            v,
            #[trigger] said[i],
        ) == harmless(v, said[i]) by {}
        if crate::smart::excused(v, bits) {
            let i = choose|i: int|
                0 <= i < said.len() && crate::smart::status_limitation(v, #[trigger] said[i]);
            assert(harmless(v, said[i]));
            let j = choose|i: int|
                0 <= i < rows.len() && crate::smart::readable_attribute(#[trigger] rows[i]);
            assert(rows[j].at("name"@) is Text);
            assert(bridge_only(v, bits));
        }
        if bridge_only(v, bits) {
            let i = choose|i: int| 0 <= i < said.len() && harmless(v, #[trigger] said[i]);
            assert(crate::smart::status_limitation(v, said[i]));
            let j = choose|i: int|
                0 <= i < rows.len() && (#[trigger] rows[i]).at("name"@) is Text && rows[i].at(
                    "raw"@,
                ).at("value"@) is Unsigned;
            assert(crate::smart::readable_attribute(rows[j]));
            assert(crate::smart::excused(v, bits));
        }
    }
}

/// There is no reading exactly if the report has no section on the health of the disk
/// and no exit bit speaks of it. A reading is complete exactly if there is such a
/// section and all commands succeeded, but for the one that a bridge does not pass on.
pub proof fn law_when_a_report_counts(v: JsonView, process: u8)
    ensures
        ({
            let bits = all_bits(v, process);
            let said = text_of(v.at("smartctl"@).at("messages"@));
            let fit = bits & 7 == 0 || bridge_only(v, bits);
            &&& interpreted(v, process) is Err <==> !has_section(v) && bits & 0xf8 == 0
            &&& interpreted(v, process) matches Err(e) ==> e == SmartErrorView::NoData(bits, said)
            &&& interpreted(v, process) matches Ok(s) ==> {
                &&& s.issue is None <==> has_section(v) && fit
                &&& s.issue is Some ==> s.issue == Some(
                    "incomplete SMART data (exit mask "@ + decimal(bits as nat) + "): "@ + said,
                )
                &&& s.exit == (ExitStatus {
                    mask: bits,
                    incomplete: !fit,
                    disk_failing: bits & 8 != 0,
                    prefailure: bits & 16 != 0,
                    past_threshold: bits & 32 != 0,
                    error_log: bits & 64 != 0,
                    self_test_log: bits & 128 != 0,
                })
                &&& s.stale_fields == Set::<Seq<char>>::empty()
            }
        }),
{
    let bits = all_bits(v, process);
    lemma_bridge_only(v, bits);
    assert(crate::smart::full_mask(v, process) == bits);
}

/// The output of `smartctl` is read as JSON with the exit status as its bits; where it
/// cannot be read, the bits for a failing disk still count, and only they.
pub proof fn law_what_output_comes_to(bytes: Seq<u8>, code: i32)
    ensures
        !(0 <= code <= 255) ==> parsed(bytes, code) == Err::<SnapshotView, SmartErrorView>(
            SmartErrorView::ExitStatus,
        ),
        0 <= code <= 255 && decoded(bytes) is Ok ==> parsed(bytes, code) == interpreted(
            decoded(bytes)->Ok_0,
            code as u8,
        ),
        0 <= code <= 255 && decoded(bytes) is Err && (code as u8) & 8 == 0 && (code as u8) & 16 == 0
            ==> parsed(bytes, code) == Err::<SnapshotView, SmartErrorView>(
            SmartErrorView::Json(decoded(bytes)->Err_0),
        ),
        0 <= code <= 255 && decoded(bytes) is Err && ((code as u8) & 8 != 0 || (code as u8) & 16
            != 0) ==> parsed(bytes, code) == interpreted(JsonView::Null, code as u8)
            && passed_over(bytes, code) == Some(decoded(bytes)->Err_0),
        decoded(bytes) is Ok || !(0 <= code <= 255) ==> passed_over(bytes, code) is None,
        (code as u8) & 8 == 0 && (code as u8) & 16 == 0 ==> passed_over(bytes, code) is None,
{
    let m = code as u8;
    assert((m & 0x18 != 0) == (m & 8 != 0 || m & 16 != 0)) by (bit_vector);
}

// ---------------------------------------------------------------------------
// What a report says
// ---------------------------------------------------------------------------

/// The text at a place of the report, without the space around it; empty where there is
/// none.
pub open spec fn words_at(v: JsonView, name: Seq<char>) -> Seq<char> {
    if v.at(name) is Text {
        trimmed(v.at(name)->Text_0)
    } else {
        Seq::empty()
    }
}

/// The unsigned number at a place.
pub open spec fn number_in(v: JsonView) -> Option<u64> {
    if v is Unsigned {
        Some(v->Unsigned_0)
    } else {
        None
    }
}

/// The integer at a place.
pub open spec fn integer_in(v: JsonView) -> Option<i64> {
    if v is Unsigned && v->Unsigned_0 <= i64::MAX {
        Some(v->Unsigned_0 as i64)
    } else if v is Negative {
        Some(v->Negative_0)
    } else {
        None
    }
}

/// Every reading, complete or not, says who the disk is as the report does: the names of
/// `model_name`, or else of `product`, of `serial_number` and of `firmware_version`.
pub proof fn law_report_names_the_disk(v: JsonView, process: u8)
    requires
        interpreted(v, process) is Ok,
    ensures
        ({
            let s = interpreted(v, process)->Ok_0;
            &&& s.serial == words_at(v, "serial_number"@)
            &&& s.firmware == words_at(v, "firmware_version"@)
            &&& words_at(v, "model_name"@).len() > 0 ==> s.model == words_at(v, "model_name"@)
            &&& words_at(v, "model_name"@).len() == 0 ==> s.model == words_at(v, "product"@)
        }),
{
}

/// The verdict on the disk: the exit bit for a failing disk says that it failed,
/// whatever else the report says; a complete report says else what its own verdict is,
/// and an incomplete one nothing. Likewise for a disk that is about to fail.
pub proof fn law_verdict_of_the_report(v: JsonView, process: u8)
    requires
        interpreted(v, process) is Ok,
    ensures
        ({
            let s = interpreted(v, process)->Ok_0;
            let bits = all_bits(v, process);
            let own = v.at("smart_status"@).at("passed"@);
            &&& bits & 8 != 0 ==> s.passed == Some(false)
            &&& bits & 8 == 0 && s.issue is None && own is Bool ==> s.passed == Some(own->Bool_0)
            &&& bits & 8 == 0 && (s.issue is Some || !(own is Bool)) ==> s.passed is None
            &&& bits & 16 != 0 ==> s.prefailure == Some(true)
            &&& bits & 16 == 0 && s.issue is None ==> s.prefailure == Some(false)
            &&& bits & 16 == 0 && s.issue is Some ==> s.prefailure is None
        }),
{
    assert(crate::smart::full_mask(v, process) == all_bits(v, process));
}

/// Each measurement of a complete report is the value of its own member: the warning
/// bits, the spare blocks and their threshold and the wear are those of the NVMe log;
/// temperature and hours are those of the general sections, and else of that log.
pub proof fn law_measurements_of_the_report(v: JsonView, process: u8)
    requires
        interpreted(v, process) is Ok,
        (interpreted(v, process)->Ok_0).issue is None,
    ensures
        ({
            let s = interpreted(v, process)->Ok_0;
            let log = v.at("nvme_smart_health_information_log"@);
            let degrees = v.at("temperature"@).at("current"@);
            let hours = v.at("power_on_time"@).at("hours"@);
            &&& s.critical_warning == number_in(log.at("critical_warning"@))
            &&& s.available_spare == number_in(log.at("available_spare"@))
            &&& s.spare_threshold == number_in(log.at("available_spare_threshold"@))
            &&& s.percentage_used == number_in(log.at("percentage_used"@))
            &&& integer_in(degrees) is Some ==> s.temperature == integer_in(degrees)
            &&& integer_in(degrees) is None ==> s.temperature == integer_in(log.at("temperature"@))
            &&& number_in(hours) is Some ==> s.power_on_hours == number_in(hours)
            &&& number_in(hours) is None ==> s.power_on_hours == number_in(
                log.at("power_on_hours"@),
            )
        }),
{
}

proof fn lemma_nvme_counters_differ()
    ensures
        "media_errors"@ != "num_err_log_entries"@,
{
    reveal_strlit("media_errors");
    reveal_strlit("num_err_log_entries");
    assert("media_errors"@.len() == 12);
    assert("num_err_log_entries"@.len() == 19);
}

/// The counters of a complete report are those of the attribute table, and those of the
/// NVMe log where it has them; what else the table holds is kept as it is, and so is
/// what it says of the life that is left.
pub proof fn law_counters_of_the_report(v: JsonView, process: u8, key: Seq<char>)
    requires
        interpreted(v, process) is Ok,
        (interpreted(v, process)->Ok_0).issue is None,
    ensures
        ({
            let s = interpreted(v, process)->Ok_0;
            let log = v.at("nvme_smart_health_information_log"@);
            let table = attributes(table_of(v));
            let nvme = (key == "media_errors"@ || key == "num_err_log_entries"@) && log.at(
                key,
            ) is Unsigned;
            &&& nvme ==> s.counters.contains_key(key) && s.counters[key] == log.at(key)->Unsigned_0
            &&& !nvme ==> (s.counters.contains_key(key) <==> table.counters.contains_key(key)) && (
            s.counters.contains_key(key) ==> s.counters[key] == table.counters[key])
            &&& s.unknown_attributes == table.unknown
            &&& s.remaining_life == table.remaining_life
        }),
{
    lemma_nvme_counters_differ();
}

/// An incomplete report gives no measurement at all.
pub proof fn law_nothing_is_measured_by_halves(v: JsonView, process: u8)
    requires
        interpreted(v, process) is Ok,
        (interpreted(v, process)->Ok_0).issue is Some,
    ensures
        ({
            let s = interpreted(v, process)->Ok_0;
            &&& s.temperature is None
            &&& s.power_on_hours is None
            &&& s.critical_warning is None
            &&& s.available_spare is None
            &&& s.spare_threshold is None
            &&& s.percentage_used is None
            &&& s.remaining_life is None
            &&& s.self_test is None
            &&& s.self_test_hours is None
            &&& s.self_test_status is None
            &&& s.counters == Map::<Seq<char>, u64>::empty()
            &&& s.unknown_attributes == Map::<Seq<char>, JsonView>::empty()
        }),
{
}

// ---------------------------------------------------------------------------
// Attributes
// ---------------------------------------------------------------------------

proof fn lemma_attribute_spellings_differ()
    ensures
        "Pending_Sector_Count"@ != "Reallocated_Sector_Ct"@,
        "Pending_Sector_Count"@ != "Reallocated_Sector_Count"@,
        "Pending_Sector_Count"@ != "Reallocated_Event_Count"@,
        "Current_Pending_Sector"@ != "Reallocated_Sector_Ct"@,
        "Current_Pending_Sector"@ != "Reallocated_Sector_Count"@,
        "Current_Pending_Sector"@ != "Reallocated_Event_Count"@,
        "Reallocated_Event_Count"@ != "Reallocated_Sector_Ct"@,
        "Reallocated_Event_Count"@ != "Reallocated_Sector_Count"@,
        forall|s: Seq<char>|
            (#[trigger] s.len()) == 18 || s.len() == 21 && s[0] == 'O' || s.len() == 20 && (s[0] == 'U'
                || s[0] == 'S') || s.len() == 15 && s[1] == 'R' ==> s != "Reallocated_Sector_Ct"@
                && s != "Reallocated_Sector_Count"@ && s != "Reallocated_Event_Count"@ && s
                != "Current_Pending_Sector"@ && s != "Pending_Sector_Count"@,
        "Offline_Uncorrectable"@.len() == 21 && "Offline_Uncorrectable"@[0] == 'O',
        "Reported_Uncorrect"@.len() == 18,
        "UDMA_CRC_Error_Count"@.len() == 20 && "UDMA_CRC_Error_Count"@[0] == 'U',
        "SATA_CRC_Error_Count"@.len() == 20 && "SATA_CRC_Error_Count"@[0] == 'S',
        "CRC_Error_Count"@.len() == 15 && "CRC_Error_Count"@[1] == 'R',
        "Command_Timeout"@.len() == 15 && "Command_Timeout"@[1] == 'o',
        "Command_Timeouts"@.len() == 16,
        "Reallocated_Sector_Ct"@.len() == 21 && "Reallocated_Sector_Ct"@[0] == 'R',
        "Reallocated_Sector_Count"@.len() == 24,
        "Reallocated_Event_Count"@.len() == 23,
        "Current_Pending_Sector"@.len() == 22,
        "Pending_Sector_Count"@.len() == 20 && "Pending_Sector_Count"@[0] == 'P',
{
    reveal_strlit("Reallocated_Sector_Ct");
    reveal_strlit("Reallocated_Sector_Count");
    reveal_strlit("Reallocated_Event_Count");
    reveal_strlit("Current_Pending_Sector");
    reveal_strlit("Pending_Sector_Count");
    reveal_strlit("Offline_Uncorrectable");
    reveal_strlit("Reported_Uncorrect");
    reveal_strlit("UDMA_CRC_Error_Count");
    reveal_strlit("SATA_CRC_Error_Count");
    reveal_strlit("CRC_Error_Count");
    reveal_strlit("Command_Timeout");
    reveal_strlit("Command_Timeouts");
    assert("Reallocated_Sector_Ct"@.len() == 21 && "Reallocated_Sector_Ct"@[0] == 'R');
    assert("Reallocated_Sector_Count"@.len() == 24);
    assert("Reallocated_Event_Count"@.len() == 23);
    assert("Current_Pending_Sector"@.len() == 22);
    assert("Pending_Sector_Count"@.len() == 20 && "Pending_Sector_Count"@[0] == 'P');
}

/// The vendors' names for a counter: each of them is counted under the one name, and no
/// other attribute is counted.
pub proof fn law_names_of_counters(name: Seq<char>)
    ensures
        name == "Reallocated_Sector_Ct"@ || name == "Reallocated_Sector_Count"@ ==> counter_key(
            name,
        ) == Some("Reallocated_Sector_Ct"@),
        name == "Reallocated_Event_Count"@ ==> counter_key(name) == Some(name),
        name == "Current_Pending_Sector"@ || name == "Pending_Sector_Count"@ ==> counter_key(name)
            == Some("Current_Pending_Sector"@),
        name == "Offline_Uncorrectable"@ ==> counter_key(name) == Some(name),
        name == "Reported_Uncorrect"@ ==> counter_key(name) == Some(name),
        name == "UDMA_CRC_Error_Count"@ || name == "CRC_Error_Count"@ || name
            == "SATA_CRC_Error_Count"@ ==> counter_key(name) == Some("UDMA_CRC_Error_Count"@),
        name == "Command_Timeout"@ || name == "Command_Timeouts"@ ==> counter_key(name) == Some(
            "Command_Timeout"@,
        ),
        counter_key(name) is Some ==> name == "Reallocated_Sector_Ct"@ || name
            == "Reallocated_Sector_Count"@ || name == "Reallocated_Event_Count"@ || name
            == "Current_Pending_Sector"@ || name == "Pending_Sector_Count"@ || name
            == "Offline_Uncorrectable"@ || name == "Reported_Uncorrect"@ || name
            == "UDMA_CRC_Error_Count"@ || name == "CRC_Error_Count"@ || name
            == "SATA_CRC_Error_Count"@ || name == "Command_Timeout"@ || name == "Command_Timeouts"@,
{
    lemma_attribute_spellings_differ();
}

/// The raw value of the row is one number: the text beside it, if there is one, is the
/// same number.
pub open spec fn is_one_number(row: JsonView) -> bool {
    let raw = row.at("raw"@);
    &&& raw.at("value"@) is Unsigned
    &&& raw.at("string"@) is Text ==> parsed_u64(trimmed(raw.at("string"@)->Text_0)) == Some(
        raw.at("value"@)->Unsigned_0,
    )
}

/// The row counts something: it has the name of a counter and its value is one number;
/// for command timeouts a text has to confirm that.
pub open spec fn counts(row: JsonView) -> bool {
    &&& row.at("name"@) is Text
    &&& counter_key(row.at("name"@)->Text_0) is Some
    &&& is_one_number(row)
    &&& counter_key(row.at("name"@)->Text_0) == Some("Command_Timeout"@) ==> row.at("raw"@).at(
        "string"@,
    ) is Text
}

/// What one more row at the end of the table adds. One that counts sets its counter, and
/// no other; one that does not is kept among the unknown ones. One that tells the life
/// that is left replaces what was said of it before.
pub proof fn law_one_more_row(rows: Seq<JsonView>, row: JsonView)
    ensures
        ({
            let before = attributes(rows);
            let after = attributes(rows.push(row));
            let name = if row.at("name"@) is Text {
                row.at("name"@)->Text_0
            } else {
                "Unknown"@
            };
            &&& counts(row) ==> after.counters == before.counters.insert(
                counter_key(name)->0,
                row.at("raw"@).at("value"@)->Unsigned_0,
            ) && after.unknown == before.unknown
            &&& !counts(row) ==> after.counters == before.counters && after.unknown
                == before.unknown.insert(text_of(row.at("id"@)) + seq![':'] + name, row.at("raw"@))
            &&& name == "SSD_Life_Left"@ || name == "Percent_Lifetime_Remain"@ || name
                == "Media_Wearout_Indicator"@ ==> after.remaining_life == (if number_in(
                row.at("value"@),
            ) is Some && number_in(row.at("value"@))->0 <= 100 {
                number_in(row.at("value"@))
            } else {
                None
            })
            &&& !(name == "SSD_Life_Left"@ || name == "Percent_Lifetime_Remain"@ || name
                == "Media_Wearout_Indicator"@) ==> after.remaining_life == before.remaining_life
        }),
{
    reveal_strlit("Unknown");
    lemma_attribute_spellings_differ();
    assert("Unknown"@.len() == 7);
    law_names_of_counters("Unknown"@);
    assert(counter_key("Unknown"@) is None);
    assert(rows.push(row).drop_last() =~= rows);
    assert(rows.push(row).last() == row);
}

/// A table without rows says nothing.
pub proof fn law_no_rows_say_nothing()
    ensures
        attributes(Seq::empty()).counters == Map::<Seq<char>, u64>::empty(),
        attributes(Seq::empty()).unknown == Map::<Seq<char>, JsonView>::empty(),
        attributes(Seq::empty()).remaining_life is None,
{
}

proof fn lemma_row_stays(rows: Seq<JsonView>, i: int, key: Seq<char>)
    requires
        0 <= i < rows.len(),
        counts(rows[i]),
        counter_key(rows[i].at("name"@)->Text_0) == Some(key),
        forall|j: int|
            i < j < rows.len() && counts(#[trigger] rows[j]) ==> counter_key(
                rows[j].at("name"@)->Text_0,
            ) != Some(key),
    ensures
        attributes(rows).counters.contains_key(key),
        attributes(rows).counters[key] == rows[i].at("raw"@).at("value"@)->Unsigned_0,
    decreases rows.len(),
{
    let rest = rows.drop_last();
    let last = rows[rows.len() - 1];
    assert(rest.push(last) =~= rows);
    law_one_more_row(rest, last);
    if i < rest.len() {
        assert(rest[i] == rows[i]);
        assert forall|j: int| i < j < rest.len() && counts(#[trigger] rest[j]) implies counter_key(
            rest[j].at("name"@)->Text_0,
        ) != Some(key) by {
            assert(rest[j] == rows[j]);
        }
        lemma_row_stays(rest, i, key);
    }
}

/// A counter of a complete report is the raw value of the last row that counts it.
pub proof fn law_counter_is_that_of_its_row(v: JsonView, process: u8, i: int, key: Seq<char>)
    requires
        interpreted(v, process) is Ok,
        (interpreted(v, process)->Ok_0).issue is None,
        0 <= i < table_of(v).len(),
        counts(table_of(v)[i]),
        counter_key(table_of(v)[i].at("name"@)->Text_0) == Some(key),
        forall|j: int|
            i < j < table_of(v).len() && counts(#[trigger] table_of(v)[j]) ==> counter_key(
                table_of(v)[j].at("name"@)->Text_0,
            ) != Some(key),
    ensures
        (interpreted(v, process)->Ok_0).counters.contains_key(key),
        (interpreted(v, process)->Ok_0).counters[key] == table_of(v)[i].at("raw"@).at(
            "value"@,
        )->Unsigned_0,
{
    lemma_row_stays(table_of(v), i, key);
    law_counters_of_the_report(v, process, key);
    lemma_attribute_spellings_differ();
    reveal_strlit("media_errors");
    reveal_strlit("num_err_log_entries");
    assert("media_errors"@.len() == 12);
    assert("num_err_log_entries"@.len() == 19);
}

// ---------------------------------------------------------------------------
// Self-tests
// ---------------------------------------------------------------------------

/// The newest entry of a log: the first of its table.
pub open spec fn newest_in(log: JsonView) -> Option<JsonView> {
    log.at("table"@).first()
}

/// What the newest self-test was: that of the NVMe log, else of the extended ATA log,
/// else of the standard one, and none where none of them has an entry.
pub proof fn law_newest_self_test(v: JsonView, process: u8)
    requires
        interpreted(v, process) is Ok,
        (interpreted(v, process)->Ok_0).issue is None,
    ensures
        ({
            let s = interpreted(v, process)->Ok_0;
            let nvme = newest_in(v.at("nvme_self_test_log"@));
            let extended = newest_in(v.at("ata_smart_self_test_log"@).at("extended"@));
            let standard = newest_in(v.at("ata_smart_self_test_log"@).at("standard"@));
            &&& nvme matches Some(entry) ==> {
                let code = number_in(entry.at("self_test_result"@).at("value"@));
                &&& s.self_test == entry.at("self_test_result"@).at("string"@).text()
                &&& s.self_test_hours == number_in(entry.at("power_on_hours"@))
                &&& s.self_test_status == Some(SelfTestStatus::Passed) <==> code == Some(0u64)
                &&& s.self_test_status == Some(SelfTestStatus::Failed) <==> code == Some(5u64)
                    || code == Some(6u64) || code == Some(7u64)
                &&& s.self_test_status == Some(SelfTestStatus::Aborted) <==> code == Some(1u64)
                    || code == Some(2u64) || code == Some(3u64) || code == Some(4u64) || code
                    == Some(8u64) || code == Some(9u64)
                &&& s.self_test_status is Some && s.self_test_status != Some(
                    SelfTestStatus::InProgress,
                )
            }
            &&& nvme is None ==> ((extended is Some || standard is Some) ==> {
                let entry = if extended is Some {
                    extended->0
                } else {
                    standard->0
                };
                let code = number_in(entry.at("status"@).at("value"@));
                &&& s.self_test == entry.at("status"@).at("string"@).text()
                &&& s.self_test_hours == number_in(entry.at("lifetime_hours"@))
                &&& s.self_test_status == Some(SelfTestStatus::Passed) <==> code is Some && code->0
                    < 16
                &&& s.self_test_status == Some(SelfTestStatus::Aborted) <==> code is Some && 16
                    <= code->0 < 48
                &&& s.self_test_status == Some(SelfTestStatus::Failed) <==> code is Some && 48
                    <= code->0 < 144
                &&& s.self_test_status == Some(SelfTestStatus::InProgress) <==> code is Some && 240
                    <= code->0 < 256
                &&& s.self_test_status is Some
            })
            &&& nvme is None && extended is None && standard is None ==> s.self_test is None
                && s.self_test_hours is None && s.self_test_status is None
        }),
{
    let log = v.at("ata_smart_self_test_log"@);
    assert(JsonView::Null.child("table"@) is None);
    assert(JsonView::Null.child("extended"@) is None);
    assert(JsonView::Null.child("standard"@) is None);
    assert(crate::smart::nvme_test_entry(v) == newest_in(v.at("nvme_self_test_log"@)));
    assert(crate::smart::ata_test_entry(v, "extended"@) == newest_in(log.at("extended"@)));
    assert(crate::smart::ata_test_entry(v, "standard"@) == newest_in(log.at("standard"@)));
}

// ---------------------------------------------------------------------------
// The WWN
// ---------------------------------------------------------------------------

/// The value of a small hexadecimal digit.
pub open spec fn worth(c: char) -> int {
    if '0' <= c <= '9' {
        c as int - '0' as int
    } else {
        c as int - 'a' as int + 10
    }
}

/// The number that small hexadecimal digits spell.
pub open spec fn number_of(s: Seq<char>) -> int
    decreases s.len(),
{
    if s.len() == 0 {
        0
    } else {
        16 * number_of(s.drop_last()) + worth(s.last())
    }
}

/// Sixteen to the power of `w`.
pub open spec fn sixteens(w: nat) -> int
    decreases w,
{
    if w == 0 {
        1
    } else {
        16 * sixteens((w - 1) as nat)
    }
}

/// A number in hexadecimal digits of a fixed width has that many of them, and spells the
/// number where it fits.
pub proof fn law_hexadecimal_reads_back(n: nat, w: nat)
    requires
        n < sixteens(w),
    ensures
        hex_fixed(n, w).len() == w,
        number_of(hex_fixed(n, w)) == n,
        forall|i: int|
            0 <= i < w ==> '0' <= (#[trigger] hex_fixed(n, w)[i]) <= '9' || 'a' <= hex_fixed(n, w)[i]
                <= 'f',
    decreases w,
{
    if w > 0 {
        law_hexadecimal_reads_back(n / 16, (w - 1) as nat);
        let front = hex_fixed(n / 16, (w - 1) as nat);
        let s = hex_fixed(n, w);
        assert(s.drop_last() =~= front);
        let d = n % 16;
        assert(worth(s.last()) == d);
        assert forall|i: int| 0 <= i < w implies '0' <= (#[trigger] s[i]) <= '9' || 'a' <= s[i]
            <= 'f' by {
            if i < w - 1 {
                assert(s[i] == front[i]);
            }
        }
    }
}

/// The WWN of a report: sixteen hexadecimal digits that spell its three parts, one digit
/// for the first, six for the second and nine for the third; or, where one of them is
/// missing or too large, the text of the logical unit.
pub proof fn law_wwn_of_the_report(v: JsonView, process: u8)
    requires
        interpreted(v, process) is Ok,
    ensures
        ({
            let s = interpreted(v, process)->Ok_0;
            let naa = number_in(v.at("wwn"@).at("naa"@));
            let oui = number_in(v.at("wwn"@).at("oui"@));
            let id = number_in(v.at("wwn"@).at("id"@));
            let fits = naa is Some && oui is Some && id is Some && naa->0 < 0x10 && oui->0
                < 0x100_0000 && id->0 < 0x10_0000_0000;
            &&& fits ==> exists|w: Seq<char>|
                s.wwn == #[trigger] clean_wwn(w) && w.len() == 16 && number_of(w) == (naa->0
                    * 0x100_0000 + oui->0) * 0x10_0000_0000 + id->0
            &&& !fits ==> s.wwn == clean_wwn(words_at(v, "logical_unit_id"@))
        }),
{
    let naa = number_in(v.at("wwn"@).at("naa"@));
    let oui = number_in(v.at("wwn"@).at("oui"@));
    let id = number_in(v.at("wwn"@).at("id"@));
    if naa is Some && oui is Some && id is Some && naa->0 < 0x10 && oui->0 < 0x100_0000 && id->0
        < 0x10_0000_0000 {
        let n = (naa->0 * 0x1000_0000_0000_0000 + oui->0 * 0x10_0000_0000 + id->0) as nat;
        assert(sixteens(16) == 0x1_0000_0000_0000_0000) by {
            reveal_with_fuel(sixteens, 17);
        }
        law_hexadecimal_reads_back(n, 16);
        let w = hex_fixed(n, 16);
        assert((interpreted(v, process)->Ok_0).wwn == clean_wwn(w));
    }
}

// ---------------------------------------------------------------------------
// Running smartctl
// ---------------------------------------------------------------------------

/// A hard disk that is to be spared is not woken; every disk else is read in any case.
pub proof fn law_arguments_for_smartctl(d: DeviceView, skip_sleeping: bool)
    ensures
        ({
            let args = smartctl_call(d, skip_sleeping);
            &&& args.len() > 2
            &&& args[0] == "-j"@
            &&& args[1] == "-a"@
            &&& args.last() == d.path
            &&& skip_sleeping && d.kind == Kind::Hdd ==> args.len() == 5 && args[2] == "-n"@
                && args[3] == "standby,3"@
            &&& !(skip_sleeping && d.kind == Kind::Hdd) ==> args.len() == 3
        }),
{
}

/// What a run of `smartctl` comes to. One that a signal ended is an error. Where a hard
/// disk is to be spared, the exit status for sleep counts as sleep if and only if the
/// report says so. All else is a reading, or the error of the report.
pub proof fn law_what_a_run_comes_to(
    kind: Kind,
    skip_sleeping: bool,
    code: Option<i32>,
    bytes: Seq<u8>,
)
    ensures
        ({
            let r = outcome(kind, skip_sleeping, code, bytes);
            let spared = skip_sleeping && kind == Kind::Hdd && code == Some(3i32);
            &&& code is None ==> r == Err::<ReadingView, SmartErrorView>(SmartErrorView::Signal)
            &&& spared && decoded(bytes) is Err ==> r == Err::<ReadingView, SmartErrorView>(
                SmartErrorView::SleepingJson(decoded(bytes)->Err_0),
            )
            &&& spared && decoded(bytes) is Ok && sleeping(decoded(bytes)->Ok_0) ==> r == Ok::<
                ReadingView,
                SmartErrorView,
            >(ReadingView::Sleeping)
            &&& spared && decoded(bytes) is Ok && !sleeping(decoded(bytes)->Ok_0) ==> r == Err::<
                ReadingView,
                SmartErrorView,
            >(SmartErrorView::NotSleeping)
            &&& code is Some && !spared ==> match parsed(bytes, code->0) {
                Ok(s) => r == Ok::<ReadingView, SmartErrorView>(ReadingView::Checked(s)),
                Err(e) => r == Err::<ReadingView, SmartErrorView>(e),
            }
        }),
{
}

/// A mode in which a disk does not spin, in any case of its letters.
pub open spec fn asleep(mode: Seq<char>) -> bool {
    let m = uppered(mode);
    m == "STANDBY"@ || m == "STANDBY_Y"@ || m == "STANDBY_Z"@ || m == "SLEEP"@
}

/// The power mode of the report: the name in its section, or the section itself.
pub open spec fn mode_of(v: JsonView) -> Seq<char> {
    let section = v.at("power_mode"@);
    if section.at("name"@) is Text {
        section.at("name"@)->Text_0
    } else if section is Text {
        section->Text_0
    } else {
        Seq::empty()
    }
}

/// A report with a power mode says that the disk sleeps exactly if the mode is one of
/// sleep; one without says so exactly if one of its messages names such a mode.
pub proof fn law_when_a_disk_sleeps(v: JsonView)
    ensures
        mode_of(v).len() > 0 ==> (sleeping(v) <==> asleep(mode_of(v))),
        mode_of(v).len() == 0 ==> (sleeping(v) <==> v.at("smartctl"@).at("messages"@) is Array
            && exists|i: int, mode: Seq<char>|
            0 <= i < v.at("smartctl"@).at("messages"@)->Array_0.len() && (#[trigger] v.at(
                "smartctl"@,
            ).at("messages"@)->Array_0[i]).at("string"@) is Text && trimmed(
                v.at("smartctl"@).at("messages"@)->Array_0[i].at("string"@)->Text_0,
            ) == "Device is in "@ + mode + " mode, exit(3)"@ && #[trigger] asleep(mode)),
{
    let mode = mode_of(v);
    assert(crate::smart::power_mode(v) == mode);
    assert(crate::smart::sleeping_mode(mode) == asleep(mode));
    if mode.len() == 0 {
        reveal_strlit("STANDBY");
        reveal_strlit("STANDBY_Y");
        reveal_strlit("STANDBY_Z");
        reveal_strlit("SLEEP");
        assert(uppered(mode).len() == 0);
        assert("STANDBY"@.len() == 7 && "STANDBY_Y"@.len() == 9 && "STANDBY_Z"@.len() == 9
            && "SLEEP"@.len() == 5);
        assert(!asleep(mode));
        if v.at("smartctl"@).at("messages"@) is Array {
            let said = v.at("smartctl"@).at("messages"@)->Array_0;
            let a = "Device is in "@;
            let b = " mode, exit(3)"@;
            if sleeping(v) {
                let i = choose|i: int|
                    0 <= i < said.len() && crate::smart::sleeping_message(#[trigger] said[i]);
                let t = trimmed(said[i].at("string"@)->Text_0);
                let rest = t.skip(a.len() as int);
                let m = rest.take(rest.len() - b.len());
                assert(t =~= a + m + b) by {
                    assert(t.take(a.len() as int) =~= a);
                    assert(rest.skip(rest.len() - b.len()) =~= b);
                }
                assert(crate::smart::sleeping_mode(m));
                assert(asleep(m));
            }
            if exists|i: int, mode: Seq<char>|
                0 <= i < said.len() && (#[trigger] said[i]).at("string"@) is Text && trimmed(
                    said[i].at("string"@)->Text_0,
                ) == a + mode + b && #[trigger] asleep(mode) {
                let (i, m) = choose|i: int, mode: Seq<char>|
                    0 <= i < said.len() && (#[trigger] said[i]).at("string"@) is Text && trimmed(
                        said[i].at("string"@)->Text_0,
                    ) == a + mode + b && #[trigger] asleep(mode);
                let t = trimmed(said[i].at("string"@)->Text_0);
                assert(t.take(a.len() as int) =~= a);
                let rest = t.skip(a.len() as int);
                assert(rest =~= m + b);
                assert(rest.skip(rest.len() - b.len()) =~= b);
                assert(rest.take(rest.len() - b.len()) =~= m);
                assert(crate::smart::sleeping_mode(m));
                assert(crate::smart::sleeping_message(said[i]));
            }
        }
    }
}

} // verus!
