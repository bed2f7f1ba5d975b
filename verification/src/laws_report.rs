//! What holds of the reports: which disks they list, and that every cause for worry is
//! given.

use crate::alert::{option_number, option_text, severity_text, EventView, Severity};
use crate::config::ConfigView;
use crate::devices::{DeviceView, Kind};
use crate::laws_kernel::{law_found_phrase_stands, law_phrase_is_found};
use crate::laws_state::law_severity_of_a_disk;
use crate::notifier::desktop_call;
use crate::report::{
    counter_lines, counter_reasons, device_lines, disks_details, event_lines, full_report,
    health_count, option_flag, option_signed, option_test, present_disks, quoted_names,
    recent_events, summary,
};
use crate::smart::{SelfTestStatus, SnapshotView};
use crate::state::{CheckStatus, DiskView, StateView};
use crate::strmap::{ascending_members, listable, lists, ordered};
use crate::text::{
    contains_text, debug_quoted, decimal, decimal_signed, escaped_text, markup_text, uppered,
};
use vstd::prelude::*;

verus! {

// ---------------------------------------------------------------------------
// Text in text
// ---------------------------------------------------------------------------

proof fn lemma_in_text(a: Seq<char>, b: Seq<char>, p: Seq<char>)
    ensures
        contains_text(a, p) || contains_text(b, p) ==> contains_text(a + b, p),
{
    if contains_text(a, p) {
        law_found_phrase_stands(a, p);
        let (x, y) = choose|x: Seq<char>, y: Seq<char>| a == #[trigger] (x + p + y);
        assert(a + b =~= x + p + (y + b));
        law_phrase_is_found(x, p, y + b);
    }
    if contains_text(b, p) {
        law_found_phrase_stands(b, p);
        let (x, y) = choose|x: Seq<char>, y: Seq<char>| b == #[trigger] (x + p + y);
        assert(a + b =~= (a + x) + p + y);
        law_phrase_is_found(a + x, p, y);
    }
}

proof fn lemma_in_itself(p: Seq<char>)
    ensures
        contains_text(p, p),
{
    assert(Seq::<char>::empty() + p + Seq::<char>::empty() =~= p);
    law_phrase_is_found(Seq::empty(), p, Seq::empty());
}

// ---------------------------------------------------------------------------
// Reasons
// ---------------------------------------------------------------------------

/// The line that gives a reason.
pub open spec fn reason_line(key: Seq<char>, value: Seq<char>, stale: bool) -> Seq<char> {
    if stale {
        "    "@ + key + "="@ + value + " (stale)"@ + "\n"@
    } else {
        "    "@ + key + "="@ + value + "\n"@
    }
}

proof fn lemma_reason_line(key: Seq<char>, value: Seq<char>, stale: bool)
    ensures
        crate::report::reason(key, value, stale) == reason_line(key, value, stale),
        crate::report::reason_if(true, key, value, stale) == reason_line(key, value, stale),
        crate::report::reason_if(false, key, value, stale) == Seq::<char>::empty(),
{
    let front = "    "@ + key + "="@ + value;
    assert(front + Seq::<char>::empty() =~= front);
}

/// The short name of a counter in a summary.
pub open spec fn short_name(key: Seq<char>) -> Seq<char> {
    if key == "Reallocated_Sector_Ct"@ {
        "reallocated"@
    } else if key == "Reallocated_Event_Count"@ {
        "reallocated_events"@
    } else if key == "Current_Pending_Sector"@ {
        "pending"@
    } else if key == "Offline_Uncorrectable"@ {
        "offline_uncorrectable"@
    } else if key == "Reported_Uncorrect"@ {
        "reported_uncorrect"@
    } else if key == "UDMA_CRC_Error_Count"@ {
        "crc_errors"@
    } else if key == "Command_Timeout"@ {
        "command_timeouts"@
    } else {
        key
    }
}

proof fn lemma_short_name(key: Seq<char>)
    ensures
        crate::report::counter_label(key) == short_name(key),
{
    crate::laws_smart::law_names_of_counters(key);
    reveal_strlit("Reallocated_Sector_Ct");
    reveal_strlit("Reallocated_Event_Count");
    reveal_strlit("Current_Pending_Sector");
    reveal_strlit("Offline_Uncorrectable");
    reveal_strlit("Reported_Uncorrect");
    reveal_strlit("UDMA_CRC_Error_Count");
    reveal_strlit("Command_Timeout");
    assert("Reallocated_Sector_Ct"@.len() == 21 && "Reallocated_Sector_Ct"@[0] == 'R');
    assert("Reallocated_Event_Count"@.len() == 23);
    assert("Current_Pending_Sector"@.len() == 22);
    assert("Offline_Uncorrectable"@.len() == 21 && "Offline_Uncorrectable"@[0] == 'O');
    assert("Reported_Uncorrect"@.len() == 18);
    assert("UDMA_CRC_Error_Count"@.len() == 20);
    assert("Command_Timeout"@.len() == 15);
}

proof fn lemma_data_in_reasons(d: DiskView, s: SnapshotView, p: Seq<char>)
    requires
        d.snapshot == Some(s),
    ensures
        contains_text(s.reasons(d.hot), p) ==> contains_text(d.reasons(), p),
{
    let a = crate::report::reason_if(
        crate::report::check_word(d.check_status) is Some,
        "smart_check"@,
        crate::report::check_value(d.check_status),
        false,
    );
    let b = d.data_reasons();
    let c = crate::report::reason_if(
        d.smart_error is Some && crate::report::check_word(d.check_status) is None,
        "smart_error"@,
        "yes"@,
        false,
    );
    let e = crate::report::reason_if(
        d.kernel_severity is Some && d.kernel_severity->0 != Severity::Info,
        "kernel_io_errors"@,
        "yes"@,
        false,
    );
    lemma_in_text(a, b, p);
    lemma_in_text(a + b, c, p);
    lemma_in_text(a + b + c, e, p);
}

proof fn lemma_parts_in_data(s: SnapshotView, hot: bool, p: Seq<char>)
    ensures
        contains_text(counter_reasons(ordered(s.counters), s.stale_fields), p) ==> contains_text(
            s.reasons(hot),
            p,
        ),
        contains_text(
            crate::report::reason_if(
                hot,
                "temperature"@,
                crate::report::degrees(s.temperature),
                s.stale_fields.contains("temperature"@),
            ),
            p,
        ) ==> contains_text(s.reasons(hot), p),
        contains_text(s.grave_reasons(), p) ==> contains_text(s.reasons(hot), p),
        contains_text(s.wear_reasons(), p) ==> contains_text(s.reasons(hot), p),
        contains_text(s.past_reasons(), p) ==> contains_text(s.reasons(hot), p),
        contains_text(s.doubt_reasons(), p) ==> contains_text(s.reasons(hot), p),
{
    let a = counter_reasons(ordered(s.counters), s.stale_fields);
    let b = crate::report::reason_if(
        hot,
        "temperature"@,
        crate::report::degrees(s.temperature),
        s.stale_fields.contains("temperature"@),
    );
    lemma_in_text(a, b, p);
    lemma_in_text(a + b, s.grave_reasons(), p);
    lemma_in_text(a + b + s.grave_reasons(), s.wear_reasons(), p);
    lemma_in_text(a + b + s.grave_reasons() + s.wear_reasons(), s.past_reasons(), p);
    lemma_in_text(
        a + b + s.grave_reasons() + s.wear_reasons() + s.past_reasons(),
        s.doubt_reasons(),
        p,
    );
}

proof fn lemma_three(a: Seq<char>, b: Seq<char>, c: Seq<char>, p: Seq<char>)
    ensures
        contains_text(a, p) || contains_text(b, p) || contains_text(c, p) ==> contains_text(
            a + b + c,
            p,
        ),
{
    lemma_in_text(a, b, p);
    lemma_in_text(a + b, c, p);
}

proof fn lemma_four(a: Seq<char>, b: Seq<char>, c: Seq<char>, d: Seq<char>, p: Seq<char>)
    ensures
        contains_text(a, p) || contains_text(b, p) || contains_text(c, p) || contains_text(d, p)
            ==> contains_text(a + b + c + d, p),
{
    lemma_three(a, b, c, p);
    lemma_in_text(a + b + c, d, p);
}

/// A disk that says that it fails, is about to fail, or warns, gives that as a reason.
pub proof fn law_failure_is_a_reason(d: DiskView, s: SnapshotView)
    requires
        d.snapshot == Some(s),
    ensures
        s.passed == Some(false) ==> contains_text(
            d.reasons(),
            reason_line("smart_passed"@, "no"@, s.stale_fields.contains("passed"@)),
        ),
        s.prefailure == Some(true) ==> contains_text(
            d.reasons(),
            reason_line("prefailure"@, "yes"@, s.stale_fields.contains("prefailure"@)),
        ),
        s.critical_warning is Some && s.critical_warning->0 != 0 ==> contains_text(
            d.reasons(),
            reason_line(
                "critical_warning"@,
                decimal(s.critical_warning->0 as nat),
                s.stale_fields.contains("critical_warning"@),
            ),
        ),
{
    let a = crate::report::reason_if(
        s.passed == Some(false),
        "smart_passed"@,
        "no"@,
        s.stale_fields.contains("passed"@),
    );
    let b = crate::report::reason_if(
        s.prefailure == Some(true),
        "prefailure"@,
        "yes"@,
        s.stale_fields.contains("prefailure"@),
    );
    let c = crate::report::reason_if(
        s.warns() == Some(true),
        "critical_warning"@,
        crate::report::number_or_zero(s.critical_warning),
        s.stale_fields.contains("critical_warning"@),
    );
    assert(s.grave_reasons() == a + b + c);
    lemma_reason_line("smart_passed"@, "no"@, s.stale_fields.contains("passed"@));
    lemma_reason_line("prefailure"@, "yes"@, s.stale_fields.contains("prefailure"@));
    lemma_reason_line(
        "critical_warning"@,
        crate::report::number_or_zero(s.critical_warning),
        s.stale_fields.contains("critical_warning"@),
    );
    lemma_in_itself(a);
    lemma_in_itself(b);
    lemma_in_itself(c);
    lemma_three(a, b, c, a);
    lemma_three(a, b, c, b);
    lemma_three(a, b, c, c);
    lemma_parts_in_data(s, d.hot, a);
    lemma_parts_in_data(s, d.hot, b);
    lemma_parts_in_data(s, d.hot, c);
    lemma_data_in_reasons(d, s, a);
    lemma_data_in_reasons(d, s, b);
    lemma_data_in_reasons(d, s, c);
}

/// A failed test, few spare blocks, wear and a short life are reasons.
pub proof fn law_wear_is_a_reason(d: DiskView, s: SnapshotView)
    requires
        d.snapshot == Some(s),
    ensures
        s.self_test_status == Some(SelfTestStatus::Failed) ==> contains_text(
            d.reasons(),
            reason_line("self_test"@, "failed"@, s.stale_fields.contains("self_test_status"@)),
        ),
        s.available_spare is Some && s.spare_threshold is Some && s.available_spare->0
            < s.spare_threshold->0 ==> contains_text(
            d.reasons(),
            reason_line(
                "available_spare"@,
                decimal(s.available_spare->0 as nat),
                s.stale_fields.contains("available_spare"@),
            ),
        ),
        s.percentage_used is Some && s.percentage_used->0 >= 100 ==> contains_text(
            d.reasons(),
            reason_line(
                "percentage_used"@,
                decimal(s.percentage_used->0 as nat),
                s.stale_fields.contains("percentage_used"@),
            ),
        ),
        s.remaining_life is Some && s.remaining_life->0 <= 10 ==> contains_text(
            d.reasons(),
            reason_line(
                "remaining_life"@,
                decimal(s.remaining_life->0 as nat),
                s.stale_fields.contains("remaining_life"@),
            ),
        ),
{
    let a = crate::report::reason_if(
        s.self_test_status == Some(SelfTestStatus::Failed),
        "self_test"@,
        "failed"@,
        s.stale_fields.contains("self_test_status"@),
    );
    let b = crate::report::reason_if(
        s.spare_low() == Some(true),
        "available_spare"@,
        crate::report::number_or_zero(s.available_spare),
        s.stale_fields.contains("available_spare"@),
    );
    let c = crate::report::reason_if(
        s.worn_out() == Some(true),
        "percentage_used"@,
        crate::report::number_or_zero(s.percentage_used),
        s.stale_fields.contains("percentage_used"@),
    );
    let e = crate::report::reason_if(
        s.life_low() == Some(true),
        "remaining_life"@,
        crate::report::number_or_zero(s.remaining_life),
        s.stale_fields.contains("remaining_life"@),
    );
    assert(s.wear_reasons() == a + b + c + e);
    lemma_reason_line("self_test"@, "failed"@, s.stale_fields.contains("self_test_status"@));
    lemma_reason_line(
        "available_spare"@,
        crate::report::number_or_zero(s.available_spare),
        s.stale_fields.contains("available_spare"@),
    );
    lemma_reason_line(
        "percentage_used"@,
        crate::report::number_or_zero(s.percentage_used),
        s.stale_fields.contains("percentage_used"@),
    );
    lemma_reason_line(
        "remaining_life"@,
        crate::report::number_or_zero(s.remaining_life),
        s.stale_fields.contains("remaining_life"@),
    );
    lemma_in_itself(a);
    lemma_in_itself(b);
    lemma_in_itself(c);
    lemma_in_itself(e);
    lemma_four(a, b, c, e, a);
    lemma_four(a, b, c, e, b);
    lemma_four(a, b, c, e, c);
    lemma_four(a, b, c, e, e);
    lemma_parts_in_data(s, d.hot, a);
    lemma_parts_in_data(s, d.hot, b);
    lemma_parts_in_data(s, d.hot, c);
    lemma_parts_in_data(s, d.hot, e);
    lemma_data_in_reasons(d, s, a);
    lemma_data_in_reasons(d, s, b);
    lemma_data_in_reasons(d, s, c);
    lemma_data_in_reasons(d, s, e);
}

/// Trouble in the past is a reason.
pub proof fn law_past_is_a_reason(d: DiskView, s: SnapshotView)
    requires
        d.snapshot == Some(s),
    ensures
        s.exit.past_threshold ==> contains_text(
            d.reasons(),
            reason_line("past_threshold"@, "yes"@, s.stale_fields.contains("past_threshold"@)),
        ),
        s.exit.error_log ==> contains_text(
            d.reasons(),
            reason_line("error_log"@, "yes"@, s.stale_fields.contains("error_log"@)),
        ),
        s.exit.self_test_log ==> contains_text(
            d.reasons(),
            reason_line("self_test_log"@, "yes"@, s.stale_fields.contains("self_test_log"@)),
        ),
{
    let a = crate::report::reason_if(
        s.exit.past_threshold,
        "past_threshold"@,
        "yes"@,
        s.stale_fields.contains("past_threshold"@),
    );
    let b = crate::report::reason_if(
        s.exit.error_log,
        "error_log"@,
        "yes"@,
        s.stale_fields.contains("error_log"@),
    );
    let c = crate::report::reason_if(
        s.exit.self_test_log,
        "self_test_log"@,
        "yes"@,
        s.stale_fields.contains("self_test_log"@),
    );
    assert(s.past_reasons() == a + b + c);
    lemma_reason_line("past_threshold"@, "yes"@, s.stale_fields.contains("past_threshold"@));
    lemma_reason_line("error_log"@, "yes"@, s.stale_fields.contains("error_log"@));
    lemma_reason_line("self_test_log"@, "yes"@, s.stale_fields.contains("self_test_log"@));
    lemma_in_itself(a);
    lemma_in_itself(b);
    lemma_in_itself(c);
    lemma_three(a, b, c, a);
    lemma_three(a, b, c, b);
    lemma_three(a, b, c, c);
    lemma_parts_in_data(s, d.hot, a);
    lemma_parts_in_data(s, d.hot, b);
    lemma_parts_in_data(s, d.hot, c);
    lemma_data_in_reasons(d, s, a);
    lemma_data_in_reasons(d, s, b);
    lemma_data_in_reasons(d, s, c);
}

/// What leaves open how the disk is, and heat, are reasons.
pub proof fn law_doubt_is_a_reason(d: DiskView, s: SnapshotView)
    requires
        d.snapshot == Some(s),
    ensures
        s.passed is None ==> contains_text(
            d.reasons(),
            reason_line("smart_health"@, "unknown"@, false),
        ),
        s.stale_fields != Set::<Seq<char>>::empty() ==> contains_text(
            d.reasons(),
            reason_line("stale_fields"@, "yes"@, false),
        ),
        s.issue is Some ==> contains_text(
            d.reasons(),
            reason_line("smart_data"@, "incomplete"@, false),
        ),
        d.hot && s.temperature is Some ==> contains_text(
            d.reasons(),
            reason_line(
                "temperature"@,
                decimal_signed(s.temperature->0 as int) + "C"@,
                s.stale_fields.contains("temperature"@),
            ),
        ),
        d.hot && s.temperature is None ==> contains_text(
            d.reasons(),
            reason_line("temperature"@, "unknown"@, s.stale_fields.contains("temperature"@)),
        ),
{
    let a = crate::report::reason_if(s.passed is None, "smart_health"@, "unknown"@, false);
    let b = crate::report::reason_if(
        s.stale_fields != Set::<Seq<char>>::empty(),
        "stale_fields"@,
        "yes"@,
        false,
    );
    let c = crate::report::reason_if(s.issue is Some, "smart_data"@, "incomplete"@, false);
    let h = crate::report::reason_if(
        d.hot,
        "temperature"@,
        crate::report::degrees(s.temperature),
        s.stale_fields.contains("temperature"@),
    );
    assert(s.doubt_reasons() == a + b + c);
    lemma_reason_line("smart_health"@, "unknown"@, false);
    lemma_reason_line("stale_fields"@, "yes"@, false);
    lemma_reason_line("smart_data"@, "incomplete"@, false);
    lemma_reason_line(
        "temperature"@,
        crate::report::degrees(s.temperature),
        s.stale_fields.contains("temperature"@),
    );
    lemma_in_itself(a);
    lemma_in_itself(b);
    lemma_in_itself(c);
    lemma_in_itself(h);
    lemma_three(a, b, c, a);
    lemma_three(a, b, c, b);
    lemma_three(a, b, c, c);
    lemma_parts_in_data(s, d.hot, a);
    lemma_parts_in_data(s, d.hot, b);
    lemma_parts_in_data(s, d.hot, c);
    lemma_parts_in_data(s, d.hot, h);
    lemma_data_in_reasons(d, s, a);
    lemma_data_in_reasons(d, s, b);
    lemma_data_in_reasons(d, s, c);
    lemma_data_in_reasons(d, s, h);
}

proof fn lemma_counter_in_reasons(
    listing: Seq<(Seq<char>, u64)>,
    stale: Set<Seq<char>>,
    i: int,
)
    requires
        0 <= i < listing.len(),
        listing[i].1 != 0,
    ensures
        contains_text(
            counter_reasons(listing, stale),
            reason_line(
                escaped_text(short_name(listing[i].0)),
                decimal(listing[i].1 as nat),
                stale.contains(listing[i].0),
            ),
        ),
    decreases listing.len(),
{
    let rest = listing.drop_last();
    let (key, n) = listing.last();
    let x = crate::report::reason_if(
        n != 0,
        escaped_text(crate::report::counter_label(key)),
        decimal(n as nat),
        stale.contains(key),
    );
    let p = reason_line(
        escaped_text(short_name(listing[i].0)),
        decimal(listing[i].1 as nat),
        stale.contains(listing[i].0),
    );
    lemma_in_text(counter_reasons(rest, stale), x, p);
    if i < rest.len() {
        assert(rest[i] == listing[i]);
        lemma_counter_in_reasons(rest, stale, i);
    } else {
        lemma_short_name(key);
        lemma_reason_line(
            escaped_text(crate::report::counter_label(key)),
            decimal(n as nat),
            stale.contains(key),
        );
        lemma_in_itself(p);
    }
}

/// A counter that is not zero is a reason, by its short name.
pub proof fn law_counter_is_a_reason(d: DiskView, s: SnapshotView, key: Seq<char>)
    requires
        d.snapshot == Some(s),
        listable(s.counters),
        s.counters.contains_key(key),
        s.counters[key] != 0,
    ensures
        contains_text(
            d.reasons(),
            reason_line(
                escaped_text(short_name(key)),
                decimal(s.counters[key] as nat),
                s.stale_fields.contains(key),
            ),
        ),
{
    let listing = ordered(s.counters);
    assert(lists(listing, s.counters));
    let i = choose|i: int| 0 <= i < listing.len() && listing[i].0 == key;
    assert(s.counters.contains_key(listing[i].0));
    lemma_counter_in_reasons(listing, s.stale_fields, i);
    let p = reason_line(
        escaped_text(short_name(key)),
        decimal(s.counters[key] as nat),
        s.stale_fields.contains(key),
    );
    lemma_parts_in_data(s, d.hot, p);
    lemma_data_in_reasons(d, s, p);
}

/// What a check that gave no full reading is called.
pub open spec fn name_of_check(status: CheckStatus) -> Seq<char> {
    if status == CheckStatus::Never {
        "not_checked"@
    } else if status == CheckStatus::Partial {
        "partial"@
    } else if status == CheckStatus::Sleeping {
        "skipped_sleeping"@
    } else if status == CheckStatus::Failed {
        "failed"@
    } else if status == CheckStatus::StaleRace {
        "stale_identity_race"@
    } else {
        "disabled"@
    }
}

/// That the last check gave no full reading, that there never was one, an error, and
/// what the kernel reported are reasons.
pub proof fn law_missing_check_is_a_reason(d: DiskView)
    ensures
        d.check_status != CheckStatus::Checked ==> contains_text(
            d.reasons(),
            reason_line("smart_check"@, name_of_check(d.check_status), false),
        ),
        d.snapshot is None ==> contains_text(
            d.reasons(),
            reason_line("smart_data"@, "unavailable"@, false),
        ),
        d.check_status == CheckStatus::Checked && d.smart_error is Some ==> contains_text(
            d.reasons(),
            reason_line("smart_error"@, "yes"@, false),
        ),
        d.kernel_severity == Some(Severity::Warning) || d.kernel_severity == Some(
            Severity::Critical,
        ) ==> contains_text(d.reasons(), reason_line("kernel_io_errors"@, "yes"@, false)),
{
    let a = crate::report::reason_if(
        crate::report::check_word(d.check_status) is Some,
        "smart_check"@,
        crate::report::check_value(d.check_status),
        false,
    );
    let b = d.data_reasons();
    let c = crate::report::reason_if(
        d.smart_error is Some && crate::report::check_word(d.check_status) is None,
        "smart_error"@,
        "yes"@,
        false,
    );
    let e = crate::report::reason_if(
        d.kernel_severity is Some && d.kernel_severity->0 != Severity::Info,
        "kernel_io_errors"@,
        "yes"@,
        false,
    );
    lemma_reason_line("smart_check"@, crate::report::check_value(d.check_status), false);
    lemma_reason_line("smart_data"@, "unavailable"@, false);
    lemma_reason_line("smart_error"@, "yes"@, false);
    lemma_reason_line("kernel_io_errors"@, "yes"@, false);
    lemma_in_itself(a);
    lemma_in_itself(b);
    lemma_in_itself(c);
    lemma_in_itself(e);
    lemma_four(a, b, c, e, a);
    lemma_four(a, b, c, e, b);
    lemma_four(a, b, c, e, c);
    lemma_four(a, b, c, e, e);
}

proof fn lemma_no_counter_reasons(listing: Seq<(Seq<char>, u64)>, stale: Set<Seq<char>>)
    requires
        forall|i: int| 0 <= i < listing.len() ==> (#[trigger] listing[i]).1 == 0,
    ensures
        counter_reasons(listing, stale) == Seq::<char>::empty(),
    decreases listing.len(),
{
    if listing.len() > 0 {
        let rest = listing.drop_last();
        assert(listing[listing.len() - 1].1 == 0);
        assert forall|i: int| 0 <= i < rest.len() implies (#[trigger] rest[i]).1 == 0 by {
            assert(rest[i] == listing[i]);
        }
        lemma_no_counter_reasons(rest, stale);
        assert(counter_reasons(listing, stale) =~= Seq::<char>::empty());
    }
}

/// A disk that is well gives no reason.
pub proof fn law_well_disk_gives_no_reason(d: DiskView)
    requires
        d.health() == "OK"@,
        d.snapshot is Some ==> listable((d.snapshot->0).counters),
    ensures
        d.reasons() == Seq::<char>::empty(),
{
    crate::laws::law_ok_needs_evidence(d);
    law_severity_of_a_disk(d);
    let s = d.snapshot->0;
    let listing = ordered(s.counters);
    assert(lists(listing, s.counters));
    assert forall|i: int| 0 <= i < listing.len() implies (#[trigger] listing[i]).1 == 0 by {
        assert(s.counters.contains_key(listing[i].0));
    }
    lemma_no_counter_reasons(listing, s.stale_fields);
    assert(s.grave_reasons() =~= Seq::<char>::empty());
    assert(s.wear_reasons() =~= Seq::<char>::empty());
    assert(s.past_reasons() =~= Seq::<char>::empty());
    assert(s.doubt_reasons() =~= Seq::<char>::empty());
    assert(s.reasons(d.hot) =~= Seq::<char>::empty());
    assert(d.reasons() =~= Seq::<char>::empty());
}

/// The line, where there is cause for it.
pub open spec fn given(cause: bool, text: Seq<char>) -> Seq<char> {
    if cause {
        text
    } else {
        Seq::empty()
    }
}

proof fn lemma_given(cause: bool, key: Seq<char>, value: Seq<char>, stale: bool)
    ensures
        crate::report::reason_if(cause, key, value, stale) == given(
            cause,
            reason_line(key, value, stale),
        ),
{
    lemma_reason_line(key, value, stale);
}

/// One more counter at the end of a listing is one more reason, unless it is zero.
pub proof fn law_one_more_counter(
    listing: Seq<(Seq<char>, u64)>,
    stale: Set<Seq<char>>,
    key: Seq<char>,
    n: u64,
)
    ensures
        counter_reasons(Seq::empty(), stale) == Seq::<char>::empty(),
        counter_lines(Seq::empty()) == Seq::<char>::empty(),
        counter_reasons(listing.push((key, n)), stale) == counter_reasons(listing, stale) + given(
            n != 0,
            reason_line(escaped_text(short_name(key)), decimal(n as nat), stale.contains(key)),
        ),
        counter_lines(listing.push((key, n))) == counter_lines(listing) + ("  "@ + key + ": "@
            + decimal(n as nat) + "\n"@),
{
    assert(listing.push((key, n)).drop_last() =~= listing);
    assert(listing.push((key, n)).last() == (key, n));
    lemma_short_name(key);
    lemma_given(n != 0, escaped_text(short_name(key)), decimal(n as nat), stale.contains(key));
}

/// All the reasons that the measurements give, in their order.
pub open spec fn told_of(s: SnapshotView, hot: bool) -> Seq<char> {
    let stale = s.stale_fields;
    counter_reasons(ordered(s.counters), stale) + given(
        hot,
        reason_line(
            "temperature"@,
            (if s.temperature is Some {
                decimal_signed(s.temperature->0 as int) + "C"@
            } else {
                "unknown"@
            }),
            stale.contains("temperature"@),
        ),
    ) + (given(
        s.passed == Some(false),
        reason_line("smart_passed"@, "no"@, stale.contains("passed"@)),
    ) + given(
        s.prefailure == Some(true),
        reason_line("prefailure"@, "yes"@, stale.contains("prefailure"@)),
    ) + given(
        s.critical_warning is Some && s.critical_warning->0 != 0,
        reason_line(
            "critical_warning"@,
            decimal(s.critical_warning->0 as nat),
            stale.contains("critical_warning"@),
        ),
    )) + (given(
        s.self_test_status == Some(SelfTestStatus::Failed),
        reason_line("self_test"@, "failed"@, stale.contains("self_test_status"@)),
    ) + given(
        s.available_spare is Some && s.spare_threshold is Some && s.available_spare->0
            < s.spare_threshold->0,
        reason_line(
            "available_spare"@,
            decimal(s.available_spare->0 as nat),
            stale.contains("available_spare"@),
        ),
    ) + given(
        s.percentage_used is Some && s.percentage_used->0 >= 100,
        reason_line(
            "percentage_used"@,
            decimal(s.percentage_used->0 as nat),
            stale.contains("percentage_used"@),
        ),
    ) + given(
        s.remaining_life is Some && s.remaining_life->0 <= 10,
        reason_line(
            "remaining_life"@,
            decimal(s.remaining_life->0 as nat),
            stale.contains("remaining_life"@),
        ),
    )) + (given(
        s.exit.past_threshold,
        reason_line("past_threshold"@, "yes"@, stale.contains("past_threshold"@)),
    ) + given(
        s.exit.error_log,
        reason_line("error_log"@, "yes"@, stale.contains("error_log"@)),
    ) + given(
        s.exit.self_test_log,
        reason_line("self_test_log"@, "yes"@, stale.contains("self_test_log"@)),
    )) + (given(s.passed is None, reason_line("smart_health"@, "unknown"@, false)) + given(
        stale != Set::<Seq<char>>::empty(),
        reason_line("stale_fields"@, "yes"@, false),
    ) + given(s.issue is Some, reason_line("smart_data"@, "incomplete"@, false)))
}

proof fn lemma_told_of(s: SnapshotView, hot: bool)
    ensures
        s.reasons(hot) == told_of(s, hot),
{
    let stale = s.stale_fields;
    lemma_given(
        hot,
        "temperature"@,
        crate::report::degrees(s.temperature),
        stale.contains("temperature"@),
    );
    lemma_given(s.passed == Some(false), "smart_passed"@, "no"@, stale.contains("passed"@));
    lemma_given(s.prefailure == Some(true), "prefailure"@, "yes"@, stale.contains("prefailure"@));
    lemma_given(
        s.warns() == Some(true),
        "critical_warning"@,
        crate::report::number_or_zero(s.critical_warning),
        stale.contains("critical_warning"@),
    );
    lemma_given(
        s.self_test_status == Some(SelfTestStatus::Failed),
        "self_test"@,
        "failed"@,
        stale.contains("self_test_status"@),
    );
    lemma_given(
        s.spare_low() == Some(true),
        "available_spare"@,
        crate::report::number_or_zero(s.available_spare),
        stale.contains("available_spare"@),
    );
    lemma_given(
        s.worn_out() == Some(true),
        "percentage_used"@,
        crate::report::number_or_zero(s.percentage_used),
        stale.contains("percentage_used"@),
    );
    lemma_given(
        s.life_low() == Some(true),
        "remaining_life"@,
        crate::report::number_or_zero(s.remaining_life),
        stale.contains("remaining_life"@),
    );
    lemma_given(
        s.exit.past_threshold,
        "past_threshold"@,
        "yes"@,
        stale.contains("past_threshold"@),
    );
    lemma_given(s.exit.error_log, "error_log"@, "yes"@, stale.contains("error_log"@));
    lemma_given(s.exit.self_test_log, "self_test_log"@, "yes"@, stale.contains("self_test_log"@));
    lemma_given(s.passed is None, "smart_health"@, "unknown"@, false);
    lemma_given(stale != Set::<Seq<char>>::empty(), "stale_fields"@, "yes"@, false);
    lemma_given(s.issue is Some, "smart_data"@, "incomplete"@, false);
}

/// The reasons of a disk are all that there are, each once: how the last check ended,
/// what the measurements say, an error beside a full reading, and the kernel's reports.
pub proof fn law_reasons_are_given_once(d: DiskView)
    ensures
        d.reasons() == given(
            d.check_status != CheckStatus::Checked,
            reason_line("smart_check"@, name_of_check(d.check_status), false),
        ) + (if d.snapshot is Some {
            told_of(d.snapshot->0, d.hot)
        } else {
            reason_line("smart_data"@, "unavailable"@, false)
        }) + given(
            d.check_status == CheckStatus::Checked && d.smart_error is Some,
            reason_line("smart_error"@, "yes"@, false),
        ) + given(
            d.kernel_severity == Some(Severity::Warning) || d.kernel_severity == Some(
                Severity::Critical,
            ),
            reason_line("kernel_io_errors"@, "yes"@, false),
        ),
{
    lemma_given(
        crate::report::check_word(d.check_status) is Some,
        "smart_check"@,
        crate::report::check_value(d.check_status),
        false,
    );
    lemma_reason_line("smart_data"@, "unavailable"@, false);
    lemma_given(
        d.smart_error is Some && crate::report::check_word(d.check_status) is None,
        "smart_error"@,
        "yes"@,
        false,
    );
    lemma_given(
        d.kernel_severity is Some && d.kernel_severity->0 != Severity::Info,
        "kernel_io_errors"@,
        "yes"@,
        false,
    );
    if d.snapshot is Some {
        lemma_told_of(d.snapshot->0, d.hot);
    }
}

// ---------------------------------------------------------------------------
// The summary
// ---------------------------------------------------------------------------

/// The summary is about the disks that are there, in the order of their keys: one more
/// at the end of the list counts exactly if it is present.
pub proof fn law_summary_is_about_present_disks(
    listing: Seq<(Seq<char>, DiskView)>,
    key: Seq<char>,
    d: DiskView,
)
    ensures
        present_disks(Seq::empty()) == Seq::<DiskView>::empty(),
        d.present ==> present_disks(listing.push((key, d))) == present_disks(listing).push(d),
        !d.present ==> present_disks(listing.push((key, d))) == present_disks(listing),
{
    assert(listing.push((key, d)).drop_last() =~= listing);
    assert(listing.push((key, d)).last() == (key, d));
}

/// A disk is counted under its own verdict, and under no other.
pub proof fn law_each_disk_is_counted_once(disks: Seq<DiskView>, d: DiskView, health: Seq<char>)
    ensures
        health_count(Seq::empty(), health) == 0,
        health_count(disks.push(d), health) == health_count(disks, health) + (if d.health()
            == health {
            1nat
        } else {
            0
        }),
{
    assert(disks.push(d).drop_last() =~= disks);
    assert(disks.push(d).last() == d);
}

/// The numbers at the head of a summary.
pub open spec fn head_of_summary(disks: Seq<DiskView>) -> Seq<char> {
    "DISKS: "@ + decimal(disks.len()) + "\n"@ + ("OK: "@ + decimal(health_count(disks, "OK"@))
        + "\n"@) + ("WARNING: "@ + decimal(health_count(disks, "Warning"@)) + "\n"@) + ("CRITICAL: "@
        + decimal(health_count(disks, "Critical"@)) + "\n"@) + ("UNKNOWN: "@ + decimal(
        health_count(disks, "Unknown"@),
    ) + "\n"@)
}

proof fn lemma_upper_words()
    ensures
        uppered("OK"@) + ": "@ == "OK: "@,
        uppered("Warning"@) + ": "@ == "WARNING: "@,
        uppered("Critical"@) + ": "@ == "CRITICAL: "@,
        uppered("Unknown"@) + ": "@ == "UNKNOWN: "@,
{
    reveal_strlit("OK");
    reveal_strlit("Warning");
    reveal_strlit("Critical");
    reveal_strlit("Unknown");
    reveal_strlit(": ");
    reveal_strlit("OK: ");
    reveal_strlit("WARNING: ");
    reveal_strlit("CRITICAL: ");
    reveal_strlit("UNKNOWN: ");
    assert(uppered("OK"@) + ": "@ =~= "OK: "@);
    assert(uppered("Warning"@) + ": "@ =~= "WARNING: "@);
    assert(uppered("Critical"@) + ": "@ =~= "CRITICAL: "@);
    assert(uppered("Unknown"@) + ": "@ =~= "UNKNOWN: "@);
}

/// A summary starts with how many disks there are, and of each verdict. Where all of
/// them are well it says so and nothing else; where there are none it says no more.
pub proof fn law_numbers_come_first(disks: Seq<DiskView>)
    ensures
        crate::text::begins(summary(disks), head_of_summary(disks)),
        disks.len() == 0 ==> summary(disks) == head_of_summary(disks),
        disks.len() > 0 && health_count(disks, "OK"@) == disks.len() ==> summary(disks)
            == head_of_summary(disks) + "\nAll disks OK\n"@,
{
    lemma_upper_words();
    let head = head_of_summary(disks);
    assert(crate::report::counts(disks) == head);
    let rest = (if crate::report::all_well(disks) {
        "\nAll disks OK\n"@
    } else {
        Seq::empty()
    });
    assert(summary(disks) =~= head + (rest + crate::report::section(disks, "Critical"@)
        + crate::report::section(disks, "Warning"@) + crate::report::section(disks, "Unknown"@)));
    assert(summary(disks).take(head.len() as int) =~= head);
    crate::laws::law_counts_add_up(disks);
    if disks.len() == 0 {
        assert(summary(disks) =~= head);
    }
    if disks.len() > 0 && health_count(disks, "OK"@) == disks.len() {
        assert(summary(disks) =~= head + "\nAll disks OK\n"@);
    }
}

/// How many of the disks have the model.
pub open spec fn of_model(disks: Seq<DiskView>, model: Seq<char>) -> nat
    decreases disks.len(),
{
    if disks.len() == 0 {
        0
    } else {
        of_model(disks.skip(1), model) + (if disks[0].device.model == model {
            1nat
        } else {
            0
        })
    }
}

proof fn lemma_of_model(disks: Seq<DiskView>, model: Seq<char>)
    ensures
        of_model(disks, model) == crate::report::model_count(disks, model),
    decreases disks.len(),
{
    if disks.len() == 1 {
        assert(disks.skip(1) =~= Seq::<DiskView>::empty());
        assert(disks.drop_last() =~= Seq::<DiskView>::empty());
        assert(of_model(disks.skip(1), model) == 0);
        assert(crate::report::model_count(disks.drop_last(), model) == 0);
    } else if disks.len() > 1 {
        let front = disks.drop_last();
        let back = disks.skip(1);
        lemma_of_model(front, model);
        lemma_of_model(back, model);
        lemma_of_model(front.skip(1), model);
        assert(back.drop_last() =~= front.skip(1));
        assert(back.last() == disks.last());
        assert(front[0] == disks[0]);
    }
}

/// What a summary says of a disk that is not well: its model and path, its serial number
/// where there are others of the model, and the reasons.
pub open spec fn said_of(d: DiskView, disks: Seq<DiskView>) -> Seq<char> {
    "  "@ + escaped_text(d.device.model) + " "@ + escaped_text(d.device.path) + (if of_model(
        disks,
        d.device.model,
    ) > 1 && d.device.serial.len() > 0 {
        " serial="@ + escaped_text(d.device.serial)
    } else {
        Seq::empty()
    }) + "\n"@ + d.reasons()
}

proof fn lemma_in_blocks(some: Seq<DiskView>, health: Seq<char>, disks: Seq<DiskView>, i: int)
    requires
        0 <= i < some.len(),
        some[i].health() == health,
    ensures
        contains_text(crate::report::blocks(some, health, disks), said_of(some[i], disks)),
        health_count(some, health) > 0,
    decreases some.len(),
{
    let rest = some.drop_last();
    let d = some.last();
    let x = if d.health() == health {
        crate::report::disk_block(d, disks)
    } else {
        Seq::empty()
    };
    lemma_in_text(crate::report::blocks(rest, health, disks), x, said_of(some[i], disks));
    if i < rest.len() {
        assert(rest[i] == some[i]);
        lemma_in_blocks(rest, health, disks, i);
    } else {
        lemma_of_model(disks, d.device.model);
        assert(crate::report::disk_block(d, disks) == said_of(d, disks));
        lemma_in_itself(x);
    }
}

/// One more disk at the end of a list is said once under its own health, and nowhere
/// else.
pub proof fn law_each_disk_is_listed_once(
    some: Seq<DiskView>,
    d: DiskView,
    health: Seq<char>,
    disks: Seq<DiskView>,
)
    ensures
        crate::report::blocks(Seq::empty(), health, disks) == Seq::<char>::empty(),
        crate::report::blocks(some.push(d), health, disks) == crate::report::blocks(
            some,
            health,
            disks,
        ) + given(d.health() == health, said_of(d, disks)),
{
    assert(some.push(d).drop_last() =~= some);
    assert(some.push(d).last() == d);
    lemma_of_model(disks, d.device.model);
    assert(crate::report::disk_block(d, disks) == said_of(d, disks));
}

/// Every disk that is not well is in the summary, with its reasons.
pub proof fn law_unwell_disk_is_listed(disks: Seq<DiskView>, i: int)
    requires
        0 <= i < disks.len(),
        disks[i].health() != "OK"@,
    ensures
        contains_text(summary(disks), said_of(disks[i], disks)),
{
    crate::laws::law_four_verdicts(disks[i]);
    let h = disks[i].health();
    let p = said_of(disks[i], disks);
    lemma_in_blocks(disks, h, disks, i);
    let b = crate::report::blocks(disks, h, disks);
    let front = "\n"@ + uppered(h) + ":\n"@;
    lemma_in_text(front, b, p);
    assert(crate::report::section(disks, h) == front + b);
    let a = crate::report::counts(disks) + (if crate::report::all_well(disks) {
        "\nAll disks OK\n"@
    } else {
        Seq::empty()
    });
    lemma_four(
        a,
        crate::report::section(disks, "Critical"@),
        crate::report::section(disks, "Warning"@),
        crate::report::section(disks, "Unknown"@),
        p,
    );
}

/// The critical disks come first, then those that call for a warning, and then those of
/// which nothing certain is known.
pub proof fn law_order_of_a_summary(disks: Seq<DiskView>)
    ensures
        health_count(disks, "OK"@) < disks.len() ==> summary(disks) == head_of_summary(disks)
            + crate::report::section(disks, "Critical"@) + crate::report::section(
            disks,
            "Warning"@,
        ) + crate::report::section(disks, "Unknown"@),
{
    lemma_upper_words();
    let head = head_of_summary(disks);
    assert(crate::report::counts(disks) == head);
    assert(head + Seq::<char>::empty() =~= head);
}

/// The disks of one health stand together under its name in capitals; where there are
/// none, nothing is said.
pub proof fn law_sections_of_a_summary(disks: Seq<DiskView>, health: Seq<char>)
    ensures
        health_count(disks, health) == 0 ==> crate::report::section(disks, health) == Seq::<
            char,
        >::empty(),
        health_count(disks, health) > 0 ==> crate::text::begins(
            crate::report::section(disks, health),
            "\n"@ + uppered(health) + ":\n"@,
        ),
{
    let front = "\n"@ + uppered(health) + ":\n"@;
    let b = crate::report::blocks(disks, health, disks);
    assert((front + b).take(front.len() as int) =~= front);
}

// ---------------------------------------------------------------------------
// The full report
// ---------------------------------------------------------------------------

proof fn lemma_disk_in_details(listing: Seq<(Seq<char>, DiskView)>, i: int)
    requires
        0 <= i < listing.len(),
    ensures
        contains_text(disks_details(listing), listing[i].1.details()),
    decreases listing.len(),
{
    let rest = listing.drop_last();
    let p = listing[i].1.details();
    lemma_in_text(disks_details(rest), listing.last().1.details(), p);
    if i < rest.len() {
        assert(rest[i] == listing[i]);
        lemma_disk_in_details(rest, i);
    } else {
        lemma_in_itself(p);
    }
}

/// Every disk that is remembered is in the full report, and so are the last events.
pub proof fn law_full_report_has_every_disk(state: StateView, key: Seq<char>)
    requires
        listable(state.disks),
    ensures
        state.disks.contains_key(key) ==> contains_text(
            full_report(state),
            state.disks[key].details(),
        ),
        contains_text(full_report(state), recent_events(state.recent_alerts)),
        (forall|k: Seq<char>| !state.disks.contains_key(k)) ==> contains_text(
            full_report(state),
            "No known physical disks.\n"@,
        ),
{
    let listing = ordered(state.disks);
    assert(lists(listing, state.disks));
    let a = if listing.len() == 0 {
        "No known physical disks.\n"@
    } else {
        Seq::empty()
    };
    let b = disks_details(listing);
    let c = recent_events(state.recent_alerts);
    lemma_in_itself(c);
    lemma_three(a, b, c, c);
    if state.disks.contains_key(key) {
        let i = choose|i: int| 0 <= i < listing.len() && listing[i].0 == key;
        assert(state.disks.contains_key(listing[i].0));
        lemma_disk_in_details(listing, i);
        lemma_three(a, b, c, state.disks[key].details());
    }
    if forall|k: Seq<char>| !state.disks.contains_key(k) {
        if listing.len() > 0 {
            assert(state.disks.contains_key(listing[0].0));
        }
        lemma_in_itself(a);
        lemma_three(a, b, c, a);
    }
}

/// What the full report says of a disk itself: who and where it is, its health, and what
/// is known of the last check, of an error and of the kernel's reports.
pub proof fn law_full_report_of_a_disk(d: DiskView)
    ensures
        ({
            let text = d.details();
            &&& contains_text(text, escaped_text(d.device.model) + "\n"@)
            &&& contains_text(text, "  serial: "@ + escaped_text(d.device.serial) + "\n"@)
            &&& contains_text(text, "  device: "@ + escaped_text(d.device.path) + "\n"@)
            &&& d.present ==> contains_text(text, "  health: "@ + d.health() + "\n"@)
            &&& !d.present ==> contains_text(text, "  last known health: "@ + d.health() + "\n"@)
            &&& contains_text(
                text,
                "  last SMART check (Unix seconds): "@ + option_number(d.checked_at) + "\n"@,
            )
            &&& contains_text(
                text,
                "; last known severity: "@ + severity_text(d.severity()) + "\n"@,
            )
            &&& d.snapshot is None ==> contains_text(text, "  SMART: unavailable / not checked"@)
            &&& d.snapshot matches Some(s) ==> contains_text(text, s.details(d.device.kind))
            &&& d.smart_error matches Some(e) ==> contains_text(
                text,
                "  SMART error (previous snapshot may be stale): "@ + escaped_text(e) + "\n"@,
            )
            &&& d.kernel_last_message matches Some(m) ==> contains_text(
                text,
                "  kernel I/O errors observed (historical, "@ + (option_number(d.kernel_last_seen)
                    + "): "@ + escaped_text(m)) + "\n"@,
            )
        }),
{
    reveal_strlit("");
    let m = ""@ + escaped_text(d.device.model) + "\n"@;
    assert(m =~= escaped_text(d.device.model) + "\n"@);
    let s = "  serial: "@ + escaped_text(d.device.serial) + "\n"@;
    let p = "  device: "@ + escaped_text(d.device.path) + "\n"@;
    let q = "  present: "@ + crate::report::bool_text(d.present) + "\n"@;
    assert(d.name_lines() == m + s + p + q);
    let h = (if d.present {
        "  health: "@
    } else {
        "  last known health: "@
    }) + d.health() + "\n"@;
    let c = "  last SMART check (Unix seconds): "@ + option_number(d.checked_at) + "\n"@;
    let k = "  SMART check: "@ + crate::report::check_name(d.check_status) + ""@;
    let l = "; last known severity: "@ + severity_text(d.severity()) + "\n"@;
    assert(d.verdict_lines() == h + c + k + l);
    lemma_in_itself(m);
    lemma_in_itself(s);
    lemma_in_itself(p);
    lemma_in_itself(h);
    lemma_in_itself(c);
    lemma_in_itself(l);
    lemma_four(m, s, p, q, m);
    lemma_four(m, s, p, q, s);
    lemma_four(m, s, p, q, p);
    lemma_four(h, c, k, l, h);
    lemma_four(h, c, k, l, c);
    lemma_four(h, c, k, l, l);
    lemma_in_details(d, m);
    lemma_in_details(d, s);
    lemma_in_details(d, p);
    lemma_in_details(d, h);
    lemma_in_details(d, c);
    lemma_in_details(d, l);
    lemma_in_itself(d.snapshot_lines());
    lemma_in_details(d, d.snapshot_lines());
    lemma_in_itself(d.error_lines());
    lemma_in_details(d, d.error_lines());
    lemma_in_itself(d.kernel_lines());
    lemma_in_details(d, d.kernel_lines());
    if d.snapshot is None {
        let u = "  SMART: unavailable / not checked"@;
        assert(d.snapshot_lines() =~= u + "\n"@);
        lemma_in_itself(u);
        lemma_in_text(u, "\n"@, u);
        lemma_in_details(d, u);
    }
}

proof fn lemma_in_details(d: DiskView, p: Seq<char>)
    ensures
        contains_text(d.name_lines(), p) || contains_text(d.verdict_lines(), p) || contains_text(
            d.snapshot_lines(),
            p,
        ) || contains_text(d.error_lines(), p) || contains_text(d.kernel_lines(), p)
            ==> contains_text(d.details(), p),
{
    lemma_four(d.name_lines(), d.verdict_lines(), d.snapshot_lines(), d.error_lines(), p);
    lemma_in_text(
        d.name_lines() + d.verdict_lines() + d.snapshot_lines() + d.error_lines(),
        d.kernel_lines(),
        p,
    );
}

proof fn lemma_in_snapshot_details(s: SnapshotView, kind: Kind, p: Seq<char>)
    ensures
        contains_text(s.basic_lines(), p) || contains_text(counter_lines(ordered(s.counters)), p)
            || (kind == Kind::Nvme && contains_text(s.nvme_lines(), p)) || contains_text(
            s.late_lines(),
            p,
        ) ==> contains_text(s.details(kind), p),
{
    let n = if kind == Kind::Nvme {
        s.nvme_lines()
    } else {
        Seq::empty()
    };
    lemma_four(s.open_lines(), s.basic_lines(), counter_lines(ordered(s.counters)), n, p);
    lemma_in_text(
        s.open_lines() + s.basic_lines() + counter_lines(ordered(s.counters)) + n,
        s.late_lines(),
        p,
    );
}

proof fn lemma_counter_in_lines(listing: Seq<(Seq<char>, u64)>, i: int)
    requires
        0 <= i < listing.len(),
    ensures
        contains_text(
            counter_lines(listing),
            "  "@ + listing[i].0 + ": "@ + decimal(listing[i].1 as nat) + "\n"@,
        ),
    decreases listing.len(),
{
    let rest = listing.drop_last();
    let x = "  "@ + listing.last().0 + ": "@ + decimal(listing.last().1 as nat) + "\n"@;
    let p = "  "@ + listing[i].0 + ": "@ + decimal(listing[i].1 as nat) + "\n"@;
    lemma_in_text(counter_lines(rest), x, p);
    if i < rest.len() {
        assert(rest[i] == listing[i]);
        lemma_counter_in_lines(rest, i);
    } else {
        lemma_in_itself(p);
    }
}

/// What the full report says of the measurements of a disk: the verdict, the firmware,
/// the temperature and the hours, each counter, and the self-test; for an NVMe disk its
/// warning bits, spare blocks and wear; and the life that is left, where it is known.
pub proof fn law_full_report_of_measurements(s: SnapshotView, kind: Kind, key: Seq<char>)
    requires
        listable(s.counters),
    ensures
        ({
            let text = s.details(kind);
            &&& contains_text(text, "  SMART overall passed: "@ + option_flag(s.passed) + "\n"@)
            &&& contains_text(text, "  firmware: "@ + escaped_text(s.firmware) + "\n"@)
            &&& contains_text(text, "  temperature: "@ + option_signed(s.temperature) + " C\n"@)
            &&& contains_text(
                text,
                "  power-on hours: "@ + option_number(s.power_on_hours) + "\n"@,
            )
            &&& s.counters.contains_key(key) ==> contains_text(
                text,
                "  "@ + key + ": "@ + decimal(s.counters[key] as nat) + "\n"@,
            )
            &&& kind == Kind::Nvme ==> contains_text(
                text,
                "  critical_warning: "@ + option_number(s.critical_warning) + "\n"@,
            ) && contains_text(
                text,
                "  available_spare: "@ + option_number(s.available_spare) + "\n"@,
            ) && contains_text(
                text,
                "  percentage_used: "@ + option_number(s.percentage_used) + "\n"@,
            )
            &&& s.remaining_life matches Some(n) ==> contains_text(
                text,
                "  remaining life: "@ + decimal(n as nat) + "%\n"@,
            )
            &&& s.self_test matches Some(t) ==> contains_text(
                text,
                "  self-test: "@ + (option_test(s.self_test_status) + ": "@ + escaped_text(t))
                    + "\n"@,
            )
        }),
{
    let a = "  SMART overall passed: "@ + option_flag(s.passed) + "\n"@;
    let b = "  firmware: "@ + escaped_text(s.firmware) + "\n"@;
    let c = "  temperature: "@ + option_signed(s.temperature) + " C\n"@;
    let d = "  power-on hours: "@ + option_number(s.power_on_hours) + "\n"@;
    assert(s.basic_lines() == a + b + c + d);
    lemma_in_itself(a);
    lemma_in_itself(b);
    lemma_in_itself(c);
    lemma_in_itself(d);
    lemma_four(a, b, c, d, a);
    lemma_four(a, b, c, d, b);
    lemma_four(a, b, c, d, c);
    lemma_four(a, b, c, d, d);
    lemma_in_snapshot_details(s, kind, a);
    lemma_in_snapshot_details(s, kind, b);
    lemma_in_snapshot_details(s, kind, c);
    lemma_in_snapshot_details(s, kind, d);
    let e = "  critical_warning: "@ + option_number(s.critical_warning) + "\n"@;
    let f = "  available_spare: "@ + option_number(s.available_spare) + "\n"@;
    let g = "  percentage_used: "@ + option_number(s.percentage_used) + "\n"@;
    assert(s.nvme_lines() == e + f + g);
    lemma_in_itself(e);
    lemma_in_itself(f);
    lemma_in_itself(g);
    lemma_three(e, f, g, e);
    lemma_three(e, f, g, f);
    lemma_three(e, f, g, g);
    lemma_in_snapshot_details(s, kind, e);
    lemma_in_snapshot_details(s, kind, f);
    lemma_in_snapshot_details(s, kind, g);
    let life = match s.remaining_life {
        Some(n) => "  remaining life: "@ + decimal(n as nat) + "%\n"@,
        None => Seq::empty(),
    };
    let test = match s.self_test {
        Some(t) => "  self-test: "@ + (option_test(s.self_test_status) + ": "@ + escaped_text(t))
            + "\n"@,
        None => Seq::empty(),
    };
    assert(s.late_lines() == life + test);
    lemma_in_itself(life);
    lemma_in_itself(test);
    lemma_in_text(life, test, life);
    lemma_in_text(life, test, test);
    lemma_in_snapshot_details(s, kind, life);
    lemma_in_snapshot_details(s, kind, test);
    if s.counters.contains_key(key) {
        let listing = ordered(s.counters);
        assert(lists(listing, s.counters));
        let i = choose|i: int| 0 <= i < listing.len() && listing[i].0 == key;
        assert(s.counters.contains_key(listing[i].0));
        lemma_counter_in_lines(listing, i);
        lemma_in_snapshot_details(
            s,
            kind,
            "  "@ + key + ": "@ + decimal(s.counters[key] as nat) + "\n"@,
        );
    }
}

/// The full report says whether a disk is there and how the last check ended, and names
/// the measurements that are stale and the attributes that are not understood.
pub proof fn law_full_report_of_what_is_open(d: DiskView, s: SnapshotView, kind: Kind)
    requires
        listable(s.unknown_attributes),
    ensures
        d.present ==> contains_text(d.details(), "  present: "@ + "true"@ + "\n"@),
        !d.present ==> contains_text(d.details(), "  present: "@ + "false"@ + "\n"@),
        contains_text(d.details(), "  SMART check: "@ + word_for(d.check_status)),
        s.stale_fields != Set::<Seq<char>>::empty() ==> contains_text(
            s.details(kind),
            "  stale/unknown fields: {"@ + quoted_names(ascending_members(s.stale_fields)) + "}\n"@,
        ),
        (exists|k: Seq<char>| s.unknown_attributes.contains_key(k)) ==> contains_text(
            s.details(kind),
            "  uninterpreted vendor attributes: ["@ + quoted_names(
                Seq::new(
                    ordered(s.unknown_attributes).len(),
                    |i: int| ordered(s.unknown_attributes)[i].0,
                ),
            ) + "]\n"@,
        ),
{
    reveal_strlit("");
    let m = ""@ + escaped_text(d.device.model) + "\n"@;
    let n = "  serial: "@ + escaped_text(d.device.serial) + "\n"@;
    let p = "  device: "@ + escaped_text(d.device.path) + "\n"@;
    let q = "  present: "@ + crate::report::bool_text(d.present) + "\n"@;
    assert(d.name_lines() == m + n + p + q);
    lemma_in_itself(q);
    lemma_four(m, n, p, q, q);
    lemma_in_details(d, q);
    let h = (if d.present {
        "  health: "@
    } else {
        "  last known health: "@
    }) + d.health() + "\n"@;
    let c = "  last SMART check (Unix seconds): "@ + option_number(d.checked_at) + "\n"@;
    let k = "  SMART check: "@ + word_for(d.check_status) + ""@;
    let l = "; last known severity: "@ + severity_text(d.severity()) + "\n"@;
    assert(k =~= "  SMART check: "@ + word_for(d.check_status));
    assert(d.verdict_lines() == h + c + k + l);
    lemma_in_itself(k);
    lemma_four(h, c, k, l, k);
    lemma_in_details(d, k);
    let a = crate::report::line_if(
        s.stale_fields != Set::<Seq<char>>::empty(),
        "  stale/unknown fields: {"@,
        quoted_names(ascending_members(s.stale_fields)),
        "}\n"@,
    );
    let listing = ordered(s.unknown_attributes);
    let b = crate::report::line_if(
        listing.len() > 0,
        "  uninterpreted vendor attributes: ["@,
        quoted_names(crate::report::keys_of(listing)),
        "]\n"@,
    );
    assert(lists(listing, s.unknown_attributes));
    assert(s.open_lines() == a + b);
    lemma_in_itself(a);
    lemma_in_itself(b);
    lemma_in_text(a, b, a);
    lemma_in_text(a, b, b);
    lemma_open_lines_in_details(s, kind, a);
    lemma_open_lines_in_details(s, kind, b);
    if exists|k: Seq<char>| s.unknown_attributes.contains_key(k) {
        let key = choose|k: Seq<char>| s.unknown_attributes.contains_key(k);
        assert(s.unknown_attributes.contains_key(key));
        let i = choose|i: int| 0 <= i < listing.len() && listing[i].0 == key;
        assert(listing.len() > 0);
        assert(crate::report::keys_of(listing) =~= Seq::new(listing.len(), |i: int| listing[i].0));
    }
}

proof fn lemma_open_lines_in_details(s: SnapshotView, kind: Kind, p: Seq<char>)
    ensures
        contains_text(s.open_lines(), p) ==> contains_text(s.details(kind), p),
{
    let n = if kind == Kind::Nvme {
        s.nvme_lines()
    } else {
        Seq::empty()
    };
    lemma_four(s.open_lines(), s.basic_lines(), counter_lines(ordered(s.counters)), n, p);
    lemma_in_text(
        s.open_lines() + s.basic_lines() + counter_lines(ordered(s.counters)) + n,
        s.late_lines(),
        p,
    );
}

/// How the last check ended, in one word.
pub open spec fn word_for(status: CheckStatus) -> Seq<char> {
    if status == CheckStatus::Never {
        "Never"@
    } else if status == CheckStatus::Checked {
        "Checked"@
    } else if status == CheckStatus::Partial {
        "Partial"@
    } else if status == CheckStatus::Sleeping {
        "Sleeping"@
    } else if status == CheckStatus::Failed {
        "Failed"@
    } else if status == CheckStatus::StaleRace {
        "StaleRace"@
    } else {
        "Disabled"@
    }
}

/// Names are listed with a comma between them, each in quotes.
pub proof fn law_lists_of_names(names: Seq<Seq<char>>, name: Seq<char>)
    ensures
        quoted_names(Seq::empty()) == Seq::<char>::empty(),
        names.len() == 0 ==> quoted_names(names.push(name)) == debug_quoted(name),
        names.len() > 0 ==> quoted_names(names.push(name)) == quoted_names(names) + ", "@
            + debug_quoted(name),
{
    assert(names.push(name).drop_last() =~= names);
    assert(names.push(name).last() == name);
}

/// How values that may be missing are shown.
pub proof fn law_words_for_values(
    flag: Option<bool>,
    number: Option<u64>,
    integer: Option<i64>,
    test: Option<SelfTestStatus>,
    text: Option<Seq<char>>,
    severity: Severity,
)
    ensures
        text is None ==> option_text(text) == "None"@,
        text matches Some(t) ==> option_text(text) == "Some("@ + debug_quoted(t) + ")"@,
        severity == Severity::Info ==> severity_text(severity) == "Info"@,
        severity == Severity::Warning ==> severity_text(severity) == "Warning"@,
        severity == Severity::Critical ==> severity_text(severity) == "Critical"@,
        flag is None ==> option_flag(flag) == "None"@,
        flag == Some(true) ==> option_flag(flag) == "Some("@ + "true"@ + ")"@,
        flag == Some(false) ==> option_flag(flag) == "Some("@ + "false"@ + ")"@,
        number is None ==> option_number(number) == "None"@,
        number matches Some(n) ==> option_number(number) == "Some("@ + decimal(n as nat) + ")"@,
        integer is None ==> option_signed(integer) == "None"@,
        integer matches Some(n) ==> option_signed(integer) == "Some("@ + decimal_signed(n as int)
            + ")"@,
        test is None ==> option_test(test) == "None"@,
        test == Some(SelfTestStatus::Passed) ==> option_test(test) == "Some(Passed)"@,
        test == Some(SelfTestStatus::Failed) ==> option_test(test) == "Some(Failed)"@,
        test == Some(SelfTestStatus::Aborted) ==> option_test(test) == "Some(Aborted)"@,
        test == Some(SelfTestStatus::InProgress) ==> option_test(test) == "Some(InProgress)"@,
        test == Some(SelfTestStatus::Unknown) ==> option_test(test) == "Some(Unknown)"@,
{
}

/// One more disk at the end of a listing is one more in the full report, and what the
/// report says of it is who it is, its health, its measurements, the last error and what
/// the kernel reported, each once.
pub proof fn law_full_report_says_each_once(
    listing: Seq<(Seq<char>, DiskView)>,
    key: Seq<char>,
    d: DiskView,
)
    ensures
        disks_details(Seq::empty()) == Seq::<char>::empty(),
        disks_details(listing.push((key, d))) == disks_details(listing) + d.details(),
        d.details() == ((escaped_text(d.device.model) + "\n"@) + ("  serial: "@ + escaped_text(
            d.device.serial,
        ) + "\n"@) + ("  device: "@ + escaped_text(d.device.path) + "\n"@) + ("  present: "@ + (
        if d.present {
            "true"@
        } else {
            "false"@
        }) + "\n"@)) + (((if d.present {
            "  health: "@
        } else {
            "  last known health: "@
        }) + d.health() + "\n"@) + ("  last SMART check (Unix seconds): "@ + option_number(
            d.checked_at,
        ) + "\n"@) + ("  SMART check: "@ + word_for(d.check_status)) + ("; last known severity: "@
            + severity_text(d.severity()) + "\n"@)) + (if d.snapshot is Some {
            (d.snapshot->0).details(d.device.kind)
        } else {
            "  SMART: unavailable / not checked"@ + "\n"@
        }) + given(
            d.smart_error is Some,
            "  SMART error (previous snapshot may be stale): "@ + escaped_text(d.smart_error->0)
                + "\n"@,
        ) + given(
            d.kernel_last_message is Some,
            "  kernel I/O errors observed (historical, "@ + (option_number(d.kernel_last_seen)
                + "): "@ + escaped_text(d.kernel_last_message->0)) + "\n"@,
        ),
{
    assert(listing.push((key, d)).drop_last() =~= listing);
    assert(listing.push((key, d)).last() == (key, d));
    reveal_strlit("");
    assert(""@ + escaped_text(d.device.model) + "\n"@ =~= escaped_text(d.device.model) + "\n"@);
    assert("  SMART check: "@ + word_for(d.check_status) + ""@ =~= "  SMART check: "@ + word_for(
        d.check_status,
    ));
    let u = "  SMART: unavailable / not checked"@;
    assert(u + ""@ + "\n"@ =~= u + "\n"@);
}

/// The newest event comes first, and of them all the newest twenty are shown.
pub proof fn law_newest_event_comes_first(events: Seq<EventView>, e: EventView, n: nat)
    ensures
        recent_events(Seq::empty()) == Seq::<char>::empty(),
        recent_events(events.push(e)) == "Recent events:\n"@ + event_lines(events.push(e), 20),
        event_lines(events, 0) == Seq::<char>::empty(),
        event_lines(Seq::empty(), n) == Seq::<char>::empty(),
        event_lines(events.push(e), n + 1) == ("  "@ + decimal(e.timestamp as nat) + " "@
            + severity_text(e.severity) + " "@ + (if e.disk is Some {
            escaped_text((e.disk->0).path)
        } else {
            "uncorrelated"@
        }) + " "@ + escaped_text(e.message) + "\n"@) + event_lines(events, n),
{
    assert(events.push(e).drop_last() =~= events);
    assert(events.push(e).last() == e);
}

/// The list of devices has a line for each that is not to be left alone, in their order.
pub proof fn law_devices_are_listed(devices: Seq<DeviceView>, d: DeviceView, cfg: ConfigView)
    ensures
        device_lines(Seq::empty(), cfg) == Seq::<char>::empty(),
        cfg.ignore_serials.contains(d.serial) ==> device_lines(devices.push(d), cfg)
            == device_lines(devices, cfg),
        !cfg.ignore_serials.contains(d.serial) ==> device_lines(devices.push(d), cfg)
            == device_lines(devices, cfg) + (escaped_text(d.path) + " "@ + (if d.kind == Kind::Hdd {
            "Hdd"@
        } else if d.kind == Kind::Ssd {
            "Ssd"@
        } else {
            "Nvme"@
        }) + " model="@ + escaped_text(d.model) + " serial="@ + escaped_text(d.serial) + " wwn="@
            + escaped_text(d.wwn) + "\n"@),
{
    assert(devices.push(d).drop_last() =~= devices);
    assert(devices.push(d).last() == d);
    assert(device_lines(devices, cfg) + Seq::<char>::empty() =~= device_lines(devices, cfg));
}

/// The user's desktop is told of an event exactly if it has weight: as urgent if it is
/// critical, and with the disk and the message as plain text.
pub proof fn law_desktop_is_told(e: EventView)
    ensures
        desktop_call(e) is None <==> e.severity == Severity::Info,
        desktop_call(e) matches Some(args) ==> {
            &&& args.len() == 6
            &&& args[0] == "--app-name=disk-watch"@
            &&& args[1] == "--urgency"@
            &&& e.severity == Severity::Critical ==> args[2] == "critical"@
            &&& e.severity == Severity::Warning ==> args[2] == "normal"@
            &&& args[3] == "--"@
            &&& args[4] == "disk-watch: "@ + severity_text(e.severity)
            &&& e.disk is None ==> args[5] == markup_text(
                "Unknown disk"@ + seq!['\n'] + e.message,
            )
            &&& e.disk matches Some(d) ==> args[5] == markup_text(
                d.model + " serial="@ + d.serial + " "@ + d.path + seq!['\n'] + e.message,
            )
        },
{
}

} // verus!
