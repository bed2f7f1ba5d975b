//! What holds of the events that a new report gives rise to: what is told, and that
//! nothing else is.

use crate::alert::{option_number, option_text, EventView, Occasion, Severity};
use crate::config::Temperature;
use crate::devices::Kind;
use crate::smart::{SelfTestStatus, SnapshotView};
use crate::strmap::{listable, ordered};
use crate::text::{decimal, decimal_signed};
use vstd::prelude::*;

verus! {

// ---------------------------------------------------------------------------
// Conditions
// ---------------------------------------------------------------------------

/// The conditions that make a disk critical.
pub open spec fn grave_condition(key: Seq<char>) -> bool {
    key == "overall_health"@ || key == "critical_warning"@ || key == "prefailure"@
}

/// The conditions that call for a warning.
pub open spec fn lesser_condition(key: Seq<char>) -> bool {
    key == "self_test"@ || key == "available_spare"@ || key == "percentage_used"@ || key
        == "remaining_life"@
}

/// Whether a disk is in the condition; `None` where its report does not tell.
pub open spec fn ails(s: SnapshotView, key: Seq<char>) -> Option<bool> {
    if key == "overall_health"@ {
        if s.passed == Some(false) {
            Some(true)
        } else if s.passed == Some(true) {
            Some(false)
        } else {
            None
        }
    } else if key == "critical_warning"@ {
        if s.critical_warning is None {
            None
        } else {
            Some(s.critical_warning != Some(0u64))
        }
    } else if key == "prefailure"@ {
        s.prefailure
    } else if key == "self_test"@ {
        if s.self_test_status == Some(SelfTestStatus::Failed) {
            Some(true)
        } else if s.self_test_status == Some(SelfTestStatus::Passed) {
            Some(false)
        } else {
            None
        }
    } else if key == "available_spare"@ {
        if s.available_spare is None || s.spare_threshold is None {
            None
        } else {
            Some(s.available_spare->0 < s.spare_threshold->0)
        }
    } else if key == "percentage_used"@ {
        if s.percentage_used is None {
            None
        } else {
            Some(s.percentage_used->0 >= 100)
        }
    } else if key == "remaining_life"@ {
        if s.remaining_life is None {
            None
        } else {
            Some(s.remaining_life->0 <= 10)
        }
    } else {
        None
    }
}

/// The disk was in the condition when the earlier report was made.
pub open spec fn ailed(o: Occasion, key: Seq<char>) -> bool {
    o.old is Some && ails(o.old->0, key) == Some(true)
}

/// What the new report says of the condition was measured now.
pub open spec fn measured_now(o: Occasion, key: Seq<char>) -> bool {
    &&& !o.new.stale_fields.contains(key)
    &&& key == "overall_health"@ ==> !o.new.stale_fields.contains("passed"@)
    &&& key == "self_test"@ ==> !o.new.stale_fields.contains("self_test_status"@)
}

/// An event of the occasion.
pub open spec fn told_as(
    o: Occasion,
    severity: Severity,
    category: Seq<char>,
    message: Seq<char>,
) -> EventView {
    EventView { timestamp: o.time, severity, disk: Some(o.device), category, message }
}

proof fn lemma_conditions_differ()
    ensures
        "overall_health"@ != "critical_warning"@,
        "overall_health"@ != "prefailure"@,
        "overall_health"@ != "self_test"@,
        "overall_health"@ != "available_spare"@,
        "overall_health"@ != "percentage_used"@,
        "overall_health"@ != "remaining_life"@,
        "critical_warning"@ != "prefailure"@,
        "critical_warning"@ != "self_test"@,
        "critical_warning"@ != "available_spare"@,
        "critical_warning"@ != "percentage_used"@,
        "critical_warning"@ != "remaining_life"@,
        "prefailure"@ != "self_test"@,
        "prefailure"@ != "available_spare"@,
        "prefailure"@ != "percentage_used"@,
        "prefailure"@ != "remaining_life"@,
        "self_test"@ != "available_spare"@,
        "self_test"@ != "percentage_used"@,
        "self_test"@ != "remaining_life"@,
        "available_spare"@ != "percentage_used"@,
        "available_spare"@ != "remaining_life"@,
        "percentage_used"@ != "remaining_life"@,
{
    reveal_strlit("overall_health");
    reveal_strlit("critical_warning");
    reveal_strlit("prefailure");
    reveal_strlit("self_test");
    reveal_strlit("available_spare");
    reveal_strlit("percentage_used");
    reveal_strlit("remaining_life");
    assert("overall_health"@[0] == 'o');
    assert("critical_warning"@[0] == 'c');
    assert("prefailure"@[0] == 'p' && "prefailure"@.len() == 10);
    assert("self_test"@[0] == 's');
    assert("available_spare"@[0] == 'a');
    assert("percentage_used"@[0] == 'p' && "percentage_used"@.len() == 15);
    assert("remaining_life"@[0] == 'r');
}

proof fn lemma_in_sum(a: Seq<EventView>, b: Seq<EventView>, e: EventView)
    ensures
        (a + b).contains(e) <==> a.contains(e) || b.contains(e),
{
    let c = a + b;
    if a.contains(e) {
        let i = choose|i: int| 0 <= i < a.len() && a[i] == e;
        assert(c[i] == e);
    }
    if b.contains(e) {
        let i = choose|i: int| 0 <= i < b.len() && b[i] == e;
        assert(c[a.len() + i] == e);
    }
    if c.contains(e) {
        let i = choose|i: int| 0 <= i < c.len() && c[i] == e;
        if i < a.len() {
            assert(a[i] == e);
        } else {
            assert(b[i - a.len()] == e);
        }
    }
}

proof fn lemma_alone(x: EventView, e: EventView)
    ensures
        seq![x].contains(e) <==> x == e,
        !Seq::<EventView>::empty().contains(e),
{
    assert(seq![x][0] == x);
}

proof fn lemma_parts(o: Occasion, hot: bool, limits: Temperature, e: EventView)
    ensures
        o.events(hot, limits).contains(e) <==> o.all_counter_events(
            ordered(o.new.counters),
        ).contains(e) || o.grave_condition_events().contains(e)
            || o.lesser_condition_events().contains(e) || o.warning_events().contains(e)
            || o.test_events().contains(e) || o.all_history_events().contains(e)
            || o.temperature_events(hot, limits).contains(e),
{
    let a = o.all_counter_events(ordered(o.new.counters));
    let b = a + o.grave_condition_events();
    let c = b + o.lesser_condition_events();
    let d = c + o.warning_events();
    let f = d + o.test_events();
    let g = f + o.all_history_events();
    lemma_in_sum(a, o.grave_condition_events(), e);
    lemma_in_sum(b, o.lesser_condition_events(), e);
    lemma_in_sum(c, o.warning_events(), e);
    lemma_in_sum(d, o.test_events(), e);
    lemma_in_sum(f, o.all_history_events(), e);
    lemma_in_sum(g, o.temperature_events(hot, limits), e);
}

/// The event tells of the condition `key`, with the given severity if it set in.
spec fn tells_of(o: Occasion, key: Seq<char>, severity: Severity, e: EventView) -> bool {
    &&& measured_now(o, key)
    &&& {
        ||| ails(o.new, key) == Some(true) && !ailed(o, key) && e == told_as(
            o,
            severity,
            key,
            key + ": unhealthy; self-test="@ + option_text(o.new.self_test) + ", NVMe warning="@
                + option_number(o.new.critical_warning),
        )
        ||| ails(o.new, key) == Some(false) && ailed(o, key) && e == told_as(
            o,
            Severity::Info,
            key,
            key + ": returned to normal"@,
        )
    }
}

proof fn lemma_grave_parts(o: Occasion, e: EventView)
    ensures
        o.grave_condition_events().contains(e) <==> tells_of(
            o,
            "overall_health"@,
            Severity::Critical,
            e,
        ) || tells_of(o, "critical_warning"@, Severity::Critical, e) || tells_of(
            o,
            "prefailure"@,
            Severity::Critical,
            e,
        ),
{
    lemma_conditions_differ();
    let p = o.old;
    let n = o.new;
    let a = o.check_events(
        "overall_health"@,
        "passed"@,
        n.says_failing(),
        (if p is Some { p->0.says_failing() } else { None }),
        Severity::Critical,
    );
    let b = o.check_events(
        "critical_warning"@,
        "critical_warning"@,
        n.warns(),
        (if p is Some { p->0.warns() } else { None }),
        Severity::Critical,
    );
    let c = o.check_events(
        "prefailure"@,
        "prefailure"@,
        n.prefailure,
        (if p is Some { p->0.prefailure } else { None }),
        Severity::Critical,
    );
    lemma_in_sum(a, b, e);
    lemma_in_sum(a + b, c, e);
    if a.len() > 0 {
        assert(a =~= seq![a[0]]);
        lemma_alone(a[0], e);
    }
    if b.len() > 0 {
        assert(b =~= seq![b[0]]);
        lemma_alone(b[0], e);
    }
    if c.len() > 0 {
        assert(c =~= seq![c[0]]);
        lemma_alone(c[0], e);
    }
}

proof fn lemma_lesser_parts(o: Occasion, e: EventView)
    ensures
        o.lesser_condition_events().contains(e) <==> tells_of(
            o,
            "self_test"@,
            Severity::Warning,
            e,
        ) || tells_of(o, "available_spare"@, Severity::Warning, e) || tells_of(
            o,
            "percentage_used"@,
            Severity::Warning,
            e,
        ) || tells_of(o, "remaining_life"@, Severity::Warning, e),
{
    lemma_conditions_differ();
    let p = o.old;
    let n = o.new;
    let a = o.check_events(
        "self_test"@,
        "self_test_status"@,
        n.test_failed(),
        (if p is Some { p->0.test_failed() } else { None }),
        Severity::Warning,
    );
    let b = o.check_events(
        "available_spare"@,
        "available_spare"@,
        n.spare_low(),
        (if p is Some { p->0.spare_low() } else { None }),
        Severity::Warning,
    );
    let c = o.check_events(
        "percentage_used"@,
        "percentage_used"@,
        n.worn_out(),
        (if p is Some { p->0.worn_out() } else { None }),
        Severity::Warning,
    );
    let d = o.check_events(
        "remaining_life"@,
        "remaining_life"@,
        n.life_low(),
        (if p is Some { p->0.life_low() } else { None }),
        Severity::Warning,
    );
    lemma_in_sum(a, b, e);
    lemma_in_sum(a + b, c, e);
    lemma_in_sum(a + b + c, d, e);
    if a.len() > 0 {
        assert(a =~= seq![a[0]]);
        lemma_alone(a[0], e);
    }
    if b.len() > 0 {
        assert(b =~= seq![b[0]]);
        lemma_alone(b[0], e);
    }
    if c.len() > 0 {
        assert(c =~= seq![c[0]]);
        lemma_alone(c[0], e);
    }
    if d.len() > 0 {
        assert(d =~= seq![d[0]]);
        lemma_alone(d[0], e);
    }
}

/// A condition that sets in is told, as gravely as it is: a disk that fails, warns or
/// is about to fail is critical; a failed test, spare blocks below the threshold, and a
/// disk that is worn out or near its end call for a warning.
pub proof fn law_onset_is_told(o: Occasion, hot: bool, limits: Temperature, key: Seq<char>)
    requires
        grave_condition(key) || lesser_condition(key),
        measured_now(o, key),
        ails(o.new, key) == Some(true),
        !ailed(o, key),
    ensures
        o.events(hot, limits).contains(
            told_as(
                o,
                (if grave_condition(key) {
                    Severity::Critical
                } else {
                    Severity::Warning
                }),
                key,
                key + ": unhealthy; self-test="@ + option_text(o.new.self_test)
                    + ", NVMe warning="@ + option_number(o.new.critical_warning),
            ),
        ),
{
    lemma_conditions_differ();
    let e = told_as(
        o,
        (if grave_condition(key) {
            Severity::Critical
        } else {
            Severity::Warning
        }),
        key,
        key + ": unhealthy; self-test="@ + option_text(o.new.self_test) + ", NVMe warning="@
            + option_number(o.new.critical_warning),
    );
    lemma_parts(o, hot, limits, e);
    lemma_grave_parts(o, e);
    lemma_lesser_parts(o, e);
    assert(tells_of(o, key, e.severity, e));
}

/// A condition that is over is told, without weight.
pub proof fn law_recovery_is_told(o: Occasion, hot: bool, limits: Temperature, key: Seq<char>)
    requires
        grave_condition(key) || lesser_condition(key),
        measured_now(o, key),
        ails(o.new, key) == Some(false),
        ailed(o, key),
    ensures
        o.events(hot, limits).contains(
            told_as(o, Severity::Info, key, key + ": returned to normal"@),
        ),
{
    lemma_conditions_differ();
    let e = told_as(o, Severity::Info, key, key + ": returned to normal"@);
    lemma_parts(o, hot, limits, e);
    lemma_grave_parts(o, e);
    lemma_lesser_parts(o, e);
    let severity = if grave_condition(key) {
        Severity::Critical
    } else {
        Severity::Warning
    };
    assert(tells_of(o, key, severity, e));
}

// ---------------------------------------------------------------------------
// Counters
// ---------------------------------------------------------------------------

/// The counters that make a disk critical.
pub open spec fn grave_counter(key: Seq<char>) -> bool {
    key == "Current_Pending_Sector"@ || key == "Offline_Uncorrectable"@ || key
        == "Reported_Uncorrect"@ || key == "media_errors"@
}

/// The value of a counter in the earlier report; zero where it had none.
pub open spec fn counted_before(o: Occasion, key: Seq<char>) -> u64 {
    if o.old is Some && o.old->0.counters.contains_key(key) {
        o.old->0.counters[key]
    } else {
        0
    }
}

/// The event tells that a counter, measured now, changed.
pub open spec fn tells_of_counter(o: Occasion, key: Seq<char>, e: EventView) -> bool {
    let before = counted_before(o, key);
    let now = o.new.counters[key];
    let change = decimal(before as nat) + " -> "@ + decimal(now as nat);
    &&& o.new.counters.contains_key(key)
    &&& !o.new.stale_fields.contains(key)
    &&& {
        ||| now > before && e == told_as(
            o,
            (if grave_counter(key) {
                Severity::Critical
            } else {
                Severity::Warning
            }),
            key,
            key + " changed "@ + change,
        )
        ||| now < before && e == told_as(
            o,
            Severity::Info,
            key,
            key + " decreased "@ + change + "; counter reset or recovery"@,
        )
    }
}

proof fn lemma_counter_parts(o: Occasion, listing: Seq<(Seq<char>, u64)>, e: EventView)
    requires
        forall|i: int|
            0 <= i < listing.len() ==> o.new.counters.contains_key((#[trigger] listing[i]).0)
                && o.new.counters[listing[i].0] == listing[i].1,
    ensures
        o.all_counter_events(listing).contains(e) <==> exists|i: int|
            0 <= i < listing.len() && tells_of_counter(o, (#[trigger] listing[i]).0, e),
    decreases listing.len(),
{
    if listing.len() > 0 {
        let rest = listing.drop_last();
        assert forall|i: int| 0 <= i < rest.len() implies o.new.counters.contains_key(
            (#[trigger] rest[i]).0,
        ) && o.new.counters[rest[i].0] == rest[i].1 by {
            assert(rest[i] == listing[i]);
        }
        lemma_counter_parts(o, rest, e);
        let last = listing[listing.len() - 1];
        let x = o.counter_events(last.0, last.1);
        lemma_in_sum(o.all_counter_events(rest), x, e);
        if x.len() > 0 {
            assert(x =~= seq![x[0]]);
            lemma_alone(x[0], e);
        }
        assert(x.contains(e) <==> tells_of_counter(o, last.0, e));
        if exists|i: int| 0 <= i < rest.len() && tells_of_counter(o, (#[trigger] rest[i]).0, e) {
            let i = choose|i: int|
                0 <= i < rest.len() && tells_of_counter(o, (#[trigger] rest[i]).0, e);
            assert(rest[i] == listing[i]);
        }
        if exists|i: int|
            0 <= i < listing.len() && tells_of_counter(o, (#[trigger] listing[i]).0, e) {
            let i = choose|i: int|
                0 <= i < listing.len() && tells_of_counter(o, (#[trigger] listing[i]).0, e);
            if i < rest.len() {
                assert(rest[i] == listing[i]);
            }
        }
    } else {
        assert(!o.all_counter_events(listing).contains(e));
    }
}

/// A counter that changed is told: growth as gravely as the counter is, a decrease
/// without weight.
pub proof fn law_change_of_a_counter_is_told(
    o: Occasion,
    hot: bool,
    limits: Temperature,
    key: Seq<char>,
    e: EventView,
)
    requires
        listable(o.new.counters),
        tells_of_counter(o, key, e),
    ensures
        o.events(hot, limits).contains(e),
{
    let listing = ordered(o.new.counters);
    lemma_parts(o, hot, limits, e);
    lemma_counter_parts(o, listing, e);
    let i = choose|i: int| 0 <= i < listing.len() && (#[trigger] listing[i]).0 == key;
    assert(tells_of_counter(o, listing[i].0, e));
}

// ---------------------------------------------------------------------------
// Warnings, tests, the past
// ---------------------------------------------------------------------------

/// The warning bits of an NVMe disk changed from some to others.
pub open spec fn bits_changed(o: Occasion) -> bool {
    &&& o.old is Some
    &&& ails(o.old->0, "critical_warning"@) == Some(true)
    &&& ails(o.new, "critical_warning"@) == Some(true)
    &&& o.old->0.critical_warning != o.new.critical_warning
}

/// Another self-test than before passed, and none had failed before it.
pub open spec fn another_test_passed(o: Occasion) -> bool {
    &&& o.old is Some
    &&& o.new.self_test_status == Some(SelfTestStatus::Passed)
    &&& o.old->0.self_test_status != Some(SelfTestStatus::Failed)
    &&& o.old->0.self_test != o.new.self_test || o.old->0.self_test_hours != o.new.self_test_hours
}

/// The report speaks of the past as `key` says.
pub open spec fn speaks_of_the_past(s: SnapshotView, key: Seq<char>) -> bool {
    ||| key == "past_threshold"@ && s.exit.past_threshold
    ||| key == "error_log"@ && s.exit.error_log
    ||| key == "self_test_log"@ && s.exit.self_test_log
}

proof fn lemma_past_keys_differ()
    ensures
        "past_threshold"@ != "error_log"@,
        "past_threshold"@ != "self_test_log"@,
        "error_log"@ != "self_test_log"@,
{
    reveal_strlit("past_threshold");
    reveal_strlit("error_log");
    reveal_strlit("self_test_log");
    assert("past_threshold"@[0] == 'p');
    assert("error_log"@[0] == 'e');
    assert("self_test_log"@[0] == 's');
}

/// The event tells that the report speaks of the past as the earlier one did not.
spec fn tells_of_the_past(o: Occasion, key: Seq<char>, e: EventView) -> bool {
    &&& speaks_of_the_past(o.new, key)
    &&& o.old is None || !speaks_of_the_past(o.old->0, key)
    &&& e == told_as(o, Severity::Warning, key, "SMART historical indication: "@ + key)
}

proof fn lemma_past_parts(o: Occasion, e: EventView)
    ensures
        o.all_history_events().contains(e) <==> tells_of_the_past(o, "past_threshold"@, e)
            || tells_of_the_past(o, "error_log"@, e) || tells_of_the_past(o, "self_test_log"@, e),
{
    lemma_past_keys_differ();
    let p = o.old;
    let n = o.new.exit;
    let a = o.history_events(
        "past_threshold"@,
        n.past_threshold,
        p is Some && p->0.exit.past_threshold,
    );
    let b = o.history_events("error_log"@, n.error_log, p is Some && p->0.exit.error_log);
    let c = o.history_events(
        "self_test_log"@,
        n.self_test_log,
        p is Some && p->0.exit.self_test_log,
    );
    lemma_in_sum(a, b, e);
    lemma_in_sum(a + b, c, e);
    if a.len() > 0 {
        assert(a =~= seq![a[0]]);
        lemma_alone(a[0], e);
    }
    if b.len() > 0 {
        assert(b =~= seq![b[0]]);
        lemma_alone(b[0], e);
    }
    if c.len() > 0 {
        assert(c =~= seq![c[0]]);
        lemma_alone(c[0], e);
    }
}

/// Other warning bits than before, another self-test that passed, and each sign of the
/// past that was not there before are told.
pub proof fn law_further_changes_are_told(
    o: Occasion,
    hot: bool,
    limits: Temperature,
    key: Seq<char>,
)
    ensures
        bits_changed(o) ==> o.events(hot, limits).contains(
            told_as(
                o,
                Severity::Critical,
                "critical_warning"@,
                "NVMe critical warning changed to "@ + option_number(o.new.critical_warning),
            ),
        ),
        another_test_passed(o) ==> o.events(hot, limits).contains(
            told_as(o, Severity::Info, "self_test"@, "self-test completed successfully"@),
        ),
        speaks_of_the_past(o.new, key) && (o.old is None || !speaks_of_the_past(o.old->0, key))
            ==> o.events(hot, limits).contains(
            told_as(o, Severity::Warning, key, "SMART historical indication: "@ + key),
        ),
{
    lemma_conditions_differ();
    let a = told_as(
        o,
        Severity::Critical,
        "critical_warning"@,
        "NVMe critical warning changed to "@ + option_number(o.new.critical_warning),
    );
    let b = told_as(o, Severity::Info, "self_test"@, "self-test completed successfully"@);
    let c = told_as(o, Severity::Warning, key, "SMART historical indication: "@ + key);
    lemma_parts(o, hot, limits, a);
    lemma_parts(o, hot, limits, b);
    lemma_parts(o, hot, limits, c);
    lemma_past_parts(o, c);
    lemma_alone(a, a);
    lemma_alone(b, b);
}

// ---------------------------------------------------------------------------
// Temperature
// ---------------------------------------------------------------------------

/// The temperature from which a disk of the kind is hot.
pub open spec fn limit_of(kind: Kind, limits: Temperature) -> i64 {
    if kind == Kind::Nvme {
        limits.nvme_warning
    } else if kind == Kind::Ssd {
        limits.ssd_warning
    } else {
        limits.hdd_warning
    }
}

/// The temperature is told when a disk that was not hot reaches the limit of its kind,
/// and when a hot one is down to the limit less the hysteresis.
pub proof fn law_heat_is_told(o: Occasion, hot: bool, limits: Temperature, t: i64)
    requires
        o.new.temperature == Some(t),
        !o.new.stale_fields.contains("temperature"@),
    ensures
        !hot && t >= limit_of(o.device.kind, limits) ==> o.events(hot, limits).contains(
            told_as(
                o,
                Severity::Warning,
                "temperature"@,
                "temperature "@ + decimal_signed(t as int) + " C >= "@ + decimal_signed(
                    limit_of(o.device.kind, limits) as int,
                ) + " C"@,
            ),
        ),
        hot && t <= limit_of(o.device.kind, limits) - limits.hysteresis ==> o.events(
            hot,
            limits,
        ).contains(
            told_as(
                o,
                Severity::Info,
                "temperature"@,
                "temperature recovered: "@ + decimal_signed(t as int) + " C"@,
            ),
        ),
{
    let a = told_as(
        o,
        Severity::Warning,
        "temperature"@,
        "temperature "@ + decimal_signed(t as int) + " C >= "@ + decimal_signed(
            limit_of(o.device.kind, limits) as int,
        ) + " C"@,
    );
    let b = told_as(
        o,
        Severity::Info,
        "temperature"@,
        "temperature recovered: "@ + decimal_signed(t as int) + " C"@,
    );
    lemma_parts(o, hot, limits, a);
    lemma_parts(o, hot, limits, b);
    lemma_alone(a, a);
    lemma_alone(b, b);
}

// ---------------------------------------------------------------------------
// Nothing else
// ---------------------------------------------------------------------------

/// The event tells of a condition that set in or is over.
pub open spec fn tells_of_condition(o: Occasion, e: EventView) -> bool {
    &&& grave_condition(e.category) || lesser_condition(e.category)
    &&& measured_now(o, e.category)
    &&& {
        ||| ails(o.new, e.category) == Some(true) && !ailed(o, e.category) && e.severity == (
        if grave_condition(e.category) {
            Severity::Critical
        } else {
            Severity::Warning
        })
        ||| ails(o.new, e.category) == Some(false) && ailed(o, e.category) && e.severity
            == Severity::Info
    }
}

/// The event tells that the disk became hot or is no longer so.
pub open spec fn tells_of_heat(o: Occasion, hot: bool, limits: Temperature, e: EventView) -> bool {
    &&& e.category == "temperature"@
    &&& o.new.temperature is Some
    &&& !o.new.stale_fields.contains("temperature"@)
    &&& {
        ||| !hot && o.new.temperature->0 >= limit_of(o.device.kind, limits) && e.severity
            == Severity::Warning
        ||| hot && o.new.temperature->0 <= limit_of(o.device.kind, limits) - limits.hysteresis
            && e.severity == Severity::Info
    }
}

/// Nothing is told without a reason: each event is of the time and the disk of the
/// report, and tells of a counter that changed, a condition that set in or is over,
/// other warning bits, another test that passed, a new sign of the past, or the
/// temperature.
pub proof fn law_nothing_else_is_told(
    o: Occasion,
    hot: bool,
    limits: Temperature,
    e: EventView,
)
    requires
        listable(o.new.counters),
        o.events(hot, limits).contains(e),
    ensures
        e.timestamp == o.time,
        e.disk == Some(o.device),
        tells_of_counter(o, e.category, e) || tells_of_condition(o, e) || (bits_changed(o)
            && e.category == "critical_warning"@ && e.severity == Severity::Critical) || (
        another_test_passed(o) && e.category == "self_test"@ && e.severity == Severity::Info) || (
        speaks_of_the_past(o.new, e.category) && !(o.old is Some && speaks_of_the_past(
            o.old->0,
            e.category,
        )) && e.severity == Severity::Warning) || tells_of_heat(o, hot, limits, e),
{
    let listing = ordered(o.new.counters);
    assert forall|i: int| 0 <= i < listing.len() implies o.new.counters.contains_key(
        (#[trigger] listing[i]).0,
    ) && o.new.counters[listing[i].0] == listing[i].1 by {
        assert(o.new.counters.contains_key(listing[i].0));
    }
    lemma_conditions_differ();
    lemma_past_keys_differ();
    lemma_parts(o, hot, limits, e);
    lemma_counter_parts(o, listing, e);
    lemma_grave_parts(o, e);
    lemma_lesser_parts(o, e);
    lemma_past_parts(o, e);
    if o.all_counter_events(listing).contains(e) {
        let i = choose|i: int|
            0 <= i < listing.len() && tells_of_counter(o, (#[trigger] listing[i]).0, e);
        assert(e.category == listing[i].0);
    }
    if o.warning_events().contains(e) {
        assert(o.warning_events().len() == 1);
        assert(o.warning_events() =~= seq![o.warning_events()[0]]);
        lemma_alone(o.warning_events()[0], e);
    }
    if o.test_events().contains(e) {
        assert(o.test_events() =~= seq![o.test_events()[0]]);
        lemma_alone(o.test_events()[0], e);
    }
    let t = o.temperature_events(hot, limits);
    if t.contains(e) {
        assert(t =~= seq![t[0]]);
        lemma_alone(t[0], e);
    }
}

// ---------------------------------------------------------------------------
// Once
// ---------------------------------------------------------------------------

/// One where it is so, and none where it is not.
pub open spec fn once(so: bool) -> nat {
    if so {
        1
    } else {
        0
    }
}

/// How many counters of a listing, measured now, changed.
pub open spec fn changed(o: Occasion, listing: Seq<(Seq<char>, u64)>) -> nat
    decreases listing.len(),
{
    if listing.len() == 0 {
        0
    } else {
        changed(o, listing.drop_last()) + once(
            !o.new.stale_fields.contains(listing.last().0) && listing.last().1 != counted_before(
                o,
                listing.last().0,
            ),
        )
    }
}

/// A condition set in, or is over.
pub open spec fn turned(o: Occasion, key: Seq<char>) -> bool {
    measured_now(o, key) && ((ails(o.new, key) == Some(true) && !ailed(o, key)) || (ails(o.new, key)
        == Some(false) && ailed(o, key)))
}

/// The report speaks of the past as the earlier one did not.
pub open spec fn speaks_anew(o: Occasion, key: Seq<char>) -> bool {
    speaks_of_the_past(o.new, key) && !(o.old is Some && speaks_of_the_past(o.old->0, key))
}

/// The disk became hot, or is no longer so.
pub open spec fn heat_turned(o: Occasion, hot: bool, limits: Temperature) -> bool {
    &&& o.new.temperature is Some
    &&& !o.new.stale_fields.contains("temperature"@)
    &&& if hot {
        o.new.temperature->0 <= limit_of(o.device.kind, limits) - limits.hysteresis
    } else {
        o.new.temperature->0 >= limit_of(o.device.kind, limits)
    }
}

proof fn lemma_changed(o: Occasion, listing: Seq<(Seq<char>, u64)>)
    ensures
        o.all_counter_events(listing).len() == changed(o, listing),
    decreases listing.len(),
{
    if listing.len() > 0 {
        lemma_changed(o, listing.drop_last());
    }
}

proof fn lemma_grave_once(o: Occasion)
    ensures
        o.grave_condition_events().len() == once(turned(o, "overall_health"@)) + once(
            turned(o, "critical_warning"@),
        ) + once(turned(o, "prefailure"@)),
{
    lemma_conditions_differ();
    let p = o.old;
    let n = o.new;
    let a = o.check_events(
        "overall_health"@,
        "passed"@,
        n.says_failing(),
        (if p is Some { p->0.says_failing() } else { None }),
        Severity::Critical,
    );
    let b = o.check_events(
        "critical_warning"@,
        "critical_warning"@,
        n.warns(),
        (if p is Some { p->0.warns() } else { None }),
        Severity::Critical,
    );
    let c = o.check_events(
        "prefailure"@,
        "prefailure"@,
        n.prefailure,
        (if p is Some { p->0.prefailure } else { None }),
        Severity::Critical,
    );
    assert(o.grave_condition_events() == a + b + c);
    assert(a.len() == once(turned(o, "overall_health"@)));
    assert(b.len() == once(turned(o, "critical_warning"@)));
    assert(c.len() == once(turned(o, "prefailure"@)));
}

proof fn lemma_lesser_once(o: Occasion)
    ensures
        o.lesser_condition_events().len() == once(turned(o, "self_test"@)) + once(
            turned(o, "available_spare"@),
        ) + once(turned(o, "percentage_used"@)) + once(turned(o, "remaining_life"@)),
{
    lemma_conditions_differ();
    let p = o.old;
    let n = o.new;
    let a = o.check_events(
        "self_test"@,
        "self_test_status"@,
        n.test_failed(),
        (if p is Some { p->0.test_failed() } else { None }),
        Severity::Warning,
    );
    let b = o.check_events(
        "available_spare"@,
        "available_spare"@,
        n.spare_low(),
        (if p is Some { p->0.spare_low() } else { None }),
        Severity::Warning,
    );
    let c = o.check_events(
        "percentage_used"@,
        "percentage_used"@,
        n.worn_out(),
        (if p is Some { p->0.worn_out() } else { None }),
        Severity::Warning,
    );
    let d = o.check_events(
        "remaining_life"@,
        "remaining_life"@,
        n.life_low(),
        (if p is Some { p->0.life_low() } else { None }),
        Severity::Warning,
    );
    assert(o.lesser_condition_events() == a + b + c + d);
    assert(a.len() == once(turned(o, "self_test"@)));
    assert(b.len() == once(turned(o, "available_spare"@)));
    assert(c.len() == once(turned(o, "percentage_used"@)));
    assert(d.len() == once(turned(o, "remaining_life"@)));
}

proof fn lemma_others_once(o: Occasion, hot: bool, limits: Temperature)
    ensures
        o.warning_events().len() == once(bits_changed(o)),
        o.test_events().len() == once(another_test_passed(o)),
        o.all_history_events().len() == once(speaks_anew(o, "past_threshold"@)) + once(
            speaks_anew(o, "error_log"@),
        ) + once(speaks_anew(o, "self_test_log"@)),
        o.temperature_events(hot, limits).len() == once(heat_turned(o, hot, limits)),
{
    lemma_conditions_differ();
    lemma_past_keys_differ();
}

/// Each change is told once: there are as many events as changes.
pub proof fn law_each_change_is_told_once(o: Occasion, hot: bool, limits: Temperature)
    ensures
        o.events(hot, limits).len() == changed(o, ordered(o.new.counters)) + once(
            turned(o, "overall_health"@),
        ) + once(turned(o, "critical_warning"@)) + once(turned(o, "prefailure"@)) + once(
            turned(o, "self_test"@),
        ) + once(turned(o, "available_spare"@)) + once(turned(o, "percentage_used"@)) + once(
            turned(o, "remaining_life"@),
        ) + once(bits_changed(o)) + once(another_test_passed(o)) + once(
            speaks_anew(o, "past_threshold"@),
        ) + once(speaks_anew(o, "error_log"@)) + once(speaks_anew(o, "self_test_log"@)) + once(
            heat_turned(o, hot, limits),
        ),
{
    lemma_changed(o, ordered(o.new.counters));
    lemma_grave_once(o);
    lemma_lesser_once(o);
    lemma_others_once(o, hot, limits);
    lemma_length(
        o.all_counter_events(ordered(o.new.counters)),
        o.grave_condition_events(),
        o.lesser_condition_events(),
        o.warning_events(),
        o.test_events(),
        o.all_history_events(),
        o.temperature_events(hot, limits),
    );
}

proof fn lemma_length(
    a: Seq<EventView>,
    b: Seq<EventView>,
    c: Seq<EventView>,
    d: Seq<EventView>,
    e: Seq<EventView>,
    f: Seq<EventView>,
    g: Seq<EventView>,
)
    ensures
        (a + b + c + d + e + f + g).len() == a.len() + b.len() + c.len() + d.len() + e.len()
            + f.len() + g.len(),
{
}

/// Whether the disk is hot afterwards: it turns exactly where that is told, and not
/// otherwise.
pub proof fn law_heat_turns_as_told(o: Occasion, hot: bool, limits: Temperature)
    ensures
        o.hot_after(hot, limits) == (if heat_turned(o, hot, limits) {
            !hot
        } else {
            hot
        }),
{
}

} // verus!
