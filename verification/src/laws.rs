//! What holds of the library as a whole.

use crate::alert::{as_grave, severity_of_counter, warning_limit, EventView, Occasion, Severity};
use crate::config::{watched, ConfigView, Temperature};
use crate::devices::{
    inventory, known_wwn, listed_devices, physical, row_target, with_row, wwn_digits, DeviceView,
    Kind,
};
use crate::json::{decoded, named, JsonView};
use crate::kernel::{
    all_named, all_spoken_of, ascribed, classified, explicit_names, goes_by_all,
    speaks_of_storage, spoken_of, words, RecordView,
};
use crate::monitor::{
    completed, disk_progress, filled, first_same_disk, identity_progress, inventory_events,
    kernel_event, notice, recalled, rekeyed, verdict, watched_keys, with_all_found,
    without_vanished, NoticeView,
};
use crate::report::health_count;
use crate::smart::{
    attribute_rows, attributes, exit_status, incomplete, interpreted, mismatch, normal_wwn,
    outcome, parsed, passed_over, sleeping, ReadingView, SmartErrorView, SnapshotView,
};
use crate::state::{
    document_version, empty_state, notice_key, orphaned, orphaned_keys, owned_disks, upgraded,
    upgraded_disks, upgraded_snapshot, with_member, without_member, CheckStatus, DiskView, StateView,
};
use crate::strmap::{lemma_listable, listable, lists, ordered};
use crate::text::{
    all_digits, before, decimal, digit, digits_value, escaped_char, escaped_text, hex, lowered,
    markup_char, markup_text, trim_end, trim_start, trimmed, white,
};
use vstd::prelude::*;
use vstd::utf8::encode_utf8;

verus! {

// ---------------------------------------------------------------------------
// The verdict on a disk
// ---------------------------------------------------------------------------

proof fn lemma_verdict_words_differ()
    ensures
        "OK"@ != "Warning"@,
        "OK"@ != "Critical"@,
        "OK"@ != "Unknown"@,
        "Warning"@ != "Critical"@,
        "Warning"@ != "Unknown"@,
        "Critical"@ != "Unknown"@,
{
    reveal_strlit("OK");
    reveal_strlit("Warning");
    reveal_strlit("Critical");
    reveal_strlit("Unknown");
    assert("OK"@.len() == 2);
    assert("Warning"@[0] == 'W');
    assert("Critical"@[0] == 'C');
    assert("Unknown"@[0] == 'U');
}

/// A disk is well only on evidence: its last check gave a complete reading of now,
/// the disk says that it passed, and nothing known of it is worth a warning.
pub proof fn law_ok_needs_evidence(d: DiskView)
    requires
        d.health() == "OK"@,
    ensures
        d.check_status == CheckStatus::Checked,
        d.snapshot is Some,
        d.snapshot->0.passed == Some(true),
        d.snapshot->0.issue is None,
        d.snapshot->0.stale_fields == Set::<Seq<char>>::empty(),
        d.severity() == Severity::Info,
{
    lemma_verdict_words_differ();
}

/// What the kernel reported as critical makes the disk critical, whatever SMART says.
pub proof fn law_kernel_critical_outweighs_smart(d: DiskView)
    requires
        d.kernel_severity == Some(Severity::Critical),
    ensures
        d.health() == "Critical"@,
        d.severity() == Severity::Critical,
{
}

/// A disk that says of itself, now, that it fails is critical, even where the rest
/// of the report could not be read.
pub proof fn law_failing_disk_is_critical(d: DiskView)
    requires
        d.check_status == CheckStatus::Checked || d.check_status == CheckStatus::Partial,
        d.snapshot is Some,
        d.snapshot->0.passed == Some(false),
        !d.snapshot->0.stale_fields.contains("passed"@),
    ensures
        d.health() == "Critical"@,
{
}

/// A disk that was not read in full, and of which nothing says that it fails, is
/// neither well nor in need of a warning: its health is unknown.
pub proof fn law_unread_disk_is_unknown(d: DiskView)
    requires
        d.check_status != CheckStatus::Checked,
        d.kernel_severity != Some(Severity::Critical),
        !d.freshly_critical(),
    ensures
        d.health() == "Unknown"@,
{
}

/// Every disk gets one of four verdicts.
pub proof fn law_four_verdicts(d: DiskView)
    ensures
        d.health() == "OK"@ || d.health() == "Warning"@ || d.health() == "Critical"@ || d.health()
            == "Unknown"@,
{
}

/// The numbers of the summary add up to the number of disks.
pub proof fn law_counts_add_up(disks: Seq<DiskView>)
    ensures
        health_count(disks, "OK"@) + health_count(disks, "Warning"@) + health_count(
            disks,
            "Critical"@,
        ) + health_count(disks, "Unknown"@) == disks.len(),
    decreases disks.len(),
{
    lemma_verdict_words_differ();
    if disks.len() > 0 {
        law_counts_add_up(disks.drop_last());
        law_four_verdicts(disks.last());
    }
}

// ---------------------------------------------------------------------------
// Readings
// ---------------------------------------------------------------------------

/// No reading touches what the kernel reported of a disk.
pub proof fn law_reading_keeps_kernel_history(
    e: DiskView,
    result: Result<ReadingView, Seq<char>>,
    cfg: ConfigView,
    current: Option<u64>,
    time: u64,
)
    ensures
        ({
            let d = verdict(e, result, cfg, current, time).disk;
            &&& d.kernel_severity == e.kernel_severity
            &&& d.kernel_last_message == e.kernel_last_message
            &&& d.kernel_last_seen == e.kernel_last_seen
        }),
{
}

/// A disk that the kernel reported as critical is critical after any reading.
pub proof fn law_good_smart_clears_nothing(
    e: DiskView,
    result: Result<ReadingView, Seq<char>>,
    cfg: ConfigView,
    current: Option<u64>,
    time: u64,
)
    requires
        e.kernel_severity == Some(Severity::Critical),
    ensures
        verdict(e, result, cfg, current, time).disk.health() == "Critical"@,
{
    law_reading_keeps_kernel_history(e, result, cfg, current, time);
}

/// A disk that sleeps, cannot be read, or turns out to be another one keeps its
/// measurements and the time of its last full reading.
pub proof fn law_missed_reading_keeps_measurements(
    e: DiskView,
    result: Result<ReadingView, Seq<char>>,
    cfg: ConfigView,
    current: Option<u64>,
    time: u64,
)
    ensures
        ({
            let d = verdict(e, result, cfg, current, time).disk;
            (d.check_status == CheckStatus::Sleeping || d.check_status == CheckStatus::Failed
                || d.check_status == CheckStatus::StaleRace) ==> d.snapshot == e.snapshot
                && d.checked_at == e.checked_at && d.hot == e.hot
        }),
{
}

/// A reading that is that of another disk is not recorded, and it makes the device
/// doubtful.
pub proof fn law_foreign_reading_is_refused(
    e: DiskView,
    s: SnapshotView,
    cfg: ConfigView,
    current: Option<u64>,
    time: u64,
)
    requires
        mismatch(e.device, s) is Some || (e.device.diskseq is Some && current != e.device.diskseq),
    ensures
        ({
            let v = verdict(e, Ok(ReadingView::Checked(s)), cfg, current, time);
            &&& v.disk.snapshot == e.snapshot
            &&& v.disk.check_status == CheckStatus::StaleRace
            &&& v.disk.smart_error is Some
            &&& v.race
        }),
{
}

/// Measurements that were stored for another disk are neither carried on nor compared
/// with.
pub proof fn law_foreign_history_is_dropped(
    e: DiskView,
    s: SnapshotView,
    cfg: ConfigView,
    current: Option<u64>,
    time: u64,
)
    requires
        mismatch(e.device, s) is None,
        e.device.diskseq is None || current == e.device.diskseq,
        e.snapshot is Some,
        mismatch(e.device, e.snapshot->0) is Some,
    ensures
        ({
            let v = verdict(e, Ok(ReadingView::Checked(s)), cfg, current, time);
            let first = verdict(
                DiskView { snapshot: None, checked_at: None, hot: false, smart_error: None, ..e },
                Ok(ReadingView::Checked(s)),
                cfg,
                current,
                time,
            );
            &&& v.disk.snapshot == Some(s)
            &&& v == first
        }),
{
}

// ---------------------------------------------------------------------------
// Alerts
// ---------------------------------------------------------------------------

/// A temperature between the two limits changes nothing and tells nothing.
pub proof fn law_hysteresis(o: Occasion, hot: bool, limits: Temperature)
    requires
        o.fresh_temperature() is Some,
        warning_limit(o.device.kind, limits) - limits.hysteresis < o.fresh_temperature()->0
            < warning_limit(o.device.kind, limits),
    ensures
        o.hot_after(hot, limits) == hot,
        o.temperature_events(hot, limits) == Seq::<EventView>::empty(),
{
}

/// A disk turns hot at the limit, cool at the limit less the hysteresis, and each
/// turn is told once.
pub proof fn law_temperature_turns(o: Occasion, hot: bool, limits: Temperature)
    requires
        o.fresh_temperature() is Some,
    ensures
        !hot && o.fresh_temperature()->0 >= warning_limit(o.device.kind, limits) <==> (o.hot_after(
            hot,
            limits,
        ) && !hot),
        hot && o.fresh_temperature()->0 <= warning_limit(o.device.kind, limits) - limits.hysteresis
            <==> (!o.hot_after(hot, limits) && hot),
        o.temperature_events(hot, limits).len() == (if o.hot_after(hot, limits) != hot {
            1nat
        } else {
            0
        }),
{
}

proof fn lemma_no_counter_events(o: Occasion, listing: Seq<(Seq<char>, u64)>)
    requires
        forall|i: int|
            0 <= i < listing.len() ==> o.counter_events(
                (#[trigger] listing[i]).0,
                listing[i].1,
            ) == Seq::<EventView>::empty(),
    ensures
        o.all_counter_events(listing) == Seq::<EventView>::empty(),
    decreases listing.len(),
{
    if listing.len() > 0 {
        assert(listing.last() == listing[listing.len() - 1]);
        assert forall|i: int| 0 <= i < listing.drop_last().len() implies o.counter_events(
            (#[trigger] listing.drop_last()[i]).0,
            listing.drop_last()[i].1,
        ) == Seq::<EventView>::empty() by {
            assert(listing.drop_last()[i] == listing[i]);
        }
        lemma_no_counter_events(o, listing.drop_last());
        assert(o.all_counter_events(listing) =~= Seq::<EventView>::empty());
    }
}

/// The same report twice tells nothing new, once the first has settled whether the
/// disk is hot. The one temperature at which this would not settle, at or above the
/// limit and yet not above the limit less the hysteresis, needs a hysteresis of
/// zero or less.
pub proof fn law_same_report_is_silent(o: Occasion, hot: bool, limits: Temperature)
    requires
        o.old == Some(o.new),
        listable(o.new.counters),
        !(o.fresh_temperature() is Some && warning_limit(o.device.kind, limits)
            <= o.fresh_temperature()->0 <= warning_limit(o.device.kind, limits)
            - limits.hysteresis),
    ensures
        o.events(o.hot_after(hot, limits), limits) == Seq::<EventView>::empty(),
{
    let listing = ordered(o.new.counters);
    assert forall|i: int| 0 <= i < listing.len() implies o.counter_events(
        (#[trigger] listing[i]).0,
        listing[i].1,
    ) == Seq::<EventView>::empty() by {
        assert(o.new.counters.contains_key(listing[i].0));
    }
    lemma_no_counter_events(o, listing);
    assert(o.grave_condition_events() =~= Seq::<EventView>::empty());
    assert(o.lesser_condition_events() =~= Seq::<EventView>::empty());
    assert(o.all_history_events() =~= Seq::<EventView>::empty());
    assert(o.events(o.hot_after(hot, limits), limits) =~= Seq::<EventView>::empty());
}

proof fn lemma_counter_events_stay(o: Occasion, listing: Seq<(Seq<char>, u64)>, i: int, e: EventView)
    requires
        0 <= i < listing.len(),
        o.counter_events(listing[i].0, listing[i].1) == seq![e],
    ensures
        o.all_counter_events(listing).contains(e),
    decreases listing.len(),
{
    let rest = listing.drop_last();
    let head = o.all_counter_events(rest);
    let tail = o.counter_events(listing.last().0, listing.last().1);
    if i == listing.len() - 1 {
        assert((head + tail)[head.len() as int] == e);
    } else {
        assert(rest[i] == listing[i]);
        lemma_counter_events_stay(o, rest, i, e);
        let j = choose|j: int| 0 <= j < head.len() && head[j] == e;
        assert((head + tail)[j] == e);
    }
}

/// A counter that grew is told of, as gravely as its kind demands; so is one that grew
/// from nothing in the first report.
pub proof fn law_growth_is_told(o: Occasion, hot: bool, limits: Temperature, key: Seq<char>)
    requires
        listable(o.new.counters),
        o.new.counters.contains_key(key),
        !o.new.stale_fields.contains(key),
        o.new.counters[key] > o.earlier_count(key),
    ensures
        exists|i: int|
            0 <= i < o.events(hot, limits).len() && (#[trigger] o.events(hot, limits)[i]).severity
                == severity_of_counter(key) && o.events(hot, limits)[i].category == key
                && o.events(hot, limits)[i].disk == Some(o.device),
{
    let listing = ordered(o.new.counters);
    let i = choose|i: int| 0 <= i < listing.len() && (#[trigger] listing[i]).0 == key;
    let e = o.counter_events(key, o.new.counters[key])[0];
    assert(o.counter_events(key, o.new.counters[key]) =~= seq![e]);
    lemma_counter_events_stay(o, listing, i, e);
    let told = o.all_counter_events(listing);
    let j = choose|j: int| 0 <= j < told.len() && told[j] == e;
    assert(o.events(hot, limits)[j] == e);
}

/// A disk that says, now, that it fails is told of as critical, unless the report
/// before said the same.
pub proof fn law_failure_is_told(o: Occasion, hot: bool, limits: Temperature)
    requires
        o.new.passed == Some(false),
        !o.new.stale_fields.contains("passed"@),
        !o.new.stale_fields.contains("overall_health"@),
        o.old is None || o.old->0.passed != Some(false),
    ensures
        exists|i: int|
            0 <= i < o.events(hot, limits).len() && (#[trigger] o.events(hot, limits)[i]).severity
                == Severity::Critical && o.events(hot, limits)[i].category == "overall_health"@
                && o.events(hot, limits)[i].disk == Some(o.device),
{
    let told = o.all_counter_events(ordered(o.new.counters));
    let first = o.check_events(
        "overall_health"@,
        "passed"@,
        o.new.says_failing(),
        (if o.old is Some { o.old->0.says_failing() } else { None }),
        Severity::Critical,
    );
    assert(first.len() == 1);
    assert(o.grave_condition_events()[0] == first[0]);
    assert(o.events(hot, limits)[told.len() as int] == first[0]);
}

/// A report without a measurement and without an exit bit of the past.
pub open spec fn says_nothing(s: SnapshotView) -> bool {
    &&& s.passed is None
    &&& s.temperature is None
    &&& s.power_on_hours is None
    &&& s.counters == Map::<Seq<char>, u64>::empty()
    &&& s.available_spare is None
    &&& s.spare_threshold is None
    &&& s.percentage_used is None
    &&& s.remaining_life is None
    &&& s.critical_warning is None
    &&& s.prefailure is None
    &&& s.self_test is None
    &&& s.self_test_hours is None
    &&& s.self_test_status is None
    &&& !s.exit.past_threshold
    &&& !s.exit.error_log
    &&& !s.exit.self_test_log
}

/// What is missing is not zero and not a recovery: a report that says nothing leaves
/// every measurement as it was, marked as stale, and tells nothing.
pub proof fn law_missing_is_not_recovery(
    s: SnapshotView,
    earlier: SnapshotView,
    device: DeviceView,
    time: u64,
    hot: bool,
    limits: Temperature,
)
    requires
        says_nothing(s),
        listable(earlier.counters),
    ensures
        ({
            let new = s.retaining(earlier);
            let o = Occasion { time, device, old: Some(earlier), new };
            &&& new.passed == earlier.passed
            &&& new.temperature == earlier.temperature
            &&& new.counters == earlier.counters
            &&& new.critical_warning == earlier.critical_warning
            &&& new.prefailure == earlier.prefailure
            &&& new.self_test_status == earlier.self_test_status
            &&& forall|k: Seq<char>| #[trigger]
                earlier.counters.contains_key(k) ==> new.stale_fields.contains(k)
            &&& o.events(hot, limits) == Seq::<EventView>::empty()
            &&& o.hot_after(hot, limits) == hot
        }),
{
    let new = s.retaining(earlier);
    let o = Occasion { time, device, old: Some(earlier), new };
    assert(new.counters =~= earlier.counters);
    let listing = ordered(new.counters);
    assert forall|i: int| 0 <= i < listing.len() implies o.counter_events(
        (#[trigger] listing[i]).0,
        listing[i].1,
    ) == Seq::<EventView>::empty() by {
        assert(new.counters.contains_key(listing[i].0));
    }
    lemma_no_counter_events(o, listing);
    assert(o.grave_condition_events() =~= Seq::<EventView>::empty());
    assert(o.lesser_condition_events() =~= Seq::<EventView>::empty());
    assert(o.all_history_events() =~= Seq::<EventView>::empty());
    assert(o.events(hot, limits) =~= Seq::<EventView>::empty());
}

/// A measurement that is stale tells nothing: not the counter, nor the condition.
pub proof fn law_stale_tells_nothing(
    o: Occasion,
    key: Seq<char>,
    field: Seq<char>,
    value: u64,
    current: Option<bool>,
    previous: Option<bool>,
    severity: Severity,
)
    requires
        o.new.stale_fields.contains(field),
    ensures
        o.counter_events(field, value) == Seq::<EventView>::empty(),
        o.check_events(key, field, current, previous, severity) == Seq::<EventView>::empty(),
{
}

/// Each value is either measured now, or the last known one and marked as stale.
pub proof fn law_values_are_new_or_stale(s: SnapshotView, earlier: SnapshotView)
    ensures
        ({
            let new = s.retaining(earlier);
            &&& new.passed == s.passed || new.stale_fields.contains("passed"@)
            &&& new.temperature == s.temperature || new.stale_fields.contains("temperature"@)
            &&& new.power_on_hours == s.power_on_hours || new.stale_fields.contains(
                "power_on_hours"@,
            )
            &&& new.available_spare == s.available_spare || new.stale_fields.contains(
                "available_spare"@,
            )
            &&& new.spare_threshold == s.spare_threshold || new.stale_fields.contains(
                "spare_threshold"@,
            )
            &&& new.percentage_used == s.percentage_used || new.stale_fields.contains(
                "percentage_used"@,
            )
            &&& new.remaining_life == s.remaining_life || new.stale_fields.contains(
                "remaining_life"@,
            )
            &&& new.critical_warning == s.critical_warning || new.stale_fields.contains(
                "critical_warning"@,
            )
            &&& new.prefailure == s.prefailure || new.stale_fields.contains("prefailure"@)
            &&& new.self_test == s.self_test || new.stale_fields.contains("self_test"@)
            &&& new.self_test_hours == s.self_test_hours || new.stale_fields.contains(
                "self_test_hours"@,
            )
            &&& new.self_test_status == s.self_test_status || new.stale_fields.contains(
                "self_test_status"@,
            )
            &&& forall|k: Seq<char>| #[trigger]
                new.counters.contains_key(k) ==> (s.counters.contains_key(k) && new.counters[k]
                    == s.counters[k]) || (earlier.counters.contains_key(k) && new.counters[k]
                    == earlier.counters[k] && new.stale_fields.contains(k))
        }),
{
}

// ---------------------------------------------------------------------------
// The journal
// ---------------------------------------------------------------------------

/// What the memory keeps within its bounds.
pub open spec fn bounded(s: StateView) -> bool {
    s.recent_alerts.len() <= 100 && s.kernel_seen_cursors.len() <= 2048
}

proof fn lemma_remembering_all(s: StateView, events: Seq<EventView>)
    ensures
        s.remembering_all(events) == (StateView {
            recent_alerts: s.remembering_all(events).recent_alerts,
            ..s
        }),
        s.recent_alerts.len() <= 100 ==> s.remembering_all(events).recent_alerts.len() <= 100,
    decreases events.len(),
{
    if events.len() > 0 {
        lemma_remembering_all(s, events.drop_last());
    }
}

/// However much happens, the memory keeps at most a hundred events and 2048 cursors.
pub proof fn law_memory_is_bounded(
    s: StateView,
    boot: Option<Seq<char>>,
    record: RecordView,
    disk: Option<DeviceView>,
    devices: Seq<DeviceView>,
    device: DeviceView,
    result: Result<ReadingView, Seq<char>>,
    cfg: ConfigView,
    current: Option<u64>,
    later: Option<u64>,
    time: u64,
)
    requires
        bounded(s),
    ensures
        bounded(s.for_boot(boot)),
        bounded(s.after_record(record, disk, cfg, time)),
        bounded(s.after_inventory(devices, cfg, time)),
        bounded(disk_progress(s, devices, device, result, cfg, current, later, time).state),
{
    lemma_remembering_all(
        StateView {
            disks: without_vanished(
                with_all_found(s.disks, devices, cfg),
                watched_keys(devices, cfg),
            ),
            ..s
        },
        inventory_events(s.disks, devices, cfg, time),
    );
    let (known, inventory, d) = identity_progress(
        s,
        devices,
        completed(devices, device),
        result,
        current,
    );
    let v = known.reading_verdict(d, result, cfg, later, time);
    lemma_remembering_all(
        StateView { disks: known.disks.insert(d.key(), v.disk), ..known },
        v.events,
    );
}

/// A record with a cursor is taken in once.
pub proof fn law_record_is_taken_in_once(s: StateView, r: RecordView)
    requires
        r.cursor is Some,
    ensures
        !s.having_accepted(r).accepts(r),
{
}

impl StateView {
    /// The state after several records were accepted, one after the other.
    pub open spec fn having_accepted_all(self, rs: Seq<RecordView>) -> StateView
        decreases rs.len(),
    {
        if rs.len() == 0 {
            self
        } else {
            self.having_accepted_all(rs.drop_last()).having_accepted(rs.last())
        }
    }
}

proof fn lemma_cursor_stays(s: StateView, r: RecordView, rs: Seq<RecordView>)
    requires
        r.cursor is Some,
        rs.len() < 2048,
    ensures
        exists|i: int|
            0 <= i < s.having_accepted(r).having_accepted_all(rs).kernel_seen_cursors.len()
                && i >= s.having_accepted(r).having_accepted_all(rs).kernel_seen_cursors.len() - 1
                - rs.len() && #[trigger] s.having_accepted(r).having_accepted_all(
                rs,
            ).kernel_seen_cursors[i] == r.cursor->0,
    decreases rs.len(),
{
    let seen = s.having_accepted(r).having_accepted_all(rs).kernel_seen_cursors;
    if rs.len() == 0 {
        assert(seen[seen.len() - 1] == r.cursor->0);
    } else {
        lemma_cursor_stays(s, r, rs.drop_last());
        let prior = s.having_accepted(r).having_accepted_all(rs.drop_last()).kernel_seen_cursors;
        let i = choose|i: int|
            0 <= i < prior.len() && i >= prior.len() - 1 - (rs.len() - 1) && #[trigger] prior[i]
                == r.cursor->0;
        if rs.last().cursor is Some {
            if prior.len() + 1 > 2048 {
                assert(seen[i - 1] == prior[i]);
            } else {
                assert(seen[i] == prior[i]);
            }
        } else {
            assert(seen[i] == prior[i]);
        }
    }
}

/// A record with a cursor is refused for as long as no 2048 others came after it:
/// what the journal plays again is not counted again.
pub proof fn law_replay_is_refused(s: StateView, r: RecordView, rs: Seq<RecordView>)
    requires
        r.cursor is Some,
        rs.len() < 2048,
    ensures
        !s.having_accepted(r).having_accepted_all(rs).accepts(r),
{
    lemma_cursor_stays(s, r, rs);
}

/// What is refused changes nothing and tells nothing.
pub proof fn law_refused_record_changes_nothing(
    s: StateView,
    r: RecordView,
    disk: Option<DeviceView>,
    cfg: ConfigView,
    time: u64,
)
    requires
        !s.accepts(r),
    ensures
        s.after_record(r, disk, cfg, time) == s,
        s.record_notices(r, disk, cfg, time) == Seq::<NoticeView>::empty(),
{
}

/// The time of the newest record never goes back, and what is older is refused.
pub proof fn law_watermark_rises(s: StateView, r: RecordView, later: RecordView)
    requires
        s.accepts(r),
    ensures
        s.kernel_watermark is Some ==> s.having_accepted(r).kernel_watermark is Some
            && s.having_accepted(r).kernel_watermark->0 >= s.kernel_watermark->0,
        r.monotonic_usec is Some && later.monotonic_usec is Some && later.monotonic_usec->0
            < r.monotonic_usec->0 ==> !s.having_accepted(r).accepts(later),
{
}

/// Positions in the journal are those of one boot; everything else outlasts it.
pub proof fn law_boot_forgets_positions_only(s: StateView, boot: Option<Seq<char>>)
    ensures
        s.for_boot(boot).kernel_boot_id == boot,
        s.kernel_boot_id != boot ==> s.for_boot(boot).kernel_cursor is None && s.for_boot(
            boot,
        ).kernel_watermark is None && s.for_boot(boot).kernel_seen_cursors == Seq::<
            Seq<char>,
        >::empty(),
        s.for_boot(boot).disks == s.disks,
        s.for_boot(boot).recent_alerts == s.recent_alerts,
        s.for_boot(boot).notification_times == s.notification_times,
        s.for_boot(boot).for_boot(boot) == s.for_boot(boot),
{
}

/// A record of another boot is refused.
pub proof fn law_foreign_boot_is_refused(s: StateView, r: RecordView)
    requires
        r.boot_id is Some,
        s.kernel_boot_id is Some,
        r.boot_id != s.kernel_boot_id,
    ensures
        !s.accepts(r),
{
}

// ---------------------------------------------------------------------------
// Kernel reports and disks
// ---------------------------------------------------------------------------

/// A record that is ascribed to no disk changes no disk.
pub proof fn law_uncorrelated_record_changes_no_disk(
    s: StateView,
    r: RecordView,
    cfg: ConfigView,
    time: u64,
)
    ensures
        s.after_record(r, None, cfg, time).disks == s.disks,
{
}

/// A record changes what is remembered of its own disk, and there only what the
/// kernel reported.
pub proof fn law_record_touches_its_disk_only(
    s: StateView,
    r: RecordView,
    d: DeviceView,
    cfg: ConfigView,
    time: u64,
)
    ensures
        ({
            let after = s.after_record(r, Some(d), cfg, time).disks;
            &&& forall|k: Seq<char>| #![trigger after.contains_key(k)]
                k != d.key() ==> after.contains_key(k) == s.disks.contains_key(k) && (
                s.disks.contains_key(k) ==> after[k] == s.disks[k])
            &&& s.disks.contains_key(d.key()) ==> after.contains_key(d.key()) && after[d.key()]
                == (DiskView {
                kernel_severity: after[d.key()].kernel_severity,
                kernel_last_message: after[d.key()].kernel_last_message,
                kernel_last_seen: after[d.key()].kernel_last_seen,
                ..s.disks[d.key()]
            })
        }),
{
}

/// What the kernel reported of a disk only gets graver.
pub proof fn law_kernel_severity_only_grows(
    s: StateView,
    r: RecordView,
    disk: Option<DeviceView>,
    cfg: ConfigView,
    time: u64,
    key: Seq<char>,
)
    requires
        s.disks.contains_key(key),
        s.disks[key].kernel_severity is Some,
    ensures
        ({
            let after = s.after_record(r, disk, cfg, time).disks;
            &&& after.contains_key(key)
            &&& after[key].kernel_severity is Some
            &&& as_grave(after[key].kernel_severity->0, s.disks[key].kernel_severity->0)
        }),
{
}

/// A critical record of a disk makes the disk critical.
pub proof fn law_critical_record_makes_disk_critical(
    s: StateView,
    r: RecordView,
    d: DeviceView,
    cfg: ConfigView,
    time: u64,
)
    requires
        s.accepts(r),
        classified(r.message) is Some,
        (classified(r.message)->0).0 == Severity::Critical,
    ensures
        ({
            let after = s.after_record(r, Some(d), cfg, time).disks;
            after.contains_key(d.key()) && after[d.key()].health() == "Critical"@
        }),
{
}

/// Every accepted record of trouble is noted, whether or not its disk is known.
pub proof fn law_trouble_is_noted(
    s: StateView,
    r: RecordView,
    disk: Option<DeviceView>,
    cfg: ConfigView,
    time: u64,
)
    requires
        s.accepts(r),
        classified(r.message) is Some,
    ensures
        ({
            let after = s.after_record(r, disk, cfg, time).recent_alerts;
            &&& after.len() > 0
            &&& after.last().message == r.message
            &&& after.last().disk == disk
            &&& s.record_notices(r, disk, cfg, time).len() == 1
        }),
{
}

// ---------------------------------------------------------------------------
// Notifications
// ---------------------------------------------------------------------------

/// After a notification, others of its kind are held back for the cooldown, and
/// let through from then on.
pub proof fn law_cooldown(s: StateView, e: EventView, time: u64, later: u64, cooldown: u64)
    requires
        s.may_notify(e, time, cooldown),
        time <= later,
    ensures
        s.having_asked(e, time, cooldown).may_notify(e, later, cooldown) == (later - time
            >= cooldown),
{
}

/// Kinds of notifications do not hold each other back.
pub proof fn law_kinds_are_independent(
    s: StateView,
    e: EventView,
    other: EventView,
    time: u64,
    cooldown: u64,
)
    requires
        notice_key(e) != notice_key(other),
    ensures
        s.having_asked(e, time, cooldown).may_notify(other, time, cooldown) == s.may_notify(
            other,
            time,
            cooldown,
        ),
{
}

/// An event that is held back is noted all the same.
pub proof fn law_suppressed_event_is_noted(
    s: StateView,
    r: RecordView,
    disk: Option<DeviceView>,
    cfg: ConfigView,
    time: u64,
)
    requires
        s.accepts(r),
        classified(r.message) is Some,
        !s.may_notify(
            kernel_event(
                r,
                (classified(r.message)->0).0,
                (classified(r.message)->0).1,
                disk,
                time,
            ),
            time,
            cfg.alerts.kernel_cooldown_seconds,
        ),
    ensures
        s.record_notices(r, disk, cfg, time).len() == 1,
        !s.record_notices(r, disk, cfg, time)[0].send,
        s.after_record(r, disk, cfg, time).recent_alerts.last().message == r.message,
{
}

// ---------------------------------------------------------------------------
// Inventory
// ---------------------------------------------------------------------------

/// What outlasts any inventory: the measurements and the kernel's reports.
pub open spec fn same_history(a: DiskView, b: DiskView) -> bool {
    &&& a.snapshot == b.snapshot
    &&& a.checked_at == b.checked_at
    &&& a.hot == b.hot
    &&& a.smart_error == b.smart_error
    &&& a.kernel_severity == b.kernel_severity
    &&& a.kernel_last_message == b.kernel_last_message
    &&& a.kernel_last_seen == b.kernel_last_seen
}

proof fn lemma_found_keeps_history(
    disks: Map<Seq<char>, DiskView>,
    devices: Seq<DeviceView>,
    cfg: ConfigView,
    key: Seq<char>,
)
    requires
        disks.contains_key(key),
    ensures
        with_all_found(disks, devices, cfg).contains_key(key),
        same_history(with_all_found(disks, devices, cfg)[key], disks[key]),
        !watched_keys(devices, cfg).contains(key) ==> with_all_found(disks, devices, cfg)[key]
            == disks[key],
    decreases devices.len(),
{
    if devices.len() > 0 {
        lemma_found_keeps_history(disks, devices.drop_last(), cfg, key);
    }
}

/// No inventory forgets a disk or changes its history. A disk that is not found is
/// marked as absent, and otherwise stays as it was.
pub proof fn law_inventory_keeps_history(
    s: StateView,
    devices: Seq<DeviceView>,
    cfg: ConfigView,
    time: u64,
    key: Seq<char>,
)
    requires
        s.disks.contains_key(key),
    ensures
        ({
            let after = s.after_inventory(devices, cfg, time).disks;
            &&& after.contains_key(key)
            &&& same_history(after[key], s.disks[key])
            &&& !watched_keys(devices, cfg).contains(key) ==> after[key] == (DiskView {
                present: false,
                ..s.disks[key]
            })
        }),
{
    lemma_found_keeps_history(s.disks, devices, cfg, key);
    lemma_remembering_all(
        StateView {
            disks: without_vanished(
                with_all_found(s.disks, devices, cfg),
                watched_keys(devices, cfg),
            ),
            ..s
        },
        inventory_events(s.disks, devices, cfg, time),
    );
}

proof fn lemma_found_is_present(
    disks: Map<Seq<char>, DiskView>,
    devices: Seq<DeviceView>,
    cfg: ConfigView,
    key: Seq<char>,
)
    ensures
        watched_keys(devices, cfg).contains(key) ==> with_all_found(
            disks,
            devices,
            cfg,
        ).contains_key(key) && with_all_found(disks, devices, cfg)[key].present,
    decreases devices.len(),
{
    if devices.len() > 0 {
        lemma_found_is_present(disks, devices.drop_last(), cfg, key);
    }
}

/// After an inventory the disks that are present are those that were found and are
/// watched, and no others.
pub proof fn law_inventory_decides_presence(
    s: StateView,
    devices: Seq<DeviceView>,
    cfg: ConfigView,
    time: u64,
    key: Seq<char>,
)
    ensures
        ({
            let after = s.after_inventory(devices, cfg, time).disks;
            after.contains_key(key) && after[key].present <==> watched_keys(
                devices,
                cfg,
            ).contains(key)
        }),
{
    lemma_found_is_present(s.disks, devices, cfg, key);
    lemma_remembering_all(
        StateView {
            disks: without_vanished(
                with_all_found(s.disks, devices, cfg),
                watched_keys(devices, cfg),
            ),
            ..s
        },
        inventory_events(s.disks, devices, cfg, time),
    );
}

/// Every history is filed under the key of its own device.
pub open spec fn filed(disks: Map<Seq<char>, DiskView>) -> bool {
    forall|k: Seq<char>| #[trigger] disks.contains_key(k) ==> disks[k].device.key() == k
}

proof fn lemma_found_is_filed(
    disks: Map<Seq<char>, DiskView>,
    devices: Seq<DeviceView>,
    cfg: ConfigView,
)
    requires
        filed(disks),
    ensures
        filed(with_all_found(disks, devices, cfg)),
    decreases devices.len(),
{
    if devices.len() > 0 {
        lemma_found_is_filed(disks, devices.drop_last(), cfg);
    }
}

/// Whatever happens, every history stays filed under the key of its own device; and it
/// is so from the start.
pub proof fn law_histories_are_filed_by_key(
    s: StateView,
    boot: Option<Seq<char>>,
    record: RecordView,
    disk: Option<DeviceView>,
    devices: Seq<DeviceView>,
    device: DeviceView,
    result: Result<ReadingView, Seq<char>>,
    cfg: ConfigView,
    current: Option<u64>,
    later: Option<u64>,
    time: u64,
)
    requires
        filed(s.disks),
    ensures
        filed(empty_state().disks),
        filed(owned_disks(s.disks)),
        filed(s.for_boot(boot).disks),
        filed(s.after_record(record, disk, cfg, time).disks),
        filed(s.after_inventory(devices, cfg, time).disks),
        filed(disk_progress(s, devices, device, result, cfg, current, later, time).state.disks),
{
    assert forall|k: Seq<char>| #[trigger] owned_disks(s.disks).contains_key(k) implies owned_disks(
        s.disks,
    )[k].device.key() == k by {
        law_loaded_histories_have_owners(s.disks, k);
    }
    lemma_found_is_filed(s.disks, devices, cfg);
    lemma_remembering_all(
        StateView {
            disks: without_vanished(
                with_all_found(s.disks, devices, cfg),
                watched_keys(devices, cfg),
            ),
            ..s
        },
        inventory_events(s.disks, devices, cfg, time),
    );
    let (known, inventory, d) = identity_progress(
        s,
        devices,
        completed(devices, device),
        result,
        current,
    );
    let v = known.reading_verdict(d, result, cfg, later, time);
    assert(filed(known.disks));
    assert(v.disk.device == d);
    lemma_remembering_all(
        StateView { disks: known.disks.insert(d.key(), v.disk), ..known },
        v.events,
    );
}

/// A reading of a device changes what is remembered of that device only.
pub proof fn law_reading_touches_its_disk_only(
    s: StateView,
    d: DeviceView,
    result: Result<ReadingView, Seq<char>>,
    cfg: ConfigView,
    current: Option<u64>,
    time: u64,
)
    ensures
        ({
            let v = s.reading_verdict(d, result, cfg, current, time);
            let after = s.after_reading(d, v).disks;
            forall|k: Seq<char>| #![trigger after.contains_key(k)]
                k != d.key() ==> after.contains_key(k) == s.disks.contains_key(k) && (
                s.disks.contains_key(k) ==> after[k] == s.disks[k])
        }),
{
    let v = s.reading_verdict(d, result, cfg, current, time);
    lemma_remembering_all(StateView { disks: s.disks.insert(d.key(), v.disk), ..s }, v.events);
}

/// The device as the scan knows it in the end.
pub open spec fn scanned_device(
    s: StateView,
    devices: Seq<DeviceView>,
    found: DeviceView,
    result: Result<ReadingView, Seq<char>>,
    current: Option<u64>,
) -> DeviceView {
    identity_progress(s, devices, completed(devices, found), result, current).2
}

/// The scan of a device changes what is remembered under the keys of that device
/// only: the one it had, and the one it has in the end.
pub proof fn law_scan_touches_its_disk_only(
    s: StateView,
    devices: Seq<DeviceView>,
    found: DeviceView,
    result: Result<ReadingView, Seq<char>>,
    cfg: ConfigView,
    current: Option<u64>,
    later: Option<u64>,
    time: u64,
    key: Seq<char>,
)
    requires
        key != completed(devices, found).key(),
        key != scanned_device(s, devices, found, result, current).key(),
    ensures
        ({
            let after = disk_progress(
                s,
                devices,
                found,
                result,
                cfg,
                current,
                later,
                time,
            ).state.disks;
            &&& after.contains_key(key) == s.disks.contains_key(key)
            &&& s.disks.contains_key(key) ==> after[key] == s.disks[key]
        }),
{
    let (known, inventory, d) = identity_progress(
        s,
        devices,
        completed(devices, found),
        result,
        current,
    );
    let v = known.reading_verdict(d, result, cfg, later, time);
    lemma_remembering_all(
        StateView { disks: known.disks.insert(d.key(), v.disk), ..known },
        v.events,
    );
}

/// No scan of a device takes back what the kernel reported of a disk, as long as the
/// disk keeps its key.
pub proof fn law_scan_keeps_kernel_history(
    s: StateView,
    devices: Seq<DeviceView>,
    found: DeviceView,
    result: Result<ReadingView, Seq<char>>,
    cfg: ConfigView,
    current: Option<u64>,
    later: Option<u64>,
    time: u64,
    key: Seq<char>,
)
    requires
        s.disks.contains_key(key),
        key == completed(devices, found).key() ==> key == scanned_device(
            s,
            devices,
            found,
            result,
            current,
        ).key(),
    ensures
        ({
            let after = disk_progress(
                s,
                devices,
                found,
                result,
                cfg,
                current,
                later,
                time,
            ).state.disks;
            &&& after.contains_key(key)
            &&& after[key].kernel_severity == s.disks[key].kernel_severity
            &&& after[key].kernel_last_message == s.disks[key].kernel_last_message
            &&& after[key].kernel_last_seen == s.disks[key].kernel_last_seen
        }),
{
    let (known, inventory, d) = identity_progress(
        s,
        devices,
        completed(devices, found),
        result,
        current,
    );
    let v = known.reading_verdict(d, result, cfg, later, time);
    lemma_remembering_all(
        StateView { disks: known.disks.insert(d.key(), v.disk), ..known },
        v.events,
    );
    law_reading_keeps_kernel_history(known.entry(d), result, cfg, later, time);
}

/// When the history of a disk moves to a stronger key, the kernel's reports move with
/// it.
pub proof fn law_kernel_history_moves_with_identity(
    s: StateView,
    devices: Seq<DeviceView>,
    found: DeviceView,
    result: Result<ReadingView, Seq<char>>,
    cfg: ConfigView,
    current: Option<u64>,
    later: Option<u64>,
    time: u64,
)
    requires
        ({
            let from = completed(devices, found);
            let to = scanned_device(s, devices, found, result, current);
            &&& from.key() != to.key()
            &&& s.disks.contains_key(from.key())
            &&& !s.disks.contains_key(to.key())
            &&& s.disks[from.key()].device.same_disk(to)
        }),
    ensures
        ({
            let from = completed(devices, found).key();
            let to = scanned_device(s, devices, found, result, current).key();
            let after = disk_progress(
                s,
                devices,
                found,
                result,
                cfg,
                current,
                later,
                time,
            ).state.disks;
            &&& !after.contains_key(from)
            &&& after.contains_key(to)
            &&& after[to].kernel_severity == s.disks[from].kernel_severity
            &&& after[to].kernel_last_message == s.disks[from].kernel_last_message
            &&& after[to].kernel_last_seen == s.disks[from].kernel_last_seen
        }),
{
    let (known, inventory, d) = identity_progress(
        s,
        devices,
        completed(devices, found),
        result,
        current,
    );
    let v = known.reading_verdict(d, result, cfg, later, time);
    lemma_remembering_all(
        StateView { disks: known.disks.insert(d.key(), v.disk), ..known },
        v.events,
    );
    law_reading_keeps_kernel_history(known.entry(d), result, cfg, later, time);
}

/// A device that is to be left alone is left alone: nothing is told of it, and but for
/// the key that its identity gives it nothing is recorded but that it is not checked.
pub proof fn law_ignored_device_is_left_alone(
    s: StateView,
    devices: Seq<DeviceView>,
    found: DeviceView,
    result: Result<ReadingView, Seq<char>>,
    cfg: ConfigView,
    current: Option<u64>,
    later: Option<u64>,
    time: u64,
)
    requires
        !watched(cfg, scanned_device(s, devices, found, result, current).serial),
    ensures
        ({
            let p = disk_progress(s, devices, found, result, cfg, current, later, time);
            let key = scanned_device(s, devices, found, result, current).key();
            let known = identity_progress(s, devices, completed(devices, found), result, current).0;
            &&& p.events == Seq::<EventView>::empty()
            &&& p.state.recent_alerts == s.recent_alerts
            &&& p.state.disks.dom() == known.disks.dom()
            &&& forall|k: Seq<char>| #[trigger]
                known.disks.contains_key(k) ==> p.state.disks[k] == (if k == key {
                    DiskView { check_status: CheckStatus::Disabled, ..known.disks[k] }
                } else {
                    known.disks[k]
                })
        }),
{
    let p = disk_progress(s, devices, found, result, cfg, current, later, time);
    let known = identity_progress(s, devices, completed(devices, found), result, current).0;
    assert(p.state.disks.dom() =~= known.disks.dom());
}

/// An event of no weight is logged, but never sent.
pub proof fn law_info_is_never_sent(e: EventView, notify: bool)
    ensures
        notice(e, notify).event == e,
        notice(e, notify).send ==> notify && e.severity != Severity::Info,
{
}

// ---------------------------------------------------------------------------
// Identity
// ---------------------------------------------------------------------------

/// To be the same disk does not depend on the order, nor on anything that can pass
/// from one disk to another: the path, the names, the sequence number.
pub proof fn law_identity_is_stable(a: DeviceView, b: DeviceView, c: DeviceView)
    requires
        c.model == a.model,
        c.serial == a.serial,
        c.wwn == a.wwn,
    ensures
        a.same_disk(b) == b.same_disk(a),
        c.same_disk(b) == a.same_disk(b),
{
}

/// A device that has neither a serial number nor a WWN is the same disk as none.
pub proof fn law_path_is_no_identity(a: DeviceView, b: DeviceView)
    requires
        a.serial.len() == 0,
        known_wwn(a.wwn) is None,
    ensures
        !a.same_disk(b),
        !b.same_disk(a),
{
}

/// An all-zero WWN counts for nothing: key and identity are those of a device
/// without one.
pub proof fn law_zero_wwn_is_none(a: DeviceView, b: DeviceView)
    requires
        known_wwn(a.wwn) is None,
    ensures
        ({
            let bare = DeviceView { wwn: Seq::empty(), ..a };
            &&& a.key() == bare.key()
            &&& a.same_disk(b) == bare.same_disk(b)
        }),
{
    assert(known_wwn(Seq::<char>::empty()) is None) by {
        lemma_empty_wwn();
    }
}

proof fn lemma_empty_wwn()
    ensures
        known_wwn(Seq::<char>::empty()) is None,
{
    reveal_strlit("0x");
    reveal_strlit("0X");
    let e = Seq::<char>::empty();
    assert(trimmed(e) =~= e);
    assert(wwn_digits(e) =~= e);
}

/// What is known of a device is never replaced, only what is not known is filled in;
/// and the controller of an NVMe disk gets no WWN.
pub proof fn law_filling_in_replaces_nothing(
    d: DeviceView,
    model: Seq<char>,
    serial: Seq<char>,
    wwn: Seq<char>,
)
    ensures
        ({
            let f = filled(d, model, serial, wwn);
            &&& d.model.len() > 0 ==> f.model == d.model
            &&& d.serial.len() > 0 ==> f.serial == d.serial
            &&& known_wwn(d.wwn) is Some ==> f.wwn == d.wwn
            &&& d.kind == Kind::Nvme && known_wwn(d.wwn) is None ==> f.wwn == Seq::<char>::empty()
            &&& f == (DeviceView { model: f.model, serial: f.serial, wwn: f.wwn, ..d })
        }),
{
}

proof fn lemma_no_same_disk(listing: Seq<(Seq<char>, DiskView)>, d: DeviceView)
    requires
        forall|i: int| 0 <= i < listing.len() ==> !d.same_disk((#[trigger] listing[i]).1.device),
    ensures
        first_same_disk(listing, d) is None,
    decreases listing.len(),
{
    if listing.len() > 0 {
        assert forall|i: int| 0 <= i < listing.skip(1).len() implies !d.same_disk(
            (#[trigger] listing.skip(1)[i]).1.device,
        ) by {
            assert(listing.skip(1)[i] == listing[i + 1]);
        }
        lemma_no_same_disk(listing.skip(1), d);
    }
}

/// A device borrows nothing from what is remembered of other disks, be it at the
/// same path.
pub proof fn law_nothing_is_borrowed(disks: Map<Seq<char>, DiskView>, d: DeviceView)
    requires
        listable(disks),
        forall|k: Seq<char>| #[trigger]
            disks.contains_key(k) ==> !d.same_disk(disks[k].device),
    ensures
        recalled(disks, d) == d,
{
    let listing = ordered(disks);
    assert forall|i: int| 0 <= i < listing.len() implies !d.same_disk(
        (#[trigger] listing[i]).1.device,
    ) by {
        assert(disks.contains_key(listing[i].0));
    }
    lemma_no_same_disk(listing, d);
}

/// When a device gets a stronger key, every other disk stays as it was, and its own
/// history either moves along or is dropped. What was held under a path alone is
/// dropped.
pub proof fn law_rekeying(disks: Map<Seq<char>, DiskView>, from: DeviceView, to: DeviceView)
    requires
        from.key() != to.key(),
        disks.contains_key(from.key()),
    ensures
        ({
            let after = rekeyed(disks, from, to);
            let history = disks[from.key()];
            &&& !after.contains_key(from.key())
            &&& forall|k: Seq<char>| #![trigger after.contains_key(k)]
                k != from.key() && k != to.key() ==> after.contains_key(k) == disks.contains_key(k)
                    && (disks.contains_key(k) ==> after[k] == disks[k])
            &&& disks.contains_key(to.key()) ==> after.contains_key(to.key()) && after[to.key()]
                == disks[to.key()]
            &&& history.device.same_disk(to) && !disks.contains_key(to.key())
                ==> after.contains_key(to.key()) && same_history(after[to.key()], history)
            &&& history.device.serial.len() == 0 && known_wwn(history.device.wwn) is None
                ==> after == disks.remove(from.key())
        }),
{
}

proof fn lemma_encoded_length(a: Seq<char>, b: Seq<char>)
    ensures
        encode_utf8(a + b).len() == encode_utf8(a).len() + encode_utf8(b).len(),
        b.len() > 0 ==> encode_utf8(b).len() > 0,
    decreases a.len(),
{
    if a.len() == 0 {
        assert(a + b =~= b);
    } else {
        assert((a + b).drop_first() =~= a.drop_first() + b);
        lemma_encoded_length(a.drop_first(), b);
    }
}

proof fn lemma_decimal_digits(n: nat)
    ensures
        decimal(n).len() > 0,
        all_digits(decimal(n)),
        digits_value(decimal(n)) == n,
    decreases n,
{
    if n < 10 {
        let d = decimal(n);
        assert(d.drop_last() =~= Seq::<char>::empty());
        assert(digits_value(d.drop_last()) == 0);
    } else {
        lemma_decimal_digits(n / 10);
        let d = decimal(n);
        assert(d.drop_last() =~= decimal(n / 10));
        assert forall|i: int| 0 <= i < d.len() implies digit(#[trigger] d[i]) by {
            if i < d.len() - 1 {
                assert(d[i] == decimal(n / 10)[i]);
            }
        }
    }
}

/// Two texts that start with digits, a colon and more are equal only if the digits
/// and the rest are.
proof fn lemma_split_at_colon(a: Seq<char>, b: Seq<char>, x: Seq<char>, y: Seq<char>)
    requires
        all_digits(a),
        all_digits(b),
        a + seq![':'] + x == b + seq![':'] + y,
    ensures
        a == b,
        x == y,
{
    let s = a + seq![':'] + x;
    let t = b + seq![':'] + y;
    assert(s[a.len() as int] == ':');
    assert(t[b.len() as int] == ':');
    if a.len() < b.len() {
        assert(t[a.len() as int] == b[a.len() as int]);
    } else if b.len() < a.len() {
        assert(s[b.len() as int] == a[b.len() as int]);
    }
    assert(a =~= s.take(a.len() as int));
    assert(b =~= t.take(b.len() as int));
    assert(x =~= s.skip(a.len() as int + 1));
    assert(y =~= t.skip(b.len() as int + 1));
}

/// Two texts with a colon in them, where what stands before it takes the same number
/// of bytes, are equal only if both parts are.
proof fn lemma_split_at_length(a: Seq<char>, b: Seq<char>, x: Seq<char>, y: Seq<char>)
    requires
        encode_utf8(a).len() == encode_utf8(b).len(),
        a + seq![':'] + x == b + seq![':'] + y,
    ensures
        a == b,
        x == y,
{
    let s = a + seq![':'] + x;
    let t = b + seq![':'] + y;
    if a.len() < b.len() {
        let rest = b.skip(a.len() as int);
        assert(a =~= s.take(a.len() as int));
        assert(b.take(a.len() as int) =~= t.take(a.len() as int));
        assert(b =~= a + rest);
        lemma_encoded_length(a, rest);
    } else if b.len() < a.len() {
        let rest = a.skip(b.len() as int);
        assert(b =~= t.take(b.len() as int));
        assert(a.take(b.len() as int) =~= s.take(b.len() as int));
        assert(a =~= b + rest);
        lemma_encoded_length(b, rest);
    }
    assert(a =~= s.take(a.len() as int));
    assert(b =~= t.take(b.len() as int));
    assert(x =~= s.skip(a.len() as int + 1));
    assert(y =~= t.skip(b.len() as int + 1));
}

/// Devices share a key only if they share what the key is made of: the WWN, or model
/// and serial number, or, where there is nothing better, the path.
pub proof fn law_keys_tell_disks_apart(a: DeviceView, b: DeviceView)
    requires
        a.key() == b.key(),
    ensures
        known_wwn(a.wwn) == known_wwn(b.wwn),
        known_wwn(a.wwn) is None && a.serial.len() > 0 ==> a.model == b.model && a.serial
            == b.serial,
        known_wwn(a.wwn) is None && a.serial.len() == 0 ==> b.serial.len() == 0 && a.path
            == b.path,
{
    reveal_strlit("wwn:");
    reveal_strlit("serial:");
    reveal_strlit("path:");
    let k = a.key();
    assert(known_wwn(a.wwn) is Some ==> k[0] == 'w');
    assert(known_wwn(b.wwn) is Some ==> k[0] == 'w');
    assert(known_wwn(a.wwn) is None && a.serial.len() > 0 ==> k[0] == 's');
    assert(known_wwn(b.wwn) is None && b.serial.len() > 0 ==> k[0] == 's');
    assert(known_wwn(a.wwn) is None && a.serial.len() == 0 ==> k[0] == 'p');
    assert(known_wwn(b.wwn) is None && b.serial.len() == 0 ==> k[0] == 'p');
    if known_wwn(a.wwn) is Some {
        assert(k.skip(4) =~= known_wwn(a.wwn)->0);
        assert(k.skip(4) =~= known_wwn(b.wwn)->0);
    } else if a.serial.len() == 0 {
        assert(k.skip(5) =~= a.path);
        assert(k.skip(5) =~= b.path);
    } else {
        let m = encode_utf8(a.model).len();
        let n = encode_utf8(b.model).len();
        let x = a.model + seq![':'] + a.serial;
        let y = b.model + seq![':'] + b.serial;
        assert(k.skip(7) =~= decimal(m) + seq![':'] + x);
        assert(k.skip(7) =~= decimal(n) + seq![':'] + y);
        lemma_decimal_digits(m);
        lemma_decimal_digits(n);
        lemma_split_at_colon(decimal(m), decimal(n), x, y);
        lemma_split_at_length(a.model, b.model, a.serial, b.serial);
    }
}

// ---------------------------------------------------------------------------
// Devices
// ---------------------------------------------------------------------------

proof fn lemma_inventory(rows: Seq<JsonView>, now: u64)
    ensures
        listable(inventory(rows, now)),
        forall|k: Seq<char>| #[trigger]
            inventory(rows, now).contains_key(k) ==> inventory(rows, now)[k].path == k
                && inventory(rows, now)[k].aliases.len() > 0,
        forall|k: Seq<char>| #[trigger]
            inventory(rows, now).contains_key(k) && inventory(rows, now)[k].kind == Kind::Nvme
                ==> inventory(rows, now)[k].wwn == Seq::<char>::empty(),
    decreases rows.len(),
{
    if rows.len() == 0 {
        lemma_listable(
            Map::<Seq<char>, DeviceView>::empty(),
            Seq::empty(),
            arbitrary::<DeviceView>(),
        );
    } else {
        lemma_inventory(rows.drop_last(), now);
        let known = inventory(rows.drop_last(), now);
        let row = rows.last();
        if physical(row) {
            let path = row_target(row);
            lemma_listable(known, path, with_row(known, row, now)[path]);
        }
    }
}

/// The devices of an inventory stand in the order of their paths, each path once;
/// the kernel has a name for each; and no NVMe controller has the WWN of a namespace.
pub proof fn law_inventory_is_orderly(root: JsonView, now: u64)
    requires
        listed_devices(root, now) is Some,
    ensures
        ({
            let devices = listed_devices(root, now)->0;
            &&& forall|i: int, j: int|
                0 <= i < j < devices.len() ==> before(
                    (#[trigger] devices[i]).path,
                    (#[trigger] devices[j]).path,
                )
            &&& forall|i: int|
                0 <= i < devices.len() ==> (#[trigger] devices[i]).aliases.len() > 0 && (
                devices[i].kind == Kind::Nvme ==> devices[i].wwn == Seq::<char>::empty())
        }),
{
    let rows = root.at("blockdevices"@).array()->0;
    lemma_inventory(rows, now);
    let m = inventory(rows, now);
    let listing = ordered(m);
    let devices = listed_devices(root, now)->0;
    assert(lists(listing, m));
    assert forall|i: int| 0 <= i < devices.len() implies m.contains_key(
        listing[i].0,
    ) && #[trigger] devices[i] == m[listing[i].0] by {
        assert(m.contains_key(listing[i].0));
    }
    assert forall|i: int, j: int| 0 <= i < j < devices.len() implies before(
        (#[trigger] devices[i]).path,
        (#[trigger] devices[j]).path,
    ) by {
        assert(before(listing[i].0, listing[j].0));
    }
}

// ---------------------------------------------------------------------------
// SMART reports
// ---------------------------------------------------------------------------

/// The exit status is read bit by bit: errors of the run apart from the verdict on
/// the disk, and that apart from what happened in the past.
pub proof fn law_exit_bits(mask: u8)
    ensures
        exit_status(mask).mask == mask,
        exit_status(mask).incomplete == (mask % 8 != 0),
        exit_status(mask).disk_failing == ((mask / 8) % 2 == 1),
        exit_status(mask).prefailure == ((mask / 16) % 2 == 1),
        exit_status(mask).past_threshold == ((mask / 32) % 2 == 1),
        exit_status(mask).error_log == ((mask / 64) % 2 == 1),
        exit_status(mask).self_test_log == (mask / 128 == 1),
{
    assert((mask & 7 != 0) == (mask % 8 != 0)) by (bit_vector);
    assert((mask & 8 != 0) == ((mask / 8) % 2 == 1)) by (bit_vector);
    assert((mask & 16 != 0) == ((mask / 16) % 2 == 1)) by (bit_vector);
    assert((mask & 32 != 0) == ((mask / 32) % 2 == 1)) by (bit_vector);
    assert((mask & 64 != 0) == ((mask / 64) % 2 == 1)) by (bit_vector);
    assert((mask & 128 != 0) == (mask / 128 == 1)) by (bit_vector);
}

proof fn lemma_bits_join(a: u8, b: u8)
    ensures
        a & 8 != 0 ==> (a | b) & 8 != 0 && (a | b) & 0xf8 != 0,
        a & 16 != 0 ==> (a | b) & 16 != 0 && (a | b) & 0xf8 != 0,
        a & 8 != 0 ==> a & 0xf8 != 0 && a & 0x18 != 0,
        a & 16 != 0 ==> a & 0xf8 != 0 && a & 0x18 != 0,
{
    assert(a & 8 != 0 ==> (a | b) & 8 != 0 && (a | b) & 0xf8 != 0) by (bit_vector);
    assert(a & 16 != 0 ==> (a | b) & 16 != 0 && (a | b) & 0xf8 != 0) by (bit_vector);
    assert(a & 8 != 0 ==> a & 0xf8 != 0 && a & 0x18 != 0) by (bit_vector);
    assert(a & 16 != 0 ==> a & 0xf8 != 0 && a & 0x18 != 0) by (bit_vector);
}

/// The exit bits for a failing disk are never lost, whatever the report holds and
/// even where it cannot be read.
pub proof fn law_failing_bit_is_never_lost(bytes: Seq<u8>, exit_code: i32)
    requires
        0 <= exit_code <= 255,
    ensures
        (exit_code as u8) & 8 != 0 ==> parsed(bytes, exit_code) is Ok && parsed(
            bytes,
            exit_code,
        )->Ok_0.passed == Some(false),
        (exit_code as u8) & 16 != 0 ==> parsed(bytes, exit_code) is Ok && parsed(
            bytes,
            exit_code,
        )->Ok_0.prefailure == Some(true),
{
    let mask = exit_code as u8;
    let v = match decoded(bytes) {
        Ok(v) => v,
        Err(_) => JsonView::Null,
    };
    match v.at("smartctl"@).at("exit_status"@).unsigned() {
        Some(n) => {
            if n <= 255 {
                lemma_bits_join(mask, n as u8);
            }
        },
        None => {},
    }
    lemma_bits_join(mask, 0);
}

/// A report that cannot be read is passed over only for a reading that says so: it is
/// incomplete, and holds what the exit bits say.
pub proof fn law_passed_over_report_is_incomplete(bytes: Seq<u8>, exit_code: i32)
    requires
        passed_over(bytes, exit_code) is Some,
    ensures
        parsed(bytes, exit_code) is Ok,
        parsed(bytes, exit_code)->Ok_0.issue is Some,
        parsed(bytes, exit_code)->Ok_0.exit.mask == exit_code as u8,
{
    let mask = exit_code as u8;
    assert(mask & 0x18 != 0 ==> mask & 0xf8 != 0) by (bit_vector);
}

/// A report that is not complete says so, and gives nothing but who the disk is and
/// what the exit bits say.
pub proof fn law_incomplete_report_measures_nothing(v: JsonView, process_mask: u8)
    requires
        incomplete(v, process_mask),
        interpreted(v, process_mask) is Ok,
    ensures
        ({
            let s = interpreted(v, process_mask)->Ok_0;
            &&& s.issue is Some
            &&& s.passed != Some(true)
            &&& s.prefailure != Some(false)
            &&& s.temperature is None
            &&& s.counters == Map::<Seq<char>, u64>::empty()
            &&& s.self_test_status is None
            &&& s.critical_warning is None
            &&& s.available_spare is None
            &&& s.percentage_used is None
            &&& s.remaining_life is None
        }),
{
}

/// The names under which a report can count something.
pub open spec fn counter_names() -> Set<Seq<char>> {
    set![
        "Reallocated_Sector_Ct"@,
        "Reallocated_Event_Count"@,
        "Current_Pending_Sector"@,
        "Offline_Uncorrectable"@,
        "Reported_Uncorrect"@,
        "UDMA_CRC_Error_Count"@,
        "Command_Timeout"@,
        "media_errors"@,
        "num_err_log_entries"@,
    ]
}

proof fn lemma_attribute_names(rows: Seq<JsonView>)
    ensures
        forall|k: Seq<char>| #[trigger]
            attributes(rows).counters.contains_key(k) ==> counter_names().contains(k),
        attributes(rows).remaining_life matches Some(n) ==> n <= 100,
    decreases rows.len(),
{
    if rows.len() > 0 {
        lemma_attribute_names(rows.drop_last());
    }
}

/// Only attributes of known names count: what a vendor calls otherwise raises no
/// alert. And what is left of a disk's life is a percentage.
pub proof fn law_counters_have_known_names(v: JsonView, process_mask: u8)
    requires
        interpreted(v, process_mask) is Ok,
    ensures
        ({
            let s = interpreted(v, process_mask)->Ok_0;
            &&& forall|k: Seq<char>| #[trigger]
                s.counters.contains_key(k) ==> counter_names().contains(k)
            &&& s.remaining_life matches Some(n) ==> n <= 100
        }),
{
    lemma_attribute_names(attribute_rows(v));
}

/// A disk counts as asleep only if it is a hard disk that was to be spared, and its
/// report says so: the exit status alone is not enough.
pub proof fn law_sleep_needs_evidence(
    kind: Kind,
    skip_sleeping: bool,
    code: Option<i32>,
    bytes: Seq<u8>,
)
    requires
        outcome(kind, skip_sleeping, code, bytes) == Ok::<ReadingView, SmartErrorView>(
            ReadingView::Sleeping,
        ),
    ensures
        kind == Kind::Hdd,
        skip_sleeping,
        code == Some(3i32),
        decoded(bytes) is Ok,
        sleeping(decoded(bytes)->Ok_0),
{
}

/// The spelling of the model does not matter where a serial number or a WWN agrees.
pub proof fn law_model_spelling_is_no_change(d: DeviceView, s: SnapshotView)
    requires
        d.serial.len() > 0 && s.serial.len() > 0 && d.serial_agrees(s.serial),
        known_wwn(d.wwn) is None || known_wwn(s.wwn) is None || normal_wwn(d.wwn) == normal_wwn(
            s.wwn,
        ),
    ensures
        mismatch(d, s) is None,
{
}

// ---------------------------------------------------------------------------
// Kernel messages
// ---------------------------------------------------------------------------

/// A failed command or a timeout is trouble only in a message that speaks of storage.
pub proof fn law_timeouts_need_storage(message: Seq<char>)
    requires
        classified(message) == Some((Severity::Warning, "failed_command"@)) || classified(message)
            == Some((Severity::Warning, "timeout"@)),
    ensures
        speaks_of_storage(words(lowered(message))),
{
    reveal_strlit("failed_command");
    reveal_strlit("timeout");
    reveal_strlit("link_slow");
    assert("link_slow"@[0] == 'l');
    assert("failed_command"@[0] == 'f');
    assert("timeout"@[0] == 't');
}

proof fn lemma_named(devices: Seq<DeviceView>, names: Seq<Seq<char>>)
    ensures
        forall|i: int|
            0 <= i < all_named(devices, names).len() ==> devices.contains(
                #[trigger] all_named(devices, names)[i],
            ) && goes_by_all(all_named(devices, names)[i], names),
        all_named(devices, names).len() <= devices.len(),
    decreases devices.len(),
{
    if devices.len() > 0 {
        let rest = devices.drop_last();
        lemma_named(rest, names);
        assert forall|i: int| 0 <= i < all_named(devices, names).len() implies devices.contains(
            #[trigger] all_named(devices, names)[i],
        ) && goes_by_all(all_named(devices, names)[i], names) by {
            if i < all_named(rest, names).len() {
                let d = all_named(rest, names)[i];
                let j = choose|j: int| 0 <= j < rest.len() && rest[j] == d;
                assert(devices[j] == d);
            } else {
                assert(devices[devices.len() - 1] == devices.last());
            }
        }
    }
}

proof fn lemma_spoken_of(devices: Seq<DeviceView>, ws: Seq<Seq<char>>, port: bool)
    ensures
        forall|i: int|
            0 <= i < all_spoken_of(devices, ws, port).len() ==> devices.contains(
                #[trigger] all_spoken_of(devices, ws, port)[i],
            ) && spoken_of(all_spoken_of(devices, ws, port)[i], ws, port),
    decreases devices.len(),
{
    if devices.len() > 0 {
        let rest = devices.drop_last();
        lemma_spoken_of(rest, ws, port);
        assert forall|i: int|
            0 <= i < all_spoken_of(devices, ws, port).len() implies devices.contains(
            #[trigger] all_spoken_of(devices, ws, port)[i],
        ) && spoken_of(all_spoken_of(devices, ws, port)[i], ws, port) by {
            if i < all_spoken_of(rest, ws, port).len() {
                let d = all_spoken_of(rest, ws, port)[i];
                let j = choose|j: int| 0 <= j < rest.len() && rest[j] == d;
                assert(devices[j] == d);
            } else {
                assert(devices[devices.len() - 1] == devices.last());
            }
        }
    }
}

/// A record is ascribed to a device of the current inventory, and to one that the
/// message speaks of.
pub proof fn law_ascribed_device_is_spoken_of(
    record: RecordView,
    devices: Seq<DeviceView>,
    boot: Option<Seq<char>>,
    current: Option<u64>,
)
    requires
        ascribed(record, devices, boot, current) is Some,
    ensures
        ({
            let d = ascribed(record, devices, boot, current)->0;
            let ws = words(record.message);
            &&& devices.contains(d)
            &&& explicit_names(record.message).len() > 0 ==> goes_by_all(
                d,
                explicit_names(record.message),
            )
            &&& explicit_names(record.message).len() == 0 ==> (spoken_of(d, ws, false)
                || spoken_of(d, ws, true))
        }),
{
    let ws = words(record.message);
    lemma_named(devices, explicit_names(record.message));
    lemma_spoken_of(devices, ws, false);
    lemma_spoken_of(devices, ws, true);
}

proof fn lemma_two_named(devices: Seq<DeviceView>, names: Seq<Seq<char>>, i: int, j: int)
    requires
        0 <= i < j < devices.len(),
        goes_by_all(devices[i], names),
        goes_by_all(devices[j], names),
    ensures
        all_named(devices, names).len() >= 2,
    decreases devices.len(),
{
    let rest = devices.drop_last();
    if j < devices.len() - 1 {
        assert(rest[i] == devices[i] && rest[j] == devices[j]);
        lemma_two_named(rest, names, i, j);
    } else {
        assert(rest[i] == devices[i]);
        lemma_one_named(rest, names, i);
    }
}

proof fn lemma_one_named(devices: Seq<DeviceView>, names: Seq<Seq<char>>, i: int)
    requires
        0 <= i < devices.len(),
        goes_by_all(devices[i], names),
    ensures
        all_named(devices, names).len() >= 1,
    decreases devices.len(),
{
    let rest = devices.drop_last();
    if i < devices.len() - 1 {
        assert(rest[i] == devices[i]);
        lemma_one_named(rest, names, i);
    }
}

proof fn lemma_one_spoken_of(devices: Seq<DeviceView>, ws: Seq<Seq<char>>, port: bool, i: int)
    requires
        0 <= i < devices.len(),
        spoken_of(devices[i], ws, port),
    ensures
        all_spoken_of(devices, ws, port).len() >= 1,
    decreases devices.len(),
{
    let rest = devices.drop_last();
    if i < devices.len() - 1 {
        assert(rest[i] == devices[i]);
        lemma_one_spoken_of(rest, ws, port, i);
    }
}

proof fn lemma_two_spoken_of(
    devices: Seq<DeviceView>,
    ws: Seq<Seq<char>>,
    port: bool,
    i: int,
    j: int,
)
    requires
        0 <= i < j < devices.len(),
        spoken_of(devices[i], ws, port),
        spoken_of(devices[j], ws, port),
    ensures
        all_spoken_of(devices, ws, port).len() >= 2,
    decreases devices.len(),
{
    let rest = devices.drop_last();
    if j < devices.len() - 1 {
        assert(rest[i] == devices[i] && rest[j] == devices[j]);
        lemma_two_spoken_of(rest, ws, port, i, j);
    } else {
        assert(rest[i] == devices[i]);
        lemma_one_spoken_of(rest, ws, port, i);
    }
}

/// A message that fits two devices equally well is ascribed to none.
pub proof fn law_ambiguity_is_not_guessed(
    record: RecordView,
    devices: Seq<DeviceView>,
    boot: Option<Seq<char>>,
    current: Option<u64>,
    i: int,
    j: int,
)
    requires
        0 <= i < j < devices.len(),
        ({
            let names = explicit_names(record.message);
            let ws = words(record.message);
            if names.len() > 0 {
                goes_by_all(devices[i], names) && goes_by_all(devices[j], names)
            } else {
                (spoken_of(devices[i], ws, false) && spoken_of(devices[j], ws, false)) || (
                spoken_of(devices[i], ws, true) && spoken_of(devices[j], ws, true) && all_spoken_of(
                    devices,
                    ws,
                    false,
                ).len() == 0)
            }
        }),
    ensures
        ascribed(record, devices, boot, current) is None,
{
    let names = explicit_names(record.message);
    let ws = words(record.message);
    if names.len() > 0 {
        lemma_two_named(devices, names, i, j);
    } else if spoken_of(devices[i], ws, false) && spoken_of(devices[j], ws, false) {
        lemma_two_spoken_of(devices, ws, false, i, j);
    } else {
        lemma_two_spoken_of(devices, ws, true, i, j);
    }
}

/// A name that a message gives outright decides: neither the age of the record nor
/// the boot matters, and an unknown name is ascribed to nothing, whatever port the
/// message speaks of.
pub proof fn law_explicit_name_decides(
    record: RecordView,
    devices: Seq<DeviceView>,
    boot: Option<Seq<char>>,
    current: Option<u64>,
)
    requires
        explicit_names(record.message).len() > 0,
    ensures
        ascribed(record, devices, boot, current) == ascribed(record, devices, None, None),
        (forall|i: int|
            0 <= i < devices.len() ==> !goes_by_all(
                #[trigger] devices[i],
                explicit_names(record.message),
            )) ==> ascribed(record, devices, boot, current) is None,
{
    let names = explicit_names(record.message);
    lemma_named(devices, names);
    if all_named(devices, names).len() == 1 {
        let d = all_named(devices, names)[0];
        assert(devices.contains(d));
        let i = choose|i: int| 0 <= i < devices.len() && devices[i] == d;
        assert(goes_by_all(devices[i], names));
    }
}

// ---------------------------------------------------------------------------
// Texts
// ---------------------------------------------------------------------------

proof fn lemma_hex_printable(n: nat)
    ensures
        forall|i: int| 0 <= i < hex(n).len() ==> ' ' <= #[trigger] hex(n)[i] <= '~',
    decreases n,
{
    if n >= 16 {
        lemma_hex_printable(n / 16);
        assert forall|i: int| 0 <= i < hex(n).len() implies ' ' <= #[trigger] hex(n)[i] <= '~' by {
            if i < hex(n / 16).len() {
                assert(hex(n)[i] == hex(n / 16)[i]);
            }
        }
    }
}

/// What is printed of a text from outside is printable ASCII: no control character
/// gets through.
pub proof fn law_escaped_text_is_printable(s: Seq<char>)
    ensures
        forall|i: int| 0 <= i < escaped_text(s).len() ==> ' ' <= #[trigger] escaped_text(s)[i]
            <= '~',
    decreases s.len(),
{
    if s.len() > 0 {
        law_escaped_text_is_printable(s.drop_last());
        lemma_hex_printable(s.last() as nat);
        let head = escaped_text(s.drop_last());
        let tail = escaped_char(s.last());
        assert(escaped_text(s) =~= head + tail);
        assert forall|i: int| 0 <= i < escaped_text(s).len() implies ' ' <= #[trigger] escaped_text(
            s,
        )[i] <= '~' by {
            if i < head.len() {
                assert(escaped_text(s)[i] == head[i]);
            } else {
                assert(escaped_text(s)[i] == tail[i - head.len()]);
                if tail.len() > 2 {
                    let h = hex(s.last() as nat);
                    let j = i - head.len();
                    if 3 <= j < 3 + h.len() {
                        assert(tail[j] == h[j - 3]);
                    }
                }
            }
        }
    }
}

/// The text of a notification holds no markup.
pub proof fn law_notification_is_plain_text(s: Seq<char>)
    ensures
        forall|i: int|
            0 <= i < markup_text(s).len() ==> #[trigger] markup_text(s)[i] != '<' && markup_text(
                s,
            )[i] != '>',
    decreases s.len(),
{
    if s.len() > 0 {
        law_notification_is_plain_text(s.drop_last());
        reveal_strlit("&amp;");
        reveal_strlit("&lt;");
        reveal_strlit("&gt;");
        let head = markup_text(s.drop_last());
        let tail = markup_char(s.last());
        assert(markup_text(s) =~= head + tail);
        assert forall|i: int| 0 <= i < markup_text(s).len() implies #[trigger] markup_text(s)[i]
            != '<' && markup_text(s)[i] != '>' by {
            if i < head.len() {
                assert(markup_text(s)[i] == head[i]);
            } else {
                assert(markup_text(s)[i] == tail[i - head.len()]);
            }
        }
    }
}

// ---------------------------------------------------------------------------
// The state file
// ---------------------------------------------------------------------------

proof fn lemma_with_member(
    members: Seq<(Seq<char>, JsonView)>,
    name: Seq<char>,
    value: JsonView,
    other: Seq<char>,
)
    ensures
        named(with_member(members, name, value), name) == Some(value),
        other != name ==> named(with_member(members, name, value), other) == named(members, other),
    decreases members.len(),
{
    let r = with_member(members, name, value);
    if members.len() == 0 {
        assert(r.skip(1) =~= members);
    } else if members[0].0 == name {
        assert(r.skip(1) =~= members.skip(1));
    } else {
        lemma_with_member(members.skip(1), name, value, other);
        assert(r.skip(1) =~= with_member(members.skip(1), name, value));
    }
}

/// A document of the first version becomes one of the second that holds the same but
/// for its version and its disks.
pub proof fn law_upgrade_keeps_the_rest(members: Seq<(Seq<char>, JsonView)>, name: Seq<char>)
    requires
        name != "version"@,
        name != "disks"@,
    ensures
        ({
            let v = JsonView::Object(members);
            &&& document_version(upgraded(v)) == 2
            &&& upgraded(v).child(name) == v.child(name)
        }),
{
    let v = JsonView::Object(members);
    let disks = match named(members, "disks"@) {
        Some(d) => with_member(members, "disks"@, upgraded_disks(d)),
        None => members,
    };
    if named(members, "disks"@) is Some {
        lemma_with_member(members, "disks"@, upgraded_disks(named(members, "disks"@)->0), name);
    }
    lemma_with_member(disks, "version"@, JsonView::Unsigned(2), name);
}

proof fn lemma_without_member(
    members: Seq<(Seq<char>, JsonView)>,
    name: Seq<char>,
    other: Seq<char>,
)
    requires
        other != name,
    ensures
        named(without_member(members, name), other) == named(members, other),
    decreases members.len(),
{
    if members.len() > 0 {
        if members[0].0 != name {
            lemma_without_member(members.skip(1), name, other);
            let r = without_member(members, name);
            assert(r.skip(1) =~= without_member(members.skip(1), name));
        }
    }
}

/// A snapshot of the first version keeps all but the flag for the last self-test,
/// which becomes its status: failed, or unknown, but never passed.
pub proof fn law_upgraded_snapshot_claims_no_success(
    members: Seq<(Seq<char>, JsonView)>,
    failed: bool,
    name: Seq<char>,
)
    requires
        named(members, "self_test_failed"@) == Some(JsonView::Bool(failed)),
        name != "self_test_failed"@,
        name != "self_test_status"@,
    ensures
        ({
            let v = JsonView::Object(members);
            let u = upgraded_snapshot(v);
            &&& u.child("self_test_status"@) == Some(
                JsonView::Text(
                    if failed {
                        "Failed"@
                    } else {
                        "Unknown"@
                    },
                ),
            )
            &&& u.child(name) == v.child(name)
        }),
{
    let rest = without_member(members, "self_test_failed"@);
    let value = JsonView::Text(
        if failed {
            "Failed"@
        } else {
            "Unknown"@
        },
    );
    lemma_without_member(members, "self_test_failed"@, name);
    lemma_with_member(rest, "self_test_status"@, value, name);
}

/// After loading, no history is held under an all-zero WWN, and every other history
/// is still there.
pub proof fn law_loaded_histories_have_owners(disks: Map<Seq<char>, DiskView>, key: Seq<char>)
    ensures
        ({
            let after = owned_disks(disks);
            &&& orphaned(key) ==> !after.contains_key(key)
            &&& !orphaned(key) ==> after.contains_key(key) == disks.contains_key(key)
            &&& after.contains_key(key) ==> after[key].device.key() == disks[key].device.key()
                && after[key].kernel_severity == disks[key].kernel_severity
                && after[key].check_status == disks[key].check_status
        }),
{
    if disks.contains_key(key) && known_wwn(disks[key].device.wwn) is Some {
        lemma_trim_twice(disks[key].device.wwn);
    }
    lemma_empty_wwn();
}

proof fn lemma_orphaned_keys(listing: Seq<(Seq<char>, DiskView)>, key: Seq<char>)
    ensures
        orphaned_keys(listing).contains(key) <==> orphaned(key) && exists|i: int|
            0 <= i < listing.len() && (#[trigger] listing[i]).0 == key,
    decreases listing.len(),
{
    if listing.len() > 0 {
        let rest = listing.drop_last();
        let all = orphaned_keys(listing);
        let some = orphaned_keys(rest);
        lemma_orphaned_keys(rest, key);
        if all.contains(key) {
            let i = choose|i: int| 0 <= i < all.len() && all[i] == key;
            if i < some.len() {
                assert(some[i] == key);
                let j = choose|j: int| 0 <= j < rest.len() && (#[trigger] rest[j]).0 == key;
                assert(listing[j].0 == key);
            } else {
                assert(listing[listing.len() - 1].0 == key);
            }
        }
        if orphaned(key) && exists|i: int| 0 <= i < listing.len() && (#[trigger] listing[i]).0 == key {
            let i = choose|i: int| 0 <= i < listing.len() && (#[trigger] listing[i]).0 == key;
            if i < rest.len() {
                assert(rest[i].0 == key);
                let j = choose|j: int| 0 <= j < some.len() && some[j] == key;
                assert(all[j] == key);
            } else {
                assert(all[all.len() - 1] == key);
            }
        }
    }
}

/// The histories of which the user is warned on loading are those that leave, and no
/// others.
pub proof fn law_what_leaves_is_told(disks: Map<Seq<char>, DiskView>, key: Seq<char>)
    requires
        listable(disks),
    ensures
        orphaned_keys(ordered(disks)).contains(key) <==> disks.contains_key(key) && !owned_disks(
            disks,
        ).contains_key(key),
{
    let listing = ordered(disks);
    lemma_orphaned_keys(listing, key);
    assert(lists(listing, disks));
    if disks.contains_key(key) {
        let i = choose|i: int| 0 <= i < listing.len() && listing[i].0 == key;
        assert(listing[i].0 == key);
    }
}

/// To load what was loaded once changes nothing more.
pub proof fn law_loading_settles(disks: Map<Seq<char>, DiskView>)
    ensures
        owned_disks(owned_disks(disks)) == owned_disks(disks),
{
    let once = owned_disks(disks);
    let twice = owned_disks(once);
    lemma_empty_wwn();
    assert forall|k: Seq<char>| #[trigger] once.contains_key(k) implies twice.contains_key(k)
        && twice[k] == once[k] by {
        lemma_trim_twice(disks[k].device.wwn);
        if disks[k].snapshot is Some {
            lemma_trim_twice(disks[k].snapshot->0.wwn);
        }
    }
    assert(twice =~= once);
}

proof fn lemma_trim_start_ends(s: Seq<char>)
    ensures
        trim_start(s).len() > 0 ==> !white(trim_start(s)[0]),
        trim_start(s).len() <= s.len(),
        trim_start(s) == s.skip(s.len() - trim_start(s).len()),
    decreases s.len(),
{
    if s.len() > 0 && white(s[0]) {
        lemma_trim_start_ends(s.skip(1));
        let t = trim_start(s);
        assert(s.skip(1).skip(s.skip(1).len() - t.len()) =~= s.skip(s.len() - t.len()));
    } else {
        assert(s.skip(0) =~= s);
    }
}

proof fn lemma_trim_end_ends(s: Seq<char>)
    ensures
        trim_end(s).len() > 0 ==> !white(trim_end(s).last()),
        trim_end(s).len() <= s.len(),
        trim_end(s) == s.take(trim_end(s).len() as int),
    decreases s.len(),
{
    if s.len() > 0 && white(s.last()) {
        lemma_trim_end_ends(s.drop_last());
        let t = trim_end(s);
        assert(s.drop_last().take(t.len() as int) =~= s.take(t.len() as int));
    } else {
        assert(s.take(s.len() as int) =~= s);
    }
}

/// To trim a text that was trimmed changes nothing.
proof fn lemma_trim_twice(s: Seq<char>)
    ensures
        trimmed(trimmed(s)) == trimmed(s),
        known_wwn(trimmed(s)) == known_wwn(s),
{
    let a = trim_start(s);
    let t = trim_end(a);
    lemma_trim_start_ends(s);
    lemma_trim_end_ends(a);
    if t.len() > 0 {
        assert(t[0] == a[0]);
    }
    assert(trim_start(t) == t);
    assert(trim_end(t) == t);
}

} // verus!
