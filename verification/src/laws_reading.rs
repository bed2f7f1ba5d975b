//! What holds of a reading: what is remembered of it, what is told, and how two
//! readings relate.

use crate::alert::{EventView, Occasion, Severity};
use crate::config::ConfigView;
use crate::devices::{known_wwn, DeviceView};
use crate::laws::law_same_report_is_silent;
use crate::laws_alert::limit_of;
use crate::monitor::{verdict, Verdict};
use crate::smart::{mismatch, normal_wwn, ReadingView, SnapshotView};
use crate::state::{CheckStatus, DiskView, StateView};
use crate::strmap::{ascending, lemma_listable, listable, lists};
use crate::text::{debug_quoted, lemma_before_irreflexive};
use vstd::prelude::*;

verus! {

// ---------------------------------------------------------------------------
// Whose reading it is
// ---------------------------------------------------------------------------

/// The report is taken for that of another disk exactly if both sides give a serial
/// number and these do not agree, or both give a WWN and these are not the same, or
/// neither gives any of the two on either side and the models differ.
pub proof fn law_what_makes_another_disk(d: DeviceView, s: SnapshotView)
    ensures
        ({
            let serials = d.serial.len() > 0 && s.serial.len() > 0;
            let wwns = known_wwn(d.wwn) is Some && known_wwn(s.wwn) is Some;
            let nameless = d.serial.len() == 0 && s.serial.len() == 0 && known_wwn(d.wwn) is None
                && known_wwn(s.wwn) is None;
            let models = d.model.len() > 0 && s.model.len() > 0;
            &&& mismatch(d, s) is Some <==> (serials && !d.serial_agrees(s.serial)) || (wwns
                && normal_wwn(d.wwn) != normal_wwn(s.wwn)) || (nameless && models && d.model
                != s.model)
            &&& serials && !d.serial_agrees(s.serial) ==> mismatch(d, s) == Some(
                "serial changed during check: "@ + debug_quoted(d.serial) + " -> "@ + debug_quoted(
                    s.serial,
                ),
            )
            &&& !(serials && !d.serial_agrees(s.serial)) && wwns && normal_wwn(d.wwn) != normal_wwn(
                s.wwn,
            ) ==> mismatch(d, s) == Some(
                "WWN changed during check: "@ + debug_quoted(d.wwn) + " -> "@ + debug_quoted(s.wwn),
            )
            &&& nameless && models && d.model != s.model ==> mismatch(d, s) == Some(
                "model changed during check: "@ + debug_quoted(d.model) + " -> "@ + debug_quoted(
                    s.model,
                ),
            )
        }),
{
    let serials = d.serial.len() > 0 && s.serial.len() > 0;
    let wwns = known_wwn(d.wwn) is Some && known_wwn(s.wwn) is Some;
    reveal_strlit("serial");
    reveal_strlit("WWN");
    reveal_strlit("model");
    reveal_strlit(" changed during check: ");
    reveal_strlit("serial changed during check: ");
    reveal_strlit("WWN changed during check: ");
    reveal_strlit("model changed during check: ");
    assert("serial"@ + " changed during check: "@ =~= "serial changed during check: "@);
    assert("WWN"@ + " changed during check: "@ =~= "WWN changed during check: "@);
    assert("model"@ + " changed during check: "@ =~= "model changed during check: "@);
}

/// The reading is that of the disk: the report names no other disk, and the device has
/// not changed meanwhile.
pub open spec fn is_its_own(d: DeviceView, s: SnapshotView, current: Option<u64>) -> bool {
    &&& mismatch(d, s) is None
    &&& d.diskseq is None || current == d.diskseq
}

/// The measurements that are stored of the disk and belong to it.
pub open spec fn own_snapshot(e: DiskView) -> Option<SnapshotView> {
    if e.snapshot is Some && mismatch(e.device, e.snapshot->0) is None {
        e.snapshot
    } else {
        None
    }
}

/// The stored measurements are those of another disk.
pub open spec fn holds_foreign_history(e: DiskView) -> bool {
    e.snapshot is Some && mismatch(e.device, e.snapshot->0) is Some
}

// ---------------------------------------------------------------------------
// What is remembered
// ---------------------------------------------------------------------------

/// What a measurement is after a report: the new value, and the earlier one where there
/// is no new one.
pub open spec fn goes_on<T>(new: Option<T>, earlier: Option<T>, after: Option<T>) -> bool {
    &&& new is Some ==> after == new
    &&& new is None ==> after == earlier
}

/// Each measurement is the new one, else the earlier one; and it counts as stale if and
/// only if it is an earlier one, or was stale in the report.
pub proof fn law_missing_values_live_on(s: SnapshotView, earlier: SnapshotView, key: Seq<char>)
    ensures
        ({
            let new = s.retaining(earlier);
            &&& goes_on(s.passed, earlier.passed, new.passed)
            &&& goes_on(s.temperature, earlier.temperature, new.temperature)
            &&& goes_on(s.power_on_hours, earlier.power_on_hours, new.power_on_hours)
            &&& goes_on(s.available_spare, earlier.available_spare, new.available_spare)
            &&& goes_on(s.spare_threshold, earlier.spare_threshold, new.spare_threshold)
            &&& goes_on(s.percentage_used, earlier.percentage_used, new.percentage_used)
            &&& goes_on(s.remaining_life, earlier.remaining_life, new.remaining_life)
            &&& goes_on(s.critical_warning, earlier.critical_warning, new.critical_warning)
            &&& goes_on(s.prefailure, earlier.prefailure, new.prefailure)
            &&& goes_on(s.self_test, earlier.self_test, new.self_test)
            &&& goes_on(s.self_test_hours, earlier.self_test_hours, new.self_test_hours)
            &&& goes_on(s.self_test_status, earlier.self_test_status, new.self_test_status)
            &&& s.counters.contains_key(key) ==> new.counters.contains_key(key)
                && new.counters[key] == s.counters[key]
            &&& !s.counters.contains_key(key) ==> (new.counters.contains_key(key)
                <==> earlier.counters.contains_key(key)) && (new.counters.contains_key(key)
                ==> new.counters[key] == earlier.counters[key])
            &&& new.model == s.model
            &&& new.serial == s.serial
            &&& new.wwn == s.wwn
            &&& new.firmware == s.firmware
            &&& new.unknown_attributes == s.unknown_attributes
            &&& new.exit == s.exit
            &&& new.issue == s.issue
        }),
{
}

/// A value is marked as stale if and only if the report marks it so itself, or it has
/// none and an earlier report had one.
pub proof fn law_what_is_stale(s: SnapshotView, earlier: SnapshotView, key: Seq<char>)
    ensures
        s.retaining(earlier).stale_fields.contains(key) <==> s.stale_fields.contains(key) || (
        earlier.counters.contains_key(key) && !s.counters.contains_key(key)) || (key == "passed"@
            && s.passed is None && earlier.passed is Some) || (key == "temperature"@
            && s.temperature is None && earlier.temperature is Some) || (key == "power_on_hours"@
            && s.power_on_hours is None && earlier.power_on_hours is Some) || (key
            == "available_spare"@ && s.available_spare is None && earlier.available_spare is Some)
            || (key == "spare_threshold"@ && s.spare_threshold is None
            && earlier.spare_threshold is Some) || (key == "percentage_used"@
            && s.percentage_used is None && earlier.percentage_used is Some) || (key
            == "remaining_life"@ && s.remaining_life is None && earlier.remaining_life is Some) || (
        key == "critical_warning"@ && s.critical_warning is None
            && earlier.critical_warning is Some) || (key == "prefailure"@ && s.prefailure is None
            && earlier.prefailure is Some) || (key == "self_test"@ && s.self_test is None
            && earlier.self_test is Some) || (key == "self_test_hours"@
            && s.self_test_hours is None && earlier.self_test_hours is Some) || (key
            == "self_test_status"@ && s.self_test_status is None
            && earlier.self_test_status is Some),
{
}

/// A reading that is that of the disk is remembered: the report, with the disk's own
/// earlier measurements where it has none; whether it was complete, and if so when.
/// The device and its presence are left as they are.
pub proof fn law_reading_is_remembered(
    e: DiskView,
    s: SnapshotView,
    cfg: ConfigView,
    current: Option<u64>,
    time: u64,
)
    requires
        is_its_own(e.device, s, current),
    ensures
        ({
            let v = verdict(e, Ok(ReadingView::Checked(s)), cfg, current, time);
            &&& !v.race
            &&& v.disk.device == e.device
            &&& v.disk.present == e.present
            &&& v.disk.smart_error == s.issue
            &&& own_snapshot(e) is Some ==> v.disk.snapshot == Some(
                s.retaining(own_snapshot(e)->0),
            )
            &&& own_snapshot(e) is None ==> v.disk.snapshot == Some(s)
            &&& s.issue is None ==> v.disk.check_status == CheckStatus::Checked
                && v.disk.checked_at == Some(time)
            &&& s.issue is Some ==> v.disk.check_status == CheckStatus::Partial
            &&& s.issue is Some && !holds_foreign_history(e) ==> v.disk.checked_at == e.checked_at
            &&& s.issue is Some && holds_foreign_history(e) ==> v.disk.checked_at is None
        }),
{
}

/// Whether a disk is remembered as hot is settled by the temperature of a reading: at
/// the limit of its kind it is hot and no longer well, at the limit less the hysteresis
/// it is not hot, and in between, or without a temperature, nothing changes. The one
/// temperature that would be both needs a hysteresis of zero or less.
pub proof fn law_heat_is_remembered(
    e: DiskView,
    s: SnapshotView,
    cfg: ConfigView,
    current: Option<u64>,
    time: u64,
)
    requires
        is_its_own(e.device, s, current),
        !s.stale_fields.contains("temperature"@),
        e.snapshot is Some ==> !(e.snapshot->0).counters.contains_key("temperature"@),
    ensures
        ({
            let after = verdict(e, Ok(ReadingView::Checked(s)), cfg, current, time).disk;
            let limit = limit_of(e.device.kind, cfg.temperature);
            let low = limit - cfg.temperature.hysteresis;
            let was_hot = e.hot && !holds_foreign_history(e);
            &&& s.temperature matches Some(t) ==> {
                &&& t >= limit && t > low ==> after.hot
                &&& t <= low && t < limit ==> !after.hot
                &&& low < t < limit ==> after.hot == was_hot
                &&& limit <= t <= low ==> after.hot == !was_hot
            }
            &&& s.temperature is None ==> after.hot == was_hot
            &&& after.hot ==> after.severity() != Severity::Info
            &&& after.hot ==> after.health() != "OK"@
        }),
{
    reveal_strlit("OK");
    reveal_strlit("Warning");
    reveal_strlit("Critical");
    reveal_strlit("Unknown");
    assert("OK"@.len() == 2);
    assert("Warning"@.len() == 7);
    assert("Critical"@.len() == 8);
    assert("Unknown"@.len() == 7);
    if own_snapshot(e) is Some {
        law_what_is_stale(s, own_snapshot(e)->0, "temperature"@);
        lemma_temperature_is_no_other();
    }
}

proof fn lemma_temperature_is_no_other()
    ensures
        "temperature"@ != "passed"@,
        "temperature"@ != "power_on_hours"@,
        "temperature"@ != "available_spare"@,
        "temperature"@ != "spare_threshold"@,
        "temperature"@ != "percentage_used"@,
        "temperature"@ != "remaining_life"@,
        "temperature"@ != "critical_warning"@,
        "temperature"@ != "prefailure"@,
        "temperature"@ != "self_test"@,
        "temperature"@ != "self_test_hours"@,
        "temperature"@ != "self_test_status"@,
{
    reveal_strlit("temperature");
    reveal_strlit("passed");
    reveal_strlit("power_on_hours");
    reveal_strlit("available_spare");
    reveal_strlit("spare_threshold");
    reveal_strlit("percentage_used");
    reveal_strlit("remaining_life");
    reveal_strlit("critical_warning");
    reveal_strlit("prefailure");
    reveal_strlit("self_test");
    reveal_strlit("self_test_hours");
    reveal_strlit("self_test_status");
    assert("temperature"@.len() == 11);
    assert("passed"@.len() == 6);
    assert("power_on_hours"@.len() == 14);
    assert("available_spare"@.len() == 15);
    assert("spare_threshold"@.len() == 15);
    assert("percentage_used"@.len() == 15);
    assert("remaining_life"@.len() == 14);
    assert("critical_warning"@.len() == 16);
    assert("prefailure"@.len() == 10);
    assert("self_test"@.len() == 9);
    assert("self_test_hours"@.len() == 15);
    assert("self_test_status"@.len() == 16);
}

// ---------------------------------------------------------------------------
// What is told
// ---------------------------------------------------------------------------

/// A reading of the disk itself tells how it differs from what was remembered of the
/// disk, and then that the report was incomplete, unless that was told already, or that
/// it is complete again.
pub proof fn law_reading_tells_the_difference(
    e: DiskView,
    s: SnapshotView,
    cfg: ConfigView,
    current: Option<u64>,
    time: u64,
)
    requires
        is_its_own(e.device, s, current),
    ensures
        ({
            let v = verdict(e, Ok(ReadingView::Checked(s)), cfg, current, time);
            let o = Occasion {
                time,
                device: e.device,
                old: own_snapshot(e),
                new: v.disk.snapshot->0,
            };
            let was_hot = e.hot && !holds_foreign_history(e);
            let trouble = if holds_foreign_history(e) {
                None
            } else {
                e.smart_error
            };
            let note = |severity: Severity, message: Seq<char>|
                EventView {
                    timestamp: time,
                    severity,
                    disk: Some(e.device),
                    category: "smart_read"@,
                    message,
                };
            let changes = o.events(was_hot, cfg.temperature);
            &&& s.issue is Some && trouble != s.issue ==> v.events == changes.push(
                note(Severity::Warning, s.issue->0),
            )
            &&& s.issue is Some && trouble == s.issue ==> v.events == changes
            &&& s.issue is None && trouble is Some ==> v.events == changes.push(
                note(Severity::Info, "SMART reading recovered"@),
            )
            &&& s.issue is None && trouble is None ==> v.events == changes
        }),
{
}

/// A reading that is not that of the disk, that failed, or that found the disk asleep
/// changes only what is known of the reading; it is told once while it lasts, and sleep
/// is not told at all.
pub proof fn law_missed_reading(
    e: DiskView,
    result: Result<ReadingView, Seq<char>>,
    cfg: ConfigView,
    current: Option<u64>,
    time: u64,
)
    ensures
        ({
            let v = verdict(e, result, cfg, current, time);
            let note = |category: Seq<char>, message: Seq<char>|
                EventView {
                    timestamp: time,
                    severity: Severity::Warning,
                    disk: Some(e.device),
                    category,
                    message,
                };
            &&& result matches Ok(ReadingView::Sleeping) ==> !v.race && v.events.len() == 0 && v.disk
                == (DiskView { check_status: CheckStatus::Sleeping, smart_error: None, ..e })
            &&& result matches Err(error) ==> v.race && v.disk == (DiskView {
                check_status: CheckStatus::Failed,
                smart_error: Some(error),
                ..e
            }) && v.events == (if e.smart_error == Some(error) {
                Seq::empty()
            } else {
                seq![note("smart_read"@, error)]
            })
            &&& result matches Ok(ReadingView::Checked(s)) ==> (!is_its_own(e.device, s, current)
                ==> {
                let error = if mismatch(e.device, s) is Some {
                    mismatch(e.device, s)->0
                } else {
                    "device disappeared or diskseq changed during SMART check"@
                };
                v.race && v.disk == (DiskView {
                    check_status: CheckStatus::StaleRace,
                    smart_error: Some(error),
                    ..e
                }) && v.events == (if e.smart_error == Some(error) {
                    Seq::empty()
                } else {
                    seq![note("identity_race"@, error)]
                })
            })
        }),
{
}

// ---------------------------------------------------------------------------
// Two readings
// ---------------------------------------------------------------------------

proof fn lemma_union_listable(a: Map<Seq<char>, u64>, b: Map<Seq<char>, u64>, s: Seq<(Seq<char>, u64)>)
    requires
        listable(a),
        lists(s, b),
    ensures
        listable(a.union_prefer_right(b)),
    decreases s.len(),
{
    if s.len() == 0 {
        assert forall|k: Seq<char>| !b.contains_key(k) by {
            if b.contains_key(k) {
                let i = choose|i: int| 0 <= i < s.len() && s[i].0 == k;
            }
        }
        assert(a.union_prefer_right(b) =~= a);
    } else {
        let t = s.drop_last();
        let k = s[s.len() - 1].0;
        let v = s[s.len() - 1].1;
        let rest = b.remove(k);
        assert(b.contains_key(k) && b[k] == v);
        assert forall|i: int| 0 <= i < t.len() implies rest.contains_key((#[trigger] t[i]).0)
            && rest[t[i].0] == t[i].1 by {
            assert(t[i] == s[i]);
            assert(b.contains_key(s[i].0));
            if s[i].0 == k {
                lemma_before_irreflexive(k);
                assert(crate::text::before(s[i].0, s[s.len() - 1].0));
            }
        }
        assert(ascending(t)) by {
            assert forall|i: int, j: int| 0 <= i < j < t.len() implies crate::text::before(
                (#[trigger] t[i]).0,
                (#[trigger] t[j]).0,
            ) by {
                assert(crate::text::before(s[i].0, s[j].0));
            }
        }
        assert forall|q: Seq<char>| #[trigger] rest.contains_key(q) implies exists|i: int|
            0 <= i < t.len() && t[i].0 == q by {
            assert(b.contains_key(q));
            let i = choose|i: int| 0 <= i < s.len() && s[i].0 == q;
            assert(t[i].0 == q);
        }
        lemma_union_listable(a, rest, t);
        lemma_listable(a.union_prefer_right(rest), k, v);
        assert(a.union_prefer_right(b) =~= a.union_prefer_right(rest).insert(k, v));
    }
}

proof fn lemma_retained_twice(s: SnapshotView, earlier: SnapshotView)
    ensures
        s.retaining(s.retaining(earlier)) == s.retaining(earlier),
        s.retaining(s) == s,
{
    let a = s.retaining(earlier);
    let b = s.retaining(a);
    assert(b.counters =~= a.counters);
    assert forall|k: Seq<char>| b.stale_fields.contains(k) == a.stale_fields.contains(k) by {
        law_what_is_stale(s, earlier, k);
        law_what_is_stale(s, a, k);
    }
    assert(b.stale_fields =~= a.stale_fields);
    let c = s.retaining(s);
    assert(c.counters =~= s.counters);
    assert forall|k: Seq<char>| c.stale_fields.contains(k) == s.stale_fields.contains(k) by {
        law_what_is_stale(s, s, k);
    }
    assert(c.stale_fields =~= s.stale_fields);
}

/// The same reading twice in a row, whatever it is, tells nothing the second time, and
/// leaves the disk as it was after the first, but for the time of the reading. The one
/// temperature that does not settle, at or above the limit and yet not above the limit
/// less the hysteresis, is left out: it needs a hysteresis of zero or less.
pub proof fn law_same_reading_tells_nothing(
    e: DiskView,
    result: Result<ReadingView, Seq<char>>,
    cfg: ConfigView,
    current: Option<u64>,
    time: u64,
    later: u64,
)
    requires
        e.snapshot is Some ==> listable((e.snapshot->0).counters),
        result matches Ok(ReadingView::Checked(s)) ==> listable(s.counters) && (
        s.temperature is None || s.temperature->0 < limit_of(e.device.kind, cfg.temperature)
            || s.temperature->0 > limit_of(e.device.kind, cfg.temperature)
            - cfg.temperature.hysteresis),
    ensures
        ({
            let first = verdict(e, result, cfg, current, time).disk;
            let again = verdict(first, result, cfg, current, later);
            &&& again.events.len() == 0
            &&& again.disk == (DiskView { checked_at: again.disk.checked_at, ..first })
            &&& again.disk.checked_at == (if first.check_status == CheckStatus::Checked {
                Some(later)
            } else {
                first.checked_at
            })
        }),
{
    if result matches Ok(ReadingView::Checked(s)) && is_its_own(e.device, s, current) {
        let s = result->Ok_0->0;
        let first = verdict(e, result, cfg, current, time).disk;
        law_reading_is_remembered(e, s, cfg, current, time);
        let new = first.snapshot->0;
        if own_snapshot(e) is Some {
            lemma_retained_twice(s, own_snapshot(e)->0);
            let listing = choose|l: Seq<(Seq<char>, u64)>| lists(l, s.counters);
            lemma_union_listable((own_snapshot(e)->0).counters, s.counters, listing);
        } else {
            lemma_retained_twice(s, s);
        }
        assert(listable(new.counters));
        assert(s.retaining(new) == new);
        assert(mismatch(first.device, new) == mismatch(e.device, s));
        let o = Occasion { time: later, device: e.device, old: Some(new), new };
        let was_hot = e.hot && !holds_foreign_history(e);
        assert(first.hot == o.hot_after(was_hot, cfg.temperature));
        assert(o.fresh_temperature() is Some ==> s.temperature == new.temperature) by {
            if own_snapshot(e) is Some {
                law_what_is_stale(s, own_snapshot(e)->0, "temperature"@);
            }
        }
        law_same_report_is_silent(o, was_hot, cfg.temperature);
        law_reading_tells_the_difference(first, s, cfg, current, later);
        law_reading_is_remembered(first, s, cfg, current, later);
        assert(o.hot_after(first.hot, cfg.temperature) == first.hot);
    }
}

// ---------------------------------------------------------------------------
// The state
// ---------------------------------------------------------------------------

/// A reading of a device is judged by what is remembered under its key, with the device
/// as it is now; a device that is not remembered starts without a history.
pub proof fn law_reading_uses_the_history(
    state: StateView,
    d: DeviceView,
    result: Result<ReadingView, Seq<char>>,
    cfg: ConfigView,
    current: Option<u64>,
    time: u64,
)
    ensures
        state.disks.contains_key(d.key()) ==> state.reading_verdict(d, result, cfg, current, time)
            == verdict(
            DiskView { device: d, present: true, ..state.disks[d.key()] },
            result,
            cfg,
            current,
            time,
        ),
        !state.disks.contains_key(d.key()) ==> state.reading_verdict(d, result, cfg, current, time)
            == verdict(
            DiskView {
                device: d,
                present: true,
                snapshot: None,
                checked_at: None,
                hot: false,
                smart_error: None,
                check_status: CheckStatus::Never,
                kernel_severity: None,
                kernel_last_message: None,
                kernel_last_seen: None,
            },
            result,
            cfg,
            current,
            time,
        ),
{
}

/// Of the events, the last hundred are remembered, in their order; nothing else changes.
pub proof fn law_last_events_are_remembered(state: StateView, events: Seq<EventView>)
    requires
        state.recent_alerts.len() <= 100,
    ensures
        ({
            let all = state.recent_alerts + events;
            let kept = if all.len() > 100 {
                all.skip(all.len() - 100)
            } else {
                all
            };
            state.remembering_all(events) == StateView { recent_alerts: kept, ..state }
        }),
    decreases events.len(),
{
    let all = state.recent_alerts + events;
    let kept = if all.len() > 100 {
        all.skip(all.len() - 100)
    } else {
        all
    };
    if events.len() == 0 {
        assert(kept =~= state.recent_alerts);
    } else {
        let rest = events.drop_last();
        law_last_events_are_remembered(state, rest);
        let before = state.remembering_all(rest).recent_alerts;
        let some = state.recent_alerts + rest;
        assert(all =~= some.push(events.last()));
        assert(state.remembering_all(events).recent_alerts =~= kept);
    }
}

/// The last hundred of the events.
pub open spec fn last_hundred(events: Seq<EventView>) -> Seq<EventView> {
    if events.len() > 100 {
        events.skip(events.len() - 100)
    } else {
        events
    }
}

/// What came of a reading is what is remembered under the key of the device, and what it
/// tells is added to the events that are remembered.
pub proof fn law_verdict_is_stored(state: StateView, d: DeviceView, v: Verdict)
    requires
        state.recent_alerts.len() <= 100,
    ensures
        state.after_reading(d, v) == (StateView {
            disks: state.disks.insert(d.key(), v.disk),
            recent_alerts: last_hundred(state.recent_alerts + v.events),
            ..state
        }),
{
    let start = StateView { disks: state.disks.insert(d.key(), v.disk), ..state };
    law_last_events_are_remembered(start, v.events);
}

} // verus!
