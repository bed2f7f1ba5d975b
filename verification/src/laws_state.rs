//! What holds of the memory: the verdict on a disk, what the kernel reported, what was
//! notified of, and the state file.

use crate::alert::{as_grave, graver, Event, EventView, Severity};
use crate::config::{watched, ConfigView};
use crate::devices::{clean_wwn, known_wwn, Device, DeviceView};
use crate::json::{named, JsonView};
use crate::kernel::{ascribed, classified, Record, RecordView};
use crate::laws_alert::grave_counter;
use crate::laws_reading::last_hundred;
use crate::monitor::{watched_match, NoticeView};
use crate::smart::{SelfTestStatus, Snapshot, SnapshotView};
use crate::state::{
    disks_are_objects, document_version, empty_state, notice_key, orphaned, owned_disks, upgraded, upgraded_disk,
    upgraded_disks, upgraded_snapshot, with_member, without_member, CheckStatus, DiskState, DiskView,
    State, StateView,
};
use vstd::prelude::*;

verus! {

// ---------------------------------------------------------------------------
// The verdict on a disk
// ---------------------------------------------------------------------------

/// The measurements say that the disk fails.
pub open spec fn says_it_fails(s: SnapshotView) -> bool {
    ||| s.passed == Some(false)
    ||| s.prefailure == Some(true)
    ||| s.critical_warning is Some && s.critical_warning->0 != 0
    ||| exists|k: Seq<char>| #[trigger]
        s.counters.contains_key(k) && grave_counter(k) && s.counters[k] > 0
}

/// The measurements, such as were made now, say that the disk fails.
pub open spec fn says_now_it_fails(s: SnapshotView) -> bool {
    ||| s.passed == Some(false) && !s.stale_fields.contains("passed"@)
    ||| s.prefailure == Some(true) && !s.stale_fields.contains("prefailure"@)
    ||| s.critical_warning is Some && s.critical_warning->0 != 0 && !s.stale_fields.contains(
        "critical_warning"@,
    )
    ||| exists|k: Seq<char>| #[trigger]
        s.counters.contains_key(k) && grave_counter(k) && s.counters[k] > 0
            && !s.stale_fields.contains(k)
}

/// The measurements call for a warning.
pub open spec fn gives_cause_for_worry(s: SnapshotView) -> bool {
    ||| s.self_test_status == Some(SelfTestStatus::Failed)
    ||| s.exit.past_threshold
    ||| s.exit.error_log
    ||| s.exit.self_test_log
    ||| s.percentage_used is Some && s.percentage_used->0 >= 100
    ||| s.remaining_life is Some && s.remaining_life->0 <= 10
    ||| s.available_spare is Some && s.spare_threshold is Some && s.available_spare->0
        < s.spare_threshold->0
    ||| exists|k: Seq<char>| #[trigger] s.counters.contains_key(k) && s.counters[k] > 0
}

/// How grave the condition of a disk is. It is critical exactly if the kernel reported
/// critical trouble or the measurements say that the disk fails; else it calls for a
/// warning exactly if the kernel reported a lesser trouble, the disk is hot or cannot be
/// read, or the measurements give cause.
pub proof fn law_severity_of_a_disk(d: DiskView)
    ensures
        ({
            let grave = d.kernel_severity == Some(Severity::Critical) || (d.snapshot is Some
                && says_it_fails(d.snapshot->0));
            let worry = d.kernel_severity == Some(Severity::Warning) || d.hot
                || d.smart_error is Some || (d.snapshot is Some && gives_cause_for_worry(
                d.snapshot->0,
            ));
            &&& d.severity() == Severity::Critical <==> grave
            &&& d.severity() == Severity::Warning <==> !grave && worry
            &&& d.severity() == Severity::Info <==> !grave && !worry
        }),
{
    if d.snapshot is Some {
        let s = d.snapshot->0;
        if s.critical_count() {
            let k = choose|k: Seq<char>| #[trigger]
                s.counters.contains_key(k) && s.counters[k] > 0
                    && crate::alert::severity_of_counter(k) == Severity::Critical;
            assert(grave_counter(k));
            assert(says_it_fails(s));
        }
        if exists|k: Seq<char>| #[trigger]
            s.counters.contains_key(k) && grave_counter(k) && s.counters[k] > 0 {
            let k = choose|k: Seq<char>| #[trigger]
                s.counters.contains_key(k) && grave_counter(k) && s.counters[k] > 0;
            assert(crate::alert::severity_of_counter(k) == Severity::Critical);
            assert(s.critical_count());
        }
        assert(s.any_count() <==> exists|k: Seq<char>| #[trigger]
            s.counters.contains_key(k) && s.counters[k] > 0);
        assert((s.gravity() == Severity::Critical) == says_it_fails(s));
        assert((s.gravity() == Severity::Warning) == (!says_it_fails(s) && gives_cause_for_worry(
            s,
        )));
    }
}

/// The health of a disk. A disk that the kernel reports as critical, or that says in the
/// last reading that it fails, is critical. Else it is unknown unless the last reading
/// was complete, with a verdict and nothing left over from earlier ones; and then it is
/// as its severity says.
pub proof fn law_health_of_a_disk(d: DiskView)
    ensures
        ({
            let surely = d.kernel_severity == Some(Severity::Critical) || ((d.check_status
                == CheckStatus::Checked || d.check_status == CheckStatus::Partial)
                && d.snapshot is Some && says_now_it_fails(d.snapshot->0));
            let known = d.check_status == CheckStatus::Checked && d.snapshot is Some
                && d.snapshot->0.issue is None && d.snapshot->0.passed is Some
                && d.snapshot->0.stale_fields == Set::<Seq<char>>::empty();
            &&& surely ==> d.health() == "Critical"@
            &&& !surely && !known ==> d.health() == "Unknown"@
            &&& !surely && known && d.severity() == Severity::Critical ==> d.health() == "Critical"@
            &&& !surely && known && d.severity() == Severity::Warning ==> d.health() == "Warning"@
            &&& !surely && known && d.severity() == Severity::Info ==> d.health() == "OK"@
        }),
{
    if d.snapshot is Some {
        let s = d.snapshot->0;
        if s.fresh_critical_count() {
            let k = choose|k: Seq<char>| #[trigger]
                s.counters.contains_key(k) && s.counters[k] > 0 && !s.stale_fields.contains(k)
                    && crate::alert::severity_of_counter(k) == Severity::Critical;
            assert(grave_counter(k));
            assert(says_now_it_fails(s));
        }
        if exists|k: Seq<char>| #[trigger]
            s.counters.contains_key(k) && grave_counter(k) && s.counters[k] > 0
                && !s.stale_fields.contains(k) {
            let k = choose|k: Seq<char>| #[trigger]
                s.counters.contains_key(k) && grave_counter(k) && s.counters[k] > 0
                    && !s.stale_fields.contains(k);
            assert(crate::alert::severity_of_counter(k) == Severity::Critical);
            assert(s.fresh_critical_count());
        }
        assert(s.freshly_failing() == says_now_it_fails(s));
    }
}

/// The graver of two severities is one of them, is as grave as both, and does not depend
/// on their order.
pub proof fn law_graver(a: Severity, b: Severity)
    ensures
        graver(a, b) == a || graver(a, b) == b,
        graver(a, b) == graver(b, a),
        a == Severity::Critical ==> graver(a, b) == Severity::Critical,
        a == Severity::Warning ==> graver(a, b) != Severity::Info,
        as_grave(graver(a, b), a),
        as_grave(a, b) <==> a == b || a == Severity::Critical || b == Severity::Info,
{
}

/// At first nothing is remembered, in the current version of the state.
pub proof fn law_nothing_is_remembered_at_first(key: Seq<char>)
    ensures
        empty_state().version == 2,
        !empty_state().disks.contains_key(key),
        !empty_state().notification_times.contains_key(key),
        empty_state().recent_alerts.len() == 0,
        empty_state().kernel_seen_cursors.len() == 0,
        empty_state().kernel_cursor is None,
        empty_state().kernel_boot_id is None,
        empty_state().kernel_watermark is None,
{
}

// ---------------------------------------------------------------------------
// Kernel records
// ---------------------------------------------------------------------------

/// A record is accepted exactly if it is not of another boot, its cursor is not the last
/// one nor one of those seen, and it is not older than the newest one.
pub proof fn law_what_is_accepted(s: StateView, r: RecordView)
    ensures
        s.accepts(r) <==> (r.boot_id is None || s.kernel_boot_id is None || r.boot_id
            == s.kernel_boot_id) && (r.cursor is None || (s.kernel_cursor != r.cursor
            && !s.kernel_seen_cursors.contains(r.cursor->0))) && (r.monotonic_usec is None
            || s.kernel_watermark is None || r.monotonic_usec->0 >= s.kernel_watermark->0),
{
}

/// What is remembered of an accepted record: its cursor as the last one and, of those
/// seen, the newest; the time of the newest record. Nothing else changes.
pub proof fn law_accepted_record_is_remembered(s: StateView, r: RecordView)
    requires
        s.kernel_seen_cursors.len() <= 2048,
    ensures
        ({
            let after = s.having_accepted(r);
            &&& r.cursor is Some ==> after.kernel_cursor == r.cursor
            &&& r.cursor is None ==> after.kernel_cursor == s.kernel_cursor
                && after.kernel_seen_cursors == s.kernel_seen_cursors
            &&& r.cursor is Some && s.kernel_seen_cursors.len() < 2048
                ==> after.kernel_seen_cursors == s.kernel_seen_cursors + seq![r.cursor->0]
            &&& r.cursor is Some && s.kernel_seen_cursors.len() == 2048
                ==> after.kernel_seen_cursors == s.kernel_seen_cursors.skip(1) + seq![r.cursor->0]
            &&& r.monotonic_usec is None ==> after.kernel_watermark == s.kernel_watermark
            &&& r.monotonic_usec is Some ==> after.kernel_watermark is Some && (
            after.kernel_watermark == r.monotonic_usec || after.kernel_watermark
                == s.kernel_watermark) && after.kernel_watermark->0 >= r.monotonic_usec->0 && (
            s.kernel_watermark is Some ==> after.kernel_watermark->0 >= s.kernel_watermark->0)
            &&& after.kernel_boot_id == s.kernel_boot_id
            &&& after.disks == s.disks
            &&& after.recent_alerts == s.recent_alerts
            &&& after.notification_times == s.notification_times
            &&& after.version == s.version
        }),
{
    if r.cursor is Some {
        let after = s.having_accepted(r).kernel_seen_cursors;
        if s.kernel_seen_cursors.len() < 2048 {
            assert(after =~= s.kernel_seen_cursors + seq![r.cursor->0]);
        } else {
            assert(after =~= s.kernel_seen_cursors.skip(1) + seq![r.cursor->0]);
        }
    }
}

/// Positions in the journal outlast everything but another boot.
pub proof fn law_same_boot_keeps_positions(s: StateView)
    ensures
        s.for_boot(s.kernel_boot_id) == s,
{
}

/// The event of a record of trouble: at the time of the record, or else now, with the
/// record's message.
pub open spec fn event_of(
    r: RecordView,
    severity: Severity,
    kind: Seq<char>,
    disk: Option<DeviceView>,
    time: u64,
) -> EventView {
    EventView {
        timestamp: if r.timestamp is Some {
            r.timestamp->0
        } else {
            time
        },
        severity,
        disk,
        category: "kernel_"@ + kind,
        message: r.message,
    }
}

/// An accepted record of trouble is remembered as an event, and given out to be told;
/// it is sent unless one of its kind was sent a short while ago.
pub proof fn law_trouble_is_told(
    s: StateView,
    r: RecordView,
    disk: Option<DeviceView>,
    cfg: ConfigView,
    time: u64,
    severity: Severity,
    kind: Seq<char>,
)
    requires
        s.accepts(r),
        classified(r.message) == Some((severity, kind)),
    ensures
        ({
            let e = event_of(r, severity, kind, disk, time);
            let after = s.after_record(r, disk, cfg, time);
            let told = s.record_notices(r, disk, cfg, time);
            &&& after.recent_alerts.len() > 0
            &&& after.recent_alerts.last() == e
            &&& s.recent_alerts.len() <= 100 ==> after.recent_alerts == last_hundred(
                s.recent_alerts.push(e),
            )
            &&& after == (StateView {
                disks: after.disks,
                recent_alerts: after.recent_alerts,
                notification_times: after.notification_times,
                ..s.having_accepted(r)
            })
            &&& told.len() == 1
            &&& told[0].event == e
            &&& told[0].send <==> s.may_notify(e, time, cfg.alerts.kernel_cooldown_seconds)
            &&& after.notification_times == s.having_asked(
                e,
                time,
                cfg.alerts.kernel_cooldown_seconds,
            ).notification_times
        }),
{
}

/// What is remembered of the disk of an accepted record of trouble: the gravest severity
/// so far, and the message and the time of this record. A disk that was not known is
/// known from then on, as one that was never read.
pub proof fn law_disk_of_a_record(
    s: StateView,
    r: RecordView,
    d: DeviceView,
    cfg: ConfigView,
    time: u64,
    severity: Severity,
    kind: Seq<char>,
)
    requires
        s.accepts(r),
        classified(r.message) == Some((severity, kind)),
    ensures
        ({
            let disks = s.after_record(r, Some(d), cfg, time).disks;
            let after = disks[d.key()];
            let had = s.disks.contains_key(d.key());
            let worst = if had {
                s.disks[d.key()].kernel_severity
            } else {
                None
            };
            &&& disks.contains_key(d.key())
            &&& after.kernel_last_message == Some(r.message)
            &&& after.kernel_last_seen == Some(
                if r.timestamp is Some {
                    r.timestamp->0
                } else {
                    time
                },
            )
            &&& after.kernel_severity == (if worst == Some(Severity::Critical) {
                worst
            } else {
                Some(severity)
            })
            &&& !had ==> after.device == d && after.present && after.snapshot is None
                && after.check_status == CheckStatus::Never && !after.hot && after.smart_error
                is None && after.checked_at is None
        }),
{
    crate::laws_kernel::law_what_is_a_warning(r.message);
}

/// A record that tells of no trouble is taken in and changes nothing else.
pub proof fn law_harmless_record(
    s: StateView,
    r: RecordView,
    disk: Option<DeviceView>,
    cfg: ConfigView,
    time: u64,
)
    requires
        s.accepts(r),
        classified(r.message) is None,
    ensures
        s.after_record(r, disk, cfg, time) == s.having_accepted(r),
        s.record_notices(r, disk, cfg, time) == Seq::<NoticeView>::empty(),
{
}

/// A record is one of a disk only where the disk is watched.
pub proof fn law_records_of_watched_disks(
    r: RecordView,
    devices: Seq<DeviceView>,
    cfg: ConfigView,
    boot: Option<Seq<char>>,
    current: Option<u64>,
    d: DeviceView,
)
    ensures
        watched_match(r, devices, cfg, boot, current) == Some(d) <==> ascribed(
            r,
            devices,
            boot,
            current,
        ) == Some(d) && watched(cfg, d.serial),
{
}

// ---------------------------------------------------------------------------
// Notifications
// ---------------------------------------------------------------------------

/// A notification of the kind was sent so short a while ago that another is held back.
/// A clock that went back counts as no time.
pub open spec fn held_back(s: StateView, kind: Seq<char>, time: u64, cooldown: u64) -> bool {
    &&& s.notification_times.contains_key(kind)
    &&& (if time <= s.notification_times[kind] {
        0int
    } else {
        time - s.notification_times[kind]
    }) < cooldown
}

/// An event may be notified of exactly if none of its kind was a short while ago. To ask
/// for it, where it may, sets its time; the times of others that no longer hold anything
/// back are forgotten, and nothing else changes.
pub proof fn law_when_to_notify(
    s: StateView,
    e: EventView,
    time: u64,
    cooldown: u64,
    other: Seq<char>,
)
    ensures
        ({
            let after = s.having_asked(e, time, cooldown);
            let kind = notice_key(e);
            &&& s.may_notify(e, time, cooldown) <==> !held_back(s, kind, time, cooldown)
            &&& !held_back(s, kind, time, cooldown) ==> after.notification_times.contains_key(kind)
                && after.notification_times[kind] == time
            &&& other != kind || held_back(s, kind, time, cooldown)
                ==> (after.notification_times.contains_key(other) <==> held_back(
                s,
                other,
                time,
                cooldown,
            )) && (after.notification_times.contains_key(other) ==> after.notification_times[other]
                == s.notification_times[other])
            &&& after == (StateView { notification_times: after.notification_times, ..s })
        }),
{
}

proof fn lemma_severity_names_differ()
    ensures
        "Info"@ != "Warning"@,
        "Info"@ != "Critical"@,
        "Warning"@ != "Critical"@,
{
    reveal_strlit("Info");
    reveal_strlit("Warning");
    reveal_strlit("Critical");
    assert("Info"@.len() == 4);
    assert("Warning"@.len() == 7);
    assert("Critical"@.len() == 8);
}

proof fn lemma_same_tail(a: Seq<char>, b: Seq<char>, c: Seq<char>)
    requires
        a + b == a + c,
    ensures
        b == c,
{
    assert(b =~= (a + b).skip(a.len() as int));
    assert(c =~= (a + c).skip(a.len() as int));
}

/// The kind of an event is settled by its category, its severity and the key of its
/// disk; the message and the time do not matter. Events of the same category and disk
/// are of different kinds where their severities differ.
pub proof fn law_kinds_of_notifications(a: EventView, b: EventView)
    requires
        a.category == b.category,
        a.disk is Some <==> b.disk is Some,
        a.disk is Some ==> (a.disk->0).key() == (b.disk->0).key(),
    ensures
        notice_key(a) == notice_key(b) <==> a.severity == b.severity,
{
    lemma_severity_names_differ();
    if notice_key(a) == notice_key(b) {
        let front = a.category + ":"@ + (match a.disk {
            Some(d) => d.key(),
            None => "uncorrelated"@,
        }) + ":"@;
        lemma_same_tail(
            front,
            crate::alert::severity_text(a.severity),
            crate::alert::severity_text(b.severity),
        );
    }
}

// ---------------------------------------------------------------------------
// The state file
// ---------------------------------------------------------------------------

/// The version of a document is that of its member, and zero without one.
pub proof fn law_version_of_a_document(v: JsonView)
    ensures
        v.at("version"@) is Unsigned ==> document_version(v) == v.at("version"@)->Unsigned_0,
        !(v.at("version"@) is Unsigned) ==> document_version(v) == 0,
{
}

/// A document of the first version can be upgraded exactly if each of its disks is an
/// object or nothing.
pub proof fn law_what_can_be_upgraded(v: JsonView, disks: Seq<(Seq<char>, JsonView)>)
    requires
        v.at("disks"@) == JsonView::Object(disks),
    ensures
        disks_are_objects(v) <==> forall|i: int|
            0 <= i < disks.len() ==> (#[trigger] disks[i]).1 is Object || disks[i].1 == JsonView::Null,
{
}

proof fn lemma_member_is_set(
    members: Seq<(Seq<char>, JsonView)>,
    name: Seq<char>,
    value: JsonView,
    other: Seq<char>,
)
    ensures
        named(with_member(members, name, value), name) == Some(value),
        other != name ==> named(with_member(members, name, value), other) == named(members, other),
    decreases members.len(),
{
    let r = with_member(members, name, value);
    if members.len() == 0 {
        assert(r.skip(1) =~= members);
    } else if members[0].0 == name {
        assert(r.skip(1) =~= members.skip(1));
    } else {
        lemma_member_is_set(members.skip(1), name, value, other);
        assert(r.skip(1) =~= with_member(members.skip(1), name, value));
    }
}

proof fn lemma_member_is_gone(
    members: Seq<(Seq<char>, JsonView)>,
    name: Seq<char>,
    other: Seq<char>,
)
    ensures
        other != name ==> named(without_member(members, name), other) == named(members, other),
        without_member(members, name).len() == (if named(members, name) is Some {
            members.len() - 1
        } else {
            members.len() as int
        }),
    decreases members.len(),
{
    if members.len() > 0 {
        if members[0].0 != name {
            lemma_member_is_gone(members.skip(1), name, other);
            let r = without_member(members, name);
            assert(r.skip(1) =~= without_member(members.skip(1), name));
        }
    }
}

proof fn lemma_each_is_upgraded(disks: Seq<(Seq<char>, JsonView)>, key: Seq<char>)
    ensures
        upgraded_disks(JsonView::Object(disks)).child(key) == (match named(disks, key) {
            Some(d) => Some(upgraded_disk(d)),
            None => None,
        }),
    decreases disks.len(),
{
    let r = Seq::new(disks.len(), |i: int| (disks[i].0, upgraded_disk(disks[i].1)));
    assert(upgraded_disks(JsonView::Object(disks)) == JsonView::Object(r));
    if disks.len() > 0 && disks[0].0 != key {
        let rest = disks.skip(1);
        lemma_each_is_upgraded(rest, key);
        let q = Seq::new(rest.len(), |i: int| (rest[i].0, upgraded_disk(rest[i].1)));
        assert(r.skip(1) =~= q);
    }
}

/// In a document that was upgraded, every disk is the one that was there, with its
/// snapshot upgraded and all else as it was.
pub proof fn law_each_disk_is_upgraded(
    members: Seq<(Seq<char>, JsonView)>,
    disks: Seq<(Seq<char>, JsonView)>,
    disk: Seq<(Seq<char>, JsonView)>,
    key: Seq<char>,
    name: Seq<char>,
)
    requires
        named(members, "disks"@) == Some(JsonView::Object(disks)),
        named(disks, key) == Some(JsonView::Object(disk)),
    ensures
        ({
            let after = upgraded(JsonView::Object(members)).at("disks"@).at(key);
            let before = JsonView::Object(disk);
            &&& name != "snapshot"@ ==> after.child(name) == before.child(name)
            &&& before.child("snapshot"@) is None ==> after.child("snapshot"@) is None
            &&& before.child("snapshot"@) matches Some(s) ==> after.child("snapshot"@) == Some(
                upgraded_snapshot(s),
            )
        }),
{
    reveal_strlit("version");
    reveal_strlit("disks");
    assert("version"@.len() == 7 && "disks"@.len() == 5);
    let inner = upgraded_disks(JsonView::Object(disks));
    let set = with_member(members, "disks"@, inner);
    lemma_member_is_set(members, "disks"@, inner, "version"@);
    lemma_member_is_set(set, "version"@, JsonView::Unsigned(2), "disks"@);
    lemma_each_is_upgraded(disks, key);
    if named(disk, "snapshot"@) is Some {
        lemma_member_is_set(
            disk,
            "snapshot"@,
            upgraded_snapshot(named(disk, "snapshot"@)->0),
            name,
        );
    }
}

/// A snapshot without the old flag for the last self-test stays as it is; from one where
/// the flag tells nothing the flag is taken, and all else stays.
pub proof fn law_snapshot_without_the_old_flag(
    members: Seq<(Seq<char>, JsonView)>,
    name: Seq<char>,
)
    ensures
        named(members, "self_test_failed"@) is None ==> upgraded_snapshot(
            JsonView::Object(members),
        ) == JsonView::Object(members),
        named(members, "self_test_failed"@) is Some && !(named(
            members,
            "self_test_failed"@,
        )->0 is Bool) && name != "self_test_failed"@ ==> upgraded_snapshot(
            JsonView::Object(members),
        ).child(name) == named(members, name) && upgraded_snapshot(JsonView::Object(members))
            is Object && (upgraded_snapshot(JsonView::Object(members))->Object_0).len()
            == members.len() - 1,
{
    lemma_member_is_gone(members, "self_test_failed"@, name);
}

/// Only a key that is made of a WWN without a digit but zero stands for no disk.
pub proof fn law_which_histories_have_no_owner(key: Seq<char>, w: Seq<char>)
    ensures
        key == "wwn:"@ + w ==> (orphaned(key) <==> known_wwn(w) is None),
        orphaned(key) ==> exists|w: Seq<char>| key == #[trigger] ("wwn:"@ + w),
{
    let p = "wwn:"@;
    if key == p + w {
        assert(key.take(p.len() as int) =~= p);
        assert(key.skip(p.len() as int) =~= w);
    }
    if orphaned(key) {
        assert(key =~= p + key.skip(p.len() as int));
    }
}

/// A history that is kept on loading is kept whole, but for a WWN that identifies
/// nothing.
pub proof fn law_kept_history_is_whole(disks: Map<Seq<char>, DiskView>, key: Seq<char>)
    requires
        owned_disks(disks).contains_key(key),
    ensures
        ({
            let before = disks[key];
            let after = owned_disks(disks)[key];
            &&& after == (DiskView { device: after.device, snapshot: after.snapshot, ..before })
            &&& after.device == (DeviceView { wwn: clean_wwn(before.device.wwn), ..before.device })
            &&& before.snapshot is None ==> after.snapshot is None
            &&& before.snapshot matches Some(s) ==> after.snapshot == Some(
                SnapshotView { wwn: clean_wwn(s.wwn), ..s },
            )
        }),
{
}

// ---------------------------------------------------------------------------
// Values
// ---------------------------------------------------------------------------

/// What is said of a device is said of its own fields.
pub proof fn law_device_is_its_fields(d: Device)
    ensures
        d@.path == d.path@,
        d@.model == d.model@,
        d@.serial == d.serial@,
        d@.wwn == d.wwn@,
        d@.kind == d.kind,
        d@.aliases.len() == d.aliases@.len(),
        forall|i: int| 0 <= i < d.aliases@.len() ==> #[trigger] d@.aliases[i] == d.aliases@[i]@,
        d@.diskseq == d.diskseq,
        d@.discovered_at == d.discovered_at,
        d@.wd_usb == d.wd_usb,
{
}

/// What is said of a snapshot is said of its own fields.
pub proof fn law_snapshot_is_its_fields(s: Snapshot)
    ensures
        s@.model == s.model@,
        s@.serial == s.serial@,
        s@.wwn == s.wwn@,
        s@.firmware == s.firmware@,
        s@.passed == s.passed,
        s@.temperature == s.temperature,
        s@.power_on_hours == s.power_on_hours,
        s@.counters == s.counters@,
        s@.unknown_attributes == s.unknown_attributes@,
        s@.available_spare == s.available_spare,
        s@.spare_threshold == s.spare_threshold,
        s@.percentage_used == s.percentage_used,
        s@.remaining_life == s.remaining_life,
        s@.critical_warning == s.critical_warning,
        s@.prefailure == s.prefailure,
        s@.self_test is Some <==> s.self_test is Some,
        s.self_test matches Some(t) ==> s@.self_test == Some(t@),
        s@.self_test_hours == s.self_test_hours,
        s@.self_test_status == s.self_test_status,
        s@.exit == s.exit,
        s@.issue is Some <==> s.issue is Some,
        s.issue matches Some(t) ==> s@.issue == Some(t@),
        s@.stale_fields == s.stale_fields@,
{
}

/// What is said of a disk and of the memory is said of their own fields.
pub proof fn law_memory_is_its_fields(d: DiskState, s: State)
    ensures
        d@.device == d.device@,
        d@.present == d.present,
        d@.snapshot is Some <==> d.snapshot is Some,
        d.snapshot matches Some(t) ==> d@.snapshot == Some(t@),
        d@.checked_at == d.checked_at,
        d@.hot == d.hot,
        d@.smart_error is Some <==> d.smart_error is Some,
        d.smart_error matches Some(t) ==> d@.smart_error == Some(t@),
        d@.check_status == d.check_status,
        d@.kernel_severity == d.kernel_severity,
        d@.kernel_last_message is Some <==> d.kernel_last_message is Some,
        d.kernel_last_message matches Some(t) ==> d@.kernel_last_message == Some(t@),
        d@.kernel_last_seen == d.kernel_last_seen,
        s@.version == s.version,
        s@.disks == s.disks@,
        s@.recent_alerts.len() == s.recent_alerts@.len(),
        forall|i: int|
            0 <= i < s.recent_alerts@.len() ==> #[trigger] s@.recent_alerts[i]
                == s.recent_alerts@[i]@,
        s@.kernel_cursor is Some <==> s.kernel_cursor is Some,
        s.kernel_cursor matches Some(t) ==> s@.kernel_cursor == Some(t@),
        s@.kernel_boot_id is Some <==> s.kernel_boot_id is Some,
        s.kernel_boot_id matches Some(t) ==> s@.kernel_boot_id == Some(t@),
        s@.kernel_seen_cursors.len() == s.kernel_seen_cursors@.len(),
        forall|i: int|
            0 <= i < s.kernel_seen_cursors@.len() ==> #[trigger] s@.kernel_seen_cursors[i]
                == s.kernel_seen_cursors@[i]@,
        s@.kernel_watermark == s.kernel_watermark,
        s@.notification_times == s.notification_times@,
{
}

/// What is said of an event and of a record is said of their own fields.
pub proof fn law_event_is_its_fields(e: Event, r: Record)
    ensures
        e@.timestamp == e.timestamp,
        e@.severity == e.severity,
        e@.disk is Some <==> e.disk is Some,
        e.disk matches Some(d) ==> e@.disk == Some(d@),
        e@.category == e.category@,
        e@.message == e.message@,
        r@.cursor is Some <==> r.cursor is Some,
        r.cursor matches Some(t) ==> r@.cursor == Some(t@),
        r@.timestamp == r.timestamp,
        r@.message == r.message@,
        r@.boot_id is Some <==> r.boot_id is Some,
        r.boot_id matches Some(t) ==> r@.boot_id == Some(t@),
        r@.monotonic_usec == r.monotonic_usec,
{
}

} // verus!
