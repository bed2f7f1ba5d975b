//! What holds of inventories and scans: which disks are there, what is told of those that
//! come and go, and how a reading tells who a device is.

use crate::alert::{EventView, Severity};
use crate::config::{watched, ConfigView};
use crate::devices::{clean_wwn, known_wwn, DeviceView, Kind};
use crate::laws_reading::{is_its_own, last_hundred, law_last_events_are_remembered};
use crate::monitor::{
    all_found_events, completed, disk_progress, filled, first_same, first_same_disk,
    inventory_events, inventory_progress, notices, progress, recalled, rekeyed, vanished_events,
    watched_devices, watched_keys, with_all_found, without_vanished, Scan,
};
use crate::smart::{mismatch, ReadingView, SnapshotView};
use crate::state::{CheckStatus, DiskView, StateView};
use crate::strmap::{lemma_listable, listable, lists, ordered};
use vstd::prelude::*;

verus! {

// ---------------------------------------------------------------------------
// Inventories
// ---------------------------------------------------------------------------

/// One of the devices that are watched has the key.
pub open spec fn is_here(devices: Seq<DeviceView>, cfg: ConfigView, key: Seq<char>) -> bool {
    exists|i: int|
        0 <= i < devices.len() && watched(cfg, (#[trigger] devices[i]).serial) && devices[i].key()
            == key
}

proof fn lemma_is_here(devices: Seq<DeviceView>, cfg: ConfigView, key: Seq<char>)
    ensures
        watched_keys(devices, cfg).contains(key) == is_here(devices, cfg, key),
    decreases devices.len(),
{
    if devices.len() > 0 {
        let rest = devices.drop_last();
        lemma_is_here(rest, cfg, key);
        if is_here(rest, cfg, key) {
            let i = choose|i: int|
                0 <= i < rest.len() && watched(cfg, (#[trigger] rest[i]).serial) && rest[i].key()
                    == key;
            assert(devices[i] == rest[i]);
        }
        if is_here(devices, cfg, key) {
            let i = choose|i: int|
                0 <= i < devices.len() && watched(cfg, (#[trigger] devices[i]).serial)
                    && devices[i].key() == key;
            if i < rest.len() {
                assert(rest[i] == devices[i]);
            }
        }
        if watched(cfg, devices.last().serial) && devices.last().key() == key {
            assert(devices[devices.len() - 1].key() == key);
        }
    }
}

proof fn lemma_memory_of_events(s: StateView, events: Seq<EventView>)
    ensures
        s.remembering_all(events).disks == s.disks,
        s.remembering_all(events).notification_times == s.notification_times,
        s.remembering_all(events).kernel_boot_id == s.kernel_boot_id,
    decreases events.len(),
{
    if events.len() > 0 {
        lemma_memory_of_events(s, events.drop_last());
    }
}

proof fn lemma_not_found_stays(
    disks: Map<Seq<char>, DiskView>,
    devices: Seq<DeviceView>,
    cfg: ConfigView,
    key: Seq<char>,
)
    requires
        !is_here(devices, cfg, key),
    ensures
        with_all_found(disks, devices, cfg).contains_key(key) == disks.contains_key(key),
        disks.contains_key(key) ==> with_all_found(disks, devices, cfg)[key] == disks[key],
    decreases devices.len(),
{
    if devices.len() > 0 {
        let rest = devices.drop_last();
        if is_here(rest, cfg, key) {
            let i = choose|i: int|
                0 <= i < rest.len() && watched(cfg, (#[trigger] rest[i]).serial) && rest[i].key()
                    == key;
            assert(devices[i] == rest[i]);
        }
        lemma_not_found_stays(disks, rest, cfg, key);
        assert(devices[devices.len() - 1] == devices.last());
    }
}

/// What is remembered of a disk that was just found.
pub open spec fn as_found(
    known: Option<DiskView>,
    d: DeviceView,
    cfg: ConfigView,
    after: DiskView,
) -> bool {
    &&& after.device == d
    &&& after.present
    &&& !cfg.smart.enabled ==> after.check_status == CheckStatus::Disabled
    &&& known matches Some(k) ==> {
        &&& cfg.smart.enabled ==> after.check_status == k.check_status
        &&& after == (DiskView {
            device: d,
            present: true,
            check_status: after.check_status,
            ..k
        })
    }
    &&& known is None ==> {
        &&& cfg.smart.enabled ==> after.check_status == CheckStatus::Never
        &&& after.snapshot is None
        &&& after.checked_at is None
        &&& !after.hot
        &&& after.smart_error is None
        &&& after.kernel_severity is None
        &&& after.kernel_last_message is None
        &&& after.kernel_last_seen is None
    }
}

proof fn lemma_as_found(
    disks: Map<Seq<char>, DiskView>,
    devices: Seq<DeviceView>,
    cfg: ConfigView,
    i: int,
)
    requires
        0 <= i < devices.len(),
        watched(cfg, devices[i].serial),
        forall|j: int|
            i < j < devices.len() && watched(cfg, (#[trigger] devices[j]).serial)
                ==> devices[j].key() != devices[i].key(),
    ensures
        with_all_found(disks, devices, cfg).contains_key(devices[i].key()),
        as_found(
            (if disks.contains_key(devices[i].key()) {
                Some(disks[devices[i].key()])
            } else {
                None
            }),
            devices[i],
            cfg,
            with_all_found(disks, devices, cfg)[devices[i].key()],
        ),
    decreases devices.len(),
{
    let rest = devices.drop_last();
    let key = devices[i].key();
    if i < devices.len() - 1 {
        assert(rest[i] == devices[i]);
        assert forall|j: int|
            i < j < rest.len() && watched(cfg, (#[trigger] rest[j]).serial) implies rest[j].key()
            != rest[i].key() by {
            assert(rest[j] == devices[j]);
        }
        lemma_as_found(disks, rest, cfg, i);
        assert(devices[devices.len() - 1] == devices.last());
    } else {
        assert(devices.last() == devices[i]);
        if is_here(rest, cfg, key) {
            lemma_found_before(disks, rest, cfg, key);
        } else {
            lemma_not_found_stays(disks, rest, cfg, key);
        }
    }
}

proof fn lemma_found_before(
    disks: Map<Seq<char>, DiskView>,
    devices: Seq<DeviceView>,
    cfg: ConfigView,
    key: Seq<char>,
)
    requires
        is_here(devices, cfg, key),
    ensures
        ({
            let after = with_all_found(disks, devices, cfg);
            &&& after.contains_key(key)
            &&& after[key].present
            &&& disks.contains_key(key) ==> {
                &&& cfg.smart.enabled ==> after[key].check_status == disks[key].check_status
                &&& after[key] == (DiskView {
                    device: after[key].device,
                    present: true,
                    check_status: after[key].check_status,
                    ..disks[key]
                })
            }
            &&& !disks.contains_key(key) ==> {
                &&& cfg.smart.enabled ==> after[key].check_status == CheckStatus::Never
                &&& after[key].snapshot is None
                &&& after[key].checked_at is None
                &&& !after[key].hot
                &&& after[key].smart_error is None
                &&& after[key].kernel_severity is None
                &&& after[key].kernel_last_message is None
                &&& after[key].kernel_last_seen is None
            }
        }),
    decreases devices.len(),
{
    if devices.len() > 0 {
        let rest = devices.drop_last();
        assert(devices[devices.len() - 1] == devices.last());
        if is_here(rest, cfg, key) {
            lemma_found_before(disks, rest, cfg, key);
        } else {
            lemma_not_found_stays(disks, rest, cfg, key);
            let i = choose|i: int|
                0 <= i < devices.len() && watched(cfg, (#[trigger] devices[i]).serial)
                    && devices[i].key() == key;
            if i < rest.len() {
                assert(rest[i] == devices[i]);
            }
        }
    }
}

/// A device that is found and watched is remembered under its key, as it is now and as
/// present: with the history it had, or as a new disk that was never read. Where SMART
/// is switched off, it counts as not checked.
pub proof fn law_found_disk_is_remembered(
    s: StateView,
    devices: Seq<DeviceView>,
    cfg: ConfigView,
    time: u64,
    i: int,
)
    requires
        0 <= i < devices.len(),
        watched(cfg, devices[i].serial),
        forall|j: int|
            i < j < devices.len() && watched(cfg, (#[trigger] devices[j]).serial)
                ==> devices[j].key() != devices[i].key(),
    ensures
        ({
            let after = s.after_inventory(devices, cfg, time).disks;
            let key = devices[i].key();
            &&& after.contains_key(key)
            &&& as_found(
                (if s.disks.contains_key(key) {
                    Some(s.disks[key])
                } else {
                    None
                }),
                devices[i],
                cfg,
                after[key],
            )
        }),
{
    let found = with_all_found(s.disks, devices, cfg);
    lemma_as_found(s.disks, devices, cfg, i);
    lemma_is_here(devices, cfg, devices[i].key());
    lemma_memory_of_events(
        StateView { disks: without_vanished(found, watched_keys(devices, cfg)), ..s },
        inventory_events(s.disks, devices, cfg, time),
    );
}

/// A disk that no device that is watched stands for stays as it was, but is absent; and
/// no disk comes out of nothing.
pub proof fn law_other_disks_are_absent(
    s: StateView,
    devices: Seq<DeviceView>,
    cfg: ConfigView,
    time: u64,
    key: Seq<char>,
)
    requires
        !is_here(devices, cfg, key),
    ensures
        ({
            let after = s.after_inventory(devices, cfg, time).disks;
            &&& after.contains_key(key) <==> s.disks.contains_key(key)
            &&& s.disks.contains_key(key) ==> after[key] == (DiskView {
                present: false,
                ..s.disks[key]
            })
        }),
{
    let found = with_all_found(s.disks, devices, cfg);
    lemma_not_found_stays(s.disks, devices, cfg, key);
    lemma_is_here(devices, cfg, key);
    lemma_memory_of_events(
        StateView { disks: without_vanished(found, watched_keys(devices, cfg)), ..s },
        inventory_events(s.disks, devices, cfg, time),
    );
}

/// What an inventory tells is added to the events that are remembered, and but for the
/// disks nothing else changes.
pub proof fn law_inventory_is_remembered(
    s: StateView,
    devices: Seq<DeviceView>,
    cfg: ConfigView,
    time: u64,
)
    requires
        s.recent_alerts.len() <= 100,
    ensures
        s.after_inventory(devices, cfg, time) == (StateView {
            disks: s.after_inventory(devices, cfg, time).disks,
            recent_alerts: last_hundred(
                s.recent_alerts + inventory_events(s.disks, devices, cfg, time),
            ),
            ..s
        }),
{
    let found = with_all_found(s.disks, devices, cfg);
    law_last_events_are_remembered(
        StateView { disks: without_vanished(found, watched_keys(devices, cfg)), ..s },
        inventory_events(s.disks, devices, cfg, time),
    );
}

// ---------------------------------------------------------------------------
// What is told of an inventory
// ---------------------------------------------------------------------------

/// An event of an inventory.
pub open spec fn news(time: u64, severity: Severity, d: DeviceView, category: Seq<char>, message: Seq<
    char,
>) -> EventView {
    EventView { timestamp: time, severity, disk: Some(d), category, message }
}

proof fn lemma_in_either(a: Seq<EventView>, b: Seq<EventView>, e: EventView)
    ensures
        (a + b).contains(e) <==> a.contains(e) || b.contains(e),
{
    let c = a + b;
    if a.contains(e) {
        let i = choose|i: int| 0 <= i < a.len() && a[i] == e;
        assert(c[i] == e);
    }
    if b.contains(e) {
        let i = choose|i: int| 0 <= i < b.len() && b[i] == e;
        assert(c[a.len() + i] == e);
    }
    if c.contains(e) {
        let i = choose|i: int| 0 <= i < c.len() && c[i] == e;
        if i < a.len() {
            assert(a[i] == e);
        } else {
            assert(b[i - a.len()] == e);
        }
    }
}

proof fn lemma_found_is_told(
    disks: Map<Seq<char>, DiskView>,
    devices: Seq<DeviceView>,
    cfg: ConfigView,
    time: u64,
    i: int,
)
    requires
        0 <= i < devices.len(),
        watched(cfg, devices[i].serial),
        forall|j: int|
            0 <= j < i && watched(cfg, (#[trigger] devices[j]).serial) ==> devices[j].key()
                != devices[i].key(),
    ensures
        ({
            let told = all_found_events(disks, devices, cfg, time);
            let d = devices[i];
            &&& !disks.contains_key(d.key()) ==> told.contains(
                news(time, Severity::Info, d, "discovery"@, "new disk discovered"@),
            )
            &&& !disks.contains_key(d.key()) && d.serial.len() == 0 && known_wwn(d.wwn) is None
                ==> told.contains(
                news(
                    time,
                    Severity::Warning,
                    d,
                    "identity"@,
                    "no serial or WWN: identity depends on device path"@,
                ),
            )
            &&& disks.contains_key(d.key()) && !disks[d.key()].present ==> told.contains(
                news(time, Severity::Info, d, "discovery"@, "disk reappeared"@),
            )
        }),
    decreases devices.len(),
{
    let rest = devices.drop_last();
    let d = devices[i];
    let told = all_found_events(disks, devices, cfg, time);
    let before = all_found_events(disks, rest, cfg, time);
    let a = news(time, Severity::Info, d, "discovery"@, "new disk discovered"@);
    let b = news(
        time,
        Severity::Warning,
        d,
        "identity"@,
        "no serial or WWN: identity depends on device path"@,
    );
    let c = news(time, Severity::Info, d, "discovery"@, "disk reappeared"@);
    if i < devices.len() - 1 {
        assert(rest[i] == devices[i]);
        assert forall|j: int|
            0 <= j < i && watched(cfg, (#[trigger] rest[j]).serial) implies rest[j].key()
            != rest[i].key() by {
            assert(rest[j] == devices[j]);
        }
        lemma_found_is_told(disks, rest, cfg, time, i);
        if watched(cfg, devices.last().serial) {
            let tail = crate::monitor::found_events(
                with_all_found(disks, rest, cfg),
                devices.last(),
                time,
            );
            lemma_in_either(before, tail, a);
            lemma_in_either(before, tail, b);
            lemma_in_either(before, tail, c);
        }
    } else {
        assert(devices.last() == d);
        assert(!is_here(rest, cfg, d.key())) by {
            if is_here(rest, cfg, d.key()) {
                let j = choose|j: int|
                    0 <= j < rest.len() && watched(cfg, (#[trigger] rest[j]).serial)
                        && rest[j].key() == d.key();
                assert(devices[j] == rest[j]);
            }
        }
        lemma_not_found_stays(disks, rest, cfg, d.key());
        let tail = crate::monitor::found_events(with_all_found(disks, rest, cfg), d, time);
        lemma_in_either(before, tail, a);
        lemma_in_either(before, tail, b);
        lemma_in_either(before, tail, c);
        if !disks.contains_key(d.key()) {
            assert(tail[0] == a);
            if d.serial.len() == 0 && known_wwn(d.wwn) is None {
                assert(tail[1] == b);
            }
        } else if !disks[d.key()].present {
            assert(tail[0] == c);
        }
    }
}

/// A disk that is new is told, with a warning if nothing but its path tells it apart;
/// one that was absent and is back is told too. Of two devices with one key the first
/// counts.
pub proof fn law_arrival_is_told(
    disks: Map<Seq<char>, DiskView>,
    devices: Seq<DeviceView>,
    cfg: ConfigView,
    time: u64,
    i: int,
)
    requires
        0 <= i < devices.len(),
        watched(cfg, devices[i].serial),
        forall|j: int|
            0 <= j < i && watched(cfg, (#[trigger] devices[j]).serial) ==> devices[j].key()
                != devices[i].key(),
    ensures
        ({
            let told = inventory_events(disks, devices, cfg, time);
            let d = devices[i];
            &&& !disks.contains_key(d.key()) ==> told.contains(
                news(time, Severity::Info, d, "discovery"@, "new disk discovered"@),
            )
            &&& !disks.contains_key(d.key()) && d.serial.len() == 0 && known_wwn(d.wwn) is None
                ==> told.contains(
                news(
                    time,
                    Severity::Warning,
                    d,
                    "identity"@,
                    "no serial or WWN: identity depends on device path"@,
                ),
            )
            &&& disks.contains_key(d.key()) && !disks[d.key()].present ==> told.contains(
                news(time, Severity::Info, d, "discovery"@, "disk reappeared"@),
            )
        }),
{
    let d = devices[i];
    let front = all_found_events(disks, devices, cfg, time);
    let tail = vanished_events(
        ordered(with_all_found(disks, devices, cfg)),
        watched_keys(devices, cfg),
        time,
    );
    lemma_found_is_told(disks, devices, cfg, time, i);
    lemma_in_either(
        front,
        tail,
        news(time, Severity::Info, d, "discovery"@, "new disk discovered"@),
    );
    lemma_in_either(
        front,
        tail,
        news(
            time,
            Severity::Warning,
            d,
            "identity"@,
            "no serial or WWN: identity depends on device path"@,
        ),
    );
    lemma_in_either(front, tail, news(time, Severity::Info, d, "discovery"@, "disk reappeared"@));
}

proof fn lemma_found_listable(
    disks: Map<Seq<char>, DiskView>,
    devices: Seq<DeviceView>,
    cfg: ConfigView,
)
    requires
        listable(disks),
    ensures
        listable(with_all_found(disks, devices, cfg)),
    decreases devices.len(),
{
    if devices.len() > 0 {
        let rest = devices.drop_last();
        let before = with_all_found(disks, rest, cfg);
        lemma_found_listable(disks, rest, cfg);
        if watched(cfg, devices.last().serial) {
            let key = devices.last().key();
            let after = with_all_found(disks, devices, cfg);
            lemma_listable(before, key, after[key]);
            assert(after =~= before.insert(key, after[key]));
        }
    }
}

proof fn lemma_vanished_is_told(
    listing: Seq<(Seq<char>, DiskView)>,
    here: Set<Seq<char>>,
    time: u64,
    e: EventView,
)
    ensures
        vanished_events(listing, here, time).contains(e) <==> exists|i: int|
            0 <= i < listing.len() && (#[trigger] listing[i]).1.present && !here.contains(
                listing[i].0,
            ) && e == news(
                time,
                Severity::Info,
                listing[i].1.device,
                "discovery"@,
                "disk disappeared"@,
            ),
    decreases listing.len(),
{
    let told = vanished_events(listing, here, time);
    if listing.len() > 0 {
        let rest = listing.drop_last();
        let before = vanished_events(rest, here, time);
        lemma_vanished_is_told(rest, here, time, e);
        let last = listing[listing.len() - 1];
        let x = news(time, Severity::Info, last.1.device, "discovery"@, "disk disappeared"@);
        if last.1.present && !here.contains(last.0) {
            assert(told == before.push(x));
            if told.contains(e) {
                let i = choose|i: int| 0 <= i < told.len() && told[i] == e;
                if i < before.len() {
                    assert(before[i] == e);
                } else {
                    assert(e == x);
                }
            }
            if before.contains(e) {
                let i = choose|i: int| 0 <= i < before.len() && before[i] == e;
                assert(told[i] == e);
            }
            assert(told[before.len() as int] == x);
        } else {
            assert(told == before);
        }
        if before.contains(e) {
            let i = choose|i: int|
                0 <= i < rest.len() && (#[trigger] rest[i]).1.present && !here.contains(rest[i].0)
                    && e == news(
                    time,
                    Severity::Info,
                    rest[i].1.device,
                    "discovery"@,
                    "disk disappeared"@,
                );
            assert(listing[i] == rest[i]);
        }
        if exists|i: int|
            0 <= i < listing.len() && (#[trigger] listing[i]).1.present && !here.contains(
                listing[i].0,
            ) && e == news(
                time,
                Severity::Info,
                listing[i].1.device,
                "discovery"@,
                "disk disappeared"@,
            ) {
            let i = choose|i: int|
                0 <= i < listing.len() && (#[trigger] listing[i]).1.present && !here.contains(
                    listing[i].0,
                ) && e == news(
                    time,
                    Severity::Info,
                    listing[i].1.device,
                    "discovery"@,
                    "disk disappeared"@,
                );
            if i < rest.len() {
                assert(rest[i] == listing[i]);
            }
        }
    } else {
        assert(!told.contains(e));
    }
}

/// A disk that was there and is not found any more is told.
pub proof fn law_departure_is_told(
    disks: Map<Seq<char>, DiskView>,
    devices: Seq<DeviceView>,
    cfg: ConfigView,
    time: u64,
    key: Seq<char>,
)
    requires
        listable(disks),
        disks.contains_key(key),
        disks[key].present,
        !is_here(devices, cfg, key),
    ensures
        inventory_events(disks, devices, cfg, time).contains(
            news(time, Severity::Info, disks[key].device, "discovery"@, "disk disappeared"@),
        ),
{
    let found = with_all_found(disks, devices, cfg);
    let here = watched_keys(devices, cfg);
    let e = news(time, Severity::Info, disks[key].device, "discovery"@, "disk disappeared"@);
    lemma_found_listable(disks, devices, cfg);
    lemma_not_found_stays(disks, devices, cfg, key);
    lemma_is_here(devices, cfg, key);
    let listing = ordered(found);
    assert(lists(listing, found));
    let i = choose|i: int| 0 <= i < listing.len() && listing[i].0 == key;
    assert(found.contains_key(listing[i].0));
    assert(listing[i].1 == disks[key]);
    lemma_vanished_is_told(listing, here, time, e);
    lemma_in_either(
        all_found_events(disks, devices, cfg, time),
        vanished_events(listing, here, time),
        e,
    );
}

proof fn lemma_no_arrival(
    disks: Map<Seq<char>, DiskView>,
    devices: Seq<DeviceView>,
    cfg: ConfigView,
    time: u64,
)
    requires
        forall|i: int|
            0 <= i < devices.len() && watched(cfg, (#[trigger] devices[i]).serial)
                ==> disks.contains_key(devices[i].key()) && disks[devices[i].key()].present,
    ensures
        all_found_events(disks, devices, cfg, time) == Seq::<EventView>::empty(),
    decreases devices.len(),
{
    if devices.len() > 0 {
        let rest = devices.drop_last();
        assert forall|i: int| 0 <= i < rest.len() && watched(cfg, (#[trigger] rest[i]).serial) implies
            disks.contains_key(rest[i].key()) && disks[rest[i].key()].present by {
            assert(rest[i] == devices[i]);
        }
        lemma_no_arrival(disks, rest, cfg, time);
        let d = devices[devices.len() - 1];
        if watched(cfg, d.serial) {
            if is_here(rest, cfg, d.key()) {
                lemma_found_before(disks, rest, cfg, d.key());
            } else {
                lemma_not_found_stays(disks, rest, cfg, d.key());
            }
        }
        assert(all_found_events(disks, devices, cfg, time) =~= Seq::<EventView>::empty());
    }
}

/// What one more device at the end of an inventory adds to what is told: that it is new,
/// and if so whether its path alone tells it apart, or that it is back; nothing where it
/// was there, is not watched, or its key was found before.
pub proof fn law_one_more_device_is_told(
    disks: Map<Seq<char>, DiskView>,
    devices: Seq<DeviceView>,
    d: DeviceView,
    cfg: ConfigView,
    time: u64,
)
    ensures
        ({
            let before = all_found_events(disks, devices, cfg, time);
            let after = all_found_events(disks, devices.push(d), cfg, time);
            let counts = watched(cfg, d.serial) && !is_here(devices, cfg, d.key());
            let new = news(time, Severity::Info, d, "discovery"@, "new disk discovered"@);
            &&& !counts || (disks.contains_key(d.key()) && disks[d.key()].present) ==> after
                == before
            &&& counts && disks.contains_key(d.key()) && !disks[d.key()].present ==> after
                == before.push(news(time, Severity::Info, d, "discovery"@, "disk reappeared"@))
            &&& counts && !disks.contains_key(d.key()) && (d.serial.len() > 0 || known_wwn(
                d.wwn,
            ) is Some) ==> after == before.push(new)
            &&& counts && !disks.contains_key(d.key()) && d.serial.len() == 0 && known_wwn(
                d.wwn,
            ) is None ==> after == before.push(new).push(
                news(
                    time,
                    Severity::Warning,
                    d,
                    "identity"@,
                    "no serial or WWN: identity depends on device path"@,
                ),
            )
        }),
{
    let all = devices.push(d);
    assert(all.drop_last() =~= devices);
    assert(all.last() == d);
    let before = all_found_events(disks, devices, cfg, time);
    if watched(cfg, d.serial) {
        if is_here(devices, cfg, d.key()) {
            lemma_found_before(disks, devices, cfg, d.key());
        } else {
            lemma_not_found_stays(disks, devices, cfg, d.key());
        }
        let tail = crate::monitor::found_events(with_all_found(disks, devices, cfg), d, time);
        assert(all_found_events(disks, all, cfg, time) == before + tail);
        assert(before + Seq::<EventView>::empty() =~= before);
    }
}

/// What one more disk at the end of a listing adds to what is told of those that are
/// gone.
pub proof fn law_one_more_departure_is_told(
    listing: Seq<(Seq<char>, DiskView)>,
    key: Seq<char>,
    d: DiskView,
    here: Set<Seq<char>>,
    time: u64,
)
    ensures
        vanished_events(Seq::empty(), here, time) == Seq::<EventView>::empty(),
        d.present && !here.contains(key) ==> vanished_events(listing.push((key, d)), here, time)
            == vanished_events(listing, here, time).push(
            news(time, Severity::Info, d.device, "discovery"@, "disk disappeared"@),
        ),
        !d.present || here.contains(key) ==> vanished_events(listing.push((key, d)), here, time)
            == vanished_events(listing, here, time),
{
    assert(listing.push((key, d)).drop_last() =~= listing);
    assert(listing.push((key, d)).last() == (key, d));
}

/// Where every device that is watched was there before, and every disk that was there is
/// still found, an inventory tells nothing.
pub proof fn law_same_disks_tell_nothing(
    disks: Map<Seq<char>, DiskView>,
    devices: Seq<DeviceView>,
    cfg: ConfigView,
    time: u64,
)
    requires
        listable(disks),
        forall|i: int|
            0 <= i < devices.len() && watched(cfg, (#[trigger] devices[i]).serial)
                ==> disks.contains_key(devices[i].key()) && disks[devices[i].key()].present,
        forall|k: Seq<char>| #[trigger]
            disks.contains_key(k) && disks[k].present ==> is_here(devices, cfg, k),
    ensures
        inventory_events(disks, devices, cfg, time) == Seq::<EventView>::empty(),
{
    let found = with_all_found(disks, devices, cfg);
    let here = watched_keys(devices, cfg);
    lemma_no_arrival(disks, devices, cfg, time);
    lemma_found_listable(disks, devices, cfg);
    let listing = ordered(found);
    assert(lists(listing, found));
    let told = vanished_events(listing, here, time);
    if told.len() > 0 {
        let e = told[0];
        assert(told.contains(e));
        lemma_vanished_is_told(listing, here, time, e);
        let i = choose|i: int|
            0 <= i < listing.len() && (#[trigger] listing[i]).1.present && !here.contains(
                listing[i].0,
            ) && e == news(
                time,
                Severity::Info,
                listing[i].1.device,
                "discovery"@,
                "disk disappeared"@,
            );
        let k = listing[i].0;
        lemma_is_here(devices, cfg, k);
        lemma_not_found_stays(disks, devices, cfg, k);
        assert(found.contains_key(k));
        assert(disks.contains_key(k));
    }
    assert(inventory_events(disks, devices, cfg, time) =~= Seq::<EventView>::empty());
}

/// The same inventory a second time tells nothing.
pub proof fn law_same_inventory_tells_nothing(
    s: StateView,
    devices: Seq<DeviceView>,
    cfg: ConfigView,
    time: u64,
    later: u64,
)
    requires
        listable(s.disks),
    ensures
        inventory_events(s.after_inventory(devices, cfg, time).disks, devices, cfg, later) == Seq::<
            EventView,
        >::empty(),
{
    let found = with_all_found(s.disks, devices, cfg);
    let here = watched_keys(devices, cfg);
    let after = without_vanished(found, here);
    lemma_memory_of_events(
        StateView { disks: after, ..s },
        inventory_events(s.disks, devices, cfg, time),
    );
    lemma_found_listable(s.disks, devices, cfg);
    let listing = ordered(found);
    assert(lists(listing, found));
    let again = Seq::new(
        listing.len(),
        |i: int|
            (
                listing[i].0,
                DiskView {
                    present: listing[i].1.present && here.contains(listing[i].0),
                    ..listing[i].1
                },
            ),
    );
    assert(lists(again, after)) by {
        assert forall|i: int, j: int| 0 <= i < j < again.len() implies crate::text::before(
            (#[trigger] again[i]).0,
            (#[trigger] again[j]).0,
        ) by {
            assert(crate::text::before(listing[i].0, listing[j].0));
        }
        assert forall|i: int| 0 <= i < again.len() implies after.contains_key(
            (#[trigger] again[i]).0,
        ) && after[again[i].0] == again[i].1 by {
            assert(found.contains_key(listing[i].0));
        }
        assert forall|k: Seq<char>| #[trigger] after.contains_key(k) implies exists|i: int|
            0 <= i < again.len() && again[i].0 == k by {
            assert(found.contains_key(k));
            let i = choose|i: int| 0 <= i < listing.len() && listing[i].0 == k;
            assert(again[i].0 == k);
        }
    }
    assert forall|i: int|
        0 <= i < devices.len() && watched(cfg, (#[trigger] devices[i]).serial) implies after.contains_key(
        devices[i].key(),
    ) && after[devices[i].key()].present by {
        let k = devices[i].key();
        assert(is_here(devices, cfg, k));
        lemma_found_before(s.disks, devices, cfg, k);
        lemma_is_here(devices, cfg, k);
    }
    assert forall|k: Seq<char>| #[trigger] after.contains_key(k) && after[k].present implies is_here(
        devices,
        cfg,
        k,
    ) by {
        lemma_is_here(devices, cfg, k);
    }
    law_same_disks_tell_nothing(after, devices, cfg, later);
}

/// What is told is given out in the order in which it came, and sent unless it has no
/// weight.
pub proof fn law_what_is_sent(events: Seq<EventView>, i: int)
    requires
        0 <= i < events.len(),
    ensures
        notices(events).len() == events.len(),
        notices(events)[i].event == events[i],
        notices(events)[i].send <==> events[i].severity == Severity::Warning || events[i].severity
            == Severity::Critical,
{
}

// ---------------------------------------------------------------------------
// Identity
// ---------------------------------------------------------------------------

/// What is not known of a device is filled in, and nothing else changes. The controller
/// of an NVMe disk gets no WWN.
pub proof fn law_filling_in(d: DeviceView, model: Seq<char>, serial: Seq<char>, wwn: Seq<char>)
    ensures
        ({
            let f = filled(d, model, serial, wwn);
            &&& d.model.len() == 0 ==> f.model == model
            &&& d.model.len() > 0 ==> f.model == d.model
            &&& d.serial.len() == 0 ==> f.serial == serial
            &&& d.serial.len() > 0 ==> f.serial == d.serial
            &&& known_wwn(d.wwn) is Some ==> f.wwn == d.wwn
            &&& known_wwn(d.wwn) is None && d.kind != Kind::Nvme ==> f.wwn == clean_wwn(wwn)
            &&& known_wwn(d.wwn) is None && d.kind == Kind::Nvme ==> f.wwn == Seq::<char>::empty()
            &&& f == (DeviceView { model: f.model, serial: f.serial, wwn: f.wwn, ..d })
        }),
{
}

proof fn lemma_first_same_disk(listing: Seq<(Seq<char>, DiskView)>, d: DeviceView, i: int)
    requires
        0 <= i < listing.len(),
        d.same_disk(listing[i].1.device),
        forall|j: int|
            0 <= j < listing.len() && j != i ==> !d.same_disk((#[trigger] listing[j]).1.device),
    ensures
        first_same_disk(listing, d) == Some(listing[i].1.device),
    decreases listing.len(),
{
    if i > 0 {
        assert(!d.same_disk(listing[0].1.device));
        let rest = listing.skip(1);
        assert(rest[i - 1] == listing[i]);
        assert forall|j: int| 0 <= j < rest.len() && j != i - 1 implies !d.same_disk(
            (#[trigger] rest[j]).1.device,
        ) by {
            assert(rest[j] == listing[j + 1]);
        }
        lemma_first_same_disk(rest, d, i - 1);
    }
}

/// A device that an inventory finds is completed by what is remembered of the disk that
/// it is.
pub proof fn law_remembered_identity_is_recalled(
    disks: Map<Seq<char>, DiskView>,
    d: DeviceView,
    key: Seq<char>,
)
    requires
        listable(disks),
        disks.contains_key(key),
        d.same_disk(disks[key].device),
        forall|k: Seq<char>| #[trigger]
            disks.contains_key(k) && k != key ==> !d.same_disk(disks[k].device),
    ensures
        recalled(disks, d) == filled(
            d,
            disks[key].device.model,
            disks[key].device.serial,
            disks[key].device.wwn,
        ),
{
    let listing = ordered(disks);
    assert(lists(listing, disks));
    let i = choose|i: int| 0 <= i < listing.len() && listing[i].0 == key;
    assert(disks.contains_key(listing[i].0));
    assert forall|j: int| 0 <= j < listing.len() && j != i implies !d.same_disk(
        (#[trigger] listing[j]).1.device,
    ) by {
        assert(disks.contains_key(listing[j].0));
        if listing[j].0 == key {
            crate::text::lemma_before_irreflexive(key);
            if j < i {
                assert(crate::text::before(listing[j].0, listing[i].0));
            } else {
                assert(crate::text::before(listing[i].0, listing[j].0));
            }
        }
    }
    lemma_first_same_disk(listing, d, i);
}

/// An inventory is taken in with each of its devices completed so, in their order.
pub proof fn law_inventory_is_taken_in(
    s: StateView,
    found: Seq<DeviceView>,
    cfg: ConfigView,
    time: u64,
    i: int,
)
    requires
        0 <= i < found.len(),
    ensures
        ({
            let p = inventory_progress(s, found, cfg, time);
            &&& p.devices.len() == found.len()
            &&& p.devices[i] == recalled(s.disks, found[i])
            &&& p.state == s.after_inventory(p.devices, cfg, time)
            &&& p.events == inventory_events(s.disks, p.devices, cfg, time)
            &&& p.discarded is None
        }),
{
}

proof fn lemma_first_same(devices: Seq<DeviceView>, d: DeviceView, i: int)
    requires
        0 <= i < devices.len(),
        devices[i].same_disk(d),
        forall|j: int| 0 <= j < devices.len() && j != i ==> !(#[trigger] devices[j]).same_disk(d),
    ensures
        first_same(devices, d) == Some(devices[i]),
    decreases devices.len(),
{
    if i > 0 {
        assert(!devices[0].same_disk(d));
        let rest = devices.skip(1);
        assert(rest[i - 1] == devices[i]);
        assert forall|j: int| 0 <= j < rest.len() && j != i - 1 implies !(
        #[trigger] rest[j]).same_disk(d) by {
            assert(rest[j] == devices[j + 1]);
        }
        lemma_first_same(rest, d, i - 1);
    }
}

proof fn lemma_none_same(devices: Seq<DeviceView>, d: DeviceView)
    requires
        forall|j: int| 0 <= j < devices.len() ==> !(#[trigger] devices[j]).same_disk(d),
    ensures
        first_same(devices, d) is None,
    decreases devices.len(),
{
    if devices.len() > 0 {
        assert(!devices[0].same_disk(d));
        let rest = devices.skip(1);
        assert forall|j: int| 0 <= j < rest.len() implies !(#[trigger] rest[j]).same_disk(d) by {
            assert(rest[j] == devices[j + 1]);
        }
        lemma_none_same(rest, d);
    }
}

/// A device that was read is completed by the entry of the inventory that is the same
/// disk; without one it stays as it is.
pub proof fn law_device_is_completed(devices: Seq<DeviceView>, d: DeviceView, i: int)
    ensures
        0 <= i < devices.len() && devices[i].same_disk(d) && (forall|j: int|
            0 <= j < devices.len() && j != i ==> !(#[trigger] devices[j]).same_disk(d))
            ==> completed(devices, d) == filled(
            d,
            devices[i].model,
            devices[i].serial,
            devices[i].wwn,
        ),
        (forall|j: int| 0 <= j < devices.len() ==> !(#[trigger] devices[j]).same_disk(d))
            ==> completed(devices, d) == d,
{
    if 0 <= i < devices.len() && devices[i].same_disk(d) && (forall|j: int|
        0 <= j < devices.len() && j != i ==> !(#[trigger] devices[j]).same_disk(d)) {
        lemma_first_same(devices, d, i);
    }
    if forall|j: int| 0 <= j < devices.len() ==> !(#[trigger] devices[j]).same_disk(d) {
        lemma_none_same(devices, d);
    }
}

/// The history under the key `to` after the key of a disk changed: what was there before,
/// else the history of the same disk under the old key, else none.
pub open spec fn moved(
    disks: Map<Seq<char>, DiskView>,
    from: Seq<char>,
    to: DeviceView,
    after: Map<Seq<char>, DiskView>,
) -> bool {
    &&& !after.contains_key(from)
    &&& disks.contains_key(to.key()) ==> after.contains_key(to.key()) && after[to.key()]
        == disks[to.key()]
    &&& !disks.contains_key(to.key()) && disks[from].device.same_disk(to) ==> after.contains_key(
        to.key(),
    ) && after[to.key()] == (DiskView { device: to, ..disks[from] })
    &&& !disks.contains_key(to.key()) && !disks[from].device.same_disk(to) ==> !after.contains_key(
        to.key(),
    )
    &&& forall|k: Seq<char>| #![trigger after.contains_key(k)]
        k != from && k != to.key() ==> after.contains_key(k) == disks.contains_key(k) && (
        disks.contains_key(k) ==> after[k] == disks[k])
}

/// Where the key of a disk changes, its history is moved; where it does not, or there is
/// no history, nothing changes.
pub proof fn law_history_moves(disks: Map<Seq<char>, DiskView>, from: DeviceView, to: DeviceView)
    ensures
        from.key() == to.key() || !disks.contains_key(from.key()) ==> rekeyed(disks, from, to)
            == disks,
        from.key() != to.key() && disks.contains_key(from.key()) ==> moved(
            disks,
            from.key(),
            to,
            rekeyed(disks, from, to),
        ),
{
}

/// The reading of a device that is that of the device tells who it is: what the report
/// says of model, serial number and WWN is filled in, the history moves to the key that
/// the device then has, the reading is judged and remembered there, and the inventory
/// knows the device from then on.
pub proof fn law_reading_tells_who_it_is(
    s: StateView,
    devices: Seq<DeviceView>,
    found: DeviceView,
    report: SnapshotView,
    cfg: ConfigView,
    current: Option<u64>,
    later: Option<u64>,
    time: u64,
    i: int,
)
    requires
        is_its_own(completed(devices, found), report, current),
        0 <= i < devices.len(),
    ensures
        ({
            let result = Ok::<ReadingView, Seq<char>>(ReadingView::Checked(report));
            let p = disk_progress(s, devices, found, result, cfg, current, later, time);
            let d = completed(devices, found);
            let known = filled(d, report.model, report.serial, report.wwn);
            let before = StateView { disks: rekeyed(s.disks, d, known), ..s };
            let v = before.reading_verdict(known, result, cfg, later, time);
            let entry = devices[i].same_disk(d) || (devices[i].serial.len() == 0 && known_wwn(
                devices[i].wwn,
            ) is None && devices[i].key() == d.key() && devices[i].diskseq == d.diskseq);
            &&& watched(cfg, known.serial) ==> {
                &&& p.state == before.after_reading(known, v)
                &&& p.events == v.events
                &&& p.state.disks.contains_key(known.key())
                &&& p.state.disks[known.key()] == v.disk
                &&& v.disk.device == known
                &&& p.devices.len() == devices.len()
                &&& !v.race ==> p.devices[i] == (if entry {
                    known
                } else {
                    devices[i]
                })
            }
            &&& !watched(cfg, known.serial) ==> p.events.len() == 0 && p.state.recent_alerts
                == s.recent_alerts && p.devices.len() == devices.len() && p.devices[i] == (if entry {
                known
            } else {
                devices[i]
            })
        }),
{
    let result = Ok::<ReadingView, Seq<char>>(ReadingView::Checked(report));
    let d = completed(devices, found);
    let known = filled(d, report.model, report.serial, report.wwn);
    let before = StateView { disks: rekeyed(s.disks, d, known), ..s };
    let v = before.reading_verdict(known, result, cfg, later, time);
    lemma_memory_of_events(
        StateView { disks: before.disks.insert(known.key(), v.disk), ..before },
        v.events,
    );
}

/// A reading that is not that of the device, or that there is none of, is judged and
/// remembered under the key that the device had. Kernel messages can then no longer be
/// ascribed to it, unless it only sleeps: its sequence number is forgotten.
pub proof fn law_reading_that_tells_nothing(
    s: StateView,
    devices: Seq<DeviceView>,
    found: DeviceView,
    result: Result<ReadingView, Seq<char>>,
    cfg: ConfigView,
    current: Option<u64>,
    later: Option<u64>,
    time: u64,
    i: int,
)
    requires
        result matches Ok(ReadingView::Checked(report)) ==> !is_its_own(
            completed(devices, found),
            report,
            current,
        ),
        watched(cfg, completed(devices, found).serial),
        0 <= i < devices.len(),
    ensures
        ({
            let p = disk_progress(s, devices, found, result, cfg, current, later, time);
            let d = completed(devices, found);
            let v = s.reading_verdict(d, result, cfg, later, time);
            &&& p.state == s.after_reading(d, v)
            &&& p.events == v.events
            &&& p.devices.len() == devices.len()
            &&& v.race && devices[i].same_disk(d) ==> p.devices[i] == (DeviceView {
                diskseq: None,
                ..devices[i]
            })
            &&& !v.race || !devices[i].same_disk(d) ==> p.devices[i] == devices[i]
            &&& result matches Ok(ReadingView::Sleeping) ==> !v.race
            &&& result is Err ==> v.race
        }),
{
}

/// The key of a disk is given out for a warning exactly if its reading is taken in and
/// the measurements that were stored of it are those of another disk.
pub proof fn law_discarded_history_is_told(
    s: StateView,
    devices: Seq<DeviceView>,
    found: DeviceView,
    report: SnapshotView,
    cfg: ConfigView,
    current: Option<u64>,
    later: Option<u64>,
    time: u64,
)
    requires
        is_its_own(completed(devices, found), report, current),
    ensures
        ({
            let result = Ok::<ReadingView, Seq<char>>(ReadingView::Checked(report));
            let p = disk_progress(s, devices, found, result, cfg, current, later, time);
            let d = completed(devices, found);
            let known = filled(d, report.model, report.serial, report.wwn);
            let disks = rekeyed(s.disks, d, known);
            let foreign = disks.contains_key(known.key()) && disks[known.key()].snapshot is Some
                && mismatch(known, disks[known.key()].snapshot->0) is Some;
            p.discarded == (if watched(cfg, known.serial) && is_its_own(known, report, later)
                && foreign {
                Some(known.key())
            } else {
                None
            })
        }),
{
}

/// A scan is an inventory, the reading of a disk, or a discovery that failed; the last
/// leaves the memory as it is, and no device to ascribe kernel messages to.
pub proof fn law_parts_of_a_scan(
    s: StateView,
    scan: Scan,
    devices: Seq<DeviceView>,
    cfg: ConfigView,
    current: Option<u64>,
    later: Option<u64>,
    time: u64,
)
    ensures
        ({
            let p = progress(s, scan, devices, cfg, current, later, time);
            &&& scan matches Scan::Inventory(found) ==> p == inventory_progress(
                s,
                found.deep_view(),
                cfg,
                time,
            )
            &&& scan matches Scan::Disk(d, Ok(reading)) ==> p == disk_progress(
                s,
                devices,
                d@,
                Ok(reading@),
                cfg,
                current,
                later,
                time,
            )
            &&& scan matches Scan::Disk(d, Err(error)) ==> p == disk_progress(
                s,
                devices,
                d@,
                Err(error@),
                cfg,
                current,
                later,
                time,
            )
            &&& scan is DiscoveryFailed ==> p.state == s && p.devices.len() == 0 && p.events.len()
                == 0 && p.discarded is None
        }),
{
}

// ---------------------------------------------------------------------------
// What is read
// ---------------------------------------------------------------------------

/// The devices to read are those that are watched, in their order: one more at the end
/// of the list is one more to read exactly if it is watched.
pub proof fn law_what_is_read(devices: Seq<DeviceView>, d: DeviceView, cfg: ConfigView)
    ensures
        watched_devices(Seq::empty(), cfg) == Seq::<DeviceView>::empty(),
        watched(cfg, d.serial) ==> watched_devices(devices.push(d), cfg) == watched_devices(
            devices,
            cfg,
        ).push(d),
        !watched(cfg, d.serial) ==> watched_devices(devices.push(d), cfg) == watched_devices(
            devices,
            cfg,
        ),
{
    assert(devices.push(d).drop_last() =~= devices);
    assert(devices.push(d).last() == d);
}

/// A check is complete unless a disk that is there failed to be read, in part or in
/// whole, or turned out to be another.
pub proof fn law_what_leaves_a_check_open(d: DiskView)
    ensures
        crate::monitor::unfinished(d) <==> d.present && (d.check_status == CheckStatus::Failed
            || d.check_status == CheckStatus::Partial || d.check_status == CheckStatus::StaleRace),
{
}

} // verus!
