//! The monitor: how scans and kernel records change what is remembered, and what
//! is told of it.

use crate::alert::{diff_at, graver, Event, EventView, Occasion, Severity};
use crate::config::{watched, Config, ConfigView};
use crate::devices::{clean_wwn, cleaned_wwn, known_wwn, nonzero_wwn, Device, DeviceView, Kind};
use crate::kernel::{ascribed, classified, classify, fresh_match, Record, RecordView};
use crate::smart::{
    identity_mismatch, mismatch, Reading, ReadingView, Snapshot, SnapshotView,
};
use crate::state::{new_disk, CheckStatus, DiskState, DiskView, State, StateView};
use crate::strmap::{lemma_all_seen, lemma_seen, lists, ordered, seen, StrMap, StrSet};
use crate::text::same;
use vstd::prelude::*;

verus! {

// ---------------------------------------------------------------------------
// Telling
// ---------------------------------------------------------------------------

/// An event to be logged, and to be sent to the user where `send` is set.
#[derive(Debug)]
pub struct Notice {
    pub event: Event,
    pub send: bool,
}

pub struct NoticeView {
    pub event: EventView,
    pub send: bool,
}

impl View for Notice {
    type V = NoticeView;

    open spec fn view(&self) -> NoticeView {
        NoticeView { event: self.event@, send: self.send }
    }
}

impl DeepView for Notice {
    type V = NoticeView;

    open spec fn deep_view(&self) -> NoticeView {
        self@
    }
}

/// The notice of an event: one of no weight is never sent.
pub open spec fn notice(e: EventView, notify: bool) -> NoticeView {
    NoticeView { event: e, send: notify && e.severity != Severity::Info }
}

/// The notices of events, each of which may be sent.
pub open spec fn notices(events: Seq<EventView>) -> Seq<NoticeView> {
    Seq::new(events.len(), |i: int| notice(events[i], true))
}

impl StateView {
    /// The state after all the events were noted, one after the other.
    pub open spec fn remembering_all(self, events: Seq<EventView>) -> StateView
        decreases events.len(),
    {
        if events.len() == 0 {
            self
        } else {
            self.remembering_all(events.drop_last()).remembering(events.last())
        }
    }
}

/// Notes an event, and hands it on to be logged and, where `notify` is set and it
/// has weight, sent.
pub fn publish(state: &mut State, out: &mut Vec<Notice>, event: Event, notify: bool)
    ensures
        final(state)@ == old(state)@.remembering(event@),
        final(out).deep_view() == old(out).deep_view().push(notice(event@, notify)),
{
    let send: bool = notify && event.severity != Severity::Info;
    out.push(Notice { event: event.clone(), send });
    assert(out.deep_view() =~= old(out).deep_view().push(notice(event@, notify)));
    state.remember(event);
}

fn publish_all(state: &mut State, out: &mut Vec<Notice>, events: Vec<Event>)
    ensures
        final(state)@ == old(state)@.remembering_all(events.deep_view()),
        final(out).deep_view() == old(out).deep_view() + notices(events.deep_view()),
{
    let ghost all = events.deep_view();
    let ghost work = events@;
    let ghost start = out.deep_view();
    assert(start + notices(all.take(0)) =~= start);
    for event in it: events
        invariant
            it.seq() == work,
            all.len() == work.len(),
            forall|i: int| 0 <= i < all.len() ==> #[trigger] all[i] == work[i]@,
            state@ == old(state)@.remembering_all(all.take(it.index() as int)),
            out.deep_view() == start + notices(all.take(it.index() as int)),
    {
        let ghost n = it.index() as int;
        assert(all[n] == event@);
        assert(all.take(n + 1).drop_last() =~= all.take(n));
        assert(all.take(n + 1).last() == event@);
        publish(state, out, event, true);
        assert(out.deep_view() =~= start + notices(all.take(n + 1)));
    }
    assert(all.take(all.len() as int) =~= all);
}

// ---------------------------------------------------------------------------
// Inventory
// ---------------------------------------------------------------------------

pub open spec fn disk_event(
    time: u64,
    severity: Severity,
    device: DeviceView,
    category: Seq<char>,
    message: Seq<char>,
) -> EventView {
    EventView { timestamp: time, severity, disk: Some(device), category, message }
}

/// The disks after a device was found.
pub open spec fn with_found(disks: Map<Seq<char>, DiskView>, d: DeviceView, smart: bool) -> Map<
    Seq<char>,
    DiskView,
> {
    let known = if disks.contains_key(d.key()) {
        disks[d.key()]
    } else {
        new_disk(d)
    };
    disks.insert(
        d.key(),
        DiskView {
            present: true,
            device: d,
            check_status: if smart {
                known.check_status
            } else {
                CheckStatus::Disabled
            },
            ..known
        },
    )
}

/// What is to be told of a device that was found: that it is new, and whether it
/// can be told apart from others, or that it is back.
pub open spec fn found_events(disks: Map<Seq<char>, DiskView>, d: DeviceView, time: u64) -> Seq<
    EventView,
> {
    if !disks.contains_key(d.key()) {
        seq![disk_event(time, Severity::Info, d, "discovery"@, "new disk discovered"@)] + (if
        d.serial.len() == 0 && known_wwn(d.wwn) is None {
            seq![
                disk_event(
                    time,
                    Severity::Warning,
                    d,
                    "identity"@,
                    "no serial or WWN: identity depends on device path"@,
                ),
            ]
        } else {
            Seq::empty()
        })
    } else if !disks[d.key()].present {
        seq![disk_event(time, Severity::Info, d, "discovery"@, "disk reappeared"@)]
    } else {
        Seq::empty()
    }
}

/// The disks after all the devices that are watched were found.
pub open spec fn with_all_found(
    disks: Map<Seq<char>, DiskView>,
    devices: Seq<DeviceView>,
    cfg: ConfigView,
) -> Map<Seq<char>, DiskView>
    decreases devices.len(),
{
    if devices.len() == 0 {
        disks
    } else {
        let before = with_all_found(disks, devices.drop_last(), cfg);
        if watched(cfg, devices.last().serial) {
            with_found(before, devices.last(), cfg.smart.enabled)
        } else {
            before
        }
    }
}

/// What is to be told of the devices that were found, in their order.
pub open spec fn all_found_events(
    disks: Map<Seq<char>, DiskView>,
    devices: Seq<DeviceView>,
    cfg: ConfigView,
    time: u64,
) -> Seq<EventView>
    decreases devices.len(),
{
    if devices.len() == 0 {
        Seq::empty()
    } else {
        let before = all_found_events(disks, devices.drop_last(), cfg, time);
        if watched(cfg, devices.last().serial) {
            before + found_events(
                with_all_found(disks, devices.drop_last(), cfg),
                devices.last(),
                time,
            )
        } else {
            before
        }
    }
}

/// The keys of the devices that are watched.
pub open spec fn watched_keys(devices: Seq<DeviceView>, cfg: ConfigView) -> Set<Seq<char>>
    decreases devices.len(),
{
    if devices.len() == 0 {
        Set::empty()
    } else {
        let before = watched_keys(devices.drop_last(), cfg);
        if watched(cfg, devices.last().serial) {
            before.insert(devices.last().key())
        } else {
            before
        }
    }
}

/// The disk was there, and is not any more.
pub open spec fn vanished(key: Seq<char>, d: DiskView, here: Set<Seq<char>>) -> bool {
    d.present && !here.contains(key)
}

/// The disks, with those that are not there any more marked so.
pub open spec fn without_vanished(disks: Map<Seq<char>, DiskView>, here: Set<Seq<char>>) -> Map<
    Seq<char>,
    DiskView,
> {
    Map::new(
        |k: Seq<char>| disks.contains_key(k),
        |k: Seq<char>| DiskView { present: disks[k].present && here.contains(k), ..disks[k] },
    )
}

/// What is to be told of the disks that are not there any more, in the order of
/// their keys.
pub open spec fn vanished_events(
    listing: Seq<(Seq<char>, DiskView)>,
    here: Set<Seq<char>>,
    time: u64,
) -> Seq<EventView>
    decreases listing.len(),
{
    if listing.len() == 0 {
        Seq::empty()
    } else {
        let (key, d) = listing.last();
        let before = vanished_events(listing.drop_last(), here, time);
        if vanished(key, d, here) {
            before.push(
                disk_event(time, Severity::Info, d.device, "discovery"@, "disk disappeared"@),
            )
        } else {
            before
        }
    }
}

/// What an inventory has to tell.
pub open spec fn inventory_events(
    disks: Map<Seq<char>, DiskView>,
    devices: Seq<DeviceView>,
    cfg: ConfigView,
    time: u64,
) -> Seq<EventView> {
    all_found_events(disks, devices, cfg, time) + vanished_events(
        ordered(with_all_found(disks, devices, cfg)),
        watched_keys(devices, cfg),
        time,
    )
}

impl StateView {
    /// The state after an inventory.
    pub open spec fn after_inventory(
        self,
        devices: Seq<DeviceView>,
        cfg: ConfigView,
        time: u64,
    ) -> StateView {
        StateView {
            disks: without_vanished(
                with_all_found(self.disks, devices, cfg),
                watched_keys(devices, cfg),
            ),
            ..self
        }.remembering_all(inventory_events(self.disks, devices, cfg, time))
    }
}

fn push_event(
    events: &mut Vec<Event>,
    time: u64,
    severity: Severity,
    device: &Device,
    category: &str,
    message: &str,
)
    ensures
        final(events).deep_view() == old(events).deep_view().push(
            disk_event(time, severity, device@, category@, message@),
        ),
{
    events.push(Event::at(time, severity, Some(device), category, message));
    assert(events.deep_view() =~= old(events).deep_view().push(
        disk_event(time, severity, device@, category@, message@),
    ));
}

fn take_in_found(
    disks: &mut StrMap<DiskState>,
    device: &Device,
    smart: bool,
    time: u64,
    events: &mut Vec<Event>,
)
    ensures
        final(disks)@ == with_found(old(disks)@, device@, smart),
        final(events).deep_view() == old(events).deep_view() + found_events(
            old(disks)@,
            device@,
            time,
        ),
{
    let ghost before = disks@;
    let ghost told = events.deep_view();
    let key: String = device.key();
    let mut entry: DiskState = match disks.remove(key.as_str()) {
        Some(d) => {
            if !d.present {
                push_event(events, time, Severity::Info, device, "discovery", "disk reappeared");
            }
            d
        },
        None => {
            push_event(events, time, Severity::Info, device, "discovery", "new disk discovered");
            if device.serial.as_str().is_empty() && nonzero_wwn(device.wwn.as_str()).is_none() {
                push_event(
                    events,
                    time,
                    Severity::Warning,
                    device,
                    "identity",
                    "no serial or WWN: identity depends on device path",
                );
            }
            DiskState::new(device.clone())
        },
    };
    assert(events.deep_view() =~= told + found_events(before, device@, time));
    entry.present = true;
    entry.device = device.clone();
    if !smart {
        entry.check_status = CheckStatus::Disabled;
    }
    let ghost e = entry@;
    disks.insert(key, entry);
    assert(disks@ =~= before.insert(device@.key(), e));
}

fn mark_vanished(
    disks: StrMap<DiskState>,
    here: &StrSet,
    time: u64,
    events: &mut Vec<Event>,
) -> (r: StrMap<DiskState>)
    ensures
        r@ == without_vanished(disks@, here@),
        final(events).deep_view() == old(events).deep_view() + vanished_events(
            ordered(disks@),
            here@,
            time,
        ),
{
    let ghost before = disks@;
    let ghost listing = ordered(before);
    let ghost told = events.deep_view();
    let entries: Vec<(String, DiskState)> = disks.into_entries();
    let ghost work = entries@;
    assert forall|i: int| 0 <= i < work.len() implies (#[trigger] work[i]).0@ == listing[i].0
        && work[i].1@ == listing[i].1 by {
        assert(entries.deep_view()[i] == listing[i]);
    }
    let mut out: StrMap<DiskState> = StrMap::new();
    assert(told + vanished_events(listing.take(0), here@, time) =~= told);
    for entry in it: entries
        invariant
            it.seq() == work,
            work.len() == listing.len(),
            lists(listing, before),
            forall|i: int|
                0 <= i < work.len() ==> (#[trigger] work[i]).0@ == listing[i].0 && work[i].1@
                    == listing[i].1,
            forall|k: Seq<char>| #[trigger]
                out@.contains_key(k) <==> seen(listing, it.index() as int, k),
            forall|k: Seq<char>| #[trigger]
                out@.contains_key(k) ==> out@[k] == (DiskView {
                    present: before[k].present && here@.contains(k),
                    ..before[k]
                }),
            events.deep_view() == told + vanished_events(
                listing.take(it.index() as int),
                here@,
                time,
            ),
    {
        let ghost n = it.index() as int;
        proof {
            lemma_seen(listing, n);
            assert(listing.take(n + 1).drop_last() =~= listing.take(n));
            assert(listing.take(n + 1).last() == listing[n]);
        }
        let (key, mut d) = entry;
        if d.present && !here.contains(key.as_str()) {
            d.present = false;
            push_event(events, time, Severity::Info, &d.device, "discovery", "disk disappeared");
        }
        assert(events.deep_view() =~= told + vanished_events(listing.take(n + 1), here@, time));
        out.insert(key, d);
    }
    proof {
        lemma_all_seen(listing, before);
        assert(listing.take(listing.len() as int) =~= listing);
    }
    assert(out@ =~= without_vanished(before, here@));
    out
}

/// Takes an inventory in: what is new, what is back and what is gone.
pub fn apply_inventory(
    state: &mut State,
    devices: &Vec<Device>,
    cfg: &Config,
    time: u64,
    out: &mut Vec<Notice>,
)
    ensures
        final(state)@ == old(state)@.after_inventory(devices.deep_view(), cfg@, time),
        final(out).deep_view() == old(out).deep_view() + notices(
            inventory_events(old(state)@.disks, devices.deep_view(), cfg@, time),
        ),
{
    let ghost all = devices.deep_view();
    let ghost start = state.disks@;
    let mut disks: StrMap<DiskState> = StrMap::new();
    std::mem::swap(&mut disks, &mut state.disks);
    let mut events: Vec<Event> = Vec::new();
    let mut here: StrSet = StrSet::new();
    let mut i: usize = 0;
    assert(events.deep_view() =~= all_found_events(start, all.take(0), cfg@, time));
    while i < devices.len()
        invariant
            i <= devices.len(),
            all == devices.deep_view(),
            disks@ == with_all_found(start, all.take(i as int), cfg@),
            events.deep_view() == all_found_events(start, all.take(i as int), cfg@, time),
            here@ == watched_keys(all.take(i as int), cfg@),
        decreases devices.len() - i,
    {
        let device: &Device = &devices[i];
        assert(all.take(i + 1).drop_last() =~= all.take(i as int));
        assert(all.take(i + 1).last() == device@);
        if cfg.watches(device.serial.as_str()) {
            here.insert(device.key());
            take_in_found(&mut disks, device, cfg.smart.enabled, time, &mut events);
        }
        i += 1;
    }
    assert(all.take(i as int) =~= all);
    let disks: StrMap<DiskState> = mark_vanished(disks, &here, time, &mut events);
    state.disks = disks;
    publish_all(state, out, events);
}

// ---------------------------------------------------------------------------
// Readings
// ---------------------------------------------------------------------------

/// What came of a reading: what is remembered of the disk, what is to be told, and
/// whether the device may be another one by now.
pub struct Verdict {
    pub disk: DiskView,
    pub events: Seq<EventView>,
    pub race: bool,
}

/// Why the reading may be that of another device than the one that was asked for.
/// `current` is the sequence number of the device after the reading.
pub open spec fn swapped(d: DeviceView, s: SnapshotView, current: Option<u64>) -> Option<Seq<char>> {
    match mismatch(d, s) {
        Some(error) => Some(error),
        None => if d.diskseq is Some && current != d.diskseq {
            Some("device disappeared or diskseq changed during SMART check"@)
        } else {
            None
        },
    }
}

/// A trouble is told once, not again while it lasts.
pub open spec fn trouble_events(
    e: DiskView,
    time: u64,
    category: Seq<char>,
    error: Seq<char>,
) -> Seq<EventView> {
    if e.smart_error == Some(error) {
        Seq::empty()
    } else {
        seq![disk_event(time, Severity::Warning, e.device, category, error)]
    }
}

/// The disk without measurements that belong to another disk.
pub open spec fn with_own_history(e: DiskView) -> DiskView {
    if e.snapshot is Some && mismatch(e.device, e.snapshot->0) is Some {
        DiskView { snapshot: None, checked_at: None, hot: false, smart_error: None, ..e }
    } else {
        e
    }
}

/// The reading is taken in, and makes the stored measurements out as those of another
/// disk.
pub open spec fn discards_history(
    e: DiskView,
    result: Result<ReadingView, Seq<char>>,
    current: Option<u64>,
) -> bool {
    &&& result matches Ok(ReadingView::Checked(s))
    &&& swapped(e.device, s, current) is None
    &&& e.snapshot is Some
    &&& mismatch(e.device, e.snapshot->0) is Some
}

/// The new measurements, with earlier ones where there is no new one.
pub open spec fn joined(e: DiskView, s: SnapshotView) -> SnapshotView {
    match e.snapshot {
        Some(earlier) => s.retaining(earlier),
        None => s,
    }
}

/// What comes of measurements that are those of the disk.
pub open spec fn measured_verdict(e: DiskView, s: SnapshotView, cfg: ConfigView, time: u64) -> Verdict {
    let own = with_own_history(e);
    let new = joined(own, s);
    let o = Occasion { time, device: own.device, old: own.snapshot, new };
    let changes = o.events(own.hot, cfg.temperature);
    let hot = o.hot_after(own.hot, cfg.temperature);
    match new.issue {
        Some(issue) => Verdict {
            disk: DiskView {
                snapshot: Some(new),
                hot,
                smart_error: Some(issue),
                check_status: CheckStatus::Partial,
                ..own
            },
            events: changes + trouble_events(own, time, "smart_read"@, issue),
            race: false,
        },
        None => Verdict {
            disk: DiskView {
                snapshot: Some(new),
                hot,
                smart_error: None,
                check_status: CheckStatus::Checked,
                checked_at: Some(time),
                ..own
            },
            events: changes + (if own.smart_error is Some {
                seq![
                    disk_event(
                        time,
                        Severity::Info,
                        own.device,
                        "smart_read"@,
                        "SMART reading recovered"@,
                    ),
                ]
            } else {
                Seq::empty()
            }),
            race: false,
        },
    }
}

/// What comes of a reading of the disk.
pub open spec fn verdict(
    e: DiskView,
    result: Result<ReadingView, Seq<char>>,
    cfg: ConfigView,
    current: Option<u64>,
    time: u64,
) -> Verdict {
    match result {
        Ok(ReadingView::Checked(s)) => match swapped(e.device, s, current) {
            Some(error) => Verdict {
                disk: DiskView {
                    check_status: CheckStatus::StaleRace,
                    smart_error: Some(error),
                    ..e
                },
                events: trouble_events(e, time, "identity_race"@, error),
                race: true,
            },
            None => measured_verdict(e, s, cfg, time),
        },
        Ok(ReadingView::Sleeping) => Verdict {
            disk: DiskView { check_status: CheckStatus::Sleeping, smart_error: None, ..e },
            events: Seq::empty(),
            race: false,
        },
        Err(error) => Verdict {
            disk: DiskView { check_status: CheckStatus::Failed, smart_error: Some(error), ..e },
            events: trouble_events(e, time, "smart_read"@, error),
            race: true,
        },
    }
}

impl StateView {
    /// What is remembered of a device that is there.
    pub open spec fn entry(self, d: DeviceView) -> DiskView {
        if self.disks.contains_key(d.key()) {
            DiskView { device: d, present: true, ..self.disks[d.key()] }
        } else {
            new_disk(d)
        }
    }

    /// What comes of a reading of a device.
    pub open spec fn reading_verdict(
        self,
        d: DeviceView,
        result: Result<ReadingView, Seq<char>>,
        cfg: ConfigView,
        current: Option<u64>,
        time: u64,
    ) -> Verdict {
        verdict(self.entry(d), result, cfg, current, time)
    }

    /// The state after a reading of a device.
    pub open spec fn after_reading(self, d: DeviceView, v: Verdict) -> StateView {
        StateView { disks: self.disks.insert(d.key(), v.disk), ..self }.remembering_all(v.events)
    }
}

/// The outcome of a reading as a value of the contracts.
pub open spec fn result_view(r: Result<Reading, String>) -> Result<ReadingView, Seq<char>> {
    match r {
        Ok(x) => Ok(x@),
        Err(e) => Err(e@),
    }
}

fn swap_reason(device: &Device, s: &Snapshot, current: Option<u64>) -> (r: Option<String>)
    ensures
        r.deep_view() == swapped(device@, s@, current),
{
    match identity_mismatch(device, s) {
        Some(error) => Some(error),
        None => if device.diskseq.is_some() && current != device.diskseq {
            Some("device disappeared or diskseq changed during SMART check".to_owned())
        } else {
            None
        },
    }
}

fn push_trouble(entry: &DiskState, time: u64, category: &str, error: &str, events: &mut Vec<Event>)
    ensures
        final(events).deep_view() == old(events).deep_view() + trouble_events(
            entry@,
            time,
            category@,
            error@,
        ),
{
    let known: bool = match &entry.smart_error {
        Some(e) => same(e.as_str(), error),
        None => false,
    };
    if !known {
        push_event(events, time, Severity::Warning, &entry.device, category, error);
    }
    assert(events.deep_view() =~= old(events).deep_view() + trouble_events(
        entry@,
        time,
        category@,
        error@,
    ));
}

fn keep_own_history(entry: &mut DiskState)
    ensures
        final(entry)@ == with_own_history(old(entry)@),
{
    let foreign: bool = match &entry.snapshot {
        Some(s) => identity_mismatch(&entry.device, s).is_some(),
        None => false,
    };
    if foreign {
        entry.snapshot = None;
        entry.checked_at = None;
        entry.hot = false;
        entry.smart_error = None;
    }
}

fn take_in_measurements(
    entry: &mut DiskState,
    snapshot: Snapshot,
    cfg: &Config,
    time: u64,
) -> (r: Vec<Event>)
    ensures
        ({
            let v = measured_verdict(old(entry)@, snapshot@, cfg@, time);
            &&& final(entry)@ == v.disk
            &&& r.deep_view() == v.events
        }),
{
    keep_own_history(entry);
    let ghost own = entry@;
    let mut new: Snapshot = snapshot;
    if let Some(earlier) = &entry.snapshot {
        new.retain_missing(earlier);
    }
    assert(new@ == joined(own, snapshot@));
    let mut hot: bool = entry.hot;
    let mut events: Vec<Event> = diff_at(
        time,
        &entry.device,
        entry.snapshot.as_ref(),
        &new,
        &mut hot,
        &cfg.temperature,
    );
    entry.hot = hot;
    let ghost changes = events.deep_view();
    if let Some(issue) = &new.issue {
        push_trouble(entry, time, "smart_read", issue.as_str(), &mut events);
        entry.smart_error = Some(issue.clone());
        entry.check_status = CheckStatus::Partial;
    } else {
        if entry.smart_error.is_some() {
            push_event(
                &mut events,
                time,
                Severity::Info,
                &entry.device,
                "smart_read",
                "SMART reading recovered",
            );
        }
        assert(events.deep_view() =~= measured_verdict(old(entry)@, snapshot@, cfg@, time).events);
        entry.smart_error = None;
        entry.check_status = CheckStatus::Checked;
        entry.checked_at = Some(time);
    }
    entry.snapshot = Some(new);
    events
}

fn take_in_result(
    entry: &mut DiskState,
    result: Result<Reading, String>,
    cfg: &Config,
    current: Option<u64>,
    time: u64,
) -> (r: (Vec<Event>, bool))
    ensures
        ({
            let v = verdict(old(entry)@, result_view(result), cfg@, current, time);
            &&& final(entry)@ == v.disk
            &&& r.0.deep_view() == v.events
            &&& r.1 == v.race
        }),
{
    let mut events: Vec<Event> = Vec::new();
    assert(events.deep_view() =~= Seq::<EventView>::empty());
    match result {
        Ok(Reading::Checked(snapshot)) => {
            match swap_reason(&entry.device, &snapshot, current) {
                Some(error) => {
                    push_trouble(entry, time, "identity_race", error.as_str(), &mut events);
                    assert(events.deep_view() =~= trouble_events(
                        old(entry)@,
                        time,
                        "identity_race"@,
                        error@,
                    ));
                    entry.check_status = CheckStatus::StaleRace;
                    entry.smart_error = Some(error);
                    (events, true)
                },
                None => (take_in_measurements(entry, *snapshot, cfg, time), false),
            }
        },
        Ok(Reading::Sleeping) => {
            entry.check_status = CheckStatus::Sleeping;
            entry.smart_error = None;
            (events, false)
        },
        Err(error) => {
            push_trouble(entry, time, "smart_read", error.as_str(), &mut events);
            assert(events.deep_view() =~= trouble_events(
                old(entry)@,
                time,
                "smart_read"@,
                error@,
            ));
            entry.smart_error = Some(error);
            entry.check_status = CheckStatus::Failed;
            (events, true)
        },
    }
}

/// Whether `apply_result` discards the stored measurements of the device as those of
/// another disk. The user is to be warned of it.
pub fn contradicts_history(
    state: &State,
    device: &Device,
    result: &Result<Reading, String>,
    current: Option<u64>,
) -> (r: bool)
    ensures
        r == discards_history(state@.entry(device@), result_view(*result), current),
{
    let stored: bool = match state.disks.get(device.key().as_str()) {
        Some(d) => match &d.snapshot {
            Some(s) => identity_mismatch(device, s).is_some(),
            None => false,
        },
        None => false,
    };
    match result {
        Ok(Reading::Checked(s)) => stored && swap_reason(device, s, current).is_none(),
        _ => false,
    }
}

/// Takes the reading of a device in. `current` is the sequence number of the device
/// after the reading. Returns whether the device may be another one by now, so that
/// kernel messages can no longer be ascribed to it.
pub fn apply_result(
    state: &mut State,
    device: Device,
    result: Result<Reading, String>,
    cfg: &Config,
    current: Option<u64>,
    time: u64,
    out: &mut Vec<Notice>,
) -> (r: bool)
    ensures
        ({
            let v = old(state)@.reading_verdict(
                device@,
                result_view(result),
                cfg@,
                current,
                time,
            );
            &&& final(state)@ == old(state)@.after_reading(device@, v)
            &&& final(out).deep_view() == old(out).deep_view() + notices(v.events)
            &&& r == v.race
        }),
{
    let ghost before = state@.disks;
    let key: String = device.key();
    let mut entry: DiskState = match state.disks.remove(key.as_str()) {
        Some(d) => {
            let mut e: DiskState = d;
            e.device = device;
            e.present = true;
            e
        },
        None => DiskState::new(device),
    };
    assert(entry@ == old(state)@.entry(device@));
    let (events, race) = take_in_result(&mut entry, result, cfg, current, time);
    let ghost e = entry@;
    state.disks.insert(key, entry);
    assert(state.disks@ =~= before.insert(device@.key(), e));
    publish_all(state, out, events);
    race
}

// ---------------------------------------------------------------------------
// Scans
// ---------------------------------------------------------------------------

/// The device, with what was not known of it filled in. The WWN of an NVMe disk
/// belongs to a namespace, so its controller gets none.
pub open spec fn filled(
    d: DeviceView,
    model: Seq<char>,
    serial: Seq<char>,
    wwn: Seq<char>,
) -> DeviceView {
    DeviceView {
        model: if d.model.len() == 0 {
            model
        } else {
            d.model
        },
        serial: if d.serial.len() == 0 {
            serial
        } else {
            d.serial
        },
        wwn: if known_wwn(d.wwn) is Some {
            d.wwn
        } else if d.kind == Kind::Nvme {
            Seq::empty()
        } else {
            clean_wwn(wwn)
        },
        ..d
    }
}

/// The device, with what another record of it knows filled in.
pub open spec fn filled_from(d: DeviceView, other: DeviceView) -> DeviceView {
    filled(d, other.model, other.serial, other.wwn)
}

/// Fills in what is not known of a device.
pub fn fill_identity(d: &mut Device, model: &str, serial: &str, wwn: &str)
    ensures
        final(d)@ == filled(old(d)@, model@, serial@, wwn@),
{
    if d.model.as_str().is_empty() {
        d.model = model.to_owned();
    }
    if d.serial.as_str().is_empty() {
        d.serial = serial.to_owned();
    }
    if nonzero_wwn(d.wwn.as_str()).is_none() {
        d.wwn = if d.kind == Kind::Nvme {
            String::new()
        } else {
            cleaned_wwn(wwn)
        };
        assert(d@.wwn =~= filled(old(d)@, model@, serial@, wwn@).wwn);
    }
}

/// What came of a scan.
#[derive(Debug)]
pub enum Scan {
    Inventory(Vec<Device>),
    Disk(Device, Result<Reading, String>),
    DiscoveryFailed(String),
}

/// The first disk of a listing that is the same as the device.
pub open spec fn first_same_disk(listing: Seq<(Seq<char>, DiskView)>, d: DeviceView) -> Option<
    DeviceView,
>
    decreases listing.len(),
{
    if listing.len() == 0 {
        None
    } else if d.same_disk(listing[0].1.device) {
        Some(listing[0].1.device)
    } else {
        first_same_disk(listing.skip(1), d)
    }
}

/// The device, with what is remembered of it filled in.
pub open spec fn recalled(disks: Map<Seq<char>, DiskView>, d: DeviceView) -> DeviceView {
    match first_same_disk(ordered(disks), d) {
        Some(known) => filled_from(d, known),
        None => d,
    }
}

/// The devices, with what is remembered of them filled in.
pub open spec fn all_recalled(disks: Map<Seq<char>, DiskView>, devices: Seq<DeviceView>) -> Seq<
    DeviceView,
> {
    Seq::new(devices.len(), |i: int| recalled(disks, devices[i]))
}

/// The first device of a list that is the same as the given one.
pub open spec fn first_same(devices: Seq<DeviceView>, d: DeviceView) -> Option<DeviceView>
    decreases devices.len(),
{
    if devices.len() == 0 {
        None
    } else if devices[0].same_disk(d) {
        Some(devices[0])
    } else {
        first_same(devices.skip(1), d)
    }
}

/// The device, with what the last inventory knows of it filled in.
pub open spec fn completed(devices: Seq<DeviceView>, d: DeviceView) -> DeviceView {
    match first_same(devices, d) {
        Some(known) => filled_from(d, known),
        None => d,
    }
}

/// The reading tells who the device is: it is about the device, and the device is
/// still the one that was discovered.
pub open spec fn identifies(
    d: DeviceView,
    result: Result<ReadingView, Seq<char>>,
    current: Option<u64>,
) -> Option<SnapshotView> {
    match result {
        Ok(ReadingView::Checked(s)) => if mismatch(d, s) is None && (d.diskseq is None || current
            == d.diskseq) {
            Some(s)
        } else {
            None
        },
        _ => None,
    }
}

/// The disks after a device got a stronger key. Its history moves along, unless it
/// was held under nothing but a path, or the new key has a history.
pub open spec fn rekeyed(
    disks: Map<Seq<char>, DiskView>,
    from: DeviceView,
    to: DeviceView,
) -> Map<Seq<char>, DiskView> {
    if from.key() == to.key() || !disks.contains_key(from.key()) {
        disks
    } else {
        let rest = disks.remove(from.key());
        let history = disks[from.key()];
        if history.device.same_disk(to) && !rest.contains_key(to.key()) {
            rest.insert(to.key(), DiskView { device: to, ..history })
        } else {
            rest
        }
    }
}

/// The entry of the inventory is the device that was just identified.
pub open spec fn is_entry_of(d: DeviceView, original: DeviceView) -> bool {
    d.same_disk(original) || (d.serial.len() == 0 && known_wwn(d.wwn) is None && d.key()
        == original.key() && d.diskseq == original.diskseq)
}

/// The inventory, with the device as it is known now.
pub open spec fn with_identified(
    devices: Seq<DeviceView>,
    original: DeviceView,
    device: DeviceView,
) -> Seq<DeviceView> {
    Seq::new(
        devices.len(),
        |i: int|
            if is_entry_of(devices[i], original) {
                device
            } else {
                devices[i]
            },
    )
}

/// The inventory, with a device of which kernel messages can tell nothing.
pub open spec fn with_doubtful(devices: Seq<DeviceView>, device: DeviceView) -> Seq<DeviceView> {
    Seq::new(
        devices.len(),
        |i: int|
            if devices[i].same_disk(device) {
                DeviceView { diskseq: None, ..devices[i] }
            } else {
                devices[i]
            },
    )
}

/// What is known after a part of a scan: the memory, the inventory, what is to be told,
/// and the key of the disk whose stored measurements were discarded as those of another.
pub struct Progress {
    pub state: StateView,
    pub devices: Seq<DeviceView>,
    pub events: Seq<EventView>,
    pub discarded: Option<Seq<char>>,
}

/// What is known after an inventory.
pub open spec fn inventory_progress(
    state: StateView,
    found: Seq<DeviceView>,
    cfg: ConfigView,
    time: u64,
) -> Progress {
    let devices = all_recalled(state.disks, found);
    Progress {
        state: state.after_inventory(devices, cfg, time),
        devices,
        events: inventory_events(state.disks, devices, cfg, time),
        discarded: None,
    }
}

/// What is known once the reading of a device told who it is.
pub open spec fn identity_progress(
    state: StateView,
    devices: Seq<DeviceView>,
    d: DeviceView,
    result: Result<ReadingView, Seq<char>>,
    current: Option<u64>,
) -> (StateView, Seq<DeviceView>, DeviceView) {
    match identifies(d, result, current) {
        Some(s) => {
            let device = filled(d, s.model, s.serial, s.wwn);
            (
                StateView { disks: rekeyed(state.disks, d, device), ..state },
                with_identified(devices, d, device),
                device,
            )
        },
        None => (state, devices, d),
    }
}

/// The memory once a device turned out to be one that is left alone.
pub open spec fn left_alone(state: StateView, d: DeviceView) -> StateView {
    if state.disks.contains_key(d.key()) {
        StateView {
            disks: state.disks.insert(
                d.key(),
                DiskView { check_status: CheckStatus::Disabled, ..state.disks[d.key()] },
            ),
            ..state
        }
    } else {
        state
    }
}

/// What is known after the reading of a device. `current` and `later` are the
/// sequence number of the device at two moments after the reading.
pub open spec fn disk_progress(
    state: StateView,
    devices: Seq<DeviceView>,
    found: DeviceView,
    result: Result<ReadingView, Seq<char>>,
    cfg: ConfigView,
    current: Option<u64>,
    later: Option<u64>,
    time: u64,
) -> Progress {
    let (known, inventory, device) = identity_progress(
        state,
        devices,
        completed(devices, found),
        result,
        current,
    );
    if !watched(cfg, device.serial) {
        Progress {
            state: left_alone(known, device),
            devices: inventory,
            events: Seq::empty(),
            discarded: None,
        }
    } else {
        let v = known.reading_verdict(device, result, cfg, later, time);
        Progress {
            state: known.after_reading(device, v),
            devices: if v.race {
                with_doubtful(inventory, device)
            } else {
                inventory
            },
            events: v.events,
            discarded: if discards_history(known.entry(device), result, later) {
                Some(device.key())
            } else {
                None
            },
        }
    }
}

/// What is known after a part of a scan.
pub open spec fn progress(
    state: StateView,
    scan: Scan,
    devices: Seq<DeviceView>,
    cfg: ConfigView,
    current: Option<u64>,
    later: Option<u64>,
    time: u64,
) -> Progress {
    match scan {
        Scan::Inventory(found) => inventory_progress(state, found.deep_view(), cfg, time),
        Scan::Disk(d, result) => disk_progress(
            state,
            devices,
            d@,
            result_view(result),
            cfg,
            current,
            later,
            time,
        ),
        Scan::DiscoveryFailed(_) => Progress {
            state,
            devices: Seq::empty(),
            events: Seq::empty(),
            discarded: None,
        },
    }
}

fn recall(disks: &StrMap<DiskState>, d: &mut Device)
    ensures
        final(d)@ == recalled(disks@, old(d)@),
{
    let ghost listing = ordered(disks@);
    let n: usize = disks.len();
    let mut i: usize = 0;
    assert(listing.skip(0) =~= listing);
    while i < n
        invariant
            i <= n,
            n == listing.len(),
            listing == ordered(disks@),
            *d == *old(d),
            first_same_disk(listing, d@) == first_same_disk(listing.skip(i as int), d@),
        decreases n - i,
    {
        let known: &Device = &disks.value_at(i).device;
        assert(listing.skip(i as int)[0] == listing[i as int]);
        assert(listing.skip(i as int).skip(1) =~= listing.skip(i + 1));
        if d.same_identity(known) {
            fill_identity(d, known.model.as_str(), known.serial.as_str(), known.wwn.as_str());
            return;
        }
        i += 1;
    }
}

fn complete(devices: &Vec<Device>, d: &mut Device)
    ensures
        final(d)@ == completed(devices.deep_view(), old(d)@),
{
    let ghost all = devices.deep_view();
    let mut i: usize = 0;
    assert(all.skip(0) =~= all);
    while i < devices.len()
        invariant
            i <= devices.len(),
            all == devices.deep_view(),
            *d == *old(d),
            first_same(all, d@) == first_same(all.skip(i as int), d@),
        decreases devices.len() - i,
    {
        let known: &Device = &devices[i];
        assert(all.skip(i as int)[0] == known@);
        assert(all.skip(i as int).skip(1) =~= all.skip(i + 1));
        if known.same_identity(d) {
            fill_identity(d, known.model.as_str(), known.serial.as_str(), known.wwn.as_str());
            return;
        }
        i += 1;
    }
}

fn rekey(disks: &mut StrMap<DiskState>, from: &Device, to: &Device)
    ensures
        final(disks)@ == rekeyed(old(disks)@, from@, to@),
{
    let ghost before = disks@;
    let old_key: String = from.key();
    let new_key: String = to.key();
    if same(old_key.as_str(), new_key.as_str()) {
        return;
    }
    if let Some(history) = disks.remove(old_key.as_str()) {
        if history.device.same_identity(to) && !disks.contains_key(new_key.as_str()) {
            let mut moved: DiskState = history;
            moved.device = to.clone();
            disks.insert(new_key, moved);
        }
    } else {
        assert(disks@ =~= before);
    }
}

fn is_entry(d: &Device, original: &Device) -> (r: bool)
    ensures
        r == is_entry_of(d@, original@),
{
    d.same_identity(original) || (d.serial.as_str().is_empty() && nonzero_wwn(
        d.wwn.as_str(),
    ).is_none() && same(d.key().as_str(), original.key().as_str()) && d.diskseq
        == original.diskseq)
}

fn replace_identified(devices: &mut Vec<Device>, original: &Device, device: &Device)
    ensures
        final(devices).deep_view() == with_identified(
            old(devices).deep_view(),
            original@,
            device@,
        ),
{
    let ghost all = devices.deep_view();
    let mut i: usize = 0;
    while i < devices.len()
        invariant
            i <= devices.len(),
            devices.len() == all.len(),
            forall|j: int|
                0 <= j < i ==> (#[trigger] devices@[j])@ == with_identified(
                    all,
                    original@,
                    device@,
                )[j],
            forall|j: int| i <= j < all.len() ==> (#[trigger] devices@[j])@ == all[j],
        decreases devices.len() - i,
    {
        if is_entry(&devices[i], original) {
            devices.set(i, device.clone());
        }
        i += 1;
    }
    assert(devices.deep_view() =~= with_identified(all, original@, device@));
}

fn doubt(devices: &mut Vec<Device>, device: &Device)
    ensures
        final(devices).deep_view() == with_doubtful(old(devices).deep_view(), device@),
{
    let ghost all = devices.deep_view();
    let mut i: usize = 0;
    while i < devices.len()
        invariant
            i <= devices.len(),
            devices.len() == all.len(),
            forall|j: int|
                0 <= j < i ==> (#[trigger] devices@[j])@ == with_doubtful(all, device@)[j],
            forall|j: int| i <= j < all.len() ==> (#[trigger] devices@[j])@ == all[j],
        decreases devices.len() - i,
    {
        if devices[i].same_identity(device) {
            let mut d: Device = devices[i].clone();
            d.diskseq = None;
            devices.set(i, d);
        }
        i += 1;
    }
    assert(devices.deep_view() =~= with_doubtful(all, device@));
}

fn leave_alone(state: &mut State, device: &Device)
    ensures
        final(state)@ == left_alone(old(state)@, device@),
{
    let ghost before = state.disks@;
    let key: String = device.key();
    if let Some(d) = state.disks.remove(key.as_str()) {
        let mut entry: DiskState = d;
        entry.check_status = CheckStatus::Disabled;
        let ghost e = entry@;
        state.disks.insert(key, entry);
        assert(state.disks@ =~= before.insert(device@.key(), e));
    } else {
        assert(state.disks@ =~= before);
    }
}

fn apply_identity(
    state: &mut State,
    devices: &mut Vec<Device>,
    device: &mut Device,
    result: &Result<Reading, String>,
    current: Option<u64>,
)
    ensures
        (final(state)@, final(devices).deep_view(), final(device)@) == identity_progress(
            old(state)@,
            old(devices).deep_view(),
            old(device)@,
            result_view(*result),
            current,
        ),
{
    if let Ok(Reading::Checked(s)) = result {
        if identity_mismatch(device, s).is_none() && (device.diskseq.is_none() || current
            == device.diskseq) {
            let original: Device = device.clone();
            fill_identity(device, s.model.as_str(), s.serial.as_str(), s.wwn.as_str());
            rekey(&mut state.disks, &original, device);
            replace_identified(devices, &original, device);
        }
    }
}

fn apply_inventory_scan(
    state: &mut State,
    found: Vec<Device>,
    devices: &mut Vec<Device>,
    cfg: &Config,
    time: u64,
    out: &mut Vec<Notice>,
)
    ensures
        ({
            let p = inventory_progress(old(state)@, found.deep_view(), cfg@, time);
            &&& final(state)@ == p.state
            &&& final(devices).deep_view() == p.devices
            &&& final(out).deep_view() == old(out).deep_view() + notices(p.events)
        }),
{
    let ghost work = found@;
    let ghost all = found.deep_view();
    let mut known: Vec<Device> = Vec::new();
    for device in it: found
        invariant
            it.seq() == work,
            all.len() == work.len(),
            forall|i: int| 0 <= i < all.len() ==> #[trigger] all[i] == work[i]@,
            *state == *old(state),
            known@.len() == it.index(),
            forall|i: int|
                0 <= i < known@.len() ==> (#[trigger] known@[i])@ == recalled(state@.disks, all[i]),
    {
        let mut d: Device = device;
        assert(all[it.index() as int] == d@);
        recall(&state.disks, &mut d);
        known.push(d);
    }
    assert(known.deep_view() =~= all_recalled(state@.disks, all));
    apply_inventory(state, &known, cfg, time, out);
    *devices = known;
}

/// Takes a part of a scan in. `devices` is the inventory. For the reading of a disk,
/// `current` and `later` are its sequence number at two moments after the reading.
/// Returns the key of the disk whose stored measurements were discarded as those of
/// another disk; the user is to be warned of it.
pub fn apply_scan(
    state: &mut State,
    scan: Scan,
    devices: &mut Vec<Device>,
    cfg: &Config,
    current: Option<u64>,
    later: Option<u64>,
    time: u64,
    out: &mut Vec<Notice>,
) -> (r: Option<String>)
    ensures
        ({
            let p = progress(
                old(state)@,
                scan,
                old(devices).deep_view(),
                cfg@,
                current,
                later,
                time,
            );
            &&& final(state)@ == p.state
            &&& final(devices).deep_view() == p.devices
            &&& final(out).deep_view() == old(out).deep_view() + notices(p.events)
            &&& r.deep_view() == p.discarded
        }),
{
    match scan {
        Scan::Inventory(found) => {
            apply_inventory_scan(state, found, devices, cfg, time, out);
            None
        },
        Scan::Disk(found, result) => {
            let mut device: Device = found;
            complete(devices, &mut device);
            apply_identity(state, devices, &mut device, &result, current);
            if !cfg.watches(device.serial.as_str()) {
                leave_alone(state, &device);
                assert(out.deep_view() =~= old(out).deep_view() + notices(Seq::empty()));
                return None;
            }
            let discarded: Option<String> = if contradicts_history(state, &device, &result, later) {
                Some(device.key())
            } else {
                None
            };
            if apply_result(state, device.clone(), result, cfg, later, time, out) {
                doubt(devices, &device);
            }
            discarded
        },
        Scan::DiscoveryFailed(_) => {
            *devices = Vec::new();
            assert(devices.deep_view() =~= Seq::<DeviceView>::empty());
            assert(out.deep_view() =~= old(out).deep_view() + notices(Seq::empty()));
            None
        },
    }
}

// ---------------------------------------------------------------------------
// Kernel records
// ---------------------------------------------------------------------------

/// The event that a record of trouble gives rise to.
pub open spec fn kernel_event(
    record: RecordView,
    severity: Severity,
    category: Seq<char>,
    disk: Option<DeviceView>,
    time: u64,
) -> EventView {
    EventView {
        timestamp: match record.timestamp {
            Some(t) => t,
            None => time,
        },
        severity,
        disk,
        category: "kernel_"@ + category,
        message: record.message,
    }
}

/// What is remembered of a disk after the kernel reported trouble with it. The
/// gravest report counts for good.
pub open spec fn kernel_struck(d: DiskView, e: EventView) -> DiskView {
    DiskView {
        kernel_severity: Some(
            match d.kernel_severity {
                Some(s) => graver(s, e.severity),
                None => e.severity,
            },
        ),
        kernel_last_message: Some(e.message),
        kernel_last_seen: Some(e.timestamp),
        ..d
    }
}

impl StateView {
    /// The memory with the trouble that the kernel reports; with that of no disk in
    /// particular it is as before.
    pub open spec fn struck(self, e: EventView) -> StateView {
        match e.disk {
            Some(d) => StateView {
                disks: self.disks.insert(
                    d.key(),
                    kernel_struck(
                        if self.disks.contains_key(d.key()) {
                            self.disks[d.key()]
                        } else {
                            new_disk(d)
                        },
                        e,
                    ),
                ),
                ..self
            },
            None => self,
        }
    }

    /// The memory after a kernel record that is ascribed to `disk`.
    pub open spec fn after_record(
        self,
        record: RecordView,
        disk: Option<DeviceView>,
        cfg: ConfigView,
        time: u64,
    ) -> StateView {
        let cooldown = cfg.alerts.kernel_cooldown_seconds;
        if !self.accepts(record) {
            self
        } else {
            match classified(record.message) {
                None => self.having_accepted(record),
                Some((severity, category)) => {
                    let e = kernel_event(record, severity, category, disk, time);
                    self.having_accepted(record).struck(e).having_asked(
                        e,
                        time,
                        cooldown,
                    ).remembering(e)
                },
            }
        }
    }

    /// What a kernel record that is ascribed to `disk` gives to tell.
    pub open spec fn record_notices(
        self,
        record: RecordView,
        disk: Option<DeviceView>,
        cfg: ConfigView,
        time: u64,
    ) -> Seq<NoticeView> {
        let cooldown = cfg.alerts.kernel_cooldown_seconds;
        if !self.accepts(record) {
            Seq::empty()
        } else {
            match classified(record.message) {
                None => Seq::empty(),
                Some((severity, category)) => {
                    let e = kernel_event(record, severity, category, disk, time);
                    seq![notice(e, self.may_notify(e, time, cooldown))]
                },
            }
        }
    }
}

/// The device that a record is ascribed to, where it is watched.
pub open spec fn watched_match(
    record: RecordView,
    devices: Seq<DeviceView>,
    cfg: ConfigView,
    boot: Option<Seq<char>>,
    current: Option<u64>,
) -> Option<DeviceView> {
    match ascribed(record, devices, boot, current) {
        Some(d) => if watched(cfg, d.serial) {
            Some(d)
        } else {
            None
        },
        None => None,
    }
}

fn strike(disks: &mut StrMap<DiskState>, d: &Device, event: &Event)
    ensures
        final(disks)@ == old(disks)@.insert(
            d@.key(),
            kernel_struck(
                if old(disks)@.contains_key(d@.key()) {
                    old(disks)@[d@.key()]
                } else {
                    new_disk(d@)
                },
                event@,
            ),
        ),
{
    let ghost before = disks@;
    let key: String = d.key();
    let mut entry: DiskState = match disks.remove(key.as_str()) {
        Some(e) => e,
        None => DiskState::new(d.clone()),
    };
    entry.kernel_severity = Some(
        match entry.kernel_severity {
            Some(s) => s.worst(event.severity),
            None => event.severity,
        },
    );
    entry.kernel_last_message = Some(event.message.clone());
    entry.kernel_last_seen = Some(event.timestamp);
    let ghost e = entry@;
    disks.insert(key, entry);
    assert(disks@ =~= before.insert(d@.key(), e));
}

/// Takes a kernel record in, as one of the given disk.
pub fn apply_kernel(
    state: &mut State,
    record: Record,
    disk: Option<&Device>,
    cfg: &Config,
    time: u64,
    out: &mut Vec<Notice>,
)
    ensures
        final(state)@ == old(state)@.after_record(record@, disk.deep_view(), cfg@, time),
        final(out).deep_view() == old(out).deep_view() + old(state)@.record_notices(
            record@,
            disk.deep_view(),
            cfg@,
            time,
        ),
{
    if !state.accept_kernel(&record) {
        assert(out.deep_view() =~= old(out).deep_view() + Seq::<NoticeView>::empty());
        return;
    }
    match classify(record.message.as_str()) {
        None => {
            assert(out.deep_view() =~= old(out).deep_view() + Seq::<NoticeView>::empty());
        },
        Some((severity, kind)) => {
            let mut category: String = "kernel_".to_owned();
            category.append(kind);
            let timestamp: u64 = match record.timestamp {
                Some(t) => t,
                None => time,
            };
            let event: Event = Event::at(
                timestamp,
                severity,
                disk,
                category.as_str(),
                record.message.as_str(),
            );
            assert(event@ == kernel_event(record@, severity, kind@, disk.deep_view(), time));
            if let Some(d) = disk {
                strike(&mut state.disks, d, &event);
            }
            let notify: bool = state.should_notify_at(
                &event,
                cfg.alerts.kernel_cooldown_seconds,
                time,
            );
            publish(state, out, event, notify);
            assert(out.deep_view() =~= old(out).deep_view() + old(state)@.record_notices(
                record@,
                disk.deep_view(),
                cfg@,
                time,
            ));
        },
    }
}

/// Takes a kernel record in: finds its disk once, and notes the trouble under
/// exactly that disk. `current` is the sequence number now of the device whose
/// number the match depends on.
pub fn handle_kernel(
    state: &mut State,
    record: Record,
    devices: &Vec<Device>,
    cfg: &Config,
    current: Option<u64>,
    time: u64,
    out: &mut Vec<Notice>,
)
    ensures
        ({
            let disk = watched_match(
                record@,
                devices.deep_view(),
                cfg@,
                old(state)@.kernel_boot_id,
                current,
            );
            &&& final(state)@ == old(state)@.after_record(record@, disk, cfg@, time)
            &&& final(out).deep_view() == old(out).deep_view() + old(state)@.record_notices(
                record@,
                disk,
                cfg@,
                time,
            )
        }),
{
    let boot: Option<&str> = match &state.kernel_boot_id {
        Some(b) => Some(b.as_str()),
        None => None,
    };
    let disk: Option<&Device> = match fresh_match(&record, devices, boot, current) {
        Some(d) => if cfg.watches(d.serial.as_str()) {
            Some(d)
        } else {
            None
        },
        None => None,
    };
    apply_kernel(state, record, disk, cfg, time, out);
}

// ---------------------------------------------------------------------------
// One check
// ---------------------------------------------------------------------------

/// The devices of a list that are watched, in their order.
pub open spec fn watched_devices(devices: Seq<DeviceView>, cfg: ConfigView) -> Seq<DeviceView>
    decreases devices.len(),
{
    if devices.len() == 0 {
        Seq::empty()
    } else if watched(cfg, devices.last().serial) {
        watched_devices(devices.drop_last(), cfg).push(devices.last())
    } else {
        watched_devices(devices.drop_last(), cfg)
    }
}

/// The devices whose disks are to be read: those that are watched, or none where
/// SMART is switched off.
pub fn to_read(devices: &Vec<Device>, cfg: &Config) -> (r: Vec<Device>)
    ensures
        r.deep_view() == (if cfg@.smart.enabled {
            watched_devices(devices.deep_view(), cfg@)
        } else {
            Seq::empty()
        }),
{
    let ghost all = devices.deep_view();
    let mut r: Vec<Device> = Vec::new();
    assert(r.deep_view() =~= Seq::<DeviceView>::empty());
    if !cfg.smart.enabled {
        return r;
    }
    let mut i: usize = 0;
    while i < devices.len()
        invariant
            i <= devices.len(),
            all == devices.deep_view(),
            r.deep_view() == watched_devices(all.take(i as int), cfg@),
        decreases devices.len() - i,
    {
        let d: &Device = &devices[i];
        assert(all.take(i + 1).drop_last() =~= all.take(i as int));
        assert(all.take(i + 1).last() == d@);
        if cfg.watches(d.serial.as_str()) {
            let ghost before = r.deep_view();
            r.push(d.clone());
            assert(r.deep_view() =~= before.push(d@));
        }
        i += 1;
    }
    assert(all.take(i as int) =~= all);
    r
}

/// The last attempt to read the disk did not give a full reading.
pub open spec fn unfinished(d: DiskView) -> bool {
    d.present && (d.check_status == CheckStatus::Failed || d.check_status == CheckStatus::Partial
        || d.check_status == CheckStatus::StaleRace)
}

/// Whether a check left nothing out: the journal was read, and every disk that is
/// there was read in full, or is asleep or switched off.
pub fn check_complete(state: &State, journal_failed: bool) -> (r: bool)
    ensures
        r == (!journal_failed && forall|k: Seq<char>| #[trigger]
            state@.disks.contains_key(k) ==> !unfinished(state@.disks[k])),
{
    let ghost listing = ordered(state@.disks);
    let n: usize = state.disks.len();
    let mut i: usize = 0;
    while i < n
        invariant
            i <= n,
            n == listing.len(),
            listing == ordered(state@.disks),
            lists(listing, state@.disks),
            forall|j: int| 0 <= j < i ==> !unfinished((#[trigger] listing[j]).1),
        decreases n - i,
    {
        let d: &DiskState = state.disks.value_at(i);
        if d.present && (d.check_status == CheckStatus::Failed || d.check_status
            == CheckStatus::Partial || d.check_status == CheckStatus::StaleRace) {
            assert(state@.disks.contains_key(listing[i as int].0));
            return false;
        }
        i += 1;
    }
    proof {
        assert forall|k: Seq<char>| #[trigger] state@.disks.contains_key(k) implies !unfinished(
            state@.disks[k],
        ) by {
            let j = choose|j: int| 0 <= j < listing.len() && listing[j].0 == k;
            assert(!unfinished(listing[j].1));
        }
    }
    !journal_failed
}

// ---------------------------------------------------------------------------
// The daemon
// ---------------------------------------------------------------------------

/// What the daemon waits for.
#[derive(Clone, Copy, Debug, PartialEq, Eq, Structural)]
pub enum DaemonEvent {
    /// The user asks it to end.
    Signal,
    /// One of its tasks came to an end, which none should.
    TaskEnded,
    /// A part of a scan or a kernel record was taken in.
    TakenIn,
    /// It is time to save what changed.
    Tick,
}

/// What the daemon does next.
#[derive(Clone, Copy, Debug, PartialEq, Eq, Structural)]
pub enum DaemonAction {
    GoOn,
    /// Hands the state to the writer.
    Save,
    /// Ends as it was asked to.
    Stop,
    /// Ends with an error.
    Fail,
}

/// What the daemon does after an event. `dirty` tells that something changed since the
/// state was last handed to the writer.
pub fn daemon_step(dirty: &mut bool, event: DaemonEvent) -> (r: DaemonAction)
    ensures
        r == (match event {
            DaemonEvent::Signal => DaemonAction::Stop,
            DaemonEvent::TaskEnded => DaemonAction::Fail,
            DaemonEvent::TakenIn => DaemonAction::GoOn,
            DaemonEvent::Tick => if *old(dirty) {
                DaemonAction::Save
            } else {
                DaemonAction::GoOn
            },
        }),
        *final(dirty) == (match event {
            DaemonEvent::TakenIn => true,
            DaemonEvent::Tick => false,
            _ => *old(dirty),
        }),
{
    match event {
        DaemonEvent::Signal => DaemonAction::Stop,
        DaemonEvent::TaskEnded => DaemonAction::Fail,
        DaemonEvent::TakenIn => {
            *dirty = true;
            DaemonAction::GoOn
        },
        DaemonEvent::Tick => {
            let save: bool = *dirty;
            *dirty = false;
            if save {
                DaemonAction::Save
            } else {
                DaemonAction::GoOn
            }
        },
    }
}

/// What a scan that failed comes to. One whose task panicked ends the scheduler, with
/// `None`; any other is a discovery that failed, to be tried again.
pub fn failed_scan(panicked: bool, error: String) -> (r: Option<Scan>)
    ensures
        r == (if panicked {
            None
        } else {
            Some(Scan::DiscoveryFailed(error))
        }),
{
    if panicked {
        None
    } else {
        Some(Scan::DiscoveryFailed(error))
    }
}

} // verus!
