//! What the monitor remembers of disks, alerts and the kernel journal.

use crate::alert::{
    counter_severity, graver, now, severity_of_counter, severity_text, Event, EventView, Severity,
};
use crate::devices::{clean_wwn, cleaned_wwn, known_wwn, nonzero_wwn, Device, DeviceView};
use crate::json::{decode, decoded, named, Json, JsonView};
use crate::kernel::{Record, RecordView};
use crate::smart::{SelfTestStatus, Snapshot, SnapshotView};
use crate::strmap::{lemma_all_seen, lemma_seen, lists, ordered, seen, StrMap};
use crate::text::{
    copy_option, decimal, decimal_text, same, same_option, strip_prefix, without_prefix,
};
use std::collections::VecDeque;
use vstd::prelude::*;
use vstd::utf8::encode_utf8;

verus! {

// ---------------------------------------------------------------------------
// Disks
// ---------------------------------------------------------------------------

/// How the last attempt to read a disk ended.
#[derive(Clone, Copy, Debug, PartialEq, Eq, Structural)]
pub enum CheckStatus {
    Never,
    Checked,
    Partial,
    Sleeping,
    Failed,
    StaleRace,
    Disabled,
}

impl Default for CheckStatus {
    fn default() -> (r: Self)
        ensures
            r == CheckStatus::Never,
    {
        CheckStatus::Never
    }
}

/// What is remembered of one disk.
#[derive(Debug)]
pub struct DiskState {
    pub device: Device,
    pub present: bool,
    pub snapshot: Option<Snapshot>,
    pub checked_at: Option<u64>,
    pub hot: bool,
    pub smart_error: Option<String>,
    pub check_status: CheckStatus,
    pub kernel_severity: Option<Severity>,
    pub kernel_last_message: Option<String>,
    pub kernel_last_seen: Option<u64>,
}

pub struct DiskView {
    pub device: DeviceView,
    pub present: bool,
    pub snapshot: Option<SnapshotView>,
    pub checked_at: Option<u64>,
    pub hot: bool,
    pub smart_error: Option<Seq<char>>,
    pub check_status: CheckStatus,
    pub kernel_severity: Option<Severity>,
    pub kernel_last_message: Option<Seq<char>>,
    pub kernel_last_seen: Option<u64>,
}

impl View for DiskState {
    type V = DiskView;

    open spec fn view(&self) -> DiskView {
        DiskView {
            device: self.device@,
            present: self.present,
            snapshot: self.snapshot.deep_view(),
            checked_at: self.checked_at,
            hot: self.hot,
            smart_error: self.smart_error.deep_view(),
            check_status: self.check_status,
            kernel_severity: self.kernel_severity,
            kernel_last_message: self.kernel_last_message.deep_view(),
            kernel_last_seen: self.kernel_last_seen,
        }
    }
}

impl DeepView for DiskState {
    type V = DiskView;

    open spec fn deep_view(&self) -> DiskView {
        self@
    }
}

impl Clone for DiskState {
    fn clone(&self) -> (r: Self)
        ensures
            r@ == self@,
    {
        DiskState {
            device: self.device.clone(),
            present: self.present,
            snapshot: match &self.snapshot {
                Some(s) => Some(s.clone()),
                None => None,
            },
            checked_at: self.checked_at,
            hot: self.hot,
            smart_error: copy_option(&self.smart_error),
            check_status: self.check_status,
            kernel_severity: self.kernel_severity,
            kernel_last_message: copy_option(&self.kernel_last_message),
            kernel_last_seen: self.kernel_last_seen,
        }
    }
}

/// What is remembered of a disk that was just found.
pub open spec fn new_disk(device: DeviceView) -> DiskView {
    DiskView {
        device,
        present: true,
        snapshot: None,
        checked_at: None,
        hot: false,
        smart_error: None,
        check_status: CheckStatus::Never,
        kernel_severity: None,
        kernel_last_message: None,
        kernel_last_seen: None,
    }
}

impl SnapshotView {
    /// A counter of a critical kind is not zero.
    pub open spec fn critical_count(self) -> bool {
        exists|k: Seq<char>| #[trigger]
            self.counters.contains_key(k) && self.counters[k] > 0 && severity_of_counter(k)
                == Severity::Critical
    }

    /// A counter is not zero.
    pub open spec fn any_count(self) -> bool {
        exists|k: Seq<char>| #[trigger] self.counters.contains_key(k) && self.counters[k] > 0
    }

    /// A counter of a critical kind, measured now, is not zero.
    pub open spec fn fresh_critical_count(self) -> bool {
        exists|k: Seq<char>| #[trigger]
            self.counters.contains_key(k) && self.counters[k] > 0 && !self.stale_fields.contains(k)
                && severity_of_counter(k) == Severity::Critical
    }

    /// The disk reports that it fails.
    pub open spec fn failing(self) -> bool {
        self.passed == Some(false) || self.warns() == Some(true) || self.prefailure == Some(true)
    }

    /// The disk reports wear, a failed test or trouble in the past.
    pub open spec fn worrying(self) -> bool {
        self.self_test_status == Some(SelfTestStatus::Failed) || self.exit.past_threshold
            || self.exit.error_log || self.exit.self_test_log || self.worn_out() == Some(true)
            || self.life_low() == Some(true) || self.spare_low() == Some(true)
    }

    /// How grave the measurements are, whether new or old.
    pub open spec fn gravity(self) -> Severity {
        if self.failing() || self.critical_count() {
            Severity::Critical
        } else if self.worrying() || self.any_count() {
            Severity::Warning
        } else {
            Severity::Info
        }
    }

    /// A measurement of now says that the disk fails.
    pub open spec fn freshly_failing(self) -> bool {
        ||| self.passed == Some(false) && !self.stale_fields.contains("passed"@)
        ||| self.prefailure == Some(true) && !self.stale_fields.contains("prefailure"@)
        ||| self.warns() == Some(true) && !self.stale_fields.contains("critical_warning"@)
        ||| self.fresh_critical_count()
    }
}

impl DiskView {
    /// How grave the last known condition of the disk is.
    pub open spec fn severity(self) -> Severity {
        graver(
            graver(
                match self.kernel_severity {
                    Some(s) => s,
                    None => Severity::Info,
                },
                if self.hot || self.smart_error is Some {
                    Severity::Warning
                } else {
                    Severity::Info
                },
            ),
            match self.snapshot {
                Some(s) => s.gravity(),
                None => Severity::Info,
            },
        )
    }

    /// The last check was read, at least in part, and says that the disk fails.
    pub open spec fn freshly_critical(self) -> bool {
        (self.check_status == CheckStatus::Checked || self.check_status == CheckStatus::Partial)
            && self.snapshot is Some && self.snapshot->0.freshly_failing()
    }

    /// The verdict on the disk. Without a complete and recent reading it is
    /// unknown, unless there is evidence that the disk fails.
    pub open spec fn health(self) -> Seq<char> {
        if self.kernel_severity == Some(Severity::Critical) || self.freshly_critical() {
            "Critical"@
        } else if self.check_status != CheckStatus::Checked || self.snapshot is None
            || self.snapshot->0.uncertain() {
            "Unknown"@
        } else {
            match self.severity() {
                Severity::Critical => "Critical"@,
                Severity::Warning => "Warning"@,
                Severity::Info => "OK"@,
            }
        }
    }
}

impl Snapshot {
    /// How grave the counters are: critical, a warning, or nothing.
    fn count_severity(&self) -> (r: Severity)
        ensures
            r == (if self@.critical_count() {
                Severity::Critical
            } else if self@.any_count() {
                Severity::Warning
            } else {
                Severity::Info
            }),
    {
        let ghost listing = ordered(self@.counters);
        let n: usize = self.counters.len();
        let mut worst: Severity = Severity::Info;
        let mut i: usize = 0;
        while i < n
            invariant
                i <= n,
                n == listing.len(),
                listing == ordered(self@.counters),
                lists(listing, self@.counters),
                worst == Severity::Info <==> forall|j: int| 0 <= j < i ==> (#[trigger] listing[j]).1 == 0,
                worst == Severity::Critical <==> exists|j: int|
                    0 <= j < i && (#[trigger] listing[j]).1 > 0 && severity_of_counter(listing[j].0)
                        == Severity::Critical,
            decreases n - i,
        {
            if *self.counters.value_at(i) > 0 {
                worst = worst.worst(counter_severity(self.counters.key_at(i)));
            }
            i += 1;
        }
        proof {
            if worst == Severity::Critical {
                let j = choose|j: int|
                    0 <= j < i && (#[trigger] listing[j]).1 > 0 && severity_of_counter(listing[j].0)
                        == Severity::Critical;
                assert(self@.counters.contains_key(listing[j].0));
            } else if self@.critical_count() {
                let k = choose|k: Seq<char>| #[trigger]
                    self@.counters.contains_key(k) && self@.counters[k] > 0 && severity_of_counter(k)
                        == Severity::Critical;
                let j = choose|j: int| 0 <= j < listing.len() && listing[j].0 == k;
                assert(listing[j].1 > 0);
            }
            if worst != Severity::Info {
                let j = choose|j: int| 0 <= j < i && (#[trigger] listing[j]).1 != 0;
                assert(self@.counters.contains_key(listing[j].0));
                assert(self@.any_count());
            } else if self@.any_count() {
                let k = choose|k: Seq<char>| #[trigger]
                    self@.counters.contains_key(k) && self@.counters[k] > 0;
                let j = choose|j: int| 0 <= j < listing.len() && listing[j].0 == k;
                assert(listing[j].1 > 0);
            }
        }
        worst
    }

    fn has_fresh_critical_count(&self) -> (r: bool)
        ensures
            r == self@.fresh_critical_count(),
    {
        let ghost listing = ordered(self@.counters);
        let n: usize = self.counters.len();
        let mut i: usize = 0;
        while i < n
            invariant
                i <= n,
                n == listing.len(),
                listing == ordered(self@.counters),
                lists(listing, self@.counters),
                forall|j: int|
                    0 <= j < i ==> !((#[trigger] listing[j]).1 > 0 && !self@.stale_fields.contains(
                        listing[j].0,
                    ) && severity_of_counter(listing[j].0) == Severity::Critical),
            decreases n - i,
        {
            let key: &str = self.counters.key_at(i);
            if *self.counters.value_at(i) > 0 && !self.stale_fields.contains(key)
                && counter_severity(key) == Severity::Critical {
                assert(self@.counters.contains_key(key@));
                return true;
            }
            i += 1;
        }
        proof {
            if self@.fresh_critical_count() {
                let k = choose|k: Seq<char>| #[trigger]
                    self@.counters.contains_key(k) && self@.counters[k] > 0
                        && !self@.stale_fields.contains(k) && severity_of_counter(k)
                        == Severity::Critical;
                let j = choose|j: int| 0 <= j < listing.len() && listing[j].0 == k;
                assert(listing[j].1 > 0);
            }
        }
        false
    }

    fn read_gravity(&self) -> (r: Severity)
        ensures
            r == self@.gravity(),
    {
        let counts: Severity = self.count_severity();
        if self.passed == Some(false) || self.warns() == Some(true) || self.prefailure == Some(true)
            || counts == Severity::Critical {
            Severity::Critical
        } else if self.self_test_status == Some(SelfTestStatus::Failed) || self.exit.past_threshold
            || self.exit.error_log || self.exit.self_test_log || self.worn_out() == Some(true)
            || self.life_low() == Some(true) || self.spare_low() == Some(true) || counts
            == Severity::Warning {
            Severity::Warning
        } else {
            Severity::Info
        }
    }

    fn is_freshly_failing(&self) -> (r: bool)
        ensures
            r == self@.freshly_failing(),
    {
        (self.passed == Some(false) && !self.stale_fields.contains("passed")) || (self.prefailure
            == Some(true) && !self.stale_fields.contains("prefailure")) || (self.warns() == Some(
            true,
        ) && !self.stale_fields.contains("critical_warning")) || self.has_fresh_critical_count()
    }
}

impl DiskState {
    /// What is remembered of a disk that was just found.
    pub fn new(device: Device) -> (r: Self)
        ensures
            r@ == new_disk(device@),
    {
        DiskState {
            device,
            present: true,
            snapshot: None,
            checked_at: None,
            hot: false,
            smart_error: None,
            check_status: CheckStatus::Never,
            kernel_severity: None,
            kernel_last_message: None,
            kernel_last_seen: None,
        }
    }

    /// How grave the last known condition of the disk is.
    pub fn severity(&self) -> (r: Severity)
        ensures
            r == self@.severity(),
    {
        let kernel: Severity = match self.kernel_severity {
            Some(s) => s,
            None => Severity::Info,
        };
        let own: Severity = if self.hot || self.smart_error.is_some() {
            Severity::Warning
        } else {
            Severity::Info
        };
        let measured: Severity = match &self.snapshot {
            Some(s) => s.read_gravity(),
            None => Severity::Info,
        };
        kernel.worst(own).worst(measured)
    }

    /// The verdict on the disk: `OK`, `Warning`, `Critical` or `Unknown`.
    pub fn health(&self) -> (r: &'static str)
        ensures
            r@ == self@.health(),
    {
        if self.kernel_severity == Some(Severity::Critical) {
            return "Critical";
        }
        if self.check_status == CheckStatus::Checked || self.check_status == CheckStatus::Partial {
            if let Some(s) = &self.snapshot {
                if s.is_freshly_failing() {
                    return "Critical";
                }
            }
        }
        let unknown: bool = match &self.snapshot {
            Some(s) => s.unknown(),
            None => true,
        };
        if self.check_status != CheckStatus::Checked || unknown {
            return "Unknown";
        }
        match self.severity() {
            Severity::Critical => "Critical",
            Severity::Warning => "Warning",
            Severity::Info => "OK",
        }
    }
}

// ---------------------------------------------------------------------------
// The whole memory
// ---------------------------------------------------------------------------

/// All that is remembered.
#[derive(Debug)]
pub struct State {
    pub version: u32,
    /// The disks by their keys.
    pub disks: StrMap<DiskState>,
    /// The last events, the newest at the end.
    pub recent_alerts: Vec<Event>,
    pub kernel_cursor: Option<String>,
    pub kernel_boot_id: Option<String>,
    /// The cursors of the last records that were accepted, the newest at the end.
    pub kernel_seen_cursors: VecDeque<String>,
    /// The greatest monotonic time of a record that was accepted.
    pub kernel_watermark: Option<u64>,
    /// When a notification of each kind was last sent.
    pub notification_times: StrMap<u64>,
}

pub struct StateView {
    pub version: u32,
    pub disks: Map<Seq<char>, DiskView>,
    pub recent_alerts: Seq<EventView>,
    pub kernel_cursor: Option<Seq<char>>,
    pub kernel_boot_id: Option<Seq<char>>,
    pub kernel_seen_cursors: Seq<Seq<char>>,
    pub kernel_watermark: Option<u64>,
    pub notification_times: Map<Seq<char>, u64>,
}

impl View for State {
    type V = StateView;

    open spec fn view(&self) -> StateView {
        StateView {
            version: self.version,
            disks: self.disks@,
            recent_alerts: self.recent_alerts.deep_view(),
            kernel_cursor: self.kernel_cursor.deep_view(),
            kernel_boot_id: self.kernel_boot_id.deep_view(),
            kernel_seen_cursors: self.kernel_seen_cursors.deep_view(),
            kernel_watermark: self.kernel_watermark,
            notification_times: self.notification_times@,
        }
    }
}

impl Clone for State {
    fn clone(&self) -> (r: Self)
        ensures
            r@ == self@,
    {
        let mut alerts: Vec<Event> = Vec::new();
        let mut i: usize = 0;
        while i < self.recent_alerts.len()
            invariant
                i <= self.recent_alerts.len(),
                alerts@.len() == i,
                forall|j: int| 0 <= j < i ==> (#[trigger] alerts@[j])@ == self.recent_alerts@[j]@,
            decreases self.recent_alerts.len() - i,
        {
            alerts.push(self.recent_alerts[i].clone());
            i += 1;
        }
        assert(alerts.deep_view() =~= self.recent_alerts.deep_view());
        State {
            version: self.version,
            disks: self.disks.clone(),
            recent_alerts: alerts,
            kernel_cursor: copy_option(&self.kernel_cursor),
            kernel_boot_id: copy_option(&self.kernel_boot_id),
            kernel_seen_cursors: copy_queue(&self.kernel_seen_cursors),
            kernel_watermark: self.kernel_watermark,
            notification_times: self.notification_times.clone(),
        }
    }
}

/// Nothing is remembered.
pub open spec fn empty_state() -> StateView {
    StateView {
        version: 2,
        disks: Map::empty(),
        recent_alerts: Seq::empty(),
        kernel_cursor: None,
        kernel_boot_id: None,
        kernel_seen_cursors: Seq::empty(),
        kernel_watermark: None,
        notification_times: Map::empty(),
    }
}

impl Default for State {
    fn default() -> (r: Self)
        ensures
            r@ == empty_state(),
    {
        let r: State = State {
            version: 2,
            disks: StrMap::new(),
            recent_alerts: Vec::new(),
            kernel_cursor: None,
            kernel_boot_id: None,
            kernel_seen_cursors: VecDeque::new(),
            kernel_watermark: None,
            notification_times: StrMap::new(),
        };
        assert(r@.recent_alerts =~= Seq::<EventView>::empty());
        assert(r@.kernel_seen_cursors =~= Seq::<Seq<char>>::empty());
        r
    }
}

/// A queue of strings that holds the same.
fn copy_queue(queue: &VecDeque<String>) -> (r: VecDeque<String>)
    ensures
        r.deep_view() == queue.deep_view(),
{
    let mut out: VecDeque<String> = VecDeque::new();
    let mut i: usize = 0;
    while i < queue.len()
        invariant
            i <= queue.len(),
            out@.len() == i,
            forall|j: int| 0 <= j < i ==> (#[trigger] out@[j])@ == queue@[j]@,
        decreases queue.len() - i,
    {
        out.push_back(queue[i].clone());
        i += 1;
    }
    assert(out.deep_view() =~= queue.deep_view());
    out
}

/// Whether one of the strings of the queue is `s`.
fn queue_contains(queue: &VecDeque<String>, s: &str) -> (r: bool)
    ensures
        r == queue.deep_view().contains(s@),
{
    let mut i: usize = 0;
    while i < queue.len()
        invariant
            i <= queue.len(),
            forall|j: int| 0 <= j < i ==> (#[trigger] queue.deep_view()[j]) != s@,
        decreases queue.len() - i,
    {
        if same(queue[i].as_str(), s) {
            assert(queue.deep_view()[i as int] == s@);
            return true;
        }
        i += 1;
    }
    false
}

/// `s` with one more element at the end, and without its first where that makes
/// more than `limit`.
pub open spec fn pushed<T>(s: Seq<T>, x: T, limit: nat) -> Seq<T> {
    if s.len() + 1 > limit {
        s.push(x).skip(1)
    } else {
        s.push(x)
    }
}

/// The kind of notification that an event calls for.
pub open spec fn notice_key(e: EventView) -> Seq<char> {
    e.category + ":"@ + (match e.disk {
        Some(d) => d.key(),
        None => "uncorrelated"@,
    }) + ":"@ + severity_text(e.severity)
}

/// A notification that was sent at `sent` still holds others of its kind back.
pub open spec fn cooling(sent: u64, time: u64, cooldown: u64) -> bool {
    if time <= sent {
        0 < cooldown
    } else {
        time - sent < cooldown
    }
}

/// The notifications that still hold others back.
pub open spec fn cooling_only(times: Map<Seq<char>, u64>, time: u64, cooldown: u64) -> Map<
    Seq<char>,
    u64,
> {
    Map::new(|k: Seq<char>| times.contains_key(k) && cooling(times[k], time, cooldown), |k| times[k])
}

impl StateView {
    /// The state for a boot: positions in the journal of another boot mean nothing.
    pub open spec fn for_boot(self, boot: Option<Seq<char>>) -> StateView {
        if self.kernel_boot_id == boot {
            self
        } else {
            StateView {
                kernel_cursor: None,
                kernel_watermark: None,
                kernel_seen_cursors: Seq::empty(),
                kernel_boot_id: boot,
                ..self
            }
        }
    }

    /// The record is of another boot.
    pub open spec fn foreign(self, r: RecordView) -> bool {
        r.boot_id is Some && self.kernel_boot_id is Some && r.boot_id != self.kernel_boot_id
    }

    /// The record was accepted before.
    pub open spec fn repeated(self, r: RecordView) -> bool {
        r.cursor is Some && (r.cursor == self.kernel_cursor || self.kernel_seen_cursors.contains(
            r.cursor->0,
        ))
    }

    /// The record is older than one that was accepted.
    pub open spec fn outdated(self, r: RecordView) -> bool {
        r.monotonic_usec is Some && self.kernel_watermark is Some && r.monotonic_usec->0
            < self.kernel_watermark->0
    }

    /// The record is of this boot, and news.
    pub open spec fn accepts(self, r: RecordView) -> bool {
        !self.foreign(r) && !self.repeated(r) && !self.outdated(r)
    }

    /// The state after the record was accepted.
    pub open spec fn having_accepted(self, r: RecordView) -> StateView {
        StateView {
            kernel_cursor: match r.cursor {
                Some(c) => Some(c),
                None => self.kernel_cursor,
            },
            kernel_seen_cursors: match r.cursor {
                Some(c) => pushed(self.kernel_seen_cursors, c, 2048),
                None => self.kernel_seen_cursors,
            },
            kernel_watermark: match (r.monotonic_usec, self.kernel_watermark) {
                (Some(t), Some(mark)) => Some(
                    if t > mark {
                        t
                    } else {
                        mark
                    },
                ),
                (Some(t), None) => Some(t),
                (None, mark) => mark,
            },
            ..self
        }
    }

    /// The state after an event was noted.
    pub open spec fn remembering(self, e: EventView) -> StateView {
        StateView { recent_alerts: pushed(self.recent_alerts, e, 100), ..self }
    }

    /// An event of this kind may be notified of at this time.
    pub open spec fn may_notify(self, e: EventView, time: u64, cooldown: u64) -> bool {
        !cooling_only(self.notification_times, time, cooldown).contains_key(notice_key(e))
    }

    /// The state after it was asked whether an event may be notified of.
    pub open spec fn having_asked(self, e: EventView, time: u64, cooldown: u64) -> StateView {
        let times = cooling_only(self.notification_times, time, cooldown);
        StateView {
            notification_times: if times.contains_key(notice_key(e)) {
                times
            } else {
                times.insert(notice_key(e), time)
            },
            ..self
        }
    }
}

impl State {
    /// Forgets positions in the journal of another boot.
    pub fn prepare_boot(&mut self, boot: Option<String>)
        ensures
            final(self)@ == old(self)@.for_boot(boot.deep_view()),
    {
        if !same_option(&self.kernel_boot_id, &boot) {
            self.kernel_cursor = None;
            self.kernel_watermark = None;
            self.kernel_seen_cursors.clear();
            self.kernel_boot_id = boot;
            assert(self@.kernel_seen_cursors =~= Seq::<Seq<char>>::empty());
        }
    }

    fn is_repeated(&self, record: &Record) -> (r: bool)
        ensures
            r == self@.repeated(record@),
    {
        match &record.cursor {
            None => false,
            Some(c) => {
                let last: bool = match &self.kernel_cursor {
                    Some(k) => same(k.as_str(), c.as_str()),
                    None => false,
                };
                last || queue_contains(&self.kernel_seen_cursors, c.as_str())
            },
        }
    }

    /// Takes a record in, if it is of this boot and news.
    pub fn accept_kernel(&mut self, record: &Record) -> (r: bool)
        ensures
            r == old(self)@.accepts(record@),
            final(self)@ == (if r {
                old(self)@.having_accepted(record@)
            } else {
                old(self)@
            }),
    {
        if record.boot_id.is_some() && self.kernel_boot_id.is_some() && !same_option(
            &record.boot_id,
            &self.kernel_boot_id,
        ) {
            return false;
        }
        if self.is_repeated(record) {
            return false;
        }
        if let (Some(t), Some(mark)) = (record.monotonic_usec, self.kernel_watermark) {
            if t < mark {
                return false;
            }
        }
        if let Some(c) = &record.cursor {
            self.kernel_cursor = Some(c.clone());
            let ghost seen_before = self.kernel_seen_cursors.deep_view();
            self.kernel_seen_cursors.push_back(c.clone());
            assert(self.kernel_seen_cursors.deep_view() =~= seen_before.push(c@));
            if self.kernel_seen_cursors.len() > 2048 {
                self.kernel_seen_cursors.pop_front();
                assert(self.kernel_seen_cursors.deep_view() =~= seen_before.push(c@).skip(1));
            }
            assert(self.kernel_seen_cursors.deep_view() == pushed(seen_before, c@, 2048));
        }
        if let Some(t) = record.monotonic_usec {
            self.kernel_watermark = match self.kernel_watermark {
                Some(mark) => Some(
                    if t > mark {
                        t
                    } else {
                        mark
                    },
                ),
                None => Some(t),
            };
        }
        true
    }

    /// Notes an event among the last ones.
    pub fn remember(&mut self, event: Event)
        ensures
            final(self)@ == old(self)@.remembering(event@),
    {
        let ghost before = self.recent_alerts.deep_view();
        let ghost e = event@;
        self.recent_alerts.push(event);
        assert(self.recent_alerts.deep_view() =~= before.push(e));
        if self.recent_alerts.len() > 100 {
            self.recent_alerts.remove(0);
            assert(self.recent_alerts.deep_view() =~= before.push(e).skip(1));
        }
    }

    fn drop_cooled(&mut self, time: u64, cooldown: u64)
        ensures
            final(self)@ == (StateView {
                notification_times: cooling_only(old(self)@.notification_times, time, cooldown),
                ..old(self)@
            }),
    {
        let ghost times = self.notification_times@;
        let ghost listing = ordered(times);
        let n: usize = self.notification_times.len();
        let mut out: StrMap<u64> = StrMap::new();
        let mut i: usize = 0;
        while i < n
            invariant
                i <= n,
                n == listing.len(),
                listing == ordered(times),
                lists(listing, times),
                times == self.notification_times@,
                *self == *old(self),
                forall|k: Seq<char>| #[trigger]
                    out@.contains_key(k) <==> seen(listing, i as int, k) && cooling(
                        times[k],
                        time,
                        cooldown,
                    ),
                forall|k: Seq<char>| #[trigger] out@.contains_key(k) ==> out@[k] == times[k],
            decreases n - i,
        {
            proof {
                lemma_seen(listing, i as int);
            }
            let sent: u64 = *self.notification_times.value_at(i);
            if (if time <= sent {
                0
            } else {
                time - sent
            }) < cooldown {
                out.insert(self.notification_times.key_at(i).to_owned(), sent);
            }
            i += 1;
        }
        proof {
            lemma_all_seen(listing, times);
        }
        assert(out@ =~= cooling_only(times, time, cooldown));
        self.notification_times = out;
    }

    /// Whether an event may be notified of at a given time. If so, others of its
    /// kind are held back for the cooldown from then on.
    pub fn should_notify_at(&mut self, event: &Event, cooldown: u64, time: u64) -> (r: bool)
        ensures
            r == old(self)@.may_notify(event@, time, cooldown),
            final(self)@ == old(self)@.having_asked(event@, time, cooldown),
    {
        let mut key: String = event.category.clone();
        key.append(":");
        match &event.disk {
            Some(d) => key.append(d.key().as_str()),
            None => key.append("uncorrelated"),
        }
        key.append(":");
        key.append(event.severity.name());
        assert(key@ == notice_key(event@));
        self.drop_cooled(time, cooldown);
        if self.notification_times.contains_key(key.as_str()) {
            false
        } else {
            self.notification_times.insert(key, time);
            true
        }
    }

    /// Whether an event may be notified of now.
    pub fn should_notify(&mut self, event: &Event, cooldown: u64) -> (r: bool)
        ensures
            exists|time: u64| #[trigger]
                old(self)@.may_notify(event@, time, cooldown) == r && final(self)@
                    == old(self)@.having_asked(event@, time, cooldown),
    {
        let time: u64 = now();
        self.should_notify_at(event, cooldown, time)
    }
}

// ---------------------------------------------------------------------------
// The state file
// ---------------------------------------------------------------------------

/// Why a state file cannot be used.
#[derive(Debug)]
pub enum StateError {
    /// The file is no JSON, with the reason.
    Corrupt(String),
    /// The file is of a version that is not known.
    Version(u64),
    /// The file is of the first version, but one of its disks is no object.
    Structure,
}

impl StateError {
    pub open spec fn text(self) -> Seq<char> {
        match self {
            StateError::Corrupt(e) => "corrupt state JSON: "@ + e@,
            StateError::Version(n) => "unsupported state version "@ + decimal(n as nat),
            StateError::Structure => "invalid state structure"@,
        }
    }

    pub fn message(&self) -> (r: String)
        ensures
            r@ == self.text(),
    {
        match self {
            StateError::Corrupt(e) => {
                let mut r: String = "corrupt state JSON: ".to_owned();
                r.append(e.as_str());
                r
            },
            StateError::Version(n) => {
                let mut r: String = "unsupported state version ".to_owned();
                r.append(decimal_text(*n).as_str());
                r
            },
            StateError::Structure => "invalid state structure".to_owned(),
        }
    }
}

/// The version of a state document, zero where it has none.
pub open spec fn document_version(v: JsonView) -> u64 {
    match v.at("version"@).unsigned() {
        Some(n) => n,
        None => 0,
    }
}

/// `members` with `value` under `name`, in place of an earlier value.
pub open spec fn with_member(
    members: Seq<(Seq<char>, JsonView)>,
    name: Seq<char>,
    value: JsonView,
) -> Seq<(Seq<char>, JsonView)>
    decreases members.len(),
{
    if members.len() == 0 {
        seq![(name, value)]
    } else if members[0].0 == name {
        seq![(name, value)] + members.skip(1)
    } else {
        seq![members[0]] + with_member(members.skip(1), name, value)
    }
}

/// `members` without the first one of that name.
pub open spec fn without_member(members: Seq<(Seq<char>, JsonView)>, name: Seq<char>) -> Seq<
    (Seq<char>, JsonView),
>
    decreases members.len(),
{
    if members.len() == 0 {
        members
    } else if members[0].0 == name {
        members.skip(1)
    } else {
        seq![members[0]] + without_member(members.skip(1), name)
    }
}

/// A snapshot of the first version: it told only whether the last self-test had
/// failed, and a test that had not failed need not have passed.
pub open spec fn upgraded_snapshot(v: JsonView) -> JsonView {
    match v {
        JsonView::Object(members) => match named(members, "self_test_failed"@) {
            Some(failed) => {
                let rest = without_member(members, "self_test_failed"@);
                match failed.boolean() {
                    Some(b) => JsonView::Object(
                        with_member(
                            rest,
                            "self_test_status"@,
                            JsonView::Text(
                                if b {
                                    "Failed"@
                                } else {
                                    "Unknown"@
                                },
                            ),
                        ),
                    ),
                    None => JsonView::Object(rest),
                }
            },
            None => v,
        },
        _ => v,
    }
}

/// A disk of the first version, with its snapshot upgraded.
pub open spec fn upgraded_disk(v: JsonView) -> JsonView {
    match v {
        JsonView::Object(members) => match named(members, "snapshot"@) {
            Some(s) => JsonView::Object(
                with_member(members, "snapshot"@, upgraded_snapshot(s)),
            ),
            None => v,
        },
        _ => v,
    }
}

/// The disks of the first version, each of them upgraded.
pub open spec fn upgraded_disks(v: JsonView) -> JsonView {
    match v {
        JsonView::Object(members) => JsonView::Object(
            Seq::new(members.len(), |i: int| (members[i].0, upgraded_disk(members[i].1))),
        ),
        _ => v,
    }
}

/// A state document of the first version, as one of the second.
pub open spec fn upgraded(v: JsonView) -> JsonView {
    match v {
        JsonView::Object(members) => {
            let disks = match named(members, "disks"@) {
                Some(d) => with_member(members, "disks"@, upgraded_disks(d)),
                None => members,
            };
            JsonView::Object(with_member(disks, "version"@, JsonView::Unsigned(2)))
        },
        _ => v,
    }
}

/// Every disk of the document is an object, or nothing at all.
pub open spec fn disks_are_objects(v: JsonView) -> bool {
    match v.at("disks"@) {
        JsonView::Object(members) => forall|i: int|
            0 <= i < members.len() ==> (#[trigger] members[i]).1 is Object || members[i].1 is Null,
        _ => true,
    }
}

fn set_member(members: &mut Vec<(String, Json)>, name: &str, value: Json)
    ensures
        final(members).deep_view() == with_member(old(members).deep_view(), name@, value@),
{
    let ghost all = members.deep_view();
    let ghost v = value@;
    let mut i: usize = 0;
    assert(all.skip(0) =~= all);
    assert(all.take(0) + with_member(all, name@, v) =~= with_member(all, name@, v));
    while i < members.len()
        invariant
            i <= members.len(),
            all == members.deep_view(),
            v == value@,
            *members == *old(members),
            with_member(all, name@, v) == all.take(i as int) + with_member(
                all.skip(i as int),
                name@,
                v,
            ),
        decreases members.len() - i,
    {
        let ghost rest = all.skip(i as int);
        assert(rest.skip(1) =~= all.skip(i + 1));
        assert(rest[0] == (members@[i as int].0@, members@[i as int].1@));
        if same(members[i].0.as_str(), name) {
            members.set(i, (name.to_owned(), value));
            assert(members.deep_view() =~= all.take(i as int) + (seq![(name@, v)] + rest.skip(1)));
            return;
        }
        assert(all.take(i + 1) =~= all.take(i as int).push(rest[0]));
        assert(all.take(i + 1) + with_member(rest.skip(1), name@, v) =~= all.take(i as int) + (
        seq![rest[0]] + with_member(rest.skip(1), name@, v)));
        i += 1;
    }
    members.push((name.to_owned(), value));
    assert(all.skip(i as int) =~= Seq::<(Seq<char>, JsonView)>::empty());
    assert(members.deep_view() =~= all.take(i as int) + seq![(name@, v)]);
}

fn take_member(members: &mut Vec<(String, Json)>, name: &str) -> (r: Option<Json>)
    ensures
        r.deep_view() == named(old(members).deep_view(), name@),
        final(members).deep_view() == without_member(old(members).deep_view(), name@),
{
    let ghost all = members.deep_view();
    let mut i: usize = 0;
    assert(all.skip(0) =~= all);
    assert(all.take(0) + without_member(all, name@) =~= without_member(all, name@));
    while i < members.len()
        invariant
            i <= members.len(),
            all == members.deep_view(),
            *members == *old(members),
            named(all, name@) == named(all.skip(i as int), name@),
            without_member(all, name@) == all.take(i as int) + without_member(
                all.skip(i as int),
                name@,
            ),
        decreases members.len() - i,
    {
        let ghost rest = all.skip(i as int);
        assert(rest.skip(1) =~= all.skip(i + 1));
        assert(rest[0] == (members@[i as int].0@, members@[i as int].1@));
        if same(members[i].0.as_str(), name) {
            let (_, value) = members.remove(i);
            assert(members.deep_view() =~= all.take(i as int) + rest.skip(1));
            return Some(value);
        }
        assert(all.take(i + 1) =~= all.take(i as int).push(rest[0]));
        assert(all.take(i + 1) + without_member(rest.skip(1), name@) =~= all.take(i as int) + (
        seq![rest[0]] + without_member(rest.skip(1), name@)));
        i += 1;
    }
    assert(all.skip(i as int) =~= Seq::<(Seq<char>, JsonView)>::empty());
    assert(all.take(i as int) + Seq::<(Seq<char>, JsonView)>::empty() =~= all);
    None
}

/// An object of the given members.
fn object(members: Vec<(String, Json)>) -> (r: Json)
    ensures
        r@ == JsonView::Object(members.deep_view()),
{
    let ghost all = members.deep_view();
    let r: Json = Json::Object(members);
    assert(r@->Object_0 =~= all);
    r
}

fn upgrade_snapshot(v: Json) -> (r: Json)
    ensures
        r@ == upgraded_snapshot(v@),
{
    match v {
        Json::Object(members) => {
            let mut work: Vec<(String, Json)> = members;
            let ghost all = work.deep_view();
            assert(v@->Object_0 =~= all);
            match take_member(&mut work, "self_test_failed") {
                Some(failed) => {
                    if let Some(b) = failed.as_bool() {
                        let text: &str = if b {
                            "Failed"
                        } else {
                            "Unknown"
                        };
                        set_member(&mut work, "self_test_status", Json::Text(text.to_owned()));
                    }
                    object(work)
                },
                None => {
                    proof {
                        lemma_without_absent(all, "self_test_failed"@);
                    }
                    object(work)
                },
            }
        },
        _ => v,
    }
}

proof fn lemma_without_absent(members: Seq<(Seq<char>, JsonView)>, name: Seq<char>)
    requires
        named(members, name) is None,
    ensures
        without_member(members, name) == members,
    decreases members.len(),
{
    if members.len() > 0 {
        lemma_without_absent(members.skip(1), name);
        assert(seq![members[0]] + members.skip(1) =~= members);
    }
}

fn copy_child(v: &Json, name: &str) -> (r: Option<Json>)
    ensures
        r.deep_view() == v@.child(name@),
{
    match v.child(name) {
        Some(c) => Some(c.copy()),
        None => None,
    }
}

fn upgrade_disk(v: Json) -> (r: Json)
    ensures
        r@ == upgraded_disk(v@),
{
    let snapshot: Option<Json> = copy_child(&v, "snapshot");
    match v {
        Json::Object(members) => {
            let mut work: Vec<(String, Json)> = members;
            assert(v@->Object_0 =~= work.deep_view());
            if let Some(s) = snapshot {
                set_member(&mut work, "snapshot", upgrade_snapshot(s));
            }
            object(work)
        },
        _ => v,
    }
}

fn upgrade_disks(v: Json) -> (r: Json)
    ensures
        r@ == upgraded_disks(v@),
{
    match v {
        Json::Object(members) => {
            let ghost all = members@;
            let ghost views = v@->Object_0;
            assert(views =~= members.deep_view());
            let mut out: Vec<(String, Json)> = Vec::new();
            for member in it: members
                invariant
                    it.seq() == all,
                    out@.len() == it.index(),
                    forall|i: int|
                        0 <= i < out@.len() ==> (#[trigger] out@[i]).0@ == all[i].0@ && out@[i].1@
                            == upgraded_disk(all[i].1@),
            {
                out.push((member.0, upgrade_disk(member.1)));
            }
            assert forall|i: int| 0 <= i < all.len() implies #[trigger] views[i] == (
                all[i].0@,
                all[i].1@,
            ) by {}
            assert(out.deep_view() =~= upgraded_disks(v@)->Object_0);
            object(out)
        },
        _ => v,
    }
}

fn are_disks_objects(v: &Json) -> (r: bool)
    ensures
        r == disks_are_objects(v@),
{
    let disks: &Json = v.field("disks");
    match disks {
        Json::Object(members) => {
            let ghost all = disks@->Object_0;
            let mut i: usize = 0;
            while i < members.len()
                invariant
                    i <= members.len(),
                    disks@ == v@.at("disks"@),
                    *disks == Json::Object(*members),
                    all == disks@->Object_0,
                    forall|j: int|
                        0 <= j < i ==> (#[trigger] all[j]).1 is Object || all[j].1 is Null,
                decreases members.len() - i,
            {
                assert(all[i as int] == (members@[i as int].0@, members@[i as int].1@));
                match &members[i].1 {
                    Json::Object(_) => {},
                    Json::Null => {},
                    _ => return false,
                }
                i += 1;
            }
            true
        },
        _ => true,
    }
}

/// Turns a state document of the first version into one of the second.
pub fn upgrade(v: Json) -> (r: Json)
    requires
        disks_are_objects(v@),
    ensures
        r@ == upgraded(v@),
{
    let disks: Option<Json> = copy_child(&v, "disks");
    match v {
        Json::Object(members) => {
            let mut work: Vec<(String, Json)> = members;
            assert(v@->Object_0 =~= work.deep_view());
            if let Some(d) = disks {
                set_member(&mut work, "disks", upgrade_disks(d));
            }
            set_member(&mut work, "version", Json::Unsigned(2));
            object(work)
        },
        _ => v,
    }
}

/// A state document in the second version, from one that was decoded.
pub fn current_document(v: Json) -> (r: Result<Json, StateError>)
    ensures
        match r {
            Ok(d) => document_version(v@) == 2 && d@ == v@ || document_version(v@) == 1
                && disks_are_objects(v@) && d@ == upgraded(v@),
            Err(StateError::Version(n)) => n == document_version(v@) && n != 1 && n != 2,
            Err(StateError::Structure) => document_version(v@) == 1 && !disks_are_objects(v@),
            Err(StateError::Corrupt(_)) => false,
        },
{
    let version: u64 = match v.field("version").as_u64() {
        Some(n) => n,
        None => 0,
    };
    if version == 2 {
        Ok(v)
    } else if version != 1 {
        Err(StateError::Version(version))
    } else if are_disks_objects(&v) {
        Ok(upgrade(v))
    } else {
        Err(StateError::Structure)
    }
}

/// The state document of a file, in the second version.
pub fn read_document(content: &str) -> (r: Result<Json, StateError>)
    ensures
        match decoded(encode_utf8(content@)) {
            Err(e) => r matches Err(StateError::Corrupt(t)) && t@ == e,
            Ok(v) => match r {
                Ok(d) => document_version(v) == 2 && d@ == v || document_version(v) == 1
                    && disks_are_objects(v) && d@ == upgraded(v),
                Err(StateError::Version(n)) => n == document_version(v) && n != 1 && n != 2,
                Err(StateError::Structure) => document_version(v) == 1 && !disks_are_objects(v),
                Err(StateError::Corrupt(_)) => false,
            },
        },
{
    match decode(content.as_bytes()) {
        Ok(v) => current_document(v),
        Err(e) => Err(StateError::Corrupt(e)),
    }
}

/// The key stands for no disk: an all-zero WWN, under which the histories of
/// several disks may have been mixed.
pub open spec fn orphaned(key: Seq<char>) -> bool {
    without_prefix(key, "wwn:"@) matches Some(w) && known_wwn(w) is None
}

/// The disk without a WWN that identifies nothing.
pub open spec fn cleaned_disk(d: DiskView) -> DiskView {
    DiskView {
        device: DeviceView { wwn: clean_wwn(d.device.wwn), ..d.device },
        snapshot: match d.snapshot {
            Some(s) => Some(SnapshotView { wwn: clean_wwn(s.wwn), ..s }),
            None => None,
        },
        ..d
    }
}

/// The disks whose history has an owner.
pub open spec fn owned_disks(disks: Map<Seq<char>, DiskView>) -> Map<Seq<char>, DiskView> {
    Map::new(
        |k: Seq<char>| disks.contains_key(k) && !orphaned(k),
        |k: Seq<char>| cleaned_disk(disks[k]),
    )
}

fn is_orphaned(key: &str) -> (r: bool)
    ensures
        r == orphaned(key@),
{
    match strip_prefix(key, "wwn:") {
        Some(w) => nonzero_wwn(w).is_none(),
        None => false,
    }
}

fn clean_disk(disk: DiskState) -> (r: DiskState)
    ensures
        r@ == cleaned_disk(disk@),
{
    let mut d: DiskState = disk;
    d.device.wwn = cleaned_wwn(d.device.wwn.as_str());
    d.snapshot =
    match d.snapshot {
        Some(s) => {
            let mut t: Snapshot = s;
            t.wwn = cleaned_wwn(t.wwn.as_str());
            Some(t)
        },
        None => None,
    };
    d
}

/// The keys of a listing that stand for no disk, in its order.
pub open spec fn orphaned_keys(listing: Seq<(Seq<char>, DiskView)>) -> Seq<Seq<char>>
    decreases listing.len(),
{
    if listing.len() == 0 {
        Seq::empty()
    } else if orphaned(listing.last().0) {
        orphaned_keys(listing.drop_last()).push(listing.last().0)
    } else {
        orphaned_keys(listing.drop_last())
    }
}

impl State {
    /// The keys of the histories that `sanitise` drops, in their order. The user is to
    /// be warned of each.
    pub fn orphans(&self) -> (r: Vec<String>)
        ensures
            r.deep_view() == orphaned_keys(ordered(self@.disks)),
    {
        let ghost listing = ordered(self@.disks);
        let n: usize = self.disks.len();
        let mut out: Vec<String> = Vec::new();
        let mut i: usize = 0;
        assert(out.deep_view() =~= orphaned_keys(listing.take(0)));
        while i < n
            invariant
                i <= n,
                n == listing.len(),
                listing == ordered(self@.disks),
                out.deep_view() == orphaned_keys(listing.take(i as int)),
            decreases n - i,
        {
            let key: &str = self.disks.key_at(i);
            assert(listing.take(i + 1).drop_last() =~= listing.take(i as int));
            assert(listing.take(i + 1).last() == listing[i as int]);
            if is_orphaned(key) {
                let ghost prior = out.deep_view();
                out.push(key.to_owned());
                assert(out.deep_view() =~= prior.push(key@));
            }
            i += 1;
        }
        assert(listing.take(i as int) =~= listing);
        out
    }

    /// Drops the histories of an all-zero WWN, and such WWNs from the others. What
    /// was read from a file is to be used only after that.
    pub fn sanitise(&mut self)
        ensures
            final(self)@ == (StateView { disks: owned_disks(old(self)@.disks), ..old(self)@ }),
    {
        let ghost before = self.disks@;
        let ghost listing = ordered(before);
        let mut disks: StrMap<DiskState> = StrMap::new();
        std::mem::swap(&mut disks, &mut self.disks);
        let entries: Vec<(String, DiskState)> = disks.into_entries();
        let ghost work = entries@;
        assert forall|i: int| 0 <= i < work.len() implies (#[trigger] work[i]).0@ == listing[i].0
            && work[i].1@ == listing[i].1 by {
            assert(entries.deep_view()[i] == listing[i]);
        }
        let mut out: StrMap<DiskState> = StrMap::new();
        for entry in it: entries
            invariant
                it.seq() == work,
                work.len() == listing.len(),
                lists(listing, before),
                forall|i: int|
                    0 <= i < work.len() ==> (#[trigger] work[i]).0@ == listing[i].0 && work[i].1@
                        == listing[i].1,
                forall|k: Seq<char>| #[trigger]
                    out@.contains_key(k) <==> seen(listing, it.index() as int, k) && !orphaned(k),
                forall|k: Seq<char>| #[trigger]
                    out@.contains_key(k) ==> out@[k] == cleaned_disk(before[k]),
        {
            proof {
                lemma_seen(listing, it.index() as int);
            }
            if !is_orphaned(entry.0.as_str()) {
                out.insert(entry.0, clean_disk(entry.1));
            }
        }
        proof {
            lemma_all_seen(listing, before);
        }
        assert(out@ =~= owned_disks(before));
        self.disks = out;
    }
}

/// What the writer of the state file does after an attempt to save.
#[derive(Clone, Copy, Debug, PartialEq, Eq, Structural)]
pub enum WriteStep {
    /// Waits for the next state.
    Wait,
    /// Tries again with the latest state.
    Retry,
    /// Stops with the error.
    GiveUp,
}

/// The step after an attempt to save. `closed` tells that no other state will come. A
/// state that could not be saved is given up only then.
pub fn after_write(saved: bool, closed: bool) -> (r: WriteStep)
    ensures
        r == WriteStep::Wait <==> saved,
        r == WriteStep::Retry <==> !saved && !closed,
        r == WriteStep::GiveUp <==> !saved && closed,
{
    if saved {
        WriteStep::Wait
    } else if closed {
        WriteStep::GiveUp
    } else {
        WriteStep::Retry
    }
}

} // verus!
