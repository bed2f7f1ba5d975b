//! Alerts: what a new report says that the one before it did not.

use crate::config::Temperature;
use crate::devices::{Device, DeviceView, Kind};
use crate::smart::{SelfTestStatus, Snapshot, SnapshotView};
use crate::strmap::ordered;
use crate::text::{
    debug_quoted, debug_text, decimal, decimal_signed, decimal_text, same, same_option, signed_text,
};
use vstd::prelude::*;

verus! {

#[derive(Clone, Copy, Debug, PartialEq, Eq, PartialOrd, Ord, Structural)]
pub enum Severity {
    Info,
    Warning,
    Critical,
}

/// The graver of two severities.
pub open spec fn graver(a: Severity, b: Severity) -> Severity {
    match (a, b) {
        (Severity::Critical, _) => a,
        (_, Severity::Critical) => b,
        (Severity::Warning, _) => a,
        _ => b,
    }
}

/// `a` is at least as grave as `b`.
pub open spec fn as_grave(a: Severity, b: Severity) -> bool {
    graver(a, b) == a
}

/// The name of a severity.
pub open spec fn severity_text(s: Severity) -> Seq<char> {
    match s {
        Severity::Info => "Info"@,
        Severity::Warning => "Warning"@,
        Severity::Critical => "Critical"@,
    }
}

impl Severity {
    /// The graver of the two.
    pub fn worst(self, other: Severity) -> (r: Severity)
        ensures
            r == graver(self, other),
    {
        match (self, other) {
            (Severity::Critical, _) => self,
            (_, Severity::Critical) => other,
            (Severity::Warning, _) => self,
            _ => other,
        }
    }

    pub fn name(self) -> (r: &'static str)
        ensures
            r@ == severity_text(self),
    {
        match self {
            Severity::Info => "Info",
            Severity::Warning => "Warning",
            Severity::Critical => "Critical",
        }
    }
}

#[derive(Debug)]
pub struct Event {
    pub timestamp: u64,
    pub severity: Severity,
    /// The disk that the event is about, where that is known.
    pub disk: Option<Device>,
    pub category: String,
    pub message: String,
}

/// What an event says.
pub struct EventView {
    pub timestamp: u64,
    pub severity: Severity,
    pub disk: Option<DeviceView>,
    pub category: Seq<char>,
    pub message: Seq<char>,
}

impl View for Event {
    type V = EventView;

    open spec fn view(&self) -> EventView {
        EventView {
            timestamp: self.timestamp,
            severity: self.severity,
            disk: self.disk.deep_view(),
            category: self.category@,
            message: self.message@,
        }
    }
}

impl DeepView for Event {
    type V = EventView;

    open spec fn deep_view(&self) -> EventView {
        self@
    }
}

impl Clone for Event {
    fn clone(&self) -> (r: Self)
        ensures
            r@ == self@,
    {
        Event {
            timestamp: self.timestamp,
            severity: self.severity,
            disk: match &self.disk {
                Some(d) => Some(d.clone()),
                None => None,
            },
            category: self.category.clone(),
            message: self.message.clone(),
        }
    }
}

/// `SystemTime::now`, as seconds since the Unix epoch; zero before it. The result
/// is the machine's clock: nothing is claimed of it.
#[verifier::external_body]
pub fn now() -> u64 {
    std::time::SystemTime::now().duration_since(std::time::UNIX_EPOCH).unwrap_or_default().as_secs()
}

/// The parts of a line in the log. The texts come from outside and are to be
/// printed with their control characters escaped.
pub struct LogLine<'a> {
    pub severity: &'static str,
    pub model: &'a str,
    pub serial: &'a str,
    pub device: &'a str,
    pub category: &'a str,
    pub message: &'a str,
}

impl Event {
    /// An event at a given time.
    pub fn at(time: u64, severity: Severity, disk: Option<&Device>, category: &str, message: &str) -> (r:
        Self)
        ensures
            r@ == (EventView {
                timestamp: time,
                severity,
                disk: disk.deep_view(),
                category: category@,
                message: message@,
            }),
    {
        Event {
            timestamp: time,
            severity,
            disk: match disk {
                Some(d) => Some(d.clone()),
                None => None,
            },
            category: category.to_owned(),
            message: message.to_owned(),
        }
    }

    /// An event that happens now.
    pub fn new(severity: Severity, disk: Option<&Device>, category: &str, message: &str) -> (r: Self)
        ensures
            r@ == (EventView {
                timestamp: r.timestamp,
                severity,
                disk: disk.deep_view(),
                category: category@,
                message: message@,
            }),
    {
        Event::at(now(), severity, disk, category, message)
    }

    /// The line for the log.
    pub fn log(&self) -> (r: LogLine<'_>)
        ensures
            r.severity@ == (match self.severity {
                Severity::Info => "INFO"@,
                Severity::Warning => "WARNING"@,
                Severity::Critical => "CRITICAL"@,
            }),
            r.model@ == (match self.disk {
                Some(d) => d.model@,
                None => "unknown"@,
            }),
            r.serial@ == (match self.disk {
                Some(d) => d.serial@,
                None => ""@,
            }),
            r.device@ == (match self.disk {
                Some(d) => d.path@,
                None => "uncorrelated"@,
            }),
            r.category@ == self.category@,
            r.message@ == self.message@,
    {
        let severity: &'static str = match self.severity {
            Severity::Info => "INFO",
            Severity::Warning => "WARNING",
            Severity::Critical => "CRITICAL",
        };
        match &self.disk {
            Some(d) => LogLine {
                severity,
                model: d.model.as_str(),
                serial: d.serial.as_str(),
                device: d.path.as_str(),
                category: self.category.as_str(),
                message: self.message.as_str(),
            },
            None => LogLine {
                severity,
                model: "unknown",
                serial: "",
                device: "uncorrelated",
                category: self.category.as_str(),
                message: self.message.as_str(),
            },
        }
    }
}

// ---------------------------------------------------------------------------
// What a report says of the disk
// ---------------------------------------------------------------------------

/// How grave it is that a counter is not zero.
pub open spec fn severity_of_counter(key: Seq<char>) -> Severity {
    if key == "Current_Pending_Sector"@ || key == "Offline_Uncorrectable"@ || key
        == "Reported_Uncorrect"@ || key == "media_errors"@ {
        Severity::Critical
    } else {
        Severity::Warning
    }
}

/// How grave it is that a counter is not zero.
pub fn counter_severity(key: &str) -> (r: Severity)
    ensures
        r == severity_of_counter(key@),
{
    if same(key, "Current_Pending_Sector") || same(key, "Offline_Uncorrectable") || same(
        key,
        "Reported_Uncorrect",
    ) || same(key, "media_errors") {
        Severity::Critical
    } else {
        Severity::Warning
    }
}

impl SnapshotView {
    /// The disk says of itself that it is failing.
    pub open spec fn says_failing(self) -> Option<bool> {
        match self.passed {
            Some(p) => Some(!p),
            None => None,
        }
    }

    pub open spec fn warns(self) -> Option<bool> {
        match self.critical_warning {
            Some(n) => Some(n != 0),
            None => None,
        }
    }

    pub open spec fn test_failed(self) -> Option<bool> {
        match self.self_test_status {
            Some(SelfTestStatus::Passed) => Some(false),
            Some(SelfTestStatus::Failed) => Some(true),
            _ => None,
        }
    }

    pub open spec fn spare_low(self) -> Option<bool> {
        match (self.available_spare, self.spare_threshold) {
            (Some(a), Some(b)) => Some(a < b),
            _ => None,
        }
    }

    pub open spec fn worn_out(self) -> Option<bool> {
        match self.percentage_used {
            Some(n) => Some(n >= 100),
            None => None,
        }
    }

    pub open spec fn life_low(self) -> Option<bool> {
        match self.remaining_life {
            Some(n) => Some(n <= 10),
            None => None,
        }
    }
}

impl Snapshot {
    pub fn says_failing(&self) -> (r: Option<bool>)
        ensures
            r == self@.says_failing(),
    {
        match self.passed {
            Some(p) => Some(!p),
            None => None,
        }
    }

    pub fn warns(&self) -> (r: Option<bool>)
        ensures
            r == self@.warns(),
    {
        match self.critical_warning {
            Some(n) => Some(n != 0),
            None => None,
        }
    }

    pub fn test_failed(&self) -> (r: Option<bool>)
        ensures
            r == self@.test_failed(),
    {
        match self.self_test_status {
            Some(SelfTestStatus::Passed) => Some(false),
            Some(SelfTestStatus::Failed) => Some(true),
            _ => None,
        }
    }

    pub fn spare_low(&self) -> (r: Option<bool>)
        ensures
            r == self@.spare_low(),
    {
        match (self.available_spare, self.spare_threshold) {
            (Some(a), Some(b)) => Some(a < b),
            _ => None,
        }
    }

    pub fn worn_out(&self) -> (r: Option<bool>)
        ensures
            r == self@.worn_out(),
    {
        match self.percentage_used {
            Some(n) => Some(n >= 100),
            None => None,
        }
    }

    pub fn life_low(&self) -> (r: Option<bool>)
        ensures
            r == self@.life_low(),
    {
        match self.remaining_life {
            Some(n) => Some(n <= 10),
            None => None,
        }
    }
}

// ---------------------------------------------------------------------------
// Differences
// ---------------------------------------------------------------------------

/// An optional string as `Debug` prints it.
pub open spec fn option_text(s: Option<Seq<char>>) -> Seq<char> {
    match s {
        Some(t) => "Some("@ + debug_quoted(t) + ")"@,
        None => "None"@,
    }
}

/// An optional number as `Debug` prints it.
pub open spec fn option_number(n: Option<u64>) -> Seq<char> {
    match n {
        Some(k) => "Some("@ + decimal(k as nat) + ")"@,
        None => "None"@,
    }
}

pub fn show_option(s: &Option<String>) -> (r: String)
    ensures
        r@ == option_text(s.deep_view()),
{
    match s {
        Some(t) => {
            let mut r: String = "Some(".to_owned();
            r.append(debug_text(t.as_str()).as_str());
            r.append(")");
            r
        },
        None => "None".to_owned(),
    }
}

pub fn show_number(n: Option<u64>) -> (r: String)
    ensures
        r@ == option_number(n),
{
    match n {
        Some(k) => {
            let mut r: String = "Some(".to_owned();
            r.append(decimal_text(k).as_str());
            r.append(")");
            r
        },
        None => "None".to_owned(),
    }
}

/// The events of one comparison are about one disk at one time.
pub struct Occasion {
    pub time: u64,
    pub device: DeviceView,
    pub old: Option<SnapshotView>,
    pub new: SnapshotView,
}

impl Occasion {
    pub open spec fn event(self, severity: Severity, category: Seq<char>, message: Seq<char>) -> EventView {
        EventView {
            timestamp: self.time,
            severity,
            disk: Some(self.device),
            category,
            message,
        }
    }

    /// The value that a counter had before; zero where it had none.
    pub open spec fn earlier_count(self, key: Seq<char>) -> u64 {
        match self.old {
            Some(o) => if o.counters.contains_key(key) {
                o.counters[key]
            } else {
                0
            },
            None => 0,
        }
    }

    /// What a counter has to tell: that it grew or that it shrank. A stale value
    /// tells nothing.
    pub open spec fn counter_events(self, key: Seq<char>, value: u64) -> Seq<EventView> {
        let before = self.earlier_count(key);
        let change = decimal(before as nat) + " -> "@ + decimal(value as nat);
        if self.new.stale_fields.contains(key) || value == before {
            Seq::empty()
        } else if value > before {
            seq![self.event(severity_of_counter(key), key, key + " changed "@ + change)]
        } else {
            seq![
                self.event(
                    Severity::Info,
                    key,
                    key + " decreased "@ + change + "; counter reset or recovery"@,
                ),
            ]
        }
    }

    /// What the counters of a listing have to tell, in their order.
    pub open spec fn all_counter_events(self, listing: Seq<(Seq<char>, u64)>) -> Seq<EventView>
        decreases listing.len(),
    {
        if listing.len() == 0 {
            Seq::empty()
        } else {
            self.all_counter_events(listing.drop_last()) + self.counter_events(
                listing.last().0,
                listing.last().1,
            )
        }
    }

    /// What one condition has to tell: that it set in, or that it is over. `field`
    /// is the measurement behind it; a stale one tells nothing.
    pub open spec fn check_events(
        self,
        key: Seq<char>,
        field: Seq<char>,
        current: Option<bool>,
        previous: Option<bool>,
        severity: Severity,
    ) -> Seq<EventView> {
        if self.new.stale_fields.contains(key) || self.new.stale_fields.contains(field) {
            Seq::empty()
        } else if current == Some(true) && previous != Some(true) {
            seq![
                self.event(
                    severity,
                    key,
                    key + ": unhealthy; self-test="@ + option_text(self.new.self_test)
                        + ", NVMe warning="@ + option_number(self.new.critical_warning),
                ),
            ]
        } else if current == Some(false) && previous == Some(true) {
            seq![self.event(Severity::Info, key, key + ": returned to normal"@)]
        } else {
            Seq::empty()
        }
    }

    /// What the conditions that make a disk critical have to tell.
    pub open spec fn grave_condition_events(self) -> Seq<EventView> {
        let o = self.old;
        let n = self.new;
        self.check_events(
            "overall_health"@,
            "passed"@,
            n.says_failing(),
            (if o is Some { o->0.says_failing() } else { None }),
            Severity::Critical,
        ) + self.check_events(
            "critical_warning"@,
            "critical_warning"@,
            n.warns(),
            (if o is Some { o->0.warns() } else { None }),
            Severity::Critical,
        ) + self.check_events(
            "prefailure"@,
            "prefailure"@,
            n.prefailure,
            (if o is Some { o->0.prefailure } else { None }),
            Severity::Critical,
        )
    }

    /// What the conditions that call for a warning have to tell.
    pub open spec fn lesser_condition_events(self) -> Seq<EventView> {
        let o = self.old;
        let n = self.new;
        self.check_events(
            "self_test"@,
            "self_test_status"@,
            n.test_failed(),
            (if o is Some { o->0.test_failed() } else { None }),
            Severity::Warning,
        ) + self.check_events(
            "available_spare"@,
            "available_spare"@,
            n.spare_low(),
            (if o is Some { o->0.spare_low() } else { None }),
            Severity::Warning,
        ) + self.check_events(
            "percentage_used"@,
            "percentage_used"@,
            n.worn_out(),
            (if o is Some { o->0.worn_out() } else { None }),
            Severity::Warning,
        ) + self.check_events(
            "remaining_life"@,
            "remaining_life"@,
            n.life_low(),
            (if o is Some { o->0.life_low() } else { None }),
            Severity::Warning,
        )
    }

    /// The warning bits of an NVMe disk changed while some were set all along.
    pub open spec fn warning_events(self) -> Seq<EventView> {
        if self.old is Some && self.new.warns() == Some(true) && self.old->0.warns() == Some(true)
            && self.old->0.critical_warning != self.new.critical_warning {
            seq![
                self.event(
                    Severity::Critical,
                    "critical_warning"@,
                    "NVMe critical warning changed to "@ + option_number(self.new.critical_warning),
                ),
            ]
        } else {
            Seq::empty()
        }
    }

    /// Another self-test passed, and it is not the end of a failure.
    pub open spec fn test_events(self) -> Seq<EventView> {
        if self.old is Some && self.new.self_test_status == Some(SelfTestStatus::Passed) && (
        self.old->0.self_test != self.new.self_test || self.old->0.self_test_hours
            != self.new.self_test_hours) && self.old->0.self_test_status != Some(
            SelfTestStatus::Failed,
        ) {
            seq![self.event(Severity::Info, "self_test"@, "self-test completed successfully"@)]
        } else {
            Seq::empty()
        }
    }

    /// A bit of the exit status that speaks of the past was set for the first time.
    pub open spec fn history_events(self, key: Seq<char>, value: bool, before: bool) -> Seq<EventView> {
        if value && !before {
            seq![self.event(Severity::Warning, key, "SMART historical indication: "@ + key)]
        } else {
            Seq::empty()
        }
    }

    pub open spec fn all_history_events(self) -> Seq<EventView> {
        let o = self.old;
        let n = self.new.exit;
        self.history_events("past_threshold"@, n.past_threshold, o is Some && o->0.exit.past_threshold)
            + self.history_events("error_log"@, n.error_log, o is Some && o->0.exit.error_log)
            + self.history_events(
            "self_test_log"@,
            n.self_test_log,
            o is Some && o->0.exit.self_test_log,
        )
    }

    /// The temperature that counts: measured now.
    pub open spec fn fresh_temperature(self) -> Option<i64> {
        if self.new.stale_fields.contains("temperature"@) {
            None
        } else {
            self.new.temperature
        }
    }

    /// The disk is hot now, given whether it was and the limits.
    pub open spec fn hot_after(self, hot: bool, limits: Temperature) -> bool {
        let limit = warning_limit(self.device.kind, limits);
        match self.fresh_temperature() {
            Some(t) => if hot {
                t > limit - limits.hysteresis
            } else {
                t >= limit
            },
            None => hot,
        }
    }

    pub open spec fn temperature_events(self, hot: bool, limits: Temperature) -> Seq<EventView> {
        let limit = warning_limit(self.device.kind, limits);
        let after = self.hot_after(hot, limits);
        match self.fresh_temperature() {
            Some(t) => if after && !hot {
                seq![
                    self.event(
                        Severity::Warning,
                        "temperature"@,
                        "temperature "@ + decimal_signed(t as int) + " C >= "@ + decimal_signed(
                            limit as int,
                        ) + " C"@,
                    ),
                ]
            } else if hot && !after {
                seq![
                    self.event(
                        Severity::Info,
                        "temperature"@,
                        "temperature recovered: "@ + decimal_signed(t as int) + " C"@,
                    ),
                ]
            } else {
                Seq::empty()
            },
            None => Seq::empty(),
        }
    }

    /// Everything that the new report has to tell, in order.
    pub open spec fn events(self, hot: bool, limits: Temperature) -> Seq<EventView> {
        self.all_counter_events(ordered(self.new.counters)) + self.grave_condition_events()
            + self.lesser_condition_events() + self.warning_events() + self.test_events() + self.all_history_events()
            + self.temperature_events(hot, limits)
    }
}

/// The temperature from which a disk of this kind is hot.
pub open spec fn warning_limit(kind: Kind, limits: Temperature) -> i64 {
    match kind {
        Kind::Hdd => limits.hdd_warning,
        Kind::Ssd => limits.ssd_warning,
        Kind::Nvme => limits.nvme_warning,
    }
}

proof fn lemma_no_event(events: Seq<EventView>)
    ensures
        events + Seq::<EventView>::empty() == events,
{
    assert(events + Seq::<EventView>::empty() =~= events);
}

/// Collects the events of one comparison.
struct Emitter<'a> {
    time: u64,
    device: &'a Device,
    old: Option<&'a Snapshot>,
    new: &'a Snapshot,
    events: Vec<Event>,
}

impl<'a> Emitter<'a> {
    spec fn occasion(self) -> Occasion {
        Occasion {
            time: self.time,
            device: self.device@,
            old: self.old.deep_view(),
            new: self.new@,
        }
    }

    fn emit(&mut self, severity: Severity, category: &str, message: &str)
        ensures
            final(self).occasion() == old(self).occasion(),
            final(self).events.deep_view() == old(self).events.deep_view() + seq![
                old(self).occasion().event(severity, category@, message@),
            ],
    {
        self.events.push(Event::at(self.time, severity, Some(self.device), category, message));
        assert(self.events.deep_view() =~= old(self).events.deep_view() + seq![
            old(self).occasion().event(severity, category@, message@),
        ]);
    }

    fn counter(&mut self, key: &str, value: u64)
        ensures
            final(self).occasion() == old(self).occasion(),
            final(self).events.deep_view() == old(self).events.deep_view()
                + old(self).occasion().counter_events(key@, value),
    {
        if self.new.stale_fields.contains(key) {
            proof {
                lemma_no_event(self.events.deep_view());
            }
            return;
        }
        let before: u64 = match self.old {
            Some(o) => match o.counters.get(key) {
                Some(n) => *n,
                None => 0,
            },
            None => 0,
        };
        if value == before {
            proof {
                lemma_no_event(self.events.deep_view());
            }
            return;
        }
        let mut change: String = decimal_text(before);
        change.append(" -> ");
        change.append(decimal_text(value).as_str());
        let mut message: String = key.to_owned();
        if value > before {
            message.append(" changed ");
            message.append(change.as_str());
            self.emit(counter_severity(key), key, message.as_str());
        } else {
            message.append(" decreased ");
            message.append(change.as_str());
            message.append("; counter reset or recovery");
            self.emit(Severity::Info, key, message.as_str());
        }
    }

    fn counters(&mut self)
        ensures
            final(self).occasion() == old(self).occasion(),
            final(self).events.deep_view() == old(self).events.deep_view()
                + old(self).occasion().all_counter_events(ordered(old(self).new@.counters)),
    {
        let new: &'a Snapshot = self.new;
        let ghost listing = ordered(new@.counters);
        let ghost o = self.occasion();
        let n: usize = new.counters.len();
        let mut i: usize = 0;
        assert(self.events.deep_view() =~= old(self).events.deep_view() + o.all_counter_events(
            listing.take(0),
        ));
        while i < n
            invariant
                i <= n,
                n == listing.len(),
                listing == ordered(new@.counters),
                self.occasion() == o,
                self.events.deep_view() == old(self).events.deep_view() + o.all_counter_events(
                    listing.take(i as int),
                ),
            decreases n - i,
        {
            self.counter(new.counters.key_at(i), *new.counters.value_at(i));
            i += 1;
            assert(listing.take(i as int).drop_last() =~= listing.take(i - 1));
            assert(self.events.deep_view() =~= old(self).events.deep_view() + o.all_counter_events(
                listing.take(i as int),
            ));
        }
        assert(listing.take(i as int) =~= listing);
    }

    fn check(
        &mut self,
        key: &str,
        field: &str,
        current: Option<bool>,
        previous: Option<bool>,
        severity: Severity,
    )
        ensures
            final(self).occasion() == old(self).occasion(),
            final(self).events.deep_view() == old(self).events.deep_view()
                + old(self).occasion().check_events(key@, field@, current, previous, severity),
    {
        if self.new.stale_fields.contains(key) || self.new.stale_fields.contains(field) {
            proof {
                lemma_no_event(self.events.deep_view());
            }
        } else if current == Some(true) && previous != Some(true) {
            let mut message: String = key.to_owned();
            message.append(": unhealthy; self-test=");
            message.append(show_option(&self.new.self_test).as_str());
            message.append(", NVMe warning=");
            message.append(show_number(self.new.critical_warning).as_str());
            self.emit(severity, key, message.as_str());
        } else if current == Some(false) && previous == Some(true) {
            let mut message: String = key.to_owned();
            message.append(": returned to normal");
            self.emit(Severity::Info, key, message.as_str());
        } else {
            proof {
                lemma_no_event(self.events.deep_view());
            }
        }
    }

    fn grave_conditions(&mut self)
        ensures
            final(self).occasion() == old(self).occasion(),
            final(self).events.deep_view() == old(self).events.deep_view()
                + old(self).occasion().grave_condition_events(),
    {
        let new: &'a Snapshot = self.new;
        let o: Option<&'a Snapshot> = self.old;
        self.check(
            "overall_health",
            "passed",
            new.says_failing(),
            match o {
                Some(s) => s.says_failing(),
                None => None,
            },
            Severity::Critical,
        );
        self.check(
            "critical_warning",
            "critical_warning",
            new.warns(),
            match o {
                Some(s) => s.warns(),
                None => None,
            },
            Severity::Critical,
        );
        self.check(
            "prefailure",
            "prefailure",
            new.prefailure,
            match o {
                Some(s) => s.prefailure,
                None => None,
            },
            Severity::Critical,
        );
        assert(self.events.deep_view() =~= old(self).events.deep_view()
            + old(self).occasion().grave_condition_events());
    }

    fn lesser_conditions(&mut self)
        ensures
            final(self).occasion() == old(self).occasion(),
            final(self).events.deep_view() == old(self).events.deep_view()
                + old(self).occasion().lesser_condition_events(),
    {
        let new: &'a Snapshot = self.new;
        let o: Option<&'a Snapshot> = self.old;
        self.check(
            "self_test",
            "self_test_status",
            new.test_failed(),
            match o {
                Some(s) => s.test_failed(),
                None => None,
            },
            Severity::Warning,
        );
        self.check(
            "available_spare",
            "available_spare",
            new.spare_low(),
            match o {
                Some(s) => s.spare_low(),
                None => None,
            },
            Severity::Warning,
        );
        self.check(
            "percentage_used",
            "percentage_used",
            new.worn_out(),
            match o {
                Some(s) => s.worn_out(),
                None => None,
            },
            Severity::Warning,
        );
        self.check(
            "remaining_life",
            "remaining_life",
            new.life_low(),
            match o {
                Some(s) => s.life_low(),
                None => None,
            },
            Severity::Warning,
        );
        assert(self.events.deep_view() =~= old(self).events.deep_view()
            + old(self).occasion().lesser_condition_events());
    }

    fn warning(&mut self)
        ensures
            final(self).occasion() == old(self).occasion(),
            final(self).events.deep_view() == old(self).events.deep_view()
                + old(self).occasion().warning_events(),
    {
        let changed: bool = match self.old {
            Some(o) => self.new.warns() == Some(true) && o.warns() == Some(true)
                && o.critical_warning != self.new.critical_warning,
            None => false,
        };
        if changed {
            let mut message: String = "NVMe critical warning changed to ".to_owned();
            message.append(show_number(self.new.critical_warning).as_str());
            self.emit(Severity::Critical, "critical_warning", message.as_str());
        } else {
            proof {
                lemma_no_event(self.events.deep_view());
            }
        }
    }

    fn test(&mut self)
        ensures
            final(self).occasion() == old(self).occasion(),
            final(self).events.deep_view() == old(self).events.deep_view()
                + old(self).occasion().test_events(),
    {
        let passed: bool = match self.old {
            Some(o) => self.new.self_test_status == Some(SelfTestStatus::Passed) && (!same_option(
                &o.self_test,
                &self.new.self_test,
            ) || o.self_test_hours != self.new.self_test_hours) && o.self_test_status
                != Some(SelfTestStatus::Failed),
            None => false,
        };
        if passed {
            self.emit(Severity::Info, "self_test", "self-test completed successfully");
        } else {
            proof {
                lemma_no_event(self.events.deep_view());
            }
        }
    }

    fn history(&mut self, key: &str, value: bool, before: bool)
        ensures
            final(self).occasion() == old(self).occasion(),
            final(self).events.deep_view() == old(self).events.deep_view()
                + old(self).occasion().history_events(key@, value, before),
    {
        if value && !before {
            let mut message: String = "SMART historical indication: ".to_owned();
            message.append(key);
            self.emit(Severity::Warning, key, message.as_str());
        } else {
            proof {
                lemma_no_event(self.events.deep_view());
            }
        }
    }

    fn histories(&mut self)
        ensures
            final(self).occasion() == old(self).occasion(),
            final(self).events.deep_view() == old(self).events.deep_view()
                + old(self).occasion().all_history_events(),
    {
        let new: &'a Snapshot = self.new;
        let o: Option<&'a Snapshot> = self.old;
        self.history(
            "past_threshold",
            new.exit.past_threshold,
            match o {
                Some(s) => s.exit.past_threshold,
                None => false,
            },
        );
        self.history(
            "error_log",
            new.exit.error_log,
            match o {
                Some(s) => s.exit.error_log,
                None => false,
            },
        );
        self.history(
            "self_test_log",
            new.exit.self_test_log,
            match o {
                Some(s) => s.exit.self_test_log,
                None => false,
            },
        );
        assert(self.events.deep_view() =~= old(self).events.deep_view()
            + old(self).occasion().all_history_events());
    }

    fn temperature(&mut self, hot: bool, limits: &Temperature) -> (r: bool)
        ensures
            r == old(self).occasion().hot_after(hot, *limits),
            final(self).occasion() == old(self).occasion(),
            final(self).events.deep_view() == old(self).events.deep_view()
                + old(self).occasion().temperature_events(hot, *limits),
    {
        let limit: i64 = match self.device.kind {
            Kind::Hdd => limits.hdd_warning,
            Kind::Ssd => limits.ssd_warning,
            Kind::Nvme => limits.nvme_warning,
        };
        let fresh: Option<i64> = if self.new.stale_fields.contains("temperature") {
            None
        } else {
            self.new.temperature
        };
        match fresh {
            None => {
                proof {
                    lemma_no_event(self.events.deep_view());
                }
                hot
            },
            Some(t) => if !hot && t >= limit {
                let mut message: String = "temperature ".to_owned();
                message.append(signed_text(t).as_str());
                message.append(" C >= ");
                message.append(signed_text(limit).as_str());
                message.append(" C");
                self.emit(Severity::Warning, "temperature", message.as_str());
                true
            } else if hot && (t as i128) <= (limit as i128) - (limits.hysteresis as i128) {
                let mut message: String = "temperature recovered: ".to_owned();
                message.append(signed_text(t).as_str());
                message.append(" C");
                self.emit(Severity::Info, "temperature", message.as_str());
                false
            } else {
                proof {
                    lemma_no_event(self.events.deep_view());
                }
                hot
            },
        }
    }
}

/// The events that a new report gives rise to at a given time, and whether the
/// disk is hot afterwards.
pub fn diff_at(
    time: u64,
    device: &Device,
    earlier: Option<&Snapshot>,
    new: &Snapshot,
    hot: &mut bool,
    cfg: &Temperature,
) -> (r: Vec<Event>)
    ensures
        ({
            let o = Occasion {
                time,
                device: device@,
                old: earlier.deep_view(),
                new: new@,
            };
            &&& r.deep_view() == o.events(*old(hot), *cfg)
            &&& *final(hot) == o.hot_after(*old(hot), *cfg)
        }),
{
    let mut emitter: Emitter = Emitter { time, device, old: earlier, new, events: Vec::new() };
    let ghost o = emitter.occasion();
    assert(emitter.events.deep_view() =~= Seq::<EventView>::empty());
    emitter.counters();
    emitter.grave_conditions();
    emitter.lesser_conditions();
    emitter.warning();
    emitter.test();
    emitter.histories();
    let after: bool = emitter.temperature(*hot, cfg);
    assert(emitter.events.deep_view() =~= o.events(*hot, *cfg));
    *hot = after;
    emitter.events
}

/// The events that a new report gives rise to, and whether the disk is hot
/// afterwards.
pub fn diff(
    device: &Device,
    earlier: Option<&Snapshot>,
    new: &Snapshot,
    hot: &mut bool,
    cfg: &Temperature,
) -> (r: Vec<Event>)
    ensures
        exists|time: u64|
            ({
                let o = #[trigger] occasion_at(time, device@, earlier.deep_view(), new@);
                &&& r.deep_view() == o.events(*old(hot), *cfg)
                &&& *final(hot) == o.hot_after(*old(hot), *cfg)
            }),
{
    let time: u64 = now();
    let ghost o = occasion_at(time, device@, earlier.deep_view(), new@);
    diff_at(time, device, earlier, new, hot, cfg)
}

pub open spec fn occasion_at(
    time: u64,
    device: DeviceView,
    old: Option<SnapshotView>,
    new: SnapshotView,
) -> Occasion {
    Occasion { time, device, old, new }
}

} // verus!
