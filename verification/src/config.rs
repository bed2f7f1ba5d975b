//! Settings of the monitor: defaults and the rules that they have to keep.

use crate::text::{copy_list, list_contains};
use vstd::prelude::*;

verus! {

/// Temperatures in degrees Celsius from which a disk counts as hot.
#[derive(Clone, Copy, Debug)]
pub struct Temperature {
    pub hdd_warning: i64,
    pub ssd_warning: i64,
    pub nvme_warning: i64,
    /// How far the temperature has to fall below the limit before the disk
    /// counts as cool again.
    pub hysteresis: i64,
}

#[derive(Clone, Copy, Debug)]
pub struct Alerts {
    pub desktop: bool,
    pub telegram: bool,
    pub kernel_cooldown_seconds: u64,
}

#[derive(Clone, Copy, Debug)]
pub struct Enabled {
    pub enabled: bool,
}

#[derive(Clone, Copy, Debug)]
pub struct Smart {
    pub enabled: bool,
    pub skip_sleeping: bool,
}

#[derive(Debug)]
pub struct Devices {
    /// Serial numbers of the disks that are left alone.
    pub ignore_serials: Vec<String>,
}

#[derive(Debug)]
pub struct Config {
    pub check_interval_seconds: u64,
    pub command_timeout_seconds: u64,
    pub temperature: Temperature,
    pub alerts: Alerts,
    pub kernel: Enabled,
    pub smart: Smart,
    pub devices: Devices,
}

/// What the settings say.
pub struct ConfigView {
    pub check_interval_seconds: u64,
    pub command_timeout_seconds: u64,
    pub temperature: Temperature,
    pub alerts: Alerts,
    pub kernel: Enabled,
    pub smart: Smart,
    pub ignore_serials: Seq<Seq<char>>,
}

impl View for Config {
    type V = ConfigView;

    open spec fn view(&self) -> ConfigView {
        ConfigView {
            check_interval_seconds: self.check_interval_seconds,
            command_timeout_seconds: self.command_timeout_seconds,
            temperature: self.temperature,
            alerts: self.alerts,
            kernel: self.kernel,
            smart: self.smart,
            ignore_serials: self.devices.ignore_serials.deep_view(),
        }
    }
}

impl DeepView for Config {
    type V = ConfigView;

    open spec fn deep_view(&self) -> ConfigView {
        self@
    }
}

impl Clone for Devices {
    fn clone(&self) -> (r: Self)
        ensures
            r.ignore_serials.deep_view() == self.ignore_serials.deep_view(),
    {
        Devices { ignore_serials: copy_list(&self.ignore_serials) }
    }
}

impl Clone for Config {
    fn clone(&self) -> (r: Self)
        ensures
            r@ == self@,
    {
        Config {
            check_interval_seconds: self.check_interval_seconds,
            command_timeout_seconds: self.command_timeout_seconds,
            temperature: self.temperature,
            alerts: self.alerts,
            kernel: self.kernel,
            smart: self.smart,
            devices: self.devices.clone(),
        }
    }
}

impl Default for Temperature {
    fn default() -> (r: Self)
        ensures
            r == default_temperature(),
    {
        Temperature { hdd_warning: 50, ssd_warning: 60, nvme_warning: 70, hysteresis: 5 }
    }
}

pub open spec fn default_temperature() -> Temperature {
    Temperature { hdd_warning: 50, ssd_warning: 60, nvme_warning: 70, hysteresis: 5 }
}

impl Default for Alerts {
    fn default() -> (r: Self)
        ensures
            r == default_alerts(),
    {
        Alerts { desktop: false, telegram: false, kernel_cooldown_seconds: 300 }
    }
}

pub open spec fn default_alerts() -> Alerts {
    Alerts { desktop: false, telegram: false, kernel_cooldown_seconds: 300 }
}

impl Default for Enabled {
    fn default() -> (r: Self)
        ensures
            r.enabled,
    {
        Enabled { enabled: true }
    }
}

impl Default for Smart {
    fn default() -> (r: Self)
        ensures
            r.enabled && r.skip_sleeping,
    {
        Smart { enabled: true, skip_sleeping: true }
    }
}

impl Default for Devices {
    fn default() -> (r: Self)
        ensures
            r.ignore_serials@.len() == 0,
    {
        Devices { ignore_serials: Vec::new() }
    }
}

/// The settings that hold where no file says otherwise.
pub open spec fn default_config() -> ConfigView {
    ConfigView {
        check_interval_seconds: 1800,
        command_timeout_seconds: 60,
        temperature: default_temperature(),
        alerts: default_alerts(),
        kernel: Enabled { enabled: true },
        smart: Smart { enabled: true, skip_sleeping: true },
        ignore_serials: Seq::empty(),
    }
}

impl Default for Config {
    fn default() -> (r: Self)
        ensures
            r@ == default_config(),
    {
        let r: Config = Config {
            check_interval_seconds: 1800,
            command_timeout_seconds: 60,
            temperature: Temperature::default(),
            alerts: Alerts::default(),
            kernel: Enabled::default(),
            smart: Smart::default(),
            devices: Devices::default(),
        };
        assert(r@.ignore_serials =~= Seq::<Seq<char>>::empty());
        r
    }
}

/// Why settings are not accepted.
#[derive(Clone, Copy, Debug, PartialEq, Eq, Structural)]
pub enum ConfigError {
    /// The file that was asked for does not exist.
    Missing,
    /// The check interval or the command timeout is zero.
    Intervals,
    /// The hysteresis is not within 0 and 100 degrees.
    Hysteresis,
    /// A warning temperature is not within 1 and 200 degrees, or not above the
    /// hysteresis.
    Thresholds,
    /// Telegram alerts are asked for.
    Telegram,
}

/// What `ConfigError::message` says.
pub open spec fn error_message(e: ConfigError) -> Seq<char> {
    match e {
        ConfigError::Missing => "configuration file not found"@,
        ConfigError::Intervals => "intervals must be positive"@,
        ConfigError::Hysteresis => "invalid temperature hysteresis"@,
        ConfigError::Thresholds => "invalid temperature thresholds"@,
        ConfigError::Telegram => "Telegram is not implemented in this MVP"@,
    }
}

impl ConfigError {
    pub fn message(&self) -> (r: String)
        ensures
            r@ == error_message(*self),
    {
        match self {
            ConfigError::Missing => "configuration file not found".to_owned(),
            ConfigError::Intervals => "intervals must be positive".to_owned(),
            ConfigError::Hysteresis => "invalid temperature hysteresis".to_owned(),
            ConfigError::Thresholds => "invalid temperature thresholds".to_owned(),
            ConfigError::Telegram => "Telegram is not implemented in this MVP".to_owned(),
        }
    }
}

/// A warning temperature that can be used with this hysteresis.
pub open spec fn threshold_valid(limit: i64, hysteresis: i64) -> bool {
    1 <= limit <= 200 && limit > hysteresis
}

/// The first rule that the settings break.
pub open spec fn fault(c: ConfigView) -> Option<ConfigError> {
    let t = c.temperature;
    if !(c.check_interval_seconds > 0 && c.command_timeout_seconds > 0) {
        Some(ConfigError::Intervals)
    } else if !(0 <= t.hysteresis <= 100) {
        Some(ConfigError::Hysteresis)
    } else if !(threshold_valid(t.hdd_warning, t.hysteresis) && threshold_valid(
        t.ssd_warning,
        t.hysteresis,
    ) && threshold_valid(t.nvme_warning, t.hysteresis)) {
        Some(ConfigError::Thresholds)
    } else if c.alerts.telegram {
        Some(ConfigError::Telegram)
    } else {
        None
    }
}

/// A disk with this serial number is watched: it has none, or it is not on the
/// list of those to leave alone.
pub open spec fn watched(c: ConfigView, serial: Seq<char>) -> bool {
    serial.len() == 0 || !c.ignore_serials.contains(serial)
}

fn is_threshold_valid(limit: i64, hysteresis: i64) -> (r: bool)
    ensures
        r == threshold_valid(limit, hysteresis),
{
    1 <= limit && limit <= 200 && limit > hysteresis
}

impl Config {
    /// Holds the settings to their rules.
    pub fn validate(&self) -> (r: Result<(), ConfigError>)
        ensures
            match r {
                Ok(_) => fault(self@) is None,
                Err(e) => fault(self@) == Some(e),
            },
    {
        let t: &Temperature = &self.temperature;
        if !(self.check_interval_seconds > 0 && self.command_timeout_seconds > 0) {
            Err(ConfigError::Intervals)
        } else if !(0 <= t.hysteresis && t.hysteresis <= 100) {
            Err(ConfigError::Hysteresis)
        } else if !(is_threshold_valid(t.hdd_warning, t.hysteresis) && is_threshold_valid(
            t.ssd_warning,
            t.hysteresis,
        ) && is_threshold_valid(t.nvme_warning, t.hysteresis)) {
            Err(ConfigError::Thresholds)
        } else if self.alerts.telegram {
            Err(ConfigError::Telegram)
        } else {
            Ok(())
        }
    }

    /// The settings to work with. `found` is what the file says, `None` where
    /// there is no file; `explicit` tells that the user named the file.
    pub fn load(found: Option<Config>, explicit: bool) -> (r: Result<Config, ConfigError>)
        ensures
            match (found, r) {
                (Some(c), Ok(v)) => v == c && fault(c@) is None,
                (Some(c), Err(e)) => fault(c@) == Some(e),
                (None, Ok(v)) => !explicit && v@ == default_config(),
                (None, Err(e)) => explicit && e == ConfigError::Missing,
            },
    {
        let value: Config = match found {
            Some(c) => c,
            None => {
                if explicit {
                    return Err(ConfigError::Missing);
                }
                Config::default()
            },
        };
        match value.validate() {
            Ok(_) => Ok(value),
            Err(e) => Err(e),
        }
    }

    /// Whether a disk with this serial number is watched.
    pub fn watches(&self, serial: &str) -> (r: bool)
        ensures
            r == watched(self@, serial@),
    {
        serial.is_empty() || !list_contains(&self.devices.ignore_serials, serial)
    }
}

/// What is loaded without an error keeps every rule: positive intervals, limits
/// above the hysteresis, and no Telegram.
pub proof fn law_loaded_settings_are_sound(c: ConfigView)
    requires
        fault(c) is None,
    ensures
        c.check_interval_seconds > 0,
        c.command_timeout_seconds > 0,
        0 <= c.temperature.hysteresis <= 100,
        0 < c.temperature.hdd_warning - c.temperature.hysteresis,
        0 < c.temperature.ssd_warning - c.temperature.hysteresis,
        0 < c.temperature.nvme_warning - c.temperature.hysteresis,
        !c.alerts.telegram,
{
}

/// The built-in settings are accepted.
pub proof fn law_default_settings_are_accepted()
    ensures
        fault(default_config()) is None,
{
}

} // verus!
