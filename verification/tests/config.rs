use disk_watch::config::{Config, ConfigError};

#[test]
fn defaults_hold_where_there_is_no_file() {
    let cfg = Config::load(None, false).unwrap();
    assert_eq!(cfg.check_interval_seconds, 1800);
    assert_eq!(cfg.command_timeout_seconds, 60);
    assert_eq!(cfg.temperature.hdd_warning, 50);
    assert_eq!(cfg.temperature.ssd_warning, 60);
    assert_eq!(cfg.temperature.nvme_warning, 70);
    assert_eq!(cfg.temperature.hysteresis, 5);
    assert_eq!(cfg.alerts.kernel_cooldown_seconds, 300);
    assert!(!cfg.alerts.desktop && !cfg.alerts.telegram);
    assert!(cfg.kernel.enabled && cfg.smart.enabled && cfg.smart.skip_sleeping);
    assert!(cfg.devices.ignore_serials.is_empty());
}

#[test]
fn a_file_that_was_named_has_to_exist() {
    let e = Config::load(None, true).unwrap_err();
    assert_eq!(e, ConfigError::Missing);
    assert_eq!(e.message(), "configuration file not found");
}

#[test]
fn each_rule_has_its_error() {
    let mut c = Config::default();
    c.check_interval_seconds = 0;
    let e = Config::load(Some(c), true).unwrap_err();
    assert_eq!(e, ConfigError::Intervals);
    assert_eq!(e.message(), "intervals must be positive");
    let mut c = Config::default();
    c.command_timeout_seconds = 0;
    assert_eq!(c.validate(), Err(ConfigError::Intervals));
    for hysteresis in [-1, 101] {
        let mut c = Config::default();
        c.temperature.hysteresis = hysteresis;
        let e = c.validate().unwrap_err();
        assert_eq!(e, ConfigError::Hysteresis);
        assert_eq!(e.message(), "invalid temperature hysteresis");
    }
    for limit in [0, 5, 201] {
        let mut c = Config::default();
        c.temperature.nvme_warning = limit;
        let e = c.validate().unwrap_err();
        assert_eq!(e, ConfigError::Thresholds);
        assert_eq!(e.message(), "invalid temperature thresholds");
    }
    let mut c = Config::default();
    c.alerts.telegram = true;
    let e = c.validate().unwrap_err();
    assert_eq!(e, ConfigError::Telegram);
    assert_eq!(e.message(), "Telegram is not implemented in this MVP");
}

#[test]
fn disks_without_a_serial_number_are_watched() {
    let mut c = Config::default();
    c.devices.ignore_serials = vec!["".to_string(), "A".to_string()];
    assert!(c.watches(""));
    assert!(!c.watches("A"));
    assert!(c.watches("B"));
    assert!(Config::load(Some(c.clone()), false).is_ok());
    assert_eq!(format!("{c:?}"), format!("{:?}", c.clone()));
}
