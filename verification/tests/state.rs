use disk_watch::alert::{diff_at, Event, Severity};
use disk_watch::config::Config;
use disk_watch::devices::{Device, Kind};
use disk_watch::json::{decode, Json};
use disk_watch::kernel::parse as parse_record;
use disk_watch::monitor::{apply_inventory, apply_kernel, apply_result, publish};
use disk_watch::report::{device_list, display};
use disk_watch::smart::{parse as parse_smart, Reading, SelfTestStatus, Snapshot};
use disk_watch::state::{
    after_write, current_document, read_document, CheckStatus, DiskState, State, StateError,
    WriteStep,
};

fn device() -> Device {
    Device {
        path: "/dev/sdb".to_string(),
        model: "Test".to_string(),
        serial: "SERIAL".to_string(),
        wwn: "".to_string(),
        kind: Kind::Nvme,
        aliases: vec!["sdb".to_string()],
        diskseq: None,
        discovered_at: 0,
        wd_usb: false,
    }
}

fn event(severity: Severity, category: &str) -> Event {
    Event::at(1, severity, Some(&device()), category, "m")
}

#[test]
fn a_new_state_is_empty() {
    let state = State::default();
    assert_eq!(state.version, 2);
    assert!(state.disks.is_empty() && state.recent_alerts.is_empty());
    assert!(state.kernel_cursor.is_none() && state.notification_times.is_empty());
}

#[test]
fn notifications_of_one_kind_wait_for_the_cooldown() {
    let mut state = State::default();
    let e = event(Severity::Critical, "kernel_io_error");
    assert!(state.should_notify_at(&e, 300, 1000));
    assert!(!state.should_notify_at(&e, 300, 1299));
    assert!(!state.should_notify_at(&e, 300, 500));
    assert!(state.should_notify_at(&event(Severity::Warning, "kernel_io_error"), 300, 1299));
    assert!(state.should_notify_at(&event(Severity::Critical, "other"), 300, 1299));
    assert!(state.should_notify_at(&e, 300, 1300));
    assert_eq!(state.notification_times.len(), 3);
    assert!(state
        .notification_times
        .contains_key("kernel_io_error:serial:4:Test:SERIAL:Critical"));
    let lost = Event::at(1, Severity::Critical, None, "c", "m");
    assert!(state.should_notify_at(&lost, 0, 9000));
    assert!(state.should_notify_at(&lost, 0, 9000));
    assert_eq!(state.notification_times.len(), 1);
    assert!(state
        .notification_times
        .contains_key("c:uncorrelated:Critical"));
    assert!(state.should_notify(&e, 300));
    assert!(!state.should_notify(&e, 300));
}

#[test]
fn only_the_last_hundred_events_are_remembered() {
    let mut state = State::default();
    let mut out = Vec::new();
    for i in 0..105 {
        let e = Event::at(i, Severity::Info, None, "c", "m");
        publish(&mut state, &mut out, e, true);
    }
    assert_eq!(state.recent_alerts.len(), 100);
    assert_eq!(state.recent_alerts[0].timestamp, 5);
    assert_eq!(state.recent_alerts[99].timestamp, 104);
    assert!(out.iter().all(|n| !n.send));
}

#[test]
fn only_the_last_2048_cursors_are_remembered() {
    let mut state = State::default();
    for i in 0..2050 {
        let r = parse_record(&format!("{{\"__CURSOR\":\"{i}\",\"MESSAGE\":\"m\"}}")).unwrap();
        assert!(state.accept_kernel(&r));
    }
    assert_eq!(state.kernel_seen_cursors.len(), 2048);
    let known = parse_record(r#"{"__CURSOR":"2","MESSAGE":"m"}"#).unwrap();
    assert!(!state.accept_kernel(&known));
    let forgotten = parse_record(r#"{"__CURSOR":"1","MESSAGE":"m"}"#).unwrap();
    assert!(state.accept_kernel(&forgotten));
}

#[test]
fn records_of_one_time_are_told_apart_by_their_cursors() {
    let mut state = State::default();
    for cursor in ["a", "b"] {
        let r = parse_record(&format!(
            "{{\"__CURSOR\":\"{cursor}\",\"__MONOTONIC_TIMESTAMP\":\"5\",\"MESSAGE\":\"m\"}}"
        ))
        .unwrap();
        assert!(state.accept_kernel(&r));
        assert!(!state.accept_kernel(&r));
    }
    assert_eq!(state.kernel_watermark, Some(5));
    let older =
        parse_record(r#"{"__CURSOR":"c","__MONOTONIC_TIMESTAMP":"4","MESSAGE":"m"}"#).unwrap();
    assert!(!state.accept_kernel(&older));
}

#[test]
fn the_same_boot_keeps_its_positions() {
    let mut state = State::default();
    state.prepare_boot(Some("b".to_string()));
    let r = parse_record(r#"{"__CURSOR":"c","_BOOT_ID":"b","MESSAGE":"m"}"#).unwrap();
    assert!(state.accept_kernel(&r));
    state.prepare_boot(Some("b".to_string()));
    assert_eq!(state.kernel_cursor.as_deref(), Some("c"));
    state.prepare_boot(None);
    assert_eq!(state.kernel_cursor, None);
    assert!(state.kernel_seen_cursors.is_empty());
}

#[test]
fn verdicts_rest_on_evidence() {
    let mut d = DiskState::new(device());
    assert_eq!(d.health(), "Unknown");
    assert_eq!(d.severity(), Severity::Info);
    d.check_status = CheckStatus::Checked;
    d.snapshot = Some(Snapshot {
        passed: Some(true),
        ..Default::default()
    });
    assert_eq!(d.health(), "OK");
    d.hot = true;
    assert_eq!(d.health(), "Warning");
    d.hot = false;
    d.smart_error = Some("e".to_string());
    assert_eq!(d.health(), "Warning");
    d.smart_error = None;
    let s = d.snapshot.as_mut().unwrap();
    s.counters.insert("num_err_log_entries".to_string(), 1);
    assert_eq!(d.health(), "Warning");
    let s = d.snapshot.as_mut().unwrap();
    s.counters.insert("media_errors".to_string(), 1);
    assert_eq!(d.health(), "Critical");
    let s = d.snapshot.as_mut().unwrap();
    s.stale_fields.insert("media_errors".to_string());
    assert_eq!(d.health(), "Unknown");
    assert_eq!(d.severity(), Severity::Critical);
    d.kernel_severity = Some(Severity::Critical);
    assert_eq!(d.health(), "Critical");
    d.kernel_severity = None;
    d.check_status = CheckStatus::Partial;
    d.snapshot = Some(Snapshot {
        passed: Some(false),
        issue: Some("i".to_string()),
        ..Default::default()
    });
    assert_eq!(d.health(), "Critical");
    d.check_status = CheckStatus::Failed;
    assert_eq!(d.health(), "Unknown");
}

#[test]
fn each_sign_of_wear_is_a_warning() {
    let mut d = DiskState::new(device());
    let clean = Snapshot {
        passed: Some(true),
        ..Default::default()
    };
    let mut worn: Vec<Snapshot> = Vec::new();
    for i in 0..7 {
        let mut s = clean.clone();
        match i {
            0 => s.self_test_status = Some(SelfTestStatus::Failed),
            1 => s.exit.past_threshold = true,
            2 => s.exit.error_log = true,
            3 => s.exit.self_test_log = true,
            4 => s.percentage_used = Some(100),
            5 => s.remaining_life = Some(10),
            _ => {
                s.available_spare = Some(9);
                s.spare_threshold = Some(10);
            }
        }
        worn.push(s);
    }
    for s in worn {
        d.snapshot = Some(s);
        assert_eq!(d.severity(), Severity::Warning);
    }
    d.snapshot = Some(Snapshot {
        percentage_used: Some(99),
        remaining_life: Some(11),
        available_spare: Some(10),
        spare_threshold: Some(10),
        ..clean
    });
    assert_eq!(d.severity(), Severity::Info);
}

#[test]
fn differences_are_told_in_words() {
    let cfg = Config::default();
    let mut old = Snapshot::default();
    old.passed = Some(true);
    old.counters.insert("a".to_string(), 5);
    old.critical_warning = Some(1);
    let mut new = Snapshot::default();
    new.passed = Some(false);
    new.counters.insert("a".to_string(), 3);
    new.counters.insert("media_errors".to_string(), 2);
    new.critical_warning = Some(4);
    new.self_test = Some("x\"".to_string());
    new.exit.error_log = true;
    new.temperature = Some(70);
    let mut hot = false;
    let events = diff_at(9, &device(), Some(&old), &new, &mut hot, &cfg.temperature);
    let told: Vec<(Severity, &str, &str)> = events
        .iter()
        .map(|e| (e.severity, e.category.as_str(), e.message.as_str()))
        .collect();
    assert_eq!(
        told,
        vec![
            (
                Severity::Info,
                "a",
                "a decreased 5 -> 3; counter reset or recovery"
            ),
            (
                Severity::Critical,
                "media_errors",
                "media_errors changed 0 -> 2"
            ),
            (
                Severity::Critical,
                "overall_health",
                "overall_health: unhealthy; self-test=Some(\"x\\\"\"), NVMe warning=Some(4)"
            ),
            (
                Severity::Critical,
                "critical_warning",
                "NVMe critical warning changed to Some(4)"
            ),
            (
                Severity::Warning,
                "error_log",
                "SMART historical indication: error_log"
            ),
            (
                Severity::Warning,
                "temperature",
                "temperature 70 C >= 70 C"
            ),
        ]
    );
    assert!(hot);
    assert!(events.iter().all(|e| e.timestamp == 9));
    new.temperature = Some(-3);
    let events = diff_at(9, &device(), Some(&new), &new, &mut hot, &cfg.temperature);
    assert_eq!(events.len(), 1);
    assert_eq!(events[0].message, "temperature recovered: -3 C");
    let events = diff_at(9, &device(), Some(&new), &old, &mut hot, &cfg.temperature);
    assert!(events
        .iter()
        .any(|e| e.message == "overall_health: returned to normal"));
}

#[test]
fn the_same_report_twice_tells_nothing_new() {
    let cfg = Config::default();
    let s = parse_smart(
        br#"{"smart_status":{"passed":false},"temperature":{"current":99}}"#,
        8,
    )
    .unwrap();
    let mut hot = false;
    assert_eq!(
        diff_at(1, &device(), None, &s, &mut hot, &cfg.temperature).len(),
        2
    );
    assert!(diff_at(2, &device(), Some(&s), &s, &mut hot, &cfg.temperature).is_empty());
    assert!(diff_at(3, &device(), Some(&s), &s, &mut hot, &cfg.temperature).is_empty());
}

#[test]
fn a_trouble_is_told_once() {
    let mut state = State::default();
    let cfg = Config::default();
    let mut out = Vec::new();
    for _ in 0..2 {
        apply_result(
            &mut state,
            device(),
            Err("smartctl timed out".to_string()),
            &cfg,
            None,
            5,
            &mut out,
        );
    }
    assert_eq!(out.len(), 1);
    assert!(out[0].send);
    let partial = parse_smart(br#"{"smart_status":{"passed":true}}"#, 4).unwrap();
    for _ in 0..2 {
        apply_result(
            &mut state,
            device(),
            Ok(Reading::Checked(Box::new(partial.clone()))),
            &cfg,
            None,
            6,
            &mut out,
        );
    }
    assert_eq!(out.len(), 2);
    let entry = state.disks.get(&device().key()).unwrap();
    assert_eq!(entry.check_status, CheckStatus::Partial);
    assert_eq!(entry.checked_at, None);
}

#[test]
fn kernel_events_keep_the_time_of_their_record() {
    let mut state = State::default();
    let mut out = Vec::new();
    let cfg = Config::default();
    for line in [
        r#"{"__REALTIME_TIMESTAMP":"7000000","MESSAGE":"ata1: link is slow to respond"}"#,
        r#"{"MESSAGE":"I/O error"}"#,
        r#"{"MESSAGE":"ata1: link is slow to respond"}"#,
        r#"{"MESSAGE":"nothing"}"#,
    ] {
        apply_kernel(
            &mut state,
            parse_record(line).unwrap(),
            Some(&device()),
            &cfg,
            50,
            &mut out,
        );
    }
    assert_eq!(out.len(), 3);
    assert_eq!(out[0].event.timestamp, 7);
    assert_eq!(out[0].event.category, "kernel_link_slow");
    assert_eq!(out[1].event.timestamp, 50);
    assert!(out[0].send && out[1].send && !out[2].send);
    let entry = state.disks.get(&device().key()).unwrap();
    assert_eq!(entry.kernel_severity, Some(Severity::Critical));
    assert_eq!(
        entry.kernel_last_message.as_deref(),
        Some("ata1: link is slow to respond")
    );
    assert_eq!(entry.kernel_last_seen, Some(50));
}

#[test]
fn documents_of_the_first_version_are_upgraded() {
    let text = r#"{"version":1,"disks":{"k":{"present":true,"snapshot":{"passed":false,"self_test_failed":true}},"l":{"snapshot":{"self_test_failed":false,"self_test_status":"Passed"}},"m":{"snapshot":null},"n":null,"o":{"snapshot":{"self_test_failed":3}}},"recent_alerts":[]}"#;
    let v = read_document(text).unwrap();
    assert_eq!(v.field("version").as_u64(), Some(2));
    let disks = v.field("disks");
    let k = disks.field("k").field("snapshot");
    assert_eq!(k.field("self_test_status").as_str(), Some("Failed"));
    assert!(k.child("self_test_failed").is_none());
    assert_eq!(k.field("passed").as_bool(), Some(false));
    assert_eq!(
        disks
            .field("l")
            .field("snapshot")
            .field("self_test_status")
            .as_str(),
        Some("Unknown")
    );
    assert!(matches!(disks.field("m").field("snapshot"), Json::Null));
    assert!(matches!(disks.field("n"), Json::Null));
    assert_eq!(disks.field("o").field("snapshot").to_text(), "{}");
    assert_eq!(v.field("recent_alerts").to_text(), "[]");
}

#[test]
fn documents_of_the_second_version_stay_as_they_are() {
    let text = r#"{"disks":{"k":{"snapshot":{"self_test_failed":true}}},"version":2}"#;
    assert_eq!(read_document(text).unwrap().to_text(), text);
}

#[test]
fn documents_that_cannot_be_used_are_errors() {
    let e = read_document("broken").unwrap_err();
    assert!(matches!(e, StateError::Corrupt(_)));
    assert!(e.message().starts_with("corrupt state JSON: expected value"));
    let e = read_document("{}").unwrap_err();
    assert!(matches!(e, StateError::Version(0)));
    assert_eq!(e.message(), "unsupported state version 0");
    assert!(matches!(
        read_document(r#"{"version":3}"#),
        Err(StateError::Version(3))
    ));
    let e = current_document(decode(br#"{"version":1,"disks":{"k":[]}}"#).unwrap()).unwrap_err();
    assert!(matches!(e, StateError::Structure));
    assert_eq!(e.message(), "invalid state structure");
}

#[test]
fn histories_under_an_all_zero_wwn_are_dropped() {
    let mut state = State::default();
    let mut shared = DiskState::new(device());
    shared.device.wwn = "0000000000000000".to_string();
    shared.kernel_severity = Some(Severity::Critical);
    state
        .disks
        .insert("wwn:0000000000000000".to_string(), shared.clone());
    shared.snapshot = Some(Snapshot {
        wwn: "0x0".to_string(),
        ..Default::default()
    });
    state.disks.insert(device().key(), shared);
    assert_eq!(state.orphans(), vec!["wwn:0000000000000000".to_string()]);
    state.sanitise();
    assert!(state.orphans().is_empty());
    assert_eq!(state.disks.len(), 1);
    let entry = state.disks.get(&device().key()).unwrap();
    assert_eq!(entry.device.wwn, "");
    assert_eq!(entry.snapshot.as_ref().unwrap().wwn, "");
    assert_eq!(entry.kernel_severity, Some(Severity::Critical));
}

#[test]
fn the_details_are_complete() {
    let mut state = State::default();
    assert_eq!(display(&state), "No known physical disks.\n");
    let mut d = DiskState::new(device());
    d.check_status = CheckStatus::StaleRace;
    d.checked_at = Some(12);
    d.smart_error = Some("e\n".to_string());
    d.kernel_last_message = Some("k".to_string());
    d.kernel_last_seen = Some(3);
    let mut s = Snapshot::default();
    s.passed = Some(true);
    s.firmware = "F".to_string();
    s.temperature = Some(-1);
    s.counters.insert("media_errors".to_string(), 0);
    s.unknown_attributes.insert("1:a".to_string(), Json::Null);
    s.unknown_attributes.insert("2:b".to_string(), Json::Null);
    s.stale_fields.insert("passed".to_string());
    s.stale_fields.insert("temperature".to_string());
    s.remaining_life = Some(90);
    s.self_test = Some("ok".to_string());
    s.self_test_status = Some(SelfTestStatus::InProgress);
    d.snapshot = Some(s);
    state.disks.insert("a".to_string(), d);
    state
        .disks
        .insert("b".to_string(), DiskState::new(device()));
    for i in 0..22 {
        state.remember(Event::at(i, Severity::Warning, None, "c", "é"));
    }
    state.remember(Event::at(22, Severity::Critical, Some(&device()), "c", "m"));
    let text = display(&state);
    assert!(text.starts_with("Test\n  serial: SERIAL\n  device: /dev/sdb\n  present: true\n  health: Unknown\n  last SMART check (Unix seconds): Some(12)\n  SMART check: StaleRace; last known severity: Warning\n  stale/unknown fields: {\"passed\", \"temperature\"}\n  uninterpreted vendor attributes: [\"1:a\", \"2:b\"]\n  SMART overall passed: Some(true)\n  firmware: F\n  temperature: Some(-1) C\n  power-on hours: None\n  media_errors: 0\n  critical_warning: None\n  available_spare: None\n  percentage_used: None\n  remaining life: 90%\n  self-test: Some(InProgress): ok\n  SMART error (previous snapshot may be stale): e\\n\n  kernel I/O errors observed (historical, Some(3)): k\nTest\n"));
    assert!(text.contains("  last SMART check (Unix seconds): None\n  SMART check: Never; last known severity: Info\n  SMART: unavailable / not checked\nRecent events:\n  22 Critical /dev/sdb m\n  21 Warning uncorrelated \\u{e9}\n"));
    assert!(text.ends_with("  3 Warning uncorrelated \\u{e9}\n"));
}

#[test]
fn the_device_list_leaves_ignored_disks_out() {
    let mut cfg = Config::default();
    let mut other = device();
    other.serial = "X\t".to_string();
    other.wwn = "50".to_string();
    other.kind = Kind::Ssd;
    cfg.devices.ignore_serials = vec!["SERIAL".to_string()];
    assert_eq!(
        device_list(&vec![device(), other], &cfg),
        "/dev/sdb Ssd model=Test serial=X\\t wwn=50\n"
    );
}

#[test]
fn copies_of_the_state_are_equal() {
    let mut state = State::default();
    let mut out = Vec::new();
    apply_kernel(
        &mut state,
        parse_record(r#"{"__CURSOR":"c","MESSAGE":"I/O error"}"#).unwrap(),
        Some(&device()),
        &Config::default(),
        5,
        &mut out,
    );
    assert_eq!(format!("{:?}", state.clone()), format!("{state:?}"));
}

#[test]
fn growth_and_failure_are_told_from_the_first_report_on() {
    let cfg = Config::default();
    let mut s = Snapshot::default();
    s.passed = Some(false);
    s.counters.insert("Current_Pending_Sector".to_string(), 1);
    s.counters.insert("Reallocated_Sector_Ct".to_string(), 0);
    let mut hot = false;
    let told = diff_at(1, &device(), None, &s, &mut hot, &cfg.temperature);
    let kinds: Vec<(Severity, &str)> = told
        .iter()
        .map(|e| (e.severity, e.category.as_str()))
        .collect();
    assert_eq!(
        kinds,
        vec![
            (Severity::Critical, "Current_Pending_Sector"),
            (Severity::Critical, "overall_health")
        ]
    );
    let earlier = s.clone();
    s.counters.insert("Reallocated_Sector_Ct".to_string(), 1);
    let told = diff_at(2, &device(), Some(&earlier), &s, &mut hot, &cfg.temperature);
    assert_eq!(told.len(), 1);
    assert_eq!(told[0].severity, Severity::Warning);
    assert_eq!(told[0].message, "Reallocated_Sector_Ct changed 0 -> 1");
    s.counters.insert("Reallocated_Sector_Ct".to_string(), 2);
    s.stale_fields.insert("Reallocated_Sector_Ct".to_string());
    assert!(diff_at(3, &device(), Some(&earlier), &s, &mut hot, &cfg.temperature).is_empty());
}

#[test]
fn the_present_disks_are_those_that_were_found() {
    let mut state = State::default();
    let mut out = Vec::new();
    let mut cfg = Config::default();
    let mut other = device();
    other.serial = "OTHER".to_string();
    let mut ignored = device();
    ignored.serial = "IGNORED".to_string();
    cfg.devices.ignore_serials = vec!["IGNORED".to_string()];
    let all = vec![device(), other.clone(), ignored.clone()];
    apply_inventory(&mut state, &all, &cfg, 1, &mut out);
    assert_eq!(state.disks.len(), 2);
    assert!(!state.disks.contains_key(&ignored.key()));
    apply_inventory(&mut state, &vec![other.clone()], &cfg, 2, &mut out);
    assert!(!state.disks.get(&device().key()).unwrap().present);
    assert!(state.disks.get(&other.key()).unwrap().present);
    let mut moved = device();
    moved.path = "/dev/sdx".to_string();
    apply_inventory(&mut state, &vec![moved], &cfg, 3, &mut out);
    assert_eq!(out.last().unwrap().event.message, "disk disappeared");
    let entry = state.disks.get(&device().key()).unwrap();
    assert!(entry.present);
    assert_eq!(entry.device.path, "/dev/sdx");
    for i in 0..state.disks.len() {
        assert_eq!(state.disks.value_at(i).device.key(), state.disks.key_at(i));
    }
}

#[test]
fn a_state_that_was_loaded_is_settled() {
    let mut state = State::default();
    let mut d = DiskState::new(device());
    d.device.wwn = " 0x5000 ".to_string();
    d.snapshot = Some(Snapshot {
        wwn: "0:0".to_string(),
        ..Default::default()
    });
    let key = d.device.key();
    state.disks.insert(key.clone(), d);
    state.sanitise();
    let once = format!("{state:?}");
    assert_eq!(state.disks.get(&key).unwrap().device.wwn, "0x5000");
    assert_eq!(state.disks.get(&key).unwrap().device.key(), key);
    state.sanitise();
    assert_eq!(format!("{state:?}"), once);
}

#[test]
fn severities_are_ordered() {
    assert!(Severity::Info < Severity::Warning && Severity::Warning < Severity::Critical);
    for a in [Severity::Info, Severity::Warning, Severity::Critical] {
        for b in [Severity::Info, Severity::Warning, Severity::Critical] {
            assert_eq!(a.worst(b), a.max(b));
        }
    }
}

#[test]
fn a_failed_write_is_tried_again_until_the_end() {
    assert_eq!(after_write(true, false), WriteStep::Wait);
    assert_eq!(after_write(true, true), WriteStep::Wait);
    assert_eq!(after_write(false, false), WriteStep::Retry);
    assert_eq!(after_write(false, true), WriteStep::GiveUp);
}
