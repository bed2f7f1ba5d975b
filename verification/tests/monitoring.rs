use disk_watch::alert::{diff, Event, Severity};
use disk_watch::config::Config;
use disk_watch::devices::{parse as parse_devices, Device, Kind};
use disk_watch::json::Json;
use disk_watch::kernel::{classify, correlate, fresh_match, parse as parse_record, Record};
use disk_watch::monitor::{
    apply_inventory, apply_kernel, apply_result, apply_scan, check_complete, contradicts_history,
    daemon_step, failed_scan, fill_identity, handle_kernel, to_read, DaemonAction, DaemonEvent,
    Notice, Scan,
};
use disk_watch::report::{background_exit, display, status_summary};
use disk_watch::smart::{
    identity_mismatch, parse as parse_smart, Reading, SelfTestStatus, Snapshot,
};
use disk_watch::state::{CheckStatus, DiskState, State};
use disk_watch::strmap::StrMap;

const HDD_OK: &str = r#"{"smartctl":{"version":[7,4],"exit_status":0},"model_name":"WDC WD10EZEX","serial_number":"WD-TEST1","firmware_version":"01.01A01","smart_status":{"passed":true},"temperature":{"current":34},"power_on_time":{"hours":1234},"ata_smart_attributes":{"table":[{"id":5,"name":"Reallocated_Sector_Ct","value":200,"raw":{"value":0,"string":"0"}},{"id":197,"name":"Current_Pending_Sector","value":200,"raw":{"value":0,"string":"0"}}]},"ata_smart_self_test_log":{"standard":{"table":[{"type":{"value":1,"string":"Short offline"},"status":{"value":0,"string":"Completed without error","passed":true},"lifetime_hours":1200}]}}}"#;
const HDD_BAD: &str = r#"{"smartctl":{"version":[7,4],"exit_status":200},"model_name":"WDC WD10EZEX","serial_number":"WD-TEST2","smart_status":{"passed":false},"temperature":{"current":38},"power_on_time":{"hours":20000},"ata_smart_attributes":{"table":[{"id":5,"name":"Reallocated_Sector_Ct","value":190,"raw":{"value":5,"string":"5"}},{"id":197,"name":"Current_Pending_Sector","value":180,"raw":{"value":58,"string":"58"}},{"id":199,"name":"UDMA_CRC_Error_Count","value":200,"raw":{"value":3,"string":"3"}}]},"ata_smart_self_test_log":{"standard":{"table":[{"status":{"value":112,"string":"Completed: read failure"},"lifetime_hours":19000}]}}}"#;
const HDD_UNNAMED: &str = r#"{"smart_status":{"passed":false},"ata_smart_attributes":{"table":[{"id":5,"raw":{"value":5}},{"id":196,"raw":{"value":5}},{"id":197,"raw":{"value":58}},{"id":198,"raw":{"value":10}},{"id":199,"raw":{"value":3}}]}}"#;
const SSD: &str = r#"{"smartctl":{"exit_status":0},"model_name":"Patriot P210 512GB","serial_number":"SSD-TEST1","firmware_version":"FW1","smart_status":{"passed":true},"temperature":{"current":33},"power_on_time":{"hours":500},"ata_smart_attributes":{"table":[{"id":1,"name":"Raw_Read_Error_Rate","value":100,"raw":{"value":0,"string":"0"}},{"id":9,"name":"Power_On_Hours","value":100,"raw":{"value":500,"string":"500"}},{"id":231,"name":"SSD_Life_Left","value":91,"raw":{"value":91,"string":"91"}},{"id":241,"name":"Host_Writes_GiB","value":100,"raw":{"value":1000,"string":"1000"}}]}}"#;
const NVME: &str = r#"{"smartctl":{"exit_status":0},"model_name":"Samsung SSD 970","serial_number":"NVME-TEST1","smart_status":{"passed":true,"nvme":{"value":0}},"nvme_smart_health_information_log":{"critical_warning":0,"temperature":42,"available_spare":100,"available_spare_threshold":10,"percentage_used":7,"power_on_hours":321,"media_errors":2,"num_err_log_entries":0}}"#;
const KERNEL_LOG: &str = r#"{"__CURSOR":"c1","MESSAGE":"ata2.00: exception Emask 0x0 SAct 0x1 SErr 0x0 action 0x6 frozen: timeout"}
{"__CURSOR":"c2","MESSAGE":"ata2.00: failed command: READ FPDMA QUEUED"}
{"__CURSOR":"c3","MESSAGE":"ata2.00: error: { UNC }"}
{"__CURSOR":"c4","MESSAGE":"ata2: hard resetting link"}
{"__CURSOR":"c5","MESSAGE":"ata2: link is slow to respond, please be patient (ready=0)"}
{"__CURSOR":"c6","MESSAGE":"ata2: COMRESET failed (errno=-16)"}
{"__CURSOR":"c7","MESSAGE":"I/O error, dev sdb, sector 123456 op 0x0:(READ)"}
{"__CURSOR":"c8","MESSAGE":"Buffer I/O error on dev sdb1, logical block 5, lost async page write"}
{"__CURSOR":"c9","MESSAGE":"EXT4-fs error (device sdb1): ext4_find_entry:1455: inode #2: comm ls"}
{"__CURSOR":"c10","MESSAGE":"EXT4-fs (sdb1): Remounting filesystem read-only"}
{"__CURSOR":"c11","MESSAGE":"JBD2: Detected aborted journal on sdb1"}
{"__CURSOR":"c12","MESSAGE":"nvme nvme0: controller is down; will reset: CSTS=0x3"}"#;

fn device() -> Device {
    Device {
        path: "/dev/sdb".to_string(),
        model: "Test".to_string(),
        serial: "SERIAL".to_string(),
        wwn: "".to_string(),
        kind: Kind::Hdd,
        aliases: names(&["sdb", "sdb1", "ata2"]),
        diskseq: None,
        discovered_at: 0,
        wd_usb: false,
    }
}

fn names(list: &[&str]) -> Vec<String> {
    list.iter().map(|s| s.to_string()).collect()
}

fn smart(text: &str, code: i32) -> Snapshot {
    parse_smart(text.as_bytes(), code).unwrap()
}

fn record(line: &str) -> Record {
    parse_record(line).unwrap()
}

fn message(text: &str) -> Record {
    record(&format!(
        "{{\"MESSAGE\":{}}}",
        serde_json::Value::String(text.to_string())
    ))
}

fn checked(s: Snapshot) -> Result<Reading, String> {
    Ok(Reading::Checked(Box::new(s)))
}

fn result(
    state: &mut State,
    d: &Device,
    r: Result<Reading, String>,
    cfg: &Config,
    out: &mut Vec<Notice>,
) -> bool {
    apply_result(state, d.clone(), r, cfg, None, 1000, out)
}

fn scan(state: &mut State, s: Scan, topology: &mut Vec<Device>) {
    let mut out = Vec::new();
    apply_scan(
        state,
        s,
        topology,
        &Config::default(),
        None,
        None,
        1000,
        &mut out,
    );
}

fn disk<'a>(state: &'a State, d: &Device) -> &'a DiskState {
    state.disks.get(&d.key()).unwrap()
}

fn snapshot_of<'a>(state: &'a State, d: &Device) -> &'a Snapshot {
    disk(state, d).snapshot.as_ref().unwrap()
}

fn last(state: &State) -> &Event {
    state.recent_alerts.last().unwrap()
}

fn counters(list: &[(&str, u64)]) -> StrMap<u64> {
    let mut map = StrMap::new();
    for (name, value) in list {
        map.insert(name.to_string(), *value);
    }
    map
}

fn text_of(counters: &StrMap<u64>) -> String {
    format!("{counters:?}")
}

fn changes(old: Option<&Snapshot>, new: &Snapshot, hot: &mut bool) -> Vec<Event> {
    diff(&device(), old, new, hot, &Config::default().temperature)
}

#[test]
fn parse_all_smart_fixtures() {
    let good = smart(HDD_OK, 0);
    assert_eq!(good.temperature, Some(34));
    assert_eq!(good.power_on_hours, Some(1234));
    assert_eq!(good.serial, "WD-TEST1");
    assert_eq!(good.self_test_status, Some(SelfTestStatus::Passed));
    let bad = smart(HDD_BAD, 200);
    assert_eq!(bad.counters.get("Current_Pending_Sector"), Some(&58));
    assert_eq!(bad.passed, Some(false));
    assert_eq!(bad.self_test_status, Some(SelfTestStatus::Failed));
    let ssd = smart(SSD, 0);
    assert_eq!(ssd.remaining_life, Some(91));
    assert!(ssd.counters.is_empty());
    assert_eq!(ssd.unknown_attributes.len(), 4);
    let nvme = smart(NVME, 0);
    assert_eq!(nvme.counters.get("media_errors"), Some(&2));
    assert_eq!(nvme.percentage_used, Some(7));
    assert_eq!(nvme.available_spare, Some(100));
    assert_eq!(nvme.temperature, Some(42));
}

#[test]
fn smart_exit_bits_are_not_normal_exit_codes() {
    assert!(parse_smart(HDD_BAD.as_bytes(), 200).is_ok());
    for bit in [1, 2, 4] {
        let partial = smart(HDD_OK, bit);
        assert!(partial.issue.is_some());
        assert!(partial.passed.is_none());
    }
    assert!(parse_smart(b"{}", 0).is_err());
    assert!(parse_smart(b"garbage", 0).is_err());
}

#[test]
fn changes_suppress_duplicates_and_report_recovery() {
    let a = smart(HDD_OK, 0);
    let b = smart(HDD_BAD, 200);
    let mut hot = false;
    let events = changes(Some(&a), &b, &mut hot);
    let pending: Vec<&Event> = events
        .iter()
        .filter(|e| e.category == "Current_Pending_Sector")
        .collect();
    assert_eq!(pending.len(), 1);
    assert_eq!(pending[0].severity, Severity::Critical);
    assert!(pending[0].message.contains("0 -> 58"));
    assert!(changes(Some(&b), &b, &mut hot).is_empty());
    let events = changes(Some(&b), &a, &mut hot);
    assert!(events
        .iter()
        .any(|e| e.category == "overall_health" && e.severity == Severity::Info));
    let first = changes(None, &b, &mut hot);
    assert!(first.iter().any(|e| e.category == "Current_Pending_Sector"));
}

#[test]
fn rising_nonzero_counter_and_nvme_media_errors() {
    let a = smart(HDD_BAD, 200);
    let mut b = a.clone();
    b.counters.insert("Reallocated_Sector_Ct".to_string(), 7);
    let e = changes(Some(&a), &b, &mut false);
    assert_eq!(e.len(), 1);
    assert_eq!(e[0].severity, Severity::Warning);
    let a = smart(NVME, 0);
    let mut b = a.clone();
    b.counters.insert("media_errors".to_string(), 3);
    let e = changes(Some(&a), &b, &mut false);
    assert_eq!(e.len(), 1);
    assert_eq!(e[0].severity, Severity::Critical);
}

#[test]
fn temperature_hysteresis() {
    let mut d = device();
    d.kind = Kind::Ssd;
    let mut snap = smart(SSD, 0);
    let mut hot = false;
    for (temperature, count, expected_hot) in [
        (39, 0, false),
        (40, 0, false),
        (60, 1, true),
        (61, 0, true),
        (56, 0, true),
        (55, 1, false),
        (59, 0, false),
        (60, 1, true),
    ] {
        let old = snap.clone();
        snap.temperature = Some(temperature);
        let e = diff(
            &d,
            Some(&old),
            &snap,
            &mut hot,
            &Config::default().temperature,
        );
        assert_eq!(e.len(), count);
        assert_eq!(hot, expected_hot);
    }
}

#[test]
fn kernel_classification_and_correlation() {
    let devices = vec![device()];
    for line in KERNEL_LOG.lines() {
        let r = record(line);
        assert!(classify(&r.message).is_some(), "{}", r.message);
        if !r.message.contains("nvme") {
            assert_eq!(correlate(&r.message, &devices).unwrap().serial, "SERIAL");
        }
    }
    for m in [
        "usb 1-2: timeout",
        "network connection timeout",
        "function loaded",
        "sdb: device ready",
    ] {
        assert!(classify(m).is_none(), "{m}");
    }
    for m in [
        "ata2: COMRESET failed",
        "EXT4-fs error (device sdb1)",
        "blk_update_request: I/O error",
        "nvme nvme0: resetting controller",
    ] {
        assert_eq!(classify(m).unwrap().0, Severity::Critical);
    }
    assert!(correlate("I/O error, dev sdbb", &devices).is_none());
    assert!(correlate("ata2: timeout", &vec![device(), device()]).is_none());
}

#[test]
fn kernel_passed_smart_is_still_critical_and_suppressed() {
    let mut state = State::default();
    let mut d = device();
    d.serial = "SSD-TEST1".to_string();
    let cfg = Config::default();
    let mut out = Vec::new();
    result(&mut state, &d, checked(smart(SSD, 0)), &cfg, &mut out);
    let devices = vec![d.clone()];
    for line in KERNEL_LOG.lines() {
        let r = record(line);
        let matched = correlate(&r.message, &devices);
        apply_kernel(&mut state, r, matched, &cfg, 1000, &mut out);
    }
    assert_eq!(disk(&state, &d).severity(), Severity::Critical);
    result(&mut state, &d, checked(smart(SSD, 0)), &cfg, &mut out);
    assert_eq!(disk(&state, &d).severity(), Severity::Critical);
    let mut later = Vec::new();
    apply_kernel(
        &mut state,
        record(r#"{"MESSAGE":"I/O error, dev sdb"}"#),
        Some(&d),
        &cfg,
        1000,
        &mut later,
    );
    assert!(later.iter().all(|n| !n.send));
    assert_eq!(last(&state).message, "I/O error, dev sdb");
}

#[test]
fn disk_failure_does_not_prevent_other_checks() {
    let mut state = State::default();
    let mut out = Vec::new();
    let cfg = Config::default();
    let d = device();
    let mut other = d.clone();
    other.serial = "OTHER".to_string();
    other.path = "/dev/sdc".to_string();
    result(&mut state, &d, Err("read failed".to_string()), &cfg, &mut out);
    let mut snap = smart(HDD_OK, 0);
    snap.serial = other.serial.clone();
    result(&mut state, &other, checked(snap), &cfg, &mut out);
    assert!(disk(&state, &d).smart_error.is_some());
    assert!(disk(&state, &other).snapshot.is_some());
}

#[test]
fn later_successful_self_test_is_reported() {
    let mut before = smart(HDD_OK, 0);
    before.self_test_hours = Some(100);
    let mut after = before.clone();
    after.self_test_hours = Some(200);
    let events = changes(Some(&before), &after, &mut false);
    assert_eq!(events.len(), 1);
    assert_eq!(events[0].severity, Severity::Info);
    assert_eq!(events[0].category, "self_test");
}

#[test]
fn partial_smart_failure_keeps_critical_exit_evidence() {
    let snapshot = smart(
        r#"{"smartctl":{"exit_status":12},"smart_status":{"passed":false}}"#,
        12,
    );
    assert!(snapshot.exit.incomplete);
    assert!(snapshot.issue.is_some());
    assert_eq!(snapshot.passed, Some(false));
    let events = changes(None, &snapshot, &mut false);
    assert!(events
        .iter()
        .any(|e| e.category == "overall_health" && e.severity == Severity::Critical));
    assert_eq!(parse_smart(b"{", 12).unwrap().passed, Some(false));
    let history = smart(r#"{"smart_status":{"passed":true}}"#, 224);
    assert!(history.exit.past_threshold && history.exit.error_log && history.exit.self_test_log);
    assert_eq!(history.passed, Some(true));
}

#[test]
fn failed_command_requires_storage_context() {
    assert!(classify("wifi: failed command: SET_CHANNEL").is_none());
    assert_eq!(
        classify("ata2.00: failed command: WRITE FPDMA QUEUED"),
        Some((Severity::Warning, "failed_command"))
    );
}

#[test]
fn smart_identity_race_preserves_old_data() {
    let d = device();
    let mut state = State::default();
    let cfg = Config::default();
    let mut out = Vec::new();
    let mut old = smart(HDD_OK, 0);
    old.serial = d.serial.clone();
    result(&mut state, &d, checked(old), &cfg, &mut out);
    let time = disk(&state, &d).checked_at;
    let mut replacement = smart(HDD_BAD, 200);
    replacement.serial = "NEW".to_string();
    assert!(result(&mut state, &d, checked(replacement), &cfg, &mut out));
    let entry = disk(&state, &d);
    assert_eq!(entry.snapshot.as_ref().unwrap().serial, d.serial);
    assert_eq!(entry.checked_at, time);
    assert_eq!(entry.check_status, CheckStatus::StaleRace);
    assert_eq!(entry.health(), "Unknown");
    assert!(!state
        .recent_alerts
        .iter()
        .any(|e| e.category == "Current_Pending_Sector"));
    assert_eq!(last(&state).category, "identity_race");
}

#[test]
fn missing_field_is_stale_not_recovery_or_duplicate() {
    let mut before = smart(NVME, 0);
    before.critical_warning = Some(1);
    let mut absent = smart(r#"{"smart_status":{"passed":true}}"#, 0);
    absent.retain_missing(&before);
    assert_eq!(absent.critical_warning, Some(1));
    assert!(absent.stale_fields.contains("critical_warning"));
    assert!(absent.stale_fields.contains("media_errors"));
    assert!(changes(Some(&before), &absent, &mut false).is_empty());
    let mut entry = DiskState::new(device());
    entry.snapshot = Some(absent.clone());
    entry.check_status = CheckStatus::Checked;
    assert_eq!(entry.health(), "Unknown");
    assert!(changes(Some(&absent), &before, &mut false).is_empty());
}

#[test]
fn vendor_names_and_packed_raw_are_not_invented_health_signals() {
    let s = smart(
        r#"{"smart_status":{"passed":true},"ata_smart_attributes":{"table":[{"id":197,"name":"Not_In_Use","raw":{"value":1}},{"id":188,"name":"Command_Timeout","raw":{"value":4295032833,"string":"1 1 1"}}]}}"#,
        0,
    );
    assert!(s.counters.is_empty());
    assert_eq!(s.unknown_attributes.len(), 2);
    assert!(changes(None, &s, &mut false).is_empty());
    let original = smart(HDD_UNNAMED, 200);
    assert!(original.counters.is_empty());
    assert_eq!(original.unknown_attributes.len(), 5);
    let scalar = smart(
        r#"{"smart_status":{"passed":true},"ata_smart_attributes":{"table":[{"id":188,"name":"Command_Timeout","raw":{"value":5,"string":"5"}}]}}"#,
        0,
    );
    assert_eq!(scalar.counters.get("Command_Timeout"), Some(&5));
}

#[test]
fn sleeping_preserves_measurements_and_success_time() {
    let d = device();
    let cfg = Config::default();
    let mut snapshot = smart(HDD_OK, 0);
    snapshot.serial = d.serial.clone();
    let mut out = Vec::new();
    let mut state = State::default();
    result(&mut state, &d, checked(snapshot), &cfg, &mut out);
    let time = disk(&state, &d).checked_at;
    let alerts = state.recent_alerts.len();
    result(&mut state, &d, Ok(Reading::Sleeping), &cfg, &mut out);
    let entry = disk(&state, &d);
    assert_eq!(entry.check_status, CheckStatus::Sleeping);
    assert_eq!(entry.checked_at, time);
    assert_eq!(entry.snapshot.as_ref().unwrap().temperature, Some(34));
    assert_eq!(entry.health(), "Unknown");
    assert_eq!(entry.severity(), Severity::Info);
    assert_eq!(state.recent_alerts.len(), alerts);
}

#[test]
fn aborted_and_in_progress_tests_are_not_passed() {
    let good = smart(HDD_OK, 0);
    for (value, expected) in [
        (16, SelfTestStatus::Aborted),
        (32, SelfTestStatus::Aborted),
        (240, SelfTestStatus::InProgress),
    ] {
        let text = HDD_OK.replace(
            r#"{"value":0,"string":"Completed without error","passed":true}"#,
            &format!("{{\"value\":{value},\"string\":\"Not completed\"}}"),
        );
        let s = smart(&text, 0);
        assert_eq!(s.self_test_status, Some(expected));
        assert!(changes(Some(&good), &s, &mut false)
            .iter()
            .all(|e| !e.message.contains("successfully")
                && !e.message.contains("returned to normal")));
    }
}

#[test]
fn exact_device_beats_ambiguous_ata_port() {
    let first = device();
    let mut second = first.clone();
    second.serial = "SECOND".to_string();
    second.aliases = names(&["sdc", "ata2"]);
    let devices = vec![first, second];
    assert!(correlate("ata2.00: timeout", &devices).is_none());
    assert_eq!(
        correlate("ata2: I/O error, dev sdb", &devices).unwrap().serial,
        "SERIAL"
    );
    assert!(correlate("ata2: I/O error, dev sdz", &devices).is_none());
    let r = record(
        r#"{"_BOOT_ID":"boot","__REALTIME_TIMESTAMP":"1000000","MESSAGE":"ata2.00: timeout"}"#,
    );
    assert!(fresh_match(&r, &devices, Some("boot"), None).is_none());
}

#[test]
fn smart_identity_enrichment_migrates_instead_of_forking_state() {
    let mut d = device();
    d.serial.clear();
    d.model.clear();
    let mut state = State::default();
    let mut topology = vec![];
    scan(&mut state, Scan::Inventory(vec![d.clone()]), &mut topology);
    scan(
        &mut state,
        Scan::Disk(d.clone(), checked(smart(HDD_OK, 0))),
        &mut topology,
    );
    assert_eq!(state.disks.len(), 1);
    assert_eq!(topology[0].serial, "WD-TEST1");
    let entry = state.disks.value_at(0);
    assert!(entry.present);
    assert!(entry.snapshot.is_some());
    assert!(!state.disks.contains_key(&d.key()));
    let verified = topology[0].clone();
    let mut different = smart(HDD_OK, 0);
    different.serial = "REPLACED".to_string();
    scan(
        &mut state,
        Scan::Disk(verified, checked(different)),
        &mut topology,
    );
    assert_eq!(state.disks.len(), 1);
    assert_eq!(
        state.disks.value_at(0).check_status,
        CheckStatus::StaleRace
    );
}

#[test]
fn journal_boot_and_monotonic_order_survive_realtime_rollback() {
    let mut state = State::default();
    state.prepare_boot(Some("boot".to_string()));
    let a = record(
        r#"{"__CURSOR":"a","_BOOT_ID":"boot","__MONOTONIC_TIMESTAMP":"100","__REALTIME_TIMESTAMP":"9000000","MESSAGE":"I/O error"}"#,
    );
    let b = record(
        r#"{"__CURSOR":"b","_BOOT_ID":"boot","__MONOTONIC_TIMESTAMP":"101","__REALTIME_TIMESTAMP":"1000000","MESSAGE":"I/O error"}"#,
    );
    assert!(state.accept_kernel(&a));
    assert!(state.accept_kernel(&b));
    assert!(!state.accept_kernel(&a));
    state.prepare_boot(Some("newboot".to_string()));
    assert!(state.kernel_cursor.is_none());
    assert!(state.kernel_watermark.is_none());
    assert!(!state.accept_kernel(&a));
}

#[test]
fn explicit_dev_uses_current_discovery_before_ata_freshness() {
    let mut d = device();
    d.discovered_at = 200;
    let mut other = d.clone();
    other.serial = "OTHER".to_string();
    other.path = "/dev/sdc".to_string();
    other.aliases = names(&["sdc", "ata2"]);
    let devices = vec![d, other];
    let mut state = State::default();
    state.prepare_boot(Some("boot".to_string()));
    let mut out = Vec::new();
    for (index, text) in [
        "I/O error, dev sdb, sector 1",
        "ata2: I/O error, dev /dev/sdb",
        "Buffer I/O error on dev sdb1",
    ]
    .into_iter()
    .enumerate()
    {
        let line = format!(
            "{{\"__CURSOR\":\"direct-{index}\",\"_BOOT_ID\":\"boot\",\"__REALTIME_TIMESTAMP\":\"1000000\",\"MESSAGE\":\"{text}\"}}"
        );
        let r = record(&line);
        assert_eq!(
            fresh_match(&r, &devices, Some("boot"), None).unwrap().serial,
            "SERIAL"
        );
        handle_kernel(
            &mut state,
            r,
            &devices,
            &Config::default(),
            None,
            1000,
            &mut out,
        );
        assert_eq!(last(&state).disk.as_ref().unwrap().serial, "SERIAL");
    }
    assert_eq!(
        disk(&state, &devices[0]).kernel_severity,
        Some(Severity::Critical)
    );
    for text in [
        "ata2: I/O error, dev sdz",
        "I/O error, dev sdbb",
        "I/O error, dev sdb and dev sdc",
        "ata2.00: timeout",
    ] {
        let r = message(text);
        assert!(
            fresh_match(&r, &devices, Some("boot"), None).is_none(),
            "{text}"
        );
    }
    let r = record(r#"{"MESSAGE":"I/O error, dev sdb"}"#);
    assert!(fresh_match(&r, &vec![], Some("boot"), None).is_none());
}

fn merge_test_disks() -> (Device, Snapshot, Device, Snapshot) {
    let a = Device {
        path: "/dev/sde".to_string(),
        model: "WDC WD30PURX".to_string(),
        serial: "WC3K2013DDMM".to_string(),
        wwn: "50014ee200000001".to_string(),
        ..device()
    };
    let b = Device {
        path: "/dev/sdf".to_string(),
        model: "Patriot Burst".to_string(),
        serial: "1B0607890D0804289031".to_string(),
        kind: Kind::Ssd,
        ..device()
    };
    let bad = Snapshot {
        model: a.model.clone(),
        serial: a.serial.clone(),
        wwn: a.wwn.clone(),
        counters: counters(&[
            ("Current_Pending_Sector", 58),
            ("Offline_Uncorrectable", 10),
            ("Reallocated_Sector_Ct", 15),
            ("UDMA_CRC_Error_Count", 6779),
        ]),
        temperature: Some(52),
        power_on_hours: Some(10000),
        passed: Some(false),
        ..Default::default()
    };
    let absent = Snapshot {
        model: b.model.clone(),
        serial: b.serial.clone(),
        passed: Some(true),
        ..Default::default()
    };
    (a, bad, b, absent)
}

#[test]
fn state_merge_isolated_with_reordered_disks_and_reused_paths() {
    for use_wwn in [false, true] {
        let (mut a, mut bad, mut b, absent) = merge_test_disks();
        if !use_wwn {
            a.wwn.clear();
            bad.wwn.clear();
        }
        let mut state = State::default();
        let mut topology = vec![];
        for reverse in [false, true] {
            let mut found = vec![a.clone(), b.clone()];
            if reverse {
                std::mem::swap(&mut a.path, &mut b.path);
                found = vec![b.clone(), a.clone()];
            }
            scan(&mut state, Scan::Inventory(found), &mut topology);
            let mut results = vec![(a.clone(), bad.clone()), (b.clone(), absent.clone())];
            if reverse {
                results.reverse();
            }
            for (d, s) in results {
                scan(&mut state, Scan::Disk(d, checked(s)), &mut topology);
            }
            let b_state = snapshot_of(&state, &b);
            assert!(b_state.counters.is_empty());
            assert!(b_state.stale_fields.is_empty());
            assert_eq!(b_state.temperature, None);
            assert_eq!(b_state.power_on_hours, None);
            assert_eq!(
                text_of(&snapshot_of(&state, &a).counters),
                text_of(&bad.counters)
            );
        }
        let mut missing = bad.clone();
        missing.counters = StrMap::new();
        scan(
            &mut state,
            Scan::Disk(a.clone(), checked(missing)),
            &mut topology,
        );
        let retained = snapshot_of(&state, &a);
        assert_eq!(text_of(&retained.counters), text_of(&bad.counters));
        assert!(retained.stale_fields.contains("Current_Pending_Sector"));
    }
}

#[test]
fn inventory_never_borrows_wwn_from_path_or_serial_alone() {
    for same_serial in [false, true] {
        let (mut a, bad, mut b, _) = merge_test_disks();
        a.diskseq = Some(42);
        if same_serial {
            b.serial = a.serial.clone();
        } else {
            b.path = a.path.clone();
            b.diskseq = a.diskseq;
        }
        let mut state = State::default();
        let mut old = DiskState::new(a.clone());
        old.snapshot = Some(bad);
        state.disks.insert(a.key(), old);
        let mut topology = vec![];
        scan(&mut state, Scan::Inventory(vec![b.clone()]), &mut topology);
        assert_eq!(topology[0].key(), b.key());
        assert!(disk(&state, &b).snapshot.is_none());
        assert_eq!(disk(&state, &a).device.serial, a.serial);
    }
}

#[test]
fn state_merge_never_uses_cached_identity_of_another_disk_at_same_path() {
    let (a, bad, mut b, absent) = merge_test_disks();
    b.path = a.path.clone();
    let mut state = State::default();
    let mut old = DiskState::new(a.clone());
    old.snapshot = Some(bad.clone());
    state.disks.insert(a.key(), old);
    let mut topology = vec![a.clone()];
    scan(
        &mut state,
        Scan::Disk(b.clone(), checked(absent)),
        &mut topology,
    );
    let current = (0..state.disks.len())
        .map(|i| state.disks.value_at(i))
        .find(|d| d.device.serial == b.serial)
        .unwrap();
    assert!(current.snapshot.as_ref().unwrap().counters.is_empty());
    assert!(current.snapshot.as_ref().unwrap().stale_fields.is_empty());
    assert_eq!(current.device.key(), b.key());
    assert_eq!(
        text_of(&snapshot_of(&state, &a).counters),
        text_of(&bad.counters)
    );
    assert_eq!(topology[0].serial, a.serial);
}

#[test]
fn state_merge_rejects_snapshot_with_another_identity() {
    let (_, bad, b, absent) = merge_test_disks();
    let mut state = State::default();
    let mut old = DiskState::new(b.clone());
    old.snapshot = Some(bad);
    old.hot = true;
    state.disks.insert(b.key(), old);
    let mut out = Vec::new();
    result(
        &mut state,
        &b,
        checked(absent),
        &Config::default(),
        &mut out,
    );
    let current = disk(&state, &b);
    let snapshot = current.snapshot.as_ref().unwrap();
    assert!(snapshot.counters.is_empty());
    assert!(snapshot.stale_fields.is_empty());
    assert_eq!(snapshot.temperature, None);
    assert!(!current.hot);
    assert!(!state
        .recent_alerts
        .iter()
        .any(|e| e.category == "Current_Pending_Sector"));
}

#[test]
fn state_merge_does_not_migrate_path_history_into_stable_identity() {
    let (_, bad, b, absent) = merge_test_disks();
    let mut unknown = b.clone();
    unknown.model.clear();
    unknown.serial.clear();
    let mut state = State::default();
    let mut old = DiskState::new(unknown.clone());
    old.snapshot = Some(bad);
    state.disks.insert(unknown.key(), old);
    let mut topology = vec![unknown.clone()];
    scan(
        &mut state,
        Scan::Disk(unknown, checked(absent)),
        &mut topology,
    );
    let snapshot = snapshot_of(&state, &b);
    assert!(snapshot.counters.is_empty());
    assert!(snapshot.stale_fields.is_empty());
}

#[test]
fn state_merge_preserves_own_history_when_wwn_is_learned() {
    let (mut a, bad, _, _) = merge_test_disks();
    a.wwn.clear();
    let old_key = a.key();
    let mut state = State::default();
    let mut old = DiskState::new(a.clone());
    let mut previous = bad.clone();
    previous.wwn.clear();
    old.snapshot = Some(previous);
    state.disks.insert(old_key.clone(), old);
    let mut topology = vec![a.clone()];
    let mut missing = bad.clone();
    missing.counters = StrMap::new();
    scan(
        &mut state,
        Scan::Disk(a.clone(), checked(missing)),
        &mut topology,
    );
    assert_eq!(state.disks.len(), 1);
    assert!(!state.disks.contains_key(&old_key));
    let key = topology[0].key();
    let retained = state.disks.get(&key).unwrap().snapshot.as_ref().unwrap();
    assert_eq!(text_of(&retained.counters), text_of(&bad.counters));
    assert!(retained.stale_fields.contains("Current_Pending_Sector"));
    a.path = "/dev/sdz".to_string();
    scan(&mut state, Scan::Inventory(vec![a]), &mut topology);
    assert_eq!(topology[0].key(), key);
    assert_eq!(state.disks.len(), 1);
    assert_eq!(state.disks.get(&key).unwrap().device.path, "/dev/sdz");
}

#[test]
fn kernel_history_stays_with_its_disk_after_a_path_swap() {
    for zero_in_discovery in [false, true] {
        let (mut a, _, mut b, _) = merge_test_disks();
        a.wwn = if zero_in_discovery {
            "0000000000000000".to_string()
        } else {
            "".to_string()
        };
        b.wwn = a.wwn.clone();
        a.aliases = names(&["sde", "ata2"]);
        b.aliases = names(&["sdf", "ata2"]);
        let mut state = State::default();
        let mut topology = vec![];
        let cfg = Config::default();
        let mut out = Vec::new();
        scan(
            &mut state,
            Scan::Inventory(vec![a.clone(), b.clone()]),
            &mut topology,
        );
        for d in [&a, &b] {
            let text = format!(
                "{{\"model_name\":\"{}\",\"serial_number\":\"{}\",\"wwn\":{{\"naa\":0,\"oui\":0,\"id\":0}},\"smart_status\":{{\"passed\":true}}}}",
                d.model, d.serial
            );
            scan(
                &mut state,
                Scan::Disk(d.clone(), checked(smart(&text, 0))),
                &mut topology,
            );
        }
        handle_kernel(
            &mut state,
            record(r#"{"MESSAGE":"I/O error, dev sde"}"#),
            &topology,
            &cfg,
            None,
            1000,
            &mut out,
        );
        assert_eq!(last(&state).disk.as_ref().unwrap().serial, a.serial);
        let patriot = disk(&state, &b);
        assert_eq!(patriot.health(), "OK");
        assert_eq!(patriot.kernel_severity, None);
        assert_eq!(patriot.kernel_last_message, None);
        assert_eq!(patriot.kernel_last_seen, None);
        assert_eq!(state.disks.len(), 2);
        assert_eq!(disk(&state, &a).health(), "Critical");
        assert_eq!(
            disk(&state, &a).kernel_last_message.as_deref(),
            Some("I/O error, dev sde")
        );
        assert!(!state.disks.contains_key("wwn:0000000000000000"));
        state.sanitise();
        std::mem::swap(&mut a.path, &mut b.path);
        std::mem::swap(&mut a.aliases, &mut b.aliases);
        scan(
            &mut state,
            Scan::Inventory(vec![b.clone(), a.clone()]),
            &mut topology,
        );
        assert_eq!(disk(&state, &a).health(), "Critical");
        assert_eq!(disk(&state, &b).health(), "OK");
        assert_eq!(disk(&state, &b).kernel_last_message, None);
    }
}

#[test]
fn uncorrelated_kernel_evidence_does_not_change_any_disk() {
    let (mut a, _, mut b, _) = merge_test_disks();
    a.aliases = names(&["sde", "ata2"]);
    b.aliases = names(&["sdf", "ata2"]);
    let topology = vec![a, b];
    let mut state = State::default();
    let cfg = Config::default();
    let mut out = Vec::new();
    apply_inventory(&mut state, &topology, &cfg, 1000, &mut out);
    let before = format!("{:?}", state.disks);
    for text in [
        "I/O error",
        "I/O error, dev sdz",
        "ata2: I/O error, dev sdz",
        "I/O error, dev sde and dev sdf",
        "ata2: hard resetting link",
    ] {
        handle_kernel(
            &mut state,
            message(text),
            &topology,
            &cfg,
            None,
            1000,
            &mut out,
        );
        assert!(last(&state).disk.is_none(), "{text}");
        assert_eq!(format!("{:?}", state.disks), before, "{text}");
    }
}

#[test]
fn kernel_handler_keeps_the_identity_selected_by_direct_path_match() {
    let (mut a, _, mut b, _) = merge_test_disks();
    a.aliases.clear();
    b.aliases.clear();
    let topology = vec![a.clone(), b.clone()];
    let mut state = State::default();
    let cfg = Config::default();
    let mut out = Vec::new();
    apply_inventory(&mut state, &topology, &cfg, 1000, &mut out);
    let r = record(r#"{"MESSAGE":"I/O error, dev sde"}"#);
    assert_eq!(
        fresh_match(&r, &topology, None, None).unwrap().serial,
        a.serial
    );
    handle_kernel(&mut state, r, &topology, &cfg, None, 1000, &mut out);
    assert_eq!(disk(&state, &a).kernel_severity, Some(Severity::Critical));
    assert_eq!(disk(&state, &b).kernel_severity, None);
    assert_eq!(last(&state).disk.as_ref().unwrap().key(), a.key());
}

#[test]
fn zero_wwn_is_absent_in_discovery_smart_and_identity() {
    for wwn in [
        "0000000000000000",
        "0x0000000000000000",
        "0X0000000000000000",
        "00:00:00:00:00:00:00:00",
        " 0000 0000 0000 0000 ",
    ] {
        let text = format!(
            "{{\"blockdevices\":[{{\"name\":\"/dev/sdf\",\"type\":\"disk\",\"model\":\"Patriot Burst\",\"serial\":\"1B0607890D0804289031\",\"wwn\":\"{wwn}\"}}]}}"
        );
        let parsed = parse_devices(text.as_bytes()).unwrap();
        assert!(parsed[0].wwn.is_empty(), "{wwn}");
        let mut d = parsed[0].clone();
        let key = d.key();
        d.wwn = wwn.to_string();
        assert_eq!(d.key(), key);
        assert!(d.same_identity(&parsed[0]));
        let snapshot = smart(
            &format!("{{\"logical_unit_id\":\"{wwn}\",\"smart_status\":{{\"passed\":true}}}}"),
            0,
        );
        assert!(snapshot.wwn.is_empty(), "{wwn}");
        let mut known = snapshot.clone();
        known.wwn = "50014ee200000001".to_string();
        assert!(identity_mismatch(&d, &known).is_none());
        fill_identity(&mut d, "", "", &known.wwn);
        assert_eq!(d.wwn, known.wwn);
        let mut unknown = device();
        unknown.serial.clear();
        unknown.wwn = wwn.to_string();
        assert_eq!(unknown.key(), "path:/dev/sdb");
        assert!(!unknown.same_identity(&unknown));
    }
    let zero = smart(
        r#"{"wwn":{"naa":0,"oui":0,"id":0},"smart_status":{"passed":true}}"#,
        0,
    );
    assert!(zero.wwn.is_empty());
    let valid = smart(
        r#"{"wwn":{"naa":5,"oui":0,"id":1},"smart_status":{"passed":true}}"#,
        0,
    );
    assert_eq!(valid.wwn, "5000000000000001");
}

#[test]
fn bracket_kernel_correlation_uses_only_current_discovery() {
    let (mut a, _, mut b, _) = merge_test_disks();
    a.aliases = names(&["sde", "ata5"]);
    b.aliases = names(&["sdf"]);
    let cfg = Config::default();
    let mut out = Vec::new();
    for (text, expected) in [
        ("I/O error, dev sde, sector 123", Some(&a)),
        (
            "sd 4:0:0:0: [sde] tag#10 Sense Key : Medium Error",
            Some(&a),
        ),
        (
            "sd 4:0:0:0: [sde] Add. Sense: Unrecovered read error",
            Some(&a),
        ),
        ("I/O error, dev sdf [sde]", Some(&b)),
        ("I/O error, dev sdz [sde]", None),
        ("sd 4:0:0:0: [sdz] Sense Key : Medium Error", None),
        ("ata5.00: [sdz] error: { UNC }", None),
        ("ata5.00: error: { UNC }", None),
        ("I/O error [sde] [sdf]", None),
        ("I/O error [sde] [sdz]", None),
    ] {
        let topology = vec![a.clone(), b.clone()];
        let mut state = State::default();
        apply_inventory(&mut state, &topology, &cfg, 1000, &mut out);
        let before = state.clone();
        handle_kernel(
            &mut state,
            message(text),
            &topology,
            &cfg,
            None,
            1000,
            &mut out,
        );
        let event = last(&state);
        assert_eq!(event.message, text);
        assert_eq!(event.severity, Severity::Critical);
        assert_eq!(
            event.disk.as_ref().map(Device::key),
            expected.map(Device::key),
            "{text}"
        );
        if let Some(d) = expected {
            assert_eq!(event.disk.as_ref().unwrap().path, d.path);
            assert_eq!(disk(&state, d).health(), "Critical");
            let other = if d.key() == a.key() { &b } else { &a };
            assert_eq!(
                format!("{:?}", disk(&state, other)),
                format!("{:?}", disk(&before, other))
            );
        } else {
            assert_eq!(
                format!("{:?}", state.disks),
                format!("{:?}", before.disks)
            );
        }
    }
    let mut state = State::default();
    apply_inventory(
        &mut state,
        &vec![a.clone(), b.clone()],
        &cfg,
        1000,
        &mut out,
    );
    apply_inventory(&mut state, &vec![b.clone()], &cfg, 1000, &mut out);
    let before = format!("{:?}", state.disks);
    handle_kernel(
        &mut state,
        record(r#"{"MESSAGE":"sd 4:0:0:0: [sde] Sense Key : Medium Error"}"#),
        &vec![b],
        &cfg,
        None,
        1000,
        &mut out,
    );
    assert!(last(&state).disk.is_none());
    assert_eq!(format!("{:?}", state.disks), before);
}

#[test]
fn bracket_nvme_namespace_uses_current_discovery_alias() {
    let mut d = device();
    d.kind = Kind::Nvme;
    d.path = "/dev/nvme0".to_string();
    d.aliases = names(&["nvme0", "nvme0n1"]);
    let mut state = State::default();
    let mut out = Vec::new();
    handle_kernel(
        &mut state,
        record(r#"{"MESSAGE":"[nvme0n1] I/O error"}"#),
        &vec![d.clone()],
        &Config::default(),
        None,
        1000,
        &mut out,
    );
    assert_eq!(
        last(&state).disk.as_ref().map(Device::key),
        Some(d.key())
    );
    assert_eq!(disk(&state, &d).health(), "Critical");
}

fn summary_ok_disks(count: usize) -> State {
    let mut state = State::default();
    for index in 0..count {
        let mut d = device();
        d.serial = format!("DISK-{index}");
        d.model = format!("Disk-{index}");
        d.path = format!("/dev/test{index}");
        let mut entry = DiskState::new(d.clone());
        entry.check_status = CheckStatus::Checked;
        entry.snapshot = Some(Snapshot {
            passed: Some(true),
            ..Default::default()
        });
        state.disks.insert(d.key(), entry);
    }
    state
}

/// Takes the disk at a position out, changes it, and puts it back.
fn edit(state: &mut State, index: usize, change: impl Fn(&mut DiskState)) {
    let key = state.disks.key_at(index).to_string();
    let mut entry = state.disks.remove(&key).unwrap();
    change(&mut entry);
    state.disks.insert(key, entry);
}

#[test]
fn summary_counts_seven_disks_and_only_lists_critical_reasons() {
    let mut state = summary_ok_disks(7);
    edit(&mut state, 0, |d| {
        d.device.model = "WD30PURX-89G0VS1".to_string();
        d.device.path = "/dev/sde".to_string();
        d.kernel_severity = Some(Severity::Critical);
        d.kernel_last_message = Some("FULL KERNEL MESSAGE".to_string());
        let s = d.snapshot.as_mut().unwrap();
        s.counters.insert("Current_Pending_Sector".to_string(), 58);
        s.counters.insert("Reallocated_Sector_Ct".to_string(), 15);
        s.counters.insert("UDMA_CRC_Error_Count".to_string(), 0);
        s.firmware = "PRIVATE-FIRMWARE".to_string();
        s.power_on_hours = Some(54321);
        s.temperature = Some(35);
        s.unknown_attributes
            .insert("VENDOR-ATTRIBUTE".to_string(), Json::Unsigned(123));
    });
    assert_eq!(
        status_summary(&state),
        "DISKS: 7\nOK: 6\nWARNING: 0\nCRITICAL: 1\nUNKNOWN: 0\n\nCRITICAL:\n  WD30PURX-89G0VS1 /dev/sde\n    pending=58\n    reallocated=15\n    kernel_io_errors=yes\n"
    );
}

#[test]
fn summary_all_ok_and_empty_inventory() {
    assert_eq!(
        status_summary(&summary_ok_disks(7)),
        "DISKS: 7\nOK: 7\nWARNING: 0\nCRITICAL: 0\nUNKNOWN: 0\n\nAll disks OK\n"
    );
    let empty = status_summary(&State::default());
    assert!(empty.starts_with("DISKS: 0\n"));
    assert!(!empty.contains("All disks OK"));
}

#[test]
fn summary_unknown_reasons_and_stale_values_keep_existing_health() {
    for (check, label) in [
        (CheckStatus::Failed, "failed"),
        (CheckStatus::Sleeping, "skipped_sleeping"),
    ] {
        let mut state = summary_ok_disks(1);
        edit(&mut state, 0, |d| {
            d.check_status = check;
            let s = d.snapshot.as_mut().unwrap();
            s.counters.insert("Current_Pending_Sector".to_string(), 58);
            s.stale_fields.insert("Current_Pending_Sector".to_string());
        });
        let before = format!("{state:?}");
        let summary = status_summary(&state);
        assert!(summary.starts_with("DISKS: 1\nOK: 0\nWARNING: 0\nCRITICAL: 0\nUNKNOWN: 1\n"));
        assert!(summary.contains(&format!("smart_check={label}")));
        assert!(summary.contains("pending=58 (stale)"));
        assert_eq!(format!("{state:?}"), before);
    }
}

#[test]
fn summary_groups_warning_temperature_and_duplicate_models() {
    let mut state = summary_ok_disks(3);
    for index in 0..3 {
        edit(&mut state, index, |d| {
            d.device.model = "Same Model".to_string();
            match index {
                0 => {
                    d.kernel_severity = Some(Severity::Critical);
                }
                1 => {
                    d.hot = true;
                    let s = d.snapshot.as_mut().unwrap();
                    s.temperature = Some(52);
                    s.counters.insert("UDMA_CRC_Error_Count".to_string(), 3);
                }
                _ => {
                    d.check_status = CheckStatus::Never;
                }
            }
        });
    }
    let summary = status_summary(&state);
    assert!(summary.find("\nCRITICAL:\n").unwrap() < summary.find("\nWARNING:\n").unwrap());
    assert!(summary.find("\nWARNING:\n").unwrap() < summary.find("\nUNKNOWN:\n").unwrap());
    assert!(summary.contains("temperature=52C"));
    assert!(summary.contains("crc_errors=3"));
    for i in 0..3 {
        assert!(summary.contains(&format!("serial=DISK-{i}")));
    }
}

#[test]
fn summary_counter_names_are_short_and_zero_counters_are_omitted() {
    let mut state = summary_ok_disks(1);
    let labels = [
        ("Current_Pending_Sector", "pending"),
        ("Offline_Uncorrectable", "offline_uncorrectable"),
        ("Reallocated_Event_Count", "reallocated_events"),
        ("Reallocated_Sector_Ct", "reallocated"),
        ("Reported_Uncorrect", "reported_uncorrect"),
        ("UDMA_CRC_Error_Count", "crc_errors"),
        ("Command_Timeout", "command_timeouts"),
    ];
    edit(&mut state, 0, |d| {
        d.kernel_severity = Some(Severity::Critical);
        for (original, _) in labels {
            d.snapshot
                .as_mut()
                .unwrap()
                .counters
                .insert(original.to_string(), 3);
        }
    });
    let summary = status_summary(&state);
    for (original, label) in labels {
        assert!(summary.contains(&format!("    {label}=3\n")));
        assert!(!summary.contains(original));
    }
    edit(&mut state, 0, |d| {
        for (original, _) in labels {
            d.snapshot
                .as_mut()
                .unwrap()
                .counters
                .insert(original.to_string(), 0);
        }
    });
    let summary = status_summary(&state);
    for (_, label) in labels {
        assert!(!summary.contains(&format!("{label}=")));
    }
    assert!(summary.contains("kernel_io_errors=yes"));
}

#[test]
fn journal_replay_is_idempotent() {
    let mut state = State::default();
    let mut out = Vec::new();
    for _ in 0..2 {
        for line in KERNEL_LOG.lines() {
            apply_kernel(
                &mut state,
                record(line),
                None,
                &Config::default(),
                1000,
                &mut out,
            );
        }
    }
    assert_eq!(state.recent_alerts.len(), 12);
    assert_eq!(out.len(), 12);
    assert_eq!(state.kernel_seen_cursors.len(), 12);
    assert_eq!(state.kernel_cursor.as_deref(), Some("c12"));
}

#[test]
fn background_task_that_stops_is_named() {
    assert_eq!(
        background_exit("journal reader", Some("boom")),
        "journal reader task stopped: boom"
    );
    assert_eq!(
        background_exit("state writer", None),
        "state writer task stopped: unexpected normal exit"
    );
}

#[test]
fn a_check_is_complete_unless_a_present_disk_was_not_read() {
    let mut state = summary_ok_disks(2);
    assert!(check_complete(&state, false));
    assert!(!check_complete(&state, true));
    edit(&mut state, 1, |d| d.check_status = CheckStatus::Sleeping);
    assert!(check_complete(&state, false));
    for status in [
        CheckStatus::Failed,
        CheckStatus::Partial,
        CheckStatus::StaleRace,
    ] {
        edit(&mut state, 1, |d| d.check_status = status);
        assert!(!check_complete(&state, false));
    }
    edit(&mut state, 1, |d| d.present = false);
    assert!(check_complete(&state, false));
}

#[test]
fn disks_to_read_are_those_that_are_watched() {
    let mut cfg = Config::default();
    let mut ignored = device();
    ignored.serial = "IGNORED".to_string();
    let mut nameless = device();
    nameless.serial.clear();
    cfg.devices.ignore_serials = names(&["IGNORED", ""]);
    let devices = vec![device(), ignored, nameless];
    let read = to_read(&devices, &cfg);
    assert_eq!(read.len(), 2);
    assert_eq!(read[0].serial, "SERIAL");
    assert_eq!(read[1].serial, "");
    cfg.smart.enabled = false;
    assert!(to_read(&devices, &cfg).is_empty());
}

#[test]
fn an_absent_disk_keeps_its_history_in_the_details_only() {
    let d = device();
    let cfg = Config::default();
    let mut state = State::default();
    let mut out = Vec::new();
    apply_inventory(&mut state, &vec![d.clone()], &cfg, 10, &mut out);
    let mut snapshot = smart(SSD, 0);
    snapshot.serial = d.serial.clone();
    result(&mut state, &d, checked(snapshot), &cfg, &mut out);
    handle_kernel(
        &mut state,
        message("I/O error, dev sdb, sector 123"),
        &vec![d.clone()],
        &cfg,
        None,
        20,
        &mut out,
    );
    apply_inventory(&mut state, &vec![], &cfg, 30, &mut out);
    assert_eq!(last(&state).message, "disk disappeared");
    assert_eq!(
        status_summary(&state),
        "DISKS: 0\nOK: 0\nWARNING: 0\nCRITICAL: 0\nUNKNOWN: 0\n"
    );
    let full = display(&state);
    assert!(full.contains("present: false\n  last known health: Critical"));
    assert!(full.contains("SMART overall passed: Some(true)"));
    assert!(full.contains("I/O error, dev sdb, sector 123"));
    apply_inventory(&mut state, &vec![d.clone()], &cfg, 40, &mut out);
    assert_eq!(last(&state).message, "disk reappeared");
    assert_eq!(disk(&state, &d).health(), "Critical");
}

#[test]
fn a_new_disk_without_identity_is_told_with_a_warning() {
    let mut d = device();
    d.serial.clear();
    let mut state = State::default();
    let mut out = Vec::new();
    apply_inventory(&mut state, &vec![d], &Config::default(), 7, &mut out);
    assert_eq!(out.len(), 2);
    assert_eq!(out[0].event.message, "new disk discovered");
    assert!(!out[0].send);
    assert_eq!(
        out[1].event.message,
        "no serial or WWN: identity depends on device path"
    );
    assert!(out[1].send);
    assert_eq!(out[1].event.timestamp, 7);
}

#[test]
fn a_device_with_another_diskseq_is_not_recorded() {
    let mut d = device();
    d.diskseq = Some(5);
    let mut state = State::default();
    let mut out = Vec::new();
    let mut snapshot = smart(HDD_OK, 0);
    snapshot.serial = d.serial.clone();
    assert!(apply_result(
        &mut state,
        d.clone(),
        checked(snapshot.clone()),
        &Config::default(),
        Some(6),
        1000,
        &mut out
    ));
    assert_eq!(
        disk(&state, &d).smart_error.as_deref(),
        Some("device disappeared or diskseq changed during SMART check")
    );
    assert!(disk(&state, &d).snapshot.is_none());
    assert!(!apply_result(
        &mut state,
        d.clone(),
        checked(snapshot),
        &Config::default(),
        Some(5),
        2000,
        &mut out
    ));
    assert_eq!(disk(&state, &d).check_status, CheckStatus::Checked);
    assert_eq!(disk(&state, &d).checked_at, Some(2000));
    assert_eq!(last(&state).message, "SMART reading recovered");
}

#[test]
fn a_failed_reading_makes_the_device_doubtful_for_kernel_messages() {
    let mut d = device();
    d.diskseq = Some(5);
    let mut state = State::default();
    state.prepare_boot(Some("boot".to_string()));
    let mut topology = vec![d.clone()];
    let line =
        r#"{"_BOOT_ID":"boot","__REALTIME_TIMESTAMP":"2000000","MESSAGE":"ata2.00: timeout"}"#;
    assert!(fresh_match(&record(line), &topology, Some("boot"), Some(5)).is_some());
    assert!(fresh_match(&record(line), &topology, Some("boot"), Some(6)).is_none());
    assert!(fresh_match(&record(line), &topology, Some("other"), Some(5)).is_none());
    assert!(fresh_match(&record(line), &topology, None, Some(5)).is_none());
    scan(
        &mut state,
        Scan::Disk(d.clone(), Err("smartctl timed out".to_string())),
        &mut topology,
    );
    assert_eq!(topology[0].diskseq, None);
    assert!(fresh_match(&record(line), &topology, Some("boot"), Some(5)).is_none());
}

#[test]
fn a_failed_discovery_forgets_the_topology_and_nothing_else() {
    let mut state = summary_ok_disks(1);
    let before = format!("{state:?}");
    let mut topology = vec![device()];
    scan(
        &mut state,
        Scan::DiscoveryFailed("lsblk failed".to_string()),
        &mut topology,
    );
    assert!(topology.is_empty());
    assert_eq!(format!("{state:?}"), before);
}

#[test]
fn an_ignored_disk_is_marked_as_disabled_once_its_serial_is_known() {
    let mut cfg = Config::default();
    cfg.devices.ignore_serials = names(&["SERIAL"]);
    let d = device();
    let mut state = State::default();
    state.disks.insert(d.key(), DiskState::new(d.clone()));
    let mut topology = vec![d.clone()];
    let mut out = Vec::new();
    let mut snapshot = smart(HDD_BAD, 200);
    snapshot.serial = d.serial.clone();
    apply_scan(
        &mut state,
        Scan::Disk(d.clone(), checked(snapshot)),
        &mut topology,
        &cfg,
        None,
        None,
        1000,
        &mut out,
    );
    assert!(out.is_empty());
    assert_eq!(disk(&state, &d).check_status, CheckStatus::Disabled);
    assert!(disk(&state, &d).snapshot.is_none());
}

#[test]
fn discarding_the_history_of_another_disk_is_told() {
    let mut state = State::default();
    let mut topology = vec![device()];
    let mut out = Vec::new();
    let mut entry = DiskState::new(device());
    entry.snapshot = Some(Snapshot {
        serial: "OTHER".to_string(),
        ..Default::default()
    });
    state.disks.insert(device().key(), entry);
    let own = Snapshot {
        serial: "SERIAL".to_string(),
        passed: Some(true),
        ..Default::default()
    };
    let cfg = Config::default();
    assert!(contradicts_history(&state, &device(), &checked(own.clone()), None));
    assert!(!contradicts_history(&state, &device(), &Ok(Reading::Sleeping), None));
    assert!(!contradicts_history(&state, &device(), &Err("e".to_string()), None));
    let foreign = Snapshot {
        serial: "THIRD".to_string(),
        ..Default::default()
    };
    assert!(!contradicts_history(&state, &device(), &checked(foreign), None));
    for expected in [Some(device().key()), None] {
        let told = apply_scan(
            &mut state,
            Scan::Disk(device(), checked(own.clone())),
            &mut topology,
            &cfg,
            None,
            None,
            1000,
            &mut out,
        );
        assert_eq!(told, expected);
        assert_eq!(snapshot_of(&state, &device()).serial, "SERIAL");
    }
}

#[test]
fn the_daemon_saves_what_changed_and_ends_on_demand() {
    let mut dirty = true;
    assert_eq!(daemon_step(&mut dirty, DaemonEvent::Tick), DaemonAction::Save);
    assert!(!dirty);
    assert_eq!(daemon_step(&mut dirty, DaemonEvent::Tick), DaemonAction::GoOn);
    assert_eq!(daemon_step(&mut dirty, DaemonEvent::TakenIn), DaemonAction::GoOn);
    assert!(dirty);
    assert_eq!(daemon_step(&mut dirty, DaemonEvent::Signal), DaemonAction::Stop);
    assert_eq!(daemon_step(&mut dirty, DaemonEvent::TaskEnded), DaemonAction::Fail);
    assert!(dirty);
    assert!(failed_scan(true, "e".to_string()).is_none());
    assert!(matches!(
        failed_scan(false, "e".to_string()),
        Some(Scan::DiscoveryFailed(e)) if e == "e"
    ));
}
