use disk_watch::devices::{Device, Kind};
use disk_watch::json::decode;
use disk_watch::smart::{
    arguments, counter_name, identity_mismatch, interpret, is_sleeping, parse, read, unreadable,
    ExitStatus, Reading, SelfTestStatus, SmartError, Snapshot,
};

fn device() -> Device {
    Device {
        path: "/dev/sdz".to_string(),
        model: "Model".to_string(),
        serial: "S1".to_string(),
        wwn: "".to_string(),
        kind: Kind::Hdd,
        aliases: vec![],
        diskseq: None,
        discovered_at: 0,
        wd_usb: false,
    }
}

fn report(text: &str, code: i32) -> Snapshot {
    parse(text.as_bytes(), code).unwrap()
}

#[test]
fn exit_bits_have_their_meanings() {
    let e = ExitStatus::new(0b1111_1000);
    assert!(!e.incomplete && e.disk_failing && e.prefailure);
    assert!(e.past_threshold && e.error_log && e.self_test_log);
    assert_eq!(e.mask, 248);
    for bit in [1, 2, 4] {
        assert!(ExitStatus::new(bit).incomplete);
    }
    let clean = ExitStatus::new(0);
    assert!(!clean.incomplete && !clean.disk_failing && !clean.self_test_log);
    assert_eq!(format!("{:?}", ExitStatus::default()), format!("{clean:?}"));
}

#[test]
fn each_failure_to_read_has_its_message() {
    let e = parse(b"{}", 256).unwrap_err();
    assert!(matches!(e, SmartError::ExitStatus));
    assert_eq!(
        e.message(),
        "invalid smartctl exit status: out of range integral type conversion attempted"
    );
    assert!(matches!(parse(b"{}", -1), Err(SmartError::ExitStatus)));
    let e = parse(b"{", 4).unwrap_err();
    assert!(matches!(e, SmartError::Json(_)));
    assert!(e.message().starts_with("invalid smartctl JSON: EOF while parsing"));
    let e = parse(
        br#"{"smartctl":{"exit_status":2,"messages":[{"string":"open failed","severity":"error"}]}}"#,
        1,
    )
    .unwrap_err();
    assert_eq!(
        e.message(),
        "no usable SMART data (exit mask 3): [{\"severity\":\"error\",\"string\":\"open failed\"}]"
    );
    let e = read(Kind::Hdd, true, None, b"").unwrap_err();
    assert_eq!(e.message(), "smartctl terminated by signal");
    let e = read(Kind::Hdd, true, Some(3), b"x").unwrap_err();
    assert!(e.message().starts_with("invalid sleeping SMART JSON: "));
    let e = read(
        Kind::Hdd,
        true,
        Some(3),
        br#"{"smartctl":{"version":[7,2],"exit_status":3,"messages":[{"string":"Device open failed","severity":"error"}]}}"#,
    )
    .unwrap_err();
    assert_eq!(
        e.message(),
        "SMART failed with exit 3 without a sleeping indication"
    );
}

#[test]
fn sleeping_disks_are_recognised_in_both_formats() {
    let new = br#"{"power_mode":{"ata_value":0,"name":"STANDBY"},"smartctl":{"exit_status":3}}"#;
    assert!(matches!(
        read(Kind::Hdd, true, Some(3), new),
        Ok(Reading::Sleeping)
    ));
    let old = br#"{"smartctl":{"version":[7,2],"exit_status":3,"messages":[{"string":"Device is in SLEEP mode, exit(3)","severity":"information"}]}}"#;
    assert!(matches!(
        read(Kind::Hdd, true, Some(3), old),
        Ok(Reading::Sleeping)
    ));
    for (text, expected) in [
        (r#"{"power_mode":"standby_y"}"#, true),
        (r#"{"power_mode":{"name":"IDLE_A"}}"#, false),
        (
            r#"{"power_mode":{"name":"IDLE_A"},"smartctl":{"messages":[{"string":"Device is in SLEEP mode, exit(3)"}]}}"#,
            false,
        ),
        (r#"{}"#, false),
    ] {
        assert_eq!(is_sleeping(&decode(text.as_bytes()).unwrap()), expected, "{text}");
    }
    assert!(read(Kind::Ssd, true, Some(3), new).is_err());
    assert!(read(Kind::Hdd, false, Some(3), new).is_err());
}

#[test]
fn only_hard_disks_are_spared_in_their_sleep() {
    let mut d = device();
    assert_eq!(
        arguments(&d, true),
        vec![
            "-j".to_string(),
            "-a".to_string(),
            "-n".to_string(),
            "standby,3".to_string(),
            "/dev/sdz".to_string()
        ]
    );
    assert_eq!(arguments(&d, false).len(), 3);
    d.kind = Kind::Ssd;
    assert_eq!(
        arguments(&d, true),
        vec!["-j".to_string(), "-a".to_string(), "/dev/sdz".to_string()]
    );
}

#[test]
fn a_bridge_that_hides_the_status_is_excused() {
    let table = r#""ata_smart_attributes":{"table":[{"id":5,"name":"Reallocated_Sector_Ct","raw":{"value":4,"string":"4"}}]}"#;
    let limited = format!(
        "{{\"smartctl\":{{\"exit_status\":4,\"messages\":[{{\"string\":\"SMART Status not supported: Incomplete response, ATA output registers missing\",\"severity\":\"error\"}}]}},{table}}}"
    );
    let s = report(&limited, 4);
    assert!(s.issue.is_none());
    assert!(!s.exit.incomplete);
    assert_eq!(s.exit.mask, 4);
    assert_eq!(s.counters.get("Reallocated_Sector_Ct"), Some(&4));
    let attribute = format!(
        "{{\"smartctl\":{{\"messages\":[{{\"string\":\"Warning: This result is based on an Attribute check.\",\"severity\":\"warning\"}},{{\"string\":\"x\",\"severity\":\"info\"}}]}},\"smart_status\":{{\"passed\":true}},{table}}}"
    );
    assert_eq!(report(&attribute, 4).passed, Some(true));
    let worse = limited.replace("}]}", "},{\"string\":\"checksum\",\"severity\":\"error\"}]}");
    let s = report(&worse, 4);
    assert!(s.issue.is_some());
    assert!(s.counters.is_empty());
    assert!(report(&limited, 6).issue.is_some());
}

#[test]
fn an_incomplete_report_names_its_messages() {
    let s = report(
        r#"{"smartctl":{"messages":[{"string":"bad checksum"}]},"model_name":"","product":" P ","serial_number":" S ","firmware_version":"F","smart_status":{"passed":true},"temperature":{"current":99}}"#,
        20,
    );
    assert_eq!(
        s.issue.as_deref(),
        Some("incomplete SMART data (exit mask 20): [{\"string\":\"bad checksum\"}]")
    );
    assert_eq!(s.model, "P");
    assert_eq!(s.serial, "S");
    assert_eq!(s.firmware, "F");
    assert_eq!(s.passed, None);
    assert_eq!(s.prefailure, Some(true));
    assert_eq!(s.temperature, None);
}

#[test]
fn self_tests_of_all_kinds() {
    for (value, expected) in [
        (0, SelfTestStatus::Passed),
        (16, SelfTestStatus::Aborted),
        (47, SelfTestStatus::Aborted),
        (48, SelfTestStatus::Failed),
        (143, SelfTestStatus::Failed),
        (144, SelfTestStatus::Unknown),
        (241, SelfTestStatus::InProgress),
    ] {
        let s = report(
            &format!("{{\"smart_status\":{{}},\"ata_smart_self_test_log\":{{\"extended\":{{\"table\":[{{\"status\":{{\"value\":{value},\"string\":\"t\"}},\"lifetime_hours\":9}}]}}}}}}"),
            0,
        );
        assert_eq!(s.self_test_status, Some(expected), "{value}");
        assert_eq!(s.self_test_hours, Some(9));
        assert_eq!(s.self_test.as_deref(), Some("t"));
    }
    for (value, expected) in [
        (0, SelfTestStatus::Passed),
        (4, SelfTestStatus::Aborted),
        (5, SelfTestStatus::Failed),
        (7, SelfTestStatus::Failed),
        (8, SelfTestStatus::Aborted),
        (9, SelfTestStatus::Aborted),
        (10, SelfTestStatus::Unknown),
    ] {
        let s = report(
            &format!("{{\"smart_status\":{{}},\"ata_smart_self_test_log\":{{\"standard\":{{\"table\":[{{}}]}}}},\"nvme_self_test_log\":{{\"table\":[{{\"self_test_result\":{{\"value\":{value},\"string\":\"n\"}},\"power_on_hours\":3}}]}}}}"),
            0,
        );
        assert_eq!(s.self_test_status, Some(expected), "{value}");
        assert_eq!(s.self_test_hours, Some(3));
        assert_eq!(s.self_test.as_deref(), Some("n"));
    }
    let s = report(r#"{"smart_status":{}}"#, 0);
    assert_eq!(s.self_test_status, None);
}

#[test]
fn wwns_are_put_together_from_their_parts() {
    let s = report(
        r#"{"smart_status":{},"wwn":{"naa":5,"oui":3274,"id":68719476735},"logical_unit_id":"x"}"#,
        0,
    );
    assert_eq!(s.wwn, format!("{:016x}", (5u64 << 60) | (3274u64 << 36) | 68719476735u64));
    let s = report(
        r#"{"smart_status":{},"wwn":{"naa":16,"oui":1,"id":1},"logical_unit_id":" 0xabc "}"#,
        0,
    );
    assert_eq!(s.wwn, "0xabc");
}

#[test]
fn vendor_attributes_are_kept_for_inspection() {
    let s = report(
        r#"{"smart_status":{"passed":true},"ata_smart_attributes":{"table":[{"id":188,"name":"Command_Timeout","raw":{"value":5}},{"id":5,"name":"Reallocated_Sector_Count","raw":{"value":3}},{"name":"Percent_Lifetime_Remain","value":101,"raw":{"value":1}},{"id":200,"raw":{"value":1.5}}]}}"#,
        0,
    );
    assert_eq!(s.counters.get("Reallocated_Sector_Ct"), Some(&3));
    assert_eq!(s.counters.len(), 1);
    assert_eq!(s.remaining_life, None);
    assert_eq!(s.unknown_attributes.key_at(0), "188:Command_Timeout");
    assert_eq!(s.unknown_attributes.key_at(1), "200:Unknown");
    assert_eq!(s.unknown_attributes.value_at(1).to_text(), "{\"value\":1.5}");
    assert_eq!(s.unknown_attributes.key_at(2), "null:Percent_Lifetime_Remain");
}

#[test]
fn counters_have_one_name_each() {
    assert_eq!(counter_name("Pending_Sector_Count"), Some("Current_Pending_Sector"));
    assert_eq!(counter_name("SATA_CRC_Error_Count"), Some("UDMA_CRC_Error_Count"));
    assert_eq!(counter_name("Command_Timeouts"), Some("Command_Timeout"));
    assert_eq!(counter_name("Not_In_Use"), None);
}

#[test]
fn a_disk_that_changed_during_the_check_is_named() {
    let mut d = device();
    let mut s = Snapshot::default();
    assert_eq!(identity_mismatch(&d, &s), None);
    s.serial = "S2".to_string();
    assert_eq!(
        identity_mismatch(&d, &s),
        Some("serial changed during check: \"S1\" -> \"S2\"".to_string())
    );
    s.serial = "S1".to_string();
    s.model = "other spelling".to_string();
    assert_eq!(identity_mismatch(&d, &s), None);
    d.wwn = " 0x0x50:01 AB".to_string();
    s.wwn = "5001ab".to_string();
    assert_eq!(identity_mismatch(&d, &s), None);
    s.wwn = "5001ac".to_string();
    assert_eq!(
        identity_mismatch(&d, &s),
        Some("WWN changed during check: \" 0x0x50:01 AB\" -> \"5001ac\"".to_string())
    );
    d.wwn.clear();
    d.serial.clear();
    s.serial.clear();
    s.wwn.clear();
    s.model = "New\n".to_string();
    assert_eq!(
        identity_mismatch(&d, &s),
        Some("model changed during check: \"Model\" -> \"New\\n\"".to_string())
    );
}

#[test]
fn failing_bits_survive_a_report_that_cannot_be_read() {
    for text in ["", "{", "null", "[]", r#"{"smart_status":{"passed":true}}"#] {
        assert_eq!(report(text, 8).passed, Some(false), "{text}");
        assert_eq!(report(text, 16).prefailure, Some(true), "{text}");
    }
}

#[test]
fn a_decoded_report_is_interpreted_alone() {
    let v = decode(br#"{"smart_status":{"passed":true},"scsi_error_counter_log":{}}"#).unwrap();
    let s = interpret(&v, 0).unwrap();
    assert_eq!(s.passed, Some(true));
    assert_eq!(s.prefailure, Some(false));
    assert!(!s.unknown());
}

#[test]
fn earlier_values_are_kept_and_marked() {
    let mut old = Snapshot::default();
    old.passed = Some(true);
    old.temperature = Some(40);
    old.self_test = Some("done".to_string());
    old.self_test_status = Some(SelfTestStatus::Passed);
    old.counters.insert("a".to_string(), 1);
    old.counters.insert("b".to_string(), 2);
    let mut new = Snapshot::default();
    new.temperature = Some(41);
    new.counters.insert("b".to_string(), 3);
    assert!(new.unknown());
    new.retain_missing(&old);
    assert_eq!(new.passed, Some(true));
    assert_eq!(new.temperature, Some(41));
    assert_eq!(new.self_test.as_deref(), Some("done"));
    assert_eq!(new.counters.get("a"), Some(&1));
    assert_eq!(new.counters.get("b"), Some(&3));
    assert_eq!(new.power_on_hours, None);
    assert_eq!(new.stale_fields.len(), 4);
    for field in ["a", "passed", "self_test", "self_test_status"] {
        assert!(new.stale_fields.contains(field), "{field}");
    }
    assert!(new.unknown());
}

#[test]
fn a_report_that_is_passed_over_has_its_reason() {
    let e = unreadable(b"{", 8).unwrap();
    assert!(e.starts_with("EOF while parsing"));
    assert!(unreadable(b"{", 16).is_some());
    assert!(unreadable(b"{", 4).is_none() && unreadable(b"{", 256 + 8).is_none());
    assert!(unreadable(b"{", -8).is_none() && unreadable(b"{}", 8).is_none());
    let s = parse(b"{", 8).unwrap();
    assert_eq!(s.passed, Some(false));
    assert!(s.issue.is_some());
}

#[test]
fn floats_in_messages_are_printed_as_they_are() {
    let text = r#"{"smart_status":{},"smartctl":{"messages":[1.0715660391465826e-308,9007199254740993.5]}}"#;
    let value: serde_json::Value = serde_json::from_str(text).unwrap();
    let s = parse(text.as_bytes(), 4).unwrap();
    assert_eq!(
        s.issue.unwrap(),
        format!(
            "incomplete SMART data (exit mask 4): {}",
            value["smartctl"]["messages"]
        )
    );
}
