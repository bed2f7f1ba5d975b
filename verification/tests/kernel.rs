use disk_watch::alert::{Event, Severity};
use disk_watch::devices::{Device, Kind};
use disk_watch::kernel::{
    arguments, boot_id_from, classify, fresh_match, needs_diskseq, parse, records_of,
    retry_without_cursor, tokens, RecordError,
};
use disk_watch::notifier::{Desktop, Notifier};

fn device(path: &str, aliases: &[&str]) -> Device {
    Device {
        path: path.to_string(),
        model: "M<1>".to_string(),
        serial: "S&1".to_string(),
        wwn: "".to_string(),
        kind: Kind::Hdd,
        aliases: aliases.iter().map(|s| s.to_string()).collect(),
        diskseq: Some(1),
        discovered_at: 10,
        wd_usb: false,
    }
}

#[test]
fn records_are_read_field_by_field() {
    let r = parse(r#"{"__CURSOR":"c","_BOOT_ID":"b","__MONOTONIC_TIMESTAMP":"12","__REALTIME_TIMESTAMP":"3999999","MESSAGE":"m"}"#).unwrap();
    assert_eq!(r.cursor.as_deref(), Some("c"));
    assert_eq!(r.boot_id.as_deref(), Some("b"));
    assert_eq!(r.monotonic_usec, Some(12));
    assert_eq!(r.timestamp, Some(3));
    assert_eq!(r.message, "m");
    let r = parse(r#"{"MESSAGE":[73,47,79,255,300,"x",-1,33],"__MONOTONIC_TIMESTAMP":12}"#).unwrap();
    assert_eq!(r.message, "I/O\u{fffd}!");
    assert_eq!(r.monotonic_usec, None);
    assert_eq!(r.cursor, None);
    let r = parse(r#"{"MESSAGE":[195,169]}"#).unwrap();
    assert_eq!(r.message, "é");
}

#[test]
fn lines_that_are_no_records_are_errors() {
    let e = parse(r#"{"MESSAGE":null}"#).unwrap_err();
    assert!(matches!(e, RecordError::NoMessage));
    assert_eq!(e.message(), "journal MESSAGE missing");
    let e = parse("{").unwrap_err();
    assert!(matches!(e, RecordError::Json(_)));
    assert_eq!(
        e.message(),
        serde_json::from_str::<serde_json::Value>("{")
            .unwrap_err()
            .to_string()
    );
}

#[test]
fn words_are_runs_of_letters_digits_and_dashes() {
    assert_eq!(
        tokens("sd 4:0: [sde] a-b_c,é UNC"),
        vec![
            "sd".to_string(),
            "4".to_string(),
            "0".to_string(),
            "sde".to_string(),
            "a-b_c".to_string(),
            "UNC".to_string()
        ]
    );
    assert!(tokens(" ,;").is_empty());
    assert_eq!(tokens("x"), vec!["x".to_string()]);
}

#[test]
fn every_kind_of_trouble_is_recognised() {
    for (message, expected) in [
        ("Buffer I/O error", Some((Severity::Critical, "io_error"))),
        ("Unrecovered read error", Some((Severity::Critical, "medium_error"))),
        ("Medium Error", Some((Severity::Critical, "medium_error"))),
        ("hard resetting link", Some((Severity::Critical, "link_reset"))),
        ("COMRESET failed", Some((Severity::Critical, "link_reset"))),
        ("Aborted journal", Some((Severity::Critical, "filesystem"))),
        ("EXT4-fs error", Some((Severity::Critical, "filesystem"))),
        ("Remounting filesystem read-only", Some((Severity::Critical, "filesystem"))),
        ("blk_update_request: critical", Some((Severity::Critical, "io_error"))),
        ("lost async page write", Some((Severity::Critical, "io_error"))),
        ("error: { UNC }", Some((Severity::Critical, "medium_error"))),
        ("error: { unc }", None),
        ("FUNCTION", None),
        ("sda: failed command", Some((Severity::Warning, "failed_command"))),
        ("link is slow to respond", Some((Severity::Warning, "link_slow"))),
        ("NVMe0: Reset", Some((Severity::Critical, "nvme_reset"))),
        ("scsi2: timed out", Some((Severity::Warning, "timeout"))),
        ("block: timeout", Some((Severity::Warning, "timeout"))),
        ("sd: timeout", None),
        ("atari: timeout", None),
        ("all good", None),
    ] {
        assert_eq!(classify(message), expected, "{message}");
    }
}

#[test]
fn a_port_is_believed_only_while_it_is_known_to_be_the_same_disk() {
    let devices = vec![device("/dev/sda", &["sda", "ata1"])];
    let line = r#"{"_BOOT_ID":"b","__REALTIME_TIMESTAMP":"11000000","MESSAGE":"ata1: timeout"}"#;
    let r = parse(line).unwrap();
    assert_eq!(needs_diskseq(&r, &devices).unwrap().path, "/dev/sda");
    assert!(fresh_match(&r, &devices, Some("b"), Some(1)).is_some());
    assert!(fresh_match(&r, &devices, Some("b"), Some(2)).is_none());
    assert!(fresh_match(&r, &devices, Some("b"), None).is_none());
    let old = parse(&line.replace("11000000", "10999999")).unwrap();
    assert!(fresh_match(&old, &devices, Some("b"), Some(1)).is_none());
    let named = parse(r#"{"MESSAGE":"I/O error, dev sda"}"#).unwrap();
    assert!(needs_diskseq(&named, &devices).is_none());
    assert!(fresh_match(&named, &devices, None, None).is_some());
}

#[test]
fn names_in_brackets_must_close() {
    let devices = vec![device("/dev/sda", &["sda"]), device("/dev/sdb", &["sdb"])];
    for (message, expected) in [
        ("[sda] x", Some("/dev/sda")),
        ("[[sda] x", Some("/dev/sda")),
        ("[sda [sdb] x", Some("/dev/sdb")),
        ("[sd-a] timeout", None),
        ("dev sda dev sda", Some("/dev/sda")),
    ] {
        let text = serde_json::Value::String(message.to_string());
        let r = parse(&format!("{{\"MESSAGE\":{text}}}")).unwrap();
        assert_eq!(
            fresh_match(&r, &devices, None, None).map(|d| d.path.as_str()),
            expected,
            "{message}"
        );
    }
}

#[test]
fn the_journal_is_read_from_the_cursor_on() {
    assert_eq!(
        arguments(Some("c"), true).join(" "),
        "-k -o json --no-pager -f --after-cursor c -n all"
    );
    assert_eq!(
        arguments(None, false).join(" "),
        "-k -o json --no-pager -n 200"
    );
}

#[test]
fn a_cursor_that_gives_nothing_is_dropped_once() {
    let mut cursor = Some("c".to_string());
    assert!(!retry_without_cursor(true, &mut cursor));
    assert_eq!(cursor.as_deref(), Some("c"));
    assert!(retry_without_cursor(false, &mut cursor));
    assert_eq!(cursor, None);
    assert!(!retry_without_cursor(false, &mut cursor));
}

#[test]
fn boot_ids_lose_their_dashes() {
    assert_eq!(boot_id_from("0a-1b-2c\n"), "0a1b2c");
}

#[test]
fn notifications_are_plain_text_with_an_urgency() {
    let d = device("/dev/sda", &[]);
    let e = Event::at(5, Severity::Critical, Some(&d), "c", "<b>bad</b>");
    let args = Desktop.notify(&e).unwrap();
    assert_eq!(
        args,
        vec![
            "--app-name=disk-watch".to_string(),
            "--urgency".to_string(),
            "critical".to_string(),
            "--".to_string(),
            "disk-watch: Critical".to_string(),
            "M&lt;1&gt; serial=S&amp;1 /dev/sda\n&lt;b&gt;bad&lt;/b&gt;".to_string()
        ]
    );
    let e = Event::at(5, Severity::Warning, None, "c", "m");
    let args = Desktop.notify(&e).unwrap();
    assert_eq!(args[2], "normal");
    assert_eq!(args[5], "Unknown disk\nm");
    assert!(Desktop
        .notify(&Event::at(5, Severity::Info, None, "c", "m"))
        .is_none());
}

#[test]
fn log_lines_name_the_disk_or_say_that_there_is_none() {
    let d = device("/dev/sda", &[]);
    let e = Event::new(Severity::Warning, Some(&d), "c", "m");
    assert!(e.timestamp > 1_600_000_000);
    let line = e.log();
    assert_eq!(line.severity, "WARNING");
    assert_eq!(line.model, "M<1>");
    assert_eq!(line.serial, "S&1");
    assert_eq!(line.device, "/dev/sda");
    assert_eq!(line.category, "c");
    assert_eq!(line.message, "m");
    let e = Event::at(1, Severity::Info, None, "c", "m");
    let line = e.log();
    assert_eq!(line.severity, "INFO");
    assert_eq!(line.model, "unknown");
    assert_eq!(line.serial, "");
    assert_eq!(line.device, "uncorrelated");
}

#[test]
fn output_of_the_journal_is_read_line_by_line() {
    let text = "{\"MESSAGE\":\"one\"}\nbroken\r\n{}\n{\"MESSAGE\":\"two\"}";
    let read = records_of(text);
    assert_eq!(read.len(), 4);
    assert_eq!(read[0].as_ref().unwrap().message, "one");
    assert!(matches!(read[1], Err(RecordError::Json(_))));
    assert!(matches!(read[2], Err(RecordError::NoMessage)));
    assert_eq!(read[3].as_ref().unwrap().message, "two");
    assert!(records_of("").is_empty());
}
